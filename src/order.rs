use vstd::prelude::*;

verus! {

/// Byte-wise lexicographic order: `a` sorts strictly before `b`.
pub open spec fn bytes_lt(a: Seq<u8>, b: Seq<u8>) -> bool
    decreases a.len(),
{
    if a.len() == 0 {
        b.len() > 0
    } else if b.len() == 0 {
        false
    } else if a[0] != b[0] {
        a[0] < b[0]
    } else {
        bytes_lt(a.drop_first(), b.drop_first())
    }
}

/// Where a key goes in `order` (a list of indices into `keys`): after every entry,
/// counted from the back, whose key is not greater than it. Equal keys keep their
/// arrival order.
pub open spec fn insert_pos(order: Seq<usize>, key: Seq<u8>, keys: Seq<Seq<u8>>) -> int
    decreases order.len(),
{
    if order.len() == 0 {
        0
    } else if bytes_lt(key, keys[order.last() as int]) {
        insert_pos(order.drop_last(), key, keys)
    } else {
        order.len() as int
    }
}

/// The indices `0..n` of `keys`, stably sorted by key.
pub open spec fn sorted_prefix(keys: Seq<Seq<u8>>, n: nat) -> Seq<usize>
    decreases n,
{
    if n == 0 {
        Seq::empty()
    } else {
        let o = sorted_prefix(keys, (n - 1) as nat);
        o.insert(insert_pos(o, keys[n - 1], keys), (n - 1) as usize)
    }
}

/// The indices of `keys`, stably sorted by key.
pub open spec fn sort_order(keys: Seq<Seq<u8>>) -> Seq<usize> {
    sorted_prefix(keys, keys.len())
}

/// The keys of a list of byte strings.
pub open spec fn slices_view(keys: Seq<&[u8]>) -> Seq<Seq<u8>> {
    keys.map_values(|k: &[u8]| k@)
}

/// `s` lists each of `0..n` exactly once.
pub open spec fn is_permutation(s: Seq<usize>, n: nat) -> bool {
    &&& s.len() == n
    &&& forall|i: int| 0 <= i < s.len() ==> (#[trigger] s[i]) < n
    &&& forall|i: int, j: int| 0 <= i < j < s.len() ==> s[i] != s[j]
    &&& forall|i: int|
        0 <= i < n ==> 0 <= #[trigger] position_of(s, i) < n && s[position_of(s, i)] == i
}

/// Where `i` stands in `s`, if it does.
pub open spec fn position_of(s: Seq<usize>, i: int) -> int {
    choose|k: int| 0 <= k < s.len() && s[k] == i
}

/// `order` lists indices whose keys never decrease.
pub open spec fn sorted_by_keys(order: Seq<usize>, keys: Seq<Seq<u8>>) -> bool {
    forall|i: int, j: int|
        0 <= i < j < order.len() ==> !bytes_lt(
            #[trigger] keys[order[j] as int],
            #[trigger] keys[order[i] as int],
        )
}

pub proof fn lemma_bytes_lt_irreflexive(a: Seq<u8>)
    ensures
        !bytes_lt(a, a),
    decreases a.len(),
{
    if a.len() > 0 {
        lemma_bytes_lt_irreflexive(a.drop_first());
    }
}

pub proof fn lemma_bytes_lt_transitive(a: Seq<u8>, b: Seq<u8>, c: Seq<u8>)
    requires
        bytes_lt(a, b),
        bytes_lt(b, c),
    ensures
        bytes_lt(a, c),
    decreases a.len(),
{
    if a.len() > 0 && b.len() > 0 && c.len() > 0 && a[0] == b[0] && b[0] == c[0] {
        lemma_bytes_lt_transitive(a.drop_first(), b.drop_first(), c.drop_first());
    }
}

/// Any two byte strings are ordered one way or the other, or are equal.
pub proof fn lemma_bytes_lt_total(a: Seq<u8>, b: Seq<u8>)
    ensures
        bytes_lt(a, b) || bytes_lt(b, a) || a == b,
    decreases a.len(),
{
    if a.len() > 0 && b.len() > 0 && a[0] == b[0] {
        lemma_bytes_lt_total(a.drop_first(), b.drop_first());
        if a.drop_first() == b.drop_first() {
            assert(a =~= seq![a[0]] + a.drop_first());
            assert(b =~= seq![b[0]] + b.drop_first());
        }
    } else if a.len() == 0 && b.len() == 0 {
        assert(a =~= b);
    }
}

/// "Not greater" is transitive.
pub proof fn lemma_bytes_le_transitive(a: Seq<u8>, b: Seq<u8>, c: Seq<u8>)
    requires
        !bytes_lt(b, a),
        !bytes_lt(c, b),
    ensures
        !bytes_lt(c, a),
{
    if bytes_lt(c, a) {
        lemma_bytes_lt_total(a, b);
        if bytes_lt(a, b) {
            lemma_bytes_lt_transitive(c, a, b);
        }
    }
}

/// Inserting at `insert_pos` into a sorted list: everything before the position
/// is not greater than `key`, everything from it on is greater.
proof fn lemma_insert_pos(order: Seq<usize>, key: Seq<u8>, keys: Seq<Seq<u8>>)
    requires
        sorted_by_keys(order, keys),
    ensures
        0 <= insert_pos(order, key, keys) <= order.len(),
        forall|q: int|
            0 <= q < insert_pos(order, key, keys) ==> !bytes_lt(key, #[trigger] keys[order[q] as int]),
        forall|q: int|
            insert_pos(order, key, keys) <= q < order.len() ==> bytes_lt(
                key,
                #[trigger] keys[order[q] as int],
            ),
    decreases order.len(),
{
    if order.len() > 0 {
        let last = keys[order.last() as int];
        if bytes_lt(key, last) {
            let rest = order.drop_last();
            assert(sorted_by_keys(rest, keys)) by {
                assert forall|i: int, j: int| 0 <= i < j < rest.len() implies !bytes_lt(
                    #[trigger] keys[rest[j] as int],
                    #[trigger] keys[rest[i] as int],
                ) by {
                    assert(rest[i] == order[i] && rest[j] == order[j]);
                }
            }
            lemma_insert_pos(rest, key, keys);
            assert forall|q: int| 0 <= q < insert_pos(order, key, keys) implies !bytes_lt(
                key,
                #[trigger] keys[order[q] as int],
            ) by {
                assert(rest[q] == order[q]);
            }
            assert forall|q: int|
                insert_pos(order, key, keys) <= q < order.len() implies bytes_lt(
                key,
                #[trigger] keys[order[q] as int],
            ) by {
                if q < order.len() - 1 {
                    assert(rest[q] == order[q]);
                }
            }
        } else {
            assert forall|q: int| 0 <= q < order.len() implies !bytes_lt(
                key,
                #[trigger] keys[order[q] as int],
            ) by {
                if q < order.len() - 1 {
                    assert(!bytes_lt(keys[order[order.len() - 1] as int], keys[order[q] as int]));
                    lemma_bytes_le_transitive(keys[order[q] as int], last, key);
                }
            }
        }
    }
}

/// The stable sort of the indices of `keys` is a permutation of them, in key order.
pub proof fn lemma_sort_order(keys: Seq<Seq<u8>>, n: nat)
    requires
        n <= keys.len(),
        keys.len() <= usize::MAX,
    ensures
        is_permutation(sorted_prefix(keys, n), n),
        sorted_by_keys(sorted_prefix(keys, n), keys),
    decreases n,
{
    if n > 0 {
        let m = (n - 1) as nat;
        let o = sorted_prefix(keys, m);
        lemma_sort_order(keys, m);
        let key = keys[m as int];
        let p = insert_pos(o, key, keys);
        lemma_insert_pos(o, key, keys);
        let s = o.insert(p, m as usize);
        assert(s == sorted_prefix(keys, n));
        assert forall|i: int| 0 <= i < s.len() implies (#[trigger] s[i]) < n by {
            if i < p {
                assert(s[i] == o[i]);
            } else if i > p {
                assert(s[i] == o[i - 1]);
            }
        }
        assert forall|i: int| 0 <= i < n implies 0 <= #[trigger] position_of(s, i) < n
            && s[position_of(s, i)] == i by {
            if i == m {
                assert(s[p] == i);
            } else {
                let k = position_of(o, i);
                assert(0 <= k < m && o[k] == i);
                if k < p {
                    assert(s[k] == o[k]);
                } else {
                    assert(s[k + 1] == o[k]);
                }
            }
        }
        assert forall|i: int, j: int| 0 <= i < j < s.len() implies s[i] != s[j] by {
            if i < p && j < p {
                assert(s[i] == o[i] && s[j] == o[j]);
            } else if i < p && j > p {
                assert(s[i] == o[i] && s[j] == o[j - 1]);
            } else if i > p && j > p {
                assert(s[i] == o[i - 1] && s[j] == o[j - 1]);
            } else if i == p {
                if j > p {
                    assert(s[j] == o[j - 1]);
                }
            } else {
                assert(s[i] == o[i]);
            }
        }
        assert forall|i: int, j: int| 0 <= i < j < s.len() implies !bytes_lt(
            #[trigger] keys[s[j] as int],
            #[trigger] keys[s[i] as int],
        ) by {
            if i < p && j < p {
                assert(s[i] == o[i] && s[j] == o[j]);
            } else if i < p && j > p {
                assert(s[i] == o[i] && s[j] == o[j - 1]);
            } else if i > p && j > p {
                assert(s[i] == o[i - 1] && s[j] == o[j - 1]);
            } else if i == p {
                assert(s[j] == o[j - 1]);
                assert(bytes_lt(key, keys[o[j - 1] as int]));
                lemma_bytes_lt_irreflexive(key);
                if bytes_lt(keys[s[j] as int], key) {
                    lemma_bytes_lt_transitive(key, keys[s[j] as int], key);
                }
            } else {
                assert(s[i] == o[i]);
            }
        }
    }
}

/// Whether `a` sorts strictly before `b`, byte by byte.
pub fn bytes_less(a: &[u8], b: &[u8]) -> (r: bool)
    ensures
        r == bytes_lt(a@, b@),
{
    let mut i: usize = 0;
    assert(a@.skip(0) =~= a@);
    assert(b@.skip(0) =~= b@);
    while i < a.len() && i < b.len()
        invariant
            i <= a.len(),
            i <= b.len(),
            bytes_lt(a@, b@) == bytes_lt(a@.skip(i as int), b@.skip(i as int)),
        decreases a.len() - i,
    {
        if a[i] != b[i] {
            return a[i] < b[i];
        }
        assert(a@.skip(i as int).drop_first() =~= a@.skip(i + 1));
        assert(b@.skip(i as int).drop_first() =~= b@.skip(i + 1));
        i += 1;
    }
    a.len() < b.len()
}

/// The indices of `keys`, stably sorted by key, byte-wise.
pub fn order_by_keys(keys: &Vec<&[u8]>) -> (r: Vec<usize>)
    ensures
        r@ == sort_order(slices_view(keys@)),
{
    let ghost ks = slices_view(keys@);
    let mut order: Vec<usize> = Vec::new();
    let mut i: usize = 0;
    while i < keys.len()
        invariant
            i <= keys.len(),
            ks == slices_view(keys@),
            order@ == sorted_prefix(ks, i as nat),
            forall|q: int| 0 <= q < order.len() ==> (#[trigger] order@[q]) < i,
        decreases keys.len() - i,
    {
        let ghost key = ks[i as int];
        let mut p: usize = order.len();
        assert(order@.take(p as int) =~= order@);
        loop
            invariant
                p <= order.len(),
                i < keys.len(),
                ks == slices_view(keys@),
                key == ks[i as int],
                forall|q: int| 0 <= q < order.len() ==> (#[trigger] order@[q]) < i,
                insert_pos(order@.take(p as int), key, ks) == insert_pos(order@, key, ks),
            ensures
                p == insert_pos(order@, key, ks),
            decreases p,
        {
            if p == 0 {
                break;
            }
            let j = order[p - 1];
            assert(order@.take(p as int).last() == j);
            if !bytes_less(keys[i], keys[j]) {
                break;
            }
            assert(order@.take(p as int).drop_last() =~= order@.take(p - 1));
            p -= 1;
        }
        order.insert(p, i);
        i += 1;
    }
    order
}

} // verus!
