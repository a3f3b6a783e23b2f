use vstd::prelude::*;

use crate::text::{opt_string_view, opt_strings_view, strings_view};

verus! {

/// Label and UUIDs of one device or partition, learned from the names of the
/// by-label and by-uuid links that point at it.
#[derive(Debug)]
pub struct DevDisk {
    /// Device or partition name, e.g. `sda` or `sda1`.
    pub name: String,
    pub label: Option<String>,
    /// More than one entry only where a filesystem registers several UUID links
    /// (FAT variants).
    pub uuid: Option<Vec<String>>,
}

/// All label/UUID records.
#[derive(Debug)]
pub struct DevDiskInfo {
    pub info: Vec<DevDisk>,
}

/// One by-label or by-uuid link: its file name (the label or UUID) and the name
/// of the device it points at.
#[derive(Debug)]
pub struct DiskLink {
    pub device: String,
    pub name: String,
}

/// The devices that `links` point at, each once, in order of first appearance.
pub open spec fn link_devices(links: Seq<DiskLink>) -> Seq<Seq<char>>
    decreases links.len(),
{
    if links.len() == 0 {
        Seq::empty()
    } else {
        let d = link_devices(links.drop_last());
        if d.contains(links.last().device@) {
            d
        } else {
            d.push(links.last().device@)
        }
    }
}

/// The name of the last link that points at `device`.
pub open spec fn last_link_name(links: Seq<DiskLink>, device: Seq<char>) -> Option<Seq<char>>
    decreases links.len(),
{
    if links.len() == 0 {
        None
    } else if links.last().device@ == device {
        Some(links.last().name@)
    } else {
        last_link_name(links.drop_last(), device)
    }
}

/// The names of all links that point at `device`, in order.
pub open spec fn link_names(links: Seq<DiskLink>, device: Seq<char>) -> Seq<Seq<char>>
    decreases links.len(),
{
    if links.len() == 0 {
        Seq::empty()
    } else {
        let r = link_names(links.drop_last(), device);
        if links.last().device@ == device {
            r.push(links.last().name@)
        } else {
            r
        }
    }
}

/// Name, label and UUID list of a record.
pub open spec fn dev_disk_fields(d: DevDisk) -> (Seq<char>, Option<Seq<char>>, Option<Seq<Seq<char>>>) {
    (d.name@, opt_string_view(d.label), opt_strings_view(d.uuid))
}

/// The records that the label and UUID links give: one per device that a link
/// points at (in order of first appearance, label links first), with the label
/// of the last label link to it and the UUIDs of all UUID links to it.
pub open spec fn records_from_links(labels: Seq<DiskLink>, uuids: Seq<DiskLink>) -> Seq<
    (Seq<char>, Option<Seq<char>>, Option<Seq<Seq<char>>>),
> {
    let names = link_devices(labels + uuids);
    Seq::new(
        names.len(),
        |k: int|
            (
                names[k],
                last_link_name(labels, names[k]),
                if link_names(uuids, names[k]).len() == 0 {
                    None
                } else {
                    Some(link_names(uuids, names[k]))
                },
            ),
    )
}

pub proof fn lemma_link_devices_distinct(links: Seq<DiskLink>)
    ensures
        forall|i: int, j: int|
            0 <= i < j < link_devices(links).len() ==> link_devices(links)[i] != link_devices(
                links,
            )[j],
    decreases links.len(),
{
    if links.len() > 0 {
        let d = link_devices(links.drop_last());
        lemma_link_devices_distinct(links.drop_last());
        if !d.contains(links.last().device@) {
            assert forall|i: int| 0 <= i < d.len() implies d[i] != links.last().device@ by {
                if d[i] == links.last().device@ {
                    assert(d.contains(links.last().device@));
                }
            }
        }
    }
}

fn contains_name(names: &Vec<String>, x: &String) -> (r: bool)
    ensures
        r == strings_view(names@).contains(x@),
{
    let mut i: usize = 0;
    while i < names.len()
        invariant
            i <= names.len(),
            forall|j: int| 0 <= j < i ==> (#[trigger] names@[j])@ != x@,
        decreases names.len() - i,
    {
        if names[i] == *x {
            assert(strings_view(names@)[i as int] == x@);
            return true;
        }
        i += 1;
    }
    assert forall|j: int| 0 <= j < names.len() implies strings_view(names@)[j] != x@ by {
        assert(strings_view(names@)[j] == names@[j]@);
    }
    false
}

fn last_name_for(links: &Vec<DiskLink>, device: &String) -> (r: Option<String>)
    ensures
        opt_string_view(r) == last_link_name(links@, device@),
{
    let mut r: Option<String> = None;
    let mut i: usize = 0;
    assert(links@.take(0) =~= Seq::<DiskLink>::empty());
    while i < links.len()
        invariant
            i <= links.len(),
            opt_string_view(r) == last_link_name(links@.take(i as int), device@),
        decreases links.len() - i,
    {
        assert(links@.take(i + 1).drop_last() =~= links@.take(i as int));
        assert(links@.take(i + 1).last() == links@[i as int]);
        if links[i].device == *device {
            r = Some(links[i].name.clone());
        }
        i += 1;
    }
    assert(links@.take(links.len() as int) =~= links@);
    r
}

fn names_for(links: &Vec<DiskLink>, device: &String) -> (r: Vec<String>)
    ensures
        strings_view(r@) == link_names(links@, device@),
{
    let mut r: Vec<String> = Vec::new();
    let mut i: usize = 0;
    assert(links@.take(0) =~= Seq::<DiskLink>::empty());
    while i < links.len()
        invariant
            i <= links.len(),
            strings_view(r@) == link_names(links@.take(i as int), device@),
        decreases links.len() - i,
    {
        assert(links@.take(i + 1).drop_last() =~= links@.take(i as int));
        assert(links@.take(i + 1).last() == links@[i as int]);
        let ghost before = strings_view(r@);
        if links[i].device == *device {
            r.push(links[i].name.clone());
            assert(strings_view(r@) =~= before.push(links@[i as int].name@));
        }
        i += 1;
    }
    assert(links@.take(links.len() as int) =~= links@);
    r
}

impl DevDiskInfo {
    /// Builds the label/UUID records from the by-label and by-uuid links. Each
    /// device has one record; a device that several label links point at keeps
    /// the last label, and a device with several UUID links keeps them all.
    pub fn new(labels: &Vec<DiskLink>, uuids: &Vec<DiskLink>) -> (r: Self)
        ensures
            r.info@.map_values(|d: DevDisk| dev_disk_fields(d)) == records_from_links(
                labels@,
                uuids@,
            ),
            forall|i: int, j: int|
                0 <= i < j < r.info.len() ==> r.info@[i].name@ != r.info@[j].name@,
    {
        let ghost all = labels@ + uuids@;
        let nl = labels.len();
        let mut names: Vec<String> = Vec::new();
        let mut k: usize = 0;
        assert(all.take(0) =~= Seq::<DiskLink>::empty());
        while k < nl
            invariant
                k <= nl == labels.len(),
                all == labels@ + uuids@,
                strings_view(names@) == link_devices(all.take(k as int)),
            decreases nl - k,
        {
            let link = &labels[k];
            assert(all.take(k + 1).drop_last() =~= all.take(k as int));
            assert(all.take(k + 1).last() == *link);
            let ghost before = strings_view(names@);
            if !contains_name(&names, &link.device) {
                names.push(link.device.clone());
                assert(strings_view(names@) =~= before.push(link.device@));
            }
            k += 1;
        }
        let mut j: usize = 0;
        while j < uuids.len()
            invariant
                j <= uuids.len(),
                nl == labels.len(),
                all == labels@ + uuids@,
                strings_view(names@) == link_devices(all.take(nl + j)),
            decreases uuids.len() - j,
        {
            let link = &uuids[j];
            assert(all.take(nl + j + 1).drop_last() =~= all.take(nl + j));
            assert(all.take(nl + j + 1).last() == *link);
            let ghost before = strings_view(names@);
            if !contains_name(&names, &link.device) {
                names.push(link.device.clone());
                assert(strings_view(names@) =~= before.push(link.device@));
            }
            j += 1;
        }
        assert(all.take(all.len() as int) =~= all);
        let ghost spec = records_from_links(labels@, uuids@);
        let mut info: Vec<DevDisk> = Vec::new();
        let mut i: usize = 0;
        while i < names.len()
            invariant
                i <= names.len(),
                strings_view(names@) == link_devices(labels@ + uuids@),
                spec == records_from_links(labels@, uuids@),
                info.len() == i,
                forall|q: int| 0 <= q < i ==> dev_disk_fields(#[trigger] info@[q]) == spec[q],
            decreases names.len() - i,
        {
            let name = &names[i];
            assert(strings_view(names@)[i as int] == name@);
            let label = last_name_for(labels, name);
            let found = names_for(uuids, name);
            let uuid = if found.len() == 0 {
                None
            } else {
                Some(found)
            };
            info.push(DevDisk { name: name.clone(), label, uuid });
            i += 1;
        }
        proof {
            lemma_link_devices_distinct(labels@ + uuids@);
            assert forall|i: int, j: int| 0 <= i < j < info.len() implies info@[i].name@
                != info@[j].name@ by {
                assert(dev_disk_fields(info@[i]) == spec[i]);
                assert(dev_disk_fields(info@[j]) == spec[j]);
            }
        }
        assert(info@.map_values(|d: DevDisk| dev_disk_fields(d)) =~= spec);
        DevDiskInfo { info }
    }
}

} // verus!
