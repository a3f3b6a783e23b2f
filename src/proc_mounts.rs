use vstd::prelude::*;

use crate::text::{
    chars_of, chars_start_with, is_prefix, pieces, split_pieces, split_words, string_from_chars,
    strings_view, words, Separator,
};

verus! {

/// One live mount of a device node.
#[derive(Debug)]
pub struct ProcMounts {
    /// Device name with the `/dev/` prefix taken off.
    pub name: String,
    pub mount_point: String,
    pub fstype: String,
}

/// All live mounts of device nodes, in mount-table order.
#[derive(Debug)]
pub struct ProcMountsInfo {
    pub info: Vec<ProcMounts>,
}

/// The device name, mount point and filesystem type of a live mount.
pub open spec fn mount_fields(m: ProcMounts) -> (Seq<char>, Seq<char>, Seq<char>) {
    (m.name@, m.mount_point@, m.fstype@)
}

/// What one line of the mount table contributes: its first three words when
/// there are at least three and the first names a device node (`/dev/...`),
/// with that prefix taken off.
pub open spec fn mount_of_line(line: Seq<char>) -> Option<(Seq<char>, Seq<char>, Seq<char>)> {
    let w = words(line);
    if w.len() >= 3 && is_prefix("/dev/"@, w[0]) {
        Some((w[0].skip("/dev/"@.len() as int), w[1], w[2]))
    } else {
        None
    }
}

pub open spec fn line_mount() -> spec_fn(Seq<char>) -> Option<(Seq<char>, Seq<char>, Seq<char>)> {
    |line: Seq<char>| mount_of_line(line)
}

/// The live mounts of device nodes that a mount table's text lists, in order.
pub open spec fn mounts_in(text: Seq<char>) -> Seq<(Seq<char>, Seq<char>, Seq<char>)> {
    pieces(text, Separator::Newline).filter_map(line_mount())
}

impl ProcMounts {
    pub fn new(name: &str, mount_point: &str, fstype: &str) -> (r: Self)
        ensures
            r.name@ == name@,
            r.mount_point@ == mount_point@,
            r.fstype@ == fstype@,
    {
        ProcMounts {
            name: name.to_owned(),
            mount_point: mount_point.to_owned(),
            fstype: fstype.to_owned(),
        }
    }
}

/// The live mount that one line of the mount table describes, if any.
fn parse_mount_line(line: &String) -> (r: Option<ProcMounts>)
    ensures
        match r {
            Some(m) => mount_of_line(line@) == Some(mount_fields(m)),
            None => mount_of_line(line@) is None,
        },
{
    let chars = chars_of(line.as_str());
    let fields = split_words(&chars);
    if fields.len() < 3 {
        return None;
    }
    proof {
        assert(strings_view(fields@)[0] == fields@[0]@);
        assert(strings_view(fields@)[1] == fields@[1]@);
        assert(strings_view(fields@)[2] == fields@[2]@);
    }
    let dev = chars_of(fields[0].as_str());
    let prefix = chars_of("/dev/");
    if !chars_start_with(&dev, &prefix) {
        return None;
    }
    let name = string_from_chars(&dev, prefix.len(), dev.len());
    assert(name@ =~= fields@[0]@.skip(prefix@.len() as int));
    Some(ProcMounts { name, mount_point: fields[1].clone(), fstype: fields[2].clone() })
}

impl ProcMountsInfo {
    /// Reads the live mounts of device nodes from the text of the mount table:
    /// one mount per line, as device, mount point, filesystem type and further
    /// fields separated by white space. Lines with fewer than three fields, and
    /// mounts of anything but a `/dev/` node, are left out.
    pub fn new(text: &str) -> (r: Self)
        ensures
            r.info@.map_values(|m: ProcMounts| mount_fields(m)) == mounts_in(text@),
    {
        let chars = chars_of(text);
        let lines = split_pieces(&chars, Separator::Newline);
        let ghost ls = strings_view(lines@);
        let mut info: Vec<ProcMounts> = Vec::new();
        let mut i: usize = 0;
        assert(ls.take(0) =~= Seq::<Seq<char>>::empty());
        while i < lines.len()
            invariant
                i <= lines.len(),
                ls == strings_view(lines@),
                ls == pieces(text@, Separator::Newline),
                info@.map_values(|m: ProcMounts| mount_fields(m)) == ls.take(i as int).filter_map(
                    line_mount(),
                ),
            decreases lines.len() - i,
        {
            proof {
                assert(ls.take(i + 1).drop_last() =~= ls.take(i as int));
                assert(ls.take(i + 1).last() == lines@[i as int]@);
            }
            let ghost before = info@.map_values(|m: ProcMounts| mount_fields(m));
            match parse_mount_line(&lines[i]) {
                Some(m) => {
                    info.push(m);
                    assert(info@.map_values(|m: ProcMounts| mount_fields(m)) =~= before + seq![
                        mount_fields(m),
                    ]);
                },
                None => {},
            }
            i += 1;
        }
        assert(ls.take(lines.len() as int) =~= ls);
        ProcMountsInfo { info }
    }
}

} // verus!
