use vstd::prelude::*;

use crate::text::{
    chars_of, chars_start_with, is_prefix, parse_u64, parse_u64_chars, strings_view, trim, trim_string,
    trimmed_chars,
};

verus! {

/// The entries of the block-device directory, one path per device.
#[derive(Debug)]
pub struct SysBlockEntries {
    pub block_devices: Vec<String>,
}

/// What the topology source reports of a whole device.
#[derive(Debug)]
pub struct SysBlockDeviceEntries {
    pub model: String,
    pub removable: bool,
    /// Size in bytes.
    pub size: u64,
}

/// What the topology source reports of a partition.
#[derive(Debug)]
pub struct SysBlockPartitionEntries {
    /// Size in bytes.
    pub size: u64,
}

#[derive(Debug)]
pub struct SysBlockPartition {
    /// Partition name, e.g. `sda1`; it starts with its device's name.
    pub name: String,
    pub info: SysBlockPartitionEntries,
}

#[derive(Debug)]
pub struct SysBlockDevice {
    /// Device name, e.g. `sda`.
    pub name: String,
    pub info: SysBlockDeviceEntries,
    /// The device's partitions; `None` when it has none.
    pub part: Option<Vec<SysBlockPartition>>,
}

/// All block devices of the topology source.
#[derive(Debug)]
pub struct SysBlockInfo {
    pub info: Vec<SysBlockDevice>,
}

/// The size in bytes that a size file gives: a count of 512-byte sectors, with
/// white space around it. `None` when the text is not such a count or the byte
/// size does not fit in 64 bits.
pub open spec fn size_from_text(text: Seq<char>) -> Option<u64> {
    match parse_u64(trim(text)) {
        Some(sectors) => if sectors * 512 <= u64::MAX {
            Some((sectors * 512) as u64)
        } else {
            None
        },
        None => None,
    }
}

/// Reads a size file's text as a byte count.
pub fn parse_size(text: &str) -> (r: Option<u64>)
    ensures
        r == size_from_text(text@),
{
    let chars = trimmed_chars(text);
    match parse_u64_chars(&chars) {
        Some(sectors) => sectors.checked_mul(512),
        None => None,
    }
}

/// Reads a removable-flag file's text: removable exactly when it holds `1`
/// (`0` is fixed, anything else unknown, read as fixed).
pub fn parse_removable(text: &str) -> (r: bool)
    ensures
        r == (trim(text@) == "1"@),
{
    let chars = trimmed_chars(text);
    let one = chars_of("1");
    assert(chars@.take(chars@.len() as int) =~= chars@);
    chars.len() == one.len() && chars_start_with(&chars, &one)
}

/// Reads a model file's text: the model without surrounding white space.
pub fn parse_model(text: &str) -> (r: String)
    ensures
        r@ == trim(text@),
{
    trim_string(text)
}

pub open spec fn starts_with_name(name: Seq<char>) -> spec_fn(String) -> bool {
    |entry: String| is_prefix(name, entry@)
}

/// The entries of a device's directory that name its partitions: those whose
/// name starts with the device's name, in the order given.
pub fn partition_entries(device_name: &str, entries: &Vec<String>) -> (r: Vec<String>)
    ensures
        r@ == entries@.filter(starts_with_name(device_name@)),
{
    let name = chars_of(device_name);
    let ghost pred = starts_with_name(device_name@);
    let mut r: Vec<String> = Vec::new();
    let mut i: usize = 0;
    proof {
        reveal(Seq::filter);
        assert(entries@.take(0) =~= Seq::<String>::empty());
    }
    while i < entries.len()
        invariant
            i <= entries.len(),
            name@ == device_name@,
            pred == starts_with_name(device_name@),
            r@ == entries@.take(i as int).filter(pred),
        decreases entries.len() - i,
    {
        proof {
            assert(entries@.take(i + 1) =~= entries@.take(i as int).push(entries@[i as int]));
            entries@.take(i as int).lemma_filter_push(entries@[i as int], pred);
        }
        let entry = chars_of(entries[i].as_str());
        if chars_start_with(&entry, &name) {
            r.push(entries[i].clone());
        }
        i += 1;
    }
    assert(entries@.take(entries.len() as int) =~= entries@);
    r
}

impl SysBlockDeviceEntries {
    /// Builds a device's entries from the texts of its model, removable-flag and
    /// size files; `None` when the size text is not a sector count.
    pub fn from_texts(model_text: &str, removable_text: &str, size_text: &str) -> (r: Option<
        Self,
    >)
        ensures
            match r {
                Some(e) => size_from_text(size_text@) == Some(e.size) && e.model@ == trim(
                    model_text@,
                ) && e.removable == (trim(removable_text@) == "1"@),
                None => size_from_text(size_text@) is None,
            },
    {
        match parse_size(size_text) {
            Some(size) => Some(
                SysBlockDeviceEntries {
                    model: parse_model(model_text),
                    removable: parse_removable(removable_text),
                    size,
                },
            ),
            None => None,
        }
    }
}

impl SysBlockPartitionEntries {
    /// Builds a partition's entries from the text of its size file; `None` when
    /// it is not a sector count.
    pub fn new(size_text: &str) -> (r: Option<Self>)
        ensures
            match r {
                Some(e) => size_from_text(size_text@) == Some(e.size),
                None => size_from_text(size_text@) is None,
            },
    {
        match parse_size(size_text) {
            Some(size) => Some(SysBlockPartitionEntries { size }),
            None => None,
        }
    }
}

impl SysBlockPartition {
    pub fn new(part_name: &str, info: SysBlockPartitionEntries) -> (r: Self)
        ensures
            r.name@ == part_name@,
            r.info == info,
    {
        SysBlockPartition { name: part_name.to_owned(), info }
    }
}

impl SysBlockDevice {
    /// The record is well formed: it lists partitions only when there are some,
    /// and each partition's name starts with the device's name.
    pub open spec fn wf(&self) -> bool {
        match self.part {
            Some(ps) => ps@.len() > 0 && forall|k: int|
                0 <= k < ps@.len() ==> is_prefix(self.name@, (#[trigger] ps@[k]).name@),
            None => true,
        }
    }

    /// Builds a device from its directory: `name` is the device's name,
    /// `dir_entries` the names in its directory, and the three texts the
    /// contents of its model, removable-flag and size files. Its partitions are
    /// the entries whose name starts with the device's name, in the order given,
    /// and `partition_sizes` holds the text of each one's size file, in the same
    /// order. `None` when a size text is not a sector count; a device without
    /// partitions gets `part == None`.
    pub fn new(
        name: String,
        dir_entries: &Vec<String>,
        model_text: &str,
        removable_text: &str,
        size_text: &str,
        partition_sizes: &Vec<String>,
    ) -> (r: Option<Self>)
        requires
            partition_sizes@.len() == dir_entries@.filter(starts_with_name(name@)).len(),
        ensures
            r is Some <==> size_from_text(size_text@) is Some && all_sizes_valid(partition_sizes@),
            r matches Some(d) ==> {
                let found = dir_entries@.filter(starts_with_name(name@));
                &&& d.name == name
                &&& d.wf()
                &&& size_from_text(size_text@) == Some(d.info.size)
                &&& d.info.model@ == trim(model_text@)
                &&& d.info.removable == (trim(removable_text@) == "1"@)
                &&& (d.part is None <==> found.len() == 0)
                &&& d.part matches Some(ps) ==> ps@.len() == found.len() && forall|k: int|
                    0 <= k < ps@.len() ==> (#[trigger] ps@[k]).name@ == found[k]@
                        && size_from_text(partition_sizes@[k]@) == Some(ps@[k].info.size)
            },
    {
        let ghost found = dir_entries@.filter(starts_with_name(name@));
        let names = partition_entries(name.as_str(), dir_entries);
        let mut parts: Vec<SysBlockPartition> = Vec::new();
        let mut k: usize = 0;
        while k < names.len()
            invariant
                names@ == found,
                found == dir_entries@.filter(starts_with_name(name@)),
                partition_sizes@.len() == found.len(),
                k <= names.len(),
                parts.len() == k,
                forall|j: int| 0 <= j < k ==> size_from_text(#[trigger] partition_sizes@[j]@) is Some,
                forall|j: int|
                    0 <= j < k ==> (#[trigger] parts@[j]).name@ == found[j]@ && size_from_text(
                        partition_sizes@[j]@,
                    ) == Some(parts@[j].info.size),
            decreases names.len() - k,
        {
            match SysBlockPartitionEntries::new(partition_sizes[k].as_str()) {
                Some(info) => {
                    parts.push(SysBlockPartition::new(names[k].as_str(), info));
                },
                None => {
                    assert(size_from_text(partition_sizes@[k as int]@) is None);
                    return None;
                },
            }
            k += 1;
        }
        let info = match SysBlockDeviceEntries::from_texts(model_text, removable_text, size_text) {
            Some(info) => info,
            None => {
                return None;
            },
        };
        proof {
            assert forall|j: int| 0 <= j < parts@.len() implies is_prefix(
                name@,
                (#[trigger] parts@[j]).name@,
            ) by {
                dir_entries@.lemma_filter_pred(starts_with_name(name@), j);
            }
        }
        let part = if parts.len() == 0 {
            None
        } else {
            Some(parts)
        };
        Some(SysBlockDevice { name, info, part })
    }
}

/// Every text is a sector count.
pub open spec fn all_sizes_valid(texts: Seq<String>) -> bool {
    forall|k: int| 0 <= k < texts.len() ==> size_from_text(#[trigger] texts[k]@) is Some
}

impl SysBlockInfo {
    pub fn new(devices: Vec<SysBlockDevice>) -> (r: Self)
        ensures
            r.info == devices,
    {
        SysBlockInfo { info: devices }
    }
}

} // verus!
