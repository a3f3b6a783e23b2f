use vstd::prelude::*;

use crate::dev_disk::{DevDisk, DevDiskInfo};
use crate::fstab::{Fstab, FstabInfo, FstabView};
use crate::lookup::{find_first, lemma_find_first_hit, lemma_find_first_miss};
use crate::magic::{detected_name, get_fstype_with_magic, DeviceHead};
use crate::order::{
    bytes_lt, lemma_bytes_lt_irreflexive, lemma_bytes_lt_total, lemma_bytes_lt_transitive,
    lemma_sort_order, order_by_keys, position_of, slices_view, sort_order,
};
use crate::proc_mounts::{ProcMounts, ProcMountsInfo};
use crate::sys_block::{SysBlockDevice, SysBlockInfo, SysBlockPartition};
use crate::text::{
    clone_opt_string, clone_opt_strings, opt_string_view, opt_strings_view, strings_view,
};
use vstd::utf8::{encode_utf8, encode_utf8_decode_utf8};

verus! {

/// A partition with everything the record sources know of it.
#[derive(Debug)]
pub struct CombinedPartitionInfo {
    pub name: String,
    pub size: Option<u64>,
    pub filesystem: Option<String>,
    pub label: Option<String>,
    pub mount_point: Option<String>,
    pub removable: Option<bool>,
    pub uuids: Option<Vec<String>>,
    pub fstab_entry: Option<Fstab>,
}

/// A block device with everything the record sources know of it, and its
/// partitions.
#[derive(Debug)]
pub struct CombinedDeviceInfo {
    pub name: String,
    pub model: Option<String>,
    pub size: Option<u64>,
    pub filesystem: Option<String>,
    pub label: Option<String>,
    pub mount_point: Option<String>,
    pub removable: Option<bool>,
    pub uuids: Option<Vec<String>>,
    pub fstab_entry: Option<Fstab>,
    pub partitions: Vec<CombinedPartitionInfo>,
}

/// Mathematical form of a combined partition.
pub struct PartitionView {
    pub name: Seq<char>,
    pub size: Option<u64>,
    pub filesystem: Option<Seq<char>>,
    pub label: Option<Seq<char>>,
    pub mount_point: Option<Seq<char>>,
    pub removable: Option<bool>,
    pub uuids: Option<Seq<Seq<char>>>,
    pub fstab_entry: Option<FstabView>,
}

/// Mathematical form of a combined device.
pub struct DeviceView {
    pub name: Seq<char>,
    pub model: Option<Seq<char>>,
    pub size: Option<u64>,
    pub filesystem: Option<Seq<char>>,
    pub label: Option<Seq<char>>,
    pub mount_point: Option<Seq<char>>,
    pub removable: Option<bool>,
    pub uuids: Option<Seq<Seq<char>>>,
    pub fstab_entry: Option<FstabView>,
    pub partitions: Seq<PartitionView>,
}

pub open spec fn opt_fstab_view(e: Option<Fstab>) -> Option<FstabView> {
    match e {
        Some(v) => Some(v@),
        None => None,
    }
}

impl View for CombinedPartitionInfo {
    type V = PartitionView;

    open spec fn view(&self) -> PartitionView {
        PartitionView {
            name: self.name@,
            size: self.size,
            filesystem: opt_string_view(self.filesystem),
            label: opt_string_view(self.label),
            mount_point: opt_string_view(self.mount_point),
            removable: self.removable,
            uuids: opt_strings_view(self.uuids),
            fstab_entry: opt_fstab_view(self.fstab_entry),
        }
    }
}

pub open spec fn partitions_view(s: Seq<CombinedPartitionInfo>) -> Seq<PartitionView> {
    s.map_values(|p: CombinedPartitionInfo| p@)
}

impl View for CombinedDeviceInfo {
    type V = DeviceView;

    open spec fn view(&self) -> DeviceView {
        DeviceView {
            name: self.name@,
            model: opt_string_view(self.model),
            size: self.size,
            filesystem: opt_string_view(self.filesystem),
            label: opt_string_view(self.label),
            mount_point: opt_string_view(self.mount_point),
            removable: self.removable,
            uuids: opt_strings_view(self.uuids),
            fstab_entry: opt_fstab_view(self.fstab_entry),
            partitions: partitions_view(self.partitions@),
        }
    }
}

pub open spec fn devices_view(s: Seq<CombinedDeviceInfo>) -> Seq<DeviceView> {
    s.map_values(|d: CombinedDeviceInfo| d@)
}

// ---- Lookups in the record sets ----
pub open spec fn dev_disk_named(name: Seq<char>) -> spec_fn(DevDisk) -> bool {
    |d: DevDisk| d.name@ == name
}

/// The first label/UUID record of `name`.
pub open spec fn dev_disk_for(records: Seq<DevDisk>, name: Seq<char>) -> Option<DevDisk> {
    find_first(records, dev_disk_named(name))
}

pub open spec fn mount_named(name: Seq<char>) -> spec_fn(ProcMounts) -> bool {
    |m: ProcMounts| m.name@ == name
}

/// The first live mount of `name`.
pub open spec fn mount_for(records: Seq<ProcMounts>, name: Seq<char>) -> Option<ProcMounts> {
    find_first(records, mount_named(name))
}

pub open spec fn head_named(name: Seq<char>) -> spec_fn(DeviceHead) -> bool {
    |h: DeviceHead| h.name@ == name
}

/// The first probe buffer read from `name`.
pub open spec fn head_for(heads: Seq<DeviceHead>, name: Seq<char>) -> Option<DeviceHead> {
    find_first(heads, head_named(name))
}

/// The filesystem that signature detection finds for `name`: absent when no
/// buffer was read for it, when its node could not be opened, or when no
/// signature matches.
pub open spec fn probed_fs(heads: Seq<DeviceHead>, name: Seq<char>) -> Option<Seq<char>> {
    match head_for(heads, name) {
        Some(h) => match h.bytes {
            Some(b) => detected_name(b@),
            None => None,
        },
        None => None,
    }
}

/// A static mount record names the entity by its first UUID or by its label.
pub open spec fn fstab_refers_to(
    e: Fstab,
    uuids: Option<Seq<Seq<char>>>,
    label: Option<Seq<char>>,
) -> bool {
    ||| (match uuids {
        Some(u) => u.len() > 0 && e.device@ == "UUID="@ + u[0],
        None => false,
    })
    ||| (match label {
        Some(l) => e.device@ == "LABEL="@ + l,
        None => false,
    })
}

pub open spec fn fstab_pred(
    uuids: Option<Seq<Seq<char>>>,
    label: Option<Seq<char>>,
) -> spec_fn(Fstab) -> bool {
    |e: Fstab| fstab_refers_to(e, uuids, label)
}

/// The first static mount record that refers to an entity with these UUIDs and label.
pub open spec fn fstab_for(
    records: Seq<Fstab>,
    uuids: Option<Seq<Seq<char>>>,
    label: Option<Seq<char>>,
) -> Option<Fstab> {
    find_first(records, fstab_pred(uuids, label))
}

pub open spec fn label_of(d: Option<DevDisk>) -> Option<Seq<char>> {
    match d {
        Some(r) => opt_string_view(r.label),
        None => None,
    }
}

pub open spec fn uuids_of(d: Option<DevDisk>) -> Option<Seq<Seq<char>>> {
    match d {
        Some(r) => opt_strings_view(r.uuid),
        None => None,
    }
}

/// The sort key of a name: its UTF-8 bytes.
pub open spec fn name_key(name: Seq<char>) -> Seq<u8> {
    encode_utf8(name)
}

pub open spec fn device_keys(devices: Seq<SysBlockDevice>) -> Seq<Seq<u8>> {
    devices.map_values(|d: SysBlockDevice| name_key(d.name@))
}

pub open spec fn partition_keys(parts: Seq<SysBlockPartition>) -> Seq<Seq<u8>> {
    parts.map_values(|p: SysBlockPartition| name_key(p.name@))
}

// ---- The merged entities ----
/// What the sources say of one partition. The topology source gives no
/// removable flag for a partition, so that field is absent; detection runs
/// whenever no live mount gives its filesystem.
pub open spec fn partition_spec(
    p: SysBlockPartition,
    dev_disk: Seq<DevDisk>,
    mounts: Seq<ProcMounts>,
    fstab: Seq<Fstab>,
    heads: Seq<DeviceHead>,
) -> PartitionView {
    let dd = dev_disk_for(dev_disk, p.name@);
    let mnt = mount_for(mounts, p.name@);
    PartitionView {
        name: p.name@,
        size: Some(p.info.size),
        filesystem: match mnt {
            Some(m) => Some(m.fstype@),
            None => probed_fs(heads, p.name@),
        },
        label: label_of(dd),
        mount_point: match mnt {
            Some(m) => Some(m.mount_point@),
            None => None,
        },
        removable: None,
        uuids: uuids_of(dd),
        fstab_entry: opt_fstab_view(fstab_for(fstab, uuids_of(dd), label_of(dd))),
    }
}

/// The partitions of a device, sorted by name.
pub open spec fn partitions_spec(
    parts: Seq<SysBlockPartition>,
    dev_disk: Seq<DevDisk>,
    mounts: Seq<ProcMounts>,
    fstab: Seq<Fstab>,
    heads: Seq<DeviceHead>,
) -> Seq<PartitionView> {
    let order = sort_order(partition_keys(parts));
    Seq::new(
        order.len(),
        |k: int| partition_spec(parts[order[k] as int], dev_disk, mounts, fstab, heads),
    )
}

/// What the sources say of one device. Detection runs only when no live mount
/// gives its filesystem and it has no partitions.
pub open spec fn device_spec(
    d: SysBlockDevice,
    dev_disk: Seq<DevDisk>,
    mounts: Seq<ProcMounts>,
    fstab: Seq<Fstab>,
    heads: Seq<DeviceHead>,
) -> DeviceView {
    let dd = dev_disk_for(dev_disk, d.name@);
    let mnt = mount_for(mounts, d.name@);
    DeviceView {
        name: d.name@,
        model: Some(d.info.model@),
        size: Some(d.info.size),
        filesystem: match mnt {
            Some(m) => Some(m.fstype@),
            None => if d.part is None {
                probed_fs(heads, d.name@)
            } else {
                None
            },
        },
        label: label_of(dd),
        mount_point: match mnt {
            Some(m) => Some(m.mount_point@),
            None => None,
        },
        removable: Some(d.info.removable),
        uuids: uuids_of(dd),
        fstab_entry: opt_fstab_view(fstab_for(fstab, uuids_of(dd), label_of(dd))),
        partitions: match d.part {
            Some(ps) => partitions_spec(ps@, dev_disk, mounts, fstab, heads),
            None => Seq::empty(),
        },
    }
}

/// The merged inventory: one entity per topology record, sorted by name.
pub open spec fn aggregate(
    devices: Seq<SysBlockDevice>,
    dev_disk: Seq<DevDisk>,
    mounts: Seq<ProcMounts>,
    fstab: Seq<Fstab>,
    heads: Seq<DeviceHead>,
) -> Seq<DeviceView> {
    let order = sort_order(device_keys(devices));
    Seq::new(
        order.len(),
        |k: int| device_spec(devices[order[k] as int], dev_disk, mounts, fstab, heads),
    )
}

// ---- Which nodes to read for detection ----
/// The partitions, in order, that no live mount describes.
pub open spec fn partition_probe_names(parts: Seq<SysBlockPartition>, mounts: Seq<ProcMounts>) -> Seq<
    Seq<char>,
>
    decreases parts.len(),
{
    if parts.len() == 0 {
        Seq::empty()
    } else {
        partition_probe_names(parts.drop_last(), mounts) + if mount_for(
            mounts,
            parts.last().name@,
        ) is None {
            seq![parts.last().name@]
        } else {
            Seq::empty()
        }
    }
}

/// The names under a device whose filesystem signature detection may have to
/// find: the device itself when no live mount describes it and it has no
/// partitions, then its partitions that no live mount describes.
pub open spec fn device_probe_names(d: SysBlockDevice, mounts: Seq<ProcMounts>) -> Seq<Seq<char>> {
    (if mount_for(mounts, d.name@) is None && d.part is None {
        seq![d.name@]
    } else {
        Seq::empty()
    }) + match d.part {
        Some(ps) => partition_probe_names(ps@, mounts),
        None => Seq::empty(),
    }
}

/// The names of all devices and partitions, in topology order, that signature
/// detection may have to probe.
pub open spec fn probe_names(devices: Seq<SysBlockDevice>, mounts: Seq<ProcMounts>) -> Seq<
    Seq<char>,
>
    decreases devices.len(),
{
    if devices.len() == 0 {
        Seq::empty()
    } else {
        probe_names(devices.drop_last(), mounts) + device_probe_names(devices.last(), mounts)
    }
}

// ---- Executable lookups ----
fn find_dev_disk(records: &Vec<DevDisk>, name: &String) -> (r: Option<usize>)
    ensures
        match r {
            Some(i) => i < records.len() && dev_disk_for(records@, name@) == Some(records@[i as int]),
            None => dev_disk_for(records@, name@) is None,
        },
{
    let mut i: usize = 0;
    while i < records.len()
        invariant
            i <= records.len(),
            forall|j: int| 0 <= j < i ==> !(#[trigger] dev_disk_named(name@)(records@[j])),
        decreases records.len() - i,
    {
        if records[i].name == *name {
            proof {
                lemma_find_first_hit(records@, dev_disk_named(name@), i as int);
            }
            return Some(i);
        }
        i += 1;
    }
    proof {
        lemma_find_first_miss(records@, dev_disk_named(name@));
    }
    None
}

fn find_mount(records: &Vec<ProcMounts>, name: &String) -> (r: Option<usize>)
    ensures
        match r {
            Some(i) => i < records.len() && mount_for(records@, name@) == Some(records@[i as int]),
            None => mount_for(records@, name@) is None,
        },
{
    let mut i: usize = 0;
    while i < records.len()
        invariant
            i <= records.len(),
            forall|j: int| 0 <= j < i ==> !(#[trigger] mount_named(name@)(records@[j])),
        decreases records.len() - i,
    {
        if records[i].name == *name {
            proof {
                lemma_find_first_hit(records@, mount_named(name@), i as int);
            }
            return Some(i);
        }
        i += 1;
    }
    proof {
        lemma_find_first_miss(records@, mount_named(name@));
    }
    None
}

fn find_head(heads: &Vec<DeviceHead>, name: &String) -> (r: Option<usize>)
    ensures
        match r {
            Some(i) => i < heads.len() && head_for(heads@, name@) == Some(heads@[i as int]),
            None => head_for(heads@, name@) is None,
        },
{
    let mut i: usize = 0;
    while i < heads.len()
        invariant
            i <= heads.len(),
            forall|j: int| 0 <= j < i ==> !(#[trigger] head_named(name@)(heads@[j])),
        decreases heads.len() - i,
    {
        if heads[i].name == *name {
            proof {
                lemma_find_first_hit(heads@, head_named(name@), i as int);
            }
            return Some(i);
        }
        i += 1;
    }
    proof {
        lemma_find_first_miss(heads@, head_named(name@));
    }
    None
}

/// Whether the static mount record `e` refers to an entity with these UUIDs and label.
fn fstab_entry_refers_to(e: &Fstab, uuids: &Option<Vec<String>>, label: &Option<String>) -> (r:
    bool)
    ensures
        r == fstab_refers_to(*e, opt_strings_view(*uuids), opt_string_view(*label)),
{
    if let Some(list) = uuids {
        if list.len() > 0 {
            let mut key = String::from_str("UUID=");
            key.append(list[0].as_str());
            if e.device == key {
                return true;
            }
        }
    }
    if let Some(l) = label {
        let mut key = String::from_str("LABEL=");
        key.append(l.as_str());
        if e.device == key {
            return true;
        }
    }
    false
}

fn find_fstab(records: &Vec<Fstab>, uuids: &Option<Vec<String>>, label: &Option<String>) -> (r:
    Option<Fstab>)
    ensures
        opt_fstab_view(r) == opt_fstab_view(
            fstab_for(records@, opt_strings_view(*uuids), opt_string_view(*label)),
        ),
{
    let ghost p = fstab_pred(opt_strings_view(*uuids), opt_string_view(*label));
    let mut i: usize = 0;
    while i < records.len()
        invariant
            i <= records.len(),
            p == fstab_pred(opt_strings_view(*uuids), opt_string_view(*label)),
            forall|j: int| 0 <= j < i ==> !(#[trigger] p(records@[j])),
        decreases records.len() - i,
    {
        if fstab_entry_refers_to(&records[i], uuids, label) {
            proof {
                lemma_find_first_hit(records@, p, i as int);
            }
            return Some(records[i].clone());
        }
        i += 1;
    }
    proof {
        lemma_find_first_miss(records@, p);
    }
    None
}

/// Signature detection on the buffer read for `name`, if any.
fn probe(heads: &Vec<DeviceHead>, name: &String) -> (r: Option<String>)
    ensures
        opt_string_view(r) == probed_fs(heads@, name@),
{
    match find_head(heads, name) {
        Some(i) => match &heads[i].bytes {
            Some(b) => get_fstype_with_magic(b.as_slice()),
            None => None,
        },
        None => None,
    }
}

fn build_partition(
    p: &SysBlockPartition,
    dev_disk: &DevDiskInfo,
    proc_mounts: &ProcMountsInfo,
    fstab: &FstabInfo,
    heads: &Vec<DeviceHead>,
) -> (r: CombinedPartitionInfo)
    ensures
        r@ == partition_spec(*p, dev_disk.info@, proc_mounts.info@, fstab.info@, heads@),
{
    let mut label: Option<String> = None;
    let mut uuids: Option<Vec<String>> = None;
    let dd = find_dev_disk(&dev_disk.info, &p.name);
    if let Some(i) = dd {
        label = clone_opt_string(&dev_disk.info[i].label);
        uuids = clone_opt_strings(&dev_disk.info[i].uuid);
    }
    let mut mount_point: Option<String> = None;
    let mut filesystem: Option<String> = None;
    if let Some(i) = find_mount(&proc_mounts.info, &p.name) {
        mount_point = Some(proc_mounts.info[i].mount_point.clone());
        filesystem = Some(proc_mounts.info[i].fstype.clone());
    }
    let fstab_entry = find_fstab(&fstab.info, &uuids, &label);
    if filesystem.is_none() {
        filesystem = probe(heads, &p.name);
    }
    CombinedPartitionInfo {
        name: p.name.clone(),
        size: Some(p.info.size),
        filesystem,
        label,
        mount_point,
        removable: None,
        uuids,
        fstab_entry,
    }
}

fn build_partitions(
    parts: &Vec<SysBlockPartition>,
    dev_disk: &DevDiskInfo,
    proc_mounts: &ProcMountsInfo,
    fstab: &FstabInfo,
    heads: &Vec<DeviceHead>,
) -> (r: Vec<CombinedPartitionInfo>)
    ensures
        partitions_view(r@) == partitions_spec(
            parts@,
            dev_disk.info@,
            proc_mounts.info@,
            fstab.info@,
            heads@,
        ),
{
    let mut keys: Vec<&[u8]> = Vec::new();
    let mut i: usize = 0;
    while i < parts.len()
        invariant
            i <= parts.len(),
            keys.len() == i,
            forall|j: int| 0 <= j < i ==> (#[trigger] keys@[j])@ == name_key(parts@[j].name@),
        decreases parts.len() - i,
    {
        keys.push(parts[i].name.as_str().as_bytes());
        i += 1;
    }
    assert(slices_view(keys@) =~= partition_keys(parts@));
    let order = order_by_keys(&keys);
    proof {
        lemma_sort_order(partition_keys(parts@), parts.len() as nat);
    }
    let ghost spec_parts = partitions_spec(
        parts@,
        dev_disk.info@,
        proc_mounts.info@,
        fstab.info@,
        heads@,
    );
    let mut out: Vec<CombinedPartitionInfo> = Vec::new();
    let mut k: usize = 0;
    while k < order.len()
        invariant
            k <= order.len(),
            order.len() == parts.len(),
            order@ == sort_order(partition_keys(parts@)),
            forall|q: int| 0 <= q < order.len() ==> (#[trigger] order@[q]) < parts.len(),
            spec_parts == partitions_spec(
                parts@,
                dev_disk.info@,
                proc_mounts.info@,
                fstab.info@,
                heads@,
            ),
            out.len() == k,
            forall|q: int| 0 <= q < k ==> (#[trigger] out@[q])@ == spec_parts[q],
        decreases order.len() - k,
    {
        let idx = order[k];
        assert(order@[k as int] < parts.len());
        let part = build_partition(&parts[idx], dev_disk, proc_mounts, fstab, heads);
        out.push(part);
        k += 1;
    }
    assert(partitions_view(out@) =~= spec_parts);
    out
}

fn build_device(
    d: &SysBlockDevice,
    dev_disk: &DevDiskInfo,
    proc_mounts: &ProcMountsInfo,
    fstab: &FstabInfo,
    heads: &Vec<DeviceHead>,
) -> (r: CombinedDeviceInfo)
    ensures
        r@ == device_spec(*d, dev_disk.info@, proc_mounts.info@, fstab.info@, heads@),
{
    let mut label: Option<String> = None;
    let mut uuids: Option<Vec<String>> = None;
    if let Some(i) = find_dev_disk(&dev_disk.info, &d.name) {
        label = clone_opt_string(&dev_disk.info[i].label);
        uuids = clone_opt_strings(&dev_disk.info[i].uuid);
    }
    let mut mount_point: Option<String> = None;
    let mut filesystem: Option<String> = None;
    if let Some(i) = find_mount(&proc_mounts.info, &d.name) {
        mount_point = Some(proc_mounts.info[i].mount_point.clone());
        filesystem = Some(proc_mounts.info[i].fstype.clone());
    }
    if filesystem.is_none() && d.part.is_none() {
        filesystem = probe(heads, &d.name);
    }
    let fstab_entry = find_fstab(&fstab.info, &uuids, &label);
    let partitions = match &d.part {
        Some(parts) => build_partitions(
            parts,
            dev_disk,
            proc_mounts,
            fstab,
            heads,
        ),
        None => Vec::new(),
    };
    let r = CombinedDeviceInfo {
        name: d.name.clone(),
        model: Some(d.info.model.clone()),
        size: Some(d.info.size),
        filesystem,
        label,
        mount_point,
        removable: Some(d.info.removable),
        uuids,
        fstab_entry,
        partitions,
    };
    assert(r@.partitions =~= device_spec(
        *d,
        dev_disk.info@,
        proc_mounts.info@,
        fstab.info@,
        heads@,
    ).partitions);
    r
}

/// The names of the device nodes whose leading bytes the aggregation needs:
/// detection runs only where no live mount gives the filesystem.
pub fn probe_targets(sys_block: &SysBlockInfo, proc_mounts: &ProcMountsInfo) -> (r: Vec<String>)
    ensures
        strings_view(r@) == probe_names(sys_block.info@, proc_mounts.info@),
{
    let devices = &sys_block.info;
    let ghost mounts = proc_mounts.info@;
    let mut r: Vec<String> = Vec::new();
    let mut i: usize = 0;
    assert(devices@.take(0) =~= Seq::<SysBlockDevice>::empty());
    while i < devices.len()
        invariant
            i <= devices.len(),
            devices == &sys_block.info,
            mounts == proc_mounts.info@,
            strings_view(r@) == probe_names(devices@.take(i as int), mounts),
        decreases devices.len() - i,
    {
        let d = &devices[i];
        assert(devices@.take(i + 1).drop_last() =~= devices@.take(i as int));
        assert(devices@.take(i + 1).last() == *d);
        let ghost start = strings_view(r@);
        let mounted = find_mount(&proc_mounts.info, &d.name).is_some();
        if !mounted && d.part.is_none() {
            r.push(d.name.clone());
        }
        let ghost own = strings_view(r@);
        assert(own =~= start + if mount_for(mounts, d.name@) is None && d.part is None {
            seq![d.name@]
        } else {
            Seq::<Seq<char>>::empty()
        });
        if let Some(parts) = &d.part {
            let mut j: usize = 0;
            assert(parts@.take(0) =~= Seq::<SysBlockPartition>::empty());
            assert(own =~= own + partition_probe_names(parts@.take(0), mounts));
            while j < parts.len()
                invariant
                    j <= parts.len(),
                    mounts == proc_mounts.info@,
                    strings_view(r@) == own + partition_probe_names(parts@.take(j as int), mounts),
                decreases parts.len() - j,
            {
                let p = &parts[j];
                assert(parts@.take(j + 1).drop_last() =~= parts@.take(j as int));
                assert(parts@.take(j + 1).last() == *p);
                let ghost before = strings_view(r@);
                if find_mount(&proc_mounts.info, &p.name).is_none() {
                    r.push(p.name.clone());
                    assert(strings_view(r@) =~= before.push(p.name@));
                }
                assert(strings_view(r@) =~= own + partition_probe_names(
                    parts@.take(j + 1),
                    mounts,
                ));
                j += 1;
            }
            assert(parts@.take(parts.len() as int) =~= parts@);
        }
        assert(strings_view(r@) =~= start + device_probe_names(*d, mounts));
        i += 1;
    }
    assert(devices@.take(devices.len() as int) =~= devices@);
    r
}

impl CombinedDeviceInfo {
    /// Merges the four record sets into one entity per topology record.
    ///
    /// Each device and partition takes its label and UUIDs from the first
    /// label/UUID record of its name, its mount point and filesystem from the
    /// first live mount of its name, and the first static mount record that
    /// names its first UUID or its label. Where no live mount gives a
    /// filesystem, signature detection on the buffer in `heads` for that name
    /// supplies it (for a device, only when it has no partitions). Devices, and
    /// the partitions of each device, are sorted by name, byte-wise; equal names
    /// keep their input order.
    pub fn new(
        sys_block: &SysBlockInfo,
        dev_disk: &DevDiskInfo,
        proc_mounts: &ProcMountsInfo,
        fstab: &FstabInfo,
        heads: &Vec<DeviceHead>,
    ) -> (r: Vec<Self>)
        ensures
            devices_view(r@) == aggregate(
                sys_block.info@,
                dev_disk.info@,
                proc_mounts.info@,
                fstab.info@,
                heads@,
            ),
    {
        let devices = &sys_block.info;
        let mut keys: Vec<&[u8]> = Vec::new();
        let mut i: usize = 0;
        while i < devices.len()
            invariant
                i <= devices.len(),
                keys.len() == i,
                forall|j: int|
                    0 <= j < i ==> (#[trigger] keys@[j])@ == name_key(devices@[j].name@),
            decreases devices.len() - i,
        {
            keys.push(devices[i].name.as_str().as_bytes());
            i += 1;
        }
        assert(slices_view(keys@) =~= device_keys(devices@));
        let order = order_by_keys(&keys);
        proof {
            lemma_sort_order(device_keys(devices@), devices.len() as nat);
        }
        let ghost spec_devices = aggregate(
            sys_block.info@,
            dev_disk.info@,
            proc_mounts.info@,
            fstab.info@,
            heads@,
        );
        let mut out: Vec<CombinedDeviceInfo> = Vec::new();
        let mut k: usize = 0;
        while k < order.len()
            invariant
                k <= order.len(),
                order.len() == devices.len(),
                devices == &sys_block.info,
                order@ == sort_order(device_keys(devices@)),
                forall|q: int| 0 <= q < order.len() ==> (#[trigger] order@[q]) < devices.len(),
                spec_devices == aggregate(
                    sys_block.info@,
                    dev_disk.info@,
                    proc_mounts.info@,
                    fstab.info@,
                    heads@,
                ),
                out.len() == k,
                forall|q: int| 0 <= q < k ==> (#[trigger] out@[q])@ == spec_devices[q],
            decreases order.len() - k,
        {
            let idx = order[k];
            assert(order@[k as int] < devices.len());
            let device = build_device(&devices[idx], dev_disk, proc_mounts, fstab, heads);
            out.push(device);
            k += 1;
        }
        assert(devices_view(out@) =~= spec_devices);
        out
    }
}

// ---- What the merge guarantees ----
/// Names never decrease along the list, byte-wise.
pub open spec fn sorted_by_name(names: Seq<Seq<char>>) -> bool {
    forall|i: int, j: int|
        0 <= i < j < names.len() ==> !bytes_lt(
            #[trigger] name_key(names[j]),
            #[trigger] name_key(names[i]),
        )
}

/// One name precedes another exactly when it sorts first, byte-wise.
pub open spec fn ordered_by_name(names: Seq<Seq<char>>) -> bool {
    forall|i: int, j: int|
        0 <= i < names.len() && 0 <= j < names.len() ==> (i < j <==> bytes_lt(
            #[trigger] name_key(names[i]),
            #[trigger] name_key(names[j]),
        ))
}

pub open spec fn distinct_names(names: Seq<Seq<char>>) -> bool {
    forall|i: int, j: int| 0 <= i < j < names.len() ==> names[i] != names[j]
}

pub open spec fn device_names(devices: Seq<DeviceView>) -> Seq<Seq<char>> {
    devices.map_values(|d: DeviceView| d.name)
}

pub open spec fn partition_names(parts: Seq<PartitionView>) -> Seq<Seq<char>> {
    parts.map_values(|p: PartitionView| p.name)
}

pub open spec fn topology_names(devices: Seq<SysBlockDevice>) -> Seq<Seq<char>> {
    devices.map_values(|d: SysBlockDevice| d.name@)
}

pub open spec fn topology_partition_names(parts: Seq<SysBlockPartition>) -> Seq<Seq<char>> {
    parts.map_values(|p: SysBlockPartition| p.name@)
}

/// Listing `names` in a stable key order gives a name-sorted list, strictly
/// ordered when the names are distinct.
proof fn lemma_listed_in_order(names: Seq<Seq<char>>, order: Seq<usize>, listed: Seq<Seq<char>>)
    requires
        order == sort_order(names.map_values(|n: Seq<char>| name_key(n))),
        names.len() <= usize::MAX,
        listed.len() == order.len(),
        forall|k: int| 0 <= k < listed.len() ==> #[trigger] listed[k] == names[order[k] as int],
    ensures
        sorted_by_name(listed),
        distinct_names(names) ==> ordered_by_name(listed),
{
    let keys = names.map_values(|n: Seq<char>| name_key(n));
    lemma_sort_order(keys, names.len());
    assert forall|i: int, j: int| 0 <= i < j < listed.len() implies !bytes_lt(
        #[trigger] name_key(listed[j]),
        #[trigger] name_key(listed[i]),
    ) by {
        assert(keys[order[j] as int] == name_key(listed[j]));
        assert(keys[order[i] as int] == name_key(listed[i]));
    }
    if distinct_names(names) {
        assert forall|i: int, j: int|
            0 <= i < listed.len() && 0 <= j < listed.len() implies (i < j <==> bytes_lt(
            #[trigger] name_key(listed[i]),
            #[trigger] name_key(listed[j]),
        )) by {
            lemma_bytes_lt_irreflexive(name_key(listed[i]));
            if i < j {
                assert(order[i] != order[j]);
                assert(listed[i] != listed[j]);
                encode_utf8_decode_utf8(listed[i]);
                encode_utf8_decode_utf8(listed[j]);
                lemma_bytes_lt_total(name_key(listed[i]), name_key(listed[j]));
            }
        }
    }
}

/// The partitions of a device come out sorted by name; where the partition names
/// are distinct, one precedes another exactly when its name sorts first.
pub proof fn lemma_partitions_ordered(
    parts: Seq<SysBlockPartition>,
    dev_disk: Seq<DevDisk>,
    mounts: Seq<ProcMounts>,
    fstab: Seq<Fstab>,
    heads: Seq<DeviceHead>,
)
    requires
        parts.len() <= usize::MAX,
    ensures
        sorted_by_name(
            partition_names(partitions_spec(parts, dev_disk, mounts, fstab, heads)),
        ),
        distinct_names(topology_partition_names(parts)) ==> ordered_by_name(
            partition_names(partitions_spec(parts, dev_disk, mounts, fstab, heads)),
        ),
{
    let names = topology_partition_names(parts);
    let out = partitions_spec(parts, dev_disk, mounts, fstab, heads);
    assert(names.map_values(|n: Seq<char>| name_key(n)) =~= partition_keys(parts));
    lemma_sort_order(partition_keys(parts), parts.len());
    lemma_listed_in_order(names, sort_order(partition_keys(parts)), partition_names(out));
}

/// Devices come out sorted by name; where the device names are distinct, one
/// device precedes another exactly when its name sorts first, byte-wise. The
/// partitions of every device come out sorted by name too.
pub proof fn lemma_devices_ordered(
    devices: Seq<SysBlockDevice>,
    dev_disk: Seq<DevDisk>,
    mounts: Seq<ProcMounts>,
    fstab: Seq<Fstab>,
    heads: Seq<DeviceHead>,
)
    requires
        devices.len() <= usize::MAX,
    ensures
        sorted_by_name(device_names(aggregate(devices, dev_disk, mounts, fstab, heads))),
        distinct_names(topology_names(devices)) ==> ordered_by_name(
            device_names(aggregate(devices, dev_disk, mounts, fstab, heads)),
        ),
        forall|k: int|
            0 <= k < aggregate(devices, dev_disk, mounts, fstab, heads).len() ==> sorted_by_name(
                partition_names(#[trigger] aggregate(devices, dev_disk, mounts, fstab, heads)[k].partitions),
            ),
{
    let names = topology_names(devices);
    let out = aggregate(devices, dev_disk, mounts, fstab, heads);
    let order = sort_order(device_keys(devices));
    assert(names.map_values(|n: Seq<char>| name_key(n)) =~= device_keys(devices));
    lemma_sort_order(device_keys(devices), devices.len());
    lemma_listed_in_order(names, order, device_names(out));
    assert forall|k: int| 0 <= k < out.len() implies sorted_by_name(
        partition_names(#[trigger] out[k].partitions),
    ) by {
        let d = devices[order[k] as int];
        match d.part {
            Some(ps) => {
                assert(ps@.len() == ps.len());
                lemma_partitions_ordered(ps@, dev_disk, mounts, fstab, heads);
            },
            None => {
                assert(partition_names(out[k].partitions) =~= Seq::<Seq<char>>::empty());
            },
        }
    }
}

/// The topology records in the order in which the merge lists them.
pub open spec fn sorted_devices(devices: Seq<SysBlockDevice>) -> Seq<SysBlockDevice> {
    let order = sort_order(device_keys(devices));
    Seq::new(order.len(), |k: int| devices[order[k] as int])
}

/// The listing holds exactly the records of `devices`, in strictly increasing
/// name order when the names are distinct.
proof fn lemma_sorted_devices(devices: Seq<SysBlockDevice>)
    requires
        devices.len() <= usize::MAX,
        distinct_names(topology_names(devices)),
    ensures
        sorted_devices(devices).len() == devices.len(),
        forall|k: int|
            0 <= k < devices.len() ==> devices.contains(#[trigger] sorted_devices(devices)[k]),
        forall|i: int|
            0 <= i < devices.len() ==> sorted_devices(devices).contains(#[trigger] devices[i]),
        forall|i: int, j: int|
            0 <= i < j < devices.len() ==> bytes_lt(
                name_key((#[trigger] sorted_devices(devices)[i]).name@),
                name_key((#[trigger] sorted_devices(devices)[j]).name@),
            ),
{
    let order = sort_order(device_keys(devices));
    let listed = sorted_devices(devices);
    let names = topology_names(devices);
    lemma_sort_order(device_keys(devices), devices.len());
    assert(names.map_values(|n: Seq<char>| name_key(n)) =~= device_keys(devices));
    let listed_names = Seq::new(order.len(), |k: int| names[order[k] as int]);
    lemma_listed_in_order(names, order, listed_names);
    assert forall|k: int| 0 <= k < devices.len() implies devices.contains(#[trigger] listed[k]) by {
        assert(devices[order[k] as int] == listed[k]);
    }
    assert forall|i: int| 0 <= i < devices.len() implies listed.contains(#[trigger] devices[i]) by {
        let k = position_of(order, i);
        assert(listed[k] == devices[i]);
    }
    assert forall|i: int, j: int| 0 <= i < j < devices.len() implies bytes_lt(
        name_key((#[trigger] listed[i]).name@),
        name_key((#[trigger] listed[j]).name@),
    ) by {
        assert(listed_names[i] == listed[i].name@);
        assert(listed_names[j] == listed[j].name@);
    }
}

/// Two lists with the same records, both in strictly increasing name order,
/// agree up to `k`.
proof fn lemma_same_sorted_prefix(s1: Seq<SysBlockDevice>, s2: Seq<SysBlockDevice>, k: int)
    requires
        s1.len() == s2.len(),
        0 <= k <= s1.len(),
        forall|i: int| 0 <= i < s1.len() ==> s2.contains(#[trigger] s1[i]),
        forall|i: int| 0 <= i < s2.len() ==> s1.contains(#[trigger] s2[i]),
        forall|i: int, j: int|
            0 <= i < j < s1.len() ==> bytes_lt(
                name_key((#[trigger] s1[i]).name@),
                name_key((#[trigger] s1[j]).name@),
            ),
        forall|i: int, j: int|
            0 <= i < j < s2.len() ==> bytes_lt(
                name_key((#[trigger] s2[i]).name@),
                name_key((#[trigger] s2[j]).name@),
            ),
    ensures
        forall|j: int| 0 <= j < k ==> s1[j] == s2[j],
    decreases k,
{
    if k > 0 {
        let c = k - 1;
        lemma_same_sorted_prefix(s1, s2, c);
        assert(s2.contains(s1[c]));
        let m = choose|m: int| 0 <= m < s2.len() && s2[m] == s1[c];
        assert(s1.contains(s2[c]));
        let n = choose|n: int| 0 <= n < s1.len() && s1[n] == s2[c];
        lemma_bytes_lt_irreflexive(name_key(s1[c].name@));
        lemma_bytes_lt_irreflexive(name_key(s2[c].name@));
        if m < c {
            assert(s1[m] == s2[m]);
            assert(bytes_lt(name_key(s1[m].name@), name_key(s1[c].name@)));
        }
        if n < c {
            assert(s1[n] == s2[n]);
            assert(bytes_lt(name_key(s2[n].name@), name_key(s2[c].name@)));
        }
        if m > c && n > c {
            assert(bytes_lt(name_key(s2[c].name@), name_key(s2[m].name@)));
            assert(bytes_lt(name_key(s1[c].name@), name_key(s1[n].name@)));
            lemma_bytes_lt_transitive(
                name_key(s2[c].name@),
                name_key(s1[c].name@),
                name_key(s2[c].name@),
            );
        }
    }
}

/// The merged inventory does not depend on the order of the topology records:
/// two lists that hold the same records, each with distinct names, give the
/// same devices in the same order.
pub proof fn lemma_topology_order_irrelevant(
    first: Seq<SysBlockDevice>,
    second: Seq<SysBlockDevice>,
    dev_disk: Seq<DevDisk>,
    mounts: Seq<ProcMounts>,
    fstab: Seq<Fstab>,
    heads: Seq<DeviceHead>,
)
    requires
        first.len() == second.len() <= usize::MAX,
        forall|i: int| 0 <= i < first.len() ==> second.contains(#[trigger] first[i]),
        forall|i: int| 0 <= i < second.len() ==> first.contains(#[trigger] second[i]),
        distinct_names(topology_names(first)),
        distinct_names(topology_names(second)),
    ensures
        aggregate(first, dev_disk, mounts, fstab, heads) == aggregate(
            second,
            dev_disk,
            mounts,
            fstab,
            heads,
        ),
{
    let s1 = sorted_devices(first);
    let s2 = sorted_devices(second);
    lemma_sorted_devices(first);
    lemma_sorted_devices(second);
    assert forall|i: int| 0 <= i < s1.len() implies s2.contains(#[trigger] s1[i]) by {
        assert(first.contains(s1[i]));
        let a = choose|a: int| 0 <= a < first.len() && first[a] == s1[i];
        assert(second.contains(first[a]));
        let b = choose|b: int| 0 <= b < second.len() && second[b] == first[a];
        assert(s2.contains(second[b]));
    }
    assert forall|i: int| 0 <= i < s2.len() implies s1.contains(#[trigger] s2[i]) by {
        assert(second.contains(s2[i]));
        let a = choose|a: int| 0 <= a < second.len() && second[a] == s2[i];
        assert(first.contains(second[a]));
        let b = choose|b: int| 0 <= b < first.len() && first[b] == second[a];
        assert(s1.contains(first[b]));
    }
    lemma_same_sorted_prefix(s1, s2, s1.len() as int);
    let out1 = aggregate(first, dev_disk, mounts, fstab, heads);
    let out2 = aggregate(second, dev_disk, mounts, fstab, heads);
    assert forall|k: int| 0 <= k < out1.len() implies out1[k] == out2[k] by {
        assert(s1[k] == s2[k]);
    }
    assert(out1 =~= out2);
}

proof fn lemma_no_label_record(dev_disk: Seq<DevDisk>, name: Seq<char>)
    requires
        forall|j: int| 0 <= j < dev_disk.len() ==> (#[trigger] dev_disk[j]).name@ != name,
    ensures
        label_of(dev_disk_for(dev_disk, name)) is None,
        uuids_of(dev_disk_for(dev_disk, name)) is None,
{
    assert forall|j: int| 0 <= j < dev_disk.len() implies !(#[trigger] dev_disk_named(name)(
        dev_disk[j],
    )) by {}
    lemma_find_first_miss(dev_disk, dev_disk_named(name));
}

/// A device or partition that no label/UUID record names has no label and no
/// UUID list: both are absent, not empty.
pub proof fn lemma_absent_label_record(
    devices: Seq<SysBlockDevice>,
    dev_disk: Seq<DevDisk>,
    mounts: Seq<ProcMounts>,
    fstab: Seq<Fstab>,
    heads: Seq<DeviceHead>,
    k: int,
)
    requires
        0 <= k < aggregate(devices, dev_disk, mounts, fstab, heads).len(),
    ensures
        (forall|j: int|
            0 <= j < dev_disk.len() ==> (#[trigger] dev_disk[j]).name@ != aggregate(
                devices,
                dev_disk,
                mounts,
                fstab,
                heads,
            )[k].name) ==> aggregate(devices, dev_disk, mounts, fstab, heads)[k].label is None
            && aggregate(devices, dev_disk, mounts, fstab, heads)[k].uuids is None,
        forall|q: int|
            0 <= q < aggregate(devices, dev_disk, mounts, fstab, heads)[k].partitions.len() ==> ((
            forall|j: int|
                0 <= j < dev_disk.len() ==> (#[trigger] dev_disk[j]).name@ != (
                #[trigger] aggregate(devices, dev_disk, mounts, fstab, heads)[k].partitions[q]).name)
                ==> aggregate(devices, dev_disk, mounts, fstab, heads)[k].partitions[q].label is None
                && aggregate(devices, dev_disk, mounts, fstab, heads)[k].partitions[q].uuids is None),
{
    let out = aggregate(devices, dev_disk, mounts, fstab, heads);
    if forall|j: int| 0 <= j < dev_disk.len() ==> (#[trigger] dev_disk[j]).name@ != out[k].name {
        lemma_no_label_record(dev_disk, out[k].name);
    }
    assert forall|q: int|
        0 <= q < out[k].partitions.len() && (forall|j: int|
            0 <= j < dev_disk.len() ==> (#[trigger] dev_disk[j]).name@ != (
            #[trigger] out[k].partitions[q]).name) implies out[k].partitions[q].label is None
        && out[k].partitions[q].uuids is None by {
        lemma_no_label_record(dev_disk, out[k].partitions[q].name);
    }
}

/// A device or partition that the live mount table lists takes its filesystem
/// from there, whatever signature detection would find.
pub proof fn lemma_live_mount_wins(
    devices: Seq<SysBlockDevice>,
    dev_disk: Seq<DevDisk>,
    mounts: Seq<ProcMounts>,
    fstab: Seq<Fstab>,
    heads: Seq<DeviceHead>,
    k: int,
)
    requires
        0 <= k < aggregate(devices, dev_disk, mounts, fstab, heads).len(),
    ensures
        mount_for(mounts, aggregate(devices, dev_disk, mounts, fstab, heads)[k].name) matches Some(
            m,
        ) ==> aggregate(devices, dev_disk, mounts, fstab, heads)[k].filesystem == Some(m.fstype@),
        forall|q: int|
            0 <= q < aggregate(devices, dev_disk, mounts, fstab, heads)[k].partitions.len() ==> (
            mount_for(
                mounts,
                (#[trigger] aggregate(devices, dev_disk, mounts, fstab, heads)[k].partitions[q]).name,
            ) matches Some(m) ==> aggregate(
                devices,
                dev_disk,
                mounts,
                fstab,
                heads,
            )[k].partitions[q].filesystem == Some(m.fstype@)),
{
}

proof fn lemma_mounted_partitions_not_probed(parts: Seq<SysBlockPartition>, mounts: Seq<ProcMounts>)
    ensures
        forall|i: int|
            0 <= i < partition_probe_names(parts, mounts).len() ==> mount_for(
                mounts,
                #[trigger] partition_probe_names(parts, mounts)[i],
            ) is None,
    decreases parts.len(),
{
    if parts.len() > 0 {
        lemma_mounted_partitions_not_probed(parts.drop_last(), mounts);
        let a = partition_probe_names(parts.drop_last(), mounts);
        assert forall|i: int|
            0 <= i < partition_probe_names(parts, mounts).len() implies mount_for(
            mounts,
            #[trigger] partition_probe_names(parts, mounts)[i],
        ) is None by {
            if i < a.len() {
                assert(partition_probe_names(parts, mounts)[i] == a[i]);
            }
        }
    }
}

/// Signature detection is only ever asked for where no live mount gives the
/// filesystem: no name in the probe list has a live mount.
pub proof fn lemma_mounted_not_probed(devices: Seq<SysBlockDevice>, mounts: Seq<ProcMounts>)
    ensures
        forall|i: int|
            0 <= i < probe_names(devices, mounts).len() ==> mount_for(
                mounts,
                #[trigger] probe_names(devices, mounts)[i],
            ) is None,
    decreases devices.len(),
{
    if devices.len() > 0 {
        lemma_mounted_not_probed(devices.drop_last(), mounts);
        let a = probe_names(devices.drop_last(), mounts);
        let d = devices.last();
        let b = device_probe_names(d, mounts);
        let own = if mount_for(mounts, d.name@) is None && d.part is None {
            seq![d.name@]
        } else {
            Seq::<Seq<char>>::empty()
        };
        let rest = match d.part {
            Some(ps) => partition_probe_names(ps@, mounts),
            None => Seq::<Seq<char>>::empty(),
        };
        match d.part {
            Some(ps) => lemma_mounted_partitions_not_probed(ps@, mounts),
            None => {},
        }
        assert(b == own + rest);
        assert forall|i: int|
            0 <= i < probe_names(devices, mounts).len() implies mount_for(
            mounts,
            #[trigger] probe_names(devices, mounts)[i],
        ) is None by {
            if i < a.len() {
                assert(probe_names(devices, mounts)[i] == a[i]);
            } else if i < a.len() + own.len() {
                assert(probe_names(devices, mounts)[i] == own[i - a.len()]);
            } else {
                assert(probe_names(devices, mounts)[i] == rest[i - a.len() - own.len()]);
            }
        }
    }
}

proof fn lemma_partition_probe_names_cover(
    parts: Seq<SysBlockPartition>,
    mounts: Seq<ProcMounts>,
    j: int,
)
    requires
        0 <= j < parts.len(),
        mount_for(mounts, parts[j].name@) is None,
    ensures
        partition_probe_names(parts, mounts).contains(parts[j].name@),
    decreases parts.len(),
{
    let prefix = partition_probe_names(parts.drop_last(), mounts);
    if j == parts.len() - 1 {
        assert(partition_probe_names(parts, mounts)[prefix.len() as int] == parts[j].name@);
    } else {
        assert(parts.drop_last()[j] == parts[j]);
        lemma_partition_probe_names_cover(parts.drop_last(), mounts, j);
        let k = choose|k: int| 0 <= k < prefix.len() && prefix[k] == parts[j].name@;
        assert(partition_probe_names(parts, mounts)[k] == parts[j].name@);
    }
}

proof fn lemma_probe_names_cover(
    devices: Seq<SysBlockDevice>,
    mounts: Seq<ProcMounts>,
    i: int,
    x: Seq<char>,
)
    requires
        0 <= i < devices.len(),
        device_probe_names(devices[i], mounts).contains(x),
    ensures
        probe_names(devices, mounts).contains(x),
    decreases devices.len(),
{
    let prefix = probe_names(devices.drop_last(), mounts);
    let all = probe_names(devices, mounts);
    if i == devices.len() - 1 {
        let own = device_probe_names(devices[i], mounts);
        let k = choose|k: int| 0 <= k < own.len() && own[k] == x;
        assert(all[prefix.len() + k] == x);
    } else {
        assert(devices.drop_last()[i] == devices[i]);
        lemma_probe_names_cover(devices.drop_last(), mounts, i, x);
        let k = choose|k: int| 0 <= k < prefix.len() && prefix[k] == x;
        assert(all[k] == x);
    }
}

/// Only the buffers of the probe list matter: two sets of buffers that agree on
/// every name that `probe_targets` lists give the same merged inventory.
pub proof fn lemma_only_probe_targets_read(
    devices: Seq<SysBlockDevice>,
    dev_disk: Seq<DevDisk>,
    mounts: Seq<ProcMounts>,
    fstab: Seq<Fstab>,
    first: Seq<DeviceHead>,
    second: Seq<DeviceHead>,
)
    requires
        devices.len() <= usize::MAX,
        forall|n: Seq<char>|
            #[trigger] probe_names(devices, mounts).contains(n) ==> head_for(first, n) == head_for(
                second,
                n,
            ),
    ensures
        aggregate(devices, dev_disk, mounts, fstab, first) == aggregate(
            devices,
            dev_disk,
            mounts,
            fstab,
            second,
        ),
{
    let order = sort_order(device_keys(devices));
    let out1 = aggregate(devices, dev_disk, mounts, fstab, first);
    let out2 = aggregate(devices, dev_disk, mounts, fstab, second);
    assert forall|k: int| 0 <= k < out1.len() implies out1[k] == out2[k] by {
        let i = order[k] as int;
        let d = devices[i];
        lemma_sort_order(device_keys(devices), devices.len());
        let own = if mount_for(mounts, d.name@) is None && d.part is None {
            seq![d.name@]
        } else {
            Seq::<Seq<char>>::empty()
        };
        if mount_for(mounts, d.name@) is None && d.part is None {
            assert(device_probe_names(d, mounts)[0] == d.name@);
            lemma_probe_names_cover(devices, mounts, i, d.name@);
        }
        if let Some(ps) = d.part {
            let pkeys = partition_keys(ps@);
            let porder = sort_order(pkeys);
            assert(ps@.len() == ps.len());
            lemma_sort_order(pkeys, ps@.len());
            let p1 = partitions_spec(ps@, dev_disk, mounts, fstab, first);
            let p2 = partitions_spec(ps@, dev_disk, mounts, fstab, second);
            assert forall|q: int| 0 <= q < p1.len() implies p1[q] == p2[q] by {
                let j = porder[q] as int;
                if mount_for(mounts, ps@[j].name@) is None {
                    lemma_partition_probe_names_cover(ps@, mounts, j);
                    let rest = partition_probe_names(ps@, mounts);
                    let c = choose|c: int| 0 <= c < rest.len() && rest[c] == ps@[j].name@;
                    assert(device_probe_names(d, mounts)[own.len() + c] == ps@[j].name@);
                    lemma_probe_names_cover(devices, mounts, i, ps@[j].name@);
                }
            }
            assert(p1 =~= p2);
        }
    }
    assert(out1 =~= out2);
}

/// A static mount record that names an entity's first UUID is attached to it,
/// whatever its label, unless an earlier record already refers to the entity.
pub proof fn lemma_fstab_by_uuid(
    fstab: Seq<Fstab>,
    uuids: Seq<Seq<char>>,
    label: Option<Seq<char>>,
    k: int,
)
    requires
        0 <= k < fstab.len(),
        uuids.len() > 0,
        fstab[k].device@ == "UUID="@ + uuids[0],
        forall|j: int| 0 <= j < k ==> !fstab_refers_to(#[trigger] fstab[j], Some(uuids), label),
    ensures
        fstab_for(fstab, Some(uuids), label) == Some(fstab[k]),
{
    let p = fstab_pred(Some(uuids), label);
    assert forall|j: int| 0 <= j < k implies !p(#[trigger] fstab[j]) by {}
    lemma_find_first_hit(fstab, p, k);
}

} // verus!
