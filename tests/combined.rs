use diskinfo::combined::{probe_targets, CombinedDeviceInfo};
use diskinfo::dev_disk::{DevDisk, DevDiskInfo};
use diskinfo::display::render_report;
use diskinfo::fstab::{Fstab, FstabInfo};
use diskinfo::magic::DeviceHead;
use diskinfo::proc_mounts::{ProcMounts, ProcMountsInfo};
use diskinfo::sys_block::{SysBlockDevice, SysBlockInfo};

fn s(x: &str) -> String {
    x.to_string()
}

fn disk(name: &str, parts: &[&str]) -> SysBlockDevice {
    let mut entries: Vec<String> = vec![s("queue"), s("size")];
    entries.extend(parts.iter().map(|p| s(p)));
    let sizes: Vec<String> = parts.iter().map(|_| s("2\n")).collect();
    SysBlockDevice::new(s(name), &entries, "Model\n", "0\n", "8\n", &sizes).unwrap()
}

fn mount(name: &str, mount_point: &str, fstype: &str) -> ProcMounts {
    ProcMounts::new(name, mount_point, fstype)
}

fn fstab_entry(device: &str) -> Fstab {
    Fstab::from_fields(s(device), s("/mnt"), s("ext4"), "defaults", 0, 2)
}

fn swap_head(name: &str) -> DeviceHead {
    let mut bytes = vec![0u8; 4096];
    bytes[4086..4096].copy_from_slice(b"SWAPSPACE2");
    DeviceHead { name: s(name), bytes: Some(bytes) }
}

fn empty_sources() -> (DevDiskInfo, ProcMountsInfo, FstabInfo) {
    (DevDiskInfo { info: vec![] }, ProcMountsInfo { info: vec![] }, FstabInfo { info: vec![] })
}

#[test]
fn devices_and_partitions_sorted_by_name() {
    let sys = SysBlockInfo::new(vec![
        disk("sdb", &["sdb2", "sdb10", "sdb1"]),
        disk("nvme0n1", &[]),
        disk("sda", &[]),
    ]);
    let (dd, pm, fs) = empty_sources();
    let out = CombinedDeviceInfo::new(&sys, &dd, &pm, &fs, &vec![]);
    let names: Vec<&str> = out.iter().map(|d| d.name.as_str()).collect();
    assert_eq!(names, vec!["nvme0n1", "sda", "sdb"]);
    let parts: Vec<&str> = out[2].partitions.iter().map(|p| p.name.as_str()).collect();
    assert_eq!(parts, vec!["sdb1", "sdb10", "sdb2"]);
}

#[test]
fn ordering_is_byte_wise() {
    let sys = SysBlockInfo::new(vec![disk("sda", &[]), disk("Sdz", &[]), disk("sd", &[])]);
    let (dd, pm, fs) = empty_sources();
    let out = CombinedDeviceInfo::new(&sys, &dd, &pm, &fs, &vec![]);
    let names: Vec<&str> = out.iter().map(|d| d.name.as_str()).collect();
    assert_eq!(names, vec!["Sdz", "sd", "sda"]);
}

#[test]
fn topology_fields_are_always_present() {
    let sys = SysBlockInfo::new(vec![disk("sda", &["sda1"])]);
    let (dd, pm, fs) = empty_sources();
    let out = CombinedDeviceInfo::new(&sys, &dd, &pm, &fs, &vec![]);
    assert_eq!(out.len(), 1);
    let d = &out[0];
    assert_eq!(d.model.as_deref(), Some("Model"));
    assert_eq!(d.size, Some(4096));
    assert_eq!(d.removable, Some(false));
    assert_eq!(d.partitions[0].size, Some(1024));
    assert_eq!(d.partitions[0].removable, None);
}

#[test]
fn no_label_record_means_absent_label_and_uuids() {
    let sys = SysBlockInfo::new(vec![disk("sda", &["sda1"])]);
    let dd = DevDiskInfo {
        info: vec![DevDisk { name: s("sdb1"), label: Some(s("DATA")), uuid: Some(vec![s("1234")]) }],
    };
    let (_, pm, fs) = empty_sources();
    let out = CombinedDeviceInfo::new(&sys, &dd, &pm, &fs, &vec![]);
    assert!(out[0].label.is_none());
    assert!(out[0].uuids.is_none());
    assert!(out[0].partitions[0].label.is_none());
    assert!(out[0].partitions[0].uuids.is_none());
}

#[test]
fn empty_uuid_list_stays_empty() {
    let sys = SysBlockInfo::new(vec![disk("sda", &[])]);
    let dd = DevDiskInfo { info: vec![DevDisk { name: s("sda"), label: None, uuid: Some(vec![]) }] };
    let (_, pm, fs) = empty_sources();
    let out = CombinedDeviceInfo::new(&sys, &dd, &pm, &fs, &vec![]);
    assert_eq!(out[0].uuids, Some(vec![]));
    assert!(out[0].fstab_entry.is_none());
}

#[test]
fn label_record_is_copied() {
    let sys = SysBlockInfo::new(vec![disk("sda", &["sda1"])]);
    let dd = DevDiskInfo {
        info: vec![DevDisk {
            name: s("sda1"),
            label: Some(s("EFI")),
            uuid: Some(vec![s("AAAA"), s("BBBB")]),
        }],
    };
    let (_, pm, fs) = empty_sources();
    let out = CombinedDeviceInfo::new(&sys, &dd, &pm, &fs, &vec![]);
    let p = &out[0].partitions[0];
    assert_eq!(p.label.as_deref(), Some("EFI"));
    assert_eq!(p.uuids, Some(vec![s("AAAA"), s("BBBB")]));
}

#[test]
fn live_mount_beats_detection() {
    let sys = SysBlockInfo::new(vec![disk("sdc", &[])]);
    let pm = ProcMountsInfo { info: vec![mount("sdc", "/mnt/usb", "ext4")] };
    let (dd, _, fs) = empty_sources();
    let out = CombinedDeviceInfo::new(&sys, &dd, &pm, &fs, &vec![swap_head("sdc")]);
    assert_eq!(out[0].filesystem.as_deref(), Some("ext4"));
    assert_eq!(out[0].mount_point.as_deref(), Some("/mnt/usb"));
}

#[test]
fn detection_fills_an_unmounted_partition() {
    let sys = SysBlockInfo::new(vec![disk("sda", &["sda1", "sda2"])]);
    let pm = ProcMountsInfo { info: vec![mount("sda1", "/", "btrfs")] };
    let (dd, _, fs) = empty_sources();
    let heads = vec![swap_head("sda1"), swap_head("sda2"), swap_head("sda")];
    let out = CombinedDeviceInfo::new(&sys, &dd, &pm, &fs, &heads);
    assert_eq!(out[0].filesystem, None);
    assert_eq!(out[0].partitions[0].filesystem.as_deref(), Some("btrfs"));
    assert_eq!(out[0].partitions[1].filesystem.as_deref(), Some("swap"));
    assert_eq!(out[0].partitions[1].mount_point, None);
}

#[test]
fn detection_fills_an_unpartitioned_disk() {
    let sys = SysBlockInfo::new(vec![disk("sdd", &[])]);
    let (dd, pm, fs) = empty_sources();
    let out = CombinedDeviceInfo::new(&sys, &dd, &pm, &fs, &vec![swap_head("sdd")]);
    assert_eq!(out[0].filesystem.as_deref(), Some("swap"));
}

#[test]
fn unreadable_node_leaves_filesystem_absent() {
    let sys = SysBlockInfo::new(vec![disk("sdd", &[]), disk("sde", &[])]);
    let (dd, pm, fs) = empty_sources();
    let heads = vec![DeviceHead { name: s("sdd"), bytes: None }];
    let out = CombinedDeviceInfo::new(&sys, &dd, &pm, &fs, &heads);
    assert_eq!(out[0].filesystem, None);
    assert_eq!(out[1].filesystem, None);
}

#[test]
fn fstab_matched_by_uuid_without_label() {
    let sys = SysBlockInfo::new(vec![disk("sda", &["sda1"])]);
    let dd = DevDiskInfo {
        info: vec![DevDisk { name: s("sda1"), label: None, uuid: Some(vec![s("AAAA"), s("BBBB")]) }],
    };
    let fs = FstabInfo { info: vec![fstab_entry("LABEL=OTHER"), fstab_entry("UUID=AAAA")] };
    let (_, pm, _) = empty_sources();
    let out = CombinedDeviceInfo::new(&sys, &dd, &pm, &fs, &vec![]);
    let e = out[0].partitions[0].fstab_entry.as_ref().unwrap();
    assert_eq!(e.device, "UUID=AAAA");
    assert_eq!(e.options, vec![s("defaults")]);
    assert_eq!(e.fsck_pass, 2);
}

#[test]
fn fstab_matched_by_uuid_with_other_label() {
    let sys = SysBlockInfo::new(vec![disk("sda", &[])]);
    let dd = DevDiskInfo {
        info: vec![DevDisk { name: s("sda"), label: Some(s("MINE")), uuid: Some(vec![s("AAAA")]) }],
    };
    let fs = FstabInfo { info: vec![fstab_entry("/dev/sdz"), fstab_entry("UUID=AAAA")] };
    let (_, pm, _) = empty_sources();
    let out = CombinedDeviceInfo::new(&sys, &dd, &pm, &fs, &vec![]);
    assert_eq!(out[0].fstab_entry.as_ref().unwrap().device, "UUID=AAAA");
}

#[test]
fn fstab_matched_by_label() {
    let sys = SysBlockInfo::new(vec![disk("sda", &[])]);
    let dd = DevDiskInfo {
        info: vec![DevDisk { name: s("sda"), label: Some(s("DATA")), uuid: Some(vec![s("AAAA")]) }],
    };
    let fs = FstabInfo { info: vec![fstab_entry("LABEL=DATA"), fstab_entry("UUID=AAAA")] };
    let (_, pm, _) = empty_sources();
    let out = CombinedDeviceInfo::new(&sys, &dd, &pm, &fs, &vec![]);
    assert_eq!(out[0].fstab_entry.as_ref().unwrap().device, "LABEL=DATA");
}

#[test]
fn second_uuid_does_not_match_fstab() {
    let sys = SysBlockInfo::new(vec![disk("sda", &[])]);
    let dd = DevDiskInfo {
        info: vec![DevDisk { name: s("sda"), label: None, uuid: Some(vec![s("AAAA"), s("BBBB")]) }],
    };
    let fs = FstabInfo { info: vec![fstab_entry("UUID=BBBB")] };
    let (_, pm, _) = empty_sources();
    let out = CombinedDeviceInfo::new(&sys, &dd, &pm, &fs, &vec![]);
    assert!(out[0].fstab_entry.is_none());
}

#[test]
fn first_of_several_records_is_used() {
    let sys = SysBlockInfo::new(vec![disk("sda", &[])]);
    let dd = DevDiskInfo {
        info: vec![
            DevDisk { name: s("sda"), label: Some(s("FIRST")), uuid: None },
            DevDisk { name: s("sda"), label: Some(s("SECOND")), uuid: None },
        ],
    };
    let pm = ProcMountsInfo { info: vec![mount("sda", "/a", "xfs"), mount("sda", "/b", "ext4")] };
    let fs = FstabInfo { info: vec![] };
    let out = CombinedDeviceInfo::new(&sys, &dd, &pm, &fs, &vec![]);
    assert_eq!(out[0].label.as_deref(), Some("FIRST"));
    assert_eq!(out[0].mount_point.as_deref(), Some("/a"));
    assert_eq!(out[0].filesystem.as_deref(), Some("xfs"));
}

fn sample() -> (SysBlockInfo, DevDiskInfo, ProcMountsInfo, FstabInfo, Vec<DeviceHead>) {
    let sys = SysBlockInfo::new(vec![disk("sdb", &["sdb1"]), disk("sda", &["sda2", "sda1"])]);
    let dd = DevDiskInfo {
        info: vec![DevDisk { name: s("sda1"), label: Some(s("EFI")), uuid: Some(vec![s("AB12"), s("CD34")]) }],
    };
    let pm = ProcMountsInfo { info: vec![mount("sda2", "/", "ext4")] };
    let fs = FstabInfo { info: vec![fstab_entry("UUID=AB12")] };
    (sys, dd, pm, fs, vec![swap_head("sdb1")])
}

#[test]
fn running_twice_gives_the_same_report() {
    let (sys, dd, pm, fs, heads) = sample();
    let first = render_report(&CombinedDeviceInfo::new(&sys, &dd, &pm, &fs, &heads));
    let second = render_report(&CombinedDeviceInfo::new(&sys, &dd, &pm, &fs, &heads));
    assert_eq!(first, second);
    assert!(first.starts_with("⛊ sda\n"));
    assert!(first.contains("      • UUID: AB12 (CD34)\n"));
    assert!(first.contains("⛉ sdb1\n      • Size: 1KB\n      • Filesystem: swap\n"));
}

#[test]
fn probe_targets_skip_mounted_and_partitioned() {
    let (sys, _, pm, _, _) = sample();
    let targets = probe_targets(&sys, &pm);
    assert_eq!(targets, vec![s("sdb1"), s("sda1")]);
    let sys = SysBlockInfo::new(vec![disk("sdc", &[]), disk("sdd", &[])]);
    let pm = ProcMountsInfo { info: vec![mount("sdd", "/mnt", "vfat")] };
    assert_eq!(probe_targets(&sys, &pm), vec![s("sdc")]);
}

#[test]
fn topology_order_does_not_matter() {
    let (dd, pm, fs) = empty_sources();
    let a = SysBlockInfo::new(vec![disk("sdb", &["sdb1"]), disk("sda", &[]), disk("nvme0n1", &["nvme0n1p1"])]);
    let b = SysBlockInfo::new(vec![disk("nvme0n1", &["nvme0n1p1"]), disk("sdb", &["sdb1"]), disk("sda", &[])]);
    let first = render_report(&CombinedDeviceInfo::new(&a, &dd, &pm, &fs, &vec![]));
    let second = render_report(&CombinedDeviceInfo::new(&b, &dd, &pm, &fs, &vec![]));
    assert_eq!(first, second);
}
