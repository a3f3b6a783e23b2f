use diskinfo::dev_disk::{DevDiskInfo, DiskLink};
use diskinfo::fstab::Fstab;
use diskinfo::proc_mounts::ProcMountsInfo;
use diskinfo::sys_block::{
    parse_model, parse_removable, parse_size, partition_entries, SysBlockDevice,
    SysBlockDeviceEntries, SysBlockPartition, SysBlockPartitionEntries,
};

fn s(x: &str) -> String {
    x.to_string()
}

#[test]
fn mount_table_keeps_device_nodes() {
    let text = "/dev/sda2 / ext4 rw,relatime 0 0\n\
                proc /proc proc rw 0 0\n\
                tmpfs /tmp tmpfs rw 0 0\n\
                /dev/sdc /mnt/usb vfat rw 0 0\n\
                /dev/short only\n\
                \n";
    let info = ProcMountsInfo::new(text).info;
    assert_eq!(info.len(), 2);
    assert_eq!((info[0].name.as_str(), info[0].mount_point.as_str(), info[0].fstype.as_str()), ("sda2", "/", "ext4"));
    assert_eq!((info[1].name.as_str(), info[1].mount_point.as_str(), info[1].fstype.as_str()), ("sdc", "/mnt/usb", "vfat"));
}

#[test]
fn mount_table_fields_split_on_any_white_space() {
    let info = ProcMountsInfo::new("  /dev/mapper/root\t/home   xfs rw 0 0\r\n").info;
    assert_eq!(info.len(), 1);
    assert_eq!(info[0].name, "mapper/root");
    assert_eq!(info[0].mount_point, "/home");
    assert_eq!(info[0].fstype, "xfs");
}

#[test]
fn empty_mount_table() {
    assert!(ProcMountsInfo::new("").info.is_empty());
}

#[test]
fn fstab_options_split_at_commas() {
    let e = Fstab::from_fields(s("UUID=1"), s("/"), s("ext4"), "rw,noatime,,x", 1, 2);
    assert_eq!(e.options, vec![s("rw"), s("noatime"), s(""), s("x")]);
    assert_eq!(e.dump_freq, 1);
    assert_eq!(e.fsck_pass, 2);
    let e = Fstab::from_fields(s("/dev/sda1"), s("none"), s("swap"), "", 0, 0);
    assert_eq!(e.options, vec![s("")]);
}

#[test]
fn fstab_clone_keeps_fields() {
    let e = Fstab::from_fields(s("LABEL=x"), s("/data"), s("xfs"), "defaults", 0, 2);
    let c = e.clone();
    assert_eq!(c.device, "LABEL=x");
    assert_eq!(c.mount_point, "/data");
    assert_eq!(c.options, vec![s("defaults")]);
}

fn link(device: &str, name: &str) -> DiskLink {
    DiskLink { device: s(device), name: s(name) }
}

#[test]
fn label_and_uuid_links_merge_per_device() {
    let labels = vec![link("sda1", "EFI"), link("sdb1", "DATA"), link("sda1", "BOOT")];
    let uuids = vec![link("sdc", "U1"), link("sda1", "AB12"), link("sda1", "CD34")];
    let info = DevDiskInfo::new(&labels, &uuids).info;
    let names: Vec<&str> = info.iter().map(|d| d.name.as_str()).collect();
    assert_eq!(names, vec!["sda1", "sdb1", "sdc"]);
    assert_eq!(info[0].label.as_deref(), Some("BOOT"));
    assert_eq!(info[0].uuid, Some(vec![s("AB12"), s("CD34")]));
    assert_eq!(info[1].label.as_deref(), Some("DATA"));
    assert_eq!(info[1].uuid, None);
    assert_eq!(info[2].label, None);
    assert_eq!(info[2].uuid, Some(vec![s("U1")]));
}

#[test]
fn no_links_no_records() {
    assert!(DevDiskInfo::new(&vec![], &vec![]).info.is_empty());
}

#[test]
fn size_text() {
    assert_eq!(parse_size("2048\n"), Some(1048576));
    assert_eq!(parse_size(" +7 "), Some(3584));
    assert_eq!(parse_size("0"), Some(0));
    assert_eq!(parse_size(""), None);
    assert_eq!(parse_size("+"), None);
    assert_eq!(parse_size("-1"), None);
    assert_eq!(parse_size("12a"), None);
    assert_eq!(parse_size("36028797018963967"), Some(36028797018963967 * 512));
    assert_eq!(parse_size("36028797018963968"), None);
    assert_eq!(parse_size("18446744073709551616"), None);
}

#[test]
fn removable_text() {
    assert!(parse_removable("1\n"));
    assert!(!parse_removable("0\n"));
    assert!(!parse_removable("-1"));
    assert!(!parse_removable("11"));
}

#[test]
fn model_text() {
    assert_eq!(parse_model("  Samsung SSD 970  \n"), "Samsung SSD 970");
    assert_eq!(parse_model("\n"), "");
}

#[test]
fn partition_entries_start_with_device_name() {
    let entries = vec![s("sda1"), s("holders"), s("size"), s("sda2"), s("queue")];
    assert_eq!(partition_entries("sda", &entries), vec![s("sda1"), s("sda2")]);
    assert!(partition_entries("sdb", &entries).is_empty());
}

#[test]
fn device_entries_from_texts() {
    let e = SysBlockDeviceEntries::from_texts("Ultra \n", "1\n", "8\n").unwrap();
    assert_eq!(e.model, "Ultra");
    assert!(e.removable);
    assert_eq!(e.size, 4096);
    assert!(SysBlockDeviceEntries::from_texts("x", "0", "big").is_none());
    assert_eq!(SysBlockPartitionEntries::new("4\n").unwrap().size, 2048);
    assert!(SysBlockPartitionEntries::new("").is_none());
}

#[test]
fn device_without_partitions_has_none() {
    let entries = vec![s("queue"), s("size"), s("removable")];
    let d = SysBlockDevice::new(s("sda"), &entries, "m\n", "0\n", "0\n", &vec![]).unwrap();
    assert!(d.part.is_none());
    assert_eq!(d.name, "sda");
    assert_eq!(d.info.size, 0);
}

#[test]
fn device_partitions_are_the_prefixed_entries() {
    let entries = vec![s("sda2"), s("holders"), s("sda1"), s("size")];
    let sizes = vec![s("4\n"), s("1\n")];
    let d = SysBlockDevice::new(s("sda"), &entries, " Disk \n", "1\n", "2048\n", &sizes).unwrap();
    assert_eq!(d.info.size, 1048576);
    assert_eq!(d.info.model, "Disk");
    assert!(d.info.removable);
    let parts = d.part.unwrap();
    let names: Vec<&str> = parts.iter().map(|p| p.name.as_str()).collect();
    assert_eq!(names, vec!["sda2", "sda1"]);
    assert_eq!(parts[0].info.size, 2048);
    assert_eq!(parts[1].info.size, 512);
}

#[test]
fn device_with_bad_size_text_is_rejected() {
    let entries = vec![s("sda1")];
    assert!(SysBlockDevice::new(s("sda"), &entries, "m", "0", "x", &vec![s("1")]).is_none());
    assert!(SysBlockDevice::new(s("sda"), &entries, "m", "0", "8", &vec![s("")]).is_none());
}

#[test]
fn topology_listing() {
    let device =
        SysBlockDevice::new(s("sda"), &vec![s("sda1")], "Disk", "1", "4", &vec![s("3")]).unwrap();
    let info = diskinfo::sys_block::SysBlockInfo::new(vec![device]);
    let expected = "\nfrom `/sys/block`\n=================\n\n⛊ sda\n • Model: Disk\n • Size: 2KB\n • Removable: Yes\n • Partitions:\n    ⛉ sda1\n      • Size: 1.5KB\n";
    assert_eq!(info.to_string(), expected);
}

#[test]
fn label_listing() {
    let labels = vec![link("sda1", "EFI")];
    let uuids = vec![link("sda1", "AB12"), link("sda1", "CD34")];
    let info = DevDiskInfo::new(&labels, &uuids);
    let expected = "\nfrom `/dev/disk`\n================\n\n⛉ sda1\n  • Label: EFI\n  • UUID: AB12\n  • UUID: CD34\n";
    assert_eq!(info.to_string(), expected);
}

#[test]
fn mount_listing() {
    let info = ProcMountsInfo::new("/dev/sda2 / ext4 rw 0 0\n");
    let expected = "\nfrom `/proc/mounts`\n===================\n\n⛉ sda2\n  • Filesystem: ext4\n  • Mount Point: /\n";
    assert_eq!(info.to_string(), expected);
    assert_eq!(ProcMountsInfo::new("").to_string(), "\nfrom `/proc/mounts`\n===================\n");
}

#[test]
fn partition_record() {
    let p = SysBlockPartition::new("sdb1", SysBlockPartitionEntries { size: 512 });
    assert_eq!(p.name, "sdb1");
    assert_eq!(p.info.size, 512);
}
