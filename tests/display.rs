use diskinfo::combined::{CombinedDeviceInfo, CombinedPartitionInfo};
use diskinfo::display::{format_common_fields, readable_size_from, render_report};
use diskinfo::fstab::Fstab;
use diskinfo::sys_block::parse_size;

fn s(x: &str) -> String {
    x.to_string()
}

#[test]
fn sector_count_2048_is_one_megabyte() {
    let bytes = parse_size("2048\n").unwrap();
    assert_eq!(bytes, 1048576);
    assert_eq!(readable_size_from(bytes), "1MB");
}

#[test]
fn sector_count_3_is_1536_bytes() {
    let bytes = parse_size("3").unwrap();
    assert_eq!(bytes, 1536);
    // 1536 is at least 1024, so it is shown in KB
    assert_eq!(readable_size_from(bytes), "1.5KB");
    // below 1024 there is no promotion
    assert_eq!(readable_size_from(parse_size("1").unwrap()), "512B");
}

#[test]
fn sizes_in_bytes() {
    assert_eq!(readable_size_from(0), "0B");
    assert_eq!(readable_size_from(1), "1B");
    assert_eq!(readable_size_from(1023), "1023B");
}

#[test]
fn whole_values_have_no_decimals() {
    assert_eq!(readable_size_from(1024), "1KB");
    assert_eq!(readable_size_from(2 * 1024 * 1024 * 1024), "2GB");
    assert_eq!(readable_size_from(1 << 40), "1TB");
    assert_eq!(readable_size_from(1 << 50), "1PB");
    assert_eq!(readable_size_from(3 << 60), "3072PB");
}

#[test]
fn fractions_have_one_decimal() {
    assert_eq!(readable_size_from(1536), "1.5KB");
    assert_eq!(readable_size_from(1025), "1.0KB");
    assert_eq!(readable_size_from(1024 * 1024 - 1), "1024.0KB");
    assert_eq!(readable_size_from(500_107_862_016), "465.8GB");
    // an exact tie rounds to the even digit
    assert_eq!(readable_size_from(1280), "1.2KB");
    assert_eq!(readable_size_from(1792), "1.8KB");
}

#[test]
fn largest_size() {
    assert_eq!(readable_size_from(u64::MAX), "16384.0PB");
}

#[test]
fn two_uuids_render_with_parentheses() {
    let text = format_common_fields(
        "  ",
        None,
        &None,
        &None,
        &None,
        None,
        &Some(vec![s("AAAA"), s("BBBB")]),
        &None,
    );
    assert_eq!(text, "  • UUID: AAAA (BBBB)\n");
}

#[test]
fn one_uuid_renders_alone() {
    let text = format_common_fields("  ", None, &None, &None, &None, None, &Some(vec![s("AAAA")]), &None);
    assert_eq!(text, "  • UUID: AAAA\n");
}

#[test]
fn empty_uuid_list_renders_nothing() {
    let text = format_common_fields("  ", None, &None, &None, &None, None, &Some(vec![]), &None);
    assert_eq!(text, "");
}

#[test]
fn all_common_fields() {
    let entry = Fstab {
        device: s("UUID=AAAA"),
        mount_point: s("/boot"),
        fs_type: s("vfat"),
        options: vec![s("rw"), s("noatime")],
        dump_freq: 0,
        fsck_pass: -2,
    };
    let text = format_common_fields(
        "  ",
        Some(1536),
        &Some(s("vfat")),
        &Some(s("EFI")),
        &Some(s("/boot")),
        Some(false),
        &Some(vec![s("AAAA"), s("BBBB"), s("CCCC")]),
        &Some(entry),
    );
    let expected = "  • Size: 1.5KB\n\
                    \x20 • Filesystem: vfat\n\
                    \x20 • Label: EFI\n\
                    \x20 • Mount Point: /boot\n\
                    \x20 • Removable: No\n\
                    \x20 • UUID: AAAA (BBBB)\n\
                    \x20 • Fstab Entry:\n\
                    \x20   • Device: UUID=AAAA\n\
                    \x20   • Mount Point: /boot\n\
                    \x20   • Filesystem: vfat\n\
                    \x20   • Options:\n\
                    \x20     • rw\n\
                    \x20     • noatime\n\
                    \x20   • Dump Frequency: 0\n\
                    \x20   • fsck Pass: -2\n";
    assert_eq!(text, expected);
}

fn partition(name: &str) -> CombinedPartitionInfo {
    CombinedPartitionInfo {
        name: s(name),
        size: Some(1048576),
        filesystem: Some(s("ext4")),
        label: None,
        mount_point: None,
        removable: Some(true),
        uuids: None,
        fstab_entry: None,
    }
}

fn device() -> CombinedDeviceInfo {
    CombinedDeviceInfo {
        name: s("sdb"),
        model: Some(s("Flash Disk")),
        size: Some(2048),
        filesystem: None,
        label: None,
        mount_point: None,
        removable: Some(true),
        uuids: None,
        fstab_entry: None,
        partitions: vec![partition("sdb1")],
    }
}

#[test]
fn partition_block() {
    assert_eq!(
        partition("sdb1").to_string(),
        "⛉ sdb1\n      • Size: 1MB\n      • Filesystem: ext4\n      • Removable: Yes\n"
    );
}

#[test]
fn device_block() {
    let expected = "⛊ sdb\n  • Model: Flash Disk\n  • Size: 2KB\n  • Removable: Yes\n  • Partitions:\n    ⛉ sdb1\n      • Size: 1MB\n      • Filesystem: ext4\n      • Removable: Yes\n";
    assert_eq!(device().to_string(), expected);
}

#[test]
fn device_without_partitions_or_model() {
    let mut d = device();
    d.partitions.clear();
    d.model = None;
    assert_eq!(d.to_string(), "⛊ sdb\n  • Size: 2KB\n  • Removable: Yes\n");
}

#[test]
fn report_separates_devices_with_empty_line() {
    let mut d = device();
    d.partitions.clear();
    d.model = None;
    let report = render_report(&vec![d]);
    assert_eq!(report, "⛊ sdb\n  • Size: 2KB\n  • Removable: Yes\n\n");
    assert_eq!(render_report(&vec![]), "");
}
