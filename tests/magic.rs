use diskinfo::magic::{
    detect_fstype, fs_type_to_string, get_fstype_with_magic, has_boot_sector, signatures, FsType,
};

fn zeros(n: usize) -> Vec<u8> {
    vec![0u8; n]
}

fn put(buf: &mut Vec<u8>, offset: usize, bytes: &[u8]) {
    buf[offset..offset + bytes.len()].copy_from_slice(bytes);
}

#[test]
fn fat32_with_boot_sector_is_vfat() {
    let mut buf = zeros(4096);
    put(&mut buf, 0x52, b"FAT32   ");
    put(&mut buf, 510, &[0x55, 0xAA]);
    assert_eq!(get_fstype_with_magic(&buf), Some("vfat".to_string()));
}

#[test]
fn fat32_without_boot_sector_is_not_detected() {
    let mut buf = zeros(4096);
    put(&mut buf, 0x52, b"FAT32   ");
    assert_eq!(get_fstype_with_magic(&buf), None);
}

#[test]
fn fat12_and_fat16_are_vfat() {
    for sig in [b"FAT12   ", b"FAT16   "] {
        let mut buf = zeros(4096);
        put(&mut buf, 0x36, sig);
        put(&mut buf, 510, &[0x55, 0xAA]);
        assert_eq!(detect_fstype(&buf), Some(FsType::Vfat));
    }
}

#[test]
fn ext4_magic_little_endian() {
    let mut buf = zeros(4096);
    put(&mut buf, 1080, &[0x53, 0xEF]);
    assert_eq!(get_fstype_with_magic(&buf), Some("ext4".to_string()));
}

#[test]
fn ext4_magic_big_endian_is_not_detected() {
    let mut buf = zeros(4096);
    put(&mut buf, 1080, &[0xEF, 0x53]);
    assert_eq!(get_fstype_with_magic(&buf), None);
}

#[test]
fn ext4_on_short_device() {
    let mut buf = zeros(1082);
    put(&mut buf, 1080, &[0x53, 0xEF]);
    assert_eq!(detect_fstype(&buf), Some(FsType::Ext4));
    buf.truncate(1081);
    assert_eq!(detect_fstype(&buf), None);
}

#[test]
fn swapspace2_is_swap() {
    let mut buf = zeros(4096);
    put(&mut buf, 4086, b"SWAPSPACE2");
    assert_eq!(get_fstype_with_magic(&buf), Some("swap".to_string()));
}

#[test]
fn swap_space_is_swap() {
    let mut buf = zeros(4096);
    put(&mut buf, 4086, b"SWAP-SPACE");
    assert_eq!(detect_fstype(&buf), Some(FsType::Swap));
}

#[test]
fn nothing_matching_is_none() {
    assert_eq!(get_fstype_with_magic(&zeros(70000)), None);
    assert_eq!(get_fstype_with_magic(&[]), None);
}

#[test]
fn ntfs_needs_boot_sector() {
    let mut buf = zeros(4096);
    put(&mut buf, 3, b"NTFS ");
    assert_eq!(detect_fstype(&buf), None);
    put(&mut buf, 510, &[0x55, 0xAA]);
    assert_eq!(detect_fstype(&buf), Some(FsType::Ntfs));
}

#[test]
fn exfat_without_boot_sector() {
    let mut buf = zeros(4096);
    put(&mut buf, 3, b"EXFAT   ");
    assert_eq!(get_fstype_with_magic(&buf), Some("exfat".to_string()));
}

#[test]
fn byte_sequence_needs_a_full_probe_buffer() {
    let mut buf = zeros(4095);
    put(&mut buf, 3, b"EXFAT   ");
    assert_eq!(detect_fstype(&buf), None);
}

#[test]
fn xfs_magic() {
    let mut buf = zeros(512);
    put(&mut buf, 0, &0x5846_5342u32.to_le_bytes());
    assert_eq!(get_fstype_with_magic(&buf), Some("xfs".to_string()));
}

#[test]
fn iso9660_at_each_offset() {
    for offset in [0x8001usize, 0x8801, 0x9001] {
        let mut buf = zeros(0x9001 + 5);
        put(&mut buf, offset, b"CD001");
        assert_eq!(get_fstype_with_magic(&buf), Some("iso9660".to_string()));
    }
}

#[test]
fn btrfs_magic() {
    let mut buf = zeros(65608);
    put(&mut buf, 65600, &0x9123_683Eu64.to_le_bytes());
    assert_eq!(get_fstype_with_magic(&buf), Some("btrfs".to_string()));
    buf.truncate(65607);
    assert_eq!(get_fstype_with_magic(&buf), None);
}

#[test]
fn first_matching_row_wins() {
    // A FAT32 boot sector that also carries an ext4 magic: FAT32 comes first.
    let mut buf = zeros(4096);
    put(&mut buf, 0x52, b"FAT32   ");
    put(&mut buf, 510, &[0x55, 0xAA]);
    put(&mut buf, 1080, &[0x53, 0xEF]);
    assert_eq!(detect_fstype(&buf), Some(FsType::Vfat));
    // XFS comes before ext4.
    let mut buf = zeros(4096);
    put(&mut buf, 0, &0x5846_5342u32.to_le_bytes());
    put(&mut buf, 1080, &[0x53, 0xEF]);
    assert_eq!(detect_fstype(&buf), Some(FsType::Xfs));
}

#[test]
fn boot_sector_check() {
    let mut buf = zeros(512);
    assert!(!has_boot_sector(&buf));
    put(&mut buf, 510, &[0x55, 0xAA]);
    assert!(has_boot_sector(&buf));
    assert!(!has_boot_sector(&buf[..511]));
}

#[test]
fn fs_type_names() {
    let cases = [
        (FsType::Ext4, "ext4"),
        (FsType::Btrfs, "btrfs"),
        (FsType::Xfs, "xfs"),
        (FsType::Ntfs, "ntfs"),
        (FsType::Vfat, "vfat"),
        (FsType::ExFat, "exfat"),
        (FsType::Swap, "swap"),
        (FsType::Iso9660, "iso9660"),
    ];
    for (t, name) in cases {
        assert_eq!(fs_type_to_string(&t), name);
    }
}

#[test]
fn signature_table_order() {
    let table = signatures();
    let kinds: Vec<FsType> = table.iter().map(|s| s.fs_type).collect();
    assert_eq!(
        kinds,
        vec![
            FsType::Vfat,
            FsType::Vfat,
            FsType::Vfat,
            FsType::Ntfs,
            FsType::ExFat,
            FsType::Swap,
            FsType::Swap,
            FsType::Xfs,
            FsType::Ext4,
            FsType::Iso9660,
            FsType::Iso9660,
            FsType::Iso9660,
            FsType::Btrfs,
        ]
    );
}
