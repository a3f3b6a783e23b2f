use vstd::prelude::*;

use crate::lookup::{find_first, lemma_find_first_hit, lemma_find_first_miss};
use crate::text::opt_string_view;

verus! {

/// The filesystem families that the signature table can recognise.
#[derive(Debug, Clone, Copy, PartialEq, Eq, Structural)]
pub enum FsType {
    Ext4,
    Btrfs,
    Xfs,
    Ntfs,
    Vfat,
    ExFat,
    Swap,
    Iso9660,
}

/// A supplementary test run on the probe buffer after a byte-sequence probe.
#[derive(Debug, Clone, Copy, PartialEq, Eq, Structural)]
pub enum SecondaryCheck {
    /// The `0x55 0xAA` marker at bytes 510-511.
    BootSector,
}

/// How one signature is looked for in the leading bytes of a device.
#[allow(inconsistent_fields)]
pub enum Detection {
    /// `signature` at `offset`, inside a buffer of `max(offset + len, 4096)` bytes
    /// read from the start of the device.
    ByteSequence { offset: u64, signature: Vec<u8>, secondary_check: Option<SecondaryCheck> },
    /// A 16-bit little-endian magic number at `offset`.
    MagicU16 { offset: u64, magic: u16 },
    /// A 32-bit little-endian magic number at `offset`.
    MagicU32 { offset: u64, magic: u32 },
    /// A 64-bit little-endian magic number at `offset`.
    MagicU64 { offset: u64, magic: u64 },
}

/// One row of the signature table.
pub struct Signature {
    pub method: Detection,
    pub fs_type: FsType,
}

/// How many leading bytes of a device node the signature table can look at:
/// the last row reads 8 bytes at offset 65 600.
pub const PROBE_LEN: usize = 65608;

/// The leading bytes of a device node, as read for signature probing.
#[derive(Debug)]
pub struct DeviceHead {
    /// Device or partition name.
    pub name: String,
    /// Up to 65 608 bytes from the start of the node; `None` when the node could
    /// not be opened.
    pub bytes: Option<Vec<u8>>,
}

/// Mathematical form of a probe.
pub enum DetectionModel {
    ByteSequence { offset: nat, signature: Seq<u8>, secondary_check: Option<SecondaryCheck> },
    Magic { offset: nat, width: nat, magic: nat },
}

pub struct SignatureModel {
    pub method: DetectionModel,
    pub fs_type: FsType,
}

impl View for Detection {
    type V = DetectionModel;

    open spec fn view(&self) -> DetectionModel {
        match self {
            Detection::ByteSequence { offset, signature, secondary_check } => {
                DetectionModel::ByteSequence {
                    offset: *offset as nat,
                    signature: signature@,
                    secondary_check: *secondary_check,
                }
            },
            Detection::MagicU16 { offset, magic } => {
                DetectionModel::Magic { offset: *offset as nat, width: 2, magic: *magic as nat }
            },
            Detection::MagicU32 { offset, magic } => {
                DetectionModel::Magic { offset: *offset as nat, width: 4, magic: *magic as nat }
            },
            Detection::MagicU64 { offset, magic } => {
                DetectionModel::Magic { offset: *offset as nat, width: 8, magic: *magic as nat }
            },
        }
    }
}

impl View for Signature {
    type V = SignatureModel;

    open spec fn view(&self) -> SignatureModel {
        SignatureModel { method: self.method@, fs_type: self.fs_type }
    }
}

/// The boot-sector marker: `0x55 0xAA` at bytes 510 and 511.
pub open spec fn boot_sector_present(buffer: Seq<u8>) -> bool {
    buffer.len() >= 512 && buffer[510] == 0x55 && buffer[511] == 0xAA
}

/// The `width` bytes of `value` in little-endian order.
pub open spec fn le_bytes(value: nat, width: nat) -> Seq<u8>
    decreases width,
{
    if width == 0 {
        Seq::empty()
    } else {
        seq![(value % 256) as u8] + le_bytes(value / 256, (width - 1) as nat)
    }
}

/// Size of the buffer read from the start of the device for a byte-sequence probe.
pub open spec fn probe_len(offset: nat, signature_len: nat) -> nat {
    if offset + signature_len > 4096 {
        offset + signature_len
    } else {
        4096
    }
}

/// Whether one probe matches a device whose leading bytes are `data`.
///
/// A probe whose bytes lie (partly) past the end of `data` does not match: that is
/// a short read, which counts as no match.
pub open spec fn rule_matches(method: DetectionModel, data: Seq<u8>) -> bool {
    match method {
        DetectionModel::ByteSequence { offset, signature, secondary_check } => {
            let read_size = probe_len(offset, signature.len());
            &&& data.len() >= read_size
            &&& match secondary_check {
                Some(SecondaryCheck::BootSector) => boot_sector_present(data.take(read_size as int)),
                None => true,
            }
            &&& data.subrange(offset as int, (offset + signature.len()) as int) == signature
        },
        DetectionModel::Magic { offset, width, magic } => {
            &&& data.len() >= offset + width
            &&& data.subrange(offset as int, (offset + width) as int) == le_bytes(magic, width)
        },
    }
}

pub open spec fn fat12_magic() -> Seq<u8> {
    seq![0x46u8, 0x41, 0x54, 0x31, 0x32, 0x20, 0x20, 0x20]  // "FAT12   "
}

pub open spec fn fat16_magic() -> Seq<u8> {
    seq![0x46u8, 0x41, 0x54, 0x31, 0x36, 0x20, 0x20, 0x20]  // "FAT16   "
}

pub open spec fn fat32_magic() -> Seq<u8> {
    seq![0x46u8, 0x41, 0x54, 0x33, 0x32, 0x20, 0x20, 0x20]  // "FAT32   "
}

pub open spec fn ntfs_magic() -> Seq<u8> {
    seq![0x4Eu8, 0x54, 0x46, 0x53, 0x20]  // "NTFS "
}

pub open spec fn exfat_magic() -> Seq<u8> {
    seq![0x45u8, 0x58, 0x46, 0x41, 0x54, 0x20, 0x20, 0x20]  // "EXFAT   "
}

pub open spec fn swap_magic() -> Seq<u8> {
    seq![0x53u8, 0x57, 0x41, 0x50, 0x2D, 0x53, 0x50, 0x41, 0x43, 0x45]  // "SWAP-SPACE"
}

pub open spec fn swap_magic_2() -> Seq<u8> {
    seq![0x53u8, 0x57, 0x41, 0x50, 0x53, 0x50, 0x41, 0x43, 0x45, 0x32]  // "SWAPSPACE2"
}

pub open spec fn iso9660_magic() -> Seq<u8> {
    seq![0x43u8, 0x44, 0x30, 0x30, 0x31]  // "CD001"
}

pub open spec fn byte_rule(
    fs_type: FsType,
    offset: nat,
    signature: Seq<u8>,
    boot_sector: bool,
) -> SignatureModel {
    SignatureModel {
        method: DetectionModel::ByteSequence {
            offset,
            signature,
            secondary_check: if boot_sector {
                Some(SecondaryCheck::BootSector)
            } else {
                None
            },
        },
        fs_type,
    }
}

pub open spec fn magic_rule(fs_type: FsType, offset: nat, width: nat, magic: nat) -> SignatureModel {
    SignatureModel { method: DetectionModel::Magic { offset, width, magic }, fs_type }
}

/// The ordered signature table; the first row that matches decides.
pub open spec fn signature_table() -> Seq<SignatureModel> {
    seq![
        byte_rule(FsType::Vfat, 0x36, fat12_magic(), true),
        byte_rule(FsType::Vfat, 0x36, fat16_magic(), true),
        byte_rule(FsType::Vfat, 0x52, fat32_magic(), true),
        byte_rule(FsType::Ntfs, 3, ntfs_magic(), true),
        byte_rule(FsType::ExFat, 3, exfat_magic(), false),
        byte_rule(FsType::Swap, 4086, swap_magic_2(), false),
        byte_rule(FsType::Swap, 4086, swap_magic(), false),
        magic_rule(FsType::Xfs, 0, 4, 0x5846_5342),
        magic_rule(FsType::Ext4, 1080, 2, 0xEF53),
        byte_rule(FsType::Iso9660, 0x8001, iso9660_magic(), false),
        byte_rule(FsType::Iso9660, 0x8801, iso9660_magic(), false),
        byte_rule(FsType::Iso9660, 0x9001, iso9660_magic(), false),
        magic_rule(FsType::Btrfs, 65600, 8, 0x9123_683E),
    ]
}

pub open spec fn rule_pred(data: Seq<u8>) -> spec_fn(SignatureModel) -> bool {
    |s: SignatureModel| rule_matches(s.method, data)
}

/// The filesystem detected in a device whose leading bytes are `data`.
pub open spec fn detect(data: Seq<u8>) -> Option<FsType> {
    match find_first(signature_table(), rule_pred(data)) {
        Some(s) => Some(s.fs_type),
        None => None,
    }
}

/// The name under which a filesystem type is reported.
pub open spec fn fs_name(fs_type: FsType) -> Seq<char> {
    match fs_type {
        FsType::ExFat => "exfat"@,
        FsType::Btrfs => "btrfs"@,
        FsType::Xfs => "xfs"@,
        FsType::Ntfs => "ntfs"@,
        FsType::Vfat => "vfat"@,
        FsType::Ext4 => "ext4"@,
        FsType::Swap => "swap"@,
        FsType::Iso9660 => "iso9660"@,
    }
}

/// The name that detection reports for `data`, if any.
pub open spec fn detected_name(data: Seq<u8>) -> Option<Seq<char>> {
    match detect(data) {
        Some(t) => Some(fs_name(t)),
        None => None,
    }
}

/// Checks the boot-sector signature at bytes 510-511.
pub fn has_boot_sector(buffer: &[u8]) -> (r: bool)
    ensures
        r == boot_sector_present(buffer@),
{
    buffer.len() >= 512 && buffer[510] == 0x55 && buffer[511] == 0xAA
}

pub fn fs_type_to_string(fs_type: &FsType) -> (r: String)
    ensures
        r@ == fs_name(*fs_type),
{
    match fs_type {
        FsType::ExFat => String::from_str("exfat"),
        FsType::Btrfs => String::from_str("btrfs"),
        FsType::Xfs => String::from_str("xfs"),
        FsType::Ntfs => String::from_str("ntfs"),
        FsType::Vfat => String::from_str("vfat"),
        FsType::Ext4 => String::from_str("ext4"),
        FsType::Swap => String::from_str("swap"),
        FsType::Iso9660 => String::from_str("iso9660"),
    }
}

fn byte_signature(
    fs_type: FsType,
    offset: u64,
    signature: Vec<u8>,
    boot_sector: bool,
) -> (r: Signature)
    ensures
        r@ == byte_rule(fs_type, offset as nat, signature@, boot_sector),
{
    let secondary_check = if boot_sector {
        Some(SecondaryCheck::BootSector)
    } else {
        None
    };
    Signature {
        method: Detection::ByteSequence { offset, signature, secondary_check },
        fs_type,
    }
}

/// Builds the signature table.
pub fn signatures() -> (r: Vec<Signature>)
    ensures
        r.len() == signature_table().len(),
        forall|i: int| 0 <= i < r.len() ==> (#[trigger] r@[i])@ == signature_table()[i],
{
    let mut r: Vec<Signature> = Vec::new();
    // "FAT12   "
    r.push(byte_signature(FsType::Vfat, 0x36, vec![0x46u8, 0x41, 0x54, 0x31, 0x32, 0x20, 0x20, 0x20], true));
    // "FAT16   "
    r.push(byte_signature(FsType::Vfat, 0x36, vec![0x46u8, 0x41, 0x54, 0x31, 0x36, 0x20, 0x20, 0x20], true));
    // "FAT32   "
    r.push(byte_signature(FsType::Vfat, 0x52, vec![0x46u8, 0x41, 0x54, 0x33, 0x32, 0x20, 0x20, 0x20], true));
    // "NTFS "
    r.push(byte_signature(FsType::Ntfs, 3, vec![0x4Eu8, 0x54, 0x46, 0x53, 0x20], true));
    // "EXFAT   "
    r.push(byte_signature(FsType::ExFat, 3, vec![0x45u8, 0x58, 0x46, 0x41, 0x54, 0x20, 0x20, 0x20], false));
    // "SWAPSPACE2"
    r.push(byte_signature(FsType::Swap, 4086, vec![0x53u8, 0x57, 0x41, 0x50, 0x53, 0x50, 0x41, 0x43, 0x45, 0x32], false));
    // "SWAP-SPACE"
    r.push(byte_signature(FsType::Swap, 4086, vec![0x53u8, 0x57, 0x41, 0x50, 0x2D, 0x53, 0x50, 0x41, 0x43, 0x45], false));
    r.push(Signature { method: Detection::MagicU32 { offset: 0, magic: 0x5846_5342 }, fs_type: FsType::Xfs });
    r.push(Signature { method: Detection::MagicU16 { offset: 1080, magic: 0xEF53 }, fs_type: FsType::Ext4 });
    // "CD001"
    r.push(byte_signature(FsType::Iso9660, 0x8001, vec![0x43u8, 0x44, 0x30, 0x30, 0x31], false));
    // "CD001"
    r.push(byte_signature(FsType::Iso9660, 0x8801, vec![0x43u8, 0x44, 0x30, 0x30, 0x31], false));
    // "CD001"
    r.push(byte_signature(FsType::Iso9660, 0x9001, vec![0x43u8, 0x44, 0x30, 0x30, 0x31], false));
    r.push(Signature { method: Detection::MagicU64 { offset: 65600, magic: 0x9123_683E }, fs_type: FsType::Btrfs });
    proof {
        let t = signature_table();
        assert(r@[0]@ == t[0]);
        assert(r@[1]@ == t[1]);
        assert(r@[2]@ == t[2]);
        assert(r@[3]@ == t[3]);
        assert(r@[4]@ == t[4]);
        assert(r@[5]@ == t[5]);
        assert(r@[6]@ == t[6]);
        assert(r@[7]@ == t[7]);
        assert(r@[8]@ == t[8]);
        assert(r@[9]@ == t[9]);
        assert(r@[10]@ == t[10]);
        assert(r@[11]@ == t[11]);
        assert(r@[12]@ == t[12]);
    }
    r
}


proof fn lemma_le_bytes_len(value: nat, width: nat)
    ensures
        le_bytes(value, width).len() == width,
    decreases width,
{
    if width > 0 {
        lemma_le_bytes_len(value / 256, (width - 1) as nat);
    }
}

/// Whether `expected` stands in `data` at `start`.
fn bytes_at(data: &[u8], start: usize, expected: &Vec<u8>) -> (r: bool)
    requires
        start + expected.len() <= data.len(),
    ensures
        r == (data@.subrange(start as int, start + expected.len()) == expected@),
{
    let mut i: usize = 0;
    while i < expected.len()
        invariant
            i <= expected.len(),
            start + expected.len() <= data.len(),
            forall|j: int| 0 <= j < i ==> data@[start + j] == expected@[j],
        decreases expected.len() - i,
    {
        if data[start + i] != expected[i] {
            assert(data@.subrange(start as int, start + expected.len())[i as int] != expected@[i as int]);
            return false;
        }
        i += 1;
    }
    assert(data@.subrange(start as int, start + expected.len()) =~= expected@);
    true
}

/// Whether the `width` bytes at `start` are the little-endian encoding of `magic`.
fn le_magic_at(data: &[u8], start: usize, width: usize, magic: u64) -> (r: bool)
    requires
        start + width <= data.len(),
    ensures
        r == (data@.subrange(start as int, start + width) == le_bytes(magic as nat, width as nat)),
{
    let ghost expected = le_bytes(magic as nat, width as nat);
    proof {
        lemma_le_bytes_len(magic as nat, width as nat);
        assert(expected.subrange(0, width as int) =~= expected);
    }
    let mut i: usize = 0;
    let mut m: u64 = magic;
    while i < width
        invariant
            i <= width,
            start + width <= data.len(),
            expected == le_bytes(magic as nat, width as nat),
            expected.len() == width,
            expected.subrange(i as int, width as int) == le_bytes(m as nat, (width - i) as nat),
            forall|j: int| 0 <= j < i ==> data@[start + j] == expected[j],
        decreases width - i,
    {
        let ghost rest = expected.subrange(i as int, width as int);
        assert(rest[0] == expected[i as int]);
        assert(rest[0] == (m % 256) as u8);
        if data[start + i] != (m % 256) as u8 {
            assert(data@.subrange(start as int, start + width)[i as int] != expected[i as int]);
            return false;
        }
        proof {
            assert(expected.subrange(i + 1, width as int) =~= rest.drop_first());
            assert(rest.drop_first() =~= le_bytes((m / 256) as nat, (width - i - 1) as nat));
        }
        m = m / 256;
        i += 1;
    }
    assert(data@.subrange(start as int, start + width) =~= expected);
    true
}

/// Whether the magic number `magic`, `width` bytes wide, stands at `offset`.
fn magic_matches(data: &[u8], offset: u64, width: usize, magic: u64) -> (r: bool)
    ensures
        r == (data@.len() >= offset + width && data@.subrange(offset as int, offset + width)
            == le_bytes(magic as nat, width as nat)),
{
    let len = data.len();
    if offset > len as u64 {
        return false;
    }
    let off = offset as usize;
    if width > len - off {
        return false;
    }
    le_magic_at(data, off, width, magic)
}

/// Whether one probe matches a device whose leading bytes are `data`.
pub fn probe_matches(method: &Detection, data: &[u8]) -> (r: bool)
    ensures
        r == rule_matches(method@, data@),
{
    match method {
        Detection::ByteSequence { offset, signature, secondary_check } => {
            let len = data.len();
            if *offset > len as u64 {
                return false;
            }
            let off = *offset as usize;
            if signature.len() > len - off {
                return false;
            }
            let end = off + signature.len();
            let read_size: usize = if end > 4096 {
                end
            } else {
                4096
            };
            if len < read_size {
                return false;
            }
            proof {
                let buffer = data@.take(read_size as int);
                assert(buffer.len() == read_size);
                assert(buffer[510] == data@[510]);
                assert(buffer[511] == data@[511]);
            }
            match secondary_check {
                Some(SecondaryCheck::BootSector) => {
                    if !has_boot_sector(data) {
                        return false;
                    }
                },
                None => {},
            }
            bytes_at(data, off, signature)
        },
        Detection::MagicU16 { offset, magic } => magic_matches(data, *offset, 2, *magic as u64),
        Detection::MagicU32 { offset, magic } => magic_matches(data, *offset, 4, *magic as u64),
        Detection::MagicU64 { offset, magic } => magic_matches(data, *offset, 8, *magic),
    }
}

/// Finds the filesystem type of a device from its leading bytes: the signature
/// table is tried in order and the first row that matches decides.
pub fn detect_fstype(data: &[u8]) -> (r: Option<FsType>)
    ensures
        r == detect(data@),
{
    let table = signatures();
    let ghost t = signature_table();
    let mut i: usize = 0;
    while i < table.len()
        invariant
            table.len() == t.len(),
            t == signature_table(),
            forall|k: int| 0 <= k < table.len() ==> (#[trigger] table@[k])@ == t[k],
            forall|j: int| 0 <= j < i ==> !(#[trigger] rule_pred(data@)(t[j])),
        decreases table.len() - i,
    {
        let sig = &table[i];
        assert(table@[i as int]@ == t[i as int]);
        if probe_matches(&sig.method, data) {
            proof {
                lemma_find_first_hit(t, rule_pred(data@), i as int);
            }
            return Some(sig.fs_type);
        }
        i += 1;
    }
    proof {
        lemma_find_first_miss(t, rule_pred(data@));
    }
    None
}

/// Filesystem type of a device, by signature, given its leading bytes (a read of
/// up to 65 608 bytes from the start of the device node). `None` when no
/// signature matches.
pub fn get_fstype_with_magic(data: &[u8]) -> (r: Option<String>)
    ensures
        opt_string_view(r) == detected_name(data@),
{
    match detect_fstype(data) {
        Some(t) => Some(fs_type_to_string(&t)),
        None => None,
    }
}

} // verus!
