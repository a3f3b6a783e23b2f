use vstd::prelude::*;

use crate::combined::{
    aggregate, devices_view, CombinedDeviceInfo, CombinedPartitionInfo, DeviceView, PartitionView,
    opt_fstab_view,
};
use crate::dev_disk::{DevDisk, DevDiskInfo};
use crate::magic::DeviceHead;
use crate::proc_mounts::{ProcMounts, ProcMountsInfo};
use crate::sys_block::{SysBlockDevice, SysBlockInfo, SysBlockPartition};
use crate::fstab::{Fstab, FstabView};
use crate::text::{opt_string_view, opt_strings_view, strings_view};

verus! {

// ---- Numbers ----
/// The text of one decimal digit.
pub open spec fn digit_text(d: nat) -> Seq<char> {
    if d == 0 {
        "0"@
    } else if d == 1 {
        "1"@
    } else if d == 2 {
        "2"@
    } else if d == 3 {
        "3"@
    } else if d == 4 {
        "4"@
    } else if d == 5 {
        "5"@
    } else if d == 6 {
        "6"@
    } else if d == 7 {
        "7"@
    } else if d == 8 {
        "8"@
    } else {
        "9"@
    }
}

/// `n` in decimal, without leading zeros.
pub open spec fn decimal(n: nat) -> Seq<char>
    decreases n,
{
    if n < 10 {
        digit_text(n)
    } else {
        decimal(n / 10) + digit_text(n % 10)
    }
}

/// `n` in decimal, with a minus sign when negative.
pub open spec fn signed_decimal(n: int) -> Seq<char> {
    if n < 0 {
        "-"@ + decimal((-n) as nat)
    } else {
        decimal(n as nat)
    }
}

fn digit_str(d: u64) -> (r: &'static str)
    requires
        d < 10,
    ensures
        r@ == digit_text(d as nat),
{
    if d == 0 {
        "0"
    } else if d == 1 {
        "1"
    } else if d == 2 {
        "2"
    } else if d == 3 {
        "3"
    } else if d == 4 {
        "4"
    } else if d == 5 {
        "5"
    } else if d == 6 {
        "6"
    } else if d == 7 {
        "7"
    } else if d == 8 {
        "8"
    } else {
        "9"
    }
}

/// Appends `n` in decimal.
fn push_decimal(out: &mut String, n: u64)
    ensures
        final(out)@ == old(out)@ + decimal(n as nat),
    decreases n,
{
    if n >= 10 {
        push_decimal(out, n / 10);
    }
    out.append(digit_str(n % 10));
    assert(final(out)@ =~= old(out)@ + decimal(n as nat));
}

/// Appends `n` in decimal, with a minus sign when negative.
fn push_signed_decimal(out: &mut String, n: i32)
    ensures
        final(out)@ == old(out)@ + signed_decimal(n as int),
{
    if n < 0 {
        out.append("-");
        push_decimal(out, (-(n as i64)) as u64);
    } else {
        push_decimal(out, n as u64);
    }
    assert(final(out)@ =~= old(out)@ + signed_decimal(n as int));
}

// ---- Sizes ----
pub open spec fn pow1024(k: nat) -> nat
    decreases k,
{
    if k == 0 {
        1
    } else {
        1024 * pow1024((k - 1) as nat)
    }
}

/// The unit reached by dividing by 1024 while the value is at least 1024 and a
/// larger unit remains, starting from unit `k`.
pub open spec fn unit_from(size: nat, k: nat) -> nat
    decreases 5 - k,
{
    if k < 5 && size >= pow1024(k + 1) {
        unit_from(size, k + 1)
    } else {
        k
    }
}

pub open spec fn unit_text(k: nat) -> Seq<char> {
    if k == 0 {
        "B"@
    } else if k == 1 {
        "KB"@
    } else if k == 2 {
        "MB"@
    } else if k == 3 {
        "GB"@
    } else if k == 4 {
        "TB"@
    } else {
        "PB"@
    }
}

/// `n / d` rounded to the nearest integer, ties to even.
pub open spec fn div_round_even(n: nat, d: nat) -> nat {
    let q = n / d;
    let r = n % d;
    if 2 * r > d || (2 * r == d && q % 2 == 1) {
        q + 1
    } else {
        q
    }
}

/// A byte count in binary units: a whole number when the scaled value is whole
/// (always in bytes), else one decimal place.
pub open spec fn size_text(size: nat) -> Seq<char> {
    let k = unit_from(size, 0);
    let d = pow1024(k);
    if k == 0 {
        decimal(size) + "B"@
    } else if size % d == 0 {
        decimal(size / d) + unit_text(k)
    } else {
        let tenths = div_round_even(size * 10, d);
        decimal(tenths / 10) + "."@ + digit_text(tenths % 10) + unit_text(k)
    }
}

fn unit_str(k: usize) -> (r: &'static str)
    ensures
        r@ == unit_text(k as nat),
{
    if k == 0 {
        "B"
    } else if k == 1 {
        "KB"
    } else if k == 2 {
        "MB"
    } else if k == 3 {
        "GB"
    } else if k == 4 {
        "TB"
    } else {
        "PB"
    }
}

/// Renders a byte count with binary units (B, KB, MB, GB, TB, PB).
pub fn readable_size_from(size: u64) -> (r: String)
    ensures
        r@ == size_text(size as nat),
{
    let mut unit: usize = 0;
    let mut div: u64 = 1;
    assert(pow1024(1) == 1024) by {
        reveal_with_fuel(pow1024, 2);
    }
    while unit < 5 && size >= div * 1024
        invariant
            unit <= 5,
            div == pow1024(unit as nat),
            unit == 0 ==> div == 1,
            unit == 1 ==> div == 0x400,
            unit == 2 ==> div == 0x10_0000,
            unit == 3 ==> div == 0x4000_0000,
            unit == 4 ==> div == 0x100_0000_0000,
            unit == 5 ==> div == 0x4_0000_0000_0000,
            unit_from(size as nat, 0) == unit_from(size as nat, unit as nat),
        decreases 5 - unit,
    {
        assert(pow1024(unit as nat + 1) == 1024 * pow1024(unit as nat));
        div = div * 1024;
        unit += 1;
    }
    let mut out = String::new();
    if unit == 0 {
        push_decimal(&mut out, size);
        out.append("B");
    } else if size % div == 0 {
        push_decimal(&mut out, size / div);
        out.append(unit_str(unit));
    } else {
        let n: u128 = size as u128 * 10;
        let d: u128 = div as u128;
        let q: u128 = n / d;
        let rem: u128 = n % d;
        let tenths: u128 = if 2 * rem > d || (2 * rem == d && q % 2 == 1) {
            q + 1
        } else {
            q
        };
        assert(q <= n) by (nonlinear_arith)
            requires
                q == n / d,
                d >= 1,
        ;
        push_decimal(&mut out, (tenths / 10) as u64);
        out.append(".");
        out.append(digit_str((tenths % 10) as u64));
        out.append(unit_str(unit));
    }
    assert(out@ =~= size_text(size as nat));
    out
}

// ---- Field blocks ----
/// `indent`, `label`, `value` and a line break.
pub open spec fn field_line(indent: Seq<char>, label: Seq<char>, value: Seq<char>) -> Seq<char> {
    indent + label + value + "\n"@
}

pub open spec fn uuid_text(uuids: Seq<Seq<char>>) -> Seq<char> {
    if uuids.len() == 1 {
        uuids[0]
    } else {
        uuids[0] + " ("@ + uuids[1] + ")"@
    }
}

pub open spec fn options_text(indent: Seq<char>, options: Seq<Seq<char>>) -> Seq<char>
    decreases options.len(),
{
    if options.len() == 0 {
        Seq::empty()
    } else {
        options_text(indent, options.drop_last()) + field_line(indent, "    • "@, options.last())
    }
}

pub open spec fn fstab_text(indent: Seq<char>, e: FstabView) -> Seq<char> {
    field_line(indent, "• Fstab Entry:"@, ""@) + field_line(
        indent,
        "  • Device: "@,
        e.device,
    ) + field_line(indent, "  • Mount Point: "@, e.mount_point) + field_line(
        indent,
        "  • Filesystem: "@,
        e.fs_type,
    ) + field_line(indent, "  • Options:"@, ""@) + options_text(indent, e.options)
        + field_line(indent, "  • Dump Frequency: "@, signed_decimal(e.dump_freq as int))
        + field_line(indent, "  • fsck Pass: "@, signed_decimal(e.fsck_pass as int))
}

/// The field lines shared by devices and partitions; absent fields print nothing.
/// A UUID list prints its first entry, followed by the second in parentheses when
/// there are several; an empty list prints nothing.
pub open spec fn common_fields_text(
    indent: Seq<char>,
    size: Option<u64>,
    filesystem: Option<Seq<char>>,
    label: Option<Seq<char>>,
    mount_point: Option<Seq<char>>,
    removable: Option<bool>,
    uuids: Option<Seq<Seq<char>>>,
    fstab_entry: Option<FstabView>,
) -> Seq<char> {
    (match size {
        Some(s) => field_line(indent, "• Size: "@, size_text(s as nat)),
        None => Seq::empty(),
    }) + (match filesystem {
        Some(f) => field_line(indent, "• Filesystem: "@, f),
        None => Seq::empty(),
    }) + (match label {
        Some(l) => field_line(indent, "• Label: "@, l),
        None => Seq::empty(),
    }) + (match mount_point {
        Some(m) => field_line(indent, "• Mount Point: "@, m),
        None => Seq::empty(),
    }) + (match removable {
        Some(b) => field_line(
            indent,
            "• Removable: "@,
            if b {
                "Yes"@
            } else {
                "No"@
            },
        ),
        None => Seq::empty(),
    }) + (match uuids {
        Some(u) => if u.len() == 0 {
            Seq::empty()
        } else {
            field_line(indent, "• UUID: "@, uuid_text(u))
        },
        None => Seq::empty(),
    }) + (match fstab_entry {
        Some(e) => fstab_text(indent, e),
        None => Seq::empty(),
    })
}

/// A partition block: its header line, then its fields six spaces in.
pub open spec fn partition_text(p: PartitionView) -> Seq<char> {
    "⛉ "@ + p.name + "\n"@ + common_fields_text(
        "      "@,
        p.size,
        p.filesystem,
        p.label,
        p.mount_point,
        p.removable,
        p.uuids,
        p.fstab_entry,
    )
}

pub open spec fn partitions_text(parts: Seq<PartitionView>) -> Seq<char>
    decreases parts.len(),
{
    if parts.len() == 0 {
        Seq::empty()
    } else {
        partitions_text(parts.drop_last()) + "    "@ + partition_text(parts.last())
    }
}

/// A device block: its header line, its model, its fields two spaces in, then
/// its partitions.
pub open spec fn device_text(d: DeviceView) -> Seq<char> {
    "⛊ "@ + d.name + "\n"@ + (match d.model {
        Some(m) => field_line("  "@, "• Model: "@, m),
        None => Seq::empty(),
    }) + common_fields_text(
        "  "@,
        d.size,
        d.filesystem,
        d.label,
        d.mount_point,
        d.removable,
        d.uuids,
        d.fstab_entry,
    ) + if d.partitions.len() == 0 {
        Seq::empty()
    } else {
        field_line("  "@, "• Partitions:"@, ""@) + partitions_text(d.partitions)
    }
}

/// The report: each device block followed by an empty line.
pub open spec fn report_text(devices: Seq<DeviceView>) -> Seq<char>
    decreases devices.len(),
{
    if devices.len() == 0 {
        Seq::empty()
    } else {
        report_text(devices.drop_last()) + device_text(devices.last()) + "\n"@
    }
}

fn push_line(out: &mut String, indent: &str, label: &str, value: &str)
    ensures
        final(out)@ == old(out)@ + field_line(indent@, label@, value@),
{
    out.append(indent);
    out.append(label);
    out.append(value);
    out.append("\n");
    assert(final(out)@ =~= old(out)@ + field_line(indent@, label@, value@));
}

fn push_fstab(out: &mut String, indent: &str, e: &Fstab)
    ensures
        final(out)@ == old(out)@ + fstab_text(indent@, e@),
{
    let mut block = String::new();
    push_line(&mut block, indent, "• Fstab Entry:", "");
    assert(block@ =~= field_line(indent@, "• Fstab Entry:"@, ""@));
    push_line(&mut block, indent, "  • Device: ", e.device.as_str());
    push_line(&mut block, indent, "  • Mount Point: ", e.mount_point.as_str());
    push_line(&mut block, indent, "  • Filesystem: ", e.fs_type.as_str());
    push_line(&mut block, indent, "  • Options:", "");
    let ghost before_options = block@;
    let mut i: usize = 0;
    while i < e.options.len()
        invariant
            i <= e.options.len(),
            block@ == before_options + options_text(indent@, strings_view(e.options@).take(i as int)),
        decreases e.options.len() - i,
    {
        push_line(&mut block, indent, "    • ", e.options[i].as_str());
        proof {
            let opts = strings_view(e.options@);
            assert(opts.take(i + 1).drop_last() =~= opts.take(i as int));
            assert(opts.take(i + 1).last() == e.options@[i as int]@);
        }
        i += 1;
    }
    proof {
        assert(strings_view(e.options@).take(0) =~= Seq::<Seq<char>>::empty());
        assert(strings_view(e.options@).take(e.options.len() as int) =~= strings_view(e.options@));
    }
    let mut dump = String::new();
    push_signed_decimal(&mut dump, e.dump_freq);
    assert(dump@ =~= signed_decimal(e.dump_freq as int));
    push_line(&mut block, indent, "  • Dump Frequency: ", dump.as_str());
    let mut pass = String::new();
    push_signed_decimal(&mut pass, e.fsck_pass);
    assert(pass@ =~= signed_decimal(e.fsck_pass as int));
    push_line(&mut block, indent, "  • fsck Pass: ", pass.as_str());
    assert(block@ == fstab_text(indent@, e@));
    out.append(block.as_str());
}

/// Renders the field lines shared by devices and partitions.
#[allow(clippy::too_many_arguments)]
pub fn format_common_fields(
    indent: &str,
    size: Option<u64>,
    filesystem: &Option<String>,
    label: &Option<String>,
    mount_point: &Option<String>,
    removable: Option<bool>,
    uuids: &Option<Vec<String>>,
    fstab_entry: &Option<Fstab>,
) -> (r: String)
    ensures
        r@ == common_fields_text(
            indent@,
            size,
            opt_string_view(*filesystem),
            opt_string_view(*label),
            opt_string_view(*mount_point),
            removable,
            opt_strings_view(*uuids),
            opt_fstab_view(*fstab_entry),
        ),
{
    let mut out = String::new();
    if let Some(s) = size {
        let text = readable_size_from(s);
        push_line(&mut out, indent, "• Size: ", text.as_str());
    }
    if let Some(f) = filesystem {
        push_line(&mut out, indent, "• Filesystem: ", f.as_str());
    }
    if let Some(l) = label {
        push_line(&mut out, indent, "• Label: ", l.as_str());
    }
    if let Some(m) = mount_point {
        push_line(&mut out, indent, "• Mount Point: ", m.as_str());
    }
    if let Some(b) = removable {
        push_line(
            &mut out,
            indent,
            "• Removable: ",
            if b {
                "Yes"
            } else {
                "No"
            },
        );
    }
    if let Some(list) = uuids {
        if list.len() == 1 {
            push_line(&mut out, indent, "• UUID: ", list[0].as_str());
        } else if list.len() > 1 {
            let mut text = list[0].clone();
            text.append(" (");
            text.append(list[1].as_str());
            text.append(")");
            push_line(&mut out, indent, "• UUID: ", text.as_str());
        }
    }
    if let Some(entry) = fstab_entry {
        push_fstab(&mut out, indent, entry);
    }
    assert(out@ =~= common_fields_text(
        indent@,
        size,
        opt_string_view(*filesystem),
        opt_string_view(*label),
        opt_string_view(*mount_point),
        removable,
        opt_strings_view(*uuids),
        opt_fstab_view(*fstab_entry),
    ));
    out
}

impl CombinedPartitionInfo {
    /// The partition's block of the report.
    pub fn to_string(&self) -> (r: String)
        ensures
            r@ == partition_text(self@),
    {
        let mut out = String::from_str("⛉ ");
        out.append(self.name.as_str());
        out.append("\n");
        let fields = format_common_fields(
            "      ",
            self.size,
            &self.filesystem,
            &self.label,
            &self.mount_point,
            self.removable,
            &self.uuids,
            &self.fstab_entry,
        );
        out.append(fields.as_str());
        assert(out@ =~= partition_text(self@));
        out
    }
}

impl CombinedDeviceInfo {
    /// The device's block of the report, partitions included.
    pub fn to_string(&self) -> (r: String)
        ensures
            r@ == device_text(self@),
    {
        let mut out = String::from_str("⛊ ");
        out.append(self.name.as_str());
        out.append("\n");
        let mut model_line = String::new();
        if let Some(model) = &self.model {
            push_line(&mut model_line, "  ", "• Model: ", model.as_str());
            assert(model_line@ =~= field_line("  "@, "• Model: "@, model@));
        }
        out.append(model_line.as_str());
        let fields = format_common_fields(
            "  ",
            self.size,
            &self.filesystem,
            &self.label,
            &self.mount_point,
            self.removable,
            &self.uuids,
            &self.fstab_entry,
        );
        out.append(fields.as_str());
        let mut parts_block = String::new();
        if self.partitions.len() > 0 {
            push_line(&mut parts_block, "  ", "• Partitions:", "");
            let ghost before = field_line("  "@, "• Partitions:"@, ""@);
            assert(parts_block@ =~= before);
            assert(self@.partitions.take(0) =~= Seq::<PartitionView>::empty());
            let mut i: usize = 0;
            while i < self.partitions.len()
                invariant
                    i <= self.partitions.len(),
                    parts_block@ == before + partitions_text(self@.partitions.take(i as int)),
                decreases self.partitions.len() - i,
            {
                let ghost prev = parts_block@;
                parts_block.append("    ");
                let block = self.partitions[i].to_string();
                parts_block.append(block.as_str());
                proof {
                    let ps = self@.partitions;
                    assert(ps.take(i + 1).drop_last() =~= ps.take(i as int));
                    assert(ps.take(i + 1).last() == self.partitions@[i as int]@);
                    assert(parts_block@ =~= prev + ("    "@ + partition_text(ps[i as int])));
                }
                i += 1;
            }
            assert(self@.partitions.take(self.partitions.len() as int) =~= self@.partitions);
        }
        out.append(parts_block.as_str());
        assert(out@ =~= device_text(self@));
        out
    }
}

/// Renders the whole report: each device block followed by an empty line.
pub fn render_report(devices: &Vec<CombinedDeviceInfo>) -> (r: String)
    ensures
        r@ == report_text(devices_view(devices@)),
{
    let ghost views = devices_view(devices@);
    let mut out = String::new();
    let mut i: usize = 0;
    while i < devices.len()
        invariant
            i <= devices.len(),
            views == devices_view(devices@),
            out@ == report_text(views.take(i as int)),
        decreases devices.len() - i,
    {
        let block = devices[i].to_string();
        out.append(block.as_str());
        out.append("\n");
        proof {
            assert(views.take(i + 1).drop_last() =~= views.take(i as int));
            assert(views.take(i + 1).last() == devices@[i as int]@);
        }
        i += 1;
    }
    assert(views.take(devices.len() as int) =~= views);
    out
}

// ---- The record sources on their own ----
pub open spec fn yes_no(b: bool) -> Seq<char> {
    if b {
        "Yes"@
    } else {
        "No"@
    }
}

fn yes_no_str(b: bool) -> (r: &'static str)
    ensures
        r@ == yes_no(b),
{
    if b {
        "Yes"
    } else {
        "No"
    }
}

/// A partition of the topology listing: its name and size (the source has no
/// removable flag for partitions).
pub open spec fn topology_partition_text(p: SysBlockPartition) -> Seq<char> {
    field_line("    "@, "⛉ "@, p.name@) + field_line("      "@, "• Size: "@, size_text(p.info.size as nat))
}

pub open spec fn topology_partitions_text(parts: Seq<SysBlockPartition>) -> Seq<char>
    decreases parts.len(),
{
    if parts.len() == 0 {
        Seq::empty()
    } else {
        topology_partitions_text(parts.drop_last()) + topology_partition_text(parts.last())
    }
}

pub open spec fn topology_device_text(d: SysBlockDevice) -> Seq<char> {
    "\n"@ + field_line(""@, "⛊ "@, d.name@) + field_line(" "@, "• Model: "@, d.info.model@)
        + field_line(" "@, "• Size: "@, size_text(d.info.size as nat)) + field_line(
        " "@,
        "• Removable: "@,
        yes_no(d.info.removable),
    ) + match d.part {
        Some(ps) => field_line(" "@, "• Partitions:"@, ""@) + topology_partitions_text(ps@),
        None => Seq::empty(),
    }
}

pub open spec fn topology_devices_text(devices: Seq<SysBlockDevice>) -> Seq<char>
    decreases devices.len(),
{
    if devices.len() == 0 {
        Seq::empty()
    } else {
        topology_devices_text(devices.drop_last()) + topology_device_text(devices.last())
    }
}

/// The topology listing: a heading, then each device with its partitions.
pub open spec fn topology_text(devices: Seq<SysBlockDevice>) -> Seq<char> {
    "\n"@ + "from `/sys/block`\n"@ + "=================\n"@ + topology_devices_text(devices)
}

pub open spec fn strings_lines(indent: Seq<char>, label: Seq<char>, values: Seq<Seq<char>>) -> Seq<
    char,
>
    decreases values.len(),
{
    if values.len() == 0 {
        Seq::empty()
    } else {
        strings_lines(indent, label, values.drop_last()) + field_line(indent, label, values.last())
    }
}

pub open spec fn label_record_text(d: DevDisk) -> Seq<char> {
    "\n"@ + field_line(""@, "⛉ "@, d.name@) + (match d.label {
        Some(l) => field_line("  "@, "• Label: "@, l@),
        None => Seq::empty(),
    }) + match d.uuid {
        Some(u) => strings_lines("  "@, "• UUID: "@, strings_view(u@)),
        None => Seq::empty(),
    }
}

pub open spec fn label_records_text(records: Seq<DevDisk>) -> Seq<char>
    decreases records.len(),
{
    if records.len() == 0 {
        Seq::empty()
    } else {
        label_records_text(records.drop_last()) + label_record_text(records.last())
    }
}

/// The label/UUID listing: a heading, then each record with its label and
/// every UUID.
pub open spec fn label_listing_text(records: Seq<DevDisk>) -> Seq<char> {
    "\n"@ + "from `/dev/disk`\n"@ + "================\n"@ + label_records_text(records)
}

pub open spec fn mount_record_text(m: ProcMounts) -> Seq<char> {
    "\n"@ + field_line(""@, "⛉ "@, m.name@) + field_line("  "@, "• Filesystem: "@, m.fstype@)
        + field_line("  "@, "• Mount Point: "@, m.mount_point@)
}

pub open spec fn mount_records_text(records: Seq<ProcMounts>) -> Seq<char>
    decreases records.len(),
{
    if records.len() == 0 {
        Seq::empty()
    } else {
        mount_records_text(records.drop_last()) + mount_record_text(records.last())
    }
}

/// The live-mount listing: a heading, then each mount.
pub open spec fn mount_listing_text(records: Seq<ProcMounts>) -> Seq<char> {
    "\n"@ + "from `/proc/mounts`\n"@ + "===================\n"@ + mount_records_text(records)
}

fn push_topology_device(out: &mut String, d: &SysBlockDevice)
    ensures
        final(out)@ == old(out)@ + topology_device_text(*d),
{
    let mut block = String::from_str("\n");
    push_line(&mut block, "", "⛊ ", d.name.as_str());
    push_line(&mut block, " ", "• Model: ", d.info.model.as_str());
    let size = readable_size_from(d.info.size);
    push_line(&mut block, " ", "• Size: ", size.as_str());
    push_line(&mut block, " ", "• Removable: ", yes_no_str(d.info.removable));
    let ghost head = block@;
    if let Some(parts) = &d.part {
        push_line(&mut block, " ", "• Partitions:", "");
        let ghost before = block@;
        let mut i: usize = 0;
        assert(parts@.take(0) =~= Seq::<SysBlockPartition>::empty());
        assert(before =~= before + topology_partitions_text(parts@.take(0)));
        while i < parts.len()
            invariant
                i <= parts.len(),
                block@ == before + topology_partitions_text(parts@.take(i as int)),
            decreases parts.len() - i,
        {
            let ghost prev = block@;
            let p = &parts[i];
            push_line(&mut block, "    ", "⛉ ", p.name.as_str());
            let size = readable_size_from(p.info.size);
            push_line(&mut block, "      ", "• Size: ", size.as_str());
            proof {
                assert(parts@.take(i + 1).drop_last() =~= parts@.take(i as int));
                assert(parts@.take(i + 1).last() == *p);
                assert(block@ =~= prev + topology_partition_text(*p));
            }
            i += 1;
        }
        assert(parts@.take(parts.len() as int) =~= parts@);
        assert(block@ =~= head + (field_line(" "@, "• Partitions:"@, ""@)
            + topology_partitions_text(parts@)));
    }
    assert(block@ =~= topology_device_text(*d));
    out.append(block.as_str());
}

impl SysBlockInfo {
    /// The topology listing: a heading, then each device with its model, size,
    /// removable flag and partitions.
    pub fn to_string(&self) -> (r: String)
        ensures
            r@ == topology_text(self.info@),
    {
        let mut out = String::from_str("\n");
        out.append("from `/sys/block`\n");
        out.append("=================\n");
        let ghost head = out@;
        let mut i: usize = 0;
        assert(self.info@.take(0) =~= Seq::<SysBlockDevice>::empty());
        assert(head =~= head + topology_devices_text(self.info@.take(0)));
        while i < self.info.len()
            invariant
                i <= self.info.len(),
                out@ == head + topology_devices_text(self.info@.take(i as int)),
            decreases self.info.len() - i,
        {
            push_topology_device(&mut out, &self.info[i]);
            proof {
                assert(self.info@.take(i + 1).drop_last() =~= self.info@.take(i as int));
                assert(self.info@.take(i + 1).last() == self.info@[i as int]);
            }
            i += 1;
        }
        assert(self.info@.take(self.info.len() as int) =~= self.info@);
        assert(out@ =~= topology_text(self.info@));
        out
    }
}

fn push_label_record(out: &mut String, d: &DevDisk)
    ensures
        final(out)@ == old(out)@ + label_record_text(*d),
{
    let mut block = String::from_str("\n");
    push_line(&mut block, "", "⛉ ", d.name.as_str());
    let mut label_line = String::new();
    if let Some(l) = &d.label {
        push_line(&mut label_line, "  ", "• Label: ", l.as_str());
        assert(label_line@ =~= field_line("  "@, "• Label: "@, l@));
    }
    block.append(label_line.as_str());
    let mut uuid_lines = String::new();
    if let Some(list) = &d.uuid {
        let ghost values = strings_view(list@);
        let mut i: usize = 0;
        assert(values.take(0) =~= Seq::<Seq<char>>::empty());
        assert(uuid_lines@ =~= strings_lines("  "@, "• UUID: "@, values.take(0)));
        while i < list.len()
            invariant
                i <= list.len(),
                values == strings_view(list@),
                uuid_lines@ == strings_lines("  "@, "• UUID: "@, values.take(i as int)),
            decreases list.len() - i,
        {
            push_line(&mut uuid_lines, "  ", "• UUID: ", list[i].as_str());
            proof {
                assert(values.take(i + 1).drop_last() =~= values.take(i as int));
                assert(values.take(i + 1).last() == list@[i as int]@);
            }
            i += 1;
        }
        assert(values.take(list.len() as int) =~= values);
    }
    block.append(uuid_lines.as_str());
    assert(block@ =~= label_record_text(*d));
    out.append(block.as_str());
}

impl DevDiskInfo {
    /// The label/UUID listing: a heading, then each record with its label and
    /// every UUID.
    pub fn to_string(&self) -> (r: String)
        ensures
            r@ == label_listing_text(self.info@),
    {
        let mut out = String::from_str("\n");
        out.append("from `/dev/disk`\n");
        out.append("================\n");
        let ghost head = out@;
        let mut i: usize = 0;
        assert(self.info@.take(0) =~= Seq::<DevDisk>::empty());
        assert(head =~= head + label_records_text(self.info@.take(0)));
        while i < self.info.len()
            invariant
                i <= self.info.len(),
                out@ == head + label_records_text(self.info@.take(i as int)),
            decreases self.info.len() - i,
        {
            push_label_record(&mut out, &self.info[i]);
            proof {
                assert(self.info@.take(i + 1).drop_last() =~= self.info@.take(i as int));
                assert(self.info@.take(i + 1).last() == self.info@[i as int]);
            }
            i += 1;
        }
        assert(self.info@.take(self.info.len() as int) =~= self.info@);
        assert(out@ =~= label_listing_text(self.info@));
        out
    }
}

impl ProcMountsInfo {
    /// The live-mount listing: a heading, then each mount with its filesystem
    /// type and mount point.
    pub fn to_string(&self) -> (r: String)
        ensures
            r@ == mount_listing_text(self.info@),
    {
        let mut out = String::from_str("\n");
        out.append("from `/proc/mounts`\n");
        out.append("===================\n");
        let ghost head = out@;
        let mut i: usize = 0;
        assert(self.info@.take(0) =~= Seq::<ProcMounts>::empty());
        assert(head =~= head + mount_records_text(self.info@.take(0)));
        while i < self.info.len()
            invariant
                i <= self.info.len(),
                out@ == head + mount_records_text(self.info@.take(i as int)),
            decreases self.info.len() - i,
        {
            let ghost prev = out@;
            let m = &self.info[i];
            out.append("\n");
            push_line(&mut out, "", "⛉ ", m.name.as_str());
            push_line(&mut out, "  ", "• Filesystem: ", m.fstype.as_str());
            push_line(&mut out, "  ", "• Mount Point: ", m.mount_point.as_str());
            proof {
                assert(self.info@.take(i + 1).drop_last() =~= self.info@.take(i as int));
                assert(self.info@.take(i + 1).last() == *m);
                assert(out@ =~= prev + mount_record_text(*m));
            }
            i += 1;
        }
        assert(self.info@.take(self.info.len() as int) =~= self.info@);
        assert(out@ =~= mount_listing_text(self.info@));
        out
    }
}

/// Aggregation is deterministic: two runs on the same four record sets (and
/// the same probe buffers) give the same entities, and so byte-identical
/// reports.
pub proof fn lemma_aggregation_idempotent(
    first: Seq<CombinedDeviceInfo>,
    second: Seq<CombinedDeviceInfo>,
    devices: Seq<SysBlockDevice>,
    dev_disk: Seq<DevDisk>,
    mounts: Seq<ProcMounts>,
    fstab: Seq<Fstab>,
    heads: Seq<DeviceHead>,
)
    requires
        devices_view(first) == aggregate(devices, dev_disk, mounts, fstab, heads),
        devices_view(second) == aggregate(devices, dev_disk, mounts, fstab, heads),
    ensures
        devices_view(first) == devices_view(second),
        report_text(devices_view(first)) == report_text(devices_view(second)),
{
}

} // verus!
