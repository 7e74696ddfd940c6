//! Block devices as targets of a flash: what the listings of the operating
//! systems say about a device, and which devices are offered.
//!
//! Running the tools that list devices is left to the caller; the rules by
//! which their output becomes a [`BlockDevice`] are here.

use crate::text::after_last;
use crate::text::before_first;
use crate::text::chars_of;
use crate::text::contains_text;
use crate::text::decimal;
use crate::text::first_index;
use crate::text::first_word;
use crate::text::has_prefix;
use crate::text::has_text;
use crate::text::is_whitespace;
use crate::text::leading_space;
use crate::text::leading_word;
use crate::text::lemma_first_index;
use crate::text::lemma_first_word;
use crate::text::lemma_tail_start;
use crate::text::lines_of;
use crate::text::parse_u64;
use crate::text::parsed_u64;
use crate::text::same_text;
use crate::text::split_lines;
use crate::text::starts_with;
use crate::text::string_of;
use crate::text::to_decimal;
use crate::text::trim;
use crate::text::trim_end;
use crate::text::trimmed;
use crate::text::trimmed_len;
use crate::text::uppercase_of;
use vstd::prelude::*;

verus! {

/// A device that an image can be written to.
#[derive(Debug)]
pub struct BlockDevice {
    /// Path or identifier by which the system knows the device.
    pub path: String,
    /// Short name of the device.
    pub name: String,
    /// Size in bytes.
    pub size: u64,
    /// Model as the device reports it.
    pub model: String,
    /// The medium can be taken out.
    pub is_removable: bool,
    /// The system runs from this device.  Such a device can be written
    /// like any other; warning the user is the caller's business.
    pub is_system: bool,
    /// How the device is attached: `USB`, `SD`, `SATA`, `NVMe` or
    /// whatever else the system says.
    pub bus_type: Option<String>,
}

/// What a field of a listing holds.
#[derive(Debug)]
pub enum ListedValue {
    Flag(bool),
    Text(String),
    /// A number, if it is one that is not negative and has no fraction.
    Number(Option<u64>),
    /// Nothing, or something else.
    Other,
}

/// A device as `lsblk` lists it.
#[derive(Debug)]
pub struct ListedDevice {
    /// Path of the device file.
    pub name: Option<String>,
    /// Size in bytes, as a number or as a text.
    pub size: ListedValue,
    /// Model.
    pub model: Option<String>,
    /// Whether the medium can be taken out: a flag, `1`, or 1.
    pub rm: ListedValue,
    /// How the device is attached.
    pub tran: Option<String>,
}

/// The text, or the empty text if there is none.
pub open spec fn text_or_empty(text: Option<String>) -> Seq<char> {
    match text {
        Some(t) => t@,
        None => Seq::empty(),
    }
}

/// Is the device file one of a disk: does its path begin with `/dev/sd`,
/// `/dev/hd`, `/dev/vd`, `/dev/nvme` or `/dev/mmcblk`?
pub open spec fn is_disk_path(path: Seq<char>) -> bool {
    starts_with(path, "/dev/sd"@) || starts_with(path, "/dev/hd"@) || starts_with(
        path,
        "/dev/vd"@,
    ) || starts_with(path, "/dev/nvme"@) || starts_with(path, "/dev/mmcblk"@)
}

/// Is the device one of the special areas of a memory card, which are no
/// targets?
pub open spec fn is_special_area(path: Seq<char>) -> bool {
    contains_text(path, "boot"@) || contains_text(path, "rpmb"@)
}

/// The name of a device: its path without `/dev/` in front.
pub open spec fn device_name(path: Seq<char>) -> Seq<char> {
    if starts_with(path, "/dev/"@) {
        path.skip("/dev/"@.len() as int)
    } else {
        path
    }
}

/// The size that a listing gives: the number, or the number that the text
/// stands for, or 0.
pub open spec fn listed_size(size: ListedValue) -> u64 {
    match size {
        ListedValue::Number(Some(n)) => n,
        ListedValue::Text(text) => match parsed_u64(text@) {
            Some(n) => n,
            None => 0,
        },
        _ => 0,
    }
}

/// Does the listing say that the medium can be taken out?
pub open spec fn listed_removable(rm: ListedValue) -> bool {
    match rm {
        ListedValue::Flag(flag) => flag,
        ListedValue::Text(text) => text@ == "1"@,
        ListedValue::Number(n) => n == Some(1u64),
        ListedValue::Other => false,
    }
}

/// Does the system run from the device?  It does if one of the system's
/// disks is named like the device, or one name is the beginning of the
/// other.
pub open spec fn is_system_disk(system_disks: Seq<String>, name: Seq<char>) -> bool {
    exists|i: int|
        0 <= i < system_disks.len() && (starts_with(#[trigger] system_disks[i]@, name)
            || starts_with(name, system_disks[i]@))
}

/// How a device is attached, from the transport that the listing names in
/// capital letters, or, if it names none, from the path of the device.
pub open spec fn linux_bus_type(transport: Seq<char>, path: Seq<char>) -> Option<Seq<char>> {
    if transport == "USB"@ {
        Some("USB"@)
    } else if transport == "MMC"@ {
        Some("SD"@)
    } else if transport == "SATA"@ {
        Some("SATA"@)
    } else if transport == "NVME"@ {
        Some("NVMe"@)
    } else if transport == "SAS"@ {
        Some("SAS"@)
    } else if transport.len() == 0 {
        if contains_text(path, "mmcblk"@) {
            Some("SD"@)
        } else if contains_text(path, "nvme"@) {
            Some("NVMe"@)
        } else {
            None
        }
    } else {
        Some(transport)
    }
}

/// The view of a text that may be missing.
pub open spec fn text_view(text: Option<String>) -> Option<Seq<char>> {
    match text {
        Some(t) => Some(t@),
        None => None,
    }
}

/// Is `device` what a listed device is offered as?
pub open spec fn is_linux_device(
    listed: ListedDevice,
    system_disks: Seq<String>,
    device: BlockDevice,
) -> bool {
    let path = text_or_empty(listed.name);
    &&& device.path@ == path
    &&& device.name@ == device_name(path)
    &&& device.size == listed_size(listed.size)
    &&& device.model@ == trimmed(text_or_empty(listed.model))
    &&& device.is_removable == listed_removable(listed.rm)
    &&& device.is_system == is_system_disk(system_disks, device_name(path))
    &&& text_view(device.bus_type) == linux_bus_type(
        uppercase_of(text_or_empty(listed.tran)),
        path,
    )
}

/// Is a listed device offered at all?  Only disks are, not the special
/// areas of memory cards and not devices without a size.
pub open spec fn is_offered(listed: ListedDevice) -> bool {
    let path = text_or_empty(listed.name);
    is_disk_path(path) && !is_special_area(path) && listed_size(listed.size) != 0
}

fn begins_with(s: &Vec<char>, prefix: &str) -> (found: bool)
    ensures
        found == starts_with(s@, prefix@),
{
    let p = chars_of(prefix);
    has_prefix(s, &p)
}

fn holds(s: &Vec<char>, pattern: &str) -> (found: bool)
    ensures
        found == contains_text(s@, pattern@),
{
    let p = chars_of(pattern);
    has_text(s, &p)
}

/// The device that a line of the listing of `lsblk` is offered as, if it
/// is offered.
pub fn classify_linux_device(listed: &ListedDevice, system_disks: &Vec<String>) -> (device: Option<
    BlockDevice,
>)
    ensures
        match device {
            Some(d) => is_offered(*listed) && is_linux_device(*listed, system_disks@, d),
            None => !is_offered(*listed),
        },
{
    let path: &str = match &listed.name {
        Some(name) => name.as_str(),
        None => "",
    };
    proof {
        reveal_strlit("");
        assert(path@ =~= text_or_empty(listed.name));
    }
    let chars = chars_of(path);
    if !(begins_with(&chars, "/dev/sd") || begins_with(&chars, "/dev/hd") || begins_with(
        &chars,
        "/dev/vd",
    ) || begins_with(&chars, "/dev/nvme") || begins_with(&chars, "/dev/mmcblk")) {
        return None;
    }
    if holds(&chars, "boot") || holds(&chars, "rpmb") {
        return None;
    }
    let prefix = chars_of("/dev/");
    let name = if has_prefix(&chars, &prefix) {
        proof {
            assert(chars@.subrange(prefix.len() as int, chars.len() as int) =~= path@.skip(
                "/dev/"@.len() as int,
            ));
        }
        string_of(&chars, prefix.len(), chars.len())
    } else {
        path.to_owned()
    };
    let size: u64 = match &listed.size {
        ListedValue::Number(Some(n)) => *n,
        ListedValue::Text(text) => {
            let digits = chars_of(text.as_str());
            proof {
                assert(digits@.skip(0) =~= text@);
            }
            match parse_u64(&digits, 0) {
                Some(n) => n,
                None => 0,
            }
        },
        _ => 0,
    };
    if size == 0 {
        return None;
    }
    let name_chars = chars_of(name.as_str());
    let mut is_system: bool = false;
    let mut i: usize = 0;
    while i < system_disks.len()
        invariant
            0 <= i <= system_disks.len(),
            name_chars@ == name@,
            is_system == exists|k: int|
                0 <= k < i && (starts_with(#[trigger] system_disks[k]@, name@) || starts_with(
                    name@,
                    system_disks[k]@,
                )),
        decreases system_disks.len() - i,
    {
        let disk = chars_of(system_disks[i].as_str());
        if has_prefix(&disk, &name_chars) || has_prefix(&name_chars, &disk) {
            is_system = true;
        }
        i += 1;
    }
    let model: &str = match &listed.model {
        Some(model) => model.as_str(),
        None => "",
    };
    proof {
        assert(model@ =~= text_or_empty(listed.model));
    }
    let is_removable: bool = match &listed.rm {
        ListedValue::Flag(flag) => *flag,
        ListedValue::Text(text) => same_text(text.as_str(), "1"),
        ListedValue::Number(n) => match n {
            Some(value) => *value == 1,
            None => false,
        },
        ListedValue::Other => false,
    };
    let transport: &str = match &listed.tran {
        Some(tran) => tran.as_str(),
        None => "",
    };
    proof {
        assert(transport@ =~= text_or_empty(listed.tran));
    }
    let upper = transport.to_uppercase();
    let bus_type: Option<String> = if same_text(upper.as_str(), "USB") {
        Some("USB".to_owned())
    } else if same_text(upper.as_str(), "MMC") {
        Some("SD".to_owned())
    } else if same_text(upper.as_str(), "SATA") {
        Some("SATA".to_owned())
    } else if same_text(upper.as_str(), "NVME") {
        Some("NVMe".to_owned())
    } else if same_text(upper.as_str(), "SAS") {
        Some("SAS".to_owned())
    } else if upper.as_str().unicode_len() == 0 {
        if holds(&chars, "mmcblk") {
            Some("SD".to_owned())
        } else if holds(&chars, "nvme") {
            Some("NVMe".to_owned())
        } else {
            None
        }
    } else {
        Some(upper)
    };
    let device = BlockDevice {
        path: path.to_owned(),
        name,
        size,
        model: trim(model).to_owned(),
        is_removable,
        is_system,
        bus_type,
    };
    proof {
        assert(device.name@ == device_name(path@));
        assert(device.size == listed_size(listed.size));
        assert(device.is_removable == listed_removable(listed.rm));
        assert(device.is_system == is_system_disk(system_disks@, device_name(path@)));
        assert(text_view(device.bus_type) == linux_bus_type(uppercase_of(transport@), path@));
    }
    Some(device)
}

/// Where the system is mounted from, as the tools tell it.
#[derive(Debug)]
pub struct MountSource {
    /// The device that a mount point is mounted from, as `findmnt` prints
    /// it.
    pub source: String,
    /// The disk that the device is a part of, as `lsblk` prints it, if it
    /// could be asked.
    pub parent: Option<String>,
}

/// The names that one mount point adds to the system's disks: the disk that
/// the mounted device is a part of, if that is known, and the last segment
/// of the path of the mounted device.  A mount point of which nothing is
/// known adds nothing.
pub open spec fn names_of_mount(mount: MountSource) -> Seq<Seq<char>> {
    let source = trimmed(mount.source@);
    if source.len() == 0 {
        Seq::empty()
    } else {
        let parent = match mount.parent {
            Some(text) => if trimmed(text@).len() > 0 {
                seq![trimmed(text@)]
            } else {
                Seq::empty()
            },
            None => Seq::empty(),
        };
        parent + seq![after_last(source, '/')]
    }
}

/// The names that the mount points `mounts[from..]` add.
pub open spec fn names_of_mounts(mounts: Seq<MountSource>, from: int) -> Seq<Seq<char>>
    decreases mounts.len() - from,
{
    if from < 0 || from >= mounts.len() {
        Seq::empty()
    } else {
        names_of_mount(mounts[from]) + names_of_mounts(mounts, from + 1)
    }
}

/// The views of a list of names.
pub open spec fn name_views(names: Seq<String>) -> Seq<Seq<char>> {
    Seq::new(names.len(), |i: int| names[i]@)
}

/// The names of the disks that the system runs from, gathered from what is
/// mounted at the system's mount points.  A name may be listed more than
/// once.
pub fn get_system_disks(mounts: &Vec<MountSource>) -> (disks: Vec<String>)
    ensures
        name_views(disks@) == names_of_mounts(mounts@, 0),
{
    let mut disks: Vec<String> = Vec::new();
    let mut k: usize = 0;
    proof {
        assert(name_views(disks@) =~= Seq::<Seq<char>>::empty());
    }
    while k < mounts.len()
        invariant
            0 <= k <= mounts.len(),
            names_of_mounts(mounts@, 0) == name_views(disks@) + names_of_mounts(mounts@, k as int),
        decreases mounts.len() - k,
    {
        let ghost before = name_views(disks@);
        let source = trim(mounts[k].source.as_str());
        if source.unicode_len() > 0 {
            match &mounts[k].parent {
                Some(text) => {
                    let parent = trim(text.as_str());
                    if parent.unicode_len() > 0 {
                        disks.push(parent.to_owned());
                    }
                },
                None => {},
            }
            let chars = chars_of(source);
            let mut start: usize = chars.len();
            while start > 0 && chars[start - 1] != '/'
                invariant
                    0 <= start <= chars.len(),
                    forall|j: int| start <= j < chars.len() ==> chars[j] != '/',
                decreases start,
            {
                start -= 1;
            }
            proof {
                lemma_tail_start(chars@, '/', start as int);
                assert(chars@.subrange(start as int, chars.len() as int) =~= chars@.skip(
                    start as int,
                ));
            }
            disks.push(string_of(&chars, start, chars.len()));
        }
        proof {
            assert(name_views(disks@) =~= before + names_of_mount(mounts[k as int]));
            assert(before + names_of_mount(mounts[k as int]) + names_of_mounts(mounts@, k + 1)
                =~= before + names_of_mounts(mounts@, k as int));
        }
        k += 1;
    }
    proof {
        assert(name_views(disks@) + Seq::<Seq<char>>::empty() =~= name_views(disks@));
    }
    disks
}

/// A disk as the disk management of Windows lists it.
#[derive(Debug)]
pub struct ListedDisk {
    /// Number of the disk.
    pub number: Option<i64>,
    /// Size in bytes.
    pub size: Option<u64>,
    /// Name under which the disk is shown.
    pub friendly_name: Option<String>,
    /// How the disk is attached.
    pub bus_type: Option<String>,
}

/// A partition with a drive letter as Windows lists it.
#[derive(Debug)]
pub struct ListedPartition {
    /// Number of the disk that the partition lies on.
    pub disk_number: Option<i64>,
    /// Drive letter of the partition.
    pub drive_letter: Option<String>,
}

/// Does the partition lie on the disk with this number, and has it a drive
/// letter?
pub open spec fn is_lettered_on(partition: ListedPartition, number: i64) -> bool {
    partition.disk_number == Some(number) && text_or_empty(partition.drive_letter).len() > 0
}

/// The drive letters of the disk among the first `n` partitions, each
/// followed by a colon, with `, ` between them.
pub open spec fn drive_letters(partitions: Seq<ListedPartition>, number: i64, n: int) -> Seq<char>
    decreases n,
{
    if n <= 0 {
        Seq::empty()
    } else {
        let before = drive_letters(partitions, number, n - 1);
        if is_lettered_on(partitions[n - 1], number) {
            let letter = text_or_empty(partitions[n - 1].drive_letter) + ":"@;
            if before.len() == 0 {
                letter
            } else {
                before + ", "@ + letter
            }
        } else {
            before
        }
    }
}

/// The name under which a disk is shown: `Disk` and its number, and in
/// brackets its drive letters if it has any.
pub open spec fn disk_label(number: i64, letters: Seq<char>) -> Seq<char> {
    if letters.len() == 0 {
        "Disk "@ + decimal(number as nat)
    } else {
        "Disk "@ + decimal(number as nat) + " ("@ + letters + ")"@
    }
}

/// Is a listed disk offered at all?  Not a disk without a number or
/// without a size.
pub open spec fn is_offered_disk(disk: ListedDisk) -> bool {
    &&& disk.number is Some
    &&& disk.number->0 >= 0
    &&& disk.size is Some
    &&& disk.size->0 != 0
}

/// Is `device` what a listed disk is offered as?  A disk counts as
/// removable if it is attached by USB or is a memory card, and as the
/// system's disk if its number is that of the disk with the system's
/// drive.
pub open spec fn is_windows_device(
    disk: ListedDisk,
    partitions: Seq<ListedPartition>,
    system_disk: Option<i64>,
    device: BlockDevice,
) -> bool {
    let number = disk.number->0;
    let bus = text_or_empty(disk.bus_type);
    &&& device.path@ == r"\\.\PhysicalDrive"@ + decimal(number as nat)
    &&& device.name@ == disk_label(
        number,
        drive_letters(partitions, number, partitions.len() as int),
    )
    &&& device.size == disk.size->0
    &&& device.model@ == match disk.friendly_name {
        Some(name) => name@,
        None => "Unknown"@,
    }
    &&& device.is_removable == (bus == "USB"@ || bus == "SD"@)
    &&& device.is_system == (system_disk == Some(number))
    &&& text_view(device.bus_type) == if bus.len() == 0 {
        None
    } else {
        Some(bus)
    }
}

/// The device that a disk of the listing of Windows is offered as, if it
/// is offered.
pub fn classify_windows_disk(
    disk: &ListedDisk,
    partitions: &Vec<ListedPartition>,
    system_disk: Option<i64>,
) -> (device: Option<BlockDevice>)
    ensures
        match device {
            Some(d) => is_offered_disk(*disk) && is_windows_device(
                *disk,
                partitions@,
                system_disk,
                d,
            ),
            None => !is_offered_disk(*disk),
        },
{
    let number: i64 = match disk.number {
        Some(number) => number,
        None => {
            return None;
        },
    };
    if number < 0 {
        return None;
    }
    let size: u64 = match disk.size {
        Some(size) => size,
        None => {
            return None;
        },
    };
    if size == 0 {
        return None;
    }
    let model = match &disk.friendly_name {
        Some(name) => name.clone(),
        None => "Unknown".to_owned(),
    };
    let bus: &str = match &disk.bus_type {
        Some(bus) => bus.as_str(),
        None => "",
    };
    proof {
        reveal_strlit("");
        assert(bus@ =~= text_or_empty(disk.bus_type));
    }
    let is_removable = same_text(bus, "USB") || same_text(bus, "SD");
    let is_system = match system_disk {
        Some(system) => system == number,
        None => false,
    };
    let mut letters = String::new();
    let mut i: usize = 0;
    while i < partitions.len()
        invariant
            0 <= i <= partitions.len(),
            letters@ == drive_letters(partitions@, number, i as int),
        decreases partitions.len() - i,
    {
        let on_disk = match partitions[i].disk_number {
            Some(n) => n == number,
            None => false,
        };
        let letter: &str = match &partitions[i].drive_letter {
            Some(letter) => letter.as_str(),
            None => "",
        };
        proof {
            reveal_strlit("");
            assert(letter@ =~= text_or_empty(partitions[i as int].drive_letter));
        }
        if on_disk && letter.unicode_len() > 0 {
            if letters.as_str().unicode_len() > 0 {
                letters.append(", ");
            }
            letters.append(letter);
            letters.append(":");
        }
        i += 1;
    }
    let shown = to_decimal(number as u64);
    let mut name = "Disk ".to_owned();
    name.append(shown.as_str());
    if letters.as_str().unicode_len() > 0 {
        name.append(" (");
        name.append(letters.as_str());
        name.append(")");
    }
    let mut path = r"\\.\PhysicalDrive".to_owned();
    path.append(shown.as_str());
    let bus_type = if bus.unicode_len() == 0 {
        None
    } else {
        Some(bus.to_owned())
    };
    Some(BlockDevice { path, name, size, model, is_removable, is_system, bus_type })
}

/// The second of the fields into which `separator` cuts `s`: what stands
/// between its first and its second occurrence, or behind the first if
/// there is no second.  A text without the separator has no second field.
pub open spec fn second_field(s: Seq<char>, separator: char) -> Option<Seq<char>> {
    let first = first_index(s, separator);
    if first < 0 || first >= s.len() {
        None
    } else {
        Some(before_first(s.skip(first + 1), separator))
    }
}

/// Where the second field of `s` begins and ends, if it has one.
fn second_field_range(s: &Vec<char>, separator: char) -> (range: Option<(usize, usize)>)
    ensures
        match range {
            Some((from, to)) => from <= to <= s.len() && second_field(s@, separator) == Some(
                s@.subrange(from as int, to as int),
            ),
            None => second_field(s@, separator) is None,
        },
{
    let mut first: usize = 0;
    while first < s.len() && s[first] != separator
        invariant
            0 <= first <= s.len(),
            forall|j: int| 0 <= j < first ==> s[j] != separator,
        decreases s.len() - first,
    {
        first += 1;
    }
    proof {
        lemma_first_index(s@, separator, first as int);
    }
    if first == s.len() {
        return None;
    }
    let from: usize = first + 1;
    let ghost rest = s@.skip(from as int);
    let mut to: usize = from;
    while to < s.len() && s[to] != separator
        invariant
            from <= to <= s.len(),
            forall|j: int| from <= j < to ==> s[j] != separator,
        decreases s.len() - to,
    {
        to += 1;
    }
    proof {
        assert forall|j: int| 0 <= j < to - from implies rest[j] != separator by {
            assert(rest[j] == s[from + j]);
        }
        if to < s.len() {
            assert(rest[to - from] == s[to as int]);
        }
        lemma_first_index(rest, separator, to - from);
        assert(rest.take(to - from) =~= s@.subrange(from as int, to as int));
    }
    Some((from, to))
}

/// What the information about a disk says, as far as it counts.
#[derive(Debug)]
pub struct DiskFacts {
    /// Size in bytes.
    pub size: u64,
    /// Name of the device or medium.
    pub model: String,
    /// The medium can be taken out.
    pub is_removable: bool,
    /// The disk is built in.
    pub is_internal: bool,
}

/// The size in bytes that a line `Disk Size: 15.9 GB (15931539456 Bytes)
/// ...` names: the number behind the first bracket.  A line without a
/// bracket, or with nothing behind it, names none; a word behind the
/// bracket that is no number counts as 0.
pub open spec fn named_size(line: Seq<char>) -> Option<u64> {
    match second_field(line, '(') {
        Some(part) => if first_word(part).len() == 0 {
            None
        } else {
            match parsed_u64(first_word(part)) {
                Some(n) => Some(n),
                None => Some(0u64),
            }
        },
        None => None,
    }
}

/// The facts as plain values.
pub struct FactValues {
    pub size: u64,
    pub model: Seq<char>,
    pub is_removable: bool,
    pub is_internal: bool,
}

impl DiskFacts {
    /// The facts as plain values.
    pub open spec fn view(self) -> FactValues {
        FactValues {
            size: self.size,
            model: self.model@,
            is_removable: self.is_removable,
            is_internal: self.is_internal,
        }
    }
}

/// The facts after one more line of the information was read.  A line
/// tells the size, the name, whether the medium can be taken out, where
/// the disk sits, or nothing that counts.
pub open spec fn facts_with_line(facts: FactValues, raw_line: Seq<char>) -> FactValues {
    let line = trimmed(raw_line);
    if starts_with(line, "Disk Size:"@) {
        FactValues {
            size: match named_size(line) {
                Some(n) => n,
                None => facts.size,
            },
            ..facts
        }
    } else if starts_with(line, "Device / Media Name:"@) {
        FactValues {
            model: match second_field(line, ':') {
                Some(part) => trimmed(part),
                None => Seq::empty(),
            },
            ..facts
        }
    } else if starts_with(line, "Removable Media:"@) {
        FactValues { is_removable: contains_text(line, "Removable"@), ..facts }
    } else if starts_with(line, "Device Location:"@) {
        FactValues { is_internal: contains_text(line, "Internal"@), ..facts }
    } else {
        facts
    }
}

/// Reads one line of the information about a disk into the facts.
pub fn read_info_line(facts: DiskFacts, raw_line: &str) -> (updated: DiskFacts)
    ensures
        updated@ == facts_with_line(facts@, raw_line@),
{
    let line = trim(raw_line);
    let chars = chars_of(line);
    if begins_with(&chars, "Disk Size:") {
        let size = match second_field_range(&chars, '(') {
            Some((from, to)) => {
                let ghost part = chars@.subrange(from as int, to as int);
                let mut start: usize = from;
                while start < to && is_whitespace(chars[start])
                    invariant
                        from <= start <= to <= chars.len(),
                        forall|j: int| from <= j < start ==> crate::text::is_space(chars[j]),
                    decreases to - start,
                {
                    start += 1;
                }
                let mut end: usize = start;
                while end < to && !is_whitespace(chars[end])
                    invariant
                        start <= end <= to <= chars.len(),
                        forall|j: int| start <= j < end ==> !crate::text::is_space(chars[j]),
                    decreases to - end,
                {
                    end += 1;
                }
                proof {
                    assert forall|j: int| 0 <= j < start - from implies crate::text::is_space(
                        part[j],
                    ) by {
                        assert(part[j] == chars[from + j]);
                    }
                    assert forall|j: int| start - from <= j < end - from implies !crate::text::is_space(
                    part[j]) by {
                        assert(part[j] == chars[from + j]);
                    }
                    if end < to {
                        assert(part[end - from] == chars[end as int]);
                    }
                    lemma_first_word(part, start - from, end - from);
                    assert(part.subrange(start - from, end - from) =~= chars@.subrange(
                        start as int,
                        end as int,
                    ));
                }
                if start == end {
                    facts.size
                } else {
                    let word = string_of(&chars, start, end);
                    let digits = chars_of(word.as_str());
                    proof {
                        assert(digits@.skip(0) =~= word@);
                    }
                    match parse_u64(&digits, 0) {
                        Some(n) => n,
                        None => 0,
                    }
                }
            },
            None => facts.size,
        };
        DiskFacts {
            size,
            model: facts.model,
            is_removable: facts.is_removable,
            is_internal: facts.is_internal,
        }
    } else if begins_with(&chars, "Device / Media Name:") {
        let model = match second_field_range(&chars, ':') {
            Some((from, to)) => {
                let part = string_of(&chars, from, to);
                trim(part.as_str()).to_owned()
            },
            None => String::new(),
        };
        DiskFacts {
            size: facts.size,
            model,
            is_removable: facts.is_removable,
            is_internal: facts.is_internal,
        }
    } else if begins_with(&chars, "Removable Media:") {
        DiskFacts {
            size: facts.size,
            model: facts.model,
            is_removable: holds(&chars, "Removable"),
            is_internal: facts.is_internal,
        }
    } else if begins_with(&chars, "Device Location:") {
        DiskFacts {
            size: facts.size,
            model: facts.model,
            is_removable: facts.is_removable,
            is_internal: holds(&chars, "Internal"),
        }
    } else {
        facts
    }
}

/// The facts that the first `n` lines of the information about a disk
/// give.  Before the first line a disk counts as removable and as not
/// built in, without size and without name.
pub open spec fn facts_after(lines: Seq<Seq<char>>, n: int) -> FactValues
    decreases n,
{
    if n <= 0 {
        FactValues { size: 0, model: Seq::empty(), is_removable: true, is_internal: false }
    } else {
        facts_with_line(facts_after(lines, n - 1), lines[n - 1])
    }
}

/// Is `device` what the information `info` about the disk at `disk_path`
/// describes?  A disk that is built in and whose medium cannot be taken
/// out counts as the system's.
pub open spec fn is_described_disk(disk_path: Seq<char>, info: Seq<char>, device: BlockDevice) -> bool {
    let facts = facts_after(lines_of(info), lines_of(info).len() as int);
    &&& device.path@ == disk_path
    &&& device.name@ == after_last(disk_path, '/')
    &&& device.size == facts.size
    &&& device.model@ == facts.model
    &&& device.is_removable == facts.is_removable
    &&& device.is_system == (facts.is_internal && !facts.is_removable)
    &&& device.bus_type is None
}

/// The device that the information of `diskutil` about a disk describes.
pub fn get_disk_info(disk_path: &str, info: &str) -> (device: BlockDevice)
    ensures
        is_described_disk(disk_path@, info@, device),
{
    let lines = split_lines(info);
    let ghost all = lines_of(info@);
    let mut facts = DiskFacts {
        size: 0,
        model: String::new(),
        is_removable: true,
        is_internal: false,
    };
    let mut i: usize = 0;
    while i < lines.len()
        invariant
            0 <= i <= lines.len(),
            all == lines_of(info@),
            lines@.len() == all.len(),
            forall|k: int| 0 <= k < lines@.len() ==> (#[trigger] lines@[k])@ == all[k],
            facts@ == facts_after(all, i as int),
        decreases lines.len() - i,
    {
        facts = read_info_line(facts, lines[i].as_str());
        i += 1;
    }
    let chars = chars_of(disk_path);
    let mut start: usize = chars.len();
    while start > 0 && chars[start - 1] != '/'
        invariant
            0 <= start <= chars.len(),
            forall|j: int| start <= j < chars.len() ==> chars[j] != '/',
        decreases start,
    {
        start -= 1;
    }
    proof {
        lemma_tail_start(chars@, '/', start as int);
        assert(chars@.subrange(start as int, chars.len() as int) =~= chars@.skip(start as int));
    }
    BlockDevice {
        path: disk_path.to_owned(),
        name: string_of(&chars, start, chars.len()),
        size: facts.size,
        model: facts.model,
        is_removable: facts.is_removable,
        is_system: facts.is_internal && !facts.is_removable,
        bus_type: None,
    }
}

/// The disk that the lines `lines[from..]` of the information about the
/// root volume name as the one that the volume is a part of: the second
/// field, cut at colons and without white space around it, of the first
/// line that holds `Part of Whole:`.
pub open spec fn whole_disk(lines: Seq<Seq<char>>, from: int) -> Option<Seq<char>>
    decreases lines.len() - from,
{
    if from < 0 || from >= lines.len() {
        None
    } else if contains_text(lines[from], "Part of Whole:"@) {
        match second_field(lines[from], ':') {
            Some(part) => Some(trimmed(part)),
            None => None,
        }
    } else {
        whole_disk(lines, from + 1)
    }
}

/// The disk that the system runs from, from the information of `diskutil`
/// about the root volume.
pub fn get_system_disk(info: &str) -> (disk: Option<String>)
    ensures
        text_view(disk) == whole_disk(lines_of(info@), 0),
{
    let lines = split_lines(info);
    let ghost all = lines_of(info@);
    let mut i: usize = 0;
    while i < lines.len()
        invariant
            0 <= i <= lines.len(),
            all == lines_of(info@),
            lines@.len() == all.len(),
            forall|k: int| 0 <= k < lines@.len() ==> (#[trigger] lines@[k])@ == all[k],
            whole_disk(all, 0) == whole_disk(all, i as int),
        decreases lines.len() - i,
    {
        let chars = chars_of(lines[i].as_str());
        if holds(&chars, "Part of Whole:") {
            return match second_field_range(&chars, ':') {
                Some((from, to)) => {
                    let part = string_of(&chars, from, to);
                    Some(trim(part.as_str()).to_owned())
                },
                None => None,
            };
        }
        i += 1;
    }
    None
}

/// A disk as `diskutil list` names it.
#[derive(Debug)]
pub struct ListedMacDisk {
    /// The disk's device file.
    pub name: String,
    /// The list calls the disk internal.
    pub internal: bool,
}

/// Does a line of the list name a disk that counts?  Such a line begins
/// with `/dev/disk` and names neither a synthesized disk nor a disk image.
pub open spec fn names_disk(line: Seq<char>) -> bool {
    starts_with(line, "/dev/disk"@) && !contains_text(line, "synthesized"@) && !contains_text(
        line,
        "disk image"@,
    )
}

/// The device file that a line of the list names: its first word without
/// the colons at its end.
pub open spec fn named_disk(line: Seq<char>) -> Seq<char> {
    trim_end(first_word(line), seq![':'])
}

/// The disk that a line of the list of `diskutil` names, if it names one
/// that counts.
pub fn listed_disk(line: &str) -> (disk: Option<ListedMacDisk>)
    ensures
        match disk {
            Some(listed) => {
                &&& names_disk(line@)
                &&& listed.name@ == named_disk(line@)
                &&& listed.internal == contains_text(line@, "(internal"@)
            },
            None => !names_disk(line@),
        },
{
    let chars = chars_of(line);
    if !begins_with(&chars, "/dev/disk") || holds(&chars, "synthesized") || holds(
        &chars,
        "disk image",
    ) {
        return None;
    }
    let mut start: usize = 0;
    while start < chars.len() && is_whitespace(chars[start])
        invariant
            0 <= start <= chars.len(),
            forall|j: int| 0 <= j < start ==> crate::text::is_space(chars[j]),
        decreases chars.len() - start,
    {
        start += 1;
    }
    let mut end: usize = start;
    while end < chars.len() && !is_whitespace(chars[end])
        invariant
            start <= end <= chars.len(),
            forall|j: int| start <= j < end ==> !crate::text::is_space(chars[j]),
        decreases chars.len() - end,
    {
        end += 1;
    }
    proof {
        lemma_first_word(chars@, start as int, end as int);
    }
    let word = string_of(&chars, start, end);
    let word_chars = chars_of(word.as_str());
    let colon: Vec<char> = vec![':'];
    proof {
        assert(colon@ =~= seq![':']);
        assert(word_chars@.take(word_chars.len() as int) =~= word_chars@);
    }
    let kept = trimmed_len(&word_chars, word_chars.len(), &colon);
    proof {
        assert(word_chars@.subrange(0, kept as int) =~= word_chars@.take(kept as int));
    }
    Some(
        ListedMacDisk {
            name: string_of(&word_chars, 0, kept),
            internal: holds(&chars, "(internal"),
        },
    )
}

/// Is `offered` what a disk is offered as, given what its information
/// described?  A disk counts as the system's if its name holds the name of
/// the system's disk, if it is `/dev/disk0`, or if it is internal and its
/// medium cannot be taken out.
pub open spec fn is_mac_device(
    described: BlockDevice,
    disk_name: Seq<char>,
    system_disk: Option<Seq<char>>,
    internal: bool,
    offered: BlockDevice,
) -> bool {
    &&& offered.path == described.path
    &&& offered.name == described.name
    &&& offered.size == described.size
    &&& offered.model == described.model
    &&& offered.is_removable == described.is_removable
    &&& offered.bus_type == described.bus_type
    &&& offered.is_system == (described.is_system || (system_disk is Some && (contains_text(
        disk_name,
        system_disk->0,
    ) || disk_name == "/dev/disk0"@)) || (internal && !described.is_removable))
}

/// The device that a disk of the list of `diskutil` is offered as, if it
/// is offered: a disk without a size is not.
pub fn offer_mac_disk(
    described: BlockDevice,
    disk_name: &str,
    system_disk: Option<&str>,
    internal: bool,
) -> (device: Option<BlockDevice>)
    ensures
        match device {
            Some(offered) => described.size > 0 && is_mac_device(
                described,
                disk_name@,
                match system_disk {
                    Some(name) => Some(name@),
                    None => None,
                },
                internal,
                offered,
            ),
            None => described.size == 0,
        },
{
    let mut is_system = described.is_system;
    match system_disk {
        Some(system) => {
            let name = chars_of(disk_name);
            let pattern = chars_of(system);
            if has_text(&name, &pattern) || same_text(disk_name, "/dev/disk0") {
                is_system = true;
            }
        },
        None => {},
    }
    if internal && !described.is_removable {
        is_system = true;
    }
    if described.size > 0 {
        Some(
            BlockDevice {
                path: described.path,
                name: described.name,
                size: described.size,
                model: described.model,
                is_removable: described.is_removable,
                is_system,
                bus_type: described.bus_type,
            },
        )
    } else {
        None
    }
}

} // verus!
