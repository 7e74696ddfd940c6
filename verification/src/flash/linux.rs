//! What flashing on Linux decides: the name under which the disk broker
//! knows a device, the partitions to unmount, and the way in which the
//! device is opened.

use crate::text::chars_of;
use crate::text::has_prefix;
use crate::text::lines_of;
use crate::text::split_lines;
use crate::text::starts_with;
use crate::text::string_of;
use crate::text::trim;
use crate::text::trimmed;
use vstd::prelude::*;

verus! {

/// The device path does not begin with `/dev/`.
#[derive(Debug, PartialEq, Eq, Structural)]
pub struct InvalidDevicePath;

/// The object under which the disk broker knows the device at
/// `device_path`.
pub open spec fn broker_object(device_path: Seq<char>) -> Option<Seq<char>> {
    if starts_with(device_path, "/dev/"@) {
        Some("/org/freedesktop/UDisks2/block_devices/"@ + device_path.skip("/dev/"@.len() as int))
    } else {
        None
    }
}

/// The object path of a block device for the disk broker: `/dev/sdX`
/// becomes `/org/freedesktop/UDisks2/block_devices/sdX`.
pub fn udisks_object_path(device_path: &str) -> (result: Result<String, InvalidDevicePath>)
    ensures
        match result {
            Ok(path) => broker_object(device_path@) == Some(path@),
            Err(_) => broker_object(device_path@) is None,
        },
{
    let chars = chars_of(device_path);
    let prefix = chars_of("/dev/");
    if !has_prefix(&chars, &prefix) {
        return Err(InvalidDevicePath);
    }
    let name = string_of(&chars, prefix.len(), chars.len());
    let mut path = "/org/freedesktop/UDisks2/block_devices/".to_owned();
    path.append(name.as_str());
    proof {
        assert(chars@.subrange(prefix.len() as int, chars.len() as int) =~= device_path@.skip(
            "/dev/"@.len() as int,
        ));
    }
    Ok(path)
}

/// The device files of the partitions that a listing of a device names:
/// `/dev/` and the name on each line of the listing, white space around the
/// name left aside.
pub open spec fn partition_devices(listing: Seq<char>) -> Seq<Seq<char>> {
    Seq::new(lines_of(listing).len(), |i: int| "/dev/"@ + trimmed(lines_of(listing)[i]))
}

/// The partitions to unmount before a device is written: one device file
/// for each line of `listing`, which holds the names of the device and of
/// its partitions line by line.  Unmounting them is best effort; a
/// partition that stays mounted does not keep the device from being
/// written.
pub fn partition_paths(listing: &str) -> (paths: Vec<String>)
    ensures
        paths@.len() == partition_devices(listing@).len(),
        forall|i: int|
            0 <= i < paths@.len() ==> (#[trigger] paths@[i])@ == partition_devices(listing@)[i],
{
    let lines = split_lines(listing);
    let mut paths: Vec<String> = Vec::new();
    let mut i: usize = 0;
    while i < lines.len()
        invariant
            0 <= i <= lines.len(),
            lines@.len() == lines_of(listing@).len(),
            forall|k: int| 0 <= k < lines@.len() ==> (#[trigger] lines@[k])@ == lines_of(listing@)[k],
            paths@.len() == i,
            forall|k: int|
                0 <= k < i ==> (#[trigger] paths@[k])@ == "/dev/"@ + trimmed(lines_of(listing@)[k]),
        decreases lines.len() - i,
    {
        let mut path = "/dev/".to_owned();
        path.append(trim(lines[i].as_str()));
        paths.push(path);
        i += 1;
    }
    paths
}

/// Opens the device through the disk broker, and directly if the broker
/// does not give a handle.
///
/// The broker asks the user for permission by itself.  Opening the device
/// directly is the way of a program that is privileged already; it is
/// tried only after the broker has failed, and its outcome is then the
/// outcome.
pub fn open_with_fallback<H, B: FnOnce() -> Result<H, String>, D: FnOnce() -> Result<H, String>>(
    via_broker: B,
    directly: D,
) -> (result: Result<H, String>)
    requires
        call_requires(via_broker, ()),
        call_requires(directly, ()),
    ensures
        exists|first: Result<H, String>|
            {
                &&& #[trigger] call_ensures(via_broker, (), first)
                &&& match first {
                    Ok(handle) => result == Ok::<H, String>(handle),
                    Err(_) => call_ensures(directly, (), result),
                }
            },
{
    let first = via_broker();
    match first {
        Ok(handle) => Ok(handle),
        Err(_) => directly(),
    }
}

} // verus!
