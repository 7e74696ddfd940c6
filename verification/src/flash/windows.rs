//! What flashing on Windows decides: the disk number behind a device path,
//! which volumes belong to a disk, the sector size to read back with, and
//! read-back verification in whole sectors.

use crate::flash::verify::compared;
use crate::flash::verify::is_verdict;
use crate::flash::verify::read_extent;
use crate::flash::verify::verify_aligned;
use crate::flash::verify::VerificationReader;
use crate::flash::FlashError;
use crate::flash::FlashState;
use crate::progress::goes_on;
use crate::progress::lemma_goes_on_begins;
use crate::progress::lemma_goes_on_within;
use crate::progress::heeds;
use crate::progress::lemma_heeds_begins;
use crate::progress::Observer;
use crate::progress::Reading;
use crate::text::chars_of;
use crate::text::decimal;
use crate::text::has_prefix;
use crate::text::parse_u32;
use crate::text::parsed_u32;
use crate::text::starts_with;
use crate::text::to_decimal;
use vstd::prelude::*;

verus! {

/// Why a device path names no physical drive.
#[derive(Debug, PartialEq, Eq, Structural)]
pub enum DiskPathError {
    /// The path does not begin with `\\.\PhysicalDrive`.
    InvalidDevicePath,
    /// What follows `\\.\PhysicalDrive` is no number that fits in 32 bits.
    InvalidDiskNumber,
}

impl DiskPathError {
    /// What the error says about the path, in words.
    pub open spec fn text(self, device_path: Seq<char>) -> Seq<char> {
        match self {
            DiskPathError::InvalidDevicePath => "Invalid device path: "@ + device_path
                + r". Expected: \\.\PhysicalDrive<number>"@,
            DiskPathError::InvalidDiskNumber => "Failed to parse disk number in "@ + device_path,
        }
    }

    /// The error as a message for the user who gave `device_path`.
    pub fn message(&self, device_path: &str) -> (message: String)
        ensures
            message@ == self.text(device_path@),
    {
        match self {
            DiskPathError::InvalidDevicePath => {
                let mut message = "Invalid device path: ".to_owned();
                message.append(device_path);
                message.append(r". Expected: \\.\PhysicalDrive<number>");
                message
            },
            DiskPathError::InvalidDiskNumber => {
                let mut message = "Failed to parse disk number in ".to_owned();
                message.append(device_path);
                message
            },
        }
    }
}

/// What the path of every physical drive begins with.
pub open spec fn drive_prefix() -> Seq<char> {
    r"\\.\PhysicalDrive"@
}

/// The disk number that a device path names.
pub open spec fn disk_number_of(device_path: Seq<char>) -> Result<u32, DiskPathError> {
    if !starts_with(device_path, drive_prefix()) {
        Err(DiskPathError::InvalidDevicePath)
    } else {
        match parsed_u32(device_path.skip(drive_prefix().len() as int)) {
            Some(number) => Ok(number),
            None => Err(DiskPathError::InvalidDiskNumber),
        }
    }
}

/// The number of the disk that `device_path` names, as in
/// `\\.\PhysicalDrive1`.
pub fn extract_disk_number(device_path: &str) -> (result: Result<u32, DiskPathError>)
    ensures
        result == disk_number_of(device_path@),
{
    let chars = chars_of(device_path);
    let prefix = chars_of(r"\\.\PhysicalDrive");
    if !has_prefix(&chars, &prefix) {
        return Err(DiskPathError::InvalidDevicePath);
    }
    match parse_u32(&chars, prefix.len()) {
        Some(number) => Ok(number),
        None => Err(DiskPathError::InvalidDiskNumber),
    }
}

/// The device path of the disk with this number.
pub fn physical_drive_path(disk_number: u32) -> (path: String)
    ensures
        path@ == drive_prefix() + decimal(disk_number as nat),
{
    let mut path = r"\\.\PhysicalDrive".to_owned();
    let number = to_decimal(disk_number as u64);
    path.append(number.as_str());
    path
}

/// Does a volume lie on the disk that is to be written?  It does when the
/// query for its extents succeeded, it has an extent, and its first extent
/// is on that disk.
pub fn volume_is_on_disk(
    query_succeeded: bool,
    extent_count: u32,
    first_extent_disk: u32,
    disk_number: u32,
) -> (on_disk: bool)
    ensures
        on_disk == (query_succeeded && extent_count > 0 && first_extent_disk == disk_number),
{
    query_succeeded && extent_count > 0 && first_extent_disk == disk_number
}

/// The name up to, and without, its first zero.
pub open spec fn up_to_nul(name: Seq<u16>) -> Seq<u16>
    decreases name.len(),
{
    if name.len() == 0 || name[0] == 0 {
        Seq::empty()
    } else {
        seq![name[0]] + up_to_nul(name.drop_first())
    }
}

/// The path under which a volume is opened: its name as the system lists
/// it, without the backslash at its end, closed by a zero.
pub open spec fn volume_path(name: Seq<u16>) -> Seq<u16> {
    let text = up_to_nul(name);
    if text.len() > 0 && text.last() == 0x5C {
        text.drop_last().push(0)
    } else {
        text.push(0)
    }
}

/// The zero-terminated path by which the volume called `name` is opened.
pub fn volume_device_path(name: &Vec<u16>) -> (path: Vec<u16>)
    ensures
        path@ == volume_path(name@),
{
    let mut path: Vec<u16> = Vec::new();
    let mut i: usize = 0;
    proof {
        assert(name@.skip(0) =~= name@);
    }
    while i < name.len() && name[i] != 0
        invariant
            0 <= i <= name.len(),
            up_to_nul(name@) == path@ + up_to_nul(name@.skip(i as int)),
        decreases name.len() - i,
    {
        proof {
            assert(name@.skip(i as int).drop_first() =~= name@.skip(i + 1));
            assert(path@.push(name[i as int]) + up_to_nul(name@.skip(i + 1)) =~= path@ + (
            seq![name[i as int]] + up_to_nul(name@.skip(i + 1))));
        }
        path.push(name[i]);
        i += 1;
    }
    proof {
        assert(path@ + Seq::<u16>::empty() =~= path@);
    }
    if path.len() > 0 && path[path.len() - 1] == 0x5C {
        path.pop();
    }
    path.push(0);
    path
}

/// The sector size to read a device back with: the size that the device
/// reports if the query succeeded and the size is a power of two from 512
/// to 8192, else 512.
pub open spec fn sector_size_or_default(query_succeeded: bool, bytes_per_sector: u32) -> usize {
    if query_succeeded && (bytes_per_sector == 512 || bytes_per_sector == 1024 || bytes_per_sector
        == 2048 || bytes_per_sector == 4096 || bytes_per_sector == 8192) {
        bytes_per_sector as usize
    } else {
        512
    }
}

/// The physical sector size to assume for a device.
pub fn get_device_sector_size(query_succeeded: bool, bytes_per_sector: u32) -> (size: usize)
    ensures
        size == sector_size_or_default(query_succeeded, bytes_per_sector),
        size >= 512,
{
    if !query_succeeded {
        return 512;
    }
    if bytes_per_sector == 512 || bytes_per_sector == 1024 || bytes_per_sector == 2048
        || bytes_per_sector == 4096 || bytes_per_sector == 8192 {
        bytes_per_sector as usize
    } else {
        512
    }
}

/// Reads the device back in whole sectors and compares it with the image.
///
/// Reads that bypass the operating system's cache have to be sector-aligned:
/// the chunk size is cut down to a multiple of the sector size, and each read
/// from the device is rounded up to one, so that the device is read to the
/// end of the last sector that holds a byte of the image.  The verdict is
/// that of [`verify_aligned`].
pub fn verify_with_sector_alignment<
    I: VerificationReader,
    R: VerificationReader,
    O: Observer<FlashState>,
>(
    image: &mut I,
    device: &mut R,
    state: &mut FlashState,
    observer: &mut O,
    sector_size: usize,
    chunk_size: usize,
) -> (result: Result<(), FlashError>)
    ensures
        is_verdict(
            compared(old(image).remaining(), old(state).total_bytes),
            old(device).remaining(),
            result,
        ),
        match result {
            Ok(_) => {
                &&& 0 < sector_size <= chunk_size
                &&& final(state).verified_bytes == compared(
                    old(image).remaining(),
                    old(state).total_bytes,
                ).len()
                &&& final(state).is_verifying
                &&& final(device).passed().len() == old(device).passed().len() + read_extent(
                    compared(old(image).remaining(), old(state).total_bytes).len(),
                    old(device).remaining().len(),
                    sector_size as nat,
                )
            },
            Err(FlashError::InvalidOptions) => {
                &&& sector_size == 0 || chunk_size < sector_size
                &&& *final(state) == *old(state)
            },
            Err(FlashError::Cancelled) => old(observer).can_cancel() && final(state).is_cancelled,
            Err(FlashError::ImageRead { detail }) => old(image).can_fail() || !old(image).intact(),
            Err(FlashError::DeviceRead { offset, detail }) => old(device).can_fail() || !old(
                device,
            ).intact(),
            Err(FlashError::DataMismatch { offset }) => true,
            Err(FlashError::SizeMismatch { offset }) => true,
            Err(_) => false,
        },
        !(result is Err && result->Err_0 is InvalidOptions) ==> final(state).verified_bytes <= old(
            state,
        ).total_bytes,
        final(state).total_bytes == old(state).total_bytes,
        final(state).written_bytes == old(state).written_bytes,
        final(state).phase == old(state).phase,
        final(state).error == old(state).error,
        goes_on(
            old(state).shown@,
            final(state).shown@,
            Reading { total: old(state).total_bytes, done: old(state).written_bytes, checked: 0 },
            final(state).reading(),
        ),
        old(observer).must_cancel() && old(state).total_bytes > 0 ==> result is Err && (
        result->Err_0 is Cancelled || result->Err_0 is InvalidOptions),
        final(observer).can_cancel() == old(observer).can_cancel(),
        final(observer).must_cancel() == old(observer).must_cancel(),
        heeds(old(observer).answers(), final(observer).answers(), result is Err && result->Err_0 is Cancelled),
{
    let ghost begun = observer.answers();
    proof {
        lemma_heeds_begins(begun);
    }
    if sector_size == 0 || chunk_size < sector_size {
        proof {
            lemma_goes_on_begins(state.shown@, state.reading());
            lemma_goes_on_within(
                state.shown@,
                state.shown@,
                state.reading(),
                state.reading(),
                Reading { total: state.total_bytes, done: state.written_bytes, checked: 0 },
                state.reading(),
            );
        }
        return Err(FlashError::InvalidOptions);
    }
    let sectors: usize = chunk_size / sector_size;
    proof {
        assert(sectors * sector_size <= chunk_size && sectors >= 1) by (nonlinear_arith)
            requires
                sector_size > 0,
                chunk_size >= sector_size,
                sectors == chunk_size / sector_size,
        ;
        assert(sectors * sector_size >= sector_size) by (nonlinear_arith)
            requires
                sectors >= 1,
        ;
        assert((sectors * sector_size) % (sector_size as int) == 0) by (nonlinear_arith)
            requires
                sector_size > 0,
        ;
    }
    let aligned_chunk_size: usize = sectors * sector_size;
    let result = verify_aligned(image, device, state, observer, aligned_chunk_size, sector_size);
    proof {
        assert(aligned_chunk_size > 0);
        assert(aligned_chunk_size as int % sector_size as int == 0);
    }
    result
}

/// The text that explains why a device could not be opened, by the
/// system's error code.
pub open spec fn open_error_text(code: u32) -> Seq<char> {
    if code == 5 {
        "Access denied. Run as Administrator."@
    } else if code == 32 {
        "Device in use by another process."@
    } else if code == 33 {
        "Device is locked."@
    } else {
        "Error code "@ + decimal(code as nat)
    }
}

/// Explains the error code of a failed attempt to open a device.
pub fn open_error_message(code: u32) -> (message: String)
    ensures
        message@ == open_error_text(code),
{
    if code == 5 {
        "Access denied. Run as Administrator.".to_owned()
    } else if code == 32 {
        "Device in use by another process.".to_owned()
    } else if code == 33 {
        "Device is locked.".to_owned()
    } else {
        let mut message = "Error code ".to_owned();
        let number = to_decimal(code as u64);
        message.append(number.as_str());
        message
    }
}

} // verus!
