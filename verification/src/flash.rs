//! Writing an image to a raw device: quick erase, chunked write with forced
//! flushes, and optional read-back verification.
//!
//! Unmounting the target and obtaining a write-capable handle differ from one
//! operating system to the next and happen outside this module.  What follows
//! once the handle is there is the same everywhere and lives here, written
//! against [`PrivilegedHandle`].

pub mod linux;
pub mod macos;
pub mod verify;
pub mod windows;

use crate::flash::verify::agree_before;
use crate::flash::verify::compared;
use crate::flash::verify::is_verdict;
use crate::flash::verify::verify_aligned;
use crate::flash::verify::VerificationReader;
use crate::progress::goes_on;
use crate::progress::is_steady;
use crate::progress::lemma_goes_on_begins;
use crate::progress::lemma_goes_on_is_steady;
use crate::progress::lemma_goes_on_joins;
use crate::progress::lemma_goes_on_with;
use crate::progress::ask;
use crate::progress::asked;
use crate::progress::heeds;
use crate::progress::lemma_heeds_begins;
use crate::progress::keeps_pace;
use crate::progress::lemma_heeds_joins;
use crate::progress::lemma_pace_begins;
use crate::progress::lemma_pace_goes_on;
use crate::progress::lemma_pace_step;
use crate::progress::Observer;
use crate::progress::Reading;
use crate::text::numbered_message;
use crate::text::with_number;
use vstd::prelude::*;

verus! {

/// Where a flash operation stands.
#[derive(Debug, Clone, Copy, PartialEq, Eq, Structural)]
pub enum FlashPhase {
    Idle,
    Unmounting,
    PrivilegeAcquisition,
    Erasing,
    Writing,
    Verifying,
    Complete,
    Cancelled,
    Failed,
}

impl FlashPhase {
    /// `Complete`, `Cancelled` and `Failed` are final: no step leads out of
    /// them.
    pub open spec fn is_final(self) -> bool {
        self == FlashPhase::Complete || self == FlashPhase::Cancelled || self == FlashPhase::Failed
    }

    /// The phase that follows `self` when its work succeeded; `verify` tells
    /// whether the written data is to be read back.  Final phases stay.
    pub open spec fn successor(self, verify: bool) -> FlashPhase {
        match self {
            FlashPhase::Idle => FlashPhase::Unmounting,
            FlashPhase::Unmounting => FlashPhase::PrivilegeAcquisition,
            FlashPhase::PrivilegeAcquisition => FlashPhase::Erasing,
            FlashPhase::Erasing => FlashPhase::Writing,
            FlashPhase::Writing => if verify {
                FlashPhase::Verifying
            } else {
                FlashPhase::Complete
            },
            FlashPhase::Verifying => FlashPhase::Complete,
            FlashPhase::Complete => FlashPhase::Complete,
            FlashPhase::Cancelled => FlashPhase::Cancelled,
            FlashPhase::Failed => FlashPhase::Failed,
        }
    }

    /// Is this one of the three final phases?
    pub fn is_terminal(&self) -> (terminal: bool)
        ensures
            terminal == self.is_final(),
    {
        match self {
            FlashPhase::Complete | FlashPhase::Cancelled | FlashPhase::Failed => true,
            _ => false,
        }
    }

    /// The phase after this one has done its work.
    pub fn next(&self, verify: bool) -> (phase: FlashPhase)
        ensures
            phase == self.successor(verify),
    {
        match self {
            FlashPhase::Idle => FlashPhase::Unmounting,
            FlashPhase::Unmounting => FlashPhase::PrivilegeAcquisition,
            FlashPhase::PrivilegeAcquisition => FlashPhase::Erasing,
            FlashPhase::Erasing => FlashPhase::Writing,
            FlashPhase::Writing => if verify {
                FlashPhase::Verifying
            } else {
                FlashPhase::Complete
            },
            FlashPhase::Verifying => FlashPhase::Complete,
            FlashPhase::Complete => FlashPhase::Complete,
            FlashPhase::Cancelled => FlashPhase::Cancelled,
            FlashPhase::Failed => FlashPhase::Failed,
        }
    }
}

/// Progress of one flash operation, as its worker keeps it.
pub struct FlashState {
    /// Size of the image in bytes.
    pub total_bytes: u64,
    /// Bytes written and flushed to the device so far.
    pub written_bytes: u64,
    /// Bytes read back and found equal so far.
    pub verified_bytes: u64,
    /// Read-back verification has begun.
    pub is_verifying: bool,
    /// The operation saw a request to stop.
    pub is_cancelled: bool,
    /// Message of the last error, if any.
    pub error: Option<String>,
    /// Step of the operation.
    pub phase: FlashPhase,
    /// The numbers that the observer was shown since the state was last
    /// reset, first to last.
    pub shown: Ghost<Seq<Reading>>,
}

impl FlashState {
    /// The state of an operation that has not begun.
    pub open spec fn is_fresh(self) -> bool {
        &&& self.total_bytes == 0
        &&& self.written_bytes == 0
        &&& self.verified_bytes == 0
        &&& !self.is_verifying
        &&& !self.is_cancelled
        &&& self.phase == FlashPhase::Idle
        &&& self.shown@ == Seq::<Reading>::empty()
    }

    /// The numbers of the state as they are now.
    pub open spec fn reading(self) -> Reading {
        Reading { total: self.total_bytes, done: self.written_bytes, checked: self.verified_bytes }
    }

    /// Shows the observer the state as it is now.  What the observer is
    /// shown is noted in the state, which otherwise stays as it is.
    pub fn show<O: Observer<FlashState>>(&mut self, observer: &O)
        ensures
            final(self).shown@ == old(self).shown@.push(old(self).reading()),
            final(self).total_bytes == old(self).total_bytes,
            final(self).written_bytes == old(self).written_bytes,
            final(self).verified_bytes == old(self).verified_bytes,
            final(self).is_verifying == old(self).is_verifying,
            final(self).is_cancelled == old(self).is_cancelled,
            final(self).error == old(self).error,
            final(self).phase == old(self).phase,
    {
        proof {
            self.shown@ = self.shown@.push(self.reading());
        }
        observer.publish(self);
    }

    /// State of a slot in which no operation has run yet.
    pub fn new() -> (state: FlashState)
        ensures
            state.is_fresh(),
            state.error is None,
    {
        FlashState {
            total_bytes: 0,
            written_bytes: 0,
            verified_bytes: 0,
            is_verifying: false,
            is_cancelled: false,
            error: None,
            phase: FlashPhase::Idle,
            shown: Ghost(Seq::empty()),
        }
    }

    /// Makes the slot ready for a new operation: counters at zero, flags
    /// down, phase `Idle`, nothing shown yet.  The last error message stays
    /// until it is replaced.
    pub fn reset(&mut self)
        ensures
            final(self).is_fresh(),
            final(self).error == old(self).error,
    {
        self.shown = Ghost(Seq::empty());
        self.total_bytes = 0;
        self.written_bytes = 0;
        self.verified_bytes = 0;
        self.is_verifying = false;
        self.is_cancelled = false;
        self.phase = FlashPhase::Idle;
    }
}

/// Sizes that govern a flash operation.
#[derive(Debug, Clone, Copy)]
pub struct FlashOptions {
    /// Bytes moved per write and per comparison.
    pub chunk_size: usize,
    /// Bytes at the start of the device that are zeroed before writing.
    pub erase_size: usize,
    /// Bytes of zeros per write while erasing.
    pub erase_chunk_size: usize,
    /// A flush is forced whenever this many bytes were written since the
    /// last one.
    pub flush_interval: u64,
    /// Reads from the device end on multiples of this many bytes when the
    /// device is read back; 1 where reads need no alignment.
    pub sector_size: usize,
}

impl FlashOptions {
    /// Every chunk size is at least one byte, and a chunk is a whole number
    /// of sectors.
    pub open spec fn is_valid(self) -> bool {
        &&& self.chunk_size > 0
        &&& self.erase_chunk_size > 0
        &&& self.flush_interval > 0
        &&& self.sector_size > 0
        &&& self.chunk_size % self.sector_size == 0
    }

    /// 4 MiB chunks, 10 MiB erased in 1 MiB steps, a flush every 32 MiB, no
    /// alignment of reads.
    pub fn standard() -> (options: FlashOptions)
        ensures
            options.is_valid(),
            options.chunk_size == 4 * 1024 * 1024,
            options.erase_size == 10 * 1024 * 1024,
            options.erase_chunk_size == 1024 * 1024,
            options.flush_interval == 32 * 1024 * 1024,
            options.sector_size == 1,
    {
        FlashOptions {
            chunk_size: crate::config::flash::CHUNK_SIZE,
            erase_size: crate::config::flash::QUICK_ERASE_SIZE,
            erase_chunk_size: crate::config::flash::ERASE_CHUNK_SIZE,
            flush_interval: crate::config::flash::SYNC_INTERVAL,
            sector_size: 1,
        }
    }

    /// Are these sizes usable?
    pub fn check(&self) -> (valid: bool)
        ensures
            valid == self.is_valid(),
    {
        self.chunk_size > 0 && self.erase_chunk_size > 0 && self.flush_interval > 0
            && self.sector_size > 0 && self.chunk_size % self.sector_size == 0
    }
}

/// Why a flash operation ended without success.
#[derive(Debug)]
pub enum FlashError {
    /// The observer asked for the operation to stop.
    Cancelled,
    /// A chunk size, the flush interval or the sector size is zero, or a
    /// chunk is no whole number of sectors.
    InvalidOptions,
    /// Positioning the device at its start failed.
    Seek { detail: String },
    /// Zeroing the start of the device failed after `offset` bytes.
    Erase { offset: u64, detail: String },
    /// Reading the image failed.
    ImageRead { detail: String },
    /// Writing failed after `offset` bytes of the image.
    Write { offset: u64, detail: String },
    /// A forced flush failed after `offset` bytes of the image.
    Flush { offset: u64, detail: String },
    /// Reading the device back failed.
    DeviceRead { offset: u64, detail: String },
    /// The device ended at `offset`, before the image did.
    SizeMismatch { offset: u64 },
    /// The device differs from the image; `offset` is the first byte that
    /// does.
    DataMismatch { offset: u64 },
    /// No handle to the device could be had.
    Open { detail: String },
    /// A step was reported that was not due.
    OutOfTurn,
}

impl FlashError {
    /// What the error says, in words.  Errors of writing and of comparing
    /// name the byte at which they arose.
    pub open spec fn text(self) -> Seq<char> {
        match self {
            FlashError::Cancelled => "Flash cancelled"@,
            FlashError::InvalidOptions => "Invalid flash options"@,
            FlashError::Seek { detail } => "Failed to seek device: "@ + detail@,
            FlashError::Erase { offset, detail } => with_number(
                "Quick erase failed at byte "@,
                offset as nat,
                ": "@,
                detail@,
            ),
            FlashError::ImageRead { detail } => "Failed to read image: "@ + detail@,
            FlashError::Write { offset, detail } => with_number(
                "Failed to write at byte "@,
                offset as nat,
                ": "@,
                detail@,
            ),
            FlashError::Flush { offset, detail } => with_number(
                "Failed to flush at byte "@,
                offset as nat,
                ": "@,
                detail@,
            ),
            FlashError::DeviceRead { offset, detail } => with_number(
                "Failed to read device at byte "@,
                offset as nat,
                ": "@,
                detail@,
            ),
            FlashError::SizeMismatch { offset } => with_number(
                "Verification failed: size mismatch at byte "@,
                offset as nat,
                ""@,
                ""@,
            ),
            FlashError::DataMismatch { offset } => with_number(
                "Verification failed: data mismatch at byte "@,
                offset as nat,
                ""@,
                ""@,
            ),
            FlashError::Open { detail } => "Failed to open device: "@ + detail@,
            FlashError::OutOfTurn => "Flash step out of turn"@,
        }
    }

    /// The error as a message for the user.
    pub fn message(&self) -> (message: String)
        ensures
            message@ == self.text(),
    {
        match self {
            FlashError::Cancelled => "Flash cancelled".to_owned(),
            FlashError::InvalidOptions => "Invalid flash options".to_owned(),
            FlashError::Seek { detail } => {
                let mut message = "Failed to seek device: ".to_owned();
                message.append(detail.as_str());
                message
            },
            FlashError::Erase { offset, detail } => numbered_message(
                "Quick erase failed at byte ",
                *offset,
                ": ",
                detail.as_str(),
            ),
            FlashError::ImageRead { detail } => {
                let mut message = "Failed to read image: ".to_owned();
                message.append(detail.as_str());
                message
            },
            FlashError::Write { offset, detail } => numbered_message(
                "Failed to write at byte ",
                *offset,
                ": ",
                detail.as_str(),
            ),
            FlashError::Flush { offset, detail } => numbered_message(
                "Failed to flush at byte ",
                *offset,
                ": ",
                detail.as_str(),
            ),
            FlashError::DeviceRead { offset, detail } => numbered_message(
                "Failed to read device at byte ",
                *offset,
                ": ",
                detail.as_str(),
            ),
            FlashError::SizeMismatch { offset } => numbered_message(
                "Verification failed: size mismatch at byte ",
                *offset,
                "",
                "",
            ),
            FlashError::DataMismatch { offset } => numbered_message(
                "Verification failed: data mismatch at byte ",
                *offset,
                "",
                "",
            ),
            FlashError::Open { detail } => {
                let mut message = "Failed to open device: ".to_owned();
                message.append(detail.as_str());
                message
            },
            FlashError::OutOfTurn => "Flash step out of turn".to_owned(),
        }
    }
}

/// An open, write-capable handle to a raw device.
///
/// The handle is positioned somewhere in the device; `passed()` holds the
/// bytes of the medium before that position and `remaining()` those from it
/// on.  Whether the medium really holds what was written to it is exactly
/// what read-back verification finds out, so writing promises the stored
/// bytes only for a handle that is `faithful()`.  Written bytes count as
/// `unflushed()` until a flush forces them onto the medium.
pub trait PrivilegedHandle: VerificationReader {
    /// Does the medium store every byte as it was written?  Unless a
    /// handle says so, it is not taken to.
    open spec fn faithful(&self) -> bool {
        false
    }

    /// Writes all of `data` at the current position and moves past it.
    fn write_all(&mut self, data: &[u8]) -> (result: Result<(), String>)
        ensures
            final(self).can_fail() == old(self).can_fail(),
            final(self).intact() == old(self).intact(),
            final(self).faithful() == old(self).faithful(),
            match result {
                Ok(_) => {
                    &&& data@.len() <= old(self).remaining().len()
                    &&& final(self).remaining() == old(self).remaining().skip(data@.len() as int)
                    &&& final(self).passed().len() == old(self).passed().len() + data@.len()
                    &&& final(self).passed().take(old(self).passed().len() as int) == old(
                        self,
                    ).passed()
                    &&& old(self).faithful() ==> final(self).passed() == old(self).passed()
                        + data@
                    &&& final(self).unflushed() == old(self).unflushed() + data@.len()
                },
                Err(_) => old(self).can_fail() || data@.len() > old(self).remaining().len(),
            },
    ;

    /// Forces everything written so far onto the medium.
    fn flush(&mut self) -> (result: Result<(), String>)
        ensures
            final(self).can_fail() == old(self).can_fail(),
            final(self).intact() == old(self).intact(),
            final(self).faithful() == old(self).faithful(),
            match result {
                Ok(_) => {
                    &&& final(self).passed() == old(self).passed()
                    &&& final(self).remaining() == old(self).remaining()
                    &&& final(self).unflushed() == 0
                },
                Err(_) => old(self).can_fail(),
            },
    ;

    /// Drops any cached view of the medium and moves to its first byte.
    fn rewind(&mut self) -> (result: Result<(), String>)
        ensures
            final(self).can_fail() == old(self).can_fail(),
            final(self).intact() == old(self).intact(),
            final(self).faithful() == old(self).faithful(),
            match result {
                Ok(_) => {
                    &&& final(self).passed() == Seq::<u8>::empty()
                    &&& final(self).remaining() == old(self).passed() + old(self).remaining()
                    &&& final(self).unflushed() == old(self).unflushed()
                },
                Err(_) => old(self).can_fail(),
            },
    ;
}

/// `n` zero bytes.
pub open spec fn zeros(n: nat) -> Seq<u8> {
    Seq::new(n, |i: int| 0u8)
}

/// The medium `base` after `data` was stored at its start.
pub open spec fn overlay(base: Seq<u8>, data: Seq<u8>) -> Seq<u8>
    recommends
        data.len() <= base.len(),
{
    data + base.skip(data.len() as int)
}

/// What a healthy medium holds after a flash: its first `erase` bytes were
/// zeroed, then the image was written over its start.
pub open spec fn flashed(medium: Seq<u8>, payload: Seq<u8>, erase: nat) -> Seq<u8>
    recommends
        erase <= medium.len(),
        payload.len() <= medium.len(),
{
    overlay(overlay(medium, zeros(erase)), payload)
}

/// Zeroes the first `options.erase_size` bytes of the device, forces them
/// onto the medium and leaves the device at its first byte.
///
/// Stale partition tables and boot signatures are gone after this, whatever
/// becomes of the write that follows.
#[verifier::loop_isolation(false)]
pub fn quick_erase<D: PrivilegedHandle>(device: &mut D, options: &FlashOptions) -> (result: Result<
    (),
    FlashError,
>)
    ensures
        final(device).can_fail() == old(device).can_fail(),
        final(device).intact() == old(device).intact(),
        final(device).faithful() == old(device).faithful(),
        match result {
            Ok(_) => {
                let medium = old(device).passed() + old(device).remaining();
                &&& options.erase_chunk_size > 0
                &&& options.erase_size <= medium.len()
                &&& final(device).passed() == Seq::<u8>::empty()
                &&& final(device).remaining().len() == medium.len()
                &&& final(device).remaining().skip(options.erase_size as int) == medium.skip(
                    options.erase_size as int,
                )
                &&& old(device).faithful() ==> final(device).remaining() == overlay(
                    medium,
                    zeros(options.erase_size as nat),
                )
                &&& final(device).unflushed() == 0
            },
            Err(FlashError::InvalidOptions) => options.erase_chunk_size == 0,
            Err(FlashError::Seek { detail }) => old(device).can_fail(),
            Err(FlashError::Flush { offset, detail }) => old(device).can_fail(),
            Err(FlashError::Erase { offset, detail }) => {
                &&& offset <= options.erase_size
                &&& old(device).can_fail() || (old(device).passed() + old(
                    device,
                ).remaining()).len() < options.erase_size
            },
            Err(_) => false,
        },
{
    if options.erase_chunk_size == 0 {
        return Err(FlashError::InvalidOptions);
    }
    let ghost medium = device.passed() + device.remaining();
    match device.rewind() {
        Ok(_) => {},
        Err(detail) => {
            return Err(FlashError::Seek { detail });
        },
    }
    let mut zero_buffer: Vec<u8> = Vec::new();
    while zero_buffer.len() < options.erase_chunk_size
        invariant
            zero_buffer.len() <= options.erase_chunk_size,
            forall|i: int| 0 <= i < zero_buffer.len() ==> zero_buffer[i] == 0,
        decreases options.erase_chunk_size - zero_buffer.len(),
    {
        zero_buffer.push(0u8);
    }
    let erase_size: usize = options.erase_size;
    let mut erased: usize = 0;
    proof {
        assert(medium.skip(0) =~= medium);
    }
    while erased < erase_size
        invariant
            erased <= erase_size,
            erased <= medium.len(),
            zero_buffer.len() == options.erase_chunk_size,
            forall|i: int| 0 <= i < zero_buffer.len() ==> zero_buffer[i] == 0,
            device.can_fail() == old(device).can_fail(),
            device.intact() == old(device).intact(),
            device.faithful() == old(device).faithful(),
            device.passed().len() == erased,
            device.remaining() == medium.skip(erased as int),
            device.faithful() ==> device.passed() == zeros(erased as nat),
        decreases erase_size - erased,
    {
        let left: usize = erase_size - erased;
        let to_write: usize = if left < options.erase_chunk_size {
            left
        } else {
            options.erase_chunk_size
        };
        let block = vstd::slice::slice_subrange(zero_buffer.as_slice(), 0, to_write);
        match device.write_all(block) {
            Ok(_) => {},
            Err(detail) => {
                return Err(FlashError::Erase { offset: erased as u64, detail });
            },
        }
        proof {
            assert(medium.skip(erased as int).skip(to_write as int) =~= medium.skip(
                erased + to_write,
            ));
            if device.faithful() {
                assert(zeros(erased as nat) + block@ =~= zeros((erased + to_write) as nat));
            }
        }
        erased = erased + to_write;
    }
    match device.flush() {
        Ok(_) => {},
        Err(detail) => {
            return Err(FlashError::Flush { offset: 0, detail });
        },
    }
    match device.rewind() {
        Ok(_) => {},
        Err(detail) => {
            return Err(FlashError::Seek { detail });
        },
    }
    proof {
        assert(device.remaining().skip(erase_size as int) =~= medium.skip(erase_size as int));
        if old(device).faithful() {
            assert(device.remaining() =~= overlay(medium, zeros(erase_size as nat)));
        }
    }
    Ok(())
}

/// The progress counter counts the bytes that were written from `start` on
/// and then forced onto the medium, and nothing else: what was written since
/// the last flush is not in it, and that is less than one flush interval.
pub open spec fn counts_flushed<D: PrivilegedHandle>(
    device: &D,
    start: nat,
    written_bytes: u64,
    flush_interval: u64,
) -> bool {
    &&& start + written_bytes + device.unflushed() == device.passed().len()
    &&& device.unflushed() < flush_interval
}

/// The write stopped between two chunks: `n` bytes were taken from the image
/// and written to the device, and nothing else was read or written.
pub open spec fn stopped_after<I: VerificationReader, D: PrivilegedHandle>(
    image_before: &I,
    image: &I,
    device_before: &D,
    device: &D,
    n: nat,
) -> bool {
    &&& n <= image_before.remaining().len()
    &&& n <= device_before.remaining().len()
    &&& image.remaining() == image_before.remaining().skip(n as int)
    &&& device.remaining() == device_before.remaining().skip(n as int)
    &&& device.passed().len() == device_before.passed().len() + n
    &&& device_before.faithful() ==> device.passed() == device_before.passed()
        + image_before.remaining().take(n as int)
}

/// Streams the image to the device in chunks of `options.chunk_size` bytes.
///
/// The image counts as `state.total_bytes` long; if it ends earlier, writing
/// ends there.  Before each chunk the observer is asked whether to stop.  A
/// flush is forced whenever `options.flush_interval` bytes have gathered
/// since the last one, and once more after the last chunk;
/// `state.written_bytes` moves only at a flush, so that it counts bytes on
/// the medium and not bytes in a buffer.  A request to stop takes effect
/// between two chunks: what was read from the image was written, and fewer
/// bytes than one flush interval are unflushed.  The first yes of the
/// observer is obeyed and nothing is asked after it, and no more than one
/// chunk is written for each answer.
#[verifier::loop_isolation(false)]
pub fn write_image<I: VerificationReader, D: PrivilegedHandle, O: Observer<FlashState>>(
    image: &mut I,
    device: &mut D,
    state: &mut FlashState,
    observer: &mut O,
    options: &FlashOptions,
) -> (result: Result<(), FlashError>)
    ensures
        final(device).can_fail() == old(device).can_fail(),
        final(device).intact() == old(device).intact(),
        final(device).faithful() == old(device).faithful(),
        final(image).can_fail() == old(image).can_fail(),
        final(image).intact() == old(image).intact(),
        final(state).total_bytes == old(state).total_bytes,
        final(state).verified_bytes == old(state).verified_bytes,
        final(state).is_verifying == old(state).is_verifying,
        final(state).phase == old(state).phase,
        final(state).error == old(state).error,
        final(state).written_bytes <= compared(
            old(image).remaining(),
            old(state).total_bytes,
        ).len(),
        goes_on(
            old(state).shown@,
            final(state).shown@,
            Reading {
                total: old(state).total_bytes,
                done: 0,
                checked: old(state).verified_bytes,
            },
            final(state).reading(),
        ),
        match result {
            Ok(_) => {
                let payload = compared(old(image).remaining(), old(state).total_bytes);
                &&& options.chunk_size > 0 && options.flush_interval > 0
                &&& final(state).written_bytes == payload.len()
                &&& final(state).is_cancelled == old(state).is_cancelled
                &&& payload.len() <= old(device).remaining().len()
                &&& final(device).remaining() == old(device).remaining().skip(
                    payload.len() as int,
                )
                &&& final(device).passed().len() == old(device).passed().len() + payload.len()
                &&& final(device).passed().take(old(device).passed().len() as int) == old(
                    device,
                ).passed()
                &&& old(device).faithful() ==> final(device).passed() == old(device).passed()
                    + payload
                &&& final(device).unflushed() == 0
            },
            Err(FlashError::InvalidOptions) => options.chunk_size == 0 || options.flush_interval
                == 0,
            Err(FlashError::Cancelled) => {
                &&& old(observer).can_cancel()
                &&& final(state).is_cancelled
                &&& stopped_after(
                    old(image),
                    final(image),
                    old(device),
                    final(device),
                    (final(device).passed().len() - old(device).passed().len()) as nat,
                )
                &&& old(device).unflushed() == 0 ==> counts_flushed(
                    final(device),
                    old(device).passed().len(),
                    final(state).written_bytes,
                    options.flush_interval,
                )
            },
            Err(FlashError::ImageRead { detail }) => {
                &&& old(image).can_fail() || !old(image).intact()
                &&& old(device).unflushed() == 0 ==> counts_flushed(
                    final(device),
                    old(device).passed().len(),
                    final(state).written_bytes,
                    options.flush_interval,
                )
            },
            Err(FlashError::Flush { offset, detail }) => old(device).can_fail(),
            Err(FlashError::Write { offset, detail }) => {
                &&& offset <= compared(old(image).remaining(), old(state).total_bytes).len()
                &&& old(device).can_fail() || old(device).remaining().len() < compared(
                    old(image).remaining(),
                    old(state).total_bytes,
                ).len()
            },
            Err(_) => false,
        },
        old(observer).must_cancel() && old(state).total_bytes > 0 ==> result is Err && (
        result->Err_0 is Cancelled || result->Err_0 is InvalidOptions),
        old(observer).must_cancel() && result is Err && result->Err_0 is Cancelled
            ==> final(device).passed().len() == old(device).passed().len(),
        final(observer).can_cancel() == old(observer).can_cancel(),
        final(observer).must_cancel() == old(observer).must_cancel(),
        heeds(old(observer).answers(), final(observer).answers(), result is Err && result->Err_0 is Cancelled),
        result is Ok || (result is Err && result->Err_0 is Cancelled) ==> keeps_pace(
            old(observer).answers(),
            final(observer).answers(),
            (final(device).passed().len() - old(device).passed().len()) as nat,
            options.chunk_size as nat,
            result is Err,
        ),
        final(state).written_bytes <= asked(old(observer).answers(), final(observer).answers())
            * options.chunk_size,
{
    let ghost begun = observer.answers();
    proof {
        lemma_heeds_begins(begun);
        lemma_pace_begins(begun, options.chunk_size as nat);
    }
    state.written_bytes = 0;
    let ghost low = state.reading();
    proof {
        lemma_goes_on_begins(state.shown@, low);
    }
    if options.chunk_size == 0 || options.flush_interval == 0 {
        return Err(FlashError::InvalidOptions);
    }
    let total: u64 = state.total_bytes;
    let ghost img = image.remaining();
    let ghost payload = compared(img, total);
    let ghost before = device.passed();
    let ghost room = device.remaining();
    let mut written: u64 = 0;
    let mut since_flush: u64 = 0;
    let mut image_ended: bool = false;
    proof {
        assert(img.skip(0) =~= img);
        assert(room.skip(0) =~= room);
        assert(before + payload.take(0) =~= before);
        assert(before.take(before.len() as int) =~= before);
    }
    while written < total && !image_ended
        invariant
            begun == old(observer).answers(),
            observer.can_cancel() == old(observer).can_cancel(),
            observer.must_cancel() == old(observer).must_cancel(),
            heeds(begun, observer.answers(), false),
            written <= asked(begun, observer.answers()) * options.chunk_size,
            written <= total,
            written <= img.len(),
            written <= room.len(),
            since_flush <= written,
            image_ended ==> written == img.len(),
            state.written_bytes <= written,
            state.total_bytes == total,
            state.verified_bytes == old(state).verified_bytes,
            state.is_verifying == old(state).is_verifying,
            state.is_cancelled == old(state).is_cancelled,
            state.phase == old(state).phase,
            state.error == old(state).error,
            image.remaining() == img.skip(written as int),
            image.can_fail() == old(image).can_fail(),
            image.intact() == old(image).intact(),
            device.can_fail() == old(device).can_fail(),
            device.intact() == old(device).intact(),
            device.faithful() == old(device).faithful(),
            device.remaining() == room.skip(written as int),
            device.passed().len() == before.len() + written,
            device.passed().take(before.len() as int) == before,
            device.faithful() ==> device.passed() == before + payload.take(written as int),
            state.written_bytes + since_flush == written,
            since_flush < options.flush_interval,
            observer.must_cancel() ==> written == 0 && !image_ended,
            goes_on(old(state).shown@, state.shown@, low, state.reading()),
            old(device).unflushed() == 0 ==> device.unflushed() == since_flush,
        decreases (if image_ended { 0int } else { 1int }), total - written,
    {
        let ghost polls = asked(begun, observer.answers());
        proof {
            lemma_pace_step(polls, options.chunk_size as nat, written as nat, 0);
        }
        if ask::<FlashState, O>(observer, Ghost(begun)) {
            state.is_cancelled = true;
            proof {
                lemma_goes_on_with(
                    old(state).shown@,
                    state.shown@,
                    low,
                    state.reading(),
                    state.reading(),
                );
            }
            state.show(observer);
            proof {
                assert(payload.take(written as int) =~= img.take(written as int));
            }
            return Err(FlashError::Cancelled);
        }
        let left: u64 = total - written;
        let to_read: usize = if left < options.chunk_size as u64 {
            left as usize
        } else {
            options.chunk_size
        };
        let chunk = match image.read(to_read) {
            Ok(chunk) => chunk,
            Err(detail) => {
                return Err(FlashError::ImageRead { detail });
            },
        };
        if chunk.len() == 0 {
            image_ended = true;
        } else {
            proof {
                assert(chunk@ =~= payload.subrange(written as int, written + chunk.len()));
            }
            let ghost stored = device.passed();
            match device.write_all(chunk.as_slice()) {
                Ok(_) => {},
                Err(detail) => {
                    return Err(FlashError::Write { offset: written, detail });
                },
            }
            proof {
                assert(room.skip(written as int).skip(chunk.len() as int) =~= room.skip(
                    written + chunk.len(),
                ));
                assert(img.skip(written as int).skip(chunk.len() as int) =~= img.skip(
                    written + chunk.len(),
                ));
                assert(device.passed().take(before.len() as int) =~= stored.take(
                    before.len() as int,
                )) by {
                    assert(device.passed().take(stored.len() as int) == stored);
                }
                if device.faithful() {
                    assert(before + payload.take(written as int) + chunk@ =~= before
                        + payload.take(written + chunk.len()));
                }
            }
            proof {
                lemma_pace_step(polls, options.chunk_size as nat, written as nat, chunk.len() as nat);
            }
            written = written + chunk.len() as u64;
            since_flush = since_flush + chunk.len() as u64;
            if since_flush >= options.flush_interval {
                match device.flush() {
                    Ok(_) => {},
                    Err(detail) => {
                        return Err(FlashError::Flush { offset: written, detail });
                    },
                }
                since_flush = 0;
                let ghost reached = state.reading();
                state.written_bytes = written;
                proof {
                    lemma_goes_on_with(
                        old(state).shown@,
                        state.shown@,
                        low,
                        reached,
                        state.reading(),
                    );
                }
                state.show(observer);
            }
        }
    }
    match device.flush() {
        Ok(_) => {},
        Err(detail) => {
            return Err(FlashError::Flush { offset: written, detail });
        },
    }
    let ghost reached = state.reading();
    state.written_bytes = written;
    proof {
        lemma_goes_on_with(old(state).shown@, state.shown@, low, reached, state.reading());
    }
    state.show(observer);
    proof {
        assert(payload.take(written as int) =~= payload);
    }
    Ok(())
}

/// What the caller reports while it makes a device ready for writing.
#[derive(Debug)]
pub enum PreparationEvent {
    /// A flash operation is asked for.
    Requested,
    /// The attempt to unmount the partitions of the target is over.
    Unmounted { succeeded: bool },
    /// A handle to the device is there.
    HandleAcquired,
    /// No handle to the device could be had.
    HandleRefused { detail: String },
    /// The user asked for the operation to stop.
    StopRequested,
}

/// What the caller is to do next to make a device ready.
#[derive(Debug, Clone, Copy, PartialEq, Eq, Structural)]
pub enum PreparationStep {
    /// Unmount every mounted partition of the target.
    Unmount,
    /// Let the system settle, then get a write-capable handle.
    AcquireHandle,
    /// Hand the image and the handle to [`flash_image`].
    WriteImage,
}

/// The phase that an operation in `phase` is in after `event`.
///
/// The steps come one after the other.  That partitions could not be
/// unmounted holds nothing up: the raw device can be written all the same.
/// A refused handle ends the operation as failed, a request to stop ends
/// it as cancelled, and so does nothing else: a final phase stays, and an
/// event that is not due fails the operation.
pub open spec fn phase_after(phase: FlashPhase, event: PreparationEvent) -> FlashPhase {
    if phase.is_final() {
        phase
    } else {
        match (phase, event) {
            (_, PreparationEvent::StopRequested) => FlashPhase::Cancelled,
            (FlashPhase::Idle, PreparationEvent::Requested) => FlashPhase::Unmounting,
            (FlashPhase::Unmounting, PreparationEvent::Unmounted { succeeded }) =>
                FlashPhase::PrivilegeAcquisition,
            (FlashPhase::PrivilegeAcquisition, PreparationEvent::HandleAcquired) =>
                FlashPhase::Erasing,
            _ => FlashPhase::Failed,
        }
    }
}

/// What is due in a phase of making ready, if anything is.
pub open spec fn step_of(phase: FlashPhase) -> Option<PreparationStep> {
    match phase {
        FlashPhase::Unmounting => Some(PreparationStep::Unmount),
        FlashPhase::PrivilegeAcquisition => Some(PreparationStep::AcquireHandle),
        FlashPhase::Erasing => Some(PreparationStep::WriteImage),
        _ => None,
    }
}

/// Takes note of what happened while the device is made ready, and says
/// what is to be done next.
///
/// The state's phase moves as `phase_after` says, and the observer is shown
/// the state.  The result is the step that is due in the new phase; if the
/// operation is over, it is the reason: `Cancelled` after a request to stop,
/// `Open` with the system's words after a refused handle, `OutOfTurn` if
/// the operation was over already or the event was not due.
pub fn prepare_flash<O: Observer<FlashState>>(
    state: &mut FlashState,
    event: PreparationEvent,
    observer: &O,
) -> (result: Result<PreparationStep, FlashError>)
    ensures
        final(state).phase == phase_after(old(state).phase, event),
        final(state).total_bytes == old(state).total_bytes,
        final(state).written_bytes == old(state).written_bytes,
        final(state).verified_bytes == old(state).verified_bytes,
        final(state).is_verifying == old(state).is_verifying,
        final(state).error == old(state).error,
        final(state).is_cancelled == (old(state).is_cancelled || (!old(state).phase.is_final()
            && event is StopRequested)),
        final(state).shown@ == if old(state).phase.is_final() {
            old(state).shown@
        } else {
            old(state).shown@.push(old(state).reading())
        },
        match result {
            Ok(step) => step_of(final(state).phase) == Some(step) && !old(state).phase.is_final(),
            Err(FlashError::Cancelled) => !old(state).phase.is_final() && event is StopRequested,
            Err(FlashError::Open { detail }) => {
                &&& old(state).phase == FlashPhase::PrivilegeAcquisition
                &&& event == (PreparationEvent::HandleRefused { detail })
            },
            Err(FlashError::OutOfTurn) => {
                &&& !(event is StopRequested) || old(state).phase.is_final()
                &&& !(old(state).phase == FlashPhase::PrivilegeAcquisition && event is HandleRefused)
                &&& step_of(final(state).phase) is None
            },
            Err(_) => false,
        },
{
    if state.phase.is_terminal() {
        return Err(FlashError::OutOfTurn);
    }
    let result = match (state.phase, event) {
        (_, PreparationEvent::StopRequested) => {
            state.phase = FlashPhase::Cancelled;
            state.is_cancelled = true;
            Err(FlashError::Cancelled)
        },
        (FlashPhase::Idle, PreparationEvent::Requested) => {
            state.phase = FlashPhase::Unmounting;
            Ok(PreparationStep::Unmount)
        },
        (FlashPhase::Unmounting, PreparationEvent::Unmounted { succeeded }) => {
            state.phase = FlashPhase::PrivilegeAcquisition;
            Ok(PreparationStep::AcquireHandle)
        },
        (FlashPhase::PrivilegeAcquisition, PreparationEvent::HandleAcquired) => {
            state.phase = FlashPhase::Erasing;
            Ok(PreparationStep::WriteImage)
        },
        (FlashPhase::PrivilegeAcquisition, PreparationEvent::HandleRefused { detail }) => {
            state.phase = FlashPhase::Failed;
            Err(FlashError::Open { detail })
        },
        _ => {
            state.phase = FlashPhase::Failed;
            Err(FlashError::OutOfTurn)
        },
    };
    state.show(observer);
    result
}

/// No event leads out of a final phase, and a request to stop ends every
/// operation that is not over as cancelled.
pub proof fn lemma_final_phases_stay(phase: FlashPhase, event: PreparationEvent)
    ensures
        phase.is_final() ==> phase_after(phase, event) == phase,
        !phase.is_final() && event is StopRequested ==> phase_after(phase, event)
            == FlashPhase::Cancelled,
        phase_after(phase, event) == FlashPhase::Complete ==> phase == FlashPhase::Complete,
{
}

/// Making a device ready goes through the phases in their order, whether
/// or not the partitions could be unmounted.
pub proof fn lemma_preparation_order(unmounted: bool)
    ensures
        phase_after(FlashPhase::Idle, PreparationEvent::Requested) == FlashPhase::Unmounting,
        phase_after(
            FlashPhase::Unmounting,
            PreparationEvent::Unmounted { succeeded: unmounted },
        ) == FlashPhase::PrivilegeAcquisition,
        phase_after(FlashPhase::PrivilegeAcquisition, PreparationEvent::HandleAcquired)
            == FlashPhase::Erasing,
        FlashPhase::Idle.successor(false) == FlashPhase::Unmounting,
        FlashPhase::Unmounting.successor(false) == FlashPhase::PrivilegeAcquisition,
        FlashPhase::PrivilegeAcquisition.successor(false) == FlashPhase::Erasing,
{
}

/// Asks for the right to write to the device before anything is
/// downloaded, so that the user is prompted early.  Where the system asks
/// while the device is opened there is nothing to ask for beforehand, and
/// the answer is yes.
pub fn request_authorization(device_path: &str) -> (result: Result<bool, String>)
    ensures
        result == Ok::<bool, String>(true),
{
    Ok(true)
}

/// What is known of the parties to a flash operation before it begins.
pub struct FlashSetting {
    /// The bytes of the medium.
    pub medium: Seq<u8>,
    /// The bytes that the image holds, as far as they count.
    pub payload: Seq<u8>,
    /// The bytes that the image holds when it is read again for
    /// verification, as far as they count.
    pub check: Seq<u8>,
    /// The medium stores what is written.
    pub faithful: bool,
    /// An operation on the device can fail.
    pub device_can_fail: bool,
    /// Reading the image can fail.
    pub image_can_fail: bool,
    /// The observer can ask for the operation to stop.
    pub can_cancel: bool,
    /// Read-back verification is asked for.
    pub verify: bool,
}

/// What `error` says about the setting in which it arose: every failure has
/// a cause outside the flash logic.
pub open spec fn has_cause(error: FlashError, setting: FlashSetting, options: FlashOptions) -> bool {
    match error {
        FlashError::Cancelled => setting.can_cancel,
        FlashError::InvalidOptions => !options.is_valid(),
        FlashError::Seek { detail } => setting.device_can_fail,
        FlashError::Flush { offset, detail } => setting.device_can_fail,
        FlashError::Erase { offset, detail } => setting.device_can_fail || setting.medium.len()
            < options.erase_size,
        FlashError::Write { offset, detail } => setting.device_can_fail || setting.medium.len()
            < setting.payload.len(),
        FlashError::ImageRead { detail } => setting.image_can_fail,
        FlashError::DeviceRead { offset, detail } => setting.verify && setting.device_can_fail,
        FlashError::SizeMismatch { offset } => setting.verify,
        FlashError::DataMismatch { offset } => setting.verify,
        FlashError::Open { detail } => false,
        FlashError::OutOfTurn => false,
    }
}

/// How a flash operation may end in the given setting: `state` is the
/// progress it leaves and `after` the bytes of the medium.
pub open spec fn is_flash_outcome(
    setting: FlashSetting,
    options: FlashOptions,
    result: Result<(), FlashError>,
    state: FlashState,
    after: Seq<u8>,
) -> bool {
    match result {
        Ok(_) => {
            &&& options.is_valid()
            &&& state.phase == FlashPhase::Complete
            &&& !state.is_cancelled
            &&& state.written_bytes == setting.payload.len()
            &&& options.erase_size <= setting.medium.len()
            &&& setting.payload.len() <= setting.medium.len()
            &&& after.len() == setting.medium.len()
            &&& setting.faithful ==> after == flashed(
                setting.medium,
                setting.payload,
                options.erase_size as nat,
            )
            &&& setting.verify ==> {
                &&& state.is_verifying
                &&& state.verified_bytes == setting.check.len()
                &&& agree_before(setting.check, after, setting.check.len() as int)
            }
            &&& !setting.verify ==> !state.is_verifying && state.verified_bytes == 0
        },
        Err(error) => {
            &&& state.phase == if error is Cancelled {
                FlashPhase::Cancelled
            } else {
                FlashPhase::Failed
            }
            &&& error is Cancelled ==> state.is_cancelled
            &&& has_cause(error, setting, options)
            &&& setting.faithful ==> is_verdict(
                setting.check,
                flashed(setting.medium, setting.payload, options.erase_size as nat),
                result,
            )
        },
    }
}

/// How a flash operation ends with which a request to stop stands, if
/// there is anything to write: without success, cancelled unless the
/// options were refused or erasing the start of the device failed first.
pub open spec fn is_stopped_flash(result: Result<(), FlashError>) -> bool {
    result is Err && (result->Err_0 is Cancelled || result->Err_0 is InvalidOptions
        || result->Err_0 is Seek || result->Err_0 is Erase || result->Err_0 is Flush)
}

/// Shows the observer the state, whose log goes on from `before`.
fn show_next<O: Observer<FlashState>>(
    state: &mut FlashState,
    observer: &O,
    Ghost(before): Ghost<Seq<Reading>>,
    Ghost(low): Ghost<Reading>,
)
    requires
        goes_on(before, old(state).shown@, low, old(state).reading()),
    ensures
        goes_on(before, final(state).shown@, low, final(state).reading()),
        final(state).shown@ == old(state).shown@.push(old(state).reading()),
        final(state).total_bytes == old(state).total_bytes,
        final(state).written_bytes == old(state).written_bytes,
        final(state).verified_bytes == old(state).verified_bytes,
        final(state).is_verifying == old(state).is_verifying,
        final(state).is_cancelled == old(state).is_cancelled,
        final(state).error == old(state).error,
        final(state).phase == old(state).phase,
{
    proof {
        lemma_goes_on_with(before, state.shown@, low, state.reading(), state.reading());
    }
    state.show(observer);
}

/// Writes an image to a device through an open handle and, if asked, reads
/// it back.
///
/// The steps: reset the state and note the image size; zero the start of
/// the device; write the image in chunks with forced flushes; then, with
/// `verify`, rewind the device and compare it byte for byte with
/// `image_again`, a second reader over the same image.  The phase of the
/// state follows along and ends in `Complete`, `Cancelled` or `Failed`.
/// After success nothing is left unflushed, and when the operation is
/// stopped, less than one flush interval is.  The numbers that the observer
/// is shown never run backwards, and the last of them are those of the
/// state as it is left.
/// A mismatch found on reading back is an error like any other and is never
/// turned into success.
pub fn flash_image<
    I: VerificationReader,
    V: VerificationReader,
    D: PrivilegedHandle,
    O: Observer<FlashState>,
>(
    image: &mut I,
    image_again: &mut V,
    device: &mut D,
    image_size: u64,
    state: &mut FlashState,
    observer: &mut O,
    verify: bool,
    options: &FlashOptions,
) -> (result: Result<(), FlashError>)
    ensures
        final(state).total_bytes == image_size,
        final(state).error == old(state).error,
        final(state).phase.is_final(),
        is_flash_outcome(
            FlashSetting {
                medium: old(device).passed() + old(device).remaining(),
                payload: compared(old(image).remaining(), image_size),
                check: compared(old(image_again).remaining(), image_size),
                faithful: old(device).faithful(),
                device_can_fail: old(device).can_fail() || !old(device).intact(),
                image_can_fail: old(image).can_fail() || old(image_again).can_fail() || !old(
                    image,
                ).intact() || !old(image_again).intact(),
                can_cancel: old(observer).can_cancel(),
                verify: verify,
            },
            *options,
            result,
            *final(state),
            final(device).passed() + final(device).remaining(),
        ),
        result is Ok ==> final(device).unflushed() == 0,
        result is Err && result->Err_0 is Cancelled ==> final(device).unflushed()
            < options.flush_interval,
        final(state).shown@.len() > 0,
        final(state).shown@.last() == final(state).reading(),
        is_steady(final(state).shown@),
        goes_on(
            Seq::<Reading>::empty(),
            final(state).shown@,
            Reading { total: image_size, done: 0, checked: 0 },
            final(state).reading(),
        ),
        old(observer).must_cancel() && image_size > 0 ==> is_stopped_flash(result),
        final(state).written_bytes <= image_size,
        final(state).verified_bytes <= image_size,
        final(observer).can_cancel() == old(observer).can_cancel(),
        final(observer).must_cancel() == old(observer).must_cancel(),
        heeds(old(observer).answers(), final(observer).answers(), result is Err && result->Err_0 is Cancelled),
        final(state).written_bytes <= asked(old(observer).answers(), final(observer).answers())
            * options.chunk_size,
{
    let ghost begun = observer.answers();
    proof {
        lemma_heeds_begins(begun);
        lemma_pace_begins(begun, options.chunk_size as nat);
    }
    let ghost medium = device.passed() + device.remaining();
    let ghost payload = compared(image.remaining(), image_size);
    let ghost check = compared(image_again.remaining(), image_size);
    let ghost setting = FlashSetting {
        medium: medium,
        payload: payload,
        check: check,
        faithful: device.faithful(),
        device_can_fail: device.can_fail() || !device.intact(),
        image_can_fail: image.can_fail() || image_again.can_fail() || !image.intact()
            || !image_again.intact(),
        can_cancel: observer.can_cancel(),
        verify: verify,
    };
    state.reset();
    state.total_bytes = image_size;
    state.phase = FlashPhase::Erasing;
    let ghost none = Seq::<Reading>::empty();
    let ghost low = state.reading();
    proof {
        lemma_goes_on_begins(none, low);
    }
    show_next(state, observer, Ghost(none), Ghost(low));
    if !options.check() {
        state.phase = FlashPhase::Failed;
        show_next(state, observer, Ghost(none), Ghost(low));
        proof {
            lemma_goes_on_is_steady(state.shown@, low, state.reading());
        }
        return Err(FlashError::InvalidOptions);
    }
    match quick_erase(device, options) {
        Ok(_) => {},
        Err(error) => {
            state.phase = FlashPhase::Failed;
            show_next(state, observer, Ghost(none), Ghost(low));
            proof {
                lemma_goes_on_is_steady(state.shown@, low, state.reading());
            }
            return Err(error);
        },
    }
    state.phase = FlashPhase::Writing;
    show_next(state, observer, Ghost(none), Ghost(low));
    let ghost shown_before = state.shown@;
    let ghost reached = state.reading();
    let written = write_image(image, device, state, observer, options);
    let ghost asked_in_writing = observer.answers();
    proof {
        lemma_pace_goes_on(
            begun,
            asked_in_writing,
            asked_in_writing,
            state.written_bytes as nat,
            options.chunk_size as nat,
        );
        lemma_goes_on_joins(none, shown_before, state.shown@, low, reached, low, state.reading());
    }
    match written {
        Ok(_) => {},
        Err(error) => {
            state.phase = match error {
                FlashError::Cancelled => FlashPhase::Cancelled,
                _ => FlashPhase::Failed,
            };
            show_next(state, observer, Ghost(none), Ghost(low));
            proof {
                lemma_goes_on_is_steady(state.shown@, low, state.reading());
            }
            return Err(error);
        },
    }
    let ghost after = device.passed() + device.remaining();
    proof {
        assert(device.passed().len() == payload.len());
        assert(after.len() == medium.len());
        if setting.faithful {
            assert(after =~= flashed(medium, payload, options.erase_size as nat));
        }
    }
    if verify {
        state.phase = FlashPhase::Verifying;
        show_next(state, observer, Ghost(none), Ghost(low));
        match device.rewind() {
            Ok(_) => {},
            Err(detail) => {
                state.phase = FlashPhase::Failed;
                show_next(state, observer, Ghost(none), Ghost(low));
                proof {
                    lemma_goes_on_is_steady(state.shown@, low, state.reading());
                }
                return Err(FlashError::Seek { detail });
            },
        }
        let ghost shown_before = state.shown@;
        let ghost reached = state.reading();
        let ghost asked_mid = observer.answers();
        let verified = verify_aligned(
            image_again,
            device,
            state,
            observer,
            options.chunk_size,
            options.sector_size,
        );
        proof {
            lemma_goes_on_joins(
                none,
                shown_before,
                state.shown@,
                low,
                reached,
                reached,
                state.reading(),
            );
            lemma_heeds_joins(
                begun,
                asked_mid,
                observer.answers(),
                verified is Err && verified->Err_0 is Cancelled,
            );
            lemma_pace_goes_on(
                begun,
                asked_in_writing,
                observer.answers(),
                state.written_bytes as nat,
                options.chunk_size as nat,
            );
        }
        match verified {
            Ok(_) => {},
            Err(error) => {
                state.phase = match error {
                    FlashError::Cancelled => FlashPhase::Cancelled,
                    _ => FlashPhase::Failed,
                };
                show_next(state, observer, Ghost(none), Ghost(low));
                proof {
                lemma_goes_on_is_steady(state.shown@, low, state.reading());
            }
            return Err(error);
            },
        }
    }
    state.phase = FlashPhase::Complete;
    show_next(state, observer, Ghost(none), Ghost(low));
    proof {
        lemma_goes_on_is_steady(state.shown@, low, state.reading());
    }
    Ok(())
}

/// A flash operation with which a request to stop stands ends as
/// cancelled, if the options are in order and the device is healthy and
/// large enough to be erased.
pub proof fn lemma_stopped_flash_is_cancelled(
    setting: FlashSetting,
    options: FlashOptions,
    result: Result<(), FlashError>,
    state: FlashState,
    after: Seq<u8>,
)
    requires
        is_flash_outcome(setting, options, result, state, after),
        is_stopped_flash(result),
        options.is_valid(),
        !setting.device_can_fail,
        options.erase_size <= setting.medium.len(),
    ensures
        result is Err,
        result->Err_0 is Cancelled,
        state.phase == FlashPhase::Cancelled,
        state.is_cancelled,
{
}

/// Writing an image to a healthy device that has room for it, and reading
/// it back, succeeds: every byte of the image is compared and none differs.
pub proof fn lemma_round_trip_verifies(
    setting: FlashSetting,
    options: FlashOptions,
    result: Result<(), FlashError>,
    state: FlashState,
    after: Seq<u8>,
)
    requires
        is_flash_outcome(setting, options, result, state, after),
        setting.verify,
        setting.check == setting.payload,
        setting.faithful,
        !setting.device_can_fail,
        !setting.image_can_fail,
        !setting.can_cancel,
        options.is_valid(),
        options.erase_size <= setting.medium.len(),
        setting.payload.len() <= setting.medium.len(),
    ensures
        result is Ok,
        state.phase == FlashPhase::Complete,
        state.written_bytes == setting.payload.len(),
        state.verified_bytes == setting.payload.len(),
        agree_before(setting.payload, after, setting.payload.len() as int),
{
    if result is Err {
        let stored = flashed(setting.medium, setting.payload, options.erase_size as nat);
        assert(agree_before(setting.payload, stored, setting.payload.len() as int));
        crate::flash::verify::lemma_equal_data_passes(setting.payload, stored, result);
    }
}

/// A block device simulated in memory: a fixed run of bytes and a position.
/// It stores what is written, and none of its operations fails except a
/// write past its end.
pub struct MemoryDevice {
    data: Vec<u8>,
    position: usize,
    pending: Ghost<nat>,
}

impl MemoryDevice {
    /// The position, which never lies behind the end of the medium.
    closed spec fn offset(&self) -> int {
        if self.position <= self.data.len() {
            self.position as int
        } else {
            self.data.len() as int
        }
    }

    /// The bytes of the medium, first to last.
    pub closed spec fn view(&self) -> Seq<u8> {
        self.data@
    }

    /// A device that holds `data`, positioned at its first byte.
    pub fn new(data: Vec<u8>) -> (device: MemoryDevice)
        ensures
            device@ == data@,
            device.passed() == Seq::<u8>::empty(),
            device.remaining() == data@,
            device.unflushed() == 0,
    {
        let device = MemoryDevice { data, position: 0, pending: Ghost(0) };
        proof {
            assert(device.data@.take(0) =~= Seq::<u8>::empty());
            assert(device.data@.skip(0) =~= device.data@);
        }
        device
    }

    /// The bytes that the medium holds now: those before the position and
    /// those from it on.
    pub fn contents(&self) -> (data: &Vec<u8>)
        ensures
            data@ == self@,
            data@ == self.passed() + self.remaining(),
    {
        proof {
            assert(self.data@ =~= self.data@.take(self.offset()) + self.data@.skip(self.offset()));
        }
        &self.data
    }

    /// Overwrites the byte at `offset` behind the back of whoever wrote the
    /// device, as a failing medium would.  The position stays.
    pub fn poke(&mut self, offset: usize, value: u8)
        requires
            offset < old(self)@.len(),
        ensures
            final(self)@ == old(self)@.update(offset as int, value),
            final(self).passed().len() == old(self).passed().len(),
            final(self).unflushed() == old(self).unflushed(),
    {
        self.data.set(offset, value);
    }

    fn start(&self) -> (start: usize)
        ensures
            start == self.offset(),
            start <= self.data.len(),
    {
        if self.position <= self.data.len() {
            self.position
        } else {
            self.data.len()
        }
    }
}

impl VerificationReader for MemoryDevice {
    closed spec fn passed(&self) -> Seq<u8> {
        self.data@.take(self.offset())
    }

    closed spec fn remaining(&self) -> Seq<u8> {
        self.data@.skip(self.offset())
    }

    open spec fn can_fail(&self) -> bool {
        false
    }

    open spec fn intact(&self) -> bool {
        true
    }

    closed spec fn unflushed(&self) -> nat {
        self.pending@
    }

    fn read(&mut self, max: usize) -> (result: Result<Vec<u8>, String>)
        ensures
            result is Ok,
            final(self)@ == old(self)@,
    {
        let start: usize = self.start();
        let left: usize = self.data.len() - start;
        let n: usize = if max < left {
            max
        } else {
            left
        };
        let mut chunk: Vec<u8> = Vec::new();
        let mut i: usize = 0;
        while i < n
            invariant
                0 <= i <= n,
                start + n <= self.data.len(),
                chunk@ == self.data@.subrange(start as int, start + i),
            decreases n - i,
        {
            chunk.push(self.data[start + i]);
            i += 1;
        }
        self.position = start + n;
        proof {
            assert(chunk@ =~= old(self).remaining().take(n as int));
            assert(self.passed() =~= old(self).passed() + chunk@);
            assert(self.remaining() =~= old(self).remaining().skip(n as int));
        }
        Ok(chunk)
    }
}

impl PrivilegedHandle for MemoryDevice {
    open spec fn faithful(&self) -> bool {
        true
    }

    fn write_all(&mut self, data: &[u8]) -> (result: Result<(), String>)
        ensures
            result is Ok <==> data@.len() <= old(self).remaining().len(),
            result is Err ==> final(self)@ == old(self)@,
    {
        let start: usize = self.start();
        if data.len() > self.data.len() - start {
            return Err("no space left on device".to_owned());
        }
        let mut i: usize = 0;
        while i < data.len()
            invariant
                0 <= i <= data.len(),
                start + data.len() <= self.data.len(),
                self.data.len() == old(self).data.len(),
                self.pending == old(self).pending,
                self.data@.take(start as int) == old(self).data@.take(start as int),
                self.data@.subrange(start as int, start + i) == data@.take(i as int),
                self.data@.skip(start + data.len()) == old(self).data@.skip(start + data.len()),
            decreases data.len() - i,
        {
            let ghost before = self.data@;
            self.data.set(start + i, data[i]);
            proof {
                assert(self.data@.take(start as int) =~= before.take(start as int));
                assert(self.data@.subrange(start as int, start + i + 1) =~= data@.take(i + 1));
                assert(self.data@.skip(start + data.len()) =~= before.skip(start + data.len()));
            }
            i += 1;
        }
        self.position = start + data.len();
        proof {
            self.pending@ = self.pending@ + data@.len();
            assert(data@.take(data@.len() as int) =~= data@);
            assert(self.passed() =~= old(self).passed() + data@);
            assert(self.remaining() =~= old(self).remaining().skip(data@.len() as int));
            assert(self.passed().take(old(self).passed().len() as int) =~= old(self).passed());
        }
        Ok(())
    }

    fn flush(&mut self) -> (result: Result<(), String>)
        ensures
            result is Ok,
            final(self)@ == old(self)@,
    {
        proof {
            self.pending@ = 0;
        }
        Ok(())
    }

    fn rewind(&mut self) -> (result: Result<(), String>)
        ensures
            result is Ok,
            final(self)@ == old(self)@,
    {
        proof {
            assert(self.data@.take(0) =~= Seq::<u8>::empty());
            assert(self.data@.skip(0) =~= self.passed() + self.remaining());
        }
        self.position = 0;
        Ok(())
    }
}

} // verus!
