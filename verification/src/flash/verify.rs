//! Read-back verification: comparing what a device holds with the image that
//! was written to it.

use crate::flash::FlashError;
use crate::flash::FlashState;
use crate::progress::goes_on;
use crate::progress::lemma_goes_on_begins;
use crate::progress::lemma_goes_on_with;
use crate::progress::lemma_goes_on_within;
use crate::progress::ask;
use crate::progress::asked;
use crate::progress::heeds;
use crate::progress::lemma_heeds_begins;
use crate::progress::keeps_pace;
use crate::progress::lemma_pace_begins;
use crate::progress::lemma_pace_step;
use crate::progress::Observer;
use crate::progress::Reading;
use vstd::prelude::*;

verus! {

/// A source of bytes that is read front to back, such as an image file or a
/// device that is read back after writing.
///
/// The reader is described by the bytes it has passed and the bytes it has
/// yet to deliver; together they are the whole source.
pub trait VerificationReader {
    /// The bytes before the reading position.  A reader that does not say
    /// what it holds holds something, and nothing is known of it.
    open spec fn passed(&self) -> Seq<u8> {
        arbitrary()
    }

    /// The bytes from the reading position to the end of the source.
    open spec fn remaining(&self) -> Seq<u8> {
        arbitrary()
    }

    /// Can an operation on this reader end in an I/O error?  Unless a
    /// reader says otherwise, it can.
    open spec fn can_fail(&self) -> bool {
        true
    }

    /// Does the source end where `remaining()` ends?  A decoder over damaged
    /// data does not: it delivers what it can and then fails instead of
    /// ending.
    open spec fn intact(&self) -> bool {
        true
    }

    /// How many bytes were written through this handle since a flush last
    /// forced its writes onto the medium.  A source that is only read has
    /// none.
    open spec fn unflushed(&self) -> nat {
        0
    }

    /// Reads the next bytes, at most `max` of them.  An empty chunk means that
    /// the source is at its end (or that `max` is 0); a chunk may be shorter
    /// than `max` before the end.
    fn read(&mut self, max: usize) -> (result: Result<Vec<u8>, String>)
        ensures
            final(self).can_fail() == old(self).can_fail(),
            final(self).intact() == old(self).intact(),
            final(self).unflushed() == old(self).unflushed(),
            match result {
                Ok(chunk) => {
                    &&& chunk@.len() <= max
                    &&& chunk@.len() <= old(self).remaining().len()
                    &&& chunk@ == old(self).remaining().take(chunk@.len() as int)
                    &&& chunk@.len() == 0 ==> max == 0 || (old(self).remaining().len() == 0 && old(
                        self,
                    ).intact())
                    &&& final(self).passed() == old(self).passed() + chunk@
                    &&& final(self).remaining() == old(self).remaining().skip(chunk@.len() as int)
                },
                Err(_) => old(self).can_fail() || !old(self).intact(),
            },
    ;
}

/// A reader over bytes held in memory.  It never fails.
#[derive(Debug)]
pub struct MemoryReader {
    data: Vec<u8>,
    position: usize,
}

impl MemoryReader {
    #[verifier::type_invariant]
    spec fn well_formed(self) -> bool {
        self.position <= self.data.len()
    }

    /// All bytes of the reader, passed or not.
    pub closed spec fn view(&self) -> Seq<u8> {
        self.data@
    }

    /// A reader that delivers `data` from its first byte on.
    pub fn new(data: Vec<u8>) -> (reader: MemoryReader)
        ensures
            reader@ == data@,
            reader.passed() == Seq::<u8>::empty(),
            reader.remaining() == data@,
            !reader.can_fail(),
            reader.intact(),
    {
        let reader = MemoryReader { data, position: 0 };
        proof {
            assert(reader.data@.take(0) =~= Seq::<u8>::empty());
            assert(reader.data@.skip(0) =~= reader.data@);
        }
        reader
    }
}

impl VerificationReader for MemoryReader {
    closed spec fn passed(&self) -> Seq<u8> {
        self.data@.take(self.position as int)
    }

    closed spec fn remaining(&self) -> Seq<u8> {
        self.data@.skip(self.position as int)
    }

    open spec fn can_fail(&self) -> bool {
        false
    }

    open spec fn intact(&self) -> bool {
        true
    }

    fn read(&mut self, max: usize) -> (result: Result<Vec<u8>, String>)
        ensures
            result is Ok,
            final(self)@ == old(self)@,
    {
        proof {
            use_type_invariant(&*self);
        }
        let left: usize = self.data.len() - self.position;
        let n: usize = if max < left {
            max
        } else {
            left
        };
        let mut chunk: Vec<u8> = Vec::new();
        let start: usize = self.position;
        let mut i: usize = 0;
        while i < n
            invariant
                0 <= i <= n,
                start + n <= self.data.len(),
                chunk@ == self.data@.subrange(start as int, start + i),
            decreases n - i,
        {
            chunk.push(self.data[start + i]);
            i += 1;
        }
        self.position = start + n;
        proof {
            assert(chunk@ =~= old(self).remaining().take(n as int));
            assert(self.passed() =~= old(self).passed() + chunk@);
            assert(self.remaining() =~= old(self).remaining().skip(n as int));
        }
        Ok(chunk)
    }
}

/// The first `k` bytes of `actual` are there and equal those of `expected`.
pub open spec fn agree_before(expected: Seq<u8>, actual: Seq<u8>, k: int) -> bool {
    &&& 0 <= k <= expected.len()
    &&& k <= actual.len()
    &&& forall|j: int| 0 <= j < k ==> expected[j] == actual[j]
}

/// The part of an image that is compared when the image is taken to be
/// `total` bytes long: all of it, or its first `total` bytes.
pub open spec fn compared(image: Seq<u8>, total: u64) -> Seq<u8> {
    if image.len() <= total {
        image
    } else {
        image.take(total as int)
    }
}

/// What a comparison of `device` with `expected` has to report: success when
/// the device begins with the expected bytes, and otherwise the first offset
/// at which it does not, as a difference in content or as the end of the
/// device.  Results that are no verdict on the data satisfy this always.
pub open spec fn is_verdict(expected: Seq<u8>, device: Seq<u8>, result: Result<(), FlashError>) -> bool {
    match result {
        Ok(_) => agree_before(expected, device, expected.len() as int),
        Err(FlashError::DataMismatch { offset }) => {
            &&& agree_before(expected, device, offset as int)
            &&& offset < expected.len()
            &&& offset < device.len()
            &&& expected[offset as int] != device[offset as int]
        },
        Err(FlashError::SizeMismatch { offset }) => {
            &&& agree_before(expected, device, offset as int)
            &&& offset < expected.len()
            &&& offset == device.len()
        },
        Err(_) => true,
    }
}

/// Position of the first byte in which the two chunks differ, looking at as
/// many bytes as both have.
pub fn first_difference(expected: &Vec<u8>, actual: &Vec<u8>) -> (at: Option<usize>)
    ensures
        match at {
            Some(j) => {
                &&& agree_before(expected@, actual@, j as int)
                &&& j < expected.len()
                &&& j < actual.len()
                &&& expected[j as int] != actual[j as int]
            },
            None => agree_before(expected@, actual@, expected.len() as int) || agree_before(
                actual@,
                expected@,
                actual.len() as int,
            ),
        },
{
    let n: usize = if expected.len() < actual.len() {
        expected.len()
    } else {
        actual.len()
    };
    let mut j: usize = 0;
    while j < n
        invariant
            0 <= j <= n,
            n <= expected.len(),
            n <= actual.len(),
            n == expected.len() || n == actual.len(),
            forall|i: int| 0 <= i < j ==> expected[i] == actual[i],
        decreases n - j,
    {
        if expected[j] != actual[j] {
            return Some(j);
        }
        j += 1;
    }
    None
}

/// The smallest multiple of `unit` that is not below `n`.
pub open spec fn round_up(n: nat, unit: nat) -> nat
    recommends
        unit > 0,
{
    if n % unit == 0 {
        n
    } else {
        (n / unit + 1) * unit
    }
}

/// Facts about `round_up`: it is a multiple of the unit, not below `n`,
/// less than a unit above it, and not above any multiple of the unit that
/// `n` is not above.
pub proof fn lemma_round_up(n: nat, unit: nat, bound: nat)
    requires
        unit > 0,
    ensures
        round_up(n, unit) >= n,
        round_up(n, unit) < n + unit,
        round_up(n, unit) % unit == 0,
        n <= bound && bound % unit == 0 ==> round_up(n, unit) <= bound,
{
    let q = n / unit;
    let r = n % unit;
    assert(n == q * unit + r) by (nonlinear_arith)
        requires
            unit > 0,
            q == n / unit,
            r == n % unit,
    ;
    if r != 0 {
        assert(((q + 1) * unit) % unit == 0) by (nonlinear_arith)
            requires
                unit > 0,
        ;
        assert((q + 1) * unit == q * unit + unit) by (nonlinear_arith);
        if n <= bound && bound % unit == 0 {
            let k = bound / unit;
            assert(bound == k * unit) by (nonlinear_arith)
                requires
                    unit > 0,
                    k == bound / unit,
                    bound % unit == 0,
            ;
            assert(q < k) by (nonlinear_arith)
                requires
                    unit > 0,
                    q * unit + r <= k * unit,
                    r > 0,
            ;
            assert((q + 1) * unit <= k * unit) by (nonlinear_arith)
                requires
                    q + 1 <= k,
                    unit > 0,
            ;
        }
    }
}

/// Rounding up passes over whole units: behind a multiple of the unit, a
/// length is rounded up as it is by itself.
pub proof fn lemma_round_up_shift(base: nat, n: nat, unit: nat)
    requires
        unit > 0,
        base % unit == 0,
    ensures
        round_up(base + n, unit) == base + round_up(n, unit),
{
    let u = unit as int;
    let k = (base as int) / u;
    vstd::arithmetic::div_mod::lemma_fundamental_div_mod(base as int, u);
    assert(base as int == u * k);
    vstd::arithmetic::div_mod::lemma_mod_multiples_vanish(k, n as int, u);
    assert((base + n) as int % u == (n as int) % u);
    vstd::arithmetic::div_mod::lemma_hoist_over_denominator(n as int, k, unit);
    assert(k * u == u * k) by (nonlinear_arith);
    assert((base + n) as int / u == (n as int) / u + k);
    if n % unit != 0 {
        assert(((n as int) / u + k + 1) * u == ((n as int) / u + 1) * u + k * u)
            by (nonlinear_arith);
    }
}

/// How far a comparison of `expected` bytes reads into a device of `device`
/// bytes when it asks for whole sectors: to the end of the last sector that
/// it needs, or to the end of the device where that comes first.
pub open spec fn read_extent(expected: nat, device: nat, sector_size: nat) -> nat
    recommends
        sector_size > 0,
{
    if round_up(expected, sector_size) <= device {
        round_up(expected, sector_size)
    } else {
        device
    }
}

/// One chunk of a sector-aligned comparison.  The comparison stood at
/// `start`, a sector boundary or the end of the device; the image gave
/// `wanted` bytes, the device was asked for `target` and gave `got`.  If this
/// chunk is the `last`, the image's `expected` bytes end in it, and the
/// device was read as far as `read_extent` says; if not, the comparison
/// stands at a sector boundary or at the end of the device again.
pub proof fn lemma_read_extent_step(
    start: nat,
    wanted: nat,
    got: nat,
    target: nat,
    device: nat,
    sector_size: nat,
    expected: nat,
    last: bool,
)
    requires
        sector_size > 0,
        start % sector_size == 0 || start == device,
        target == round_up(wanted, sector_size),
        wanted <= got <= target,
        start + got <= device,
        got < target ==> start + got == device,
        last ==> expected == start + wanted,
        !last ==> got == wanted,
    ensures
        last ==> start + got == read_extent(expected, device, sector_size),
        !last ==> (start + wanted) % sector_size == 0 || start + wanted == device,
{
    lemma_round_up(wanted, sector_size, 0);
    if start % sector_size == 0 {
        lemma_round_up_shift(start, wanted, sector_size);
        if !last && wanted == target {
            assert(round_up(start + wanted, sector_size) == start + wanted);
            lemma_round_up(start + wanted, sector_size, 0);
        }
    } else {
        lemma_round_up(expected, sector_size, 0);
    }
}

/// The length of a read of at least `len` bytes that ends on a multiple of
/// the sector size, as reads have to when the operating system's cache is
/// bypassed.  `None` if that length cannot be held.
pub fn aligned_read_size(len: usize, sector_size: usize) -> (aligned: Option<usize>)
    requires
        sector_size > 0,
    ensures
        match aligned {
            Some(n) => n == round_up(len as nat, sector_size as nat),
            None => round_up(len as nat, sector_size as nat) > usize::MAX,
        },
{
    let r: usize = len % sector_size;
    if r == 0 {
        return Some(len);
    }
    let q: usize = len / sector_size;
    proof {
        lemma_round_up(len as nat, sector_size as nat, 0);
        assert(len == q * sector_size + r) by (nonlinear_arith)
            requires
                sector_size > 0,
                q == len / sector_size,
                r == len % sector_size,
        ;
        assert((q + 1) * sector_size == q * sector_size + sector_size) by (nonlinear_arith);
    }
    let gap: usize = sector_size - r;
    len.checked_add(gap)
}

/// Reads from `reader` until `want` bytes are there or the source ends.
pub fn read_full<R: VerificationReader>(reader: &mut R, want: usize) -> (result: Result<
    Vec<u8>,
    String,
>)
    ensures
        final(reader).can_fail() == old(reader).can_fail(),
        final(reader).intact() == old(reader).intact(),
        final(reader).unflushed() == old(reader).unflushed(),
        match result {
            Ok(data) => {
                &&& data@.len() <= want
                &&& data@.len() <= old(reader).remaining().len()
                &&& data@ == old(reader).remaining().take(data@.len() as int)
                &&& data@.len() < want ==> data@.len() == old(reader).remaining().len()
                &&& final(reader).passed() == old(reader).passed() + data@
                &&& final(reader).remaining() == old(reader).remaining().skip(data@.len() as int)
            },
            Err(_) => old(reader).can_fail() || !old(reader).intact(),
        },
{
    let ghost source = reader.remaining();
    let mut data: Vec<u8> = Vec::new();
    let mut at_end: bool = false;
    proof {
        assert(source.take(0) =~= Seq::<u8>::empty());
        assert(source.skip(0) =~= source);
        assert(reader.passed() + data@ =~= reader.passed());
    }
    while data.len() < want && !at_end
        invariant
            data.len() <= want,
            data.len() <= source.len(),
            source == old(reader).remaining(),
            data@ == source.take(data.len() as int),
            reader.remaining() == source.skip(data.len() as int),
            reader.passed() == old(reader).passed() + data@,
            at_end ==> source.len() == data.len(),
            reader.can_fail() == old(reader).can_fail(),
            reader.intact() == old(reader).intact(),
            reader.unflushed() == old(reader).unflushed(),
        decreases (if at_end { 0int } else { 1int }), want - data.len(),
    {
        let mut part = match reader.read(want - data.len()) {
            Ok(part) => part,
            Err(detail) => {
                return Err(detail);
            },
        };
        if part.len() == 0 {
            at_end = true;
        } else {
            let ghost before = data@;
            let ghost part_bytes = part@;
            data.append(&mut part);
            proof {
                assert(data@ =~= source.take(data.len() as int));
                assert(source.skip(before.len() as int).skip(part_bytes.len() as int)
                    =~= source.skip(data.len() as int));
                assert(old(reader).passed() + before + part_bytes =~= old(reader).passed()
                    + data@);
            }
        }
    }
    Ok(data)
}

/// Compares a chunk of the image with what the device delivered for it.
/// `base` is the offset of the chunk in the image; offsets in errors count
/// from the start of the image.
pub fn compare_chunk(chunk: &Vec<u8>, got: &Vec<u8>, base: u64) -> (result: Result<(), FlashError>)
    requires
        base + chunk.len() <= u64::MAX,
    ensures
        match result {
            Ok(_) => got.len() >= chunk.len() && agree_before(chunk@, got@, chunk.len() as int),
            Err(FlashError::DataMismatch { offset }) => {
                &&& base <= offset < base + chunk.len()
                &&& offset < base + got.len()
                &&& agree_before(chunk@, got@, offset - base)
                &&& chunk[offset - base] != got[offset - base]
            },
            Err(FlashError::SizeMismatch { offset }) => {
                &&& offset == base + got.len()
                &&& got.len() < chunk.len()
                &&& agree_before(chunk@, got@, got.len() as int)
            },
            Err(_) => false,
        },
{
    match first_difference(chunk, got) {
        Some(j) => Err(FlashError::DataMismatch { offset: base + j as u64 }),
        None => {
            if got.len() < chunk.len() {
                Err(FlashError::SizeMismatch { offset: base + got.len() as u64 })
            } else {
                Ok(())
            }
        },
    }
}

/// Agreement of two chunks that lie at `base` carries over to the wholes
/// that agree before `base`.
pub proof fn lemma_agreement_extends(
    expected: Seq<u8>,
    device: Seq<u8>,
    base: int,
    chunk: Seq<u8>,
    got: Seq<u8>,
    k: int,
)
    requires
        agree_before(expected, device, base),
        base + chunk.len() <= expected.len(),
        base + got.len() <= device.len(),
        chunk == expected.subrange(base, base + chunk.len()),
        got == device.subrange(base, base + got.len()),
        agree_before(chunk, got, k),
    ensures
        agree_before(expected, device, base + k),
        k < chunk.len() ==> expected[base + k] == chunk[k],
        k < got.len() ==> device[base + k] == got[k],
{
    assert forall|i: int| 0 <= i < base + k implies expected[i] == device[i] by {
        if i >= base {
            assert(chunk[i - base] == got[i - base]);
        }
    }
}

/// How one chunk of a comparison may end.  `image` and `device` are what
/// the two readers had yet to deliver, `to_read` is the most that the chunk
/// takes of the image, and `base` the offset in the image at which it
/// begins.  Success gives the number of bytes that the image gave and the
/// number that the device gave for them.
pub open spec fn is_chunk_outcome(
    image: Seq<u8>,
    device: Seq<u8>,
    to_read: nat,
    sector_size: nat,
    base: u64,
    result: Result<(usize, usize), FlashError>,
) -> bool {
    match result {
        Ok((wanted, got)) => {
            &&& wanted <= to_read
            &&& wanted <= image.len()
            &&& wanted < to_read ==> wanted == image.len()
            &&& wanted <= got <= round_up(wanted as nat, sector_size)
            &&& got <= device.len()
            &&& got < round_up(wanted as nat, sector_size) ==> got == device.len()
            &&& agree_before(image, device, wanted as int)
        },
        Err(FlashError::DataMismatch { offset }) => {
            &&& base <= offset < base + to_read
            &&& agree_before(image, device, offset - base)
            &&& offset - base < image.len()
            &&& offset - base < device.len()
            &&& image[offset - base] != device[offset - base]
        },
        Err(FlashError::SizeMismatch { offset }) => {
            &&& base <= offset < base + to_read
            &&& agree_before(image, device, offset - base)
            &&& offset - base < image.len()
            &&& offset - base == device.len()
        },
        Err(FlashError::ImageRead { detail }) => true,
        Err(FlashError::DeviceRead { offset, detail }) => offset == base,
        Err(_) => false,
    }
}

/// Reads the next chunk of the image, at most `to_read` bytes, and as many
/// whole sectors of the device as hold it, and compares the two.
pub fn compare_next<I: VerificationReader, R: VerificationReader>(
    image: &mut I,
    device_reader: &mut R,
    to_read: usize,
    sector_size: usize,
    base: u64,
) -> (result: Result<(usize, usize), FlashError>)
    requires
        sector_size > 0,
        round_up(to_read as nat, sector_size as nat) <= usize::MAX,
        base + to_read <= u64::MAX,
    ensures
        is_chunk_outcome(
            old(image).remaining(),
            old(device_reader).remaining(),
            to_read as nat,
            sector_size as nat,
            base,
            result,
        ),
        match result {
            Ok((wanted, got)) => {
                &&& final(image).remaining() == old(image).remaining().skip(wanted as int)
                &&& final(device_reader).remaining() == old(device_reader).remaining().skip(
                    got as int,
                )
                &&& final(device_reader).passed() == old(device_reader).passed() + old(
                    device_reader,
                ).remaining().take(got as int)
            },
            Err(FlashError::ImageRead { detail }) => old(image).can_fail() || !old(image).intact(),
            Err(FlashError::DeviceRead { offset, detail }) => old(device_reader).can_fail() || !old(
                device_reader,
            ).intact(),
            Err(_) => true,
        },
        final(image).can_fail() == old(image).can_fail(),
        final(image).intact() == old(image).intact(),
        final(device_reader).can_fail() == old(device_reader).can_fail(),
        final(device_reader).intact() == old(device_reader).intact(),
        final(device_reader).unflushed() == old(device_reader).unflushed(),
{
    let chunk = match read_full(image, to_read) {
        Ok(chunk) => chunk,
        Err(detail) => {
            return Err(FlashError::ImageRead { detail });
        },
    };
    let wanted: usize = chunk.len();
    proof {
        lemma_round_up(to_read as nat, sector_size as nat, 0);
        lemma_round_up(
            wanted as nat,
            sector_size as nat,
            round_up(to_read as nat, sector_size as nat),
        );
    }
    let target: usize = match aligned_read_size(wanted, sector_size) {
        Some(target) => target,
        None => wanted,
    };
    let got = match read_full(device_reader, target) {
        Ok(got) => got,
        Err(detail) => {
            return Err(FlashError::DeviceRead { offset: base, detail });
        },
    };
    let ghost image_left = old(image).remaining();
    let ghost device_left = old(device_reader).remaining();
    let result = compare_chunk(&chunk, &got, base);
    proof {
        let k: int = match result {
            Ok(_) => wanted as int,
            Err(FlashError::DataMismatch { offset }) => offset - base,
            _ => got.len() as int,
        };
        assert(chunk@ =~= image_left.subrange(0, wanted as int));
        assert(got@ =~= device_left.subrange(0, got.len() as int));
        lemma_agreement_extends(image_left, device_left, 0, chunk@, got@, k);
    }
    match result {
        Ok(_) => Ok((wanted, got.len())),
        Err(error) => Err(error),
    }
}

/// Agreement of what is left of an image and of a device, both from `base`
/// on, carries over to the wholes that agree before `base`.
pub proof fn lemma_agreement_resumes(
    image: Seq<u8>,
    total: u64,
    device: Seq<u8>,
    base: int,
    k: int,
)
    requires
        agree_before(compared(image, total), device, base),
        base <= device.len(),
        agree_before(image.skip(base), device.skip(base), k),
        base + k <= compared(image, total).len(),
    ensures
        agree_before(compared(image, total), device, base + k),
        base + k < compared(image, total).len() ==> compared(image, total)[base + k]
            == image.skip(base)[k],
        base + k < device.len() ==> device[base + k] == device.skip(base)[k],
{
    let expected = compared(image, total);
    assert forall|i: int| 0 <= i < base + k implies expected[i] == device[i] by {
        if i >= base {
            assert(image.skip(base)[i - base] == device.skip(base)[i - base]);
        }
    }
}

/// Compares what `device_reader` delivers with the image, chunk by chunk,
/// asking the device for whole sectors.
///
/// The image counts as `state.total_bytes` long; if it ends earlier, the
/// comparison ends there.  Before each chunk the observer is asked whether to
/// stop.  Every read from the device ends on a multiple of `sector_size`
/// bytes from where the comparison began, so a comparison that succeeds has
/// read the device to the end of the last sector that holds a byte of the
/// image, or to the device's end; what the device delivers beyond the
/// image's last byte is not compared.  The first byte in which the
/// device differs from the image, or at which the device ends while the
/// image goes on, ends the comparison with that byte's offset: a mismatch is
/// never passed over.  `chunk_size` has to be a multiple of `sector_size`,
/// and neither may be 0.
pub fn verify_aligned<I: VerificationReader, R: VerificationReader, O: Observer<FlashState>>(
    image: &mut I,
    device_reader: &mut R,
    state: &mut FlashState,
    observer: &mut O,
    chunk_size: usize,
    sector_size: usize,
) -> (result: Result<(), FlashError>)
    ensures
        is_verdict(
            compared(old(image).remaining(), old(state).total_bytes),
            old(device_reader).remaining(),
            result,
        ),
        match result {
            Ok(_) => {
                &&& chunk_size > 0
                &&& sector_size > 0
                &&& chunk_size % sector_size == 0
                &&& final(state).verified_bytes == compared(
                    old(image).remaining(),
                    old(state).total_bytes,
                ).len()
                &&& final(device_reader).passed() + final(device_reader).remaining() == old(
                    device_reader,
                ).passed() + old(device_reader).remaining()
                &&& final(device_reader).passed().len() == old(device_reader).passed().len()
                    + read_extent(
                    compared(old(image).remaining(), old(state).total_bytes).len(),
                    old(device_reader).remaining().len(),
                    sector_size as nat,
                )
            },
            Err(FlashError::InvalidOptions) => {
                &&& chunk_size == 0 || sector_size == 0 || chunk_size % sector_size != 0
                &&& *final(state) == *old(state)
            },
            Err(FlashError::Cancelled) => old(observer).can_cancel() && final(state).is_cancelled,
            Err(FlashError::ImageRead { detail }) => old(image).can_fail() || !old(image).intact(),
            Err(FlashError::DeviceRead { offset, detail }) => old(device_reader).can_fail() || !old(
                device_reader,
            ).intact(),
            Err(FlashError::DataMismatch { offset }) => true,
            Err(FlashError::SizeMismatch { offset }) => true,
            Err(_) => false,
        },
        !(result is Err && result->Err_0 is InvalidOptions) ==> {
            &&& final(state).is_verifying
            &&& final(state).verified_bytes <= old(state).total_bytes
            &&& agree_before(
                compared(old(image).remaining(), old(state).total_bytes),
                old(device_reader).remaining(),
                final(state).verified_bytes as int,
            )
        },
        final(state).total_bytes == old(state).total_bytes,
        final(state).written_bytes == old(state).written_bytes,
        final(state).phase == old(state).phase,
        final(state).error == old(state).error,
        !(result is Err && result->Err_0 is Cancelled) ==> final(state).is_cancelled == old(
            state,
        ).is_cancelled,
        final(image).can_fail() == old(image).can_fail(),
        final(device_reader).can_fail() == old(device_reader).can_fail(),
        final(image).intact() == old(image).intact(),
        final(device_reader).intact() == old(device_reader).intact(),
        final(device_reader).unflushed() == old(device_reader).unflushed(),
        goes_on(
            old(state).shown@,
            final(state).shown@,
            Reading { total: old(state).total_bytes, done: old(state).written_bytes, checked: 0 },
            final(state).reading(),
        ),
        old(observer).must_cancel() && old(state).total_bytes > 0 ==> result is Err && (
        result->Err_0 is Cancelled || result->Err_0 is InvalidOptions),
        final(observer).can_cancel() == old(observer).can_cancel(),
        final(observer).must_cancel() == old(observer).must_cancel(),
        heeds(old(observer).answers(), final(observer).answers(), result is Err && result->Err_0 is Cancelled),
        !(result is Err && result->Err_0 is InvalidOptions) ==> keeps_pace(
            old(observer).answers(),
            final(observer).answers(),
            final(state).verified_bytes as nat,
            chunk_size as nat,
            result is Err && result->Err_0 is Cancelled,
        ),
{
    let ghost begun = observer.answers();
    proof {
        lemma_heeds_begins(begun);
        lemma_pace_begins(begun, chunk_size as nat);
    }
    let ghost low = Reading {
        total: state.total_bytes,
        done: state.written_bytes,
        checked: 0,
    };
    if chunk_size == 0 || sector_size == 0 || chunk_size % sector_size != 0 {
        proof {
            lemma_goes_on_begins(state.shown@, state.reading());
            lemma_goes_on_within(
                state.shown@,
                state.shown@,
                state.reading(),
                state.reading(),
                low,
                state.reading(),
            );
        }
        return Err(FlashError::InvalidOptions);
    }
    state.is_verifying = true;
    state.verified_bytes = 0;
    proof {
        lemma_goes_on_begins(state.shown@, low);
        lemma_goes_on_with(state.shown@, state.shown@, low, low, low);
    }
    state.show(observer);
    let total: u64 = state.total_bytes;
    let ghost img = image.remaining();
    let ghost dev = device_reader.remaining();
    let ghost expected = compared(img, total);
    let ghost before = device_reader.passed();
    let ghost mut consumed: nat = 0;
    let mut verified: u64 = 0;
    let mut done: bool = false;
    proof {
        assert(img.skip(0) =~= img);
        assert(dev.skip(0) =~= dev);
        assert(before + dev.take(0) =~= before);
    }
    while verified < total && !done
        invariant
            begun == old(observer).answers(),
            observer.can_cancel() == old(observer).can_cancel(),
            observer.must_cancel() == old(observer).must_cancel(),
            heeds(begun, observer.answers(), false),
            verified <= asked(begun, observer.answers()) * chunk_size,
            sector_size > 0,
            chunk_size > 0,
            chunk_size % sector_size == 0,
            img == old(image).remaining(),
            dev == old(device_reader).remaining(),
            before == old(device_reader).passed(),
            expected == compared(img, total),
            total == old(state).total_bytes,
            verified <= total,
            verified <= img.len(),
            done ==> verified == expected.len(),
            done ==> consumed == read_extent(expected.len(), dev.len(), sector_size as nat),
            !done ==> consumed == verified,
            !done ==> verified as nat % sector_size as nat == 0 || verified == dev.len(),
            verified <= consumed <= dev.len(),
            state.verified_bytes == verified,
            state.is_verifying,
            state.total_bytes == total,
            state.written_bytes == old(state).written_bytes,
            state.phase == old(state).phase,
            state.error == old(state).error,
            state.is_cancelled == old(state).is_cancelled,
            image.remaining() == img.skip(verified as int),
            device_reader.remaining() == dev.skip(consumed as int),
            device_reader.passed() == before + dev.take(consumed as int),
            agree_before(expected, dev, verified as int),
            image.can_fail() == old(image).can_fail(),
            device_reader.can_fail() == old(device_reader).can_fail(),
            image.intact() == old(image).intact(),
            device_reader.intact() == old(device_reader).intact(),
            device_reader.unflushed() == old(device_reader).unflushed(),
            low == (Reading {
                total: old(state).total_bytes,
                done: old(state).written_bytes,
                checked: 0,
            }),
            goes_on(old(state).shown@, state.shown@, low, state.reading()),
            observer.must_cancel() ==> verified == 0 && !done,
        decreases (if done { 0int } else { 1int }), total - verified,
    {
        let ghost polls = asked(begun, observer.answers());
        proof {
            lemma_pace_step(polls, chunk_size as nat, verified as nat, 0);
        }
        if ask::<FlashState, O>(observer, Ghost(begun)) {
            state.is_cancelled = true;
            proof {
                lemma_goes_on_with(
                    old(state).shown@,
                    state.shown@,
                    low,
                    state.reading(),
                    state.reading(),
                );
            }
            state.show(observer);
            return Err(FlashError::Cancelled);
        }
        let left: u64 = total - verified;
        let to_read: usize = if left < chunk_size as u64 {
            left as usize
        } else {
            chunk_size
        };
        proof {
            lemma_round_up(to_read as nat, sector_size as nat, chunk_size as nat);
        }
        let step = compare_next(image, device_reader, to_read, sector_size, verified);
        let (wanted, got) = match step {
            Ok(lengths) => lengths,
            Err(error) => {
                proof {
                    let k: int = match error {
                        FlashError::DataMismatch { offset } => offset - verified,
                        FlashError::SizeMismatch { offset } => offset - verified,
                        _ => 0,
                    };
                    lemma_agreement_resumes(img, total, dev, verified as int, k);
                }
                return Err(error);
            },
        };
        let last: bool = wanted < to_read || got > wanted;
        proof {
            lemma_agreement_resumes(img, total, dev, verified as int, wanted as int);
            assert(dev.skip(verified as int).skip(got as int) =~= dev.skip(verified + got));
            assert(img.skip(verified as int).skip(wanted as int) =~= img.skip(verified + wanted));
            assert(dev.take(verified as int) + dev.skip(verified as int).take(got as int)
                =~= dev.take(verified + got));
            if wanted < to_read {
                assert(expected =~= img);
            }
            lemma_read_extent_step(
                verified as nat,
                wanted as nat,
                got as nat,
                round_up(wanted as nat, sector_size as nat),
                dev.len(),
                sector_size as nat,
                expected.len(),
                last,
            );
            consumed = (verified + got) as nat;
        }
        proof {
            lemma_pace_step(polls, chunk_size as nat, verified as nat, wanted as nat);
        }
        verified = verified + wanted as u64;
        let ghost reached = state.reading();
        state.verified_bytes = verified;
        proof {
            lemma_goes_on_with(old(state).shown@, state.shown@, low, reached, state.reading());
        }
        state.show(observer);
        if last {
            done = true;
        }
    }
    proof {
        assert(dev.take(consumed as int) + dev.skip(consumed as int) =~= dev);
        assert(before + dev.take(consumed as int) + dev.skip(consumed as int) =~= before + dev);
        if !done {
            lemma_round_up(verified as nat, sector_size as nat, 0);
        }
    }
    Ok(())
}

/// Compares what `device_reader` delivers with the image, chunk by chunk.
///
/// The image counts as `state.total_bytes` long; if it ends earlier, the
/// comparison ends there.  Before each chunk the observer is asked whether to
/// stop.  The first byte in which the device differs from the image, or at
/// which the device ends while the image goes on, ends the comparison with
/// that byte's offset: a mismatch is never passed over.  A comparison that
/// succeeds has read from the device as many bytes as it compared.
pub fn verify_data<I: VerificationReader, R: VerificationReader, O: Observer<FlashState>>(
    image: &mut I,
    device_reader: &mut R,
    state: &mut FlashState,
    observer: &mut O,
    chunk_size: usize,
) -> (result: Result<(), FlashError>)
    ensures
        is_verdict(
            compared(old(image).remaining(), old(state).total_bytes),
            old(device_reader).remaining(),
            result,
        ),
        match result {
            Ok(_) => {
                &&& chunk_size > 0
                &&& final(state).verified_bytes == compared(
                    old(image).remaining(),
                    old(state).total_bytes,
                ).len()
                &&& final(device_reader).passed() + final(device_reader).remaining() == old(
                    device_reader,
                ).passed() + old(device_reader).remaining()
                &&& final(device_reader).passed().len() == old(device_reader).passed().len()
                    + compared(old(image).remaining(), old(state).total_bytes).len()
            },
            Err(FlashError::InvalidOptions) => chunk_size == 0 && *final(state) == *old(state),
            Err(FlashError::Cancelled) => old(observer).can_cancel() && final(state).is_cancelled,
            Err(FlashError::ImageRead { detail }) => old(image).can_fail() || !old(image).intact(),
            Err(FlashError::DeviceRead { offset, detail }) => old(device_reader).can_fail() || !old(
                device_reader,
            ).intact(),
            Err(FlashError::DataMismatch { offset }) => true,
            Err(FlashError::SizeMismatch { offset }) => true,
            Err(_) => false,
        },
        chunk_size > 0 ==> {
            &&& final(state).is_verifying
            &&& final(state).verified_bytes <= old(state).total_bytes
            &&& agree_before(
                compared(old(image).remaining(), old(state).total_bytes),
                old(device_reader).remaining(),
                final(state).verified_bytes as int,
            )
        },
        final(state).total_bytes == old(state).total_bytes,
        final(state).written_bytes == old(state).written_bytes,
        final(state).phase == old(state).phase,
        final(state).error == old(state).error,
        !(result is Err && result->Err_0 is Cancelled) ==> final(state).is_cancelled == old(
            state,
        ).is_cancelled,
        final(image).can_fail() == old(image).can_fail(),
        final(device_reader).can_fail() == old(device_reader).can_fail(),
        final(image).intact() == old(image).intact(),
        final(device_reader).intact() == old(device_reader).intact(),
        final(device_reader).unflushed() == old(device_reader).unflushed(),
        goes_on(
            old(state).shown@,
            final(state).shown@,
            Reading { total: old(state).total_bytes, done: old(state).written_bytes, checked: 0 },
            final(state).reading(),
        ),
        old(observer).must_cancel() && old(state).total_bytes > 0 ==> result is Err && (
        result->Err_0 is Cancelled || result->Err_0 is InvalidOptions),
        final(observer).can_cancel() == old(observer).can_cancel(),
        final(observer).must_cancel() == old(observer).must_cancel(),
        heeds(old(observer).answers(), final(observer).answers(), result is Err && result->Err_0 is Cancelled),
{
    proof {
        assert(chunk_size % 1 == 0);
        assert(compared(image.remaining(), state.total_bytes).len() % 1 == 0);
    }
    verify_aligned(image, device_reader, state, observer, chunk_size, 1)
}

/// A device that differs from the image in the byte at `offset` and in no
/// earlier byte fails verification at exactly that offset: no other verdict
/// fits.
pub proof fn lemma_mismatch_is_found(
    expected: Seq<u8>,
    device: Seq<u8>,
    offset: int,
    result: Result<(), FlashError>,
)
    requires
        0 <= offset < expected.len(),
        offset < device.len(),
        expected[offset] != device[offset],
        forall|j: int| 0 <= j < offset ==> expected[j] == device[j],
        is_verdict(expected, device, result),
        result is Ok || result->Err_0 is DataMismatch || result->Err_0 is SizeMismatch,
    ensures
        result == Err::<(), FlashError>(FlashError::DataMismatch { offset: offset as u64 }),
{
    match result {
        Ok(_) => {
            assert(expected[offset] == device[offset]);
        },
        Err(FlashError::DataMismatch { offset: k }) => {
            if k < offset {
                assert(expected[k as int] == device[k as int]);
            } else if k > offset {
                assert(expected[offset] == device[offset]);
            }
        },
        Err(FlashError::SizeMismatch { offset: k }) => {
            assert(expected[offset] == device[offset]);
        },
        Err(_) => {},
    }
}

/// A device that begins with the image passes verification: no mismatch can
/// be reported for it.
pub proof fn lemma_equal_data_passes(
    expected: Seq<u8>,
    device: Seq<u8>,
    result: Result<(), FlashError>,
)
    requires
        agree_before(expected, device, expected.len() as int),
        is_verdict(expected, device, result),
    ensures
        !(result is Err && (result->Err_0 is DataMismatch || result->Err_0 is SizeMismatch)),
{
}

/// One byte of a correctly written device is changed afterwards:
/// verification then fails, and reports exactly the offset of that byte.
pub proof fn lemma_flipped_byte_is_found(
    image: Seq<u8>,
    device: Seq<u8>,
    offset: int,
    value: u8,
    result: Result<(), FlashError>,
)
    requires
        agree_before(image, device, image.len() as int),
        0 <= offset < image.len(),
        value != image[offset],
        is_verdict(image, device.update(offset, value), result),
        result is Ok || result->Err_0 is DataMismatch || result->Err_0 is SizeMismatch,
    ensures
        result == Err::<(), FlashError>(FlashError::DataMismatch { offset: offset as u64 }),
{
    lemma_mismatch_is_found(image, device.update(offset, value), offset, result);
}

} // verus!
