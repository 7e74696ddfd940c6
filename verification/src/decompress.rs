//! Decompression of image files: which files need it, what the result is
//! called, and the decoders for the four supported formats.

use crate::download::DownloadState;
use crate::flash::verify::VerificationReader;
use crate::progress::goes_on;
use crate::progress::lemma_goes_on_begins;
use crate::progress::lemma_goes_on_with;
use crate::progress::ask;
use crate::progress::asked;
use crate::progress::heeds;
use crate::progress::lemma_heeds_begins;
use crate::progress::keeps_pace;
use crate::progress::lemma_heeds_joins;
use crate::progress::lemma_pace_begins;
use crate::progress::lemma_pace_step;
use crate::progress::Observer;
use crate::progress::Reading;
use crate::store::lemma_same_except_twice;
use crate::store::same_except;
use crate::store::ImageStore;
use crate::text::chars_of;
use crate::text::ends_with;
use crate::text::extension_of;
use crate::text::extension_start;
use crate::text::has_suffix;
use crate::text::lower;
use crate::text::lowered;
use crate::text::to_ascii_lower;
use std::io::Read;
use vstd::prelude::*;

verus! {

/// A compression format that can be undone.
#[derive(Debug, Clone, Copy, PartialEq, Eq, Structural)]
pub enum CompressionFormat {
    Xz,
    Gz,
    Bz2,
    Zstd,
}

impl CompressionFormat {
    /// The file name suffix of the format, with its dot.
    pub open spec fn suffix(self) -> Seq<char> {
        match self {
            CompressionFormat::Xz => seq!['.', 'x', 'z'],
            CompressionFormat::Gz => seq!['.', 'g', 'z'],
            CompressionFormat::Bz2 => seq!['.', 'b', 'z', '2'],
            CompressionFormat::Zstd => seq!['.', 'z', 's', 't'],
        }
    }

    /// The suffix as characters.
    pub fn suffix_chars(&self) -> (suffix: Vec<char>)
        ensures
            suffix@ == self.suffix(),
    {
        let suffix = match self {
            CompressionFormat::Xz => vec!['.', 'x', 'z'],
            CompressionFormat::Gz => vec!['.', 'g', 'z'],
            CompressionFormat::Bz2 => vec!['.', 'b', 'z', '2'],
            CompressionFormat::Zstd => vec!['.', 'z', 's', 't'],
        };
        proof {
            assert(suffix@ =~= self.suffix());
        }
        suffix
    }
}

/// Is `extension`, letter case aside, one of `xz`, `gz`, `bz2`, `zst`?
pub open spec fn is_compressed_extension(extension: Seq<char>) -> bool {
    let e = lower(extension);
    e == seq!['x', 'z'] || e == seq!['g', 'z'] || e == seq!['b', 'z', '2'] || e == seq![
        'z',
        's',
        't',
    ]
}

/// Does the file have to be decompressed before it can be written to a
/// device?  Decided by the file's extension alone.
pub fn needs_decompression(path: &str) -> (needed: bool)
    ensures
        needed == match extension_of(path@) {
            Some(extension) => is_compressed_extension(extension),
            None => false,
        },
{
    let chars = chars_of(path);
    let end: usize = chars.len();
    let start: usize = match extension_start(&chars) {
        Some(start) => start,
        None => {
            return false;
        },
    };
    let mut e: Vec<char> = Vec::new();
    let mut i: usize = start;
    while i < end
        invariant
            start <= i <= end,
            end == chars.len(),
            e@ == lower(chars@.subrange(start as int, i as int)),
        decreases end - i,
    {
        e.push(to_ascii_lower(chars[i]));
        proof {
            assert(e@ =~= lower(chars@.subrange(start as int, i + 1)));
        }
        i += 1;
    }
    proof {
        assert(chars@.subrange(start as int, end as int) =~= chars@.skip(start as int));
    }
    let n: usize = e.len();
    let xz: bool = n == 2 && e[0] == 'x' && e[1] == 'z';
    let gz: bool = n == 2 && e[0] == 'g' && e[1] == 'z';
    let bz2: bool = n == 3 && e[0] == 'b' && e[1] == 'z' && e[2] == '2';
    let zst: bool = n == 3 && e[0] == 'z' && e[1] == 's' && e[2] == 't';
    proof {
        assert(xz == (e@ =~= seq!['x', 'z']));
        assert(gz == (e@ =~= seq!['g', 'z']));
        assert(bz2 == (e@ =~= seq!['b', 'z', '2']));
        assert(zst == (e@ =~= seq!['z', 's', 't']));
    }
    xz || gz || bz2 || zst
}

/// The format that a file name asks for: that of `.xz`, `.gz`, `.bz2` or
/// `.zst`, whichever the name ends with, letter case aside.
pub open spec fn format_of_name(filename: Seq<char>) -> Option<CompressionFormat> {
    let name = lower(filename);
    if ends_with(name, CompressionFormat::Xz.suffix()) {
        Some(CompressionFormat::Xz)
    } else if ends_with(name, CompressionFormat::Gz.suffix()) {
        Some(CompressionFormat::Gz)
    } else if ends_with(name, CompressionFormat::Bz2.suffix()) {
        Some(CompressionFormat::Bz2)
    } else if ends_with(name, CompressionFormat::Zstd.suffix()) {
        Some(CompressionFormat::Zstd)
    } else {
        None
    }
}

/// The format by which a file of this name is decompressed, if any.
pub fn format_of(filename: &str) -> (format: Option<CompressionFormat>)
    ensures
        format == format_of_name(filename@),
{
    let chars = lowered(&chars_of(filename));
    let n: usize = chars.len();
    proof {
        assert(chars@.take(n as int) =~= chars@);
    }
    if has_suffix(&chars, n, &CompressionFormat::Xz.suffix_chars()) {
        Some(CompressionFormat::Xz)
    } else if has_suffix(&chars, n, &CompressionFormat::Gz.suffix_chars()) {
        Some(CompressionFormat::Gz)
    } else if has_suffix(&chars, n, &CompressionFormat::Bz2.suffix_chars()) {
        Some(CompressionFormat::Bz2)
    } else if has_suffix(&chars, n, &CompressionFormat::Zstd.suffix_chars()) {
        Some(CompressionFormat::Zstd)
    } else {
        None
    }
}

/// The name of the decompressed file: the name without its compression
/// suffix, which is taken off once.  A name that asks for no format stays
/// as it is.
pub open spec fn decompressed_name(filename: Seq<char>) -> Seq<char> {
    match format_of_name(filename) {
        Some(format) => filename.take(filename.len() - format.suffix().len()),
        None => filename,
    }
}

/// The name under which the decompressed content of `filename` is stored.
pub fn output_filename(filename: &str) -> (output: &str)
    ensures
        output@ == decompressed_name(filename@),
{
    let n: usize = filename.unicode_len();
    let kept: usize = match format_of(filename) {
        Some(format) => n - format.suffix_chars().len(),
        None => n,
    };
    proof {
        assert(filename@.subrange(0, kept as int) =~= filename@.take(kept as int));
        assert(filename@.take(n as int) =~= filename@);
    }
    filename.substring_char(0, kept)
}

/// What `liblzma` decodes `input` to as an xz stream; `None` if it rejects
/// the input.
pub uninterp spec fn xz_decoded(input: Seq<u8>) -> Option<Seq<u8>>;

/// What `flate2` decodes `input` to as a gzip member; `None` if it rejects
/// the input.
pub uninterp spec fn gz_decoded(input: Seq<u8>) -> Option<Seq<u8>>;

/// What `bzip2` decodes `input` to; `None` if it rejects the input.
pub uninterp spec fn bz2_decoded(input: Seq<u8>) -> Option<Seq<u8>>;

/// What `zstd` decodes `input` to; `None` if it rejects the input.
pub uninterp spec fn zstd_decoded(input: Seq<u8>) -> Option<Seq<u8>>;

/// The decoded content of `input` in the given format.
pub open spec fn decoded(format: CompressionFormat, input: Seq<u8>) -> Option<Seq<u8>> {
    match format {
        CompressionFormat::Xz => xz_decoded(input),
        CompressionFormat::Gz => gz_decoded(input),
        CompressionFormat::Bz2 => bz2_decoded(input),
        CompressionFormat::Zstd => zstd_decoded(input),
    }
}

/// `liblzma::read::XzDecoder` read to its end over `input`: the decoded
/// bytes, or the decoder's error message.
#[verifier::external_body]
pub(crate) fn xz_decode(input: &[u8]) -> (result: Result<Vec<u8>, String>)
    ensures
        match result {
            Ok(output) => xz_decoded(input@) == Some(output@),
            Err(_) => xz_decoded(input@) is None,
        },
{
    let mut output = Vec::new();
    match liblzma::read::XzDecoder::new(input).read_to_end(&mut output) {
        Ok(_) => Ok(output),
        Err(e) => Err(e.to_string()),
    }
}

/// `flate2::read::GzDecoder` read to its end over `input`: the decoded
/// bytes, or the decoder's error message.
#[verifier::external_body]
pub(crate) fn gz_decode(input: &[u8]) -> (result: Result<Vec<u8>, String>)
    ensures
        match result {
            Ok(output) => gz_decoded(input@) == Some(output@),
            Err(_) => gz_decoded(input@) is None,
        },
{
    let mut output = Vec::new();
    match flate2::read::GzDecoder::new(input).read_to_end(&mut output) {
        Ok(_) => Ok(output),
        Err(e) => Err(e.to_string()),
    }
}

/// `bzip2::read::BzDecoder` read to its end over `input`: the decoded
/// bytes, or the decoder's error message.
#[verifier::external_body]
pub(crate) fn bz2_decode(input: &[u8]) -> (result: Result<Vec<u8>, String>)
    ensures
        match result {
            Ok(output) => bz2_decoded(input@) == Some(output@),
            Err(_) => bz2_decoded(input@) is None,
        },
{
    let mut output = Vec::new();
    match bzip2::read::BzDecoder::new(input).read_to_end(&mut output) {
        Ok(_) => Ok(output),
        Err(e) => Err(e.to_string()),
    }
}

/// `zstd::stream::read::Decoder` made and read to its end over `input`: the
/// decoded bytes, or the decoder's error message.
#[verifier::external_body]
pub(crate) fn zstd_decode(input: &[u8]) -> (result: Result<Vec<u8>, String>)
    ensures
        match result {
            Ok(output) => zstd_decoded(input@) == Some(output@),
            Err(_) => zstd_decoded(input@) is None,
        },
{
    let mut output = Vec::new();
    match zstd::stream::read::Decoder::new(input) {
        Ok(mut decoder) => match decoder.read_to_end(&mut output) {
            Ok(_) => Ok(output),
            Err(e) => Err(e.to_string()),
        },
        Err(e) => Err(e.to_string()),
    }
}

/// Why a decompression ended without success.
#[derive(Debug)]
pub enum DecompressError {
    /// The observer asked for the operation to stop.
    Cancelled,
    /// The file name ends in none of the supported suffixes.
    Unsupported,
    /// The chunk size is zero.
    InvalidChunkSize,
    /// The compressed file could not be opened.
    OpenInput { detail: String },
    /// The output file could not be created.
    CreateOutput { detail: String },
    /// The decoder failed: the data is damaged, or reading it failed.
    Decode { detail: String },
    /// Writing the output file failed.
    Write { detail: String },
    /// The system's own tool could not be started or did not end well.
    SystemTool { detail: String },
}

impl DecompressError {
    /// What the error says, in words.
    pub open spec fn text(self) -> Seq<char> {
        match self {
            DecompressError::Cancelled => "Decompression cancelled"@,
            DecompressError::Unsupported => "Unsupported compression format"@,
            DecompressError::InvalidChunkSize => "Invalid chunk size"@,
            DecompressError::OpenInput { detail } => "Failed to open input file: "@ + detail@,
            DecompressError::CreateOutput { detail } => "Failed to create output file: "@
                + detail@,
            DecompressError::Decode { detail } => "Decompression error: "@ + detail@,
            DecompressError::Write { detail } => "Failed to write decompressed data: "@
                + detail@,
            DecompressError::SystemTool { detail } => "System xz failed: "@ + detail@,
        }
    }

    /// The error as a message for the user.
    pub fn message(&self) -> (message: String)
        ensures
            message@ == self.text(),
    {
        let (head, detail) = match self {
            DecompressError::Cancelled => ("Decompression cancelled", ""),
            DecompressError::Unsupported => ("Unsupported compression format", ""),
            DecompressError::InvalidChunkSize => ("Invalid chunk size", ""),
            DecompressError::OpenInput { detail } => ("Failed to open input file: ", detail.as_str()),
            DecompressError::CreateOutput { detail } => (
                "Failed to create output file: ",
                detail.as_str(),
            ),
            DecompressError::Decode { detail } => ("Decompression error: ", detail.as_str()),
            DecompressError::Write { detail } => (
                "Failed to write decompressed data: ",
                detail.as_str(),
            ),
            DecompressError::SystemTool { detail } => ("System xz failed: ", detail.as_str()),
        };
        let mut message = head.to_owned();
        message.append(detail);
        proof {
            assert(""@ =~= Seq::<char>::empty()) by {
                reveal_strlit("");
            }
            assert(message@ =~= self.text());
        }
        message
    }
}

/// Copies what `decoder` delivers into the file `output`, a chunk at a
/// time.
///
/// The file is created empty first.  Before each chunk is read the observer
/// is asked whether to stop; if so, the part of the output written so far is
/// removed, and the result is `Cancelled`, which is no failure of the data.
/// The first yes of the observer is obeyed and nothing is asked after it,
/// and no more than one chunk is moved for each answer.  Every format goes
/// through this one loop.
#[verifier::loop_isolation(false)]
pub fn decompress_with_reader<R: VerificationReader, S: ImageStore, O: Observer<DownloadState>>(
    decoder: &mut R,
    store: &mut S,
    output: &str,
    observer: &mut O,
    chunk_size: usize,
) -> (result: Result<(), DecompressError>)
    ensures
        final(store).can_fail() == old(store).can_fail(),
        final(store).has_sound_tool() == old(store).has_sound_tool(),
        final(store).used() == old(store).used(),
        match result {
            Ok(_) => {
                &&& old(decoder).intact()
                &&& final(store).files() == old(store).files().insert(
                    output@,
                    old(decoder).remaining(),
                )
            },
            Err(error) => {
                &&& same_except(old(store).files(), final(store).files(), output@)
                &&& match error {
                    DecompressError::Cancelled => {
                        &&& old(observer).can_cancel()
                        &&& !old(store).can_fail() ==> !final(store).files().contains_key(
                            output@,
                        )
                    },
                    DecompressError::InvalidChunkSize => chunk_size == 0 && final(store).files()
                        == old(store).files(),
                    DecompressError::CreateOutput { detail } => old(store).can_fail(),
                    DecompressError::Write { detail } => old(store).can_fail(),
                    DecompressError::Decode { detail } => old(decoder).can_fail() || !old(
                        decoder,
                    ).intact(),
                    _ => false,
                }
            },
        },
        old(observer).must_cancel() ==> result is Err && (result->Err_0 is Cancelled
            || result->Err_0 is InvalidChunkSize || result->Err_0 is CreateOutput),
        final(observer).can_cancel() == old(observer).can_cancel(),
        final(observer).must_cancel() == old(observer).must_cancel(),
        heeds(old(observer).answers(), final(observer).answers(), result is Err && result->Err_0 is Cancelled),
        result is Ok ==> keeps_pace(
            old(observer).answers(),
            final(observer).answers(),
            old(decoder).remaining().len(),
            chunk_size as nat,
            false,
        ),
        result is Err && result->Err_0 is Cancelled ==> {
            &&& final(decoder).remaining().len() <= old(decoder).remaining().len()
            &&& keeps_pace(
                old(observer).answers(),
                final(observer).answers(),
                (old(decoder).remaining().len() - final(decoder).remaining().len()) as nat,
                chunk_size as nat,
                true,
            )
        },
{
    let ghost begun = observer.answers();
    proof {
        lemma_heeds_begins(begun);
        lemma_pace_begins(begun, chunk_size as nat);
    }
    if chunk_size == 0 {
        return Err(DecompressError::InvalidChunkSize);
    }
    let ghost before = store.files();
    let ghost content = decoder.remaining();
    match store.create(output) {
        Ok(_) => {},
        Err(detail) => {
            return Err(DecompressError::CreateOutput { detail });
        },
    }
    let ghost mut copied: nat = 0;
    let mut at_end: bool = false;
    proof {
        assert(content.take(0) =~= Seq::<u8>::empty());
        assert(content.skip(0) =~= content);
    }
    while !at_end
        invariant
            begun == old(observer).answers(),
            observer.can_cancel() == old(observer).can_cancel(),
            observer.must_cancel() == old(observer).must_cancel(),
            heeds(begun, observer.answers(), false),
            copied <= asked(begun, observer.answers()) * chunk_size,
            copied <= content.len(),
            decoder.remaining() == content.skip(copied as int),
            decoder.can_fail() == old(decoder).can_fail(),
            decoder.intact() == old(decoder).intact(),
            store.can_fail() == old(store).can_fail(),
            store.has_sound_tool() == old(store).has_sound_tool(),
            store.used() == old(store).used(),
            store.files() == before.insert(output@, content.take(copied as int)),
            at_end ==> copied == content.len() && decoder.intact(),
            observer.must_cancel() ==> !at_end,
        decreases (if at_end { 0int } else { 1int }), content.len() - copied,
    {
        let ghost polls = asked(begun, observer.answers());
        proof {
            lemma_pace_step(polls, chunk_size as nat, copied as nat, 0);
        }
        if ask::<DownloadState, O>(observer, Ghost(begun)) {
            store.remove(output);
            return Err(DecompressError::Cancelled);
        }
        let chunk = match decoder.read(chunk_size) {
            Ok(chunk) => chunk,
            Err(detail) => {
                return Err(DecompressError::Decode { detail });
            },
        };
        if chunk.len() == 0 {
            at_end = true;
        } else {
            let ghost partial = store.files();
            match store.append(output, chunk.as_slice()) {
                Ok(_) => {},
                Err(detail) => {
                    proof {
                        assert(partial.contains_key(output@));
                        lemma_same_except_twice(before, partial, store.files(), output@);
                    }
                    return Err(DecompressError::Write { detail });
                },
            }
            proof {
                assert(content.take(copied as int) + chunk@ =~= content.take(
                    copied + chunk.len(),
                ));
                assert(content.skip(copied as int).skip(chunk.len() as int) =~= content.skip(
                    copied + chunk.len(),
                ));
                assert(store.files() =~= before.insert(
                    output@,
                    content.take(copied + chunk.len()),
                ));
                lemma_pace_step(polls, chunk_size as nat, copied, chunk.len() as nat);
                copied = copied + chunk.len() as nat;
            }
        }
    }
    proof {
        assert(content.take(content.len() as int) =~= content);
    }
    Ok(())
}

/// How decoding the file `input` into the file `output` may end: `before`
/// and `after` are the directory before and after, and the flags tell what
/// can go wrong around the decoder.
pub open spec fn is_decoding_outcome(
    format: CompressionFormat,
    input: Seq<char>,
    output: Seq<char>,
    before: Map<Seq<char>, Seq<u8>>,
    after: Map<Seq<char>, Seq<u8>>,
    store_can_fail: bool,
    can_cancel: bool,
    chunk_size: usize,
    result: Result<(), DecompressError>,
) -> bool {
    match result {
        Ok(_) => {
            &&& before.contains_key(input)
            &&& decoded(format, before[input]) is Some
            &&& after == before.insert(output, decoded(format, before[input])->0)
        },
        Err(error) => {
            &&& same_except(before, after, output)
            &&& match error {
                DecompressError::Cancelled => can_cancel && (!store_can_fail
                    ==> !after.contains_key(output)),
                DecompressError::InvalidChunkSize => chunk_size == 0,
                DecompressError::OpenInput { detail } => !before.contains_key(input)
                    || store_can_fail || decoded(format, before[input]) is None,
                DecompressError::CreateOutput { detail } => store_can_fail,
                DecompressError::Write { detail } => store_can_fail,
                DecompressError::Decode { detail } => store_can_fail || (before.contains_key(input)
                    && decoded(format, before[input]) is None),
                DecompressError::Unsupported => false,
                DecompressError::SystemTool { detail } => false,
            }
        },
    }
}

/// Decodes the file `input` in the given format into the file `output`,
/// a chunk at a time.  The observer is asked before the file is opened,
/// and then before each chunk.
pub fn decompress_with_format<S: ImageStore, O: Observer<DownloadState>>(
    store: &mut S,
    input: &str,
    output: &str,
    format: CompressionFormat,
    observer: &mut O,
    chunk_size: usize,
) -> (result: Result<(), DecompressError>)
    ensures
        final(store).can_fail() == old(store).can_fail(),
        final(store).has_sound_tool() == old(store).has_sound_tool(),
        final(store).used() == old(store).used(),
        is_decoding_outcome(
            format,
            input@,
            output@,
            old(store).files(),
            final(store).files(),
            old(store).can_fail(),
            old(observer).can_cancel(),
            chunk_size,
            result,
        ),
        old(observer).must_cancel() ==> result is Err && result->Err_0 is Cancelled,
        final(observer).can_cancel() == old(observer).can_cancel(),
        final(observer).must_cancel() == old(observer).must_cancel(),
        heeds(old(observer).answers(), final(observer).answers(), result is Err && result->Err_0 is Cancelled),
{
    let ghost begun = observer.answers();
    proof {
        lemma_heeds_begins(begun);
    }
    if ask::<DownloadState, O>(observer, Ghost(begun)) {
        store.remove(output);
        return Err(DecompressError::Cancelled);
    }
    let mut decoder = match store.open_decoder(input, format) {
        Ok(decoder) => decoder,
        Err(detail) => {
            return Err(DecompressError::OpenInput { detail });
        },
    };
    let ghost asked_once = observer.answers();
    let copied = decompress_with_reader(&mut decoder, store, output, observer, chunk_size);
    proof {
        lemma_heeds_joins(
            begun,
            asked_once,
            observer.answers(),
            copied is Err && copied->Err_0 is Cancelled,
        );
    }
    copied
}

/// Decodes an xz file with the library decoder, on one thread.
pub fn decompress_with_rust_xz<S: ImageStore, O: Observer<DownloadState>>(
    store: &mut S,
    input: &str,
    output: &str,
    observer: &mut O,
) -> (result: Result<(), DecompressError>)
    ensures
        final(store).can_fail() == old(store).can_fail(),
        final(store).has_sound_tool() == old(store).has_sound_tool(),
        final(store).used() == old(store).used(),
        is_decoding_outcome(
            CompressionFormat::Xz,
            input@,
            output@,
            old(store).files(),
            final(store).files(),
            old(store).can_fail(),
            old(observer).can_cancel(),
            crate::config::download::CHUNK_SIZE,
            result,
        ),
        old(observer).must_cancel() ==> result is Err && result->Err_0 is Cancelled,
        final(observer).can_cancel() == old(observer).can_cancel(),
        final(observer).must_cancel() == old(observer).must_cancel(),
        heeds(old(observer).answers(), final(observer).answers(), result is Err && result->Err_0 is Cancelled),
{
    decompress_with_format(
        store,
        input,
        output,
        CompressionFormat::Xz,
        observer,
        crate::config::download::CHUNK_SIZE,
    )
}

/// Decodes an xz file with the system's own multi-threaded tool, run with
/// `threads` threads.
///
/// What the tool puts out is copied like the output of any decoder: a chunk
/// at a time, with a look at the observer before each.  If the tool cannot
/// be started or does not end well, the result is `SystemTool`, which a
/// sound tool gives only for a file that is not there or that it does not
/// end well on; the output holds what the tool put out, whatever that is;
/// after any failure, and after a request to stop, what was written of the
/// output is removed, so that nothing stands in the way of another decoder.
pub fn decompress_with_system_xz<S: ImageStore, O: Observer<DownloadState>>(
    store: &mut S,
    input: &str,
    output: &str,
    observer: &mut O,
    threads: usize,
) -> (result: Result<(), DecompressError>)
    ensures
        final(store).can_fail() == old(store).can_fail(),
        final(store).has_sound_tool() == old(store).has_sound_tool(),
        final(store).used() == old(store).used(),
        match result {
            Ok(_) => {
                &&& old(store).files().contains_key(input@)
                &&& old(store).tool_output(input@) is Some
                &&& final(store).files() == old(store).files().insert(
                    output@,
                    old(store).tool_output(input@)->0,
                )
            },
            Err(error) => {
                &&& same_except(old(store).files(), final(store).files(), output@)
                &&& !old(store).can_fail() ==> !final(store).files().contains_key(output@)
                    || final(store).files() == old(store).files()
                &&& match error {
                    DecompressError::Cancelled => old(observer).can_cancel(),
                    DecompressError::SystemTool { detail } => {
                        ||| !old(store).has_sound_tool()
                        ||| !old(store).files().contains_key(input@)
                        ||| old(store).tool_output(input@) is None
                    },
                    DecompressError::CreateOutput { detail } => old(store).can_fail(),
                    DecompressError::Write { detail } => old(store).can_fail(),
                    _ => false,
                }
            },
        },
        old(observer).must_cancel() ==> result is Err && result->Err_0 is Cancelled,
        final(observer).can_cancel() == old(observer).can_cancel(),
        final(observer).must_cancel() == old(observer).must_cancel(),
        heeds(old(observer).answers(), final(observer).answers(), result is Err && result->Err_0 is Cancelled),
{
    let ghost before = store.files();
    let ghost begun = observer.answers();
    proof {
        lemma_heeds_begins(begun);
    }
    if ask::<DownloadState, O>(observer, Ghost(begun)) {
        store.remove(output);
        return Err(DecompressError::Cancelled);
    }
    let ghost asked_once = observer.answers();
    let mut tool = match store.open_external_xz(input, threads) {
        Ok(tool) => tool,
        Err(detail) => {
            return Err(DecompressError::SystemTool { detail });
        },
    };
    let copied = decompress_with_reader(
        &mut tool,
        store,
        output,
        observer,
        crate::config::download::CHUNK_SIZE,
    );
    proof {
        lemma_heeds_joins(
            begun,
            asked_once,
            observer.answers(),
            copied is Err && copied->Err_0 is Cancelled,
        );
    }
    match copied {
        Ok(_) => Ok(()),
        Err(error) => {
            let ghost partial = store.files();
            store.remove(output);
            proof {
                lemma_same_except_twice(before, partial, store.files(), output@);
            }
            match error {
                DecompressError::Decode { detail } => Err(DecompressError::SystemTool { detail }),
                _ => Err(error),
            }
        },
    }
}

/// Decodes a gzip file.
pub fn decompress_with_gz<S: ImageStore, O: Observer<DownloadState>>(
    store: &mut S,
    input: &str,
    output: &str,
    observer: &mut O,
) -> (result: Result<(), DecompressError>)
    ensures
        final(store).can_fail() == old(store).can_fail(),
        final(store).has_sound_tool() == old(store).has_sound_tool(),
        final(store).used() == old(store).used(),
        is_decoding_outcome(
            CompressionFormat::Gz,
            input@,
            output@,
            old(store).files(),
            final(store).files(),
            old(store).can_fail(),
            old(observer).can_cancel(),
            crate::config::download::CHUNK_SIZE,
            result,
        ),
        old(observer).must_cancel() ==> result is Err && result->Err_0 is Cancelled,
        final(observer).can_cancel() == old(observer).can_cancel(),
        final(observer).must_cancel() == old(observer).must_cancel(),
        heeds(old(observer).answers(), final(observer).answers(), result is Err && result->Err_0 is Cancelled),
{
    decompress_with_format(
        store,
        input,
        output,
        CompressionFormat::Gz,
        observer,
        crate::config::download::CHUNK_SIZE,
    )
}

/// Decodes a bzip2 file.
pub fn decompress_with_bz2<S: ImageStore, O: Observer<DownloadState>>(
    store: &mut S,
    input: &str,
    output: &str,
    observer: &mut O,
) -> (result: Result<(), DecompressError>)
    ensures
        final(store).can_fail() == old(store).can_fail(),
        final(store).has_sound_tool() == old(store).has_sound_tool(),
        final(store).used() == old(store).used(),
        is_decoding_outcome(
            CompressionFormat::Bz2,
            input@,
            output@,
            old(store).files(),
            final(store).files(),
            old(store).can_fail(),
            old(observer).can_cancel(),
            crate::config::download::CHUNK_SIZE,
            result,
        ),
        old(observer).must_cancel() ==> result is Err && result->Err_0 is Cancelled,
        final(observer).can_cancel() == old(observer).can_cancel(),
        final(observer).must_cancel() == old(observer).must_cancel(),
        heeds(old(observer).answers(), final(observer).answers(), result is Err && result->Err_0 is Cancelled),
{
    decompress_with_format(
        store,
        input,
        output,
        CompressionFormat::Bz2,
        observer,
        crate::config::download::CHUNK_SIZE,
    )
}

/// Decodes a zstd file.
pub fn decompress_with_zstd<S: ImageStore, O: Observer<DownloadState>>(
    store: &mut S,
    input: &str,
    output: &str,
    observer: &mut O,
) -> (result: Result<(), DecompressError>)
    ensures
        final(store).can_fail() == old(store).can_fail(),
        final(store).has_sound_tool() == old(store).has_sound_tool(),
        final(store).used() == old(store).used(),
        is_decoding_outcome(
            CompressionFormat::Zstd,
            input@,
            output@,
            old(store).files(),
            final(store).files(),
            old(store).can_fail(),
            old(observer).can_cancel(),
            crate::config::download::CHUNK_SIZE,
            result,
        ),
        old(observer).must_cancel() ==> result is Err && result->Err_0 is Cancelled,
        final(observer).can_cancel() == old(observer).can_cancel(),
        final(observer).must_cancel() == old(observer).must_cancel(),
        heeds(old(observer).answers(), final(observer).answers(), result is Err && result->Err_0 is Cancelled),
{
    decompress_with_format(
        store,
        input,
        output,
        CompressionFormat::Zstd,
        observer,
        crate::config::download::CHUNK_SIZE,
    )
}

/// A file name that asks for a format differs from the name of its
/// decompressed file, which is shorter by the suffix.
pub proof fn lemma_output_differs(filename: Seq<char>)
    requires
        format_of_name(filename) is Some,
    ensures
        decompressed_name(filename) != filename,
        decompressed_name(filename).len() + format_of_name(filename)->0.suffix().len()
            == filename.len(),
{
}

/// Is there work to do for the local file `filename`: does its name ask
/// for a format, and is its decompressed file not there yet?
pub open spec fn is_to_decompress(filename: Seq<char>, before: Map<Seq<char>, Seq<u8>>) -> bool {
    format_of_name(filename) is Some && !before.contains_key(decompressed_name(filename))
}

/// How decompressing the local file `filename` may end.
///
/// A name that asks for no supported format is refused before anything
/// else.  If the decompressed file is there already, nothing is done and
/// its name is the result.  Otherwise the decoded content of the file is
/// stored under the decompressed name: what the library decodes, or, for
/// an xz file, what the system's tool `tool` puts out, if it has one that
/// ends well.
pub open spec fn is_local_decompression(
    filename: Seq<char>,
    before: Map<Seq<char>, Seq<u8>>,
    after: Map<Seq<char>, Seq<u8>>,
    tool: Option<Seq<u8>>,
    store_can_fail: bool,
    can_cancel: bool,
    result: Result<String, DecompressError>,
) -> bool {
    let output = decompressed_name(filename);
    match format_of_name(filename) {
        None => result is Err && result->Err_0 is Unsupported && after == before,
        Some(format) => if before.contains_key(output) {
            result is Ok && result->Ok_0@ == output && after == before
        } else {
            match result {
                Ok(name) => {
                    &&& name@ == output
                    &&& before.contains_key(filename)
                    &&& is_decoding_outcome(
                        format,
                        filename,
                        output,
                        before,
                        after,
                        store_can_fail,
                        can_cancel,
                        crate::config::download::CHUNK_SIZE,
                        Ok(()),
                    ) || (format == CompressionFormat::Xz && tool is Some && after
                        == before.insert(output, tool->0))
                },
                Err(error) => is_decoding_outcome(
                    format,
                    filename,
                    output,
                    before,
                    after,
                    store_can_fail,
                    can_cancel,
                    crate::config::download::CHUNK_SIZE,
                    Err(error),
                ),
            }
        },
    }
}

/// How a decompression ends with which a request to stop stands: as
/// cancelled, before the compressed file is so much as opened.
pub open spec fn is_stopped_decompression(result: Result<String, DecompressError>) -> bool {
    result is Err && result->Err_0 is Cancelled
}

/// Decompresses a file of the directory and returns the name of the
/// decompressed file.
///
/// A name that ends in none of the supported suffixes is refused, and
/// nothing is touched.  The decompressed file gets the name of the
/// compressed one without its compression suffix.  If a file of that name is
/// there already, it is taken to be the result of an earlier run and
/// returned as it is.  Otherwise the size of the compressed file becomes the
/// state's total, and the file is decoded.  An xz file is first handed to
/// the system's own tool with `threads` threads; if that fails for any
/// reason but a request to stop, the library decoder takes over.  Either
/// way the output is written a chunk at a time, and the observer is asked
/// before each chunk whether to stop.  However the work ends, the state no
/// longer says that a file is being decompressed.
pub fn decompress_local_file<S: ImageStore, O: Observer<DownloadState>>(
    store: &mut S,
    filename: &str,
    state: &mut DownloadState,
    observer: &mut O,
    threads: usize,
) -> (result: Result<String, DecompressError>)
    ensures
        final(store).can_fail() == old(store).can_fail(),
        final(store).has_sound_tool() == old(store).has_sound_tool(),
        final(store).used() == old(store).used(),
        is_local_decompression(
            filename@,
            old(store).files(),
            final(store).files(),
            old(store).tool_output(filename@),
            old(store).can_fail(),
            old(observer).can_cancel(),
            result,
        ),
        !is_to_decompress(filename@, old(store).files()) ==> *final(state) == *old(state),
        is_to_decompress(filename@, old(store).files()) ==> {
            &&& !final(state).is_decompressing
            &&& final(state).downloaded_bytes == old(state).downloaded_bytes
            &&& final(state).is_verifying_sha == old(state).is_verifying_sha
            &&& final(state).error == old(state).error
            &&& final(state).output_path == old(state).output_path
            &&& old(store).files().contains_key(filename@) && !old(store).can_fail() && old(
                store,
            ).files()[filename@].len() <= u64::MAX ==> final(state).total_bytes == old(
                store,
            ).files()[filename@].len()
            &&& final(state).total_bytes == old(state).total_bytes || (old(
                store,
            ).files().contains_key(filename@) && final(state).total_bytes == old(
                store,
            ).files()[filename@].len())
        },
        result is Err && result->Err_0 is Cancelled ==> final(state).is_cancelled,
        goes_on(
            old(state).shown@,
            final(state).shown@,
            Reading {
                total: final(state).total_bytes,
                done: old(state).downloaded_bytes,
                checked: 0,
            },
            final(state).reading(),
        ),
        old(observer).must_cancel() && is_to_decompress(filename@, old(store).files())
            ==> is_stopped_decompression(result),
        final(observer).can_cancel() == old(observer).can_cancel(),
        final(observer).must_cancel() == old(observer).must_cancel(),
        heeds(old(observer).answers(), final(observer).answers(), result is Err && result->Err_0 is Cancelled),
{
    let ghost begun = observer.answers();
    proof {
        lemma_heeds_begins(begun);
    }
    let format = match format_of(filename) {
        Some(format) => format,
        None => {
            proof {
                lemma_goes_on_begins(state.shown@, state.reading());
            }
            return Err(DecompressError::Unsupported);
        },
    };
    let output = output_filename(filename);
    if store.contains(output) {
        proof {
            lemma_goes_on_begins(state.shown@, state.reading());
        }
        return Ok(output.to_owned());
    }
    let ghost before = store.files();
    state.is_decompressing = true;
    match store.size(filename) {
        Some(size) => {
            state.total_bytes = size;
        },
        None => {},
    }
    let ghost shown_before = state.shown@;
    let ghost low = state.reading();
    proof {
        lemma_goes_on_begins(shown_before, low);
        lemma_goes_on_with(shown_before, state.shown@, low, low, low);
    }
    state.show(observer);
    proof {
        lemma_output_differs(filename@);
    }
    let decoded_it = match format {
        CompressionFormat::Xz => {
            match decompress_with_system_xz(store, filename, output, observer, threads) {
                Ok(_) => Ok(()),
                Err(DecompressError::Cancelled) => Err(DecompressError::Cancelled),
                Err(_) => {
                    let ghost mid = store.files();
                    let ghost asked_mid = observer.answers();
                    let fallback = decompress_with_rust_xz(store, filename, output, observer);
                    proof {
                        lemma_heeds_joins(
                            begun,
                            asked_mid,
                            observer.answers(),
                            fallback is Err && fallback->Err_0 is Cancelled,
                        );
                        assert(mid.contains_key(filename@) == before.contains_key(filename@));
                        if fallback is Ok {
                            assert(store.files() =~= before.insert(
                                output@,
                                decoded(format, before[filename@])->0,
                            ));
                        } else {
                            lemma_same_except_twice(before, mid, store.files(), output@);
                        }
                    }
                    fallback
                },
            }
        },
        CompressionFormat::Gz => decompress_with_gz(store, filename, output, observer),
        CompressionFormat::Bz2 => decompress_with_bz2(store, filename, output, observer),
        CompressionFormat::Zstd => decompress_with_zstd(store, filename, output, observer),
    };
    match decoded_it {
        Ok(_) => {
            state.is_decompressing = false;
            proof {
                lemma_goes_on_with(shown_before, state.shown@, low, state.reading(), state.reading());
            }
            state.show(observer);
            Ok(output.to_owned())
        },
        Err(error) => {
            state.is_decompressing = false;
            match error {
                DecompressError::Cancelled => {
                    state.is_cancelled = true;
                },
                _ => {},
            }
            proof {
                lemma_goes_on_with(shown_before, state.shown@, low, state.reading(), state.reading());
            }
            state.show(observer);
            Err(error)
        },
    }
}

/// A decompression with which a request to stop stands ends as cancelled
/// and leaves no output, if there is work to do in a directory that does
/// not fail, whatever the compressed file holds.  Every other file stays
/// as it is.
pub proof fn lemma_stopped_decompression_leaves_nothing(
    filename: Seq<char>,
    before: Map<Seq<char>, Seq<u8>>,
    after: Map<Seq<char>, Seq<u8>>,
    tool: Option<Seq<u8>>,
    can_cancel: bool,
    result: Result<String, DecompressError>,
)
    requires
        is_local_decompression(filename, before, after, tool, false, can_cancel, result),
        is_stopped_decompression(result),
        is_to_decompress(filename, before),
    ensures
        result is Err,
        result->Err_0 is Cancelled,
        !after.contains_key(decompressed_name(filename)),
        same_except(before, after, decompressed_name(filename)),
        before.contains_key(filename) ==> after.contains_key(filename) && after[filename]
            == before[filename],
{
    lemma_output_differs(filename);
}

/// Decompressing the same file twice does the work once: after a run that
/// succeeded, another run returns the same name and leaves the directory as
/// it is.
pub proof fn lemma_decompressing_again_is_no_work(
    filename: Seq<char>,
    before: Map<Seq<char>, Seq<u8>>,
    between: Map<Seq<char>, Seq<u8>>,
    after: Map<Seq<char>, Seq<u8>>,
    tool: Option<Seq<u8>>,
    again: Option<Seq<u8>>,
    store_can_fail: bool,
    can_cancel: bool,
    first: Result<String, DecompressError>,
    second: Result<String, DecompressError>,
)
    requires
        is_local_decompression(filename, before, between, tool, store_can_fail, can_cancel, first),
        is_local_decompression(filename, between, after, again, store_can_fail, can_cancel, second),
        first is Ok,
    ensures
        second is Ok,
        second->Ok_0@ == first->Ok_0@,
        after == between,
{
}

} // verus!
