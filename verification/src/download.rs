//! Fetching an image: naming the files of a download, checking the
//! downloaded bytes against a published SHA-256 digest, and the progress
//! that a download reports.

use crate::decompress::decompress_with_rust_xz;
use crate::decompress::xz_decoded;
use crate::decompress::CompressionFormat;
use crate::decompress::DecompressError;
use crate::flash::verify::VerificationReader;
use crate::hash::hashed;
use crate::hash::hasher_finalize;
use crate::hash::hasher_new;
use crate::hash::hasher_update;
use crate::hash::sha256;
use crate::progress::goes_on;
use crate::progress::is_chunked;
use crate::progress::is_steady;
use crate::progress::last_done;
use crate::progress::lemma_chunked_begins;
use crate::progress::lemma_chunked_joins;
use crate::progress::lemma_chunked_with;
use crate::progress::lemma_totals_go_on;
use crate::progress::lemma_totals_with;
use crate::progress::totals_are;
use crate::progress::lemma_goes_on_begins;
use crate::progress::lemma_goes_on_is_steady;
use crate::progress::lemma_goes_on_joins;
use crate::progress::lemma_goes_on_with;
use crate::progress::no_less;
use crate::progress::lemma_goes_on_within;
use crate::progress::ask;
use crate::progress::asked;
use crate::progress::heeds;
use crate::progress::lemma_heeds_begins;
use crate::progress::keeps_pace;
use crate::progress::lemma_heeds_joins;
use crate::progress::lemma_pace_begins;
use crate::progress::lemma_pace_goes_on;
use crate::progress::lemma_pace_step;
use crate::progress::Observer;
use crate::progress::Reading;
use crate::store::is_noted;
use crate::store::lemma_same_except_twice;
use crate::store::same_except;
use crate::store::ImageStore;
use crate::text::after_last;
use crate::text::before_first;
use crate::text::chars_of;
use crate::text::decimal;
use crate::text::ends_with;
use crate::text::first_word;
use crate::text::has_suffix;
use crate::text::hex_lower;
use crate::text::is_hex_char;
use crate::text::is_hex_digit;
use crate::text::is_space;
use crate::text::is_whitespace;
use crate::text::leading_space;
use crate::text::leading_word;
use crate::text::lemma_first_index;
use crate::text::lemma_first_word;
use crate::text::lemma_tail_start;
use crate::text::lower;
use crate::text::lower_char;
use crate::text::same_text;
use crate::text::to_ascii_lower;
use crate::text::to_decimal;
use crate::text::to_hex;
use crate::text::without_suffix;
use crate::transport::is_success;
use crate::transport::serves_the_same;
use crate::transport::status_is_success;
use crate::transport::Page;
use crate::transport::Transport;
use vstd::prelude::*;

verus! {

/// Progress of one download, as its worker keeps it.
pub struct DownloadState {
    /// Size that the server declared, 0 if it declared none.
    pub total_bytes: u64,
    /// Bytes received so far.
    pub downloaded_bytes: u64,
    /// The downloaded file is being checked against its digest.
    pub is_verifying_sha: bool,
    /// The downloaded file is being decompressed.
    pub is_decompressing: bool,
    /// The operation saw a request to stop.
    pub is_cancelled: bool,
    /// Message of the last error, if any.
    pub error: Option<String>,
    /// Where the last finished download lies.
    pub output_path: Option<String>,
    /// The numbers that the observer was shown since the state was last
    /// reset, first to last.
    pub shown: Ghost<Seq<Reading>>,
}

impl DownloadState {
    /// Counters at zero and flags down.
    pub open spec fn is_at_rest(self) -> bool {
        &&& self.total_bytes == 0
        &&& self.downloaded_bytes == 0
        &&& !self.is_verifying_sha
        &&& !self.is_decompressing
        &&& !self.is_cancelled
    }

    /// The state of an operation that has not begun: at rest, and nothing
    /// was shown of it.
    pub open spec fn is_fresh(self) -> bool {
        self.is_at_rest() && self.shown@ == Seq::<Reading>::empty()
    }

    /// The numbers of the state as they are now.
    pub open spec fn reading(self) -> Reading {
        Reading { total: self.total_bytes, done: self.downloaded_bytes, checked: 0 }
    }

    /// Shows the observer the state as it is now.  What the observer is
    /// shown is noted in the state, which otherwise stays as it is.
    pub fn show<O: Observer<DownloadState>>(&mut self, observer: &O)
        ensures
            final(self).shown@ == old(self).shown@.push(old(self).reading()),
            final(self).total_bytes == old(self).total_bytes,
            final(self).downloaded_bytes == old(self).downloaded_bytes,
            final(self).is_verifying_sha == old(self).is_verifying_sha,
            final(self).is_decompressing == old(self).is_decompressing,
            final(self).is_cancelled == old(self).is_cancelled,
            final(self).error == old(self).error,
            final(self).output_path == old(self).output_path,
    {
        proof {
            self.shown@ = self.shown@.push(self.reading());
        }
        observer.publish(self);
    }

    /// State of a slot in which no operation has run yet.
    pub fn new() -> (state: DownloadState)
        ensures
            state.is_fresh(),
            state.error is None,
            state.output_path is None,
    {
        DownloadState {
            total_bytes: 0,
            downloaded_bytes: 0,
            is_verifying_sha: false,
            is_decompressing: false,
            is_cancelled: false,
            error: None,
            output_path: None,
            shown: Ghost(Seq::empty()),
        }
    }

    /// Makes the slot ready for a new operation: counters at zero, flags
    /// down, nothing shown yet.  The last error and the last output path
    /// stay until they are replaced.
    pub fn reset(&mut self)
        ensures
            final(self).is_fresh(),
            final(self).error == old(self).error,
            final(self).output_path == old(self).output_path,
    {
        self.shown = Ghost(Seq::empty());
        self.total_bytes = 0;
        self.downloaded_bytes = 0;
        self.is_verifying_sha = false;
        self.is_decompressing = false;
        self.is_cancelled = false;
    }
}

impl Default for DownloadState {
    fn default() -> (state: DownloadState)
        ensures
            state.is_fresh(),
            state.error is None,
            state.output_path is None,
    {
        DownloadState::new()
    }
}

/// The file name that a URL ends in: the last segment of its path, the
/// query left aside.
pub open spec fn url_filename(url: Seq<char>) -> Seq<char> {
    after_last(before_first(url, '?'), '/')
}

/// Why a URL or a digest file was not accepted, or a check did not pass.
#[derive(Debug)]
pub enum DownloadError {
    /// The operation was asked to stop.
    Cancelled,
    /// The URL's path ends in `/` or is empty: it names no file.
    InvalidUrl,
    /// The digest file holds nothing but white space.
    InvalidShaFile,
    /// The first word of the digest file is not 64 hexadecimal digits.
    InvalidShaFormat { hash: String },
    /// The file's digest is not the published one.
    ShaMismatch { expected: String, actual: String },
    /// Reading the downloaded file failed.
    FileRead { detail: String },
    /// The request for the image could not be made.
    Connect { detail: String },
    /// The server answered the request for the image with this status.
    HttpStatus { status: u16 },
    /// The temporary file could not be created.
    CreateTemp { detail: String },
    /// The transfer broke off.
    Transfer { detail: String },
    /// Writing the temporary file failed.
    Write { detail: String },
    /// The request for the digest file could not be made.
    ShaFetch { detail: String },
    /// The server answered the request for the digest file with this
    /// status.
    ShaStatus { status: u16 },
    /// The downloaded file could not be decompressed.
    Decompress { cause: DecompressError },
    /// The temporary file could not be given its final name.
    Move { detail: String },
    /// There is no downloaded file to go on with.
    NothingToContinue,
}

impl DownloadError {
    /// What the error says, in words.  A failed digest check is introduced
    /// as such.
    pub open spec fn text(self) -> Seq<char> {
        match self {
            DownloadError::Cancelled => "Download cancelled"@,
            DownloadError::InvalidUrl => "Invalid URL: no filename"@,
            DownloadError::InvalidShaFile => "SHA256 verification failed: Invalid SHA file format"@,
            DownloadError::InvalidShaFormat { hash } =>
                "SHA256 verification failed: Invalid SHA256 hash format: "@ + hash@,
            DownloadError::ShaMismatch { expected, actual } =>
                "SHA256 verification failed: SHA256 mismatch: expected "@ + expected@ + ", got "@
                    + actual@,
            DownloadError::FileRead { detail } =>
                "SHA256 verification failed: Failed to read file for SHA: "@ + detail@,
            DownloadError::Connect { detail } => "Failed to start download: "@ + detail@,
            DownloadError::HttpStatus { status } => "Download failed with status: "@ + decimal(
                status as nat,
            ),
            DownloadError::CreateTemp { detail } => "Failed to create temp file: "@ + detail@,
            DownloadError::Transfer { detail } => "Download error: "@ + detail@,
            DownloadError::Write { detail } => "Failed to write chunk: "@ + detail@,
            DownloadError::ShaFetch { detail } =>
                "SHA256 verification failed: Failed to fetch SHA: "@ + detail@,
            DownloadError::ShaStatus { status } =>
                "SHA256 verification failed: SHA fetch failed with status: "@ + decimal(
                    status as nat,
                ),
            DownloadError::Decompress { cause } => cause.text(),
            DownloadError::Move { detail } => "Failed to move file: "@ + detail@,
            DownloadError::NothingToContinue => "No downloaded file to continue with"@,
        }
    }

    /// The error as a message for the user.
    pub fn message(&self) -> (message: String)
        ensures
            message@ == self.text(),
    {
        match self {
            DownloadError::Cancelled => "Download cancelled".to_owned(),
            DownloadError::InvalidUrl => "Invalid URL: no filename".to_owned(),
            DownloadError::InvalidShaFile => "SHA256 verification failed: Invalid SHA file format".to_owned(),
            DownloadError::InvalidShaFormat { hash } => {
                let mut message =
                    "SHA256 verification failed: Invalid SHA256 hash format: ".to_owned();
                message.append(hash.as_str());
                message
            },
            DownloadError::ShaMismatch { expected, actual } => {
                let mut message =
                    "SHA256 verification failed: SHA256 mismatch: expected ".to_owned();
                message.append(expected.as_str());
                message.append(", got ");
                message.append(actual.as_str());
                message
            },
            DownloadError::FileRead { detail } => {
                let mut message =
                    "SHA256 verification failed: Failed to read file for SHA: ".to_owned();
                message.append(detail.as_str());
                message
            },
            DownloadError::Connect { detail } => {
                let mut message = "Failed to start download: ".to_owned();
                message.append(detail.as_str());
                message
            },
            DownloadError::HttpStatus { status } => {
                let mut message = "Download failed with status: ".to_owned();
                let number = to_decimal(*status as u64);
                message.append(number.as_str());
                message
            },
            DownloadError::CreateTemp { detail } => {
                let mut message = "Failed to create temp file: ".to_owned();
                message.append(detail.as_str());
                message
            },
            DownloadError::Transfer { detail } => {
                let mut message = "Download error: ".to_owned();
                message.append(detail.as_str());
                message
            },
            DownloadError::Write { detail } => {
                let mut message = "Failed to write chunk: ".to_owned();
                message.append(detail.as_str());
                message
            },
            DownloadError::ShaFetch { detail } => {
                let mut message = "SHA256 verification failed: Failed to fetch SHA: ".to_owned();
                message.append(detail.as_str());
                message
            },
            DownloadError::ShaStatus { status } => {
                let mut message =
                    "SHA256 verification failed: SHA fetch failed with status: ".to_owned();
                let number = to_decimal(*status as u64);
                message.append(number.as_str());
                message
            },
            DownloadError::Decompress { cause } => cause.message(),
            DownloadError::Move { detail } => {
                let mut message = "Failed to move file: ".to_owned();
                message.append(detail.as_str());
                message
            },
            DownloadError::NothingToContinue => "No downloaded file to continue with".to_owned(),
        }
    }
}

/// The file name at the end of `url`, or `InvalidUrl` if there is none.
pub fn extract_filename(url: &str) -> (result: Result<&str, DownloadError>)
    ensures
        match result {
            Ok(name) => name@ == url_filename(url@) && name@.len() > 0,
            Err(e) => e == DownloadError::InvalidUrl && url_filename(url@).len() == 0,
        },
{
    let chars = chars_of(url);
    let mut end: usize = 0;
    while end < chars.len() && chars[end] != '?'
        invariant
            0 <= end <= chars.len(),
            forall|j: int| 0 <= j < end ==> chars[j] != '?',
        decreases chars.len() - end,
    {
        end += 1;
    }
    let mut start: usize = end;
    while start > 0 && chars[start - 1] != '/'
        invariant
            0 <= start <= end <= chars.len(),
            forall|j: int| start <= j < end ==> chars[j] != '/',
        decreases start,
    {
        start -= 1;
    }
    proof {
        lemma_first_index(chars@, '?', end as int);
        let path = chars@.take(end as int);
        lemma_tail_start(path, '/', start as int);
        assert(path.skip(start as int) =~= chars@.subrange(start as int, end as int));
    }
    if start == end {
        Err(DownloadError::InvalidUrl)
    } else {
        Ok(url.substring_char(start, end))
    }
}

/// Is `word` a SHA-256 digest in hexadecimal: 64 digits and nothing else?
pub open spec fn is_sha256_hex(word: Seq<char>) -> bool {
    word.len() == 64 && forall|i: int| 0 <= i < word.len() ==> is_hex_char(word[i])
}

/// Is `result` what reading the digest file `content` has to give?  The
/// digest is the first word of the file in lower case; a file without a
/// word and a word that is no digest are told apart, and the rejected word
/// comes back in lower case.
pub open spec fn is_published_digest(content: Seq<char>, result: Result<String, DownloadError>) -> bool {
    let word = first_word(content);
    match result {
        Ok(digest) => is_sha256_hex(word) && digest@ == lower(word),
        Err(DownloadError::InvalidShaFile) => word.len() == 0,
        Err(DownloadError::InvalidShaFormat { hash }) => {
            &&& word.len() > 0
            &&& !is_sha256_hex(word)
            &&& hash@ == lower(word)
        },
        Err(_) => false,
    }
}

/// Reads the digest that a digest file publishes.
///
/// The file has the form `<digest>  <file name>` or `<digest> *<file
/// name>`.  Its first word is taken, put in lower case and accepted if it
/// is exactly 64 hexadecimal digits.
pub fn parse_expected_sha(content: &str) -> (result: Result<String, DownloadError>)
    ensures
        is_published_digest(content@, result),
{
    let chars = chars_of(content);
    let mut start: usize = 0;
    proof {
        assert(chars@.skip(0) =~= chars@);
    }
    while start < chars.len() && is_whitespace(chars[start])
        invariant
            0 <= start <= chars.len(),
            leading_space(chars@) == start + leading_space(chars@.skip(start as int)),
        decreases chars.len() - start,
    {
        proof {
            assert(chars@.skip(start as int).drop_first() =~= chars@.skip(start + 1));
        }
        start += 1;
    }
    let ghost rest = chars@.skip(start as int);
    let mut end: usize = start;
    while end < chars.len() && !is_whitespace(chars[end])
        invariant
            start <= end <= chars.len(),
            rest == chars@.skip(start as int),
            leading_word(rest) == (end - start) + leading_word(chars@.skip(end as int)),
        decreases chars.len() - end,
    {
        proof {
            assert(chars@.skip(end as int).drop_first() =~= chars@.skip(end + 1));
        }
        end += 1;
    }
    let ghost word = first_word(chars@);
    proof {
        assert(word =~= chars@.subrange(start as int, end as int));
    }
    if start == end {
        return Err(DownloadError::InvalidShaFile);
    }
    let mut hash = String::new();
    let mut all_hex: bool = true;
    let mut i: usize = start;
    while i < end
        invariant
            start <= i <= end <= chars.len(),
            word == chars@.subrange(start as int, end as int),
            hash@ == lower(word.take(i - start)),
            all_hex <==> forall|j: int| 0 <= j < i - start ==> is_hex_char(word[j]),
        decreases end - i,
    {
        let c: char = chars[i];
        if !is_hex_digit(c) {
            all_hex = false;
        }
        hash.push(to_ascii_lower(c));
        proof {
            assert(word[i - start] == c);
            assert(hash@ =~= lower(word.take(i + 1 - start)));
        }
        i += 1;
    }
    proof {
        assert(word.take(end - start) =~= word);
    }
    if end - start != 64 || !all_hex {
        return Err(DownloadError::InvalidShaFormat { hash });
    }
    Ok(hash)
}

/// Computes the SHA-256 digest of what `file` has yet to deliver and
/// returns it as 64 lower-case hexadecimal digits.  The file is read in
/// blocks of 8 KiB, and before each block the observer is asked whether to
/// stop.
#[verifier::loop_isolation(false)]
pub fn calculate_file_sha256<R: VerificationReader, O: Observer<DownloadState>>(
    file: &mut R,
    observer: &mut O,
) -> (result: Result<String, DownloadError>)
    ensures
        final(file).can_fail() == old(file).can_fail(),
        final(file).intact() == old(file).intact(),
        match result {
            Ok(hash) => {
                &&& hash@ == hex_lower(sha256(old(file).remaining()))
                &&& hash@.len() == 64
                &&& final(file).remaining().len() == 0
                &&& final(file).passed() == old(file).passed() + old(file).remaining()
            },
            Err(DownloadError::Cancelled) => old(observer).can_cancel(),
            Err(DownloadError::FileRead { detail }) => old(file).can_fail() || !old(file).intact(),
            Err(_) => false,
        },
        old(observer).must_cancel() ==> result is Err && result->Err_0 is Cancelled,
        final(observer).can_cancel() == old(observer).can_cancel(),
        final(observer).must_cancel() == old(observer).must_cancel(),
        heeds(old(observer).answers(), final(observer).answers(), result is Err && result->Err_0 is Cancelled),
        result is Ok ==> keeps_pace(
            old(observer).answers(),
            final(observer).answers(),
            old(file).remaining().len(),
            crate::config::download::HASH_BUFFER_SIZE as nat,
            false,
        ),
{
    let ghost begun = observer.answers();
    proof {
        lemma_heeds_begins(begun);
        lemma_pace_begins(begun, crate::config::download::HASH_BUFFER_SIZE as nat);
    }
    let ghost data = file.remaining();
    let mut hasher = hasher_new();
    let mut at_end: bool = false;
    proof {
        assert(data.take(0) =~= Seq::<u8>::empty());
        assert(data.skip(0) =~= data);
        assert(file.passed() + data.take(0) =~= file.passed());
    }
    while !at_end
        invariant
            begun == old(observer).answers(),
            observer.can_cancel() == old(observer).can_cancel(),
            observer.must_cancel() == old(observer).must_cancel(),
            heeds(begun, observer.answers(), false),
            hashed(hasher).len() <= asked(begun, observer.answers()) * crate::config::download::HASH_BUFFER_SIZE,
            hashed(hasher).len() <= data.len(),
            hashed(hasher) == data.take(hashed(hasher).len() as int),
            file.remaining() == data.skip(hashed(hasher).len() as int),
            file.passed() == old(file).passed() + hashed(hasher),
            file.can_fail() == old(file).can_fail(),
            file.intact() == old(file).intact(),
            at_end ==> hashed(hasher) == data,
            observer.must_cancel() ==> !at_end,
        decreases (if at_end { 0int } else { 1int }), data.len() - hashed(hasher).len(),
    {
        let ghost polls = asked(begun, observer.answers());
        proof {
            lemma_pace_step(polls, crate::config::download::HASH_BUFFER_SIZE as nat, hashed(hasher).len() as nat, 0);
        }
        if ask::<DownloadState, O>(observer, Ghost(begun)) {
            return Err(DownloadError::Cancelled);
        }
        let block = match file.read(crate::config::download::HASH_BUFFER_SIZE) {
            Ok(block) => block,
            Err(detail) => {
                return Err(DownloadError::FileRead { detail });
            },
        };
        if block.len() == 0 {
            at_end = true;
            proof {
                assert(hashed(hasher) =~= data);
            }
        } else {
            let ghost fed = hashed(hasher);
            proof {
                lemma_pace_step(polls, crate::config::download::HASH_BUFFER_SIZE as nat, fed.len(), block.len() as nat);
            }
            hasher_update(&mut hasher, block.as_slice());
            proof {
                assert(hashed(hasher) =~= data.take(fed.len() + block.len()));
                assert(data.skip(fed.len() as int).skip(block.len() as int) =~= data.skip(
                    fed.len() + block.len(),
                ));
                assert(old(file).passed() + fed + block@ =~= old(file).passed() + hashed(
                    hasher,
                ));
            }
        }
    }
    let digest = hasher_finalize(hasher);
    proof {
        assert(data.skip(data.len() as int) =~= Seq::<u8>::empty());
    }
    Ok(to_hex(&digest))
}

/// Is `result` what checking a file with the SHA-256 digest `digest`
/// against the digest file `content` has to give?  Results that are no
/// verdict on the digest satisfy this always.
pub open spec fn is_sha_verdict(
    content: Seq<char>,
    digest: Seq<u8>,
    result: Result<(), DownloadError>,
) -> bool {
    let word = first_word(content);
    match result {
        Ok(_) => is_sha256_hex(word) && lower(word) == hex_lower(digest),
        Err(DownloadError::ShaMismatch { expected, actual }) => {
            &&& is_sha256_hex(word)
            &&& expected@ == lower(word)
            &&& actual@ == hex_lower(digest)
            &&& expected@ != actual@
        },
        Err(DownloadError::InvalidShaFile) => word.len() == 0,
        Err(DownloadError::InvalidShaFormat { hash }) => {
            &&& word.len() > 0
            &&& !is_sha256_hex(word)
            &&& hash@ == lower(word)
        },
        Err(_) => true,
    }
}

/// Does `error` tell how the digest check came out, rather than that it
/// could not be made?
pub open spec fn is_sha_failure(error: DownloadError) -> bool {
    error is ShaMismatch || error is InvalidShaFile || error is InvalidShaFormat
}

/// Checks a downloaded file against the digest file that was published for
/// it.
///
/// `sha_file` is the text of the digest file.  The observer is asked
/// whether to stop before the digest file is read and again before the
/// file is hashed.  A digest that differs is an error that carries both
/// digests; it is never retried or passed over.
pub fn verify_sha256<R: VerificationReader, O: Observer<DownloadState>>(
    file: &mut R,
    sha_file: &str,
    observer: &mut O,
) -> (result: Result<(), DownloadError>)
    ensures
        final(file).can_fail() == old(file).can_fail(),
        final(file).intact() == old(file).intact(),
        is_sha_verdict(sha_file@, sha256(old(file).remaining()), result),
        match result {
            Ok(_) => true,
            Err(DownloadError::Cancelled) => old(observer).can_cancel(),
            Err(DownloadError::FileRead { detail }) => old(file).can_fail() || !old(file).intact(),
            Err(e) => is_sha_failure(e),
        },
        old(observer).must_cancel() ==> result is Err && result->Err_0 is Cancelled,
        final(observer).can_cancel() == old(observer).can_cancel(),
        final(observer).must_cancel() == old(observer).must_cancel(),
        heeds(old(observer).answers(), final(observer).answers(), result is Err && result->Err_0 is Cancelled),
{
    let ghost begun = observer.answers();
    proof {
        lemma_heeds_begins(begun);
    }
    if ask::<DownloadState, O>(observer, Ghost(begun)) {
        return Err(DownloadError::Cancelled);
    }
    let expected = match parse_expected_sha(sha_file) {
        Ok(expected) => expected,
        Err(e) => {
            return Err(e);
        },
    };
    if ask::<DownloadState, O>(observer, Ghost(begun)) {
        return Err(DownloadError::Cancelled);
    }
    let ghost asked_mid = observer.answers();
    let hashed_it = calculate_file_sha256(file, observer);
    proof {
        lemma_heeds_joins(
            begun,
            asked_mid,
            observer.answers(),
            hashed_it is Err && hashed_it->Err_0 is Cancelled,
        );
    }
    let actual = match hashed_it {
        Ok(actual) => actual,
        Err(e) => {
            return Err(e);
        },
    };
    if same_text(expected.as_str(), actual.as_str()) {
        Ok(())
    } else {
        Err(DownloadError::ShaMismatch { expected, actual })
    }
}

/// A digest file of the form `<64 hexadecimal digits>  <file name>` whose
/// digits are the file's digest verifies the file: the comparison cannot
/// come out as a failure.
pub proof fn lemma_matching_digest_verifies(
    word: Seq<char>,
    rest: Seq<char>,
    digest: Seq<u8>,
    result: Result<(), DownloadError>,
)
    requires
        is_sha256_hex(word),
        lower(word) == hex_lower(digest),
        rest.len() == 0 || is_space(rest[0]),
        is_sha_verdict(word + rest, digest, result),
    ensures
        !(result is Err && is_sha_failure(result->Err_0)),
{
    lemma_digest_line(word, rest);
}

/// The first word of a line that begins with hexadecimal digits and goes
/// on with white space, or ends, is the run of digits.
pub proof fn lemma_digest_line(word: Seq<char>, rest: Seq<char>)
    requires
        word.len() > 0,
        forall|i: int| 0 <= i < word.len() ==> is_hex_char(word[i]),
        rest.len() == 0 || is_space(rest[0]),
    ensures
        first_word(word + rest) == word,
{
    let line = word + rest;
    assert forall|j: int| 0 <= j < word.len() implies !is_space(line[j]) by {
        assert(line[j] == word[j]);
        assert(is_hex_char(word[j]));
    }
    if rest.len() > 0 {
        assert(line[word.len() as int] == rest[0]);
    }
    lemma_first_word(line, 0, word.len() as int);
    assert(line.subrange(0, word.len() as int) =~= word);
}

/// Changing one character of the digest in a digest file makes
/// verification fail, unless the change only turns a letter into its other
/// case, which the comparison does not tell apart.
pub proof fn lemma_mutated_digest_fails(
    word: Seq<char>,
    rest: Seq<char>,
    at: int,
    changed: char,
    digest: Seq<u8>,
    result: Result<(), DownloadError>,
)
    requires
        is_sha256_hex(word),
        lower(word) == hex_lower(digest),
        rest.len() == 0 || is_space(rest[0]),
        0 <= at < word.len(),
        lower_char(changed) != lower_char(word[at]),
        is_sha_verdict(word.update(at, changed) + rest, digest, result),
    ensures
        !(result is Ok),
{
    let mutated = word.update(at, changed);
    let line = mutated + rest;
    assert forall|j: int| 0 <= j < word.len() && j != at implies !is_space(#[trigger] line[j]) by {
        assert(line[j] == word[j]);
        assert(is_hex_char(word[j]));
    }
    assert(line[at] == changed);
    if rest.len() > 0 {
        assert(line[word.len() as int] == rest[0]);
    }
    if !is_space(changed) {
        lemma_first_word(line, 0, word.len() as int);
        assert(line.subrange(0, word.len() as int) =~= mutated);
        assert(lower(mutated)[at] != lower(word)[at]);
    } else if at == 0 {
        lemma_first_word(line, 1, word.len() as int);
        assert(line.subrange(1, word.len() as int).len() == 63);
    } else {
        lemma_first_word(line, 0, at);
        assert(line.subrange(0, at).len() < 64);
    }
}

/// The name under which a download is kept: the file name without the
/// `.xz` at its end, if it ends so.  This is the key by which the cache
/// knows the image.
pub open spec fn cache_key(filename: Seq<char>) -> Seq<char> {
    without_suffix(filename, CompressionFormat::Xz.suffix())
}

/// The name of the file that holds a download while it is under way.
pub open spec fn temp_name(filename: Seq<char>) -> Seq<char> {
    filename + ".downloading"@
}

/// The temporary file is neither the final file nor the download as the
/// server names it.
pub proof fn lemma_temp_name_differs(filename: Seq<char>)
    ensures
        temp_name(filename) != cache_key(filename),
        temp_name(filename) != filename,
{
    reveal_strlit(".downloading");
    assert(cache_key(filename).len() <= filename.len());
    assert(temp_name(filename).len() > filename.len());
}

/// The cache key of a file name.
pub fn output_name(filename: &str) -> (output: &str)
    ensures
        output@ == cache_key(filename@),
{
    let chars = chars_of(filename);
    let n: usize = chars.len();
    proof {
        assert(chars@.take(n as int) =~= chars@);
    }
    let suffix = CompressionFormat::Xz.suffix_chars();
    let m: usize = if has_suffix(&chars, n, &suffix) {
        n - suffix.len()
    } else {
        n
    };
    proof {
        assert(chars@.subrange(0, m as int) =~= chars@.take(m as int));
    }
    filename.substring_char(0, m)
}

/// The name of the temporary file of a download.
pub fn temp_filename(filename: &str) -> (temp: String)
    ensures
        temp@ == temp_name(filename@),
{
    let mut temp = filename.to_owned();
    temp.append(crate::config::images::DOWNLOAD_SUFFIX);
    temp
}

/// Does the file name say that the download is xz-compressed?
pub fn is_xz_name(filename: &str) -> (xz: bool)
    ensures
        xz == ends_with(filename@, CompressionFormat::Xz.suffix()),
{
    let chars = chars_of(filename);
    let n: usize = chars.len();
    proof {
        assert(chars@.take(n as int) =~= chars@);
    }
    has_suffix(&chars, n, &CompressionFormat::Xz.suffix_chars())
}

/// Shows the observer the state, whose log goes on from `before`.
fn show_next<O: Observer<DownloadState>>(
    state: &mut DownloadState,
    observer: &O,
    Ghost(before): Ghost<Seq<Reading>>,
    Ghost(low): Ghost<Reading>,
)
    requires
        goes_on(before, old(state).shown@, low, old(state).reading()),
    ensures
        goes_on(before, final(state).shown@, low, final(state).reading()),
        final(state).shown@ == old(state).shown@.push(old(state).reading()),
        final(state).total_bytes == old(state).total_bytes,
        final(state).downloaded_bytes == old(state).downloaded_bytes,
        final(state).is_verifying_sha == old(state).is_verifying_sha,
        final(state).is_decompressing == old(state).is_decompressing,
        final(state).is_cancelled == old(state).is_cancelled,
        final(state).error == old(state).error,
        final(state).output_path == old(state).output_path,
{
    proof {
        lemma_goes_on_with(before, state.shown@, low, state.reading(), state.reading());
    }
    state.show(observer);
}

/// Streams the body of an answer into the file `temp`, a chunk at a time.
///
/// The file is created empty first.  Before each chunk the observer is
/// asked whether to stop; if so the partial file is removed.  After each
/// chunk `state.downloaded_bytes` tells how many bytes have arrived (it
/// stays at the largest number it can hold should more arrive), and the
/// observer is shown the state, so that what it sees is never behind by
/// more than the chunk that is under way.
#[verifier::loop_isolation(false)]
pub fn receive_body<B: VerificationReader, S: ImageStore, O: Observer<DownloadState>>(
    body: &mut B,
    store: &mut S,
    temp: &str,
    state: &mut DownloadState,
    observer: &mut O,
) -> (result: Result<(), DownloadError>)
    ensures
        final(store).can_fail() == old(store).can_fail(),
        final(store).has_sound_tool() == old(store).has_sound_tool(),
        final(store).used() == old(store).used(),
        final(state).total_bytes == old(state).total_bytes,
        final(state).is_verifying_sha == old(state).is_verifying_sha,
        final(state).is_decompressing == old(state).is_decompressing,
        final(state).error == old(state).error,
        final(state).output_path == old(state).output_path,
        final(state).downloaded_bytes <= old(body).remaining().len(),
        goes_on(
            old(state).shown@,
            final(state).shown@,
            Reading { total: old(state).total_bytes, done: 0, checked: 0 },
            final(state).reading(),
        ),
        match result {
            Ok(_) => {
                &&& old(body).intact()
                &&& final(store).files() == old(store).files().insert(
                    temp@,
                    old(body).remaining(),
                )
                &&& final(state).is_cancelled == old(state).is_cancelled
                &&& final(state).downloaded_bytes == if old(body).remaining().len() <= u64::MAX {
                    old(body).remaining().len() as u64
                } else {
                    u64::MAX
                }
            },
            Err(error) => {
                &&& same_except(old(store).files(), final(store).files(), temp@)
                &&& match error {
                    DownloadError::Cancelled => {
                        &&& old(observer).can_cancel()
                        &&& final(state).is_cancelled
                        &&& !old(store).can_fail() ==> !final(store).files().contains_key(temp@)
                    },
                    DownloadError::CreateTemp { detail } => old(store).can_fail(),
                    DownloadError::Write { detail } => old(store).can_fail(),
                    DownloadError::Transfer { detail } => old(body).can_fail() || !old(
                        body,
                    ).intact(),
                    _ => false,
                }
            },
        },
        old(observer).must_cancel() ==> result is Err && (result->Err_0 is Cancelled
            || result->Err_0 is CreateTemp),
        final(observer).can_cancel() == old(observer).can_cancel(),
        final(observer).must_cancel() == old(observer).must_cancel(),
        heeds(old(observer).answers(), final(observer).answers(), result is Err && result->Err_0 is Cancelled),
        keeps_pace(
            old(observer).answers(),
            final(observer).answers(),
            final(state).downloaded_bytes as nat,
            crate::config::download::BUFFER_SIZE as nat,
            result is Err && result->Err_0 is Cancelled,
        ),
        is_chunked(
            old(state).shown@,
            final(state).shown@,
            0,
            crate::config::download::BUFFER_SIZE as nat,
        ),
        last_done(old(state).shown@, final(state).shown@, 0) == final(state).downloaded_bytes,
        final(state).shown@.len() > old(state).shown@.len() ==> final(state).shown@.last()
            == final(state).reading(),
{
    let ghost begun = observer.answers();
    proof {
        lemma_heeds_begins(begun);
        lemma_pace_begins(begun, crate::config::download::BUFFER_SIZE as nat);
    }
    let ghost before = store.files();
    let ghost content = body.remaining();
    state.downloaded_bytes = 0;
    let ghost shown_before = state.shown@;
    let ghost low = state.reading();
    proof {
        lemma_goes_on_begins(shown_before, low);
        lemma_chunked_begins(shown_before, 0, crate::config::download::BUFFER_SIZE as nat);
    }
    match store.create(temp) {
        Ok(_) => {},
        Err(detail) => {
            return Err(DownloadError::CreateTemp { detail });
        },
    }
    let ghost mut copied: nat = 0;
    let mut downloaded: u64 = 0;
    let mut at_end: bool = false;
    proof {
        assert(content.take(0) =~= Seq::<u8>::empty());
        assert(content.skip(0) =~= content);
    }
    while !at_end
        invariant
            begun == old(observer).answers(),
            observer.can_cancel() == old(observer).can_cancel(),
            observer.must_cancel() == old(observer).must_cancel(),
            heeds(begun, observer.answers(), false),
            copied <= asked(begun, observer.answers()) * crate::config::download::BUFFER_SIZE,
            copied <= content.len(),
            downloaded == if copied <= u64::MAX {
                copied as u64
            } else {
                u64::MAX
            },
            state.downloaded_bytes == downloaded,
            state.total_bytes == old(state).total_bytes,
            state.is_verifying_sha == old(state).is_verifying_sha,
            state.is_decompressing == old(state).is_decompressing,
            state.is_cancelled == old(state).is_cancelled,
            state.error == old(state).error,
            state.output_path == old(state).output_path,
            body.remaining() == content.skip(copied as int),
            body.can_fail() == old(body).can_fail(),
            body.intact() == old(body).intact(),
            store.can_fail() == old(store).can_fail(),
            store.has_sound_tool() == old(store).has_sound_tool(),
            store.used() == old(store).used(),
            store.files() == before.insert(temp@, content.take(copied as int)),
            at_end ==> copied == content.len() && body.intact(),
            observer.must_cancel() ==> !at_end,
            goes_on(shown_before, state.shown@, low, state.reading()),
            is_chunked(
                shown_before,
                state.shown@,
                0,
                crate::config::download::BUFFER_SIZE as nat,
            ),
            last_done(shown_before, state.shown@, 0) == state.downloaded_bytes,
            state.shown@.len() > shown_before.len() ==> state.shown@.last() == state.reading(),
        decreases (if at_end { 0int } else { 1int }), content.len() - copied,
    {
        let ghost polls = asked(begun, observer.answers());
        proof {
            lemma_pace_step(polls, crate::config::download::BUFFER_SIZE as nat, copied as nat, 0);
        }
        if ask::<DownloadState, O>(observer, Ghost(begun)) {
            state.is_cancelled = true;
            proof {
                lemma_chunked_with(
                    shown_before,
                    state.shown@,
                    0,
                    crate::config::download::BUFFER_SIZE as nat,
                    state.reading(),
                );
            }
            show_next(state, observer, Ghost(shown_before), Ghost(low));
            store.remove(temp);
            return Err(DownloadError::Cancelled);
        }
        let chunk = match body.read(crate::config::download::BUFFER_SIZE) {
            Ok(chunk) => chunk,
            Err(detail) => {
                return Err(DownloadError::Transfer { detail });
            },
        };
        if chunk.len() == 0 {
            at_end = true;
        } else {
            let ghost partial = store.files();
            match store.append(temp, chunk.as_slice()) {
                Ok(_) => {},
                Err(detail) => {
                    proof {
                        assert(partial.contains_key(temp@));
                        lemma_same_except_twice(before, partial, store.files(), temp@);
                    }
                    return Err(DownloadError::Write { detail });
                },
            }
            proof {
                assert(content.take(copied as int) + chunk@ =~= content.take(
                    copied + chunk.len(),
                ));
                assert(content.skip(copied as int).skip(chunk.len() as int) =~= content.skip(
                    copied + chunk.len(),
                ));
                assert(store.files() =~= before.insert(
                    temp@,
                    content.take(copied + chunk.len()),
                ));
                lemma_pace_step(polls, crate::config::download::BUFFER_SIZE as nat, copied, chunk.len() as nat);
                copied = copied + chunk.len() as nat;
            }
            downloaded = downloaded.saturating_add(chunk.len() as u64);
            let ghost reached = state.reading();
            state.downloaded_bytes = downloaded;
            proof {
                lemma_goes_on_within(
                    shown_before,
                    state.shown@,
                    low,
                    reached,
                    low,
                    state.reading(),
                );
            }
            proof {
                lemma_chunked_with(
                    shown_before,
                    state.shown@,
                    0,
                    crate::config::download::BUFFER_SIZE as nat,
                    state.reading(),
                );
            }
            show_next(state, observer, Ghost(shown_before), Ghost(low));
        }
    }
    proof {
        assert(content.take(content.len() as int) =~= content);
    }
    Ok(())
}

/// How checking the downloaded file `temp` against the digest file at
/// `sha_page` may end.
pub open spec fn is_check_outcome(
    files: Map<Seq<char>, Seq<u8>>,
    temp: Seq<char>,
    sha_page: Option<Page>,
    store_can_fail: bool,
    transport_can_fail: bool,
    can_cancel: bool,
    result: Result<(), DownloadError>,
) -> bool {
    match result {
        Err(DownloadError::Cancelled) => can_cancel,
        Err(DownloadError::ShaFetch { detail }) => sha_page is None || transport_can_fail,
        Err(DownloadError::ShaStatus { status }) => sha_page is Some && status
            == sha_page->0.status && !is_success(status),
        Err(DownloadError::FileRead { detail }) => !files.contains_key(temp) || store_can_fail,
        _ => {
            &&& sha_page is Some
            &&& is_success(sha_page->0.status)
            &&& files.contains_key(temp)
            &&& is_sha_verdict(sha_page->0.text, sha256(files[temp]), result)
            &&& result is Ok || is_sha_failure(result->Err_0)
        },
    }
}

/// Fetches the digest file from `sha_url` and checks the downloaded file
/// `temp` against it.
pub fn check_download<S: ImageStore, T: Transport, O: Observer<DownloadState>>(
    store: &S,
    transport: &mut T,
    temp: &str,
    sha_url: &str,
    observer: &mut O,
) -> (result: Result<(), DownloadError>)
    ensures
        is_check_outcome(
            store.files(),
            temp@,
            old(transport).page(sha_url@),
            store.can_fail(),
            old(transport).can_fail(),
            old(observer).can_cancel(),
            result,
        ),
        old(observer).must_cancel() ==> result is Err && result->Err_0 is Cancelled,
        serves_the_same(old(transport), final(transport)),
        final(transport).requested() == old(transport).requested()
            || final(transport).requested() == old(transport).requested().push(sha_url@),
        !(result is Err && result->Err_0 is Cancelled)
            ==> final(transport).requested() == old(transport).requested().push(sha_url@),
        old(observer).must_cancel() ==> final(transport).requested() == old(transport).requested(),
        final(observer).can_cancel() == old(observer).can_cancel(),
        final(observer).must_cancel() == old(observer).must_cancel(),
        heeds(old(observer).answers(), final(observer).answers(), result is Err && result->Err_0 is Cancelled),
{
    let ghost begun = observer.answers();
    proof {
        lemma_heeds_begins(begun);
    }
    if ask::<DownloadState, O>(observer, Ghost(begun)) {
        return Err(DownloadError::Cancelled);
    }
    let response = match transport.get_text(sha_url) {
        Ok(response) => response,
        Err(detail) => {
            return Err(DownloadError::ShaFetch { detail });
        },
    };
    if !status_is_success(response.status) {
        return Err(DownloadError::ShaStatus { status: response.status });
    }
    let mut file = match store.open(temp) {
        Ok(file) => file,
        Err(detail) => {
            return Err(DownloadError::FileRead { detail });
        },
    };
    let ghost asked_mid = observer.answers();
    let verdict = verify_sha256(&mut file, response.text.as_str(), observer);
    proof {
        lemma_heeds_joins(
            begun,
            asked_mid,
            observer.answers(),
            verdict is Err && verdict->Err_0 is Cancelled,
        );
    }
    verdict
}

/// The two directories hold the same files, except perhaps for `a` and
/// `b`.
pub open spec fn same_except_two(
    before: Map<Seq<char>, Seq<u8>>,
    after: Map<Seq<char>, Seq<u8>>,
    a: Seq<char>,
    b: Seq<char>,
) -> bool {
    forall|other: Seq<char>|
        #![trigger before.contains_key(other)]
        #![trigger after.contains_key(other)]
        other != a && other != b ==> (before.contains_key(other) == after.contains_key(other) && (
        before.contains_key(other) ==> before[other] == after[other]))
}

/// What a download works with.
pub struct DownloadSetting {
    /// The URL of the image.
    pub url: Seq<char>,
    /// The URL of the digest file, if one was given.
    pub sha_url: Option<Seq<char>>,
    /// The files of the directory before the download.
    pub files: Map<Seq<char>, Seq<u8>>,
    /// What the server holds under the URL of the image.
    pub page: Option<Page>,
    /// What the server holds under the URL of the digest file.
    pub sha_page: Option<Page>,
    /// An operation on the directory can fail.
    pub store_can_fail: bool,
    /// A request or a transfer can fail.
    pub transport_can_fail: bool,
    /// The observer can ask for the operation to stop.
    pub can_cancel: bool,
}

/// What a download leaves under the final name: the body as it came, or,
/// for a name that ends in `.xz`, the body decoded.
pub open spec fn delivered(filename: Seq<char>, body: Seq<u8>) -> Option<Seq<u8>> {
    if ends_with(filename, CompressionFormat::Xz.suffix()) {
        xz_decoded(body)
    } else {
        Some(body)
    }
}

/// The download has no digest file to pass, or its body has the digest that
/// the digest file publishes.
pub open spec fn passes_check(setting: DownloadSetting) -> bool {
    setting.sha_url is Some ==> {
        &&& setting.page is Some
        &&& setting.sha_page is Some
        &&& is_success(setting.sha_page->0.status)
        &&& is_sha_verdict(setting.sha_page->0.text, sha256(setting.page->0.body), Ok(()))
    }
}

/// How a download may end; `after` is the directory it leaves.
///
/// A URL without a file name is refused.  An image that lies in the
/// directory under its cache key is returned at once, and nothing is
/// fetched.  Otherwise success means: the server delivered the image, the
/// digest matched if a digest file was named, and the image lies under its
/// cache key, decoded if it came as xz.  No failure touches a file other
/// than the temporary and the final one, and a cancelled download leaves
/// neither behind.  A digest that does not match costs the download its
/// temporary file; a digest file that cannot be had leaves the temporary
/// file where it is, so that the download can be gone on with unverified.
pub open spec fn is_download_outcome(
    setting: DownloadSetting,
    after: Map<Seq<char>, Seq<u8>>,
    result: Result<String, DownloadError>,
) -> bool {
    let filename = url_filename(setting.url);
    let output = cache_key(filename);
    let temp = temp_name(filename);
    if filename.len() == 0 {
        result is Err && result->Err_0 is InvalidUrl && after == setting.files
    } else if setting.files.contains_key(output) {
        result is Ok && result->Ok_0@ == output && after == setting.files
    } else {
        &&& same_except_two(setting.files, after, temp, output)
        &&& match result {
            Ok(name) => {
                &&& name@ == output
                &&& setting.page is Some
                &&& is_success(setting.page->0.status)
                &&& passes_check(setting)
                &&& delivered(filename, setting.page->0.body) is Some
                &&& after.contains_key(output)
                &&& after[output] == delivered(filename, setting.page->0.body)->0
                &&& !setting.store_can_fail ==> !after.contains_key(temp)
            },
            Err(DownloadError::InvalidUrl) => false,
            Err(DownloadError::Cancelled) => {
                &&& setting.can_cancel
                &&& !setting.store_can_fail ==> !after.contains_key(temp) && !after.contains_key(
                    output,
                )
            },
            Err(DownloadError::Connect { detail }) => {
                &&& setting.page is None || setting.transport_can_fail
                &&& after == setting.files
            },
            Err(DownloadError::HttpStatus { status }) => {
                &&& setting.page is Some
                &&& status == setting.page->0.status
                &&& !is_success(status)
                &&& after == setting.files
            },
            Err(DownloadError::CreateTemp { detail }) => setting.store_can_fail,
            Err(DownloadError::Write { detail }) => setting.store_can_fail,
            Err(DownloadError::Move { detail }) => setting.store_can_fail && passes_check(
                setting,
            ),
            Err(DownloadError::NothingToContinue) => false,
            Err(DownloadError::ShaFetch { detail }) => {
                &&& setting.sha_url is Some
                &&& setting.page is Some
                &&& setting.sha_page is None || setting.transport_can_fail
                &&& after == setting.files.insert(temp, setting.page->0.body)
            },
            Err(DownloadError::ShaStatus { status }) => {
                &&& setting.sha_url is Some
                &&& setting.page is Some
                &&& setting.sha_page is Some
                &&& status == setting.sha_page->0.status
                &&& !is_success(status)
                &&& after == setting.files.insert(temp, setting.page->0.body)
            },
            Err(DownloadError::Transfer { detail }) => setting.transport_can_fail,
            Err(DownloadError::Decompress { cause }) => {
                &&& ends_with(filename, CompressionFormat::Xz.suffix())
                &&& setting.page is Some
                &&& setting.store_can_fail || xz_decoded(setting.page->0.body) is None
                &&& !(cause is Cancelled)
                &&& passes_check(setting)
            },
            Err(error) => {
                &&& setting.sha_url is Some
                &&& setting.page is Some
                &&& is_check_outcome(
                    setting.files.insert(temp, setting.page->0.body),
                    temp,
                    setting.sha_page,
                    setting.store_can_fail,
                    setting.transport_can_fail,
                    setting.can_cancel,
                    Err(error),
                )
                &&& !setting.store_can_fail ==> !after.contains_key(temp) && !after.contains_key(
                    output,
                )
            },
        }
    }
}

/// What a download requests.  Nothing, if the URL names no file or the
/// image is in the directory already.  Otherwise the image, once; and
/// after it the digest file, once, if one is named and the image arrived:
/// whenever the download succeeds or fails over the digest.  Nothing is
/// ever requested a second time.
pub open spec fn is_request_trail(
    before: Seq<Seq<char>>,
    after: Seq<Seq<char>>,
    url: Seq<char>,
    sha_url: Option<Seq<char>>,
    files: Map<Seq<char>, Seq<u8>>,
    result: Result<String, DownloadError>,
) -> bool {
    if url_filename(url).len() == 0 || files.contains_key(cache_key(url_filename(url))) {
        after == before
    } else {
        match sha_url {
            None => after == before.push(url),
            Some(digest_url) => {
                &&& after == before.push(url) || after == before.push(url).push(digest_url)
                &&& match result {
                    Ok(_) => after == before.push(url).push(digest_url),
                    Err(error) => is_sha_failure(error) || error is ShaFetch || error is ShaStatus
                        ==> after == before.push(url).push(digest_url),
                }
            },
        }
    }
}

/// The size that the server declares for the image, 0 if it declares none
/// or does not answer.
pub open spec fn declared_size(page: Option<Page>) -> u64 {
    match page {
        Some(page) => match page.declared_length {
            Some(length) => length,
            None => 0,
        },
        None => 0,
    }
}

/// What the log of a download holds when the numbers of the state are
/// `now`: readings that never run backwards from zero; that tell of the
/// bytes received chunk by chunk, the last of them of as many as the state
/// does; and whose total is 0, as long as the server was not heard, or the
/// size that it declared.
pub open spec fn is_download_log(log: Seq<Reading>, now: Reading, declared: u64) -> bool {
    &&& goes_on(Seq::<Reading>::empty(), log, Reading { total: 0, done: 0, checked: 0 }, now)
    &&& is_chunked(Seq::<Reading>::empty(), log, 0, crate::config::download::BUFFER_SIZE as nat)
    &&& last_done(Seq::<Reading>::empty(), log, 0) == now.done
    &&& totals_are(log, declared)
    &&& now.total == 0 || now.total == declared
    &&& now.checked == 0
}

/// The log of a download is still one after a part of the download that
/// went on from it, chunk by chunk, under the same total.
pub proof fn lemma_download_log_goes_on(
    before: Seq<Reading>,
    after: Seq<Reading>,
    reached: Reading,
    low: Reading,
    now: Reading,
    declared: u64,
)
    requires
        is_download_log(before, reached, declared),
        goes_on(before, after, low, now),
        no_less(reached, low),
        low.total == now.total,
        low.total == reached.total,
        is_chunked(before, after, reached.done, crate::config::download::BUFFER_SIZE as nat),
        last_done(before, after, reached.done) == now.done,
        now.checked == 0,
    ensures
        is_download_log(after, now, declared),
{
    let none = Seq::<Reading>::empty();
    let zero = Reading { total: 0, done: 0, checked: 0 };
    lemma_goes_on_joins(none, before, after, zero, reached, low, now);
    lemma_chunked_joins(none, before, after, 0, crate::config::download::BUFFER_SIZE as nat);
    lemma_totals_go_on(before, after, low, now, declared);
}

/// Shows the observer the state of a download.
fn show_log<O: Observer<DownloadState>>(
    state: &mut DownloadState,
    observer: &O,
    Ghost(declared): Ghost<u64>,
)
    requires
        is_download_log(old(state).shown@, old(state).reading(), declared),
    ensures
        is_download_log(final(state).shown@, final(state).reading(), declared),
        is_steady(final(state).shown@),
        final(state).shown@ == old(state).shown@.push(old(state).reading()),
        final(state).shown@.last() == final(state).reading(),
        final(state).total_bytes == old(state).total_bytes,
        final(state).downloaded_bytes == old(state).downloaded_bytes,
        final(state).is_verifying_sha == old(state).is_verifying_sha,
        final(state).is_decompressing == old(state).is_decompressing,
        final(state).is_cancelled == old(state).is_cancelled,
        final(state).error == old(state).error,
        final(state).output_path == old(state).output_path,
{
    proof {
        let none = Seq::<Reading>::empty();
        let zero = Reading { total: 0, done: 0, checked: 0 };
        let now = state.reading();
        lemma_goes_on_with(none, state.shown@, zero, now, now);
        lemma_chunked_with(none, state.shown@, 0, crate::config::download::BUFFER_SIZE as nat, now);
        lemma_totals_with(state.shown@, declared, now);
        lemma_goes_on_is_steady(state.shown@.push(now), zero, now);
    }
    state.show(observer);
}

/// How a download ends with which a request to stop stands: an image that
/// is in the directory already is returned, since nobody is asked on that
/// way; any other download ends without success, cancelled unless the
/// request for the image or the making of the temporary file failed first.
pub open spec fn is_stopped_outcome(
    files: Map<Seq<char>, Seq<u8>>,
    result: Result<String, DownloadError>,
) -> bool {
    match result {
        Ok(name) => files.contains_key(name@),
        Err(error) => error is Cancelled || error is InvalidUrl || error is Connect
            || error is HttpStatus || error is CreateTemp,
    }
}

/// Downloads an image into the directory and returns the name under which
/// it lies there.
///
/// The steps: reset the state; take the file name from the URL and from it
/// the cache key; return at once if the image is in the directory, noting
/// its use, which alone of all ways through the download does so; request the image and note its declared size; stream the body
/// into a temporary file; if a digest file is named, fetch it and check the
/// temporary file against it, removing the file if its digest is not the
/// published one and leaving it if the digest file cannot be had; decode
/// the file if its name ends in `.xz`, else give it its final name.
#[verifier::rlimit(60)]
pub fn download_image<S: ImageStore, T: Transport, O: Observer<DownloadState>>(
    url: &str,
    sha_url: Option<&str>,
    store: &mut S,
    transport: &mut T,
    state: &mut DownloadState,
    observer: &mut O,
) -> (result: Result<String, DownloadError>)
    ensures
        final(store).can_fail() == old(store).can_fail(),
        final(store).has_sound_tool() == old(store).has_sound_tool(),
        is_download_outcome(
            DownloadSetting {
                url: url@,
                sha_url: match sha_url {
                    Some(u) => Some(u@),
                    None => None,
                },
                files: old(store).files(),
                page: old(transport).page(url@),
                sha_page: match sha_url {
                    Some(u) => old(transport).page(u@),
                    None => None,
                },
                store_can_fail: old(store).can_fail(),
                transport_can_fail: old(transport).can_fail(),
                can_cancel: old(observer).can_cancel(),
            },
            final(store).files(),
            result,
        ),
        final(state).error == old(state).error,
        !final(state).is_verifying_sha,
        match result {
            Ok(name) => {
                &&& final(state).output_path is Some
                &&& final(state).output_path->0@ == name@
                &&& !final(state).is_cancelled
                &&& !old(store).files().contains_key(name@) ==> {
                    &&& old(transport).page(url@) is Some
                    &&& final(state).total_bytes == match old(transport).page(url@)->0.declared_length {
                        Some(length) => length,
                        None => 0,
                    }
                    &&& final(state).downloaded_bytes == if old(transport).page(url@)->0.body.len()
                        <= u64::MAX {
                        old(transport).page(url@)->0.body.len() as u64
                    } else {
                        u64::MAX
                    }
                    &&& !final(state).is_decompressing
                }
                &&& old(store).files().contains_key(name@) ==> final(state).is_at_rest()
            },
            Err(error) => final(state).output_path == old(state).output_path && (
            error is Cancelled ==> final(state).is_cancelled),
        },
        is_steady(final(state).shown@),
        goes_on(
            Seq::<Reading>::empty(),
            final(state).shown@,
            Reading { total: 0, done: 0, checked: 0 },
            final(state).reading(),
        ),
        old(observer).must_cancel() ==> is_stopped_outcome(old(store).files(), result),
        is_noted(
            old(store).used(),
            final(store).used(),
            cache_key(url_filename(url@)),
            url_filename(url@).len() > 0 && old(store).files().contains_key(
                cache_key(url_filename(url@)),
            ),
            old(store).can_fail(),
        ),
        serves_the_same(old(transport), final(transport)),
        is_request_trail(
            old(transport).requested(),
            final(transport).requested(),
            url@,
            match sha_url {
                Some(u) => Some(u@),
                None => None,
            },
            old(store).files(),
            result,
        ),
        final(observer).can_cancel() == old(observer).can_cancel(),
        final(observer).must_cancel() == old(observer).must_cancel(),
        heeds(old(observer).answers(), final(observer).answers(), result is Err && result->Err_0 is Cancelled),
        !final(state).is_decompressing,
        is_download_log(
            final(state).shown@,
            final(state).reading(),
            declared_size(old(transport).page(url@)),
        ),
        final(state).shown@.len() > 0,
        final(state).shown@.last() == final(state).reading(),
        final(state).downloaded_bytes <= asked(old(observer).answers(), final(observer).answers())
            * crate::config::download::BUFFER_SIZE,
{
    let ghost begun = observer.answers();
    proof {
        lemma_heeds_begins(begun);
        lemma_pace_begins(begun, crate::config::download::BUFFER_SIZE as nat);
    }
    let ghost before = store.files();
    let ghost setting = DownloadSetting {
        url: url@,
        sha_url: match sha_url {
            Some(u) => Some(u@),
            None => None,
        },
        files: old(store).files(),
        page: transport.page(url@),
        sha_page: match sha_url {
            Some(u) => transport.page(u@),
            None => None,
        },
        store_can_fail: old(store).can_fail(),
        transport_can_fail: transport.can_fail(),
        can_cancel: observer.can_cancel(),
    };
    state.reset();
    let ghost none = Seq::<Reading>::empty();
    let ghost low = state.reading();
    let ghost declared = declared_size(transport.page(url@));
    proof {
        lemma_goes_on_begins(none, low);
        lemma_chunked_begins(none, 0, crate::config::download::BUFFER_SIZE as nat);
    }
    show_log(state, observer, Ghost(declared));
    proof {
        lemma_goes_on_is_steady(state.shown@, low, state.reading());
    }
    let filename = match extract_filename(url) {
        Ok(filename) => filename,
        Err(error) => {
            return Err(error);
        },
    };
    let output = output_name(filename);
    if store.contains(output) {
        store.touch(output);
        state.output_path = Some(output.to_owned());
        show_log(state, observer, Ghost(declared));
        proof {
            lemma_goes_on_is_steady(state.shown@, low, state.reading());
        }
        return Ok(output.to_owned());
    }
    let temp = temp_filename(filename);
    proof {
        lemma_temp_name_differs(filename@);
    }
    let response = match transport.get(url) {
        Ok(response) => response,
        Err(detail) => {
            return Err(DownloadError::Connect { detail });
        },
    };
    if !status_is_success(response.status) {
        return Err(DownloadError::HttpStatus { status: response.status });
    }
    let ghost reached = state.reading();
    state.total_bytes = match response.content_length {
        Some(length) => length,
        None => 0,
    };
    proof {
        lemma_goes_on_within(none, state.shown@, low, reached, low, state.reading());
    }
    show_log(state, observer, Ghost(declared));
    let mut body = response.body;
    let ghost content = body.remaining();
    let ghost shown_before = state.shown@;
    let ghost reached = state.reading();
    let received_it = receive_body(&mut body, store, temp.as_str(), state, observer);
    let ghost asked_in_receiving = observer.answers();
    proof {
        lemma_goes_on_joins(none, shown_before, state.shown@, low, reached, reached, state.reading());
        lemma_goes_on_is_steady(state.shown@, low, state.reading());
        lemma_download_log_goes_on(
            shown_before,
            state.shown@,
            reached,
            reached,
            state.reading(),
            declared,
        );
    }
    match received_it {
        Ok(_) => {},
        Err(error) => {
            return Err(error);
        },
    }
    let ghost received = store.files();
    match sha_url {
        Some(sha_url) => {
            state.is_verifying_sha = true;
            show_log(state, observer, Ghost(declared));
            let ghost asked_mid = observer.answers();
            let checked = check_download(&*store, transport, temp.as_str(), sha_url, observer);
            proof {
                lemma_heeds_joins(
                    begun,
                    asked_mid,
                    observer.answers(),
                    checked is Err && checked->Err_0 is Cancelled,
                );
                lemma_pace_goes_on(
                    begun,
                    asked_in_receiving,
                    observer.answers(),
                    state.downloaded_bytes as nat,
                    crate::config::download::BUFFER_SIZE as nat,
                );
            }
            state.is_verifying_sha = false;
            match checked {
                Ok(_) => {
                    show_log(state, observer, Ghost(declared));
                },
                Err(error) => {
                    let stop = match error {
                        DownloadError::Cancelled => true,
                        _ => ask::<DownloadState, O>(observer, Ghost(begun)),
                    };
                    proof {
                        lemma_pace_goes_on(
                            begun,
                            asked_in_receiving,
                            observer.answers(),
                            state.downloaded_bytes as nat,
                            crate::config::download::BUFFER_SIZE as nat,
                        );
                    }
                    if stop {
                        store.remove(temp.as_str());
                        state.is_cancelled = true;
                        show_log(state, observer, Ghost(declared));
                        proof {
                            lemma_goes_on_is_steady(state.shown@, low, state.reading());
                        }
                        return Err(DownloadError::Cancelled);
                    }
                    match error {
                        DownloadError::ShaFetch { .. } | DownloadError::ShaStatus { .. } => {
                            proof {
                                assert(store.files() =~= before.insert(temp@, content));
                            }
                        },
                        _ => {
                            store.remove(temp.as_str());
                        },
                    }
                    show_log(state, observer, Ghost(declared));
                    proof {
                        lemma_goes_on_is_steady(state.shown@, low, state.reading());
                    }
                    return Err(error);
                },
            }
        },
        None => {},
    }
    proof {
        assert(received =~= before.insert(temp@, content));
        assert(passes_check(setting));
        assert(store.files() == received);
    }
    let ghost shown_before = state.shown@;
    let ghost reached = state.reading();
    let ghost asked_last = observer.answers();
    let finished = finish_download(filename, store, state, observer);
    proof {
        lemma_download_log_goes_on(
            shown_before,
            state.shown@,
            reached,
            reached,
            state.reading(),
            declared,
        );
        lemma_heeds_joins(
            begun,
            asked_last,
            observer.answers(),
            finished is Err && finished->Err_0 is Cancelled,
        );
        lemma_pace_goes_on(
            begun,
            asked_in_receiving,
            observer.answers(),
            state.downloaded_bytes as nat,
            crate::config::download::BUFFER_SIZE as nat,
        );
        lemma_goes_on_joins(none, shown_before, state.shown@, low, reached, reached, state.reading());
        lemma_goes_on_is_steady(state.shown@, low, state.reading());
        assert forall|other: Seq<char>| other != temp@ && other != output@ implies (
        #[trigger] before.contains_key(other) == store.files().contains_key(other) && (
        before.contains_key(other) ==> before[other] == store.files()[other])) by {
            assert(received.contains_key(other) == before.contains_key(other));
            assert(received.contains_key(other) == store.files().contains_key(other));
        }
    }
    finished
}

/// How the last step of a download may end: the file that was received
/// lies under its temporary name in `before`, and `after` is the directory
/// that the step leaves.
pub open spec fn is_finish_outcome(
    filename: Seq<char>,
    before: Map<Seq<char>, Seq<u8>>,
    after: Map<Seq<char>, Seq<u8>>,
    store_can_fail: bool,
    can_cancel: bool,
    result: Result<String, DownloadError>,
) -> bool {
    let output = cache_key(filename);
    let temp = temp_name(filename);
    let xz = ends_with(filename, CompressionFormat::Xz.suffix());
    &&& same_except_two(before, after, temp, output)
    &&& match result {
        Ok(name) => {
            &&& name@ == output
            &&& before.contains_key(temp)
            &&& delivered(filename, before[temp]) is Some
            &&& after.contains_key(output)
            &&& after[output] == delivered(filename, before[temp])->0
            &&& !store_can_fail ==> !after.contains_key(temp)
        },
        Err(DownloadError::Cancelled) => {
            &&& can_cancel
            &&& xz
            &&& !store_can_fail ==> !after.contains_key(temp) && !after.contains_key(output)
        },
        Err(DownloadError::Decompress { cause }) => {
            &&& xz
            &&& !(cause is Cancelled)
            &&& store_can_fail || !before.contains_key(temp) || xz_decoded(before[temp]) is None
        },
        Err(DownloadError::Move { detail }) => {
            &&& !xz
            &&& after == before
            &&& store_can_fail || !before.contains_key(temp)
        },
        Err(_) => false,
    }
}

/// The last step of a download: the received file, which lies under its
/// temporary name, is decoded into the final file if its name ends in
/// `.xz`, and is given the final name otherwise.  The temporary file is
/// gone afterwards; a cancelled decoding leaves neither file behind.  The
/// state says that a file is being decompressed only while one is.
pub fn finish_download<S: ImageStore, O: Observer<DownloadState>>(
    filename: &str,
    store: &mut S,
    state: &mut DownloadState,
    observer: &mut O,
) -> (result: Result<String, DownloadError>)
    ensures
        final(store).can_fail() == old(store).can_fail(),
        final(store).has_sound_tool() == old(store).has_sound_tool(),
        final(store).used() == old(store).used(),
        is_finish_outcome(
            filename@,
            old(store).files(),
            final(store).files(),
            old(store).can_fail(),
            old(observer).can_cancel(),
            result,
        ),
        final(state).error == old(state).error,
        final(state).total_bytes == old(state).total_bytes,
        final(state).downloaded_bytes == old(state).downloaded_bytes,
        final(state).is_verifying_sha == old(state).is_verifying_sha,
        final(state).is_decompressing == (old(state).is_decompressing && !ends_with(
            filename@,
            CompressionFormat::Xz.suffix(),
        )),
        match result {
            Ok(name) => {
                &&& final(state).output_path is Some
                &&& final(state).output_path->0@ == name@
                &&& final(state).is_cancelled == old(state).is_cancelled
            },
            Err(error) => {
                &&& final(state).output_path == old(state).output_path
                &&& error is Cancelled ==> final(state).is_cancelled
                &&& !(error is Cancelled) ==> final(state).is_cancelled == old(state).is_cancelled
            },
        },
        goes_on(old(state).shown@, final(state).shown@, old(state).reading(), final(state).reading()),
        old(observer).must_cancel() && ends_with(filename@, CompressionFormat::Xz.suffix()) ==> result is Err
            && (result->Err_0 is Cancelled || result->Err_0 is Decompress),
        final(observer).can_cancel() == old(observer).can_cancel(),
        final(observer).must_cancel() == old(observer).must_cancel(),
        heeds(old(observer).answers(), final(observer).answers(), result is Err && result->Err_0 is Cancelled),
        is_chunked(
            old(state).shown@,
            final(state).shown@,
            old(state).downloaded_bytes,
            crate::config::download::BUFFER_SIZE as nat,
        ),
        last_done(old(state).shown@, final(state).shown@, old(state).downloaded_bytes)
            == final(state).downloaded_bytes,
        final(state).shown@.len() > old(state).shown@.len() ==> final(state).shown@.last()
            == final(state).reading(),
{
    let ghost begun = observer.answers();
    proof {
        lemma_heeds_begins(begun);
    }
    let ghost before = store.files();
    let ghost shown_before = state.shown@;
    let ghost low = state.reading();
    proof {
        lemma_goes_on_begins(shown_before, low);
        lemma_chunked_begins(shown_before, low.done, crate::config::download::BUFFER_SIZE as nat);
    }
    let output = output_name(filename);
    let temp = temp_filename(filename);
    proof {
        lemma_temp_name_differs(filename@);
    }
    if is_xz_name(filename) {
        state.is_decompressing = true;
        proof {
            lemma_chunked_with(
                shown_before,
                state.shown@,
                low.done,
                crate::config::download::BUFFER_SIZE as nat,
                state.reading(),
            );
        }
        show_next(state, observer, Ghost(shown_before), Ghost(low));
        let decoded_it = decompress_with_rust_xz(store, temp.as_str(), output, observer);
        state.is_decompressing = false;
        match decoded_it {
            Ok(_) => {
                store.remove(temp.as_str());
            },
            Err(cause) => {
                let ghost failed = store.files();
                proof {
                    assert forall|other: Seq<char>|
                        other != temp@ && other != output@ implies (#[trigger] before.contains_key(
                        other,
                    ) == failed.contains_key(other) && (before.contains_key(other)
                        ==> before[other] == failed[other])) by {
                        assert(before.contains_key(other) == failed.contains_key(other));
                    }
                }
                match cause {
                    DecompressError::Cancelled => {
                        state.is_cancelled = true;
                        proof {
            lemma_chunked_with(
                shown_before,
                state.shown@,
                low.done,
                crate::config::download::BUFFER_SIZE as nat,
                state.reading(),
            );
        }
        show_next(state, observer, Ghost(shown_before), Ghost(low));
                        store.remove(temp.as_str());
                        return Err(DownloadError::Cancelled);
                    },
                    _ => {
                        proof {
                            lemma_chunked_with(
                                shown_before,
                                state.shown@,
                                low.done,
                                crate::config::download::BUFFER_SIZE as nat,
                                state.reading(),
                            );
                        }
                        show_next(state, observer, Ghost(shown_before), Ghost(low));
                        return Err(DownloadError::Decompress { cause });
                    },
                }
            },
        }
    } else {
        match store.rename(temp.as_str(), output) {
            Ok(_) => {},
            Err(detail) => {
                return Err(DownloadError::Move { detail });
            },
        }
    }
    state.output_path = Some(output.to_owned());
    proof {
            lemma_chunked_with(
                shown_before,
                state.shown@,
                low.done,
                crate::config::download::BUFFER_SIZE as nat,
                state.reading(),
            );
        }
        show_next(state, observer, Ghost(shown_before), Ghost(low));
    Ok(output.to_owned())
}

/// How going on with an interrupted download may end.
pub open spec fn is_continue_outcome(
    url: Seq<char>,
    before: Map<Seq<char>, Seq<u8>>,
    after: Map<Seq<char>, Seq<u8>>,
    store_can_fail: bool,
    can_cancel: bool,
    result: Result<String, DownloadError>,
) -> bool {
    let filename = url_filename(url);
    let output = cache_key(filename);
    let temp = temp_name(filename);
    if filename.len() == 0 {
        result is Err && result->Err_0 is InvalidUrl && after == before
    } else if before.contains_key(output) {
        result is Ok && result->Ok_0@ == output && after == before
    } else if !before.contains_key(temp) {
        result is Err && result->Err_0 is NothingToContinue && after == before
    } else {
        is_finish_outcome(filename, before, after, store_can_fail, can_cancel, result)
    }
}

/// Goes on with a download that was received but not verified, because its
/// digest file could not be had: the file that the download left under its
/// temporary name is finished as it is, without a request and without a
/// check.  Whoever calls this has chosen to use an unverified image.
pub fn continue_download<S: ImageStore, O: Observer<DownloadState>>(
    url: &str,
    store: &mut S,
    state: &mut DownloadState,
    observer: &mut O,
) -> (result: Result<String, DownloadError>)
    ensures
        final(store).can_fail() == old(store).can_fail(),
        final(store).has_sound_tool() == old(store).has_sound_tool(),
        is_continue_outcome(
            url@,
            old(store).files(),
            final(store).files(),
            old(store).can_fail(),
            old(observer).can_cancel(),
            result,
        ),
        final(state).error == old(state).error,
        match result {
            Ok(name) => final(state).output_path is Some && final(state).output_path->0@ == name@,
            Err(error) => final(state).output_path == old(state).output_path && (
            error is Cancelled ==> final(state).is_cancelled),
        },
        is_steady(final(state).shown@),
        goes_on(
            Seq::<Reading>::empty(),
            final(state).shown@,
            Reading { total: 0, done: 0, checked: 0 },
            final(state).reading(),
        ),
        is_noted(
            old(store).used(),
            final(store).used(),
            cache_key(url_filename(url@)),
            url_filename(url@).len() > 0 && old(store).files().contains_key(
                cache_key(url_filename(url@)),
            ),
            old(store).can_fail(),
        ),
        final(observer).can_cancel() == old(observer).can_cancel(),
        final(observer).must_cancel() == old(observer).must_cancel(),
        heeds(old(observer).answers(), final(observer).answers(), result is Err && result->Err_0 is Cancelled),
{
    let ghost begun = observer.answers();
    proof {
        lemma_heeds_begins(begun);
    }
    state.reset();
    let ghost none = Seq::<Reading>::empty();
    let ghost low = state.reading();
    proof {
        lemma_goes_on_begins(none, low);
    }
    show_next(state, observer, Ghost(none), Ghost(low));
    proof {
        lemma_goes_on_is_steady(state.shown@, low, state.reading());
    }
    let filename = match extract_filename(url) {
        Ok(filename) => filename,
        Err(error) => {
            return Err(error);
        },
    };
    let output = output_name(filename);
    if store.contains(output) {
        store.touch(output);
        state.output_path = Some(output.to_owned());
        show_next(state, observer, Ghost(none), Ghost(low));
        proof {
            lemma_goes_on_is_steady(state.shown@, low, state.reading());
        }
        return Ok(output.to_owned());
    }
    let temp = temp_filename(filename);
    if !store.contains(temp.as_str()) {
        return Err(DownloadError::NothingToContinue);
    }
    let ghost shown_before = state.shown@;
    let ghost reached = state.reading();
    let ghost asked_last = observer.answers();
    let finished = finish_download(filename, store, state, observer);
    proof {
        lemma_heeds_joins(
            begun,
            asked_last,
            observer.answers(),
            finished is Err && finished->Err_0 is Cancelled,
        );
        lemma_goes_on_joins(none, shown_before, state.shown@, low, reached, reached, state.reading());
        lemma_goes_on_is_steady(state.shown@, low, state.reading());
    }
    finished
}

/// A download that was cancelled leaves no file under the final name and
/// no temporary file, as far as the directory lets files be removed.
pub proof fn lemma_cancelled_download_leaves_nothing(
    setting: DownloadSetting,
    after: Map<Seq<char>, Seq<u8>>,
    result: Result<String, DownloadError>,
)
    requires
        is_download_outcome(setting, after, result),
        result is Err,
        result->Err_0 is Cancelled,
        !setting.store_can_fail,
    ensures
        !after.contains_key(temp_name(url_filename(setting.url))),
        !after.contains_key(cache_key(url_filename(setting.url))),
        same_except_two(
            setting.files,
            after,
            temp_name(url_filename(setting.url)),
            cache_key(url_filename(setting.url)),
        ),
{
}

/// A download with which a request to stop stands ends as cancelled and
/// leaves neither the temporary file nor the final file, if the image is
/// not in the directory yet, the server has it, and nothing fails.
pub proof fn lemma_stopped_download_leaves_nothing(
    setting: DownloadSetting,
    after: Map<Seq<char>, Seq<u8>>,
    result: Result<String, DownloadError>,
)
    requires
        is_download_outcome(setting, after, result),
        is_stopped_outcome(setting.files, result),
        url_filename(setting.url).len() > 0,
        !setting.files.contains_key(cache_key(url_filename(setting.url))),
        setting.page is Some,
        is_success(setting.page->0.status),
        !setting.store_can_fail,
        !setting.transport_can_fail,
    ensures
        result is Err,
        result->Err_0 is Cancelled,
        !after.contains_key(temp_name(url_filename(setting.url))),
        !after.contains_key(cache_key(url_filename(setting.url))),
{
}

/// A download whose digest file does not publish the digest of the body
/// fails at verification, and the temporary file is removed.
pub proof fn lemma_wrong_digest_fails_download(
    setting: DownloadSetting,
    after: Map<Seq<char>, Seq<u8>>,
    result: Result<String, DownloadError>,
)
    requires
        is_download_outcome(setting, after, result),
        url_filename(setting.url).len() > 0,
        !setting.files.contains_key(cache_key(url_filename(setting.url))),
        setting.sha_url is Some,
        setting.page is Some,
        is_success(setting.page->0.status),
        setting.sha_page is Some,
        is_success(setting.sha_page->0.status),
        !is_sha_verdict(setting.sha_page->0.text, sha256(setting.page->0.body), Ok(())),
        !setting.store_can_fail,
        !setting.transport_can_fail,
        !setting.can_cancel,
    ensures
        result is Err,
        is_sha_failure(result->Err_0),
        !after.contains_key(temp_name(url_filename(setting.url))),
        !after.contains_key(cache_key(url_filename(setting.url))),
{
}

/// A download checked against a digest file in which one character of the
/// right digest was changed fails at verification, and the temporary file
/// is removed.  A change that only turns a letter into its other case is no
/// change to the comparison.
pub proof fn lemma_mutated_digest_fails_download(
    setting: DownloadSetting,
    after: Map<Seq<char>, Seq<u8>>,
    result: Result<String, DownloadError>,
    word: Seq<char>,
    rest: Seq<char>,
    at: int,
    changed: char,
)
    requires
        is_download_outcome(setting, after, result),
        url_filename(setting.url).len() > 0,
        !setting.files.contains_key(cache_key(url_filename(setting.url))),
        setting.sha_url is Some,
        setting.page is Some,
        is_success(setting.page->0.status),
        setting.sha_page is Some,
        is_success(setting.sha_page->0.status),
        is_sha256_hex(word),
        lower(word) == hex_lower(sha256(setting.page->0.body)),
        rest.len() == 0 || is_space(rest[0]),
        0 <= at < word.len(),
        lower_char(changed) != lower_char(word[at]),
        setting.sha_page->0.text == word.update(at, changed) + rest,
        !setting.store_can_fail,
        !setting.transport_can_fail,
        !setting.can_cancel,
    ensures
        result is Err,
        is_sha_failure(result->Err_0),
        !after.contains_key(temp_name(url_filename(setting.url))),
{
    let digest = sha256(setting.page->0.body);
    if is_sha_verdict(setting.sha_page->0.text, digest, Ok(())) {
        lemma_mutated_digest_fails(word, rest, at, changed, digest, Ok(()));
    }
    lemma_wrong_digest_fails_download(setting, after, result);
}

} // verus!
