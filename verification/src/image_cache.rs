//! The cache of board pictures: where a picture comes from and where it is
//! kept, how long it counts as fresh, and what the server's answer to a
//! request for it means.

use crate::text::chars_of;
use crate::text::decimal;
use crate::text::has_prefix;
use crate::text::same_text;
use crate::text::starts_with;
use crate::text::to_decimal;
use crate::transport::is_success;
use crate::utils::capped_sum;
use crate::utils::total_bytes;
use vstd::prelude::*;

verus! {

/// A picture counts as fresh for seven days, in seconds.
pub const CACHE_EXPIRY_SECS: i64 = 7 * 24 * 60 * 60;

/// What is known of one cached picture.
#[derive(Debug)]
pub struct CacheEntry {
    /// The tag under which the server knows this version of the picture.
    pub etag: Option<String>,
    /// When the server says the picture was last changed.
    pub last_modified: Option<String>,
    /// Where the picture lies.
    pub file_path: String,
    /// When the picture was fetched or found unchanged, in seconds since
    /// 1970.
    pub cached_at: i64,
}

/// The entry of a board with its slug.
#[derive(Debug)]
pub struct SlugEntry {
    pub board_slug: String,
    pub entry: CacheEntry,
}

/// `i` is the first position whose entry is for the board.
pub open spec fn is_first_for(entries: Seq<SlugEntry>, board_slug: Seq<char>, i: int) -> bool {
    &&& 0 <= i < entries.len()
    &&& entries[i].board_slug@ == board_slug
    &&& forall|j: int| 0 <= j < i ==> entries[j].board_slug@ != board_slug
}

/// The entry that is kept for the board, if one is.
pub open spec fn entry_for(entries: Seq<SlugEntry>, board_slug: Seq<char>) -> Option<CacheEntry> {
    if exists|i: int| is_first_for(entries, board_slug, i) {
        Some(entries[choose|i: int| is_first_for(entries, board_slug, i)].entry)
    } else {
        None
    }
}

/// At most one position is the first for a board.
pub proof fn lemma_first_for_unique(entries: Seq<SlugEntry>, board_slug: Seq<char>, a: int, b: int)
    requires
        is_first_for(entries, board_slug, a),
        is_first_for(entries, board_slug, b),
    ensures
        a == b,
{
    if a < b {
        assert(entries[a].board_slug@ != board_slug);
    } else if b < a {
        assert(entries[b].board_slug@ != board_slug);
    }
}

/// The cache of board pictures: its directory and what is known of the
/// pictures in it.
#[derive(Debug)]
pub struct ImageCache {
    /// What is known of each picture, by board.
    pub entries: Vec<SlugEntry>,
    /// The directory of the pictures.
    pub cache_dir: String,
}

/// The name of the file that holds a board's picture.
pub open spec fn picture_path(cache_dir: Seq<char>, board_slug: Seq<char>) -> Seq<char> {
    cache_dir.push('/') + board_slug + ".png"@
}

impl ImageCache {
    /// A cache in `cache_dir` of which nothing is known yet.
    pub fn new(cache_dir: String) -> (cache: ImageCache)
        ensures
            cache.cache_dir == cache_dir,
            cache.entries@.len() == 0,
    {
        ImageCache { entries: Vec::new(), cache_dir }
    }

    fn find(&self, board_slug: &str) -> (at: Option<usize>)
        ensures
            match at {
                Some(i) => is_first_for(self.entries@, board_slug@, i as int),
                None => entry_for(self.entries@, board_slug@) is None,
            },
    {
        let mut i: usize = 0;
        while i < self.entries.len()
            invariant
                0 <= i <= self.entries.len(),
                forall|j: int| 0 <= j < i ==> self.entries[j].board_slug@ != board_slug@,
            decreases self.entries.len() - i,
        {
            if same_text(self.entries[i].board_slug.as_str(), board_slug) {
                return Some(i);
            }
            i += 1;
        }
        proof {
            assert(!exists|k: int| is_first_for(self.entries@, board_slug@, k));
        }
        None
    }

    /// Where the picture of the board lies, or would lie.
    pub fn get_cached_path(&self, board_slug: &str) -> (path: String)
        ensures
            path@ == picture_path(self.cache_dir@, board_slug@),
    {
        let mut path = self.cache_dir.clone();
        path.push('/');
        path.append(board_slug);
        path.append(".png");
        path
    }

    /// What is known of the picture of the board.
    pub fn get_entry(&self, board_slug: &str) -> (entry: Option<&CacheEntry>)
        ensures
            match entry {
                Some(found) => entry_for(self.entries@, board_slug@) == Some(*found),
                None => entry_for(self.entries@, board_slug@) is None,
            },
    {
        match self.find(board_slug) {
            Some(i) => {
                proof {
                    let k = choose|k: int| is_first_for(self.entries@, board_slug@, k);
                    lemma_first_for_unique(self.entries@, board_slug@, i as int, k);
                }
                Some(&self.entries[i].entry)
            },
            None => None,
        }
    }

    /// Notes what is known of the picture of the board, in place of what
    /// was known before.  What is known of other boards stays.
    pub fn set_entry(&mut self, board_slug: String, entry: CacheEntry)
        ensures
            final(self).cache_dir == old(self).cache_dir,
            entry_for(final(self).entries@, board_slug@) == Some(entry),
            forall|other: Seq<char>|
                other != board_slug@ ==> entry_for(final(self).entries@, other) == entry_for(
                    old(self).entries@,
                    other,
                ),
    {
        let ghost before = self.entries@;
        let ghost slug = board_slug@;
        match self.find(board_slug.as_str()) {
            Some(i) => {
                self.entries.set(i, SlugEntry { board_slug, entry });
                proof {
                    let after = self.entries@;
                    assert forall|other: Seq<char>, k: int|
                        is_first_for(after, other, k) == is_first_for(before, other, k) by {
                        if 0 <= k < after.len() {
                            assert(after[k].board_slug@ == before[k].board_slug@);
                            assert forall|j: int| 0 <= j < k implies (after[j].board_slug@ != other)
                                == (before[j].board_slug@ != other) by {
                                assert(after[j].board_slug@ == before[j].board_slug@);
                            }
                        }
                    }
                    assert(is_first_for(after, slug, i as int));
                    let k = choose|k: int| is_first_for(after, slug, k);
                    lemma_first_for_unique(after, slug, i as int, k);
                    assert forall|other: Seq<char>| other != slug implies entry_for(after, other)
                        == entry_for(before, other) by {
                        if exists|m: int| is_first_for(before, other, m) {
                            let m = choose|m: int| is_first_for(before, other, m);
                            assert(is_first_for(after, other, m));
                            let n = choose|n: int| is_first_for(after, other, n);
                            lemma_first_for_unique(after, other, m, n);
                            assert(after[m] == before[m]);
                        }
                    }
                }
            },
            None => {
                self.entries.push(SlugEntry { board_slug, entry });
                proof {
                    let after = self.entries@;
                    let last = before.len() as int;
                    assert forall|other: Seq<char>, k: int|
                        0 <= k < last implies is_first_for(after, other, k) == is_first_for(
                        before,
                        other,
                        k,
                    ) by {
                        assert(after[k] == before[k]);
                        assert forall|j: int| 0 <= j < k implies after[j] == before[j] by {}
                    }
                    assert(is_first_for(after, slug, last)) by {
                        assert forall|j: int| 0 <= j < last implies after[j].board_slug@
                            != slug by {
                            assert(after[j] == before[j]);
                            if before[j].board_slug@ == slug {
                                lemma_some_entry_has_first(before, slug, j);
                            }
                        }
                    }
                    let k = choose|k: int| is_first_for(after, slug, k);
                    lemma_first_for_unique(after, slug, last, k);
                    assert forall|other: Seq<char>| other != slug implies entry_for(after, other)
                        == entry_for(before, other) by {
                        if exists|m: int| is_first_for(before, other, m) {
                            let m = choose|m: int| is_first_for(before, other, m);
                            assert(is_first_for(after, other, m));
                            let n = choose|n: int| is_first_for(after, other, n);
                            lemma_first_for_unique(after, other, m, n);
                            assert(after[m] == before[m]);
                        } else if exists|n: int| is_first_for(after, other, n) {
                            let n = choose|n: int| is_first_for(after, other, n);
                            if n < last {
                                assert(is_first_for(before, other, n));
                            }
                        }
                    }
                }
            },
        }
    }

    /// The directory of the pictures.
    pub fn get_cache_dir(&self) -> (dir: &String)
        ensures
            *dir == self.cache_dir,
    {
        &self.cache_dir
    }
}

/// Where some entry is for the board, a first one is.
pub proof fn lemma_some_entry_has_first(entries: Seq<SlugEntry>, board_slug: Seq<char>, k: int)
    requires
        0 <= k < entries.len(),
        entries[k].board_slug@ == board_slug,
    ensures
        exists|i: int| is_first_for(entries, board_slug, i),
    decreases k,
{
    if exists|j: int| 0 <= j < k && entries[j].board_slug@ == board_slug {
        let j = choose|j: int| 0 <= j < k && entries[j].board_slug@ == board_slug;
        lemma_some_entry_has_first(entries, board_slug, j);
    } else {
        assert(is_first_for(entries, board_slug, k));
    }
}

/// Has a picture that was cached at `cached_at` gone stale by `now`?
pub fn is_expired(now: i64, cached_at: i64) -> (expired: bool)
    ensures
        expired == (now - cached_at > CACHE_EXPIRY_SECS),
{
    (now as i128) - (cached_at as i128) > CACHE_EXPIRY_SECS as i128
}

/// Where the picture of the board lies, if it is cached, its file is there
/// and it has not gone stale.
pub fn get_cached_image_path(cache: &ImageCache, board_slug: &str, file_exists: bool, now: i64) -> (path:
    Option<String>)
    ensures
        match entry_for(cache.entries@, board_slug@) {
            Some(entry) => if file_exists && !(now - entry.cached_at > CACHE_EXPIRY_SECS) {
                path is Some && path->0@ == picture_path(cache.cache_dir@, board_slug@)
            } else {
                path is None
            },
            None => path is None,
        },
{
    let entry = match cache.get_entry(board_slug) {
        Some(entry) => entry,
        None => {
            return None;
        },
    };
    if !file_exists {
        return None;
    }
    if is_expired(now, entry.cached_at) {
        return None;
    }
    Some(cache.get_cached_path(board_slug))
}

/// The address of the picture of a board.
pub fn board_image_url(board_slug: &str) -> (url: String)
    ensures
        url@ == "https://cache.armbian.com/images/"@ + "272"@ + "/"@ + board_slug@ + ".png"@,
{
    let mut url = crate::config::urls::BOARD_IMAGES_BASE.to_owned();
    url.append(crate::config::urls::BOARD_IMAGE_SIZE);
    url.append("/");
    url.append(board_slug);
    url.append(".png");
    url
}

/// What the server's answer to a request for a picture means.
#[derive(Debug, Clone, Copy, PartialEq, Eq, Structural)]
pub enum PictureAnswer {
    /// The cached picture is still the current one.
    NotModified,
    /// There is no picture of the board.
    NotFound,
    /// The request failed with this status.
    Failed { status: u16 },
    /// A picture came.
    Fresh,
}

/// What the status of the server's answer means for the cached picture.
pub fn classify_answer(status: u16) -> (answer: PictureAnswer)
    ensures
        answer == if status == 304 {
            PictureAnswer::NotModified
        } else if status == 404 {
            PictureAnswer::NotFound
        } else if !is_success(status) {
            PictureAnswer::Failed { status }
        } else {
            PictureAnswer::Fresh
        },
{
    if status == 304 {
        PictureAnswer::NotModified
    } else if status == 404 {
        PictureAnswer::NotFound
    } else if !(200 <= status && status <= 299) {
        PictureAnswer::Failed { status }
    } else {
        PictureAnswer::Fresh
    }
}

/// How fetching pictures ahead of time went.
#[derive(Debug, Clone, Copy, PartialEq, Eq, Structural)]
pub struct PrefetchTally {
    /// Pictures that were fetched.
    pub downloaded: usize,
    /// Pictures that were cached already.
    pub cached: usize,
    /// Pictures that could not be had.
    pub errors: usize,
}

/// The tally of the first `n` reports.  A report begins with `OK:` for a
/// picture that was fetched and with `SKIP:` for one that was cached; every
/// other report is an error.
pub open spec fn tally_of(reports: Seq<String>, n: int) -> PrefetchTally
    decreases n,
{
    if n <= 0 {
        PrefetchTally { downloaded: 0, cached: 0, errors: 0 }
    } else {
        let before = tally_of(reports, n - 1);
        let report = reports[n - 1]@;
        if starts_with(report, "OK:"@) {
            PrefetchTally { downloaded: (before.downloaded + 1) as usize, ..before }
        } else if starts_with(report, "SKIP:"@) {
            PrefetchTally { cached: (before.cached + 1) as usize, ..before }
        } else {
            PrefetchTally { errors: (before.errors + 1) as usize, ..before }
        }
    }
}

/// Counts the reports of a prefetch by their kind.
pub fn tally_prefetch(reports: &Vec<String>) -> (tally: PrefetchTally)
    ensures
        tally == tally_of(reports@, reports.len() as int),
{
    let ok = chars_of("OK:");
    let skip = chars_of("SKIP:");
    let mut tally = PrefetchTally { downloaded: 0, cached: 0, errors: 0 };
    let mut i: usize = 0;
    while i < reports.len()
        invariant
            0 <= i <= reports.len(),
            ok@ == "OK:"@,
            skip@ == "SKIP:"@,
            tally == tally_of(reports@, i as int),
            tally.downloaded + tally.cached + tally.errors == i,
        decreases reports.len() - i,
    {
        let report = chars_of(reports[i].as_str());
        if has_prefix(&report, &ok) {
            tally.downloaded = tally.downloaded + 1;
        } else if has_prefix(&report, &skip) {
            tally.cached = tally.cached + 1;
        } else {
            tally.errors = tally.errors + 1;
        }
        i += 1;
    }
    tally
}

/// How many pictures the cache knows of, and how many bytes the files of
/// its directory take up, where `file_sizes` lists the sizes of those
/// files.  A sum beyond what 64 bits hold is given as the largest number
/// they hold.
pub fn get_cache_stats(cache: &ImageCache, file_sizes: &Vec<u64>) -> (stats: (usize, u64))
    ensures
        stats.0 == cache.entries@.len(),
        stats.1 == capped_sum(file_sizes@),
{
    (cache.entries.len(), total_bytes(file_sizes))
}

/// What is logged when the cache of pictures is taken into use: that it
/// is, and how much it holds.
pub fn init_cache(count: usize, size: u64) -> (lines: Vec<String>)
    ensures
        lines@.len() == 2,
        lines@[0]@ == "Initializing board image cache"@,
        lines@[1]@ == "Cache contains "@ + decimal(count as nat) + " images ("@ + decimal(
            size as nat,
        ) + " bytes)"@,
{
    let mut lines: Vec<String> = Vec::new();
    lines.push("Initializing board image cache".to_owned());
    let mut line = "Cache contains ".to_owned();
    let number = to_decimal(count as u64);
    line.append(number.as_str());
    line.append(" images (");
    let bytes = to_decimal(size);
    line.append(bytes.as_str());
    line.append(" bytes)");
    lines.push(line);
    lines
}

} // verus!
