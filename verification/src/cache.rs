//! Size accounting and least-recently-used eviction for the image cache.
//!
//! The cache has no index of its own: its state is the listing of the cache
//! directory, one [`CacheEntry`] per regular file.  Every function here takes
//! that listing, decides, and leaves the listing as the directory is after
//! the decision was carried out.  Deleting a file is the caller's business and
//! is handed in as a function that reports whether the file is gone.

use crate::order::comes_first;
use crate::order::is_ordering;
use crate::order::stable_order;
use crate::text::chars_of;
use crate::text::decimal;
use crate::text::ends_with;
use crate::text::has_prefix;
use crate::text::has_suffix;
use crate::text::join_path;
use crate::text::joined;
use crate::text::same_text;
use crate::text::starts_with;
use crate::text::to_decimal;
use vstd::prelude::*;

verus! {

/// One regular file of the cache directory.
#[derive(Debug)]
pub struct CacheEntry {
    /// File name inside the cache directory.
    pub name: String,
    /// Size in bytes.
    pub size: u64,
    /// Time of last use; larger is more recent.
    pub modified: u64,
}

/// Why a cache operation did not succeed.
#[derive(Debug)]
pub enum CacheError {
    /// The file sizes of the listing do not add up within 64 bits.
    SizeOverflow,
    /// This many files could not be removed.
    RemoveFailed { failed: usize },
}

impl CacheError {
    /// What the error says, in words.
    pub open spec fn text(self) -> Seq<char> {
        match self {
            CacheError::SizeOverflow => "Cache size does not fit in 64 bits"@,
            CacheError::RemoveFailed { failed } => "Failed to remove "@ + decimal(failed as nat)
                + " cached files"@,
        }
    }

    /// The error as a message for the user.
    pub fn message(&self) -> (message: String)
        ensures
            message@ == self.text(),
    {
        match self {
            CacheError::SizeOverflow => "Cache size does not fit in 64 bits".to_owned(),
            CacheError::RemoveFailed { failed } => {
                let mut message = "Failed to remove ".to_owned();
                let number = to_decimal(*failed as u64);
                message.append(number.as_str());
                message.append(" cached files");
                message
            },
        }
    }
}

/// Sum of the sizes of all listed files.
pub open spec fn total_size(entries: Seq<CacheEntry>) -> nat
    decreases entries.len(),
{
    if entries.len() == 0 {
        0
    } else {
        total_size(entries.drop_last()) + entries.last().size as nat
    }
}

/// `total_size` of a prefix never exceeds that of the whole listing.
pub proof fn lemma_total_size_prefix(entries: Seq<CacheEntry>, k: int)
    requires
        0 <= k <= entries.len(),
    ensures
        total_size(entries.take(k)) <= total_size(entries),
    decreases entries.len(),
{
    if k == entries.len() {
        assert(entries.take(k) =~= entries);
    } else {
        assert(entries.drop_last().take(k) =~= entries.take(k));
        lemma_total_size_prefix(entries.drop_last(), k);
    }
}

/// Total size in bytes of the cached files, or `SizeOverflow` when the sum
/// does not fit in a `u64`.  An empty listing has size 0.
pub fn calculate_cache_size(entries: &Vec<CacheEntry>) -> (result: Result<u64, CacheError>)
    ensures
        match result {
            Ok(total) => total == total_size(entries@),
            Err(e) => e == CacheError::SizeOverflow && total_size(entries@) > u64::MAX,
        },
{
    let mut total: u64 = 0;
    let mut i: usize = 0;
    while i < entries.len()
        invariant
            0 <= i <= entries.len(),
            total == total_size(entries@.take(i as int)),
        decreases entries.len() - i,
    {
        proof {
            assert(entries@.take(i + 1).drop_last() =~= entries@.take(i as int));
            lemma_total_size_prefix(entries@, i + 1);
        }
        match total.checked_add(entries[i].size) {
            Some(sum) => {
                total = sum;
            },
            None => {
                return Err(CacheError::SizeOverflow);
            },
        }
        i += 1;
    }
    proof {
        assert(entries@.take(i as int) =~= entries@);
    }
    Ok(total)
}

/// Entry `a` leaves the cache before entry `b`: it was used earlier, or at
/// the same time and stands earlier in the listing.
pub open spec fn older(entries: Seq<CacheEntry>, a: int, b: int) -> bool {
    entries[a].modified < entries[b].modified || (entries[a].modified == entries[b].modified && a
        < b)
}

/// `order` lists the positions of `entries`, least recently used first.
pub open spec fn is_age_order(entries: Seq<CacheEntry>, order: Seq<usize>) -> bool {
    &&& order.len() == entries.len()
    &&& forall|k: int| 0 <= k < order.len() ==> (#[trigger] order[k]) < entries.len()
    &&& forall|a: int, b: int|
        0 <= a < b < order.len() ==> older(entries, #[trigger] order[a] as int, #[trigger] order[b] as int)
}

/// The order of eviction by time of last use alone.
pub open spec fn age_ordering(entries: Seq<CacheEntry>) -> spec_fn(int, int) -> bool {
    |a: int, b: int| entries[a].modified < entries[b].modified
}

/// The positions of the listing sorted by time of last use, oldest first.
/// Files with equal times keep the order of the listing.
pub fn get_cached_files_by_age(entries: &Vec<CacheEntry>) -> (order: Vec<usize>)
    ensures
        is_age_order(entries@, order@),
{
    let ghost first = age_ordering(entries@);
    let used_earlier = |a: usize, b: usize| -> (r: bool)
        requires
            a < entries.len(),
            b < entries.len(),
        ensures
            r == (entries[a as int].modified < entries[b as int].modified),
        { entries[a].modified < entries[b].modified };
    proof {
        assert(is_ordering(first, entries.len() as int));
    }
    let order = stable_order(entries.len(), used_earlier, Ghost(first));
    proof {
        assert forall|a: int, b: int| 0 <= a < b < order.len() implies older(
            entries@,
            #[trigger] order[a] as int,
            #[trigger] order[b] as int,
        ) by {
            assert(comes_first(first, order[a] as int, order[b] as int));
        }
    }
    order
}

/// Sum of the sizes of the files whose flag is set.
pub open spec fn flagged_size(entries: Seq<CacheEntry>, flags: Seq<bool>) -> nat
    recommends
        flags.len() == entries.len(),
    decreases entries.len(),
{
    if entries.len() == 0 {
        0
    } else {
        flagged_size(entries.drop_last(), flags.drop_last()) + if flags.last() {
            entries.last().size as nat
        } else {
            0
        }
    }
}

/// The listing without the files whose flag is set, order unchanged.
pub open spec fn kept(entries: Seq<CacheEntry>, removed: Seq<bool>) -> Seq<CacheEntry>
    recommends
        removed.len() == entries.len(),
    decreases entries.len(),
{
    if entries.len() == 0 {
        Seq::empty()
    } else {
        let rest = kept(entries.drop_last(), removed.drop_last());
        if removed.last() {
            rest
        } else {
            rest.push(entries.last())
        }
    }
}

/// What is kept and what is flagged add up to the whole listing.
pub proof fn lemma_kept_size(entries: Seq<CacheEntry>, removed: Seq<bool>)
    requires
        removed.len() == entries.len(),
    ensures
        total_size(kept(entries, removed)) + flagged_size(entries, removed) == total_size(entries),
        kept(entries, removed).len() <= entries.len(),
    decreases entries.len(),
{
    if entries.len() > 0 {
        lemma_kept_size(entries.drop_last(), removed.drop_last());
        if !removed.last() {
            let rest = kept(entries.drop_last(), removed.drop_last());
            assert(rest.push(entries.last()).drop_last() =~= rest);
        }
    }
}

/// Setting the flag of one more file adds that file's size.
pub proof fn lemma_flag_one_more(entries: Seq<CacheEntry>, flags: Seq<bool>, i: int)
    requires
        flags.len() == entries.len(),
        0 <= i < entries.len(),
        !flags[i],
    ensures
        flagged_size(entries, flags.update(i, true)) == flagged_size(entries, flags)
            + entries[i].size,
    decreases entries.len(),
{
    let after = flags.update(i, true);
    if i == entries.len() - 1 {
        assert(after.drop_last() =~= flags.drop_last());
    } else {
        assert(after.drop_last() =~= flags.drop_last().update(i, true));
        lemma_flag_one_more(entries.drop_last(), flags.drop_last(), i);
    }
}

/// With no flag set nothing is counted and everything is kept; with every
/// flag set the whole listing is counted.
pub proof fn lemma_flags_uniform(entries: Seq<CacheEntry>, flags: Seq<bool>)
    requires
        flags.len() == entries.len(),
    ensures
        (forall|i: int| 0 <= i < flags.len() ==> !flags[i]) ==> flagged_size(entries, flags) == 0
            && kept(entries, flags) == entries,
        (forall|i: int| 0 <= i < flags.len() ==> flags[i]) ==> flagged_size(entries, flags)
            == total_size(entries),
    decreases entries.len(),
{
    if entries.len() > 0 {
        lemma_flags_uniform(entries.drop_last(), flags.drop_last());
        if forall|i: int| 0 <= i < flags.len() ==> !flags[i] {
            assert(!flags.last());
            assert(forall|i: int| 0 <= i < flags.drop_last().len() ==> !flags.drop_last()[i]);
            assert(entries.drop_last().push(entries.last()) =~= entries);
        }
        if forall|i: int| 0 <= i < flags.len() ==> flags[i] {
            assert(flags.last());
            assert(forall|i: int| 0 <= i < flags.drop_last().len() ==> flags.drop_last()[i]);
        }
    } else {
        assert(kept(entries, flags) =~= entries);
    }
}

/// An age order names every position of the listing.
pub proof fn lemma_age_order_covers(entries: Seq<CacheEntry>, order: Seq<usize>, i: int)
    requires
        is_age_order(entries, order),
        0 <= i < entries.len(),
    ensures
        exists|k: int| 0 <= k < order.len() && order[k] == i,
{
    let n = entries.len() as int;
    let positions = Seq::new(order.len(), |k: int| order[k] as int);
    assert forall|a: int, b: int|
        0 <= a < positions.len() && 0 <= b < positions.len() && a != b implies positions[a]
        != positions[b] by {
        if a < b {
            assert(older(entries, order[a] as int, order[b] as int));
        } else {
            assert(older(entries, order[b] as int, order[a] as int));
        }
    }
    positions.unique_seq_to_set();
    vstd::set_lib::lemma_int_range(0, n);
    let all = vstd::set_lib::set_int_range(0, n);
    assert(positions.to_set().subset_of(all)) by {
        assert forall|x: int| positions.to_set().contains(x) implies all.contains(x) by {
            let k = choose|k: int| 0 <= k < positions.len() && positions[k] == x;
            assert(order[k] < entries.len());
        }
    }
    vstd::set_lib::lemma_set_subset_finite(all, positions.to_set());
    vstd::set_lib::lemma_subset_equality(positions.to_set(), all);
    assert(all.contains(i));
    assert(positions.to_set().contains(i));
    let k = choose|k: int| 0 <= k < positions.len() && positions[k] == i;
    assert(order[k] == i);
}

/// Bytes that must go so that a listing fits in `max_size`.
pub open spec fn bytes_to_free(entries: Seq<CacheEntry>, max_size: u64) -> nat {
    if total_size(entries) > max_size {
        (total_size(entries) - max_size) as nat
    } else {
        0
    }
}

/// The sizes of a listing add up to less than what 128 bits hold.
pub proof fn lemma_total_size_fits(entries: Seq<CacheEntry>)
    requires
        entries.len() <= usize::MAX,
    ensures
        total_size(entries) <= entries.len() * u64::MAX,
        total_size(entries) <= u128::MAX,
    decreases entries.len(),
{
    if entries.len() > 0 {
        lemma_total_size_fits(entries.drop_last());
        assert((entries.len() - 1) * u64::MAX + u64::MAX == entries.len() * u64::MAX)
            by (nonlinear_arith);
    }
    assert(entries.len() * u64::MAX <= u128::MAX) by (nonlinear_arith)
        requires
            entries.len() <= 0xffff_ffff_ffff_ffff,
    ;
}

/// Total size of the listed files, however large.
pub fn wide_cache_size(entries: &Vec<CacheEntry>) -> (total: u128)
    ensures
        total == total_size(entries@),
{
    let mut total: u128 = 0;
    let mut i: usize = 0;
    while i < entries.len()
        invariant
            0 <= i <= entries.len(),
            total == total_size(entries@.take(i as int)),
        decreases entries.len() - i,
    {
        proof {
            assert(entries@.take(i + 1).drop_last() =~= entries@.take(i as int));
            lemma_total_size_fits(entries@.take(i + 1));
        }
        total = total + entries[i].size as u128;
        i += 1;
    }
    proof {
        assert(entries@.take(i as int) =~= entries@);
    }
    total
}

/// What one eviction did.
#[derive(Debug)]
pub struct EvictionReport {
    /// Positions of the listing as it was, least recently used first.
    pub order: Vec<usize>,
    /// On how many files, from the start of `order`, removal was tried.
    pub attempts: usize,
    /// For each position of the listing as it was: is the file gone?
    pub removed: Vec<bool>,
    /// Sum of the sizes of the files that are gone.
    pub freed: u128,
}

impl EvictionReport {
    /// The report describes an eviction of `entries` down to `max_size`:
    /// removal was tried oldest first, a file whose removal failed was passed
    /// over without counting its size, and the run ended as soon as enough
    /// bytes were freed or no file was left to try.
    pub open spec fn describes(self, entries: Seq<CacheEntry>, max_size: u64) -> bool {
        &&& is_age_order(entries, self.order@)
        &&& self.removed@.len() == entries.len()
        &&& self.attempts <= entries.len()
        &&& self.freed == flagged_size(entries, self.removed@)
        &&& forall|j: int|
            self.attempts <= j < entries.len() ==> !self.removed@[(#[trigger] self.order@[j]) as int]
        &&& self.attempts == entries.len() || self.freed >= bytes_to_free(entries, max_size)
        &&& self.attempts > 0 ==> self.freed_before_last(entries) < bytes_to_free(
            entries,
            max_size,
        )
    }

    /// Bytes that were freed when the last attempt was about to be made.
    pub open spec fn freed_before_last(self, entries: Seq<CacheEntry>) -> int
        recommends
            self.attempts > 0,
    {
        let last = self.order@[self.attempts - 1] as int;
        if self.removed@[last] {
            self.freed - entries[last].size
        } else {
            self.freed as int
        }
    }

    /// No attempt to remove a file failed.
    pub open spec fn nothing_failed(self) -> bool {
        forall|j: int| 0 <= j < self.attempts ==> self.removed@[(#[trigger] self.order@[j]) as int]
    }
}

/// An eviction in which no removal failed leaves the cache within its limit.
pub proof fn lemma_eviction_reaches_limit(
    entries: Seq<CacheEntry>,
    max_size: u64,
    report: EvictionReport,
)
    requires
        report.describes(entries, max_size),
        report.nothing_failed(),
    ensures
        total_size(kept(entries, report.removed@)) <= max_size,
{
    lemma_kept_size(entries, report.removed@);
    if report.attempts == entries.len() {
        assert forall|i: int| 0 <= i < report.removed@.len() implies report.removed@[i] by {
            lemma_age_order_covers(entries, report.order@, i);
            let k = choose|k: int| 0 <= k < report.order@.len() && report.order@[k] == i;
            assert(report.removed@[report.order@[k] as int]);
        }
        lemma_flags_uniform(entries, report.removed@);
    }
}

/// Brings the cache down to `max_size` bytes by removing the least recently
/// used files first.
///
/// `remove` deletes one file and says whether it is gone.  When the listing
/// already fits, nothing is tried.  Otherwise files are tried oldest first
/// until at least `total - max_size` bytes are freed; a file that cannot be
/// removed is passed over and its size is not counted, so the limit may be
/// missed when removals fail.  On return the listing holds the files that
/// are still there.  The eviction itself never fails, however large the
/// files are.
pub fn evict_to_size<F: Fn(&CacheEntry) -> bool>(
    entries: &mut Vec<CacheEntry>,
    max_size: u64,
    remove: F,
) -> (result: Result<EvictionReport, CacheError>)
    requires
        forall|i: int|
            0 <= i < old(entries).len() ==> call_requires(remove, (&#[trigger] old(entries)[i],)),
    ensures
        match result {
            Ok(report) => {
                &&& report.describes(old(entries)@, max_size)
                &&& forall|j: int|
                    0 <= j < report.attempts ==> call_ensures(
                        remove,
                        (&old(entries)[(#[trigger] report.order@[j]) as int],),
                        report.removed@[report.order@[j] as int],
                    )
                &&& final(entries)@ == kept(old(entries)@, report.removed@)
                &&& report.nothing_failed() ==> total_size(final(entries)@) <= max_size
            },
            Err(_) => false,
        },
{
    let current_size: u128 = wide_cache_size(entries);
    let order = get_cached_files_by_age(entries);
    let n: usize = entries.len();
    let mut removed: Vec<bool> = Vec::new();
    while removed.len() < n
        invariant
            removed.len() <= n,
            forall|i: int| 0 <= i < removed.len() ==> !removed[i],
        decreases n - removed.len(),
    {
        removed.push(false);
    }
    let target: u128 = if current_size > max_size as u128 {
        current_size - max_size as u128
    } else {
        0
    };
    let mut freed: u128 = 0;
    let mut k: usize = 0;
    proof {
        lemma_flags_uniform(entries@, removed@);
    }
    while k < n && freed < target
        invariant
            n == entries.len(),
            entries@ == old(entries)@,
            is_age_order(entries@, order@),
            removed.len() == n,
            0 <= k <= n,
            current_size == total_size(entries@),
            target == bytes_to_free(entries@, max_size),
            freed == flagged_size(entries@, removed@),
            forall|j: int| k <= j < n ==> !removed[(#[trigger] order[j]) as int],
            forall|j: int|
                0 <= j < k ==> call_ensures(
                    remove,
                    (&entries[(#[trigger] order[j]) as int],),
                    removed[order[j] as int],
                ),
            forall|i: int| 0 <= i < n ==> call_requires(remove, (&#[trigger] entries[i],)),
            k > 0 ==> (if removed[order[k - 1] as int] {
                freed - entries[order[k - 1] as int].size
            } else {
                freed as int
            }) < target,
        decreases n - k,
    {
        let at: usize = order[k];
        let gone: bool = remove(&entries[at]);
        if gone {
            proof {
                lemma_flag_one_more(entries@, removed@, at as int);
                lemma_kept_size(entries@, removed@.update(at as int, true));
                lemma_total_size_fits(entries@);
                assert forall|j: int| 0 <= j < k implies order[j] != at by {
                    assert(older(entries@, order[j] as int, order[k as int] as int));
                }
                assert forall|j: int| k < j < n implies order[j] != at by {
                    assert(older(entries@, order[k as int] as int, order[j] as int));
                }
            }
            removed.set(at, true);
            freed = freed + entries[at].size as u128;
        }
        k += 1;
    }
    let report = EvictionReport { order, attempts: k, removed, freed };
    let mut done: usize = 0;
    let mut at: usize = 0;
    while done < n
        invariant
            n == old(entries).len(),
            report.removed.len() == n,
            0 <= at <= done <= n,
            entries@ == kept(
                old(entries)@.take(done as int),
                report.removed@.take(done as int),
            ) + old(entries)@.skip(done as int),
            at == kept(old(entries)@.take(done as int), report.removed@.take(done as int)).len(),
        decreases n - done,
    {
        proof {
            assert(old(entries)@.take(done + 1).drop_last() =~= old(entries)@.take(done as int));
            assert(report.removed@.take(done + 1).drop_last() =~= report.removed@.take(
                done as int,
            ));
        }
        if report.removed[done] {
            entries.remove(at);
        } else {
            at += 1;
        }
        done += 1;
        proof {
            assert(entries@ =~= kept(
                old(entries)@.take(done as int),
                report.removed@.take(done as int),
            ) + old(entries)@.skip(done as int));
        }
    }
    proof {
        assert(old(entries)@.take(n as int) =~= old(entries)@);
        assert(report.removed@.take(n as int) =~= report.removed@);
        assert(entries@ =~= kept(old(entries)@, report.removed@));
        if report.nothing_failed() {
            lemma_eviction_reaches_limit(old(entries)@, max_size, report);
        }
    }
    Ok(report)
}

/// What clearing the cache did: `removed` says for each file of the listing
/// as it was whether it is gone, `left` is the listing afterwards, and the
/// result tells how many files are still there.
pub open spec fn cleared(
    entries: Seq<CacheEntry>,
    removed: Seq<bool>,
    left: Seq<CacheEntry>,
    result: Result<(), CacheError>,
) -> bool {
    &&& removed.len() == entries.len()
    &&& left == kept(entries, removed)
    &&& match result {
        Ok(_) => left.len() == 0,
        Err(e) => left.len() > 0 && e == (CacheError::RemoveFailed { failed: left.len() as usize }),
    }
}

/// Removes every cached file, as far as `remove` manages to.
///
/// Every file is tried, also after a failure; nothing is put back.  The
/// listing is left holding the files that could not be removed, and the
/// result is `RemoveFailed` with their number if there are any.
pub fn clear_cache<F: Fn(&CacheEntry) -> bool>(entries: &mut Vec<CacheEntry>, remove: F) -> (result:
    Result<(), CacheError>)
    requires
        forall|i: int|
            0 <= i < old(entries).len() ==> call_requires(remove, (&#[trigger] old(entries)[i],)),
    ensures
        exists|removed: Seq<bool>|
            {
                &&& #[trigger] cleared(old(entries)@, removed, final(entries)@, result)
                &&& forall|i: int|
                    0 <= i < removed.len() ==> call_ensures(
                        remove,
                        (&old(entries)[i],),
                        #[trigger] removed[i],
                    )
            },
{
    let n: usize = entries.len();
    let ghost mut removed: Seq<bool> = Seq::empty();
    let mut done: usize = 0;
    let mut at: usize = 0;
    while done < n
        invariant
            n == old(entries).len(),
            removed.len() == done,
            0 <= at <= done <= n,
            entries@ == kept(old(entries)@.take(done as int), removed) + old(entries)@.skip(
                done as int,
            ),
            at == kept(old(entries)@.take(done as int), removed).len(),
            forall|i: int|
                0 <= i < removed.len() ==> call_ensures(
                    remove,
                    (&old(entries)[i],),
                    #[trigger] removed[i],
                ),
            forall|i: int|
                0 <= i < n ==> call_requires(remove, (&#[trigger] old(entries)[i],)),
        decreases n - done,
    {
        assert(entries[at as int] == old(entries)[done as int]);
        let gone: bool = remove(&entries[at]);
        proof {
            assert(old(entries)@.take(done + 1).drop_last() =~= old(entries)@.take(done as int));
            assert(removed.push(gone).drop_last() =~= removed);
            removed = removed.push(gone);
        }
        if gone {
            entries.remove(at);
        } else {
            at += 1;
        }
        done += 1;
        proof {
            assert(entries@ =~= kept(old(entries)@.take(done as int), removed) + old(
                entries,
            )@.skip(done as int));
        }
    }
    proof {
        assert(old(entries)@.take(n as int) =~= old(entries)@);
        assert(entries@ =~= kept(old(entries)@, removed));
    }
    let result = if entries.len() > 0 {
        Err(CacheError::RemoveFailed { failed: entries.len() })
    } else {
        Ok(())
    };
    proof {
        assert(cleared(old(entries)@, removed, entries@, result));
    }
    result
}

/// Position of the first file called `name`, if the listing has one.
pub open spec fn position_of(entries: Seq<CacheEntry>, name: Seq<char>) -> Option<int> {
    if exists|i: int| 0 <= i < entries.len() && entries[i].name@ == name {
        Some(choose|i: int| is_first_named(entries, name, i))
    } else {
        None
    }
}

/// `i` is the first position of the listing whose file is called `name`.
pub open spec fn is_first_named(entries: Seq<CacheEntry>, name: Seq<char>, i: int) -> bool {
    &&& 0 <= i < entries.len()
    &&& entries[i].name@ == name
    &&& forall|j: int| 0 <= j < i ==> entries[j].name@ != name
}

/// The listing after the file at position `i` was used at time `now`.
pub open spec fn touched(entries: Seq<CacheEntry>, i: int, now: u64) -> Seq<CacheEntry> {
    entries.update(i, CacheEntry { name: entries[i].name, size: entries[i].size, modified: now })
}

/// `position_of` finds the first file of that name and no other.
pub proof fn lemma_position_of(entries: Seq<CacheEntry>, name: Seq<char>, i: int)
    requires
        is_first_named(entries, name, i),
    ensures
        position_of(entries, name) == Some(i),
{
    let found = choose|k: int| is_first_named(entries, name, k);
    assert(is_first_named(entries, name, found));
    if found < i {
        assert(entries[found].name@ != name);
    } else if i < found {
        assert(entries[i].name@ != name);
    }
}

/// Directory of the cached images below the application's cache directory.
pub fn get_images_cache_dir(cache_root: &str) -> (dir: String)
    ensures
        dir@ == joined(cache_root@, "images"@),
{
    join_path(cache_root, "images")
}

/// Looks `filename` up in the cache.  A hit counts as a use: the file's time
/// of last use becomes `now`, and its path below `cache_dir` is returned.
/// On a miss the listing stays as it is.
pub fn get_cached_image(
    entries: &mut Vec<CacheEntry>,
    cache_dir: &str,
    filename: &str,
    now: u64,
) -> (path: Option<String>)
    ensures
        match position_of(old(entries)@, filename@) {
            Some(i) => {
                &&& final(entries)@ == touched(old(entries)@, i, now)
                &&& path is Some
                &&& path->0@ == joined(cache_dir@, filename@)
            },
            None => final(entries)@ == old(entries)@ && path is None,
        },
{
    let mut i: usize = 0;
    while i < entries.len()
        invariant
            0 <= i <= entries.len(),
            entries@ == old(entries)@,
            forall|j: int| 0 <= j < i ==> entries[j].name@ != filename@,
        decreases entries.len() - i,
    {
        if same_text(entries[i].name.as_str(), filename) {
            proof {
                lemma_position_of(entries@, filename@, i as int);
            }
            let hit = entries.remove(i);
            entries.insert(i, CacheEntry { name: hit.name, size: hit.size, modified: now });
            proof {
                assert(entries@ =~= touched(old(entries)@, i as int, now));
            }
            return Some(join_path(cache_dir, filename));
        }
        i += 1;
    }
    None
}

/// A lookup does not change what a later lookup of any name finds.
pub proof fn lemma_lookup_is_repeatable(
    entries: Seq<CacheEntry>,
    i: int,
    now: u64,
    name: Seq<char>,
)
    requires
        0 <= i < entries.len(),
    ensures
        position_of(touched(entries, i, now), name) == position_of(entries, name),
{
    let after = touched(entries, i, now);
    assert forall|j: int| 0 <= j < entries.len() implies (#[trigger] after[j]).name@
        == entries[j].name@ by {}
    if exists|k: int| 0 <= k < entries.len() && entries[k].name@ == name {
        let first = choose|k: int| is_first_named(entries, name, k);
        assert(is_first_named(entries, name, first)) by {
            lemma_first_named_exists(entries, name);
        }
        assert(is_first_named(after, name, first)) by {
            assert(after[first].name@ == entries[first].name@);
            assert forall|j: int| 0 <= j < first implies after[j].name@ != name by {
                assert(after[j].name@ == entries[j].name@);
            }
        }
        lemma_position_of(after, name, first);
    } else {
        assert forall|k: int| 0 <= k < after.len() implies after[k].name@ != name by {
            assert(after[k].name@ == entries[k].name@);
        }
    }
}

/// Where some file has the name, a first one has it.
pub proof fn lemma_first_named_exists(entries: Seq<CacheEntry>, name: Seq<char>)
    requires
        exists|k: int| 0 <= k < entries.len() && entries[k].name@ == name,
    ensures
        exists|i: int| is_first_named(entries, name, i),
    decreases entries.len(),
{
    let k = choose|k: int| 0 <= k < entries.len() && entries[k].name@ == name;
    if exists|j: int| 0 <= j < k && entries[j].name@ == name {
        let j = choose|j: int| 0 <= j < k && entries[j].name@ == name;
        let shorter = entries.take(k);
        assert(shorter[j].name@ == name);
        lemma_first_named_exists(shorter, name);
        let i = choose|i: int| is_first_named(shorter, name, i);
        assert(is_first_named(entries, name, i)) by {
            assert(shorter[i] == entries[i]);
            assert forall|m: int| 0 <= m < i implies entries[m].name@ != name by {
                assert(shorter[m] == entries[m]);
            }
        }
    } else {
        assert(is_first_named(entries, name, k));
    }
}

/// A hit at a time later than the file's last use moves the file's time of
/// last use forward, and changes nothing else about the listing.
pub proof fn lemma_hit_advances_last_use(entries: Seq<CacheEntry>, i: int, now: u64)
    requires
        0 <= i < entries.len(),
        entries[i].modified < now,
    ensures
        touched(entries, i, now)[i].modified > entries[i].modified,
        touched(entries, i, now)[i].name == entries[i].name,
        touched(entries, i, now)[i].size == entries[i].size,
        forall|j: int|
            0 <= j < entries.len() && j != i ==> #[trigger] touched(entries, i, now)[j]
                == entries[j],
        touched(entries, i, now).len() == entries.len(),
{
}

/// A file that was used after every other file leaves the cache last: in
/// every age order of the listing it stands at the end.
pub proof fn lemma_hit_is_evicted_last(
    entries: Seq<CacheEntry>,
    i: int,
    now: u64,
    order: Seq<usize>,
)
    requires
        0 <= i < entries.len(),
        forall|j: int| 0 <= j < entries.len() && j != i ==> entries[j].modified < now,
        is_age_order(touched(entries, i, now), order),
    ensures
        order.last() == i,
        touched(entries, i, now)[i].modified == now,
{
    let after = touched(entries, i, now);
    lemma_age_order_covers(after, order, i);
    let k = choose|k: int| 0 <= k < order.len() && order[k] == i;
    if k < order.len() - 1 {
        let last = order.len() - 1;
        assert(older(after, order[k] as int, order[last] as int));
        assert(order[last] != i);
        assert(after[order[last] as int] == entries[order[last] as int]);
    }
}

/// The file that every age order puts last survives an eviction in which
/// no removal failed, if it fits the limit by itself.
pub proof fn lemma_last_in_order_survives(
    entries: Seq<CacheEntry>,
    max_size: u64,
    report: EvictionReport,
    last: int,
)
    requires
        report.describes(entries, max_size),
        report.nothing_failed(),
        0 <= last < entries.len(),
        report.order@.last() == last,
        entries[last].size <= max_size,
    ensures
        !report.removed@[last],
        kept(entries, report.removed@).contains(entries[last]),
{
    let n = entries.len() as int;
    if report.removed@[last] {
        assert(report.attempts == n) by {
            if report.attempts < n {
                assert(!report.removed@[report.order@[n - 1] as int]);
            }
        }
        assert forall|i: int| 0 <= i < report.removed@.len() implies report.removed@[i] by {
            lemma_age_order_covers(entries, report.order@, i);
            let k = choose|k: int| 0 <= k < report.order@.len() && report.order@[k] == i;
            assert(report.removed@[report.order@[k] as int]);
        }
        lemma_flags_uniform(entries, report.removed@);
        lemma_size_within_total(entries, last);
        assert(false);
    }
    lemma_unflagged_is_kept(entries, report.removed@, last);
}

/// No file is larger than the whole listing.
pub proof fn lemma_size_within_total(entries: Seq<CacheEntry>, i: int)
    requires
        0 <= i < entries.len(),
    ensures
        entries[i].size <= total_size(entries),
    decreases entries.len(),
{
    if i < entries.len() - 1 {
        lemma_size_within_total(entries.drop_last(), i);
    }
}

/// A file whose flag is not set is among those that are kept.
pub proof fn lemma_unflagged_is_kept(entries: Seq<CacheEntry>, removed: Seq<bool>, i: int)
    requires
        removed.len() == entries.len(),
        0 <= i < entries.len(),
        !removed[i],
    ensures
        kept(entries, removed).contains(entries[i]),
    decreases entries.len(),
{
    let rest = kept(entries.drop_last(), removed.drop_last());
    if i == entries.len() - 1 {
        assert(rest.push(entries.last()).last() == entries[i]);
    } else {
        lemma_unflagged_is_kept(entries.drop_last(), removed.drop_last(), i);
        let k = choose|k: int| 0 <= k < rest.len() && rest[k] == entries[i];
        if !removed.last() {
            assert(rest.push(entries.last())[k] == entries[i]);
        }
    }
}

/// The file that was hit after every other file was last used survives the
/// next eviction in which no removal fails, if it fits the limit by itself:
/// it is removed only after all others.
pub proof fn lemma_hit_survives_eviction(
    entries: Seq<CacheEntry>,
    i: int,
    now: u64,
    max_size: u64,
    report: EvictionReport,
)
    requires
        0 <= i < entries.len(),
        forall|j: int| 0 <= j < entries.len() && j != i ==> entries[j].modified < now,
        report.describes(touched(entries, i, now), max_size),
        report.nothing_failed(),
        entries[i].size <= max_size,
    ensures
        !report.removed@[i],
        kept(touched(entries, i, now), report.removed@).contains(touched(entries, i, now)[i]),
{
    lemma_hit_is_evicted_last(entries, i, now, report.order@);
    lemma_last_in_order_survives(touched(entries, i, now), max_size, report, i);
}

/// Is the file the rest of a download that did not finish?  Such files end
/// in `.downloading`; they are removed when the application starts, since a
/// download is not taken up again after a restart.
pub fn is_partial_download(name: &str) -> (partial: bool)
    ensures
        partial == ends_with(name@, ".downloading"@),
{
    let chars = chars_of(name);
    let suffix = chars_of(crate::config::images::DOWNLOAD_SUFFIX);
    proof {
        assert(chars@.take(chars.len() as int) =~= chars@);
    }
    has_suffix(&chars, chars.len(), &suffix)
}

/// Does `path` lie in the directory `dir` or below it: is it `dir` itself,
/// or `dir` followed by `/` and more?  A directory that itself ends in `/`
/// holds every path that begins with it.
pub open spec fn is_below(path: Seq<char>, dir: Seq<char>) -> bool {
    &&& dir.len() > 0
    &&& starts_with(path, dir)
    &&& path.len() == dir.len() || dir.last() == '/' || path[dir.len() as int] == '/'
}

/// May the file at `image_path` be deleted as a downloaded image?  Only
/// files inside the cache directory may.
pub fn may_delete(image_path: &str, cache_dir: &str) -> (allowed: bool)
    ensures
        allowed == is_below(image_path@, cache_dir@),
{
    let path = chars_of(image_path);
    let dir = chars_of(cache_dir);
    if dir.len() == 0 || !has_prefix(&path, &dir) {
        return false;
    }
    path.len() == dir.len() || dir[dir.len() - 1] == '/' || path[dir.len()] == '/'
}

} // verus!
