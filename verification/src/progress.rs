//! The party that watches a running transfer.
//!
//! A worker owns the state of its operation and changes it alone.  Whoever
//! started the operation watches it through an [`Observer`]: the worker asks it
//! at every chunk boundary whether to stop, and hands it each new state so
//! that a polling caller can read a snapshot at any time.  Cancellation is
//! cooperative: nothing stops a worker but its own check.  What an observer
//! answers is bounded from both sides: it says yes only if it can cancel,
//! and it says yes whenever a request to stop stands.  Its answers are
//! noted, so that an operation can promise to obey the first yes: see
//! [`heeds`].
//!
//! A state notes the numbers that its observer was shown, so that an
//! operation can promise that progress never runs backwards: see
//! [`Reading`], [`is_steady`] and [`goes_on`].

use vstd::prelude::*;

verus! {

/// Watches an operation whose state is an `S`.
pub trait Observer<S> {
    /// Can this observer ever ask for the operation to stop?  Unless an
    /// observer says otherwise, it can.
    open spec fn can_cancel(&self) -> bool {
        true
    }

    /// Does a request to stop stand, so that this observer says yes
    /// whenever it is asked?  Unless an observer says so, none does.
    open spec fn must_cancel(&self) -> bool {
        false
    }

    /// The answers that this observer gave when it was asked whether to
    /// stop, first to last.  Of an observer that does not say, nothing is
    /// known.
    open spec fn answers(&self) -> Seq<bool> {
        arbitrary()
    }

    /// Has the operation been asked to stop?  The answer is noted.
    fn is_cancelled(&mut self) -> (cancelled: bool)
        ensures
            cancelled ==> old(self).can_cancel(),
            old(self).must_cancel() ==> cancelled,
            final(self).can_cancel() == old(self).can_cancel(),
            final(self).must_cancel() == old(self).must_cancel(),
            final(self).answers() == old(self).answers().push(cancelled),
    ;

    /// Takes note of the operation's state as it is now.
    fn publish(&self, state: &S);
}

/// An observer that never cancels and keeps no snapshots.
pub struct Unattended {
    log: Ghost<Seq<bool>>,
}

impl Unattended {
    /// The answers given so far.
    pub closed spec fn given(&self) -> Seq<bool> {
        self.log@
    }

    /// An observer that was not asked anything yet.
    pub fn new() -> (observer: Unattended)
        ensures
            observer.given() == Seq::<bool>::empty(),
    {
        Unattended { log: Ghost(Seq::empty()) }
    }
}

impl<S> Observer<S> for Unattended {
    open spec fn can_cancel(&self) -> bool {
        false
    }

    open spec fn answers(&self) -> Seq<bool> {
        self.given()
    }

    fn is_cancelled(&mut self) -> (cancelled: bool) {
        proof {
            self.log@ = self.log@.push(false);
        }
        false
    }

    fn publish(&self, state: &S) {
    }
}

/// An observer with which a request to stop stands: it says yes whenever
/// it is asked, and keeps no snapshots.
pub struct Stopped {
    log: Ghost<Seq<bool>>,
}

impl Stopped {
    /// The answers given so far.
    pub closed spec fn given(&self) -> Seq<bool> {
        self.log@
    }

    /// An observer that was not asked anything yet.
    pub fn new() -> (observer: Stopped)
        ensures
            observer.given() == Seq::<bool>::empty(),
    {
        Stopped { log: Ghost(Seq::empty()) }
    }
}

impl<S> Observer<S> for Stopped {
    open spec fn can_cancel(&self) -> bool {
        true
    }

    open spec fn must_cancel(&self) -> bool {
        true
    }

    open spec fn answers(&self) -> Seq<bool> {
        self.given()
    }

    fn is_cancelled(&mut self) -> (cancelled: bool) {
        proof {
            self.log@ = self.log@.push(true);
        }
        true
    }

    fn publish(&self, state: &S) {
    }
}

/// How many answers were taken between the two logs.
pub open spec fn asked(before: Seq<bool>, after: Seq<bool>) -> nat {
    if after.len() >= before.len() {
        (after.len() - before.len()) as nat
    } else {
        0
    }
}

/// An operation heeded its observer: the log of answers `after` goes on
/// from `before`, every answer that the operation took but the last was no,
/// and the operation ended as cancelled exactly if the last was yes.  So
/// the observer is obeyed at the first question that it answers with yes,
/// and is asked nothing after it.
pub open spec fn heeds(before: Seq<bool>, after: Seq<bool>, cancelled: bool) -> bool {
    &&& before.len() <= after.len()
    &&& after.take(before.len() as int) == before
    &&& forall|i: int| before.len() <= i < after.len() - 1 ==> !#[trigger] after[i]
    &&& cancelled <==> (before.len() < after.len() && after.last())
}

/// An operation that has asked nothing has heeded its observer.
pub proof fn lemma_heeds_begins(log: Seq<bool>)
    ensures
        heeds(log, log, false),
        asked(log, log) == 0,
{
    assert(log.take(log.len() as int) =~= log);
}

/// An operation that went on after every answer still heeds its observer
/// when it takes one more answer and stops if that is yes.
pub proof fn lemma_heeds_answer(before: Seq<bool>, after: Seq<bool>, answer: bool)
    requires
        heeds(before, after, false),
    ensures
        heeds(before, after.push(answer), answer),
        asked(before, after.push(answer)) == asked(before, after) + 1,
{
    assert(after.push(answer).take(before.len() as int) =~= after.take(before.len() as int));
    assert forall|i: int| before.len() <= i < after.len() implies !after[i] by {
        if i == after.len() - 1 {
            assert(after.last() == after[i]);
        }
    }
}

/// Two parts of an operation that each heeded the observer, the first of
/// which was not cancelled, make a whole that heeded it.
pub proof fn lemma_heeds_joins(
    first: Seq<bool>,
    second: Seq<bool>,
    third: Seq<bool>,
    cancelled: bool,
)
    requires
        heeds(first, second, false),
        heeds(second, third, cancelled),
    ensures
        heeds(first, third, cancelled),
        asked(first, third) == asked(first, second) + asked(second, third),
{
    assert(third.take(first.len() as int) =~= second.take(first.len() as int)) by {
        assert(third.take(second.len() as int).take(first.len() as int) =~= third.take(
            first.len() as int,
        ));
    }
    assert forall|i: int| first.len() <= i < third.len() - 1 implies !third[i] by {
        if i < second.len() {
            assert(third.take(second.len() as int)[i] == third[i]);
            if i == second.len() - 1 {
                assert(second.last() == second[i]);
            }
        }
    }
    if third.len() == second.len() {
        assert(third =~= second);
    }
}

/// An operation kept pace with its observer: it moved no more than one
/// chunk for each answer that it took, and nothing after the answer that
/// cancelled it.  So a request to stop is obeyed after one more chunk at
/// the most.
pub open spec fn keeps_pace(
    before: Seq<bool>,
    after: Seq<bool>,
    moved: nat,
    chunk: nat,
    cancelled: bool,
) -> bool {
    if cancelled {
        moved + chunk <= asked(before, after) * chunk
    } else {
        moved <= asked(before, after) * chunk
    }
}

/// An operation that has asked nothing and moved nothing keeps pace.
pub proof fn lemma_pace_begins(log: Seq<bool>, chunk: nat)
    ensures
        keeps_pace(log, log, 0, chunk, false),
        0 <= asked(log, log) * chunk,
{
    assert(asked(log, log) * chunk == 0) by (nonlinear_arith)
        requires
            asked(log, log) == 0,
    ;
}

/// One more answer allows for one more chunk.
pub proof fn lemma_pace_step(answers: nat, chunk: nat, moved: nat, more: nat)
    requires
        moved <= answers * chunk,
        more <= chunk,
    ensures
        moved + more <= (answers + 1) * chunk,
        moved + chunk <= (answers + 1) * chunk,
{
    assert((answers + 1) * chunk == answers * chunk + chunk) by (nonlinear_arith);
}

/// What was moved within the pace of the answers taken so far is within the
/// pace of the answers taken in all.
pub proof fn lemma_pace_goes_on(
    before: Seq<bool>,
    so_far: Seq<bool>,
    after: Seq<bool>,
    moved: nat,
    chunk: nat,
)
    requires
        before.len() <= so_far.len() <= after.len(),
        moved <= asked(before, so_far) * chunk,
    ensures
        moved <= asked(before, after) * chunk,
{
    assert(asked(before, so_far) * chunk <= asked(before, after) * chunk) by (nonlinear_arith)
        requires
            asked(before, so_far) <= asked(before, after),
    ;
}

/// Asks the observer whether to stop, in an operation that has heeded it
/// since the log of its answers was `before`.
pub fn ask<S, O: Observer<S>>(observer: &mut O, Ghost(before): Ghost<Seq<bool>>) -> (stop: bool)
    requires
        heeds(before, old(observer).answers(), false),
    ensures
        heeds(before, final(observer).answers(), stop),
        asked(before, final(observer).answers()) == asked(before, old(observer).answers()) + 1,
        final(observer).answers() == old(observer).answers().push(stop),
        final(observer).can_cancel() == old(observer).can_cancel(),
        final(observer).must_cancel() == old(observer).must_cancel(),
        stop ==> old(observer).can_cancel(),
        old(observer).must_cancel() ==> stop,
{
    proof {
        lemma_heeds_answer(before, observer.answers(), true);
        lemma_heeds_answer(before, observer.answers(), false);
    }
    observer.is_cancelled()
}

/// How far a transfer of `total` bytes is after `done` bytes, in whole
/// percent: 0 while the total is unknown, 100 once `done` has reached it.
pub open spec fn percent_of(done: u64, total: u64) -> nat {
    if total == 0 {
        0
    } else if done >= total {
        100
    } else {
        (done as nat * 100) / (total as nat)
    }
}

/// Whole percent of `total` that `done` amounts to.
pub fn progress_percent(done: u64, total: u64) -> (percent: u64)
    ensures
        percent == percent_of(done, total),
        percent <= 100,
{
    if total == 0 {
        return 0;
    }
    if done >= total {
        return 100;
    }
    let wide: u128 = (done as u128) * 100 / (total as u128);
    proof {
        assert((done as nat * 100) / (total as nat) <= 100) by (nonlinear_arith)
            requires
                total >= 1,
                done < total,
        ;
    }
    wide as u64
}

/// The numbers of a transfer as an observer is shown them at one moment:
/// the size of the whole, how much of it is done, and how much of that was
/// checked afterwards.
pub struct Reading {
    pub total: u64,
    pub done: u64,
    pub checked: u64,
}

/// `later` shows at least as much as `earlier` in every number.
pub open spec fn no_less(earlier: Reading, later: Reading) -> bool {
    &&& earlier.total <= later.total
    &&& earlier.done <= later.done
    &&& earlier.checked <= later.checked
}

/// Progress never runs backwards in the log: of two readings, the later one
/// shows no less than the earlier.
pub open spec fn is_steady(log: Seq<Reading>) -> bool {
    forall|i: int, j: int|
        0 <= i <= j < log.len() ==> no_less(#[trigger] log[i], #[trigger] log[j])
}

/// The log `after` goes on from the log `before`: it begins with it, and
/// the readings that it adds never run backwards and lie between `low` and
/// `high`.
pub closed spec fn goes_on(
    before: Seq<Reading>,
    after: Seq<Reading>,
    low: Reading,
    high: Reading,
) -> bool {
    &&& before.len() <= after.len()
    &&& after.take(before.len() as int) == before
    &&& no_less(low, high)
    &&& forall|i: int|
        before.len() <= i < after.len() ==> no_less(low, #[trigger] after[i]) && no_less(
            after[i],
            high,
        )
    &&& forall|i: int, j: int|
        before.len() <= i <= j < after.len() ==> no_less(#[trigger] after[i], #[trigger] after[j])
}

/// A log goes on from itself.
pub proof fn lemma_goes_on_begins(log: Seq<Reading>, at: Reading)
    ensures
        goes_on(log, log, at, at),
{
    assert(log.take(log.len() as int) =~= log);
}

/// A log that goes on still does so after a reading was added that is no
/// less than all before it.
pub proof fn lemma_goes_on_with(
    before: Seq<Reading>,
    after: Seq<Reading>,
    low: Reading,
    high: Reading,
    now: Reading,
)
    requires
        goes_on(before, after, low, high),
        no_less(high, now),
    ensures
        goes_on(before, after.push(now), low, now),
{
    assert(after.push(now).take(before.len() as int) =~= after.take(before.len() as int));
}

/// The bounds between which a log goes on can be widened.
pub proof fn lemma_goes_on_within(
    before: Seq<Reading>,
    after: Seq<Reading>,
    low: Reading,
    high: Reading,
    lower: Reading,
    higher: Reading,
)
    requires
        goes_on(before, after, low, high),
        no_less(lower, low),
        no_less(high, higher),
    ensures
        goes_on(before, after, lower, higher),
{
}

/// A log that goes on from a first to a second and from the second to a
/// third goes on from the first to the third, if the second part begins no
/// lower than the first ends.
pub proof fn lemma_goes_on_joins(
    first: Seq<Reading>,
    second: Seq<Reading>,
    third: Seq<Reading>,
    low: Reading,
    middle: Reading,
    resumed: Reading,
    high: Reading,
)
    requires
        goes_on(first, second, low, middle),
        goes_on(second, third, resumed, high),
        no_less(middle, resumed),
    ensures
        goes_on(first, third, low, high),
{
    assert(third.take(first.len() as int) =~= second.take(first.len() as int)) by {
        assert(third.take(second.len() as int).take(first.len() as int) =~= third.take(
            first.len() as int,
        ));
    }
    assert forall|i: int| first.len() <= i < second.len() implies third[i] == second[i] by {
        assert(third.take(second.len() as int)[i] == third[i]);
    }
}

/// What going on says of the two logs: the later one begins with the
/// earlier, and its new readings are within the bounds and in order.
pub proof fn lemma_goes_on_means(
    before: Seq<Reading>,
    after: Seq<Reading>,
    low: Reading,
    high: Reading,
)
    requires
        goes_on(before, after, low, high),
    ensures
        before.len() <= after.len(),
        after.take(before.len() as int) == before,
        forall|i: int|
            before.len() <= i < after.len() ==> no_less(low, #[trigger] after[i]) && no_less(
                after[i],
                high,
            ),
        forall|i: int, j: int|
            before.len() <= i <= j < after.len() ==> no_less(
                #[trigger] after[i],
                #[trigger] after[j],
            ),
{
}

/// What a log holds that goes on from an empty one: readings that never
/// run backwards, each within the bounds.
pub proof fn lemma_goes_on_is_steady(log: Seq<Reading>, low: Reading, high: Reading)
    requires
        goes_on(Seq::<Reading>::empty(), log, low, high),
    ensures
        is_steady(log),
        forall|i: int| 0 <= i < log.len() ==> no_less(low, #[trigger] log[i]) && no_less(log[i], high),
{
    lemma_goes_on_means(Seq::<Reading>::empty(), log, low, high);
}

/// What was done when the reading at position `i` of the log was shown
/// the time before: the `done` of the reading before it, or `start` for the
/// first reading added since the log was `from` long.
pub open spec fn done_before(log: Seq<Reading>, from: int, start: u64, i: int) -> u64 {
    if i <= from {
        start
    } else {
        log[i - 1].done
    }
}

/// The readings that `after` adds to `before` tell of a transfer chunk by
/// chunk: each shows a `done` that is no less than the one before it,
/// beginning at `start`, and more by one chunk at the most.  So nothing is
/// moved that is not shown before the next chunk is.
pub open spec fn is_chunked(before: Seq<Reading>, after: Seq<Reading>, start: u64, chunk: nat) -> bool {
    &&& before.len() <= after.len()
    &&& after.take(before.len() as int) == before
    &&& forall|i: int|
        before.len() <= i < after.len() ==> {
            &&& done_before(after, before.len() as int, start, i) <= (#[trigger] after[i]).done
            &&& after[i].done - done_before(after, before.len() as int, start, i) <= chunk
        }
}

/// The `done` of the last reading that `after` adds to `before`, or `start`
/// if it adds none.
pub open spec fn last_done(before: Seq<Reading>, after: Seq<Reading>, start: u64) -> u64 {
    done_before(after, before.len() as int, start, after.len() as int)
}

/// A log tells of a transfer chunk by chunk before anything is added.
pub proof fn lemma_chunked_begins(log: Seq<Reading>, start: u64, chunk: nat)
    ensures
        is_chunked(log, log, start, chunk),
        last_done(log, log, start) == start,
{
    assert(log.take(log.len() as int) =~= log);
}

/// A log that tells of a transfer chunk by chunk still does so with one
/// more reading that is ahead of the last by a chunk at the most.
pub proof fn lemma_chunked_with(
    before: Seq<Reading>,
    after: Seq<Reading>,
    start: u64,
    chunk: nat,
    now: Reading,
)
    requires
        is_chunked(before, after, start, chunk),
        last_done(before, after, start) <= now.done,
        now.done - last_done(before, after, start) <= chunk,
    ensures
        is_chunked(before, after.push(now), start, chunk),
        last_done(before, after.push(now), start) == now.done,
{
    let longer = after.push(now);
    assert(longer.take(before.len() as int) =~= after.take(before.len() as int));
    assert forall|i: int| before.len() <= i < longer.len() implies {
        &&& done_before(longer, before.len() as int, start, i) <= (#[trigger] longer[i]).done
        &&& longer[i].done - done_before(longer, before.len() as int, start, i) <= chunk
    } by {
        if i < after.len() {
            assert(longer[i] == after[i]);
            assert(done_before(longer, before.len() as int, start, i) == done_before(
                after,
                before.len() as int,
                start,
                i,
            ));
        }
    }
}

/// Two stretches that each tell of a transfer chunk by chunk, the second
/// beginning where the first ended, make one that does.
pub proof fn lemma_chunked_joins(
    first: Seq<Reading>,
    second: Seq<Reading>,
    third: Seq<Reading>,
    start: u64,
    chunk: nat,
)
    requires
        is_chunked(first, second, start, chunk),
        is_chunked(second, third, last_done(first, second, start), chunk),
    ensures
        is_chunked(first, third, start, chunk),
        last_done(first, third, start) == last_done(
            second,
            third,
            last_done(first, second, start),
        ),
{
    let from = first.len() as int;
    let mid = second.len() as int;
    let resumed = last_done(first, second, start);
    assert(third.take(from) =~= second.take(from)) by {
        assert(third.take(mid).take(from) =~= third.take(from));
    }
    assert forall|i: int| from <= i < third.len() implies {
        &&& done_before(third, from, start, i) <= (#[trigger] third[i]).done
        &&& third[i].done - done_before(third, from, start, i) <= chunk
    } by {
        if i < mid {
            assert(third.take(mid)[i] == third[i]);
            assert(second[i] == third[i]);
            if i > from {
                assert(third.take(mid)[i - 1] == third[i - 1]);
            }
            assert(done_before(third, from, start, i) == done_before(second, from, start, i));
        } else {
            if i == mid {
                if mid > from {
                    assert(third.take(mid)[mid - 1] == third[mid - 1]);
                }
                assert(done_before(third, from, start, i) == resumed);
                assert(done_before(third, mid, resumed, i) == resumed);
            } else {
                assert(done_before(third, from, start, i) == done_before(third, mid, resumed, i));
            }
        }
    }
    if third.len() == mid {
        assert(third =~= second);
    } else {
        assert(third.take(mid)[mid - 1] == third[mid - 1] || mid == 0);
    }
}

/// Every reading of the log shows a total of 0 or of `declared`.
pub open spec fn totals_are(log: Seq<Reading>, declared: u64) -> bool {
    forall|i: int| 0 <= i < log.len() ==> (#[trigger] log[i]).total == 0 || log[i].total == declared
}

/// One more reading with such a total keeps the totals as they are.
pub proof fn lemma_totals_with(log: Seq<Reading>, declared: u64, now: Reading)
    requires
        totals_are(log, declared),
        now.total == 0 || now.total == declared,
    ensures
        totals_are(log.push(now), declared),
{
}

/// Readings that go on between two bounds of one total have that total.
pub proof fn lemma_totals_go_on(
    before: Seq<Reading>,
    after: Seq<Reading>,
    low: Reading,
    high: Reading,
    declared: u64,
)
    requires
        totals_are(before, declared),
        goes_on(before, after, low, high),
        low.total == high.total,
        low.total == 0 || low.total == declared,
    ensures
        totals_are(after, declared),
{
    assert forall|i: int| 0 <= i < after.len() implies (#[trigger] after[i]).total == 0
        || after[i].total == declared by {
        if i < before.len() {
            assert(after.take(before.len() as int)[i] == after[i]);
        }
    }
}

} // verus!
