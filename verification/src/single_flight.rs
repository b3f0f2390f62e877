//! Laws of the cache and the refresh lock in a store that other requests use at the same time.
//!
//! The model of a store is one slot. A write under a condition takes place at once or not at all,
//! gives the entry a version that no earlier entry had, and nothing but a write changes the slot.

use crate::cache::{
    claim, inspection, retake, tries_after, write_condition, Claim, ConditionView, InspectionView,
    LockOutcome, LookupView, Stored, CAS_MAX_RETRIES, REFRESH_LOCK_TTL_SECONDS,
};
use crate::cdgc::{CachedMeta, RefreshLock};
use vstd::prelude::*;

verus! {

/// What a store holds under a key.
pub struct Slot<T> {
    pub entry: Option<T>,
    /// The number of writes so far.
    pub writes: nat,
}

/// No two versions are equal.
pub open spec fn versions_differ(versions: spec_fn(nat) -> Seq<char>) -> bool {
    forall|i: nat, j: nat| #[trigger] versions(i) == #[trigger] versions(j) ==> i == j
}

/// The answer to reading a slot.
pub open spec fn look<T>(slot: Slot<T>, versions: spec_fn(nat) -> Seq<char>) -> LookupView<T> {
    match slot.entry {
        Some(entry) => LookupView::Found { entry, version: versions(slot.writes) },
        None => LookupView::Missing,
    }
}

/// The answer to writing a slot under a condition.
pub open spec fn answer<T>(
    slot: Slot<T>,
    versions: spec_fn(nat) -> Seq<char>,
    condition: ConditionView,
) -> Stored {
    let met = match condition {
        ConditionView::Absent => slot.entry is None,
        ConditionView::Version(version) => slot.entry is Some && versions(slot.writes) == version,
    };
    if met {
        Stored::Done
    } else {
        Stored::Mismatch
    }
}

/// A slot after a write that was answered.
pub open spec fn written<T>(slot: Slot<T>, entry: T, outcome: Stored) -> Slot<T> {
    if outcome is Done {
        Slot { entry: Some(entry), writes: slot.writes + 1 }
    } else {
        slot
    }
}

/// Where an attempt on the lock stands.
pub enum Stage {
    /// Its first write comes next.
    Claiming,
    /// Its reading comes next.
    Looking,
    /// Its second write comes next. `seen` is the number of writes when it read.
    Retaking { condition: ConditionView, seen: nat },
    Over(LockOutcome),
}

/// Some attempts on one lock.
pub struct Contest {
    pub slot: Slot<RefreshLock>,
    pub stages: Seq<Stage>,
    /// The attempts that acquired the lock, in order.
    pub winners: Seq<int>,
}

/// The attempts before their first step.
pub open spec fn contest(slot: Slot<RefreshLock>, attempts: nat) -> Contest {
    Contest { slot, stages: Seq::new(attempts, |i: int| Stage::Claiming), winners: Seq::empty() }
}

/// The contest after a write of an attempt was answered.
pub open spec fn after_write(
    c: Contest,
    nows: Seq<i64>,
    who: int,
    outcome: Stored,
    stage: Stage,
) -> Contest {
    Contest {
        slot: written(c.slot, RefreshLock { acquired_at: nows[who] }, outcome),
        stages: c.stages.update(who, stage),
        winners: if outcome is Done {
            c.winners.push(who)
        } else {
            c.winners
        },
    }
}

/// The contest after the next step of an attempt. A step that fails has no effect on the slot.
pub open spec fn after_step(
    c: Contest,
    nows: Seq<i64>,
    versions: spec_fn(nat) -> Seq<char>,
    who: int,
    fails: bool,
) -> Contest {
    match c.stages[who] {
        Stage::Claiming => {
            let outcome = if fails {
                Stored::Failed
            } else {
                answer(c.slot, versions, ConditionView::Absent)
            };
            let stage = match claim(outcome) {
                Claim::Over(over) => Stage::Over(over),
                Claim::Contended => Stage::Looking,
            };
            after_write(c, nows, who, outcome, stage)
        },
        Stage::Looking => {
            let found = if fails {
                LookupView::Failed
            } else {
                look(c.slot, versions)
            };
            let stage = match inspection(found, nows[who] as int) {
                InspectionView::Over(over) => Stage::Over(over),
                InspectionView::Free(condition) => Stage::Retaking {
                    condition,
                    seen: c.slot.writes,
                },
            };
            Contest { stages: c.stages.update(who, stage), ..c }
        },
        Stage::Retaking { condition, .. } => {
            let outcome = if fails {
                Stored::Failed
            } else {
                answer(c.slot, versions, condition)
            };
            after_write(c, nows, who, outcome, Stage::Over(retake(outcome)))
        },
        Stage::Over(_) => c,
    }
}

/// The contest after the steps of a schedule, each with the attempt that makes it and whether it
/// fails.
pub open spec fn after_steps(
    c: Contest,
    nows: Seq<i64>,
    versions: spec_fn(nat) -> Seq<char>,
    schedule: Seq<(int, bool)>,
) -> Contest
    decreases schedule.len(),
{
    if schedule.len() == 0 {
        c
    } else {
        let before = after_steps(c, nows, versions, schedule.drop_last());
        let (who, fails) = schedule.last();
        if 0 <= who < nows.len() {
            after_step(before, nows, versions, who, fails)
        } else {
            before
        }
    }
}

/// An attempt that read a lock and found it free knows a version that is out of date, or a lock
/// that is old enough.
spec fn stage_is_sound(
    c: Contest,
    nows: Seq<i64>,
    versions: spec_fn(nat) -> Seq<char>,
    who: int,
) -> bool {
    match c.stages[who] {
        Stage::Retaking { condition: ConditionView::Version(version), seen } => {
            &&& seen <= c.slot.writes
            &&& version == versions(seen)
            &&& seen == c.slot.writes ==> (c.slot.entry matches Some(lock) && nows[who]
                - lock.acquired_at >= REFRESH_LOCK_TTL_SECONDS)
        },
        _ => true,
    }
}

/// Each winner comes at least the lock's time after the one before it.
spec fn winners_are_apart(nows: Seq<i64>, winners: Seq<int>) -> bool {
    forall|i: int, j: int|
        0 <= i < j < winners.len() ==> nows[#[trigger] winners[j]] - nows[#[trigger] winners[i]]
            >= REFRESH_LOCK_TTL_SECONDS
}

spec fn contest_is_sound(
    c: Contest,
    first: Option<RefreshLock>,
    nows: Seq<i64>,
    versions: spec_fn(nat) -> Seq<char>,
) -> bool {
    &&& c.stages.len() == nows.len()
    &&& forall|who: int| 0 <= who < nows.len() ==> #[trigger] stage_is_sound(c, nows, versions, who)
    &&& forall|i: int| 0 <= i < c.winners.len() ==> 0 <= #[trigger] c.winners[i] < nows.len()
    &&& winners_are_apart(nows, c.winners)
    &&& if c.winners.len() > 0 {
        c.slot.entry == Some(RefreshLock { acquired_at: nows[c.winners.last()] })
    } else {
        c.slot.entry == first
    }
    &&& first matches Some(lock) ==> forall|i: int|
        0 <= i < c.winners.len() ==> nows[#[trigger] c.winners[i]] - lock.acquired_at
            >= REFRESH_LOCK_TTL_SECONDS
    &&& forall|who: int|
        0 <= who < nows.len() && (#[trigger] c.stages[who]) == Stage::Over(LockOutcome::Acquired)
            ==> c.winners.contains(who)
}

proof fn lemma_write_keeps_contest_sound(
    c: Contest,
    first: Option<RefreshLock>,
    nows: Seq<i64>,
    versions: spec_fn(nat) -> Seq<char>,
    who: int,
    condition: ConditionView,
    outcome: Stored,
    stage: Stage,
)
    requires
        versions_differ(versions),
        contest_is_sound(c, first, nows, versions),
        0 <= who < nows.len(),
        condition is Absent || (c.stages[who] matches Stage::Retaking { condition: held, .. }
            && held == condition),
        outcome is Failed || outcome == answer(c.slot, versions, condition),
        !(stage is Retaking),
        stage == Stage::Over(LockOutcome::Acquired) ==> outcome is Done,
    ensures
        contest_is_sound(after_write(c, nows, who, outcome, stage), first, nows, versions),
{
    let next = after_write(c, nows, who, outcome, stage);
    if outcome is Done {
        assert(stage_is_sound(c, nows, versions, who));
        assert forall|i: int| 0 <= i < c.winners.len() implies nows[who] - nows[
            #[trigger] c.winners[i]] >= REFRESH_LOCK_TTL_SECONDS by {
            let last = c.winners.len() - 1;
            if i < last {
                assert(nows[c.winners[last]] - nows[c.winners[i]] >= REFRESH_LOCK_TTL_SECONDS);
            }
        }
        assert(next.winners[next.winners.len() - 1] == who);
    }
    assert forall|at: int| 0 <= at < nows.len() implies #[trigger] stage_is_sound(
        next,
        nows,
        versions,
        at,
    ) by {
        assert(stage_is_sound(c, nows, versions, at));
    }
    assert forall|at: int|
        0 <= at < nows.len() && (#[trigger] next.stages[at]) == Stage::Over(
            LockOutcome::Acquired,
        ) implies next.winners.contains(at) by {
        if at == who {
            assert(next.winners[next.winners.len() - 1] == who);
        } else {
            assert(c.stages[at] == next.stages[at]);
            let i = choose|i: int| 0 <= i < c.winners.len() && c.winners[i] == at;
            assert(next.winners[i] == at);
        }
    }
}

proof fn lemma_step_keeps_contest_sound(
    c: Contest,
    first: Option<RefreshLock>,
    nows: Seq<i64>,
    versions: spec_fn(nat) -> Seq<char>,
    who: int,
    fails: bool,
)
    requires
        versions_differ(versions),
        contest_is_sound(c, first, nows, versions),
        0 <= who < nows.len(),
    ensures
        contest_is_sound(after_step(c, nows, versions, who, fails), first, nows, versions),
{
    let next = after_step(c, nows, versions, who, fails);
    match c.stages[who] {
        Stage::Claiming => {
            let outcome = if fails {
                Stored::Failed
            } else {
                answer(c.slot, versions, ConditionView::Absent)
            };
            lemma_write_keeps_contest_sound(
                c,
                first,
                nows,
                versions,
                who,
                ConditionView::Absent,
                outcome,
                next.stages[who],
            );
        },
        Stage::Looking => {
            assert forall|at: int| 0 <= at < nows.len() implies #[trigger] stage_is_sound(
                next,
                nows,
                versions,
                at,
            ) by {
                assert(stage_is_sound(c, nows, versions, at));
            }
            assert forall|at: int|
                0 <= at < nows.len() && (#[trigger] next.stages[at]) == Stage::Over(
                    LockOutcome::Acquired,
                ) implies next.winners.contains(at) by {
                assert(at != who);
                assert(c.stages[at] == next.stages[at]);
            }
        },
        Stage::Retaking { condition, .. } => {
            let outcome = if fails {
                Stored::Failed
            } else {
                answer(c.slot, versions, condition)
            };
            lemma_write_keeps_contest_sound(
                c,
                first,
                nows,
                versions,
                who,
                condition,
                outcome,
                next.stages[who],
            );
        },
        Stage::Over(_) => {},
    }
}

proof fn lemma_steps_keep_contest_sound(
    slot: Slot<RefreshLock>,
    nows: Seq<i64>,
    versions: spec_fn(nat) -> Seq<char>,
    schedule: Seq<(int, bool)>,
)
    requires
        versions_differ(versions),
    ensures
        contest_is_sound(
            after_steps(contest(slot, nows.len()), nows, versions, schedule),
            slot.entry,
            nows,
            versions,
        ),
    decreases schedule.len(),
{
    if schedule.len() > 0 {
        lemma_steps_keep_contest_sound(slot, nows, versions, schedule.drop_last());
        let before = after_steps(contest(slot, nows.len()), nows, versions, schedule.drop_last());
        let (who, fails) = schedule.last();
        if 0 <= who < nows.len() {
            lemma_step_keeps_contest_sound(before, slot.entry, nows, versions, who, fails);
        }
    }
}

/// However the steps of any number of attempts interleave, and whichever of them fail, every
/// request that acquires the lock does so at least [`REFRESH_LOCK_TTL_SECONDS`] after the one that
/// acquired it before.
pub proof fn lock_holders_come_one_after_the_other(
    slot: Slot<RefreshLock>,
    nows: Seq<i64>,
    versions: spec_fn(nat) -> Seq<char>,
    schedule: Seq<(int, bool)>,
)
    requires
        versions_differ(versions),
    ensures
        ({
            let winners = after_steps(
                contest(slot, nows.len()),
                nows,
                versions,
                schedule,
            ).winners;
            &&& forall|i: int| 0 <= i < winners.len() ==> 0 <= #[trigger] winners[i] < nows.len()
            &&& forall|i: int, j: int|
                0 <= i < j < winners.len() ==> nows[#[trigger] winners[j]] - nows[
                    #[trigger] winners[i]] >= REFRESH_LOCK_TTL_SECONDS
            &&& slot.entry matches Some(lock) ==> forall|i: int|
                0 <= i < winners.len() ==> nows[#[trigger] winners[i]] - lock.acquired_at
                    >= REFRESH_LOCK_TTL_SECONDS
        }),
{
    lemma_steps_keep_contest_sound(slot, nows, versions, schedule);
}

/// Of requests that come within [`REFRESH_LOCK_TTL_SECONDS`] of each other at most one acquires the
/// lock, however their steps interleave.
pub proof fn one_of_simultaneous_requests_acquires_the_lock(
    slot: Slot<RefreshLock>,
    nows: Seq<i64>,
    versions: spec_fn(nat) -> Seq<char>,
    schedule: Seq<(int, bool)>,
    one: int,
    other: int,
)
    requires
        versions_differ(versions),
        forall|i: int, j: int|
            0 <= i < nows.len() && 0 <= j < nows.len() ==> #[trigger] nows[i] - #[trigger] nows[j]
                < REFRESH_LOCK_TTL_SECONDS,
        0 <= one < nows.len(),
        0 <= other < nows.len(),
    ensures
        ({
            let stages = after_steps(contest(slot, nows.len()), nows, versions, schedule).stages;
            stages[one] == Stage::Over(LockOutcome::Acquired) && stages[other] == Stage::Over(
                LockOutcome::Acquired,
            ) ==> one == other
        }),
{
    lemma_steps_keep_contest_sound(slot, nows, versions, schedule);
    let c = after_steps(contest(slot, nows.len()), nows, versions, schedule);
    if c.stages[one] == Stage::Over(LockOutcome::Acquired) && c.stages[other] == Stage::Over(
        LockOutcome::Acquired,
    ) && one != other {
        let i = choose|i: int| 0 <= i < c.winners.len() && c.winners[i] == one;
        let j = choose|j: int| 0 <= j < c.winners.len() && c.winners[j] == other;
        if i < j {
            assert(nows[c.winners[j]] - nows[c.winners[i]] >= REFRESH_LOCK_TTL_SECONDS);
        } else {
            assert(nows[c.winners[i]] - nows[c.winners[j]] >= REFRESH_LOCK_TTL_SECONDS);
        }
    }
}

/// A request that no other disturbs acquires the lock exactly where there is none or where it is
/// [`REFRESH_LOCK_TTL_SECONDS`] old; else it leaves the lock as it is.
pub proof fn an_undisturbed_request_acquires_a_free_lock(
    slot: Slot<RefreshLock>,
    now: i64,
    versions: spec_fn(nat) -> Seq<char>,
)
    ensures
        ({
            let steps = seq![(0int, false), (0int, false), (0int, false)];
            let c = after_steps(contest(slot, 1), seq![now], versions, steps);
            let free = slot.entry matches Some(lock) ==> now - lock.acquired_at
                >= REFRESH_LOCK_TTL_SECONDS;
            if free {
                &&& c.stages[0] == Stage::Over(LockOutcome::Acquired)
                &&& c.slot.entry == Some(RefreshLock { acquired_at: now })
            } else {
                &&& c.stages[0] == Stage::Over(LockOutcome::Held)
                &&& c.slot == slot
            }
        }),
{
    reveal_with_fuel(after_steps, 4);
    let steps = seq![(0int, false), (0int, false), (0int, false)];
    assert(steps.drop_last() =~= seq![(0int, false), (0int, false)]);
    assert(steps.drop_last().drop_last() =~= seq![(0int, false)]);
    assert(steps.drop_last().drop_last().drop_last().len() == 0);
}

/// A cached entry that is written before another request writes is what the next reading finds,
/// whatever the key held.
pub proof fn a_written_entry_is_read_back(
    slot: Slot<CachedMeta>,
    versions: spec_fn(nat) -> Seq<char>,
    entry: CachedMeta,
)
    ensures
        write_condition(look(slot, versions)) matches Some(condition) && ({
            let outcome = answer(slot, versions, condition);
            &&& outcome is Done
            &&& tries_after(CAS_MAX_RETRIES as int, outcome) is None
            &&& look(written(slot, entry, outcome), versions) matches LookupView::Found {
                entry: found,
                ..
            } && found == entry
        }),
{
}

/// A write to the cache never replaces an entry that came after the one that it read.
pub proof fn a_write_replaces_only_what_it_read(
    read: Slot<CachedMeta>,
    slot: Slot<CachedMeta>,
    versions: spec_fn(nat) -> Seq<char>,
)
    requires
        versions_differ(versions),
        read.writes < slot.writes,
        slot.entry is Some,
    ensures
        write_condition(look(read, versions)) matches Some(condition) && answer(
            slot,
            versions,
            condition,
        ) is Mismatch,
{
}

/// A write to the cache is tried [`CAS_MAX_RETRIES`] times at most, and again only where its
/// condition was not met.
pub proof fn a_write_is_tried_a_few_times(tries: int, outcome: Stored)
    requires
        1 <= tries <= CAS_MAX_RETRIES,
    ensures
        tries_after(tries, outcome) matches Some(left) ==> outcome is Mismatch && 1 <= left < tries,
{
}

} // verus!
