//! The order in which the admin handlers that change a player's data talk
//! to the outside world: look the player up, possibly look up the account's
//! backpack, perform the change, record the outcome in the command history,
//! and answer. Each handler's step function follows the table here; the
//! laws below hold of every run of it.
use vstd::prelude::*;

verus! {

/// Where a handler stands.
#[derive(PartialEq, Eq, Structural, Clone, Copy, Debug)]
pub enum Stage {
    AwaitPlayer,
    AwaitBackpack,
    AwaitEffect,
    AwaitRecord,
    Done,
}

/// What a handler hears back, as far as the order of steps depends on it.
#[derive(PartialEq, Eq, Structural, Clone, Copy, Debug)]
pub enum EventKind {
    /// The player was found; `eligible` when the handler may go on.
    PlayerFound { eligible: bool },
    PlayerMissing,
    BackpackFound,
    BackpackMissing,
    /// The change was attempted (successfully or not).
    EffectDone,
    Recorded,
    /// An event that does not belong to the handler's current stage.
    Other,
}

/// What a handler asks for next, as far as the order of steps goes.
#[derive(PartialEq, Eq, Structural, Clone, Copy, Debug)]
pub enum ActionKind {
    LookupPlayer,
    LookupBackpack,
    /// Perform the change (insert, update or send).
    Perform,
    Record,
    Respond,
    Refuse,
    Idle,
}

/// The decision table: the next stage and action for a stage and an event.
/// `needs_backpack` is whether the handler looks up a backpack before the
/// change.
pub open spec fn next_step(needs_backpack: bool, s: Stage, e: EventKind) -> (Stage, ActionKind) {
    match (s, e) {
        (Stage::AwaitPlayer, EventKind::PlayerMissing) => (Stage::Done, ActionKind::Refuse),
        (Stage::AwaitPlayer, EventKind::PlayerFound { eligible }) => if !eligible {
            (Stage::Done, ActionKind::Refuse)
        } else if needs_backpack {
            (Stage::AwaitBackpack, ActionKind::LookupBackpack)
        } else {
            (Stage::AwaitEffect, ActionKind::Perform)
        },
        (Stage::AwaitBackpack, EventKind::BackpackMissing) => (Stage::Done, ActionKind::Refuse),
        (Stage::AwaitBackpack, EventKind::BackpackFound) => (Stage::AwaitEffect, ActionKind::Perform),
        (Stage::AwaitEffect, EventKind::EffectDone) => (Stage::AwaitRecord, ActionKind::Record),
        (Stage::AwaitRecord, EventKind::Recorded) => (Stage::Done, ActionKind::Respond),
        _ => (s, ActionKind::Idle),
    }
}

/// The actions a handler asks for while it hears the given events in turn.
#[verifier::opaque]
pub open spec fn run_actions(needs_backpack: bool, s: Stage, events: Seq<EventKind>) -> Seq<ActionKind>
    decreases events.len(),
{
    if events.len() == 0 {
        seq![]
    } else {
        let (t, a) = next_step(needs_backpack, s, events[0]);
        seq![a] + run_actions(needs_backpack, t, events.drop_first())
    }
}

pub open spec fn rank(s: Stage) -> int {
    match s {
        Stage::AwaitPlayer => 0,
        Stage::AwaitBackpack => 1,
        Stage::AwaitEffect => 2,
        Stage::AwaitRecord => 3,
        Stage::Done => 4,
    }
}

/// The stage an action leads to (for every action but `Idle`).
pub open spec fn target(a: ActionKind) -> int {
    match a {
        ActionKind::LookupPlayer => 0,
        ActionKind::LookupBackpack => 1,
        ActionKind::Perform => 2,
        ActionKind::Record => 3,
        _ => 4,
    }
}

proof fn lemma_step_rank(needs_backpack: bool, s: Stage, e: EventKind)
    ensures
        ({
            let (t, a) = next_step(needs_backpack, s, e);
            &&& a == ActionKind::Idle ==> t == s
            &&& a != ActionKind::Idle ==> rank(s) < rank(t) && rank(t) == target(a)
            &&& a != ActionKind::LookupPlayer
            &&& a == ActionKind::Perform ==> rank(s) < 2
            &&& a == ActionKind::Record ==> s == Stage::AwaitEffect
        }),
{
}

/// Along a run, every action but `Idle` leads further on than the stage it
/// starts from and than every earlier action.
proof fn lemma_run_increasing(needs_backpack: bool, s: Stage, events: Seq<EventKind>)
    ensures
        ({
            let acts = run_actions(needs_backpack, s, events);
            &&& acts.len() == events.len()
            &&& forall|i: int|
                0 <= i < acts.len() && acts[i] != ActionKind::Idle ==> rank(s) < target(
                    #[trigger] acts[i],
                ) && acts[i] != ActionKind::LookupPlayer
            &&& forall|i: int, j: int|
                0 <= i < j < acts.len() && acts[i] != ActionKind::Idle && acts[j] != ActionKind::Idle
                    ==> target(#[trigger] acts[i]) < target(#[trigger] acts[j])
        }),
    decreases events.len(),
{
    reveal(run_actions);
    if events.len() > 0 {
        let (t, a) = next_step(needs_backpack, s, events[0]);
        lemma_step_rank(needs_backpack, s, events[0]);
        lemma_run_increasing(needs_backpack, t, events.drop_first());
        let rest = run_actions(needs_backpack, t, events.drop_first());
        let acts = run_actions(needs_backpack, s, events);
        assert(acts == seq![a] + rest);
        assert forall|i: int| 0 < i < acts.len() implies acts[i] == rest[i - 1] by {}
    }
}

/// How often an action occurs in a run.
pub open spec fn occurrences(acts: Seq<ActionKind>, a: ActionKind) -> nat
    decreases acts.len(),
{
    if acts.len() == 0 {
        0
    } else {
        occurrences(acts.drop_last(), a) + if acts.last() == a {
            1nat
        } else {
            0nat
        }
    }
}

proof fn lemma_occurrences_at_most_one(acts: Seq<ActionKind>, a: ActionKind)
    requires
        forall|i: int, j: int| 0 <= i < j < acts.len() ==> !(#[trigger] acts[i] == a && #[trigger] acts[j] == a),
    ensures
        occurrences(acts, a) <= 1,
    decreases acts.len(),
{
    if acts.len() > 0 {
        let t = acts.drop_last();
        assert forall|i: int, j: int| 0 <= i < j < t.len() implies !(#[trigger] t[i] == a && #[trigger] t[j] == a) by {
            assert(t[i] == acts[i] && t[j] == acts[j]);
        }
        lemma_occurrences_at_most_one(t, a);
        if acts.last() == a && occurrences(t, a) == 1 {
            lemma_occurrence_witness(t, a);
            let i = choose|i: int| 0 <= i < t.len() && t[i] == a;
            assert(acts[i] == a && acts[acts.len() - 1] == a);
        }
    }
}

proof fn lemma_occurrence_witness(acts: Seq<ActionKind>, a: ActionKind)
    requires
        occurrences(acts, a) >= 1,
    ensures
        exists|i: int| 0 <= i < acts.len() && acts[i] == a,
    decreases acts.len(),
{
    if acts.last() != a {
        lemma_occurrence_witness(acts.drop_last(), a);
        let i = choose|i: int| 0 <= i < acts.drop_last().len() && acts.drop_last()[i] == a;
        assert(acts[i] == a);
    } else {
        assert(acts[acts.len() - 1] == a);
    }
}

/// The laws every run of a handler obeys, from any stage: once it refuses
/// or answers it asks for nothing more; it performs its change and records
/// an outcome at most once each, and refuses or answers at most once in
/// all; and it never asks for the player again.
pub proof fn lemma_handler_run(needs_backpack: bool, s: Stage, events: Seq<EventKind>)
    ensures
        ({
            let acts = run_actions(needs_backpack, s, events);
            &&& forall|i: int, j: int|
                0 <= i < j < acts.len() && (#[trigger] acts[i] == ActionKind::Refuse || acts[i]
                    == ActionKind::Respond) ==> #[trigger] acts[j] == ActionKind::Idle
            &&& occurrences(acts, ActionKind::Perform) <= 1
            &&& occurrences(acts, ActionKind::Record) <= 1
            &&& occurrences(acts, ActionKind::Refuse) + occurrences(acts, ActionKind::Respond) <= 1
            &&& forall|i: int| 0 <= i < acts.len() ==> #[trigger] acts[i] != ActionKind::LookupPlayer
        }),
{
    let acts = run_actions(needs_backpack, s, events);
    lemma_run_increasing(needs_backpack, s, events);
    lemma_run_facts(acts);
}

proof fn lemma_run_facts(acts: Seq<ActionKind>)
    requires
        forall|i: int, j: int|
            0 <= i < j < acts.len() && acts[i] != ActionKind::Idle && acts[j] != ActionKind::Idle
                ==> target(#[trigger] acts[i]) < target(#[trigger] acts[j]),
    ensures
        forall|i: int, j: int|
            0 <= i < j < acts.len() && (#[trigger] acts[i] == ActionKind::Refuse || acts[i]
                == ActionKind::Respond) ==> #[trigger] acts[j] == ActionKind::Idle,
        occurrences(acts, ActionKind::Perform) <= 1,
        occurrences(acts, ActionKind::Record) <= 1,
        occurrences(acts, ActionKind::Refuse) + occurrences(acts, ActionKind::Respond) <= 1,
{
    assert forall|i: int, j: int| 0 <= i < j < acts.len() implies !(#[trigger] acts[i] == ActionKind::Perform
        && #[trigger] acts[j] == ActionKind::Perform) by {}
    assert forall|i: int, j: int| 0 <= i < j < acts.len() implies !(#[trigger] acts[i] == ActionKind::Record
        && #[trigger] acts[j] == ActionKind::Record) by {}
    lemma_occurrences_at_most_one(acts, ActionKind::Perform);
    lemma_occurrences_at_most_one(acts, ActionKind::Record);
    lemma_end_once(acts);
}

proof fn lemma_end_once(acts: Seq<ActionKind>)
    requires
        forall|i: int, j: int|
            0 <= i < j < acts.len() && acts[i] != ActionKind::Idle && acts[j] != ActionKind::Idle
                ==> target(#[trigger] acts[i]) < target(#[trigger] acts[j]),
    ensures
        occurrences(acts, ActionKind::Refuse) + occurrences(acts, ActionKind::Respond) <= 1,
    decreases acts.len(),
{
    if acts.len() > 0 {
        let t = acts.drop_last();
        assert forall|i: int, j: int|
            0 <= i < j < t.len() && t[i] != ActionKind::Idle && t[j] != ActionKind::Idle implies target(
            #[trigger] t[i],
        ) < target(#[trigger] t[j]) by {
            assert(t[i] == acts[i] && t[j] == acts[j]);
        }
        lemma_end_once(t);
        let l = acts.last();
        if l == ActionKind::Refuse || l == ActionKind::Respond {
            if occurrences(t, ActionKind::Refuse) >= 1 {
                lemma_occurrence_witness(t, ActionKind::Refuse);
                let i = choose|i: int| 0 <= i < t.len() && t[i] == ActionKind::Refuse;
                assert(acts[i] == ActionKind::Refuse && acts[acts.len() - 1] == l);
            }
            if occurrences(t, ActionKind::Respond) >= 1 {
                lemma_occurrence_witness(t, ActionKind::Respond);
                let i = choose|i: int| 0 <= i < t.len() && t[i] == ActionKind::Respond;
                assert(acts[i] == ActionKind::Respond && acts[acts.len() - 1] == l);
            }
        }
    }
}

/// A handler that has not yet performed its change records an outcome only
/// after performing it.
pub proof fn lemma_record_after_perform(needs_backpack: bool, s: Stage, events: Seq<EventKind>)
    requires
        rank(s) < 2,
    ensures
        forall|j: int|
            0 <= j < run_actions(needs_backpack, s, events).len() && #[trigger] run_actions(
                needs_backpack,
                s,
                events,
            )[j] == ActionKind::Record ==> exists|i: int|
                0 <= i < j && run_actions(needs_backpack, s, events)[i] == ActionKind::Perform,
    decreases events.len(),
{
    reveal(run_actions);
    if events.len() > 0 {
        let e0 = events[0];
        let st = next_step(needs_backpack, s, e0);
        let t = st.0;
        let a = st.1;
        let tail = events.drop_first();
        let rest = run_actions(needs_backpack, t, tail);
        let acts = run_actions(needs_backpack, s, events);
        lemma_step_rank(needs_backpack, s, e0);
        assert(acts == seq![a] + rest);
        assert(a != ActionKind::Record);
        if a == ActionKind::Perform {
            assert forall|j: int| 0 <= j < acts.len() && #[trigger] acts[j] == ActionKind::Record implies exists|
                i: int,
            | 0 <= i < j && acts[i] == ActionKind::Perform by {
                assert(acts[0] == ActionKind::Perform);
            }
        } else if rank(t) < 2 {
            lemma_record_after_perform(needs_backpack, t, tail);
            assert forall|j: int| 0 <= j < acts.len() && #[trigger] acts[j] == ActionKind::Record implies exists|
                i: int,
            | 0 <= i < j && acts[i] == ActionKind::Perform by {
                assert(acts[j] == rest[j - 1]);
                let i = choose|i: int| 0 <= i < j - 1 && rest[i] == ActionKind::Perform;
                assert(acts[i + 1] == ActionKind::Perform);
            }
        } else {
            lemma_run_increasing(needs_backpack, t, tail);
            assert(rank(t) == 4);
            assert forall|j: int| 0 <= j < acts.len() implies #[trigger] acts[j] != ActionKind::Record by {
                if j > 0 {
                    assert(acts[j] == rest[j - 1]);
                }
            }
        }
    }
}

} // verus!
