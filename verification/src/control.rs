//! Committing a selection.
//!
//! The controller owns the recency store and drives one commit at a
//! time: `begin_commit` moves from `Idle` to `Acting` and refuses a
//! second commit while one is in flight, so the external action can
//! never run twice for one choice; `finish_commit` consumes the
//! action's outcome — on success the chosen identity's score is
//! bumped (and the caller should persist the store), on failure the
//! store is left exactly as it was and the diagnostic is surfaced
//! verbatim.

use vstd::prelude::*;

verus! {

use crate::recency::{RecencyStore, bumped_score, find_entry};

#[derive(Clone, Copy, PartialEq, Eq, Structural, Debug)]
pub enum Phase {
    Idle,
    Acting,
}

/// What the external action collaborator reported for a commit.
pub enum ActionOutcome {
    Success,
    /// The action failed; the collaborator's diagnostic text.
    Failure(String),
}

/// A failed commit, carrying the collaborator's diagnostic verbatim.
pub struct ActionFailure {
    pub diagnostic: String,
}

/// Why a commit request was refused without running any action.
#[derive(Clone, Copy, PartialEq, Eq, Structural, Debug)]
pub enum CommitRefused {
    /// A commit is already in flight.
    Busy,
    /// No commit is in flight to finish.
    NotActing,
}

/// Ghost model of the commit state machine.
pub ghost struct ControlState {
    pub phase: Phase,
    pub pending: Option<Seq<char>>,
}

/// Accepting a commit request: only from `Idle`; a request while
/// `Acting` is refused and changes nothing.
pub open spec fn begin_tr(s: ControlState, id: Seq<char>) -> (ControlState, bool) {
    if s.phase is Idle {
        (ControlState { phase: Phase::Acting, pending: Some(id) }, true)
    } else {
        (s, false)
    }
}

pub struct Controller {
    pub store: RecencyStore,
    pub phase: Phase,
    pub pending: Option<String>,
}

impl Controller {
    pub open spec fn wf(self) -> bool {
        &&& self.store.wf()
        &&& (self.phase is Acting <==> self.pending is Some)
    }

    pub open spec fn state(self) -> ControlState {
        ControlState {
            phase: self.phase,
            pending: match self.pending {
                Some(p) => Some(p@),
                None => None,
            },
        }
    }

    pub fn new(store: RecencyStore) -> (c: Controller)
        requires
            store.wf(),
        ensures
            c.wf(),
            c.phase is Idle,
            c.store == store,
    {
        Controller { store, phase: Phase::Idle, pending: None }
    }

    /// Request a commit of the item with identity `id`. Accepted only
    /// when no commit is in flight; the caller must then run the
    /// external action exactly once and report its outcome through
    /// `finish_commit`. A request while one is in flight is refused
    /// and nothing changes.
    pub fn begin_commit(&mut self, id: &String) -> (r: Result<(), CommitRefused>)
        requires
            old(self).wf(),
        ensures
            final(self).wf(),
            final(self).store == old(self).store,
            (final(self).state(), r is Ok) == begin_tr(old(self).state(), id@),
            r is Err ==> r == Err::<(), CommitRefused>(CommitRefused::Busy) && *final(self) == *old(self),
    {
        match self.phase {
            Phase::Acting => Err(CommitRefused::Busy),
            Phase::Idle => {
                self.phase = Phase::Acting;
                self.pending = Some(id.clone());
                Ok(())
            },
        }
    }

    /// Report the outcome of the action for the commit in flight. On
    /// success the pending identity's recency score is bumped by
    /// `bonus` at time `now` — the only store mutation of a commit —
    /// and the caller should persist the store. On failure the store
    /// is untouched (a failed action is not rewarded) and the
    /// diagnostic is returned verbatim. Either way the controller
    /// returns to `Idle`, so the user may retry or pick another item.
    pub fn finish_commit(&mut self, outcome: ActionOutcome, bonus: u64, now: u64) -> (r: Result<
        Result<(), ActionFailure>,
        CommitRefused,
    >)
        requires
            old(self).wf(),
        ensures
            final(self).wf(),
            final(self).phase is Idle,
            old(self).phase is Idle ==> r == Err::<Result<(), ActionFailure>, CommitRefused>(
                CommitRefused::NotActing,
            ) && *final(self) == *old(self),
            old(self).phase is Acting && outcome is Success ==> {
                &&& r matches Ok(Ok(()))
                &&& final(self).store.spec_score(old(self).pending.unwrap()@, now)
                    == bumped_score(
                    old(self).store.spec_score(old(self).pending.unwrap()@, now),
                    bonus,
                )
                &&& forall|o: Seq<char>, t: u64|
                    o != old(self).pending.unwrap()@ ==> final(self).store.spec_score(o, t) == old(
                        self,
                    ).store.spec_score(o, t)
                &&& final(self).store.half_life == old(self).store.half_life
                &&& find_entry(final(self).store.entries@, old(self).pending.unwrap()@) == Some(
                    (
                        now,
                        bumped_score(
                            old(self).store.spec_score(old(self).pending.unwrap()@, now),
                            bonus,
                        ) as u64,
                    ),
                )
            },
            old(self).phase is Acting ==> (outcome matches ActionOutcome::Failure(d) ==> ((
            r matches Ok(Err(f)) && f.diagnostic@ == d@) && final(self).store == old(self).store)),
    {
        match self.phase {
            Phase::Idle => Err(CommitRefused::NotActing),
            Phase::Acting => {
                let id = match &self.pending {
                    Some(p) => p.clone(),
                    None => {
                        proof {
                            assert(false);
                        }
                        String::new()
                    },
                };
                self.phase = Phase::Idle;
                self.pending = None;
                match outcome {
                    ActionOutcome::Success => {
                        self.store.bump(&id, bonus, now);
                        Ok(Ok(()))
                    },
                    ActionOutcome::Failure(d) => Ok(Err(ActionFailure { diagnostic: d })),
                }
            },
        }
    }
}

/// At most one commit is in flight: after a commit is accepted, any
/// further request is refused, with the state unchanged, until the
/// first one finishes.
pub proof fn lemma_single_commit_in_flight(s: ControlState, id1: Seq<char>, id2: Seq<char>)
    requires
        s.phase is Idle,
    ensures
        begin_tr(s, id1).1 == true,
        begin_tr(begin_tr(s, id1).0, id2).1 == false,
        begin_tr(begin_tr(s, id1).0, id2).0 == begin_tr(s, id1).0,
{
}

/// A successful commit strictly increases the committed identity's
/// score, as long as the bonus is positive and the score has room
/// before the saturation cap.
pub proof fn lemma_commit_success_increases(before: int, bonus: u64)
    requires
        0 <= before,
        1 <= bonus,
        before + bonus <= u64::MAX,
    ensures
        bumped_score(before, bonus) > before,
{
}

} // verus!
