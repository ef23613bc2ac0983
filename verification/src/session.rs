//! Revision-gated delivery of ranked views.
//!
//! Every query edit allocates a fresh, strictly increasing revision.
//! A scoring pass computes a view for the revision it was started for;
//! when it completes, the result is delivered only if that revision is
//! still the current one and newer than everything delivered so far.
//! A pass that was overtaken by a fresher query is discarded, so the
//! observed view can never regress to a stale ranking.

use vstd::prelude::*;

verus! {

use crate::rank::RankedEntry;

/// Ghost model of a session: the mathematical state the contracts
/// speak of.
pub ghost struct SessionState {
    /// Revision of the latest query edit; 0 before any edit.
    pub current: u64,
    /// Revision of the view delivered to the UI; 0 before any delivery.
    pub delivered: u64,
    /// The delivered view.
    pub view: Seq<RankedEntry>,
}

/// The delivery decision and its effect: accept exactly a pass for the
/// current revision that is fresher than what was delivered.
pub open spec fn submit_tr(s: SessionState, rev: u64, view: Seq<RankedEntry>) -> (
    SessionState,
    bool,
) {
    if rev == s.current && rev > s.delivered {
        (SessionState { current: s.current, delivered: rev, view }, true)
    } else {
        (s, false)
    }
}

/// A query edit: the next revision becomes current.
pub open spec fn edit_tr(s: SessionState) -> SessionState {
    SessionState { current: (s.current + 1) as u64, delivered: s.delivered, view: s.view }
}

pub struct Session {
    pub current_revision: u64,
    pub delivered_revision: u64,
    pub view: Vec<RankedEntry>,
}

impl Session {
    pub open spec fn model(self) -> SessionState {
        SessionState {
            current: self.current_revision,
            delivered: self.delivered_revision,
            view: self.view@,
        }
    }

    /// Delivered revisions never run ahead of the query.
    pub open spec fn wf(self) -> bool {
        self.delivered_revision <= self.current_revision
    }

    pub fn new() -> (s: Session)
        ensures
            s.wf(),
            s.model() == (SessionState { current: 0u64, delivered: 0u64, view: Seq::<
                RankedEntry,
            >::empty() }),
    {
        let s = Session { current_revision: 0, delivered_revision: 0, view: Vec::new() };
        proof {
            assert(s.view@ =~= Seq::<RankedEntry>::empty());
        }
        s
    }

    /// Note a query edit; the returned revision identifies the scoring
    /// pass to start for it.
    pub fn begin_revision(&mut self) -> (rev: u64)
        requires
            old(self).wf(),
            old(self).current_revision < u64::MAX,
        ensures
            final(self).wf(),
            final(self).model() == edit_tr(old(self).model()),
            rev == final(self).current_revision,
    {
        self.current_revision = self.current_revision + 1;
        self.current_revision
    }

    /// Offer the view a pass computed for revision `rev`. Delivered
    /// (and `true` returned) exactly when `rev` is still current and
    /// fresher than the last delivery; a stale pass leaves everything
    /// unchanged.
    pub fn submit(&mut self, rev: u64, view: Vec<RankedEntry>) -> (accepted: bool)
        requires
            old(self).wf(),
        ensures
            final(self).wf(),
            (final(self).model(), accepted) == submit_tr(old(self).model(), rev, view@),
    {
        if rev == self.current_revision && rev > self.delivered_revision {
            self.delivered_revision = rev;
            self.view = view;
            true
        } else {
            false
        }
    }

    /// The view the UI currently observes.
    pub fn current_view(&self) -> (r: &Vec<RankedEntry>)
        ensures
            r@ == self.model().view,
    {
        &self.view
    }
}

/// Delivery never observes a revision going backwards.
pub proof fn lemma_delivered_monotone(s: SessionState, rev: u64, view: Seq<RankedEntry>)
    ensures
        submit_tr(s, rev, view).0.delivered >= s.delivered,
{
}

/// A stale pass never overwrites a fresher delivery: when a pass for
/// an older revision finishes after the pass for the current revision
/// was delivered, it is discarded and the delivered view stays the
/// newer pass's result.
pub proof fn lemma_stale_pass_discarded(
    s: SessionState,
    r1: u64,
    v1: Seq<RankedEntry>,
    r2: u64,
    v2: Seq<RankedEntry>,
)
    requires
        r1 < r2,
        r2 == s.current,
        r2 > s.delivered,
    ensures
        submit_tr(s, r2, v2).1 == true,
        submit_tr(s, r2, v2).0.view == v2,
        submit_tr(submit_tr(s, r2, v2).0, r1, v1).1 == false,
        submit_tr(submit_tr(s, r2, v2).0, r1, v1).0.view == v2,
{
}

} // verus!
