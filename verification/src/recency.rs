//! Persistent usage-recency scores ("frecency").
//!
//! The store maps an item's stable identity string to the moment it was
//! last used and the score it held at that moment. Reading a score
//! (`lookup`) decays the stored value by the time elapsed since; it
//! never mutates anything. `bump` is the only mutator: it decays the
//! stored value to the present, adds the configured bonus, and stamps
//! the present time. Entries are never deleted.

use vstd::prelude::*;

verus! {

use crate::decay::{
    decay,
    decay_spec,
    lemma_decay_antitone,
    lemma_decay_bounds,
    lemma_decay_half_life,
    lemma_decay_zero_elapsed,
};

pub struct RecencyEntry {
    /// Stable identity of the item this entry scores.
    pub identity: String,
    /// Time (in the caller's time unit) of the last bump.
    pub last_used: u64,
    /// Score held immediately after the last bump.
    pub score_at_use: u64,
}

/// First entry with the given identity, as (last_used, score_at_use).
pub open spec fn find_entry(s: Seq<RecencyEntry>, id: Seq<char>) -> Option<(u64, u64)>
    decreases s.len(),
{
    if s.len() == 0 {
        None
    } else if s[0].identity@ == id {
        Some((s[0].last_used, s[0].score_at_use))
    } else {
        find_entry(s.drop_first(), id)
    }
}

/// Time elapsed from `last` to `now`; a clock that appears to have run
/// backwards counts as no elapsed time.
pub open spec fn elapsed_since(last: u64, now: u64) -> u64 {
    if now >= last {
        (now - last) as u64
    } else {
        0
    }
}

/// The score an identity has at time `now`: its stored score decayed by
/// the time since its last use, or the baseline 0 if it was never used.
pub open spec fn spec_lookup(s: Seq<RecencyEntry>, id: Seq<char>, now: u64, half_life: u64) -> int {
    match find_entry(s, id) {
        None => 0,
        Some((last, sc)) => decay_spec(sc, elapsed_since(last, now), half_life),
    }
}

/// The score written by a bump: the current decayed score plus the
/// bonus, saturating at the largest representable score.
pub open spec fn bumped_score(current: int, bonus: u64) -> int {
    if current + bonus <= u64::MAX {
        current + bonus
    } else {
        u64::MAX as int
    }
}

/// No identity occurs twice.
pub open spec fn unique_ids(s: Seq<RecencyEntry>) -> bool {
    forall|i: int, j: int| 0 <= i < j < s.len() ==> s[i].identity@ != s[j].identity@
}

pub struct RecencyStore {
    /// Namespace tag, so independent pickers can share one persisted
    /// store without collision.
    pub type_ident: String,
    /// Half-life of a score, in the caller's time unit; positive.
    pub half_life: u64,
    pub entries: Vec<RecencyEntry>,
}

impl RecencyStore {
    /// One entry per identity, and a meaningful half-life.
    pub open spec fn wf(self) -> bool {
        &&& self.half_life >= 1
        &&& forall|i: int, j: int|
            0 <= i < j < self.entries@.len() ==> self.entries@[i].identity@
                != self.entries@[j].identity@
    }

    pub open spec fn spec_score(self, id: Seq<char>, now: u64) -> int {
        spec_lookup(self.entries@, id, now, self.half_life)
    }

    pub fn new(type_ident: String, half_life: u64) -> (s: Self)
        requires
            half_life >= 1,
        ensures
            s.wf(),
            s.entries@.len() == 0,
            s.half_life == half_life,
            s.type_ident@ == type_ident@,
    {
        RecencyStore { type_ident, half_life, entries: Vec::new() }
    }

    /// Rebuild a store from a loaded snapshot of entries. The snapshot
    /// is taken as-is when its identities are unique (`intact` is then
    /// true); a snapshot with a duplicated identity is corrupt, and the
    /// store starts empty instead — a fresh store is a valid, safe
    /// fallback, never a fatal error.
    pub fn from_entries(type_ident: String, half_life: u64, entries: Vec<RecencyEntry>) -> (r: (
        RecencyStore,
        bool,
    ))
        requires
            half_life >= 1,
        ensures
            r.0.wf(),
            r.0.half_life == half_life,
            r.0.type_ident@ == type_ident@,
            r.1 == unique_ids(entries@),
            r.1 ==> r.0.entries@ == entries@,
            !r.1 ==> r.0.entries@.len() == 0,
    {
        let n = entries.len();
        let mut i: usize = 0;
        while i < n
            invariant
                i <= n,
                n == entries@.len(),
                half_life >= 1,
                forall|a: int, b: int|
                    0 <= a < b < n && a < i ==> entries@[a].identity@ != entries@[b].identity@,
            decreases n - i,
        {
            let mut j: usize = i + 1;
            while j < n
                invariant
                    i < j <= n,
                    n == entries@.len(),
                    half_life >= 1,
                    forall|a: int, b: int|
                        0 <= a < b < n && a < i ==> entries@[a].identity@ != entries@[b].identity@,
                    forall|b: int| i < b < j ==> entries@[i as int].identity@ != entries@[b].identity@,
                decreases n - j,
            {
                if entries[i].identity == entries[j].identity {
                    proof {
                        assert(!unique_ids(entries@));
                    }
                    let empty: Vec<RecencyEntry> = Vec::new();
                    let st = RecencyStore { type_ident, half_life, entries: empty };
                    proof {
                        assert(st.wf());
                    }
                    return (st, false);
                }
                j = j + 1;
            }
            i = i + 1;
        }
        (RecencyStore { type_ident, half_life, entries }, true)
    }

    /// Index of the entry for `id`, if any; relates the scan to
    /// `find_entry`.
    fn find_index(&self, id: &String) -> (r: Option<usize>)
        ensures
            match r {
                Some(i) => {
                    &&& i < self.entries@.len()
                    &&& self.entries@[i as int].identity@ == id@
                    &&& find_entry(self.entries@, id@) == Some(
                        (self.entries@[i as int].last_used, self.entries@[i as int].score_at_use),
                    )
                },
                None => find_entry(self.entries@, id@) is None,
            },
    {
        let n = self.entries.len();
        let mut i: usize = 0;
        proof {
            assert(self.entries@.skip(0) =~= self.entries@);
        }
        while i < n
            invariant
                i <= n,
                n == self.entries@.len(),
                find_entry(self.entries@.skip(i as int), id@) == find_entry(self.entries@, id@),
                forall|k: int| 0 <= k < i ==> self.entries@[k].identity@ != id@,
            decreases n - i,
        {
            proof {
                assert(self.entries@.skip(i as int)[0] == self.entries@[i as int]);
            }
            if self.entries[i].identity == *id {
                proof {
                    assert(self.entries@.skip(i as int).len() > 0);
                    assert(self.entries@.skip(i as int)[0].identity@ == id@);
                    assert(find_entry(self.entries@.skip(i as int), id@) == Some(
                        (self.entries@[i as int].last_used, self.entries@[i as int].score_at_use),
                    ));
                }
                return Some(i);
            }
            proof {
                assert(self.entries@.skip(i as int).drop_first() =~= self.entries@.skip(
                    i as int + 1,
                ));
                assert(find_entry(self.entries@.skip(i as int), id@) == find_entry(
                    self.entries@.skip(i as int + 1),
                    id@,
                ));
            }
            i = i + 1;
        }
        proof {
            assert(self.entries@.skip(n as int) =~= Seq::<RecencyEntry>::empty());
        }
        None
    }

    /// Decayed current score of `id` at time `now`; 0 for an identity
    /// never bumped. Pure: the store is not touched.
    pub fn lookup(&self, id: &String, now: u64) -> (r: u64)
        requires
            self.wf(),
        ensures
            r as int == self.spec_score(id@, now),
    {
        match self.find_index(id) {
            None => 0,
            Some(i) => {
                let e = &self.entries[i];
                let elapsed = if now >= e.last_used {
                    now - e.last_used
                } else {
                    0
                };
                decay(e.score_at_use, elapsed, self.half_life)
            },
        }
    }

    /// Record a use of `id` at time `now`: decay its score to the
    /// present, add `bonus` (saturating), and stamp `now`. The only
    /// mutator of the store.
    pub fn bump(&mut self, id: &String, bonus: u64, now: u64)
        requires
            old(self).wf(),
        ensures
            final(self).wf(),
            final(self).half_life == old(self).half_life,
            final(self).type_ident@ == old(self).type_ident@,
            find_entry(final(self).entries@, id@) == Some(
                (now, bumped_score(old(self).spec_score(id@, now), bonus) as u64),
            ),
            final(self).spec_score(id@, now) == bumped_score(old(self).spec_score(id@, now), bonus),
            forall|o: Seq<char>, t: u64|
                o != id@ ==> final(self).spec_score(o, t) == old(self).spec_score(o, t),
    {
        let current = self.lookup(id, now);
        let new_score = if current <= u64::MAX - bonus {
            current + bonus
        } else {
            u64::MAX
        };
        proof {
            lemma_decay_zero_elapsed(new_score, self.half_life);
        }
        match self.find_index(id) {
            Some(i) => {
                let ghost before = self.entries@;
                self.entries.set(
                    i,
                    RecencyEntry { identity: id.clone(), last_used: now, score_at_use: new_score },
                );
                proof {
                    lemma_find_update(before, i as int, self.entries@[i as int]);
                    assert forall|o: Seq<char>, t: u64| o != id@ implies spec_lookup(
                        self.entries@,
                        o,
                        t,
                        self.half_life,
                    ) == spec_lookup(before, o, t, self.half_life) by {
                        lemma_find_update_other(before, i as int, self.entries@[i as int], o);
                    }
                }
            },
            None => {
                let ghost before = self.entries@;
                self.entries.push(
                    RecencyEntry { identity: id.clone(), last_used: now, score_at_use: new_score },
                );
                proof {
                    lemma_find_push(before, self.entries@[before.len() as int]);
                    assert forall|o: Seq<char>, t: u64| o != id@ implies spec_lookup(
                        self.entries@,
                        o,
                        t,
                        self.half_life,
                    ) == spec_lookup(before, o, t, self.half_life) by {
                        lemma_find_push_other(before, self.entries@[before.len() as int], o);
                    }
                    assert forall|i: int, j: int|
                        0 <= i < j < self.entries@.len() implies self.entries@[i].identity@
                        != self.entries@[j].identity@ by {
                        if j == self.entries@.len() - 1 {
                            lemma_absent_id_differs(before, id@, i);
                        }
                    }
                }
            },
        }
    }
}

/// An identity that `find_entry` does not find differs from every
/// entry's identity.
proof fn lemma_absent_id_differs(s: Seq<RecencyEntry>, id: Seq<char>, i: int)
    requires
        find_entry(s, id) is None,
        0 <= i < s.len(),
    ensures
        s[i].identity@ != id,
    decreases s.len(),
{
    if i > 0 {
        lemma_absent_id_differs(s.drop_first(), id, i - 1);
        assert(s.drop_first()[i - 1] == s[i]);
    }
}

/// Updating the entry at a position replaces what `find_entry` reports
/// for that entry's identity, provided identities are unique.
proof fn lemma_find_update(s: Seq<RecencyEntry>, i: int, e: RecencyEntry)
    requires
        0 <= i < s.len(),
        s[i].identity@ == e.identity@,
        forall|a: int, b: int| 0 <= a < b < s.len() ==> s[a].identity@ != s[b].identity@,
    ensures
        find_entry(s.update(i, e), e.identity@) == Some((e.last_used, e.score_at_use)),
    decreases s.len(),
{
    let s2 = s.update(i, e);
    if i == 0 {
        assert(s2[0] == e);
    } else {
        assert(s2[0] == s[0]);
        assert(s[0].identity@ != s[i].identity@);
        assert(s2.drop_first() =~= s.drop_first().update(i - 1, e));
        assert(s.drop_first()[i - 1] == s[i]);
        lemma_find_update(s.drop_first(), i - 1, e);
    }
}

/// Updating an entry in place leaves every other identity's report
/// unchanged, provided the update keeps the entry's identity.
proof fn lemma_find_update_other(s: Seq<RecencyEntry>, i: int, e: RecencyEntry, o: Seq<char>)
    requires
        0 <= i < s.len(),
        s[i].identity@ == e.identity@,
        o != e.identity@,
    ensures
        find_entry(s.update(i, e), o) == find_entry(s, o),
    decreases s.len(),
{
    let s2 = s.update(i, e);
    if i == 0 {
        assert(s2[0] == e);
        assert(s2.drop_first() =~= s.drop_first());
    } else {
        assert(s2[0] == s[0]);
        assert(s2.drop_first() =~= s.drop_first().update(i - 1, e));
        assert(s.drop_first()[i - 1] == s[i]);
        lemma_find_update_other(s.drop_first(), i - 1, e, o);
    }
}

/// Appending an entry for an absent identity makes `find_entry` report
/// exactly it.
proof fn lemma_find_push(s: Seq<RecencyEntry>, e: RecencyEntry)
    requires
        find_entry(s, e.identity@) is None,
    ensures
        find_entry(s.push(e), e.identity@) == Some((e.last_used, e.score_at_use)),
    decreases s.len(),
{
    let s2 = s.push(e);
    if s.len() == 0 {
        assert(s2[0] == e);
    } else {
        assert(s2[0] == s[0]);
        assert(s2.drop_first() =~= s.drop_first().push(e));
        lemma_find_push(s.drop_first(), e);
    }
}

/// Appending an entry leaves every other identity's report unchanged.
proof fn lemma_find_push_other(s: Seq<RecencyEntry>, e: RecencyEntry, o: Seq<char>)
    requires
        o != e.identity@,
    ensures
        find_entry(s.push(e), o) == find_entry(s, o),
    decreases s.len(),
{
    let s2 = s.push(e);
    if s.len() == 0 {
        assert(s2[0] == e);
        assert(s2.drop_first() =~= Seq::<RecencyEntry>::empty());
    } else {
        assert(s2[0] == s[0]);
        assert(s2.drop_first() =~= s.drop_first().push(e));
        lemma_find_push_other(s.drop_first(), e, o);
    }
}

/// An identity never bumped always reads the baseline score 0.
pub proof fn lemma_lookup_unseen(s: Seq<RecencyEntry>, id: Seq<char>, now: u64, half_life: u64)
    requires
        find_entry(s, id) is None,
    ensures
        spec_lookup(s, id, now, half_life) == 0,
{
}

/// Immediately after a bump, an identity never reads less than it did
/// strictly before the bump: the score a bump writes is at least the
/// decayed score it replaced.
pub proof fn lemma_bump_reads_no_less(s: RecencyStore, id: Seq<char>, bonus: u64, now: u64)
    requires
        s.wf(),
    ensures
        bumped_score(s.spec_score(id, now), bonus) >= s.spec_score(id, now),
{
    lemma_lookup_bounds(s.entries@, id, now, s.half_life);
}

/// Scores only fall as time passes: at a later time, the same store
/// reads a score no larger than at an earlier one.
pub proof fn lemma_lookup_antitone(
    s: Seq<RecencyEntry>,
    id: Seq<char>,
    t1: u64,
    t2: u64,
    half_life: u64,
)
    requires
        half_life >= 1,
        t1 <= t2,
    ensures
        spec_lookup(s, id, t1, half_life) >= spec_lookup(s, id, t2, half_life),
{
    match find_entry(s, id) {
        None => {},
        Some((last, sc)) => {
            lemma_decay_antitone(sc, elapsed_since(last, t1), elapsed_since(last, t2), half_life);
        },
    }
}

/// A lookup never reads above the score stored at the last use, nor
/// below 0.
pub proof fn lemma_lookup_bounds(s: Seq<RecencyEntry>, id: Seq<char>, now: u64, half_life: u64)
    requires
        half_life >= 1,
    ensures
        0 <= spec_lookup(s, id, now, half_life) <= u64::MAX,
{
    match find_entry(s, id) {
        None => {},
        Some((last, sc)) => {
            lemma_decay_bounds(sc, elapsed_since(last, now), half_life);
        },
    }
}

/// Exactly one half-life after its entry was stamped, an identity
/// reads half the score that was stored (flooring): in particular, a
/// first bump with bonus `b` from the baseline reads `b / 2` one
/// half-life later.
pub proof fn lemma_lookup_half_life(
    s: Seq<RecencyEntry>,
    id: Seq<char>,
    half_life: u64,
    stamped: u64,
    stored: u64,
)
    requires
        half_life >= 1,
        find_entry(s, id) == Some((stamped, stored)),
        stamped + half_life <= u64::MAX,
    ensures
        spec_lookup(s, id, (stamped + half_life) as u64, half_life) == stored as int / 2,
{
    lemma_decay_half_life(stored, half_life);
    assert(elapsed_since(stamped, (stamped + half_life) as u64) == half_life);
}

} // verus!
