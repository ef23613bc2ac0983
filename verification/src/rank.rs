//! Combining scores and producing the ranked view.
//!
//! Per item, the recency score (weighted) and the fuzzy match score
//! are summed, saturating; an item whose text does not match the query
//! is dropped entirely — recency never resurrects it. The view is
//! sorted descending by combined score, ties broken by original
//! catalog order, so equal-scored items never swap between passes. The
//! whole pass is a pure function of (catalog, query, store, time,
//! configuration): the ranked view is pinned exactly, so two passes
//! over the same inputs yield identical output.

use vstd::prelude::*;

verus! {

use crate::config::PickerConfig;
use crate::matcher::{MatchConfig, fuzzy_match, lemma_empty_query_matches, spec_fuzzy_score};
use crate::recency::{RecencyStore, lemma_lookup_bounds};

/// One selectable entry of the catalog: a stable identity for recency
/// lookups, a display text for matching, and nothing else — the
/// caller's payload stays with the caller, keyed by `index`.
pub struct Item {
    pub identity: String,
    pub display: String,
}

/// One row of the ranked view: the catalog index of the item and its
/// combined score.
#[derive(Clone, Copy, PartialEq, Eq, Structural, Debug)]
pub struct RankedEntry {
    pub index: usize,
    pub score: u64,
}

/// Weighted sum of a recency score and a fuzzy score, saturating at
/// the largest representable score.
pub open spec fn combine_spec(recency: int, fuzzy: int, weight: u64) -> int {
    if recency * (weight as int) + fuzzy <= u64::MAX {
        recency * (weight as int) + fuzzy
    } else {
        u64::MAX as int
    }
}

/// `a` may stand before `b` in the ranked view: strictly larger score
/// first; among equal scores, smaller catalog index first.
pub open spec fn entry_le(a: RankedEntry, b: RankedEntry) -> bool {
    a.score > b.score || (a.score == b.score && a.index <= b.index)
}

pub open spec fn sorted(s: Seq<RankedEntry>) -> bool {
    forall|i: int, j: int| 0 <= i < j < s.len() ==> entry_le(s[i], s[j])
}

/// `e` inserted into `s` before the first element it must precede.
pub open spec fn spec_insert(e: RankedEntry, s: Seq<RankedEntry>) -> Seq<RankedEntry>
    decreases s.len(),
{
    if s.len() == 0 {
        seq![e]
    } else if entry_le(s[0], e) {
        seq![s[0]].add(spec_insert(e, s.drop_first()))
    } else {
        seq![e].add(s)
    }
}

/// Insertion sort of the candidate rows, left to right.
pub open spec fn spec_sort(s: Seq<RankedEntry>) -> Seq<RankedEntry>
    decreases s.len(),
{
    if s.len() == 0 {
        Seq::empty()
    } else {
        spec_insert(s.last(), spec_sort(s.drop_last()))
    }
}

/// The row a matching catalog item contributes to the view.
pub open spec fn candidate_entry(
    items: Seq<Item>,
    q: Seq<char>,
    store: RecencyStore,
    now: u64,
    weight: u64,
    mcfg: MatchConfig,
    i: int,
) -> RankedEntry {
    RankedEntry {
        index: i as usize,
        score: combine_spec(
            store.spec_score(items[i].identity@, now),
            spec_fuzzy_score(q, items[i].display@, mcfg).unwrap(),
            weight,
        ) as u64,
    }
}

/// The unsorted candidate rows contributed by `items[i..]`: one row
/// per item whose display text matches the query, in catalog order.
pub open spec fn spec_candidates_from(
    items: Seq<Item>,
    q: Seq<char>,
    store: RecencyStore,
    now: u64,
    weight: u64,
    mcfg: MatchConfig,
    i: int,
) -> Seq<RankedEntry>
    decreases items.len() - i,
{
    if i < 0 || i >= items.len() {
        Seq::empty()
    } else {
        let rest = spec_candidates_from(items, q, store, now, weight, mcfg, i + 1);
        if spec_fuzzy_score(q, items[i].display@, mcfg) is Some {
            seq![candidate_entry(items, q, store, now, weight, mcfg, i)].add(rest)
        } else {
            rest
        }
    }
}

/// The ranked view: the candidate rows, sorted.
pub open spec fn spec_rank(
    items: Seq<Item>,
    q: Seq<char>,
    store: RecencyStore,
    now: u64,
    weight: u64,
    mcfg: MatchConfig,
) -> Seq<RankedEntry> {
    spec_sort(spec_candidates_from(items, q, store, now, weight, mcfg, 0))
}

/// A row is valid when it points into the catalog, its item matches
/// the query, and its score is the combined score of that item.
pub open spec fn valid_entry(
    e: RankedEntry,
    items: Seq<Item>,
    q: Seq<char>,
    store: RecencyStore,
    now: u64,
    weight: u64,
    mcfg: MatchConfig,
) -> bool {
    &&& e.index < items.len()
    &&& spec_fuzzy_score(q, items[e.index as int].display@, mcfg) is Some
    &&& e == candidate_entry(items, q, store, now, weight, mcfg, e.index as int)
}

proof fn lemma_insert_props(e: RankedEntry, s: Seq<RankedEntry>)
    ensures
        spec_insert(e, s).len() == s.len() + 1,
        spec_insert(e, s).contains(e),
        forall|x: RankedEntry|
            #[trigger] spec_insert(e, s).contains(x) ==> (x == e || s.contains(x)),
        forall|x: RankedEntry| #[trigger] s.contains(x) ==> spec_insert(e, s).contains(x),
    decreases s.len(),
{
    let r = spec_insert(e, s);
    if s.len() == 0 {
        assert(r[0] == e);
        assert(r.contains(e));
        assert forall|x: RankedEntry| #[trigger] r.contains(x) implies (x == e || s.contains(
            x,
        )) by {
            let i = choose|i: int| 0 <= i < r.len() && r[i] == x;
            assert(r[i] == e);
        }
    } else if entry_le(s[0], e) {
        lemma_insert_props(e, s.drop_first());
        let rest = spec_insert(e, s.drop_first());
        assert(rest.contains(e));
        let w = choose|w: int| 0 <= w < rest.len() && rest[w] == e;
        assert(r[w + 1] == e);
        assert(r.contains(e));
        assert forall|x: RankedEntry| #[trigger] r.contains(x) implies (x == e || s.contains(
            x,
        )) by {
            let i = choose|i: int| 0 <= i < r.len() && r[i] == x;
            if i == 0 {
                assert(s[0] == x);
                assert(s.contains(x));
            } else {
                assert(rest[i - 1] == x);
                assert(rest.contains(x));
                if x != e {
                    assert(s.drop_first().contains(x));
                    let j = choose|j: int| 0 <= j < s.drop_first().len() && s.drop_first()[j] == x;
                    assert(s[j + 1] == x);
                    assert(s.contains(x));
                }
            }
        }
        assert forall|x: RankedEntry| #[trigger] s.contains(x) implies r.contains(x) by {
            let j = choose|j: int| 0 <= j < s.len() && s[j] == x;
            if j == 0 {
                assert(r[0] == x);
            } else {
                assert(s.drop_first()[j - 1] == x);
                assert(s.drop_first().contains(x));
                assert(rest.contains(x));
                let k = choose|k: int| 0 <= k < rest.len() && rest[k] == x;
                assert(r[k + 1] == x);
            }
        }
    } else {
        assert(r[0] == e);
        assert(r.contains(e));
        assert forall|x: RankedEntry| #[trigger] r.contains(x) implies (x == e || s.contains(
            x,
        )) by {
            let i = choose|i: int| 0 <= i < r.len() && r[i] == x;
            if i > 0 {
                assert(s[i - 1] == x);
                assert(s.contains(x));
            }
        }
        assert forall|x: RankedEntry| #[trigger] s.contains(x) implies r.contains(x) by {
            let j = choose|j: int| 0 <= j < s.len() && s[j] == x;
            assert(r[j + 1] == x);
        }
    }
}

proof fn lemma_insert_sorted(e: RankedEntry, s: Seq<RankedEntry>)
    requires
        sorted(s),
    ensures
        sorted(spec_insert(e, s)),
    decreases s.len(),
{
    let r = spec_insert(e, s);
    if s.len() == 0 {
    } else if entry_le(s[0], e) {
        assert(sorted(s.drop_first()));
        lemma_insert_sorted(e, s.drop_first());
        lemma_insert_props(e, s.drop_first());
        let rest = spec_insert(e, s.drop_first());
        assert forall|i: int, j: int| 0 <= i < j < r.len() implies entry_le(r[i], r[j]) by {
            if i == 0 {
                assert(r[j] == rest[j - 1]);
                assert(rest.contains(rest[j - 1]));
                if rest[j - 1] == e {
                } else {
                    assert(s.drop_first().contains(rest[j - 1]));
                    let k = choose|k: int|
                        0 <= k < s.drop_first().len() && s.drop_first()[k] == rest[j - 1];
                    assert(s[k + 1] == rest[j - 1]);
                    assert(entry_le(s[0], s[k + 1]));
                }
            } else {
                assert(r[i] == rest[i - 1] && r[j] == rest[j - 1]);
            }
        }
    } else {
        assert forall|i: int, j: int| 0 <= i < j < r.len() implies entry_le(r[i], r[j]) by {
            if i == 0 {
                assert(r[j] == s[j - 1]);
                assert(entry_le(e, s[0]));
                if j > 1 {
                    assert(entry_le(s[0], s[j - 1]));
                }
            } else {
                assert(r[i] == s[i - 1] && r[j] == s[j - 1]);
            }
        }
    }
}

/// Sorting sorts, keeps the length, and keeps exactly the elements.
pub proof fn lemma_sort_props(s: Seq<RankedEntry>)
    ensures
        sorted(spec_sort(s)),
        spec_sort(s).len() == s.len(),
        forall|x: RankedEntry| #[trigger] spec_sort(s).contains(x) ==> s.contains(x),
        forall|x: RankedEntry| #[trigger] s.contains(x) ==> spec_sort(s).contains(x),
    decreases s.len(),
{
    if s.len() == 0 {
    } else {
        lemma_sort_props(s.drop_last());
        lemma_insert_sorted(s.last(), spec_sort(s.drop_last()));
        lemma_insert_props(s.last(), spec_sort(s.drop_last()));
        let ins = spec_insert(s.last(), spec_sort(s.drop_last()));
        assert forall|x: RankedEntry| #[trigger] spec_sort(s).contains(x) implies s.contains(
            x,
        ) by {
            assert(ins.contains(x));
            if x == s.last() {
                assert(s[s.len() - 1] == x);
            } else {
                assert(spec_sort(s.drop_last()).contains(x));
                assert(s.drop_last().contains(x));
                let j = choose|j: int| 0 <= j < s.drop_last().len() && s.drop_last()[j] == x;
                assert(s[j] == x);
            }
        }
        assert forall|x: RankedEntry| #[trigger] s.contains(x) implies spec_sort(s).contains(
            x,
        ) by {
            let j = choose|j: int| 0 <= j < s.len() && s[j] == x;
            if j == s.len() - 1 {
                assert(x == s.last());
                assert(ins.contains(x));
            } else {
                assert(s.drop_last()[j] == x);
                assert(s.drop_last().contains(x));
                assert(spec_sort(s.drop_last()).contains(x));
                assert(ins.contains(x));
            }
        }
    }
}

/// Where the scan for the insertion point stopped, the constructive
/// insertion is exactly an insertion at that point.
proof fn lemma_insert_at(e: RankedEntry, s: Seq<RankedEntry>, j: int)
    requires
        0 <= j <= s.len(),
        forall|k: int| 0 <= k < j ==> entry_le(s[k], e),
        j == s.len() || !entry_le(s[j], e),
    ensures
        spec_insert(e, s) == s.take(j).add(seq![e]).add(s.skip(j)),
    decreases s.len(),
{
    if j == 0 {
        if s.len() == 0 {
            assert(spec_insert(e, s) =~= s.take(0).add(seq![e]).add(s.skip(0)));
        } else {
            assert(!entry_le(s[0], e));
            assert(spec_insert(e, s) =~= s.take(0).add(seq![e]).add(s.skip(0)));
        }
    } else {
        assert(entry_le(s[0], e));
        assert(forall|k: int| 0 <= k < j - 1 ==> entry_le(s.drop_first()[k], e));
        assert(j - 1 == s.drop_first().len() || !entry_le(s.drop_first()[j - 1], e));
        lemma_insert_at(e, s.drop_first(), j - 1);
        assert(seq![s[0]].add(
            s.drop_first().take(j - 1).add(seq![e]).add(s.drop_first().skip(j - 1)),
        ) =~= s.take(j).add(seq![e]).add(s.skip(j)));
    }
}

/// Every candidate row is valid, and candidate rows exist exactly for
/// the matching items.
pub proof fn lemma_candidates_valid(
    items: Seq<Item>,
    q: Seq<char>,
    store: RecencyStore,
    now: u64,
    weight: u64,
    mcfg: MatchConfig,
    i: int,
)
    requires
        items.len() <= usize::MAX,
        0 <= i,
    ensures
        forall|x: RankedEntry|
            spec_candidates_from(items, q, store, now, weight, mcfg, i).contains(x) ==> (
            valid_entry(x, items, q, store, now, weight, mcfg) && i <= x.index),
        forall|idx: int|
            i <= idx < items.len() && spec_fuzzy_score(q, items[idx].display@, mcfg) is Some
                ==> spec_candidates_from(items, q, store, now, weight, mcfg, i).contains(
                candidate_entry(items, q, store, now, weight, mcfg, idx),
            ),
    decreases items.len() - i,
{
    if 0 <= i < items.len() {
        lemma_candidates_valid(items, q, store, now, weight, mcfg, i + 1);
        let cur = spec_candidates_from(items, q, store, now, weight, mcfg, i);
        let rest = spec_candidates_from(items, q, store, now, weight, mcfg, i + 1);
        assert forall|x: RankedEntry| cur.contains(x) implies (valid_entry(
            x,
            items,
            q,
            store,
            now,
            weight,
            mcfg,
        ) && i <= x.index) by {
            let k = choose|k: int| 0 <= k < cur.len() && cur[k] == x;
            if spec_fuzzy_score(q, items[i].display@, mcfg) is Some {
                if k == 0 {
                    assert(x == candidate_entry(items, q, store, now, weight, mcfg, i));
                    assert(x.index as int == i);
                } else {
                    assert(rest[k - 1] == x);
                    assert(rest.contains(x));
                }
            } else {
                assert(rest[k] == x);
                assert(rest.contains(x));
            }
            assert(valid_entry(x, items, q, store, now, weight, mcfg));
            assert(i <= x.index);
        }
        assert forall|idx: int|
            i <= idx < items.len() && spec_fuzzy_score(q, items[idx].display@, mcfg)
                is Some implies cur.contains(
            candidate_entry(items, q, store, now, weight, mcfg, idx),
        ) by {
            let ce = candidate_entry(items, q, store, now, weight, mcfg, idx);
            if idx == i {
                assert(cur[0] == ce);
                assert(cur.contains(ce));
            } else {
                assert(rest.contains(ce));
                let k = choose|k: int| 0 <= k < rest.len() && rest[k] == ce;
                if spec_fuzzy_score(q, items[i].display@, mcfg) is Some {
                    assert(cur[k + 1] == ce);
                } else {
                    assert(cur[k] == ce);
                }
                assert(cur.contains(ce));
            }
        }
    }
}

/// Combined score, saturating; the execution of `combine_spec`.
pub fn combine(recency: u64, fuzzy: u64, weight: u64) -> (r: u64)
    ensures
        r as int == combine_spec(recency as int, fuzzy as int, weight),
{
    proof {
        vstd::arithmetic::mul::lemma_mul_upper_bound(
            recency as int,
            u64::MAX as int,
            weight as int,
            u64::MAX as int,
        );
        vstd::arithmetic::mul::lemma_mul_nonnegative(recency as int, weight as int);
    }
    let prod: u128 = (recency as u128) * (weight as u128);
    let total: u128 = prod + (fuzzy as u128);
    if total > u64::MAX as u128 {
        u64::MAX
    } else {
        total as u64
    }
}

/// One full scoring pass: match every item against the query (in
/// batches of the configured size), combine with the recency score,
/// and sort. The result is exactly `spec_rank` of the inputs — a pure
/// function of them, so a repeated pass yields an identical view.
pub fn rank(
    items: &Vec<Item>,
    query: &str,
    store: &RecencyStore,
    now: u64,
    cfg: &PickerConfig,
) -> (r: Vec<RankedEntry>)
    requires
        store.wf(),
        cfg.wf(),
    ensures
        r@ == spec_rank(items@, query@, *store, now, cfg.recency_weight, cfg.match_config),
{
    let ghost gitems = items@;
    let ghost gq = query@;
    let ghost gw = cfg.recency_weight;
    let ghost gm = cfg.match_config;
    let n = items.len();
    let mut cands: Vec<RankedEntry> = Vec::new();
    let mut i: usize = 0;
    while i < n
        invariant
            i <= n,
            n == gitems.len(),
            gitems == items@,
            gq == query@,
            gw == cfg.recency_weight,
            gm == cfg.match_config,
            store.wf(),
            cfg.wf(),
            spec_candidates_from(gitems, gq, *store, now, gw, gm, 0) == cands@.add(
                spec_candidates_from(gitems, gq, *store, now, gw, gm, i as int),
            ),
        decreases n - i,
    {
        let end = if n - i > cfg.batch_size {
            i + cfg.batch_size
        } else {
            n
        };
        while i < end
            invariant
                i <= end <= n,
                n == gitems.len(),
                gitems == items@,
                gq == query@,
                gw == cfg.recency_weight,
                gm == cfg.match_config,
                store.wf(),
                cfg.wf(),
                spec_candidates_from(gitems, gq, *store, now, gw, gm, 0) == cands@.add(
                    spec_candidates_from(gitems, gq, *store, now, gw, gm, i as int),
                ),
            decreases end - i,
        {
            let ghost prefix = cands@;
            match fuzzy_match(query, &items[i].display, &cfg.match_config) {
                Some((f, _spans)) => {
                    let rec = store.lookup(&items[i].identity, now);
                    let sc = combine(rec, f, cfg.recency_weight);
                    cands.push(RankedEntry { index: i, score: sc });
                    proof {
                        lemma_lookup_bounds(store.entries@, gitems[i as int].identity@, now, store.half_life);
                        assert(cands@[prefix.len() as int] == candidate_entry(
                            gitems,
                            gq,
                            *store,
                            now,
                            gw,
                            gm,
                            i as int,
                        ));
                        assert(cands@.add(
                            spec_candidates_from(gitems, gq, *store, now, gw, gm, i + 1),
                        ) =~= prefix.add(
                            spec_candidates_from(gitems, gq, *store, now, gw, gm, i as int),
                        ));
                    }
                },
                None => {
                    proof {
                        assert(spec_candidates_from(gitems, gq, *store, now, gw, gm, i as int)
                            == spec_candidates_from(gitems, gq, *store, now, gw, gm, i + 1));
                    }
                },
            }
            i = i + 1;
        }
    }
    proof {
        assert(spec_candidates_from(gitems, gq, *store, now, gw, gm, n as int) =~= Seq::<
            RankedEntry,
        >::empty());
        assert(cands@.add(Seq::<RankedEntry>::empty()) =~= cands@);
    }
    let ghost gcands = cands@;
    let mut res: Vec<RankedEntry> = Vec::new();
    let mut k: usize = 0;
    proof {
        assert(gcands.take(0) =~= Seq::<RankedEntry>::empty());
    }
    while k < cands.len()
        invariant
            k <= gcands.len(),
            gcands == cands@,
            res@ == spec_sort(gcands.take(k as int)),
        decreases gcands.len() - k,
    {
        let e = cands[k];
        let mut j: usize = 0;
        while j < res.len() && entry_le_x(&res[j], &e)
            invariant
                j <= res@.len(),
                forall|t: int| 0 <= t < j ==> entry_le(res@[t], e),
            decreases res@.len() - j,
        {
            j = j + 1;
        }
        let ghost before = res@;
        res.insert(j, e);
        proof {
            lemma_insert_at(e, before, j as int);
            assert(res@ =~= before.take(j as int).add(seq![e]).add(before.skip(j as int)));
            assert(gcands.take(k + 1).drop_last() =~= gcands.take(k as int));
            assert(gcands.take(k + 1).last() == gcands[k as int]);
        }
        k = k + 1;
    }
    proof {
        assert(gcands.take(gcands.len() as int) =~= gcands);
    }
    res
}

/// The execution of `entry_le`.
fn entry_le_x(a: &RankedEntry, b: &RankedEntry) -> (r: bool)
    ensures
        r == entry_le(*a, *b),
{
    a.score > b.score || (a.score == b.score && a.index <= b.index)
}

/// With the empty query, no item is filtered out: every catalog index
/// appears in the ranked view, with the fuzzy term neutral, so the
/// view is ordered by weighted recency alone.
pub proof fn lemma_empty_query_view(
    items: Seq<Item>,
    store: RecencyStore,
    now: u64,
    weight: u64,
    mcfg: MatchConfig,
)
    requires
        items.len() <= usize::MAX,
    ensures
        spec_rank(items, Seq::<char>::empty(), store, now, weight, mcfg).len() == items.len(),
        forall|idx: int|
            0 <= idx < items.len() ==> spec_rank(
                items,
                Seq::<char>::empty(),
                store,
                now,
                weight,
                mcfg,
            ).contains(candidate_entry(items, Seq::<char>::empty(), store, now, weight, mcfg, idx)),
        sorted(spec_rank(items, Seq::<char>::empty(), store, now, weight, mcfg)),
{
    let q = Seq::<char>::empty();
    let cands = spec_candidates_from(items, q, store, now, weight, mcfg, 0);
    assert forall|idx: int| 0 <= idx < items.len() implies spec_fuzzy_score(
        q,
        items[idx].display@,
        mcfg,
    ) is Some by {
        lemma_empty_query_matches(items[idx].display@, mcfg);
    }
    lemma_candidates_all_match_len(items, q, store, now, weight, mcfg, 0);
    lemma_candidates_valid(items, q, store, now, weight, mcfg, 0);
    lemma_sort_props(cands);
}

/// With the empty query the fuzzy term of every row is the neutral 0,
/// so the view is ordered by weighted recency alone: an earlier row's
/// item never has a smaller recency score than a later row's. (Stated
/// away from the saturation cap, where the weighted scores are still
/// distinguishable.)
pub proof fn lemma_empty_query_recency_order(
    items: Seq<Item>,
    store: RecencyStore,
    now: u64,
    weight: u64,
    mcfg: MatchConfig,
)
    requires
        items.len() <= usize::MAX,
        store.wf(),
        1 <= weight,
        forall|k: int|
            0 <= k < items.len() ==> #[trigger] store.spec_score(items[k].identity@, now) * weight
                <= u64::MAX,
    ensures
        forall|i: int, j: int|
            0 <= i < j < spec_rank(items, Seq::<char>::empty(), store, now, weight, mcfg).len()
                ==> store.spec_score(
                items[spec_rank(items, Seq::<char>::empty(), store, now, weight, mcfg)[i].index as int].identity@,
                now,
            ) >= store.spec_score(
                items[spec_rank(items, Seq::<char>::empty(), store, now, weight, mcfg)[j].index as int].identity@,
                now,
            ),
{
    let q = Seq::<char>::empty();
    let view = spec_rank(items, q, store, now, weight, mcfg);
    let cands = spec_candidates_from(items, q, store, now, weight, mcfg, 0);
    lemma_candidates_valid(items, q, store, now, weight, mcfg, 0);
    lemma_sort_props(cands);
    assert forall|i: int, j: int| 0 <= i < j < view.len() implies store.spec_score(
        items[view[i].index as int].identity@,
        now,
    ) >= store.spec_score(items[view[j].index as int].identity@, now) by {
        assert(view.contains(view[i]));
        assert(view.contains(view[j]));
        assert(cands.contains(view[i]));
        assert(cands.contains(view[j]));
        let a = view[i];
        let b = view[j];
        let ra = store.spec_score(items[a.index as int].identity@, now);
        let rb = store.spec_score(items[b.index as int].identity@, now);
        lemma_lookup_bounds(store.entries@, items[a.index as int].identity@, now, store.half_life);
        lemma_lookup_bounds(store.entries@, items[b.index as int].identity@, now, store.half_life);
        lemma_empty_query_matches(items[a.index as int].display@, mcfg);
        lemma_empty_query_matches(items[b.index as int].display@, mcfg);
        assert(valid_entry(a, items, q, store, now, weight, mcfg));
        assert(valid_entry(b, items, q, store, now, weight, mcfg));
        assert(spec_fuzzy_score(q, items[a.index as int].display@, mcfg).unwrap() == 0);
        assert(spec_fuzzy_score(q, items[b.index as int].display@, mcfg).unwrap() == 0);
        assert(ra * weight <= u64::MAX);
        assert(rb * weight <= u64::MAX);
        vstd::arithmetic::mul::lemma_mul_nonnegative(ra, weight as int);
        vstd::arithmetic::mul::lemma_mul_nonnegative(rb, weight as int);
        assert(combine_spec(ra, 0int, weight) == ra * weight);
        assert(combine_spec(rb, 0int, weight) == rb * weight);
        assert(a == candidate_entry(items, q, store, now, weight, mcfg, a.index as int));
        assert(b == candidate_entry(items, q, store, now, weight, mcfg, b.index as int));
        assert(a.score as int == ra * weight);
        assert(b.score as int == rb * weight);
        assert(entry_le(a, b));
        assert(a.score >= b.score);
        assert(ra >= rb) by (nonlinear_arith)
            requires
                ra * weight >= rb * weight,
                weight >= 1,
                ra >= 0,
                rb >= 0,
        {
        }
    }
}

/// When every item from position `i` on matches, there is one
/// candidate row per item.
proof fn lemma_candidates_all_match_len(
    items: Seq<Item>,
    q: Seq<char>,
    store: RecencyStore,
    now: u64,
    weight: u64,
    mcfg: MatchConfig,
    i: int,
)
    requires
        0 <= i <= items.len(),
        forall|idx: int|
            i <= idx < items.len() ==> spec_fuzzy_score(q, items[idx].display@, mcfg) is Some,
    ensures
        spec_candidates_from(items, q, store, now, weight, mcfg, i).len() == items.len() - i,
    decreases items.len() - i,
{
    if i < items.len() {
        lemma_candidates_all_match_len(items, q, store, now, weight, mcfg, i + 1);
    }
}

/// A query that matches no item yields the empty ranked view.
pub proof fn lemma_no_match_empty_view(
    items: Seq<Item>,
    q: Seq<char>,
    store: RecencyStore,
    now: u64,
    weight: u64,
    mcfg: MatchConfig,
)
    requires
        forall|idx: int|
            0 <= idx < items.len() ==> spec_fuzzy_score(q, items[idx].display@, mcfg) is None,
    ensures
        spec_rank(items, q, store, now, weight, mcfg).len() == 0,
{
    lemma_candidates_no_match_empty(items, q, store, now, weight, mcfg, 0);
    lemma_sort_props(spec_candidates_from(items, q, store, now, weight, mcfg, 0));
}

proof fn lemma_candidates_no_match_empty(
    items: Seq<Item>,
    q: Seq<char>,
    store: RecencyStore,
    now: u64,
    weight: u64,
    mcfg: MatchConfig,
    i: int,
)
    requires
        forall|idx: int|
            0 <= idx < items.len() ==> spec_fuzzy_score(q, items[idx].display@, mcfg) is None,
    ensures
        spec_candidates_from(items, q, store, now, weight, mcfg, i).len() == 0,
    decreases items.len() - i,
{
    if 0 <= i < items.len() {
        lemma_candidates_no_match_empty(items, q, store, now, weight, mcfg, i + 1);
    }
}

/// The ranked view is a function of its inputs alone: any two views of
/// the same (catalog, query, store, time, configuration) are equal.
pub proof fn lemma_rank_deterministic(
    a: Seq<RankedEntry>,
    b: Seq<RankedEntry>,
    items: Seq<Item>,
    q: Seq<char>,
    store: RecencyStore,
    now: u64,
    weight: u64,
    mcfg: MatchConfig,
)
    requires
        a == spec_rank(items, q, store, now, weight, mcfg),
        b == spec_rank(items, q, store, now, weight, mcfg),
    ensures
        a == b,
{
}

} // verus!
