//! Fuzzy matching of a live query against a candidate display text.
//!
//! A candidate matches when the folded query is a subsequence of the
//! folded candidate; the match is found greedily, left to right. The
//! score rewards matched length, consecutive runs, a match at the very
//! start, and short candidates. Folding is configurable on two axes:
//! case (respect, ignore, or smart: ignore unless the query itself
//! contains an upper-case letter) and accent normalization (keep,
//! fold, or smart: fold unless the query itself contains an accented
//! letter). The empty query matches everything with the neutral score
//! 0. Everything is a pure function of (query, candidate, config).

use vstd::prelude::*;

verus! {

#[derive(Clone, Copy, PartialEq, Eq, Structural, Debug)]
pub enum CaseMode {
    /// Case-sensitive.
    Respect,
    /// Case-insensitive.
    Ignore,
    /// Case-insensitive unless the query contains an upper-case letter.
    Smart,
}

#[derive(Clone, Copy, PartialEq, Eq, Structural, Debug)]
pub enum NormMode {
    /// Accented letters only match themselves.
    Keep,
    /// Accented letters match their base letter.
    Fold,
    /// Fold accents unless the query itself contains an accented letter.
    Smart,
}

#[derive(Clone, Copy, PartialEq, Eq, Structural, Debug)]
pub struct MatchConfig {
    pub case_mode: CaseMode,
    pub norm_mode: NormMode,
}

pub open spec fn is_upper(c: char) -> bool {
    65 <= c as u32 <= 90
}

/// Lower-cases the 26 ASCII letters; every other character is kept.
pub open spec fn lower_code(u: u32) -> u32 {
    if 65 <= u <= 90 {
        (u + 32) as u32
    } else {
        u
    }
}

/// Folds the common accented Latin-1 letters to their base letter's
/// code; every other code is kept.
pub open spec fn norm_code(u: u32) -> u32 {
    if (0xe0 <= u <= 0xe2) || u == 0xe4 {
        97
    } else if (0xe8 <= u <= 0xeb) {
        101
    } else if (0xec <= u <= 0xef) {
        105
    } else if (0xf2 <= u <= 0xf4) || u == 0xf6 {
        111
    } else if (0xf9 <= u <= 0xfb) || u == 0xfc {
        117
    } else if u == 0xf1 {
        110
    } else if u == 0xe7 {
        99
    } else if (0xc0 <= u <= 0xc2) || u == 0xc4 {
        65
    } else if (0xc8 <= u <= 0xcb) {
        69
    } else if (0xcc <= u <= 0xcf) {
        73
    } else if (0xd2 <= u <= 0xd4) || u == 0xd6 {
        79
    } else if (0xd9 <= u <= 0xdb) || u == 0xdc {
        85
    } else if u == 0xd1 {
        78
    } else if u == 0xc7 {
        67
    } else {
        u
    }
}

/// A character folded under the two chosen axes, as a code point.
pub open spec fn fold_code(c: char, fold_case: bool, fold_accents: bool) -> u32 {
    let u = if fold_case {
        lower_code(c as u32)
    } else {
        c as u32
    };
    if fold_accents {
        norm_code(u)
    } else {
        u
    }
}

pub open spec fn fold_seq(s: Seq<char>, fold_case: bool, fold_accents: bool) -> Seq<u32> {
    s.map_values(|c: char| fold_code(c, fold_case, fold_accents))
}

pub open spec fn has_upper(s: Seq<char>) -> bool {
    exists|i: int| 0 <= i < s.len() && is_upper(s[i])
}

pub open spec fn has_accent(s: Seq<char>) -> bool {
    exists|i: int| 0 <= i < s.len() && norm_code(s[i] as u32) != s[i] as u32
}

/// Whether a scoring pass folds case, as a function of the query alone.
pub open spec fn folds_case(cfg: MatchConfig, q: Seq<char>) -> bool {
    match cfg.case_mode {
        CaseMode::Respect => false,
        CaseMode::Ignore => true,
        CaseMode::Smart => !has_upper(q),
    }
}

/// Whether a scoring pass folds accents, as a function of the query alone.
pub open spec fn folds_accents(cfg: MatchConfig, q: Seq<char>) -> bool {
    match cfg.norm_mode {
        NormMode::Keep => false,
        NormMode::Fold => true,
        NormMode::Smart => !has_accent(q),
    }
}

/// Greedy leftmost subsequence match of `q[qi..]` inside `c[ci..]`:
/// the candidate positions matched, in increasing order, or `None`
/// when the rest of the query cannot be placed.
pub open spec fn greedy_from(q: Seq<u32>, c: Seq<u32>, qi: int, ci: int) -> Option<Seq<int>>
    decreases c.len() - ci,
{
    if qi >= q.len() || qi < 0 || ci < 0 {
        Some(Seq::empty())
    } else if ci >= c.len() {
        None
    } else if q[qi] == c[ci] {
        match greedy_from(q, c, qi + 1, ci + 1) {
            Some(p) => Some(seq![ci].add(p)),
            None => None,
        }
    } else {
        greedy_from(q, c, qi, ci + 1)
    }
}

/// `p` places the characters of `q[qi..]` at strictly increasing
/// positions of `c`, none before `ci`.
pub open spec fn matches_from(q: Seq<u32>, c: Seq<u32>, qi: int, ci: int, p: Seq<int>) -> bool {
    &&& p.len() == q.len() - qi
    &&& forall|i: int|
        0 <= i < p.len() ==> ci <= #[trigger] p[i] < c.len() && c[p[i]] == q[qi + i]
    &&& forall|i: int| 0 < i < p.len() ==> p[i - 1] < #[trigger] p[i]
}

/// `q` occurs inside `c` as a subsequence.
pub open spec fn is_subsequence(q: Seq<u32>, c: Seq<u32>) -> bool {
    exists|p: Seq<int>| matches_from(q, c, 0, 0, p)
}

/// The positions the greedy match finds are a subsequence placement.
proof fn lemma_greedy_sound(q: Seq<u32>, c: Seq<u32>, qi: int, ci: int)
    requires
        0 <= qi <= q.len(),
        0 <= ci <= c.len(),
        greedy_from(q, c, qi, ci) is Some,
    ensures
        matches_from(q, c, qi, ci, greedy_from(q, c, qi, ci).unwrap()),
    decreases c.len() - ci,
{
    let p = greedy_from(q, c, qi, ci).unwrap();
    if qi >= q.len() {
    } else if ci >= c.len() {
    } else if q[qi] == c[ci] {
        lemma_greedy_sound(q, c, qi + 1, ci + 1);
        let rest = greedy_from(q, c, qi + 1, ci + 1).unwrap();
        assert(p =~= seq![ci].add(rest));
        assert forall|i: int| 0 <= i < p.len() implies ci <= #[trigger] p[i] < c.len() && c[p[i]]
            == q[qi + i] by {
            if i > 0 {
                assert(p[i] == rest[i - 1]);
            }
        }
        assert forall|i: int| 0 < i < p.len() implies p[i - 1] < #[trigger] p[i] by {
            if i == 1 {
                assert(p[0] == ci && p[1] == rest[0]);
            } else {
                assert(p[i - 1] == rest[i - 2] && p[i] == rest[i - 1]);
            }
        }
    } else {
        lemma_greedy_sound(q, c, qi, ci + 1);
    }
}

/// Wherever some placement of the rest of the query exists, the
/// greedy match finds one.
proof fn lemma_greedy_complete(q: Seq<u32>, c: Seq<u32>, qi: int, ci: int, p: Seq<int>)
    requires
        0 <= qi <= q.len(),
        0 <= ci <= c.len(),
        matches_from(q, c, qi, ci, p),
    ensures
        greedy_from(q, c, qi, ci) is Some,
    decreases c.len() - ci,
{
    if qi >= q.len() {
    } else {
        assert(p.len() > 0);
        assert(ci <= p[0] < c.len() && c[p[0]] == q[qi]);
        assert(ci < c.len());
        if q[qi] == c[ci] {
            let rest = p.drop_first();
            assert forall|i: int| 0 <= i < rest.len() implies ci + 1 <= #[trigger] rest[i] < c.len()
                && c[rest[i]] == q[qi + 1 + i] by {
                assert(rest[i] == p[i + 1]);
                assert(p[i] < p[i + 1]);
                assert(p[0] <= p[i]) by {
                    lemma_positions_increase(p, 0, i);
                }
            }
            assert forall|i: int| 0 < i < rest.len() implies rest[i - 1] < #[trigger] rest[i] by {
                assert(rest[i - 1] == p[i] && rest[i] == p[i + 1]);
            }
            assert(matches_from(q, c, qi + 1, ci + 1, rest));
            lemma_greedy_complete(q, c, qi + 1, ci + 1, rest);
        } else {
            assert(p[0] != ci);
            assert forall|i: int| 0 <= i < p.len() implies ci + 1 <= #[trigger] p[i] by {
                lemma_positions_increase(p, 0, i);
            }
            assert(matches_from(q, c, qi, ci + 1, p));
            lemma_greedy_complete(q, c, qi, ci + 1, p);
        }
    }
}

/// Strictly increasing positions only grow along the sequence.
proof fn lemma_positions_increase(p: Seq<int>, i: int, j: int)
    requires
        0 <= i <= j < p.len(),
        forall|k: int| 0 < k < p.len() ==> p[k - 1] < #[trigger] p[k],
    ensures
        p[i] <= p[j],
    decreases j - i,
{
    if i < j {
        lemma_positions_increase(p, i, j - 1);
    }
}

/// The matcher accepts a (folded) query against a (folded) candidate
/// exactly when the one is a subsequence of the other: what the
/// greedy scan finds is such a placement, and wherever any placement
/// exists, the greedy scan succeeds.
pub proof fn lemma_match_iff_subsequence(q: Seq<char>, c: Seq<char>, cfg: MatchConfig)
    ensures
        spec_positions(q, c, cfg) is Some <==> is_subsequence(
            fold_seq(q, folds_case(cfg, q), folds_accents(cfg, q)),
            fold_seq(c, folds_case(cfg, q), folds_accents(cfg, q)),
        ),
{
    let fc = folds_case(cfg, q);
    let fa = folds_accents(cfg, q);
    let fq = fold_seq(q, fc, fa);
    let fcand = fold_seq(c, fc, fa);
    if spec_positions(q, c, cfg) is Some {
        lemma_greedy_sound(fq, fcand, 0, 0);
        assert(matches_from(fq, fcand, 0, 0, greedy_from(fq, fcand, 0, 0).unwrap()));
    }
    if is_subsequence(fq, fcand) {
        let p = choose|p: Seq<int>| matches_from(fq, fcand, 0, 0, p);
        lemma_greedy_complete(fq, fcand, 0, 0, p);
    }
}

/// Number of adjacent pairs of matched positions that are consecutive
/// in the candidate.
pub open spec fn consec_count(p: Seq<int>) -> int
    decreases p.len(),
{
    if p.len() <= 1 {
        0
    } else {
        consec_count(p.drop_last()) + if p[p.len() - 1] == p[p.len() - 2] + 1 {
            1int
        } else {
            0int
        }
    }
}

pub proof fn lemma_consec_count_bounds(p: Seq<int>)
    ensures
        0 <= consec_count(p) <= p.len(),
    decreases p.len(),
{
    if p.len() > 1 {
        lemma_consec_count_bounds(p.drop_last());
    }
}

/// Raw score of a match: matched length dominates, then consecutive
/// runs, a bonus for matching at the start, and a bonus for short
/// candidates. The empty match (empty query) scores the neutral 0.
pub open spec fn raw_score(p: Seq<int>, cand_len: int) -> int {
    if p.len() == 0 {
        0
    } else {
        100 * p.len() + 40 * consec_count(p) + (if p[0] == 0 {
            30int
        } else {
            0int
        }) + (if cand_len < 100 {
            100 - cand_len
        } else {
            0int
        })
    }
}

/// Raw score, saturated to the representable range.
pub open spec fn capped_score(p: Seq<int>, cand_len: int) -> int {
    if raw_score(p, cand_len) <= u64::MAX {
        raw_score(p, cand_len)
    } else {
        u64::MAX as int
    }
}

/// The positions of the match of `query` inside `candidate` under
/// `cfg`, or `None` where there is no match.
pub open spec fn spec_positions(q: Seq<char>, c: Seq<char>, cfg: MatchConfig) -> Option<Seq<int>> {
    let fc = folds_case(cfg, q);
    let fa = folds_accents(cfg, q);
    greedy_from(fold_seq(q, fc, fa), fold_seq(c, fc, fa), 0, 0)
}

/// The fuzzy score of `query` against `candidate` under `cfg`.
pub open spec fn spec_fuzzy_score(q: Seq<char>, c: Seq<char>, cfg: MatchConfig) -> Option<int> {
    match spec_positions(q, c, cfg) {
        Some(p) => Some(capped_score(p, c.len() as int)),
        None => None,
    }
}

/// Highlight spans of a match: one (start, length 1) span per matched
/// candidate position, in increasing order.
pub open spec fn spec_spans(p: Seq<int>) -> Seq<(int, int)> {
    p.map_values(|x: int| (x, 1int))
}

/// The empty query matches every candidate, with no positions and the
/// neutral score 0.
pub proof fn lemma_empty_query_matches(c: Seq<char>, cfg: MatchConfig)
    ensures
        spec_positions(Seq::<char>::empty(), c, cfg) == Some(Seq::<int>::empty()),
        spec_fuzzy_score(Seq::<char>::empty(), c, cfg) == Some(0int),
{
    let fc = folds_case(cfg, Seq::<char>::empty());
    let fa = folds_accents(cfg, Seq::<char>::empty());
    assert(fold_seq(Seq::<char>::empty(), fc, fa).len() == 0);
    assert(greedy_from(
        fold_seq(Seq::<char>::empty(), fc, fa),
        fold_seq(c, fc, fa),
        0,
        0,
    ) == Some(Seq::<int>::empty()));
}

fn fold_char_x(c: char, fold_case: bool, fold_accents: bool) -> (r: u32)
    ensures
        r == fold_code(c, fold_case, fold_accents),
{
    let u0 = c as u32;
    let u = if fold_case && 65 <= u0 && u0 <= 90 {
        u0 + 32
    } else {
        u0
    };
    if !fold_accents {
        return u;
    }
    if (0xe0 <= u && u <= 0xe2) || u == 0xe4 {
        97
    } else if 0xe8 <= u && u <= 0xeb {
        101
    } else if 0xec <= u && u <= 0xef {
        105
    } else if (0xf2 <= u && u <= 0xf4) || u == 0xf6 {
        111
    } else if (0xf9 <= u && u <= 0xfb) || u == 0xfc {
        117
    } else if u == 0xf1 {
        110
    } else if u == 0xe7 {
        99
    } else if (0xc0 <= u && u <= 0xc2) || u == 0xc4 {
        65
    } else if 0xc8 <= u && u <= 0xcb {
        69
    } else if 0xcc <= u && u <= 0xcf {
        73
    } else if (0xd2 <= u && u <= 0xd4) || u == 0xd6 {
        79
    } else if (0xd9 <= u && u <= 0xdb) || u == 0xdc {
        85
    } else if u == 0xd1 {
        78
    } else if u == 0xc7 {
        67
    } else {
        u
    }
}

/// Folds a whole string under the chosen axes, one code per character.
fn fold_string(s: &str, fold_case: bool, fold_accents: bool) -> (v: Vec<u32>)
    ensures
        v@ == fold_seq(s@, fold_case, fold_accents),
{
    let n = s.unicode_len();
    let mut v: Vec<u32> = Vec::new();
    let mut i: usize = 0;
    while i < n
        invariant
            i <= n,
            n == s@.len(),
            v@ == fold_seq(s@.take(i as int), fold_case, fold_accents),
        decreases n - i,
    {
        let c = s.get_char(i);
        v.push(fold_char_x(c, fold_case, fold_accents));
        proof {
            assert(s@.take(i + 1 as int).drop_last() =~= s@.take(i as int));
            assert(fold_seq(s@.take(i + 1 as int), fold_case, fold_accents) =~= fold_seq(
                s@.take(i as int),
                fold_case,
                fold_accents,
            ).push(fold_code(s@[i as int], fold_case, fold_accents)));
        }
        i = i + 1;
    }
    proof {
        assert(s@.take(n as int) =~= s@);
    }
    v
}

/// Whether the query asks for case-sensitivity under smart case.
fn query_has_upper(s: &str) -> (r: bool)
    ensures
        r == has_upper(s@),
{
    let n = s.unicode_len();
    let mut i: usize = 0;
    while i < n
        invariant
            i <= n,
            n == s@.len(),
            forall|k: int| 0 <= k < i ==> !is_upper(s@[k]),
        decreases n - i,
    {
        let c = s.get_char(i);
        let u = c as u32;
        if 65 <= u && u <= 90 {
            return true;
        }
        i = i + 1;
    }
    false
}

/// Whether the query itself contains a foldable accented letter.
fn query_has_accent(s: &str) -> (r: bool)
    ensures
        r == has_accent(s@),
{
    let n = s.unicode_len();
    let mut i: usize = 0;
    while i < n
        invariant
            i <= n,
            n == s@.len(),
            forall|k: int| 0 <= k < i ==> norm_code(s@[k] as u32) == s@[k] as u32,
        decreases n - i,
    {
        let c = s.get_char(i);
        let u = c as u32;
        let f = fold_char_x(c, false, true);
        if f != u {
            return true;
        }
        i = i + 1;
    }
    false
}

/// Greedy leftmost subsequence match; the execution of `greedy_from`.
fn match_positions(q: &Vec<u32>, c: &Vec<u32>) -> (r: Option<Vec<usize>>)
    ensures
        match r {
            Some(p) => greedy_from(q@, c@, 0, 0) == Some(
                p@.map_values(|x: usize| x as int),
            ),
            None => greedy_from(q@, c@, 0, 0) is None,
        },
{
    let mut pos: Vec<usize> = Vec::new();
    let mut qi: usize = 0;
    let mut ci: usize = 0;
    proof {
        assert(pos@.map_values(|x: usize| x as int) =~= Seq::<int>::empty());
    }
    while qi < q.len() && ci < c.len()
        invariant
            qi <= q@.len(),
            ci <= c@.len(),
            (match greedy_from(q@, c@, qi as int, ci as int) {
                Some(p) => greedy_from(q@, c@, 0, 0) == Some(
                    pos@.map_values(|x: usize| x as int).add(p),
                ),
                None => greedy_from(q@, c@, 0, 0) is None,
            }),
            forall|k: int| 0 <= k < pos@.len() ==> pos@[k] < ci,
        decreases c@.len() - ci,
    {
        if q[qi] == c[ci] {
            let ghost prefix = pos@.map_values(|x: usize| x as int);
            pos.push(ci);
            proof {
                assert(pos@.map_values(|x: usize| x as int) =~= prefix.push(ci as int));
                match greedy_from(q@, c@, qi + 1 as int, ci + 1 as int) {
                    Some(p) => {
                        assert(greedy_from(q@, c@, qi as int, ci as int) == Some(
                            seq![ci as int].add(p),
                        ));
                        assert(prefix.add(seq![ci as int].add(p)) =~= prefix.push(ci as int).add(
                            p,
                        ));
                    },
                    None => {},
                }
            }
            qi = qi + 1;
            ci = ci + 1;
        } else {
            ci = ci + 1;
        }
    }
    if qi == q.len() {
        proof {
            assert(greedy_from(q@, c@, qi as int, ci as int) == Some(Seq::<int>::empty()));
            assert(pos@.map_values(|x: usize| x as int).add(Seq::<int>::empty()) =~= pos@.map_values(
                |x: usize| x as int,
            ));
        }
        Some(pos)
    } else {
        None
    }
}

/// Score of a set of matched positions; the execution of `capped_score`.
fn score_positions(p: &Vec<usize>, cand_len: usize) -> (r: u64)
    ensures
        r as int == capped_score(p@.map_values(|x: usize| x as int), cand_len as int),
{
    let ghost pm = p@.map_values(|x: usize| x as int);
    if p.len() == 0 {
        return 0;
    }
    let mut consec: usize = 0;
    let mut i: usize = 1;
    proof {
        lemma_consec_count_bounds(pm.take(1));
        assert(consec_count(pm.take(1)) == 0);
    }
    while i < p.len()
        invariant
            1 <= i <= p@.len(),
            p@.len() >= 1,
            pm == p@.map_values(|x: usize| x as int),
            consec as int == consec_count(pm.take(i as int)),
            consec < i,
        decreases p@.len() - i,
    {
        proof {
            assert(pm.take(i + 1 as int).drop_last() =~= pm.take(i as int));
            assert(pm.take(i + 1 as int)[i as int] == pm[i as int]);
            lemma_consec_count_bounds(pm.take(i as int));
        }
        if p[i - 1] < usize::MAX && p[i] == p[i - 1] + 1 {
            consec = consec + 1;
        }
        i = i + 1;
    }
    proof {
        assert(pm.take(p@.len() as int) =~= pm);
    }
    let base: u128 = 100u128 * (p.len() as u128) + 40u128 * (consec as u128);
    let start_bonus: u128 = if p[0] == 0 {
        30
    } else {
        0
    };
    let short_bonus: u128 = if cand_len < 100 {
        (100 - cand_len) as u128
    } else {
        0
    };
    let total: u128 = base + start_bonus + short_bonus;
    if total > u64::MAX as u128 {
        u64::MAX
    } else {
        total as u64
    }
}

/// Fuzzy-match `query` against `candidate` under `cfg`: `None` when
/// the query does not match; otherwise the score and the highlight
/// spans (one per matched character of `candidate`, in order).
pub fn fuzzy_match(query: &str, candidate: &str, cfg: &MatchConfig) -> (r: Option<
    (u64, Vec<(usize, usize)>),
>)
    ensures
        r is Some <==> spec_positions(query@, candidate@, *cfg) is Some,
        r is Some ==> Some(r.unwrap().0 as int) == spec_fuzzy_score(query@, candidate@, *cfg),
        r is Some ==> r.unwrap().1@.map_values(|sp: (usize, usize)| (sp.0 as int, sp.1 as int))
            == spec_spans(spec_positions(query@, candidate@, *cfg).unwrap()),
{
    let fc = match cfg.case_mode {
        CaseMode::Respect => false,
        CaseMode::Ignore => true,
        CaseMode::Smart => !query_has_upper(query),
    };
    let fa = match cfg.norm_mode {
        NormMode::Keep => false,
        NormMode::Fold => true,
        NormMode::Smart => !query_has_accent(query),
    };
    let fq = fold_string(query, fc, fa);
    let fcand = fold_string(candidate, fc, fa);
    match match_positions(&fq, &fcand) {
        None => None,
        Some(p) => {
            let score = score_positions(&p, candidate.unicode_len());
            let mut spans: Vec<(usize, usize)> = Vec::new();
            let mut i: usize = 0;
            proof {
                assert(spans@.map_values(|sp: (usize, usize)| (sp.0 as int, sp.1 as int))
                    =~= Seq::<(int, int)>::empty());
            }
            while i < p.len()
                invariant
                    i <= p@.len(),
                    spans@.map_values(|sp: (usize, usize)| (sp.0 as int, sp.1 as int))
                        == spec_spans(p@.map_values(|x: usize| x as int).take(i as int)),
                decreases p@.len() - i,
            {
                let ghost svm = spans@.map_values(|sp: (usize, usize)| (sp.0 as int, sp.1 as int));
                spans.push((p[i], 1));
                proof {
                    assert(spans@.map_values(|sp: (usize, usize)| (sp.0 as int, sp.1 as int))
                        =~= svm.push((p@[i as int] as int, 1int)));
                    assert(spec_spans(p@.map_values(|x: usize| x as int).take(i + 1 as int))
                        =~= spec_spans(p@.map_values(|x: usize| x as int).take(i as int)).push(
                        (p@[i as int] as int, 1int),
                    ));
                }
                i = i + 1;
            }
            proof {
                assert(p@.map_values(|x: usize| x as int).take(p@.len() as int) =~= p@.map_values(
                    |x: usize| x as int,
                ));
            }
            Some((score, spans))
        },
    }
}

} // verus!
