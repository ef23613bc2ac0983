use nix_nit::config::PickerConfig;
use nix_nit::matcher::{CaseMode, MatchConfig, NormMode, fuzzy_match};
use nix_nit::rank::{Item, rank};
use nix_nit::recency::RecencyStore;
use nix_nit::session::Session;

const HL: u64 = 3600;

fn smart_cfg() -> MatchConfig {
    MatchConfig { case_mode: CaseMode::Smart, norm_mode: NormMode::Smart }
}

fn picker_cfg() -> PickerConfig {
    PickerConfig::new(
        HL,
        15000,
        1,
        1000,
        CaseMode::Smart,
        NormMode::Smart,
        String::from("nix-nit"),
    )
    .unwrap()
}

fn catalog() -> Vec<Item> {
    vec![
        Item {
            identity: String::from("github:NixOS/templates-rust"),
            display: String::from("templates github:NixOS/templates#rust"),
        },
        Item {
            identity: String::from("github:NixOS/templates-haskell"),
            display: String::from("templates github:NixOS/templates#haskell"),
        },
        Item {
            identity: String::from("github:NixOS/templates-default"),
            display: String::from("templates github:NixOS/templates#default"),
        },
    ]
}

#[test]
fn empty_query_matches_with_neutral_score() {
    let r = fuzzy_match("", "anything at all", &smart_cfg());
    let (score, spans) = r.expect("empty query must match");
    assert_eq!(score, 0);
    assert!(spans.is_empty());
}

#[test]
fn subsequence_matches_with_greedy_spans() {
    let r = fuzzy_match("abc", "xaxbxc", &smart_cfg());
    let (_, spans) = r.expect("subsequence should match");
    assert_eq!(spans, vec![(1, 1), (3, 1), (5, 1)]);
}

#[test]
fn non_subsequence_does_not_match() {
    assert!(fuzzy_match("xyz", "templates", &smart_cfg()).is_none());
    assert!(fuzzy_match("ba", "ab", &smart_cfg()).is_none());
}

#[test]
fn score_formula_exact_value() {
    // positions 0 and 1: 100 per matched char, 40 for the consecutive
    // pair, 30 for matching at the start, 100 - 2 for the short text
    let (score, spans) = fuzzy_match("ab", "ab", &smart_cfg()).unwrap();
    assert_eq!(score, 100 * 2 + 40 + 30 + 98);
    assert_eq!(spans, vec![(0, 1), (1, 1)]);
}

#[test]
fn smart_case_ignores_case_for_lowercase_query() {
    assert!(fuzzy_match("rust", "RUST template", &smart_cfg()).is_some());
}

#[test]
fn smart_case_respects_case_for_uppercase_query() {
    assert!(fuzzy_match("Rust", "rust template", &smart_cfg()).is_none());
    assert!(fuzzy_match("Rust", "Rust template", &smart_cfg()).is_some());
}

#[test]
fn case_modes_override_smartness() {
    let ignore = MatchConfig { case_mode: CaseMode::Ignore, norm_mode: NormMode::Keep };
    let respect = MatchConfig { case_mode: CaseMode::Respect, norm_mode: NormMode::Keep };
    assert!(fuzzy_match("RUST", "rust", &ignore).is_some());
    assert!(fuzzy_match("rust", "RUST", &respect).is_none());
}

#[test]
fn accent_folding_matches_base_letters() {
    let fold = MatchConfig { case_mode: CaseMode::Ignore, norm_mode: NormMode::Fold };
    let keep = MatchConfig { case_mode: CaseMode::Ignore, norm_mode: NormMode::Keep };
    assert!(fuzzy_match("cafe", "caf\u{e9}", &fold).is_some());
    assert!(fuzzy_match("cafe", "caf\u{e9}", &keep).is_none());
}

#[test]
fn matcher_is_deterministic() {
    let a = fuzzy_match("tmpl", "templates#default", &smart_cfg());
    let b = fuzzy_match("tmpl", "templates#default", &smart_cfg());
    assert_eq!(a, b);
}

#[test]
fn empty_query_ranks_whole_catalog_by_recency() {
    let items = catalog();
    let cfg = picker_cfg();
    let mut store = RecencyStore::new(String::from("nix-nit"), HL);
    store.bump(&items[2].identity, 15000, 100);
    store.bump(&items[1].identity, 7000, 100);
    let view = rank(&items, "", &store, 100, &cfg);
    assert_eq!(view.len(), 3);
    assert_eq!(view[0].index, 2);
    assert_eq!(view[1].index, 1);
    assert_eq!(view[2].index, 0);
    assert!(view[0].score >= view[1].score && view[1].score >= view[2].score);
}

#[test]
fn query_matching_nothing_yields_empty_view() {
    let items = catalog();
    let cfg = picker_cfg();
    let store = RecencyStore::new(String::from("nix-nit"), HL);
    let view = rank(&items, "zzzzqq", &store, 0, &cfg);
    assert!(view.is_empty());
}

#[test]
fn non_matching_item_is_dropped_despite_recency() {
    let items = catalog();
    let cfg = picker_cfg();
    let mut store = RecencyStore::new(String::from("nix-nit"), HL);
    // heavy recency on the haskell entry, but the query excludes it
    store.bump(&items[1].identity, 1000000, 0);
    let view = rank(&items, "rust", &store, 0, &cfg);
    assert_eq!(view.len(), 1);
    assert_eq!(view[0].index, 0);
}

#[test]
fn recency_floats_item_over_equal_fuzzy_scores() {
    let items = catalog();
    let cfg = picker_cfg();
    let mut store = RecencyStore::new(String::from("nix-nit"), HL);
    store.bump(&items[1].identity, 15000, 50);
    let view = rank(&items, "templates", &store, 50, &cfg);
    assert_eq!(view.len(), 3);
    assert_eq!(view[0].index, 1);
}

#[test]
fn equal_scores_keep_catalog_order() {
    // identical displays and no recency: every combined score is equal,
    // so the tie-break is the original catalog order
    let items = vec![
        Item { identity: String::from("a"), display: String::from("flake template") },
        Item { identity: String::from("b"), display: String::from("flake template") },
        Item { identity: String::from("c"), display: String::from("flake template") },
    ];
    let cfg = picker_cfg();
    let store = RecencyStore::new(String::from("nix-nit"), HL);
    let view = rank(&items, "flake", &store, 0, &cfg);
    assert_eq!(view.len(), 3);
    assert!(view[0].score == view[1].score && view[1].score == view[2].score);
    assert_eq!(view[0].index, 0);
    assert_eq!(view[1].index, 1);
    assert_eq!(view[2].index, 2);
}

#[test]
fn ranking_twice_is_byte_identical() {
    let items = catalog();
    let cfg = picker_cfg();
    let mut store = RecencyStore::new(String::from("nix-nit"), HL);
    store.bump(&items[0].identity, 15000, 10);
    let a = rank(&items, "tem", &store, 20, &cfg);
    let b = rank(&items, "tem", &store, 20, &cfg);
    assert_eq!(a, b);
}

#[test]
fn batch_size_does_not_change_the_view() {
    let items = catalog();
    let store = RecencyStore::new(String::from("nix-nit"), HL);
    let small = PickerConfig::new(
        HL,
        15000,
        1,
        1,
        CaseMode::Smart,
        NormMode::Smart,
        String::from("nix-nit"),
    )
    .unwrap();
    let big = picker_cfg();
    let a = rank(&items, "tem", &store, 0, &small);
    let b = rank(&items, "tem", &store, 0, &big);
    assert_eq!(a, b);
}

#[test]
fn stale_pass_is_discarded() {
    let items = catalog();
    let cfg = picker_cfg();
    let store = RecencyStore::new(String::from("nix-nit"), HL);
    let mut session = Session::new();
    let r1 = session.begin_revision();
    let r2 = session.begin_revision();
    assert!(r1 < r2);
    let v1 = rank(&items, "t", &store, 0, &cfg);
    let v2 = rank(&items, "te", &store, 0, &cfg);
    // the pass for the newer revision finishes first and is delivered
    assert!(session.submit(r2, v2.clone()));
    // the pass for the older revision finishes later and is discarded
    assert!(!session.submit(r1, v1));
    assert_eq!(session.current_view().clone(), v2);
}

#[test]
fn delivering_the_same_revision_twice_is_refused() {
    let mut session = Session::new();
    let r1 = session.begin_revision();
    assert!(session.submit(r1, Vec::new()));
    assert!(!session.submit(r1, Vec::new()));
}

#[test]
fn empty_catalog_still_ranks() {
    let items: Vec<Item> = Vec::new();
    let cfg = picker_cfg();
    let store = RecencyStore::new(String::from("nix-nit"), HL);
    let view = rank(&items, "anything", &store, 0, &cfg);
    assert!(view.is_empty());
    let view2 = rank(&items, "", &store, 0, &cfg);
    assert!(view2.is_empty());
}
