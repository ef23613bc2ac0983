use nix_nit::config::{ConfigError, PickerConfig};
use nix_nit::control::{ActionOutcome, CommitRefused, Controller, Phase};
use nix_nit::matcher::{CaseMode, NormMode};
use nix_nit::recency::{RecencyEntry, RecencyStore};

const HL: u64 = 3600;

fn store() -> RecencyStore {
    RecencyStore::new(String::from("nix-nit"), HL)
}

#[test]
fn unseen_identity_reads_baseline_zero() {
    let s = store();
    assert_eq!(s.lookup(&String::from("github:NixOS/templates-default"), 12345), 0);
}

#[test]
fn bump_then_lookup_reads_bonus() {
    let mut s = store();
    let id = String::from("flake-a");
    s.bump(&id, 15000, 1000);
    assert_eq!(s.lookup(&id, 1000), 15000);
}

#[test]
fn bump_never_lowers_current_score() {
    let mut s = store();
    let id = String::from("flake-a");
    s.bump(&id, 15000, 0);
    let before = s.lookup(&id, 500);
    s.bump(&id, 15000, 500);
    let after = s.lookup(&id, 500);
    assert!(after >= before);
    assert_eq!(after, before + 15000);
}

#[test]
fn lookup_decays_monotonically() {
    let mut s = store();
    let id = String::from("flake-a");
    s.bump(&id, 10000, 0);
    let mut prev = s.lookup(&id, 0);
    for t in [1u64, 10, 360, 1800, 3599, 3600, 7200, 36000, 360000] {
        let cur = s.lookup(&id, t);
        assert!(cur <= prev, "score rose from {prev} to {cur} at t={t}");
        prev = cur;
    }
}

#[test]
fn half_life_halves_the_score() {
    let mut s = store();
    let id = String::from("flake-a");
    s.bump(&id, 1000, 0);
    assert_eq!(s.lookup(&id, HL), 500);
    assert_eq!(s.lookup(&id, 2 * HL), 250);
}

#[test]
fn decay_is_linear_inside_one_half_life() {
    let mut s = store();
    let id = String::from("flake-a");
    s.bump(&id, 1000, 0);
    // halfway through the half-life: halfway between 1000 and 500
    assert_eq!(s.lookup(&id, HL / 2), 750);
}

#[test]
fn bump_accounts_for_decay_before_adding() {
    let mut s = store();
    let id = String::from("flake-a");
    s.bump(&id, 1000, 0);
    s.bump(&id, 1000, HL);
    // decayed 500, plus the bonus — not the stale 1000 plus the bonus
    assert_eq!(s.lookup(&id, HL), 1500);
}

#[test]
fn bump_leaves_other_identities_alone() {
    let mut s = store();
    let a = String::from("flake-a");
    let b = String::from("flake-b");
    s.bump(&a, 700, 10);
    let b_before = s.lookup(&b, 20);
    s.bump(&a, 700, 20);
    assert_eq!(s.lookup(&b, 20), b_before);
    assert_eq!(b_before, 0);
}

#[test]
fn snapshot_with_unique_identities_loads_intact() {
    let entries = vec![
        RecencyEntry { identity: String::from("a"), last_used: 5, score_at_use: 100 },
        RecencyEntry { identity: String::from("b"), last_used: 9, score_at_use: 200 },
    ];
    let (s, intact) = RecencyStore::from_entries(String::from("nix-nit"), HL, entries);
    assert!(intact);
    assert_eq!(s.lookup(&String::from("a"), 5), 100);
    assert_eq!(s.lookup(&String::from("b"), 9), 200);
}

#[test]
fn corrupt_snapshot_falls_back_to_empty_store() {
    let entries = vec![
        RecencyEntry { identity: String::from("a"), last_used: 5, score_at_use: 100 },
        RecencyEntry { identity: String::from("a"), last_used: 9, score_at_use: 200 },
    ];
    let (s, intact) = RecencyStore::from_entries(String::from("nix-nit"), HL, entries);
    assert!(!intact);
    assert_eq!(s.lookup(&String::from("a"), 9), 0);
    assert_eq!(s.entries.len(), 0);
}

#[test]
fn config_rejects_zero_half_life() {
    let r = PickerConfig::new(
        0,
        15000,
        1,
        1000,
        CaseMode::Smart,
        NormMode::Smart,
        String::from("nix-nit"),
    );
    assert!(matches!(r, Err(ConfigError::ZeroHalfLife)));
}

#[test]
fn config_rejects_zero_batch_size() {
    let r = PickerConfig::new(
        HL,
        15000,
        1,
        0,
        CaseMode::Smart,
        NormMode::Smart,
        String::from("nix-nit"),
    );
    assert!(matches!(r, Err(ConfigError::ZeroBatchSize)));
}

#[test]
fn config_accepts_valid_values() {
    let c = PickerConfig::new(
        HL,
        15000,
        1,
        1000,
        CaseMode::Smart,
        NormMode::Smart,
        String::from("nix-nit"),
    )
    .unwrap();
    assert_eq!(c.half_life, HL);
    assert_eq!(c.bonus, 15000);
    assert_eq!(c.batch_size, 1000);
}

#[test]
fn successful_commit_bumps_and_returns_idle() {
    let mut c = Controller::new(store());
    let id = String::from("flake-a");
    let before = c.store.lookup(&id, 42);
    assert!(c.begin_commit(&id).is_ok());
    assert_eq!(c.phase, Phase::Acting);
    let r = c.finish_commit(ActionOutcome::Success, 15000, 42);
    assert!(matches!(r, Ok(Ok(()))));
    assert_eq!(c.phase, Phase::Idle);
    let after = c.store.lookup(&id, 42);
    assert!(after > before);
    assert_eq!(after, before + 15000);
    // the snapshot to persist reflects the bump
    assert!(c.store.entries.iter().any(|e| e.identity == id && e.last_used == 42));
}

#[test]
fn failed_commit_leaves_store_unchanged() {
    let mut c = Controller::new(store());
    let id = String::from("flake-a");
    assert!(c.begin_commit(&id).is_ok());
    let r = c.finish_commit(
        ActionOutcome::Failure(String::from("nix exited with status 1")),
        15000,
        42,
    );
    match r {
        Ok(Err(f)) => assert_eq!(f.diagnostic, "nix exited with status 1"),
        _ => panic!("expected the action failure to surface"),
    }
    assert_eq!(c.phase, Phase::Idle);
    assert_eq!(c.store.lookup(&id, 42), 0);
    assert_eq!(c.store.entries.len(), 0);
}

#[test]
fn second_commit_while_acting_is_refused() {
    let mut c = Controller::new(store());
    let a = String::from("flake-a");
    let b = String::from("flake-b");
    assert!(c.begin_commit(&a).is_ok());
    let second = c.begin_commit(&b);
    assert_eq!(second, Err(CommitRefused::Busy));
    assert_eq!(c.phase, Phase::Acting);
    // the pending commit can still finish normally, exactly once
    assert!(matches!(c.finish_commit(ActionOutcome::Success, 100, 7), Ok(Ok(()))));
    assert_eq!(c.store.lookup(&a, 7), 100);
    assert_eq!(c.store.lookup(&b, 7), 0);
}

#[test]
fn finish_without_begin_is_refused() {
    let mut c = Controller::new(store());
    let r = c.finish_commit(ActionOutcome::Success, 100, 7);
    assert!(matches!(r, Err(CommitRefused::NotActing)));
    assert_eq!(c.store.entries.len(), 0);
}
