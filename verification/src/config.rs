//! Configuration of the picker's ranking pipeline.

use vstd::prelude::*;

verus! {

use crate::matcher::{CaseMode, MatchConfig, NormMode};

/// Reasons a configuration is rejected at startup. A bad configuration
/// is fatal before a session starts; it is never defaulted mid-session.
#[derive(Clone, Copy, PartialEq, Eq, Structural, Debug)]
pub enum ConfigError {
    /// The half-life must be a positive duration.
    ZeroHalfLife,
    /// Scoring passes must make progress: the batch size must be positive.
    ZeroBatchSize,
}

pub struct PickerConfig {
    /// Duration, in the caller's time unit, after which an unreinforced
    /// score halves; positive.
    pub half_life: u64,
    /// Recency score added per use of an item.
    pub bonus: u64,
    /// Weight of the recency score against the fuzzy score when the
    /// two are combined.
    pub recency_weight: u64,
    /// Number of items scored per batch of a scoring pass; positive.
    pub batch_size: usize,
    /// Case and accent folding policy of the fuzzy matcher.
    pub match_config: MatchConfig,
    /// Namespace tag for the persisted recency store.
    pub type_ident: String,
}

impl PickerConfig {
    pub open spec fn wf(self) -> bool {
        self.half_life >= 1 && self.batch_size >= 1
    }

    /// Validates a configuration. Returns it exactly when the half-life
    /// and the batch size are positive, and otherwise says which is not.
    pub fn new(
        half_life: u64,
        bonus: u64,
        recency_weight: u64,
        batch_size: usize,
        case_mode: CaseMode,
        norm_mode: NormMode,
        type_ident: String,
    ) -> (r: Result<PickerConfig, ConfigError>)
        ensures
            half_life >= 1 && batch_size >= 1 ==> (r matches Ok(c) && c.half_life == half_life
                && c.bonus == bonus && c.recency_weight == recency_weight && c.batch_size
                == batch_size && c.match_config == (MatchConfig { case_mode, norm_mode })
                && c.type_ident@ == type_ident@ && c.wf()),
            half_life < 1 <==> r == Err::<PickerConfig, ConfigError>(ConfigError::ZeroHalfLife),
            half_life >= 1 && batch_size < 1 <==> r == Err::<PickerConfig, ConfigError>(
                ConfigError::ZeroBatchSize,
            ),
    {
        if half_life < 1 {
            Err(ConfigError::ZeroHalfLife)
        } else if batch_size < 1 {
            Err(ConfigError::ZeroBatchSize)
        } else {
            Ok(
                PickerConfig {
                    half_life,
                    bonus,
                    recency_weight,
                    batch_size,
                    match_config: MatchConfig { case_mode, norm_mode },
                    type_ident,
                },
            )
        }
    }
}

} // verus!
