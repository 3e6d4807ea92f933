//! The parts of a run's configuration that the library interprets itself.
//! The configuration file's numeric sections (initial capital, sizing
//! fraction, slippage and commission parameters) are read by the
//! front end and handed over as the library's fixed-point models.
use crate::execution::models::LimitFillPolicy;
use vstd::prelude::*;

verus! {

/// The configured limit-fill policy, as written in a configuration file.
#[derive(Debug, Clone, Copy, PartialEq, Eq, Structural)]
pub enum LimitFillPolicyConfig {
    Optimistic,
    Conservative,
}

impl Default for LimitFillPolicyConfig {
    fn default() -> (r: Self)
        ensures
            r == LimitFillPolicyConfig::Optimistic,
    {
        LimitFillPolicyConfig::Optimistic
    }
}

impl LimitFillPolicyConfig {
    /// The execution model's policy of the same name.
    pub fn to_model(&self) -> (r: LimitFillPolicy)
        ensures
            r == match *self {
                LimitFillPolicyConfig::Optimistic => LimitFillPolicy::Optimistic,
                LimitFillPolicyConfig::Conservative => LimitFillPolicy::Conservative,
            },
    {
        match self {
            LimitFillPolicyConfig::Optimistic => LimitFillPolicy::Optimistic,
            LimitFillPolicyConfig::Conservative => LimitFillPolicy::Conservative,
        }
    }
}

} // verus!
