use vstd::prelude::*;

use crate::cascade::{StateModel, cascade_step, fresh_state};
use crate::model::{BanRequest, Request};
use crate::rules::{BanRule, HeaderError, RulesError};
use crate::strutil::{dec_digits, decimal_string};

verus! {

/// Why a detector could not judge a request: a structural problem with
/// the request or the configuration, never a verdict.
pub enum ValidatorError {
    Rules(RulesError),
    Header(HeaderError),
    Timestamp,
}

impl ValidatorError {
    /// A human-readable account of the error.
    pub fn message(&self) -> (r: String)
        ensures
            match self {
                ValidatorError::Rules(RulesError::NotFound(i)) => r@ == "rule "@ + dec_digits(
                    *i as int,
                ) + " not found"@,
                ValidatorError::Header(HeaderError::NotFound(n)) => r@ == n@
                    + " header not found"@,
                ValidatorError::Timestamp => r@ == "invalid timestamp"@,
            },
    {
        match self {
            ValidatorError::Rules(RulesError::NotFound(i)) => {
                let d = decimal_string(*i as u64);
                String::from_str("rule ").concat(d.as_str()).concat(" not found")
            },
            ValidatorError::Header(HeaderError::NotFound(n)) => n.clone().concat(
                " header not found",
            ),
            ValidatorError::Timestamp => String::from_str("invalid timestamp"),
        }
    }
}

/// Why a detector could not be built from its configuration.
pub enum ConfigError {
    EmptyRules,
    BanDurationTooLarge,
    BadPattern(String),
}

/// A detector: observes one request, may emit a ban.
pub trait Validator {
    /// The invariant the detector's constructor establishes and
    /// `validate` maintains.
    spec fn valid(&self) -> bool;

    fn validate(&mut self, req: Request) -> (r: Result<Option<BanRequest>, ValidatorError>)
        requires
            old(self).valid(),
        ensures
            final(self).valid(),
    ;

    fn name(&self) -> String;
}

/// The cascade state a detector consults for a target: the stored one,
/// or a fresh one on first sight.
pub open spec fn state_or_fresh(states: Map<Seq<char>, StateModel>, key: Seq<char>) -> StateModel {
    if states.contains_key(key) {
        states[key]
    } else {
        fresh_state()
    }
}

/// The per-target states after one observation of `key`.
pub open spec fn states_after(
    rules: Seq<BanRule>,
    states: Map<Seq<char>, StateModel>,
    key: Seq<char>,
    cost: u64,
    t: i64,
) -> Map<Seq<char>, StateModel> {
    states.insert(key, cascade_step(rules, state_or_fresh(states, key), cost, t).state)
}

/// The tier emitted by one observation of `key`, if any.
pub open spec fn verdict_after(
    rules: Seq<BanRule>,
    states: Map<Seq<char>, StateModel>,
    key: Seq<char>,
    cost: u64,
    t: i64,
) -> Option<int> {
    cascade_step(rules, state_or_fresh(states, key), cost, t).verdict
}

/// An observation of one target leaves every other target's state as
/// it was.
pub proof fn lemma_target_isolation(
    rules: Seq<BanRule>,
    states: Map<Seq<char>, StateModel>,
    key: Seq<char>,
    cost: u64,
    t: i64,
    other: Seq<char>,
)
    requires
        other != key,
    ensures
        states_after(rules, states, key, cost, t).contains_key(other) == states.contains_key(
            other,
        ),
        states.contains_key(other) ==> states_after(rules, states, key, cost, t)[other]
            == states[other],
{
}

} // verus!
