use vstd::prelude::*;

verus! {

/// One tier of a detector's escalation cascade: a cost threshold, the
/// ban length handed to the executor, and the window/cooldown length.
/// Durations are in milliseconds of the request clock.
pub struct BanRule {
    pub limit: u64,
    pub ban_duration_ms: u64,
    pub reset_duration_ms: u64,
}

impl BanRule {
    /// The emitted ttl is in whole seconds and must fit in a `u32`.
    pub open spec fn wf(self) -> bool {
        self.ban_duration_ms / 1000 <= u32::MAX
    }

    /// Ban length in whole seconds, as carried by an emitted ban.
    pub fn ttl_seconds(&self) -> (r: u32)
        requires
            self.wf(),
        ensures
            r == self.ban_duration_ms / 1000,
    {
        (self.ban_duration_ms / 1000) as u32
    }
}

/// A non-empty cascade whose tiers all have representable ttls.
pub open spec fn rules_wf(rules: Seq<BanRule>) -> bool {
    &&& rules.len() >= 1
    &&& forall|i: int| 0 <= i < rules.len() ==> (#[trigger] rules[i]).wf()
}

/// Checks that a cascade is usable: at least one tier, and every tier's
/// ban length survives the conversion to whole seconds in a `u32`.
pub fn check_rules(rules: &Vec<BanRule>) -> (r: bool)
    ensures
        r == rules_wf(rules@),
{
    if rules.len() == 0 {
        return false;
    }
    let mut i: usize = 0;
    while i < rules.len()
        invariant
            i <= rules@.len(),
            forall|j: int| 0 <= j < i ==> (#[trigger] rules@[j]).wf(),
        decreases rules@.len() - i,
    {
        if rules[i].ban_duration_ms / 1000 > u32::MAX as u64 {
            return false;
        }
        i = i + 1;
    }
    true
}

/// The tier a target escalates to from tier `idx`: the next tier,
/// clamped to the last one.
pub open spec fn next_tier(idx: int, len: int) -> int {
    if idx + 1 < len - 1 {
        idx + 1
    } else {
        len - 1
    }
}

/// While a target is in cooldown: the tier applied and when it clears.
pub struct AppliedRule {
    pub rule_idx: usize,
    pub resets_at: i64,
}

/// Structural detector failures tied to the rule cascade.
pub enum RulesError {
    NotFound(usize),
}

/// Structural detector failures tied to header extraction.
pub enum HeaderError {
    NotFound(String),
}

} // verus!
