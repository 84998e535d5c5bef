use vstd::prelude::*;

use crate::rules::{AppliedRule, BanRule, next_tier};

verus! {

/// Mathematical model of one target's cascade state.
pub ghost struct StateModel {
    /// Sliding window of `(cost, timestamp)` observations.
    pub recent: Seq<(u64, i64)>,
    /// Cost accumulated since the most recent tier transition.
    pub cost_since_last_ban: u64,
    /// `Some` while the target is in cooldown under a tier.
    pub applied_rule: Option<AppliedRule>,
}

/// The state a target is in before its first observation.
pub open spec fn fresh_state() -> StateModel {
    StateModel { recent: Seq::empty(), cost_since_last_ban: 0, applied_rule: None }
}

/// Whether an observation at `ts` still counts at time `t` for a window
/// of `reset_ms`: it must be younger than `t - reset_ms`.
pub open spec fn in_window(ts: int, t: int, reset_ms: int) -> bool {
    ts + reset_ms > t
}

/// Total cost of the observations of `recent` that fall in the window.
pub open spec fn window_sum(recent: Seq<(u64, i64)>, t: int, reset_ms: int) -> int
    decreases recent.len(),
{
    if recent.len() == 0 {
        0
    } else {
        window_sum(recent.drop_last(), t, reset_ms) + if in_window(recent.last().1 as int, t,
            reset_ms) {
            recent.last().0 as int
        } else {
            0
        }
    }
}

/// `recent` with every observation outside the window dropped.
pub open spec fn pruned(recent: Seq<(u64, i64)>, t: int, reset_ms: int) -> Seq<(u64, i64)>
    decreases recent.len(),
{
    if recent.len() == 0 {
        Seq::empty()
    } else {
        let rest = pruned(recent.drop_last(), t, reset_ms);
        if in_window(recent.last().1 as int, t, reset_ms) {
            rest.push(recent.last())
        } else {
            rest
        }
    }
}

/// Addition on accumulated cost, saturating at the top of `u64`.
pub open spec fn sat_add_u64(a: u64, b: u64) -> u64 {
    if a + b > u64::MAX {
        u64::MAX
    } else {
        (a + b) as u64
    }
}

/// A timestamp pushed forward by a duration, saturating at the top of `i64`.
pub open spec fn sat_add_time(t: i64, d: u64) -> i64 {
    if t + d > i64::MAX {
        i64::MAX
    } else {
        (t + d) as i64
    }
}

/// Outcome of one observation: the successor state, and the index of the
/// tier whose threshold was crossed, if one was.
pub ghost struct StepResult {
    pub state: StateModel,
    pub verdict: Option<int>,
}

/// The rule-cascade state machine, processing one observation of cost
/// `cost` at request time `t`.
///
/// - In cooldown with the reset time reached: back to fresh, no verdict.
/// - In cooldown otherwise: accumulate cost; crossing the next tier's
///   threshold (clamped to the last tier) transitions there and emits it.
/// - Out of cooldown: slide the window; crossing the entry tier's
///   threshold enters the cascade at tier 0 and emits it.
pub open spec fn cascade_step(rules: Seq<BanRule>, s: StateModel, cost: u64, t: i64) -> StepResult
    recommends
        rules.len() >= 1,
{
    match s.applied_rule {
        Some(ar) => {
            if t >= ar.resets_at {
                StepResult {
                    state: StateModel {
                        recent: s.recent.push((cost, t)),
                        cost_since_last_ban: 0,
                        applied_rule: None,
                    },
                    verdict: None,
                }
            } else {
                let csb = sat_add_u64(s.cost_since_last_ban, cost);
                let next = next_tier(ar.rule_idx as int, rules.len() as int);
                if csb >= rules[next].limit {
                    StepResult {
                        state: StateModel {
                            recent: s.recent,
                            cost_since_last_ban: 0,
                            applied_rule: Some(
                                AppliedRule {
                                    rule_idx: next as usize,
                                    resets_at: sat_add_time(t, rules[next].reset_duration_ms),
                                },
                            ),
                        },
                        verdict: Some(next),
                    }
                } else {
                    StepResult {
                        state: StateModel {
                            recent: s.recent,
                            cost_since_last_ban: csb,
                            applied_rule: s.applied_rule,
                        },
                        verdict: None,
                    }
                }
            }
        },
        None => {
            let reset = rules[0].reset_duration_ms;
            let recent2 = pruned(s.recent.push((cost, t)), t as int, reset as int);
            if window_sum(recent2, t as int, reset as int) >= rules[0].limit {
                StepResult {
                    state: StateModel {
                        recent: recent2,
                        cost_since_last_ban: 0,
                        applied_rule: Some(
                            AppliedRule { rule_idx: 0, resets_at: sat_add_time(t, reset) },
                        ),
                    },
                    verdict: Some(0),
                }
            } else {
                StepResult {
                    state: StateModel {
                        recent: recent2,
                        cost_since_last_ban: s.cost_since_last_ban,
                        applied_rule: None,
                    },
                    verdict: None,
                }
            }
        },
    }
}

/// One target's cascade state, as held by a detector.
pub struct TargetState {
    recent: Vec<(u64, i64)>,
    cost_since_last_ban: u64,
    applied_rule: Option<AppliedRule>,
}

impl TargetState {
    pub closed spec fn model(&self) -> StateModel {
        StateModel {
            recent: self.recent@,
            cost_since_last_ban: self.cost_since_last_ban,
            applied_rule: match self.applied_rule {
                Some(ar) => Some(ar),
                None => None,
            },
        }
    }

    pub fn new() -> (r: TargetState)
        ensures
            r.model() == fresh_state(),
    {
        let r = TargetState { recent: Vec::new(), cost_since_last_ban: 0, applied_rule: None };
        proof {
            assert(r.model() =~= fresh_state());
        }
        r
    }

    /// Process one observation, updating the state exactly as
    /// `cascade_step` does and returning the emitted tier, if any.
    pub fn observe(&mut self, rules: &Vec<BanRule>, cost: u64, t: i64) -> (r: Option<usize>)
        requires
            rules@.len() >= 1,
        ensures
            final(self).model() == cascade_step(rules@, old(self).model(), cost, t).state,
            match r {
                Some(i) => cascade_step(rules@, old(self).model(), cost, t).verdict == Some(
                    i as int,
                ) && i < rules@.len(),
                None => cascade_step(rules@, old(self).model(), cost, t).verdict is None,
            },
    {
        match &self.applied_rule {
            Some(ar) => {
                let ar = AppliedRule { rule_idx: ar.rule_idx, resets_at: ar.resets_at };
                if t >= ar.resets_at {
                    self.recent.push((cost, t));
                    self.cost_since_last_ban = 0;
                    self.applied_rule = None;
                    None
                } else {
                    let csb = if self.cost_since_last_ban > u64::MAX - cost {
                        u64::MAX
                    } else {
                        self.cost_since_last_ban + cost
                    };
                    let last = rules.len() - 1;
                    let next = if ar.rule_idx < last {
                        ar.rule_idx + 1
                    } else {
                        last
                    };
                    assert(next as int == next_tier(ar.rule_idx as int, rules@.len() as int));
                    if csb >= rules[next].limit {
                        self.cost_since_last_ban = 0;
                        self.applied_rule = Some(
                            AppliedRule {
                                rule_idx: next,
                                resets_at: sat_add_time_exec(t, rules[next].reset_duration_ms),
                            },
                        );
                        Some(next)
                    } else {
                        self.cost_since_last_ban = csb;
                        None
                    }
                }
            },
            None => {
                let reset = rules[0].reset_duration_ms;
                self.recent.push((cost, t));
                let total = self.prune_and_sum(t, reset);
                if total >= rules[0].limit {
                    self.cost_since_last_ban = 0;
                    self.applied_rule = Some(
                        AppliedRule { rule_idx: 0, resets_at: sat_add_time_exec(t, reset) },
                    );
                    Some(0)
                } else {
                    None
                }
            },
        }
    }

    /// Drop every observation outside the window ending at `t` and return
    /// the total cost of the rest, saturated at the top of `u64` (the
    /// saturation cannot change how the total compares against a limit).
    fn prune_and_sum(&mut self, t: i64, reset_ms: u64) -> (total: u64)
        ensures
            final(self).recent@ == pruned(old(self).recent@, t as int, reset_ms as int),
            final(self).cost_since_last_ban == old(self).cost_since_last_ban,
            final(self).applied_rule == old(self).applied_rule,
            total as int == sat_cap(window_sum(final(self).recent@, t as int, reset_ms as int)),
            window_sum(final(self).recent@, t as int, reset_ms as int) == window_sum(
                old(self).recent@,
                t as int,
                reset_ms as int,
            ),
    {
        let n = self.recent.len();
        let mut kept: Vec<(u64, i64)> = Vec::new();
        let mut total: u64 = 0;
        let mut i: usize = 0;
        while i < n
            invariant
                n == self.recent@.len(),
                i <= n,
                self.recent@ == old(self).recent@,
                self.cost_since_last_ban == old(self).cost_since_last_ban,
                self.applied_rule == old(self).applied_rule,
                kept@ == pruned(self.recent@.subrange(0, i as int), t as int, reset_ms as int),
                total as int == sat_cap(
                    window_sum(self.recent@.subrange(0, i as int), t as int, reset_ms as int),
                ),
            decreases n - i,
        {
            let (c, ts) = self.recent[i];
            proof {
                let pre = self.recent@.subrange(0, i as int);
                let cur = self.recent@.subrange(0, i as int + 1);
                assert(cur.drop_last() =~= pre);
                assert(cur.last() == self.recent@[i as int]);
            }
            if (ts as i128) + (reset_ms as i128) > (t as i128) {
                kept.push((c, ts));
                total = if total > u64::MAX - c {
                    u64::MAX
                } else {
                    total + c
                };
            }
            i = i + 1;
        }
        proof {
            assert(self.recent@.subrange(0, n as int) =~= self.recent@);
            lemma_pruned_sum(self.recent@, t as int, reset_ms as int);
        }
        self.recent = kept;
        total
    }
}

/// An integer capped at the top of `u64` (window totals are compared
/// against `u64` limits, so the cap never changes a comparison).
pub open spec fn sat_cap(v: int) -> int {
    if v > u64::MAX {
        u64::MAX as int
    } else {
        v
    }
}

/// Pruning keeps exactly the observations the window total counts.
pub proof fn lemma_pruned_sum(recent: Seq<(u64, i64)>, t: int, reset_ms: int)
    ensures
        window_sum(pruned(recent, t, reset_ms), t, reset_ms) == window_sum(recent, t, reset_ms),
    decreases recent.len(),
{
    if recent.len() == 0 {
    } else {
        lemma_pruned_sum(recent.drop_last(), t, reset_ms);
        let rest = pruned(recent.drop_last(), t, reset_ms);
        if in_window(recent.last().1 as int, t, reset_ms) {
            assert(rest.push(recent.last()).drop_last() =~= rest);
        }
    }
}

/// Exact executable form of `sat_add_time`.
pub fn sat_add_time_exec(t: i64, d: u64) -> (r: i64)
    ensures
        r == sat_add_time(t, d),
{
    let s: i128 = (t as i128) + (d as i128);
    if s > i64::MAX as i128 {
        i64::MAX
    } else {
        s as i64
    }
}

} // verus!
