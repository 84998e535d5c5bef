use vstd::prelude::*;

use crate::cascade::{
    StateModel, cascade_step, fresh_state, in_window, pruned, sat_add_u64, window_sum,
};
use crate::rules::BanRule;

verus! {

/// Final state after processing a sequence of `(cost, timestamp)`
/// observations in order.
pub open spec fn cascade_run(rules: Seq<BanRule>, s: StateModel, obs: Seq<(u64, i64)>) -> StateModel
    decreases obs.len(),
{
    if obs.len() == 0 {
        s
    } else {
        cascade_run(rules, cascade_step(rules, s, obs[0].0, obs[0].1).state, obs.drop_first())
    }
}

/// The verdict of each observation of a run, in order.
pub open spec fn cascade_verdicts(rules: Seq<BanRule>, s: StateModel, obs: Seq<(u64, i64)>) -> Seq<
    Option<int>,
>
    decreases obs.len(),
{
    if obs.len() == 0 {
        Seq::empty()
    } else {
        seq![cascade_step(rules, s, obs[0].0, obs[0].1).verdict] + cascade_verdicts(
            rules,
            cascade_step(rules, s, obs[0].0, obs[0].1).state,
            obs.drop_first(),
        )
    }
}

/// Total cost of a sequence of observations.
pub open spec fn total_cost(obs: Seq<(u64, i64)>) -> int
    decreases obs.len(),
{
    if obs.len() == 0 {
        0
    } else {
        total_cost(obs.drop_last()) + obs.last().0 as int
    }
}

/// A run extended by one observation ends with one more step.
pub proof fn lemma_run_snoc(rules: Seq<BanRule>, s: StateModel, obs: Seq<(u64, i64)>, o: (u64, i64))
    ensures
        cascade_run(rules, s, obs.push(o)) == cascade_step(
            rules,
            cascade_run(rules, s, obs),
            o.0,
            o.1,
        ).state,
        cascade_verdicts(rules, s, obs.push(o)) == cascade_verdicts(rules, s, obs).push(
            cascade_step(rules, cascade_run(rules, s, obs), o.0, o.1).verdict,
        ),
    decreases obs.len(),
{
    if obs.len() == 0 {
        let stepped = cascade_step(rules, s, o.0, o.1);
        assert(obs.push(o)[0] == o);
        assert(obs.push(o).drop_first() =~= Seq::<(u64, i64)>::empty());
        assert(cascade_run(rules, s, obs) == s);
        assert(cascade_run(rules, stepped.state, obs.push(o).drop_first()) == stepped.state);
        assert(cascade_verdicts(rules, stepped.state, obs.push(o).drop_first())
            =~= Seq::<Option<int>>::empty());
        assert(cascade_verdicts(rules, s, obs) =~= Seq::<Option<int>>::empty());
        assert(cascade_verdicts(rules, s, obs.push(o)) =~= cascade_verdicts(rules, s, obs).push(
            stepped.verdict,
        ));
    } else {
        let s1 = cascade_step(rules, s, obs[0].0, obs[0].1).state;
        assert(obs.push(o)[0] == obs[0]);
        assert(obs.push(o).drop_first() =~= obs.drop_first().push(o));
        lemma_run_snoc(rules, s1, obs.drop_first(), o);
        assert(cascade_verdicts(rules, s, obs.push(o)) =~= cascade_verdicts(rules, s, obs).push(
            cascade_step(rules, cascade_run(rules, s, obs), o.0, o.1).verdict,
        ));
    }
}

/// When every observation of `recent` is inside the window, pruning
/// keeps all of it and the window total is the whole cost.
pub proof fn lemma_window_full(recent: Seq<(u64, i64)>, t: int, reset_ms: int)
    requires
        forall|i: int|
            0 <= i < recent.len() ==> in_window((#[trigger] recent[i]).1 as int, t, reset_ms),
    ensures
        pruned(recent, t, reset_ms) == recent,
        window_sum(recent, t, reset_ms) == total_cost(recent),
    decreases recent.len(),
{
    if recent.len() == 0 {
        assert(pruned(recent, t, reset_ms) =~= recent);
    } else {
        lemma_window_full(recent.drop_last(), t, reset_ms);
        assert(recent.drop_last().push(recent.last()) =~= recent);
    }
}

/// A sequence of observations each of cost at least one costs at least
/// its length in total.
pub proof fn lemma_total_cost_lower(obs: Seq<(u64, i64)>)
    requires
        forall|i: int| 0 <= i < obs.len() ==> (#[trigger] obs[i]).0 >= 1,
    ensures
        total_cost(obs) >= obs.len(),
    decreases obs.len(),
{
    if obs.len() > 0 {
        lemma_total_cost_lower(obs.drop_last());
    }
}

/// Total cost splits over a prefix and the rest.
pub proof fn lemma_total_cost_split(obs: Seq<(u64, i64)>, k: int)
    requires
        0 <= k <= obs.len(),
    ensures
        total_cost(obs) == total_cost(obs.take(k)) + total_cost(obs.skip(k)),
    decreases obs.len() - k,
{
    if k == obs.len() {
        assert(obs.take(k) =~= obs);
        assert(obs.skip(k) =~= Seq::<(u64, i64)>::empty());
    } else {
        lemma_total_cost_split(obs, k + 1);
        assert(obs.take(k + 1).drop_last() =~= obs.take(k));
        assert(obs.take(k + 1).last() == obs[k]);
        lemma_total_cost_skip_unfold(obs, k);
    }
}

/// Peeling the first element off a suffix.
pub proof fn lemma_total_cost_skip_unfold(obs: Seq<(u64, i64)>, k: int)
    requires
        0 <= k < obs.len(),
    ensures
        total_cost(obs.skip(k)) == obs[k].0 + total_cost(obs.skip(k + 1)),
    decreases obs.len() - k,
{
    let tail = obs.skip(k);
    assert(tail.len() > 0);
    if tail.len() == 1 {
        assert(obs.skip(k + 1) =~= tail.drop_last());
        assert(tail.last() == obs[k]);
        assert(total_cost(tail.drop_last()) == 0);
    } else {
        // total over a sequence equals its first element plus the rest:
        // shown by relating drop_last and skip.
        lemma_total_cost_first(tail);
        assert(tail[0] == obs[k]);
        assert(tail.drop_first() =~= obs.skip(k + 1));
    }
}

/// Total cost also peels at the front.
pub proof fn lemma_total_cost_first(obs: Seq<(u64, i64)>)
    requires
        obs.len() >= 1,
    ensures
        total_cost(obs) == obs[0].0 + total_cost(obs.drop_first()),
    decreases obs.len(),
{
    if obs.len() == 1 {
        assert(obs.drop_first() =~= obs.drop_last());
    } else {
        lemma_total_cost_first(obs.drop_last());
        assert(obs.drop_last()[0] == obs[0]);
        assert(obs.drop_last().drop_first() =~= obs.drop_first().drop_last());
        assert(obs.drop_first().last() == obs.last());
    }
}

/// Threshold behaviour: starting fresh, when every observation carries
/// positive cost, the request times never decrease and all fit in one
/// entry window, and the total cost is exactly the entry limit, then
/// every observation but the last passes silently and the last one
/// crosses the entry tier.
pub proof fn lemma_threshold(rules: Seq<BanRule>, obs: Seq<(u64, i64)>)
    requires
        rules.len() >= 1,
        obs.len() >= 1,
        forall|i: int| 0 <= i < obs.len() ==> (#[trigger] obs[i]).0 >= 1,
        forall|i: int, j: int| 0 <= i <= j < obs.len() ==> obs[i].1 <= obs[j].1,
        obs.last().1 - obs[0].1 < rules[0].reset_duration_ms,
        total_cost(obs) == rules[0].limit,
    ensures
        forall|k: int|
            0 <= k < obs.len() - 1 ==> #[trigger] cascade_verdicts(rules, fresh_state(), obs)[k]
                is None,
        cascade_verdicts(rules, fresh_state(), obs).last() == Some(0int),
        cascade_verdicts(rules, fresh_state(), obs).len() == obs.len(),
{
    let n = obs.len() as int;
    lemma_threshold_prefix(rules, obs, n);
    lemma_verdicts_len(rules, fresh_state(), obs);
    assert forall|k: int| 0 <= k < n - 1 implies #[trigger] cascade_verdicts(
        rules,
        fresh_state(),
        obs,
    )[k] is None by {
        lemma_verdicts_prefix(rules, fresh_state(), obs, k + 1);
        lemma_threshold_prefix(rules, obs, k + 1);
        assert(cascade_verdicts(rules, fresh_state(), obs)[k] == cascade_verdicts(
            rules,
            fresh_state(),
            obs,
        ).take(k + 1)[k]);
        assert(cascade_verdicts(rules, fresh_state(), obs.take(k + 1))[k] is None);
    }
}

/// Verdicts of a run restricted to a prefix of the observations.
pub proof fn lemma_verdicts_prefix(
    rules: Seq<BanRule>,
    s: StateModel,
    obs: Seq<(u64, i64)>,
    k: int,
)
    requires
        0 <= k <= obs.len(),
    ensures
        cascade_verdicts(rules, s, obs).take(k) == cascade_verdicts(rules, s, obs.take(k)),
    decreases obs.len(),
{
    lemma_verdicts_len(rules, s, obs);
    if obs.len() == 0 || k == 0 {
        assert(cascade_verdicts(rules, s, obs).take(k) =~= cascade_verdicts(
            rules,
            s,
            obs.take(k),
        ));
    } else {
        let s1 = cascade_step(rules, s, obs[0].0, obs[0].1).state;
        lemma_verdicts_prefix(rules, s1, obs.drop_first(), k - 1);
        lemma_verdicts_len(rules, s1, obs.drop_first());
        assert(obs.take(k)[0] == obs[0]);
        assert(obs.take(k).drop_first() =~= obs.drop_first().take(k - 1));
        assert(cascade_verdicts(rules, s, obs).take(k) =~= cascade_verdicts(rules, s, obs.take(k)));
    }
}

/// A run produces one verdict per observation.
pub proof fn lemma_verdicts_len(rules: Seq<BanRule>, s: StateModel, obs: Seq<(u64, i64)>)
    ensures
        cascade_verdicts(rules, s, obs).len() == obs.len(),
    decreases obs.len(),
{
    if obs.len() > 0 {
        lemma_verdicts_len(
            rules,
            cascade_step(rules, s, obs[0].0, obs[0].1).state,
            obs.drop_first(),
        );
    }
}

/// Invariant driving `lemma_threshold`: along a below-limit prefix the
/// state stays fresh except for the window, which holds the prefix.
proof fn lemma_threshold_prefix(rules: Seq<BanRule>, obs: Seq<(u64, i64)>, k: int)
    requires
        rules.len() >= 1,
        obs.len() >= 1,
        0 <= k <= obs.len(),
        forall|i: int| 0 <= i < obs.len() ==> (#[trigger] obs[i]).0 >= 1,
        forall|i: int, j: int| 0 <= i <= j < obs.len() ==> obs[i].1 <= obs[j].1,
        obs.last().1 - obs[0].1 < rules[0].reset_duration_ms,
        total_cost(obs) == rules[0].limit,
    ensures
        k < obs.len() ==> cascade_run(rules, fresh_state(), obs.take(k)) == (StateModel {
            recent: obs.take(k),
            cost_since_last_ban: 0,
            applied_rule: None,
        }),
        k < obs.len() ==> forall|j: int|
            0 <= j < k ==> #[trigger] cascade_verdicts(rules, fresh_state(), obs.take(k))[j]
                is None,
        k == obs.len() ==> cascade_verdicts(rules, fresh_state(), obs).last() == Some(0int),
    decreases k,
{
    let reset = rules[0].reset_duration_ms as int;
    if k == 0 {
        assert(obs.take(0) =~= Seq::<(u64, i64)>::empty());
        assert(cascade_run(rules, fresh_state(), obs.take(0)) == fresh_state());
        assert(fresh_state().recent =~= obs.take(0));
    } else {
        lemma_threshold_prefix(rules, obs, k - 1);
        let pre = obs.take(k - 1);
        let s_pre = cascade_run(rules, fresh_state(), pre);
        let o = obs[k - 1];
        assert(obs.take(k) =~= pre.push(o));
        lemma_run_snoc(rules, fresh_state(), pre, o);
        let stepped = cascade_step(rules, s_pre, o.0, o.1);
        // every observation of the prefix, and the new one, is in the
        // window ending at o.1
        assert forall|i: int| 0 <= i < pre.push(o).len() implies in_window(
            (#[trigger] pre.push(o)[i]).1 as int,
            o.1 as int,
            reset,
        ) by {
            assert(pre.push(o)[i] == obs[i]);
            assert(obs[0].1 <= obs[i].1);
            assert(o.1 <= obs.last().1);
        }
        lemma_window_full(pre.push(o), o.1 as int, reset);
        assert(s_pre.recent == pre);
        assert(s_pre.recent.push(o) == pre.push(o));
        assert(pruned(s_pre.recent.push(o), o.1 as int, reset) == pre.push(o));
        // the window total is the prefix cost
        lemma_total_cost_split(obs, k);
        assert(obs.take(k) == pre.push(o));
        if k < obs.len() {
            // positive costs remain, so the prefix is strictly below the limit
            lemma_total_cost_lower(obs.skip(k));
            assert(forall|i: int|
                0 <= i < obs.skip(k).len() ==> (#[trigger] obs.skip(k)[i]).0 >= 1) by {
                assert(forall|i: int|
                    0 <= i < obs.skip(k).len() ==> obs.skip(k)[i] == obs[k + i]);
            }
            assert(total_cost(pre.push(o)) < rules[0].limit);
            assert(stepped.verdict is None);
            assert(stepped.state == (StateModel {
                recent: obs.take(k),
                cost_since_last_ban: 0,
                applied_rule: None,
            }));
            assert forall|j: int| 0 <= j < k implies #[trigger] cascade_verdicts(
                rules,
                fresh_state(),
                obs.take(k),
            )[j] is None by {
                lemma_verdicts_len(rules, fresh_state(), pre);
                if j < k - 1 {
                    assert(cascade_verdicts(rules, fresh_state(), obs.take(k))[j]
                        == cascade_verdicts(rules, fresh_state(), pre)[j]);
                } else {
                    assert(cascade_verdicts(rules, fresh_state(), obs.take(k))[j]
                        == stepped.verdict);
                }
            }
        } else {
            // the whole sequence: the window total equals the limit
            assert(obs.skip(k) =~= Seq::<(u64, i64)>::empty());
            assert(total_cost(pre.push(o)) == rules[0].limit);
            assert(stepped.verdict == Some(0int));
            assert(obs.take(k) =~= obs);
            lemma_verdicts_len(rules, fresh_state(), pre);
            assert(cascade_verdicts(rules, fresh_state(), obs).last() == stepped.verdict);
        }
    }
}

/// Sparsity: observations spaced farther apart than the entry window,
/// none of which alone meets the entry limit, never produce a verdict.
pub proof fn lemma_sparsity(rules: Seq<BanRule>, obs: Seq<(u64, i64)>)
    requires
        rules.len() >= 1,
        forall|i: int| 0 <= i < obs.len() ==> ((#[trigger] obs[i]).0 as int) < rules[0].limit,
        forall|i: int|
            0 <= i < obs.len() - 1 ==> (#[trigger] obs[i + 1]).1 - obs[i].1
                > rules[0].reset_duration_ms,
    ensures
        forall|k: int|
            0 <= k < obs.len() ==> #[trigger] cascade_verdicts(rules, fresh_state(), obs)[k]
                is None,
{
    lemma_verdicts_len(rules, fresh_state(), obs);
    assert forall|k: int| 0 <= k < obs.len() implies #[trigger] cascade_verdicts(
        rules,
        fresh_state(),
        obs,
    )[k] is None by {
        lemma_verdicts_prefix(rules, fresh_state(), obs, k + 1);
        lemma_sparsity_prefix(rules, obs, k + 1);
        assert(cascade_verdicts(rules, fresh_state(), obs)[k] == cascade_verdicts(
            rules,
            fresh_state(),
            obs,
        ).take(k + 1)[k]);
        assert(cascade_verdicts(rules, fresh_state(), obs.take(k + 1))[k] is None);
    }
}

/// Invariant driving `lemma_sparsity`: the state stays unbanned and the
/// window never holds an observation older than the latest one.
proof fn lemma_sparsity_prefix(rules: Seq<BanRule>, obs: Seq<(u64, i64)>, k: int)
    requires
        rules.len() >= 1,
        0 <= k <= obs.len(),
        forall|i: int| 0 <= i < obs.len() ==> ((#[trigger] obs[i]).0 as int) < rules[0].limit,
        forall|i: int|
            0 <= i < obs.len() - 1 ==> (#[trigger] obs[i + 1]).1 - obs[i].1
                > rules[0].reset_duration_ms,
    ensures
        cascade_run(rules, fresh_state(), obs.take(k)).applied_rule is None,
        cascade_run(rules, fresh_state(), obs.take(k)).cost_since_last_ban == 0,
        forall|e: (u64, i64)|
            #[trigger] cascade_run(rules, fresh_state(), obs.take(k)).recent.contains(e) ==> k >= 1
                && e.1 <= obs[k - 1].1,
        forall|j: int|
            0 <= j < k ==> #[trigger] cascade_verdicts(rules, fresh_state(), obs.take(k))[j]
                is None,
    decreases k,
{
    let reset = rules[0].reset_duration_ms as int;
    if k == 0 {
        assert(obs.take(0) =~= Seq::<(u64, i64)>::empty());
    } else {
        lemma_sparsity_prefix(rules, obs, k - 1);
        let pre = obs.take(k - 1);
        let s_pre = cascade_run(rules, fresh_state(), pre);
        let o = obs[k - 1];
        assert(obs.take(k) =~= pre.push(o));
        lemma_run_snoc(rules, fresh_state(), pre, o);
        let pushed = s_pre.recent.push(o);
        let kept = pruned(pushed, o.1 as int, reset);
        // of the pushed window only the newest observation survives
        lemma_pruned_bound(s_pre.recent, o, o.1 as int, reset);
        if k >= 2 {
            assert forall|e: (u64, i64)| #[trigger] s_pre.recent.contains(e) implies !in_window(
                e.1 as int,
                o.1 as int,
                reset,
            ) by {
                assert(e.1 <= obs[k - 2].1);
                let i = k - 2;
                assert(obs[i + 1].1 - obs[i].1 > rules[0].reset_duration_ms);
            }
        } else {
            assert(s_pre.recent =~= Seq::<(u64, i64)>::empty());
        }
        lemma_pruned_only_new(s_pre.recent, o, o.1 as int, reset);
        assert(window_sum(kept, o.1 as int, reset) <= o.0 as int) by {
            lemma_window_sum_single(kept, o, o.1 as int, reset);
        }
        let stepped = cascade_step(rules, s_pre, o.0, o.1);
        assert(stepped.verdict is None);
        assert forall|e: (u64, i64)| #[trigger] stepped.state.recent.contains(e) implies e.1
            <= obs[k - 1].1 by {
            lemma_pruned_contains(pushed, o.1 as int, reset, e);
            if s_pre.recent.contains(e) {
                assert(k >= 2);
                assert(e.1 <= obs[k - 2].1);
                assert(obs[k - 2].1 <= obs[k - 1].1) by {
                    let i = k - 2;
                    assert(obs[i + 1].1 - obs[i].1 > rules[0].reset_duration_ms);
                    assert(reset >= 0);
                }
            }
        }
        assert forall|j: int| 0 <= j < k implies #[trigger] cascade_verdicts(
            rules,
            fresh_state(),
            obs.take(k),
        )[j] is None by {
            lemma_verdicts_len(rules, fresh_state(), pre);
            if j < k - 1 {
                assert(cascade_verdicts(rules, fresh_state(), obs.take(k))[j] == cascade_verdicts(
                    rules,
                    fresh_state(),
                    pre,
                )[j]);
            } else {
                assert(cascade_verdicts(rules, fresh_state(), obs.take(k))[j] == stepped.verdict);
            }
        }
    }
}

/// Everything a pruned window holds came from the window it was pruned
/// from, and is itself in the window.
pub proof fn lemma_pruned_contains(recent: Seq<(u64, i64)>, t: int, reset_ms: int, e: (u64, i64))
    requires
        pruned(recent, t, reset_ms).contains(e),
    ensures
        recent.contains(e),
        in_window(e.1 as int, t, reset_ms),
    decreases recent.len(),
{
    if recent.len() == 0 {
    } else {
        let rest = pruned(recent.drop_last(), t, reset_ms);
        if in_window(recent.last().1 as int, t, reset_ms) && e == recent.last() {
            assert(recent.contains(e)) by {
                assert(recent[recent.len() - 1] == e);
            }
        } else {
            assert(rest.contains(e)) by {
                let p = pruned(recent, t, reset_ms);
                let i = choose|i: int| 0 <= i < p.len() && p[i] == e;
                if in_window(recent.last().1 as int, t, reset_ms) {
                    assert(p == rest.push(recent.last()));
                    assert(i < rest.len());
                    assert(rest[i] == e);
                }
            }
            lemma_pruned_contains(recent.drop_last(), t, reset_ms, e);
            assert(recent.drop_last().contains(e));
            let i = choose|i: int| 0 <= i < recent.drop_last().len() && recent.drop_last()[i] == e;
            assert(recent[i] == e);
        }
    }
}

/// Helper for `lemma_sparsity_prefix`: membership in a pruned push.
proof fn lemma_pruned_bound(recent: Seq<(u64, i64)>, o: (u64, i64), t: int, reset_ms: int)
    ensures
        forall|e: (u64, i64)|
            #[trigger] pruned(recent.push(o), t, reset_ms).contains(e) ==> recent.contains(e) || e
                == o,
{
    assert forall|e: (u64, i64)| #[trigger] pruned(recent.push(o), t, reset_ms).contains(
        e,
    ) implies recent.contains(e) || e == o by {
        lemma_pruned_contains(recent.push(o), t, reset_ms, e);
        let i = choose|i: int| 0 <= i < recent.push(o).len() && recent.push(o)[i] == e;
        if i < recent.len() {
            assert(recent[i] == e);
        }
    }
}

/// When nothing older than the new observation is in the window, the
/// pruned push is at most that one observation.
proof fn lemma_pruned_only_new(recent: Seq<(u64, i64)>, o: (u64, i64), t: int, reset_ms: int)
    requires
        forall|e: (u64, i64)|
            #[trigger] recent.contains(e) ==> !in_window(e.1 as int, t, reset_ms),
    ensures
        pruned(recent.push(o), t, reset_ms) == if in_window(o.1 as int, t, reset_ms) {
            seq![o]
        } else {
            Seq::<(u64, i64)>::empty()
        },
    decreases recent.len(),
{
    assert(recent.push(o).drop_last() =~= recent);
    assert(recent.push(o).last() == o);
    lemma_pruned_none(recent, t, reset_ms);
    if in_window(o.1 as int, t, reset_ms) {
        assert(pruned(recent.push(o), t, reset_ms) =~= seq![o]);
    } else {
        assert(pruned(recent.push(o), t, reset_ms) =~= Seq::<(u64, i64)>::empty());
    }
}

/// Pruning a window with nothing in range leaves nothing.
proof fn lemma_pruned_none(recent: Seq<(u64, i64)>, t: int, reset_ms: int)
    requires
        forall|e: (u64, i64)|
            #[trigger] recent.contains(e) ==> !in_window(e.1 as int, t, reset_ms),
    ensures
        pruned(recent, t, reset_ms) == Seq::<(u64, i64)>::empty(),
    decreases recent.len(),
{
    if recent.len() == 0 {
        assert(pruned(recent, t, reset_ms) =~= Seq::<(u64, i64)>::empty());
    } else {
        assert(recent.contains(recent.last())) by {
            assert(recent[recent.len() - 1] == recent.last());
        }
        assert forall|e: (u64, i64)| #[trigger] recent.drop_last().contains(e) implies !in_window(
            e.1 as int,
            t,
            reset_ms,
        ) by {
            let i = choose|i: int|
                0 <= i < recent.drop_last().len() && recent.drop_last()[i] == e;
            assert(recent[i] == e);
            assert(recent.contains(e));
        }
        lemma_pruned_none(recent.drop_last(), t, reset_ms);
    }
}

/// The window total of a sub-singleton window is at most that element's
/// cost.
proof fn lemma_window_sum_single(kept: Seq<(u64, i64)>, o: (u64, i64), t: int, reset_ms: int)
    requires
        kept == seq![o] || kept == Seq::<(u64, i64)>::empty(),
    ensures
        window_sum(kept, t, reset_ms) <= o.0 as int,
{
    if kept == seq![o] {
        assert(kept.len() == 1);
        assert(kept.drop_last() =~= Seq::<(u64, i64)>::empty());
        assert(kept.last() == o);
        assert(window_sum(kept.drop_last(), t, reset_ms) == 0);
    } else {
        assert(kept.len() == 0);
        assert(window_sum(kept, t, reset_ms) == 0);
    }
}

/// A state that only ever names tiers the cascade has.
pub open spec fn state_wf(rules: Seq<BanRule>, s: StateModel) -> bool {
    match s.applied_rule {
        Some(ar) => ar.rule_idx < rules.len(),
        None => true,
    }
}

/// Each step keeps the applied tier inside the cascade.
pub proof fn lemma_step_preserves_wf(rules: Seq<BanRule>, s: StateModel, cost: u64, t: i64)
    requires
        rules.len() >= 1,
        state_wf(rules, s),
    ensures
        state_wf(rules, cascade_step(rules, s, cost, t).state),
{
}

/// Escalation monotonicity: while a target stays in cooldown, one step
/// never lowers the applied tier, and any verdict it emits names a tier
/// at least as high as the current one.
pub proof fn lemma_escalation_monotonic(rules: Seq<BanRule>, s: StateModel, cost: u64, t: i64)
    requires
        1 <= rules.len() <= usize::MAX,
        state_wf(rules, s),
        s.applied_rule is Some,
    ensures
        match cascade_step(rules, s, cost, t).state.applied_rule {
            Some(ar2) => ar2.rule_idx >= s.applied_rule.unwrap().rule_idx,
            None => t >= s.applied_rule.unwrap().resets_at,
        },
        match cascade_step(rules, s, cost, t).verdict {
            Some(i) => i >= s.applied_rule.unwrap().rule_idx,
            None => true,
        },
{
}

/// A run during which the target never leaves cooldown.
pub open spec fn run_stays_banned(rules: Seq<BanRule>, s: StateModel, obs: Seq<(u64, i64)>) -> bool
    decreases obs.len(),
{
    if obs.len() == 0 {
        true
    } else {
        let stepped = cascade_step(rules, s, obs[0].0, obs[0].1);
        stepped.state.applied_rule is Some && run_stays_banned(
            rules,
            stepped.state,
            obs.drop_first(),
        )
    }
}

/// Escalation monotonicity over a whole run: from cooldown under tier
/// `i`, as long as no cooldown reset happens, every emitted verdict and
/// the final applied tier are at least `i`.
pub proof fn lemma_escalation_monotonic_run(rules: Seq<BanRule>, s: StateModel, obs: Seq<(u64, i64)>)
    requires
        1 <= rules.len() <= usize::MAX,
        state_wf(rules, s),
        s.applied_rule is Some,
        run_stays_banned(rules, s, obs),
    ensures
        cascade_run(rules, s, obs).applied_rule is Some,
        cascade_run(rules, s, obs).applied_rule.unwrap().rule_idx >= s.applied_rule.unwrap().rule_idx,
        state_wf(rules, cascade_run(rules, s, obs)),
        forall|k: int|
            0 <= k < obs.len() ==> match #[trigger] cascade_verdicts(rules, s, obs)[k] {
                Some(i) => i >= s.applied_rule.unwrap().rule_idx,
                None => true,
            },
    decreases obs.len(),
{
    if obs.len() == 0 {
    } else {
        let stepped = cascade_step(rules, s, obs[0].0, obs[0].1);
        lemma_step_preserves_wf(rules, s, obs[0].0, obs[0].1);
        lemma_escalation_monotonic(rules, s, obs[0].0, obs[0].1);
        lemma_escalation_monotonic_run(rules, stepped.state, obs.drop_first());
        assert forall|k: int| 0 <= k < obs.len() implies match #[trigger] cascade_verdicts(
            rules,
            s,
            obs,
        )[k] {
            Some(i) => i >= s.applied_rule.unwrap().rule_idx,
            None => true,
        } by {
            lemma_verdicts_len(rules, stepped.state, obs.drop_first());
            if k >= 1 {
                assert(cascade_verdicts(rules, s, obs)[k] == cascade_verdicts(
                    rules,
                    stepped.state,
                    obs.drop_first(),
                )[k - 1]);
            }
        }
    }
}

/// Sticky last tier: in cooldown under the last tier, a step that stays
/// in cooldown keeps the last tier; it emits exactly when the
/// accumulated cost crosses the last tier's limit, and then emits the
/// last tier again.
pub proof fn lemma_sticky_last_tier(rules: Seq<BanRule>, s: StateModel, cost: u64, t: i64)
    requires
        1 <= rules.len() <= usize::MAX,
        s.applied_rule is Some,
        s.applied_rule.unwrap().rule_idx == rules.len() - 1,
        t < s.applied_rule.unwrap().resets_at,
    ensures
        cascade_step(rules, s, cost, t).state.applied_rule is Some,
        cascade_step(rules, s, cost, t).state.applied_rule.unwrap().rule_idx == rules.len() - 1,
        cascade_step(rules, s, cost, t).verdict == if sat_add_u64(s.cost_since_last_ban, cost)
            >= rules[rules.len() - 1].limit {
            Some(rules.len() - 1)
        } else {
            None::<int>
        },
{
}

/// Cooldown expiry: once the reset time passes, one observation clears
/// the cooldown and the accumulator without a verdict, and the window
/// keeps that observation.
pub proof fn lemma_cooldown_expiry(rules: Seq<BanRule>, s: StateModel, cost: u64, t: i64)
    requires
        rules.len() >= 1,
        s.applied_rule is Some,
        t >= s.applied_rule.unwrap().resets_at,
    ensures
        cascade_step(rules, s, cost, t).verdict is None,
        cascade_step(rules, s, cost, t).state == (StateModel {
            recent: s.recent.push((cost, t)),
            cost_since_last_ban: 0,
            applied_rule: None,
        }),
{
}

/// Reset restart: out of cooldown, any threshold crossing is a fresh
/// entry at tier 0, under the entry rule's cooldown.
pub proof fn lemma_fresh_entry_tier(rules: Seq<BanRule>, s: StateModel, cost: u64, t: i64)
    requires
        rules.len() >= 1,
        s.applied_rule is None,
    ensures
        match cascade_step(rules, s, cost, t).verdict {
            Some(i) => i == 0 && cascade_step(rules, s, cost, t).state.applied_rule == Some(
                crate::rules::AppliedRule {
                    rule_idx: 0,
                    resets_at: crate::cascade::sat_add_time(t, rules[0].reset_duration_ms),
                },
            ),
            None => cascade_step(rules, s, cost, t).state.applied_rule is None,
        },
{
}

} // verus!
