//! One scheduling tick of the plan-execution supervisor: evaluate every
//! cached plan against the current minute, consult the dispatch guard, and
//! name the plans that get a fresh execution.

use vstd::prelude::*;
use crate::cron::{cron_matches_now, parse_cron_expression, spec_cron_matches, spec_parse_cron};
use crate::dedup::{guard_step, DedupGuard};
use crate::plans::{plan_views, SyncedBackupPlan};
use crate::timepoint::{spec_stamp_key, stamp_valid, MinuteStamp};

verus! {

/// A plan is due when its cron string parses and matches the given minute.
pub open spec fn plan_due(cron: Seq<char>, now: MinuteStamp) -> bool {
    &&& spec_parse_cron(cron) is Some
    &&& spec_cron_matches(spec_parse_cron(cron)->Some_0, now)
}

/// What one tick decides over a list of plans, left to right: the indices
/// dispatched and the guard state left behind. A plan with an invalid cron
/// string is skipped for this tick; a due plan is dispatched exactly when
/// the guard admits its plan-minute key.
pub open spec fn spec_tick(
    plans: Seq<(Seq<char>, Seq<char>)>,
    now: MinuteStamp,
    g: Seq<(Seq<char>, u64)>,
) -> (Seq<int>, Seq<(Seq<char>, u64)>)
    decreases plans.len(),
{
    if plans.len() == 0 {
        (Seq::empty(), g)
    } else {
        let (idxs, g1) = spec_tick(plans.drop_last(), now, g);
        let (id, cron) = plans.last();
        if plan_due(cron, now) {
            let step = guard_step(g1, (id, spec_stamp_key(now) as u64));
            if step.0 {
                (idxs.push(plans.len() - 1), step.1)
            } else {
                (idxs, step.1)
            }
        } else {
            (idxs, g1)
        }
    }
}

/// Runs one scheduling tick: returns the indices of the plans to dispatch
/// now, in order, having recorded their plan-minute keys in the guard.
pub fn supervisor_tick(
    plans: &Vec<SyncedBackupPlan>,
    now: &MinuteStamp,
    guard: &mut DedupGuard,
) -> (r: Vec<usize>)
    requires
        stamp_valid(*now),
    ensures
        ({
            let t = spec_tick(plan_views(plans@), *now, old(guard)@);
            &&& r@.map_values(|u: usize| u as int) == t.0
            &&& final(guard)@ == t.1
        }),
        forall|j: int| 0 <= j < r@.len() ==> (r@[j] as int) < plans@.len(),
{
    let mut r: Vec<usize> = Vec::new();
    let mut i: usize = 0;
    proof {
        assert(plan_views(plans@).take(0) =~= Seq::<(Seq<char>, Seq<char>)>::empty());
        assert(r@.map_values(|u: usize| u as int) =~= Seq::<int>::empty());
    }
    while i < plans.len()
        invariant
            stamp_valid(*now),
            i <= plans@.len(),
            ({
                let t = spec_tick(plan_views(plans@).take(i as int), *now, old(guard)@);
                &&& r@.map_values(|u: usize| u as int) == t.0
                &&& guard@ == t.1
            }),
            forall|j: int| 0 <= j < r@.len() ==> (r@[j] as int) < i,
        decreases plans@.len() - i,
    {
        proof {
            assert(plan_views(plans@).take(i + 1).drop_last() =~= plan_views(plans@).take(
                i as int,
            ));
            assert(plan_views(plans@).take(i + 1).last() == (plans@[i as int].id@,
            plans@[i as int].cron@));
        }
        let plan = &plans[i];
        let due = match parse_cron_expression(plan.cron.as_str()) {
            Some(p) => cron_matches_now(&p, now),
            None => false,
        };
        proof {
            assert(due == plan_due(plan.cron@, *now));
        }
        if due {
            let ghost pre = r@.map_values(|u: usize| u as int);
            if guard.should_dispatch(&plan.id, now) {
                r.push(i);
                proof {
                    assert(r@.map_values(|u: usize| u as int) =~= pre.push(i as int));
                }
            }
        }
        i = i + 1;
    }
    proof {
        assert(plan_views(plans@).take(plans@.len() as int) =~= plan_views(plans@));
    }
    r
}

} // verus!
