//! The per-minute dispatch guard: a bounded set of plan-id + calendar-minute
//! keys already dispatched, guaranteeing at most one dispatch per plan per
//! scheduled minute.

use vstd::prelude::*;
use crate::timepoint::{
    lemma_stamp_key_injective, spec_stamp_key, stamp_key, stamp_valid, MinuteStamp,
};

verus! {

/// High-water mark: when the guard holds more keys than this, the whole set
/// is cleared before the next insertion.
pub const DEDUP_HIGH_WATER: usize = 20000;

/// One dispatched plan-minute: the plan id and the packed calendar minute.
pub struct DedupKey {
    pub plan_id: String,
    pub minute_key: u64,
}

/// The guard: the keys of every plan-minute already dispatched since the
/// last clear.
pub struct DedupGuard {
    keys: Vec<DedupKey>,
}

pub open spec fn guard_contains(s: Seq<(Seq<char>, u64)>, key: (Seq<char>, u64)) -> bool {
    exists|i: int| 0 <= i < s.len() && s[i] == key
}

/// One atomic check-and-insert: clear everything when over the high-water
/// mark, then admit the key exactly when it is not present, inserting it.
pub open spec fn guard_step(s: Seq<(Seq<char>, u64)>, key: (Seq<char>, u64)) -> (bool, Seq<
    (Seq<char>, u64),
>) {
    let base = if s.len() > DEDUP_HIGH_WATER {
        Seq::empty()
    } else {
        s
    };
    if guard_contains(base, key) {
        (false, base)
    } else {
        (true, base.push(key))
    }
}

impl View for DedupGuard {
    type V = Seq<(Seq<char>, u64)>;

    closed spec fn view(&self) -> Seq<(Seq<char>, u64)> {
        self.keys@.map_values(|k: DedupKey| (k.plan_id@, k.minute_key))
    }
}

impl DedupGuard {
    /// An empty guard, as a fresh process starts with.
    pub fn new() -> (r: DedupGuard)
        ensures
            r@ == Seq::<(Seq<char>, u64)>::empty(),
    {
        let r = DedupGuard { keys: Vec::new() };
        proof {
            assert(r@ =~= Seq::<(Seq<char>, u64)>::empty());
        }
        r
    }

    fn holds_key(&self, plan_id: &String, minute_key: u64) -> (r: bool)
        ensures
            r == guard_contains(self@, (plan_id@, minute_key)),
    {
        let mut i: usize = 0;
        while i < self.keys.len()
            invariant
                i <= self.keys@.len(),
                self@.len() == self.keys@.len(),
                forall|j: int| 0 <= j < i ==> self@[j] != (plan_id@, minute_key),
            decreases self.keys@.len() - i,
        {
            if self.keys[i].minute_key == minute_key && self.keys[i].plan_id == *plan_id {
                proof {
                    assert(self@[i as int] == (plan_id@, minute_key));
                }
                return true;
            }
            proof {
                assert(self@[i as int] == (self.keys@[i as int].plan_id@,
                self.keys@[i as int].minute_key));
            }
            i = i + 1;
        }
        false
    }

    /// Decides one dispatch: admits the plan for this calendar minute exactly
    /// when the pair was not yet recorded, recording it; over the high-water
    /// mark the whole record is cleared first.
    pub fn should_dispatch(&mut self, plan_id: &String, now: &MinuteStamp) -> (r: bool)
        requires
            stamp_valid(*now),
        ensures
            ({
                let key = (plan_id@, spec_stamp_key(*now) as u64);
                let step = guard_step(old(self)@, key);
                r == step.0 && final(self)@ == step.1
            }),
    {
        let mk = stamp_key(now);
        if self.keys.len() > DEDUP_HIGH_WATER {
            self.keys = Vec::new();
            proof {
                assert(self@ =~= Seq::<(Seq<char>, u64)>::empty());
            }
        }
        if self.holds_key(plan_id, mk) {
            false
        } else {
            let ghost pre = self@;
            self.keys.push(DedupKey { plan_id: plan_id.clone(), minute_key: mk });
            proof {
                assert(self@ =~= pre.push((plan_id@, mk)));
            }
            true
        }
    }

    /// How many plan-minutes the guard currently records.
    pub fn len(&self) -> (r: usize)
        ensures
            r == self@.len(),
    {
        self.keys.len()
    }
}

// ---------------------------------------------------------------------------
// Laws
// ---------------------------------------------------------------------------

/// A run of check-and-insert steps, one key after the other.
pub open spec fn guard_run(s: Seq<(Seq<char>, u64)>, keys: Seq<(Seq<char>, u64)>) -> Seq<
    (Seq<char>, u64),
>
    decreases keys.len(),
{
    if keys.len() == 0 {
        s
    } else {
        guard_run(guard_step(s, keys[0]).1, keys.drop_first())
    }
}

/// Law: a key the guard does not hold — a fresh plan-minute — is admitted,
/// as long as the guard is within its high-water mark.
pub proof fn lemma_fresh_key_admitted(s: Seq<(Seq<char>, u64)>, key: (Seq<char>, u64))
    requires
        !guard_contains(s, key),
        s.len() <= DEDUP_HIGH_WATER,
    ensures
        guard_step(s, key).0,
{
}

/// Law: once a plan-minute key is admitted, any number of further
/// check-and-insert steps with other keys still refuse that key, provided
/// the guard stays within its high-water mark throughout; so a plan is
/// dispatched at most once within one calendar minute.
pub proof fn lemma_dispatch_once_run(
    s: Seq<(Seq<char>, u64)>,
    key: (Seq<char>, u64),
    others: Seq<(Seq<char>, u64)>,
)
    requires
        guard_contains(s, key),
        s.len() + others.len() <= DEDUP_HIGH_WATER,
    ensures
        guard_contains(guard_run(s, others), key),
        guard_run(s, others).len() <= s.len() + others.len(),
        !guard_step(guard_run(s, others), key).0,
    decreases others.len(),
{
    if others.len() == 0 {
        assert(guard_run(s, others) == s);
    } else {
        let stepped = guard_step(s, others[0]).1;
        assert(s.len() <= DEDUP_HIGH_WATER);
        if guard_contains(s, others[0]) {
            assert(stepped == s);
        } else {
            assert(stepped == s.push(others[0]));
            let w = choose|i: int| 0 <= i < s.len() && s[i] == key;
            assert(stepped[w] == key);
        }
        lemma_dispatch_once_run(stepped, key, others.drop_first());
    }
}

/// Law: the same plan in two different calendar minutes forms two different
/// guard keys, so the plan becomes eligible again in the following minute.
pub proof fn lemma_distinct_minutes_distinct_keys(
    id: Seq<char>,
    a: MinuteStamp,
    b: MinuteStamp,
)
    requires
        stamp_valid(a),
        stamp_valid(b),
        a != b,
    ensures
        (id, spec_stamp_key(a) as u64) != (id, spec_stamp_key(b) as u64),
{
    assert(spec_stamp_key(a) < 0x10000000000000000 && spec_stamp_key(b) < 0x10000000000000000
        && spec_stamp_key(a) >= 0 && spec_stamp_key(b) >= 0) by (nonlinear_arith)
        requires
            stamp_valid(a),
            stamp_valid(b),
            spec_stamp_key(a) == (((a.year * 100 + a.month) * 100 + a.day) * 100 + a.hour) * 100
                + a.minute,
            spec_stamp_key(b) == (((b.year * 100 + b.month) * 100 + b.day) * 100 + b.hour) * 100
                + b.minute,
    ;
    if spec_stamp_key(a) as u64 == spec_stamp_key(b) as u64 {
        assert(spec_stamp_key(a) == spec_stamp_key(b));
        lemma_stamp_key_injective(a, b);
    }
}

} // verus!
