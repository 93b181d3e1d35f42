//! Five-field cron expressions: parsing into sets of allowed values and
//! matching against a calendar minute, with the classical day-of-month /
//! day-of-week combination rule.

use vstd::prelude::*;
use crate::text::{
    chars_of, parse_u32_chars, parse_u32_spec, split_chars, split_once_chars, split_once_spec,
    split_spec, split_whitespace_chars, split_whitespace_spec, trim_chars, trim_spec,
};
use crate::timepoint::{spec_weekday, stamp_valid, weekday, MinuteStamp};

verus! {

// ---------------------------------------------------------------------------
// The meaning of one cron field, as a set of allowed integers
// ---------------------------------------------------------------------------

/// Base and step of one comma-separated chunk: the part before an optional
/// `/step` suffix, and the step itself (1 when absent).
pub open spec fn chunk_base_and_step(t: Seq<char>) -> Option<(Seq<char>, u32)> {
    match split_once_spec(t, '/') {
        Some((b, st)) => match parse_u32_spec(st) {
            Some(s) => Some((b, s)),
            None => None,
        },
        None => Some((t, 1u32)),
    }
}

/// The inclusive range a chunk base denotes: the whole field for `*`,
/// the two endpoints of `a-b`, or a single value.
pub open spec fn chunk_range(base: Seq<char>, min: u32, max: u32) -> Option<(u32, u32)> {
    if base == seq!['*'] {
        Some((min, max))
    } else {
        match split_once_spec(base, '-') {
            Some((a_s, b_s)) => match (parse_u32_spec(a_s), parse_u32_spec(b_s)) {
                (Some(a), Some(b)) => Some((a, b)),
                _ => None,
            },
            None => match parse_u32_spec(base) {
                Some(v) => Some((v, v)),
                None => None,
            },
        }
    }
}

/// Every `step`-th value from `rmin`, up to `rmax`.
pub open spec fn step_set(rmin: u32, rmax: u32, step: u32) -> Set<u32> {
    Set::new(|v: u32| v <= rmax && exists|j: nat| v as int == rmin + #[trigger] (j * step))
}

/// The set of values one chunk allows, or `None` when the chunk is invalid:
/// empty, a malformed number, step zero, or a range outside `min..=max`.
pub open spec fn chunk_values(c: Seq<char>, min: u32, max: u32) -> Option<Set<u32>> {
    let t = trim_spec(c);
    if t.len() == 0 {
        None
    } else {
        match chunk_base_and_step(t) {
            None => None,
            Some((base, step)) => if step == 0 {
                None
            } else {
                match chunk_range(base, min, max) {
                    None => None,
                    Some((rmin, rmax)) => if rmin < min || rmax > max || rmin > rmax {
                        None
                    } else {
                        Some(step_set(rmin, rmax, step))
                    },
                }
            },
        }
    }
}

pub open spec fn chunks_values(cs: Seq<Seq<char>>, min: u32, max: u32) -> Option<Set<u32>>
    decreases cs.len(),
{
    if cs.len() == 0 {
        Some(Set::empty())
    } else {
        match (chunk_values(cs[0], min, max), chunks_values(cs.drop_first(), min, max)) {
            (Some(a), Some(b)) => Some(a.union(b)),
            _ => None,
        }
    }
}

/// The set of values a whole cron field allows: the union over its
/// comma-separated chunks, or `None` when any chunk is invalid.
pub open spec fn field_values(s: Seq<char>, min: u32, max: u32) -> Option<Set<u32>> {
    chunks_values(split_spec(s, ','), min, max)
}

// ---------------------------------------------------------------------------
// Executable field sets
// ---------------------------------------------------------------------------

/// The allowed values of one parsed cron field, as a membership table
/// indexed by value.
pub struct CronFieldSet {
    pub allowed: Vec<bool>,
}

pub open spec fn bools_set(s: Seq<bool>) -> Set<u32> {
    Set::new(|v: u32| (v as int) < s.len() && s[v as int])
}

impl CronFieldSet {
    pub open spec fn as_set(&self) -> Set<u32> {
        bools_set(self.allowed@)
    }

    pub fn set_contains(&self, v: u32) -> (r: bool)
        ensures
            r == self.as_set().contains(v),
    {
        (v as usize) < self.allowed.len() && self.allowed[v as usize]
    }
}

/// Parses one cron field over the inclusive value range `min..=max`,
/// returning exactly the set `field_values` denotes, or `None` exactly when
/// that denotation is invalid.
pub fn parse_cron_field(raw: &str, min: u32, max: u32) -> (r: Option<CronFieldSet>)
    requires
        min <= max,
        max < 64,
    ensures
        match r {
            None => field_values(raw@, min, max) is None,
            Some(f) => {
                &&& field_values(raw@, min, max) == Some(f.as_set())
                &&& f.allowed@.len() == max + 1
            },
        },
{
    let chars = chars_of(raw);
    parse_field_chars(&chars, min, max)
}

/// The field parser itself, over a character vector.
fn parse_field_chars(field: &Vec<char>, min: u32, max: u32) -> (r: Option<CronFieldSet>)
    requires
        min <= max,
        max < 64,
    ensures
        match r {
            None => field_values(field@, min, max) is None,
            Some(f) => {
                &&& field_values(field@, min, max) == Some(f.as_set())
                &&& f.allowed@.len() == max + 1
            },
        },
{
    let chunks = split_chars(field, ',');
    let ghost cseqs = chunks@.map_values(|p: Vec<char>| p@);
    let mut allowed: Vec<bool> = Vec::new();
    let mut z: usize = 0;
    while z < (max as usize) + 1
        invariant
            max < 64,
            allowed@.len() == z <= max + 1,
            forall|q: int| 0 <= q < z ==> !allowed@[q],
        decreases max + 1 - z,
    {
        allowed.push(false);
        z = z + 1;
    }
    proof {
        assert(bools_set(allowed@) =~= Set::<u32>::empty());
        assert(cseqs.skip(0) =~= cseqs);
        assert(Set::<u32>::empty().union(chunks_values(cseqs, min, max)->Some_0) =~= chunks_values(
            cseqs,
            min,
            max,
        )->Some_0);
    }
    let mut ci: usize = 0;
    while ci < chunks.len()
        invariant
            min <= max < 64,
            allowed@.len() == max + 1,
            cseqs == chunks@.map_values(|p: Vec<char>| p@),
            field_values(field@, min, max) == chunks_values(split_spec(field@, ','), min, max),
            split_spec(field@, ',') == cseqs,
            ci <= chunks@.len(),
            match chunks_values(cseqs.skip(ci as int), min, max) {
                None => field_values(field@, min, max) is None,
                Some(rest) => field_values(field@, min, max) == Some(
                    bools_set(allowed@).union(rest),
                ),
            },
        decreases chunks@.len() - ci,
    {
        proof {
            assert(cseqs.skip(ci as int).drop_first() =~= cseqs.skip(ci + 1));
            assert(cseqs.skip(ci as int)[0] == cseqs[ci as int]);
            assert(cseqs[ci as int] == chunks@[ci as int]@);
        }
        let t = trim_chars(&chunks[ci]);
        if t.len() == 0 {
            return None;
        }
        let (base, step): (Vec<char>, u32) = match split_once_chars(&t, '/') {
            Some((b, st)) => {
                match parse_u32_chars(&st) {
                    Some(sv) => (b, sv),
                    None => {
                        return None;
                    },
                }
            },
            None => (t, 1u32),
        };
        if step == 0 {
            return None;
        }
        let rng: Option<(u32, u32)> = if base.len() == 1 && base[0] == '*' {
            proof {
                assert(base@ =~= seq!['*']);
            }
            Some((min, max))
        } else {
            proof {
                if base@ == seq!['*'] {
                    assert(base@.len() == 1 && base@[0] == '*');
                    assert(false);
                }
            }
            match split_once_chars(&base, '-') {
                Some((a_s, b_s)) => {
                    match (parse_u32_chars(&a_s), parse_u32_chars(&b_s)) {
                        (Some(a), Some(b)) => Some((a, b)),
                        _ => None,
                    }
                },
                None => {
                    match parse_u32_chars(&base) {
                        Some(v) => Some((v, v)),
                        None => None,
                    }
                },
            }
        };
        match rng {
            None => {
                return None;
            },
            Some((rmin, rmax)) => {
                if rmin < min || rmax > max || rmin > rmax {
                    return None;
                }
                let ghost pre = bools_set(allowed@);
                let mut v: u64 = rmin as u64;
                let ghost mut k: nat = 0nat;
                proof {
                    assert(Set::new(
                        |u: u32| u <= rmax && exists|j: nat| j < k && u as int == rmin + #[trigger] (j * step),
                    ) =~= Set::<u32>::empty());
                    assert(bools_set(allowed@) =~= pre.union(Set::<u32>::empty()));
                }
                while v <= rmax as u64
                    invariant
                        min <= rmin <= rmax <= max < 64,
                        1 <= step,
                        allowed@.len() == max + 1,
                        v == rmin + k * step,
                        bools_set(allowed@) == pre.union(
                            Set::new(
                                |u: u32| u <= rmax && exists|j: nat|
                                    j < k && u as int == rmin + #[trigger] (j * step),
                            ),
                        ),
                    decreases rmax + step - v,
                {
                    let ghost before = bools_set(allowed@);
                    let ghost k0 = k;
                    allowed.set(v as usize, true);
                    proof {
                        assert(k0 * step >= 0) by (nonlinear_arith)
                            requires
                                k0 >= 0,
                                step >= 1,
                        ;
                        k = k0 + 1;
                        let oldset = Set::new(
                            |u: u32| u <= rmax && exists|j: nat|
                                j < k0 && u as int == rmin + #[trigger] (j * step),
                        );
                        let newset = Set::new(
                            |u: u32| u <= rmax && exists|j: nat|
                                j < k && u as int == rmin + #[trigger] (j * step),
                        );
                        assert forall|u: u32|
                            bools_set(allowed@).contains(u) <==> (before.contains(u) || u as int
                                == v as int) by {
                            if u as int == v as int {
                                assert(allowed@[u as int]);
                            }
                        }
                        assert forall|u: u32| newset.contains(u) implies (oldset.contains(u)
                            || u as int == v as int) by {
                            let j = choose|j: nat|
                                j < k && u as int == rmin + #[trigger] (j * step);
                            if j < k0 {
                                assert(oldset.contains(u));
                            } else {
                                assert(j == k0);
                            }
                        }
                        assert forall|u: u32| oldset.contains(u) implies newset.contains(u) by {
                            let j = choose|j: nat|
                                j < k0 && u as int == rmin + #[trigger] (j * step);
                            assert(j < k && u as int == rmin + j * step);
                        }
                        assert(v <= rmax);
                        assert((v as u32) as int == v as int);
                        assert(k0 < k && (v as u32) as int == rmin + k0 * step);
                        assert(newset.contains(v as u32));
                        assert(before == pre.union(oldset));
                        assert forall|u: u32| (oldset.contains(u) || u as int == v as int) implies
                            newset.contains(u) by {
                            if u as int == v as int {
                                assert(u == v as u32);
                            }
                        }
                        assert forall|u: u32| #[trigger] bools_set(allowed@).contains(u)
                            == pre.union(newset).contains(u) by {
                            if u as int == v as int {
                                assert(newset.contains(u));
                                assert(bools_set(allowed@).contains(u));
                            }
                            if oldset.contains(u) {
                                assert(newset.contains(u));
                            }
                            if newset.contains(u) {
                                assert(oldset.contains(u) || u as int == v as int);
                            }
                            if before.contains(u) {
                                assert(pre.contains(u) || oldset.contains(u));
                            }
                        }
                        assert(bools_set(allowed@) =~= pre.union(newset));
                        assert(k0 * step + step == k * step) by (nonlinear_arith)
                            requires
                                k == k0 + 1,
                        ;
                    }
                    v = v + step as u64;
                }
                proof {
                    assert forall|u: u32| step_set(rmin, rmax, step).contains(u) implies Set::new(
                        |u2: u32| u2 <= rmax && exists|j: nat| j < k && u2 as int == rmin + #[trigger] (j * step),
                    ).contains(u) by {
                        let j = choose|j: nat| u as int == rmin + #[trigger] (j * step);
                        assert(j < k) by (nonlinear_arith)
                            requires
                                rmin + j * step <= rmax,
                                rmax < rmin + k * step,
                                step >= 1,
                                j >= 0,
                                k >= 0,
                        ;
                    }
                    assert(step_set(rmin, rmax, step) =~= Set::new(
                        |u2: u32| u2 <= rmax && exists|j: nat| j < k && u2 as int == rmin + #[trigger] (j * step),
                    ));
                    assert(bools_set(allowed@) =~= pre.union(step_set(rmin, rmax, step)));
                    let rest1 = chunks_values(cseqs.skip(ci + 1), min, max);
                    if rest1 is Some {
                        assert(pre.union(step_set(rmin, rmax, step).union(rest1->Some_0))
                            =~= bools_set(allowed@).union(rest1->Some_0));
                    }
                }
            },
        }
        ci = ci + 1;
    }
    proof {
        assert(cseqs.skip(ci as int) =~= Seq::<Seq<char>>::empty());
        assert(bools_set(allowed@).union(Set::<u32>::empty()) =~= bools_set(allowed@));
    }
    Some(CronFieldSet { allowed })
}


// ---------------------------------------------------------------------------
// Whole expressions
// ---------------------------------------------------------------------------

/// Spec-level meaning of a parsed cron expression: one set per field, and
/// whether the two day fields were literally `*`.
#[verifier::ext_equal]
pub struct CronSpecView {
    pub minute: Set<u32>,
    pub hour: Set<u32>,
    pub day_of_month: Set<u32>,
    pub month: Set<u32>,
    pub day_of_week: Set<u32>,
    pub dom_wildcard: bool,
    pub dow_wildcard: bool,
}

/// The meaning of a raw cron string: exactly five whitespace-separated
/// fields, each valid over its range, or nothing.
pub open spec fn spec_parse_cron(s: Seq<char>) -> Option<CronSpecView> {
    let parts = split_whitespace_spec(s);
    if parts.len() != 5 {
        None
    } else {
        match (
            field_values(parts[0], 0, 59),
            field_values(parts[1], 0, 23),
            field_values(parts[2], 1, 31),
            field_values(parts[3], 1, 12),
            field_values(parts[4], 0, 6),
        ) {
            (Some(mi), Some(h), Some(dom), Some(mo), Some(dow)) => Some(
                CronSpecView {
                    minute: mi,
                    hour: h,
                    day_of_month: dom,
                    month: mo,
                    day_of_week: dow,
                    dom_wildcard: parts[2] == seq!['*'],
                    dow_wildcard: parts[4] == seq!['*'],
                },
            ),
            _ => None,
        }
    }
}

/// A parsed five-field cron expression.
pub struct ParsedCron {
    pub minute: CronFieldSet,
    pub hour: CronFieldSet,
    pub day_of_month: CronFieldSet,
    pub month: CronFieldSet,
    pub day_of_week: CronFieldSet,
    pub is_day_of_month_wildcard: bool,
    pub is_day_of_week_wildcard: bool,
}

impl View for ParsedCron {
    type V = CronSpecView;

    open spec fn view(&self) -> CronSpecView {
        CronSpecView {
            minute: self.minute.as_set(),
            hour: self.hour.as_set(),
            day_of_month: self.day_of_month.as_set(),
            month: self.month.as_set(),
            day_of_week: self.day_of_week.as_set(),
            dom_wildcard: self.is_day_of_month_wildcard,
            dow_wildcard: self.is_day_of_week_wildcard,
        }
    }
}

fn is_star(part: &Vec<char>) -> (r: bool)
    ensures
        r == (part@ == seq!['*']),
{
    let r = part.len() == 1 && part[0] == '*';
    proof {
        if r {
            assert(part@ =~= seq!['*']);
        } else if part@ == seq!['*'] {
            assert(part@.len() == 1 && part@[0] == '*');
            assert(false);
        }
    }
    r
}

/// Parses a five-field cron expression; succeeds exactly when
/// `spec_parse_cron` gives it a meaning, and returns exactly that meaning.
pub fn parse_cron_expression(cron: &str) -> (r: Option<ParsedCron>)
    ensures
        match r {
            None => spec_parse_cron(cron@) is None,
            Some(p) => spec_parse_cron(cron@) == Some(p@),
        },
{
    let chars = chars_of(cron);
    let parts = split_whitespace_chars(&chars);
    let ghost pseqs = parts@.map_values(|p: Vec<char>| p@);
    if parts.len() != 5 {
        return None;
    }
    proof {
        assert(pseqs[0] == parts@[0]@ && pseqs[1] == parts@[1]@ && pseqs[2] == parts@[2]@
            && pseqs[3] == parts@[3]@ && pseqs[4] == parts@[4]@);
    }
    let minute = match parse_field_chars(&parts[0], 0, 59) {
        Some(f) => f,
        None => {
            return None;
        },
    };
    let hour = match parse_field_chars(&parts[1], 0, 23) {
        Some(f) => f,
        None => {
            return None;
        },
    };
    let day_of_month = match parse_field_chars(&parts[2], 1, 31) {
        Some(f) => f,
        None => {
            return None;
        },
    };
    let month = match parse_field_chars(&parts[3], 1, 12) {
        Some(f) => f,
        None => {
            return None;
        },
    };
    let day_of_week = match parse_field_chars(&parts[4], 0, 6) {
        Some(f) => f,
        None => {
            return None;
        },
    };
    let is_day_of_month_wildcard = is_star(&parts[2]);
    let is_day_of_week_wildcard = is_star(&parts[4]);
    let p = ParsedCron {
        minute,
        hour,
        day_of_month,
        month,
        day_of_week,
        is_day_of_month_wildcard,
        is_day_of_week_wildcard,
    };
    proof {
        assert(spec_parse_cron(cron@)->Some_0 =~~= p@);
    }
    Some(p)
}

// ---------------------------------------------------------------------------
// Matching
// ---------------------------------------------------------------------------

/// The day-of-month / day-of-week combination rule: both wildcards match
/// unconditionally, one wildcard defers to the other field, and two
/// restricted fields combine with OR.
pub open spec fn spec_day_matches(v: CronSpecView, t: MinuteStamp) -> bool {
    let dom = v.day_of_month.contains(t.day);
    let dow = v.day_of_week.contains(
        spec_weekday(t.year as int, t.month as int, t.day as int) as u32,
    );
    if v.dom_wildcard && v.dow_wildcard {
        true
    } else if v.dom_wildcard {
        dow
    } else if v.dow_wildcard {
        dom
    } else {
        dom || dow
    }
}

/// A cron expression matches a calendar minute when minute, hour and month
/// are all members of their sets and the day rule holds.
pub open spec fn spec_cron_matches(v: CronSpecView, t: MinuteStamp) -> bool {
    &&& v.minute.contains(t.minute)
    &&& v.hour.contains(t.hour)
    &&& v.month.contains(t.month)
    &&& spec_day_matches(v, t)
}

/// Decides whether a parsed cron expression matches the given instant.
pub fn cron_matches_now(parsed: &ParsedCron, now: &MinuteStamp) -> (r: bool)
    requires
        stamp_valid(*now),
    ensures
        r == spec_cron_matches(parsed@, *now),
{
    if !parsed.minute.set_contains(now.minute) || !parsed.hour.set_contains(now.hour)
        || !parsed.month.set_contains(now.month) {
        return false;
    }
    let dow = weekday(now);
    let dom_match = parsed.day_of_month.set_contains(now.day);
    let dow_match = parsed.day_of_week.set_contains(dow);
    if parsed.is_day_of_month_wildcard && parsed.is_day_of_week_wildcard {
        true
    } else if parsed.is_day_of_month_wildcard {
        dow_match
    } else if parsed.is_day_of_week_wildcard {
        dom_match
    } else {
        dom_match || dow_match
    }
}

// ---------------------------------------------------------------------------
// Next run
// ---------------------------------------------------------------------------

/// How far the next-run search looks: one leap year of minutes.
pub const NEXT_RUN_SEARCH_BOUND: u32 = 60 * 24 * 366;

/// The calendar minute `n` steps after `s`.
pub open spec fn spec_nth_next(s: MinuteStamp, n: nat) -> MinuteStamp
    decreases n,
{
    if n == 0 {
        s
    } else {
        crate::timepoint::spec_next_minute(spec_nth_next(s, (n - 1) as nat))
    }
}

/// Finds the first calendar minute strictly after `now` that the cron
/// expression matches, looking at most one leap year ahead; `None` when the
/// expression is invalid or nothing in that window matches.
pub fn compute_next_run_at(cron: &str, now: &MinuteStamp) -> (r: Option<MinuteStamp>)
    requires
        stamp_valid(*now),
        now.year < 4000000000,
    ensures
        match r {
            Some(t) => {
                &&& spec_parse_cron(cron@) is Some
                &&& stamp_valid(t)
                &&& exists|k: nat|
                    1 <= k <= NEXT_RUN_SEARCH_BOUND && t == spec_nth_next(*now, k)
                        && #[trigger] spec_cron_matches(
                        spec_parse_cron(cron@)->Some_0,
                        spec_nth_next(*now, k),
                    ) && forall|j: nat| 1 <= j < k ==> !spec_cron_matches(
                        spec_parse_cron(cron@)->Some_0,
                        spec_nth_next(*now, j),
                    )
            },
            None => spec_parse_cron(cron@) is None || forall|k: nat|
                1 <= k <= NEXT_RUN_SEARCH_BOUND ==> !spec_cron_matches(
                    spec_parse_cron(cron@)->Some_0,
                    #[trigger] spec_nth_next(*now, k),
                ),
        },
{
    let parsed = match parse_cron_expression(cron) {
        Some(p) => p,
        None => {
            return None;
        },
    };
    let mut cursor = crate::timepoint::next_minute(*now);
    let mut i: u32 = 0;
    proof {
        assert(spec_nth_next(*now, 0nat) == *now);
        assert(spec_nth_next(*now, 1nat) == crate::timepoint::spec_next_minute(
            spec_nth_next(*now, 0nat),
        ));
    }
    while i < NEXT_RUN_SEARCH_BOUND
        invariant
            stamp_valid(*now),
            now.year < 4000000000,
            stamp_valid(cursor),
            i <= NEXT_RUN_SEARCH_BOUND,
            cursor == spec_nth_next(*now, (i + 1) as nat),
            cursor.year <= now.year + i + 1,
            spec_parse_cron(cron@) == Some(parsed@),
            forall|j: nat| 1 <= j <= i ==> !spec_cron_matches(
                parsed@,
                #[trigger] spec_nth_next(*now, j),
            ),
        decreases NEXT_RUN_SEARCH_BOUND - i,
    {
        if cron_matches_now(&parsed, &cursor) {
            proof {
                let k = (i + 1) as nat;
                assert(1 <= k <= NEXT_RUN_SEARCH_BOUND && cursor == spec_nth_next(*now, k)
                    && spec_cron_matches(spec_parse_cron(cron@)->Some_0, spec_nth_next(*now, k)));
            }
            return Some(cursor);
        }
        cursor = crate::timepoint::next_minute(cursor);
        i = i + 1;
    }
    None
}

} // verus!
