//! Reading the command tool's stderr: stripping ANSI escapes and picking
//! the first line worth reporting, plus two small text classifiers.

use vstd::prelude::*;
use crate::text::{
    chars_of, contains_chars, contains_seq, lower_seq, starts_with_chars, starts_with_seq,
    string_from_chars, to_lower_chars, trim_chars, trim_spec,
};

verus! {

// ---------------------------------------------------------------------------
// Classifiers
// ---------------------------------------------------------------------------

/// A configuration key whose value must not be echoed: it names a secret,
/// password or token, or ends in `key`.
pub open spec fn spec_is_sensitive_key(key: Seq<char>) -> bool {
    let n = lower_seq(key);
    contains_seq(n, "secret"@) || contains_seq(n, "password"@) || contains_seq(n, "token"@)
        || crate::text::ends_with_seq(n, "key"@) || contains_seq(n, "access_key"@)
}

pub fn is_sensitive_key(key: &str) -> (r: bool)
    ensures
        r == spec_is_sensitive_key(key@),
{
    let cs = chars_of(key);
    let n = to_lower_chars(&cs);
    contains_chars(&n, &chars_of("secret")) || contains_chars(&n, &chars_of("password"))
        || contains_chars(&n, &chars_of("token")) || crate::text::ends_with_chars(
        &n,
        &chars_of("key"),
    ) || contains_chars(&n, &chars_of("access_key"))
}

/// A tool message saying the repository already exists.
pub open spec fn spec_is_already_initialized_message(message: Seq<char>) -> bool {
    let n = lower_seq(message);
    contains_seq(n, "already initialized"@) || contains_seq(n, "already exists"@)
}

pub fn is_already_initialized_message(message: &str) -> (r: bool)
    ensures
        r == spec_is_already_initialized_message(message@),
{
    let cs = chars_of(message);
    let n = to_lower_chars(&cs);
    contains_chars(&n, &chars_of("already initialized")) || contains_chars(
        &n,
        &chars_of("already exists"),
    )
}

// ---------------------------------------------------------------------------
// ANSI stripping
// ---------------------------------------------------------------------------

pub open spec fn is_ascii_alpha(c: char) -> bool {
    (65 <= c as u32 && c as u32 <= 90) || (97 <= c as u32 && c as u32 <= 122)
}

/// What remains after an ANSI control sequence: everything past the first
/// ASCII letter.
pub open spec fn skip_till_alpha(s: Seq<char>) -> Seq<char>
    decreases s.len(),
{
    if s.len() == 0 {
        s
    } else if is_ascii_alpha(s[0]) {
        s.drop_first()
    } else {
        skip_till_alpha(s.drop_first())
    }
}

proof fn lemma_skip_till_alpha_len(s: Seq<char>)
    ensures
        skip_till_alpha(s).len() <= s.len(),
    decreases s.len(),
{
    if s.len() > 0 && !is_ascii_alpha(s[0]) {
        lemma_skip_till_alpha_len(s.drop_first());
    }
}

/// The text with every `ESC [ … letter` control sequence removed; a lone
/// escape character stays as it is.
pub open spec fn strip_ansi_spec(s: Seq<char>) -> Seq<char>
    decreases s.len(),
    via strip_ansi_spec_decreases
{
    if s.len() == 0 {
        Seq::empty()
    } else if s[0] == '\u{1b}' && s.len() >= 2 && s[1] == '[' {
        strip_ansi_spec(skip_till_alpha(s.skip(2)))
    } else {
        seq![s[0]] + strip_ansi_spec(s.drop_first())
    }
}

#[via_fn]
proof fn strip_ansi_spec_decreases(s: Seq<char>) {
    if s.len() >= 2 {
        lemma_skip_till_alpha_len(s.skip(2));
    }
}

/// Removes ANSI colour/control sequences from tool output.
pub fn strip_ansi_codes(input: &str) -> (r: String)
    ensures
        r@ == strip_ansi_spec(input@),
{
    let v = chars_of(input);
    let out = strip_ansi_chars(&v);
    string_from_chars(&out)
}

fn strip_ansi_chars(v: &Vec<char>) -> (r: Vec<char>)
    ensures
        r@ == strip_ansi_spec(v@),
{
    let mut out: Vec<char> = Vec::new();
    let mut i: usize = 0;
    let n = v.len();
    proof {
        assert(v@.len() == n as int);
        assert(v@.skip(0) =~= v@);
        assert(out@ + strip_ansi_spec(v@) =~= strip_ansi_spec(v@));
    }
    while i < v.len()
        invariant
            i <= v@.len() <= usize::MAX,
            strip_ansi_spec(v@) == out@ + strip_ansi_spec(v@.skip(i as int)),
        decreases v@.len() - i,
    {
        let ghost s = v@.skip(i as int);
        proof {
            assert(s[0] == v@[i as int]);
            assert(s.drop_first() =~= v@.skip(i + 1));
        }
        let c = v[i];
        if c == '\u{1b}' && i + 1 < v.len() && v[i + 1] == '[' {
            proof {
                assert(s[1] == v@[i + 1]);
                assert(s.skip(2) =~= v@.skip(i + 2));
            }
            let mut j: usize = i + 2;
            proof {
                assert(skip_till_alpha(v@.skip(i + 2)) == skip_till_alpha(v@.skip(j as int)));
            }
            while j < v.len() && !is_alpha(v[j])
                invariant
                    i + 2 <= j <= v@.len() <= usize::MAX,
                    skip_till_alpha(v@.skip(i + 2)) == skip_till_alpha(v@.skip(j as int)),
                decreases v@.len() - j,
            {
                proof {
                    assert(v@.skip(j as int)[0] == v@[j as int]);
                    assert(v@.skip(j as int).drop_first() =~= v@.skip(j + 1));
                }
                j = j + 1;
            }
            if j < v.len() {
                proof {
                    assert(v@.skip(j as int)[0] == v@[j as int]);
                    assert(v@.skip(j as int).drop_first() =~= v@.skip(j + 1));
                    assert(skip_till_alpha(v@.skip(j as int)) == v@.skip(j + 1));
                }
                i = j + 1;
            } else {
                proof {
                    assert(v@.skip(j as int) =~= Seq::<char>::empty());
                    assert(skip_till_alpha(v@.skip(j as int)) =~= Seq::<char>::empty());
                }
                i = j;
            }
        } else {
            let ghost pre = out@;
            out.push(c);
            proof {
                assert(out@ =~= pre.push(c));
                assert(pre + (seq![c] + strip_ansi_spec(v@.skip(i + 1))) =~= pre.push(c)
                    + strip_ansi_spec(v@.skip(i + 1)));
            }
            i = i + 1;
        }
    }
    proof {
        assert(v@.skip(i as int) =~= Seq::<char>::empty());
        assert(strip_ansi_spec(Seq::<char>::empty()) =~= Seq::<char>::empty());
        assert(out@ + Seq::<char>::empty() =~= out@);
    }
    out
}

pub fn is_alpha(c: char) -> (r: bool)
    ensures
        r == is_ascii_alpha(c),
{
    let u = c as u32;
    (65 <= u && u <= 90) || (97 <= u && u <= 122)
}

// ---------------------------------------------------------------------------
// Lines
// ---------------------------------------------------------------------------

pub open spec fn strip_cr(l: Seq<char>) -> Seq<char> {
    if l.len() > 0 && l.last() == '\r' {
        l.drop_last()
    } else {
        l
    }
}

/// The lines of a text, split at newlines, carriage returns before them
/// removed, and without a final empty line, as `str::lines` reads it.
pub open spec fn lines_acc(s: Seq<char>, cur: Seq<char>) -> Seq<Seq<char>>
    decreases s.len(),
{
    if s.len() == 0 {
        if cur.len() > 0 {
            seq![strip_cr(cur)]
        } else {
            Seq::empty()
        }
    } else if s[0] == '\n' {
        seq![strip_cr(cur)] + lines_acc(s.drop_first(), Seq::empty())
    } else {
        lines_acc(s.drop_first(), cur.push(s[0]))
    }
}

pub open spec fn lines_spec(s: Seq<char>) -> Seq<Seq<char>> {
    lines_acc(s, Seq::empty())
}

fn strip_cr_chars(l: Vec<char>) -> (r: Vec<char>)
    ensures
        r@ == strip_cr(l@),
{
    let mut l = l;
    let ghost orig = l@;
    if l.len() > 0 && l[l.len() - 1] == '\r' {
        l.pop();
        proof {
            assert(l@ =~= strip_cr(orig));
        }
    }
    l
}

fn split_lines(v: &Vec<char>) -> (r: Vec<Vec<char>>)
    ensures
        r@.map_values(|p: Vec<char>| p@) == lines_spec(v@),
{
    let mut r: Vec<Vec<char>> = Vec::new();
    let mut cur: Vec<char> = Vec::new();
    let mut i: usize = 0;
    let n = v.len();
    proof {
        assert(v@.len() == n as int);
        assert(v@.skip(0) =~= v@);
        assert(cur@ =~= Seq::<char>::empty());
        assert(r@.map_values(|p: Vec<char>| p@) + lines_acc(v@, cur@) =~= lines_acc(v@, cur@));
    }
    while i < v.len()
        invariant
            i <= v@.len() <= usize::MAX,
            lines_spec(v@) == r@.map_values(|p: Vec<char>| p@) + lines_acc(
                v@.skip(i as int),
                cur@,
            ),
        decreases v@.len() - i,
    {
        proof {
            assert(v@.skip(i as int)[0] == v@[i as int]);
            assert(v@.skip(i as int).drop_first() =~= v@.skip(i + 1));
        }
        let ghost pre = r@.map_values(|p: Vec<char>| p@);
        let ghost rest = lines_acc(v@.skip(i + 1), Seq::empty());
        if v[i] == '\n' {
            let done = strip_cr_chars(cur);
            cur = Vec::new();
            let ghost dv = done@;
            r.push(done);
            proof {
                assert(r@.map_values(|p: Vec<char>| p@) =~= pre.push(dv));
                assert(pre + (seq![dv] + rest) =~= pre.push(dv) + rest);
                assert(cur@ =~= Seq::<char>::empty());
            }
        } else {
            cur.push(v[i]);
        }
        i = i + 1;
    }
    proof {
        assert(v@.skip(i as int) =~= Seq::<char>::empty());
    }
    if cur.len() > 0 {
        let done = strip_cr_chars(cur);
        let ghost pre = r@.map_values(|p: Vec<char>| p@);
        let ghost dv = done@;
        r.push(done);
        proof {
            assert(r@.map_values(|p: Vec<char>| p@) =~= pre.push(dv));
            assert(pre + seq![dv] =~= pre.push(dv));
        }
    } else {
        proof {
            assert(cur@ =~= Seq::<char>::empty());
            assert(r@.map_values(|p: Vec<char>| p@) + Seq::<Seq<char>>::empty() =~= r@.map_values(
                |p: Vec<char>| p@,
            ));
        }
    }
    r
}

// ---------------------------------------------------------------------------
// The first useful error line
// ---------------------------------------------------------------------------

/// The stderr lines worth looking at: ANSI sequences stripped, both ends
/// trimmed, empty lines dropped.
pub open spec fn cleaned_lines(ls: Seq<Seq<char>>) -> Seq<Seq<char>>
    decreases ls.len(),
{
    if ls.len() == 0 {
        Seq::empty()
    } else {
        let h = trim_spec(strip_ansi_spec(ls[0]));
        (if h.len() > 0 {
            seq![h]
        } else {
            Seq::empty()
        }) + cleaned_lines(ls.drop_first())
    }
}

pub open spec fn is_message_marker(l: Seq<char>) -> bool {
    lower_seq(l) == "message:"@
}

/// A line that can stand as the detail after a `message:` marker.
pub open spec fn good_detail(l: Seq<char>) -> bool {
    &&& !starts_with_seq(lower_seq(l), "some additional details"@)
    &&& !starts_with_seq(lower_seq(l), "backtrace"@)
}

pub open spec fn first_good_detail(ls: Seq<Seq<char>>) -> Option<Seq<char>>
    decreases ls.len(),
{
    if ls.len() == 0 {
        None
    } else if good_detail(ls[0]) {
        Some(ls[0])
    } else {
        first_good_detail(ls.drop_first())
    }
}

/// First pass: the detail line following a lone `message:` marker.
pub open spec fn marker_detail(ls: Seq<Seq<char>>) -> Option<Seq<char>>
    decreases ls.len(),
{
    if ls.len() == 0 {
        None
    } else if is_message_marker(ls[0]) {
        match first_good_detail(ls.drop_first()) {
            Some(l) => Some(l),
            None => marker_detail(ls.drop_first()),
        }
    } else {
        marker_detail(ls.drop_first())
    }
}

/// Second pass: a line of the form `message: …` with something after the
/// marker.
pub open spec fn inline_message(ls: Seq<Seq<char>>) -> Option<Seq<char>>
    decreases ls.len(),
{
    if ls.len() == 0 {
        None
    } else {
        let l = ls[0];
        if starts_with_seq(lower_seq(l), "message:"@) && l.len() > 8 && trim_spec(
            l.skip(8),
        ).len() > 0 {
            Some(trim_spec(l.skip(8)))
        } else {
            inline_message(ls.drop_first())
        }
    }
}

/// Third pass: the first line that is not informational chatter.
pub open spec fn non_info_line(ls: Seq<Seq<char>>) -> Option<Seq<char>>
    decreases ls.len(),
{
    if ls.len() == 0 {
        None
    } else if !contains_seq(lower_seq(ls[0]), "[info]"@) && !starts_with_seq(
        lower_seq(ls[0]),
        "info:"@,
    ) {
        Some(ls[0])
    } else {
        non_info_line(ls.drop_first())
    }
}

/// What `first_useful_error_line` promises: the detail after a `message:`
/// marker if any, else the text of an inline `message: …` line, else the
/// first non-informational line.
pub open spec fn spec_first_useful_error_line(s: Seq<char>) -> Option<Seq<char>> {
    let ls = cleaned_lines(lines_spec(s));
    if ls.len() == 0 {
        None
    } else {
        match marker_detail(ls) {
            Some(l) => Some(l),
            None => match inline_message(ls) {
                Some(m) => Some(m),
                None => non_info_line(ls),
            },
        }
    }
}

fn lower_eq_lit(l: &Vec<char>, lit: &str) -> (r: bool)
    ensures
        r == (lower_seq(l@) == lit@),
{
    let low = to_lower_chars(l);
    crate::text::chars_eq(&low, &chars_of(lit))
}

fn lower_starts_with_lit(l: &Vec<char>, lit: &str) -> (r: bool)
    ensures
        r == starts_with_seq(lower_seq(l@), lit@),
{
    let low = to_lower_chars(l);
    starts_with_chars(&low, &chars_of(lit))
}

fn lower_contains_lit(l: &Vec<char>, lit: &str) -> (r: bool)
    ensures
        r == contains_seq(lower_seq(l@), lit@),
{
    let low = to_lower_chars(l);
    contains_chars(&low, &chars_of(lit))
}

fn is_good_detail(l: &Vec<char>) -> (r: bool)
    ensures
        r == good_detail(l@),
{
    !lower_starts_with_lit(l, "some additional details") && !lower_starts_with_lit(l, "backtrace")
}

/// Picks the first line of a tool's stderr worth putting in a report, or
/// nothing when every line is blank or informational.
pub fn first_useful_error_line(stderr: &str) -> (r: Option<String>)
    ensures
        match r {
            Some(l) => spec_first_useful_error_line(stderr@) == Some(l@),
            None => spec_first_useful_error_line(stderr@) is None,
        },
{
    let v = chars_of(stderr);
    let raw_lines = split_lines(&v);
    let ghost rls = raw_lines@.map_values(|p: Vec<char>| p@);
    let mut lines: Vec<Vec<char>> = Vec::new();
    let mut i: usize = 0;
    let n0 = raw_lines.len();
    proof {
        assert(rls.len() == n0 as int);
        assert(rls.skip(0) =~= rls);
        assert(lines@.map_values(|p: Vec<char>| p@) =~= Seq::<Seq<char>>::empty());
        assert(lines@.map_values(|p: Vec<char>| p@) + cleaned_lines(rls) =~= cleaned_lines(rls));
    }
    while i < raw_lines.len()
        invariant
            i <= raw_lines@.len() <= usize::MAX,
            rls == raw_lines@.map_values(|p: Vec<char>| p@),
            cleaned_lines(rls) == lines@.map_values(|p: Vec<char>| p@) + cleaned_lines(
                rls.skip(i as int),
            ),
        decreases raw_lines@.len() - i,
    {
        proof {
            assert(rls.skip(i as int)[0] == rls[i as int]);
            assert(rls[i as int] == raw_lines@[i as int]@);
            assert(rls.skip(i as int).drop_first() =~= rls.skip(i + 1));
        }
        let stripped = strip_ansi_chars(&raw_lines[i]);
        let t = trim_chars(&stripped);
        let ghost pre = lines@.map_values(|p: Vec<char>| p@);
        if t.len() > 0 {
            let ghost tv = t@;
            lines.push(t);
            proof {
                assert(lines@.map_values(|p: Vec<char>| p@) =~= pre.push(tv));
                assert(pre + (seq![tv] + cleaned_lines(rls.skip(i + 1))) =~= pre.push(tv)
                    + cleaned_lines(rls.skip(i + 1)));
            }
        }
        i = i + 1;
    }
    proof {
        assert(rls.skip(i as int) =~= Seq::<Seq<char>>::empty());
        assert(lines@.map_values(|p: Vec<char>| p@) + Seq::<Seq<char>>::empty() =~= lines@
            .map_values(|p: Vec<char>| p@));
    }
    let ghost ls = lines@.map_values(|p: Vec<char>| p@);
    let ghost whole = stderr@;
    if lines.len() == 0 {
        return None;
    }
    let nl = lines.len();
    proof {
        assert(ls.len() == nl as int);
        assert(ls.skip(0) =~= ls);
    }
    // First pass: a detail line after a lone `message:` marker.
    let mut a: usize = 0;
    while a < lines.len()
        invariant
            whole == stderr@,
            cleaned_lines(lines_spec(whole)) == ls,
            1 <= ls.len(),
            a <= lines@.len() <= usize::MAX,
            ls == lines@.map_values(|p: Vec<char>| p@),
            marker_detail(ls) == marker_detail(ls.skip(a as int)),
        decreases lines@.len() - a,
    {
        proof {
            assert(ls.skip(a as int)[0] == ls[a as int]);
            assert(ls[a as int] == lines@[a as int]@);
            assert(ls.skip(a as int).drop_first() =~= ls.skip(a + 1));
        }
        if lower_eq_lit(&lines[a], "message:") {
            let mut b: usize = a + 1;
            proof {
                assert(first_good_detail(ls.skip(a + 1)) == first_good_detail(
                    ls.skip(b as int),
                ));
            }
            while b < lines.len()
                invariant
                    whole == stderr@,
                    cleaned_lines(lines_spec(whole)) == ls,
                    1 <= ls.len(),
                    a < b <= lines@.len() <= usize::MAX,
                    ls == lines@.map_values(|p: Vec<char>| p@),
                    is_message_marker(ls[a as int]),
                    marker_detail(ls) == marker_detail(ls.skip(a as int)),
                    first_good_detail(ls.skip(a + 1)) == first_good_detail(ls.skip(b as int)),
                decreases lines@.len() - b,
            {
                proof {
                    assert(ls.skip(b as int)[0] == ls[b as int]);
                    assert(ls[b as int] == lines@[b as int]@);
                    assert(ls.skip(b as int).drop_first() =~= ls.skip(b + 1));
                }
                if is_good_detail(&lines[b]) {
                    let out = string_from_chars(&lines[b]);
                    proof {
                        assert(first_good_detail(ls.skip(b as int)) == Some(ls[b as int]));
                        assert(ls.skip(a as int)[0] == ls[a as int]);
                        assert(ls.skip(a as int).drop_first() =~= ls.skip(a + 1));
                        assert(marker_detail(ls.skip(a as int)) == Some(ls[b as int]));
                        assert(spec_first_useful_error_line(whole) == Some(ls[b as int]));
                    }
                    return Some(out);
                }
                b = b + 1;
            }
            proof {
                assert(ls.skip(b as int) =~= Seq::<Seq<char>>::empty());
                assert(first_good_detail(ls.skip(a + 1)) is None);
            }
        }
        a = a + 1;
    }
    proof {
        assert(ls.skip(a as int) =~= Seq::<Seq<char>>::empty());
        assert(marker_detail(ls) is None);
    }
    // Second pass: an inline `message: …` line.
    let mut a: usize = 0;
    proof {
        assert(inline_message(ls) == inline_message(ls.skip(0)));
    }
    while a < lines.len()
        invariant
            whole == stderr@,
            cleaned_lines(lines_spec(whole)) == ls,
            1 <= ls.len(),
            marker_detail(ls) is None,
            a <= lines@.len() <= usize::MAX,
            ls == lines@.map_values(|p: Vec<char>| p@),
            inline_message(ls) == inline_message(ls.skip(a as int)),
        decreases lines@.len() - a,
    {
        proof {
            assert(ls.skip(a as int)[0] == ls[a as int]);
            assert(ls[a as int] == lines@[a as int]@);
            assert(ls.skip(a as int).drop_first() =~= ls.skip(a + 1));
        }
        if lower_starts_with_lit(&lines[a], "message:") && lines[a].len() > 8 {
            let line = &lines[a];
            let mut tail: Vec<char> = Vec::new();
            let mut k: usize = 8;
            proof {
                assert(tail@ =~= line@.skip(8).take(0));
            }
            while k < line.len()
                invariant
                    8 <= k <= line@.len() <= usize::MAX,
                    tail@ == line@.skip(8).take(k - 8),
                decreases line@.len() - k,
            {
                tail.push(line[k]);
                k = k + 1;
                proof {
                    assert(tail@ =~= line@.skip(8).take(k - 8));
                }
            }
            proof {
                assert(line@.skip(8).take(line@.len() - 8) =~= line@.skip(8));
            }
            let message = trim_chars(&tail);
            if message.len() > 0 {
                let out = string_from_chars(&message);
                proof {
                    assert(inline_message(ls.skip(a as int)) == Some(trim_spec(
                        lines@[a as int]@.skip(8),
                    )));
                    assert(spec_first_useful_error_line(whole) == Some(message@));
                }
                return Some(out);
            }
        }
        a = a + 1;
    }
    proof {
        assert(ls.skip(a as int) =~= Seq::<Seq<char>>::empty());
        assert(inline_message(ls) is None);
    }
    // Third pass: the first non-informational line.
    let mut a: usize = 0;
    proof {
        assert(non_info_line(ls) == non_info_line(ls.skip(0)));
    }
    while a < lines.len()
        invariant
            whole == stderr@,
            cleaned_lines(lines_spec(whole)) == ls,
            1 <= ls.len(),
            marker_detail(ls) is None,
            inline_message(ls) is None,
            a <= lines@.len() <= usize::MAX,
            ls == lines@.map_values(|p: Vec<char>| p@),
            non_info_line(ls) == non_info_line(ls.skip(a as int)),
        decreases lines@.len() - a,
    {
        proof {
            assert(ls.skip(a as int)[0] == ls[a as int]);
            assert(ls[a as int] == lines@[a as int]@);
            assert(ls.skip(a as int).drop_first() =~= ls.skip(a + 1));
        }
        if !lower_contains_lit(&lines[a], "[info]") && !lower_starts_with_lit(&lines[a], "info:") {
            let out = string_from_chars(&lines[a]);
            proof {
                assert(non_info_line(ls.skip(a as int)) == Some(ls[a as int]));
                assert(spec_first_useful_error_line(whole) == Some(ls[a as int]));
            }
            return Some(out);
        }
        a = a + 1;
    }
    proof {
        assert(ls.skip(a as int) =~= Seq::<Seq<char>>::empty());
        assert(non_info_line(ls) is None);
    }
    None
}

} // verus!
