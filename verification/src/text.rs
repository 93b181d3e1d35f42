//! Verified character-sequence utilities: the string toolkit that the cron
//! parser, the error-line extraction and the persistence codec build on.
//!
//! Executable code works on `Vec<char>`; the corresponding spec functions
//! describe the results over `Seq<char>`.

use vstd::prelude::*;
use vstd::string::StrSliceExecFns;

verus! {

// ---------------------------------------------------------------------------
// Character classes
// ---------------------------------------------------------------------------

/// Whitespace as this library understands it: the ASCII blank characters.
pub open spec fn is_space_char(c: char) -> bool {
    c == ' ' || c == '\t' || c == '\n' || c == '\r' || c == '\u{b}' || c == '\u{c}'
}

pub fn is_space(c: char) -> (r: bool)
    ensures
        r == is_space_char(c),
{
    c == ' ' || c == '\t' || c == '\n' || c == '\r' || c == '\u{b}' || c == '\u{c}'
}

pub open spec fn is_digit_char(c: char) -> bool {
    48 <= c as u32 && c as u32 <= 57
}

pub fn is_digit(c: char) -> (r: bool)
    ensures
        r == is_digit_char(c),
{
    let u = c as u32;
    48 <= u && u <= 57
}

/// Numeric value of a decimal digit character.
pub open spec fn digit_val(c: char) -> int {
    c as u32 - 48
}

// ---------------------------------------------------------------------------
// Conversions between `str`/`String` and `Vec<char>`
// ---------------------------------------------------------------------------

/// Collects the characters of a string slice into a vector.
pub fn chars_of(s: &str) -> (r: Vec<char>)
    ensures
        r@ == s@,
{
    let n = s.unicode_len();
    let mut r: Vec<char> = Vec::new();
    let mut i: usize = 0;
    while i < n
        invariant
            n == s@.len(),
            i <= n,
            r@ == s@.subrange(0, i as int),
        decreases n - i,
    {
        let c = s.get_char(i);
        r.push(c);
        i = i + 1;
        proof {
            assert(r@ =~= s@.subrange(0, i as int));
        }
    }
    proof {
        assert(r@ =~= s@);
    }
    r
}

/// Relies on `String: FromIterator<char>`: collecting an iterator of
/// characters yields the string of exactly those characters in order.
#[verifier::external_body]
pub(crate) fn string_from_chars(v: &Vec<char>) -> (r: String)
    ensures
        r@ == v@,
{
    v.iter().collect()
}

// ---------------------------------------------------------------------------
// ASCII lowercasing
// ---------------------------------------------------------------------------

/// ASCII lowercasing of a single character; every other character is kept.
pub open spec fn lower_char(c: char) -> char {
    if 65 <= c as u32 && c as u32 <= 90 {
        (((c as u32) as u8) + 32) as char
    } else {
        c
    }
}

pub open spec fn lower_seq(s: Seq<char>) -> Seq<char> {
    s.map_values(|c: char| lower_char(c))
}

pub fn lower(c: char) -> (r: char)
    ensures
        r == lower_char(c),
{
    let u = c as u32;
    if 65 <= u && u <= 90 {
        ((u as u8) + 32) as char
    } else {
        c
    }
}

/// ASCII-lowercases every character of a vector.
pub fn to_lower_chars(v: &Vec<char>) -> (r: Vec<char>)
    ensures
        r@ == lower_seq(v@),
{
    let mut r: Vec<char> = Vec::new();
    let mut i: usize = 0;
    while i < v.len()
        invariant
            i <= v.len(),
            r@ == lower_seq(v@.subrange(0, i as int)),
        decreases v.len() - i,
    {
        r.push(lower(v[i]));
        i = i + 1;
        proof {
            assert(r@ =~= lower_seq(v@.subrange(0, i as int)));
        }
    }
    proof {
        assert(r@ =~= lower_seq(v@));
    }
    r
}

// ---------------------------------------------------------------------------
// Equality, prefixes, suffixes, containment
// ---------------------------------------------------------------------------

pub fn chars_eq(a: &Vec<char>, b: &Vec<char>) -> (r: bool)
    ensures
        r == (a@ == b@),
{
    if a.len() != b.len() {
        return false;
    }
    let mut i: usize = 0;
    while i < a.len()
        invariant
            a.len() == b.len(),
            i <= a.len(),
            forall|j: int| 0 <= j < i ==> a@[j] == b@[j],
        decreases a.len() - i,
    {
        if a[i] != b[i] {
            return false;
        }
        i = i + 1;
    }
    proof {
        assert(a@ =~= b@);
    }
    true
}

pub open spec fn starts_with_seq(h: Seq<char>, n: Seq<char>) -> bool {
    h.len() >= n.len() && h.subrange(0, n.len() as int) == n
}

pub fn starts_with_chars(h: &Vec<char>, n: &Vec<char>) -> (r: bool)
    ensures
        r == starts_with_seq(h@, n@),
{
    if h.len() < n.len() {
        return false;
    }
    let mut i: usize = 0;
    while i < n.len()
        invariant
            n.len() <= h.len(),
            i <= n.len(),
            forall|j: int| 0 <= j < i ==> h@[j] == n@[j],
        decreases n.len() - i,
    {
        if h[i] != n[i] {
            proof {
                assert(h@.subrange(0, n@.len() as int)[i as int] != n@[i as int]);
            }
            return false;
        }
        i = i + 1;
    }
    proof {
        assert(h@.subrange(0, n@.len() as int) =~= n@);
    }
    true
}

pub open spec fn ends_with_seq(h: Seq<char>, n: Seq<char>) -> bool {
    h.len() >= n.len() && h.subrange(h.len() - n.len(), h.len() as int) == n
}

pub fn ends_with_chars(h: &Vec<char>, n: &Vec<char>) -> (r: bool)
    ensures
        r == ends_with_seq(h@, n@),
{
    if h.len() < n.len() {
        return false;
    }
    let off: usize = h.len() - n.len();
    let mut i: usize = 0;
    while i < n.len()
        invariant
            n.len() <= h.len(),
            off == h.len() - n.len(),
            i <= n.len(),
            forall|j: int| 0 <= j < i ==> h@[off + j] == n@[j],
        decreases n.len() - i,
    {
        if h[off + i] != n[i] {
            proof {
                assert(h@.subrange(h@.len() - n@.len(), h@.len() as int)[i as int]
                    != n@[i as int]);
            }
            return false;
        }
        i = i + 1;
    }
    proof {
        assert(h@.subrange(h@.len() - n@.len(), h@.len() as int) =~= n@);
    }
    true
}

/// The needle occurs in the haystack starting at position `i`.
pub open spec fn contains_at(h: Seq<char>, n: Seq<char>, i: int) -> bool {
    0 <= i && i + n.len() <= h.len() && h.subrange(i, i + n.len()) == n
}

/// Substring containment, as `str::contains` decides it for string needles.
pub open spec fn contains_seq(h: Seq<char>, n: Seq<char>) -> bool {
    exists|i: int| contains_at(h, n, i)
}

pub fn contains_chars(h: &Vec<char>, n: &Vec<char>) -> (r: bool)
    ensures
        r == contains_seq(h@, n@),
{
    if n.len() > h.len() {
        return false;
    }
    let last: usize = h.len() - n.len();
    let mut i: usize = 0;
    while i <= last
        invariant
            n.len() <= h.len(),
            last == h.len() - n.len(),
            i <= last + 1,
            forall|k: int| 0 <= k < i ==> !contains_at(h@, n@, k),
        decreases last + 1 - i,
    {
        let mut j: usize = 0;
        let mut all_eq = true;
        while j < n.len()
            invariant
                n.len() <= h.len(),
                i + n.len() <= h.len(),
                j <= n.len(),
                all_eq <==> (forall|t: int| 0 <= t < j ==> h@[i + t] == n@[t]),
            decreases n.len() - j,
        {
            if h[i + j] != n[j] {
                all_eq = false;
                proof {
                    assert(h@[i + j] != n@[j as int]);
                }
                j = n.len();
            } else {
                j = j + 1;
            }
        }
        if all_eq {
            proof {
                assert(h@.subrange(i as int, i + n@.len()) =~= n@);
                assert(contains_at(h@, n@, i as int));
            }
            return true;
        }
        proof {
            let w = choose|t: int| 0 <= t < n@.len() && h@[i + t] != n@[t];
            assert(h@.subrange(i as int, i + n@.len())[w] != n@[w]);
            assert(!contains_at(h@, n@, i as int));
        }
        i = i + 1;
    }
    proof {
        assert forall|k: int| contains_at(h@, n@, k) implies false by {
            assert(0 <= k <= h@.len() - n@.len());
        }
    }
    false
}

// ---------------------------------------------------------------------------
// Trimming
// ---------------------------------------------------------------------------

pub open spec fn trim_start_spec(s: Seq<char>) -> Seq<char>
    decreases s.len(),
{
    if s.len() > 0 && is_space_char(s[0]) {
        trim_start_spec(s.drop_first())
    } else {
        s
    }
}

pub open spec fn trim_end_spec(s: Seq<char>) -> Seq<char>
    decreases s.len(),
{
    if s.len() > 0 && is_space_char(s.last()) {
        trim_end_spec(s.drop_last())
    } else {
        s
    }
}

/// Both-ends trimming, as `str::trim` does for blank characters.
pub open spec fn trim_spec(s: Seq<char>) -> Seq<char> {
    trim_end_spec(trim_start_spec(s))
}

proof fn lemma_trim_start_at(s: Seq<char>, a: int)
    requires
        0 <= a <= s.len(),
        forall|j: int| 0 <= j < a ==> is_space_char(s[j]),
        a < s.len() ==> !is_space_char(s[a]),
    ensures
        trim_start_spec(s) == s.subrange(a, s.len() as int),
    decreases a,
{
    if a == 0 {
        if s.len() == 0 || !is_space_char(s[0]) {
            assert(s.subrange(0, s.len() as int) =~= s);
        }
    } else {
        lemma_trim_start_at(s.drop_first(), a - 1);
        assert(s.drop_first().subrange(a - 1, s.drop_first().len() as int) =~= s.subrange(
            a,
            s.len() as int,
        ));
    }
}

proof fn lemma_trim_end_at(s: Seq<char>, b: int)
    requires
        0 <= b <= s.len(),
        forall|j: int| b <= j < s.len() ==> is_space_char(s[j]),
        b > 0 ==> !is_space_char(s[b - 1]),
    ensures
        trim_end_spec(s) == s.subrange(0, b),
    decreases s.len() - b,
{
    if b == s.len() {
        if s.len() == 0 || !is_space_char(s.last()) {
            assert(s.subrange(0, s.len() as int) =~= s);
        } else {
            assert(false);
        }
    } else {
        assert(is_space_char(s.last()));
        lemma_trim_end_at(s.drop_last(), b);
        assert(s.drop_last().subrange(0, b) =~= s.subrange(0, b));
    }
}

/// Removes leading and trailing blank characters.
pub fn trim_chars(v: &Vec<char>) -> (r: Vec<char>)
    ensures
        r@ == trim_spec(v@),
{
    let mut a: usize = 0;
    while a < v.len() && is_space(v[a])
        invariant
            a <= v.len(),
            forall|j: int| 0 <= j < a ==> is_space_char(v@[j]),
        decreases v.len() - a,
    {
        a = a + 1;
    }
    proof {
        lemma_trim_start_at(v@, a as int);
    }
    let mut b: usize = v.len();
    while b > a && is_space(v[b - 1])
        invariant
            a <= b <= v.len(),
            forall|j: int| b <= j < v.len() ==> is_space_char(v@[j]),
        decreases b,
    {
        b = b - 1;
    }
    proof {
        let t = trim_start_spec(v@);
        assert(t == v@.subrange(a as int, v@.len() as int));
        assert forall|j: int| (b - a) <= j < t.len() implies is_space_char(t[j]) by {
            assert(t[j] == v@[a + j]);
        }
        if b > a {
            assert(t[b - a - 1] == v@[b - 1]);
        }
        lemma_trim_end_at(t, b - a);
    }
    let mut r: Vec<char> = Vec::new();
    let mut i: usize = a;
    while i < b
        invariant
            a <= i <= b <= v.len(),
            r@ == v@.subrange(a as int, i as int),
        decreases b - i,
    {
        r.push(v[i]);
        i = i + 1;
        proof {
            assert(r@ =~= v@.subrange(a as int, i as int));
        }
    }
    proof {
        assert(v@.subrange(a as int, v@.len() as int).subrange(0, b - a) =~= v@.subrange(
            a as int,
            b as int,
        ));
    }
    r
}

// ---------------------------------------------------------------------------
// Splitting
// ---------------------------------------------------------------------------

/// Splitting on a separator character, keeping empty pieces, as
/// `str::split` does for a character pattern.
pub open spec fn split_acc(s: Seq<char>, sep: char, cur: Seq<char>) -> Seq<Seq<char>>
    decreases s.len(),
{
    if s.len() == 0 {
        seq![cur]
    } else if s[0] == sep {
        seq![cur] + split_acc(s.drop_first(), sep, Seq::empty())
    } else {
        split_acc(s.drop_first(), sep, cur.push(s[0]))
    }
}

pub open spec fn split_spec(s: Seq<char>, sep: char) -> Seq<Seq<char>> {
    split_acc(s, sep, Seq::empty())
}

pub fn split_chars(v: &Vec<char>, sep: char) -> (r: Vec<Vec<char>>)
    ensures
        r@.map_values(|p: Vec<char>| p@) == split_spec(v@, sep),
{
    let mut r: Vec<Vec<char>> = Vec::new();
    let mut cur: Vec<char> = Vec::new();
    let mut i: usize = 0;
    proof {
        assert(v@.subrange(0, v@.len() as int) =~= v@);
        assert(r@.map_values(|p: Vec<char>| p@) + split_acc(v@, sep, cur@) =~= split_acc(
            v@,
            sep,
            cur@,
        ));
        assert(cur@ =~= Seq::<char>::empty());
    }
    while i < v.len()
        invariant
            i <= v.len(),
            split_spec(v@, sep) == r@.map_values(|p: Vec<char>| p@) + split_acc(
                v@.subrange(i as int, v@.len() as int),
                sep,
                cur@,
            ),
        decreases v.len() - i,
    {
        proof {
            assert(v@.subrange(i as int, v@.len() as int).drop_first() =~= v@.subrange(
                i + 1,
                v@.len() as int,
            ));
            assert(v@.subrange(i as int, v@.len() as int)[0] == v@[i as int]);
        }
        let ghost pre = r@.map_values(|p: Vec<char>| p@);
        let ghost rest = split_acc(v@.subrange(i + 1, v@.len() as int), sep, Seq::empty());
        if v[i] == sep {
            let done = cur;
            cur = Vec::new();
            r.push(done);
            proof {
                assert(r@.drop_last() =~= r@.subrange(0, r@.len() - 1));
                assert(r@.map_values(|p: Vec<char>| p@) =~= pre.push(done@));
                assert(pre + (seq![done@] + rest) =~= pre.push(done@) + rest);
                assert(cur@ =~= Seq::<char>::empty());
            }
        } else {
            cur.push(v[i]);
        }
        i = i + 1;
    }
    proof {
        assert(v@.subrange(i as int, v@.len() as int) =~= Seq::<char>::empty());
    }
    let ghost pre = r@.map_values(|p: Vec<char>| p@);
    let ghost done = cur@;
    r.push(cur);
    proof {
        assert(r@.map_values(|p: Vec<char>| p@) =~= pre.push(done));
        assert(pre + seq![done] =~= pre.push(done));
    }
    r
}

/// Splitting at the first occurrence of a separator, as `str::split_once`.
pub open spec fn split_once_spec(s: Seq<char>, sep: char) -> Option<(Seq<char>, Seq<char>)>
    decreases s.len(),
{
    if s.len() == 0 {
        None
    } else if s[0] == sep {
        Some((Seq::empty(), s.drop_first()))
    } else {
        match split_once_spec(s.drop_first(), sep) {
            None => None,
            Some((a, b)) => Some((seq![s[0]] + a, b)),
        }
    }
}

proof fn lemma_split_once_found(s: Seq<char>, sep: char, i: int)
    requires
        0 <= i < s.len(),
        s[i] == sep,
        forall|j: int| 0 <= j < i ==> s[j] != sep,
    ensures
        split_once_spec(s, sep) == Some(
            (s.subrange(0, i), s.subrange(i + 1, s.len() as int)),
        ),
    decreases i,
{
    if i == 0 {
        assert(s.subrange(0, 0) =~= Seq::<char>::empty());
        assert(s.subrange(1, s.len() as int) =~= s.drop_first());
    } else {
        let t = s.drop_first();
        lemma_split_once_found(t, sep, i - 1);
        assert(seq![s[0]] + t.subrange(0, i - 1) =~= s.subrange(0, i));
        assert(t.subrange(i, t.len() as int) =~= s.subrange(i + 1, s.len() as int));
    }
}

proof fn lemma_split_once_absent(s: Seq<char>, sep: char)
    requires
        forall|j: int| 0 <= j < s.len() ==> s[j] != sep,
    ensures
        split_once_spec(s, sep) is None,
    decreases s.len(),
{
    if s.len() > 0 {
        lemma_split_once_absent(s.drop_first(), sep);
    }
}

pub fn split_once_chars(v: &Vec<char>, sep: char) -> (r: Option<(Vec<char>, Vec<char>)>)
    ensures
        match r {
            None => split_once_spec(v@, sep) is None,
            Some((a, b)) => split_once_spec(v@, sep) == Some((a@, b@)),
        },
{
    let mut i: usize = 0;
    while i < v.len()
        invariant
            i <= v.len(),
            forall|j: int| 0 <= j < i ==> v@[j] != sep,
        decreases v.len() - i,
    {
        if v[i] == sep {
            let mut a: Vec<char> = Vec::new();
            let mut k: usize = 0;
            while k < i
                invariant
                    k <= i < v.len(),
                    a@ == v@.subrange(0, k as int),
                decreases i - k,
            {
                a.push(v[k]);
                k = k + 1;
                proof {
                    assert(a@ =~= v@.subrange(0, k as int));
                }
            }
            let mut b: Vec<char> = Vec::new();
            let mut t: usize = i + 1;
            while t < v.len()
                invariant
                    i < t <= v.len(),
                    b@ == v@.subrange(i + 1, t as int),
                decreases v.len() - t,
            {
                b.push(v[t]);
                t = t + 1;
                proof {
                    assert(b@ =~= v@.subrange(i + 1, t as int));
                }
            }
            proof {
                lemma_split_once_found(v@, sep, i as int);
            }
            return Some((a, b));
        }
        i = i + 1;
    }
    proof {
        lemma_split_once_absent(v@, sep);
    }
    None
}

/// Splitting on runs of blanks, dropping empty pieces, as
/// `str::split_whitespace` does over this library's blank set.
pub open spec fn split_ws_acc(s: Seq<char>, cur: Seq<char>) -> Seq<Seq<char>>
    decreases s.len(),
{
    if s.len() == 0 {
        if cur.len() > 0 {
            seq![cur]
        } else {
            Seq::empty()
        }
    } else if is_space_char(s[0]) {
        if cur.len() > 0 {
            seq![cur] + split_ws_acc(s.drop_first(), Seq::empty())
        } else {
            split_ws_acc(s.drop_first(), Seq::empty())
        }
    } else {
        split_ws_acc(s.drop_first(), cur.push(s[0]))
    }
}

pub open spec fn split_whitespace_spec(s: Seq<char>) -> Seq<Seq<char>> {
    split_ws_acc(s, Seq::empty())
}

pub fn split_whitespace_chars(v: &Vec<char>) -> (r: Vec<Vec<char>>)
    ensures
        r@.map_values(|p: Vec<char>| p@) == split_whitespace_spec(v@),
{
    let mut r: Vec<Vec<char>> = Vec::new();
    let mut cur: Vec<char> = Vec::new();
    let mut i: usize = 0;
    proof {
        assert(v@.subrange(0, v@.len() as int) =~= v@);
        assert(r@.map_values(|p: Vec<char>| p@) + split_ws_acc(v@, cur@) =~= split_ws_acc(
            v@,
            cur@,
        ));
        assert(cur@ =~= Seq::<char>::empty());
    }
    while i < v.len()
        invariant
            i <= v.len(),
            split_whitespace_spec(v@) == r@.map_values(|p: Vec<char>| p@) + split_ws_acc(
                v@.subrange(i as int, v@.len() as int),
                cur@,
            ),
        decreases v.len() - i,
    {
        proof {
            assert(v@.subrange(i as int, v@.len() as int).drop_first() =~= v@.subrange(
                i + 1,
                v@.len() as int,
            ));
            assert(v@.subrange(i as int, v@.len() as int)[0] == v@[i as int]);
        }
        let ghost pre = r@.map_values(|p: Vec<char>| p@);
        let ghost rest = split_ws_acc(v@.subrange(i + 1, v@.len() as int), Seq::empty());
        if is_space(v[i]) {
            if cur.len() > 0 {
                let done = cur;
                cur = Vec::new();
                r.push(done);
                proof {
                    assert(r@.map_values(|p: Vec<char>| p@) =~= pre.push(done@));
                    assert(pre + (seq![done@] + rest) =~= pre.push(done@) + rest);
                    assert(cur@ =~= Seq::<char>::empty());
                }
            } else {
                proof {
                    assert(cur@ =~= Seq::<char>::empty());
                }
            }
        } else {
            cur.push(v[i]);
        }
        i = i + 1;
    }
    proof {
        assert(v@.subrange(i as int, v@.len() as int) =~= Seq::<char>::empty());
    }
    if cur.len() > 0 {
        let ghost pre = r@.map_values(|p: Vec<char>| p@);
        let ghost done = cur@;
        r.push(cur);
        proof {
            assert(r@.map_values(|p: Vec<char>| p@) =~= pre.push(done));
            assert(pre + seq![done] =~= pre.push(done));
        }
    } else {
        proof {
            assert(cur@ =~= Seq::<char>::empty());
            assert(r@.map_values(|p: Vec<char>| p@) + Seq::<Seq<char>>::empty() =~= r@.map_values(
                |p: Vec<char>| p@,
            ));
        }
    }
    r
}

// ---------------------------------------------------------------------------
// Decimal numbers
// ---------------------------------------------------------------------------

pub open spec fn all_digits(s: Seq<char>) -> bool {
    forall|i: int| 0 <= i < s.len() ==> is_digit_char(s[i])
}

/// Value of a sequence of decimal digit characters.
pub open spec fn digits_val(s: Seq<char>) -> int
    decreases s.len(),
{
    if s.len() == 0 {
        0
    } else {
        digits_val(s.drop_last()) * 10 + digit_val(s.last())
    }
}

pub proof fn lemma_digits_val_nonneg(s: Seq<char>)
    requires
        all_digits(s),
    ensures
        digits_val(s) >= 0,
    decreases s.len(),
{
    if s.len() > 0 {
        lemma_digits_val_nonneg(s.drop_last());
    }
}

pub proof fn lemma_digits_val_prefix_le(s: Seq<char>, i: int)
    requires
        all_digits(s),
        0 <= i <= s.len(),
    ensures
        digits_val(s.subrange(0, i)) <= digits_val(s),
    decreases s.len() - i,
{
    if i == s.len() {
        assert(s.subrange(0, i) =~= s);
    } else {
        lemma_digits_val_prefix_le(s, i + 1);
        let p = s.subrange(0, i + 1);
        assert(p.drop_last() =~= s.subrange(0, i));
        assert(all_digits(s.subrange(0, i)));
        lemma_digits_val_nonneg(s.subrange(0, i));
        assert(digits_val(p) == digits_val(s.subrange(0, i)) * 10 + digit_val(p.last()));
    }
}

/// Parsing of a decimal `u32`, as `str::parse::<u32>` decides it for inputs
/// made of digits alone: non-empty, digits only, value within range.
pub open spec fn parse_u32_spec(s: Seq<char>) -> Option<u32> {
    if s.len() > 0 && all_digits(s) && digits_val(s) <= u32::MAX {
        Some(digits_val(s) as u32)
    } else {
        None
    }
}

pub fn parse_u32_chars(v: &Vec<char>) -> (r: Option<u32>)
    ensures
        r == parse_u32_spec(v@),
{
    if v.len() == 0 {
        return None;
    }
    let mut acc: u64 = 0;
    let mut i: usize = 0;
    while i < v.len()
        invariant
            i <= v.len(),
            forall|j: int| 0 <= j < i ==> is_digit_char(v@[j]),
            acc == digits_val(v@.subrange(0, i as int)),
            acc <= u32::MAX,
        decreases v.len() - i,
    {
        let c = v[i];
        if !is_digit(c) {
            return None;
        }
        let d = (c as u32) - 48;
        acc = acc * 10 + (d as u64);
        i = i + 1;
        proof {
            assert(v@.subrange(0, i as int).drop_last() =~= v@.subrange(0, i - 1));
            assert(v@.subrange(0, i as int).last() == v@[i - 1]);
        }
        if acc > u32::MAX as u64 {
            proof {
                assert(all_digits(v@) ==> {
                    &&& all_digits(v@)
                    &&& digits_val(v@) >= digits_val(v@.subrange(0, i as int))
                }) by {
                    if all_digits(v@) {
                        lemma_digits_val_prefix_le(v@, i as int);
                    }
                }
            }
            return None;
        }
    }
    proof {
        assert(v@.subrange(0, i as int) =~= v@);
    }
    Some(acc as u32)
}

} // verus!
