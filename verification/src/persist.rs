//! The durable form of the pending-report queue: a JSON document holding a
//! list of `{url, payload, attempts}` records. Encoding and parsing are both
//! defined here, over character sequences, and parsing a freshly encoded
//! list provably gives the list back.

use vstd::prelude::*;
use crate::report::{PendingReport, PendingReportView, ReportPayloadView};
use crate::text::{chars_of, digit_val, digits_val, is_digit_char, string_from_chars};
use crate::queue::views_of;

verus! {

// ---------------------------------------------------------------------------
// Encoding
// ---------------------------------------------------------------------------

/// Decimal digit character of a value below ten.
pub open spec fn digit_char(d: int) -> char {
    if d == 0 {
        '0'
    } else if d == 1 {
        '1'
    } else if d == 2 {
        '2'
    } else if d == 3 {
        '3'
    } else if d == 4 {
        '4'
    } else if d == 5 {
        '5'
    } else if d == 6 {
        '6'
    } else if d == 7 {
        '7'
    } else if d == 8 {
        '8'
    } else {
        '9'
    }
}

/// Lowercase hex digit character of a value below sixteen.
pub open spec fn hex_char(d: int) -> char {
    if d < 10 {
        digit_char(d)
    } else if d == 10 {
        'a'
    } else if d == 11 {
        'b'
    } else if d == 12 {
        'c'
    } else if d == 13 {
        'd'
    } else if d == 14 {
        'e'
    } else {
        'f'
    }
}

/// The escaped form of one character inside a JSON string: quote and
/// backslash get a backslash, control characters become `\u00XX`, and
/// everything else stands as itself.
pub open spec fn escape_char(c: char) -> Seq<char> {
    if c == '"' {
        seq!['\\', '"']
    } else if c == '\\' {
        seq!['\\', '\\']
    } else if (c as u32) < 32 {
        seq!['\\', 'u', '0', '0', hex_char(c as u32 as int / 16), hex_char(c as u32 as int % 16)]
    } else {
        seq![c]
    }
}

pub open spec fn escape_seq(s: Seq<char>) -> Seq<char>
    decreases s.len(),
{
    if s.len() == 0 {
        Seq::empty()
    } else {
        escape_char(s[0]) + escape_seq(s.drop_first())
    }
}

/// A JSON string: the escaped characters between two quotes.
pub open spec fn enc_string(s: Seq<char>) -> Seq<char> {
    seq!['"'] + escape_seq(s) + seq!['"']
}

/// A decimal number, most significant digit first.
pub open spec fn enc_u64(n: int) -> Seq<char>
    decreases n,
{
    if n < 10 {
        seq![digit_char(n)]
    } else {
        enc_u64(n / 10).push(digit_char(n % 10))
    }
}

/// An optional string: `null` when absent.
pub open spec fn enc_opt_string(o: Option<Seq<char>>) -> Seq<char> {
    match o {
        None => seq!['n', 'u', 'l', 'l'],
        Some(s) => enc_string(s),
    }
}

pub open spec fn key_status() -> Seq<char> {
    seq!['"', 's', 't', 'a', 't', 'u', 's', '"', ':']
}

pub open spec fn key_error() -> Seq<char> {
    seq![',', '"', 'e', 'r', 'r', 'o', 'r', '"', ':']
}

pub open spec fn key_duration_ms() -> Seq<char> {
    seq![',', '"', 'd', 'u', 'r', 'a', 't', 'i', 'o', 'n', 'M', 's', '"', ':']
}

pub open spec fn key_snapshot_id() -> Seq<char> {
    seq![',', '"', 's', 'n', 'a', 'p', 's', 'h', 'o', 't', 'I', 'd', '"', ':']
}

pub open spec fn key_snapshot_time() -> Seq<char> {
    seq![',', '"', 's', 'n', 'a', 'p', 's', 'h', 'o', 't', 'T', 'i', 'm', 'e', '"', ':']
}

pub open spec fn key_next_run_at() -> Seq<char> {
    seq![',', '"', 'n', 'e', 'x', 't', 'R', 'u', 'n', 'A', 't', '"', ':']
}

pub open spec fn key_output() -> Seq<char> {
    seq![',', '"', 'o', 'u', 't', 'p', 'u', 't', '"', ':']
}

pub open spec fn key_url() -> Seq<char> {
    seq!['"', 'u', 'r', 'l', '"', ':']
}

pub open spec fn key_payload() -> Seq<char> {
    seq![',', '"', 'p', 'a', 'y', 'l', 'o', 'a', 'd', '"', ':']
}

pub open spec fn key_attempts() -> Seq<char> {
    seq![',', '"', 'a', 't', 't', 'e', 'm', 'p', 't', 's', '"', ':']
}

/// One report payload, its fields in a fixed order.
pub open spec fn enc_payload(p: ReportPayloadView) -> Seq<char> {
    seq!['{'] + key_status() + enc_string(p.status) + key_error() + enc_opt_string(p.error)
        + key_duration_ms() + enc_u64(p.duration_ms as int) + key_snapshot_id() + enc_opt_string(
        p.snapshot_id,
    ) + key_snapshot_time() + enc_opt_string(p.snapshot_time) + key_next_run_at() + enc_opt_string(
        p.next_run_at,
    ) + key_output() + enc_string(p.output) + seq!['}']
}

/// One queued report.
pub open spec fn enc_entry(e: PendingReportView) -> Seq<char> {
    seq!['{'] + key_url() + enc_string(e.url) + key_payload() + enc_payload(e.payload)
        + key_attempts() + enc_u64(e.attempts as int) + seq!['}']
}

/// A comma-separated run of entries.
pub open spec fn enc_entries(rs: Seq<PendingReportView>) -> Seq<char>
    decreases rs.len(),
{
    if rs.len() == 0 {
        Seq::empty()
    } else if rs.len() == 1 {
        enc_entry(rs[0])
    } else {
        enc_entry(rs[0]) + seq![','] + enc_entries(rs.drop_first())
    }
}

/// The whole persisted document: a JSON list of the queued reports,
/// oldest first.
pub open spec fn enc_reports(rs: Seq<PendingReportView>) -> Seq<char> {
    seq!['['] + enc_entries(rs) + seq![']']
}

// ---------------------------------------------------------------------------
// The executable encoder
// ---------------------------------------------------------------------------

fn push_digit(out: &mut Vec<char>, d: u64)
    requires
        d < 10,
    ensures
        final(out)@ == old(out)@.push(digit_char(d as int)),
{
    if d == 0 {
        out.push('0')
    } else if d == 1 {
        out.push('1')
    } else if d == 2 {
        out.push('2')
    } else if d == 3 {
        out.push('3')
    } else if d == 4 {
        out.push('4')
    } else if d == 5 {
        out.push('5')
    } else if d == 6 {
        out.push('6')
    } else if d == 7 {
        out.push('7')
    } else if d == 8 {
        out.push('8')
    } else {
        out.push('9')
    }
}

fn push_hex(out: &mut Vec<char>, d: u32)
    requires
        d < 16,
    ensures
        final(out)@ == old(out)@.push(hex_char(d as int)),
{
    if d < 10 {
        push_digit(out, d as u64);
    } else if d == 10 {
        out.push('a')
    } else if d == 11 {
        out.push('b')
    } else if d == 12 {
        out.push('c')
    } else if d == 13 {
        out.push('d')
    } else if d == 14 {
        out.push('e')
    } else {
        out.push('f')
    }
}

fn push_u64(out: &mut Vec<char>, n: u64)
    ensures
        final(out)@ == old(out)@ + enc_u64(n as int),
    decreases n,
{
    if n < 10 {
        push_digit(out, n);
        proof {
            assert(final(out)@ =~= old(out)@ + enc_u64(n as int));
        }
    } else {
        push_u64(out, n / 10);
        push_digit(out, n % 10);
        proof {
            assert(final(out)@ =~= old(out)@ + enc_u64(n as int));
        }
    }
}

proof fn lemma_escape_app(a: Seq<char>, b: Seq<char>)
    ensures
        escape_seq(a + b) == escape_seq(a) + escape_seq(b),
    decreases a.len(),
{
    if a.len() == 0 {
        assert(a + b =~= b);
        assert(escape_seq(a) + escape_seq(b) =~= escape_seq(b));
    } else {
        lemma_escape_app(a.drop_first(), b);
        assert((a + b).drop_first() =~= a.drop_first() + b);
        assert(escape_char((a + b)[0]) + (escape_seq(a.drop_first()) + escape_seq(b))
            =~= (escape_char(a[0]) + escape_seq(a.drop_first())) + escape_seq(b));
    }
}

fn push_escaped(out: &mut Vec<char>, s: &Vec<char>)
    ensures
        final(out)@ == old(out)@ + escape_seq(s@),
{
    let mut i: usize = 0;
    proof {
        assert(escape_seq(s@.take(0)) =~= Seq::<char>::empty());
        assert(out@ + Seq::<char>::empty() =~= out@);
    }
    while i < s.len()
        invariant
            i <= s@.len(),
            out@ == old(out)@ + escape_seq(s@.take(i as int)),
        decreases s@.len() - i,
    {
        let c = s[i];
        let u: u32 = c as u32;
        if c == '"' {
            out.push('\\');
            out.push('"');
        } else if c == '\\' {
            out.push('\\');
            out.push('\\');
        } else if u < 32 {
            out.push('\\');
            out.push('u');
            out.push('0');
            out.push('0');
            push_hex(out, u / 16);
            push_hex(out, u % 16);
        } else {
            out.push(c);
        }
        proof {
            assert(s@.take(i + 1) =~= s@.take(i as int) + seq![s@[i as int]]);
            lemma_escape_app(s@.take(i as int), seq![s@[i as int]]);
            let c1 = s@[i as int];
            assert(seq![c1].len() == 1 && seq![c1][0] == c1);
            assert(seq![c1].drop_first() =~= Seq::<char>::empty());
            assert(escape_seq(Seq::<char>::empty()) =~= Seq::<char>::empty());
            assert(escape_seq(seq![c1]) == escape_char(c1) + escape_seq(seq![c1].drop_first()));
            assert(escape_char(c1) + Seq::<char>::empty() =~= escape_char(c1));
            assert(escape_seq(seq![c1]) =~= escape_char(c1));
            assert(out@ =~= old(out)@ + escape_seq(s@.take(i + 1)));
        }
        i = i + 1;
    }
    proof {
        assert(s@.take(s@.len() as int) =~= s@);
    }
}

fn push_string(out: &mut Vec<char>, s: &String)
    ensures
        final(out)@ == old(out)@ + enc_string(s@),
{
    let cs = chars_of(s.as_str());
    out.push('"');
    push_escaped(out, &cs);
    out.push('"');
    proof {
        assert(final(out)@ =~= old(out)@ + enc_string(s@));
    }
}

fn push_opt_string(out: &mut Vec<char>, s: &Option<String>)
    ensures
        final(out)@ == old(out)@ + enc_opt_string(crate::report::view_opt(*s)),
{
    match s {
        None => {
            out.push('n');
            out.push('u');
            out.push('l');
            out.push('l');
            proof {
                assert(final(out)@ =~= old(out)@ + seq!['n', 'u', 'l', 'l']);
            }
        },
        Some(v) => {
            push_string(out, v);
        },
    }
}

fn push_lit(out: &mut Vec<char>, lit: &str)
    ensures
        final(out)@ == old(out)@ + lit@,
{
    let cs = chars_of(lit);
    let mut i: usize = 0;
    proof {
        assert(out@ =~= old(out)@ + lit@.take(0));
    }
    while i < cs.len()
        invariant
            i <= cs@.len(),
            cs@ == lit@,
            out@ == old(out)@ + lit@.take(i as int),
        decreases cs@.len() - i,
    {
        out.push(cs[i]);
        i = i + 1;
        proof {
            assert(out@ =~= old(out)@ + lit@.take(i as int));
        }
    }
    proof {
        assert(lit@.take(lit@.len() as int) =~= lit@);
    }
}

#[verifier::rlimit(100)]
fn push_payload(out: &mut Vec<char>, p: &crate::report::BackupPlanReportRequest)
    ensures
        final(out)@ == old(out)@ + enc_payload(p@),
{
    out.push('{');
    push_lit(out, "\"status\":");
    proof {
        reveal_strlit("\"status\":");
        assert(("\"status\":")@ =~= key_status());
    }
    push_string(out, &p.status);
    push_lit(out, ",\"error\":");
    proof {
        reveal_strlit(",\"error\":");
        assert((",\"error\":")@ =~= key_error());
    }
    push_opt_string(out, &p.error);
    push_lit(out, ",\"durationMs\":");
    proof {
        reveal_strlit(",\"durationMs\":");
        assert((",\"durationMs\":")@ =~= key_duration_ms());
    }
    push_u64(out, p.duration_ms);
    push_lit(out, ",\"snapshotId\":");
    proof {
        reveal_strlit(",\"snapshotId\":");
        assert((",\"snapshotId\":")@ =~= key_snapshot_id());
    }
    push_opt_string(out, &p.snapshot_id);
    push_lit(out, ",\"snapshotTime\":");
    proof {
        reveal_strlit(",\"snapshotTime\":");
        assert((",\"snapshotTime\":")@ =~= key_snapshot_time());
    }
    push_opt_string(out, &p.snapshot_time);
    push_lit(out, ",\"nextRunAt\":");
    proof {
        reveal_strlit(",\"nextRunAt\":");
        assert((",\"nextRunAt\":")@ =~= key_next_run_at());
    }
    push_opt_string(out, &p.next_run_at);
    push_lit(out, ",\"output\":");
    proof {
        reveal_strlit(",\"output\":");
        assert((",\"output\":")@ =~= key_output());
    }
    push_string(out, &p.output);
    out.push('}');
    proof {
        assert(final(out)@ =~= old(out)@ + enc_payload(p@));
    }
}

fn push_entry(out: &mut Vec<char>, e: &PendingReport)
    ensures
        final(out)@ == old(out)@ + enc_entry(e@),
{
    out.push('{');
    push_lit(out, "\"url\":");
    proof {
        reveal_strlit("\"url\":");
        assert(("\"url\":")@ =~= key_url());
    }
    push_string(out, &e.url);
    push_lit(out, ",\"payload\":");
    proof {
        reveal_strlit(",\"payload\":");
        assert((",\"payload\":")@ =~= key_payload());
    }
    push_payload(out, &e.payload);
    push_lit(out, ",\"attempts\":");
    proof {
        reveal_strlit(",\"attempts\":");
        assert((",\"attempts\":")@ =~= key_attempts());
    }
    push_u64(out, e.attempts as u64);
    out.push('}');
    proof {
        assert(final(out)@ =~= old(out)@ + enc_entry(e@));
    }
}

#[verifier::rlimit(100)]
proof fn lemma_enc_entries_snoc(rs: Seq<PendingReportView>, e: PendingReportView)
    ensures
        rs.len() == 0 ==> enc_entries(rs.push(e)) == enc_entry(e),
        rs.len() > 0 ==> enc_entries(rs.push(e)) == enc_entries(rs) + seq![','] + enc_entry(e),
    decreases rs.len(),
{
    if rs.len() == 0 {
        assert(rs.push(e)[0] == e);
        assert(enc_entries(rs.push(e)) == enc_entry(e));
    } else {
        lemma_enc_entries_snoc(rs.drop_first(), e);
        assert(rs.push(e).drop_first() =~= rs.drop_first().push(e));
        assert(rs.push(e).len() == rs.len() + 1);
        if rs.len() == 1 {
            assert(enc_entries(rs.push(e)) == enc_entry(rs[0]) + seq![','] + enc_entries(
                rs.drop_first().push(e),
            ));
            assert(enc_entries(rs.drop_first().push(e)) == enc_entry(e));
            assert(enc_entries(rs) == enc_entry(rs[0]));
        } else {
            assert(enc_entry(rs[0]) + seq![','] + (enc_entries(rs.drop_first()) + seq![',']
                + enc_entry(e)) =~= (enc_entry(rs[0]) + seq![','] + enc_entries(rs.drop_first()))
                + seq![','] + enc_entry(e));
        }
    }
}

/// Serializes the whole remaining queue to its durable document.
pub fn serialize_pending_reports(reports: &Vec<PendingReport>) -> (r: String)
    ensures
        r@ == enc_reports(views_of(reports@)),
{
    let mut out: Vec<char> = Vec::new();
    out.push('[');
    let mut i: usize = 0;
    proof {
        assert(views_of(reports@).take(0) =~= Seq::<PendingReportView>::empty());
        assert(out@ =~= seq!['['] + enc_entries(views_of(reports@).take(0)));
    }
    while i < reports.len()
        invariant
            i <= reports@.len(),
            out@ == seq!['['] + enc_entries(views_of(reports@).take(i as int)),
        decreases reports@.len() - i,
    {
        if i > 0 {
            out.push(',');
        }
        push_entry(&mut out, &reports[i]);
        proof {
            let vs = views_of(reports@);
            assert(vs.take(i + 1) =~= vs.take(i as int).push(reports@[i as int]@));
            lemma_enc_entries_snoc(vs.take(i as int), reports@[i as int]@);
            if i > 0 {
                assert(out@ =~= seq!['['] + enc_entries(vs.take(i + 1)));
            } else {
                assert(vs.take(0).len() == 0);
                assert(out@ =~= seq!['['] + enc_entries(vs.take(i + 1)));
            }
        }
        i = i + 1;
    }
    out.push(']');
    proof {
        assert(views_of(reports@).take(reports@.len() as int) =~= views_of(reports@));
        assert(out@ =~= enc_reports(views_of(reports@)));
    }
    string_from_chars(&out)
}

// ---------------------------------------------------------------------------
// Parsing
// ---------------------------------------------------------------------------

/// Consumes an exact literal prefix, giving back the remainder.
pub open spec fn sp_lit(s: Seq<char>, lit: Seq<char>) -> Option<Seq<char>> {
    if lit.len() <= s.len() && s.take(lit.len() as int) == lit {
        Some(s.skip(lit.len() as int))
    } else {
        None
    }
}

pub open spec fn is_hex_low(c: char) -> bool {
    is_digit_char(c) || (97 <= c as u32 && c as u32 <= 102)
}

pub open spec fn hex_val(c: char) -> int {
    if is_digit_char(c) {
        digit_val(c)
    } else {
        c as u32 - 87
    }
}

/// Consumes the body of a JSON string after its opening quote, undoing the
/// escapes the encoder writes, up to the closing quote.
pub open spec fn sp_string_body(s: Seq<char>, acc: Seq<char>) -> Option<(Seq<char>, Seq<char>)>
    decreases s.len(),
{
    if s.len() == 0 {
        None
    } else if s[0] == '"' {
        Some((acc, s.drop_first()))
    } else if s[0] == '\\' {
        if s.len() >= 2 && s[1] == '"' {
            sp_string_body(s.skip(2), acc.push('"'))
        } else if s.len() >= 2 && s[1] == '\\' {
            sp_string_body(s.skip(2), acc.push('\\'))
        } else if s.len() >= 6 && s[1] == 'u' && s[2] == '0' && s[3] == '0' && is_hex_low(s[4])
            && is_hex_low(s[5]) && hex_val(s[4]) * 16 + hex_val(s[5]) < 32 {
            sp_string_body(
                s.skip(6),
                acc.push((((hex_val(s[4]) * 16 + hex_val(s[5])) as u8) as char)),
            )
        } else {
            None
        }
    } else if (s[0] as u32) < 32 {
        None
    } else {
        sp_string_body(s.drop_first(), acc.push(s[0]))
    }
}

pub open spec fn sp_string(s: Seq<char>) -> Option<(Seq<char>, Seq<char>)> {
    if s.len() >= 1 && s[0] == '"' {
        sp_string_body(s.drop_first(), Seq::empty())
    } else {
        None
    }
}

/// Length of the maximal run of digits at the front.
pub open spec fn digit_prefix_len(s: Seq<char>) -> int
    decreases s.len(),
{
    if s.len() > 0 && is_digit_char(s[0]) {
        1 + digit_prefix_len(s.drop_first())
    } else {
        0
    }
}

/// Consumes a decimal number: the value of the digit run at the front.
pub open spec fn sp_number(s: Seq<char>) -> Option<(int, Seq<char>)> {
    let k = digit_prefix_len(s);
    if k == 0 {
        None
    } else {
        Some((digits_val(s.take(k)), s.skip(k)))
    }
}

/// Consumes a string or the literal `null`.
pub open spec fn sp_opt_string(s: Seq<char>) -> Option<(Option<Seq<char>>, Seq<char>)> {
    if s.len() >= 1 && s[0] == 'n' {
        match sp_lit(s, seq!['n', 'u', 'l', 'l']) {
            Some(rest) => Some((None, rest)),
            None => None,
        }
    } else {
        match sp_string(s) {
            Some((v, rest)) => Some((Some(v), rest)),
            None => None,
        }
    }
}

/// Consumes one report payload, its fields in the fixed order the encoder
/// writes them.
pub open spec fn sp_payload(s: Seq<char>) -> Option<(ReportPayloadView, Seq<char>)> {
    match sp_lit(s, seq!['{'] + key_status()) {
        None => None,
        Some(s1) => match sp_string(s1) {
            None => None,
            Some((status, s2)) => match sp_lit(s2, key_error()) {
                None => None,
                Some(s3) => match sp_opt_string(s3) {
                    None => None,
                    Some((error, s4)) => match sp_lit(s4, key_duration_ms()) {
                        None => None,
                        Some(s5) => match sp_number(s5) {
                            None => None,
                            Some((dur, s6)) => if dur > u64::MAX {
                                None
                            } else {
                                sp_payload_tail(s6, status, error, dur)
                            },
                        },
                    },
                },
            },
        },
    }
}

/// The rest of a payload after the duration field.
pub open spec fn sp_payload_tail(
    s6: Seq<char>,
    status: Seq<char>,
    error: Option<Seq<char>>,
    dur: int,
) -> Option<(ReportPayloadView, Seq<char>)> {
    match sp_lit(s6, key_snapshot_id()) {
        None => None,
        Some(s7) => match sp_opt_string(s7) {
            None => None,
            Some((sid, s8)) => match sp_lit(s8, key_snapshot_time()) {
                None => None,
                Some(s9) => match sp_opt_string(s9) {
                    None => None,
                    Some((stime, s10)) => match sp_lit(s10, key_next_run_at()) {
                        None => None,
                        Some(s11) => match sp_opt_string(s11) {
                            None => None,
                            Some((nra, s12)) => match sp_lit(s12, key_output()) {
                                None => None,
                                Some(s13) => match sp_string(s13) {
                                    None => None,
                                    Some((output, s14)) => match sp_lit(s14, seq!['}']) {
                                        None => None,
                                        Some(s15) => Some(
                                            (
                                                ReportPayloadView {
                                                    status,
                                                    error,
                                                    duration_ms: dur as u64,
                                                    snapshot_id: sid,
                                                    snapshot_time: stime,
                                                    next_run_at: nra,
                                                    output,
                                                },
                                                s15,
                                            ),
                                        ),
                                    },
                                },
                            },
                        },
                    },
                },
            },
        },
    }
}

/// Consumes one queued report.
pub open spec fn sp_entry(s: Seq<char>) -> Option<(PendingReportView, Seq<char>)> {
    match sp_lit(s, seq!['{'] + key_url()) {
        None => None,
        Some(s1) => match sp_string(s1) {
            None => None,
            Some((url, s2)) => match sp_lit(s2, key_payload()) {
                None => None,
                Some(s3) => match sp_payload(s3) {
                    None => None,
                    Some((payload, s4)) => match sp_lit(s4, key_attempts()) {
                        None => None,
                        Some(s5) => match sp_number(s5) {
                            None => None,
                            Some((att, s6)) => if att > u32::MAX {
                                None
                            } else {
                                match sp_lit(s6, seq!['}']) {
                                    None => None,
                                    Some(s7) => Some(
                                        (
                                            PendingReportView {
                                                url,
                                                payload,
                                                attempts: att as u32,
                                            },
                                            s7,
                                        ),
                                    ),
                                }
                            },
                        },
                    },
                },
            },
        },
    }
}

/// Consumes a comma-separated run of entries; the fuel bounds how many.
pub open spec fn sp_entries(s: Seq<char>, fuel: nat) -> Option<(Seq<PendingReportView>, Seq<char>)>
    decreases fuel,
{
    if fuel == 0 {
        None
    } else {
        match sp_entry(s) {
            None => None,
            Some((e, rest)) => if rest.len() > 0 && rest[0] == ',' {
                match sp_entries(rest.drop_first(), (fuel - 1) as nat) {
                    None => None,
                    Some((l, r2)) => Some((seq![e] + l, r2)),
                }
            } else {
                Some((seq![e], rest))
            },
        }
    }
}

/// The meaning of a whole persisted document: the list it holds, or nothing
/// when the text is not a document this module writes.
pub open spec fn sp_reports(s: Seq<char>) -> Option<Seq<PendingReportView>> {
    match sp_lit(s, seq!['[']) {
        None => None,
        Some(s1) => if s1.len() >= 1 && s1[0] == ']' {
            if s1.len() == 1 {
                Some(Seq::empty())
            } else {
                None
            }
        } else {
            match sp_entries(s1, s1.len() as nat) {
                None => None,
                Some((es, rest)) => if rest == seq![']'] {
                    Some(es)
                } else {
                    None
                },
            }
        },
    }
}

// ---------------------------------------------------------------------------
// Parsing undoes encoding
// ---------------------------------------------------------------------------

proof fn lemma_sp_lit_roundtrip(lit: Seq<char>, rest: Seq<char>)
    ensures
        sp_lit(lit + rest, lit) == Some(rest),
{
    assert((lit + rest).take(lit.len() as int) =~= lit);
    assert((lit + rest).skip(lit.len() as int) =~= rest);
}

proof fn lemma_hex_char_val(x: int)
    requires
        0 <= x < 16,
    ensures
        is_hex_low(hex_char(x)),
        hex_val(hex_char(x)) == x,
{
}

proof fn lemma_sp_string_body_roundtrip(v: Seq<char>, rest: Seq<char>, acc: Seq<char>)
    ensures
        sp_string_body(escape_seq(v) + seq!['"'] + rest, acc) == Some((acc + v, rest)),
    decreases v.len(),
{
    let s = escape_seq(v) + seq!['"'] + rest;
    if v.len() == 0 {
        assert(escape_seq(v) =~= Seq::<char>::empty());
        assert(s =~= seq!['"'] + rest);
        assert(s[0] == '"');
        assert(s.drop_first() =~= rest);
        assert(acc + v =~= acc);
    } else {
        let c = v[0];
        let v1 = v.drop_first();
        let tail = escape_seq(v1) + seq!['"'] + rest;
        assert(s =~= escape_char(c) + tail);
        if c == '"' {
            assert(s[0] == '\\' && s[1] == '"');
            assert(s.skip(2) =~= tail);
            lemma_sp_string_body_roundtrip(v1, rest, acc.push('"'));
            assert(acc.push('"') + v1 =~= acc + v);
        } else if c == '\\' {
            assert(s[0] == '\\' && s[1] == '\\');
            assert(s.skip(2) =~= tail);
            lemma_sp_string_body_roundtrip(v1, rest, acc.push('\\'));
            assert(acc.push('\\') + v1 =~= acc + v);
        } else if (c as u32) < 32 {
            let code = c as u32 as int;
            lemma_hex_char_val(code / 16);
            lemma_hex_char_val(code % 16);
            assert(s[0] == '\\' && s[1] == 'u' && s[2] == '0' && s[3] == '0');
            assert(s[4] == hex_char(code / 16) && s[5] == hex_char(code % 16));
            assert(hex_val(s[4]) * 16 + hex_val(s[5]) == code);
            assert(s.skip(6) =~= tail);
            let c2 = ((code as u8) as char);
            assert(c2 as u32 == code);
            vstd::utf8::char_u32_cast(c, c as u32);
            vstd::utf8::char_u32_cast(c2, c2 as u32);
            assert(c2 == c);
            lemma_sp_string_body_roundtrip(v1, rest, acc.push(c));
            assert(acc.push(c) + v1 =~= acc + v);
        } else {
            assert(s[0] == c);
            assert(s.drop_first() =~= tail);
            lemma_sp_string_body_roundtrip(v1, rest, acc.push(c));
            assert(acc.push(c) + v1 =~= acc + v);
        }
    }
}

proof fn lemma_sp_string_roundtrip(v: Seq<char>, rest: Seq<char>)
    ensures
        sp_string(enc_string(v) + rest) == Some((v, rest)),
{
    let s = enc_string(v) + rest;
    assert(s[0] == '"');
    assert(s.drop_first() =~= escape_seq(v) + seq!['"'] + rest);
    lemma_sp_string_body_roundtrip(v, rest, Seq::empty());
    assert(Seq::<char>::empty() + v =~= v);
}

proof fn lemma_sp_opt_string_roundtrip(o: Option<Seq<char>>, rest: Seq<char>)
    ensures
        sp_opt_string(enc_opt_string(o) + rest) == Some((o, rest)),
{
    let s = enc_opt_string(o) + rest;
    match o {
        None => {
            assert(s[0] == 'n');
            lemma_sp_lit_roundtrip(seq!['n', 'u', 'l', 'l'], rest);
        },
        Some(v) => {
            assert(s[0] == '"');
            lemma_sp_string_roundtrip(v, rest);
        },
    }
}

proof fn lemma_digit_char_val(x: int)
    requires
        0 <= x < 10,
    ensures
        is_digit_char(digit_char(x)),
        digit_val(digit_char(x)) == x,
{
}

proof fn lemma_enc_u64_digits(n: int)
    requires
        n >= 0,
    ensures
        enc_u64(n).len() >= 1,
        crate::text::all_digits(enc_u64(n)),
        digits_val(enc_u64(n)) == n,
    decreases n,
{
    if n < 10 {
        lemma_digit_char_val(n);
        let d = seq![digit_char(n)];
        assert(d.drop_last() =~= Seq::<char>::empty());
        assert(digits_val(d) == digits_val(d.drop_last()) * 10 + digit_val(d.last()));
    } else {
        lemma_enc_u64_digits(n / 10);
        lemma_digit_char_val(n % 10);
        let x = enc_u64(n / 10);
        let d = x.push(digit_char(n % 10));
        assert(enc_u64(n) == d);
        assert(d.drop_last() =~= x);
        assert(digits_val(d) == digits_val(x) * 10 + digit_val(d.last()));
        assert(crate::text::all_digits(d)) by {
            assert forall|i: int| 0 <= i < d.len() implies is_digit_char(d[i]) by {
                if i < x.len() {
                    assert(d[i] == x[i]);
                }
            }
        }
    }
}

proof fn lemma_digit_prefix_exact(d: Seq<char>, rest: Seq<char>)
    requires
        crate::text::all_digits(d),
        rest.len() == 0 || !is_digit_char(rest[0]),
    ensures
        digit_prefix_len(d + rest) == d.len(),
    decreases d.len(),
{
    if d.len() == 0 {
        assert(d + rest =~= rest);
    } else {
        assert((d + rest)[0] == d[0]);
        assert((d + rest).drop_first() =~= d.drop_first() + rest);
        lemma_digit_prefix_exact(d.drop_first(), rest);
    }
}

proof fn lemma_sp_number_roundtrip(n: int, rest: Seq<char>)
    requires
        n >= 0,
        rest.len() == 0 || !is_digit_char(rest[0]),
    ensures
        sp_number(enc_u64(n) + rest) == Some((n, rest)),
{
    lemma_enc_u64_digits(n);
    lemma_digit_prefix_exact(enc_u64(n), rest);
    assert((enc_u64(n) + rest).take(enc_u64(n).len() as int) =~= enc_u64(n));
    assert((enc_u64(n) + rest).skip(enc_u64(n).len() as int) =~= rest);
}

#[verifier::rlimit(100)]
proof fn lemma_sp_payload_roundtrip(p: ReportPayloadView, rest: Seq<char>)
    ensures
        sp_payload(enc_payload(p) + rest) == Some((p, rest)),
{
    let t14 = seq!['}'] + rest;
    let t13 = enc_string(p.output) + t14;
    let t12 = key_output() + t13;
    let t11 = enc_opt_string(p.next_run_at) + t12;
    let t10 = key_next_run_at() + t11;
    let t9 = enc_opt_string(p.snapshot_time) + t10;
    let t8 = key_snapshot_time() + t9;
    let t7 = enc_opt_string(p.snapshot_id) + t8;
    let t6 = key_snapshot_id() + t7;
    let t5 = enc_u64(p.duration_ms as int) + t6;
    let t4 = key_duration_ms() + t5;
    let t3 = enc_opt_string(p.error) + t4;
    let t2 = key_error() + t3;
    let t1 = enc_string(p.status) + t2;
    assert(enc_payload(p) + rest =~= (seq!['{'] + key_status()) + t1);
    lemma_sp_lit_roundtrip(seq!['{'] + key_status(), t1);
    lemma_sp_string_roundtrip(p.status, t2);
    lemma_sp_lit_roundtrip(key_error(), t3);
    lemma_sp_opt_string_roundtrip(p.error, t4);
    lemma_sp_lit_roundtrip(key_duration_ms(), t5);
    assert(!is_digit_char(t6[0]));
    lemma_sp_number_roundtrip(p.duration_ms as int, t6);
    lemma_sp_lit_roundtrip(key_snapshot_id(), t7);
    lemma_sp_opt_string_roundtrip(p.snapshot_id, t8);
    lemma_sp_lit_roundtrip(key_snapshot_time(), t9);
    lemma_sp_opt_string_roundtrip(p.snapshot_time, t10);
    lemma_sp_lit_roundtrip(key_next_run_at(), t11);
    lemma_sp_opt_string_roundtrip(p.next_run_at, t12);
    lemma_sp_lit_roundtrip(key_output(), t13);
    lemma_sp_string_roundtrip(p.output, t14);
    lemma_sp_lit_roundtrip(seq!['}'], rest);
}

#[verifier::rlimit(100)]
proof fn lemma_sp_entry_roundtrip(e: PendingReportView, rest: Seq<char>)
    ensures
        sp_entry(enc_entry(e) + rest) == Some((e, rest)),
{
    let t6 = seq!['}'] + rest;
    let t5 = enc_u64(e.attempts as int) + t6;
    let t4 = key_attempts() + t5;
    let t3 = enc_payload(e.payload) + t4;
    let t2 = key_payload() + t3;
    let t1 = enc_string(e.url) + t2;
    assert(enc_entry(e) + rest =~= (seq!['{'] + key_url()) + t1);
    lemma_sp_lit_roundtrip(seq!['{'] + key_url(), t1);
    lemma_sp_string_roundtrip(e.url, t2);
    lemma_sp_lit_roundtrip(key_payload(), t3);
    lemma_sp_payload_roundtrip(e.payload, t4);
    lemma_sp_lit_roundtrip(key_attempts(), t5);
    assert(!is_digit_char(t6[0]));
    lemma_sp_number_roundtrip(e.attempts as int, t6);
    lemma_sp_lit_roundtrip(seq!['}'], rest);
}

proof fn lemma_enc_entries_len_ge(rs: Seq<PendingReportView>)
    ensures
        enc_entries(rs).len() >= rs.len(),
    decreases rs.len(),
{
    if rs.len() > 1 {
        lemma_enc_entries_len_ge(rs.drop_first());
    }
}

#[verifier::rlimit(100)]
proof fn lemma_sp_entries_roundtrip(rs: Seq<PendingReportView>, rest: Seq<char>, fuel: nat)
    requires
        rs.len() >= 1,
        fuel >= rs.len(),
        rest.len() == 0 || rest[0] != ',',
    ensures
        sp_entries(enc_entries(rs) + rest, fuel) == Some((rs, rest)),
    decreases rs.len(),
{
    if rs.len() == 1 {
        lemma_sp_entry_roundtrip(rs[0], rest);
        assert(seq![rs[0]] =~= rs);
    } else {
        let rs1 = rs.drop_first();
        let mid = seq![','] + (enc_entries(rs1) + rest);
        assert(enc_entries(rs) + rest =~= enc_entry(rs[0]) + mid);
        lemma_sp_entry_roundtrip(rs[0], mid);
        assert(mid[0] == ',');
        assert(mid.drop_first() =~= enc_entries(rs1) + rest);
        lemma_sp_entries_roundtrip(rs1, rest, (fuel - 1) as nat);
        assert(seq![rs[0]] + rs1 =~= rs);
    }
}

/// Law: persisting a list of pending reports and loading the document back
/// yields the identical list — order preserved, attempt counts intact.
pub proof fn lemma_persist_round_trip(rs: Seq<PendingReportView>)
    ensures
        sp_reports(enc_reports(rs)) == Some(rs),
{
    let s = enc_reports(rs);
    let s1 = enc_entries(rs) + seq![']'];
    assert(s =~= seq!['['] + s1);
    lemma_sp_lit_roundtrip(seq!['['], s1);
    if rs.len() == 0 {
        assert(enc_entries(rs) =~= Seq::<char>::empty());
        assert(s1 =~= seq![']']);
        assert(rs =~= Seq::<PendingReportView>::empty());
    } else {
        lemma_enc_entries_len_ge(rs);
        assert(s1[0] == enc_entries(rs)[0]);
        assert(enc_entries(rs)[0] == enc_entry(rs[0])[0]);
        assert(enc_entry(rs[0])[0] == '{');
        lemma_sp_entries_roundtrip(rs, seq![']'], s1.len() as nat);
    }
}

// ---------------------------------------------------------------------------
// The executable parser
// ---------------------------------------------------------------------------

fn p_lit(v: &Vec<char>, pos: usize, lit: &Vec<char>) -> (r: Option<usize>)
    requires
        pos <= v@.len(),
    ensures
        match r {
            Some(np) => {
                &&& np == pos + lit@.len()
                &&& np <= v@.len()
                &&& sp_lit(v@.skip(pos as int), lit@) == Some(v@.skip(np as int))
            },
            None => sp_lit(v@.skip(pos as int), lit@) is None,
        },
{
    let ghost s = v@.skip(pos as int);
    if v.len() - pos < lit.len() {
        return None;
    }
    let mut j: usize = 0;
    while j < lit.len()
        invariant
            pos <= v@.len(),
            pos + lit@.len() <= v@.len() <= usize::MAX,
            s == v@.skip(pos as int),
            j <= lit@.len(),
            forall|t: int| 0 <= t < j ==> s[t] == lit@[t],
        decreases lit@.len() - j,
    {
        if v[pos + j] != lit[j] {
            proof {
                assert(s[j as int] == v@[pos + j]);
                if s.take(lit@.len() as int) == lit@ {
                    assert(s.take(lit@.len() as int)[j as int] == lit@[j as int]);
                    assert(false);
                }
            }
            return None;
        }
        proof {
            assert(s[j as int] == v@[pos + j]);
        }
        j = j + 1;
    }
    proof {
        assert(s.take(lit@.len() as int) =~= lit@);
        assert(s.skip(lit@.len() as int) =~= v@.skip(pos + lit@.len()));
    }
    Some(pos + lit.len())
}

fn hex_value(c: char) -> (r: Option<u32>)
    ensures
        match r {
            Some(x) => is_hex_low(c) && x == hex_val(c) && x < 16,
            None => !is_hex_low(c),
        },
{
    let u = c as u32;
    if 48 <= u && u <= 57 {
        Some(u - 48)
    } else if 97 <= u && u <= 102 {
        Some(u - 87)
    } else {
        None
    }
}

/// Parses a string at `pos`: an opening quote, the escaped body, and the
/// closing quote, exactly as `sp_string` reads it.
fn p_string(v: &Vec<char>, pos: usize) -> (r: Option<(String, usize)>)
    requires
        pos <= v@.len(),
    ensures
        match r {
            Some((s, np)) => {
                &&& pos < np <= v@.len()
                &&& sp_string(v@.skip(pos as int)) == Some((s@, v@.skip(np as int)))
            },
            None => sp_string(v@.skip(pos as int)) is None,
        },
{
    if pos >= v.len() || v[pos] != '"' {
        return None;
    }
    let ghost s0 = v@.skip(pos + 1);
    proof {
        assert(v@.skip(pos as int)[0] == v@[pos as int]);
        assert(v@.skip(pos as int).drop_first() =~= s0);
    }
    let mut acc: Vec<char> = Vec::new();
    let mut cur: usize = pos + 1;
    proof {
        assert(acc@ =~= Seq::<char>::empty());
    }
    while cur < v.len()
        invariant
            pos < v@.len() <= usize::MAX,
            v@[pos as int] == '"',
            pos + 1 <= cur <= v@.len(),
            s0 == v@.skip(pos + 1),
            sp_string_body(s0, Seq::empty()) == sp_string_body(v@.skip(cur as int), acc@),
        decreases v@.len() - cur,
    {
        let ghost s = v@.skip(cur as int);
        proof {
            assert(s[0] == v@[cur as int]);
            assert(s.drop_first() =~= v@.skip(cur + 1));
            assert(s.len() == v@.len() - cur);
        }
        let c = v[cur];
        if c == '"' {
            proof {
                assert(sp_string_body(s, acc@) == Some((acc@, v@.skip(cur + 1))));
                assert(v@.skip(pos as int)[0] == '"');
                assert(v@.skip(pos as int).drop_first() =~= s0);
            }
            let out = string_from_chars(&acc);
            return Some((out, cur + 1));
        }
        proof {
            assert(v@.skip(pos as int)[0] == '"');
            assert(v@.skip(pos as int).drop_first() =~= s0);
        }
        if c == '\\' {
            if cur + 1 >= v.len() {
                return None;
            }
            proof {
                assert(s[1] == v@[cur + 1]);
                assert(s.skip(2) =~= v@.skip(cur + 2));
            }
            let c2 = v[cur + 1];
            if c2 == '"' {
                acc.push('"');
                cur = cur + 2;
            } else if c2 == '\\' {
                acc.push('\\');
                cur = cur + 2;
            } else if c2 == 'u' {
                if v.len() - cur < 6 {
                    return None;
                }
                proof {
                    assert(s[2] == v@[cur + 2] && s[3] == v@[cur + 3] && s[4] == v@[cur + 4]
                        && s[5] == v@[cur + 5]);
                    assert(s.skip(6) =~= v@.skip(cur + 6));
                }
                if v[cur + 2] != '0' || v[cur + 3] != '0' {
                    return None;
                }
                let h1 = match hex_value(v[cur + 4]) {
                    Some(x) => x,
                    None => {
                        return None;
                    },
                };
                let h2 = match hex_value(v[cur + 5]) {
                    Some(x) => x,
                    None => {
                        return None;
                    },
                };
                let code = h1 * 16 + h2;
                if code >= 32 {
                    return None;
                }
                acc.push((code as u8) as char);
                cur = cur + 6;
            } else {
                return None;
            }
        } else {
            let u = c as u32;
            if u < 32 {
                return None;
            }
            acc.push(c);
            cur = cur + 1;
        }
    }
    proof {
        assert(v@.skip(cur as int) =~= Seq::<char>::empty());
        assert(v@.skip(pos as int)[0] == '"');
        assert(v@.skip(pos as int).drop_first() =~= s0);
    }
    None
}

/// Parses a decimal number at `pos`, refusing values beyond `u64`.
fn p_number(v: &Vec<char>, pos: usize) -> (r: Option<(u64, usize)>)
    requires
        pos <= v@.len(),
    ensures
        match r {
            Some((n, np)) => {
                &&& pos < np <= v@.len()
                &&& sp_number(v@.skip(pos as int)) == Some((n as int, v@.skip(np as int)))
            },
            None => sp_number(v@.skip(pos as int)) is None || sp_number(
                v@.skip(pos as int),
            )->Some_0.0 > u64::MAX,
        },
{
    let ghost s = v@.skip(pos as int);
    if pos >= v.len() || !crate::text::is_digit(v[pos]) {
        proof {
            if s.len() > 0 {
                assert(s[0] == v@[pos as int]);
            }
            assert(digit_prefix_len(s) == 0);
        }
        return None;
    }
    let mut acc: u64 = 0;
    let mut j: usize = pos;
    while j < v.len() && crate::text::is_digit(v[j])
        invariant
            pos <= j <= v@.len(),
            s == v@.skip(pos as int),
            forall|t: int| 0 <= t < j - pos ==> is_digit_char(s[t]),
            acc == digits_val(s.take(j - pos)),
            acc <= u64::MAX,
        decreases v@.len() - j,
    {
        proof {
            assert(s[j - pos] == v@[j as int]);
        }
        let d = (v[j] as u32) - 48;
        if acc > (u64::MAX - (d as u64)) / 10 {
            proof {
                let k = digit_prefix_len(s);
                lemma_digit_prefix_min(s, j + 1 - pos);
                lemma_digit_prefix_in_range(s);
                assert(crate::text::all_digits(s.take(k)));
                assert(s.take(k).subrange(0, j + 1 - pos) =~= s.take(j + 1 - pos));
                crate::text::lemma_digits_val_prefix_le(s.take(k), j + 1 - pos);
                assert(s.take(j + 1 - pos).drop_last() =~= s.take(j - pos));
                assert(s.take(j + 1 - pos).last() == s[j - pos]);
                assert(digits_val(s.take(j + 1 - pos)) == acc * 10 + digit_val(s[j - pos]));
                assert(acc * 10 + digit_val(s[j - pos]) > u64::MAX) by (nonlinear_arith)
                    requires
                        acc > (u64::MAX - digit_val(s[j - pos])) / 10,
                        0 <= digit_val(s[j - pos]) < 10,
                        acc >= 0,
                ;
            }
            return None;
        }
        acc = acc * 10 + (d as u64);
        j = j + 1;
        proof {
            assert(s.take(j - pos).drop_last() =~= s.take(j - pos - 1));
            assert(s.take(j - pos).last() == s[j - pos - 1]);
        }
    }
    proof {
        let d = s.take(j - pos);
        let rest = s.skip(j - pos);
        assert(d + rest =~= s);
        if j < v@.len() {
            assert(rest[0] == v@[j as int]);
        }
        lemma_digit_prefix_exact(d, rest);
        assert(digit_prefix_len(s) == j - pos >= 1);
    }
    Some((acc, j))
}

proof fn lemma_digit_prefix_min(s: Seq<char>, m: int)
    requires
        0 <= m <= s.len(),
        forall|t: int| 0 <= t < m ==> is_digit_char(s[t]),
    ensures
        digit_prefix_len(s) >= m,
    decreases m,
{
    lemma_digit_prefix_in_range(s);
    if m > 0 {
        assert(is_digit_char(s[0]));
        assert forall|t: int| 0 <= t < m - 1 implies is_digit_char(s.drop_first()[t]) by {
            assert(s.drop_first()[t] == s[t + 1]);
            assert(is_digit_char(s[t + 1]));
        }
        lemma_digit_prefix_min(s.drop_first(), m - 1);
    }
}

proof fn lemma_digit_prefix_in_range(s: Seq<char>)
    ensures
        0 <= digit_prefix_len(s) <= s.len(),
        crate::text::all_digits(s.take(digit_prefix_len(s))),
    decreases s.len(),
{
    if s.len() > 0 && is_digit_char(s[0]) {
        lemma_digit_prefix_in_range(s.drop_first());
        let k = digit_prefix_len(s);
        assert forall|t: int| 0 <= t < k implies is_digit_char(s.take(k)[t]) by {
            if t > 0 {
                assert(s.drop_first().take(k - 1)[t - 1] == s[t]);
            }
        }
    }
}

fn p_opt_string(v: &Vec<char>, pos: usize) -> (r: Option<(Option<String>, usize)>)
    requires
        pos <= v@.len(),
    ensures
        match r {
            Some((o, np)) => {
                &&& pos < np <= v@.len()
                &&& sp_opt_string(v@.skip(pos as int)) == Some(
                    (crate::report::view_opt(o), v@.skip(np as int)),
                )
            },
            None => sp_opt_string(v@.skip(pos as int)) is None,
        },
{
    let ghost s = v@.skip(pos as int);
    if pos < v.len() && v[pos] == 'n' {
        proof {
            assert(s[0] == 'n');
        }
        let null_lit = vec!['n', 'u', 'l', 'l'];
        proof {
            assert(null_lit@ =~= seq!['n', 'u', 'l', 'l']);
        }
        match p_lit(v, pos, &null_lit) {
            Some(np) => Some((None, np)),
            None => None,
        }
    } else {
        proof {
            if s.len() > 0 {
                assert(s[0] == v@[pos as int]);
            }
        }
        match p_string(v, pos) {
            Some((st, np)) => Some((Some(st), np)),
            None => None,
        }
    }
}

/// One literal built from a string constant, for the fixed keys.
fn lit_chars(lit: &str) -> (r: Vec<char>)
    ensures
        r@ == lit@,
{
    chars_of(lit)
}

#[verifier::rlimit(100)]
fn p_payload(v: &Vec<char>, pos: usize) -> (r: Option<(
    crate::report::BackupPlanReportRequest,
    usize,
)>)
    requires
        pos <= v@.len(),
    ensures
        match r {
            Some((p, np)) => {
                &&& pos < np <= v@.len()
                &&& sp_payload(v@.skip(pos as int)) == Some((p@, v@.skip(np as int)))
            },
            None => sp_payload(v@.skip(pos as int)) is None,
        },
{
    let k0 = lit_chars("{\"status\":");
    proof {
        reveal_strlit("{\"status\":");
        assert(k0@ =~= seq!['{'] + key_status());
    }
    let p1 = match p_lit(v, pos, &k0) {
        Some(x) => x,
        None => {
            return None;
        },
    };
    let (status, p2) = match p_string(v, p1) {
        Some(x) => x,
        None => {
            return None;
        },
    };
    let k1 = lit_chars(",\"error\":");
    proof {
        reveal_strlit(",\"error\":");
        assert(k1@ =~= key_error());
    }
    let p3 = match p_lit(v, p2, &k1) {
        Some(x) => x,
        None => {
            return None;
        },
    };
    let (error, p4) = match p_opt_string(v, p3) {
        Some(x) => x,
        None => {
            return None;
        },
    };
    let k2 = lit_chars(",\"durationMs\":");
    proof {
        reveal_strlit(",\"durationMs\":");
        assert(k2@ =~= key_duration_ms());
    }
    let p5 = match p_lit(v, p4, &k2) {
        Some(x) => x,
        None => {
            return None;
        },
    };
    let (duration_ms, p6) = match p_number(v, p5) {
        Some(x) => x,
        None => {
            return None;
        },
    };
    let k3 = lit_chars(",\"snapshotId\":");
    proof {
        reveal_strlit(",\"snapshotId\":");
        assert(k3@ =~= key_snapshot_id());
    }
    let p7 = match p_lit(v, p6, &k3) {
        Some(x) => x,
        None => {
            return None;
        },
    };
    let (snapshot_id, p8) = match p_opt_string(v, p7) {
        Some(x) => x,
        None => {
            return None;
        },
    };
    let k4 = lit_chars(",\"snapshotTime\":");
    proof {
        reveal_strlit(",\"snapshotTime\":");
        assert(k4@ =~= key_snapshot_time());
    }
    let p9 = match p_lit(v, p8, &k4) {
        Some(x) => x,
        None => {
            return None;
        },
    };
    let (snapshot_time, p10) = match p_opt_string(v, p9) {
        Some(x) => x,
        None => {
            return None;
        },
    };
    let k5 = lit_chars(",\"nextRunAt\":");
    proof {
        reveal_strlit(",\"nextRunAt\":");
        assert(k5@ =~= key_next_run_at());
    }
    let p11 = match p_lit(v, p10, &k5) {
        Some(x) => x,
        None => {
            return None;
        },
    };
    let (next_run_at, p12) = match p_opt_string(v, p11) {
        Some(x) => x,
        None => {
            return None;
        },
    };
    let k6 = lit_chars(",\"output\":");
    proof {
        reveal_strlit(",\"output\":");
        assert(k6@ =~= key_output());
    }
    let p13 = match p_lit(v, p12, &k6) {
        Some(x) => x,
        None => {
            return None;
        },
    };
    let (output, p14) = match p_string(v, p13) {
        Some(x) => x,
        None => {
            return None;
        },
    };
    let k7 = lit_chars("}");
    proof {
        reveal_strlit("}");
        assert(k7@ =~= seq!['}']);
    }
    let p15 = match p_lit(v, p14, &k7) {
        Some(x) => x,
        None => {
            return None;
        },
    };
    let out = crate::report::BackupPlanReportRequest {
        status,
        error,
        duration_ms,
        snapshot_id,
        snapshot_time,
        next_run_at,
        output,
    };
    proof {
        assert(sp_payload(v@.skip(pos as int)) == Some((out@, v@.skip(p15 as int))));
    }
    Some((out, p15))
}

#[verifier::rlimit(100)]
fn p_entry(v: &Vec<char>, pos: usize) -> (r: Option<(PendingReport, usize)>)
    requires
        pos <= v@.len(),
    ensures
        match r {
            Some((e, np)) => {
                &&& pos < np <= v@.len()
                &&& sp_entry(v@.skip(pos as int)) == Some((e@, v@.skip(np as int)))
            },
            None => sp_entry(v@.skip(pos as int)) is None,
        },
{
    let k0 = lit_chars("{\"url\":");
    proof {
        reveal_strlit("{\"url\":");
        assert(k0@ =~= seq!['{'] + key_url());
    }
    let p1 = match p_lit(v, pos, &k0) {
        Some(x) => x,
        None => {
            return None;
        },
    };
    let (url, p2) = match p_string(v, p1) {
        Some(x) => x,
        None => {
            return None;
        },
    };
    let k1 = lit_chars(",\"payload\":");
    proof {
        reveal_strlit(",\"payload\":");
        assert(k1@ =~= key_payload());
    }
    let p3 = match p_lit(v, p2, &k1) {
        Some(x) => x,
        None => {
            return None;
        },
    };
    let (payload, p4) = match p_payload(v, p3) {
        Some(x) => x,
        None => {
            return None;
        },
    };
    let k2 = lit_chars(",\"attempts\":");
    proof {
        reveal_strlit(",\"attempts\":");
        assert(k2@ =~= key_attempts());
    }
    let p5 = match p_lit(v, p4, &k2) {
        Some(x) => x,
        None => {
            return None;
        },
    };
    let (att, p6) = match p_number(v, p5) {
        Some(x) => x,
        None => {
            return None;
        },
    };
    if att > u32::MAX as u64 {
        return None;
    }
    let k3 = lit_chars("}");
    proof {
        reveal_strlit("}");
        assert(k3@ =~= seq!['}']);
    }
    let p7 = match p_lit(v, p6, &k3) {
        Some(x) => x,
        None => {
            return None;
        },
    };
    let out = PendingReport { url, payload, attempts: att as u32 };
    proof {
        assert(sp_entry(v@.skip(pos as int)) == Some((out@, v@.skip(p7 as int))));
    }
    Some((out, p7))
}

/// Parses a persisted document back into the queued reports it holds;
/// `None` exactly when the text is not a document this module writes.
#[verifier::rlimit(100)]
pub fn parse_pending_reports(text: &str) -> (r: Option<Vec<PendingReport>>)
    ensures
        match r {
            Some(list) => sp_reports(text@) == Some(views_of(list@)),
            None => sp_reports(text@) is None,
        },
{
    let v = chars_of(text);
    let ghost whole = v@;
    let open_lit = vec!['['];
    proof {
        assert(open_lit@ =~= seq!['[']);
        assert(v@.skip(0) =~= v@);
    }
    let p1 = match p_lit(&v, 0, &open_lit) {
        Some(x) => x,
        None => {
            return None;
        },
    };
    let ghost s1 = v@.skip(p1 as int);
    let ghost fuel0 = s1.len() as nat;
    if p1 < v.len() && v[p1] == ']' {
        proof {
            assert(s1[0] == ']');
        }
        if p1 + 1 == v.len() {
            let out: Vec<PendingReport> = Vec::new();
            proof {
                assert(views_of(out@) =~= Seq::<PendingReportView>::empty());
            }
            return Some(out);
        }
        return None;
    }
    proof {
        if s1.len() >= 1 {
            assert(s1[0] == v@[p1 as int]);
        }
    }
    let mut out: Vec<PendingReport> = Vec::new();
    let mut cur: usize = p1;
    let mut i: usize = 0;
    let ghost not_bracket = s1.len() == 0 || s1[0] != ']';
    proof {
        assert(not_bracket);
        assert(views_of(out@) =~= Seq::<PendingReportView>::empty());
        if sp_entries(s1, fuel0) is Some {
            assert(views_of(out@) + sp_entries(s1, fuel0)->Some_0.0 =~= sp_entries(
                s1,
                fuel0,
            )->Some_0.0);
        }
    }
    while cur < v.len()
        invariant
            v@ == text@,
            p1 <= cur <= v@.len() <= usize::MAX,
            s1 == v@.skip(p1 as int),
            fuel0 == s1.len(),
            cur - p1 >= i,
            i <= fuel0,
            sp_lit(v@, seq!['[']) == Some(s1),
            not_bracket,
            not_bracket == (s1.len() == 0 || s1[0] != ']'),
            sp_entries(s1, fuel0) == match sp_entries(v@.skip(cur as int), (fuel0 - i) as nat) {
                None => None::<(Seq<PendingReportView>, Seq<char>)>,
                Some((l, r2)) => Some((views_of(out@) + l, r2)),
            },
        decreases v@.len() - cur,
    {
        let ghost fuel = (fuel0 - i) as nat;
        let (e, np) = match p_entry(&v, cur) {
            Some(x) => x,
            None => {
                proof {
                    assert(sp_entries(v@.skip(cur as int), fuel) is None);
                    assert(sp_reports(v@) is None);
                }
                return None;
            },
        };
        proof {
            assert(v@.skip(cur as int).len() >= 1);
            assert(fuel >= 1);
        }
        let ghost pre_out = views_of(out@);
        out.push(e);
        proof {
            assert(views_of(out@) =~= pre_out.push(e@));
        }
        if np < v.len() && v[np] == ',' {
            proof {
                let rest = v@.skip(np as int);
                assert(rest[0] == ',');
                assert(rest.drop_first() =~= v@.skip(np + 1));
                let nxt = sp_entries(v@.skip(np + 1), (fuel - 1) as nat);
                if nxt is Some {
                    assert(pre_out + (seq![e@] + nxt->Some_0.0) =~= views_of(out@)
                        + nxt->Some_0.0);
                }
            }
            cur = np + 1;
            i = i + 1;
        } else {
            proof {
                let rest = v@.skip(np as int);
                if rest.len() > 0 {
                    assert(rest[0] == v@[np as int]);
                }
                assert(sp_entries(v@.skip(cur as int), fuel) == Some((seq![e@], rest)));
                assert(pre_out + seq![e@] =~= views_of(out@));
            }
            if np == v.len() - 1 && v[np] == ']' {
                proof {
                    assert(v@.skip(np as int) =~= seq![']']);
                    assert(sp_entries(s1, fuel0) == Some((pre_out + seq![e@], seq![']'])));
                    assert(sp_reports(v@) == Some(pre_out + seq![e@]));
                }
                return Some(out);
            }
            proof {
                let rest = v@.skip(np as int);
                if rest == seq![']'] {
                    assert(rest.len() == 1);
                    assert(rest[0] == ']');
                    assert(np < v@.len());
                    assert(v@[np as int] == ']');
                    assert(np + 1 == v@.len());
                    assert(false);
                }
                assert(sp_entries(s1, fuel0) == Some((pre_out + seq![e@], rest)));
                assert(sp_reports(v@) is None);
            }
            return None;
        }
    }
    proof {
        assert(v@.skip(cur as int) =~= Seq::<char>::empty());
        assert(sp_entries(v@.skip(cur as int), (fuel0 - i) as nat) is None);
        assert(sp_reports(v@) is None);
    }
    None
}

} // verus!
