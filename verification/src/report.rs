//! The outcome report of one plan execution and the entry type of the
//! pending-report queue.

use vstd::prelude::*;

verus! {

/// Spec-level view of a report payload.
#[verifier::ext_equal]
pub struct ReportPayloadView {
    pub status: Seq<char>,
    pub error: Option<Seq<char>>,
    pub duration_ms: u64,
    pub snapshot_id: Option<Seq<char>>,
    pub snapshot_time: Option<Seq<char>>,
    pub next_run_at: Option<Seq<char>>,
    pub output: Seq<char>,
}

/// The outcome of one plan execution, as reported to the controller:
/// status, an optional error, the wall-clock duration, optional snapshot
/// reference fields, the computed next scheduled run, and the opaque
/// command output.
pub struct BackupPlanReportRequest {
    pub status: String,
    pub error: Option<String>,
    pub duration_ms: u64,
    pub snapshot_id: Option<String>,
    pub snapshot_time: Option<String>,
    pub next_run_at: Option<String>,
    pub output: String,
}

pub open spec fn view_opt(o: Option<String>) -> Option<Seq<char>> {
    match o {
        Some(s) => Some(s@),
        None => None,
    }
}

impl View for BackupPlanReportRequest {
    type V = ReportPayloadView;

    open spec fn view(&self) -> ReportPayloadView {
        ReportPayloadView {
            status: self.status@,
            error: view_opt(self.error),
            duration_ms: self.duration_ms,
            snapshot_id: view_opt(self.snapshot_id),
            snapshot_time: view_opt(self.snapshot_time),
            next_run_at: view_opt(self.next_run_at),
            output: self.output@,
        }
    }
}

/// Spec-level view of one queued report.
#[verifier::ext_equal]
pub struct PendingReportView {
    pub url: Seq<char>,
    pub payload: ReportPayloadView,
    pub attempts: u32,
}

/// One report awaiting delivery: the destination, the payload, and how many
/// delivery attempts it has cost so far.
pub struct PendingReport {
    pub url: String,
    pub payload: BackupPlanReportRequest,
    pub attempts: u32,
}

impl View for PendingReport {
    type V = PendingReportView;

    open spec fn view(&self) -> PendingReportView {
        PendingReportView { url: self.url@, payload: self.payload@, attempts: self.attempts }
    }
}

// ---------------------------------------------------------------------------
// Snapshot references
// ---------------------------------------------------------------------------

/// The snapshot-reference fields of the command tool's structured output,
/// as plain values: the first element when the output is a list, else the
/// output object itself.
pub struct SnapshotRefSource {
    pub snapshot_id: Option<String>,
    pub id: Option<String>,
    pub snapshot_time: Option<String>,
    pub time: Option<String>,
}

pub open spec fn spec_snapshot_id(s: SnapshotRefSource) -> Option<Seq<char>> {
    match s.snapshot_id {
        Some(v) => Some(v@),
        None => view_opt(s.id),
    }
}

pub open spec fn spec_snapshot_time(s: SnapshotRefSource) -> Option<Seq<char>> {
    match s.snapshot_time {
        Some(v) => Some(v@),
        None => view_opt(s.time),
    }
}

/// Picks the snapshot id and time out of the command output's fields:
/// `snapshotId` over `id`, `snapshotTime` over `time`; nothing when there
/// was no object to read.
pub fn extract_snapshot_ref(source: &Option<SnapshotRefSource>) -> (r: (
    Option<String>,
    Option<String>,
))
    ensures
        match source {
            None => r.0 is None && r.1 is None,
            Some(s) => view_opt(r.0) == spec_snapshot_id(*s) && view_opt(r.1)
                == spec_snapshot_time(*s),
        },
{
    match source {
        None => (None, None),
        Some(s) => {
            let sid: Option<String> = match &s.snapshot_id {
                Some(v) => Some(v.clone()),
                None => match &s.id {
                    Some(v) => Some(v.clone()),
                    None => None,
                },
            };
            let stime: Option<String> = match &s.snapshot_time {
                Some(v) => Some(v.clone()),
                None => match &s.time {
                    Some(v) => Some(v.clone()),
                    None => None,
                },
            };
            (sid, stime)
        },
    }
}

// ---------------------------------------------------------------------------
// The report endpoint
// ---------------------------------------------------------------------------

/// Trailing slashes removed, as `str::trim_end_matches('/')` leaves it.
pub open spec fn drop_trailing_slashes(s: Seq<char>) -> Seq<char>
    decreases s.len(),
{
    if s.len() > 0 && s.last() == '/' {
        drop_trailing_slashes(s.drop_last())
    } else {
        s
    }
}

/// Where a plan's outcome is reported: the controller base without its
/// trailing slashes, then the per-plan report path.
pub open spec fn spec_report_url(base: Seq<char>, plan_id: Seq<char>) -> Seq<char> {
    drop_trailing_slashes(base) + "/api/workers/backup-plans/"@ + plan_id + "/report"@
}

proof fn lemma_drop_trailing_at(s: Seq<char>, b: int)
    requires
        0 <= b <= s.len(),
        forall|j: int| b <= j < s.len() ==> s[j] == '/',
        b > 0 ==> s[b - 1] != '/',
    ensures
        drop_trailing_slashes(s) == s.subrange(0, b),
    decreases s.len() - b,
{
    if b == s.len() {
        if s.len() == 0 || s.last() != '/' {
            assert(s.subrange(0, b) =~= s);
        } else {
            assert(false);
        }
    } else {
        assert(s.last() == '/');
        lemma_drop_trailing_at(s.drop_last(), b);
        assert(s.drop_last().subrange(0, b) =~= s.subrange(0, b));
    }
}

/// Builds the report endpoint for one plan.
pub fn report_url_for(master_api_endpoint: &str, plan_id: &str) -> (r: String)
    ensures
        r@ == spec_report_url(master_api_endpoint@, plan_id@),
{
    let base = crate::text::chars_of(master_api_endpoint);
    let idv = crate::text::chars_of(plan_id);
    let mut b: usize = base.len();
    while b > 0 && base[b - 1] == '/'
        invariant
            b <= base@.len(),
            forall|j: int| b <= j < base@.len() ==> base@[j] == '/',
        decreases b,
    {
        b = b - 1;
    }
    proof {
        lemma_drop_trailing_at(base@, b as int);
    }
    let mut out: Vec<char> = Vec::new();
    let mut i: usize = 0;
    while i < b
        invariant
            i <= b <= base@.len(),
            out@ == base@.subrange(0, i as int),
        decreases b - i,
    {
        out.push(base[i]);
        i = i + 1;
        proof {
            assert(out@ =~= base@.subrange(0, i as int));
        }
    }
    let mid = crate::text::chars_of("/api/workers/backup-plans/");
    let mut j: usize = 0;
    let ghost after_base = out@;
    while j < mid.len()
        invariant
            j <= mid@.len(),
            out@ == after_base + mid@.subrange(0, j as int),
        decreases mid@.len() - j,
    {
        out.push(mid[j]);
        j = j + 1;
        proof {
            assert(out@ =~= after_base + mid@.subrange(0, j as int));
        }
    }
    proof {
        assert(mid@.subrange(0, mid@.len() as int) =~= mid@);
    }
    let ghost after_mid = out@;
    let mut k: usize = 0;
    while k < idv.len()
        invariant
            k <= idv@.len(),
            out@ == after_mid + idv@.subrange(0, k as int),
        decreases idv@.len() - k,
    {
        out.push(idv[k]);
        k = k + 1;
        proof {
            assert(out@ =~= after_mid + idv@.subrange(0, k as int));
        }
    }
    proof {
        assert(idv@.subrange(0, idv@.len() as int) =~= idv@);
    }
    let tail = crate::text::chars_of("/report");
    let ghost after_id = out@;
    let mut t: usize = 0;
    while t < tail.len()
        invariant
            t <= tail@.len(),
            out@ == after_id + tail@.subrange(0, t as int),
        decreases tail@.len() - t,
    {
        out.push(tail[t]);
        t = t + 1;
        proof {
            assert(out@ =~= after_id + tail@.subrange(0, t as int));
        }
    }
    proof {
        assert(tail@.subrange(0, tail@.len() as int) =~= tail@);
        assert(out@ =~= spec_report_url(master_api_endpoint@, plan_id@));
    }
    crate::text::string_from_chars(&out)
}

} // verus!
