use glare_worker::persist::{parse_pending_reports, serialize_pending_reports};
use glare_worker::queue::{process_flush_results, ReportQueue};
use glare_worker::report::{BackupPlanReportRequest, PendingReport};
use glare_worker::{PENDING_REPORTS_MAX, PENDING_REPORT_MAX_ATTEMPTS};

fn payload(status: &str) -> BackupPlanReportRequest {
    BackupPlanReportRequest {
        status: status.to_string(),
        error: None,
        duration_ms: 1500,
        snapshot_id: Some("abc123".to_string()),
        snapshot_time: None,
        next_run_at: Some("2024-01-01T02:30:00".to_string()),
        output: "{\"ok\":true}".to_string(),
    }
}

fn entry(url: &str, attempts: u32) -> PendingReport {
    PendingReport { url: url.to_string(), payload: payload("success"), attempts }
}

#[test]
fn queue_never_exceeds_capacity_and_evicts_oldest() {
    let mut q = ReportQueue::new();
    for i in 0..(PENDING_REPORTS_MAX + 1) {
        q.enqueue(entry(&format!("u{i}"), 1));
        assert!(q.len() <= PENDING_REPORTS_MAX);
    }
    assert_eq!(q.len(), PENDING_REPORTS_MAX);
    let items = q.drain_all();
    assert_eq!(q.len(), 0);
    // u0 was the single entry evicted; u1 is now the oldest.
    assert_eq!(items[0].url, "u1");
    assert_eq!(items[items.len() - 1].url, format!("u{PENDING_REPORTS_MAX}"));
}

#[test]
fn drain_returns_entries_oldest_first() {
    let mut q = ReportQueue::new();
    q.enqueue(entry("a", 1));
    q.enqueue(entry("b", 2));
    let items = q.drain_all();
    assert_eq!(items.len(), 2);
    assert_eq!(items[0].url, "a");
    assert_eq!(items[1].url, "b");
}

#[test]
fn flush_drops_delivered_and_bumps_failed() {
    let items = vec![entry("kept", 1), entry("delivered", 3), entry("fresh", 0)];
    let delivered = vec![false, true, false];
    let kept = process_flush_results(items, &delivered);
    assert_eq!(kept.len(), 2);
    assert_eq!(kept[0].url, "kept");
    assert_eq!(kept[0].attempts, 2);
    assert_eq!(kept[1].url, "fresh");
    assert_eq!(kept[1].attempts, 1);
}

#[test]
fn flush_drops_entry_reaching_attempt_twenty_one() {
    // At the retry budget, one more failure means attempt twenty-one: dropped.
    let items = vec![entry("exhausted", PENDING_REPORT_MAX_ATTEMPTS), entry("young", 19)];
    let delivered = vec![false, false];
    let kept = process_flush_results(items, &delivered);
    assert_eq!(kept.len(), 1);
    assert_eq!(kept[0].url, "young");
    assert_eq!(kept[0].attempts, 20);
}

#[test]
fn requeue_respects_capacity() {
    let mut q = ReportQueue::new();
    let mut items = Vec::new();
    for i in 0..(PENDING_REPORTS_MAX + 7) {
        items.push(entry(&format!("r{i}"), 1));
    }
    q.requeue_all(items);
    assert_eq!(q.len(), PENDING_REPORTS_MAX);
    let drained = q.drain_all();
    assert_eq!(drained[0].url, "r7");
}

fn assert_same_entries(a: &[PendingReport], b: &[PendingReport]) {
    assert_eq!(a.len(), b.len());
    for (x, y) in a.iter().zip(b.iter()) {
        assert_eq!(x.url, y.url);
        assert_eq!(x.attempts, y.attempts);
        assert_eq!(x.payload.status, y.payload.status);
        assert_eq!(x.payload.error, y.payload.error);
        assert_eq!(x.payload.duration_ms, y.payload.duration_ms);
        assert_eq!(x.payload.snapshot_id, y.payload.snapshot_id);
        assert_eq!(x.payload.snapshot_time, y.payload.snapshot_time);
        assert_eq!(x.payload.next_run_at, y.payload.next_run_at);
        assert_eq!(x.payload.output, y.payload.output);
    }
}

#[test]
fn persist_round_trip_preserves_entries() {
    let mut entries = Vec::new();
    for i in 0..5 {
        entries.push(entry(&format!("http://master/api/workers/backup-plans/p{i}/report"), i));
    }
    let doc = serialize_pending_reports(&entries);
    let loaded = parse_pending_reports(&doc).expect("own documents parse");
    assert_same_entries(&entries, &loaded);
}

#[test]
fn persist_round_trip_with_awkward_text() {
    let mut e = entry("http://master/x?a=\"b\"&c=d\\e", 7);
    e.payload.error = Some("line one\nline two\ttabbed \u{1b} and \"quoted\"".to_string());
    e.payload.status = "failed".to_string();
    e.payload.snapshot_time = Some("héllo — ✓ ünïcode".to_string());
    e.payload.output = String::new();
    let entries = vec![e];
    let doc = serialize_pending_reports(&entries);
    let loaded = parse_pending_reports(&doc).expect("own documents parse");
    assert_same_entries(&entries, &loaded);
}

#[test]
fn persist_empty_list_round_trips() {
    let entries: Vec<PendingReport> = Vec::new();
    let doc = serialize_pending_reports(&entries);
    assert_eq!(doc, "[]");
    let loaded = parse_pending_reports(&doc).expect("empty document parses");
    assert!(loaded.is_empty());
}

#[test]
fn parse_rejects_corrupt_documents() {
    assert!(parse_pending_reports("").is_none());
    assert!(parse_pending_reports("not json").is_none());
    assert!(parse_pending_reports("[{\"url\":\"x\"}]").is_none());
    assert!(parse_pending_reports("[").is_none());
    let good = serialize_pending_reports(&vec![entry("u", 1)]);
    let mut truncated = good.clone();
    truncated.pop();
    assert!(parse_pending_reports(&truncated).is_none());
    assert!(parse_pending_reports(&format!("{good} ")).is_none());
}
