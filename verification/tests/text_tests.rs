use glare_worker::cli::{pending_reports_path, usage};
use glare_worker::errtext::{
    first_useful_error_line, is_already_initialized_message, is_sensitive_key, strip_ansi_codes,
};
use glare_worker::rclone::{normalize_repository, remote_name};
use glare_worker::report::{extract_snapshot_ref, report_url_for, SnapshotRefSource};

#[test]
fn sensitive_keys_are_recognized() {
    assert!(is_sensitive_key("AWS_SECRET"));
    assert!(is_sensitive_key("password"));
    assert!(is_sensitive_key("Api-Token"));
    assert!(is_sensitive_key("apikey"));
    assert!(is_sensitive_key("access_key_id"));
    assert!(!is_sensitive_key("provider"));
    assert!(!is_sensitive_key("region"));
}

#[test]
fn already_initialized_messages_are_recognized() {
    assert!(is_already_initialized_message("config file already exists"));
    assert!(is_already_initialized_message("repository is Already Initialized"));
    assert!(!is_already_initialized_message("network unreachable"));
}

#[test]
fn ansi_sequences_are_stripped() {
    assert_eq!(strip_ansi_codes("\u{1b}[31mred\u{1b}[0m plain"), "red plain");
    assert_eq!(strip_ansi_codes("no escapes here"), "no escapes here");
    // A lone escape without a bracket stays.
    assert_eq!(strip_ansi_codes("a\u{1b}b"), "a\u{1b}b");
    // An unterminated sequence is consumed to the end.
    assert_eq!(strip_ansi_codes("x\u{1b}[123"), "x");
}

#[test]
fn error_line_after_message_marker() {
    let stderr = "info: starting up\nMessage:\nsome additional details follow below\nthe repository is locked\n";
    assert_eq!(first_useful_error_line(stderr).as_deref(), Some("the repository is locked"));
}

#[test]
fn error_line_from_inline_message() {
    let stderr = "[INFO] working\nmessage: disk is full\n";
    assert_eq!(first_useful_error_line(stderr).as_deref(), Some("disk is full"));
}

#[test]
fn error_line_falls_back_to_non_info_line() {
    let stderr = "info: starting\n\u{1b}[31merror: something broke\u{1b}[0m\n";
    assert_eq!(first_useful_error_line(stderr).as_deref(), Some("error: something broke"));
}

#[test]
fn error_line_none_when_only_chatter() {
    assert!(first_useful_error_line("").is_none());
    assert!(first_useful_error_line("   \n\n").is_none());
    assert!(first_useful_error_line("[info] all good\ninfo: still fine\n").is_none());
}

#[test]
fn report_url_is_derived_from_the_controller_base() {
    assert_eq!(
        report_url_for("http://master:8080/", "p1"),
        "http://master:8080/api/workers/backup-plans/p1/report",
    );
    assert_eq!(
        report_url_for("http://master:8080", "p1"),
        "http://master:8080/api/workers/backup-plans/p1/report",
    );
}

#[test]
fn pending_reports_path_joins_the_state_dir() {
    assert_eq!(pending_reports_path("/var/lib/worker"), "/var/lib/worker/pending_reports.json");
    assert_eq!(pending_reports_path("dir/"), "dir/pending_reports.json");
    assert_eq!(pending_reports_path(""), "pending_reports.json");
}

#[test]
fn usage_carries_the_message_and_banner() {
    let text = usage("missing required --api-token");
    assert!(text.starts_with("missing required --api-token\nusage: worker "));
    assert!(text.contains("--master-api-endpoint <url>"));
    assert!(text.contains("[--state-dir <path>]"));
}

#[test]
fn snapshot_ref_prefers_the_long_field_names() {
    let source = Some(SnapshotRefSource {
        snapshot_id: Some("long".to_string()),
        id: Some("short".to_string()),
        snapshot_time: None,
        time: Some("t1".to_string()),
    });
    let (sid, stime) = extract_snapshot_ref(&source);
    assert_eq!(sid.as_deref(), Some("long"));
    assert_eq!(stime.as_deref(), Some("t1"));
    let (none_id, none_time) = extract_snapshot_ref(&None);
    assert!(none_id.is_none());
    assert!(none_time.is_none());
}

#[test]
fn remote_name_prefers_the_option() {
    let opts = vec![("rclone.remote".to_string(), " r1 ".to_string())];
    assert_eq!(remote_name("/backups/a", &opts).as_deref(), Some("r1"));
    // An empty option falls back to the repository string.
    let blank = vec![("rclone.remote".to_string(), "  ".to_string())];
    assert_eq!(remote_name("rclone:foo:path", &blank).as_deref(), Some("foo"));
    assert_eq!(remote_name("rclone:foo:path", &Vec::new()).as_deref(), Some("foo"));
    assert!(remote_name("/backups/a", &Vec::new()).is_none());
}

#[test]
fn repository_is_normalized_for_rclone() {
    assert_eq!(normalize_repository("rclone:x:y", "r"), "rclone:x:y");
    assert_eq!(normalize_repository("/backups/a", "r"), "rclone:r:backups/a");
    assert_eq!(normalize_repository("plain", "r"), "rclone:r:plain");
}
