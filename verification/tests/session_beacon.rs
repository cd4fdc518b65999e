use rsave::backup::{Backup, BackupStatus};
use rsave::beacon::{beacon_tick_action, is_beacon_running, parse_pid, TickAction};
use rsave::cli::config_flags_conflict;
use rsave::session::{
    parse_session_line, render_session_line, save_then_load_line, session_fresh, SESSION_TTL_SECS,
};

#[test]
fn session_line_round_trips_while_fresh() {
    let line = render_session_line(1_000_000, "hunter2");
    assert_eq!(parse_session_line(&line, 1_000_000), Some("hunter2".to_string()));
    assert_eq!(
        parse_session_line(&line, 1_000_000 + SESSION_TTL_SECS),
        Some("hunter2".to_string())
    );
}

#[test]
fn session_line_expires_after_ttl() {
    let line = render_session_line(1_000_000, "hunter2");
    assert_eq!(parse_session_line(&line, 1_000_000 + SESSION_TTL_SECS + 1), None);
}

#[test]
fn save_then_load_line_matches_clock() {
    assert_eq!(
        save_then_load_line(500, 500 + SESSION_TTL_SECS, "pw"),
        Some("pw".to_string())
    );
    assert_eq!(save_then_load_line(500, 500 + SESSION_TTL_SECS + 1, "pw"), None);
}

#[test]
fn session_line_format_is_rfc3339_and_separator() {
    let line = render_session_line(0, "pw");
    assert_eq!(line, "1970-01-01T00:00:00+00:00::pw");
}

#[test]
fn malformed_session_lines_read_as_absent() {
    assert_eq!(parse_session_line("", 0), None);
    assert_eq!(parse_session_line("no separator", 0), None);
    assert_eq!(parse_session_line("not a timestamp::pw", 0), None);
    assert_eq!(
        parse_session_line("1970-01-01T00:00:00+00:00::pw::extra", 10),
        None
    );
}

#[test]
fn session_freshness_boundary() {
    assert!(session_fresh(100, 100 + SESSION_TTL_SECS));
    assert!(!session_fresh(100, 100 + SESSION_TTL_SECS + 1));
    assert!(session_fresh(100, 50));
}

#[test]
fn parse_pid_reads_decimal_with_whitespace() {
    assert_eq!(parse_pid("123"), Some(123));
    assert_eq!(parse_pid(" 42\n"), Some(42));
    assert_eq!(parse_pid("2147483647"), Some(2147483647));
}

#[test]
fn parse_pid_rejects_bad_text() {
    assert_eq!(parse_pid(""), None);
    assert_eq!(parse_pid("   \n"), None);
    assert_eq!(parse_pid("12a"), None);
    assert_eq!(parse_pid("2147483648"), None);
    assert_eq!(parse_pid("99999999999999999999"), None);
}

#[test]
fn beacon_not_running_without_pid_file() {
    assert!(!is_beacon_running(None));
    assert!(!is_beacon_running(Some("not a pid")));
    assert!(!is_beacon_running(Some("")));
}

#[test]
fn beacon_running_for_this_process() {
    let own_pid = nix::unistd::getpid().as_raw();
    let text = own_pid.to_string();
    assert!(is_beacon_running(Some(&text)));
}

#[test]
fn beacon_tick_deletes_only_stale_existing_sessions() {
    assert!(matches!(
        beacon_tick_action(false, true),
        TickAction::DeleteSessionAndLog
    ));
    assert!(matches!(beacon_tick_action(true, true), TickAction::LogOnly));
    assert!(matches!(beacon_tick_action(false, false), TickAction::LogOnly));
    assert!(matches!(beacon_tick_action(true, false), TickAction::LogOnly));
}

#[test]
fn backup_lifecycle_states() {
    let b = Backup::new("nightly".to_string());
    assert_eq!(b.name, "nightly");
    assert!(matches!(b.status, BackupStatus::Running));
    assert!(b.finished_at.is_none());
    let done = b.complete();
    assert!(matches!(done.status, BackupStatus::Completed));
    assert!(done.finished_at.is_some());

    let failed = Backup::new("weekly".to_string()).fail("disk full".to_string());
    match &failed.status {
        BackupStatus::Failed(e) => assert_eq!(e, "disk full"),
        _ => panic!("expected the failed status"),
    }
    assert!(failed.finished_at.is_some());
}

#[test]
fn backup_ids_differ() {
    let a = Backup::new("a".to_string());
    let b = Backup::new("b".to_string());
    assert_ne!(a.id, b.id);
}

#[test]
fn config_flags_conflict_only_when_both() {
    assert!(config_flags_conflict(true, true));
    assert!(!config_flags_conflict(true, false));
    assert!(!config_flags_conflict(false, true));
    assert!(!config_flags_conflict(false, false));
}
