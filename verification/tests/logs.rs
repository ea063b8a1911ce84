use flowsurface_server::calendar::{civil_date_from_days, utc_date, utc_date_at};
use flowsurface_server::diagnostics::AccessDiagnostics;
use flowsurface_server::logging::{
    choose_current_file, is_access_target, is_date_key, is_feed_target, is_server_target,
    log_file_name, next_segment, parse_log_name, prune_old_files, report_access_delta,
    shown_on_stdout, sort_newest_first, CurrentFile, LogAction, LogFile, LogLimits, LogReply,
    RollingFile, LOG_MAX_FILE_BYTES, LOG_MAX_TOTAL_BYTES, LOG_RECOVERY_INTERVAL,
    LOG_RETENTION_DAYS, OVERSIZED_EVENT_MARKER, OVERSIZED_MARKER_LEN,
};

fn file(date: &str, segment: u32, size: u64) -> LogFile {
    LogFile {
        name: log_file_name("server", date, segment),
        date: date.to_string(),
        segment,
        size,
    }
}

fn rolling(size: u64, max: u64) -> RollingFile {
    RollingFile::new("2024-05-01".to_string(), 3, size, max)
}

fn today() -> String {
    "2024-05-01".to_string()
}

#[test]
fn days_are_dates() {
    assert_eq!(civil_date_from_days(0), (1970, 1, 1));
    assert_eq!(civil_date_from_days(-1), (1969, 12, 31));
    assert_eq!(civil_date_from_days(11_016), (2000, 2, 29));
    assert_eq!(civil_date_from_days(19_782), (2024, 2, 29));
    assert_eq!(civil_date_from_days(19_783), (2024, 3, 1));
    assert_eq!(civil_date_from_days(-719_468), (0, 3, 1));
    let (_, first, _) = civil_date_from_days(i64::MIN);
    let (_, last, _) = civil_date_from_days(i64::MAX - 719_468);
    assert!((1..=12).contains(&first) && (1..=12).contains(&last));
    assert_eq!(utc_date_at(86_399), "1970-01-01");
    assert_eq!(utc_date_at(1_709_164_800), "2024-02-29");
    assert!(utc_date().as_str() > "2020-01-01");
    assert!(utc_date_at(1_000_000_000) < utc_date_at(1_100_000_000));
}

#[test]
fn targets_have_one_category() {
    assert!(is_feed_target("flowsurface_server::feeds"));
    assert!(is_feed_target("flowsurface_server::stream::engine"));
    assert!(is_feed_target("flowsurface_exchange::adapter"));
    assert!(is_access_target("flowsurface_server::access"));
    assert!(is_server_target("flowsurface_server::storage"));
    assert!(!is_server_target("flowsurface_server::access"));
    assert!(!is_access_target("flowsurface_server::access::x"));
    assert!(shown_on_stdout("flowsurface_server::storage", true));
    assert!(!shown_on_stdout("flowsurface_server::access", true));
    assert!(shown_on_stdout("flowsurface_server::access", false));
}

#[test]
fn access_summaries_are_differences() {
    let mut previous = AccessDiagnostics::default();
    let current = AccessDiagnostics {
        rate_limited: 4,
        ..AccessDiagnostics::default()
    };
    assert_eq!(
        report_access_delta(current, &mut previous).unwrap().rate_limited,
        4
    );
    assert!(report_access_delta(current, &mut previous).is_none());
}

#[test]
fn log_names_round_trip() {
    assert_eq!(
        log_file_name("server", "2024-05-01", 0),
        "server.2024-05-01.log"
    );
    assert_eq!(
        log_file_name("server", "2024-05-01", 12),
        "server.2024-05-01.12.log"
    );
    assert_eq!(
        parse_log_name("server.2024-05-01.12.log", "server"),
        Some(("2024-05-01".to_string(), 12))
    );
    assert_eq!(
        parse_log_name("server.2024-05-01.log", "server"),
        Some(("2024-05-01".to_string(), 0))
    );
    assert_eq!(parse_log_name("feeds.2024-05-01.log", "server"), None);
    assert_eq!(parse_log_name("server.2024-05-01.x.log", "server"), None);
    assert_eq!(parse_log_name("server.2024-5-01.log", "server"), None);
    assert_eq!(parse_log_name("server.2024-05-01", "server"), None);
    let key: Vec<char> = "2024-05-01".chars().collect();
    assert!(is_date_key(&key));
    assert!(!is_date_key(&key[1..]));
}

#[test]
fn limits_must_fit_one_file() {
    let limits = LogLimits {
        retention_days: LOG_RETENTION_DAYS,
        max_file_bytes: LOG_MAX_FILE_BYTES,
        max_total_bytes: LOG_MAX_TOTAL_BYTES,
    };
    assert_eq!(limits.check(), Ok(()));
    let zero = LogLimits {
        max_file_bytes: 0,
        ..limits
    };
    let small = LogLimits {
        max_total_bytes: LOG_MAX_FILE_BYTES - 1,
        ..limits
    };
    let message = "log size limits must be positive and the total must fit one file";
    assert_eq!(zero.check(), Err(message.to_string()));
    assert_eq!(small.check(), Err(message.to_string()));
}

#[test]
fn old_files_are_pruned() {
    let files = vec![
        file("2024-04-30", 0, 60),
        file("2024-05-01", 0, 50),
        file("2024-05-01", 1, 10),
        file("2024-04-28", 0, 1),
        file("2024-04-29", 0, 1),
    ];
    let sorted = sort_newest_first(&files);
    assert_eq!(sorted[0].segment, 1);
    assert_eq!(sorted[4].date, "2024-04-28");
    let limits = LogLimits {
        retention_days: 3,
        max_file_bytes: 100,
        max_total_bytes: 200,
    };
    let removed = prune_old_files(&files, limits, "server.2024-05-01.1.log", "2024-05-01");
    let names: Vec<&str> = removed.iter().map(|f| f.name.as_str()).collect();
    // 50 + 60 is over the 100 bytes that are left for old files.
    assert_eq!(names, vec!["server.2024-04-30.log"]);
    let one_day = LogLimits {
        retention_days: 1,
        ..limits
    };
    assert_eq!(
        prune_old_files(&files, one_day, "server.2024-05-01.1.log", "2024-05-01").len(),
        3
    );
}

#[test]
fn current_file_is_the_last_segment_with_room() {
    let files = vec![
        file("2024-05-01", 0, 50),
        file("2024-05-01", 2, 9),
        file("2024-04-30", 7, 1),
    ];
    assert_eq!(
        choose_current_file(&files, "2024-05-01", 10),
        CurrentFile::Reopen { index: 1 }
    );
    assert_eq!(
        choose_current_file(&files, "2024-05-01", 9),
        CurrentFile::Create { segment: 3 }
    );
    assert_eq!(
        choose_current_file(&files, "2024-05-02", 9),
        CurrentFile::Create { segment: 0 }
    );
    assert_eq!(
        choose_current_file(&vec![file("2024-05-01", u32::MAX, 9)], "2024-05-01", 9),
        CurrentFile::Exhausted
    );
    assert_eq!(next_segment(4), Some(5));
    assert_eq!(next_segment(u32::MAX), None);
}

#[test]
fn events_are_written_while_they_fit() {
    let mut log = rolling(90, 100);
    assert!(matches!(
        log.begin_write(10, 0, today()),
        LogAction::WriteFile { marker: false }
    ));
    assert!(matches!(log.step(LogReply::Done, 0), LogAction::Finished));
    assert!(matches!(
        log.begin_write(1, 0, today()),
        LogAction::CreateSegment { segment: 4 }
    ));
    assert!(matches!(
        log.step(
            LogReply::Opened {
                segment: 6,
                size: 0
            },
            0
        ),
        LogAction::Prune
    ));
    assert_eq!(log.segment(), 6);
    assert!(matches!(
        log.step(LogReply::Done, 0),
        LogAction::WriteFile { marker: false }
    ));
    assert_eq!(log.payload_len(), 1);
    assert!(matches!(log.step(LogReply::Done, 0), LogAction::Finished));
    assert!(matches!(
        log.begin_write(0, 0, today()),
        LogAction::Finished
    ));
}

#[test]
fn oversized_events_leave_a_marker() {
    assert_eq!(OVERSIZED_EVENT_MARKER.len() as u64, OVERSIZED_MARKER_LEN);
    let mut log = rolling(0, 100);
    assert!(matches!(
        log.begin_write(101, 0, today()),
        LogAction::WriteFile { marker: true }
    ));
    assert_eq!(log.payload_len(), 43);
    let mut tiny = rolling(0, 7);
    tiny.begin_write(8, 0, today());
    assert_eq!(tiny.payload_len(), 7);
}

#[test]
fn a_new_day_opens_a_new_file() {
    let mut log = rolling(0, 100);
    let action = log.begin_write(5, 0, "2024-05-02".to_string());
    assert!(matches!(&action, LogAction::OpenDate { date } if date == "2024-05-02"));
    assert!(matches!(
        log.step(
            LogReply::Opened {
                segment: 0,
                size: 98
            },
            0
        ),
        LogAction::Prune
    ));
    assert_eq!(log.date(), "2024-05-02");
    assert!(matches!(
        log.step(LogReply::Done, 0),
        LogAction::CreateSegment { segment: 1 }
    ));
}

#[test]
fn failures_suspend_the_file_for_a_minute() {
    let mut log = rolling(0, 100);
    log.begin_write(5, 10, today());
    assert!(log.reports_suspension(10));
    assert!(matches!(
        log.step(LogReply::Failed, 10),
        LogAction::WriteFallback { marker: false }
    ));
    assert!(log.is_suspended());
    assert!(!log.reports_suspension(11));
    assert!(matches!(log.step(LogReply::Done, 10), LogAction::Finished));
    assert!(matches!(
        log.begin_write(5, 9 + LOG_RECOVERY_INTERVAL, today()),
        LogAction::WriteFallback { marker: false }
    ));
    log.step(LogReply::Done, 0);
    let later = 10 + LOG_RECOVERY_INTERVAL;
    assert!(matches!(
        log.begin_write(5, later, today()),
        LogAction::Reopen
    ));
    assert!(matches!(
        log.step(LogReply::Reopened { size: 20 }, later),
        LogAction::Prune
    ));
    assert!(matches!(
        log.step(LogReply::Done, later),
        LogAction::WriteFile { marker: false }
    ));
    assert!(!log.is_suspended());
    log.suspend_file_logging(later);
    assert!(log.is_suspended());
}
