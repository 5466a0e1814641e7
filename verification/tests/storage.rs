use autorize::error::Error;
use autorize::score::Score;
use autorize::storage::{
    collect_log, is_open, keep_filled, lines_in_log, log_file_lines, log_line, mended_log,
    run_count, whole_log, CurrentStep, IterationRecord, Outcome, StateSnapshot,
};
use autorize::time::Timestamp;
use chrono::{TimeZone, Utc};
use serde_json::Value;

fn moment(h: u32, mi: u32) -> Timestamp {
    let t = Utc.with_ymd_and_hms(2026, 5, 20, h, mi, 0).unwrap();
    Timestamp::from_unix(t.timestamp(), 0)
}

fn sample_record(iter: u64) -> IterationRecord {
    IterationRecord {
        iter,
        started_at: moment(8, 0),
        ended_at: moment(8, 1),
        outcome: Outcome::Merged,
        score: Some(Score { bits: 2.5f64.to_bits() }),
        best_so_far: Some(Score { bits: 2.5f64.to_bits() }),
        agent_exit: Some(0),
        agent_killed_by_budget: false,
        diff_lines: 4,
        notes: String::new(),
        summary: String::new(),
    }
}

fn encode(r: &IterationRecord) -> String {
    let mut m = serde_json::Map::new();
    m.insert("iter".to_string(), Value::from(r.iter));
    m.insert("started_at".to_string(), Value::from(r.started_at.nanos.to_string()));
    Value::Object(m).to_string()
}

fn decode(line: &str) -> Result<u64, String> {
    let v: Value = serde_json::from_str(line).map_err(|e| e.to_string())?;
    v.get("iter").and_then(Value::as_u64).ok_or("no iter".to_string())
}

/// Reads a log file that holds `bytes`.
fn read_log(bytes: &[u8]) -> Result<Vec<u64>, Error> {
    let lines = log_file_lines(&bytes.to_vec());
    collect_log(lines.iter().map(|l| decode(l)).collect())
}

fn log_of(iters: std::ops::Range<u64>) -> String {
    let mut log = String::new();
    for i in iters {
        log.push_str(&log_line(false, &encode(&sample_record(i))));
    }
    log
}

#[test]
fn append_iteration_100x_then_read_all() {
    let recs = read_log(log_of(0..100).as_bytes()).unwrap();
    assert_eq!(recs.len(), 100);
    for (i, r) in recs.iter().enumerate() {
        assert_eq!(*r, i as u64);
    }
}

#[test]
fn read_iterations_drops_torn_final_line() {
    let mut log = log_of(0..5);
    log.push_str("{\"iter\":5,\"started_at\":");
    let recs = read_log(log.as_bytes()).unwrap();
    assert_eq!(recs.len(), 5);
}

#[test]
fn read_iterations_drops_torn_final_line_after_newlines() {
    let mut log = log_of(0..5);
    log.push_str("{\"iter\":6,\"started_at\":");
    let recs = read_log(log.as_bytes()).unwrap();
    assert_eq!(recs.len(), 5);
}

#[test]
fn read_iterations_errors_on_corrupt_middle_line() {
    let mut log = log_of(0..3);
    log.push_str("NOT-JSON\n");
    log.push_str(&log_line(false, &encode(&sample_record(99))));
    let err = read_log(log.as_bytes()).unwrap_err();
    assert!(err.message().contains("json"), "got: {}", err.message());
    assert!(matches!(err, Error::Json(_)));
}

#[test]
fn added_lines_stand_on_their_own() {
    assert_eq!(log_line(false, "{}"), "{}\n");
    assert_eq!(log_line(true, "{}"), "\n{}\n");
    assert!(is_open(&b"{\"iter\":5,\"st".to_vec()));
    assert!(is_open(&vec![b'\n', 0xff]));
    assert!(!is_open(&b"{}\n".to_vec()));
    assert!(!is_open(&vec![]));
    let mut log = log_of(0..2);
    log.push_str(&encode(&sample_record(2)));
    let more = log_line(is_open(&log.clone().into_bytes()), &encode(&sample_record(3)));
    log.push_str(&more);
    assert_eq!(read_log(log.as_bytes()).unwrap(), vec![0, 1, 2, 3]);
}

#[test]
fn torn_lines_are_cut_off_before_more_is_added() {
    let mut log = log_of(0..5);
    log.push_str("{\"iter\":5,\"started_at\":");
    let lines = lines_in_log(&log);
    let read: Vec<Result<u64, String>> = lines.iter().map(|l| decode(l)).collect();
    let mut mended = mended_log(&lines, &read).unwrap();
    assert_eq!(mended, log_of(0..5));
    mended.push_str(&log_line(is_open(&mended.clone().into_bytes()), &encode(&sample_record(6))));
    assert_eq!(read_log(mended.as_bytes()).unwrap(), vec![0, 1, 2, 3, 4, 6]);
}

#[test]
fn whole_logs_need_no_mending() {
    let lines = lines_in_log(&log_of(0..2));
    let read: Vec<Result<u64, String>> = lines.iter().map(|l| decode(l)).collect();
    assert!(mended_log(&lines, &read).is_none());
    assert!(mended_log::<u64>(&vec![], &vec![]).is_none());
}

#[test]
fn empty_logs_have_no_records() {
    assert!(read_log(b"").unwrap().is_empty());
}

#[test]
fn blank_lines_of_a_log_are_skipped() {
    assert_eq!(lines_in_log("a\n\n\nb\n"), vec!["a".to_string(), "b".to_string()]);
    assert_eq!(
        keep_filled(vec![String::new(), "x".to_string(), String::new()]),
        vec!["x".to_string()]
    );
}

#[test]
fn bytes_that_are_no_text_are_replaced() {
    assert_eq!(log_file_lines(&vec![b'a', 0xff, b'\n']), vec!["a\u{fffd}".to_string()]);
}

#[test]
fn the_first_unreadable_line_is_told() {
    let read: Vec<Result<u8, String>> = vec![
        Ok(1),
        Err("first".to_string()),
        Err("second".to_string()),
        Ok(2),
    ];
    match collect_log(read) {
        Err(Error::Json(m)) => assert_eq!(m, "first"),
        other => panic!("expected an error, got {other:?}"),
    }
}

#[test]
fn written_logs_read_back() {
    let lines = vec!["{\"a\":1}".to_string(), "{}".to_string()];
    let log = whole_log(&lines);
    assert_eq!(log, "{\"a\":1}\n{}\n");
    assert_eq!(lines_in_log(&log), lines);
}

#[test]
fn checkpoints_without_a_run_count_take_the_total() {
    assert_eq!(run_count(None, 7), 7);
    assert_eq!(run_count(Some(2), 7), 2);
    assert_eq!(run_count(Some(0), 7), 0);
}

#[test]
fn records_are_cloned_whole() {
    let r = sample_record(7);
    let c = r.clone();
    assert_eq!(format!("{r:?}"), format!("{c:?}"));
}

#[test]
fn snapshots_are_cloned_whole() {
    let s = StateSnapshot {
        experiment: "pi".to_string(),
        branch: "autorize/pi".to_string(),
        base_commit: "abc123".to_string(),
        iter_in_progress: Some(7),
        current_step: CurrentStep::InvokeAgent,
        best_score: Some(Score { bits: std::f64::consts::PI.to_bits() }),
        best_iter: Some(5),
        started_at: moment(8, 0),
        deadline: moment(12, 0),
        iterations_completed: 6,
        run_iterations_completed: 6,
        consecutive_noops: 0,
    };
    assert_eq!(format!("{s:?}"), format!("{:?}", s.clone()));
}
