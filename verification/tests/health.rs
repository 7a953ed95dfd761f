use infernal_worker_simple::error::WorkerError;
use infernal_worker_simple::health::{
    answer_request, evaluate, now_seconds, respond, wrap_seconds, write_http_answer, Heartbeat,
    Thresholds, DEFAULT_LIVE_STALE_SECONDS, DEFAULT_READY_STALE_SECONDS,
};

fn thresholds() -> Thresholds {
    Thresholds::default()
}

#[test]
fn a_process_that_has_never_succeeded_is_live_but_not_ready() {
    let heartbeat = Heartbeat::new();
    assert_eq!(
        evaluate("/health/live", &heartbeat, &thresholds(), 1_000).0,
        "200 OK"
    );
    assert_eq!(
        evaluate("/health/ready", &heartbeat, &thresholds(), 1_000).0,
        "503 Service Unavailable"
    );
}

#[test]
fn a_recent_pass_is_ready_and_live() {
    let mut heartbeat = Heartbeat::new();
    heartbeat.record_success(1_000);
    assert_eq!(
        evaluate("/health/ready", &heartbeat, &thresholds(), 1_010).0,
        "200 OK"
    );
    assert_eq!(
        evaluate("/health/live", &heartbeat, &thresholds(), 1_010).0,
        "200 OK"
    );
}

/// The failure this whole module exists for: the loop is running and
/// logging, but every pass is being rejected.
#[test]
fn a_stuck_loop_stops_being_ready_before_it_stops_being_live() {
    let mut heartbeat = Heartbeat::new();
    heartbeat.record_success(1_000);
    // Past readiness, not yet past liveness: reported unhealthy, not
    // yet restarted.
    assert_eq!(
        evaluate("/health/ready", &heartbeat, &thresholds(), 1_060).0,
        "503 Service Unavailable"
    );
    assert_eq!(
        evaluate("/health/live", &heartbeat, &thresholds(), 1_060).0,
        "200 OK"
    );
    // Past liveness: Kubernetes restarts it, which is what re-enrolls.
    assert_eq!(
        evaluate("/health/live", &heartbeat, &thresholds(), 1_200).0,
        "503 Service Unavailable"
    );
}

#[test]
fn liveness_is_slacker_than_readiness_so_a_hiccup_never_restarts() {
    let defaults = Thresholds::default();
    assert!(defaults.live_stale_seconds > defaults.ready_stale_seconds);
}

#[test]
fn unknown_paths_are_not_found() {
    let heartbeat = Heartbeat::new();
    assert_eq!(
        evaluate("/", &heartbeat, &thresholds(), 1_000).0,
        "404 Not Found"
    );
}

#[test]
fn a_heartbeat_tells_how_old_the_last_success_is() {
    let mut heartbeat = Heartbeat::default();
    assert_eq!(heartbeat.last_success(), 0);
    assert_eq!(heartbeat.age(5), None);
    heartbeat.record_success(100);
    assert_eq!(heartbeat.last_success(), 100);
    assert_eq!(heartbeat.age(130), Some(30));
    assert_eq!(heartbeat.age(90), Some(-10));
    heartbeat.record_success(0);
    assert_eq!(heartbeat.age(130), None);
}

#[test]
fn an_age_beyond_the_range_is_clamped() {
    let mut heartbeat = Heartbeat::new();
    heartbeat.record_success(-2);
    assert_eq!(heartbeat.age(i64::MAX), Some(i64::MAX));
    heartbeat.record_success(i64::MAX);
    assert_eq!(heartbeat.age(-2), Some(i64::MIN));
    assert_eq!(heartbeat.age(i64::MAX), Some(0));
    heartbeat.record_success(i64::MIN);
    assert_eq!(heartbeat.age(-1), Some(i64::MAX));
}

#[test]
fn failed_passes_do_not_count() {
    let mut heartbeat = Heartbeat::new();
    let failed: Result<(), WorkerError> = Err(WorkerError::UnexpectedStatus(401));
    heartbeat.record_pass(&failed, 990);
    assert_eq!(heartbeat.last_success(), 0);
    let passed: Result<u8, WorkerError> = Ok(1);
    heartbeat.record_pass(&passed, 1_000);
    assert_eq!(heartbeat.last_success(), 1_000);
    for at in 1_001..1_200 {
        heartbeat.record_pass(&failed, at);
    }
    assert_eq!(heartbeat.last_success(), 1_000);
    assert_eq!(
        evaluate("/health/live", &heartbeat, &thresholds(), 1_200),
        (
            "503 Service Unavailable",
            "no successful pass for 200s\n".to_owned()
        )
    );
}

#[test]
fn probes_say_what_they_found() {
    let mut heartbeat = Heartbeat::new();
    assert_eq!(
        evaluate("/health/live", &heartbeat, &thresholds(), 1_000),
        ("200 OK", "starting\n".to_owned())
    );
    assert_eq!(
        evaluate("/health/ready", &heartbeat, &thresholds(), 1_000),
        (
            "503 Service Unavailable",
            "no successful pass yet\n".to_owned()
        )
    );
    heartbeat.record_success(1_000);
    assert_eq!(
        evaluate("/health/ready", &heartbeat, &thresholds(), 1_030),
        ("200 OK", "ok\n".to_owned())
    );
    assert_eq!(
        evaluate("/health/ready", &heartbeat, &thresholds(), 1_031),
        (
            "503 Service Unavailable",
            "last successful pass 31s ago\n".to_owned()
        )
    );
    assert_eq!(
        evaluate("/health/live", &heartbeat, &thresholds(), 1_150),
        ("200 OK", "ok\n".to_owned())
    );
    assert_eq!(
        evaluate("/health/live", &heartbeat, &thresholds(), 1_151),
        (
            "503 Service Unavailable",
            "no successful pass for 151s\n".to_owned()
        )
    );
    assert_eq!(
        evaluate("/health/live/", &heartbeat, &thresholds(), 1_000),
        ("404 Not Found", "not found\n".to_owned())
    );
    let strict = Thresholds {
        ready_stale_seconds: -20,
        live_stale_seconds: -20,
    };
    assert_eq!(
        evaluate("/health/ready", &heartbeat, &strict, 990),
        (
            "503 Service Unavailable",
            "last successful pass -10s ago\n".to_owned()
        )
    );
}

#[test]
fn the_default_thresholds_are_those_of_the_constants() {
    assert_eq!(thresholds().ready_stale_seconds, DEFAULT_READY_STALE_SECONDS);
    assert_eq!(thresholds().live_stale_seconds, DEFAULT_LIVE_STALE_SECONDS);
    assert_eq!(DEFAULT_READY_STALE_SECONDS, 30);
    assert_eq!(DEFAULT_LIVE_STALE_SECONDS, 150);
}

#[test]
fn whoever_is_ready_is_live_and_staleness_lasts() {
    let mut heartbeat = Heartbeat::new();
    heartbeat.record_success(500);
    let mut was_live = true;
    for now in 400..1_000 {
        let ready = evaluate("/health/ready", &heartbeat, &thresholds(), now).0 == "200 OK";
        let live = evaluate("/health/live", &heartbeat, &thresholds(), now).0 == "200 OK";
        assert!(!ready || live);
        assert!(was_live || !live);
        was_live = live;
    }
    assert!(!was_live);
}

#[test]
fn an_answer_is_a_whole_http_response() {
    assert_eq!(
        write_http_answer("200 OK", "ok\n"),
        "HTTP/1.1 200 OK\r\nContent-Type: text/plain\r\nContent-Length: 3\r\nConnection: close\r\n\r\nok\n"
    );
    assert_eq!(
        write_http_answer("404 Not Found", ""),
        "HTTP/1.1 404 Not Found\r\nContent-Type: text/plain\r\nContent-Length: 0\r\nConnection: close\r\n\r\n"
    );
    // The length counts bytes, not characters.
    assert_eq!(
        write_http_answer("200 OK", "\u{e4}\u{20ac}"),
        "HTTP/1.1 200 OK\r\nContent-Type: text/plain\r\nContent-Length: 5\r\nConnection: close\r\n\r\n\u{e4}\u{20ac}"
    );
}

#[test]
fn the_path_is_the_second_word_of_the_request_line() {
    let heartbeat = Heartbeat::new();
    let live = "HTTP/1.1 200 OK\r\nContent-Type: text/plain\r\nContent-Length: 9\r\nConnection: close\r\n\r\nstarting\n";
    let missing = "HTTP/1.1 404 Not Found\r\nContent-Type: text/plain\r\nContent-Length: 10\r\nConnection: close\r\n\r\nnot found\n";
    let answer = |request: &str| answer_request(request, &heartbeat, &thresholds(), 1_000);
    assert_eq!(answer("GET /health/live HTTP/1.1\r\nHost: x\r\n\r\n"), live);
    assert_eq!(answer("GET /health/live"), live);
    assert_eq!(answer(" \tGET\u{a0}\u{3000} /health/live\r\n"), live);
    assert_eq!(answer("POST /health/live HTTP/1.1"), live);
    assert_eq!(answer("GET\n/health/live"), missing);
    assert_eq!(answer("/health/live"), missing);
    assert_eq!(answer("\nGET /health/live"), missing);
    assert_eq!(answer("GET /health/lively"), missing);
    assert_eq!(answer(""), missing);
}

#[test]
fn a_request_in_bytes_is_answered_in_bytes() {
    let mut heartbeat = Heartbeat::new();
    heartbeat.record_success(1_000);
    let ready = b"HTTP/1.1 200 OK\r\nContent-Type: text/plain\r\nContent-Length: 3\r\nConnection: close\r\n\r\nok\n";
    assert_eq!(
        respond(
            b"GET /health/ready HTTP/1.1\r\n\r\n",
            &heartbeat,
            &thresholds(),
            1_001
        ),
        ready
    );
    // Bytes that are no text do not keep the rest from being read.
    assert_eq!(
        respond(
            b"\xff\xfe /health/ready \xc3\x28\r\n",
            &heartbeat,
            &thresholds(),
            1_001
        ),
        ready
    );
    assert!(
        respond(b"GET /health/ready\xff", &heartbeat, &thresholds(), 1_001)
            .starts_with(b"HTTP/1.1 404 Not Found\r\n")
    );
    assert!(respond(b"", &heartbeat, &thresholds(), 1_001)
        .starts_with(b"HTTP/1.1 404 Not Found\r\n"));
}

#[test]
fn a_clock_reading_is_wrapped_for_the_probes() {
    assert_eq!(wrap_seconds(None), 0);
    assert_eq!(wrap_seconds(Some(5)), 5);
    assert_eq!(wrap_seconds(Some(9_223_372_036_854_775_807)), i64::MAX);
    assert_eq!(wrap_seconds(Some(9_223_372_036_854_775_808)), i64::MIN);
    assert_eq!(wrap_seconds(Some(u64::MAX)), -1);
}

#[test]
fn the_probes_see_the_time_of_day() {
    let before = now_seconds();
    assert!(before > 1_577_836_800);
    assert!(now_seconds() >= before);
}
