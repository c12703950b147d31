use soundcloud_desktop::downloads::{
    classify_status, joined_outcome, preload_body_ok, preload_targets, DownloadRegistry, Fetch,
    FetchAction, PreloadEntry, StatusClass,
};

fn audio_body() -> Vec<u8> {
    let mut v = b"OggS".to_vec();
    v.resize(9000, 1);
    v
}

#[test]
fn status_classes() {
    assert_eq!(classify_status(200), StatusClass::Success);
    assert_eq!(classify_status(206), StatusClass::Success);
    assert_eq!(classify_status(299), StatusClass::Success);
    assert_eq!(classify_status(429), StatusClass::Retry);
    assert_eq!(classify_status(500), StatusClass::Retry);
    assert_eq!(classify_status(503), StatusClass::Retry);
    assert_eq!(classify_status(404), StatusClass::Fail);
    assert_eq!(classify_status(302), StatusClass::Fail);
    assert_eq!(classify_status(199), StatusClass::Fail);
}

#[test]
fn successful_download_reads_checks_and_writes() {
    let mut f = Fetch::start();
    assert_eq!(f.response(200, "200 OK", "https://cdn/x"), FetchAction::ReadBody);
    assert_eq!(f.body(&audio_body()), FetchAction::WriteFile);
    assert_eq!(f.written(Ok(())), FetchAction::Finished(Ok(())));
}

#[test]
fn invalid_body_fails_without_retry() {
    let f = Fetch::start();
    assert_eq!(f.body(b"<html>nope</html>"), FetchAction::Finished(Err("Invalid audio data".to_string())));
}

#[test]
fn failed_write_reports_its_reason() {
    let f = Fetch::start();
    assert_eq!(
        f.written(Err("disk full".to_string())),
        FetchAction::Finished(Err("Cache write failed: disk full".to_string()))
    );
}

#[test]
fn client_error_status_fails_at_once() {
    let mut f = Fetch::start();
    assert_eq!(
        f.response(404, "404 Not Found", "https://cdn/x"),
        FetchAction::Finished(Err("HTTP 404 Not Found".to_string()))
    );
}

#[test]
fn retries_three_times_then_gives_up_with_last_error() {
    let mut f = Fetch::start();
    assert_eq!(f.request_failed("timeout"), FetchAction::Retry(300));
    assert_eq!(f.response(503, "503 Service Unavailable", "https://cdn/y"), FetchAction::Retry(800));
    assert_eq!(f.body_failed("connection reset"), FetchAction::Retry(2000));
    assert_eq!(
        f.response(429, "429 Too Many Requests", "https://cdn/z"),
        FetchAction::Finished(Err("HTTP 429 Too Many Requests from https://cdn/z".to_string()))
    );
}

#[test]
fn last_attempt_failing_on_request_reports_it() {
    let mut f = Fetch::start();
    f.request_failed("a");
    f.request_failed("b");
    f.request_failed("c");
    assert_eq!(f.request_failed("d"), FetchAction::Finished(Err("request: d".to_string())));
}

#[test]
fn body_failure_on_last_attempt() {
    let mut f = Fetch::start();
    f.request_failed("a");
    f.request_failed("b");
    f.request_failed("c");
    assert_eq!(f.body_failed("eof"), FetchAction::Finished(Err("body read: eof".to_string())));
}

#[test]
fn preload_skips_cached_tracks() {
    let entry = |u: &str| PreloadEntry { urn: u.to_string(), url: format!("https://x/{u}"), session_id: None };
    let es = vec![entry("a"), entry("b"), entry("c"), entry("d")];
    assert_eq!(preload_targets(&es, &vec![false, true, false, true]), vec![0, 2]);
    assert_eq!(preload_targets(&es, &vec![true, true, true, true]), Vec::<usize>::new());
}

#[test]
fn preload_body_size_threshold() {
    assert!(!preload_body_ok(8191));
    assert!(preload_body_ok(8192));
}

#[test]
fn joined_requests_share_the_outcome() {
    assert_eq!(joined_outcome(Some(Ok("/c/a.audio".to_string()))), Ok("/c/a.audio".to_string()));
    assert_eq!(joined_outcome(Some(Err("HTTP 404".to_string()))), Err("HTTP 404".to_string()));
    assert_eq!(joined_outcome(None), Err("download completed without result".to_string()));
}

#[test]
fn registry_coalesces_by_track() {
    let mut r: DownloadRegistry<u32> = DownloadRegistry::new();
    assert_eq!(r.get("a"), None);
    r.insert("a", 1);
    r.insert("b", 2);
    assert_eq!(r.get("a"), Some(&1));
    assert_eq!(r.get("b"), Some(&2));
    r.remove("a");
    assert_eq!(r.get("a"), None);
    assert_eq!(r.get("b"), Some(&2));
    r.remove("zzz");
    assert_eq!(r.get("b"), Some(&2));
}

#[test]
fn second_request_joins_the_download_under_way() {
    let mut r: DownloadRegistry<u32> = DownloadRegistry::new();
    assert!(r.lead_or_join("a", 1));
    assert!(!r.lead_or_join("a", 2));
    assert_eq!(r.get("a"), Some(&1));
    assert!(r.lead_or_join("b", 3));
    r.remove("a");
    assert!(r.lead_or_join("a", 4));
    assert_eq!(r.get("a"), Some(&4));
}
