use orb_fdw::cell::Cell;
use orb_fdw::error::OrbFdwError;
use orb_fdw::json::Json;
use orb_fdw::page::{process_data, Page};
use orb_fdw::scan::{
    backoff_secs, next_page_size, require_option, FetchAction, FetchError, FetchOutcome,
    ScanDriver, DEFAULT_MAX_ATTEMPTS,
};

fn record(id: &str) -> Json {
    Json::Obj(vec![("id".to_string(), Json::Str(id.to_string()))])
}

fn page(ids: &[&str], cursor: Option<&str>) -> Page {
    Page {
        items: ids.iter().map(|id| Ok(record(id))).collect(),
        next_cursor: cursor.map(|c| c.to_string()),
    }
}

fn options(pairs: &[(&str, &str)]) -> Vec<(String, String)> {
    pairs.iter().map(|(k, v)| (k.to_string(), v.to_string())).collect()
}

fn open_scan(columns: &[&str]) -> ScanDriver {
    ScanDriver::begin_scan(
        &"customers".to_string(),
        columns.iter().map(|c| c.to_string()).collect(),
        &options(&[("api_key", "k-123")]),
        None,
    )
    .unwrap()
}

fn drain_user_ids(driver: &mut ScanDriver) -> Vec<String> {
    let mut ids = Vec::new();
    while let Some(row) = driver.next_row() {
        match &row.cols[0].1 {
            Some(Cell::Text(v)) => ids.push(v.clone()),
            other => panic!("unexpected cell: {:?}", other),
        }
    }
    ids
}

#[test]
fn begin_scan_unknown_resource_fails_with_zero_rows() {
    let got = ScanDriver::begin_scan(
        &"widgets".to_string(),
        vec!["user_id".to_string()],
        &options(&[("api_key", "k")]),
        None,
    );
    match got {
        Err(OrbFdwError::UnknownResource(name)) => assert_eq!(name, "widgets"),
        other => panic!("expected UnknownResource, got {:?}", other.map(|_| ())),
    }
}

#[test]
fn begin_scan_needs_an_api_key() {
    let got = ScanDriver::begin_scan(
        &"customers".to_string(),
        vec!["user_id".to_string()],
        &options(&[]),
        None,
    );
    match got {
        Err(OrbFdwError::ApiKeyNotFound) => {},
        other => panic!("expected ApiKeyNotFound, got {:?}", other.map(|_| ())),
    }
}

#[test]
fn begin_scan_takes_key_from_options_before_environment() {
    let d = ScanDriver::begin_scan(
        &"customers".to_string(),
        vec!["user_id".to_string()],
        &options(&[("api_key", "from-options")]),
        Some("from-env".to_string()),
    )
    .unwrap();
    assert_eq!(d.api_key, "from-options");
    let d2 = ScanDriver::begin_scan(
        &"customers".to_string(),
        vec!["user_id".to_string()],
        &options(&[]),
        Some("from-env".to_string()),
    )
    .unwrap();
    assert_eq!(d2.api_key, "from-env");
}

#[test]
fn require_option_reports_the_missing_name() {
    let opts = options(&[("object", "customers")]);
    assert_eq!(require_option(&opts, &"object".to_string()), Ok("customers".to_string()));
    assert_eq!(
        require_option(&opts, &"api_key".to_string()),
        Err(OrbFdwError::MissingRequiredOption("api_key".to_string()))
    );
}

#[test]
fn pagination_yields_all_pages_in_order_and_terminates() {
    let mut d = open_scan(&["user_id"]);
    let feed = vec![
        FetchOutcome::Fetched(page(&["a1", "a2"], Some("c1"))),
        FetchOutcome::Fetched(page(&["b1", "b2"], Some("c2"))),
        FetchOutcome::Fetched(page(&["c1", "c2"], None)),
    ];
    d.run_scan(feed);
    assert_eq!(d.scan_error(), &None);
    assert!(d.next_request().is_none());
    let ids = drain_user_ids(&mut d);
    assert_eq!(ids, vec!["a1", "a2", "b1", "b2", "c1", "c2"]);
    assert!(d.next_row().is_none());
}

#[test]
fn pagination_requests_follow_the_cursor() {
    let mut d = open_scan(&["user_id"]);
    let req = d.next_request().unwrap();
    assert_eq!(req.resource, "customers");
    assert_eq!(req.cursor, None);
    assert_eq!(req.page_size, 500);
    d.on_page(page(&["a"], Some("cursor-1")));
    let req2 = d.next_request().unwrap();
    assert_eq!(req2.cursor, Some("cursor-1".to_string()));
}

#[test]
fn empty_page_terminates_pagination() {
    let mut d = open_scan(&["user_id"]);
    d.run_scan(vec![FetchOutcome::Fetched(page(&[], Some("more")))]);
    assert!(d.next_request().is_none());
    assert_eq!(drain_user_ids(&mut d), Vec::<String>::new());
}

#[test]
fn transient_failures_then_success_yield_the_page_once() {
    assert!(2 < DEFAULT_MAX_ATTEMPTS);
    let mut d = open_scan(&["user_id"]);
    let feed = vec![
        FetchOutcome::Failed(FetchError::Transient("timeout".to_string())),
        FetchOutcome::Failed(FetchError::Transient("timeout".to_string())),
        FetchOutcome::Fetched(page(&["x1", "x2"], None)),
    ];
    d.run_scan(feed);
    assert_eq!(d.scan_error(), &None);
    assert_eq!(drain_user_ids(&mut d), vec!["x1", "x2"]);
}

#[test]
fn all_transient_attempts_exhaust_retries_and_keep_prior_rows() {
    let mut d = open_scan(&["user_id"]);
    let timeout = || FetchOutcome::Failed(FetchError::Transient("timeout".to_string()));
    let feed = vec![
        FetchOutcome::Fetched(page(&["kept"], Some("c1"))),
        timeout(),
        timeout(),
        timeout(),
    ];
    d.run_scan(feed);
    assert_eq!(d.scan_error(), &Some(OrbFdwError::FetchRetriesExhausted));
    assert!(d.next_request().is_none());
    assert_eq!(drain_user_ids(&mut d), vec!["kept"]);
}

#[test]
fn fatal_failure_aborts_without_retry() {
    let mut d = open_scan(&["user_id"]);
    let feed = vec![
        FetchOutcome::Failed(FetchError::Fatal("bad credentials".to_string())),
        FetchOutcome::Fetched(page(&["never"], None)),
    ];
    d.run_scan(feed);
    assert_eq!(d.scan_error(), &Some(OrbFdwError::FatalFetchError("bad credentials".to_string())));
    assert_eq!(drain_user_ids(&mut d), Vec::<String>::new());
}

#[test]
fn retry_shrinks_page_size_and_backs_off_exponentially() {
    let mut d = open_scan(&["user_id"]);
    assert_eq!(d.next_request().unwrap().page_size, 500);
    let a1 = d.on_fetch_error(FetchError::Transient("t".to_string()));
    assert_eq!(a1, FetchAction::Retry { delay_secs: 1 });
    assert_eq!(d.last_error, Some(OrbFdwError::TransientFetchError("t".to_string())));
    assert_eq!(d.next_request().unwrap().page_size, 250);
    let a2 = d.on_fetch_error(FetchError::Transient("t".to_string()));
    assert_eq!(a2, FetchAction::Retry { delay_secs: 2 });
    assert_eq!(d.next_request().unwrap().page_size, 166);
    let a3 = d.on_fetch_error(FetchError::Transient("t".to_string()));
    assert_eq!(a3, FetchAction::Stop);
    assert_eq!(d.scan_error(), &Some(OrbFdwError::FetchRetriesExhausted));
}

#[test]
fn subscriptions_start_from_a_smaller_page() {
    let mut d = ScanDriver::begin_scan(
        &"subscriptions".to_string(),
        vec!["subscription_id".to_string()],
        &options(&[("api_key", "k")]),
        None,
    )
    .unwrap();
    assert_eq!(d.next_request().unwrap().page_size, 75);
    let _ = d.on_fetch_error(FetchError::Transient("t".to_string()));
    assert_eq!(d.next_request().unwrap().page_size, 37);
}

#[test]
fn page_size_never_drops_below_one() {
    assert_eq!(next_page_size(500, 1), 500);
    assert_eq!(next_page_size(500, 2), 250);
    assert_eq!(next_page_size(75, 2), 37);
    assert_eq!(next_page_size(2, 3), 1);
    assert_eq!(next_page_size(0, 1), 1);
}

#[test]
fn backoff_doubles_per_attempt() {
    assert_eq!(backoff_secs(1), 1);
    assert_eq!(backoff_secs(2), 2);
    assert_eq!(backoff_secs(3), 4);
    assert_eq!(backoff_secs(10), 512);
}

#[test]
fn attempt_count_resets_after_a_successful_page() {
    let mut d = open_scan(&["user_id"]);
    let _ = d.on_fetch_error(FetchError::Transient("t".to_string()));
    assert_eq!(d.next_request().unwrap().page_size, 250);
    d.on_page(page(&["a"], Some("c")));
    assert_eq!(d.next_request().unwrap().page_size, 500);
}

#[test]
fn undecodable_items_are_dropped_and_counted() {
    let mut d = open_scan(&["user_id"]);
    let p = Page {
        items: vec![
            Ok(record("good1")),
            Err("truncated record".to_string()),
            Ok(record("good2")),
        ],
        next_cursor: None,
    };
    d.run_scan(vec![FetchOutcome::Fetched(p)]);
    assert_eq!(d.skipped, 1);
    assert_eq!(
        d.last_error,
        Some(OrbFdwError::JsonDecodeError("truncated record".to_string()))
    );
    assert_eq!(drain_user_ids(&mut d), vec!["good1", "good2"]);
}

#[test]
fn process_data_keeps_order_and_reports_failures() {
    let items: Vec<Result<Json, String>> = vec![
        Ok(record("a")),
        Err("first bad".to_string()),
        Ok(record("b")),
        Err("second bad".to_string()),
    ];
    let (kept, skipped, last) = process_data(&items);
    assert_eq!(kept, vec![record("a"), record("b")]);
    assert_eq!(skipped, 2);
    assert_eq!(last, Some("second bad".to_string()));
}

#[test]
fn end_scan_releases_the_buffer() {
    let mut d = open_scan(&["user_id"]);
    d.run_scan(vec![FetchOutcome::Fetched(page(&["a"], None))]);
    d.end_scan();
    assert!(d.next_row().is_none());
    assert!(d.next_request().is_none());
}

#[test]
fn scans_do_not_share_state() {
    let mut d1 = open_scan(&["user_id"]);
    let mut d2 = open_scan(&["user_id"]);
    d1.run_scan(vec![FetchOutcome::Fetched(page(&["only-in-d1"], None))]);
    assert_eq!(drain_user_ids(&mut d2), Vec::<String>::new());
    assert_eq!(drain_user_ids(&mut d1), vec!["only-in-d1"]);
}
