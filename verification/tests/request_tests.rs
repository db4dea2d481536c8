use day_counter::clock::{day_of, time_of, timestamp, today};
use day_counter::config::{data_dir, database_path, log_path, secret_variable};
use day_counter::gate::AccessGate;
use day_counter::ingest::{is_reserved_name, normalize, FieldValue, SetRequest};
use day_counter::migrate::{migrate, plan, upgrade_row, Backing, LegacyRow, Step};
use day_counter::pageview::{log_entry, log_pageview, pageview_line, should_log};
use day_counter::patterns::PatternMap;
use day_counter::record::Columns;
use day_counter::service::{
    acknowledgment, cache_control, conclude_set, directives, get_history, get_today, max_age,
    prepare_set, set_day, today_response, Route, SetError,
};
use day_counter::store::DayStore;

fn owned(pairs: &[(&str, u64)]) -> Vec<(String, u64)> {
    pairs.iter().map(|(n, c)| (n.to_string(), *c)).collect()
}

fn request(day: &str) -> SetRequest {
    SetRequest {
        day: day.to_string(),
        count: None,
        right_count: None,
        patterns: Vec::new(),
        total_messages: None,
        secret: None,
    }
}

fn field(name: &str, value: FieldValue) -> (String, FieldValue) {
    (name.to_string(), value)
}

#[test]
fn normalize_mixes_the_three_shapes() {
    let mut req = request("D");
    req.count = Some(2);
    req.patterns = vec![field("foo", FieldValue::Unsigned(7)), field("bar", FieldValue::Other)];
    req.total_messages = Some(9);
    let (p, t) = normalize(&req);
    assert_eq!(p.pairs(), owned(&[("absolutely", 2), ("foo", 7)]));
    assert_eq!(p.get("bar"), None);
    assert_eq!(t, 9);
}

#[test]
fn normalize_defaults_everything_that_is_omitted() {
    let (p, t) = normalize(&request("D"));
    assert!(p.is_empty());
    assert_eq!(t, 0);
}

#[test]
fn normalize_maps_both_earlier_counters() {
    let mut req = request("D");
    req.count = Some(0);
    req.right_count = Some(3);
    let (p, t) = normalize(&req);
    assert_eq!(p.pairs(), owned(&[("absolutely", 0), ("right", 3)]));
    assert_eq!(t, 0);
}

#[test]
fn normalize_passes_over_reserved_names() {
    let mut req = request("D");
    req.patterns = vec![
        field("day", FieldValue::Unsigned(1)),
        field("total_messages", FieldValue::Unsigned(2)),
        field("secret", FieldValue::Unsigned(3)),
        field("count", FieldValue::Unsigned(4)),
        field("right_count", FieldValue::Unsigned(5)),
        field("Day", FieldValue::Unsigned(6)),
    ];
    let (p, t) = normalize(&req);
    assert_eq!(p.pairs(), owned(&[("Day", 6)]));
    assert_eq!(t, 0);
    for name in ["day", "total_messages", "secret", "count", "right_count"] {
        assert!(is_reserved_name(name));
    }
    for name in ["", "Day", "days", "absolutely", "right", "total"] {
        assert!(!is_reserved_name(name));
    }
}

#[test]
fn normalize_lets_a_field_replace_an_earlier_counter() {
    let mut req = request("D");
    req.count = Some(2);
    req.right_count = Some(4);
    req.patterns = vec![field("absolutely", FieldValue::Unsigned(11))];
    let (p, _) = normalize(&req);
    assert_eq!(p.pairs(), owned(&[("absolutely", 11), ("right", 4)]));
}

#[test]
fn normalize_takes_the_last_of_a_repeated_field() {
    let mut req = request("D");
    req.patterns = vec![
        field("a", FieldValue::Unsigned(1)),
        field("a", FieldValue::Other),
        field("a", FieldValue::Unsigned(3)),
        field("b", FieldValue::Unsigned(5)),
        field("b", FieldValue::Other),
    ];
    let (p, _) = normalize(&req);
    assert_eq!(p.pairs(), owned(&[("a", 3), ("b", 5)]));
}

#[test]
fn normalize_keeps_a_large_number_as_it_is() {
    let mut req = request("D");
    req.count = Some(u32::MAX);
    req.patterns = vec![
        field("max", FieldValue::Unsigned(4294967295)),
        field("over", FieldValue::Unsigned(4294967296)),
        field("more", FieldValue::Unsigned(4294967296 + 5)),
        field("top", FieldValue::Unsigned(u64::MAX)),
        field("zero", FieldValue::Unsigned(0)),
    ];
    let (p, _) = normalize(&req);
    assert_eq!(
        p.pairs(),
        owned(&[
            ("absolutely", 4294967295),
            ("max", 4294967295),
            ("more", 4294967301),
            ("over", 4294967296),
            ("top", u64::MAX),
            ("zero", 0),
        ])
    );
}

#[test]
fn set_day_stores_a_count_above_32_bits_as_submitted() {
    let gate = AccessGate::from_config(None);
    let mut store = DayStore::new();
    let mut req = request("2024-01-01");
    req.patterns = vec![field("foo", FieldValue::Unsigned(4294967296))];
    assert_eq!(set_day(&gate, &mut store, &req), Ok(()));
    let (p, t) = store.get("2024-01-01");
    assert_eq!(p.pairs(), owned(&[("foo", 4294967296)]));
    assert_eq!(t, 0);
}

#[test]
fn gate_with_a_secret_admits_only_that_secret() {
    let gate = AccessGate::from_config(Some("S".to_string()));
    assert!(gate.is_guarded());
    assert!(gate.admits(Some(&"S".to_string())));
    assert!(!gate.admits(Some(&"T".to_string())));
    assert!(!gate.admits(Some(&"".to_string())));
    assert!(!gate.admits(Some(&"s".to_string())));
    assert!(!gate.admits(Some(&"SS".to_string())));
    assert!(!gate.admits(None));
}

#[test]
fn gate_without_a_secret_admits_everything() {
    let gate = AccessGate::from_config(None);
    assert!(!gate.is_guarded());
    assert!(gate.admits(Some(&"S".to_string())));
    assert!(gate.admits(Some(&"T".to_string())));
    assert!(gate.admits(None));
}

#[test]
fn gate_with_an_empty_secret_is_still_guarded() {
    let gate = AccessGate::from_config(Some(String::new()));
    assert!(gate.is_guarded());
    assert!(gate.admits(Some(&String::new())));
    assert!(!gate.admits(None));
    assert!(!gate.admits(Some(&"x".to_string())));
}

#[test]
fn set_day_writes_what_the_request_normalizes_to() {
    let gate = AccessGate::from_config(Some("S".to_string()));
    let mut store = DayStore::new();
    let mut req = request("2024-01-01");
    req.count = Some(2);
    req.patterns = vec![field("foo", FieldValue::Unsigned(7)), field("bar", FieldValue::Other)];
    req.total_messages = Some(9);
    req.secret = Some("S".to_string());
    assert_eq!(set_day(&gate, &mut store, &req), Ok(()));
    let (p, t) = store.get("2024-01-01");
    assert_eq!(p.pairs(), owned(&[("absolutely", 2), ("foo", 7)]));
    assert_eq!(t, 9);

    let mut second = request("2024-01-01");
    second.secret = Some("S".to_string());
    second.patterns = vec![field("only", FieldValue::Unsigned(1))];
    assert_eq!(set_day(&gate, &mut store, &second), Ok(()));
    let (p, t) = store.get("2024-01-01");
    assert_eq!(p.pairs(), owned(&[("only", 1)]));
    assert_eq!(t, 0);
}

#[test]
fn set_day_refuses_a_wrong_or_missing_secret_and_writes_nothing() {
    let gate = AccessGate::from_config(Some("S".to_string()));
    let mut store = DayStore::new();
    let mut req = request("2024-01-01");
    req.count = Some(2);
    req.secret = Some("T".to_string());
    assert_eq!(set_day(&gate, &mut store, &req), Err(SetError::Unauthorized));
    req.secret = None;
    assert_eq!(set_day(&gate, &mut store, &req), Err(SetError::Unauthorized));
    assert_eq!(store.len(), 0);
    let (p, t) = store.get("2024-01-01");
    assert!(p.is_empty());
    assert_eq!(t, 0);
}

#[test]
fn set_day_through_an_open_gate_ignores_the_secret() {
    let gate = AccessGate::from_config(None);
    let mut store = DayStore::new();
    let mut req = request("a");
    req.secret = Some("T".to_string());
    req.total_messages = Some(1);
    assert_eq!(set_day(&gate, &mut store, &req), Ok(()));
    let mut other = request("b");
    other.total_messages = Some(2);
    assert_eq!(set_day(&gate, &mut store, &other), Ok(()));
    assert_eq!(store.get("a").1, 1);
    assert_eq!(store.get("b").1, 2);
}

#[test]
fn prepare_set_gives_the_row_to_write() {
    let gate = AccessGate::from_config(None);
    let mut req = request("2024-02-02");
    req.right_count = Some(3);
    req.total_messages = Some(4);
    let row = match prepare_set(&gate, &req) {
        Ok(row) => row,
        Err(_) => panic!("an open gate refused"),
    };
    assert_eq!(row.day, "2024-02-02");
    assert_eq!(row.columns.patterns.as_deref(), Some("{\"right\":3}"));
    assert_eq!(row.columns.total_messages, Some(4));

    let guarded = AccessGate::from_config(Some("S".to_string()));
    assert!(matches!(prepare_set(&guarded, &req), Err(SetError::Unauthorized)));
}

#[test]
fn set_error_reports_its_status_and_text() {
    assert_eq!(SetError::Unauthorized.status(), 401);
    assert_eq!(SetError::Unauthorized.message(), "Invalid secret");
    assert_eq!(SetError::StoreFailed.status(), 500);
    assert_eq!(SetError::StoreFailed.message(), "Store unavailable");
    assert_eq!(acknowledgment(), "ok");
}

#[test]
fn conclude_set_reports_a_write_that_did_not_commit() {
    assert_eq!(conclude_set(true), Ok(()));
    assert_eq!(conclude_set(false), Err(SetError::StoreFailed));
}

#[test]
fn cache_directives_by_route() {
    assert_eq!(cache_control(Route::Today), "public, max-age=60");
    assert_eq!(cache_control(Route::History), "public, max-age=300");
    assert_eq!(cache_control(Route::Write), "no-cache, no-store, must-revalidate");
    assert_eq!(cache_control(Route::Static), "no-cache, no-store, must-revalidate");
    assert_eq!(max_age(Route::Today), Some(60));
    assert_eq!(max_age(Route::History), Some(300));
    assert_eq!(max_age(Route::Write), None);
    assert_eq!(max_age(Route::Static), None);
}

#[test]
fn cache_headers_by_route() {
    let today = directives(Route::Today);
    assert_eq!(today.cache_control, "public, max-age=60");
    assert_eq!(today.pragma, None);
    assert_eq!(today.expires, None);
    let history = directives(Route::History);
    assert_eq!(history.cache_control, "public, max-age=300");
    assert_eq!(history.pragma, None);
    assert_eq!(history.expires, None);
    for route in [Route::Write, Route::Static] {
        let d = directives(route);
        assert_eq!(d.cache_control, "no-cache, no-store, must-revalidate");
        assert_eq!(d.pragma, Some("no-cache"));
        assert_eq!(d.expires, Some("0"));
    }
}

#[test]
fn today_response_is_cacheable_for_a_minute_with_or_without_a_row() {
    let (counts, d) = today_response(None);
    assert_eq!(counts.pairs(), owned(&[("total_messages", 0)]));
    assert_eq!(d.cache_control, "public, max-age=60");
    let columns =
        Columns { patterns: Some("{\"a\":1,\"b\":\"x\"}".to_string()), total_messages: Some(4) };
    let (counts, d) = today_response(Some(&columns));
    assert_eq!(counts.pairs(), owned(&[("a", 1), ("total_messages", 4)]));
    assert_eq!(d.cache_control, "public, max-age=60");
    assert_eq!(d.pragma, None);
    assert_eq!(d.expires, None);
}

#[test]
fn service_get_today_flattens_the_total() {
    let mut store = DayStore::new();
    let (day, flat, d) = get_today(&store);
    assert_eq!(day.map(|d| d.len()), Some(10));
    assert_eq!(flat.pairs(), owned(&[("total_messages", 0)]));
    assert_eq!(d.cache_control, "public, max-age=60");
    let mut p = PatternMap::new();
    p.insert("absolutely".to_string(), 3);
    let written = today().unwrap();
    store.upsert(written.clone(), &p, 8);
    let (day, flat, d) = get_today(&store);
    if day == Some(written) {
        assert_eq!(flat.pairs(), owned(&[("absolutely", 3), ("total_messages", 8)]));
    }
    assert_eq!(d.cache_control, "public, max-age=60");
    assert_eq!(d.pragma, None);
}

#[test]
fn service_get_history_lists_by_day() {
    let mut store = DayStore::new();
    let (records, d) = get_history(&store);
    assert!(records.is_empty());
    assert_eq!(d.cache_control, "public, max-age=300");
    store.upsert("2024-01-02".to_string(), &PatternMap::new(), 2);
    store.upsert("2024-01-01".to_string(), &PatternMap::new(), 1);
    let (records, d) = get_history(&store);
    assert_eq!(records.len(), 2);
    assert_eq!(records[0].day, "2024-01-01");
    assert_eq!(records[0].total_messages, 1);
    assert_eq!(records[1].day, "2024-01-02");
    assert_eq!(records[1].total_messages, 2);
    assert_eq!(d.cache_control, "public, max-age=300");
    assert_eq!(d.expires, None);
    assert_eq!(store.len(), 2);
}

fn legacy(day: &str, count: Option<u32>, right_count: Option<u32>, total: Option<u32>) -> LegacyRow {
    LegacyRow { day: day.to_string(), count, right_count, total_messages: total }
}

#[test]
fn migration_turns_the_two_counters_into_patterns() {
    let store = migrate(Backing::Legacy(vec![legacy("2024-01-01", Some(5), Some(3), None)]));
    let (p, t) = store.get("2024-01-01");
    assert_eq!(p.pairs(), owned(&[("absolutely", 5), ("right", 3)]));
    assert_eq!(t, 0);
}

#[test]
fn migration_leaves_the_total_alone_and_reads_missing_counters_as_zero() {
    let store = migrate(Backing::Legacy(vec![
        legacy("2024-01-02", None, Some(1), Some(40)),
        legacy("2024-01-01", None, None, Some(7)),
    ]));
    let records = store.list_history();
    assert_eq!(records.len(), 2);
    assert_eq!(records[0].day, "2024-01-01");
    assert_eq!(records[0].patterns.pairs(), owned(&[("absolutely", 0), ("right", 0)]));
    assert_eq!(records[0].total_messages, 7);
    assert_eq!(records[1].day, "2024-01-02");
    assert_eq!(records[1].patterns.pairs(), owned(&[("absolutely", 0), ("right", 1)]));
    assert_eq!(records[1].total_messages, 40);
}

#[test]
fn migration_twice_is_migration_once() {
    let rows = || {
        vec![legacy("2024-01-01", Some(5), Some(3), Some(9)), legacy("2024-01-03", Some(1), None, None)]
    };
    let once = migrate(Backing::Legacy(rows()));
    let twice = migrate(Backing::Current(migrate(Backing::Legacy(rows()))));
    let a = once.list_history();
    let b = twice.list_history();
    assert_eq!(a.len(), 2);
    assert_eq!(b.len(), 2);
    for (x, y) in a.iter().zip(b.iter()) {
        assert_eq!(x.day, y.day);
        assert_eq!(x.patterns.pairs(), y.patterns.pairs());
        assert_eq!(x.total_messages, y.total_messages);
    }
    assert_eq!(b[0].patterns.pairs(), owned(&[("absolutely", 5), ("right", 3)]));
    assert_eq!(b[0].total_messages, 9);
}

#[test]
fn migration_keeps_a_current_store_as_it_is() {
    let mut store = DayStore::new();
    let mut p = PatternMap::new();
    p.insert("custom".to_string(), 4);
    store.upsert("2024-06-01".to_string(), &p, 2);
    let after = migrate(Backing::Current(store));
    assert_eq!(after.len(), 1);
    let (p, t) = after.get("2024-06-01");
    assert_eq!(p.pairs(), owned(&[("custom", 4)]));
    assert_eq!(t, 2);
    assert_eq!(migrate(Backing::Legacy(Vec::new())).len(), 0);
}

#[test]
fn upgrade_row_writes_the_patterns_column() {
    let row = upgrade_row(&legacy("2024-01-01", Some(5), Some(3), Some(12)));
    assert_eq!(row.day, "2024-01-01");
    assert_eq!(row.columns.total_messages, Some(12));
    let record = row.decode();
    assert_eq!(record.patterns.pairs(), owned(&[("absolutely", 5), ("right", 3)]));
    assert_eq!(record.total_messages, 12);
    let bare = upgrade_row(&legacy("d", None, None, None));
    assert_eq!(bare.columns.total_messages, None);
    assert_eq!(bare.decode().patterns.pairs(), owned(&[("absolutely", 0), ("right", 0)]));
}

#[test]
fn plan_has_steps_only_for_the_earlier_layout() {
    assert_eq!(plan(true), Vec::<Step>::new());
    assert_eq!(plan(false), vec![Step::AddPatternsColumn, Step::RewriteCounters]);
}

#[test]
fn only_views_of_the_main_page_are_logged() {
    assert!(should_log("GET", "/"));
    assert!(should_log("GET", "/index.html"));
    assert!(!should_log("POST", "/"));
    assert!(!should_log("get", "/"));
    assert!(!should_log("GET", ""));
    assert!(!should_log("GET", "/api/today"));
    assert!(!should_log("GET", "/index.htm"));
    assert!(!should_log("HEAD", "/index.html"));
}

#[test]
fn log_entry_has_the_time_and_the_path() {
    assert_eq!(log_entry("2024-01-02 03:04:05", "/"), "2024-01-02 03:04:05 - Pageview: /\n");
    assert_eq!(
        log_entry("2024-01-02 03:04:05", "/index.html"),
        "2024-01-02 03:04:05 - Pageview: /index.html\n"
    );
    assert_eq!(log_entry("", ""), " - Pageview: \n");
}

#[test]
fn pageview_line_needs_a_view_and_a_time() {
    assert_eq!(
        pageview_line("GET", "/", Some("2024-01-02 03:04:05")),
        Some("2024-01-02 03:04:05 - Pageview: /\n".to_string())
    );
    assert_eq!(
        pageview_line("GET", "/index.html", Some("t")),
        Some("t - Pageview: /index.html\n".to_string())
    );
    assert_eq!(pageview_line("GET", "/", None), None);
    assert_eq!(pageview_line("POST", "/", Some("2024-01-02 03:04:05")), None);
    assert_eq!(pageview_line("GET", "/api/today", Some("2024-01-02 03:04:05")), None);
    assert_eq!(pageview_line("POST", "/x", None), None);
}

#[test]
fn log_pageview_stamps_the_line() {
    let line = match log_pageview("GET", "/index.html") {
        Some(line) => line,
        None => panic!("a view of the main page was not logged"),
    };
    assert!(line.ends_with(" - Pageview: /index.html\n"));
    assert_eq!(line.len(), 19 + " - Pageview: /index.html\n".len());
    assert_eq!(log_pageview("POST", "/"), None);
    assert_eq!(log_pageview("GET", "/other"), None);
}

#[test]
fn day_and_time_of_an_instant() {
    assert_eq!(day_of(0), Some("1970-01-01".to_string()));
    assert_eq!(time_of(0), Some("1970-01-01 00:00:00".to_string()));
    assert_eq!(day_of(1704189600), Some("2024-01-02".to_string()));
    assert_eq!(time_of(1704189600), Some("2024-01-02 10:00:00".to_string()));
    assert_eq!(day_of(86399), Some("1970-01-01".to_string()));
    assert_eq!(day_of(86400), Some("1970-01-02".to_string()));
    assert_eq!(time_of(1709251199), Some("2024-02-29 23:59:59".to_string()));
    assert_eq!(day_of(-1), Some("1969-12-31".to_string()));
    assert_eq!(time_of(-1), Some("1969-12-31 23:59:59".to_string()));
}

#[test]
fn day_of_a_year_beyond_four_digits_keeps_the_shape_from_its_end() {
    assert_eq!(day_of(253402300799), Some("9999-12-31".to_string()));
    assert_eq!(day_of(253402300800), Some("+10000-01-01".to_string()));
    assert_eq!(time_of(253402300800), Some("+10000-01-01 00:00:00".to_string()));
    assert_eq!(day_of(-62167219201), Some("-0001-12-31".to_string()));
}

#[test]
fn an_instant_that_cannot_be_held_has_no_text() {
    assert_eq!(day_of(i64::MAX), None);
    assert_eq!(day_of(i64::MIN), None);
    assert_eq!(time_of(i64::MAX), None);
    assert_eq!(time_of(i64::MIN), None);
}

#[test]
fn clock_gives_day_and_time_in_their_shapes() {
    let day = today().unwrap();
    let bytes = day.as_bytes();
    assert_eq!(bytes.len(), 10);
    assert_eq!(bytes[4], b'-');
    assert_eq!(bytes[7], b'-');
    for i in [0, 1, 2, 3, 5, 6, 8, 9] {
        assert!(bytes[i].is_ascii_digit());
    }
    let time = timestamp().unwrap();
    let bytes = time.as_bytes();
    assert_eq!(bytes.len(), 19);
    assert_eq!(bytes[10], b' ');
    assert_eq!(bytes[13], b':');
    assert_eq!(bytes[16], b':');
    assert!(time.starts_with(&day) || time > day);
}

#[test]
fn files_follow_the_data_directory() {
    assert_eq!(data_dir(), "/app/data");
    assert_eq!(database_path(true), "/app/data/counts.db");
    assert_eq!(database_path(false), "counts.db");
    assert_eq!(log_path(true), "/app/data/pageviews.log");
    assert_eq!(log_path(false), "pageviews.log");
    assert_eq!(secret_variable(), "ABSOLUTELYRIGHT_SECRET");
}
