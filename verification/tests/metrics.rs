use nginx_metrics::counters::{CounterFamily, MetricsError};
use nginx_metrics::init_helpers::{fill_counter, HTTP_CODES};
use nginx_metrics::metrics::Metrics;
use nginx_metrics::parser::{LogRow, ParseLogError};
use nginx_metrics::reader::{
    process_line, process_outcome, tail_step, EnabledMetric, ReadEvent, StartPolicy, TailAction,
    RETRY_MILLIS,
};
use prometheus::{Encoder, Registry, TextEncoder};

fn gather(registry: &Registry) -> String {
    let mut buffer = vec![];
    let encoder = TextEncoder::new();
    encoder.encode(&registry.gather(), &mut buffer).unwrap();
    String::from_utf8(buffer).unwrap()
}

fn collect(metric: &CounterFamily) -> String {
    let mut registry = Registry::new();
    metric.register(&mut registry).unwrap();
    gather(&registry)
}

fn metrics() -> (Registry, Metrics) {
    let mut registry = Registry::new();
    let metrics_collection = Metrics::new("test").unwrap();
    metrics_collection.register(&mut registry).unwrap();
    (registry, metrics_collection)
}

fn enabled_metrics() -> EnabledMetric {
    EnabledMetric {
        response_status_short: true,
        response_status_full: true,
        response_size: true,
    }
}

const VALID_LINE: &str = r#"192.168.1.84 - - [22/Jan/2021:17:24:13 +0000] "GET /favicon.ico HTTP/1.1" 404 134 "http://serv-lemoigne/" "Mozilla/5.0 (Windows NT 10.0; Win64; x64; rv:84.0) Gecko/20100101 Firefox/84.0""#;

#[test]
fn test_init_with_0() {
    let mut metric = CounterFamily::new("", "test", "Test metric", &vec!["status"]).unwrap();
    assert_eq!(collect(&metric), "");

    fill_counter(&mut metric);
    assert_ne!(collect(&metric), "");
}

#[test]
fn test_new_do_not_panic() {
    let mut registry = Registry::new();
    let metric = Metrics::new("test_ns").unwrap();
    metric.register(&mut registry).unwrap();
}

#[test]
fn test_valid_line() {
    let (registry, mut metrics_collection) = metrics();
    let line = VALID_LINE;

    process_line(line, &mut metrics_collection, &enabled_metrics());

    assert_eq!(
        gather(&registry),
        "# HELP test_http_response_body_size_total Size of HTTP request per request info\n\
         # TYPE test_http_response_body_size_total counter\n\
         test_http_response_body_size_total{method=\"GET\",path=\"/favicon.ico\",protocol=\"HTTP/1.1\"} 134\n\
         # HELP test_http_response_code_total Count of HTTP request per request info and response code\n\
         # TYPE test_http_response_code_total counter\n\
         test_http_response_code_total{method=\"GET\",path=\"/favicon.ico\",protocol=\"HTTP/1.1\",status=\"404\"} 1\n\
         # HELP test_http_response_total Number of HTTP request by status code\n\
         # TYPE test_http_response_total counter\n\
         test_http_response_total{status=\"404\"} 1\n\
         # HELP test_parse_error Parse log error count\n\
         # TYPE test_parse_error counter\n\
         test_parse_error 0\n\
         "
    );
}

#[test]
fn test_invalid_line() {
    let (registry, mut metrics_collection) = metrics();
    let line = "error";

    let rejected = process_line(line, &mut metrics_collection, &enabled_metrics());
    assert_eq!(rejected, Some(ParseLogError::NoMatch));

    assert_eq!(
        gather(&registry),
        "# HELP test_parse_error Parse log error count\n\
         # TYPE test_parse_error counter\n\
         test_parse_error 1\n\
         "
    );
    assert_eq!(metrics_collection.parse_errors(), 1);
}

#[test]
fn end_to_end_example() {
    let (registry, mut m) = metrics();
    let line = r#"192.168.1.84 - - [22/Jan/2021:17:24:13 +0000] "GET /favicon.ico HTTP/1.1" 404 134 "http://x/" "UA""#;
    process_line(line, &mut m, &enabled_metrics());
    let text = gather(&registry);
    assert!(text.contains("test_http_response_total{status=\"404\"} 1\n"));
    assert!(text.contains(
        "test_http_response_code_total{method=\"GET\",path=\"/favicon.ico\",protocol=\"HTTP/1.1\",status=\"404\"} 1\n"
    ));
    assert!(text.contains(
        "test_http_response_body_size_total{method=\"GET\",path=\"/favicon.ico\",protocol=\"HTTP/1.1\"} 134\n"
    ));
    assert!(text.contains("test_parse_error 0\n"));
    assert_eq!(m.parse_errors(), 0);
}

#[test]
fn identical_lines_add_up() {
    let (registry, mut m) = metrics();
    for _ in 0..7 {
        process_line(VALID_LINE, &mut m, &enabled_metrics());
    }
    let text = gather(&registry);
    assert!(text.contains("test_http_response_total{status=\"404\"} 7\n"));
    assert!(text.contains(
        "test_http_response_code_total{method=\"GET\",path=\"/favicon.ico\",protocol=\"HTTP/1.1\",status=\"404\"} 7\n"
    ));
    assert!(text.contains(
        "test_http_response_body_size_total{method=\"GET\",path=\"/favicon.ico\",protocol=\"HTTP/1.1\"} 938\n"
    ));
    assert!(text.contains("test_parse_error 0\n"));
}

#[test]
fn only_enabled_families_count() {
    let (registry, mut m) = metrics();
    let none = EnabledMetric {
        response_status_short: false,
        response_status_full: false,
        response_size: false,
    };
    process_line(VALID_LINE, &mut m, &none);
    assert_eq!(
        gather(&registry),
        "# HELP test_parse_error Parse log error count\n\
         # TYPE test_parse_error counter\n\
         test_parse_error 0\n"
    );
    let size_only = EnabledMetric { response_size: true, ..none };
    process_line(VALID_LINE, &mut m, &size_only);
    process_line(VALID_LINE, &mut m, &size_only);
    assert_eq!(
        gather(&registry),
        "# HELP test_http_response_body_size_total Size of HTTP request per request info\n\
         # TYPE test_http_response_body_size_total counter\n\
         test_http_response_body_size_total{method=\"GET\",path=\"/favicon.ico\",protocol=\"HTTP/1.1\"} 268\n\
         # HELP test_parse_error Parse log error count\n\
         # TYPE test_parse_error counter\n\
         test_parse_error 0\n"
    );
    let short_only = EnabledMetric { response_status_short: true, ..none };
    process_line(VALID_LINE, &mut m, &short_only);
    assert!(gather(&registry).contains("test_http_response_total{status=\"404\"} 1\n"));
    assert!(!gather(&registry).contains("test_http_response_code_total"));
}

#[test]
fn every_rejected_line_counts_as_one_error() {
    let (registry, mut m) = metrics();
    let lines = [
        "",
        "error",
        r#"999.1.1.1 - - [22/Jan/2021:17:24:13 +0000] "GET / HTTP/1.1" 200 1 "-" "UA""#,
        r#"1.1.1.1 - - [31/Feb/2021:17:24:13 +0000] "GET / HTTP/1.1" 200 1 "-" "UA""#,
        r#"1.1.1.1 - - [22/Jan/2021:17:24:13 +0000] "GET / HTTP/1.1" 600 1 "-" "UA""#,
        r#"1.1.1.1 - - [22/Jan/2021:17:24:13 +0000] "GET / HTTP/1.1" 200 18446744073709551616 "-" "UA""#,
    ];
    for line in lines {
        process_line(line, &mut m, &enabled_metrics());
    }
    assert_eq!(m.parse_errors(), 6);
    assert_eq!(
        gather(&registry),
        "# HELP test_parse_error Parse log error count\n\
         # TYPE test_parse_error counter\n\
         test_parse_error 6\n"
    );
}

#[test]
fn outcome_decides_what_is_counted() {
    let (registry, mut m) = metrics();
    process_outcome(&Err(ParseLogError::InvalidTime), &mut m, &enabled_metrics());
    assert_eq!(m.parse_errors(), 1);
    let row = LogRow::from_str(VALID_LINE);
    assert!(row.is_ok());
    process_outcome(&row, &mut m, &enabled_metrics());
    assert_eq!(m.parse_errors(), 1);
    assert!(gather(&registry).contains("test_http_response_total{status=\"404\"} 1\n"));
}

#[test]
fn record_counts_by_the_decimal_status() {
    let (registry, mut m) = metrics();
    let mut row = LogRow::from_str(VALID_LINE).unwrap();
    row.response_status = 7;
    row.response_body_bytes_sent = u64::MAX;
    m.record(&row, &enabled_metrics());
    let text = gather(&registry);
    assert!(text.contains("test_http_response_total{status=\"7\"} 1\n"));
    assert!(text.contains("status=\"7\"} 1\n"));
    row.response_status = 65535;
    m.record(&row, &enabled_metrics());
    assert!(gather(&registry).contains("test_http_response_total{status=\"65535\"} 1\n"));
}

#[test]
fn routes_with_the_same_characters_share_a_child() {
    let (registry, mut m) = metrics();
    let size_only = EnabledMetric {
        response_status_short: false,
        response_status_full: false,
        response_size: true,
    };
    let first = r#"1.1.1.1 - - [22/Jan/2021:17:24:13 +0000] "GET /a HTTP/1.1" 200 5 "-" "UA""#;
    let second = r#"1.1.1.1 - - [22/Jan/2021:17:24:13 +0000] "GE T/a HTTP/1.1" 200 6 "-" "UA""#;
    process_line(first, &mut m, &size_only);
    process_line(second, &mut m, &size_only);
    let text = gather(&registry);
    assert!(text.contains(
        "test_http_response_body_size_total{method=\"GET\",path=\"/a\",protocol=\"HTTP/1.1\"} 11\n"
    ));
    assert!(!text.contains("method=\"GE\""));
}

#[test]
fn prefilled_shows_every_common_status() {
    let mut registry = Registry::new();
    let m = Metrics::new("nginx").unwrap();
    m.register(&mut registry).unwrap();
    assert!(!gather(&registry).contains("nginx_http_response_total"));
    let mut m = m.prefilled();
    let text = gather(&registry);
    assert_eq!(HTTP_CODES.len(), 63);
    for code in HTTP_CODES {
        assert!(text.contains(&format!("nginx_http_response_total{{status=\"{}\"}} 0\n", code)));
    }
    assert_eq!(text.matches("nginx_http_response_total{").count(), 63);
    process_line(VALID_LINE, &mut m, &enabled_metrics());
    assert!(gather(&registry).contains("nginx_http_response_total{status=\"404\"} 1\n"));
    assert!(gather(&registry).contains("nginx_http_response_total{status=\"200\"} 0\n"));
}

#[test]
fn fill_counter_keeps_the_counts_that_are_there() {
    let mut registry = Registry::new();
    let m = Metrics::new("").unwrap();
    m.register(&mut registry).unwrap();
    let mut m = m.prefilled();
    process_line(VALID_LINE, &mut m, &enabled_metrics());
    assert!(gather(&registry).contains("http_response_total{status=\"404\"} 1\n"));
    let m = m.prefilled();
    let text = gather(&registry);
    assert!(text.contains("http_response_total{status=\"404\"} 1\n"));
    assert!(text.contains("http_response_total{status=\"200\"} 0\n"));
    assert_eq!(text.matches("http_response_total{").count(), 63);
    assert_eq!(m.parse_errors(), 0);
}

#[test]
fn fill_counter_adds_only_the_codes_that_are_missing() {
    let mut metric = CounterFamily::new("", "test", "Test metric", &vec!["status"]).unwrap();
    let mut registry = Registry::new();
    metric.register(&mut registry).unwrap();
    fill_counter(&mut metric);
    let first = gather(&registry);
    assert_eq!(first.matches("test{status=").count(), 63);
    assert!(first.contains("test{status=\"100\"} 0\n"));
    assert!(first.contains("test{status=\"599\"} 0\n"));
    assert!(!first.contains("test{status=\"600\"}"));
    fill_counter(&mut metric);
    assert_eq!(gather(&registry), first);
}

#[test]
fn the_counters_have_their_names_and_labels() {
    let mut registry = Registry::new();
    let mut m = Metrics::new("ns").unwrap();
    m.register(&mut registry).unwrap();
    process_line(VALID_LINE, &mut m, &enabled_metrics());
    assert_eq!(
        gather(&registry),
        "# HELP ns_http_response_body_size_total Size of HTTP request per request info\n\
         # TYPE ns_http_response_body_size_total counter\n\
         ns_http_response_body_size_total{method=\"GET\",path=\"/favicon.ico\",protocol=\"HTTP/1.1\"} 134\n\
         # HELP ns_http_response_code_total Count of HTTP request per request info and response code\n\
         # TYPE ns_http_response_code_total counter\n\
         ns_http_response_code_total{method=\"GET\",path=\"/favicon.ico\",protocol=\"HTTP/1.1\",status=\"404\"} 1\n\
         # HELP ns_http_response_total Number of HTTP request by status code\n\
         # TYPE ns_http_response_total counter\n\
         ns_http_response_total{status=\"404\"} 1\n\
         # HELP ns_parse_error Parse log error count\n\
         # TYPE ns_parse_error counter\n\
         ns_parse_error 0\n"
    );
    let mut bare = Registry::new();
    let mut m = Metrics::new("").unwrap();
    m.register(&mut bare).unwrap();
    process_line(VALID_LINE, &mut m, &enabled_metrics());
    let text = gather(&bare);
    assert!(text.contains("\nhttp_response_total{status=\"404\"} 1\n"));
    assert!(text.contains("\nparse_error 0\n"));
}

#[test]
fn namespace_must_be_an_identifier() {
    assert!(Metrics::new("").is_ok());
    assert!(Metrics::new("nginx").is_ok());
    assert!(Metrics::new("_a:b9").is_ok());
    assert!(Metrics::new(":x").is_ok());
    assert_eq!(Metrics::new("9lives").err(), Some(MetricsError::Description));
    assert_eq!(Metrics::new("with space").err(), Some(MetricsError::Description));
    assert_eq!(Metrics::new("dash-ed").err(), Some(MetricsError::Description));
    assert_eq!(Metrics::new("\u{e9}t\u{e9}").err(), Some(MetricsError::Description));
}

#[test]
fn family_description_is_checked() {
    assert!(CounterFamily::new("ns", "name", "help", &vec!["a", "b"]).is_ok());
    assert!(CounterFamily::new("", "name", "help", &vec![]).is_ok());
    assert!(CounterFamily::new("", "na:me", "help", &vec!["_a1"]).is_ok());
    assert_eq!(
        CounterFamily::new("ns", "name", "", &vec!["a"]).err(),
        Some(MetricsError::Description)
    );
    assert_eq!(
        CounterFamily::new("ns", "", "help", &vec!["a"]).err(),
        Some(MetricsError::Description)
    );
    assert_eq!(
        CounterFamily::new("", "1name", "help", &vec!["a"]).err(),
        Some(MetricsError::Description)
    );
    assert_eq!(
        CounterFamily::new("ns", "name", "help", &vec!["a", "a"]).err(),
        Some(MetricsError::Description)
    );
    assert_eq!(
        CounterFamily::new("ns", "name", "help", &vec!["a:b"]).err(),
        Some(MetricsError::Description)
    );
    assert_eq!(
        CounterFamily::new("ns", "name", "help", &vec![""]).err(),
        Some(MetricsError::Description)
    );
    assert_eq!(
        CounterFamily::new("ns", "name", "help", &vec!["1a"]).err(),
        Some(MetricsError::Description)
    );
}

#[test]
fn registering_twice_is_refused() {
    let mut registry = Registry::new();
    let m = Metrics::new("twice").unwrap();
    assert_eq!(m.register(&mut registry), Ok(()));
    assert_eq!(m.register(&mut registry), Err(MetricsError::Registration));
    let family = CounterFamily::new("", "test", "Test metric", &vec!["status"]).unwrap();
    assert_eq!(family.register(&mut registry), Ok(()));
    assert_eq!(family.register(&mut registry), Err(MetricsError::Registration));
}

#[test]
fn a_name_that_the_registry_knows_is_refused() {
    let mut registry = Registry::new();
    let first = CounterFamily::new("", "test", "Test metric", &vec!["status"]).unwrap();
    let other_labels = CounterFamily::new("", "test", "Test metric", &vec!["code"]).unwrap();
    let other_help = CounterFamily::new("", "test", "Another help", &vec!["status"]).unwrap();
    let other_name = CounterFamily::new("", "test2", "Test metric", &vec!["status"]).unwrap();
    assert_eq!(first.register(&mut registry), Ok(()));
    assert_eq!(other_labels.register(&mut registry), Err(MetricsError::Registration));
    assert_eq!(other_help.register(&mut registry), Err(MetricsError::Registration));
    assert_eq!(other_name.register(&mut registry), Ok(()));
    assert_eq!(other_name.register(&mut registry), Err(MetricsError::Registration));
}

#[test]
fn what_was_taken_before_a_refusal_stays() {
    let mut registry = Registry::new();
    let taken = CounterFamily::new(
        "part",
        "http_response_body_size_total",
        "Size of HTTP request per request info",
        &vec!["method", "path", "protocol"],
    )
    .unwrap();
    assert_eq!(taken.register(&mut registry), Ok(()));
    let mut m = Metrics::new("part").unwrap();
    assert_eq!(m.register(&mut registry), Err(MetricsError::Registration));
    process_line(VALID_LINE, &mut m, &enabled_metrics());
    process_line("error", &mut m, &enabled_metrics());
    let text = gather(&registry);
    assert!(text.contains("part_http_response_total{status=\"404\"} 1\n"));
    assert!(text.contains("part_http_response_code_total{"));
    assert!(!text.contains("part_http_response_body_size_total"));
    assert!(!text.contains("part_parse_error"));
    assert_eq!(m.parse_errors(), 1);
}

#[test]
fn empty_polls_change_nothing() {
    let (registry, mut m) = metrics();
    let before = gather(&registry);
    for _ in 0..25 {
        assert_eq!(
            tail_step(ReadEvent::Read(0), "", &mut m, &enabled_metrics()),
            TailAction::Retry(50)
        );
    }
    assert_eq!(RETRY_MILLIS, 50);
    assert_eq!(gather(&registry), before);
    let line = format!("{}\n", VALID_LINE);
    assert_eq!(
        tail_step(ReadEvent::Read(line.len()), &line, &mut m, &enabled_metrics()),
        TailAction::Consumed(None)
    );
    let text = gather(&registry);
    assert!(text.contains("test_http_response_total{status=\"404\"} 1\n"));
    assert!(text.contains("test_parse_error 0\n"));
}

#[test]
fn a_partial_line_waits_for_its_end() {
    let (registry, mut m) = metrics();
    let before = gather(&registry);
    let (head, rest) = VALID_LINE.split_at(40);
    assert_eq!(
        tail_step(ReadEvent::Read(head.len()), head, &mut m, &enabled_metrics()),
        TailAction::Pending
    );
    assert_eq!(
        tail_step(ReadEvent::Read(0), head, &mut m, &enabled_metrics()),
        TailAction::Retry(50)
    );
    assert_eq!(gather(&registry), before);
    let whole = format!("{}{}\n", head, rest);
    assert_eq!(
        tail_step(ReadEvent::Read(rest.len() + 1), &whole, &mut m, &enabled_metrics()),
        TailAction::Consumed(None)
    );
    assert!(gather(&registry).contains("test_http_response_total{status=\"404\"} 1\n"));
    assert_eq!(m.parse_errors(), 0);
}

#[test]
fn a_whole_line_that_is_no_record_is_consumed() {
    let (_registry, mut m) = metrics();
    assert_eq!(
        tail_step(ReadEvent::Read(6), "error\n", &mut m, &enabled_metrics()),
        TailAction::Consumed(Some(ParseLogError::NoMatch))
    );
    assert_eq!(
        tail_step(ReadEvent::Read(1), "\n", &mut m, &enabled_metrics()),
        TailAction::Consumed(Some(ParseLogError::NoMatch))
    );
    let line = "1.2.3.4 - - [22/Jan/2021:17:24:13 +0000] \"GET / HTTP/1.1\" 700 1 \"-\" \"UA\"\n";
    assert_eq!(
        tail_step(ReadEvent::Read(line.len()), line, &mut m, &enabled_metrics()),
        TailAction::Consumed(Some(ParseLogError::InvalidStatusCode(700)))
    );
    assert_eq!(m.parse_errors(), 3);
}

#[test]
fn a_failed_read_stops_the_tailing() {
    let (registry, mut m) = metrics();
    let before = gather(&registry);
    assert_eq!(
        tail_step(ReadEvent::Failed, "", &mut m, &enabled_metrics()),
        TailAction::Stop
    );
    let line = format!("{}\n", VALID_LINE);
    assert_eq!(
        tail_step(ReadEvent::Failed, &line, &mut m, &enabled_metrics()),
        TailAction::Stop
    );
    assert_eq!(gather(&registry), before);
}

#[test]
fn start_policy_gives_the_offset() {
    assert_eq!(StartPolicy::Beginning.offset(1234), 0);
    assert_eq!(StartPolicy::End.offset(1234), 1234);
    assert_eq!(StartPolicy::End.offset(0), 0);
    assert_eq!(StartPolicy::End.offset(u64::MAX), u64::MAX);
}
