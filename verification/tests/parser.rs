use nginx_metrics::ip::IpAddress;
use nginx_metrics::parser::{Fields, LogRow, ParseLogError};
use nginx_metrics::time::LocalTime;

const RE_ROW_EXPR: &str = r#"^(?P<remote_addr>\S+) - (?P<remote_user>.*) \[(?P<time_local>.+)\] "(?P<request_method>\S+) (?P<request_path>\S+) (?P<request_protocol>\S+)" (?P<response_status>\d\d\d) (?P<response_body_bytes_sent>\d+) "(?P<http_referer>[^"]+)" "(?P<http_user_agent>[^"]+)""#;

fn captures(line: &str) -> Option<Vec<String>> {
    let re = regex::Regex::new(RE_ROW_EXPR).unwrap();
    let caps = re.captures(line)?;
    Some((1..=10).map(|i| caps[i].to_owned()).collect())
}

fn fields(line: &str) -> Option<Vec<String>> {
    let f = Fields::split(line)?;
    Some(vec![
        f.remote_addr,
        f.remote_user,
        f.time_local,
        f.request_method,
        f.request_path,
        f.request_protocol,
        f.response_status,
        f.response_body_bytes_sent,
        f.http_referer,
        f.http_user_agent,
    ])
}

#[test]
fn test_empty() {
    assert_eq!(LogRow::from_str(""), Err(ParseLogError::NoMatch));
}

#[test]
fn test_invalid_ip() {
    assert_eq!(
        LogRow::from_str(
            r#"999.999.999.999 - - [22/Jan/2021:17:24:16 +0000] "GET / HTTP/1.1" 304 0 "-" "Mozilla/5.0 (Windows NT 10.0; Win64; x64; rv:84.0) Gecko/20100101 Firefox/84.0" 0.2"#
        ),
        Err(ParseLogError::InvalidIpAddr)
    );
    assert_eq!(
        LogRow::from_str(
            r#"256.256.256.256 - - [22/Jan/2021:17:24:16 +0000] "GET / HTTP/1.1" 304 0 "-" "Mozilla/5.0 (Windows NT 10.0; Win64; x64; rv:84.0) Gecko/20100101 Firefox/84.0" 0.2"#
        ),
        Err(ParseLogError::InvalidIpAddr)
    );
}

#[test]
fn test_invalid_time() {
    assert_eq!(
        LogRow::from_str(
            r#"192.168.1.129 - - [31/Feb/2021:17:24:16 +0000] "GET / HTTP/1.1" 304 0 "-" "Mozilla/5.0 (Windows NT 10.0; Win64; x64; rv:84.0) Gecko/20100101 Firefox/84.0" 0.2"#
        ),
        Err(ParseLogError::InvalidTime)
    );
}

#[test]
fn test_invalid_status() {
    assert_eq!(
        LogRow::from_str(
            r#"192.168.1.129 - - [10/Mar/2021:17:24:16 +0000] "GET / HTTP/1.1" 631 0 "-" "Mozilla/5.0 (Windows NT 10.0; Win64; x64; rv:84.0) Gecko/20100101 Firefox/84.0" 0.2"#
        ),
        Err(ParseLogError::InvalidStatusCode(631))
    );
    assert_eq!(
        LogRow::from_str(
            r#"192.168.1.129 - - [10/Mar/2021:17:24:16 +0000] "GET / HTTP/1.1" 031 0 "-" "Mozilla/5.0 (Windows NT 10.0; Win64; x64; rv:84.0) Gecko/20100101 Firefox/84.0" 0.2"#
        ),
        Err(ParseLogError::InvalidStatusCode(31))
    );
}

#[test]
fn test_valid_with_extra() {
    let expected_time = chrono::DateTime::parse_from_rfc3339("2021-01-22T17:24:16+00:00").unwrap();
    assert_eq!(
        LogRow::from_str(
            r#"192.168.1.84 - - [22/Jan/2021:17:24:16 +0000] "GET / HTTP/1.1" 304 0 "-" "Mozilla/5.0 (Windows NT 10.0; Win64; x64; rv:84.0) Gecko/20100101 Firefox/84.0" 0.24 this is a test"#
        ),
        Ok(LogRow {
            remote_addr: IpAddress::V4([192, 168, 1, 84]),
            remote_user: "-".to_owned(),
            time_local: LocalTime {
                timestamp: expected_time.timestamp(),
                nanos: expected_time.timestamp_subsec_nanos(),
                offset: expected_time.offset().local_minus_utc(),
            },
            request_method: "GET".to_owned(),
            request_path: "/".to_owned(),
            request_protocol: "HTTP/1.1".to_owned(),
            response_status: 304,
            response_body_bytes_sent: 0,
            http_referer: "-".to_owned(),
            http_user_agent:
                "Mozilla/5.0 (Windows NT 10.0; Win64; x64; rv:84.0) Gecko/20100101 Firefox/84.0"
                    .to_owned()
        })
    );
}

#[test]
fn split_agrees_with_the_pattern() {
    let lines = [
        "",
        "error",
        r#"192.168.1.84 - - [22/Jan/2021:17:24:16 +0000] "GET / HTTP/1.1" 304 0 "-" "UA""#,
        r#"192.168.1.84 - - [22/Jan/2021:17:24:16 +0000] "GET / HTTP/1.1" 304 0 "-" "UA" tail "x""#,
        r#"a - b [c] [d] "e] "f g h" 200 1 "i" "j""#,
        r#"a - b [c] "m p q" 200 1 "i" "j" [x] "m2 p2 q2" 500 22 "k" "l""#,
        r#"a - u [t1] "m p q" 200 1 "i" "j" - v [t2] "m p q" 404 2 "k" "l""#,
        r#"a -  [t] "m p q" 200 1 "i" "j""#,
        r#"a - [t] "m p q" 200 1 "i" "j""#,
        r#"a - u [] "m p q" 200 1 "i" "j""#,
        r#"a - u [t] "m p q"" 200 1 "i" "j""#,
        r#"a - u [t] "m p "q" 200 1 "i" "j""#,
        r#"a - u [t] "m p q" 2000 1 "i" "j""#,
        r#"a - u [t] "m p q" 20 1 "i" "j""#,
        r#"a - u [t] "m p q" 200 1x "i" "j""#,
        r#"a - u [t] "m p q" 200 18446744073709551616 "i" "j""#,
        r#"a - u [t] "m p q" 200 1 "" "j""#,
        r#"a - u [t] "m p q" 200 1 "i" """#,
        r#"a - u [t] "m p q" 200 1 "i" "j"#,
        r#"a - u [t] "m  p q" 200 1 "i" "j""#,
        "a - u [t] \"m\tp q\" 200 1 \"i\" \"j\"",
        "a - u\n [t] \"m p q\" 200 1 \"i\" \"j\"",
        "a - u [t\n] \"m p q\" 200 1 \"i\" \"j\"",
        "a - u [t] \"m p q\" 200 1 \"i\nx\" \"j\ny\"\n",
        "a\u{a0}b - u [t] \"m p q\" 200 1 \"i\" \"j\"",
        "\u{e9}t\u{e9} - \u{fc} [\u{4e2d}] \"m \u{2603} q\" 200 1 \"\u{1f600}\" \"j\"",
        r#" a - u [t] "m p q" 200 1 "i" "j""#,
        r#"a  - u [t] "m p q" 200 1 "i" "j""#,
        r#"a - u [t]  "m p q" 200 1 "i" "j""#,
        r#"a - u [t] "m p q" 200 1  "i" "j""#,
        r#"a - u [t] "m p q" 200 1 "i"  "j""#,
        r#"a - u [x] "y [t] "m p q" 200 1 "i" "j""#,
        r#"a - u [t] "m p q" 200 1 "i" "j" [t] "m p q" 200 1 "i""#,
        "a - u [t] \"m p q\" \u{664}\u{660}\u{664} 1 \"i\" \"j\"",
        "a - u [t] \"m p q\" 2\u{9e6}0 \u{966}\u{1d7ce}7\u{ff19} \"i\" \"j\"",
        "a - u [t] \"m p q\" 200 1\u{b2} \"i\" \"j\"",
        "a - u [t] \"m p q\" 20\u{2460} 1 \"i\" \"j\"",
        "a - u [t] \"m p q\" 200 \u{1e950}\u{1e959}\u{1fbf0}\u{1fbf9}\u{11de0} \"i\" \"j\"",
        "a - u [t] \"m p q\" 200 \u{1e95a} \"i\" \"j\"",
        "a - u [t] \"m p q\" 200 \u{1fbfa} \"i\" \"j\"",
        "a\u{2003}b - u [t] \"m p q\" 200 1 \"i\" \"j\"",
        "a\u{200b}b - u [t] \"m\u{feff} p\u{180e} q\u{200a}\" 200 1 \"i\" \"j\"",
        "a\u{200b}b - u [t] \"m\u{feff} p\u{180e} q\u{2060}\" 200 1 \"i\" \"j\"",
        "a - u\r [t\r] \"m p q\" 200 1 \"i\" \"j\"\r\n",
    ];
    for line in lines {
        assert_eq!(fields(line), captures(line), "line {:?}", line);
    }
}

fn line_with(addr: &str, time: &str, status: &str, bytes: &str) -> String {
    format!(
        r#"{} - - [{}] "GET / HTTP/1.1" {} {} "-" "UA""#,
        addr, time, status, bytes
    )
}

const GOOD_TIME: &str = "22/Jan/2021:17:24:17 +0000";

#[test]
fn status_bounds() {
    assert_eq!(
        LogRow::from_str(&line_with("1.2.3.4", GOOD_TIME, "099", "0")),
        Err(ParseLogError::InvalidStatusCode(99))
    );
    assert_eq!(
        LogRow::from_str(&line_with("1.2.3.4", GOOD_TIME, "600", "0")),
        Err(ParseLogError::InvalidStatusCode(600))
    );
    assert_eq!(
        LogRow::from_str(&line_with("1.2.3.4", GOOD_TIME, "000", "0")),
        Err(ParseLogError::InvalidStatusCode(0))
    );
    assert_eq!(
        LogRow::from_str(&line_with("1.2.3.4", GOOD_TIME, "999", "0")),
        Err(ParseLogError::InvalidStatusCode(999))
    );
    assert_eq!(
        LogRow::from_str(&line_with("1.2.3.4", GOOD_TIME, "100", "0")).map(|r| r.response_status),
        Ok(100)
    );
    assert_eq!(
        LogRow::from_str(&line_with("1.2.3.4", GOOD_TIME, "599", "0")).map(|r| r.response_status),
        Ok(599)
    );
}

#[test]
fn leading_zero_status_is_read_as_a_number() {
    assert_eq!(
        LogRow::from_str(&line_with("1.2.3.4", GOOD_TIME, "031", "0")),
        Err(ParseLogError::InvalidStatusCode(31))
    );
}

#[test]
fn a_wrong_address_comes_first() {
    assert_eq!(
        LogRow::from_str(&line_with("300.2.3.4", GOOD_TIME, "200", "0")),
        Err(ParseLogError::InvalidIpAddr)
    );
    assert_eq!(
        LogRow::from_str(&line_with("300.2.3.4", GOOD_TIME, "631", "0")),
        Err(ParseLogError::InvalidIpAddr)
    );
    assert_eq!(
        LogRow::from_str(&line_with("host", "31/Feb/2021:17:24:16 +0000", "031", "0")),
        Err(ParseLogError::InvalidIpAddr)
    );
    assert_eq!(
        LogRow::from_str(&line_with("1.2.3", "never", "999", "18446744073709551616")),
        Err(ParseLogError::InvalidIpAddr)
    );
}

#[test]
fn the_order_of_the_other_checks() {
    assert_eq!(
        LogRow::from_str(&line_with("1.2.3.4", "never", "631", "18446744073709551616")),
        Err(ParseLogError::InvalidStatusCode(631))
    );
    assert_eq!(
        LogRow::from_str(&line_with("1.2.3.4", "never", "200", "18446744073709551616")),
        Err(ParseLogError::InvalidTime)
    );
    assert_eq!(
        LogRow::from_str(&line_with("1.2.3.4", GOOD_TIME, "200", "18446744073709551616")),
        Err(ParseLogError::InvalidNumber)
    );
    assert_eq!(
        LogRow::from_str(&line_with("1.2.3.4", GOOD_TIME, "200", "18446744073709551615"))
            .map(|r| r.response_body_bytes_sent),
        Ok(u64::MAX)
    );
}

#[test]
fn digits_of_other_scripts_are_no_number() {
    assert_eq!(
        LogRow::from_str(&line_with("1.2.3.4", GOOD_TIME, "\u{664}\u{660}\u{664}", "0")),
        Err(ParseLogError::InvalidNumber)
    );
    assert_eq!(
        LogRow::from_str(&line_with("1.2.3.4", GOOD_TIME, "200", "1\u{663}")),
        Err(ParseLogError::InvalidNumber)
    );
    assert_eq!(
        LogRow::from_str(&line_with("1.2.3.4", GOOD_TIME, "200", "1\u{b2}")),
        Err(ParseLogError::NoMatch)
    );
}

#[test]
fn a_line_parses_as_a_str_does() {
    let line = r#"192.168.1.84 - - [22/Jan/2021:17:24:13 +0000] "GET / HTTP/1.1" 404 134 "-" "UA""#;
    assert_eq!(line.parse::<LogRow>(), LogRow::from_str(line));
    assert_eq!(line.parse::<LogRow>().map(|r| r.response_status), Ok(404));
    assert_eq!("error".parse::<LogRow>(), Err(ParseLogError::NoMatch));
}

#[test]
fn parsing_twice_gives_the_same() {
    for line in [
        "",
        "error",
        r#"192.168.1.84 - - [22/Jan/2021:17:24:13 +0000] "GET /favicon.ico HTTP/1.1" 404 134 "http://x/" "UA""#,
        r#"300.168.1.84 - - [22/Jan/2021:17:24:13 +0000] "GET /favicon.ico HTTP/1.1" 404 134 "http://x/" "UA""#,
    ] {
        assert_eq!(LogRow::from_str(line), LogRow::from_str(line));
    }
}

#[test]
fn the_time_is_what_chrono_reads() {
    let row = LogRow::from_str(&line_with("::1", "22/Jan/2021:17:24:17 +0130", "200", "5")).unwrap();
    assert_eq!(row.remote_addr, IpAddress::V6([0, 0, 0, 0, 0, 0, 0, 1]));
    assert_eq!(row.time_local.offset, 5400);
    assert_eq!(row.time_local.nanos, 0);
    assert_eq!(row.time_local.timestamp, 1611330857);
    assert_eq!(
        LocalTime::parse("22/Jan/2021:17:24:17 +0000"),
        Some(LocalTime { timestamp: 1611336257, nanos: 0, offset: 0 })
    );
    assert_eq!(
        LocalTime::parse("01/Jan/1970:00:00:00 -0100"),
        Some(LocalTime { timestamp: 3600, nanos: 0, offset: -3600 })
    );
    assert_eq!(LocalTime::parse("31/Feb/2021:17:24:16 +0000"), None);
    assert_eq!(LocalTime::parse("22/Jan/2021:17:24:17"), None);
    assert_eq!(LocalTime::parse("2021-01-22T17:24:17+00:00"), None);
    assert_eq!(LocalTime::parse(""), None);
}

#[test]
fn fields_make_a_record() {
    let line = r#"10.0.0.1 - alice [22/Jan/2021:17:24:17 +0000] "POST /a/b?c=d HTTP/2.0" 201 77 "http://ref/" "agent 1.0" rest"#;
    let f = Fields::split(line).unwrap();
    assert_eq!(f.remote_addr, "10.0.0.1");
    assert_eq!(f.remote_user, "alice");
    assert_eq!(f.time_local, "22/Jan/2021:17:24:17 +0000");
    assert_eq!(f.request_method, "POST");
    assert_eq!(f.request_path, "/a/b?c=d");
    assert_eq!(f.request_protocol, "HTTP/2.0");
    assert_eq!(f.response_status, "201");
    assert_eq!(f.response_body_bytes_sent, "77");
    assert_eq!(f.http_referer, "http://ref/");
    assert_eq!(f.http_user_agent, "agent 1.0");
    let time = LocalTime { timestamp: 5, nanos: 6, offset: 7 };
    let row = LogRow::from_fields(f, Some(time)).unwrap();
    assert_eq!(row.remote_addr, IpAddress::V4([10, 0, 0, 1]));
    assert_eq!(row.remote_user, "alice");
    assert_eq!(row.time_local, time);
    assert_eq!(row.request_method, "POST");
    assert_eq!(row.request_path, "/a/b?c=d");
    assert_eq!(row.request_protocol, "HTTP/2.0");
    assert_eq!(row.response_status, 201);
    assert_eq!(row.response_body_bytes_sent, 77);
    assert_eq!(row.http_referer, "http://ref/");
    assert_eq!(row.http_user_agent, "agent 1.0");
    let f = Fields::split(line).unwrap();
    assert_eq!(LogRow::from_fields(f, None), Err(ParseLogError::InvalidTime));
    let mut f = Fields::split(line).unwrap();
    f.response_status = "2x1".to_owned();
    assert_eq!(LogRow::from_fields(f, Some(time)), Err(ParseLogError::InvalidNumber));
    let mut f = Fields::split(line).unwrap();
    f.response_status = "70000".to_owned();
    assert_eq!(LogRow::from_fields(f, Some(time)), Err(ParseLogError::InvalidNumber));
}

#[test]
fn the_user_and_the_time_are_as_long_as_can_be() {
    let line = r#"a - u [x] "y [t] "m p q" 200 1 "i" "j" [z] "m2 p2 q2" 404 2 "k" "l""#;
    let f = Fields::split(line).unwrap();
    assert_eq!(f.remote_user, r#"u [x] "y [t] "m p q" 200 1 "i" "j""#);
    assert_eq!(f.time_local, "z");
    assert_eq!(f.response_status, "404");
    let line = r#"a - u [t1] "x] "m p q" 200 1 "i" "j""#;
    let f = Fields::split(line).unwrap();
    assert_eq!(f.remote_user, "u");
    assert_eq!(f.time_local, r#"t1] "x"#);
}
