use chrono::DateTime;
use log_plotter::duration::{ExecTime, Unit};
use log_plotter::extractor::{
    Entry, Extract, ExtractError, Outcome, Rejected, Response, RestProxyLog, SourceError,
};
use log_plotter::timestamp::Moment;
use log_plotter::timestamp::ParseFailure;

fn read(time: &ExecTime) -> i32 {
    match time.unit {
        None => 0,
        Some(unit) => (time.number.parse::<f32>().unwrap_or(0f32) * unit.millis() as f32) as i32,
    }
}

fn millis(time: &str) -> i32 {
    read(&RestProxyLog::split_exec_time(time))
}

fn cut(number: &str, unit: Option<Unit>) -> ExecTime {
    ExecTime { number: String::from(number), unit }
}

fn lines(text: &[&str]) -> Vec<String> {
    text.iter().map(|l| l.to_string()).collect()
}

#[test]
fn parse_exec_time_ms() {
    let time = millis("12345.99ms");
    assert_eq!(12345, time)
}

#[test]
fn parse_exec_time_s() {
    let time = millis("1.123456789s");
    assert_eq!(1123, time)
}

#[test]
fn parse_exec_time_wrong() {
    let time = millis("1.123456789");
    assert_eq!(0, time);

    let time = millis("1.A123456789ms");
    assert_eq!(0, time);

    let time = millis("1.A123456789s");
    assert_eq!(0, time);
}

#[test]
fn split_exec_time_parts() {
    assert_eq!(cut("12345.99", Some(Unit::Millis)), RestProxyLog::split_exec_time("12345.99ms"));
    assert_eq!(cut("1.123456789", Some(Unit::Seconds)), RestProxyLog::split_exec_time("1.123456789s"));
    assert_eq!(cut("1.A123456789", Some(Unit::Seconds)), RestProxyLog::split_exec_time("1.A123456789s"));
    assert_eq!(cut("1.A123456789", Some(Unit::Millis)), RestProxyLog::split_exec_time("1.A123456789ms"));
    assert_eq!(cut("", Some(Unit::Millis)), RestProxyLog::split_exec_time("ms"));
    assert_eq!(cut("7", Some(Unit::Millis)), RestProxyLog::split_exec_time("7msms"));
    assert_eq!(cut("7", Some(Unit::Millis)), RestProxyLog::split_exec_time("7ms1s"));
    assert_eq!(cut("2s7", Some(Unit::Millis)), RestProxyLog::split_exec_time("2s7ms"));
    assert_eq!(cut("7m ", Some(Unit::Seconds)), RestProxyLog::split_exec_time("7m s"));
}

#[test]
fn split_exec_time_without_unit() {
    assert_eq!(cut("1.123456789", None), RestProxyLog::split_exec_time("1.123456789"));
    assert_eq!(cut("s", None), RestProxyLog::split_exec_time("s"));
    assert_eq!(cut("s12", None), RestProxyLog::split_exec_time("s12"));
    assert_eq!(cut("", None), RestProxyLog::split_exec_time(""));
    assert_eq!(0, millis("s12"));
    assert_eq!(0, millis("ms"));
}

#[test]
fn unit_millis() {
    assert_eq!(1, Unit::Millis.millis());
    assert_eq!(1000, Unit::Seconds.millis());
}

#[test]
fn extract_date() {
    //OK
    let date = RestProxyLog::extract_date("34m2023-08-28");
    assert_eq!("2023-08-28", date);

    //Bad format - no prefix
    let date = RestProxyLog::extract_date("2023-08-28");
    assert_eq!("2023-08-28", date);
}

#[test]
fn extract_date_edges() {
    assert_eq!("2023-08-28", RestProxyLog::extract_date("m2023-08-28"));
    assert_eq!("2023m2024", RestProxyLog::extract_date("xm2023m2024"));
    assert_eq!("20", RestProxyLog::extract_date("\u{1b}[34m20"));
    assert_eq!("", RestProxyLog::extract_date(""));
    assert_eq!("m19", RestProxyLog::extract_date("m19"));
    assert_eq!("2023", RestProxyLog::extract_date("é€m2023"));
}

#[test]
fn extract_time() {
    //OK
    let time = RestProxyLog::extract_time("07:02:54.235");
    assert_eq!("07:02:54", time);

    //Bad format - no suffix
    let time = RestProxyLog::extract_time("07:02:54");
    assert_eq!("07:02:54", time);
}

#[test]
fn extract_time_edges() {
    assert_eq!("", RestProxyLog::extract_time(".235"));
    assert_eq!("07", RestProxyLog::extract_time("07.02.54"));
    assert_eq!("", RestProxyLog::extract_time(""));
}

#[test]
fn parse_date_time() {
    //OK
    let time = RestProxyLog::parse_date_time("34m2023-08-28", "07:02:54.235");
    let expected =
        DateTime::parse_from_str("2023-08-28 07:02:54 +00:00", "%Y-%m-%d %H:%M:%S %z").unwrap();
    let got = time.unwrap();
    assert_eq!(expected.timestamp(), got.seconds);
    assert_eq!(expected.to_string(), got.text);
    assert_eq!(1693206174, got.seconds);
    assert_eq!("2023-08-28 07:02:54 +00:00", got.text);

    //Wrong format
    let time = RestProxyLog::parse_date_time("34m2023-08-28", "A07:02:54.235");
    assert_eq!(ParseFailure::Invalid, time.unwrap_err());
}

#[test]
fn parse_date_time_failures() {
    assert_eq!(
        ParseFailure::OutOfRange,
        RestProxyLog::parse_date_time("2023-13-28", "07:02:54").unwrap_err()
    );
    assert_eq!(
        ParseFailure::Invalid,
        RestProxyLog::parse_date_time("2023-08-28", "07:02").unwrap_err()
    );
    assert_eq!(
        ParseFailure::TooLong,
        RestProxyLog::parse_date_time("2023-08-28", "07:02:54 +01:00").unwrap_err()
    );
    assert_eq!(
        ParseFailure::OutOfRange,
        RestProxyLog::parse_date_time("2023-02-30", "07:02:54").unwrap_err()
    );
}

#[test]
fn includes() {
    let r = RestProxyLog::new(Vec::new(), Vec::new(), 0, 0, 0);
    assert_eq!(true, r.includes("TEST LINE"));

    let r = RestProxyLog::new(Vec::new(), vec![String::from("TEST")], 0, 0, 0);
    assert_eq!(true, r.includes("TEST LINE"));

    let r = RestProxyLog::new(
        Vec::new(),
        vec![String::from("TEST"), String::from("LINE")],
        0,
        0,
        0,
    );
    assert_eq!(true, r.includes("TEST LINE"));

    let r = RestProxyLog::new(
        Vec::new(),
        vec![String::from("TEST"), String::from("NOT_LINE")],
        0,
        0,
        0,
    );
    assert_eq!(false, r.includes("TEST LINE"));
}

#[test]
fn filter_is_raw_substring() {
    let r = RestProxyLog::new(Vec::new(), vec![String::from("LINE"), String::from("TEST")], 0, 0, 0);
    assert!(r.includes("TEST LINE"));
    let r = RestProxyLog::new(Vec::new(), vec![String::from("test")], 0, 0, 0);
    assert!(!r.includes("TEST LINE"));
    let r = RestProxyLog::new(Vec::new(), vec![String::from("ST LI")], 0, 0, 0);
    assert!(r.includes("TEST LINE"));
    let r = RestProxyLog::new(Vec::new(), vec![String::from("")], 0, 0, 0);
    assert!(r.includes(""));
    let r = RestProxyLog::new(Vec::new(), vec![String::from("TEST LINE!")], 0, 0, 0);
    assert!(!r.includes("TEST LINE"));
}

#[test]
fn new_keeps_its_arguments() {
    let r = RestProxyLog::new(vec![String::from("a.log")], vec![String::from("GET")], 1, 2, 15);
    assert_eq!(vec![String::from("a.log")], r.files);
    assert_eq!(vec![String::from("GET")], r.filters);
    assert_eq!((1, 2, 15), (r.date_index, r.time_index, r.exec_time_index));
}

#[test]
fn process() {
    let r = RestProxyLog::new(Vec::new(), Vec::new(), 0, 1, 2);

    let lines = lines(&[
        "34m2023-08-28 07:02:54.235 12345.99ms\n",
        "34m2023-08-28 07:02:54.235 1.123s\n",
        "34m2023-08-28 07:02:54.235 1.As",
    ]);

    let extract = r.process(&lines).unwrap();
    assert_eq!(Vec::<Rejected>::new(), extract.rejected);
    let response: Vec<Response> = extract
        .entries
        .into_iter()
        .map(|e| {
            let exec_time = read(&e.exec_time);
            e.response(exec_time)
        })
        .collect();

    let text = DateTime::parse_from_str("2023-08-28 07:02:54 +00:00", "%Y-%m-%d %H:%M:%S %z")
        .unwrap()
        .to_string();
    let expected = vec![
        Response {
            date_as_string: String::from("2023-08-28 07:02:54 +00:00"),
            date_as_timestamp: 1693206174,
            exec_time: 12345,
        },
        Response {
            date_as_string: String::from("2023-08-28 07:02:54 +00:00"),
            date_as_timestamp: 1693206174,
            exec_time: 1123,
        },
        Response {
            date_as_string: text,
            date_as_timestamp: 1693206174,
            exec_time: 0, //not parsed correctly (on purpose)
        },
    ];
    assert_eq!(expected, response);
}

#[test]
fn process_line_outcomes() {
    let r = RestProxyLog::new(Vec::new(), vec![String::from("GET")], 1, 2, 4);
    assert_eq!(Outcome::Ignored, r.process_line("x 34m2023-08-28 07:02:54.235 POST 3ms"));
    assert_eq!(Outcome::Ignored, r.process_line("short"));
    assert_eq!(Outcome::TooFewTokens, r.process_line("x 34m2023-08-28 07:02:54.235 GET"));
    assert_eq!(Outcome::TooFewTokens, r.process_line("GET"));
    assert_eq!(
        Outcome::Rejected(Rejected {
            date: String::from("34m2023-08-28"),
            time: String::from("A07:02:54.235"),
            why: ParseFailure::Invalid,
        }),
        r.process_line("x 34m2023-08-28 A07:02:54.235 GET 3ms")
    );
    assert_eq!(
        Outcome::Kept(Entry {
            date_as_string: String::from("2023-08-28 07:02:54 +00:00"),
            date_as_timestamp: 1693206174,
            exec_time: cut("3", Some(Unit::Millis)),
        }),
        r.process_line("  x\t34m2023-08-28 \u{a0} 07:02:54.235   GET 3ms  \n")
    );
    assert_eq!(
        Outcome::Kept(Entry {
            date_as_string: String::from("2023-08-28 07:02:54 +00:00"),
            date_as_timestamp: 1693206174,
            exec_time: cut("3", None),
        }),
        r.process_line("x 34m2023-08-28 07:02:54.235 GET 3")
    );
}

#[test]
fn outcome_of_a_parsed_instant() {
    assert_eq!(
        Outcome::Kept(Entry {
            date_as_string: String::from("then"),
            date_as_timestamp: 12,
            exec_time: cut("1.5", Some(Unit::Seconds)),
        }),
        Outcome::of("d", "t", "1.5s", Ok(Moment { text: String::from("then"), seconds: 12 }))
    );
    assert_eq!(
        Outcome::Rejected(Rejected {
            date: String::from("d"),
            time: String::from("t"),
            why: ParseFailure::NotEnough,
        }),
        Outcome::of("d", "t", "1.5s", Err(ParseFailure::NotEnough))
    );
}

#[test]
fn process_skips_and_fails() {
    let r = RestProxyLog::new(Vec::new(), vec![String::from("GET")], 0, 1, 3);
    let source = lines(&[
        "2023-08-28 07:02:54 GET 1ms",
        "2023-08-28 07:02:55 PUT 2ms",
        "2023-08-28 bad GET 3ms",
        "",
        "2023-08-28 07:02:53 GET 4ms",
        "2023-08-28 07:61:53 GET 5ms",
    ]);
    let got = r.process(&source).unwrap();
    let seconds: Vec<i64> = got.entries.iter().map(|e| e.date_as_timestamp).collect();
    assert_eq!(vec![1693206174, 1693206173], seconds);
    assert_eq!(
        vec![
            Rejected {
                date: String::from("2023-08-28"),
                time: String::from("bad"),
                why: ParseFailure::Invalid,
            },
            Rejected {
                date: String::from("2023-08-28"),
                time: String::from("07:61:53"),
                why: ParseFailure::OutOfRange,
            },
        ],
        got.rejected
    );

    let source = lines(&["2023-08-28 07:02:54 GET 1ms", "PUT", "2023-08-28 GET", "GET"]);
    assert_eq!(Err(ExtractError::TokenIndexOutOfRange { line: 2 }), r.process(&source));
    assert_eq!(
        Ok(Extract { entries: Vec::new(), rejected: Vec::new() }),
        r.process(&Vec::new())
    );
}

#[test]
fn get_merges_in_stable_order() {
    let r = RestProxyLog::new(Vec::new(), Vec::new(), 0, 1, 2);
    let first = lines(&[
        "2023-08-28 07:02:55 1ms",
        "2023-08-28 07:02:54 2ms",
        "2023-08-28 x 0ms",
        "2023-08-28 07:02:55 3ms",
    ]);
    let second = lines(&[
        "2023-08-28 07:02:54 4ms",
        "2023-08-28 07:02:53 5ms",
        "2023-08-28 y 0ms",
        "2023-08-28 07:02:55 6ms",
    ]);
    let got = r.get(&vec![first, second]).unwrap();
    let seen: Vec<(i64, String)> =
        got.entries.into_iter().map(|e| (e.date_as_timestamp, e.exec_time.number)).collect();
    let expected: Vec<(i64, String)> = vec![
        (1693206173, String::from("5")),
        (1693206174, String::from("2")),
        (1693206174, String::from("4")),
        (1693206175, String::from("1")),
        (1693206175, String::from("3")),
        (1693206175, String::from("6")),
    ];
    assert_eq!(expected, seen);
    let skipped: Vec<String> = got.rejected.into_iter().map(|r| r.time).collect();
    assert_eq!(vec!["x", "y"], skipped);
}

#[test]
fn get_reports_the_first_short_line() {
    let r = RestProxyLog::new(Vec::new(), Vec::new(), 0, 1, 2);
    let first = lines(&["2023-08-28 07:02:55 1ms"]);
    let second = lines(&["2023-08-28 07:02:54 4ms", "2023-08-28 07:02:53"]);
    let third = lines(&["one"]);
    assert_eq!(
        Err(SourceError { source: 1, error: ExtractError::TokenIndexOutOfRange { line: 1 } }),
        r.get(&vec![first, second, third])
    );
    assert_eq!(Ok(Extract { entries: Vec::new(), rejected: Vec::new() }), r.get(&Vec::new()));
}
