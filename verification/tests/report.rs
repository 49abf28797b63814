use log_plotter::extractor::Response;
use log_plotter::report::append_decimal;

fn shown(n: i64) -> String {
    let mut text = String::from(">");
    append_decimal(&mut text, n);
    text
}

#[test]
fn decimal_matches_display() {
    for n in [0, 1, 9, 10, 11, 99, 100, 1693206174, -1, -9, -10, -12345, i64::MAX, i64::MIN, i64::MIN + 1] {
        assert_eq!(format!(">{}", n), shown(n));
    }
}

#[test]
fn data_line_has_three_fields() {
    let r = Response {
        date_as_string: String::from("2023-08-28 07:02:54 +00:00"),
        date_as_timestamp: 1693206174,
        exec_time: 12345,
    };
    assert_eq!("2023-08-28 07:02:54 +00:00 1693206174 12345", r.data_line());
    let r = Response { date_as_string: String::new(), date_as_timestamp: -5, exec_time: i32::MIN };
    assert_eq!(" -5 -2147483648", r.data_line());
    let r = Response { date_as_string: String::from("x"), date_as_timestamp: 0, exec_time: 0 };
    assert_eq!("x 0 0", r.data_line());
}
