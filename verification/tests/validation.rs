use litclock::validate::{is_color, is_timestamp, parse_time};

#[test]
fn parse_time_accepts_valid_literals() {
    assert_eq!(parse_time("00:00"), Some((0, 0)));
    assert_eq!(parse_time("23:59"), Some((23, 59)));
    assert_eq!(parse_time("7:05"), Some((7, 5)));
    assert_eq!(parse_time("07:5"), Some((7, 5)));
}

#[test]
fn parse_time_rejects_out_of_range_values() {
    assert_eq!(parse_time("24:00"), None);
    assert_eq!(parse_time("12:60"), None);
    assert_eq!(parse_time("300:10"), None);
    assert_eq!(parse_time("12:999"), None);
}

#[test]
fn parse_time_rejects_malformed_literals() {
    assert_eq!(parse_time(""), None);
    assert_eq!(parse_time(":"), None);
    assert_eq!(parse_time("1200"), None);
    assert_eq!(parse_time("aa:bb"), None);
    assert_eq!(parse_time("1:2:3"), None);
    assert_eq!(parse_time("+1:05"), None);
    assert_eq!(parse_time(" 1:05"), None);
    assert_eq!(parse_time("12:"), None);
    assert_eq!(parse_time(":30"), None);
}

#[test]
fn is_timestamp_matches_parse_time() {
    assert!(is_timestamp("09:41".to_string()).is_ok());
    let err = is_timestamp("9:99".to_string()).unwrap_err();
    assert_eq!(err, "The value must be a valid 24-hour timestamp, HH:MM");
}

#[test]
fn is_color_accepts_known_names_case_insensitively() {
    for name in [
        "black", "blue", "green", "red", "cyan", "magenta", "yellow", "white", "grey",
    ] {
        assert!(is_color(name.to_string()).is_ok());
    }
    assert!(is_color("RED".to_string()).is_ok());
    assert!(is_color("Grey".to_string()).is_ok());
}

#[test]
fn is_color_rejects_unknown_names() {
    let err = is_color("orange".to_string()).unwrap_err();
    assert!(err.starts_with("Unknown color"));
    assert!(is_color("".to_string()).is_err());
}
