use dosimeter::body::location_to_string;
use dosimeter::body::to_json;
use dosimeter::cli::dispatch;
use dosimeter::cli::Action;
use dosimeter::entry::build_entry;
use dosimeter::entry::ArgError;
use dosimeter::entry::DataEntry;
use dosimeter::entry::Field;
use dosimeter::num::check_number;
use dosimeter::num::i64_to_string;
use dosimeter::num::parse_i64;

fn some(s: &str) -> Option<String> {
    Some(s.to_string())
}

#[test]
fn number_grammar_accepts() {
    for ok in ["0", "1", "52.5", "13.4", "1.23", "-0", "-7.25", "1e5", "1E5", "1.2e-3",
        "-10.5e+2", "1600000000", "900"] {
        assert!(check_number(ok), "{} should be accepted", ok);
    }
}

#[test]
fn number_grammar_rejects() {
    for bad in ["", "+1", ".", "1.", ".5", "05", "-", "--1", "1..2", "abc", "1a", "e5", "1e",
        "1e+", "1.2.3", "nan", "inf", " 1", "1 "] {
        assert!(!check_number(bad), "{} should be rejected", bad);
    }
}

#[test]
fn parse_i64_values() {
    assert_eq!(parse_i64("1600000000"), Some(1600000000));
    assert_eq!(parse_i64("-42"), Some(-42));
    assert_eq!(parse_i64("+7"), Some(7));
    assert_eq!(parse_i64("007"), Some(7));
    assert_eq!(parse_i64("0"), Some(0));
    assert_eq!(parse_i64("9223372036854775807"), Some(i64::MAX));
    assert_eq!(parse_i64("-9223372036854775808"), Some(i64::MIN));
}

#[test]
fn parse_i64_rejects() {
    assert_eq!(parse_i64(""), None);
    assert_eq!(parse_i64("-"), None);
    assert_eq!(parse_i64("+"), None);
    assert_eq!(parse_i64("12a"), None);
    assert_eq!(parse_i64("1.5"), None);
    assert_eq!(parse_i64("9223372036854775808"), None);
    assert_eq!(parse_i64("-9223372036854775809"), None);
    assert_eq!(parse_i64("99999999999999999999999999"), None);
}

#[test]
fn parse_i64_leading_zeros_of_long_text() {
    assert_eq!(parse_i64("0000000000000000000000001"), Some(1));
}

#[test]
fn i64_to_string_values() {
    assert_eq!(i64_to_string(0).as_str(), "0");
    assert_eq!(i64_to_string(7).as_str(), "7");
    assert_eq!(i64_to_string(-5).as_str(), "-5");
    assert_eq!(i64_to_string(1600000000).as_str(), "1600000000");
    assert_eq!(i64_to_string(i64::MAX).as_str(), "9223372036854775807");
    assert_eq!(i64_to_string(i64::MIN).as_str(), "-9223372036854775808");
}

#[test]
fn location_string_form() {
    assert_eq!(location_to_string("52.5", "13.4").as_str(), "POINT(52.5 13.4)");
}

#[test]
fn post_body_scenario() {
    let entry = build_entry(some("1.23"), some("1600000000"), some("52.5"), some("13.4"))
        .expect("all four arguments are valid");
    assert_eq!(
        to_json(&entry).as_str(),
        "{\"uSv\":1.23,\"time\":1600000000,\"location\":\"POINT(52.5 13.4)\"}"
    );
}

#[test]
fn post_body_negative_values() {
    let entry = DataEntry {
        dosage: "-0.5".to_string(),
        timestamp: -60,
        lat: "-1.25".to_string(),
        long: "0".to_string(),
    };
    assert_eq!(
        to_json(&entry).as_str(),
        "{\"uSv\":-0.5,\"time\":-60,\"location\":\"POINT(-1.25 0)\"}"
    );
}

#[test]
fn missing_fields_reported_in_order() {
    assert_eq!(
        build_entry(None, None, None, None).unwrap_err(),
        ArgError::Missing(Field::Dosage)
    );
    assert_eq!(
        build_entry(some("1.23"), None, None, None).unwrap_err(),
        ArgError::Missing(Field::Time)
    );
    assert_eq!(
        build_entry(some("1.23"), some("1600000000"), None, None).unwrap_err(),
        ArgError::Missing(Field::Lat)
    );
    assert_eq!(
        build_entry(some("1.23"), some("1600000000"), some("52.5"), None).unwrap_err(),
        ArgError::Missing(Field::Long)
    );
}

#[test]
fn bad_values_name_the_field() {
    assert_eq!(
        build_entry(some("x"), some("1600000000"), some("52.5"), some("13.4")).unwrap_err(),
        ArgError::NotNumeric(Field::Dosage)
    );
    assert_eq!(
        build_entry(some("1.23"), some("soon"), some("52.5"), some("13.4")).unwrap_err(),
        ArgError::NotNumeric(Field::Time)
    );
    assert_eq!(
        build_entry(some("1.23"), some("1.5"), some("52.5"), some("13.4")).unwrap_err(),
        ArgError::NotNumeric(Field::Time)
    );
    assert_eq!(
        build_entry(some("1.23"), some("9223372036854775808"), some("52.5"), some("13.4"))
            .unwrap_err(),
        ArgError::NotNumeric(Field::Time)
    );
    assert_eq!(
        build_entry(some("1.23"), some("1600000000"), some("north"), some("13.4")).unwrap_err(),
        ArgError::NotNumeric(Field::Lat)
    );
    assert_eq!(
        build_entry(some("1.23"), some("1600000000"), some("52.5"), some("")).unwrap_err(),
        ArgError::NotNumeric(Field::Long)
    );
}

#[test]
fn entry_keeps_field_texts() {
    let entry = build_entry(some("0.07"), some("-10"), some("-89.9"), some("179.5")).unwrap();
    assert_eq!(entry.dosage.as_str(), "0.07");
    assert_eq!(entry.timestamp, -10);
    assert_eq!(entry.lat.as_str(), "-89.9");
    assert_eq!(entry.long.as_str(), "179.5");
}

#[test]
fn dispatch_tokens() {
    assert_eq!(dispatch("add"), Action::Add);
    assert_eq!(dispatch("query"), Action::Query);
    assert_eq!(dispatch("remove"), Action::Usage);
    assert_eq!(dispatch(""), Action::Usage);
    assert_eq!(dispatch("Add"), Action::Usage);
}
