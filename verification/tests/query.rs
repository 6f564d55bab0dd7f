use dosimeter::response::check_long_digit_run;
use dosimeter::response::parse_and_render;
use dosimeter::response::render_measurements;
use dosimeter::response::JsonNode;
use dosimeter::response::QueryError;
use dosimeter::response::ResponseError;

fn measurement(usv: &str, time: &str, c0: &str, c1: &str) -> JsonNode {
    JsonNode::Obj(vec![
        ("uSv".to_string(), JsonNode::Num(usv.to_string())),
        ("time".to_string(), JsonNode::Num(time.to_string())),
        (
            "location".to_string(),
            JsonNode::Obj(vec![(
                "coordinates".to_string(),
                JsonNode::Arr(vec![
                    JsonNode::Num(c0.to_string()),
                    JsonNode::Num(c1.to_string()),
                ]),
            )]),
        ),
    ])
}

#[test]
fn renders_one_line_per_measurement() {
    let root = JsonNode::Arr(vec![
        measurement("1.23", "1600000000", "52.5", "13.4"),
        measurement("0.5", "1600000060", "-1.25", "7"),
    ]);
    let lines = render_measurements(&root).unwrap();
    assert_eq!(lines.len(), 2);
    assert_eq!(lines[0], "Dosage: 1.23 Time: 1600000000 Lat: 52.5 Long: 13.4");
    assert_eq!(lines[1], "Dosage: 0.5 Time: 1600000060 Lat: -1.25 Long: 7");
}

#[test]
fn key_order_does_not_matter() {
    let root = JsonNode::Arr(vec![JsonNode::Obj(vec![
        (
            "location".to_string(),
            JsonNode::Obj(vec![(
                "coordinates".to_string(),
                JsonNode::Arr(vec![
                    JsonNode::Num("9".to_string()),
                    JsonNode::Num("8".to_string()),
                ]),
            )]),
        ),
        ("time".to_string(), JsonNode::Num("5".to_string())),
        ("uSv".to_string(), JsonNode::Num("4".to_string())),
    ])]);
    let lines = render_measurements(&root).unwrap();
    assert_eq!(lines[0], "Dosage: 4 Time: 5 Lat: 9 Long: 8");
}

#[test]
fn empty_array_renders_nothing() {
    let lines = render_measurements(&JsonNode::Arr(vec![])).unwrap();
    assert!(lines.is_empty());
}

#[test]
fn non_array_is_rejected() {
    let root = JsonNode::Obj(vec![("uSv".to_string(), JsonNode::Num("1".to_string()))]);
    assert_eq!(render_measurements(&root).unwrap_err(), ResponseError::NotAnArray);
}

#[test]
fn shape_errors_name_the_first_bad_field() {
    let no_usv = JsonNode::Obj(vec![("time".to_string(), JsonNode::Num("5".to_string()))]);
    assert_eq!(
        render_measurements(&JsonNode::Arr(vec![no_usv])).unwrap_err(),
        ResponseError::BadUSv
    );

    let text_time = JsonNode::Obj(vec![
        ("uSv".to_string(), JsonNode::Num("1".to_string())),
        ("time".to_string(), JsonNode::Str("5".to_string())),
    ]);
    assert_eq!(
        render_measurements(&JsonNode::Arr(vec![text_time])).unwrap_err(),
        ResponseError::BadTime
    );

    let flat_location = JsonNode::Obj(vec![
        ("uSv".to_string(), JsonNode::Num("1".to_string())),
        ("time".to_string(), JsonNode::Num("5".to_string())),
        ("location".to_string(), JsonNode::Str("here".to_string())),
    ]);
    assert_eq!(
        render_measurements(&JsonNode::Arr(vec![flat_location])).unwrap_err(),
        ResponseError::BadLocation
    );

    let one_coordinate = JsonNode::Obj(vec![
        ("uSv".to_string(), JsonNode::Num("1".to_string())),
        ("time".to_string(), JsonNode::Num("5".to_string())),
        (
            "location".to_string(),
            JsonNode::Obj(vec![(
                "coordinates".to_string(),
                JsonNode::Arr(vec![JsonNode::Num("9".to_string())]),
            )]),
        ),
    ]);
    assert_eq!(
        render_measurements(&JsonNode::Arr(vec![one_coordinate])).unwrap_err(),
        ResponseError::BadCoordinates
    );

    assert_eq!(
        render_measurements(&JsonNode::Arr(vec![JsonNode::Null])).unwrap_err(),
        ResponseError::NotAnObject
    );
}

#[test]
fn first_bad_element_wins() {
    let good = measurement("1", "2", "3", "4");
    let bad = JsonNode::Null;
    let root = JsonNode::Arr(vec![good, bad]);
    assert_eq!(render_measurements(&root).unwrap_err(), ResponseError::NotAnObject);
}

#[test]
fn round_trip_through_the_decoder() {
    let body = "[{\"uSv\":1.23,\"time\":1600000000,\
                \"location\":{\"coordinates\":[52.5,13.4]}}]";
    let lines = parse_and_render(body).unwrap();
    assert_eq!(lines.len(), 1);
    assert_eq!(lines[0], "Dosage: 1.23 Time: 1600000000 Lat: 52.5 Long: 13.4");
}

#[test]
fn decoder_accepts_reordered_keys_and_extras() {
    let body = "[{\"time\":7,\"extra\":true,\
                \"location\":{\"coordinates\":[1,2,3],\"type\":\"Point\"},\
                \"uSv\":0.25}]";
    let lines = parse_and_render(body).unwrap();
    assert_eq!(lines[0], "Dosage: 0.25 Time: 7 Lat: 1 Long: 2");
}

#[test]
fn digit_run_detection() {
    assert!(!check_long_digit_run(""));
    assert!(!check_long_digit_run("[1,22,333]"));
    assert!(!check_long_digit_run(&"5".repeat(10000)));
    assert!(check_long_digit_run(&"5".repeat(10001)));
    let broken = format!("{}x{}", "1".repeat(9000), "2".repeat(9000));
    assert!(!check_long_digit_run(&broken));
    let embedded = format!("[{{\"time\":{}}}]", "7".repeat(10001));
    assert!(check_long_digit_run(&embedded));
}

#[test]
fn overlong_numbers_are_refused_before_decoding() {
    // A zero-mantissa fraction this long would overflow the decoder's
    // 16-bit decimal exponent; the guard refuses it first.
    let fraction = format!("[0.{}]", "0".repeat(10001));
    assert_eq!(parse_and_render(&fraction).unwrap_err(), QueryError::OverlongNumber);

    let integer = format!("[{}]", "9".repeat(10001));
    assert_eq!(parse_and_render(&integer).unwrap_err(), QueryError::OverlongNumber);
}

#[test]
fn longest_admitted_digit_run_still_decodes() {
    // 10000 consecutive digits pass the guard and reach the decoder;
    // the element is a number, not a measurement object.
    let body = format!("[{}]", "9".repeat(10000));
    assert_eq!(
        parse_and_render(&body).unwrap_err(),
        QueryError::Shape(ResponseError::NotAnObject)
    );
}

#[test]
fn decoder_rejects_bad_bodies() {
    assert_eq!(parse_and_render("not json").unwrap_err(), QueryError::NotJson);
    assert_eq!(
        parse_and_render("{\"uSv\":1}").unwrap_err(),
        QueryError::Shape(ResponseError::NotAnArray)
    );
    assert_eq!(
        parse_and_render("[{\"time\":5}]").unwrap_err(),
        QueryError::Shape(ResponseError::BadUSv)
    );
    assert_eq!(parse_and_render("[]").unwrap(), Vec::<String>::new());
}
