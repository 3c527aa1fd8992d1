use rjson::Json;
use rjson::JsonError;
use rjson::JsonValue;

#[test]
fn parse_object_num() {
    let data = r#"{"age":4}"#.to_string();

    let mut obj = Vec::new();
    obj.push(("age".to_string(), JsonValue::Number("4".to_string())));

    let mut json = Json::new(data);
    assert_eq!(json.parse().unwrap(), JsonValue::Object(obj));
}

#[test]
fn parse_null() {
    let data = "null".to_string();
    let mut json = Json::new(data);
    assert_eq!(json.parse_null().unwrap(), JsonValue::Null);
}

#[test]
fn parse_knull() {
    let datar2 = "nkll".to_string();
    let mut json2 = Json::new(datar2);
    assert!(json2.parse_null().is_err());
}

fn parsed_number(input: &str) -> f64 {
    let mut json = Json::new(input.to_string());
    match json.parse_number().unwrap() {
        JsonValue::Number(text) => text.parse::<f64>().unwrap(),
        other => panic!("expected a number, got {:?}", other),
    }
}

#[test]
fn parse_num() {
    assert_eq!(parsed_number("1234"), 1234.0);
}

#[test]
fn parse_num_single() {
    assert_eq!(parsed_number("2"), 2.0);
}

#[test]
fn parse_num_negative() {
    assert_eq!(parsed_number("-122"), -122.0);
}

#[test]
fn parse_num_fraction() {
    assert_eq!(parsed_number("12.34"), 12.34);
}

#[test]
fn parse_num_leading_zero() {
    assert_eq!(parsed_number("02"), 2.0);
}

#[test]
fn parse_bool() {
    let cases = vec![
        ("true", JsonValue::Bool(true)),
        ("false", JsonValue::Bool(false)),
        ("FALSE", JsonValue::Bool(false)),
        ("TrUe", JsonValue::Bool(true)),
    ];
    for (input, expected) in cases {
        let mut json = Json::new(input.to_string());
        assert_eq!(json.parse().unwrap(), expected);
    }
}

#[test]
fn parse_array() {
    let data = "[1,2,3]".to_string();

    let mut json = Json::new(data);
    assert_eq!(
        json.parse_array().unwrap(),
        JsonValue::Array(vec![
            JsonValue::Number("1".to_string()),
            JsonValue::Number("2".to_string()),
            JsonValue::Number("3".to_string())
        ])
    )
}

#[test]
fn parse_array_bool() {
    let data = "[true,false,false]".to_string();

    let mut json = Json::new(data);
    assert_eq!(
        json.parse_array().unwrap(),
        JsonValue::Array(vec![
            JsonValue::Bool(true),
            JsonValue::Bool(false),
            JsonValue::Bool(false)
        ])
    )
}

#[test]
fn parse_string() {
    let data = "\"apa\"".to_string();

    let mut json = Json::new(data);
    assert_eq!(
        json.parse_string().unwrap(),
        JsonValue::String("apa".to_string())
    )
}

#[test]
fn look_ahed() {
    let testdata = "12345";
    let json = Json::new(testdata.to_string());

    assert_eq!(json.look_ahead(3), String::from("234"));
    assert_eq!(json.look_ahead(10), String::from("2345"));
}

// The array elements of "[1,2,3]" carry the standard floating-point values.
#[test]
fn parse_array_number_values() {
    let mut json = Json::new("[1,2,3]".to_string());
    match json.parse_array().unwrap() {
        JsonValue::Array(items) => {
            let values: Vec<f64> = items
                .into_iter()
                .map(|v| match v {
                    JsonValue::Number(text) => text.parse::<f64>().unwrap(),
                    other => panic!("expected a number, got {:?}", other),
                })
                .collect();
            assert_eq!(values, vec![1.0, 2.0, 3.0]);
        }
        other => panic!("expected an array, got {:?}", other),
    }
}

#[test]
fn parse_nested_object() {
    let data = r#"{"age":3,"sub":{"car":true,"isFast":false}}"#.to_string();
    let mut json = Json::new(data);

    let mut sub = Vec::new();
    sub.push(("car".to_string(), JsonValue::Bool(true)));
    sub.push(("isFast".to_string(), JsonValue::Bool(false)));
    let mut obj = Vec::new();
    obj.push(("age".to_string(), JsonValue::Number("3".to_string())));
    obj.push(("sub".to_string(), JsonValue::Object(sub)));

    assert_eq!(json.parse().unwrap(), JsonValue::Object(obj));
}

#[test]
fn parse_object_duplicate_keys() {
    let data = r#"{"a":1,"a":2}"#.to_string();
    let mut json = Json::new(data);

    let mut obj = Vec::new();
    obj.push(("a".to_string(), JsonValue::Number("1".to_string())));
    obj.push(("a".to_string(), JsonValue::Number("2".to_string())));

    assert_eq!(json.parse().unwrap(), JsonValue::Object(obj));
}

#[test]
fn parse_empty_containers() {
    let mut json = Json::new("[]".to_string());
    assert_eq!(json.parse().unwrap(), JsonValue::Array(Vec::new()));

    let mut json = Json::new("{}".to_string());
    assert_eq!(json.parse().unwrap(), JsonValue::Object(Vec::new()));
}

// A container that runs into end-of-input yields what was gathered so far.
#[test]
fn parse_array_truncated_input() {
    let mut json = Json::new("[1,2".to_string());
    assert_eq!(
        json.parse().unwrap(),
        JsonValue::Array(vec![
            JsonValue::Number("1".to_string()),
            JsonValue::Number("2".to_string())
        ])
    );
}

// A string with no closing quote runs to end-of-input without an error.
#[test]
fn parse_string_unterminated() {
    let mut json = Json::new("\"abc".to_string());
    assert_eq!(
        json.parse_string().unwrap(),
        JsonValue::String("abc".to_string())
    );
}

#[test]
fn parse_capital_null() {
    let mut json = Json::new("Null".to_string());
    assert_eq!(json.parse().unwrap(), JsonValue::Null);
}

#[test]
fn parse_null_wrong_tail_fails() {
    let mut json = Json::new("nill".to_string());
    match json.parse() {
        Err(JsonError::InvalidFormat(msg)) => {
            assert_eq!(msg, "Invalid null value at 0 'ill'");
        }
        other => panic!("expected an invalid-format error, got {:?}", other),
    }
}

// The failed-null diagnostic names the unexpected tail.
#[test]
fn parse_null_message_names_tail() {
    let mut json = Json::new("nkll".to_string());
    match json.parse_null() {
        Err(JsonError::InvalidFormat(msg)) => {
            assert_eq!(msg, "Invalid null value at 0 'kll'");
        }
        other => panic!("expected an invalid-format error, got {:?}", other),
    }
}

#[test]
fn parse_empty_input_is_end_of_stream() {
    let mut json = Json::new(String::new());
    match json.parse() {
        Err(JsonError::EndOfStr) => {}
        other => panic!("expected an end-of-stream error, got {:?}", other),
    }
}

#[test]
fn parse_unrecognised_character_message() {
    let mut json = Json::new("x".to_string());
    match json.parse() {
        Err(JsonError::InvalidFormat(msg)) => {
            assert_eq!(msg, "Invalid format at pos 0 found: 'x'");
        }
        other => panic!("expected an invalid-format error, got {:?}", other),
    }
}

#[test]
fn parse_bool_truncated_fails() {
    let mut json = Json::new("tr".to_string());
    match json.parse_bool() {
        Err(JsonError::InvalidFormat(msg)) => {
            assert_eq!(msg, "Invalid boolean at 0 found char: 'r'");
        }
        other => panic!("expected an invalid-format error, got {:?}", other),
    }
}

// At a character no boolean can begin with, the diagnostic carries std's
// `Debug` rendering of that character.
#[test]
fn parse_bool_wrong_start_message() {
    let mut json = Json::new("x".to_string());
    match json.parse_bool() {
        Err(JsonError::InvalidFormat(msg)) => {
            assert_eq!(msg, "Invalid boolean at 0 found char: 'Some('x')'");
        }
        other => panic!("expected an invalid-format error, got {:?}", other),
    }
}

#[test]
fn parse_number_two_dots_fails() {
    let mut json = Json::new("1.2.3".to_string());
    match json.parse_number() {
        Err(JsonError::InvalidFormat(msg)) => {
            assert_eq!(msg, "Invalid number format at 0 'invalid float literal'");
        }
        other => panic!("expected an invalid-format error, got {:?}", other),
    }
}

// An unrecognised character inside a container carries its own position —
// here past nine, so the diagnostic renders a two-digit offset.
#[test]
fn parse_error_position_is_decimal() {
    let mut json = Json::new("[1,2,3,4,5,@]".to_string());
    match json.parse() {
        Err(JsonError::InvalidFormat(msg)) => {
            assert_eq!(msg, "Invalid format at pos 11 found: '@'");
        }
        other => panic!("expected an invalid-format error, got {:?}", other),
    }
}

#[test]
fn parse_number_two_minus_fails() {
    let mut json = Json::new("--1".to_string());
    assert!(json.parse_number().is_err());
}

// Separators — space, newline, colon, comma, tab — are skipped before a value.
#[test]
fn parse_skips_leading_separators() {
    let mut json = Json::new(" \n:,\ttrue".to_string());
    assert_eq!(json.parse().unwrap(), JsonValue::Bool(true));
}

// The cursor advances with no bounds check: it may be driven past
// end-of-input, after which reads yield nothing, lookaheads are empty, and
// a diagnostic still names the true position.
#[test]
fn cursor_runs_past_end_of_input() {
    let mut json = Json::new("x".to_string());
    json.consume_chars(5);
    assert_eq!(json.current_char(), None);
    assert_eq!(json.look_ahead(3), String::new());
    match json.parse_null() {
        Err(JsonError::InvalidFormat(msg)) => {
            assert_eq!(msg, "Invalid null value at 5 ''");
        }
        other => panic!("expected an invalid-format error, got {:?}", other),
    }
}

// Lookahead never moves the cursor and truncates at end-of-input.
#[test]
fn look_ahead_is_non_destructive() {
    let json = Json::new("abc".to_string());
    let before = json.current_char();
    let _ = json.look_ahead(2);
    assert_eq!(json.current_char(), before);
    assert_eq!(json.look_ahead(10), "bc".to_string());
}

#[test]
fn current_and_next_char() {
    let json = Json::new("ab".to_string());
    assert_eq!(json.current_char(), Some('a'));
    assert_eq!(json.next_char(), Some('b'));
    let empty = Json::new(String::new());
    assert_eq!(empty.current_char(), None);
    assert_eq!(empty.next_char(), None);
}

// A second parse on the same instance is not a fresh top-level parse: a
// string's closing quote is left unconsumed, so the next parse starts there.
#[test]
fn parse_is_not_restartable_after_string() {
    let mut json = Json::new("\"a\" \"b\"".to_string());
    assert_eq!(json.parse().unwrap(), JsonValue::String("a".to_string()));
    assert_eq!(json.parse().unwrap(), JsonValue::String(" ".to_string()));
}

// A clone is an equal tree, deeply.
#[test]
fn clone_preserves_tree() {
    let mut json = Json::new(r#"{"age":3,"sub":[1,true,"x"]}"#.to_string());
    let v = json.parse().unwrap();
    let w = v.clone();
    assert_eq!(v, w);
}

// The cursor is a character index, not a byte index.
#[test]
fn non_ascii_input_counts_characters() {
    let json = Json::new("aé€b".to_string());
    assert_eq!(json.look_ahead(2), "é€".to_string());
    let mut json = Json::new("\"déjà\"".to_string());
    assert_eq!(
        json.parse().unwrap(),
        JsonValue::String("déjà".to_string())
    );
}
