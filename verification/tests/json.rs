use serde_json::Value;
use telemetry_monitor::binary64::Binary64;
use telemetry_monitor::json::{Json, Number};

fn read(text: &str) -> Json {
    let value: Value = serde_json::from_str(text).unwrap();
    Json::read(&value)
}

#[test]
fn every_kind_of_value_is_read() {
    assert!(matches!(read("null"), Json::Null));
    assert!(matches!(read("true"), Json::Bool(true)));
    assert!(matches!(read("false"), Json::Bool(false)));
    assert_eq!(read("\"text\"").as_str(), Some("text"));
    assert_eq!(read("[1, [], {}]").as_array().unwrap().len(), 3);
    match read("{\"b\": 1, \"a\": [2]}") {
        Json::Object(fields) => {
            assert_eq!(fields.len(), 2);
            assert_eq!(fields[0].0, "a");
            assert_eq!(fields[0].1.as_array().unwrap()[0].as_u64(), Some(2));
            assert_eq!(fields[1].0, "b");
            assert_eq!(fields[1].1.as_u64(), Some(1));
        }
        _ => panic!("not an object"),
    }
}

#[test]
fn keys_come_out_in_ascending_order() {
    let text = "{\"z\": 0, \"é\": 0, \"\": 0, \"ab\": 0, \"a\": 0, \"B\": 0, \"😀\": 0}";
    match read(text) {
        Json::Object(fields) => {
            let keys: Vec<&str> = fields.iter().map(|field| field.0.as_str()).collect();
            assert_eq!(keys, vec!["", "B", "a", "ab", "z", "é", "😀"]);
        }
        _ => panic!("not an object"),
    }
}

#[test]
fn last_of_two_equal_keys_counts() {
    let document = read("{\"a\": 1, \"a\": 2}");
    assert_eq!(document.get("a").unwrap().as_u64(), Some(2));
}

#[test]
fn numbers_are_read_as_integers_and_as_binary64() {
    let cases = [
        ("0", Some(0u64), Some(0i64), 0.0f64),
        ("12", Some(12), Some(12), 12.0),
        ("-7", None, Some(-7), -7.0),
        ("2.5", None, None, 2.5),
        ("-0.0", None, None, -0.0),
        ("3.0", None, None, 3.0),
        ("18446744073709551615", Some(u64::MAX), None, 18446744073709551615.0),
        ("9007199254740993", Some(9007199254740993), Some(9007199254740993), 9007199254740992.0),
        ("1e300", None, None, 1e300),
    ];
    for (text, unsigned, signed, value) in cases {
        match read(text) {
            Json::Number(number) => assert_eq!(
                number,
                Number {
                    unsigned,
                    signed,
                    binary64: Some(Binary64 { bits: value.to_bits() }),
                },
                "{text}"
            ),
            _ => panic!("not a number"),
        }
    }
}

#[test]
fn other_values_are_no_numbers_texts_or_arrays() {
    for text in ["null", "true", "\"1\"", "[]", "{}"] {
        assert_eq!(read(text).as_u64(), None);
        assert_eq!(read(text).as_binary64(), None);
    }
    assert_eq!(read("1").as_str(), None);
    assert!(read("{}").as_array().is_none());
    assert!(read("[0]").get("0").is_none());
}

#[test]
fn paths_lead_where_json_pointers_lead() {
    let texts = [
        "{\"a\": {\"b\": {\"c\": 5}}}",
        "{\"a\": {\"b\": [1, 2]}}",
        "{\"a\": [{\"b\": {\"c\": 5}}]}",
        "{\"a\": {\"b\": {\"c\": null}}}",
        "{\"a\": \"b\"}",
        "[]",
        "7",
    ];
    for text in texts {
        let value: Value = serde_json::from_str(text).unwrap();
        let document = Json::read(&value);
        let found = document.lookup(&["a", "b", "c"]);
        let pointed = value.pointer("/a/b/c");
        assert_eq!(found.is_some(), pointed.is_some(), "{text}");
        assert_eq!(
            found.and_then(|f| f.as_u64()),
            pointed.and_then(|p| p.as_u64()),
            "{text}"
        );
    }
}

#[test]
fn empty_path_leads_to_the_document() {
    assert_eq!(read("4").lookup(&[]).unwrap().as_u64(), Some(4));
}
