use simple_sentry::json::{json_to_text, obj_get, JsonValue};
use simple_sentry::jsonio::decode_json;
use simple_sentry::text::{i64_to_dec, str_eq, u64_to_dec};

#[test]
fn serializer_is_compact_and_ordered() {
    let doc = JsonValue::Obj(vec![
        ("b".to_string(), JsonValue::Num("1.5".to_string())),
        (
            "a".to_string(),
            JsonValue::Arr(vec![
                JsonValue::Null,
                JsonValue::Bool(true),
                JsonValue::Str("x".to_string()),
            ]),
        ),
    ]);
    assert_eq!(json_to_text(&doc), "{\"b\":1.5,\"a\":[null,true,\"x\"]}");
}

#[test]
fn serializer_escapes_strings() {
    let doc = JsonValue::Str("a\"b\\c\nd".to_string());
    assert_eq!(json_to_text(&doc), "\"a\\\"b\\\\c\\u000ad\"");
}

#[test]
fn decode_round_trips_through_the_serializer() {
    let text = "{\"k\":[1,{\"v\":\"s\"},null],\"m\":false}";
    let doc = decode_json(text).expect("valid json should decode");
    assert_eq!(json_to_text(&doc), text);
}

#[test]
fn decode_rejects_malformed_text() {
    assert!(decode_json("{\"k\":").is_none());
    assert!(decode_json("").is_none());
}

#[test]
fn object_lookup_finds_first_member() {
    let doc = decode_json("{\"k\":1,\"j\":2}").unwrap();
    match &doc {
        JsonValue::Obj(fields) => {
            assert!(matches!(obj_get(fields, "j"), Some(JsonValue::Num(n)) if n == "2"));
            assert!(obj_get(fields, "missing").is_none());
        }
        _ => panic!("expected an object"),
    }
}

#[test]
fn decimal_renderings() {
    assert_eq!(u64_to_dec(0), "0");
    assert_eq!(u64_to_dec(90210), "90210");
    assert_eq!(i64_to_dec(-42), "-42");
    assert_eq!(i64_to_dec(i64::MIN), "-9223372036854775808");
}

#[test]
fn character_wise_equality() {
    assert!(str_eq("abc", "abc"));
    assert!(!str_eq("abc", "abd"));
    assert!(!str_eq("abc", "ab"));
    assert!(str_eq("", ""));
}
