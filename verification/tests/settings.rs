use quietmytempo::settings::{parse_offset_ms, serialize_offset_ms};

#[test]
fn round_trips_positive_offset() {
    let serialized = serialize_offset_ms(42);
    assert_eq!(parse_offset_ms(&serialized), Some(42));
}

#[test]
fn round_trips_negative_offset() {
    let serialized = serialize_offset_ms(-17);
    assert_eq!(parse_offset_ms(&serialized), Some(-17));
}

#[test]
fn parses_offset_regardless_of_whitespace() {
    assert_eq!(parse_offset_ms("{ \"offset_ms\" :   7 }"), Some(7));
}

#[test]
fn returns_none_for_garbage_content() {
    assert_eq!(parse_offset_ms("not json at all"), None);
}

#[test]
fn serialized_text_is_a_one_line_json_object() {
    assert_eq!(serialize_offset_ms(42), "{\"offset_ms\":42}\n");
    assert_eq!(serialize_offset_ms(0), "{\"offset_ms\":0}\n");
    assert_eq!(serialize_offset_ms(-17), "{\"offset_ms\":-17}\n");
}

#[test]
fn extreme_offsets_round_trip() {
    for v in [i64::MIN, i64::MAX, -1, 1, 1_000_000_007] {
        assert_eq!(parse_offset_ms(&serialize_offset_ms(v)), Some(v));
    }
}

#[test]
fn malformed_values_are_rejected() {
    assert_eq!(parse_offset_ms("{\"offset_ms\": }"), None);
    assert_eq!(parse_offset_ms("{\"offset_ms\" 5}"), None);
    assert_eq!(parse_offset_ms("{\"offset_ms\": 1-2}"), None);
    assert_eq!(parse_offset_ms("{\"offset_ms\": 99999999999999999999}"), None);
    assert_eq!(parse_offset_ms(""), None);
}

#[test]
fn digits_stop_at_the_first_other_character() {
    assert_eq!(parse_offset_ms("{\"offset_ms\":\t-12, \"other\": 3}"), Some(-12));
    assert_eq!(parse_offset_ms("prefix \"offset_ms\":5"), Some(5));
}
