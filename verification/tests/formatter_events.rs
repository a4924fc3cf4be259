use serde_json_canonicalizer::{
    compare_keys, double_is_finite, encode_utf16, escape_bytes, single_is_finite, CharEscape,
    JcsError, JcsFormatter, JsonObject, JsonProperty, KeyOrder,
};

fn bytes(text: &str) -> Vec<u8> {
    text.as_bytes().to_vec()
}

fn property(key: &str, value: &str) -> JsonProperty {
    JsonProperty::new(bytes(key), bytes(value)).unwrap()
}

fn units(text: &str) -> Vec<u16> {
    text.encode_utf16().collect()
}

#[test]
fn utf16_of_basic_plane_characters() {
    let text: Vec<char> = "a\u{20ac}\u{fb33}".chars().collect();
    assert_eq!(encode_utf16(&text), vec![0x0061, 0x20ac, 0xfb33]);
}

#[test]
fn utf16_of_supplementary_character_is_a_surrogate_pair() {
    let text: Vec<char> = vec!['\u{1f600}'];
    assert_eq!(encode_utf16(&text), vec![0xd83d, 0xde00]);
    let last: Vec<char> = vec!['\u{10ffff}'];
    assert_eq!(encode_utf16(&last), vec![0xdbff, 0xdfff]);
    let first: Vec<char> = vec!['\u{10000}'];
    assert_eq!(encode_utf16(&first), vec![0xd800, 0xdc00]);
}

#[test]
fn utf16_matches_std_on_mixed_text() {
    let sample = "k\u{0}\u{7f}\u{80}\u{7ff}\u{800}\u{d7ff}\u{e000}\u{ffff}\u{10000}\u{1f600}z";
    let text: Vec<char> = sample.chars().collect();
    assert_eq!(encode_utf16(&text), units(sample));
    assert_eq!(encode_utf16(&Vec::new()), Vec::<u16>::new());
}

#[test]
fn keys_compare_unit_by_unit() {
    assert_eq!(compare_keys(&units("a"), &units("b")), KeyOrder::Before);
    assert_eq!(compare_keys(&units("b"), &units("a")), KeyOrder::After);
    assert_eq!(compare_keys(&units("ab"), &units("ab")), KeyOrder::Same);
    assert_eq!(compare_keys(&units(""), &units("")), KeyOrder::Same);
}

#[test]
fn a_strict_prefix_sorts_first() {
    assert_eq!(compare_keys(&units("ab"), &units("abc")), KeyOrder::Before);
    assert_eq!(compare_keys(&units("abc"), &units("ab")), KeyOrder::After);
    assert_eq!(compare_keys(&units(""), &units("a")), KeyOrder::Before);
}

#[test]
fn supplementary_characters_sort_by_their_surrogates() {
    // By code point U+FB33 comes first; by UTF-16 code units the pair does.
    assert_eq!(compare_keys(&units("\u{1f600}"), &units("\u{fb33}")), KeyOrder::Before);
    assert_eq!(compare_keys(&units("\u{fb33}"), &units("\u{1f600}")), KeyOrder::After);
}

#[test]
fn property_sort_key_is_the_decoded_name() {
    let p = property("\"\\u0061\\n\"", "1");
    assert_eq!(p.sorting_key(), &vec![0x61u16, 0x0a]);
    assert_eq!(p.key(), &bytes("\"\\u0061\\n\""));
    assert_eq!(p.value(), &bytes("1"));
}

#[test]
fn property_sort_key_differs_from_the_token() {
    let p = property("\"a\"", "true");
    assert_eq!(p.sorting_key(), &vec![0x61u16]);
    assert_ne!(p.sorting_key().len(), p.key().len());
}

#[test]
fn property_sort_key_keeps_surrogate_pairs() {
    let p = property("\"\\ud83d\\ude00\"", "0");
    assert_eq!(p.sorting_key(), &vec![0xd83du16, 0xde00]);
    let q = property("\"\u{1f600}\"", "0");
    assert_eq!(q.sorting_key(), &vec![0xd83du16, 0xde00]);
}

#[test]
fn property_with_undecodable_key_is_refused() {
    assert!(matches!(
        JsonProperty::new(bytes("\"abc"), bytes("1")),
        Err(JcsError::InvalidKeyEncoding)
    ));
    assert!(matches!(
        JsonProperty::new(bytes("\"\\x\""), bytes("1")),
        Err(JcsError::InvalidKeyEncoding)
    ));
    assert!(matches!(
        JsonProperty::new(vec![0x22, 0xff, 0x22], bytes("1")),
        Err(JcsError::InvalidKeyEncoding)
    ));
    assert!(matches!(JsonProperty::new(Vec::new(), bytes("1")), Err(JcsError::InvalidKeyEncoding)));
}

#[test]
fn property_with_a_key_that_is_no_string_is_refused() {
    assert!(matches!(JsonProperty::new(bytes("12"), bytes("1")), Err(JcsError::InvalidKeyEncoding)));
    assert!(matches!(
        JsonProperty::new(bytes("null"), bytes("1")),
        Err(JcsError::InvalidKeyEncoding)
    ));
}

#[test]
fn property_from_decoded_text() {
    let text: Vec<char> = "b\u{1f600}".chars().collect();
    let p = JsonProperty::from_decoded(Some(text), bytes("\"b\u{1f600}\""), bytes("[]")).unwrap();
    assert_eq!(p.sorting_key(), &vec![0x62u16, 0xd83d, 0xde00]);
    assert_eq!(p.value(), &bytes("[]"));
    assert!(matches!(
        JsonProperty::from_decoded(None, bytes("x"), bytes("1")),
        Err(JcsError::InvalidKeyEncoding)
    ));
}

#[test]
fn object_keeps_members_sorted() {
    let mut object = JsonObject::new();
    assert_eq!(object.len(), 0);
    assert!(object.insert(property("\"b\"", "false")));
    assert!(object.insert(property("\"c\"", "120")));
    assert!(object.insert(property("\"a\"", "\"Hello!\"")));
    assert_eq!(object.len(), 3);
    assert_eq!(object.get(0).unwrap().key(), &bytes("\"a\""));
    assert_eq!(object.get(1).unwrap().key(), &bytes("\"b\""));
    assert_eq!(object.get(2).unwrap().key(), &bytes("\"c\""));
    assert!(object.get(3).is_none());
    assert_eq!(object.render(), bytes("{\"a\":\"Hello!\",\"b\":false,\"c\":120}"));
}

#[test]
fn object_first_writer_wins() {
    let mut object = JsonObject::new();
    assert!(object.insert(property("\"a\"", "1")));
    assert!(!object.insert(property("\"a\"", "2")));
    assert!(!object.insert(property("\"\\u0061\"", "3")));
    assert_eq!(object.len(), 1);
    assert_eq!(object.render(), bytes("{\"a\":1}"));
}

#[test]
fn object_same_result_for_any_arrival_order() {
    let names = ["\"x\"", "\"\"", "\"xa\"", "\"A\"", "\"\\r\""];
    let mut forward = JsonObject::new();
    for name in names.iter() {
        forward.insert(property(name, "0"));
    }
    let mut backward = JsonObject::new();
    for name in names.iter().rev() {
        backward.insert(property(name, "0"));
    }
    let expected = bytes("{\"\":0,\"\\r\":0,\"A\":0,\"x\":0,\"xa\":0}");
    assert_eq!(forward.render(), expected);
    assert_eq!(backward.render(), expected);
}

#[test]
fn object_members_in_canonical_order_stay_as_they_are() {
    let mut object = JsonObject::new();
    object.insert(property("\"a\"", "1"));
    object.insert(property("\"b\"", "2"));
    object.insert(property("\"c\"", "3"));
    assert_eq!(object.render(), bytes("{\"a\":1,\"b\":2,\"c\":3}"));
}

#[test]
fn empty_object_renders_as_braces() {
    assert_eq!(JsonObject::new().render(), bytes("{}"));
}

#[test]
fn escapes_follow_the_table() {
    assert_eq!(escape_bytes(CharEscape::Quote), bytes("\\\""));
    assert_eq!(escape_bytes(CharEscape::ReverseSolidus), bytes("\\\\"));
    assert_eq!(escape_bytes(CharEscape::Backspace), bytes("\\b"));
    assert_eq!(escape_bytes(CharEscape::FormFeed), bytes("\\f"));
    assert_eq!(escape_bytes(CharEscape::LineFeed), bytes("\\n"));
    assert_eq!(escape_bytes(CharEscape::CarriageReturn), bytes("\\r"));
    assert_eq!(escape_bytes(CharEscape::Tab), bytes("\\t"));
}

#[test]
fn solidus_is_never_escaped() {
    assert_eq!(escape_bytes(CharEscape::Solidus), bytes("/"));
}

#[test]
fn control_characters_use_lowercase_hex() {
    assert_eq!(escape_bytes(CharEscape::AsciiControl(0x00)), bytes("\\u0000"));
    assert_eq!(escape_bytes(CharEscape::AsciiControl(0x0f)), bytes("\\u000f"));
    assert_eq!(escape_bytes(CharEscape::AsciiControl(0x1f)), bytes("\\u001f"));
    assert_eq!(escape_bytes(CharEscape::AsciiControl(0x1a)), bytes("\\u001a"));
    assert_eq!(escape_bytes(CharEscape::AsciiControl(0x09)), bytes("\\u0009"));
}

#[test]
fn finite_and_non_finite_bit_patterns() {
    assert!(double_is_finite(0));
    assert!(double_is_finite(0x8000_0000_0000_0000));
    assert!(double_is_finite(0x7fef_ffff_ffff_ffff));
    assert!(double_is_finite(0xffef_ffff_ffff_ffff));
    assert!(!double_is_finite(f64::NAN.to_bits()));
    assert!(!double_is_finite(f64::INFINITY.to_bits()));
    assert!(!double_is_finite(f64::NEG_INFINITY.to_bits()));
    assert!(!double_is_finite(0x7ff0_0000_0000_0001));
    assert!(single_is_finite(0));
    assert!(single_is_finite(f32::MAX.to_bits()));
    assert!(!single_is_finite(f32::NAN.to_bits()));
    assert!(!single_is_finite(f32::INFINITY.to_bits()));
    assert!(!single_is_finite(f32::NEG_INFINITY.to_bits()));
}

#[test]
fn scalars_go_to_the_output_when_no_buffer_is_open() {
    let mut formatter = JcsFormatter::new();
    let mut out = Vec::new();
    formatter.write_null(&mut out).unwrap();
    formatter.write_bool(&mut out, true).unwrap();
    formatter.write_bool(&mut out, false).unwrap();
    assert_eq!(out, bytes("nulltruefalse"));
    assert_eq!(formatter.open_buffers(), 0);
    assert_eq!(formatter.open_objects(), 0);
}

#[test]
fn default_formatter_is_empty() {
    let formatter = JcsFormatter::default();
    assert_eq!(formatter.open_buffers(), 0);
    assert_eq!(formatter.open_objects(), 0);
}

#[test]
fn get_writer_picks_the_innermost_buffer() {
    let mut formatter = JcsFormatter::new();
    let mut out = bytes("x");
    formatter.get_writer(&mut out).push(b'y');
    assert_eq!(out, bytes("xy"));
    formatter.begin_object(&mut out).unwrap();
    formatter.begin_object_key(&mut out, true).unwrap();
    assert_eq!(formatter.get_writer(&mut out).len(), 0);
    formatter.get_writer(&mut out).extend_from_slice(b"\"k\"");
    assert_eq!(out, bytes("xy"));
    formatter.end_object_key(&mut out).unwrap();
    formatter.begin_object_value(&mut out).unwrap();
    formatter.get_writer(&mut out).push(b'7');
    formatter.end_object_value(&mut out).unwrap();
    assert_eq!(out, bytes("xy"));
    formatter.end_object(&mut out).unwrap();
    assert_eq!(out, bytes("xy{\"k\":7}"));
}

#[test]
fn finite_number_is_written_as_given() {
    let mut formatter = JcsFormatter::new();
    let mut out = Vec::new();
    formatter.write_f64(&mut out, 120.0f64.to_bits(), "120").unwrap();
    assert_eq!(out, bytes("120"));
}

#[test]
fn non_finite_numbers_are_refused() {
    for value in [f64::NAN, f64::INFINITY, f64::NEG_INFINITY] {
        let mut formatter = JcsFormatter::new();
        let mut out = Vec::new();
        assert_eq!(
            formatter.write_f64(&mut out, value.to_bits(), "0"),
            Err(JcsError::NonFiniteNumber)
        );
        assert!(out.is_empty());
        assert_eq!(
            formatter.write_number_str(&mut out, Some(value.to_bits()), "0"),
            Err(JcsError::NonFiniteNumber)
        );
        assert!(out.is_empty());
    }
}

#[test]
fn number_text_that_does_not_parse_is_refused() {
    let mut formatter = JcsFormatter::new();
    let mut out = Vec::new();
    assert_eq!(
        formatter.write_number_str(&mut out, None, ""),
        Err(JcsError::UnparsableNumberText)
    );
    assert!(out.is_empty());
}

#[test]
fn number_text_is_written_without_any_prefix() {
    let mut formatter = JcsFormatter::new();
    let mut out = Vec::new();
    formatter.write_number_str(&mut out, Some(300.0f64.to_bits()), "300").unwrap();
    assert_eq!(out, bytes("300"));
}

#[test]
fn raw_fragments_are_refused() {
    let mut formatter = JcsFormatter::new();
    let mut out = Vec::new();
    assert_eq!(
        formatter.write_raw_fragment(&mut out, "{}"),
        Err(JcsError::RawFragmentUnsupported)
    );
    assert!(out.is_empty());
}

#[test]
fn string_events_write_quotes_fragments_and_escapes() {
    let mut formatter = JcsFormatter::new();
    let mut out = Vec::new();
    formatter.begin_string(&mut out).unwrap();
    formatter.write_string_fragment(&mut out, "\u{20ac}$").unwrap();
    formatter.write_char_escape(&mut out, CharEscape::AsciiControl(0x0f)).unwrap();
    formatter.write_char_escape(&mut out, CharEscape::LineFeed).unwrap();
    formatter.write_string_fragment(&mut out, "A'B").unwrap();
    formatter.write_char_escape(&mut out, CharEscape::Quote).unwrap();
    formatter.write_char_escape(&mut out, CharEscape::ReverseSolidus).unwrap();
    formatter.write_char_escape(&mut out, CharEscape::Solidus).unwrap();
    formatter.end_string(&mut out).unwrap();
    assert_eq!(out, "\"\u{20ac}$\\u000f\\nA'B\\\"\\\\/\"".as_bytes().to_vec());
}

#[test]
fn array_elements_keep_their_order() {
    let mut formatter = JcsFormatter::new();
    let mut out = Vec::new();
    formatter.begin_array(&mut out).unwrap();
    for (index, text) in ["3", "1", "2"].iter().enumerate() {
        formatter.begin_array_value(&mut out, index == 0).unwrap();
        formatter.write_f64(&mut out, 1.0f64.to_bits(), text).unwrap();
        formatter.end_array_value(&mut out).unwrap();
    }
    formatter.end_array(&mut out).unwrap();
    assert_eq!(out, bytes("[3,1,2]"));
}

#[test]
fn empty_array_and_empty_object() {
    let mut formatter = JcsFormatter::new();
    let mut out = Vec::new();
    formatter.begin_array(&mut out).unwrap();
    formatter.end_array(&mut out).unwrap();
    formatter.begin_object(&mut out).unwrap();
    formatter.end_object(&mut out).unwrap();
    assert_eq!(out, bytes("[]{}"));
}

fn member(formatter: &mut JcsFormatter, out: &mut Vec<u8>, first: bool, name: &str, value: &str) {
    formatter.begin_object_key(out, first).unwrap();
    formatter.begin_string(out).unwrap();
    formatter.write_string_fragment(out, name).unwrap();
    formatter.end_string(out).unwrap();
    formatter.end_object_key(out).unwrap();
    formatter.begin_object_value(out).unwrap();
    formatter.write_string_fragment(out, value).unwrap();
    formatter.end_object_value(out).unwrap();
}

#[test]
fn object_is_written_only_when_it_closes() {
    let mut formatter = JcsFormatter::new();
    let mut out = Vec::new();
    formatter.begin_object(&mut out).unwrap();
    member(&mut formatter, &mut out, true, "b", "false");
    member(&mut formatter, &mut out, false, "c", "120");
    member(&mut formatter, &mut out, false, "a", "\"Hello!\"");
    assert!(out.is_empty());
    assert_eq!(formatter.open_objects(), 1);
    formatter.end_object(&mut out).unwrap();
    assert_eq!(out, bytes("{\"a\":\"Hello!\",\"b\":false,\"c\":120}"));
    assert_eq!(formatter.open_objects(), 0);
    assert_eq!(formatter.open_buffers(), 0);
}

#[test]
fn duplicate_key_keeps_the_first_member() {
    let mut formatter = JcsFormatter::new();
    let mut out = Vec::new();
    formatter.begin_object(&mut out).unwrap();
    member(&mut formatter, &mut out, true, "a", "1");
    member(&mut formatter, &mut out, false, "a", "2");
    formatter.end_object(&mut out).unwrap();
    assert_eq!(out, bytes("{\"a\":1}"));
}

#[test]
fn nested_object_goes_into_the_enclosing_value() {
    let mut formatter = JcsFormatter::new();
    let mut out = Vec::new();
    formatter.begin_object(&mut out).unwrap();
    formatter.begin_object_key(&mut out, true).unwrap();
    formatter.write_string_fragment(&mut out, "\"outer\"").unwrap();
    formatter.end_object_key(&mut out).unwrap();
    formatter.begin_object_value(&mut out).unwrap();
    formatter.begin_object(&mut out).unwrap();
    member(&mut formatter, &mut out, true, "z", "1");
    member(&mut formatter, &mut out, false, "y", "2");
    formatter.end_object(&mut out).unwrap();
    assert!(out.is_empty());
    formatter.end_object_value(&mut out).unwrap();
    member(&mut formatter, &mut out, false, "inner", "[]");
    formatter.end_object(&mut out).unwrap();
    assert_eq!(out, bytes("{\"inner\":[],\"outer\":{\"y\":2,\"z\":1}}"));
}

#[test]
fn earlier_array_elements_are_out_before_a_later_error() {
    let mut formatter = JcsFormatter::new();
    let mut out = Vec::new();
    formatter.begin_array(&mut out).unwrap();
    formatter.begin_array_value(&mut out, true).unwrap();
    formatter.write_f64(&mut out, 1.0f64.to_bits(), "1").unwrap();
    formatter.end_array_value(&mut out).unwrap();
    formatter.begin_array_value(&mut out, false).unwrap();
    assert_eq!(
        formatter.write_f64(&mut out, f64::NAN.to_bits(), "0"),
        Err(JcsError::NonFiniteNumber)
    );
    assert_eq!(out, bytes("[1,"));
}

#[test]
fn closing_without_opening_is_a_structural_error() {
    let mut out = Vec::new();
    let mut formatter = JcsFormatter::new();
    assert_eq!(formatter.end_object(&mut out), Err(JcsError::StructuralMismatch));
    assert_eq!(formatter.end_object_key(&mut out), Err(JcsError::StructuralMismatch));
    assert_eq!(formatter.end_object_value(&mut out), Err(JcsError::StructuralMismatch));
    assert!(out.is_empty());
}

#[test]
fn closing_a_value_without_a_key_is_a_structural_error() {
    let mut out = Vec::new();
    let mut formatter = JcsFormatter::new();
    formatter.begin_object(&mut out).unwrap();
    formatter.begin_object_value(&mut out).unwrap();
    assert_eq!(formatter.end_object_value(&mut out), Err(JcsError::StructuralMismatch));
    assert_eq!(formatter.open_buffers(), 0);
    assert_eq!(formatter.open_objects(), 1);
}

#[test]
fn closing_a_value_without_an_object_is_a_structural_error() {
    let mut out = Vec::new();
    let mut formatter = JcsFormatter::new();
    formatter.begin_object_key(&mut out, true).unwrap();
    formatter.write_string_fragment(&mut out, "\"k\"").unwrap();
    formatter.end_object_key(&mut out).unwrap();
    formatter.begin_object_value(&mut out).unwrap();
    assert_eq!(formatter.end_object_value(&mut out), Err(JcsError::StructuralMismatch));
    assert_eq!(formatter.open_buffers(), 0);
}

#[test]
fn key_that_does_not_decode_is_an_encoding_error() {
    let mut out = Vec::new();
    let mut formatter = JcsFormatter::new();
    formatter.begin_object(&mut out).unwrap();
    formatter.begin_object_key(&mut out, true).unwrap();
    formatter.write_string_fragment(&mut out, "\"open").unwrap();
    formatter.end_object_key(&mut out).unwrap();
    formatter.begin_object_value(&mut out).unwrap();
    formatter.write_null(&mut out).unwrap();
    assert_eq!(formatter.end_object_value(&mut out), Err(JcsError::InvalidKeyEncoding));
    assert_eq!(formatter.open_buffers(), 0);
    formatter.end_object(&mut out).unwrap();
    assert_eq!(out, bytes("{}"));
}

#[test]
fn value_closes_with_a_key_decoded_beforehand() {
    let mut out = Vec::new();
    let mut formatter = JcsFormatter::new();
    formatter.begin_object(&mut out).unwrap();
    for (name, decoded, value) in [("\"b\"", "b", "1"), ("\"\\u0061\"", "a", "2"), ("\"a\"", "a", "3")]
    {
        formatter.begin_object_key(&mut out, false).unwrap();
        formatter.write_string_fragment(&mut out, name).unwrap();
        formatter.end_object_key(&mut out).unwrap();
        formatter.begin_object_value(&mut out).unwrap();
        formatter.write_string_fragment(&mut out, value).unwrap();
        formatter.close_object_value(Some(decoded.chars().collect())).unwrap();
    }
    formatter.end_object(&mut out).unwrap();
    assert_eq!(out, bytes("{\"\\u0061\":2,\"b\":1}"));
}

#[test]
fn value_closes_with_an_error_when_the_key_did_not_decode() {
    let mut out = Vec::new();
    let mut formatter = JcsFormatter::new();
    formatter.begin_object(&mut out).unwrap();
    formatter.begin_object_key(&mut out, true).unwrap();
    formatter.end_object_key(&mut out).unwrap();
    formatter.begin_object_value(&mut out).unwrap();
    assert_eq!(formatter.close_object_value(None), Err(JcsError::InvalidKeyEncoding));
    assert_eq!(formatter.open_buffers(), 0);
    assert_eq!(formatter.open_objects(), 1);
    assert_eq!(
        formatter.close_object_value(Some(Vec::new())),
        Err(JcsError::StructuralMismatch)
    );
}
