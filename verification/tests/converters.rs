use serde_conv::extract::extract_attr;
use serde_conv::optional::maybe_str;
use serde_conv::promote::{into_seq, Kind};
use serde_conv::scalar::{from_str_u32, from_str_u64, into_str, TextParseFailure};
use serde_conv::value::Value;

fn text(s: &str) -> Value {
    Value::Text(s.to_string())
}

fn mapping(entries: Vec<(&str, Value)>) -> Value {
    Value::Mapping(entries.into_iter().map(|(k, v)| (k.to_string(), v)).collect())
}

#[test]
fn from_str_parses_quoted_number() {
    assert_eq!(from_str_u32(text("42")), Ok(42));
    assert_eq!(from_str_u32(text("0")), Ok(0));
    assert_eq!(from_str_u32(text("+5")), Ok(5));
    assert_eq!(from_str_u32(text("4294967295")), Ok(u32::MAX));
    assert_eq!(from_str_u64(text("18446744073709551615")), Ok(u64::MAX));
}

#[test]
fn from_str_rejects_malformed_text() {
    assert_eq!(from_str_u32(text("abc")), Err(TextParseFailure::InvalidDigit));
    assert_eq!(from_str_u32(text("")), Err(TextParseFailure::Empty));
    assert_eq!(from_str_u32(text("+")), Err(TextParseFailure::InvalidDigit));
    assert_eq!(from_str_u32(text("-5")), Err(TextParseFailure::InvalidDigit));
    assert_eq!(from_str_u32(text("12x")), Err(TextParseFailure::InvalidDigit));
    assert_eq!(from_str_u32(text("4294967296")), Err(TextParseFailure::Overflow));
    // the overflow inside the digit run is hit before the foreign character
    assert_eq!(from_str_u32(text("99999999999x")), Err(TextParseFailure::Overflow));
    assert_eq!(
        from_str_u64(text("18446744073709551616")),
        Err(TextParseFailure::Overflow)
    );
}

#[test]
fn from_str_accepts_leading_zeros_and_rejects_spaces() {
    assert_eq!(from_str_u32(text("042")), Ok(42));
    assert_eq!(from_str_u32(text("000")), Ok(0));
    assert_eq!(from_str_u32(text(" 42")), Err(TextParseFailure::InvalidDigit));
    assert_eq!(from_str_u32(text("42 ")), Err(TextParseFailure::InvalidDigit));
}

#[test]
fn from_str_passes_native_shape_through() {
    assert_eq!(from_str_u32(Value::UInt64(7)), Ok(7));
    assert_eq!(from_str_u32(Value::Int64(7)), Ok(7));
    assert_eq!(from_str_u64(Value::UInt64(u64::MAX)), Ok(u64::MAX));
}

#[test]
fn from_str_defaults_on_structural_mismatch() {
    assert_eq!(from_str_u32(mapping(vec![])), Ok(0));
    assert_eq!(from_str_u32(Value::Null), Ok(0));
    assert_eq!(from_str_u32(Value::Sequence(vec![])), Ok(0));
    // out-of-range native integers are no native-u32 shape
    assert_eq!(from_str_u32(Value::UInt64(1 << 35)), Ok(0));
    assert_eq!(from_str_u32(Value::Int64(-1)), Ok(0));
    assert_eq!(from_str_u64(Value::Int64(-1)), Ok(0));
}

#[test]
fn into_str_renders_scalars() {
    assert_eq!(into_str(Value::UInt64(42)), "42");
    assert_eq!(into_str(Value::UInt64(0)), "0");
    assert_eq!(into_str(Value::Int64(-42)), "-42");
    assert_eq!(into_str(Value::Int64(i64::MIN)), "-9223372036854775808");
    assert_eq!(into_str(Value::Bool(true)), "true");
    assert_eq!(into_str(Value::Bool(false)), "false");
    assert_eq!(into_str(Value::Char('x')), "x");
    assert_eq!(into_str(Value::Float64("3.25".to_string())), "3.25");
    assert_eq!(into_str(text("hello")), "hello");
}

#[test]
fn into_str_blank_or_mismatch_is_empty() {
    assert_eq!(into_str(mapping(vec![])), "");
    assert_eq!(into_str(Value::Null), "");
    assert_eq!(into_str(text("   ")), "");
    assert_eq!(into_str(Value::Char(' ')), "");
    assert_eq!(into_str(Value::Sequence(vec![text("a")])), "");
}

#[test]
fn into_str_renders_extreme_integers() {
    assert_eq!(into_str(Value::UInt64(u64::MAX)), "18446744073709551615");
    assert_eq!(into_str(Value::Int64(i64::MAX)), "9223372036854775807");
    assert_eq!(into_str(Value::Int64(0)), "0");
}

#[test]
fn maybe_str_normalizes_blank_text() {
    assert_eq!(maybe_str(text("")), None);
    assert_eq!(maybe_str(text("   ")), None);
    assert_eq!(maybe_str(text("\t\n")), None);
    assert_eq!(maybe_str(text("foo")), Some("foo".to_string()));
    assert_eq!(maybe_str(text("  foo  ")), Some("  foo  ".to_string()));
    assert_eq!(maybe_str(Value::UInt64(1)), None);
    assert_eq!(maybe_str(mapping(vec![])), None);
    // non-ASCII white space counts as blank, as str::trim sees it
    assert_eq!(maybe_str(text("\u{A0}\u{2003}")), None);
}

#[test]
fn extract_unwraps_marker_object() {
    let wrapped = mapping(vec![("#text", Value::UInt64(9))]);
    assert_eq!(
        extract_attr(wrapped, "#text", Value::UInt64(0)),
        Value::UInt64(9)
    );
}

#[test]
fn extract_passes_bare_value_through() {
    assert_eq!(
        extract_attr(text("bare"), "#text", Value::Null),
        text("bare")
    );
    assert_eq!(
        extract_attr(Value::UInt64(3), "#text", Value::UInt64(0)),
        Value::UInt64(3)
    );
}

#[test]
fn extract_defaults_when_marker_absent() {
    assert_eq!(
        extract_attr(mapping(vec![]), "#text", Value::UInt64(0)),
        Value::UInt64(0)
    );
    let other = mapping(vec![("other", text("x"))]);
    assert_eq!(extract_attr(other, "#text", Value::Null), Value::Null);
}

#[test]
fn extract_takes_first_entry_on_duplicate_keys() {
    let doubled = mapping(vec![("#text", text("first")), ("#text", text("second"))]);
    assert_eq!(extract_attr(doubled, "#text", Value::Null), text("first"));
}

#[test]
fn into_seq_promotes_single_item() {
    assert_eq!(
        into_seq(text("v"), Kind::Text),
        vec![text("v")]
    );
    assert_eq!(into_seq(Value::UInt64(4), Kind::UInt64), vec![Value::UInt64(4)]);
}

#[test]
fn into_seq_passes_sequence_through() {
    let input = Value::Sequence(vec![text("v1"), text("v2")]);
    assert_eq!(into_seq(input, Kind::Text), vec![text("v1"), text("v2")]);
}

#[test]
fn into_seq_empties_on_mismatch() {
    assert_eq!(into_seq(mapping(vec![]), Kind::Text), Vec::<Value>::new());
    assert_eq!(into_seq(Value::UInt64(1), Kind::Text), Vec::<Value>::new());
    // one foreign item spoils the whole sequence
    let spoiled = Value::Sequence(vec![text("a"), Value::UInt64(1)]);
    assert_eq!(into_seq(spoiled, Kind::Text), Vec::<Value>::new());
}
