use xml_to_serde::classify::guess_type;
use xml_to_serde::kinds::{TsKind, ValueKind, ValueTypeOption};

#[test]
fn classification_ordering() {
    assert_eq!(guess_type("123"), ValueTypeOption::Required(ValueKind::Integer));
    assert_eq!(guess_type("12.5"), ValueTypeOption::Required(ValueKind::Float));
    assert_eq!(
        guess_type("2024-01-01 10:00:00"),
        ValueTypeOption::Required(ValueKind::Timestamp(TsKind::Naive))
    );
    assert_eq!(
        guess_type("2024-01-01T10:00:00Z"),
        ValueTypeOption::Required(ValueKind::Timestamp(TsKind::Rfc3339))
    );
    assert_eq!(guess_type("http://example.com"), ValueTypeOption::Required(ValueKind::Url));
    assert_eq!(guess_type("hello"), ValueTypeOption::Required(ValueKind::Text));
}

#[test]
fn integer_wins_over_float() {
    // "123" parses as a float too; the ordered trial must pick Integer.
    assert_eq!(guess_type("-42"), ValueTypeOption::Required(ValueKind::Integer));
    assert_eq!(guess_type("+7"), ValueTypeOption::Required(ValueKind::Integer));
}

#[test]
fn integer_range_boundary() {
    assert_eq!(
        guess_type("9223372036854775807"),
        ValueTypeOption::Required(ValueKind::Integer)
    );
    assert_eq!(
        guess_type("-9223372036854775808"),
        ValueTypeOption::Required(ValueKind::Integer)
    );
    // One past the range is no integer; all digits still make a float.
    assert_eq!(
        guess_type("9223372036854775808"),
        ValueTypeOption::Required(ValueKind::Float)
    );
}

#[test]
fn float_shapes() {
    assert_eq!(guess_type(".5"), ValueTypeOption::Required(ValueKind::Float));
    assert_eq!(guess_type("5."), ValueTypeOption::Required(ValueKind::Float));
    assert_eq!(guess_type("1e5"), ValueTypeOption::Required(ValueKind::Float));
    assert_eq!(guess_type("-2.5E-3"), ValueTypeOption::Required(ValueKind::Float));
    assert_eq!(guess_type("inf"), ValueTypeOption::Required(ValueKind::Float));
    assert_eq!(guess_type("Infinity"), ValueTypeOption::Required(ValueKind::Float));
    assert_eq!(guess_type("NaN"), ValueTypeOption::Required(ValueKind::Float));
}

#[test]
fn float_rejections_fall_through() {
    assert_eq!(guess_type("12.5.6"), ValueTypeOption::Required(ValueKind::Text));
    assert_eq!(guess_type("1e"), ValueTypeOption::Required(ValueKind::Text));
    assert_eq!(guess_type("."), ValueTypeOption::Required(ValueKind::Text));
    assert_eq!(guess_type(""), ValueTypeOption::Required(ValueKind::Text));
    assert_eq!(guess_type("infin"), ValueTypeOption::Required(ValueKind::Text));
}

#[test]
fn rfc2822_timestamp() {
    assert_eq!(
        guess_type("Mon, 01 Jan 2024 10:00:00 +0000"),
        ValueTypeOption::Required(ValueKind::Timestamp(TsKind::Rfc2822))
    );
}

#[test]
fn naive_timestamp_needs_exact_layout() {
    // A malformed date is no timestamp in any of the three layouts.
    assert_eq!(
        guess_type("2024-13-01 10:00:00"),
        ValueTypeOption::Required(ValueKind::Text)
    );
}

#[test]
fn relative_reference_is_text_not_url() {
    assert_eq!(guess_type("example.com/path"), ValueTypeOption::Required(ValueKind::Text));
    assert_eq!(guess_type("ftp://host/file"), ValueTypeOption::Required(ValueKind::Url));
}

#[test]
fn optional_keeps_the_kind() {
    let mut v = ValueTypeOption::Required(ValueKind::Integer);
    v.optional();
    assert_eq!(v, ValueTypeOption::Optional(ValueKind::Integer));
    v.optional();
    assert_eq!(v, ValueTypeOption::Optional(ValueKind::Integer));
}
