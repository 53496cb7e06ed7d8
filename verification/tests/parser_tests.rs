use tagparse::Attributes;
use tagparse::Expected;
use tagparse::ParseError;
use tagparse::Tag;
use tagparse::parse_attribute;
use tagparse::parse_key;
use tagparse::parse_val;

#[test]
fn test_parser_key() {
    let input = b"width";
    let (actual, end) = parse_key(input, 0).unwrap();
    assert_eq!(end, input.len());
    let expected = b"width".to_vec();
    assert_eq!(actual, expected);
}

#[test]
fn test_parser_val() {
    let input = b"\"width\"";
    let (actual, end) = parse_val(input, 0).unwrap();
    assert_eq!(end, input.len());
    let expected = b"width".to_vec();
    assert_eq!(actual, expected);
}

#[test]
fn test_parser_val1() {
    let input = b"\"40\"";
    let (actual, end) = parse_val(input, 0).unwrap();
    assert_eq!(end, input.len());
    let expected = b"40".to_vec();
    assert_eq!(actual, expected);
}

#[test]
fn test_parse_attribute() {
    let input = b"width=\"40\"";
    let (actual, end) = parse_attribute(input, 0).unwrap();
    assert_eq!(end, input.len());
    let expected = (b"width".to_vec(), b"40".to_vec());
    assert_eq!(actual, expected);
}

#[test]
fn test_parse_attribute_with_spaces() {
    let input = b"width =   \"40\"";
    let (actual, end) = parse_attribute(input, 0).unwrap();
    assert_eq!(end, input.len());
    let expected = (b"width".to_vec(), b"40".to_vec());
    assert_eq!(actual, expected);
}

#[test]
fn test_attribute() {
    let input = b"width=\"40\", height = \"30\"";
    let (actual, end) = Attributes::parse(input, 0).unwrap();
    assert_eq!(end, input.len());
    let mut expected = Attributes::new();
    expected.insert(b"width".to_vec(), b"40".to_vec());
    expected.insert(b"height".to_vec(), b"30".to_vec());
    assert_eq!(actual, expected);
}

#[test]
fn test_tag() {
    let input = b"<div width=\"40\", height=\"100\">";
    let (actual, end) = Tag::parse(input, 0).unwrap();
    assert_eq!(end, input.len());
    let mut attributes = Attributes::new();
    attributes.insert(b"width".to_vec(), b"40".to_vec());
    attributes.insert(b"height".to_vec(), b"100".to_vec());
    let expected = Tag { tag_type: b"div".to_vec(), attributes };
    assert_eq!(actual, expected);
}

#[test]
fn test_parse_attribute_tab_whitespace() {
    let input = b"a\t=\t\"1\"";
    let (actual, end) = parse_attribute(input, 0).unwrap();
    assert_eq!(end, input.len());
    assert_eq!(actual, (b"a".to_vec(), b"1".to_vec()));
}

#[test]
fn test_empty_attribute_section() {
    let input = b"<div >";
    let (actual, end) = Tag::parse(input, 0).unwrap();
    assert_eq!(end, input.len());
    let expected = Tag { tag_type: b"div".to_vec(), attributes: Attributes::new() };
    assert_eq!(actual, expected);
}

#[test]
fn test_empty_attribute_list_consumes_nothing() {
    let input = b">";
    let (actual, end) = Attributes::parse(input, 0).unwrap();
    assert_eq!(end, 0);
    assert_eq!(actual, Attributes::new());
}

#[test]
fn test_missing_space_after_comma_still_parses() {
    // The separator is a comma followed by *zero* or more whitespace
    // bytes, so both attributes are recognized.
    let input = b"<div width=\"40\",height=\"100\">";
    let (actual, end) = Tag::parse(input, 0).unwrap();
    assert_eq!(end, input.len());
    let mut attributes = Attributes::new();
    attributes.insert(b"width".to_vec(), b"40".to_vec());
    attributes.insert(b"height".to_vec(), b"100".to_vec());
    assert_eq!(actual, Tag { tag_type: b"div".to_vec(), attributes });
}

#[test]
fn test_two_spaces_after_tag_name_fail() {
    // Exactly one space is required after the tag name; the second space
    // stops the (empty) attribute list, where `>` is then expected.
    let input = b"<div  width=\"40\">";
    let err = Tag::parse(input, 0).unwrap_err();
    assert_eq!(err, ParseError { position: 5, expected: Expected::CloseAngle });
}

#[test]
fn test_unquoted_value_fails() {
    let input = b"<div width=40>";
    assert!(Tag::parse(input, 0).is_err());
}

#[test]
fn test_trailing_comma_fails() {
    // The list stops before a comma whose following attribute does not
    // parse, so the `,` is left where the closing `>` is expected.
    let input = b"<a b=\"1\",>";
    let err = Tag::parse(input, 0).unwrap_err();
    assert_eq!(err, ParseError { position: 8, expected: Expected::CloseAngle });
}

#[test]
fn test_reparse_consumed_prefix() {
    let input = b"<div width=\"40\">rest of the line";
    let (first, end) = Tag::parse(input, 0).unwrap();
    assert_eq!(end, 16);
    let (again, end_again) = Tag::parse(&input[..end], 0).unwrap();
    assert_eq!(end_again, end);
    assert_eq!(again, first);
}

#[test]
fn test_duplicate_key_last_wins() {
    let input = b"<a b=\"1\", b=\"2\">";
    let (tag, end) = Tag::parse(input, 0).unwrap();
    assert_eq!(end, input.len());
    assert_eq!(tag.attributes.get(b"b"), Some(&b"2".to_vec()));
    assert_eq!(tag.attributes.get(b"c"), None);
}

#[test]
fn test_key_error_position() {
    let err = parse_key(b"1px", 0).unwrap_err();
    assert_eq!(err, ParseError { position: 0, expected: Expected::Letter });
}

#[test]
fn test_val_error_missing_open_quote() {
    let err = parse_val(b"width", 0).unwrap_err();
    assert_eq!(err, ParseError { position: 0, expected: Expected::Quote });
}

#[test]
fn test_val_error_empty_value() {
    let err = parse_val(b"\"\"", 0).unwrap_err();
    assert_eq!(err, ParseError { position: 1, expected: Expected::Alphanumeric });
}

#[test]
fn test_val_error_missing_close_quote() {
    let err = parse_val(b"\"a%\"", 0).unwrap_err();
    assert_eq!(err, ParseError { position: 2, expected: Expected::Quote });
}

#[test]
fn test_attribute_error_missing_equals() {
    let err = parse_attribute(b"width \"40\"", 0).unwrap_err();
    assert_eq!(err, ParseError { position: 6, expected: Expected::Equals });
}

#[test]
fn test_tag_error_missing_open_angle() {
    let err = Tag::parse(b"div a=\"1\">", 0).unwrap_err();
    assert_eq!(err, ParseError { position: 0, expected: Expected::OpenAngle });
}

#[test]
fn test_tag_error_name_not_alphabetic() {
    let err = Tag::parse(b"<1>", 0).unwrap_err();
    assert_eq!(err, ParseError { position: 1, expected: Expected::Letter });
}

#[test]
fn test_tag_error_missing_space() {
    let err = Tag::parse(b"<div>", 0).unwrap_err();
    assert_eq!(err, ParseError { position: 4, expected: Expected::Space });
}

#[test]
fn test_tag_error_missing_close_angle() {
    let err = Tag::parse(b"<div a=\"1\"", 0).unwrap_err();
    assert_eq!(err, ParseError { position: 10, expected: Expected::CloseAngle });
}

#[test]
fn test_parse_from_inner_position() {
    let input = b"xx<a b=\"7\">";
    let (tag, end) = Tag::parse(input, 2).unwrap();
    assert_eq!(end, input.len());
    assert_eq!(tag.tag_type, b"a".to_vec());
    assert_eq!(tag.attributes.get(b"b"), Some(&b"7".to_vec()));
}

#[test]
fn test_insert_replaces_existing_key() {
    let mut attrs = Attributes::new();
    attrs.insert(b"k".to_vec(), b"old".to_vec());
    attrs.insert(b"k".to_vec(), b"new".to_vec());
    assert_eq!(attrs.get(b"k"), Some(&b"new".to_vec()));
}

#[test]
fn test_parse_complete() {
    let input = b"<div width=\"40\", height=\"100\">";
    let tag = tagparse::parse(input).unwrap();
    let mut attributes = Attributes::new();
    attributes.insert(b"width".to_vec(), b"40".to_vec());
    attributes.insert(b"height".to_vec(), b"100".to_vec());
    assert_eq!(tag, Tag { tag_type: b"div".to_vec(), attributes });
}

#[test]
fn test_parse_complete_rejects_trailing_input() {
    let input = b"<div width=\"40\"> ";
    let err = tagparse::parse(input).unwrap_err();
    assert_eq!(err, ParseError { position: 16, expected: Expected::End });
}
