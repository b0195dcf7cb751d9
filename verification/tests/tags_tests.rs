//! Tests for the `.tags` line parser.

use rules::RulesError;
use rules::tags::{get_name_and_values_from_tag, validate_tag};

#[test]
fn test_validate_tag_valid() {
    let valid_tag = "- Color: Red, Blue, Green";
    assert!(validate_tag(valid_tag).is_ok());
}

#[test]
fn test_validate_tag_skips_comments() {
    let comment = "# This is a comment";
    assert!(validate_tag(comment).is_ok());
}

#[test]
fn test_validate_tag_skips_empty_lines() {
    let empty = "";
    assert!(validate_tag(empty).is_ok());
}

#[test]
fn test_validate_tag_no_colon() {
    let invalid_tag = "- Color Red Blue";
    let result = validate_tag(invalid_tag);

    assert!(result.is_err());
    if let Err(RulesError::TagParseError(msg)) = result {
        assert!(msg.contains("must contain a ':' separator"));
    } else {
        panic!("Expected TagParseError about missing colon");
    }
}

#[test]
fn test_validate_tag_no_dash() {
    let invalid_tag = "Color: Red, Blue";
    let result = validate_tag(invalid_tag);

    assert!(result.is_err());
    if let Err(RulesError::TagParseError(msg)) = result {
        assert!(msg.contains("Tag must begin with '-'"));
    } else {
        panic!("Expected TagParseError about missing dash");
    }
}

#[test]
fn test_validate_tag_name_with_spaces() {
    let invalid_tag = "- Color Name: Red, Blue";
    let result = validate_tag(invalid_tag);

    assert!(result.is_err());
    if let Err(RulesError::TagParseError(msg)) = result {
        assert!(msg.contains("Tag name cannot contain spaces"));
    } else {
        panic!("Expected TagParseError about tag name spaces");
    }
}

#[test]
fn test_validate_tag_value_with_middle_spaces() {
    let invalid_tag = "- Color: Dark Blue, Red";
    let result = validate_tag(invalid_tag);

    assert!(result.is_err());
    if let Err(RulesError::TagParseError(msg)) = result {
        assert!(msg.contains("Tag values cannot contain spaces"));
    } else {
        panic!("Expected TagParseError about value spaces");
    }
}

#[test]
fn test_validate_tag_multiple_colons() {
    let invalid_tag = "- Color: Red: Blue";
    let result = validate_tag(invalid_tag);

    assert!(result.is_err());
    if let Err(RulesError::TagParseError(msg)) = result {
        assert!(msg.contains("only one") || msg.contains("semi-colon"));
    } else {
        panic!("Expected TagParseError about multiple colons");
    }
}

#[test]
fn test_validate_tag_with_leading_whitespace() {
    let tag_with_whitespace = "  - Color: Red, Blue";
    assert!(validate_tag(tag_with_whitespace).is_ok());
}

#[test]
fn test_get_name_and_values_from_tag() {
    let tag = "- Color: Red, Blue, Green";
    let result = get_name_and_values_from_tag(tag);

    assert!(result.is_ok());
    if let Ok((name, values)) = result {
        assert_eq!(name, "Color");
        assert_eq!(values.len(), 3);
        assert!(values.contains(&"Red".to_string()));
        assert!(values.contains(&"Blue".to_string()));
        assert!(values.contains(&"Green".to_string()));
    }
}

#[test]
fn test_get_name_and_values_trims_whitespace() {
    let tag = "  - Color  :  Red ,  Blue  ";
    let result = get_name_and_values_from_tag(tag);

    assert!(result.is_ok());
    if let Ok((name, values)) = result {
        assert_eq!(name, "Color");
        assert_eq!(values, vec!["Red".to_string(), "Blue".to_string()]);
    }
}

#[test]
fn test_tag_format_round_trip() {
    let line = "  - Colour:  Red, Blue ";
    let (name, values) = get_name_and_values_from_tag(line).unwrap();
    let serialized = rules::tags::serialize_tag(&name, &values);
    assert_eq!(serialized, "- Colour: Red, Blue");
    let (name2, values2) = get_name_and_values_from_tag(&serialized).unwrap();
    assert_eq!(name, name2);
    assert_eq!(values, values2);
}

#[test]
fn test_parse_tags_merges_sources() {
    let sources = vec![
        "- colour: red, blue\n# note\n".to_string(),
        "- size: small\n\n- colour: green".to_string(),
    ];
    let tags = rules::tags::parse_tags(&sources).unwrap();
    assert_eq!(tags.len(), 3);
    assert_eq!(tags[0].name, "colour");
    assert_eq!(tags[0].values, vec!["red".to_string(), "blue".to_string()]);
    assert_eq!(tags[1].name, "size");
    assert_eq!(tags[2].name, "colour");
    assert_eq!(tags[2].values, vec!["green".to_string()]);
}

#[test]
fn test_validate_tag_empty_name() {
    let result = validate_tag("- : red");
    assert!(matches!(result, Err(RulesError::TagParseError(_))));
}

#[test]
fn test_validate_tag_empty_value() {
    let result = validate_tag("- colour: red,,blue");
    assert!(matches!(result, Err(RulesError::TagParseError(_))));
    let trailing = validate_tag("- colour: red,");
    assert!(matches!(trailing, Err(RulesError::TagParseError(_))));
}

#[test]
fn test_parse_tags_rejects_bad_line() {
    let sources = vec!["- colour: red\nno dash here: x".to_string()];
    let result = rules::tags::parse_tags(&sources);
    assert!(matches!(result, Err(RulesError::TagParseError(_))));
}
