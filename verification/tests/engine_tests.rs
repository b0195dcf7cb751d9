//! Tests for validation, normalization, evaluation and the
//! content-level writers.

use rules::Rules;
use rules::RulesError;
use rules::StringIndexing;
use rules::types::{Object, Tag};

fn vocab_rules() -> Rules {
    let mut r = Rules::new("config");
    let sources = vec![
        "- colour: red, blue, green\n- size: small, medium, large\n- shape: circle".to_string(),
    ];
    r.load_tags(&sources).unwrap();
    r
}

fn obj(pairs: &[(&str, &[&str])]) -> Object {
    pairs
        .iter()
        .map(|(n, vs)| (n.to_string(), vs.iter().map(|v| v.to_string()).collect()))
        .collect()
}

#[test]
fn test_validate_rule_accepts_well_formed() {
    let r = vocab_rules();
    assert!(r.validate_rule("- colour = red").is_ok());
    assert!(r.validate_rule("- colour = red & size = large").is_ok());
    assert!(r.validate_rule("- colour = blue | size = small").is_ok());
    assert!(r.validate_rule("- colour = red, blue").is_ok());
    assert!(r.validate_rule("- colour = red, blue, green").is_ok());
    assert!(r.validate_rule("- (colour = red, blue) & size = large").is_ok());
    assert!(r.validate_rule("- -(colour = red) & size = large").is_ok());
    assert!(r.validate_rule("- shape ! circle").is_ok());
}

#[test]
fn test_validate_rule_rejects_malformed_commas() {
    let r = vocab_rules();
    assert!(r.validate_rule("-colour =, red").is_err());
    assert!(r.validate_rule("-,colour = red").is_err());
    assert!(r.validate_rule("-colour = red,").is_err());
    assert!(r.validate_rule("-(colour = red,) & size = large").is_err());
    assert!(r.validate_rule("-colour = red, blue, green").is_ok());
}

#[test]
fn test_validate_rule_rejects_bad_syntax() {
    let r = vocab_rules();
    assert!(r.validate_rule("colour = red").is_err());
    assert!(r.validate_rule("- colour red").is_err());
    assert!(r.validate_rule("- (colour = red").is_err());
    assert!(r.validate_rule("- colour = red &").is_err());
    assert!(r.validate_rule("-").is_err());
    assert!(r.validate_rule("").is_err());
}

#[test]
fn test_validate_rule_is_case_insensitive() {
    let mut r = Rules::new("config");
    let sources = vec!["- Colour: Red, Blue".to_string()];
    r.load_tags(&sources).unwrap();
    assert!(r.validate_rule("- colour = red").is_ok());
    assert!(r.validate_rule("- COLOUR = BLUE").is_ok());
}

#[test]
fn test_validate_rule_rejects_unknown_tag_and_value() {
    let r = vocab_rules();
    let unknown_tag = r.validate_rule("- material = wood");
    assert!(matches!(unknown_tag, Err(RulesError::RuleParseError(_))));
    let unknown_value = r.validate_rule("- colour = purple");
    assert!(matches!(unknown_value, Err(RulesError::RuleParseError(_))));
}

#[test]
fn test_comma_expansion_equivalent_to_or() {
    let r = vocab_rules();
    let comma = vec!["- colour = red, blue".to_string()];
    let ors = vec!["- colour = red | colour = blue".to_string()];
    let objects = vec![
        obj(&[("colour", &["red"])]),
        obj(&[("colour", &["blue"])]),
        obj(&[("colour", &["green"])]),
        obj(&[("colour", &["red", "green"])]),
    ];
    let with_comma = r.evaluate(&comma, &objects).unwrap();
    let with_or = r.evaluate(&ors, &objects).unwrap();
    assert_eq!(with_comma, with_or);
    assert_eq!(with_comma[0], vec![0]);
    assert_eq!(with_comma[1], vec![0]);
    assert_eq!(with_comma[2], Vec::<usize>::new());
    assert_eq!(with_comma[3], vec![0]);
}

#[test]
fn test_scenario_one_clause_two_comparisons() {
    let tags = vec![
        Tag { name: "colour".to_string(), values: vec!["red".to_string(), "blue".to_string(), "green".to_string()] },
        Tag { name: "size".to_string(), values: vec!["small".to_string(), "medium".to_string(), "large".to_string()] },
    ];
    let clauses = rules::validate::compile_rule(&tags, "- colour = red & size = large").unwrap();
    assert_eq!(clauses.len(), 1);
    assert_eq!(clauses[0].comparisons.len(), 2);
    assert_eq!(clauses[0].expected_count, 2);
    assert_eq!(clauses[0].actual_count, 0);

    let r = vocab_rules();
    let texts = vec!["- colour = red & size = large".to_string()];
    let satisfied = r
        .evaluate(&texts, &vec![obj(&[("colour", &["red"]), ("size", &["large"])])])
        .unwrap();
    assert_eq!(satisfied[0], vec![0]);
    let unsatisfied = r
        .evaluate(&texts, &vec![obj(&[("colour", &["red"]), ("size", &["small"])])])
        .unwrap();
    assert_eq!(unsatisfied[0], Vec::<usize>::new());
}

#[test]
fn test_evaluate_negated_group_and_not_equals() {
    let r = vocab_rules();
    let texts = vec![
        "- -(colour = red) & size = large".to_string(),
        "- colour ! red".to_string(),
    ];
    let rows = r
        .evaluate(
            &texts,
            &vec![
                obj(&[("colour", &["blue"]), ("size", &["large"])]),
                obj(&[("colour", &["red"]), ("size", &["large"])]),
            ],
        )
        .unwrap();
    assert_eq!(rows[0], vec![0, 1]);
    assert_eq!(rows[1], Vec::<usize>::new());
}

#[test]
fn test_and_binds_tighter_than_or() {
    let r = vocab_rules();
    // Without parentheses this reads (colour = red & size = large) | shape = circle.
    let texts = vec!["- colour = red & size = large | shape = circle".to_string()];
    let rows = r
        .evaluate(
            &texts,
            &vec![
                obj(&[("shape", &["circle"]), ("colour", &["blue"]), ("size", &["small"])]),
                obj(&[("colour", &["red"]), ("size", &["large"]), ("shape", &["circle"])]),
                obj(&[("colour", &["red"]), ("size", &["small"]), ("shape", &["square"])]),
            ],
        )
        .unwrap();
    assert_eq!(rows[0], vec![0]);
    assert_eq!(rows[1], vec![0]);
    assert_eq!(rows[2], Vec::<usize>::new());
}

#[test]
fn test_evaluate_rejects_duplicate_attribute_names() {
    let r = vocab_rules();
    let texts = vec!["- colour = red".to_string()];
    let bad = r.evaluate(
        &texts,
        &vec![obj(&[("colour", &["red"]), ("Colour", &["blue"])])],
    );
    assert!(matches!(bad, Err(RulesError::TagParseError(_))));
}

#[test]
fn test_write_rule_prevents_duplicates() {
    let r = vocab_rules();
    let lines = r.write_rule(&vec![], "-colour = red").unwrap();
    assert_eq!(lines, vec!["-colour = red".to_string()]);
    let second = r.write_rule(&lines, "  -colour = red  ");
    match second {
        Err(RulesError::RuleParseError(msg)) => assert!(msg.contains("already exists")),
        _ => panic!("Expected RuleParseError about duplicate"),
    }
}

#[test]
fn test_write_rule_appends_different_rules() {
    let r = vocab_rules();
    let lines = r.write_rule(&vec![], "-colour = red").unwrap();
    let lines = r.write_rule(&lines, "-size = large").unwrap();
    assert_eq!(
        lines,
        vec!["-colour = red".to_string(), "-size = large".to_string()]
    );
}

#[test]
fn test_write_rule_validates_rule() {
    let r = vocab_rules();
    assert!(r.write_rule(&vec![], "colour = red").is_err());
    assert!(r.write_rule(&vec![], "-invalid_tag = value").is_err());
    assert!(r.write_rule(&vec![], "-colour = purple").is_err());
}

#[test]
fn test_write_tag_creates_and_extends_lines() {
    let mut r = Rules::new("config");
    let lines = r
        .write_tag(&vec![], "Colour", &vec!["Red".to_string(), "Blue".to_string()])
        .unwrap();
    assert_eq!(lines, vec!["- colour: Red, Blue".to_string()]);
    let lines = r.write_tag(&lines, "colour", &vec!["Green".to_string()]).unwrap();
    assert_eq!(lines, vec!["- colour: Red, Blue, Green".to_string()]);
    // The cache saw both writes: the rule below validates.
    assert!(r.validate_rule("- colour = green").is_ok());
    assert!(r.validate_rule("- colour = red").is_ok());
}

#[test]
fn test_write_tag_rejects_bad_arguments() {
    let mut r = Rules::new("config");
    assert!(matches!(
        r.write_tag(&vec![], "", &vec!["x".to_string()]),
        Err(RulesError::TagParseError(_))
    ));
    assert!(matches!(
        r.write_tag(&vec![], "a b", &vec!["x".to_string()]),
        Err(RulesError::TagParseError(_))
    ));
    assert!(matches!(
        r.write_tag(&vec![], "colour", &vec![]),
        Err(RulesError::TagParseError(_))
    ));
    assert!(matches!(
        r.write_tag(&vec![], "colour", &vec!["a b".to_string()]),
        Err(RulesError::TagParseError(_))
    ));
}

#[test]
fn test_write_object_is_a_stub() {
    let r = vocab_rules();
    let existing = vec!["kept".to_string()];
    let out = r.write_object(&existing, "shapes", &obj(&[("colour", &["red"])])).unwrap();
    assert_eq!(out, existing);
}

#[test]
fn test_normalise_filenames() {
    assert_eq!(rules::rule_write::normalise_filename("test_normalise"), "test_normalise.rules");
    assert_eq!(rules::rule_write::normalise_filename("a.rules"), "a.rules");
    assert_eq!(rules::object_write::normalise_filename("objects"), "objects.yaml");
}

#[test]
fn test_batch_evaluate_entry() {
    let tag_sources = vec!["- colour: red, blue\n- size: small, large".to_string()];
    let rule_sources = vec!["- colour = red\n\n- colour = blue & size = small".to_string()];
    let objects = vec![
        obj(&[("colour", &["red"]), ("size", &["large"])]),
        obj(&[("colour", &["blue"]), ("size", &["small"])]),
    ];
    let rows = rules::evaluate(&tag_sources, &rule_sources, &objects).unwrap();
    assert_eq!(rows, vec![vec![0], vec![1]]);
}

#[test]
fn test_orchestrator_run_and_evaluate() {
    let tag_sources = vec!["- colour: red, blue".to_string()];
    let rule_sources = vec!["- colour = red".to_string()];
    let orch = rules::orchestrator::Orchestrator::run(&tag_sources, &rule_sources).unwrap();
    let row = orch.evaluate_one(&obj(&[("colour", &["red"])])).unwrap();
    assert_eq!(row, vec![0]);
    let row = orch.evaluate_one(&obj(&[("colour", &["blue"])])).unwrap();
    assert_eq!(row, Vec::<usize>::new());
}

#[test]
fn test_orchestrator_run_rejects_bad_rule() {
    let tag_sources = vec!["- colour: red".to_string()];
    let rule_sources = vec!["- colour = blue".to_string()];
    let result = rules::orchestrator::Orchestrator::run(&tag_sources, &rule_sources);
    assert!(matches!(result, Err(RulesError::RuleParseError(_))));
}

#[test]
fn test_parse_rules_compiles_each_line() {
    let sources = vec!["- colour = red

- size = large | colour = blue".to_string()];
    let compiled = rules::validate::parse_rules(&sources).unwrap();
    assert_eq!(compiled.len(), 2);
    assert_eq!(compiled[0].len(), 1);
    assert_eq!(compiled[0][0].comparisons.len(), 1);
    assert_eq!(compiled[1].len(), 2);
    let bad = rules::validate::parse_rules(&vec!["colour = red".to_string()]);
    assert!(matches!(bad, Err(RulesError::RuleParseError(_))));
}

#[test]
fn test_string_indexing_at() {
    assert_eq!("abc".at(0), Some('a'));
    assert_eq!("abc".at(2), Some('c'));
    assert_eq!("abc".at(3), None);
}

#[test]
fn test_subrule_default_is_empty_clause() {
    let sr = rules::types::SubRule::default();
    assert_eq!(sr.expected_count, 0);
    assert_eq!(sr.actual_count, 0);
    assert_eq!(sr.comparisons.len(), 0);
}

#[test]
fn test_error_messages_are_carried() {
    let e = RulesError::FileError("disk is gone".to_string());
    assert_eq!(e.message().as_str(), "disk is gone");
    let e = RulesError::RuleParseError("bad rule".to_string());
    assert_eq!(e.message().as_str(), "bad rule");
}

#[test]
fn test_load_tags_failure_keeps_cache() {
    let mut r = vocab_rules();
    assert!(r.validate_rule("- colour = red").is_ok());
    let bad = vec!["not a tag line".to_string()];
    assert!(r.load_tags(&bad).is_err());
    // Rebuild-and-swap: the failed load left the old snapshot in place.
    assert!(r.validate_rule("- colour = red").is_ok());
    // A successful load still replaces it.
    assert!(r.load_tags(&vec!["- shape: square".to_string()]).is_ok());
    assert!(r.validate_rule("- colour = red").is_err());
    assert!(r.validate_rule("- shape = square").is_ok());
}
