use asca::error::RuleSyntaxError;
use asca::rule::{RuleGroup, RulePart};
use asca::validate::{select_request, validate_rule_groups, validate_rule_line, ValidateRequest};

#[test]
fn argument_combinations() {
    assert!(matches!(
        select_request(Some(RulePart::Context), Some("#_".to_string()), None),
        Some(ValidateRequest::Fragment(RulePart::Context, s)) if s == "#_"
    ));
    assert!(matches!(
        select_request(None, None, Some("a > e".to_string())),
        Some(ValidateRequest::Line(s)) if s == "a > e"
    ));
    assert!(matches!(select_request(None, None, None), Some(ValidateRequest::File)));
    assert!(select_request(Some(RulePart::Input), None, None).is_none());
    assert!(select_request(None, Some("x".to_string()), None).is_none());
    assert!(select_request(Some(RulePart::Input), Some("x".to_string()), Some("y".to_string())).is_none());
}

#[test]
fn validating_a_rule_line() {
    assert!(validate_rule_line("s > ʃ / _i").is_ok());
    assert!(validate_rule_line("s > ʃ / // V_").is_ok());
    assert!(matches!(validate_rule_line("s >"), Err(RuleSyntaxError::EmptyOutput(_))));
    assert!(matches!(validate_rule_line("a, u > e, y, x"), Err(RuleSyntaxError::UnbalancedRuleIO(_))));
}

#[test]
fn validating_rule_groups() {
    let ok = RuleGroup { name: "g".to_string(), rule: vec!["a > e".to_string(), String::new()], description: String::new() };
    let bad = RuleGroup { name: "h".to_string(), rule: vec!["∅ > ∅".to_string()], description: String::new() };
    assert!(validate_rule_groups(&[ok.clone()]).is_ok());
    assert!(matches!(validate_rule_groups(&[ok, bad]), Err(RuleSyntaxError::InsertDelete(1, 0, 0, 4))));
}
