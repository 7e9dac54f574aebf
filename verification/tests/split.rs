use asca::error::RuleSyntaxError;
use asca::lexer::{lex_line, str_chars};
use asca::parser::Parser;
use asca::rule::{ParseElement, Rule, RuleType};

fn rule(s: &str) -> Rule {
    let toks = lex_line(&str_chars(s), 0, 0).unwrap();
    Parser::new(toks, 0, 0).parse().unwrap().unwrap()
}

#[test]
fn condensed_rule_splits_per_alternative() {
    let subs = rule("a, u > e, y").split_into_subrules().unwrap();
    assert_eq!(subs.len(), 2);
    assert_eq!(subs[0].input[0].position.start, 0);
    assert_eq!(subs[1].input[0].position.start, 3);
    assert_eq!(subs[1].output[0].position.start, 10);
}

#[test]
fn single_fields_are_lent_to_every_subrule() {
    let subs = rule("a > e / _#, #_").split_into_subrules().unwrap();
    assert_eq!(subs.len(), 2);
    assert_eq!(subs[0].input[0].position.start, 0);
    assert_eq!(subs[1].input[0].position.start, 0);
    assert_eq!(subs[0].context.as_ref().unwrap().envs[0].after[0].kind, ParseElement::WordBound);
    assert_eq!(subs[1].context.as_ref().unwrap().envs[0].before[0].kind, ParseElement::WordBound);
    assert!(subs[0].except.is_none());
}

#[test]
fn rule_types() {
    let t = |s: &str| rule(s).split_into_subrules().unwrap()[0].rule_type;
    assert_eq!(t("* > e"), RuleType::Insertion);
    assert_eq!(t("e > *"), RuleType::Deletion);
    assert_eq!(t("sk > &"), RuleType::Metathesis);
    assert_eq!(t("e > i"), RuleType::Substitution);
}

#[test]
fn unbalanced_fields() {
    match rule("a, u > e, y, x").split_into_subrules() {
        Err(RuleSyntaxError::UnbalancedRuleIO(v)) => assert_eq!(v.len(), 2),
        other => panic!("unexpected {other:?}"),
    }
    match rule("a, u, o > e, y, x, w").split_into_subrules() {
        Err(RuleSyntaxError::UnbalancedRuleIO(v)) => assert_eq!(v.len(), 3),
        other => panic!("unexpected {other:?}"),
    }
    match rule("a, u, o > e / _a, _b").split_into_subrules() {
        Err(RuleSyntaxError::UnbalancedRuleEnv(v)) => assert_eq!(v.len(), 2),
        other => panic!("unexpected {other:?}"),
    }
    match rule("a, u, o > e | _a, _b").split_into_subrules() {
        Err(RuleSyntaxError::UnbalancedRuleEnv(v)) => assert_eq!(v.len(), 2),
        other => panic!("unexpected {other:?}"),
    }
}

#[test]
fn insertion_conflicts() {
    assert!(matches!(rule("* > *").split_into_subrules(), Err(RuleSyntaxError::InsertDelete(0, 0, 0, 4))));
    assert!(matches!(rule("* > &").split_into_subrules(), Err(RuleSyntaxError::InsertMetath(0, 0, 0, 4))));
    assert!(matches!(
        rule("a, * > e, &").split_into_subrules(),
        Err(RuleSyntaxError::InsertMetath(0, 0, 3, 10))
    ));
}

#[test]
fn right_to_left_rules_read_backwards() {
    let subs = rule("<ab>c ~> d / x_y").split_into_subrules().unwrap();
    let s = &subs[0];
    assert!(s.is_reversed);
    let kinds: Vec<ParseElement> = s.input.iter().map(|i| i.kind).collect();
    assert_eq!(
        kinds,
        vec![
            ParseElement::Ipa,
            ParseElement::StructStart,
            ParseElement::Ipa,
            ParseElement::Ipa,
            ParseElement::StructEnd,
        ]
    );
    let env = &s.context.as_ref().unwrap().envs[0];
    assert_eq!(env.before[0].position.start, 15);
    assert_eq!(env.after[0].position.start, 13);
}

#[test]
fn cross_boundary_flags() {
    let subs = rule("a##b > e").split_into_subrules().unwrap();
    assert!(subs[0].inp_x_bound);
    assert!(!subs[0].env_x_bound);
    let subs = rule("a, b > e, f / _##x, _y").split_into_subrules().unwrap();
    assert!(subs[0].env_x_bound);
    assert!(!subs[1].env_x_bound);
}
