use asca::error::RuleSyntaxError;
use asca::rule::{ParsedRules, RuleGroup, RuleGroupBuilder};
use asca::trace::Change;

fn group(name: &str, rules: &[&str], desc: &str) -> RuleGroup {
    RuleGroup {
        name: name.to_string(),
        rule: rules.iter().map(|r| r.to_string()).collect(),
        description: desc.to_string(),
    }
}

#[test]
fn new_groups_are_empty() {
    assert!(RuleGroup::new().is_empty());
    assert!(RuleGroup::default().is_empty());
    assert!(RuleGroupBuilder::new().build().is_empty());
    assert!(!RuleGroupBuilder::new().rule("a > e".to_string()).build().is_empty());
    assert!(!RuleGroupBuilder::new().name("x".to_string()).build().is_empty());
}

#[test]
fn builder_fills_the_fields() {
    let g = RuleGroupBuilder::new()
        .name("Grimm".to_string())
        .rule("p > f".to_string())
        .rules(vec!["t > θ".to_string(), "k > x".to_string()])
        .desc("first shift".to_string())
        .build();
    assert_eq!(g.name, "Grimm");
    assert_eq!(g.rule, vec!["p > f", "t > θ", "k > x"]);
    assert_eq!(g.description, "first shift");
}

#[test]
fn try_from_keeps_names_and_descriptions() {
    let gs = vec![group("one", &["a > e", "", "o > u"], "d1"), group("two", &[], "d2")];
    let pr = ParsedRules::try_from(gs.as_slice()).unwrap();
    assert_eq!(pr.names, vec!["one", "two"]);
    assert_eq!(pr.descs, vec!["d1", "d2"]);
    assert_eq!(pr.rules.len(), 2);
    assert_eq!(pr.rules[0].len(), 2);
    assert_eq!(pr.rules[1].len(), 0);
}

#[test]
fn try_from_reports_the_first_failing_line() {
    let gs = vec![group("one", &["a > e", "a >"], ""), group("two", &["§"], "")];
    match ParsedRules::try_from(gs.as_slice()) {
        Err(RuleSyntaxError::EmptyOutput(p)) => {
            assert_eq!(p.group, 0);
            assert_eq!(p.line, 1);
        }
        other => panic!("unexpected {other:?}"),
    }
    let gs = vec![group("one", &["a > e"], ""), group("two", &["x > y", "§"], "")];
    match ParsedRules::try_from(gs.as_slice()) {
        Err(RuleSyntaxError::UnknownCharacter('§', p)) => {
            assert_eq!((p.group, p.line), (1, 1));
        }
        other => panic!("unexpected {other:?}"),
    }
}

#[test]
fn check_structure_reports_the_first_failing_rule() {
    let gs = vec![group("one", &["a > e", "* > *"], ""), group("two", &["a, b > c, d, e"], "")];
    let pr = ParsedRules::try_from(gs.as_slice()).unwrap();
    assert!(matches!(pr.check_structure(), Err(RuleSyntaxError::InsertDelete(0, 1, 0, 4))));
}

#[test]
fn get_traced_rules_follows_the_changes() {
    let gs = vec![group("one", &["a > e"], "d1"), group("two", &["o > u"], "d2")];
    let pr = ParsedRules::try_from(gs.as_slice()).unwrap();
    let changes = [Change { rule_index: 1 }, Change { rule_index: 0 }, Change { rule_index: 1 }];
    let traced = pr.get_traced_rules(&changes).unwrap();
    assert_eq!(traced.len(), 3);
    assert_eq!(traced[0].0, "two");
    assert_eq!(traced[1].2, "d1");
    assert_eq!(traced[2].1.len(), 1);
    assert!(pr.get_traced_rules(&[Change { rule_index: 2 }]).is_none());
    assert_eq!(pr.get_traced_rules(&[]).unwrap().len(), 0);
}

#[test]
fn iterating_walks_the_groups_in_order() {
    let gs = vec![group("one", &["a > e"], "d1"), group("two", &["o > u", "i > y"], "d2")];
    let pr = ParsedRules::try_from(gs.as_slice()).unwrap();
    let mut it = pr.iter();
    let (n, r, d) = it.next().unwrap();
    assert_eq!((n, r.len(), d), ("one", 1, "d1"));
    let (n, r, d) = it.next().unwrap();
    assert_eq!((n, r.len(), d), ("two", 2, "d2"));
    assert!(it.next().is_none());
    assert!(it.next().is_none());
}

#[test]
fn iteration_stops_at_the_shortest_column() {
    let mut pr = ParsedRules::new();
    pr.names.push("a".to_string());
    pr.names.push("b".to_string());
    pr.rules.push(Vec::new());
    pr.descs.push(String::new());
    pr.descs.push(String::new());
    let mut it = pr.iter();
    assert!(it.next().is_some());
    assert!(it.next().is_none());
    assert!(pr.get_traced_rules(&[Change { rule_index: 1 }]).is_none());
}

#[test]
fn collecting_walks_every_group_once_in_order() {
    let gs = vec![
        group("one", &["a > e"], "d1"),
        group("two", &["o > u", "i > y"], "d2"),
        group("three", &[], "d3"),
    ];
    let pr = ParsedRules::try_from(gs.as_slice()).unwrap();
    let all = pr.collect_groups();
    assert_eq!(all.len(), 3);
    assert_eq!((all[0].0, all[0].1.len(), all[0].2), ("one", 1, "d1"));
    assert_eq!((all[1].0, all[1].1.len(), all[1].2), ("two", 2, "d2"));
    assert_eq!((all[2].0, all[2].1.len(), all[2].2), ("three", 0, "d3"));
    let mut it = pr.iter();
    for g in &all {
        let n = it.next().unwrap();
        assert_eq!((n.0, n.1.len(), n.2), (g.0, g.1.len(), g.2));
    }
    assert!(it.next().is_none());
}

#[test]
fn collecting_stops_at_the_shortest_column() {
    let mut pr = ParsedRules::new();
    pr.names.push("a".to_string());
    pr.names.push("b".to_string());
    pr.rules.push(Vec::new());
    pr.rules.push(Vec::new());
    pr.descs.push("x".to_string());
    let all = pr.collect_groups();
    assert_eq!(all.len(), 1);
    assert_eq!((all[0].0, all[0].2), ("a", "x"));
    assert_eq!(ParsedRules::new().collect_groups().len(), 0);
}
