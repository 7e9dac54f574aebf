use asca::lexer::{lex_line, str_chars};
use asca::parser::Parser;
use asca::rule::{validate_part, Alpha, NodeKind, PlaceMod, Rule, RulePart};

fn rule(s: &str) -> Rule {
    let toks = lex_line(&str_chars(s), 0, 0).unwrap();
    Parser::new(toks, 0, 0).parse().unwrap().unwrap()
}

#[test]
fn fields_that_validate_make_a_rule_that_parses() {
    let (i, o, c, e) = ("C:[+voi]=1", "[-voi]", "_#, V_{s, z}", ":{ #_, _## }:");
    assert!(validate_part(RulePart::Input, i).is_ok());
    assert!(validate_part(RulePart::Output, o).is_ok());
    assert!(validate_part(RulePart::Context, c).is_ok());
    assert!(validate_part(RulePart::Exception, e).is_ok());
    let r = rule(&format!("{i} > {o} / {c} | {e}"));
    assert_eq!(r.input.len(), 1);
    assert_eq!(r.context.len(), 2);
    assert_eq!(r.except.len(), 1);
    assert_eq!(r.except[0].envs.len(), 2);
    let r = rule(&format!("{i} ~> {o} // {e}"));
    assert!(r.prop_rev);
    assert_eq!(r.context.len(), 0);
}

#[test]
fn fields_of_a_rule_that_parses_validate() {
    let whole = "a, u > e, y / _#, #_ | V_";
    assert!(rule(whole).split_into_subrules().is_ok());
    assert!(validate_part(RulePart::Input, "a, u").is_ok());
    assert!(validate_part(RulePart::Output, "e, y").is_ok());
    assert!(validate_part(RulePart::Context, "_#, #_").is_ok());
    assert!(validate_part(RulePart::Exception, "V_").is_ok());
    let r = rule("s > ʃ / // V_");
    assert_eq!(r.context.len(), 0);
    assert!(validate_part(RulePart::Exception, "V_").is_ok());
}

#[test]
fn exception_and_context_share_a_grammar() {
    for f in ["", "a", "#_", "_#", "V_", ":{ _C, j_ }:", "#_ / a", "_a_"] {
        let c = validate_part(RulePart::Context, f).map_err(|e| format!("{e:?}"));
        let x = validate_part(RulePart::Exception, f).map_err(|e| format!("{e:?}"));
        assert_eq!(c, x);
    }
}

#[test]
fn reading_backwards_twice_gives_the_rule_back() {
    let fwd = rule("<ab>:[+str]c > d / x{y, z}_(w)").split_into_subrules().unwrap();
    let rev = rule("<ab>:[+str]c ~> d / x{y, z}_(w)").split_into_subrules().unwrap();
    let f = &fwd[0];
    let r = &rev[0];
    assert_eq!(f.rule_type, r.rule_type);
    assert_eq!(f.input.len(), r.input.len());
    let n = f.input.len();
    for k in 0..n {
        assert_eq!(f.input[k].position, r.input[n - 1 - k].position);
    }
    let fe = &f.context.as_ref().unwrap().envs[0];
    let re = &r.context.as_ref().unwrap().envs[0];
    assert_eq!(fe.before.len(), re.after.len());
    assert_eq!(fe.after.len(), re.before.len());
}

#[test]
fn one_alternative_one_subrule() {
    assert_eq!(rule("a > e / _#").split_into_subrules().unwrap().len(), 1);
    assert!(rule("∅ > &").split_into_subrules().is_err());
}

#[test]
fn alpha_views() {
    let a = Alpha::Node(NodeKind::Dorsal, Some(1));
    assert_eq!(a.as_node(), Some((NodeKind::Dorsal, Some(1))));
    assert!(a.as_binary());
    assert!(a.as_place().is_none());
    let p = Alpha::Place(PlaceMod::new(None, None, None, None));
    assert!(!p.as_binary());
    assert_eq!(p.as_place(), Some(&PlaceMod::new(None, None, None, None)));
    let p = Alpha::Place(PlaceMod::new(None, Some(0), None, None));
    assert!(p.as_binary());
    assert_eq!(Alpha::Grouped(false, true).as_grouped(), Some((false, true)));
    assert!(!Alpha::Grouped(false, true).as_binary());
    assert!(Alpha::Feature(true).as_binary());
    assert!(!Alpha::Supra(false).as_binary());
    assert!(Alpha::Feature(true).as_grouped().is_none());
}
