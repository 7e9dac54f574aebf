use asca::error::RuleSyntaxError;
use asca::lexer::{lex_line, str_chars};
use asca::parser::Parser;
use asca::rule::{ParseElement, Rule, RulePart};

fn parse(s: &str) -> Result<Option<Rule>, RuleSyntaxError> {
    let toks = lex_line(&str_chars(s), 0, 0)?;
    Parser::new(toks, 0, 0).parse()
}

fn rule(s: &str) -> Rule {
    parse(s).unwrap().unwrap()
}

fn field(part: RulePart, s: &str) -> Result<(), RuleSyntaxError> {
    let toks = lex_line(&str_chars(s), 0, 0)?;
    Parser::new(toks, 0, 0).validate_field(part)
}

#[test]
fn empty_line_holds_no_rule() {
    assert!(parse("").unwrap().is_none());
    assert!(parse("   ").unwrap().is_none());
}

#[test]
fn fields_of_a_full_rule() {
    let r = rule("a, u > e, y / #_ | _C");
    assert_eq!(r.input.len(), 2);
    assert_eq!(r.output.len(), 2);
    assert_eq!(r.context.len(), 1);
    assert_eq!(r.except.len(), 1);
    assert!(!r.prop_rev);
    let env = &r.context[0].envs[0];
    assert_eq!(env.before.len(), 1);
    assert_eq!(env.before[0].kind, ParseElement::WordBound);
    assert_eq!(env.after.len(), 0);
    let exc = &r.except[0].envs[0];
    assert_eq!(exc.after[0].kind, ParseElement::Group);
}

#[test]
fn items_carry_positions() {
    let r = rule("p > e");
    assert_eq!(r.input[0][0].position.start, 0);
    assert_eq!(r.output[0][0].position.start, 4);
}

#[test]
fn reverse_arrow_sets_right_to_left() {
    assert!(rule("a ~> e").prop_rev);
    assert!(rule("a ~ e").prop_rev);
    assert!(!rule("a -> e").prop_rev);
}

#[test]
fn word_boundary_crossing_is_noted() {
    let r = rule("a > e / _##b");
    assert!(r.cross_bound_env);
    assert!(!r.cross_bound_inp);
    let r = rule("a##b > e");
    assert!(r.cross_bound_inp);
}

#[test]
fn environment_sets_and_alternatives() {
    let r = rule("a => e / :{ _C:[+lab], j_ }:");
    assert_eq!(r.context.len(), 1);
    assert_eq!(r.context[0].envs.len(), 2);
    let r = rule("[+rho] > [-cont] / C_, _$");
    assert_eq!(r.context.len(), 2);
}

#[test]
fn sets_and_structures_are_written_flat() {
    let r = rule("{p, t,} > b");
    let kinds: Vec<ParseElement> = r.input[0].iter().map(|i| i.kind).collect();
    assert_eq!(
        kinds,
        vec![
            ParseElement::SetStart,
            ParseElement::Ipa,
            ParseElement::SetSep,
            ParseElement::Ipa,
            ParseElement::SetSep,
            ParseElement::SetEnd,
        ]
    );
    let r = rule("<-V-C> > [+str]");
    let inp = &r.input[0];
    assert_eq!(inp[0].kind, ParseElement::StructStart);
    assert!(inp[1].negated && inp[2].negated);
    assert_eq!(inp[3].kind, ParseElement::StructEnd);
}

#[test]
fn distance_underline() {
    let r = rule("V > [+long] / _,ə");
    let env = &r.context[0].envs[0];
    assert_eq!(env.after[0].kind, ParseElement::Distance);
    assert_eq!(env.after[1].kind, ParseElement::Ipa);
}

#[test]
fn rule_errors() {
    assert!(matches!(parse("p e"), Err(RuleSyntaxError::ExpectedArrow(_))));
    assert!(matches!(parse("p > e / a"), Err(RuleSyntaxError::ExpectedUnderline(_))));
    assert!(matches!(parse("p > e / _a_"), Err(RuleSyntaxError::TooManyUnderlines(_))));
    assert!(matches!(parse("p > <e"), Err(RuleSyntaxError::ExpectedClosing('>', _))));
    assert!(matches!(parse("{p > e"), Err(RuleSyntaxError::ExpectedClosing('}', _))));
    assert!(matches!(parse("{} > e"), Err(RuleSyntaxError::ExpectedSegment(_))));
    assert!(matches!(parse("p > e / (C_"), Err(RuleSyntaxError::ExpectedClosing(')', _))));
    assert!(matches!(parse("p: > e"), Err(RuleSyntaxError::ExpectedMatrix(_))));
    assert!(matches!(parse("p= > e"), Err(RuleSyntaxError::ExpectedNumber(_))));
    assert!(matches!(parse("-> e"), Err(RuleSyntaxError::UnknownCharacter('-', _))));
    assert!(matches!(parse("p > e _"), Err(RuleSyntaxError::ExpectedEndLine(_))));
    assert!(matches!(parse("- > e"), Err(RuleSyntaxError::ExpectedSegment(_))));
}

#[test]
fn optionals_only_in_environments_or_structures() {
    assert!(parse("p > e / (C)_").is_ok());
    assert!(parse("r(..)l > l(..)r").is_ok());
    assert!(parse("<sl(Vf)t> > e").is_ok());
    assert!(matches!(parse("(p) > e"), Err(RuleSyntaxError::OptLocError(_))));
    assert!(matches!(parse("p > (e)"), Err(RuleSyntaxError::OptLocError(_))));
}

#[test]
fn field_validation() {
    assert!(field(RulePart::Input, "a, u").is_ok());
    assert!(field(RulePart::Output, "e, y, x").is_ok());
    assert!(field(RulePart::Context, "C_, _$").is_ok());
    assert!(matches!(field(RulePart::Output, "e ="), Err(RuleSyntaxError::ExpectedEndLine(_))));
    assert!(matches!(field(RulePart::Output, "= e"), Err(RuleSyntaxError::UnknownCharacter('=', _))));
    assert!(matches!(field(RulePart::Input, "a,"), Err(RuleSyntaxError::EmptyInput(_))));
}

fn count(items: &[asca::rule::ParseItem], k: ParseElement) -> usize {
    items.iter().filter(|i| i.kind == k).count()
}

#[test]
fn each_field_holds_only_its_own_items() {
    let r = rule("{p, t}, -[+voi] > &, [-voi] / #_$, <C_>V | $_#");
    for alt in &r.input {
        for it in alt {
            assert!(it.kind != ParseElement::WordBound && it.kind != ParseElement::Underline);
        }
    }
    assert!(r.input[1][0].negated);
    assert_eq!(r.output[0][0].kind, ParseElement::Metathesis);
    for alt in &r.output {
        for it in alt {
            assert!(!it.negated);
            assert!(it.kind != ParseElement::WordBound && it.kind != ParseElement::ExtlBound);
        }
    }
    for item in r.context.iter().chain(r.except.iter()) {
        for env in &item.envs {
            for it in env.before.iter().chain(env.after.iter()) {
                assert!(it.kind != ParseElement::Underline);
                assert!(it.kind != ParseElement::EmptySet && it.kind != ParseElement::Metathesis);
            }
        }
    }
    assert!(matches!(parse("# > a"), Err(RuleSyntaxError::WordBoundLoc(_))));
    assert!(matches!(parse("a > -b"), Err(RuleSyntaxError::BadNegationOutput(_))));
}

#[test]
fn alternatives_close_what_they_open() {
    let r = rule("{a, <sl(Vf)t>}, r(..)l > {e, i}:[-str], <C> / _");
    for alt in r.input.iter().chain(r.output.iter()) {
        assert_eq!(count(alt, ParseElement::SetStart), count(alt, ParseElement::SetEnd));
        assert_eq!(count(alt, ParseElement::OptStart), count(alt, ParseElement::OptEnd));
        assert_eq!(count(alt, ParseElement::StructStart), count(alt, ParseElement::StructEnd));
    }
    assert_eq!(count(&r.input[0], ParseElement::SetStart), 1);
    assert_eq!(count(&r.input[0], ParseElement::StructStart), 1);
    assert_eq!(count(&r.input[0], ParseElement::OptStart), 1);
    assert_eq!(count(&r.input[1], ParseElement::OptStart), 1);
    assert!(parse("{a, e > i").is_err());
    assert!(parse("<C V > i").is_err());
}
