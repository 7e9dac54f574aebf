use asca::error::RuleSyntaxError;
use asca::lexer::{lex_line, str_chars, Token, TokenKind};

fn lex(s: &str) -> Result<Vec<Token>, RuleSyntaxError> {
    lex_line(&str_chars(s), 0, 0)
}

fn kinds(s: &str) -> Vec<TokenKind> {
    lex(s).unwrap().iter().map(|t| t.kind).collect()
}

#[test]
fn lexes_a_simple_rule() {
    assert_eq!(
        kinds("p > e / #_"),
        vec![
            TokenKind::Ipa,
            TokenKind::GreaterThan,
            TokenKind::Ipa,
            TokenKind::Slash,
            TokenKind::WordBoundary,
            TokenKind::Underline,
        ]
    );
}

#[test]
fn token_spans_are_character_positions() {
    let toks = lex("tʰ > dʱ").unwrap();
    assert_eq!(toks.len(), 3);
    assert_eq!((toks[0].start, toks[0].end), (0, 2));
    assert_eq!((toks[1].start, toks[1].end), (3, 4));
    assert_eq!((toks[2].start, toks[2].end), (5, 7));
    assert_eq!(toks[0].ch, 't');
}

#[test]
fn tied_segments_and_matrices_are_single_tokens() {
    assert_eq!(kinds("t^s"), vec![TokenKind::Ipa]);
    assert_eq!(kinds("V:[+long, -hi, Aplace]"), vec![TokenKind::Group, TokenKind::Colon, TokenKind::Matrix]);
    assert_eq!(kinds("[tone: 51]"), vec![TokenKind::Matrix]);
    assert_eq!(kinds("[]"), vec![TokenKind::Matrix]);
    assert_eq!(kinds("[+tens -red]"), vec![TokenKind::Matrix]);
    assert_eq!(kinds("[α DOR]"), vec![TokenKind::Matrix]);
}

#[test]
fn two_character_tokens() {
    assert_eq!(kinds("->"), vec![TokenKind::Arrow]);
    assert_eq!(kinds("=>"), vec![TokenKind::Arrow]);
    assert_eq!(kinds("→"), vec![TokenKind::Arrow]);
    assert_eq!(kinds("~>"), vec![TokenKind::ReverseArrow]);
    assert_eq!(kinds("~"), vec![TokenKind::ReverseArrow]);
    assert_eq!(kinds("##"), vec![TokenKind::ExtlBoundary]);
    assert_eq!(kinds("//"), vec![TokenKind::DoubleSlash]);
    assert_eq!(kinds(".."), vec![TokenKind::Ellipsis]);
    assert_eq!(kinds("…"), vec![TokenKind::Ellipsis]);
    assert_eq!(kinds("=1"), vec![TokenKind::Equals, TokenKind::Number]);
    assert_eq!(kinds("_,ə"), vec![TokenKind::UnderlineComma, TokenKind::Ipa]);
    assert_eq!(kinds("_, ə"), vec![TokenKind::Underline, TokenKind::Comma, TokenKind::Ipa]);
    assert_eq!(kinds("_,_#"), vec![TokenKind::Underline, TokenKind::Comma, TokenKind::Underline, TokenKind::WordBoundary]);
}

#[test]
fn lexer_errors() {
    assert!(matches!(lex("§"), Err(RuleSyntaxError::UnknownCharacter('§', _))));
    assert!(matches!(lex("a.b"), Err(RuleSyntaxError::UnknownCharacter('.', _))));
    assert!(matches!(lex("A > e"), Err(RuleSyntaxError::UnknownGroup('A', _))));
    assert!(matches!(lex("[+bogus]"), Err(RuleSyntaxError::UnknownFeature(_))));
    assert!(matches!(lex("[voice]"), Err(RuleSyntaxError::MissingFeatureValue(_))));
    assert!(matches!(lex("[tone]"), Err(RuleSyntaxError::MissingFeatureValue(_))));
    assert!(matches!(lex("[+voice"), Err(RuleSyntaxError::ExpectedClosing(']', _))));
    assert!(matches!(lex("[+?]"), Err(RuleSyntaxError::UnknownCharacter('?', _))));
}

#[test]
fn unknown_feature_position_is_the_name() {
    match lex("V:[+bogus]") {
        Err(RuleSyntaxError::UnknownFeature(p)) => {
            assert_eq!((p.start, p.end), (4, 9));
        }
        other => panic!("unexpected {other:?}"),
    }
}

#[test]
fn whitespace_is_dropped() {
    assert_eq!(lex("  \t ").unwrap().len(), 0);
    assert_eq!(kinds(" p   >e "), vec![TokenKind::Ipa, TokenKind::GreaterThan, TokenKind::Ipa]);
}

#[test]
fn feature_names_are_case_insensitive() {
    assert!(lex("[- PHR]").is_ok());
    assert!(lex("[+VOICE]").is_ok());
    assert!(matches!(lex("[+Voice]"), Err(RuleSyntaxError::UnknownFeature(_))));
    assert!(lex("[-αPLACE]").is_ok());
}

#[test]
fn lexing_drops_only_whitespace() {
    let line = "  {p, t} >  [+voi,  -son] / #_ ";
    let cs = str_chars(line);
    let toks = lex_line(&cs, 0, 0).unwrap();
    let mut covered = vec![false; cs.len()];
    for t in &toks {
        assert_eq!(t.ch, cs[t.start]);
        for c in covered.iter_mut().take(t.end).skip(t.start) {
            *c = true;
        }
    }
    for (i, c) in cs.iter().enumerate() {
        if !covered[i] {
            assert!(c.is_whitespace(), "{i} {c}");
        }
    }
    assert_eq!(toks[0].start, 2);
    assert_eq!(toks.last().unwrap().end, cs.len() - 1);
}
