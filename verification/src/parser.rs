use vstd::prelude::*;

use crate::error::{Position, RuleSyntaxError};
use crate::lexer::{pos, Token, TokenKind};
use crate::rule::{
    contains_kind, env_has_extl, env_item_has_extl, envs_view, has_kind, items2_view, rule_wf, Env,
    EnvItem, EnvModel, ParseElement, ParseItem, Rule, RuleModel, RulePart,
};

verus! {

/// The field of a rule that is being read.
#[derive(Debug, Clone, Copy, PartialEq, Eq, Structural)]
pub enum Sect {
    Input,
    Output,
    Env,
}

/// What a term stands inside.
#[derive(Debug, Clone, Copy, PartialEq, Eq, Structural)]
pub enum Nest {
    TopLevel,
    InSet,
    InStruct,
    InOpt,
}

/// The position of token `i`, or the end of the line when there is none.
pub open spec fn tpos(t: Seq<Token>, i: int, g: usize, l: usize) -> Position {
    if 0 <= i < t.len() {
        pos(g, l, t[i].start as int, t[i].end as int)
    } else if t.len() > 0 {
        pos(g, l, t.last().end as int, t.last().end as int)
    } else {
        pos(g, l, 0, 0)
    }
}

pub open spec fn is_kind(t: Seq<Token>, i: int, k: TokenKind) -> bool {
    0 <= i < t.len() && t[i].kind == k
}

pub open spec fn item(k: ParseElement, t: Seq<Token>, i: int, g: usize, l: usize) -> ParseItem {
    ParseItem { kind: k, negated: false, position: tpos(t, i, g, l) }
}

/// An item sequence marked as negated: its first and its last item.
pub open spec fn negate(s: Seq<ParseItem>) -> Seq<ParseItem> {
    if s.len() == 0 {
        s
    } else {
        let f = s[0];
        let s1 = s.update(0, ParseItem { kind: f.kind, negated: true, position: f.position });
        let z = s1[s.len() - 1];
        s1.update(s.len() - 1, ParseItem { kind: z.kind, negated: true, position: z.position })
    }
}

/// What may follow a term at `j`: modifiers `:[..]` where `mods` holds, then
/// a label `=n` where `label` holds. Gives the index after them.
pub open spec fn suffix(t: Seq<Token>, j: int, mods: bool, label: bool, g: usize, l: usize) -> Result<
    int,
    RuleSyntaxError,
> {
    let j2 = if mods && is_kind(t, j, TokenKind::Colon) {
        if is_kind(t, j + 1, TokenKind::Matrix) {
            Ok(j + 2)
        } else {
            Err(RuleSyntaxError::ExpectedMatrix(tpos(t, j + 1, g, l)))
        }
    } else {
        Ok(j)
    };
    match j2 {
        Err(e) => Err(e),
        Ok(k) => if label && is_kind(t, k, TokenKind::Equals) {
            if is_kind(t, k + 1, TokenKind::Number) {
                Ok(k + 2)
            } else {
                Err(RuleSyntaxError::ExpectedNumber(tpos(t, k + 1, g, l)))
            }
        } else {
            Ok(k)
        },
    }
}

/// A single item followed by its suffix.
pub open spec fn single(
    k: ParseElement,
    t: Seq<Token>,
    i: int,
    mods: bool,
    label: bool,
    g: usize,
    l: usize,
) -> Result<Option<(Seq<ParseItem>, int)>, RuleSyntaxError> {
    match suffix(t, i + 1, mods, label, g, l) {
        Ok(j) => Ok(Some((seq![item(k, t, i, g, l)], j))),
        Err(e) => Err(e),
    }
}

/// Whether the token at `i` starts something that `-` may negate.
pub open spec fn negatable(t: Seq<Token>, i: int) -> bool {
    is_kind(t, i, TokenKind::Ipa) || is_kind(t, i, TokenKind::Group) || is_kind(
        t,
        i,
        TokenKind::Matrix,
    ) || is_kind(t, i, TokenKind::LeftCurly) || is_kind(t, i, TokenKind::LessThan) || is_kind(
        t,
        i,
        TokenKind::LeftAngle,
    ) || is_kind(t, i, TokenKind::Number) || is_kind(t, i, TokenKind::Syllable)
}

/// An optional that holds only an ellipsis, `(..)`, which may stand anywhere.
pub open spec fn lazy_ellipsis(t: Seq<Token>, i: int) -> bool {
    is_kind(t, i + 1, TokenKind::Ellipsis) && is_kind(t, i + 2, TokenKind::RightBracket)
}

/// The term that starts at token `i`, in field `sec`, inside `nest`: its items
/// and the index after it; `None` when the token starts no term there.
pub open spec fn term(t: Seq<Token>, i: int, sec: Sect, nest: Nest, g: usize, l: usize) -> Result<
    Option<(Seq<ParseItem>, int)>,
    RuleSyntaxError,
>
    decreases t.len() - i, 1int,
{
    if i < 0 || i >= t.len() {
        Ok(None)
    } else {
        let label = sec != Sect::Output;
        match t[i].kind {
            TokenKind::Ipa => single(ParseElement::Ipa, t, i, true, label, g, l),
            TokenKind::Group => single(ParseElement::Group, t, i, true, label, g, l),
            TokenKind::Matrix => single(ParseElement::Matrix, t, i, false, label, g, l),
            TokenKind::Number => single(ParseElement::Reference, t, i, true, false, g, l),
            TokenKind::Syllable => single(ParseElement::Syllable, t, i, true, label, g, l),
            TokenKind::SyllBoundary => Ok(Some((seq![item(ParseElement::SyllBound, t, i, g, l)], i + 1))),
            TokenKind::WordBoundary => if sec == Sect::Input {
                Err(RuleSyntaxError::WordBoundLoc(tpos(t, i, g, l)))
            } else if sec == Sect::Env {
                Ok(Some((seq![item(ParseElement::WordBound, t, i, g, l)], i + 1)))
            } else {
                Ok(None)
            },
            TokenKind::ExtlBoundary => if sec != Sect::Output {
                Ok(Some((seq![item(ParseElement::ExtlBound, t, i, g, l)], i + 1)))
            } else {
                Ok(None)
            },
            TokenKind::Ellipsis => Ok(Some((seq![item(ParseElement::Ellipsis, t, i, g, l)], i + 1))),
            TokenKind::EmptySet => if sec != Sect::Env && nest == Nest::TopLevel {
                Ok(Some((seq![item(ParseElement::EmptySet, t, i, g, l)], i + 1)))
            } else {
                Ok(None)
            },
            TokenKind::Ampersand => if sec == Sect::Output && nest == Nest::TopLevel {
                Ok(Some((seq![item(ParseElement::Metathesis, t, i, g, l)], i + 1)))
            } else {
                Ok(None)
            },
            TokenKind::Underline => if sec == Sect::Env && (nest == Nest::TopLevel || nest
                == Nest::InStruct) {
                Ok(Some((seq![item(ParseElement::Underline, t, i, g, l)], i + 1)))
            } else {
                Ok(None)
            },
            TokenKind::UnderlineComma => if sec == Sect::Env && (nest == Nest::TopLevel || nest
                == Nest::InStruct) {
                Ok(
                    Some(
                        (
                            seq![
                                item(ParseElement::Underline, t, i, g, l),
                                item(ParseElement::Distance, t, i, g, l),
                            ],
                            i + 1,
                        ),
                    ),
                )
            } else {
                Ok(None)
            },
            TokenKind::Minus => if sec == Sect::Output {
                Err(RuleSyntaxError::BadNegationOutput(tpos(t, i, g, l)))
            } else if negatable(t, i + 1) {
                match term(t, i + 1, sec, nest, g, l) {
                    Ok(Some((its, j))) => Ok(Some((negate(its), j))),
                    Ok(None) => Err(RuleSyntaxError::ExpectedSegment(tpos(t, i + 1, g, l))),
                    Err(e) => Err(e),
                }
            } else {
                Err(RuleSyntaxError::ExpectedSegment(tpos(t, i + 1, g, l)))
            },
            TokenKind::LeftCurly => match set_body(t, i + 1, sec, true, g, l) {
                Err(e) => Err(e),
                Ok((body, j)) => match suffix(t, j, true, label, g, l) {
                    Err(e) => Err(e),
                    Ok(k) => Ok(Some((seq![item(ParseElement::SetStart, t, i, g, l)] + body, k))),
                },
            },
            TokenKind::LessThan => structure(t, i, sec, label, g, l),
            TokenKind::LeftAngle => structure(t, i, sec, label, g, l),
            TokenKind::LeftBracket => if !(sec == Sect::Env || nest == Nest::InStruct || lazy_ellipsis(
                t,
                i,
            )) {
                Err(RuleSyntaxError::OptLocError(tpos(t, i, g, l)))
            } else {
                match term_seq(t, i + 1, sec, Nest::InOpt, g, l) {
                    Err(e) => Err(e),
                    Ok((c, j)) => {
                        match opt_bounds(t, j, g, l) {
                            Err(e) => Err(e),
                            Ok(j2) => if is_kind(t, j2, TokenKind::RightBracket) {
                                Ok(
                                    Some(
                                        (
                                            seq![item(ParseElement::OptStart, t, i, g, l)] + c
                                                + seq![item(ParseElement::OptEnd, t, j2, g, l)],
                                            j2 + 1,
                                        ),
                                    ),
                                )
                            } else {
                                Err(RuleSyntaxError::ExpectedClosing(')', tpos(t, j2, g, l)))
                            },
                        }
                    },
                }
            },
            _ => Ok(None),
        }
    }
}

/// The bounds `, n` or `, n:` or `, n:m` of an optional, if any.
pub open spec fn opt_bounds(t: Seq<Token>, j: int, g: usize, l: usize) -> Result<int, RuleSyntaxError> {
    if is_kind(t, j, TokenKind::Comma) {
        if is_kind(t, j + 1, TokenKind::Number) {
            if is_kind(t, j + 2, TokenKind::Colon) {
                if is_kind(t, j + 3, TokenKind::Number) {
                    Ok(j + 4)
                } else {
                    Ok(j + 3)
                }
            } else {
                Ok(j + 2)
            }
        } else {
            Err(RuleSyntaxError::ExpectedNumber(tpos(t, j + 1, g, l)))
        }
    } else {
        Ok(j)
    }
}

/// A structure `<..>` or `⟨..⟩` whose opening bracket is token `i`.
pub open spec fn structure(t: Seq<Token>, i: int, sec: Sect, label: bool, g: usize, l: usize) -> Result<
    Option<(Seq<ParseItem>, int)>,
    RuleSyntaxError,
>
    decreases t.len() - i, 0int,
{
    if i < 0 || i >= t.len() {
        Ok(None)
    } else {
        match term_seq(t, i + 1, sec, Nest::InStruct, g, l) {
            Err(e) => Err(e),
            Ok((c, j)) => if is_kind(t, j, TokenKind::GreaterThan) || is_kind(t, j, TokenKind::RightAngle) {
                match suffix(t, j + 1, true, label, g, l) {
                    Err(e) => Err(e),
                    Ok(k) => Ok(
                        Some(
                            (
                                seq![item(ParseElement::StructStart, t, i, g, l)] + c + seq![
                                    item(ParseElement::StructEnd, t, j, g, l),
                                ],
                                k,
                            ),
                        ),
                    ),
                }
            } else {
                Err(RuleSyntaxError::ExpectedClosing('>', tpos(t, j, g, l)))
            },
        }
    }
}

/// The elements of a set from token `j` on, each a sequence of terms, parted
/// by commas (a last comma may stand before the `}`), up to and with `}`: the
/// items after the set's start, and the index after the `}`. `first` holds for
/// the first element.
pub open spec fn set_body(t: Seq<Token>, j: int, sec: Sect, first: bool, g: usize, l: usize) -> Result<
    (Seq<ParseItem>, int),
    RuleSyntaxError,
>
    decreases t.len() - j, 3int,
{
    if j < 0 || j > t.len() {
        Err(RuleSyntaxError::ExpectedSegment(tpos(t, j, g, l)))
    } else {
        match term_seq(t, j, sec, Nest::InSet, g, l) {
            Err(e) => Err(e),
            Ok((its, k)) => if its.len() == 0 {
                if !first && is_kind(t, k, TokenKind::RightCurly) {
                    Ok((seq![item(ParseElement::SetEnd, t, k, g, l)], k + 1))
                } else {
                    Err(RuleSyntaxError::ExpectedSegment(tpos(t, k, g, l)))
                }
            } else if j < k <= t.len() {
                if is_kind(t, k, TokenKind::Comma) {
                    match set_body(t, k + 1, sec, false, g, l) {
                        Ok((rest, m)) => Ok(
                            (its + seq![item(ParseElement::SetSep, t, k, g, l)] + rest, m),
                        ),
                        Err(e) => Err(e),
                    }
                } else if is_kind(t, k, TokenKind::RightCurly) {
                    Ok((its + seq![item(ParseElement::SetEnd, t, k, g, l)], k + 1))
                } else {
                    Err(RuleSyntaxError::ExpectedClosing('}', tpos(t, k, g, l)))
                }
            } else {
                Err(RuleSyntaxError::ExpectedSegment(tpos(t, j, g, l)))
            },
        }
    }
}

/// The terms from token `i` on, as many as there are: their items and the
/// index of the first token that starts none.
pub open spec fn term_seq(t: Seq<Token>, i: int, sec: Sect, nest: Nest, g: usize, l: usize) -> Result<
    (Seq<ParseItem>, int),
    RuleSyntaxError,
>
    decreases t.len() - i, 2int,
{
    if i < 0 || i > t.len() {
        Ok((Seq::empty(), i))
    } else {
        match term(t, i, sec, nest, g, l) {
            Err(e) => Err(e),
            Ok(None) => Ok((Seq::empty(), i)),
            Ok(Some((its, j))) => if i < j <= t.len() {
                match term_seq(t, j, sec, nest, g, l) {
                    Ok((rest, k)) => Ok((its + rest, k)),
                    Err(e) => Err(e),
                }
            } else {
                Ok((its, j))
            },
        }
    }
}


/// The arrow between input and output: `>`, `->`, `=>`, `→`, or `~`/`~>`,
/// which makes the rule propagate right to left.
pub open spec fn is_arrow(t: Seq<Token>, j: int) -> bool {
    is_kind(t, j, TokenKind::GreaterThan) || is_kind(t, j, TokenKind::Arrow) || is_kind(
        t,
        j,
        TokenKind::ReverseArrow,
    )
}

/// The error for a field that holds nothing.
pub open spec fn empty_error(sec: Sect, p: Position) -> RuleSyntaxError {
    if sec == Sect::Input {
        RuleSyntaxError::EmptyInput(p)
    } else {
        RuleSyntaxError::EmptyOutput(p)
    }
}

/// The comma-parted alternatives of an input (or an output) from token `i` on,
/// each a nonempty sequence of terms; and the index of the token after them.
pub open spec fn alt_list(t: Seq<Token>, i: int, sec: Sect, g: usize, l: usize) -> Result<
    (Seq<Seq<ParseItem>>, int),
    RuleSyntaxError,
>
    decreases t.len() - i,
{
    match term_seq(t, i, sec, Nest::TopLevel, g, l) {
        Err(e) => Err(e),
        Ok((its, j)) => if its.len() == 0 {
            if 0 <= j < t.len() {
                Err(RuleSyntaxError::UnknownCharacter(t[j].ch, tpos(t, j, g, l)))
            } else {
                Err(empty_error(sec, tpos(t, j, g, l)))
            }
        } else if is_kind(t, j, TokenKind::Comma) && i < j {
            match alt_list(t, j + 1, sec, g, l) {
                Ok((rest, k)) => Ok((seq![its] + rest, k)),
                Err(e) => Err(e),
            }
        } else {
            Ok((seq![its], j))
        },
    }
}

/// How many items of kind `k` the sequence holds.
pub open spec fn count_kind(s: Seq<ParseItem>, k: ParseElement) -> nat
    decreases s.len(),
{
    if s.len() == 0 {
        0
    } else {
        count_kind(s.drop_last(), k) + if s.last().kind == k {
            1nat
        } else {
            0nat
        }
    }
}

/// The index of the first item of kind `k`.
pub open spec fn first_index(s: Seq<ParseItem>, k: ParseElement) -> int
    decreases s.len(),
{
    if s.len() == 0 {
        0
    } else if s[0].kind == k {
        0
    } else {
        1 + first_index(s.drop_first(), k)
    }
}

/// One environment from token `i` on: terms with exactly one `_`, which
/// parts what stands before the target from what stands after it.
pub open spec fn env_one(t: Seq<Token>, i: int, g: usize, l: usize) -> Result<
    (EnvModel, int),
    RuleSyntaxError,
> {
    match term_seq(t, i, Sect::Env, Nest::TopLevel, g, l) {
        Err(e) => Err(e),
        Ok((its, j)) => {
            let n = count_kind(its, ParseElement::Underline);
            if n == 0 {
                Err(RuleSyntaxError::ExpectedUnderline(tpos(t, i, g, l)))
            } else if n > 1 {
                Err(RuleSyntaxError::TooManyUnderlines(tpos(t, i, g, l)))
            } else {
                let u = first_index(its, ParseElement::Underline);
                Ok((EnvModel { before: its.take(u), after: its.skip(u + 1) }, j))
            }
        },
    }
}

/// The comma-parted environments of an environment set from token `i` on.
pub open spec fn env_set(t: Seq<Token>, i: int, g: usize, l: usize) -> Result<
    (Seq<EnvModel>, int),
    RuleSyntaxError,
>
    decreases t.len() - i,
{
    match env_one(t, i, g, l) {
        Err(e) => Err(e),
        Ok((e, j)) => if is_kind(t, j, TokenKind::Comma) && i < j {
            match env_set(t, j + 1, g, l) {
                Ok((rest, k)) => Ok((seq![e] + rest, k)),
                Err(x) => Err(x),
            }
        } else {
            Ok((seq![e], j))
        },
    }
}

/// One environment field from token `i` on: a single environment, or a set of
/// alternative environments `:{ .., .. }:`.
pub open spec fn env_item(t: Seq<Token>, i: int, g: usize, l: usize) -> Result<
    (Seq<EnvModel>, int),
    RuleSyntaxError,
> {
    if is_kind(t, i, TokenKind::Colon) && is_kind(t, i + 1, TokenKind::LeftCurly) {
        match env_set(t, i + 2, g, l) {
            Err(e) => Err(e),
            Ok((es, j)) => if is_kind(t, j, TokenKind::RightCurly) && is_kind(
                t,
                j + 1,
                TokenKind::Colon,
            ) {
                Ok((es, j + 2))
            } else {
                Err(RuleSyntaxError::ExpectedClosing('}', tpos(t, j, g, l)))
            },
        }
    } else {
        match env_one(t, i, g, l) {
            Err(e) => Err(e),
            Ok((e, j)) => Ok((seq![e], j)),
        }
    }
}

/// The comma-parted environment fields from token `i` on, one per subrule of
/// a condensed rule.
pub open spec fn env_list(t: Seq<Token>, i: int, g: usize, l: usize) -> Result<
    (Seq<Seq<EnvModel>>, int),
    RuleSyntaxError,
>
    decreases t.len() - i,
{
    match env_item(t, i, g, l) {
        Err(e) => Err(e),
        Ok((e, j)) => if is_kind(t, j, TokenKind::Comma) && i < j {
            match env_list(t, j + 1, g, l) {
                Ok((rest, k)) => Ok((seq![e] + rest, k)),
                Err(x) => Err(x),
            }
        } else {
            Ok((seq![e], j))
        },
    }
}

/// The context after a `/` at token `k`, if there is one. A `/` directly
/// followed by an exception marker leaves the context empty.
pub open spec fn context_part(t: Seq<Token>, k: int, g: usize, l: usize) -> Result<
    (Seq<Seq<EnvModel>>, int),
    RuleSyntaxError,
> {
    if is_kind(t, k, TokenKind::Slash) {
        if k + 1 >= t.len() {
            Err(RuleSyntaxError::EmptyEnv(tpos(t, k, g, l)))
        } else if is_kind(t, k + 1, TokenKind::DoubleSlash) || is_kind(t, k + 1, TokenKind::Pipe) {
            Ok((Seq::empty(), k + 1))
        } else {
            env_list(t, k + 1, g, l)
        }
    } else {
        Ok((Seq::empty(), k))
    }
}

/// The exception after a `|` or `//` at token `k`, if there is one.
pub open spec fn except_part(t: Seq<Token>, k: int, g: usize, l: usize) -> Result<
    (Seq<Seq<EnvModel>>, int),
    RuleSyntaxError,
> {
    if is_kind(t, k, TokenKind::Pipe) || is_kind(t, k, TokenKind::DoubleSlash) {
        env_list(t, k + 1, g, l)
    } else {
        Ok((Seq::empty(), k))
    }
}

pub open spec fn alts_have_extl(s: Seq<Seq<ParseItem>>) -> bool {
    exists|k: int| 0 <= k < s.len() && contains_kind(#[trigger] s[k], ParseElement::ExtlBound)
}

pub open spec fn items_have_extl(s: Seq<Seq<EnvModel>>) -> bool {
    exists|k: int| 0 <= k < s.len() && #[trigger] env_item_has_extl(s[k])
}

/// A whole rule: input, arrow, output, then an optional context and an
/// optional exception, and nothing after. A line with no tokens holds no rule.
pub open spec fn parse_rule(t: Seq<Token>, g: usize, l: usize) -> Result<Option<RuleModel>, RuleSyntaxError> {
    if t.len() == 0 {
        Ok(None)
    } else {
        match alt_list(t, 0, Sect::Input, g, l) {
            Err(e) => Err(e),
            Ok((inp, j)) => if !is_arrow(t, j) {
                Err(RuleSyntaxError::ExpectedArrow(tpos(t, j, g, l)))
            } else {
                match alt_list(t, j + 1, Sect::Output, g, l) {
                    Err(e) => Err(e),
                    Ok((out, k)) => match context_part(t, k, g, l) {
                        Err(e) => Err(e),
                        Ok((ctx, k2)) => match except_part(t, k2, g, l) {
                            Err(e) => Err(e),
                            Ok((exc, m)) => if m < t.len() {
                                Err(RuleSyntaxError::ExpectedEndLine(tpos(t, m, g, l)))
                            } else {
                                Ok(
                                    Some(
                                        RuleModel {
                                            input: inp,
                                            output: out,
                                            context: ctx,
                                            except: exc,
                                            prop_rev: is_kind(t, j, TokenKind::ReverseArrow),
                                            cross_bound_inp: alts_have_extl(inp),
                                            cross_bound_env: items_have_extl(ctx)
                                                || items_have_extl(exc),
                                        },
                                    ),
                                )
                            },
                        },
                    },
                }
            },
        }
    }
}

/// Where a field of the given part ends, read from the first token.
pub open spec fn field_end(part: RulePart, t: Seq<Token>, g: usize, l: usize) -> Result<int, RuleSyntaxError> {
    match part {
        RulePart::Input => match alt_list(t, 0, Sect::Input, g, l) {
            Ok((_, j)) => Ok(j),
            Err(e) => Err(e),
        },
        RulePart::Output => match alt_list(t, 0, Sect::Output, g, l) {
            Ok((_, j)) => Ok(j),
            Err(e) => Err(e),
        },
        _ => match env_list(t, 0, g, l) {
            Ok((_, j)) => Ok(j),
            Err(e) => Err(e),
        },
    }
}

/// A single field of a rule: the whole token line must be that field.
pub open spec fn parse_field(part: RulePart, t: Seq<Token>, g: usize, l: usize) -> Result<(), RuleSyntaxError> {
    match field_end(part, t, g, l) {
        Err(e) => Err(e),
        Ok(j) => if j < t.len() {
            Err(RuleSyntaxError::ExpectedEndLine(tpos(t, j, g, l)))
        } else {
            Ok(())
        },
    }
}


pub open spec fn term_view(r: Result<Option<(Vec<ParseItem>, usize)>, RuleSyntaxError>) -> Result<
    Option<(Seq<ParseItem>, int)>,
    RuleSyntaxError,
> {
    match r {
        Ok(Some((v, j))) => Ok(Some((v@, j as int))),
        Ok(None) => Ok(None),
        Err(e) => Err(e),
    }
}

pub open spec fn seq_view(r: Result<(Vec<ParseItem>, usize), RuleSyntaxError>) -> Result<
    (Seq<ParseItem>, int),
    RuleSyntaxError,
> {
    match r {
        Ok((v, j)) => Ok((v@, j as int)),
        Err(e) => Err(e),
    }
}

pub open spec fn idx_view(r: Result<usize, RuleSyntaxError>) -> Result<int, RuleSyntaxError> {
    match r {
        Ok(j) => Ok(j as int),
        Err(e) => Err(e),
    }
}

/// Reads the tokens of one line of a rule group.
pub struct Parser {
    pub tokens: Vec<Token>,
    pub group: usize,
    pub line: usize,
}

impl Parser {
    pub fn new(tokens: Vec<Token>, group: usize, line: usize) -> (p: Parser)
        ensures
            p.tokens@ == tokens@,
            p.group == group,
            p.line == line,
    {
        Parser { tokens, group, line }
    }

    fn is_kind(&self, i: usize, k: TokenKind) -> (r: bool)
        ensures
            r == is_kind(self.tokens@, i as int, k),
    {
        i < self.tokens.len() && self.tokens[i].kind == k
    }

    fn tpos(&self, i: usize) -> (p: Position)
        ensures
            p == tpos(self.tokens@, i as int, self.group, self.line),
    {
        let n = self.tokens.len();
        if i < n {
            Position {
                group: self.group,
                line: self.line,
                start: self.tokens[i].start,
                end: self.tokens[i].end,
            }
        } else if n > 0 {
            Position {
                group: self.group,
                line: self.line,
                start: self.tokens[n - 1].end,
                end: self.tokens[n - 1].end,
            }
        } else {
            Position { group: self.group, line: self.line, start: 0, end: 0 }
        }
    }

    fn item(&self, k: ParseElement, i: usize) -> (r: ParseItem)
        ensures
            r == item(k, self.tokens@, i as int, self.group, self.line),
    {
        ParseItem { kind: k, negated: false, position: self.tpos(i) }
    }

    fn suffix(&self, j: usize, mods: bool, label: bool) -> (res: Result<usize, RuleSyntaxError>)
        requires
            j <= self.tokens.len(),
        ensures
            idx_view(res) == suffix(self.tokens@, j as int, mods, label, self.group, self.line),
            res matches Ok(k) ==> j <= k <= self.tokens.len(),
    {
        let k = if mods && self.is_kind(j, TokenKind::Colon) {
            if self.is_kind(j + 1, TokenKind::Matrix) {
                j + 2
            } else {
                return Err(RuleSyntaxError::ExpectedMatrix(self.tpos(j + 1)));
            }
        } else {
            j
        };
        if label && self.is_kind(k, TokenKind::Equals) {
            if self.is_kind(k + 1, TokenKind::Number) {
                Ok(k + 2)
            } else {
                Err(RuleSyntaxError::ExpectedNumber(self.tpos(k + 1)))
            }
        } else {
            Ok(k)
        }
    }

    fn single(&self, k: ParseElement, i: usize, mods: bool, label: bool) -> (res: Result<
        Option<(Vec<ParseItem>, usize)>,
        RuleSyntaxError,
    >)
        requires
            i < self.tokens.len(),
        ensures
            term_view(res) == single(k, self.tokens@, i as int, mods, label, self.group, self.line),
            res matches Ok(Some((_, j))) ==> i < j <= self.tokens.len(),
    {
        match self.suffix(i + 1, mods, label) {
            Ok(j) => {
                let mut v: Vec<ParseItem> = Vec::new();
                v.push(self.item(k, i));
                proof {
                    assert(v@ =~= seq![item(k, self.tokens@, i as int, self.group, self.line)]);
                }
                Ok(Some((v, j)))
            },
            Err(e) => Err(e),
        }
    }

    fn one(&self, k: ParseElement, i: usize) -> (res: Result<
        Option<(Vec<ParseItem>, usize)>,
        RuleSyntaxError,
    >)
        requires
            i < self.tokens.len(),
        ensures
            term_view(res) == Ok::<Option<(Seq<ParseItem>, int)>, RuleSyntaxError>(
                Some((seq![item(k, self.tokens@, i as int, self.group, self.line)], i + 1)),
            ),
    {
        let mut v: Vec<ParseItem> = Vec::new();
        v.push(self.item(k, i));
        proof {
            assert(v@ =~= seq![item(k, self.tokens@, i as int, self.group, self.line)]);
        }
        Ok(Some((v, i + 1)))
    }

    fn negatable(&self, i: usize) -> (r: bool)
        ensures
            r == negatable(self.tokens@, i as int),
    {
        self.is_kind(i, TokenKind::Ipa) || self.is_kind(i, TokenKind::Group) || self.is_kind(
            i,
            TokenKind::Matrix,
        ) || self.is_kind(i, TokenKind::LeftCurly) || self.is_kind(i, TokenKind::LessThan)
            || self.is_kind(i, TokenKind::LeftAngle) || self.is_kind(i, TokenKind::Number)
            || self.is_kind(i, TokenKind::Syllable)
    }

    fn lazy_ellipsis(&self, i: usize) -> (r: bool)
        requires
            i < self.tokens.len(),
        ensures
            r == lazy_ellipsis(self.tokens@, i as int),
    {
        self.is_kind(i + 1, TokenKind::Ellipsis) && self.is_kind(i + 2, TokenKind::RightBracket)
    }

    fn term(&self, i: usize, sec: Sect, nest: Nest) -> (res: Result<
        Option<(Vec<ParseItem>, usize)>,
        RuleSyntaxError,
    >)
        requires
            i <= self.tokens.len(),
        ensures
            term_view(res) == term(self.tokens@, i as int, sec, nest, self.group, self.line),
            res matches Ok(Some((_, j))) ==> i < j <= self.tokens.len(),
        decreases self.tokens.len() - i, 1int,
    {
        if i >= self.tokens.len() {
            return Ok(None);
        }
        let label = sec != Sect::Output;
        match self.tokens[i].kind {
            TokenKind::Ipa => self.single(ParseElement::Ipa, i, true, label),
            TokenKind::Group => self.single(ParseElement::Group, i, true, label),
            TokenKind::Matrix => self.single(ParseElement::Matrix, i, false, label),
            TokenKind::Number => self.single(ParseElement::Reference, i, true, false),
            TokenKind::Syllable => self.single(ParseElement::Syllable, i, true, label),
            TokenKind::SyllBoundary => self.one(ParseElement::SyllBound, i),
            TokenKind::WordBoundary => if sec == Sect::Input {
                Err(RuleSyntaxError::WordBoundLoc(self.tpos(i)))
            } else if sec == Sect::Env {
                self.one(ParseElement::WordBound, i)
            } else {
                Ok(None)
            },
            TokenKind::ExtlBoundary => if sec != Sect::Output {
                self.one(ParseElement::ExtlBound, i)
            } else {
                Ok(None)
            },
            TokenKind::Ellipsis => self.one(ParseElement::Ellipsis, i),
            TokenKind::EmptySet => if sec != Sect::Env && nest == Nest::TopLevel {
                self.one(ParseElement::EmptySet, i)
            } else {
                Ok(None)
            },
            TokenKind::Ampersand => if sec == Sect::Output && nest == Nest::TopLevel {
                self.one(ParseElement::Metathesis, i)
            } else {
                Ok(None)
            },
            TokenKind::Underline => if sec == Sect::Env && (nest == Nest::TopLevel || nest
                == Nest::InStruct) {
                self.one(ParseElement::Underline, i)
            } else {
                Ok(None)
            },
            TokenKind::UnderlineComma => if sec == Sect::Env && (nest == Nest::TopLevel || nest
                == Nest::InStruct) {
                let mut v: Vec<ParseItem> = Vec::new();
                v.push(self.item(ParseElement::Underline, i));
                v.push(self.item(ParseElement::Distance, i));
                proof {
                    assert(v@ =~= seq![
                        item(ParseElement::Underline, self.tokens@, i as int, self.group, self.line),
                        item(ParseElement::Distance, self.tokens@, i as int, self.group, self.line),
                    ]);
                }
                Ok(Some((v, i + 1)))
            } else {
                Ok(None)
            },
            TokenKind::Minus => if sec == Sect::Output {
                Err(RuleSyntaxError::BadNegationOutput(self.tpos(i)))
            } else if self.negatable(i + 1) {
                match self.term(i + 1, sec, nest) {
                    Ok(Some((its, j))) => {
                        let mut v = its;
                        let ghost old_v = v@;
                        if v.len() > 0 {
                            let f = v[0];
                            v.set(0, ParseItem { kind: f.kind, negated: true, position: f.position });
                            let n = v.len() - 1;
                            let z = v[n];
                            v.set(n, ParseItem { kind: z.kind, negated: true, position: z.position });
                        }
                        proof {
                            assert(v@ =~= negate(old_v));
                        }
                        Ok(Some((v, j)))
                    },
                    Ok(None) => Err(RuleSyntaxError::ExpectedSegment(self.tpos(i + 1))),
                    Err(e) => Err(e),
                }
            } else {
                Err(RuleSyntaxError::ExpectedSegment(self.tpos(i + 1)))
            },
            TokenKind::LeftCurly => match self.set_body(i + 1, sec, true) {
                Err(e) => Err(e),
                Ok((body, j)) => match self.suffix(j, true, label) {
                    Err(e) => Err(e),
                    Ok(k) => {
                        let mut v: Vec<ParseItem> = Vec::new();
                        v.push(self.item(ParseElement::SetStart, i));
                        let ghost b = body@;
                        let mut body = body;
                        v.append(&mut body);
                        proof {
                            assert(v@ =~= seq![
                                item(
                                    ParseElement::SetStart,
                                    self.tokens@,
                                    i as int,
                                    self.group,
                                    self.line,
                                ),
                            ] + b);
                        }
                        Ok(Some((v, k)))
                    },
                },
            },
            TokenKind::LessThan => self.structure(i, sec, label),
            TokenKind::LeftAngle => self.structure(i, sec, label),
            TokenKind::LeftBracket => if !(sec == Sect::Env || nest == Nest::InStruct
                || self.lazy_ellipsis(i)) {
                Err(RuleSyntaxError::OptLocError(self.tpos(i)))
            } else {
                match self.term_seq(i + 1, sec, Nest::InOpt) {
                    Err(e) => Err(e),
                    Ok((c, j)) => {
                        match self.opt_bounds(j) {
                            Err(e) => Err(e),
                            Ok(j2) => if self.is_kind(j2, TokenKind::RightBracket) {
                                let mut v: Vec<ParseItem> = Vec::new();
                                v.push(self.item(ParseElement::OptStart, i));
                                let ghost cv = c@;
                                let mut c = c;
                                v.append(&mut c);
                                v.push(self.item(ParseElement::OptEnd, j2));
                                proof {
                                    assert(v@ =~= seq![
                                        item(
                                            ParseElement::OptStart,
                                            self.tokens@,
                                            i as int,
                                            self.group,
                                            self.line,
                                        ),
                                    ] + cv + seq![
                                        item(
                                            ParseElement::OptEnd,
                                            self.tokens@,
                                            j2 as int,
                                            self.group,
                                            self.line,
                                        ),
                                    ]);
                                }
                                Ok(Some((v, j2 + 1)))
                            } else {
                                Err(RuleSyntaxError::ExpectedClosing(')', self.tpos(j2)))
                            },
                        }
                    },
                }
            },
            _ => Ok(None),
        }
    }

    fn opt_bounds(&self, j: usize) -> (res: Result<usize, RuleSyntaxError>)
        requires
            j <= self.tokens.len(),
        ensures
            idx_view(res) == opt_bounds(self.tokens@, j as int, self.group, self.line),
            res matches Ok(k) ==> j <= k <= self.tokens.len(),
    {
        if self.is_kind(j, TokenKind::Comma) {
            if self.is_kind(j + 1, TokenKind::Number) {
                if self.is_kind(j + 2, TokenKind::Colon) {
                    if self.is_kind(j + 3, TokenKind::Number) {
                        Ok(j + 4)
                    } else {
                        Ok(j + 3)
                    }
                } else {
                    Ok(j + 2)
                }
            } else {
                Err(RuleSyntaxError::ExpectedNumber(self.tpos(j + 1)))
            }
        } else {
            Ok(j)
        }
    }

    fn structure(&self, i: usize, sec: Sect, label: bool) -> (res: Result<
        Option<(Vec<ParseItem>, usize)>,
        RuleSyntaxError,
    >)
        requires
            i < self.tokens.len(),
        ensures
            term_view(res) == structure(self.tokens@, i as int, sec, label, self.group, self.line),
            res matches Ok(Some((_, j))) ==> i < j <= self.tokens.len(),
        decreases self.tokens.len() - i, 0int,
    {
        match self.term_seq(i + 1, sec, Nest::InStruct) {
            Err(e) => Err(e),
            Ok((c, j)) => if self.is_kind(j, TokenKind::GreaterThan) || self.is_kind(
                j,
                TokenKind::RightAngle,
            ) {
                match self.suffix(j + 1, true, label) {
                    Err(e) => Err(e),
                    Ok(k) => {
                        let mut v: Vec<ParseItem> = Vec::new();
                        v.push(self.item(ParseElement::StructStart, i));
                        let ghost cv = c@;
                        let mut c = c;
                        v.append(&mut c);
                        v.push(self.item(ParseElement::StructEnd, j));
                        proof {
                            assert(v@ =~= seq![
                                item(
                                    ParseElement::StructStart,
                                    self.tokens@,
                                    i as int,
                                    self.group,
                                    self.line,
                                ),
                            ] + cv + seq![
                                item(
                                    ParseElement::StructEnd,
                                    self.tokens@,
                                    j as int,
                                    self.group,
                                    self.line,
                                ),
                            ]);
                        }
                        Ok(Some((v, k)))
                    },
                }
            } else {
                Err(RuleSyntaxError::ExpectedClosing('>', self.tpos(j)))
            },
        }
    }

    fn set_body(&self, j: usize, sec: Sect, first: bool) -> (res: Result<
        (Vec<ParseItem>, usize),
        RuleSyntaxError,
    >)
        requires
            j <= self.tokens.len(),
        ensures
            seq_view(res) == set_body(self.tokens@, j as int, sec, first, self.group, self.line),
            res matches Ok((_, k)) ==> j < k <= self.tokens.len(),
        decreases self.tokens.len() - j, 3int,
    {
        match self.term_seq(j, sec, Nest::InSet) {
            Err(e) => Err(e),
            Ok((its, k)) => if its.len() == 0 {
                if !first && self.is_kind(k, TokenKind::RightCurly) {
                    let mut v: Vec<ParseItem> = Vec::new();
                    v.push(self.item(ParseElement::SetEnd, k));
                    proof {
                        assert(v@ =~= seq![
                            item(ParseElement::SetEnd, self.tokens@, k as int, self.group, self.line),
                        ]);
                    }
                    Ok((v, k + 1))
                } else {
                    Err(RuleSyntaxError::ExpectedSegment(self.tpos(k)))
                }
            } else if self.is_kind(k, TokenKind::Comma) {
                match self.set_body(k + 1, sec, false) {
                    Ok((rest, m)) => {
                        let mut v = its;
                        let ghost a = v@;
                        let ghost b = rest@;
                        v.push(self.item(ParseElement::SetSep, k));
                        let mut rest = rest;
                        v.append(&mut rest);
                        proof {
                            assert(v@ =~= a + seq![
                                item(ParseElement::SetSep, self.tokens@, k as int, self.group, self.line),
                            ] + b);
                        }
                        Ok((v, m))
                    },
                    Err(e) => Err(e),
                }
            } else if self.is_kind(k, TokenKind::RightCurly) {
                let mut v = its;
                let ghost a = v@;
                v.push(self.item(ParseElement::SetEnd, k));
                proof {
                    assert(v@ =~= a + seq![
                        item(ParseElement::SetEnd, self.tokens@, k as int, self.group, self.line),
                    ]);
                }
                Ok((v, k + 1))
            } else {
                Err(RuleSyntaxError::ExpectedClosing('}', self.tpos(k)))
            },
        }
    }

    fn term_seq(&self, i: usize, sec: Sect, nest: Nest) -> (res: Result<
        (Vec<ParseItem>, usize),
        RuleSyntaxError,
    >)
        requires
            i <= self.tokens.len(),
        ensures
            seq_view(res) == term_seq(self.tokens@, i as int, sec, nest, self.group, self.line),
            res matches Ok((_, k)) ==> i <= k <= self.tokens.len(),
            res matches Ok((v, k)) ==> (v@.len() > 0 ==> i < k),
        decreases self.tokens.len() - i, 2int,
    {
        match self.term(i, sec, nest) {
            Err(e) => Err(e),
            Ok(None) => Ok((Vec::new(), i)),
            Ok(Some((its, j))) => match self.term_seq(j, sec, nest) {
                Ok((rest, k)) => {
                    let mut v = its;
                    let mut rest = rest;
                    v.append(&mut rest);
                    Ok((v, k))
                },
                Err(e) => Err(e),
            },
        }
    }

    fn alt_list(&self, i: usize, sec: Sect) -> (res: Result<(Vec<Vec<ParseItem>>, usize), RuleSyntaxError>)
        requires
            i <= self.tokens.len(),
            sec != Sect::Env,
        ensures
            (match res {
                Ok((v, j)) => alt_list(self.tokens@, i as int, sec, self.group, self.line) == Ok::<
                    (Seq<Seq<ParseItem>>, int),
                    RuleSyntaxError,
                >((items2_view(v@), j as int)) && i < j <= self.tokens.len() && forall|k: int|
                    0 <= k < v@.len() ==> #[trigger] v@[k]@.len() > 0,
                Err(e) => alt_list(self.tokens@, i as int, sec, self.group, self.line) == Err::<
                    (Seq<Seq<ParseItem>>, int),
                    RuleSyntaxError,
                >(e),
            }),
        decreases self.tokens.len() - i,
    {
        match self.term_seq(i, sec, Nest::TopLevel) {
            Err(e) => Err(e),
            Ok((its, j)) => if its.len() == 0 {
                if j < self.tokens.len() {
                    Err(RuleSyntaxError::UnknownCharacter(self.tokens[j].ch, self.tpos(j)))
                } else if sec == Sect::Input {
                    Err(RuleSyntaxError::EmptyInput(self.tpos(j)))
                } else {
                    Err(RuleSyntaxError::EmptyOutput(self.tpos(j)))
                }
            } else {
                if self.is_kind(j, TokenKind::Comma) && i < j {
                    match self.alt_list(j + 1, sec) {
                        Ok((rest, k)) => {
                            let ghost a = its@;
                            let ghost b = rest@;
                            let mut rest = rest;
                            rest.insert(0, its);
                            proof {
                                assert(items2_view(rest@) =~= seq![a] + items2_view(b));
                            }
                            Ok((rest, k))
                        },
                        Err(e) => Err(e),
                    }
                } else {
                    let ghost a = its@;
                    let mut v: Vec<Vec<ParseItem>> = Vec::new();
                    v.push(its);
                    proof {
                        assert(items2_view(v@) =~= seq![a]);
                    }
                    Ok((v, j))
                }
            },
        }
    }

    fn env_one(&self, i: usize) -> (res: Result<(Env, usize), RuleSyntaxError>)
        requires
            i <= self.tokens.len(),
        ensures
            (match res {
                Ok((e, j)) => env_one(self.tokens@, i as int, self.group, self.line) == Ok::<
                    (EnvModel, int),
                    RuleSyntaxError,
                >((e@, j as int)) && i < j <= self.tokens.len(),
                Err(x) => env_one(self.tokens@, i as int, self.group, self.line) == Err::<
                    (EnvModel, int),
                    RuleSyntaxError,
                >(x),
            }),
    {
        match self.term_seq(i, Sect::Env, Nest::TopLevel) {
            Err(e) => Err(e),
            Ok((its, j)) => {
                let n = count_kind_exec(&its, ParseElement::Underline);
                if n == 0 {
                    Err(RuleSyntaxError::ExpectedUnderline(self.tpos(i)))
                } else if n > 1 {
                    Err(RuleSyntaxError::TooManyUnderlines(self.tpos(i)))
                } else {
                    let u = first_index_exec(&its, ParseElement::Underline);
                    proof {
                        lemma_first_index_bound(its@, ParseElement::Underline);
                    }
                    let before = slice_items(&its, 0, u);
                    let after = slice_items(&its, u + 1, its.len());
                    proof {
                        assert(before@ =~= its@.take(u as int));
                        assert(after@ =~= its@.skip(u + 1));
                    }
                    Ok((Env { before, after }, j))
                }
            },
        }
    }

    fn env_set(&self, i: usize) -> (res: Result<(Vec<Env>, usize), RuleSyntaxError>)
        requires
            i <= self.tokens.len(),
        ensures
            (match res {
                Ok((v, j)) => env_set(self.tokens@, i as int, self.group, self.line) == Ok::<
                    (Seq<EnvModel>, int),
                    RuleSyntaxError,
                >((env_seq_view(v@), j as int)) && i < j <= self.tokens.len(),
                Err(x) => env_set(self.tokens@, i as int, self.group, self.line) == Err::<
                    (Seq<EnvModel>, int),
                    RuleSyntaxError,
                >(x),
            }),
        decreases self.tokens.len() - i,
    {
        match self.env_one(i) {
            Err(e) => Err(e),
            Ok((e, j)) => if self.is_kind(j, TokenKind::Comma) && i < j {
                match self.env_set(j + 1) {
                    Ok((rest, k)) => {
                        let ghost a = e@;
                        let ghost b = rest@;
                        let mut rest = rest;
                        rest.insert(0, e);
                        proof {
                            assert(env_seq_view(rest@) =~= seq![a] + env_seq_view(b));
                        }
                        Ok((rest, k))
                    },
                    Err(x) => Err(x),
                }
            } else {
                let ghost a = e@;
                let mut v: Vec<Env> = Vec::new();
                v.push(e);
                proof {
                    assert(env_seq_view(v@) =~= seq![a]);
                }
                Ok((v, j))
            },
        }
    }

    fn env_item(&self, i: usize) -> (res: Result<(EnvItem, usize), RuleSyntaxError>)
        requires
            i <= self.tokens.len(),
        ensures
            (match res {
                Ok((e, j)) => env_item(self.tokens@, i as int, self.group, self.line) == Ok::<
                    (Seq<EnvModel>, int),
                    RuleSyntaxError,
                >((e@, j as int)) && i < j <= self.tokens.len(),
                Err(x) => env_item(self.tokens@, i as int, self.group, self.line) == Err::<
                    (Seq<EnvModel>, int),
                    RuleSyntaxError,
                >(x),
            }),
    {
        if self.is_kind(i, TokenKind::Colon) && self.is_kind(i + 1, TokenKind::LeftCurly) {
            match self.env_set(i + 2) {
                Err(e) => Err(e),
                Ok((es, j)) => if self.is_kind(j, TokenKind::RightCurly) && self.is_kind(
                    j + 1,
                    TokenKind::Colon,
                ) {
                    let item = EnvItem { envs: es };
                    Ok((item, j + 2))
                } else {
                    Err(RuleSyntaxError::ExpectedClosing('}', self.tpos(j)))
                },
            }
        } else {
            match self.env_one(i) {
                Err(e) => Err(e),
                Ok((e, j)) => {
                    let ghost a = e@;
                    let mut envs: Vec<Env> = Vec::new();
                    envs.push(e);
                    let item = EnvItem { envs };
                    proof {
                        assert(item@ =~= seq![a]);
                    }
                    Ok((item, j))
                },
            }
        }
    }

    fn env_list(&self, i: usize) -> (res: Result<(Vec<EnvItem>, usize), RuleSyntaxError>)
        requires
            i <= self.tokens.len(),
        ensures
            (match res {
                Ok((v, j)) => env_list(self.tokens@, i as int, self.group, self.line) == Ok::<
                    (Seq<Seq<EnvModel>>, int),
                    RuleSyntaxError,
                >((envs_view(v@), j as int)) && i < j <= self.tokens.len(),
                Err(x) => env_list(self.tokens@, i as int, self.group, self.line) == Err::<
                    (Seq<Seq<EnvModel>>, int),
                    RuleSyntaxError,
                >(x),
            }),
        decreases self.tokens.len() - i,
    {
        match self.env_item(i) {
            Err(e) => Err(e),
            Ok((e, j)) => if self.is_kind(j, TokenKind::Comma) && i < j {
                match self.env_list(j + 1) {
                    Ok((rest, k)) => {
                        let ghost a = e@;
                        let ghost b = rest@;
                        let mut rest = rest;
                        rest.insert(0, e);
                        proof {
                            assert(envs_view(rest@) =~= seq![a] + envs_view(b));
                        }
                        Ok((rest, k))
                    },
                    Err(x) => Err(x),
                }
            } else {
                let ghost a = e@;
                let mut v: Vec<EnvItem> = Vec::new();
                v.push(e);
                proof {
                    assert(envs_view(v@) =~= seq![a]);
                }
                Ok((v, j))
            },
        }
    }

    fn context_part(&self, k: usize) -> (res: Result<(Vec<EnvItem>, usize), RuleSyntaxError>)
        requires
            k <= self.tokens.len(),
        ensures
            (match res {
                Ok((v, j)) => context_part(self.tokens@, k as int, self.group, self.line) == Ok::<
                    (Seq<Seq<EnvModel>>, int),
                    RuleSyntaxError,
                >((envs_view(v@), j as int)) && k <= j <= self.tokens.len(),
                Err(x) => context_part(self.tokens@, k as int, self.group, self.line) == Err::<
                    (Seq<Seq<EnvModel>>, int),
                    RuleSyntaxError,
                >(x),
            }),
    {
        if self.is_kind(k, TokenKind::Slash) {
            if k + 1 >= self.tokens.len() {
                Err(RuleSyntaxError::EmptyEnv(self.tpos(k)))
            } else if self.is_kind(k + 1, TokenKind::DoubleSlash) || self.is_kind(
                k + 1,
                TokenKind::Pipe,
            ) {
                let v: Vec<EnvItem> = Vec::new();
                proof {
                    assert(envs_view(v@) =~= Seq::<Seq<EnvModel>>::empty());
                }
                Ok((v, k + 1))
            } else {
                self.env_list(k + 1)
            }
        } else {
            let v: Vec<EnvItem> = Vec::new();
            proof {
                assert(envs_view(v@) =~= Seq::<Seq<EnvModel>>::empty());
            }
            Ok((v, k))
        }
    }

    fn except_part(&self, k: usize) -> (res: Result<(Vec<EnvItem>, usize), RuleSyntaxError>)
        requires
            k <= self.tokens.len(),
        ensures
            (match res {
                Ok((v, j)) => except_part(self.tokens@, k as int, self.group, self.line) == Ok::<
                    (Seq<Seq<EnvModel>>, int),
                    RuleSyntaxError,
                >((envs_view(v@), j as int)) && k <= j <= self.tokens.len(),
                Err(x) => except_part(self.tokens@, k as int, self.group, self.line) == Err::<
                    (Seq<Seq<EnvModel>>, int),
                    RuleSyntaxError,
                >(x),
            }),
    {
        if self.is_kind(k, TokenKind::Pipe) || self.is_kind(k, TokenKind::DoubleSlash) {
            self.env_list(k + 1)
        } else {
            let v: Vec<EnvItem> = Vec::new();
            proof {
                assert(envs_view(v@) =~= Seq::<Seq<EnvModel>>::empty());
            }
            Ok((v, k))
        }
    }

    /// Parses the whole line as one rule; a line with no tokens holds none.
    pub fn parse(&self) -> (res: Result<Option<Rule>, RuleSyntaxError>)
        ensures
            (match res {
                Ok(Some(r)) => parse_rule(self.tokens@, self.group, self.line) == Ok::<
                    Option<RuleModel>,
                    RuleSyntaxError,
                >(Some(r@)) && rule_wf(r@),
                Ok(None) => parse_rule(self.tokens@, self.group, self.line) == Ok::<
                    Option<RuleModel>,
                    RuleSyntaxError,
                >(None),
                Err(e) => parse_rule(self.tokens@, self.group, self.line) == Err::<
                    Option<RuleModel>,
                    RuleSyntaxError,
                >(e),
            }),
    {
        if self.tokens.len() == 0 {
            return Ok(None);
        }
        let (inp, j) = match self.alt_list(0, Sect::Input) {
            Ok(x) => x,
            Err(e) => {
                return Err(e);
            },
        };
        if !(self.is_kind(j, TokenKind::GreaterThan) || self.is_kind(j, TokenKind::Arrow)
            || self.is_kind(j, TokenKind::ReverseArrow)) {
            return Err(RuleSyntaxError::ExpectedArrow(self.tpos(j)));
        }
        let (out, k) = match self.alt_list(j + 1, Sect::Output) {
            Ok(x) => x,
            Err(e) => {
                return Err(e);
            },
        };
        let (ctx, k2) = match self.context_part(k) {
            Ok(x) => x,
            Err(e) => {
                return Err(e);
            },
        };
        let (exc, m) = match self.except_part(k2) {
            Ok(x) => x,
            Err(e) => {
                return Err(e);
            },
        };
        if m < self.tokens.len() {
            return Err(RuleSyntaxError::ExpectedEndLine(self.tpos(m)));
        }
        let cross_bound_inp = alts_extl(&inp);
        let cross_bound_env = items_extl(&ctx) || items_extl(&exc);
        let prop_rev = self.is_kind(j, TokenKind::ReverseArrow);
        let r = Rule::new(inp, out, ctx, exc, prop_rev, cross_bound_inp, cross_bound_env);
        Ok(Some(r))
    }

    fn field_end(&self, part: RulePart) -> (res: Result<usize, RuleSyntaxError>)
        ensures
            idx_view(res) == field_end(part, self.tokens@, self.group, self.line),
            res matches Ok(j) ==> j <= self.tokens.len(),
    {
        match part {
            RulePart::Input => match self.alt_list(0, Sect::Input) {
                Ok((_, j)) => Ok(j),
                Err(e) => Err(e),
            },
            RulePart::Output => match self.alt_list(0, Sect::Output) {
                Ok((_, j)) => Ok(j),
                Err(e) => Err(e),
            },
            _ => match self.env_list(0) {
                Ok((_, j)) => Ok(j),
                Err(e) => Err(e),
            },
        }
    }

    /// Parses the whole line as the given field of a rule.
    pub fn validate_field(&self, part: RulePart) -> (res: Result<(), RuleSyntaxError>)
        ensures
            res == parse_field(part, self.tokens@, self.group, self.line),
    {
        match self.field_end(part) {
            Err(e) => Err(e),
            Ok(j) => if j < self.tokens.len() {
                Err(RuleSyntaxError::ExpectedEndLine(self.tpos(j)))
            } else {
                Ok(())
            },
        }
    }
}

/// Whether any alternative crosses a word boundary `##`.
fn alts_extl(v: &Vec<Vec<ParseItem>>) -> (r: bool)
    ensures
        r == alts_have_extl(items2_view(v@)),
{
    let mut i: usize = 0;
    while i < v.len()
        invariant
            i <= v.len(),
            forall|k: int| 0 <= k < i ==> !contains_kind(#[trigger] v@[k]@, ParseElement::ExtlBound),
        decreases v.len() - i,
    {
        if has_kind(&v[i], ParseElement::ExtlBound) {
            assert(contains_kind(items2_view(v@)[i as int], ParseElement::ExtlBound));
            return true;
        }
        i = i + 1;
    }
    assert forall|k: int| 0 <= k < items2_view(v@).len() implies !contains_kind(
        #[trigger] items2_view(v@)[k],
        ParseElement::ExtlBound,
    ) by {
        assert(items2_view(v@)[k] == v@[k]@);
    }
    false
}

/// Whether any environment field crosses a word boundary `##`.
fn items_extl(v: &Vec<EnvItem>) -> (r: bool)
    ensures
        r == items_have_extl(envs_view(v@)),
{
    let mut i: usize = 0;
    while i < v.len()
        invariant
            i <= v.len(),
            forall|k: int| 0 <= k < i ==> !env_item_has_extl(#[trigger] v@[k]@),
        decreases v.len() - i,
    {
        if v[i].contains_external() {
            assert(env_item_has_extl(envs_view(v@)[i as int]));
            return true;
        }
        i = i + 1;
    }
    assert forall|k: int| 0 <= k < envs_view(v@).len() implies !env_item_has_extl(
        #[trigger] envs_view(v@)[k],
    ) by {
        assert(envs_view(v@)[k] == v@[k]@);
    }
    false
}

pub open spec fn env_seq_view(v: Seq<Env>) -> Seq<EnvModel> {
    v.map_values(|e: Env| e@)
}

fn count_kind_exec(v: &Vec<ParseItem>, k: ParseElement) -> (n: usize)
    ensures
        n == count_kind(v@, k),
{
    let mut n: usize = 0;
    let mut i: usize = 0;
    while i < v.len()
        invariant
            i <= v.len(),
            n == count_kind(v@.take(i as int), k),
            n <= i,
        decreases v.len() - i,
    {
        proof {
            assert(v@.take(i + 1).drop_last() =~= v@.take(i as int));
        }
        if v[i].kind == k {
            n = n + 1;
        }
        i = i + 1;
    }
    assert(v@.take(v.len() as int) =~= v@);
    n
}

proof fn lemma_first_index_bound(s: Seq<ParseItem>, k: ParseElement)
    requires
        count_kind(s, k) > 0,
    ensures
        0 <= first_index(s, k) < s.len(),
        s[first_index(s, k)].kind == k,
    decreases s.len(),
{
    if s.len() == 0 {
    } else if s[0].kind == k {
    } else {
        lemma_count_drop_first(s, k);
        lemma_first_index_bound(s.drop_first(), k);
    }
}

proof fn lemma_count_drop_first(s: Seq<ParseItem>, k: ParseElement)
    requires
        s.len() > 0,
    ensures
        count_kind(s, k) == count_kind(s.drop_first(), k) + if s[0].kind == k {
            1nat
        } else {
            0nat
        },
    decreases s.len(),
{
    if s.len() == 1 {
        assert(s.drop_first().len() == 0);
        assert(s.drop_last().len() == 0);
        assert(count_kind(s.drop_last(), k) == 0);
        assert(count_kind(s.drop_first(), k) == 0);
    } else {
        lemma_count_drop_first(s.drop_last(), k);
        assert(s.drop_last().drop_first() =~= s.drop_first().drop_last());
        assert(s.drop_last()[0] == s[0]);
        assert(s.drop_first().last() == s.last());
    }
}

fn first_index_exec(v: &Vec<ParseItem>, k: ParseElement) -> (u: usize)
    requires
        count_kind(v@, k) > 0,
    ensures
        u == first_index(v@, k),
{
    proof {
        lemma_first_index_bound(v@, k);
    }
    let mut i: usize = 0;
    assert(v@.skip(0) =~= v@);
    while i < v.len() && v[i].kind != k
        invariant
            i <= v.len(),
            first_index(v@, k) == i + first_index(v@.skip(i as int), k),
            first_index(v@, k) < v.len(),
        decreases v.len() - i,
    {
        proof {
            assert(v@.skip(i as int).drop_first() =~= v@.skip(i + 1));
        }
        i = i + 1;
    }
    proof {
        if i == v.len() {
            assert(v@.skip(i as int).len() == 0);
        }
    }
    i
}

/// The items `from..to`.
fn slice_items(v: &Vec<ParseItem>, from: usize, to: usize) -> (r: Vec<ParseItem>)
    requires
        from <= to <= v.len(),
    ensures
        r@ == v@.subrange(from as int, to as int),
{
    let mut r: Vec<ParseItem> = Vec::new();
    let mut k = from;
    while k < to
        invariant
            from <= k <= to <= v.len(),
            r@ == v@.subrange(from as int, k as int),
        decreases to - k,
    {
        r.push(v[k]);
        k = k + 1;
        assert(r@ =~= v@.subrange(from as int, k as int));
    }
    r
}

} // verus!
