use vstd::prelude::*;

use crate::error::RuleSyntaxError;
use crate::lexer::{Token, TokenKind};
use crate::parser::{
    alt_list, context_part, count_kind, env_item, env_list, env_one, env_set, except_part, is_arrow,
    is_kind, lazy_ellipsis, negatable, opt_bounds, parse_field, parse_rule, set_body, structure,
    suffix, term, term_seq, tpos, Nest, Sect,
};
use crate::rule::{EnvModel, ParseElement, ParseItem, RulePart};

verus! {

/// The tokens that may follow a field in a whole rule: an arrow, a slash, an
/// exception marker, or nothing.
pub open spec fn is_stop_kind(k: TokenKind) -> bool {
    k == TokenKind::GreaterThan || k == TokenKind::Arrow || k == TokenKind::ReverseArrow || k
        == TokenKind::Slash || k == TokenKind::DoubleSlash || k == TokenKind::Pipe
}

pub open spec fn stop_tok(q: Seq<Token>) -> bool {
    q.len() == 0 || is_stop_kind(q[0].kind)
}

pub open spec fn sh<A>(r: Result<(A, int), RuleSyntaxError>, n: int) -> Result<
    (A, int),
    RuleSyntaxError,
> {
    match r {
        Ok((a, j)) => Ok((a, j + n)),
        Err(e) => Err(e),
    }
}

pub open spec fn sh_idx(r: Result<int, RuleSyntaxError>, n: int) -> Result<int, RuleSyntaxError> {
    match r {
        Ok(j) => Ok(j + n),
        Err(e) => Err(e),
    }
}

pub open spec fn sh_term(r: Result<Option<(Seq<ParseItem>, int)>, RuleSyntaxError>, n: int) -> Result<
    Option<(Seq<ParseItem>, int)>,
    RuleSyntaxError,
> {
    match r {
        Ok(Some((a, j))) => Ok(Some((a, j + n))),
        Ok(None) => Ok(None),
        Err(e) => Err(e),
    }
}

/// How the tokens of `t` stand inside `p + t + q`: each token of `t` is
/// shifted by the length of `p`, and after `t` comes `q`.
proof fn lemma_concat(p: Seq<Token>, t: Seq<Token>, q: Seq<Token>, e: int)
    requires
        e == p.len() + t.len(),
        stop_tok(q),
    ensures
        (p + t + q).len() == p.len() + t.len() + q.len(),
        forall|k: int| 0 <= k < t.len() ==> (p + t + q)[p.len() + k] == #[trigger] t[k],
        forall|k: int, kd: TokenKind|
            0 <= k < t.len() ==> #[trigger] is_kind(t, k, kd) == is_kind(p + t + q, p.len() + k, kd),
        forall|k: int, g: usize, l: usize|
            0 <= k < t.len() ==> #[trigger] tpos(t, k, g, l) == tpos(p + t + q, p.len() + k, g, l),
        forall|kd: TokenKind| #[trigger] is_kind(p + t + q, e, kd) ==> is_stop_kind(kd),
{
    let tt = p + t + q;
    assert forall|k: int| 0 <= k < t.len() implies tt[p.len() + k] == #[trigger] t[k] by {
        assert((p + t)[p.len() + k] == t[k]);
    }
    assert forall|k: int, kd: TokenKind| 0 <= k < t.len() implies #[trigger] is_kind(t, k, kd)
        == is_kind(tt, p.len() + k, kd) by {
        assert((p + t)[p.len() + k] == t[k]);
    }
    assert forall|k: int, g: usize, l: usize| 0 <= k < t.len() implies #[trigger] tpos(t, k, g, l)
        == tpos(tt, p.len() + k, g, l) by {
        assert((p + t)[p.len() + k] == t[k]);
    }
    if q.len() > 0 {
        assert(tt[e] == q[0]);
    }
}

/// Where `k` is inside `t` or just after it, a token kind that may not follow
/// a field is found at `p.len() + k` of `p + t + q` just when it is at `k` of `t`.
proof fn lemma_kind_at(p: Seq<Token>, t: Seq<Token>, q: Seq<Token>, k: int, kd: TokenKind)
    requires
        stop_tok(q),
        0 <= k <= t.len(),
        k < t.len() || !is_stop_kind(kd),
    ensures
        is_kind(p + t + q, p.len() + k, kd) == is_kind(t, k, kd),
{
    lemma_concat(p, t, q, (p.len() + t.len()) as int);
}

proof fn lemma_suffix(
    p: Seq<Token>,
    t: Seq<Token>,
    q: Seq<Token>,
    j: int,
    mods: bool,
    label: bool,
    g: usize,
    l: usize,
)
    requires
        stop_tok(q),
        0 <= j <= t.len(),
        suffix(t, j, mods, label, g, l) is Ok,
    ensures
        suffix(p + t + q, p.len() + j, mods, label, g, l) == sh_idx(
            suffix(t, j, mods, label, g, l),
            p.len() as int,
        ),
        suffix(t, j, mods, label, g, l) matches Ok(k) ==> j <= k <= t.len(),
{
    lemma_concat(p, t, q, (p.len() + t.len()) as int);
}

proof fn lemma_opt_bounds(p: Seq<Token>, t: Seq<Token>, q: Seq<Token>, j: int, g: usize, l: usize)
    requires
        stop_tok(q),
        0 <= j <= t.len(),
        opt_bounds(t, j, g, l) is Ok,
    ensures
        opt_bounds(p + t + q, p.len() + j, g, l) == sh_idx(opt_bounds(t, j, g, l), p.len() as int),
        opt_bounds(t, j, g, l) matches Ok(k) ==> j <= k <= t.len(),
{
    lemma_concat(p, t, q, (p.len() + t.len()) as int);
}


#[verifier::rlimit(60)]
proof fn lemma_term(
    p: Seq<Token>,
    t: Seq<Token>,
    q: Seq<Token>,
    i: int,
    sec: Sect,
    nest: Nest,
    g: usize,
    l: usize,
)
    requires
        stop_tok(q),
        0 <= i <= t.len(),
        term(t, i, sec, nest, g, l) is Ok,
    ensures
        term(p + t + q, p.len() + i, sec, nest, g, l) == sh_term(
            term(t, i, sec, nest, g, l),
            p.len() as int,
        ),
        term(t, i, sec, nest, g, l) matches Ok(Some((_, j))) ==> i < j <= t.len(),
    decreases t.len() - i, 1int,
{
    let tt = p + t + q;
    let n = p.len() as int;
    lemma_concat(p, t, q, n + t.len());
    if i == t.len() {
        if q.len() > 0 {
            assert(tt[n + i] == q[0]);
        }
        return;
    }
    assert(tt[n + i] == t[i]);
    let label = sec != Sect::Output;
    match t[i].kind {
        TokenKind::Ipa => {
            lemma_suffix(p, t, q, i + 1, true, label, g, l);
        },
        TokenKind::Group => {
            lemma_suffix(p, t, q, i + 1, true, label, g, l);
        },
        TokenKind::Matrix => {
            lemma_suffix(p, t, q, i + 1, false, label, g, l);
        },
        TokenKind::Number => {
            lemma_suffix(p, t, q, i + 1, true, false, g, l);
        },
        TokenKind::Syllable => {
            lemma_suffix(p, t, q, i + 1, true, label, g, l);
        },
        TokenKind::Minus => {
            if sec != Sect::Output {
                if negatable(t, i + 1) {
                    assert(i + 1 < t.len());
                    assert(negatable(tt, n + i + 1));
                    lemma_term(p, t, q, i + 1, sec, nest, g, l);
                } else {
                    assert(false);
                }
            }
        },
        TokenKind::LeftCurly => {
            lemma_set_body(p, t, q, i + 1, sec, true, g, l);
            let (body, j) = set_body(t, i + 1, sec, true, g, l).unwrap();
            lemma_suffix(p, t, q, j, true, label, g, l);
        },
        TokenKind::LessThan => {
            lemma_structure(p, t, q, i, sec, label, g, l);
        },
        TokenKind::LeftAngle => {
            lemma_structure(p, t, q, i, sec, label, g, l);
        },
        TokenKind::LeftBracket => {
            assert(lazy_ellipsis(t, i) == lazy_ellipsis(tt, n + i));
            if sec == Sect::Env || nest == Nest::InStruct || lazy_ellipsis(t, i) {
                lemma_seq(p, t, q, i + 1, sec, Nest::InOpt, g, l);
                let (c, j) = term_seq(t, i + 1, sec, Nest::InOpt, g, l).unwrap();
                lemma_opt_bounds(p, t, q, j, g, l);
                let j2 = opt_bounds(t, j, g, l).unwrap();
                assert(is_kind(t, j2, TokenKind::RightBracket));
            }
        },
        _ => {},
    }
}

#[verifier::rlimit(60)]
proof fn lemma_structure(
    p: Seq<Token>,
    t: Seq<Token>,
    q: Seq<Token>,
    i: int,
    sec: Sect,
    label: bool,
    g: usize,
    l: usize,
)
    requires
        stop_tok(q),
        0 <= i < t.len(),
        structure(t, i, sec, label, g, l) is Ok,
    ensures
        structure(p + t + q, p.len() + i, sec, label, g, l) == sh_term(
            structure(t, i, sec, label, g, l),
            p.len() as int,
        ),
        structure(t, i, sec, label, g, l) matches Ok(Some((_, j))) ==> i < j <= t.len(),
    decreases t.len() - i, 0int,
{
    lemma_seq(p, t, q, i + 1, sec, Nest::InStruct, g, l);
    let (c, j) = term_seq(t, i + 1, sec, Nest::InStruct, g, l).unwrap();
    assert(is_kind(t, j, TokenKind::GreaterThan) || is_kind(t, j, TokenKind::RightAngle));
    lemma_kind_at(p, t, q, j, TokenKind::GreaterThan);
    lemma_kind_at(p, t, q, j, TokenKind::RightAngle);
    lemma_suffix(p, t, q, j + 1, true, label, g, l);
}

proof fn lemma_set_body(
    p: Seq<Token>,
    t: Seq<Token>,
    q: Seq<Token>,
    j: int,
    sec: Sect,
    first: bool,
    g: usize,
    l: usize,
)
    requires
        stop_tok(q),
        0 <= j <= t.len(),
        set_body(t, j, sec, first, g, l) is Ok,
    ensures
        set_body(p + t + q, p.len() + j, sec, first, g, l) == sh(
            set_body(t, j, sec, first, g, l),
            p.len() as int,
        ),
        set_body(t, j, sec, first, g, l) matches Ok((_, k)) ==> j < k <= t.len(),
    decreases t.len() - j, 3int,
{
    lemma_seq(p, t, q, j, sec, Nest::InSet, g, l);
    let (its, k) = term_seq(t, j, sec, Nest::InSet, g, l).unwrap();
    lemma_kind_at(p, t, q, k, TokenKind::Comma);
    lemma_kind_at(p, t, q, k, TokenKind::RightCurly);
    if its.len() == 0 {
        assert(is_kind(t, k, TokenKind::RightCurly));
    } else {
        assert(is_kind(t, k, TokenKind::Comma) || is_kind(t, k, TokenKind::RightCurly));
        if is_kind(t, k, TokenKind::Comma) {
            lemma_set_body(p, t, q, k + 1, sec, false, g, l);
        }
    }
}

proof fn lemma_seq(
    p: Seq<Token>,
    t: Seq<Token>,
    q: Seq<Token>,
    i: int,
    sec: Sect,
    nest: Nest,
    g: usize,
    l: usize,
)
    requires
        stop_tok(q),
        0 <= i <= t.len(),
        term_seq(t, i, sec, nest, g, l) is Ok,
    ensures
        term_seq(p + t + q, p.len() + i, sec, nest, g, l) == sh(
            term_seq(t, i, sec, nest, g, l),
            p.len() as int,
        ),
        term_seq(t, i, sec, nest, g, l) matches Ok((_, k)) ==> i <= k <= t.len(),
    decreases t.len() - i, 2int,
{
    lemma_term(p, t, q, i, sec, nest, g, l);
    match term(t, i, sec, nest, g, l) {
        Ok(Some((its, j))) => {
            if i < j <= t.len() {
                lemma_seq(p, t, q, j, sec, nest, g, l);
            }
        },
        _ => {},
    }
}


proof fn lemma_alt_list(p: Seq<Token>, t: Seq<Token>, q: Seq<Token>, i: int, sec: Sect, g: usize, l: usize)
    requires
        stop_tok(q),
        0 <= i <= t.len(),
        alt_list(t, i, sec, g, l) is Ok,
    ensures
        alt_list(p + t + q, p.len() + i, sec, g, l) == sh(alt_list(t, i, sec, g, l), p.len() as int),
        alt_list(t, i, sec, g, l) matches Ok((_, k)) ==> i <= k <= t.len(),
    decreases t.len() - i,
{
    lemma_seq(p, t, q, i, sec, Nest::TopLevel, g, l);
    let (its, j) = term_seq(t, i, sec, Nest::TopLevel, g, l).unwrap();
    lemma_kind_at(p, t, q, j, TokenKind::Comma);
    if is_kind(t, j, TokenKind::Comma) && i < j {
        lemma_alt_list(p, t, q, j + 1, sec, g, l);
    }
}

proof fn lemma_env_one(p: Seq<Token>, t: Seq<Token>, q: Seq<Token>, i: int, g: usize, l: usize)
    requires
        stop_tok(q),
        0 <= i <= t.len(),
        env_one(t, i, g, l) is Ok,
    ensures
        env_one(p + t + q, p.len() + i, g, l) == sh(env_one(t, i, g, l), p.len() as int),
        env_one(t, i, g, l) matches Ok((_, k)) ==> i <= k <= t.len(),
{
    lemma_seq(p, t, q, i, Sect::Env, Nest::TopLevel, g, l);
}

proof fn lemma_env_set(p: Seq<Token>, t: Seq<Token>, q: Seq<Token>, i: int, g: usize, l: usize)
    requires
        stop_tok(q),
        0 <= i <= t.len(),
        env_set(t, i, g, l) is Ok,
    ensures
        env_set(p + t + q, p.len() + i, g, l) == sh(env_set(t, i, g, l), p.len() as int),
        env_set(t, i, g, l) matches Ok((_, k)) ==> i <= k <= t.len(),
    decreases t.len() - i,
{
    lemma_env_one(p, t, q, i, g, l);
    let (e, j) = env_one(t, i, g, l).unwrap();
    lemma_kind_at(p, t, q, j, TokenKind::Comma);
    if is_kind(t, j, TokenKind::Comma) && i < j {
        lemma_env_set(p, t, q, j + 1, g, l);
    }
}

proof fn lemma_env_item(p: Seq<Token>, t: Seq<Token>, q: Seq<Token>, i: int, g: usize, l: usize)
    requires
        stop_tok(q),
        0 <= i <= t.len(),
        env_item(t, i, g, l) is Ok,
    ensures
        env_item(p + t + q, p.len() + i, g, l) == sh(env_item(t, i, g, l), p.len() as int),
        env_item(t, i, g, l) matches Ok((_, k)) ==> i <= k <= t.len(),
{
    lemma_kind_at(p, t, q, i, TokenKind::Colon);
    if is_kind(t, i, TokenKind::Colon) && is_kind(t, i + 1, TokenKind::LeftCurly) {
        lemma_kind_at(p, t, q, i + 1, TokenKind::LeftCurly);
        lemma_env_set(p, t, q, i + 2, g, l);
        let (es, j) = env_set(t, i + 2, g, l).unwrap();
        lemma_kind_at(p, t, q, j, TokenKind::RightCurly);
        lemma_kind_at(p, t, q, j + 1, TokenKind::Colon);
    } else {
        lemma_env_one(p, t, q, i, g, l);
    }
}

proof fn lemma_env_list(p: Seq<Token>, t: Seq<Token>, q: Seq<Token>, i: int, g: usize, l: usize)
    requires
        stop_tok(q),
        0 <= i <= t.len(),
        env_list(t, i, g, l) is Ok,
    ensures
        env_list(p + t + q, p.len() + i, g, l) == sh(env_list(t, i, g, l), p.len() as int),
        env_list(t, i, g, l) matches Ok((_, k)) ==> i <= k <= t.len(),
    decreases t.len() - i,
{
    lemma_env_item(p, t, q, i, g, l);
    let (e, j) = env_item(t, i, g, l).unwrap();
    lemma_kind_at(p, t, q, j, TokenKind::Comma);
    if is_kind(t, j, TokenKind::Comma) && i < j {
        lemma_env_list(p, t, q, j + 1, g, l);
    }
}


/// The parse of `p + t + q` from `p.len() + i` that ends inside `t` is the
/// parse of `t` from `i`, shifted: a field parser never looks past the first
/// token after where it ends.
proof fn lemma_suffix_b(
    p: Seq<Token>,
    t: Seq<Token>,
    q: Seq<Token>,
    j: int,
    mods: bool,
    label: bool,
    g: usize,
    l: usize,
)
    requires
        stop_tok(q),
        0 <= j <= t.len(),
        suffix(p + t + q, p.len() + j, mods, label, g, l) matches Ok(k) && k <= p.len() + t.len(),
    ensures
        suffix(p + t + q, p.len() + j, mods, label, g, l) == sh_idx(
            suffix(t, j, mods, label, g, l),
            p.len() as int,
        ),
{
    lemma_concat(p, t, q, (p.len() + t.len()) as int);
}

proof fn lemma_opt_bounds_b(p: Seq<Token>, t: Seq<Token>, q: Seq<Token>, j: int, g: usize, l: usize)
    requires
        stop_tok(q),
        0 <= j <= t.len(),
        opt_bounds(p + t + q, p.len() + j, g, l) matches Ok(k) && k <= p.len() + t.len(),
    ensures
        opt_bounds(p + t + q, p.len() + j, g, l) == sh_idx(opt_bounds(t, j, g, l), p.len() as int),
{
    lemma_concat(p, t, q, (p.len() + t.len()) as int);
}

pub open spec fn term_within(r: Result<Option<(Seq<ParseItem>, int)>, RuleSyntaxError>, b: int) -> bool {
    r is Ok && (r matches Ok(Some((_, k))) ==> k <= b)
}

pub open spec fn within<A>(r: Result<(A, int), RuleSyntaxError>, b: int) -> bool {
    r matches Ok((_, k)) && k <= b
}

#[verifier::rlimit(60)]
proof fn lemma_term_b(
    p: Seq<Token>,
    t: Seq<Token>,
    q: Seq<Token>,
    i: int,
    sec: Sect,
    nest: Nest,
    g: usize,
    l: usize,
)
    requires
        stop_tok(q),
        0 <= i <= t.len(),
        term_within(term(p + t + q, p.len() + i, sec, nest, g, l), (p.len() + t.len()) as int),
    ensures
        term(p + t + q, p.len() + i, sec, nest, g, l) == sh_term(
            term(t, i, sec, nest, g, l),
            p.len() as int,
        ),
    decreases t.len() - i, 1int,
{
    let tt = p + t + q;
    let n = p.len() as int;
    lemma_concat(p, t, q, n + t.len());
    if i == t.len() {
        if q.len() > 0 {
            assert(tt[n + i] == q[0]);
        }
        return;
    }
    assert(tt[n + i] == t[i]);
    let label = sec != Sect::Output;
    match t[i].kind {
        TokenKind::Ipa => {
            lemma_suffix_b(p, t, q, i + 1, true, label, g, l);
        },
        TokenKind::Group => {
            lemma_suffix_b(p, t, q, i + 1, true, label, g, l);
        },
        TokenKind::Matrix => {
            lemma_suffix_b(p, t, q, i + 1, false, label, g, l);
        },
        TokenKind::Number => {
            lemma_suffix_b(p, t, q, i + 1, true, false, g, l);
        },
        TokenKind::Syllable => {
            lemma_suffix_b(p, t, q, i + 1, true, label, g, l);
        },
        TokenKind::Minus => {
            lemma_minus_b(p, t, q, i, sec, nest, g, l);
        },
        TokenKind::LeftCurly => {
            lemma_curly_b(p, t, q, i, sec, nest, g, l);
        },
        TokenKind::LessThan => {
            lemma_structure_b(p, t, q, i, sec, label, g, l);
        },
        TokenKind::LeftAngle => {
            lemma_structure_b(p, t, q, i, sec, label, g, l);
        },
        TokenKind::LeftBracket => {
            lemma_bracket_b(p, t, q, i, sec, nest, g, l);
        },
        _ => {},
    }
}

proof fn lemma_minus_b(
    p: Seq<Token>,
    t: Seq<Token>,
    q: Seq<Token>,
    i: int,
    sec: Sect,
    nest: Nest,
    g: usize,
    l: usize,
)
    requires
        stop_tok(q),
        0 <= i < t.len(),
        t[i].kind == TokenKind::Minus,
        term_within(term(p + t + q, p.len() + i, sec, nest, g, l), (p.len() + t.len()) as int),
    ensures
        term(p + t + q, p.len() + i, sec, nest, g, l) == sh_term(
            term(t, i, sec, nest, g, l),
            p.len() as int,
        ),
    decreases t.len() - i, 0int,
{
    let tt = p + t + q;
    let n = p.len() as int;
    lemma_concat(p, t, q, n + t.len());
    assert(tt[n + i] == t[i]);
    if sec != Sect::Output {
        if i + 1 == t.len() {
            if q.len() > 0 {
                assert(tt[n + i + 1] == q[0]);
            }
        }
        assert(negatable(t, i + 1) == negatable(tt, n + i + 1));
        if negatable(t, i + 1) {
            lemma_term_b(p, t, q, i + 1, sec, nest, g, l);
        }
    }
}

proof fn lemma_curly_b(
    p: Seq<Token>,
    t: Seq<Token>,
    q: Seq<Token>,
    i: int,
    sec: Sect,
    nest: Nest,
    g: usize,
    l: usize,
)
    requires
        stop_tok(q),
        0 <= i < t.len(),
        t[i].kind == TokenKind::LeftCurly,
        term_within(term(p + t + q, p.len() + i, sec, nest, g, l), (p.len() + t.len()) as int),
    ensures
        term(p + t + q, p.len() + i, sec, nest, g, l) == sh_term(
            term(t, i, sec, nest, g, l),
            p.len() as int,
        ),
    decreases t.len() - i, 0int,
{
    let tt = p + t + q;
    let n = p.len() as int;
    let e: Seq<Token> = Seq::empty();
    assert(e + tt + e =~= tt);
    assert(tt[n + i] == t[i]) by {
        assert((p + t)[n + i] == t[i]);
    }
    let label = sec != Sect::Output;
    let (body, j) = set_body(tt, n + i + 1, sec, true, g, l).unwrap();
    lemma_set_body(e, tt, e, n + i + 1, sec, true, g, l);
    lemma_suffix(e, tt, e, j, true, label, g, l);
    lemma_set_body_b(p, t, q, i + 1, sec, true, g, l);
    lemma_suffix_b(p, t, q, j - n, true, label, g, l);
}

#[verifier::rlimit(60)]
proof fn lemma_bracket_b(
    p: Seq<Token>,
    t: Seq<Token>,
    q: Seq<Token>,
    i: int,
    sec: Sect,
    nest: Nest,
    g: usize,
    l: usize,
)
    requires
        stop_tok(q),
        0 <= i < t.len(),
        t[i].kind == TokenKind::LeftBracket,
        term_within(term(p + t + q, p.len() + i, sec, nest, g, l), (p.len() + t.len()) as int),
    ensures
        term(p + t + q, p.len() + i, sec, nest, g, l) == sh_term(
            term(t, i, sec, nest, g, l),
            p.len() as int,
        ),
    decreases t.len() - i, 0int,
{
    let tt = p + t + q;
    let n = p.len() as int;
    let e: Seq<Token> = Seq::empty();
    assert(e + tt + e =~= tt);
    assert(tt[n + i] == t[i]) by {
        assert((p + t)[n + i] == t[i]);
    }
    lemma_kind_at(p, t, q, i + 1, TokenKind::Ellipsis);
    if i + 2 <= t.len() {
        lemma_kind_at(p, t, q, i + 2, TokenKind::RightBracket);
    }
    assert(lazy_ellipsis(t, i) == lazy_ellipsis(tt, n + i));
    if sec == Sect::Env || nest == Nest::InStruct || lazy_ellipsis(t, i) {
        let (c, j) = term_seq(tt, n + i + 1, sec, Nest::InOpt, g, l).unwrap();
        lemma_seq(e, tt, e, n + i + 1, sec, Nest::InOpt, g, l);
        let j2 = opt_bounds(tt, j, g, l).unwrap();
        lemma_opt_bounds(e, tt, e, j, g, l);
        assert(is_kind(tt, j2, TokenKind::RightBracket));
        lemma_seq_b(p, t, q, i + 1, sec, Nest::InOpt, g, l);
        lemma_opt_bounds_b(p, t, q, j - n, g, l);
    }
}

#[verifier::rlimit(60)]
proof fn lemma_structure_b(
    p: Seq<Token>,
    t: Seq<Token>,
    q: Seq<Token>,
    i: int,
    sec: Sect,
    label: bool,
    g: usize,
    l: usize,
)
    requires
        stop_tok(q),
        0 <= i < t.len(),
        term_within(structure(p + t + q, p.len() + i, sec, label, g, l), (p.len() + t.len()) as int),
    ensures
        structure(p + t + q, p.len() + i, sec, label, g, l) == sh_term(
            structure(t, i, sec, label, g, l),
            p.len() as int,
        ),
    decreases t.len() - i, 0int,
{
    let tt = p + t + q;
    let n = p.len() as int;
    let e: Seq<Token> = Seq::empty();
    assert(e + tt + e =~= tt);
    let (c, j) = term_seq(tt, n + i + 1, sec, Nest::InStruct, g, l).unwrap();
    lemma_seq(e, tt, e, n + i + 1, sec, Nest::InStruct, g, l);
    lemma_suffix(e, tt, e, j + 1, true, label, g, l);
    lemma_seq_b(p, t, q, i + 1, sec, Nest::InStruct, g, l);
    lemma_kind_at(p, t, q, j - n, TokenKind::GreaterThan);
    lemma_kind_at(p, t, q, j - n, TokenKind::RightAngle);
    lemma_suffix_b(p, t, q, j - n + 1, true, label, g, l);
}

#[verifier::rlimit(60)]
proof fn lemma_set_body_b(
    p: Seq<Token>,
    t: Seq<Token>,
    q: Seq<Token>,
    j: int,
    sec: Sect,
    first: bool,
    g: usize,
    l: usize,
)
    requires
        stop_tok(q),
        0 <= j <= t.len(),
        within(set_body(p + t + q, p.len() + j, sec, first, g, l), (p.len() + t.len()) as int),
    ensures
        set_body(p + t + q, p.len() + j, sec, first, g, l) == sh(
            set_body(t, j, sec, first, g, l),
            p.len() as int,
        ),
    decreases t.len() - j, 3int,
{
    let tt = p + t + q;
    let n = p.len() as int;
    let e: Seq<Token> = Seq::empty();
    assert(e + tt + e =~= tt);
    let (its, k) = term_seq(tt, n + j, sec, Nest::InSet, g, l).unwrap();
    lemma_seq(e, tt, e, n + j, sec, Nest::InSet, g, l);
    if its.len() > 0 && is_kind(tt, k, TokenKind::Comma) {
        lemma_set_body(e, tt, e, k + 1, sec, false, g, l);
    }
    assert(k < n + t.len());
    lemma_seq_b(p, t, q, j, sec, Nest::InSet, g, l);
    lemma_kind_at(p, t, q, k - n, TokenKind::Comma);
    lemma_kind_at(p, t, q, k - n, TokenKind::RightCurly);
    if its.len() > 0 && is_kind(tt, k, TokenKind::Comma) {
        lemma_set_body_b(p, t, q, k - n + 1, sec, false, g, l);
    }
}

proof fn lemma_seq_b(
    p: Seq<Token>,
    t: Seq<Token>,
    q: Seq<Token>,
    i: int,
    sec: Sect,
    nest: Nest,
    g: usize,
    l: usize,
)
    requires
        stop_tok(q),
        0 <= i <= t.len(),
        within(term_seq(p + t + q, p.len() + i, sec, nest, g, l), (p.len() + t.len()) as int),
    ensures
        term_seq(p + t + q, p.len() + i, sec, nest, g, l) == sh(
            term_seq(t, i, sec, nest, g, l),
            p.len() as int,
        ),
    decreases t.len() - i, 2int,
{
    let tt = p + t + q;
    let n = p.len() as int;
    let e: Seq<Token> = Seq::empty();
    assert(e + tt + e =~= tt);
    lemma_term(e, tt, e, n + i, sec, nest, g, l);
    match term(tt, n + i, sec, nest, g, l) {
        Ok(Some((its, j))) => {
            if n + i < j <= tt.len() {
                lemma_seq(e, tt, e, j, sec, nest, g, l);
                lemma_seq_b(p, t, q, j - n, sec, nest, g, l);
            }
        },
        _ => {},
    }
    lemma_term_b(p, t, q, i, sec, nest, g, l);
}

proof fn lemma_alt_list_b(p: Seq<Token>, t: Seq<Token>, q: Seq<Token>, i: int, sec: Sect, g: usize, l: usize)
    requires
        stop_tok(q),
        0 <= i <= t.len(),
        within(alt_list(p + t + q, p.len() + i, sec, g, l), (p.len() + t.len()) as int),
    ensures
        alt_list(p + t + q, p.len() + i, sec, g, l) == sh(alt_list(t, i, sec, g, l), p.len() as int),
    decreases t.len() - i,
{
    let tt = p + t + q;
    let n = p.len() as int;
    let e: Seq<Token> = Seq::empty();
    assert(e + tt + e =~= tt);
    let (its, j) = term_seq(tt, n + i, sec, Nest::TopLevel, g, l).unwrap();
    lemma_seq(e, tt, e, n + i, sec, Nest::TopLevel, g, l);
    if its.len() > 0 && is_kind(tt, j, TokenKind::Comma) && n + i < j {
        lemma_alt_list(e, tt, e, j + 1, sec, g, l);
        lemma_alt_list_b(p, t, q, j - n + 1, sec, g, l);
    }
    lemma_seq_b(p, t, q, i, sec, Nest::TopLevel, g, l);
    lemma_kind_at(p, t, q, j - n, TokenKind::Comma);
}

proof fn lemma_env_one_b(p: Seq<Token>, t: Seq<Token>, q: Seq<Token>, i: int, g: usize, l: usize)
    requires
        stop_tok(q),
        0 <= i <= t.len(),
        within(env_one(p + t + q, p.len() + i, g, l), (p.len() + t.len()) as int),
    ensures
        env_one(p + t + q, p.len() + i, g, l) == sh(env_one(t, i, g, l), p.len() as int),
{
    lemma_seq_b(p, t, q, i, Sect::Env, Nest::TopLevel, g, l);
    lemma_concat(p, t, q, (p.len() + t.len()) as int);
}

proof fn lemma_env_set_b(p: Seq<Token>, t: Seq<Token>, q: Seq<Token>, i: int, g: usize, l: usize)
    requires
        stop_tok(q),
        0 <= i <= t.len(),
        within(env_set(p + t + q, p.len() + i, g, l), (p.len() + t.len()) as int),
    ensures
        env_set(p + t + q, p.len() + i, g, l) == sh(env_set(t, i, g, l), p.len() as int),
    decreases t.len() - i,
{
    let tt = p + t + q;
    let n = p.len() as int;
    let e: Seq<Token> = Seq::empty();
    assert(e + tt + e =~= tt);
    let (en, j) = env_one(tt, n + i, g, l).unwrap();
    lemma_env_one(e, tt, e, n + i, g, l);
    if is_kind(tt, j, TokenKind::Comma) && n + i < j {
        lemma_env_set(e, tt, e, j + 1, g, l);
        lemma_env_set_b(p, t, q, j - n + 1, g, l);
    }
    lemma_env_one_b(p, t, q, i, g, l);
    lemma_kind_at(p, t, q, j - n, TokenKind::Comma);
}

#[verifier::rlimit(60)]
proof fn lemma_env_item_b(p: Seq<Token>, t: Seq<Token>, q: Seq<Token>, i: int, g: usize, l: usize)
    requires
        stop_tok(q),
        0 <= i <= t.len(),
        within(env_item(p + t + q, p.len() + i, g, l), (p.len() + t.len()) as int),
    ensures
        env_item(p + t + q, p.len() + i, g, l) == sh(env_item(t, i, g, l), p.len() as int),
{
    let tt = p + t + q;
    let n = p.len() as int;
    let e: Seq<Token> = Seq::empty();
    assert(e + tt + e =~= tt);
    lemma_kind_at(p, t, q, i, TokenKind::Colon);
    if is_kind(tt, n + i, TokenKind::Colon) && is_kind(tt, n + i + 1, TokenKind::LeftCurly) {
        let (es, j) = env_set(tt, n + i + 2, g, l).unwrap();
        lemma_env_set(e, tt, e, n + i + 2, g, l);
        assert(is_kind(tt, j, TokenKind::RightCurly) && is_kind(tt, j + 1, TokenKind::Colon));
        lemma_kind_at(p, t, q, i + 1, TokenKind::LeftCurly);
        lemma_env_set_b(p, t, q, i + 2, g, l);
        lemma_kind_at(p, t, q, j - n, TokenKind::RightCurly);
        lemma_kind_at(p, t, q, j - n + 1, TokenKind::Colon);
    } else {
        if i + 1 <= t.len() {
            lemma_kind_at(p, t, q, i + 1, TokenKind::LeftCurly);
        }
        lemma_env_one_b(p, t, q, i, g, l);
    }
}

proof fn lemma_env_list_b(p: Seq<Token>, t: Seq<Token>, q: Seq<Token>, i: int, g: usize, l: usize)
    requires
        stop_tok(q),
        0 <= i <= t.len(),
        within(env_list(p + t + q, p.len() + i, g, l), (p.len() + t.len()) as int),
    ensures
        env_list(p + t + q, p.len() + i, g, l) == sh(env_list(t, i, g, l), p.len() as int),
    decreases t.len() - i,
{
    let tt = p + t + q;
    let n = p.len() as int;
    let e: Seq<Token> = Seq::empty();
    assert(e + tt + e =~= tt);
    let (en, j) = env_item(tt, n + i, g, l).unwrap();
    lemma_env_item(e, tt, e, n + i, g, l);
    if is_kind(tt, j, TokenKind::Comma) && n + i < j {
        lemma_env_list(e, tt, e, j + 1, g, l);
        lemma_env_list_b(p, t, q, j - n + 1, g, l);
    }
    lemma_env_item_b(p, t, q, i, g, l);
    lemma_kind_at(p, t, q, j - n, TokenKind::Comma);
}

/// The tokens of a whole rule made of its fields' tokens: the input, an
/// arrow, the output, then `/` and the context if there is one, then the
/// exception marker and the exception if there is one.
pub open spec fn rule_tokens(
    ti: Seq<Token>,
    to: Seq<Token>,
    tc: Seq<Token>,
    te: Seq<Token>,
    a: Token,
    s: Token,
    x: Token,
) -> Seq<Token> {
    ti + seq![a] + to + (if tc.len() > 0 {
        seq![s] + tc
    } else {
        Seq::empty()
    }) + (if te.len() > 0 {
        seq![x] + te
    } else {
        Seq::empty()
    })
}

pub open spec fn first_of<A>(r: Result<(A, int), RuleSyntaxError>) -> A {
    r->Ok_0.0
}

/// An environment field whose first token is an exception marker fails.
proof fn lemma_env_not_marker(t: Seq<Token>, g: usize, l: usize)
    requires
        t.len() > 0,
        t[0].kind == TokenKind::Pipe || t[0].kind == TokenKind::DoubleSlash,
    ensures
        env_list(t, 0, g, l) is Err,
{
    assert(term(t, 0, Sect::Env, Nest::TopLevel, g, l) == Ok::<
        Option<(Seq<ParseItem>, int)>,
        RuleSyntaxError,
    >(None));
    assert(term_seq(t, 0, Sect::Env, Nest::TopLevel, g, l) == Ok::<
        (Seq<ParseItem>, int),
        RuleSyntaxError,
    >((Seq::empty(), 0)));
    assert(count_kind(Seq::<ParseItem>::empty(), ParseElement::Underline) == 0);
}

/// Fields that validate one by one make a whole rule that parses, and each
/// field of that rule is what the field alone parsed to: validating a field
/// (`validate_part`) accepts exactly what the rule parser accepts in its place.
#[verifier::rlimit(100)]
pub proof fn law_fields_compose(
    ti: Seq<Token>,
    to: Seq<Token>,
    tc: Seq<Token>,
    te: Seq<Token>,
    a: Token,
    s: Token,
    x: Token,
    g: usize,
    l: usize,
)
    requires
        a.kind == TokenKind::GreaterThan || a.kind == TokenKind::Arrow || a.kind
            == TokenKind::ReverseArrow,
        s.kind == TokenKind::Slash,
        x.kind == TokenKind::Pipe || x.kind == TokenKind::DoubleSlash,
        parse_field(RulePart::Input, ti, g, l) is Ok,
        parse_field(RulePart::Output, to, g, l) is Ok,
        tc.len() > 0 ==> parse_field(RulePart::Context, tc, g, l) is Ok,
        te.len() > 0 ==> parse_field(RulePart::Exception, te, g, l) is Ok,
    ensures
        parse_rule(rule_tokens(ti, to, tc, te, a, s, x), g, l) matches Ok(Some(r)) && {
            &&& r.input == first_of(alt_list(ti, 0, Sect::Input, g, l))
            &&& r.output == first_of(alt_list(to, 0, Sect::Output, g, l))
            &&& r.context == (if tc.len() > 0 {
                first_of(env_list(tc, 0, g, l))
            } else {
                Seq::empty()
            })
            &&& r.except == (if te.len() > 0 {
                first_of(env_list(te, 0, g, l))
            } else {
                Seq::empty()
            })
            &&& r.prop_rev == (a.kind == TokenKind::ReverseArrow)
        },
{
    let cp: Seq<Token> = if tc.len() > 0 {
        seq![s] + tc
    } else {
        Seq::empty()
    };
    let ep: Seq<Token> = if te.len() > 0 {
        seq![x] + te
    } else {
        Seq::empty()
    };
    let tt = rule_tokens(ti, to, tc, te, a, s, x);
    let e: Seq<Token> = Seq::empty();
    let ni = ti.len() as int;
    let no = to.len() as int;
    let k = ni + 1 + no;

    // the input
    let qi = seq![a] + to + cp + ep;
    assert(tt =~= e + ti + qi);
    lemma_alt_list(e, ti, qi, 0, Sect::Input, g, l);
    assert(alt_list(tt, 0, Sect::Input, g, l) == sh(alt_list(ti, 0, Sect::Input, g, l), 0));
    let (inp, j) = alt_list(ti, 0, Sect::Input, g, l).unwrap();
    assert(j == ni);
    assert(tt[ni] == a);

    // the output
    let po = ti + seq![a];
    let qo = cp + ep;
    assert(tt =~= po + to + qo);
    if qo.len() > 0 {
        assert(qo[0] == if tc.len() > 0 {
            s
        } else {
            x
        });
    }
    lemma_alt_list(po, to, qo, 0, Sect::Output, g, l);
    let (out, jo) = alt_list(to, 0, Sect::Output, g, l).unwrap();
    assert(jo == no);
    assert(alt_list(tt, ni + 1, Sect::Output, g, l) == Ok::<
        (Seq<Seq<ParseItem>>, int),
        RuleSyntaxError,
    >((out, k)));

    // the context
    let k2 = if tc.len() > 0 {
        k + 1 + tc.len()
    } else {
        k
    };
    if tc.len() > 0 {
        let pc = ti + seq![a] + to + seq![s];
        assert(tt =~= pc + tc + ep);
        assert(tt[k] == s);
        assert(tt[k + 1] == tc[0]);
        if tc[0].kind == TokenKind::Pipe || tc[0].kind == TokenKind::DoubleSlash {
            lemma_env_not_marker(tc, g, l);
        }
        lemma_env_list(pc, tc, ep, 0, g, l);
        let (ctx, jc) = env_list(tc, 0, g, l).unwrap();
        assert(jc == tc.len());
        assert(context_part(tt, k, g, l) == Ok::<(Seq<Seq<EnvModel>>, int), RuleSyntaxError>(
            (ctx, k2),
        ));
    } else {
        if te.len() > 0 {
            assert(tt[k] == x);
        } else {
            assert(tt.len() == k);
        }
        assert(context_part(tt, k, g, l) == Ok::<(Seq<Seq<EnvModel>>, int), RuleSyntaxError>(
            (Seq::empty(), k),
        ));
    }

    // the exception
    if te.len() > 0 {
        let pe = ti + seq![a] + to + cp + seq![x];
        assert(tt =~= pe + te + e);
        assert(tt[k2] == x);
        lemma_env_list(pe, te, e, 0, g, l);
        let (exc, je) = env_list(te, 0, g, l).unwrap();
        assert(je == te.len());
        assert(except_part(tt, k2, g, l) == Ok::<(Seq<Seq<EnvModel>>, int), RuleSyntaxError>(
            (exc, tt.len() as int),
        ));
    } else {
        assert(tt.len() == k2);
        assert(except_part(tt, k2, g, l) == Ok::<(Seq<Seq<EnvModel>>, int), RuleSyntaxError>(
            (Seq::empty(), k2),
        ));
    }
}


/// The cut of `tt` at `a..b` as the middle of `tt[..a] + tt[a..b] + tt[b..]`.
proof fn lemma_cut(tt: Seq<Token>, a: int, b: int)
    requires
        0 <= a <= b <= tt.len(),
    ensures
        tt =~= tt.subrange(0, a) + tt.subrange(a, b) + tt.subrange(b, tt.len() as int),
        tt.subrange(b, tt.len() as int).len() > 0 ==> tt.subrange(b, tt.len() as int)[0] == tt[b],
{
}

/// A rule that parses is made of fields that validate one by one, each
/// parsing alone to what it is in the rule. The cuts returned are the arrow's
/// index `j`, the output's end `k`, the context's end `c` (after the `/`, which
/// may be directly followed by the exception marker; `k` when there is no
/// context), and the exception marker's index (the end when there is none).
#[verifier::rlimit(100)]
pub proof fn law_rule_fields_validate(tt: Seq<Token>, g: usize, l: usize) -> (cuts: (int, int, int))
    requires
        parse_rule(tt, g, l) matches Ok(Some(_)),
    ensures
        ({
            let (j, k, c) = cuts;
            let r = parse_rule(tt, g, l)->Ok_0->Some_0;
            &&& 0 <= j < k <= c <= tt.len()
            &&& is_arrow(tt, j)
            &&& parse_field(RulePart::Input, tt.subrange(0, j), g, l) is Ok
            &&& r.input == first_of(alt_list(tt.subrange(0, j), 0, Sect::Input, g, l))
            &&& parse_field(RulePart::Output, tt.subrange(j + 1, k), g, l) is Ok
            &&& r.output == first_of(alt_list(tt.subrange(j + 1, k), 0, Sect::Output, g, l))
            &&& (c > k + 1 ==> is_kind(tt, k, TokenKind::Slash) && parse_field(
                RulePart::Context,
                tt.subrange(k + 1, c),
                g,
                l,
            ) is Ok && r.context == first_of(env_list(tt.subrange(k + 1, c), 0, g, l)))
            &&& (c <= k + 1 ==> r.context.len() == 0)
            &&& (c < tt.len() ==> (is_kind(tt, c, TokenKind::Pipe) || is_kind(
                tt,
                c,
                TokenKind::DoubleSlash,
            )) && parse_field(RulePart::Exception, tt.subrange(c + 1, tt.len() as int), g, l) is Ok
                && r.except == first_of(env_list(tt.subrange(c + 1, tt.len() as int), 0, g, l)))
            &&& (c == tt.len() ==> r.except.len() == 0)
        }),
{
    let n = tt.len() as int;
    let (inp, j) = alt_list(tt, 0, Sect::Input, g, l).unwrap();
    let e: Seq<Token> = Seq::empty();
    assert(e + tt + e =~= tt);
    lemma_alt_list(e, tt, e, 0, Sect::Input, g, l);
    // the input
    lemma_cut(tt, 0, j);
    assert(tt.subrange(0, 0) =~= e);
    lemma_alt_list_b(e, tt.subrange(0, j), tt.subrange(j, n), 0, Sect::Input, g, l);
    // the output
    let (out, k) = alt_list(tt, j + 1, Sect::Output, g, l).unwrap();
    lemma_alt_list(e, tt, e, j + 1, Sect::Output, g, l);
    let (ctx, k2) = context_part(tt, k, g, l).unwrap();
    if is_kind(tt, k, TokenKind::Slash) && !(k + 1 >= n) && !(is_kind(
        tt,
        k + 1,
        TokenKind::DoubleSlash,
    ) || is_kind(tt, k + 1, TokenKind::Pipe)) {
        lemma_env_list(e, tt, e, k + 1, g, l);
    }
    let (exc, m) = except_part(tt, k2, g, l).unwrap();
    if is_kind(tt, k2, TokenKind::Pipe) || is_kind(tt, k2, TokenKind::DoubleSlash) {
        lemma_env_list(e, tt, e, k2 + 1, g, l);
    }
    assert(m == n);
    lemma_cut(tt, j + 1, k);
    lemma_alt_list_b(tt.subrange(0, j + 1), tt.subrange(j + 1, k), tt.subrange(k, n), 0, Sect::Output, g, l);
    // the context
    let c = if is_kind(tt, k, TokenKind::Slash) {
        k2
    } else {
        k
    };
    if is_kind(tt, k, TokenKind::Slash) && !(is_kind(tt, k + 1, TokenKind::DoubleSlash) || is_kind(
        tt,
        k + 1,
        TokenKind::Pipe,
    )) {
        lemma_cut(tt, k + 1, k2);
        lemma_env_list_b(tt.subrange(0, k + 1), tt.subrange(k + 1, k2), tt.subrange(k2, n), 0, g, l);
    }
    // the exception
    if is_kind(tt, k2, TokenKind::Pipe) || is_kind(tt, k2, TokenKind::DoubleSlash) {
        lemma_cut(tt, k2 + 1, n);
        assert(tt.subrange(n, n) =~= e);
        lemma_env_list_b(tt.subrange(0, k2 + 1), tt.subrange(k2 + 1, n), e, 0, g, l);
    }
    (j, k, c)
}

} // verus!
