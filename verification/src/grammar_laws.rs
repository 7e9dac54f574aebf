use vstd::prelude::*;

use crate::lexer::{Token, TokenKind};
use crate::parser::{
    alt_list, context_part, count_kind, env_item, env_list, env_one, env_set, first_index, is_kind,
    negate, parse_rule, set_body, structure, term, term_seq, Nest, Sect,
};
use crate::rule::{contains_kind, EnvModel, ParseElement, ParseItem};

verus! {

/// Whether an item may stand in the given field of a rule. An input holds no
/// word boundary, no metathesis and no underline; an output holds nothing
/// negated, no word or external boundary and no underline; an environment
/// holds no empty set and no metathesis. No field holds an ordered metathesis,
/// which only the splitting of a rule brings in.
pub open spec fn item_allowed(sec: Sect, it: ParseItem) -> bool {
    let k = it.kind;
    &&& k != ParseElement::MetaOrdered
    &&& match sec {
        Sect::Input => k != ParseElement::WordBound && k != ParseElement::Metathesis && k
            != ParseElement::Underline && k != ParseElement::Distance,
        Sect::Output => !it.negated && k != ParseElement::WordBound && k != ParseElement::ExtlBound
            && k != ParseElement::Underline && k != ParseElement::Distance,
        Sect::Env => k != ParseElement::EmptySet && k != ParseElement::Metathesis,
    }
}

/// Every item of the sequence may stand in the field.
pub open spec fn all_allowed(sec: Sect, s: Seq<ParseItem>) -> bool {
    forall|k: int| 0 <= k < s.len() ==> item_allowed(sec, #[trigger] s[k])
}

/// An environment whose items may stand in an environment, with the target
/// place `_` taken out of both sides.
pub open spec fn env_allowed(e: EnvModel) -> bool {
    &&& all_allowed(Sect::Env, e.before)
    &&& all_allowed(Sect::Env, e.after)
    &&& !contains_kind(e.before, ParseElement::Underline)
    &&& !contains_kind(e.after, ParseElement::Underline)
}

/// Every environment of every environment field is allowed.
pub open spec fn envs_allowed(s: Seq<Seq<EnvModel>>) -> bool {
    forall|a: int, b: int|
        0 <= a < s.len() && 0 <= b < s[a].len() ==> env_allowed(#[trigger] s[a][b])
}

proof fn lemma_cat(sec: Sect, a: Seq<ParseItem>, b: Seq<ParseItem>)
    requires
        all_allowed(sec, a),
        all_allowed(sec, b),
    ensures
        all_allowed(sec, a + b),
{
    assert forall|k: int| 0 <= k < (a + b).len() implies item_allowed(sec, #[trigger] (a + b)[k]) by {
        if k < a.len() {
            assert((a + b)[k] == a[k]);
        } else {
            assert((a + b)[k] == b[k - a.len()]);
        }
    }
}

proof fn lemma_one(sec: Sect, x: ParseItem)
    requires
        item_allowed(sec, x),
    ensures
        all_allowed(sec, seq![x]),
{
    assert forall|k: int| 0 <= k < seq![x].len() implies item_allowed(sec, #[trigger] seq![x][k]) by {
        assert(seq![x][k] == x);
    }
}

proof fn lemma_negate(sec: Sect, s: Seq<ParseItem>)
    requires
        sec != Sect::Output,
        all_allowed(sec, s),
    ensures
        all_allowed(sec, negate(s)),
{
    let n = negate(s);
    assert forall|k: int| 0 <= k < n.len() implies item_allowed(sec, #[trigger] n[k]) by {
        assert(n[k].kind == s[k].kind);
        assert(item_allowed(sec, s[k]));
    }
}

#[verifier::rlimit(60)]
proof fn lemma_term(t: Seq<Token>, i: int, sec: Sect, nest: Nest, g: usize, l: usize)
    ensures
        term(t, i, sec, nest, g, l) matches Ok(Some((its, _))) ==> all_allowed(sec, its),
    decreases t.len() - i, 1int,
{
    if i < 0 || i >= t.len() {
        return;
    }
    let label = sec != Sect::Output;
    match term(t, i, sec, nest, g, l) {
        Ok(Some((its, _))) => {
            match t[i].kind {
                TokenKind::Minus => {
                    lemma_term(t, i + 1, sec, nest, g, l);
                    let (inner, _) = term(t, i + 1, sec, nest, g, l).unwrap().unwrap();
                    lemma_negate(sec, inner);
                },
                TokenKind::LeftCurly => {
                    lemma_set_body(t, i + 1, sec, true, g, l);
                    let (body, _) = set_body(t, i + 1, sec, true, g, l).unwrap();
                    lemma_one(sec, its[0]);
                    lemma_cat(sec, seq![its[0]], body);
                    assert(its == seq![its[0]] + body);
                },
                TokenKind::LessThan => {
                    lemma_structure(t, i, sec, label, g, l);
                },
                TokenKind::LeftAngle => {
                    lemma_structure(t, i, sec, label, g, l);
                },
                TokenKind::LeftBracket => {
                    lemma_seq(t, i + 1, sec, Nest::InOpt, g, l);
                    let (c, _) = term_seq(t, i + 1, sec, Nest::InOpt, g, l).unwrap();
                    lemma_one(sec, its[0]);
                    lemma_one(sec, its[its.len() - 1]);
                    lemma_cat(sec, seq![its[0]], c);
                    lemma_cat(sec, seq![its[0]] + c, seq![its[its.len() - 1]]);
                    assert(its == seq![its[0]] + c + seq![its[its.len() - 1]]);
                },
                TokenKind::UnderlineComma => {
                    assert forall|k: int| 0 <= k < its.len() implies item_allowed(
                        sec,
                        #[trigger] its[k],
                    ) by {}
                },
                _ => {
                    lemma_one(sec, its[0]);
                },
            }
        },
        _ => {},
    }
}

proof fn lemma_structure(
    t: Seq<Token>,
    i: int,
    sec: Sect,
    label: bool,
    g: usize,
    l: usize,
)
    ensures
        structure(t, i, sec, label, g, l) matches Ok(Some((its, _))) ==> all_allowed(sec, its),
    decreases t.len() - i, 0int,
{
    if i < 0 || i >= t.len() {
        return;
    }
    lemma_seq(t, i + 1, sec, Nest::InStruct, g, l);
    match structure(t, i, sec, label, g, l) {
        Ok(Some((its, _))) => {
            let (c, _) = term_seq(t, i + 1, sec, Nest::InStruct, g, l).unwrap();
            lemma_one(sec, its[0]);
            lemma_one(sec, its[its.len() - 1]);
            lemma_cat(sec, seq![its[0]], c);
            lemma_cat(sec, seq![its[0]] + c, seq![its[its.len() - 1]]);
            assert(its == seq![its[0]] + c + seq![its[its.len() - 1]]);
        },
        _ => {},
    }
}

proof fn lemma_set_body(
    t: Seq<Token>,
    j: int,
    sec: Sect,
    first: bool,
    g: usize,
    l: usize,
)
    ensures
        set_body(t, j, sec, first, g, l) matches Ok((its, _)) ==> all_allowed(sec, its),
    decreases t.len() - j, 3int,
{
    if j < 0 || j > t.len() {
        return;
    }
    lemma_seq(t, j, sec, Nest::InSet, g, l);
    match set_body(t, j, sec, first, g, l) {
        Ok((body, _)) => {
            let (its, k) = term_seq(t, j, sec, Nest::InSet, g, l).unwrap();
            let last = body[body.len() - 1];
            if its.len() == 0 {
                lemma_one(sec, body[0]);
                assert(body == seq![body[0]]);
            } else if is_kind(t, k, TokenKind::Comma) {
                lemma_set_body(t, k + 1, sec, false, g, l);
                let (rest, _) = set_body(t, k + 1, sec, false, g, l).unwrap();
                let sep = body[its.len() as int];
                lemma_one(sec, sep);
                lemma_cat(sec, its, seq![sep]);
                lemma_cat(sec, its + seq![sep], rest);
                assert(body == its + seq![sep] + rest);
            } else {
                lemma_one(sec, last);
                lemma_cat(sec, its, seq![last]);
                assert(body == its + seq![last]);
            }
        },
        _ => {},
    }
}

proof fn lemma_seq(t: Seq<Token>, i: int, sec: Sect, nest: Nest, g: usize, l: usize)
    ensures
        term_seq(t, i, sec, nest, g, l) matches Ok((its, _)) ==> all_allowed(sec, its),
    decreases t.len() - i, 2int,
{
    if i < 0 || i > t.len() {
        return;
    }
    lemma_term(t, i, sec, nest, g, l);
    match term(t, i, sec, nest, g, l) {
        Ok(Some((its, j))) => {
            if i < j <= t.len() {
                lemma_seq(t, j, sec, nest, g, l);
                match term_seq(t, j, sec, nest, g, l) {
                    Ok((rest, _)) => {
                        lemma_cat(sec, its, rest);
                    },
                    _ => {},
                }
            }
        },
        _ => {},
    }
}


proof fn lemma_alt_list(t: Seq<Token>, i: int, sec: Sect, g: usize, l: usize)
    ensures
        alt_list(t, i, sec, g, l) matches Ok((alts, _)) ==> forall|a: int|
            0 <= a < alts.len() ==> all_allowed(sec, #[trigger] alts[a]),
    decreases t.len() - i,
{
    lemma_seq(t, i, sec, Nest::TopLevel, g, l);
    match alt_list(t, i, sec, g, l) {
        Ok((alts, _)) => {
            let (its, j) = term_seq(t, i, sec, Nest::TopLevel, g, l).unwrap();
            if is_kind(t, j, TokenKind::Comma) && i < j {
                lemma_alt_list(t, j + 1, sec, g, l);
                let (rest, _) = alt_list(t, j + 1, sec, g, l).unwrap();
                assert(alts == seq![its] + rest);
                assert forall|a: int| 0 <= a < alts.len() implies all_allowed(sec, #[trigger] alts[a]) by {
                    if a > 0 {
                        assert(alts[a] == rest[a - 1]);
                    }
                }
            } else {
                assert(alts == seq![its]);
            }
        },
        _ => {},
    }
}

proof fn lemma_count_cat(a: Seq<ParseItem>, b: Seq<ParseItem>, k: ParseElement)
    ensures
        count_kind(a + b, k) == count_kind(a, k) + count_kind(b, k),
    decreases b.len(),
{
    if b.len() == 0 {
        assert(a + b == a);
    } else {
        assert((a + b).drop_last() == a + b.drop_last());
        lemma_count_cat(a, b.drop_last(), k);
    }
}

proof fn lemma_count_contains(s: Seq<ParseItem>, k: ParseElement)
    ensures
        count_kind(s, k) > 0 <==> contains_kind(s, k),
    decreases s.len(),
{
    if s.len() > 0 {
        lemma_count_contains(s.drop_last(), k);
        if s.last().kind == k {
            assert(s[s.len() - 1].kind == k);
        } else if contains_kind(s, k) {
            let j = choose|j: int| 0 <= j < s.len() && #[trigger] s[j].kind == k;
            assert(s.drop_last()[j].kind == k);
        } else if contains_kind(s.drop_last(), k) {
            let j = choose|j: int| 0 <= j < s.len() - 1 && #[trigger] s.drop_last()[j].kind == k;
            assert(s[j].kind == k);
        }
    }
}

proof fn lemma_first_index(s: Seq<ParseItem>, k: ParseElement)
    requires
        contains_kind(s, k),
    ensures
        0 <= first_index(s, k) < s.len(),
        s[first_index(s, k)].kind == k,
        forall|j: int| 0 <= j < first_index(s, k) ==> #[trigger] s[j].kind != k,
    decreases s.len(),
{
    if s[0].kind != k {
        let j = choose|j: int| 0 <= j < s.len() && #[trigger] s[j].kind == k;
        assert(s.drop_first()[j - 1].kind == k);
        lemma_first_index(s.drop_first(), k);
        assert forall|j: int| 0 <= j < first_index(s, k) implies #[trigger] s[j].kind != k by {
            if j > 0 {
                assert(s[j] == s.drop_first()[j - 1]);
            }
        }
    }
}

proof fn lemma_env_one(t: Seq<Token>, i: int, g: usize, l: usize)
    ensures
        env_one(t, i, g, l) matches Ok((e, _)) ==> env_allowed(e),
{
    lemma_seq(t, i, Sect::Env, Nest::TopLevel, g, l);
    match env_one(t, i, g, l) {
        Ok((e, _)) => {
            let (its, _) = term_seq(t, i, Sect::Env, Nest::TopLevel, g, l).unwrap();
            let k = ParseElement::Underline;
            lemma_count_contains(its, k);
            lemma_first_index(its, k);
            let u = first_index(its, k);
            let a = its.take(u);
            let b = its.skip(u + 1);
            assert(its == a + seq![its[u]] + b);
            lemma_count_cat(a, seq![its[u]], k);
            lemma_count_cat(a + seq![its[u]], b, k);
            assert(count_kind(seq![its[u]], k) == 1) by {
                assert(seq![its[u]].drop_last().len() == 0);
            }
            lemma_count_contains(a, k);
            lemma_count_contains(b, k);
            assert forall|j: int| 0 <= j < a.len() implies item_allowed(Sect::Env, #[trigger] a[j]) by {
                assert(a[j] == its[j]);
            }
            assert forall|j: int| 0 <= j < b.len() implies item_allowed(Sect::Env, #[trigger] b[j]) by {
                assert(b[j] == its[u + 1 + j]);
            }
            assert(count_kind(a, k) == 0) by {
                if contains_kind(a, k) {
                    let j = choose|j: int| 0 <= j < a.len() && #[trigger] a[j].kind == k;
                    assert(its[j].kind == k);
                }
            }
        },
        _ => {},
    }
}

proof fn lemma_env_set(t: Seq<Token>, i: int, g: usize, l: usize)
    ensures
        env_set(t, i, g, l) matches Ok((es, _)) ==> forall|b: int|
            0 <= b < es.len() ==> env_allowed(#[trigger] es[b]),
    decreases t.len() - i,
{
    lemma_env_one(t, i, g, l);
    match env_set(t, i, g, l) {
        Ok((es, _)) => {
            let (e, j) = env_one(t, i, g, l).unwrap();
            if is_kind(t, j, TokenKind::Comma) && i < j {
                lemma_env_set(t, j + 1, g, l);
                let (rest, _) = env_set(t, j + 1, g, l).unwrap();
                assert(es == seq![e] + rest);
                assert forall|b: int| 0 <= b < es.len() implies env_allowed(#[trigger] es[b]) by {
                    if b > 0 {
                        assert(es[b] == rest[b - 1]);
                    }
                }
            } else {
                assert(es == seq![e]);
            }
        },
        _ => {},
    }
}

proof fn lemma_env_item(t: Seq<Token>, i: int, g: usize, l: usize)
    ensures
        env_item(t, i, g, l) matches Ok((es, _)) ==> forall|b: int|
            0 <= b < es.len() ==> env_allowed(#[trigger] es[b]),
{
    lemma_env_set(t, i + 2, g, l);
    lemma_env_one(t, i, g, l);
    match env_item(t, i, g, l) {
        Ok((es, _)) => {
            if !(is_kind(t, i, TokenKind::Colon)
                && is_kind(t, i + 1, TokenKind::LeftCurly)) {
                let (e, _) = env_one(t, i, g, l).unwrap();
                assert(es == seq![e]);
            }
        },
        _ => {},
    }
}

proof fn lemma_env_list(t: Seq<Token>, i: int, g: usize, l: usize)
    ensures
        env_list(t, i, g, l) matches Ok((s, _)) ==> envs_allowed(s),
    decreases t.len() - i,
{
    lemma_env_item(t, i, g, l);
    match env_list(t, i, g, l) {
        Ok((s, _)) => {
            let (e, j) = env_item(t, i, g, l).unwrap();
            if is_kind(t, j, TokenKind::Comma) && i < j {
                lemma_env_list(t, j + 1, g, l);
                let (rest, _) = env_list(t, j + 1, g, l).unwrap();
                assert(s == seq![e] + rest);
                assert forall|a: int, b: int|
                    0 <= a < s.len() && 0 <= b < s[a].len() implies env_allowed(#[trigger] s[a][b]) by {
                    if a > 0 {
                        assert(s[a] == rest[a - 1]);
                    }
                }
            } else {
                assert(s == seq![e]);
            }
        },
        _ => {},
    }
}

/// In every rule that a line parses to, each field holds only what may stand
/// in it: no alternative of the input holds a word boundary, a metathesis or
/// an underline; no alternative of the output holds a negated item, a word or
/// external boundary or an underline; and every environment of the context and
/// of the exception holds no empty set and no metathesis on either side of its
/// target, and no second target place.
pub proof fn law_parsed_fields_hold_their_own_items(t: Seq<Token>, g: usize, l: usize)
    ensures
        parse_rule(t, g, l) matches Ok(Some(r)) ==> {
            &&& forall|a: int| 0 <= a < r.input.len() ==> all_allowed(Sect::Input, #[trigger] r.input[a])
            &&& forall|a: int| 0 <= a < r.output.len() ==> all_allowed(Sect::Output, #[trigger] r.output[a])
            &&& envs_allowed(r.context)
            &&& envs_allowed(r.except)
        },
{
    if t.len() > 0 {
        lemma_alt_list(t, 0, Sect::Input, g, l);
        match alt_list(t, 0, Sect::Input, g, l) {
            Ok((_, j)) => {
                lemma_alt_list(t, j + 1, Sect::Output, g, l);
                match alt_list(t, j + 1, Sect::Output, g, l) {
                    Ok((_, k)) => {
                        lemma_env_list(t, k + 1, g, l);
                        match context_part(t, k, g, l) {
                            Ok((_, k2)) => {
                                lemma_env_list(t, k2 + 1, g, l);
                            },
                            _ => {},
                        }
                    },
                    _ => {},
                }
            },
            _ => {},
        }
    }
}


/// How many more openings than closings of one kind of bracket a sequence holds.
pub open spec fn depth(s: Seq<ParseItem>, open: ParseElement, close: ParseElement) -> int {
    count_kind(s, open) - count_kind(s, close)
}

/// Every set, optional and structure that the sequence opens, it closes.
pub open spec fn balanced(s: Seq<ParseItem>) -> bool {
    &&& depth(s, ParseElement::SetStart, ParseElement::SetEnd) == 0
    &&& depth(s, ParseElement::OptStart, ParseElement::OptEnd) == 0
    &&& depth(s, ParseElement::StructStart, ParseElement::StructEnd) == 0
}

/// The rest of a set after its opening: one closing of a set more than openings,
/// and the other brackets balanced.
pub open spec fn set_rest(s: Seq<ParseItem>) -> bool {
    &&& depth(s, ParseElement::SetStart, ParseElement::SetEnd) == -1
    &&& depth(s, ParseElement::OptStart, ParseElement::OptEnd) == 0
    &&& depth(s, ParseElement::StructStart, ParseElement::StructEnd) == 0
}

proof fn lemma_depth_cat(a: Seq<ParseItem>, b: Seq<ParseItem>)
    ensures
        depth(a + b, ParseElement::SetStart, ParseElement::SetEnd) == depth(
            a,
            ParseElement::SetStart,
            ParseElement::SetEnd,
        ) + depth(b, ParseElement::SetStart, ParseElement::SetEnd),
        depth(a + b, ParseElement::OptStart, ParseElement::OptEnd) == depth(
            a,
            ParseElement::OptStart,
            ParseElement::OptEnd,
        ) + depth(b, ParseElement::OptStart, ParseElement::OptEnd),
        depth(a + b, ParseElement::StructStart, ParseElement::StructEnd) == depth(
            a,
            ParseElement::StructStart,
            ParseElement::StructEnd,
        ) + depth(b, ParseElement::StructStart, ParseElement::StructEnd),
{
    lemma_count_cat(a, b, ParseElement::SetStart);
    lemma_count_cat(a, b, ParseElement::SetEnd);
    lemma_count_cat(a, b, ParseElement::OptStart);
    lemma_count_cat(a, b, ParseElement::OptEnd);
    lemma_count_cat(a, b, ParseElement::StructStart);
    lemma_count_cat(a, b, ParseElement::StructEnd);
}

proof fn lemma_count_one(x: ParseItem, k: ParseElement)
    ensures
        count_kind(seq![x], k) == if x.kind == k {
            1nat
        } else {
            0nat
        },
{
    assert(seq![x].drop_last() =~= Seq::<ParseItem>::empty());
    assert(count_kind(seq![x].drop_last(), k) == 0);
    assert(seq![x].last() == x);
}

proof fn lemma_depth_one(x: ParseItem)
    ensures
        depth(seq![x], ParseElement::SetStart, ParseElement::SetEnd) == (if x.kind
            == ParseElement::SetStart {
            1int
        } else {
            0int
        }) - (if x.kind == ParseElement::SetEnd {
            1int
        } else {
            0int
        }),
        depth(seq![x], ParseElement::OptStart, ParseElement::OptEnd) == (if x.kind
            == ParseElement::OptStart {
            1int
        } else {
            0int
        }) - (if x.kind == ParseElement::OptEnd {
            1int
        } else {
            0int
        }),
        depth(seq![x], ParseElement::StructStart, ParseElement::StructEnd) == (if x.kind
            == ParseElement::StructStart {
            1int
        } else {
            0int
        }) - (if x.kind == ParseElement::StructEnd {
            1int
        } else {
            0int
        }),
{
    lemma_count_one(x, ParseElement::SetStart);
    lemma_count_one(x, ParseElement::SetEnd);
    lemma_count_one(x, ParseElement::OptStart);
    lemma_count_one(x, ParseElement::OptEnd);
    lemma_count_one(x, ParseElement::StructStart);
    lemma_count_one(x, ParseElement::StructEnd);
}

proof fn lemma_count_same_kinds(a: Seq<ParseItem>, b: Seq<ParseItem>, k: ParseElement)
    requires
        a.len() == b.len(),
        forall|j: int| 0 <= j < a.len() ==> (#[trigger] a[j]).kind == b[j].kind,
    ensures
        count_kind(a, k) == count_kind(b, k),
    decreases a.len(),
{
    if a.len() > 0 {
        assert forall|j: int| 0 <= j < a.drop_last().len() implies (#[trigger] a.drop_last()[j]).kind
            == b.drop_last()[j].kind by {
            assert(a.drop_last()[j] == a[j]);
            assert(b.drop_last()[j] == b[j]);
        }
        lemma_count_same_kinds(a.drop_last(), b.drop_last(), k);
        assert(a.last().kind == b.last().kind);
    }
}

proof fn lemma_depth_negate(s: Seq<ParseItem>)
    ensures
        balanced(s) ==> balanced(negate(s)),
{
    let n = negate(s);
    assert forall|j: int| 0 <= j < s.len() implies (#[trigger] s[j]).kind == n[j].kind by {}
    lemma_count_same_kinds(s, n, ParseElement::SetStart);
    lemma_count_same_kinds(s, n, ParseElement::SetEnd);
    lemma_count_same_kinds(s, n, ParseElement::OptStart);
    lemma_count_same_kinds(s, n, ParseElement::OptEnd);
    lemma_count_same_kinds(s, n, ParseElement::StructStart);
    lemma_count_same_kinds(s, n, ParseElement::StructEnd);
}

/// A bracketed sequence `[o] + c + [e]` is balanced when `c` is and the two
/// ends are a matching opening and closing.
proof fn lemma_wrap(o: ParseItem, c: Seq<ParseItem>, e: ParseItem)
    requires
        balanced(c),
        (o.kind == ParseElement::OptStart && e.kind == ParseElement::OptEnd) || (o.kind
            == ParseElement::StructStart && e.kind == ParseElement::StructEnd),
    ensures
        balanced(seq![o] + c + seq![e]),
{
    lemma_depth_one(o);
    lemma_depth_one(e);
    lemma_depth_cat(seq![o], c);
    lemma_depth_cat(seq![o] + c, seq![e]);
}

#[verifier::rlimit(60)]
proof fn lemma_term_bal(t: Seq<Token>, i: int, sec: Sect, nest: Nest, g: usize, l: usize)
    ensures
        term(t, i, sec, nest, g, l) matches Ok(Some((its, _))) ==> balanced(its),
    decreases t.len() - i, 1int,
{
    if i < 0 || i >= t.len() {
        return;
    }
    let label = sec != Sect::Output;
    match term(t, i, sec, nest, g, l) {
        Ok(Some((its, _))) => {
            match t[i].kind {
                TokenKind::Minus => {
                    lemma_term_bal(t, i + 1, sec, nest, g, l);
                    let (inner, _) = term(t, i + 1, sec, nest, g, l).unwrap().unwrap();
                    lemma_depth_negate(inner);
                },
                TokenKind::LeftCurly => {
                    lemma_set_body_bal(t, i + 1, sec, true, g, l);
                    let (body, _) = set_body(t, i + 1, sec, true, g, l).unwrap();
                    lemma_depth_one(its[0]);
                    lemma_depth_cat(seq![its[0]], body);
                    assert(its == seq![its[0]] + body);
                },
                TokenKind::LessThan => {
                    lemma_structure_bal(t, i, sec, label, g, l);
                },
                TokenKind::LeftAngle => {
                    lemma_structure_bal(t, i, sec, label, g, l);
                },
                TokenKind::LeftBracket => {
                    lemma_seq_bal(t, i + 1, sec, Nest::InOpt, g, l);
                    let (c, _) = term_seq(t, i + 1, sec, Nest::InOpt, g, l).unwrap();
                    lemma_wrap(its[0], c, its[its.len() - 1]);
                    assert(its == seq![its[0]] + c + seq![its[its.len() - 1]]);
                },
                TokenKind::UnderlineComma => {
                    lemma_depth_one(its[0]);
                    lemma_depth_one(its[1]);
                    lemma_depth_cat(seq![its[0]], seq![its[1]]);
                    assert(its == seq![its[0]] + seq![its[1]]);
                },
                _ => {
                    lemma_depth_one(its[0]);
                    assert(its == seq![its[0]]);
                },
            }
        },
        _ => {},
    }
}

proof fn lemma_structure_bal(t: Seq<Token>, i: int, sec: Sect, label: bool, g: usize, l: usize)
    ensures
        structure(t, i, sec, label, g, l) matches Ok(Some((its, _))) ==> balanced(its),
    decreases t.len() - i, 0int,
{
    if i < 0 || i >= t.len() {
        return;
    }
    lemma_seq_bal(t, i + 1, sec, Nest::InStruct, g, l);
    match structure(t, i, sec, label, g, l) {
        Ok(Some((its, _))) => {
            let (c, _) = term_seq(t, i + 1, sec, Nest::InStruct, g, l).unwrap();
            lemma_wrap(its[0], c, its[its.len() - 1]);
            assert(its == seq![its[0]] + c + seq![its[its.len() - 1]]);
        },
        _ => {},
    }
}

proof fn lemma_set_body_bal(t: Seq<Token>, j: int, sec: Sect, first: bool, g: usize, l: usize)
    ensures
        set_body(t, j, sec, first, g, l) matches Ok((its, _)) ==> set_rest(its),
    decreases t.len() - j, 3int,
{
    if j < 0 || j > t.len() {
        return;
    }
    lemma_seq_bal(t, j, sec, Nest::InSet, g, l);
    match set_body(t, j, sec, first, g, l) {
        Ok((body, _)) => {
            let (its, k) = term_seq(t, j, sec, Nest::InSet, g, l).unwrap();
            let last = body[body.len() - 1];
            if its.len() == 0 {
                lemma_depth_one(body[0]);
                assert(body == seq![body[0]]);
            } else if is_kind(t, k, TokenKind::Comma) {
                lemma_set_body_bal(t, k + 1, sec, false, g, l);
                let (rest, _) = set_body(t, k + 1, sec, false, g, l).unwrap();
                let sep = body[its.len() as int];
                lemma_depth_one(sep);
                lemma_depth_cat(its, seq![sep]);
                lemma_depth_cat(its + seq![sep], rest);
                assert(body == its + seq![sep] + rest);
            } else {
                lemma_depth_one(last);
                lemma_depth_cat(its, seq![last]);
                assert(body == its + seq![last]);
            }
        },
        _ => {},
    }
}

proof fn lemma_seq_bal(t: Seq<Token>, i: int, sec: Sect, nest: Nest, g: usize, l: usize)
    ensures
        term_seq(t, i, sec, nest, g, l) matches Ok((its, _)) ==> balanced(its),
    decreases t.len() - i, 2int,
{
    if i < 0 || i > t.len() {
        return;
    }
    lemma_term_bal(t, i, sec, nest, g, l);
    match term(t, i, sec, nest, g, l) {
        Ok(Some((its, j))) => {
            if i < j <= t.len() {
                lemma_seq_bal(t, j, sec, nest, g, l);
                match term_seq(t, j, sec, nest, g, l) {
                    Ok((rest, _)) => {
                        lemma_depth_cat(its, rest);
                    },
                    _ => {},
                }
            }
        },
        _ => {},
    }
}

proof fn lemma_alt_list_bal(t: Seq<Token>, i: int, sec: Sect, g: usize, l: usize)
    ensures
        alt_list(t, i, sec, g, l) matches Ok((alts, _)) ==> forall|a: int|
            0 <= a < alts.len() ==> balanced(#[trigger] alts[a]),
    decreases t.len() - i,
{
    lemma_seq_bal(t, i, sec, Nest::TopLevel, g, l);
    match alt_list(t, i, sec, g, l) {
        Ok((alts, _)) => {
            let (its, j) = term_seq(t, i, sec, Nest::TopLevel, g, l).unwrap();
            if is_kind(t, j, TokenKind::Comma) && i < j {
                lemma_alt_list_bal(t, j + 1, sec, g, l);
                let (rest, _) = alt_list(t, j + 1, sec, g, l).unwrap();
                assert(alts == seq![its] + rest);
                assert forall|a: int| 0 <= a < alts.len() implies balanced(#[trigger] alts[a]) by {
                    if a > 0 {
                        assert(alts[a] == rest[a - 1]);
                    }
                }
            } else {
                assert(alts == seq![its]);
            }
        },
        _ => {},
    }
}

/// In every rule that a line parses to, every set, optional and structure that
/// an alternative of the input or of the output opens, that alternative closes.
pub proof fn law_parsed_alternatives_balance_brackets(t: Seq<Token>, g: usize, l: usize)
    ensures
        parse_rule(t, g, l) matches Ok(Some(r)) ==> {
            &&& forall|a: int| 0 <= a < r.input.len() ==> balanced(#[trigger] r.input[a])
            &&& forall|a: int| 0 <= a < r.output.len() ==> balanced(#[trigger] r.output[a])
        },
{
    if t.len() > 0 {
        lemma_alt_list_bal(t, 0, Sect::Input, g, l);
        match alt_list(t, 0, Sect::Input, g, l) {
            Ok((_, j)) => {
                lemma_alt_list_bal(t, j + 1, Sect::Output, g, l);
            },
            _ => {},
        }
    }
}

} // verus!
