use vstd::prelude::*;

use crate::error::{Position, RuleSyntaxError};
use crate::lexer::{lex_line, lex_tokens, str_chars};
use crate::parser::{parse_field, Parser};
pub use crate::rule_repr::{ParsedRules, ParsedRulesIter, RuleGroup, RuleGroupBuilder};

verus! {

/// A single field of an ASCA rule for independent syntax validation.
#[derive(Debug, Clone, Copy, PartialEq, Eq, Structural)]
pub enum RulePart {
    Input,
    Output,
    Context,
    Exception,
}

/// The feature-geometry nodes of a segment.
#[derive(Debug, Clone, Copy, PartialEq, Eq, Structural)]
pub enum NodeKind {
    Root,
    Manner,
    Laryngeal,
    Place,
    Labial,
    Coronal,
    Dorsal,
    Pharyngeal,
}

/// Values (or alpha-variables) that a rule gives to the four place nodes.
#[derive(Debug, Clone, Copy, PartialEq, Eq)]
pub struct PlaceMod {
    pub lab: Option<u8>,
    pub cor: Option<u8>,
    pub dor: Option<u8>,
    pub phr: Option<u8>,
}

impl PlaceMod {
    pub fn new(lab: Option<u8>, cor: Option<u8>, dor: Option<u8>, phr: Option<u8>) -> (p: Self)
        ensures
            p == (PlaceMod { lab, cor, dor, phr }),
    {
        Self { lab, cor, dor, phr }
    }
}

/// What an alpha-variable of a rule has been bound to.
#[derive(Debug, Clone, Copy)]
pub enum Alpha {
    Node(NodeKind, Option<u8>),
    Place(PlaceMod),
    Feature(bool),
    Supra(bool),
    Grouped(bool, bool),
}

impl Alpha {
    pub fn as_node(&self) -> (r: Option<(NodeKind, Option<u8>)>)
        ensures
            r == (match *self {
                Alpha::Node(n, m) => Some((n, m)),
                _ => None,
            }),
    {
        if let Alpha::Node(n, m) = self {
            Some((*n, *m))
        } else {
            None
        }
    }

    pub fn as_place(&self) -> (r: Option<&PlaceMod>)
        ensures
            r == (match *self {
                Alpha::Place(p) => Some(&p),
                _ => None,
            }),
    {
        if let Alpha::Place(place) = self {
            Some(place)
        } else {
            None
        }
    }

    pub fn as_grouped(&self) -> (r: Option<(bool, bool)>)
        ensures
            r == (match *self {
                Alpha::Grouped(f, s) => Some((f, s)),
                _ => None,
            }),
    {
        if let Alpha::Grouped(f, s) = self {
            Some((*f, *s))
        } else {
            None
        }
    }

    /// Whether the bound value is the positive one: a `+` feature or
    /// suprasegmental, a node that was given a value, a place with any of its
    /// four nodes given, or the first of a grouped pair.
    pub fn as_binary(&self) -> (r: bool)
        ensures
            r == (match *self {
                Alpha::Feature(pos) => pos,
                Alpha::Supra(pos) => pos,
                Alpha::Node(_, m) => m is Some,
                Alpha::Place(pm) => pm.lab is Some || pm.cor is Some || pm.dor is Some
                    || pm.phr is Some,
                Alpha::Grouped(f, _) => f,
            }),
    {
        match self {
            Alpha::Feature(pos) => *pos,
            Alpha::Supra(pos) => *pos,
            Alpha::Node(_, node_mod) => node_mod.is_some(),
            Alpha::Place(pm) => pm.lab.is_some() || pm.cor.is_some() || pm.dor.is_some()
                || pm.phr.is_some(),
            Alpha::Grouped(f, _) => *f,
        }
    }
}

/// The kind of a parsed item. A set, an optional or a structure is written
/// flat: its start item, its contents (a set's elements parted by `SetSep`)
/// and its end item.
#[derive(Debug, Clone, Copy, PartialEq, Eq, Structural)]
pub enum ParseElement {
    Ipa,
    Group,
    Matrix,
    Reference,
    Syllable,
    SyllBound,
    WordBound,
    ExtlBound,
    Ellipsis,
    Underline,
    Distance,
    EmptySet,
    Metathesis,
    MetaOrdered,
    SetStart,
    SetSep,
    SetEnd,
    OptStart,
    OptEnd,
    StructStart,
    StructEnd,
}

/// One parsed item of a rule, with whether it is negated (`-`) and where it
/// was written.
#[derive(Debug, Clone, Copy, PartialEq, Eq, Structural)]
pub struct ParseItem {
    pub kind: ParseElement,
    pub negated: bool,
    pub position: Position,
}

/// The kind that an item takes when the sequence it stands in is read
/// backwards: the start and the end of a bracketed item swap.
pub open spec fn mirror_kind(k: ParseElement) -> ParseElement {
    match k {
        ParseElement::SetStart => ParseElement::SetEnd,
        ParseElement::SetEnd => ParseElement::SetStart,
        ParseElement::OptStart => ParseElement::OptEnd,
        ParseElement::OptEnd => ParseElement::OptStart,
        ParseElement::StructStart => ParseElement::StructEnd,
        ParseElement::StructEnd => ParseElement::StructStart,
        _ => k,
    }
}

pub open spec fn mirror(it: ParseItem) -> ParseItem {
    ParseItem { kind: mirror_kind(it.kind), negated: it.negated, position: it.position }
}

/// A sequence of items read backwards, each bracketed item reversed inside.
pub open spec fn rev_items(s: Seq<ParseItem>) -> Seq<ParseItem> {
    Seq::new(s.len(), |k: int| mirror(s[s.len() - 1 - k]))
}

/// Whether an item of the given kind occurs in the sequence.
pub open spec fn contains_kind(s: Seq<ParseItem>, k: ParseElement) -> bool {
    exists|j: int| 0 <= j < s.len() && #[trigger] s[j].kind == k
}

/// One environment: what must stand before the target and what after it.
#[derive(Debug, Clone)]
pub struct Env {
    pub before: Vec<ParseItem>,
    pub after: Vec<ParseItem>,
}

pub struct EnvModel {
    pub before: Seq<ParseItem>,
    pub after: Seq<ParseItem>,
}

impl View for Env {
    type V = EnvModel;

    open spec fn view(&self) -> EnvModel {
        EnvModel { before: self.before@, after: self.after@ }
    }
}

/// An environment read backwards: what stood after now stands before.
pub open spec fn rev_env(e: EnvModel) -> EnvModel {
    EnvModel { before: rev_items(e.after), after: rev_items(e.before) }
}

/// Whether the environment crosses a word boundary `##`.
pub open spec fn env_has_extl(e: EnvModel) -> bool {
    contains_kind(e.before, ParseElement::ExtlBound) || contains_kind(
        e.after,
        ParseElement::ExtlBound,
    )
}

impl Env {
    pub fn contains_external(&self) -> (r: bool)
        ensures
            r == env_has_extl(self@),
    {
        has_kind(&self.before, ParseElement::ExtlBound) || has_kind(
            &self.after,
            ParseElement::ExtlBound,
        )
    }
}

/// The alternative environments of one environment field.
#[derive(Debug, Clone)]
pub struct EnvItem {
    pub envs: Vec<Env>,
}

impl View for EnvItem {
    type V = Seq<EnvModel>;

    open spec fn view(&self) -> Seq<EnvModel> {
        self.envs@.map_values(|e: Env| e@)
    }
}

pub open spec fn rev_env_item(s: Seq<EnvModel>) -> Seq<EnvModel> {
    s.map_values(|e: EnvModel| rev_env(e))
}

pub open spec fn env_item_has_extl(s: Seq<EnvModel>) -> bool {
    exists|j: int| 0 <= j < s.len() && #[trigger] env_has_extl(s[j])
}

pub open spec fn items2_view(v: Seq<Vec<ParseItem>>) -> Seq<Seq<ParseItem>> {
    v.map_values(|x: Vec<ParseItem>| x@)
}

pub open spec fn envs_view(v: Seq<EnvItem>) -> Seq<Seq<EnvModel>> {
    v.map_values(|x: EnvItem| x@)
}

/// Whether the sequence holds an item of kind `k`.
pub fn has_kind(v: &Vec<ParseItem>, k: ParseElement) -> (r: bool)
    ensures
        r == contains_kind(v@, k),
{
    let mut i: usize = 0;
    while i < v.len()
        invariant
            i <= v.len(),
            forall|j: int| 0 <= j < i ==> v@[j].kind != k,
        decreases v.len() - i,
    {
        if v[i].kind == k {
            return true;
        }
        i = i + 1;
    }
    false
}

/// A copy of the items.
pub fn copy_items(v: &Vec<ParseItem>) -> (r: Vec<ParseItem>)
    ensures
        r@ == v@,
{
    let mut r: Vec<ParseItem> = Vec::new();
    let mut i: usize = 0;
    while i < v.len()
        invariant
            i <= v.len(),
            r@ == v@.take(i as int),
        decreases v.len() - i,
    {
        r.push(v[i]);
        i = i + 1;
        assert(r@ =~= v@.take(i as int));
    }
    assert(r@ =~= v@);
    r
}

pub fn mirror_item(it: ParseItem) -> (r: ParseItem)
    ensures
        r == mirror(it),
{
    let kind = match it.kind {
        ParseElement::SetStart => ParseElement::SetEnd,
        ParseElement::SetEnd => ParseElement::SetStart,
        ParseElement::OptStart => ParseElement::OptEnd,
        ParseElement::OptEnd => ParseElement::OptStart,
        ParseElement::StructStart => ParseElement::StructEnd,
        ParseElement::StructEnd => ParseElement::StructStart,
        k => k,
    };
    ParseItem { kind, negated: it.negated, position: it.position }
}

/// The items read backwards, each bracketed item reversed inside.
pub fn reverse_items(v: &Vec<ParseItem>) -> (r: Vec<ParseItem>)
    ensures
        r@ == rev_items(v@),
{
    let mut r: Vec<ParseItem> = Vec::new();
    let mut i: usize = v.len();
    while i > 0
        invariant
            i <= v.len(),
            r@.len() == v.len() - i,
            forall|k: int| 0 <= k < r@.len() ==> r@[k] == mirror(v@[v.len() - 1 - k]),
        decreases i,
    {
        i = i - 1;
        r.push(mirror_item(v[i]));
    }
    assert(r@ =~= rev_items(v@));
    r
}

pub fn copy_env(e: &Env) -> (r: Env)
    ensures
        r@ == e@,
{
    Env { before: copy_items(&e.before), after: copy_items(&e.after) }
}

impl EnvItem {
    /// A copy of the environments, read forwards, or backwards when `rev` holds.
    pub fn copy_dir(&self, rev: bool) -> (r: EnvItem)
        ensures
            r@ == (if rev {
                rev_env_item(self@)
            } else {
                self@
            }),
    {
        let mut envs: Vec<Env> = Vec::new();
        let mut i: usize = 0;
        while i < self.envs.len()
            invariant
                i <= self.envs.len(),
                envs@.len() == i,
                forall|k: int|
                    0 <= k < i ==> #[trigger] envs@[k]@ == (if rev {
                        rev_env(self.envs@[k]@)
                    } else {
                        self.envs@[k]@
                    }),
            decreases self.envs.len() - i,
        {
            let e = &self.envs[i];
            if rev {
                envs.push(Env { before: reverse_items(&e.after), after: reverse_items(&e.before) });
            } else {
                envs.push(copy_env(e));
            }
            i = i + 1;
        }
        let r = EnvItem { envs };
        assert(r@ =~= (if rev {
            rev_env_item(self@)
        } else {
            self@
        }));
        r
    }

    pub fn contains_external(&self) -> (r: bool)
        ensures
            r == env_item_has_extl(self@),
    {
        let mut i: usize = 0;
        while i < self.envs.len()
            invariant
                i <= self.envs.len(),
                forall|j: int| 0 <= j < i ==> !env_has_extl(#[trigger] self@[j]),
            decreases self.envs.len() - i,
        {
            if self.envs[i].contains_external() {
                assert(env_has_extl(self@[i as int]));
                return true;
            }
            i = i + 1;
        }
        false
    }
}


/// How a (sub)rule changes what its input matches.
#[derive(Debug, Clone, Copy, PartialEq, Eq, Structural)]
pub enum RuleType {
    Substitution,
    Metathesis,
    MetaOrdered,
    Deletion,
    Insertion,
}

/// A parsed rule. Each field may hold several comma-separated alternatives
/// (a condensed rule), one per subrule.
#[derive(Debug, Clone)]
pub struct Rule {
    pub input: Vec<Vec<ParseItem>>,
    pub output: Vec<Vec<ParseItem>>,
    pub context: Vec<EnvItem>,
    pub except: Vec<EnvItem>,
    pub prop_rev: bool,
    pub cross_bound_inp: bool,
    pub cross_bound_env: bool,
}

pub struct RuleModel {
    pub input: Seq<Seq<ParseItem>>,
    pub output: Seq<Seq<ParseItem>>,
    pub context: Seq<Seq<EnvModel>>,
    pub except: Seq<Seq<EnvModel>>,
    pub prop_rev: bool,
    pub cross_bound_inp: bool,
    pub cross_bound_env: bool,
}

impl View for Rule {
    type V = RuleModel;

    open spec fn view(&self) -> RuleModel {
        RuleModel {
            input: items2_view(self.input@),
            output: items2_view(self.output@),
            context: envs_view(self.context@),
            except: envs_view(self.except@),
            prop_rev: self.prop_rev,
            cross_bound_inp: self.cross_bound_inp,
            cross_bound_env: self.cross_bound_env,
        }
    }
}

/// One rule of a condensed rule, as it will be applied.
#[derive(Debug)]
pub struct SubRule {
    pub input: Vec<ParseItem>,
    pub output: Vec<ParseItem>,
    pub context: Option<EnvItem>,
    pub except: Option<EnvItem>,
    pub rule_type: RuleType,
    pub is_reversed: bool,
    pub inp_x_bound: bool,
    pub env_x_bound: bool,
}

pub struct SubRuleModel {
    pub input: Seq<ParseItem>,
    pub output: Seq<ParseItem>,
    pub context: Option<Seq<EnvModel>>,
    pub except: Option<Seq<EnvModel>>,
    pub rule_type: RuleType,
    pub is_reversed: bool,
    pub inp_x_bound: bool,
    pub env_x_bound: bool,
}

pub open spec fn opt_env_view(o: Option<EnvItem>) -> Option<Seq<EnvModel>> {
    match o {
        Some(e) => Some(e@),
        None => None,
    }
}

impl View for SubRule {
    type V = SubRuleModel;

    open spec fn view(&self) -> SubRuleModel {
        SubRuleModel {
            input: self.input@,
            output: self.output@,
            context: opt_env_view(self.context),
            except: opt_env_view(self.except),
            rule_type: self.rule_type,
            is_reversed: self.is_reversed,
            inp_x_bound: self.inp_x_bound,
            env_x_bound: self.env_x_bound,
        }
    }
}

/// Every input and every output alternative holds at least one item (the
/// parser never makes an empty one).
pub open spec fn rule_wf(r: RuleModel) -> bool {
    &&& forall|k: int| 0 <= k < r.input.len() ==> #[trigger] r.input[k].len() > 0
    &&& forall|k: int| 0 <= k < r.output.len() ==> #[trigger] r.output[k].len() > 0
}

/// How many subrules a condensed rule stands for: its longest field.
pub open spec fn subrule_count(r: RuleModel) -> int {
    vstd::math::max(
        r.input.len() as int,
        vstd::math::max(
            r.output.len() as int,
            vstd::math::max(r.context.len() as int, r.except.len() as int),
        ),
    )
}

/// The alternative that subrule `i` takes from a field: the field's only one,
/// or its `i`-th.
pub open spec fn pick<A>(s: Seq<A>, i: int) -> A {
    if s.len() == 1 {
        s[0]
    } else {
        s[i]
    }
}

pub open spec fn pick_env(s: Seq<Seq<EnvModel>>, i: int) -> Option<Seq<EnvModel>> {
    if s.len() == 0 {
        None
    } else {
        Some(pick(s, i))
    }
}

pub open spec fn io_balanced(n: int, m: int) -> bool {
    n == m || n == 1
}

pub open spec fn env_balanced(n: int, m: int) -> bool {
    n == m || n == 1 || n == 0
}

pub open spec fn balanced(r: RuleModel) -> bool {
    let m = subrule_count(r);
    &&& io_balanced(r.input.len() as int, m)
    &&& io_balanced(r.output.len() as int, m)
    &&& env_balanced(r.context.len() as int, m)
    &&& env_balanced(r.except.len() as int, m)
}

/// An insertion (`∅` input) may neither delete nor metathesise.
pub open spec fn is_conflict(inp0: ParseElement, out0: ParseElement) -> bool {
    inp0 == ParseElement::EmptySet && (out0 == ParseElement::EmptySet || out0
        == ParseElement::Metathesis || out0 == ParseElement::MetaOrdered)
}

pub open spec fn rule_type_of(inp0: ParseElement, out0: ParseElement) -> RuleType {
    if inp0 == ParseElement::EmptySet {
        RuleType::Insertion
    } else if out0 == ParseElement::EmptySet {
        RuleType::Deletion
    } else if out0 == ParseElement::Metathesis {
        RuleType::Metathesis
    } else if out0 == ParseElement::MetaOrdered {
        RuleType::MetaOrdered
    } else {
        RuleType::Substitution
    }
}

pub open spec fn subrule_conflict(r: RuleModel, i: int) -> bool {
    is_conflict(pick(r.input, i)[0].kind, pick(r.output, i)[0].kind)
}

pub open spec fn conflict_error(inp: Seq<ParseItem>, out: Seq<ParseItem>) -> RuleSyntaxError {
    let p = inp[0].position;
    if out[0].kind == ParseElement::EmptySet {
        RuleSyntaxError::InsertDelete(p.group, p.line, p.start, out[0].position.start)
    } else {
        RuleSyntaxError::InsertMetath(p.group, p.line, p.start, out[0].position.start)
    }
}

pub open spec fn opt_has_extl(o: Option<Seq<EnvModel>>) -> bool {
    match o {
        Some(e) => env_item_has_extl(e),
        None => false,
    }
}

pub open spec fn dir_items(s: Seq<ParseItem>, rev: bool) -> Seq<ParseItem> {
    if rev {
        rev_items(s)
    } else {
        s
    }
}

pub open spec fn dir_env(o: Option<Seq<EnvModel>>, rev: bool) -> Option<Seq<EnvModel>> {
    match o {
        Some(e) => Some(
            if rev {
                rev_env_item(e)
            } else {
                e
            },
        ),
        None => None,
    }
}

/// The `i`-th subrule of a condensed rule: each field's alternative for it,
/// read backwards when the rule propagates right to left.
pub open spec fn subrule_model(r: RuleModel, i: int) -> SubRuleModel {
    let inp = dir_items(pick(r.input, i), r.prop_rev);
    let out = dir_items(pick(r.output, i), r.prop_rev);
    let ctx = dir_env(pick_env(r.context, i), r.prop_rev);
    let exc = dir_env(pick_env(r.except, i), r.prop_rev);
    SubRuleModel {
        input: inp,
        output: out,
        context: ctx,
        except: exc,
        rule_type: rule_type_of(pick(r.input, i)[0].kind, pick(r.output, i)[0].kind),
        is_reversed: r.prop_rev,
        inp_x_bound: r.cross_bound_inp && (r.input.len() == 1 || contains_kind(
            inp,
            ParseElement::ExtlBound,
        )),
        env_x_bound: r.cross_bound_env && ((r.context.len() == 1 && r.except.len() == 1)
            || opt_has_extl(ctx) || opt_has_extl(exc)),
    }
}

/// The rule splits into subrules: its fields balance and no subrule is an
/// insertion that deletes or metathesises.
pub open spec fn splits(r: RuleModel) -> bool {
    balanced(r) && forall|i: int| 0 <= i < subrule_count(r) ==> !subrule_conflict(r, i)
}

/// The error that splitting the rule gives, checked in this order: the
/// input's count, the output's, the context's, the exception's, then the
/// first subrule whose insertion deletes or metathesises.
pub open spec fn split_error(r: RuleModel, e: RuleSyntaxError) -> bool {
    let m = subrule_count(r);
    if !io_balanced(r.input.len() as int, m) {
        e matches RuleSyntaxError::UnbalancedRuleIO(v) && items2_view(v@) == r.input
    } else if !io_balanced(r.output.len() as int, m) {
        e matches RuleSyntaxError::UnbalancedRuleIO(v) && items2_view(v@) == r.output
    } else if !env_balanced(r.context.len() as int, m) {
        e matches RuleSyntaxError::UnbalancedRuleEnv(v) && envs_view(v@) == r.context
    } else if !env_balanced(r.except.len() as int, m) {
        e matches RuleSyntaxError::UnbalancedRuleEnv(v) && envs_view(v@) == r.except
    } else {
        exists|i: int|
            0 <= i < m && subrule_conflict(r, i) && (forall|j: int|
                0 <= j < i ==> !subrule_conflict(r, j)) && e == conflict_error(
                pick(r.input, i),
                pick(r.output, i),
            )
    }
}

pub fn copy_items2(v: &Vec<Vec<ParseItem>>) -> (r: Vec<Vec<ParseItem>>)
    ensures
        items2_view(r@) == items2_view(v@),
{
    let mut r: Vec<Vec<ParseItem>> = Vec::new();
    let mut i: usize = 0;
    while i < v.len()
        invariant
            i <= v.len(),
            r@.len() == i,
            forall|k: int| 0 <= k < i ==> #[trigger] r@[k]@ == v@[k]@,
        decreases v.len() - i,
    {
        r.push(copy_items(&v[i]));
        i = i + 1;
    }
    assert(items2_view(r@) =~= items2_view(v@));
    r
}

pub fn copy_env_items(v: &Vec<EnvItem>) -> (r: Vec<EnvItem>)
    ensures
        envs_view(r@) == envs_view(v@),
{
    let mut r: Vec<EnvItem> = Vec::new();
    let mut i: usize = 0;
    while i < v.len()
        invariant
            i <= v.len(),
            r@.len() == i,
            forall|k: int| 0 <= k < i ==> #[trigger] r@[k]@ == v@[k]@,
        decreases v.len() - i,
    {
        r.push(v[i].copy_dir(false));
        i = i + 1;
    }
    assert(envs_view(r@) =~= envs_view(v@));
    r
}

fn usize_max(a: usize, b: usize) -> (r: usize)
    ensures
        r == vstd::math::max(a as int, b as int),
{
    if a >= b {
        a
    } else {
        b
    }
}

impl Rule {
    pub fn new(
        i: Vec<Vec<ParseItem>>,
        o: Vec<Vec<ParseItem>>,
        context: Vec<EnvItem>,
        except: Vec<EnvItem>,
        prop_rev: bool,
        cross_bound_inp: bool,
        cross_bound_env: bool,
    ) -> (r: Self)
        ensures
            r.input == i,
            r.output == o,
            r.context == context,
            r.except == except,
            r.prop_rev == prop_rev,
            r.cross_bound_inp == cross_bound_inp,
            r.cross_bound_env == cross_bound_env,
    {
        Self { input: i, output: o, context, except, prop_rev, cross_bound_inp, cross_bound_env }
    }

    /// Whether the subrule's context or exception crosses a word boundary.
    fn sub_rule_envs_contain_extl_bound(
        &self,
        context: &Option<EnvItem>,
        exception: &Option<EnvItem>,
    ) -> (r: bool)
        ensures
            r == (opt_has_extl(opt_env_view(*context)) || opt_has_extl(opt_env_view(*exception))),
    {
        if let Some(envs) = context {
            if envs.contains_external() {
                return true;
            }
        }
        if let Some(envs) = exception {
            if envs.contains_external() {
                return true;
            }
        }
        false
    }

    /// Splits a condensed rule into the subrules it stands for. Each field
    /// must hold either one alternative or as many as the longest field (an
    /// environment may also be absent); a field with one alternative lends it
    /// to every subrule.
    pub fn split_into_subrules(&self) -> (res: Result<Vec<SubRule>, RuleSyntaxError>)
        requires
            rule_wf(self@),
        ensures
            res is Ok <==> splits(self@),
            res matches Ok(subs) ==> subs@.len() == subrule_count(self@) && forall|i: int|
                0 <= i < subs@.len() ==> #[trigger] subs@[i]@ == subrule_model(self@, i),
            res matches Err(e) ==> split_error(self@, e),
    {
        let max = usize_max(
            self.input.len(),
            usize_max(self.output.len(), usize_max(self.context.len(), self.except.len())),
        );
        let ghost r = self@;
        assert(max == subrule_count(r));

        if self.input.len() != max && self.input.len() != 1 {
            return Err(RuleSyntaxError::UnbalancedRuleIO(copy_items2(&self.input)));
        }
        if self.output.len() != max && self.output.len() != 1 {
            return Err(RuleSyntaxError::UnbalancedRuleIO(copy_items2(&self.output)));
        }
        if self.context.len() != max && self.context.len() != 1 && self.context.len() != 0 {
            return Err(RuleSyntaxError::UnbalancedRuleEnv(copy_env_items(&self.context)));
        }
        if self.except.len() != max && self.except.len() != 1 && self.except.len() != 0 {
            return Err(RuleSyntaxError::UnbalancedRuleEnv(copy_env_items(&self.except)));
        }
        assert(balanced(r));

        let mut sub_vec: Vec<SubRule> = Vec::new();
        let mut i: usize = 0;
        while i < max
            invariant
                r == self@,
                rule_wf(r),
                balanced(r),
                max == subrule_count(r),
                i <= max,
                sub_vec@.len() == i,
                forall|j: int| 0 <= j < i ==> !subrule_conflict(r, j),
                forall|j: int| 0 <= j < i ==> #[trigger] sub_vec@[j]@ == subrule_model(r, j),
            decreases max - i,
        {
            let inp_src = if self.input.len() == 1 {
                &self.input[0]
            } else {
                &self.input[i]
            };
            let out_src = if self.output.len() == 1 {
                &self.output[0]
            } else {
                &self.output[i]
            };
            assert(inp_src@ == pick(r.input, i as int));
            assert(out_src@ == pick(r.output, i as int));
            assert(inp_src@.len() > 0);
            assert(out_src@.len() > 0);
            let inp0 = inp_src[0];
            let out0 = out_src[0];
            let rule_type = match (inp0.kind, out0.kind) {
                (ParseElement::EmptySet, ParseElement::EmptySet) => {
                    proof {
                        assert(subrule_conflict(r, i as int));
                        assert(!splits(r));
                    }
                    return Err(
                        RuleSyntaxError::InsertDelete(
                            inp0.position.group,
                            inp0.position.line,
                            inp0.position.start,
                            out0.position.start,
                        ),
                    );
                },
                (ParseElement::EmptySet, ParseElement::Metathesis) => {
                    proof {
                        assert(subrule_conflict(r, i as int));
                        assert(!splits(r));
                    }
                    return Err(
                        RuleSyntaxError::InsertMetath(
                            inp0.position.group,
                            inp0.position.line,
                            inp0.position.start,
                            out0.position.start,
                        ),
                    );
                },
                (ParseElement::EmptySet, ParseElement::MetaOrdered) => {
                    proof {
                        assert(subrule_conflict(r, i as int));
                        assert(!splits(r));
                    }
                    return Err(
                        RuleSyntaxError::InsertMetath(
                            inp0.position.group,
                            inp0.position.line,
                            inp0.position.start,
                            out0.position.start,
                        ),
                    );
                },
                (ParseElement::EmptySet, _) => RuleType::Insertion,
                (_, ParseElement::EmptySet) => RuleType::Deletion,
                (_, ParseElement::Metathesis) => RuleType::Metathesis,
                (_, ParseElement::MetaOrdered) => RuleType::MetaOrdered,
                (..) => RuleType::Substitution,
            };

            let input = if self.prop_rev {
                reverse_items(inp_src)
            } else {
                copy_items(inp_src)
            };
            let output = if self.prop_rev {
                reverse_items(out_src)
            } else {
                copy_items(out_src)
            };
            let context = if self.context.len() == 0 {
                None
            } else if self.context.len() == 1 {
                Some(self.context[0].copy_dir(self.prop_rev))
            } else {
                Some(self.context[i].copy_dir(self.prop_rev))
            };
            let except = if self.except.len() == 0 {
                None
            } else if self.except.len() == 1 {
                Some(self.except[0].copy_dir(self.prop_rev))
            } else {
                Some(self.except[i].copy_dir(self.prop_rev))
            };

            // Whether this subrule has `##` in its input or its environments.
            let inp_x_bound = if self.cross_bound_inp {
                if self.input.len() == 1 {
                    true
                } else {
                    has_kind(&input, ParseElement::ExtlBound)
                }
            } else {
                false
            };
            let env_x_bound = if self.cross_bound_env {
                if self.context.len() == 1 && self.except.len() == 1 {
                    true
                } else {
                    self.sub_rule_envs_contain_extl_bound(&context, &except)
                }
            } else {
                false
            };

            let sub = SubRule {
                input,
                output,
                context,
                except,
                rule_type,
                is_reversed: self.prop_rev,
                inp_x_bound,
                env_x_bound,
            };
            assert(sub@ == subrule_model(r, i as int));
            sub_vec.push(sub);
            i = i + 1;
        }
        Ok(sub_vec)
    }
}


/// What validating a field fragment gives: the lexer's error, or the field
/// parser's verdict on the tokens (group and line 0).
pub open spec fn part_result(part: RulePart, cs: Seq<char>) -> Result<(), RuleSyntaxError> {
    match lex_tokens(cs, 0, 0) {
        Err(e) => Err(e),
        Ok(t) => parse_field(part, t, 0, 0),
    }
}

/// Parse a rule-field fragment without requiring whole-rule introducers (`>`, `/`, `|`).
pub fn validate_part(part: RulePart, fragment: &str) -> (res: Result<(), RuleSyntaxError>)
    ensures
        res == part_result(part, fragment@),
{
    let chars = str_chars(fragment);
    let tokens = match lex_line(&chars, 0, 0) {
        Ok(t) => t,
        Err(e) => {
            return Err(e);
        },
    };
    let parser = Parser::new(tokens, 0, 0);
    parser.validate_field(part)
}


/// Reading a sequence backwards twice gives it back.
pub proof fn law_reverse_involution(s: Seq<ParseItem>)
    ensures
        rev_items(rev_items(s)) == s,
{
    assert forall|k: int| 0 <= k < s.len() implies #[trigger] rev_items(rev_items(s))[k] == s[k] by {
        let it = s[k];
        assert(rev_items(s)[s.len() - 1 - k] == mirror(it));
        assert(mirror(mirror(it)) == it);
    }
    assert(rev_items(rev_items(s)) =~= s);
}

/// Reading an environment backwards twice gives it back.
pub proof fn law_reverse_env_involution(e: EnvModel)
    ensures
        rev_env(rev_env(e)) == e,
{
    law_reverse_involution(e.before);
    law_reverse_involution(e.after);
}

/// The rule with its propagation direction set.
pub open spec fn with_dir(r: RuleModel, rev: bool) -> RuleModel {
    RuleModel {
        input: r.input,
        output: r.output,
        context: r.context,
        except: r.except,
        prop_rev: rev,
        cross_bound_inp: r.cross_bound_inp,
        cross_bound_env: r.cross_bound_env,
    }
}

/// Every environment of a field read backwards: what stood before the target
/// stands after it, each side reversed.
pub open spec fn rev_env_opt(o: Option<Seq<EnvModel>>) -> Option<Seq<EnvModel>> {
    match o {
        Some(e) => Some(rev_env_item(e)),
        None => None,
    }
}

/// The direction of propagation changes neither whether a condensed rule
/// splits nor the error it gives; the subrules of a right-to-left rule are
/// those of the left-to-right rule read backwards, of the same type: input,
/// output, context and exception alike. A left-to-right subrule keeps its
/// context and exception as they were written.
pub proof fn law_reversed_split(r: RuleModel, i: int, e: RuleSyntaxError)
    ensures
        subrule_model(with_dir(r, true), i).context == rev_env_opt(
            subrule_model(with_dir(r, false), i).context,
        ),
        subrule_model(with_dir(r, true), i).except == rev_env_opt(
            subrule_model(with_dir(r, false), i).except,
        ),
        subrule_model(with_dir(r, false), i).context == (if r.context.len() == 0 {
            None::<Seq<EnvModel>>
        } else if r.context.len() == 1 {
            Some(r.context[0])
        } else {
            Some(r.context[i])
        }),
        subrule_model(with_dir(r, false), i).except == (if r.except.len() == 0 {
            None::<Seq<EnvModel>>
        } else if r.except.len() == 1 {
            Some(r.except[0])
        } else {
            Some(r.except[i])
        }),
        splits(with_dir(r, true)) == splits(with_dir(r, false)),
        split_error(with_dir(r, true), e) == split_error(with_dir(r, false), e),
        subrule_model(with_dir(r, true), i).input == rev_items(
            subrule_model(with_dir(r, false), i).input,
        ),
        subrule_model(with_dir(r, true), i).output == rev_items(
            subrule_model(with_dir(r, false), i).output,
        ),
        subrule_model(with_dir(r, true), i).rule_type == subrule_model(
            with_dir(r, false),
            i,
        ).rule_type,
        subrule_model(with_dir(r, true), i).is_reversed,
        !subrule_model(with_dir(r, false), i).is_reversed,
{
    let rt = with_dir(r, true);
    let rf = with_dir(r, false);
    assert(subrule_count(rt) == subrule_count(rf));
    assert(balanced(rt) == balanced(rf));
    assert forall|j: int| #[trigger] subrule_conflict(rt, j) == subrule_conflict(rf, j) by {
        assert(pick(rt.input, j) == pick(rf.input, j));
        assert(pick(rt.output, j) == pick(rf.output, j));
    }
    if splits(rt) {
        assert forall|j: int| 0 <= j < subrule_count(rf) implies !subrule_conflict(rf, j) by {
            assert(subrule_conflict(rt, j) == subrule_conflict(rf, j));
        }
    }
    if splits(rf) {
        assert forall|j: int| 0 <= j < subrule_count(rt) implies !subrule_conflict(rt, j) by {
            assert(subrule_conflict(rt, j) == subrule_conflict(rf, j));
        }
    }
    if balanced(rt) {
        if split_error(rt, e) {
            let j = choose|j: int|
                0 <= j < subrule_count(rt) && subrule_conflict(rt, j) && (forall|k: int|
                    0 <= k < j ==> !subrule_conflict(rt, k)) && e == conflict_error(
                    pick(rt.input, j),
                    pick(rt.output, j),
                );
            assert(subrule_conflict(rf, j));
            assert forall|k: int| 0 <= k < j implies !subrule_conflict(rf, k) by {
                assert(subrule_conflict(rt, k) == subrule_conflict(rf, k));
            }
        }
        if split_error(rf, e) {
            let j = choose|j: int|
                0 <= j < subrule_count(rf) && subrule_conflict(rf, j) && (forall|k: int|
                    0 <= k < j ==> !subrule_conflict(rf, k)) && e == conflict_error(
                    pick(rf.input, j),
                    pick(rf.output, j),
                );
            assert(subrule_conflict(rt, j));
            assert forall|k: int| 0 <= k < j implies !subrule_conflict(rt, k) by {
                assert(subrule_conflict(rt, k) == subrule_conflict(rf, k));
            }
        }
    }
}

/// A rule with one input and one output and at most one context and one
/// exception splits into exactly one subrule unless it is an insertion that
/// deletes or metathesises.
pub proof fn law_simple_rule_one_subrule(r: RuleModel)
    requires
        r.input.len() == 1,
        r.output.len() == 1,
        r.context.len() <= 1,
        r.except.len() <= 1,
    ensures
        subrule_count(r) == 1,
        splits(r) == !is_conflict(r.input[0][0].kind, r.output[0][0].kind),
{
    assert(subrule_conflict(r, 0) == is_conflict(r.input[0][0].kind, r.output[0][0].kind));
}


/// An exception is written in the grammar of a context: a fragment validates
/// as the one just when it validates as the other, with the same error.
pub proof fn law_exception_grammar_is_context_grammar(cs: Seq<char>)
    ensures
        part_result(RulePart::Exception, cs) == part_result(RulePart::Context, cs),
{
}

} // verus!
