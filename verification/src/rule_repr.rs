use vstd::prelude::*;

use crate::error::RuleSyntaxError;
use crate::lexer::{lex_line, lex_tokens, str_chars};
use crate::parser::{parse_rule, Parser};
use crate::trace::Change;
use crate::rule::{rule_wf, split_error, splits, Rule, RuleModel};

verus! {

pub open spec fn strings_view(v: Seq<String>) -> Seq<Seq<char>> {
    v.map_values(|s: String| s@)
}

/// The unparsed ASCA Rule Group
#[derive(Debug, Clone)]
pub struct RuleGroup {
    pub name: String,
    pub rule: Vec<String>,
    pub description: String,
}

pub struct RuleGroupModel {
    pub name: Seq<char>,
    pub rule: Seq<Seq<char>>,
    pub description: Seq<char>,
}

impl View for RuleGroup {
    type V = RuleGroupModel;

    open spec fn view(&self) -> RuleGroupModel {
        RuleGroupModel {
            name: self.name@,
            rule: strings_view(self.rule@),
            description: self.description@,
        }
    }
}

pub open spec fn empty_group() -> RuleGroupModel {
    RuleGroupModel { name: Seq::empty(), rule: Seq::empty(), description: Seq::empty() }
}

pub open spec fn group_is_empty(g: RuleGroupModel) -> bool {
    g.name.len() == 0 && g.rule.len() == 0 && g.description.len() == 0
}

impl RuleGroup {
    pub fn new() -> (r: Self)
        ensures
            r@ == empty_group(),
    {
        let r = Self { name: String::new(), rule: Vec::new(), description: String::new() };
        assert(r@.rule =~= Seq::<Seq<char>>::empty());
        r
    }

    pub fn is_empty(&self) -> (r: bool)
        ensures
            r == group_is_empty(self@),
    {
        self.name.as_str().is_empty() && self.rule.len() == 0
            && self.description.as_str().is_empty()
    }
}

impl Default for RuleGroup {
    fn default() -> (r: Self)
        ensures
            r@ == empty_group(),
    {
        RuleGroup::new()
    }
}

/// Builds a rule group one field at a time.
#[derive(Debug)]
pub struct RuleGroupBuilder {
    name: String,
    rule: Vec<String>,
    description: String,
}

impl View for RuleGroupBuilder {
    type V = RuleGroupModel;

    closed spec fn view(&self) -> RuleGroupModel {
        RuleGroupModel {
            name: self.name@,
            rule: strings_view(self.rule@),
            description: self.description@,
        }
    }
}

impl RuleGroupBuilder {
    pub fn new() -> (r: Self)
        ensures
            r@ == empty_group(),
    {
        let r = Self { name: String::new(), rule: Vec::new(), description: String::new() };
        assert(r@.rule =~= Seq::<Seq<char>>::empty());
        r
    }

    /// Sets the name, keeping the rules and the description.
    pub fn name(self, name: String) -> (r: Self)
        ensures
            r@ == (RuleGroupModel { name: name@, ..self@ }),
    {
        let mut s = self;
        s.name = name;
        s
    }

    /// Sets the description, keeping the name and the rules.
    pub fn desc(self, desc: String) -> (r: Self)
        ensures
            r@ == (RuleGroupModel { description: desc@, ..self@ }),
    {
        let mut s = self;
        s.description = desc;
        s
    }

    /// Appends the rules, in order, after those already given.
    pub fn rules(self, rule: Vec<String>) -> (r: Self)
        ensures
            r@ == (RuleGroupModel { rule: self@.rule + strings_view(rule@), ..self@ }),
    {
        let mut s = self;
        let ghost old_rules = s.rule@;
        let ghost added = rule@;
        let mut rule = rule;
        s.rule.append(&mut rule);
        proof {
            assert(strings_view(s.rule@) =~= strings_view(old_rules) + strings_view(added));
        }
        s
    }

    /// Appends one rule after those already given.
    pub fn rule(self, rule: String) -> (r: Self)
        ensures
            r@ == (RuleGroupModel { rule: self@.rule.push(rule@), ..self@ }),
    {
        let mut s = self;
        let ghost old_rules = s.rule@;
        s.rule.push(rule);
        proof {
            assert(strings_view(s.rule@) =~= strings_view(old_rules).push(rule@));
        }
        s
    }

    pub fn build(self) -> (r: RuleGroup)
        ensures
            r@ == self@,
    {
        RuleGroup { name: self.name, rule: self.rule, description: self.description }
    }
}

impl Default for RuleGroupBuilder {
    fn default() -> (r: Self)
        ensures
            r@ == empty_group(),
    {
        RuleGroupBuilder::new()
    }
}


/// One line of a rule group read as a rule: the lexer's error, or the
/// parser's verdict on its tokens.
pub open spec fn parse_line(cs: Seq<char>, g: usize, l: usize) -> Result<Option<RuleModel>, RuleSyntaxError> {
    match lex_tokens(cs, g, l) {
        Err(e) => Err(e),
        Ok(t) => parse_rule(t, g, l),
    }
}

/// The rules of the lines of group `g` from line `l` on, lines that hold no
/// rule left out; the first line that fails gives the error.
pub open spec fn parse_lines(lines: Seq<Seq<char>>, g: usize, l: int) -> Result<
    Seq<RuleModel>,
    RuleSyntaxError,
>
    decreases lines.len() - l,
{
    if l < 0 || l >= lines.len() {
        Ok(Seq::empty())
    } else {
        match parse_line(lines[l], g, l as usize) {
            Err(e) => Err(e),
            Ok(opt) => match parse_lines(lines, g, l + 1) {
                Err(e) => Err(e),
                Ok(rest) => Ok(
                    match opt {
                        Some(r) => seq![r] + rest,
                        None => rest,
                    },
                ),
            },
        }
    }
}

/// The rules of the groups from group `g` on, one sequence per group; the
/// first group that fails gives the error.
pub open spec fn parse_groups(groups: Seq<RuleGroupModel>, g: int) -> Result<
    Seq<Seq<RuleModel>>,
    RuleSyntaxError,
>
    decreases groups.len() - g,
{
    if g < 0 || g >= groups.len() {
        Ok(Seq::empty())
    } else {
        match parse_lines(groups[g].rule, g as usize, 0) {
            Err(e) => Err(e),
            Ok(rs) => match parse_groups(groups, g + 1) {
                Err(e) => Err(e),
                Ok(rest) => Ok(seq![rs] + rest),
            },
        }
    }
}

pub open spec fn rule_seq_view(v: Seq<Rule>) -> Seq<RuleModel> {
    v.map_values(|r: Rule| r@)
}

pub open spec fn rules_view(v: Seq<Vec<Rule>>) -> Seq<Seq<RuleModel>> {
    v.map_values(|x: Vec<Rule>| rule_seq_view(x@))
}

pub open spec fn groups_view(v: Seq<RuleGroup>) -> Seq<RuleGroupModel> {
    v.map_values(|x: RuleGroup| x@)
}

pub open spec fn prepend_res<A>(p: Seq<A>, r: Result<Seq<A>, RuleSyntaxError>) -> Result<
    Seq<A>,
    RuleSyntaxError,
> {
    match r {
        Ok(s) => Ok(p + s),
        Err(e) => Err(e),
    }
}

/// Every rule of every group is well formed.
pub open spec fn all_wf(rs: Seq<Seq<RuleModel>>) -> bool {
    forall|g: int, k: int|
        0 <= g < rs.len() && 0 <= k < rs[g].len() ==> #[trigger] rule_wf(rs[g][k])
}

/// Every rule of every group splits into subrules.
pub open spec fn all_split(rs: Seq<Seq<RuleModel>>) -> bool {
    forall|g: int, k: int|
        0 <= g < rs.len() && 0 <= k < rs[g].len() ==> #[trigger] splits(rs[g][k])
}

/// `e` is the error of the first rule, in order of groups and then of rules,
/// that does not split.
pub open spec fn first_split_error(rs: Seq<Seq<RuleModel>>, e: RuleSyntaxError) -> bool {
    exists|g: int, k: int|
        0 <= g < rs.len() && 0 <= k < rs[g].len() && !splits(#[trigger] rs[g][k]) && split_error(
            rs[g][k],
            e,
        ) && (forall|g2: int, k2: int|
            0 <= g2 < rs.len() && 0 <= k2 < rs[g2].len() && (g2 < g || (g2 == g && k2 < k))
                ==> splits(#[trigger] rs[g2][k2]))
}

/// SOA of the parsed ASCA Rule Group
#[derive(Debug, Clone)]
pub struct ParsedRules {
    pub names: Vec<String>,
    pub rules: Vec<Vec<Rule>>,
    pub descs: Vec<String>,
}

pub struct ParsedRulesModel {
    pub names: Seq<Seq<char>>,
    pub rules: Seq<Seq<RuleModel>>,
    pub descs: Seq<Seq<char>>,
}

impl View for ParsedRules {
    type V = ParsedRulesModel;

    open spec fn view(&self) -> ParsedRulesModel {
        ParsedRulesModel {
            names: strings_view(self.names@),
            rules: rules_view(self.rules@),
            descs: strings_view(self.descs@),
        }
    }
}

fn copy_string(s: &String) -> (r: String)
    ensures
        r@ == s@,
{
    let r = s.clone();
    r
}

/// The rules of one group's lines.
fn parse_group_rules(lines: &Vec<String>, g: usize) -> (res: Result<Vec<Rule>, RuleSyntaxError>)
    ensures
        (match res {
            Ok(v) => parse_lines(strings_view(lines@), g, 0) == Ok::<
                Seq<RuleModel>,
                RuleSyntaxError,
            >(rule_seq_view(v@)) && forall|k: int|
                0 <= k < v@.len() ==> #[trigger] rule_wf(v@[k]@),
            Err(e) => parse_lines(strings_view(lines@), g, 0) == Err::<
                Seq<RuleModel>,
                RuleSyntaxError,
            >(e),
        }),
{
    let ghost sv = strings_view(lines@);
    let mut acc: Vec<Rule> = Vec::new();
    let mut l: usize = 0;
    assert(rule_seq_view(acc@) =~= Seq::<RuleModel>::empty());
    proof {
        match parse_lines(sv, g, 0) {
            Ok(s) => {
                assert(Seq::<RuleModel>::empty() + s =~= s);
            },
            Err(_) => {},
        }
    }
    while l < lines.len()
        invariant
            sv == strings_view(lines@),
            l <= lines.len(),
            parse_lines(sv, g, 0) == prepend_res(rule_seq_view(acc@), parse_lines(sv, g, l as int)),
            forall|k: int| 0 <= k < acc@.len() ==> #[trigger] rule_wf(acc@[k]@),
        decreases lines.len() - l,
    {
        let chars = str_chars(lines[l].as_str());
        let toks = match lex_line(&chars, g, l) {
            Ok(t) => t,
            Err(e) => {
                return Err(e);
            },
        };
        let p = Parser::new(toks, g, l);
        let parsed = match p.parse() {
            Ok(o) => o,
            Err(e) => {
                return Err(e);
            },
        };
        let ghost old_acc = rule_seq_view(acc@);
        let ghost line_res = parsed;
        match parsed {
            Some(r) => {
                acc.push(r);
            },
            None => {},
        }
        proof {
            let rest = parse_lines(sv, g, l + 1);
            match rest {
                Ok(s) => {
                    match line_res {
                        Some(r) => {
                            assert(rule_seq_view(acc@) =~= old_acc.push(r@));
                            assert(old_acc + (seq![r@] + s) =~= old_acc.push(r@) + s);
                        },
                        None => {
                            assert(rule_seq_view(acc@) =~= old_acc);
                        },
                    }
                },
                Err(_) => {},
            }
        }
        l = l + 1;
    }
    proof {
        assert(rule_seq_view(acc@) + Seq::<RuleModel>::empty() =~= rule_seq_view(acc@));
    }
    Ok(acc)
}

impl ParsedRules {
    pub fn new() -> (r: Self)
        ensures
            r@.names.len() == 0,
            r@.rules.len() == 0,
            r@.descs.len() == 0,
    {
        Self { names: Vec::new(), rules: Vec::new(), descs: Vec::new() }
    }

    /// Parses every line of every group. The names and the descriptions are
    /// those of the groups; the first line that fails to parse gives the error.
    pub fn try_from(rgs: &[RuleGroup]) -> (res: Result<Self, RuleSyntaxError>)
        ensures
            (match res {
                Ok(p) => parse_groups(groups_view(rgs@), 0) == Ok::<
                    Seq<Seq<RuleModel>>,
                    RuleSyntaxError,
                >(p@.rules) && p@.names == groups_view(rgs@).map_values(
                    |x: RuleGroupModel| x.name,
                ) && p@.descs == groups_view(rgs@).map_values(|x: RuleGroupModel| x.description)
                    && all_wf(p@.rules),
                Err(e) => parse_groups(groups_view(rgs@), 0) == Err::<
                    Seq<Seq<RuleModel>>,
                    RuleSyntaxError,
                >(e),
            }),
    {
        let ghost gv = groups_view(rgs@);
        let mut names: Vec<String> = Vec::new();
        let mut descs: Vec<String> = Vec::new();
        let mut rules: Vec<Vec<Rule>> = Vec::new();
        let mut g: usize = 0;
        proof {
            match parse_groups(gv, 0) {
                Ok(s) => {
                    assert(Seq::<Seq<RuleModel>>::empty() + s =~= s);
                },
                Err(_) => {},
            }
            assert(rules_view(rules@) =~= Seq::<Seq<RuleModel>>::empty());
        }
        while g < rgs.len()
            invariant
                gv == groups_view(rgs@),
                g <= rgs.len(),
                parse_groups(gv, 0) == prepend_res(rules_view(rules@), parse_groups(gv, g as int)),
                all_wf(rules_view(rules@)),
                strings_view(names@) == gv.take(g as int).map_values(|x: RuleGroupModel| x.name),
                strings_view(descs@) == gv.take(g as int).map_values(
                    |x: RuleGroupModel| x.description,
                ),
            decreases rgs.len() - g,
        {
            let grp = &rgs[g];
            let rs = match parse_group_rules(&grp.rule, g) {
                Ok(rs) => rs,
                Err(e) => {
                    assert(gv[g as int].rule == strings_view(grp.rule@));
                    return Err(e);
                },
            };
            let ghost old_rules = rules_view(rules@);
            let ghost rsv = rule_seq_view(rs@);
            let ghost old_names = strings_view(names@);
            let ghost old_descs = strings_view(descs@);
            rules.push(rs);
            names.push(copy_string(&grp.name));
            descs.push(copy_string(&grp.description));
            proof {
                assert(gv[g as int].rule == strings_view(grp.rule@));
                assert(rules_view(rules@) =~= old_rules.push(rsv));
                match parse_groups(gv, g + 1) {
                    Ok(s) => {
                        assert(old_rules + (seq![rsv] + s) =~= old_rules.push(rsv) + s);
                    },
                    Err(_) => {},
                }
                assert(strings_view(names@) =~= old_names.push(grp.name@));
                assert(gv.take(g + 1).map_values(|x: RuleGroupModel| x.name) =~= gv.take(
                    g as int,
                ).map_values(|x: RuleGroupModel| x.name).push(grp.name@));
                assert(strings_view(descs@) =~= old_descs.push(grp.description@));
                assert(gv.take(g + 1).map_values(|x: RuleGroupModel| x.description) =~= gv.take(
                    g as int,
                ).map_values(|x: RuleGroupModel| x.description).push(grp.description@));
                assert forall|a: int, k: int|
                    0 <= a < rules_view(rules@).len() && 0 <= k < rules_view(
                        rules@,
                    )[a].len() implies #[trigger] rule_wf(rules_view(rules@)[a][k]) by {
                    if a < old_rules.len() {
                        assert(rules_view(rules@)[a] == old_rules[a]);
                    } else {
                        assert(rules_view(rules@)[a] == rsv);
                        assert(rsv[k] == rs@[k]@);
                    }
                }
            }
            g = g + 1;
        }
        proof {
            assert(rules_view(rules@) + Seq::<Seq<RuleModel>>::empty() =~= rules_view(rules@));
            assert(gv.take(rgs.len() as int) =~= gv);
        }
        Ok(ParsedRules { names, rules, descs })
    }

    /// Structural checks of every rule (condensed I/O balance, an insertion that
    /// deletes or metathesises) without applying them. The first rule, in
    /// order of groups and then of rules, that fails gives the error.
    pub fn check_structure(&self) -> (res: Result<(), RuleSyntaxError>)
        requires
            all_wf(self@.rules),
        ensures
            res is Ok <==> all_split(self@.rules),
            res matches Err(e) ==> first_split_error(self@.rules, e),
    {
        let ghost rs = self@.rules;
        let mut g: usize = 0;
        while g < self.rules.len()
            invariant
                rs == self@.rules,
                all_wf(rs),
                g <= self.rules.len(),
                forall|g2: int, k2: int|
                    0 <= g2 < g && 0 <= k2 < rs[g2].len() ==> splits(#[trigger] rs[g2][k2]),
            decreases self.rules.len() - g,
        {
            let group = &self.rules[g];
            let mut k: usize = 0;
            while k < group.len()
                invariant
                    rs == self@.rules,
                    all_wf(rs),
                    g < self.rules.len(),
                    group == self.rules@[g as int],
                    k <= group.len(),
                    forall|g2: int, k2: int|
                        0 <= g2 < g && 0 <= k2 < rs[g2].len() ==> splits(#[trigger] rs[g2][k2]),
                    forall|k2: int| 0 <= k2 < k ==> splits(#[trigger] rs[g as int][k2]),
                decreases group.len() - k,
            {
                assert(rs[g as int][k as int] == group@[k as int]@);
                assert(rule_wf(rs[g as int][k as int]));
                match group[k].split_into_subrules() {
                    Ok(_) => {},
                    Err(e) => {
                        assert(!splits(rs[g as int][k as int]));
                        return Err(e);
                    },
                }
                k = k + 1;
            }
            g = g + 1;
        }
        Ok(())
    }

    /// The groups that the changes name, in the changes' order, or `None` when
    /// a change names a group that does not exist.
    pub fn get_traced_rules(&self, changes: &[Change]) -> (res: Option<
        Vec<(&String, &Vec<Rule>, &String)>,
    >)
        ensures
            res is Some <==> forall|k: int|
                0 <= k < changes@.len() ==> #[trigger] traced_in_range(self, changes@[k].rule_index),
            res matches Some(v) ==> v@.len() == changes@.len() && forall|k: int|
                0 <= k < v@.len() ==> {
                    let i = changes@[k].rule_index as int;
                    &&& (#[trigger] v@[k]).0 == self.names@[i]
                    &&& v@[k].1 == self.rules@[i]
                    &&& v@[k].2 == self.descs@[i]
                },
    {
        let mut out: Vec<(&String, &Vec<Rule>, &String)> = Vec::new();
        let mut k: usize = 0;
        while k < changes.len()
            invariant
                k <= changes@.len(),
                out@.len() == k,
                forall|j: int| 0 <= j < k ==> #[trigger] traced_in_range(self, changes@[j].rule_index),
                forall|j: int|
                    0 <= j < k ==> {
                        let i = changes@[j].rule_index as int;
                        &&& (#[trigger] out@[j]).0 == self.names@[i]
                        &&& out@[j].1 == self.rules@[i]
                        &&& out@[j].2 == self.descs@[i]
                    },
            decreases changes@.len() - k,
        {
            let i = changes[k].rule_index;
            if i < self.names.len() && i < self.rules.len() && i < self.descs.len() {
                out.push((&self.names[i], &self.rules[i], &self.descs[i]));
            } else {
                assert(!traced_in_range(self, changes@[k as int].rule_index));
                return None;
            }
            k = k + 1;
        }
        Some(out)
    }

    /// Walks the groups in order, as (name, rules, description).
    pub fn iter(&self) -> (it: ParsedRulesIter<'_>)
        ensures
            it.source() == self,
            it.position() == 0,
    {
        ParsedRulesIter { pr: self, index: 0 }
    }
}

impl ParsedRules {
    /// Everything that a walk of `iter` yields, in the order it yields it:
    /// group `k` as (name, rules, description) at position `k`, for every
    /// `k` below the length of the shortest column, nothing skipped or repeated.
    pub fn collect_groups(&self) -> (out: Vec<(&str, &[Rule], &str)>)
        ensures
            out@.len() == group_count(self),
            forall|k: int|
                0 <= k < out@.len() ==> {
                    &&& (#[trigger] out@[k]).0@ == self.names@[k]@
                    &&& out@[k].1@ == self.rules@[k]@
                    &&& out@[k].2@ == self.descs@[k]@
                },
    {
        let mut it = self.iter();
        let mut out: Vec<(&str, &[Rule], &str)> = Vec::new();
        loop
            invariant
                it.source() == self,
                it.position() as int == out@.len(),
                out@.len() <= group_count(self),
                forall|k: int|
                    0 <= k < out@.len() ==> {
                        &&& (#[trigger] out@[k]).0@ == self.names@[k]@
                        &&& out@[k].1@ == self.rules@[k]@
                        &&& out@[k].2@ == self.descs@[k]@
                    },
            ensures
                out@.len() == group_count(self),
                forall|k: int|
                    0 <= k < out@.len() ==> {
                        &&& (#[trigger] out@[k]).0@ == self.names@[k]@
                        &&& out@[k].1@ == self.rules@[k]@
                        &&& out@[k].2@ == self.descs@[k]@
                    },
            decreases group_count(self) - it.position(),
        {
            match it.next() {
                Some(g) => {
                    out.push(g);
                },
                None => {
                    break ;
                },
            }
        }
        out
    }
}

/// The number of groups that a walk yields: the length of the shortest of
/// the three columns.
pub open spec fn group_count(pr: &ParsedRules) -> int {
    let n = pr.names@.len();
    let r = pr.rules@.len();
    let d = pr.descs@.len();
    if n <= r && n <= d {
        n as int
    } else if r <= d {
        r as int
    } else {
        d as int
    }
}

/// Whether a change's group index names a group in all three columns.
pub open spec fn traced_in_range(pr: &ParsedRules, i: usize) -> bool {
    i < pr.names@.len() && i < pr.rules@.len() && i < pr.descs@.len()
}

/// Walks a `ParsedRules` group by group.
pub struct ParsedRulesIter<'a> {
    pr: &'a ParsedRules,
    index: usize,
}

impl<'a> ParsedRulesIter<'a> {
    /// The rule set that is walked.
    pub closed spec fn source(&self) -> &'a ParsedRules {
        self.pr
    }

    /// How many groups the walk has yielded so far.
    pub closed spec fn position(&self) -> usize {
        self.index
    }

    /// The next group as (name, rules, description), or `None` once one of
    /// the three columns runs out, after which the walk stays put.
    pub fn next(&mut self) -> (res: Option<(&'a str, &'a [Rule], &'a str)>)
        ensures
            final(self).source() == old(self).source(),
            traced_in_range(old(self).source(), old(self).position()) ==> {
                let i = old(self).position() as int;
                &&& final(self).position() == i + 1
                &&& res matches Some((n, r, d)) && n@ == old(self).source().names@[i]@
                    && r@ == old(self).source().rules@[i]@ && d@ == old(self).source().descs@[i]@
            },
            !traced_in_range(old(self).source(), old(self).position()) ==> res is None
                && final(self).position() == old(self).position(),
    {
        let i = self.index;
        let pr = self.pr;
        if i < pr.names.len() && i < pr.rules.len() && i < pr.descs.len() {
            self.index = i + 1;
            Some((pr.names[i].as_str(), pr.rules[i].as_slice(), pr.descs[i].as_str()))
        } else {
            None
        }
    }
}

impl Default for ParsedRules {
    fn default() -> (r: Self)
        ensures
            r@.names.len() == 0,
            r@.rules.len() == 0,
            r@.descs.len() == 0,
    {
        ParsedRules::new()
    }
}


/// A new rule group is empty, and stays so through a builder that is given
/// nothing; a group that holds a rule is not empty.
pub proof fn law_empty_groups(g: RuleGroupModel, r: Seq<char>)
    ensures
        group_is_empty(empty_group()),
        !group_is_empty(RuleGroupModel { rule: g.rule.push(r), ..g }),
{
    assert(g.rule.push(r).len() > 0);
}

} // verus!
