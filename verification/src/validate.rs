use vstd::prelude::*;

use crate::error::RuleSyntaxError;
use crate::rule::RulePart;
use crate::rule_repr::{
    all_split, first_split_error, strings_view, groups_view, parse_groups, ParsedRules, RuleGroup, RuleGroupModel,
};
use vstd::string::StringExecFns;

verus! {

/// What the `validate` command was asked to check.
#[derive(Debug)]
pub enum ValidateRequest {
    /// One field of a rule.
    Fragment(RulePart, String),
    /// One whole rule.
    Line(String),
    /// The rules of a rule file.
    File,
}

/// The request that the command's arguments make: a field with its fragment,
/// a single rule, or (with neither) the rule file; `None` for any other mix.
pub fn select_request(field: Option<RulePart>, fragment: Option<String>, rule: Option<String>) -> (r:
    Option<ValidateRequest>)
    ensures
        (match (field, fragment, rule) {
            (Some(f), Some(s), None) => r matches Some(ValidateRequest::Fragment(f2, s2)) && f2 == f
                && s2 == s,
            (None, None, Some(s)) => r matches Some(ValidateRequest::Line(s2)) && s2 == s,
            (None, None, None) => r matches Some(ValidateRequest::File),
            _ => r is None,
        }),
{
    match (field, fragment, rule) {
        (Some(f), Some(s), None) => Some(ValidateRequest::Fragment(f, s)),
        (None, None, Some(s)) => Some(ValidateRequest::Line(s)),
        (None, None, None) => Some(ValidateRequest::File),
        _ => None,
    }
}

/// What validating rule groups gives: the first parse error, else the first
/// structural error of the parsed rules, else success.
pub open spec fn groups_valid(gs: Seq<RuleGroupModel>, res: Result<(), RuleSyntaxError>) -> bool {
    match parse_groups(gs, 0) {
        Err(e) => res == Err::<(), RuleSyntaxError>(e),
        Ok(rs) => (res is Ok <==> all_split(rs)) && (res matches Err(e) ==> first_split_error(
            rs,
            e,
        )),
    }
}

/// Parses the groups and checks the structure of every rule.
pub fn validate_rule_groups(groups: &[RuleGroup]) -> (res: Result<(), RuleSyntaxError>)
    ensures
        groups_valid(groups_view(groups@), res),
{
    match ParsedRules::try_from(groups) {
        Ok(parsed) => parsed.check_structure(),
        Err(e) => Err(e),
    }
}

/// Validates one rule as the single rule of a group named `validate`.
pub fn validate_rule_line(rule: &str) -> (res: Result<(), RuleSyntaxError>)
    ensures
        groups_valid(
            seq![
                RuleGroupModel {
                    name: "validate"@,
                    rule: seq![rule@],
                    description: Seq::empty(),
                },
            ],
            res,
        ),
{
    let mut rules: Vec<String> = Vec::new();
    rules.push(String::from_str(rule));
    let group = RuleGroup { name: String::from_str("validate"), rule: rules, description: String::new() };
    proof {
        assert(strings_view(group.rule@) =~= seq![rule@]);
    }
    let ghost gm = group@;
    let mut groups: Vec<RuleGroup> = Vec::new();
    groups.push(group);
    let res = validate_rule_groups(groups.as_slice());
    proof {
        assert(groups_view(groups@) =~= seq![gm]);
        assert(groups_view(groups@) =~= seq![
            RuleGroupModel { name: "validate"@, rule: seq![rule@], description: Seq::empty() },
        ]);
    }
    res
}

} // verus!
