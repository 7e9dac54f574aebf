use vstd::prelude::*;

use crate::lexer::{is_ws, str_chars};
use crate::rule_repr::{groups_view, strings_view, RuleGroup, RuleGroupModel};
use vstd::string::{StrSliceExecFns, StringExecFns};

verus! {

/// The end of the line that starts at `i`: the index of its `\n`, or the end
/// of the text.
pub open spec fn line_end(cs: Seq<char>, i: int) -> int
    decreases cs.len() - i,
{
    if 0 <= i < cs.len() && cs[i] != '\n' {
        line_end(cs, i + 1)
    } else {
        i
    }
}

/// The first index in `a..b` that is not whitespace, or `b`.
pub open spec fn ws_fwd(cs: Seq<char>, a: int, b: int) -> int
    decreases b - a,
{
    if a < b && 0 <= a < cs.len() && is_ws(cs[a]) {
        ws_fwd(cs, a + 1, b)
    } else {
        a
    }
}

/// The end of `a..b` once its trailing whitespace is cut off.
pub open spec fn ws_back(cs: Seq<char>, a: int, b: int) -> int
    decreases b - a,
{
    if a < b && 0 < b <= cs.len() && is_ws(cs[b - 1]) {
        ws_back(cs, a, b - 1)
    } else {
        b
    }
}

pub open spec fn new_group(name: Seq<char>) -> RuleGroupModel {
    RuleGroupModel { name, rule: Seq::empty(), description: Seq::empty() }
}

/// A description line added to a group: the first one as it is, the others
/// after a line break.
pub open spec fn add_desc(g: RuleGroupModel, d: Seq<char>) -> RuleGroupModel {
    RuleGroupModel {
        name: g.name,
        rule: g.rule,
        description: if g.description.len() == 0 {
            d
        } else {
            g.description + "\n"@ + d
        },
    }
}

pub open spec fn add_rule(g: RuleGroupModel, r: Seq<char>) -> RuleGroupModel {
    RuleGroupModel { name: g.name, rule: g.rule.push(r), description: g.description }
}

/// What the line `a..b` (number `ln`) does to the groups read so far: a blank
/// line nothing; `@ name` starts a group; `# text` adds to the last group's
/// description; any other line is a rule of the last group. A description or
/// a rule before the first group is refused with the line's number.
pub open spec fn rsca_line(
    cs: Seq<char>,
    a: int,
    b: int,
    ln: nat,
    acc: Seq<RuleGroupModel>,
) -> Result<Seq<RuleGroupModel>, nat> {
    let ta = ws_fwd(cs, a, b);
    let tb = ws_back(cs, ta, b);
    if ta >= tb {
        Ok(acc)
    } else if cs[ta] == '@' {
        Ok(acc.push(new_group(cs.subrange(ws_fwd(cs, ta + 1, tb), tb))))
    } else if acc.len() == 0 {
        Err(ln)
    } else if cs[ta] == '#' {
        Ok(acc.update(acc.len() - 1, add_desc(acc.last(), cs.subrange(ws_fwd(cs, ta + 1, tb), tb))))
    } else {
        Ok(acc.update(acc.len() - 1, add_rule(acc.last(), cs.subrange(ta, tb))))
    }
}

/// The groups of a rule file, read line by line from index `i` (line `ln`).
pub open spec fn rsca_from(cs: Seq<char>, i: int, ln: nat, acc: Seq<RuleGroupModel>) -> Result<
    Seq<RuleGroupModel>,
    nat,
>
    decreases cs.len() - i,
{
    let e = line_end(cs, i);
    match rsca_line(cs, i, e, ln, acc) {
        Err(x) => Err(x),
        Ok(acc2) => if i <= e < cs.len() {
            rsca_from(cs, e + 1, ln + 1, acc2)
        } else {
            Ok(acc2)
        },
    }
}

fn find_line_end(cs: &Vec<char>, i: usize) -> (r: usize)
    requires
        i <= cs.len(),
    ensures
        r == line_end(cs@, i as int),
        i <= r <= cs.len(),
{
    let mut k = i;
    while k < cs.len() && cs[k] != '\n'
        invariant
            i <= k <= cs.len(),
            line_end(cs@, k as int) == line_end(cs@, i as int),
        decreases cs.len() - k,
    {
        k = k + 1;
    }
    k
}

fn trim_start(cs: &Vec<char>, a: usize, b: usize) -> (r: usize)
    requires
        a <= b <= cs.len(),
    ensures
        r == ws_fwd(cs@, a as int, b as int),
        a <= r <= b,
{
    let mut k = a;
    while k < b && is_ws(cs[k])
        invariant
            a <= k <= b <= cs.len(),
            ws_fwd(cs@, k as int, b as int) == ws_fwd(cs@, a as int, b as int),
        decreases b - k,
    {
        k = k + 1;
    }
    k
}

fn trim_end(cs: &Vec<char>, a: usize, b: usize) -> (r: usize)
    requires
        a <= b <= cs.len(),
    ensures
        r == ws_back(cs@, a as int, b as int),
        a <= r <= b,
{
    let mut k = b;
    while k > a && is_ws(cs[k - 1])
        invariant
            a <= k <= b <= cs.len(),
            ws_back(cs@, a as int, k as int) == ws_back(cs@, a as int, b as int),
        decreases k - a,
    {
        k = k - 1;
    }
    k
}

/// Reads a rule file: groups introduced by `@ name`, each followed by its
/// rules, one per line, and its description, in lines that start with `#`.
/// Blank lines and the whitespace round each line are ignored. A rule or a
/// description before the first group is refused with its line's number.
pub fn parse_rsca(text: &str) -> (res: Result<Vec<RuleGroup>, usize>)
    ensures
        (match res {
            Ok(v) => rsca_from(text@, 0, 0, Seq::empty()) == Ok::<Seq<RuleGroupModel>, nat>(
                groups_view(v@),
            ),
            Err(n) => rsca_from(text@, 0, 0, Seq::empty()) == Err::<Seq<RuleGroupModel>, nat>(
                n as nat,
            ),
        }),
{
    let cs = str_chars(text);
    let mut acc: Vec<RuleGroup> = Vec::new();
    let mut i: usize = 0;
    let mut ln: usize = 0;
    assert(groups_view(acc@) =~= Seq::<RuleGroupModel>::empty());
    loop
        invariant
            cs@ == text@,
            i <= cs.len(),
            ln <= i,
            rsca_from(text@, 0, 0, Seq::empty()) == rsca_from(
                cs@,
                i as int,
                ln as nat,
                groups_view(acc@),
            ),
        decreases cs.len() - i,
    {
        let ghost before = groups_view(acc@);
        let e = find_line_end(&cs, i);
        let ta = trim_start(&cs, i, e);
        let tb = trim_end(&cs, ta, e);
        if ta >= tb {
        } else if cs[ta] == '@' {
            let na = trim_start(&cs, ta + 1, tb);
            let name = String::from_str(text.substring_char(na, tb));
            let g = RuleGroup { name, rule: Vec::new(), description: String::new() };
            proof {
                assert(strings_view(g.rule@) =~= Seq::<Seq<char>>::empty());
            }
            acc.push(g);
            proof {
                assert(groups_view(acc@) =~= before.push(new_group(cs@.subrange(na as int, tb as int))));
            }
        } else if acc.len() == 0 {
            return Err(ln);
        } else if cs[ta] == '#' {
            let da = trim_start(&cs, ta + 1, tb);
            let d = text.substring_char(da, tb);
            let mut g = acc.pop().unwrap();
            let ghost g0 = g@;
            if g.description.as_str().is_empty() {
                g.description = String::from_str(d);
            } else {
                g.description.append("\n");
                g.description.append(d);
            }
            proof {
                assert(g@ == add_desc(g0, cs@.subrange(da as int, tb as int)));
            }
            acc.push(g);
            proof {
                assert(groups_view(acc@) =~= before.update(
                    before.len() - 1,
                    add_desc(before.last(), cs@.subrange(da as int, tb as int)),
                ));
            }
        } else {
            let r = String::from_str(text.substring_char(ta, tb));
            let mut g = acc.pop().unwrap();
            let ghost g0 = g@;
            g.rule.push(r);
            proof {
                assert(strings_view(g.rule@) =~= g0.rule.push(cs@.subrange(ta as int, tb as int)));
            }
            acc.push(g);
            proof {
                assert(groups_view(acc@) =~= before.update(
                    before.len() - 1,
                    add_rule(before.last(), cs@.subrange(ta as int, tb as int)),
                ));
            }
        }
        if e < cs.len() {
            i = e + 1;
            ln = ln + 1;
        } else {
            return Ok(acc);
        }
    }
}


/// Neither the first nor the last character is whitespace.
pub open spec fn trimmed(s: Seq<char>) -> bool {
    s.len() == 0 || (!is_ws(s[0]) && !is_ws(s[s.len() - 1]))
}

/// Every group's name is trimmed, and every rule of a group is a nonempty,
/// trimmed line.
pub open spec fn groups_trimmed(gs: Seq<RuleGroupModel>) -> bool {
    forall|k: int| 0 <= k < gs.len() ==> group_trimmed(#[trigger] gs[k])
}

/// The group's name is trimmed, its description is empty or begins with no
/// whitespace, and each of its rules is a nonempty, trimmed line.
pub open spec fn group_trimmed(g: RuleGroupModel) -> bool {
    &&& trimmed(g.name)
    &&& (g.description.len() == 0 || !is_ws(g.description[0]))
    &&& forall|j: int| 0 <= j < g.rule.len() ==> (#[trigger] g.rule[j]).len() > 0 && trimmed(g.rule[j])
}

proof fn lemma_ws_fwd(cs: Seq<char>, a: int, b: int)
    requires
        0 <= a <= b <= cs.len(),
    ensures
        a <= ws_fwd(cs, a, b) <= b,
        ws_fwd(cs, a, b) < b ==> !is_ws(cs[ws_fwd(cs, a, b)]),
    decreases b - a,
{
    if a < b && is_ws(cs[a]) {
        lemma_ws_fwd(cs, a + 1, b);
    }
}

proof fn lemma_ws_back(cs: Seq<char>, a: int, b: int)
    requires
        0 <= a <= b <= cs.len(),
    ensures
        a <= ws_back(cs, a, b) <= b,
        ws_back(cs, a, b) > a ==> !is_ws(cs[ws_back(cs, a, b) - 1]),
    decreases b - a,
{
    if a < b && is_ws(cs[b - 1]) {
        lemma_ws_back(cs, a, b - 1);
    }
}

proof fn lemma_line_end(cs: Seq<char>, i: int)
    requires
        0 <= i <= cs.len(),
    ensures
        i <= line_end(cs, i) <= cs.len(),
    decreases cs.len() - i,
{
    if i < cs.len() && cs[i] != '\n' {
        lemma_line_end(cs, i + 1);
    }
}

proof fn lemma_rsca_line(cs: Seq<char>, a: int, b: int, ln: nat, acc: Seq<RuleGroupModel>)
    requires
        0 <= a <= b <= cs.len(),
        groups_trimmed(acc),
    ensures
        rsca_line(cs, a, b, ln, acc) matches Ok(acc2) ==> groups_trimmed(acc2),
{
    let ta = ws_fwd(cs, a, b);
    lemma_ws_fwd(cs, a, b);
    let tb = ws_back(cs, ta, b);
    lemma_ws_back(cs, ta, b);
    if ta < tb {
        assert(!is_ws(cs[ta]));
        assert(!is_ws(cs[tb - 1]));
        if cs[ta] == '@' {
            let na = ws_fwd(cs, ta + 1, tb);
            lemma_ws_fwd(cs, ta + 1, tb);
            let g = new_group(cs.subrange(na, tb));
            let acc2 = acc.push(g);
            assert(g.rule.len() == 0);
            if na < tb {
                assert(g.name[0] == cs[na]);
                assert(g.name[g.name.len() - 1] == cs[tb - 1]);
            }
            assert(trimmed(g.name));
            assert forall|k: int| 0 <= k < acc2.len() implies group_trimmed(#[trigger] acc2[k]) by {
                if k < acc.len() {
                    assert(acc2[k] == acc[k]);
                } else {
                    assert(acc2[k] == g);
                }
            }
        } else if acc.len() > 0 {
            let n = acc.len() - 1;
            let acc2 = rsca_line(cs, a, b, ln, acc)->Ok_0;
            let r = cs.subrange(ta, tb);
            assert(r[0] == cs[ta]);
            assert(r[r.len() - 1] == cs[tb - 1]);
            assert(r.len() > 0 && trimmed(r));
            assert(acc2.len() == acc.len());
            assert(acc2[n].name == acc[n].name);
            assert forall|k: int| 0 <= k < acc2.len() implies group_trimmed(#[trigger] acc2[k]) by {
                if k < n {
                    assert(acc2[k] == acc[k]);
                } else if cs[ta] == '#' {
                    let da = ws_fwd(cs, ta + 1, tb);
                    lemma_ws_fwd(cs, ta + 1, tb);
                    let d = cs.subrange(da, tb);
                    let old_d = acc[n].description;
                    if old_d.len() == 0 {
                        if da < tb {
                            assert(d[0] == cs[da]);
                        }
                        assert(acc2[k].description == d);
                    } else {
                        assert(acc2[k].description == old_d + "\n"@ + d);
                        assert((old_d + "\n"@ + d)[0] == old_d[0]);
                    }
                    assert(acc2[k].rule == acc[n].rule);
                } else {
                    assert(acc2[k].rule == acc[n].rule.push(r));
                    assert forall|j: int| 0 <= j < acc2[k].rule.len() implies (
                    #[trigger] acc2[k].rule[j]).len() > 0 && trimmed(acc2[k].rule[j]) by {
                        if j < acc[n].rule.len() {
                            assert(acc2[k].rule[j] == acc[n].rule[j]);
                        }
                    }
                }
            }
        }
    }
}

proof fn lemma_rsca_from(cs: Seq<char>, i: int, ln: nat, acc: Seq<RuleGroupModel>)
    requires
        0 <= i <= cs.len(),
        groups_trimmed(acc),
    ensures
        rsca_from(cs, i, ln, acc) matches Ok(gs) ==> groups_trimmed(gs),
    decreases cs.len() - i,
{
    let e = line_end(cs, i);
    lemma_line_end(cs, i);
    lemma_rsca_line(cs, i, e, ln, acc);
    match rsca_line(cs, i, e, ln, acc) {
        Ok(acc2) => {
            if i <= e < cs.len() {
                lemma_rsca_from(cs, e + 1, ln + 1, acc2);
            }
        },
        Err(_) => {},
    }
}

/// The whitespace round each line of a rule file is ignored: no group name
/// that a file is read into begins or ends with whitespace, and every rule is
/// a nonempty line that neither begins nor ends with whitespace.
pub proof fn law_rule_file_entries_are_trimmed(cs: Seq<char>)
    ensures
        rsca_from(cs, 0, 0, Seq::empty()) matches Ok(gs) ==> groups_trimmed(gs),
{
    lemma_rsca_from(cs, 0, 0, Seq::empty());
}

} // verus!
