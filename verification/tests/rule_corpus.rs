use asca::rule::{ParsedRules, RuleGroup};

fn parses_and_splits(rule: &str) -> bool {
    let groups = vec![RuleGroup { name: String::new(), rule: vec![rule.to_string()], description: String::new() }];
    match ParsedRules::try_from(groups.as_slice()) {
        Ok(p) => p.check_structure().is_ok(),
        Err(_) => false,
    }
}

#[test]
fn sound_change_rules_are_valid() {
    let rules = [
        "$C:[+nas] > & / V_$C:[-nas]",
        "$N > & / V_C",
        "% => [+str] / #_#",
        "% > * | _s",
        "% > 1:[-str] / %:[+str]=1_",
        "% > <han>:[tone:51] / <(..)t(..)> _",
        "% > <han>:[tone:51] / <(s,1:1)..> _",
        "% > <han>:[tone:51] / <..CC> _",
        "% > <han>:[tone:51] / <..VCC> _",
        "% > <han>:[tone:51] / <..e..> _",
        "% > <han>:[tone:51] / <..e..t> _",
        "% > <han>:[tone:51] / <..f..> _",
        "% > <han>:[tone:51] / <..t(..)> _",
        "% > <han>:[tone:51] / <..t..> _",
        "% > <han>:[tone:51] / <CC..CC> _",
        "% > <han>:[tone:51] / <s..eft> _",
        "% > <han>:[tone:51] / <sle(f)..> _",
        "% > <han>:[tone:51] / <slef(tk,1:2)> _",
        "% > <han>:[tone:51] / <sl{e,o}ft> _",
        "%, V:[+lng], {C,G}, % => [+str] / #_#, _%#, _%#, _%:[-str]%#",
        "%, {⟨(..)V:[+long]⟩, ⟨(..)V{C,G}⟩}, % ~> [+str] / #_#, _%#, _%:[-str]%#",
        "%=1 -1 > [+str] [+str]",
        "* > $ / s_",
        "* > <han>:[tone:51] / t_e",
        "* > e / ([])_",
        "* > e / <.._C>",
        "* > e / <C_C> | <s_..>",
        "* > e / _$",
        "* > e / _$ | _#",
        "* > e:[+long] / s:[+long]_",
        "* > i / []([])_(n)",
        "* > i / []([])_n",
        "* > t:[Avoi] / n_C:[+cont, Avoi, +cor]",
        "<..V=1..{t, s}> > <h1n>:[tone:51]",
        "<..l..> > <han>:[tone:51]",
        "<s(..)eft> > <han>:[tone:51]",
        "<s..Vt> > <han>:[tone:51]",
        "C$ > & / $_",
        "C:[+cor] > [Aplace, -lab] / _w:[Aplace]",
        "C=1 > * / _s1",
        "P:[α DOR] > [α round]",
        "V > [+str] / _<-V-C>",
        "V > [+str] / _<..-C>",
        "V > [-back, +front, +tense] / _(..) V:[+hi, -back]",
        "V > [α front, β back] / _ (..) V:[α front, β back]# | _ (..) s (..) V:[α front, β back]#",
        "V > [α front, β back] / _CV:[α front, β back]",
        "V$ > [+long]",
        "V% > V",
        "V:[+hi] > [-hi] / _ (C,1:2) V:[+lo] | _{j, NC}",
        "V:[+long] > [-long]",
        "V:[-low, +front, Blong] > [αhigh, Blong] / _,V:[-low, +back, αhigh]",
        "V:[-str] $ => * / _ {r,l} V:[+str] | #<(..)_(..)>",
        "V:[-str] $ => * / _ {r,l} V:[+str] | #<(..)_>",
        "V:[Alen] > e:[Alen] / <CV:[Alo]C>h_",
        "VN > [+nas] / _$",
        "[+approx, +hi] > [+syll, +tense]",
        "[+rho] > [-cont] / C_, _$",
        "a => e | :{ _ }:",
        "a > <a>",
        "a > e / (C,3:6)_",
        "a > e / _##n",
        "a > e / _(C,3:6)",
        "a > ee",
        "a## > *",
        "a$ > e$",
        "a:[-long] > e",
        "e > ie",
        "h, ʔ > *",
        "i > e / _(..)V:[-long]#",
        "i:[+long] > [-long]",
        "l:[Asyll] > r:[Asyll]",
        "p..t > t..p",
        "p..t..k > x.. ..x",
        "pata > *",
        "s > ʃ / i_",
        "sk > ʃ",
        "t^s > s",
        "{%} > de",
        "{C,G} => [+str] / _%#",
        "{[], []} > {x,w}",
        "{f, x} > h / N_",
        "{i, e}:[+long] > [-long]",
        "{p, nt, k} > {b, d, ɡ}",
        "{p, t, k} > {b, d, g,}",
        "{p} > {b}",
        "ɐ:[-str] > ə | ɐ{h, ʔ}_",
        "ə > * / _#",
        "ə## > * / ʒ_",
        "ə$ > * / P:[-nas, αPLACE]_N:[-αPLACE]",
        "ʒ$s > ʃ"
    ];
    for r in rules.iter() {
        assert!(parses_and_splits(r), "rule refused: {r}");
    }
}

#[test]
fn negated_outputs_are_refused() {
    assert!(!parses_and_splits("C > -V"));
    assert!(!parses_and_splits("% > <-V-C>"));
}
