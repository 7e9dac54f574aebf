use asca::rule_file::parse_rsca;

#[test]
fn reads_groups_rules_and_descriptions() {
    let text = "@ Grimms Law\n    [+cons, -son, -cont, -voice] > [+cont]\n\n    [+cons, +voice, +sg] > [-sg]\n# Chain shift of the three series of plosives.\n# Voiceless plosives become fricatives\n\n@ Verners Law\n  [-voice, +cont] > [+voice] / V:[-stress]([+son])_\r\n# Voiceless fricatives are voiced.\n";
    let groups = parse_rsca(text).unwrap();
    assert_eq!(groups.len(), 2);
    assert_eq!(groups[0].name, "Grimms Law");
    assert_eq!(groups[0].rule, vec!["[+cons, -son, -cont, -voice] > [+cont]", "[+cons, +voice, +sg] > [-sg]"]);
    assert_eq!(groups[0].description, "Chain shift of the three series of plosives.\nVoiceless plosives become fricatives");
    assert_eq!(groups[1].name, "Verners Law");
    assert_eq!(groups[1].rule, vec!["[-voice, +cont] > [+voice] / V:[-stress]([+son])_"]);
    assert_eq!(groups[1].description, "Voiceless fricatives are voiced.");
}

#[test]
fn rules_before_a_group_are_refused() {
    assert!(matches!(parse_rsca("\n  a > e\n@ g\n"), Err(1)));
    assert!(matches!(parse_rsca("# text"), Err(0)));
}

#[test]
fn empty_files_hold_no_groups() {
    assert_eq!(parse_rsca("").unwrap().len(), 0);
    assert_eq!(parse_rsca(" \n\n\t").unwrap().len(), 0);
    let g = parse_rsca("@").unwrap();
    assert_eq!(g.len(), 1);
    assert!(g[0].is_empty());
}
