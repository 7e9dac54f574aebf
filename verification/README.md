# asca — rule syntax for a sound change applier

This crate reads and checks the rules of ASCA, a sound change applier:

- `lexer`: the tokens of a rule line (segments, groups, feature matrices,
  boundaries, brackets, arrows), with the feature table; the tokens lie in
  order and drop nothing of the line but whitespace.
- `parser`: rules and single rule fields (input, output, context,
  exception), stated as a grammar over tokens and implemented to match it.
- `rule`: the parsed rule, its split into the subrules of a condensed rule,
  and `validate_part` for a single field.
- `rule_repr`: rule groups, their builder, and a parsed rule set with its
  structural check, traced lookup and walk.
- `rule_file`: the `.rsca` rule file format.
- `validate`: what the `validate` command decides.
- `parser_laws`: the proofs that fields which validate one by one make a rule
  that parses, and that the fields of a rule that parses validate one by one,
  each field parsing alone to what it is in the rule.
- `grammar_laws`: what every rule that parses holds: each field only the
  items that may stand in it, each environment exactly one target place,
  and every alternative of the input and output its brackets closed.

`app/` holds the command line (`asca validate`), file reading and error
display.
