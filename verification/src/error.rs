use vstd::prelude::*;

use crate::rule::{EnvItem, ParseItem};

verus! {

/// Where in a rule file a token or an item stands: the rule group, the line of
/// that group, and the span of characters `start..end` within the line.
#[derive(Clone, Copy, Debug, PartialEq, Eq, Structural)]
pub struct Position {
    pub group: usize,
    pub line: usize,
    pub start: usize,
    pub end: usize,
}

impl Position {
    pub fn new(group: usize, line: usize, start: usize, end: usize) -> (p: Position)
        ensures
            p == (Position { group, line, start, end }),
    {
        Position { group, line, start, end }
    }
}

/// Why a rule, or a field of a rule, was refused.
#[derive(Clone, Debug)]
pub enum RuleSyntaxError {
    /// A character that may not stand where it stands.
    UnknownCharacter(char, Position),
    /// An upper-case letter outside a feature matrix that names no group.
    UnknownGroup(char, Position),
    /// A feature name that the feature table does not hold.
    UnknownFeature(Position),
    /// A feature written without a value (`+`, `-` or a variable).
    MissingFeatureValue(Position),
    /// A bracket that is never closed.
    ExpectedClosing(char, Position),
    /// A matrix `[..]` was expected after `:`.
    ExpectedMatrix(Position),
    /// A number was expected after `=`.
    ExpectedNumber(Position),
    /// A segment, a group, a matrix, a set or a structure was expected.
    ExpectedSegment(Position),
    /// The input of a rule is empty.
    EmptyInput(Position),
    /// The output of a rule is empty.
    EmptyOutput(Position),
    /// A `/` with no environment after it.
    EmptyEnv(Position),
    /// A word boundary `#` in the input.
    WordBoundLoc(Position),
    /// An optional `(..)` outside an environment.
    OptLocError(Position),
    /// A negated item in the output.
    BadNegationOutput(Position),
    /// An environment without `_`.
    ExpectedUnderline(Position),
    /// An environment with more than one `_`.
    TooManyUnderlines(Position),
    /// Tokens left over after the rule or the field ended.
    ExpectedEndLine(Position),
    /// No arrow between the input and the output.
    ExpectedArrow(Position),
    /// Condensed inputs or outputs whose counts do not match.
    UnbalancedRuleIO(Vec<Vec<ParseItem>>),
    /// Condensed environments whose count does not match the rule's.
    UnbalancedRuleEnv(Vec<EnvItem>),
    /// An insertion whose output is empty too: group, line, input start, output start.
    InsertDelete(usize, usize, usize, usize),
    /// An insertion whose output is a metathesis: group, line, input start, output start.
    InsertMetath(usize, usize, usize, usize),
}

} // verus!
