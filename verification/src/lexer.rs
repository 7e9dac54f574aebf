use vstd::prelude::*;

use crate::error::{Position, RuleSyntaxError};
use vstd::string::StrSliceExecFns;

verus! {

/// The kinds of token that a rule is written in.
#[derive(Debug, Clone, Copy, PartialEq, Eq, Structural)]
pub enum TokenKind {
    LeftCurly,
    RightCurly,
    LeftBracket,
    RightBracket,
    LessThan,
    GreaterThan,
    LeftAngle,
    RightAngle,
    Arrow,
    ReverseArrow,
    Comma,
    Colon,
    Equals,
    Underline,
    UnderlineComma,
    Slash,
    DoubleSlash,
    Pipe,
    WordBoundary,
    ExtlBoundary,
    SyllBoundary,
    Syllable,
    Ellipsis,
    EmptySet,
    Ampersand,
    Minus,
    Number,
    Group,
    Ipa,
    Matrix,
}

/// A token: its kind, its first character, and the characters `start..end`
/// of the line that it spans.
#[derive(Debug, Clone, Copy, PartialEq, Eq, Structural)]
pub struct Token {
    pub kind: TokenKind,
    pub ch: char,
    pub start: usize,
    pub end: usize,
}

#[verifier::allow_in_spec]
pub fn is_ws(c: char) -> bool
    returns
        c == ' ' || c == '\t' || c == '\n' || c == '\r',
{
    c == ' ' || c == '\t' || c == '\n' || c == '\r'
}

#[verifier::allow_in_spec]
pub fn is_digit(c: char) -> bool
    returns
        '0' <= c && c <= '9',
{
    '0' <= c && c <= '9'
}

#[verifier::allow_in_spec]
pub fn is_lower(c: char) -> bool
    returns
        'a' <= c && c <= 'z',
{
    'a' <= c && c <= 'z'
}

#[verifier::allow_in_spec]
pub fn is_upper(c: char) -> bool
    returns
        'A' <= c && c <= 'Z',
{
    'A' <= c && c <= 'Z'
}

/// A Greek letter that names an alpha-variable inside a matrix.
#[verifier::allow_in_spec]
pub fn is_greek_var(c: char) -> bool
    returns
        '\u{3B1}' <= c && c <= '\u{3C9}',
{
    '\u{3B1}' <= c && c <= '\u{3C9}'
}

/// The letters that name a group of segments: consonants, obstruents,
/// sonorants, plosives, fricatives, liquids, nasals, glides and vowels.
#[verifier::allow_in_spec]
pub fn is_group_char(c: char) -> bool
    returns
        c == 'C' || c == 'O' || c == 'S' || c == 'P' || c == 'F' || c == 'L' || c == 'N' || c
            == 'G' || c == 'V',
{
    c == 'C' || c == 'O' || c == 'S' || c == 'P' || c == 'F' || c == 'L' || c == 'N' || c == 'G'
        || c == 'V'
}

/// A letter that begins an IPA segment: a lower-case Latin letter, a letter
/// of the Latin supplements and extensions, an IPA letter, or β, θ, χ.
#[verifier::allow_in_spec]
pub fn is_ipa_base(c: char) -> bool
    returns
        ('a' <= c && c <= 'z') || ('\u{C0}' <= c && c <= '\u{24F}' && c != '\u{D7}' && c
            != '\u{F7}') || ('\u{250}' <= c && c <= '\u{2AF}') || c == '\u{3B2}' || c == '\u{3B8}'
            || c == '\u{3C7}',
{
    ('a' <= c && c <= 'z') || ('\u{C0}' <= c && c <= '\u{24F}' && c != '\u{D7}' && c != '\u{F7}')
        || ('\u{250}' <= c && c <= '\u{2AF}') || c == '\u{3B2}' || c == '\u{3B8}' || c == '\u{3C7}'
}

/// A modifier letter or a combining diacritic that follows a segment's letter
/// (the stress marks excepted).
#[verifier::allow_in_spec]
pub fn is_ipa_mod(c: char) -> bool
    returns
        ('\u{2B0}' <= c && c <= '\u{2FF}' && c != '\u{2C8}' && c != '\u{2CC}') || ('\u{300}' <= c
            && c <= '\u{36F}') || ('\u{1D2C}' <= c && c <= '\u{1DBF}'),
{
    ('\u{2B0}' <= c && c <= '\u{2FF}' && c != '\u{2C8}' && c != '\u{2CC}') || ('\u{300}' <= c && c
        <= '\u{36F}') || ('\u{1D2C}' <= c && c <= '\u{1DBF}')
}

/// A character that may stand in a feature's name.
#[verifier::allow_in_spec]
pub fn is_name_char(c: char) -> bool
    returns
        ('a' <= c && c <= 'z') || ('A' <= c && c <= 'Z') || c == '.',
{
    ('a' <= c && c <= 'z') || ('A' <= c && c <= 'Z') || c == '.'
}

pub open spec fn to_lower(c: char) -> char {
    if 'A' <= c && c <= 'Z' {
        ((c as u32) + 32) as char
    } else {
        c
    }
}

pub open spec fn lower_seq(s: Seq<char>) -> Seq<char> {
    Seq::new(s.len(), |k: int| to_lower(s[k]))
}


/// The names of the features, nodes and suprasegmentals that a matrix may
/// hold (in lower case; `tone` takes a number and is read apart).
pub open spec fn feature_name(s: Seq<char>) -> bool {
    s == "root"@ || s == "consonantal"@ || s == "cons"@ || s == "sonorant"@ || s == "son"@ || s == "syllabic"@ || s == "syll"@ || s == "syl"@ || s == "manner"@ || s == "continuant"@ || s == "cont"@ || s == "approximant"@ || s == "approx"@ || s == "appr"@ || s == "lateral"@ || s == "lat"@ || s == "nasal"@ || s == "nas"@ || s == "delayedrelease"@ || s == "delrel"@ || s == "d.r."@ || s == "dr"@ || s == "strident"@ || s == "strid"@ || s == "rhotic"@ || s == "rho"@ || s == "rhot"@ || s == "click"@ || s == "clk"@ || s == "laryngeal"@ || s == "lar"@ || s == "voice"@ || s == "voi"@ || s == "spreadglottis"@ || s == "s.g."@ || s == "sg"@ || s == "constrictedglottis"@ || s == "c.g."@ || s == "cg"@ || s == "place"@ || s == "labial"@ || s == "lab"@ || s == "labiodental"@ || s == "ldental"@ || s == "round"@ || s == "rnd"@ || s == "coronal"@ || s == "cor"@ || s == "anterior"@ || s == "ant"@ || s == "distributed"@ || s == "dist"@ || s == "dis"@ || s == "dorsal"@ || s == "dor"@ || s == "front"@ || s == "fr"@ || s == "back"@ || s == "bk"@ || s == "high"@ || s == "hi"@ || s == "low"@ || s == "lo"@ || s == "tense"@ || s == "tens"@ || s == "tns"@ || s == "reduced"@ || s == "red"@ || s == "pharyngeal"@ || s == "phr"@ || s == "phar"@ || s == "advancedtongueroot"@ || s == "atr"@ || s == "retractedtongueroot"@ || s == "rtr"@ || s == "stress"@ || s == "sec.stress"@ || s == "len"@ || s == "length"@ || s == "str"@ || s == "secondarystress"@ || s == "secstr"@ || s == "long"@ || s == "lng"@ || s == "overlong"@ || s == "vlng"@ || s == "vlong"@
}

/// Whether the characters spell the literal.
pub fn chars_eq(v: &Vec<char>, lit: &str) -> (r: bool)
    ensures
        r == (v@ == lit@),
{
    let n = lit.unicode_len();
    if n != v.len() {
        return false;
    }
    let mut k: usize = 0;
    while k < n
        invariant
            n == lit@.len(),
            v@.len() == n,
            k <= n,
            forall|j: int| 0 <= j < k ==> v@[j] == lit@[j],
        decreases n - k,
    {
        if lit.get_char(k) != v[k] {
            return false;
        }
        k = k + 1;
    }
    assert(v@ =~= lit@);
    true
}

pub fn is_feature_name(s: &Vec<char>) -> (r: bool)
    ensures
        r == feature_name(s@),
{
    chars_eq(s, "root")
        || chars_eq(s, "consonantal")
        || chars_eq(s, "cons")
        || chars_eq(s, "sonorant")
        || chars_eq(s, "son")
        || chars_eq(s, "syllabic")
        || chars_eq(s, "syll")
        || chars_eq(s, "syl")
        || chars_eq(s, "manner")
        || chars_eq(s, "continuant")
        || chars_eq(s, "cont")
        || chars_eq(s, "approximant")
        || chars_eq(s, "approx")
        || chars_eq(s, "appr")
        || chars_eq(s, "lateral")
        || chars_eq(s, "lat")
        || chars_eq(s, "nasal")
        || chars_eq(s, "nas")
        || chars_eq(s, "delayedrelease")
        || chars_eq(s, "delrel")
        || chars_eq(s, "d.r.")
        || chars_eq(s, "dr")
        || chars_eq(s, "strident")
        || chars_eq(s, "strid")
        || chars_eq(s, "rhotic")
        || chars_eq(s, "rho")
        || chars_eq(s, "rhot")
        || chars_eq(s, "click")
        || chars_eq(s, "clk")
        || chars_eq(s, "laryngeal")
        || chars_eq(s, "lar")
        || chars_eq(s, "voice")
        || chars_eq(s, "voi")
        || chars_eq(s, "spreadglottis")
        || chars_eq(s, "s.g.")
        || chars_eq(s, "sg")
        || chars_eq(s, "constrictedglottis")
        || chars_eq(s, "c.g.")
        || chars_eq(s, "cg")
        || chars_eq(s, "place")
        || chars_eq(s, "labial")
        || chars_eq(s, "lab")
        || chars_eq(s, "labiodental")
        || chars_eq(s, "ldental")
        || chars_eq(s, "round")
        || chars_eq(s, "rnd")
        || chars_eq(s, "coronal")
        || chars_eq(s, "cor")
        || chars_eq(s, "anterior")
        || chars_eq(s, "ant")
        || chars_eq(s, "distributed")
        || chars_eq(s, "dist")
        || chars_eq(s, "dis")
        || chars_eq(s, "dorsal")
        || chars_eq(s, "dor")
        || chars_eq(s, "front")
        || chars_eq(s, "fr")
        || chars_eq(s, "back")
        || chars_eq(s, "bk")
        || chars_eq(s, "high")
        || chars_eq(s, "hi")
        || chars_eq(s, "low")
        || chars_eq(s, "lo")
        || chars_eq(s, "tense")
        || chars_eq(s, "tens")
        || chars_eq(s, "tns")
        || chars_eq(s, "reduced")
        || chars_eq(s, "red")
        || chars_eq(s, "pharyngeal")
        || chars_eq(s, "phr")
        || chars_eq(s, "phar")
        || chars_eq(s, "advancedtongueroot")
        || chars_eq(s, "atr")
        || chars_eq(s, "retractedtongueroot")
        || chars_eq(s, "rtr")
        || chars_eq(s, "stress")
        || chars_eq(s, "sec.stress")
        || chars_eq(s, "len")
        || chars_eq(s, "length")
        || chars_eq(s, "str")
        || chars_eq(s, "secondarystress")
        || chars_eq(s, "secstr")
        || chars_eq(s, "long")
        || chars_eq(s, "lng")
        || chars_eq(s, "overlong")
        || chars_eq(s, "vlng")
        || chars_eq(s, "vlong")
}

pub fn lower_char(c: char) -> (r: char)
    ensures
        r == to_lower(c),
{
    if 'A' <= c && c <= 'Z' {
        ((c as u8) + 32) as char
    } else {
        c
    }
}


pub open spec fn pos(g: usize, l: usize, s: int, e: int) -> Position {
    Position { group: g, line: l, start: s as usize, end: e as usize }
}

/// The first index from `j` on that is not whitespace.
pub open spec fn skip_ws(cs: Seq<char>, j: int) -> int
    decreases cs.len() - j,
{
    if 0 <= j < cs.len() && is_ws(cs[j]) {
        skip_ws(cs, j + 1)
    } else {
        j
    }
}

/// The end of the run of digits that starts at `j`.
pub open spec fn digits_end(cs: Seq<char>, j: int) -> int
    decreases cs.len() - j,
{
    if 0 <= j < cs.len() && is_digit(cs[j]) {
        digits_end(cs, j + 1)
    } else {
        j
    }
}

/// The end of the feature name that starts at `j`.
pub open spec fn name_end(cs: Seq<char>, j: int) -> int
    decreases cs.len() - j,
{
    if 0 <= j < cs.len() && is_name_char(cs[j]) {
        name_end(cs, j + 1)
    } else {
        j
    }
}

/// The end of a segment whose first letter ended at `j`: its modifiers and
/// diacritics, and any segment tied on with `^`.
pub open spec fn ipa_end(cs: Seq<char>, j: int) -> int
    decreases cs.len() - j,
{
    if 0 <= j < cs.len() && is_ipa_mod(cs[j]) {
        ipa_end(cs, j + 1)
    } else if 0 <= j && j + 1 < cs.len() && cs[j] == '^' && is_ipa_base(cs[j + 1]) {
        ipa_end(cs, j + 2)
    } else {
        j
    }
}

/// Whether an alpha-variable stands at `k`: a Greek letter, or an upper-case
/// letter directly followed by the lower-case name it binds.
pub open spec fn var_at(cs: Seq<char>, k: int) -> bool {
    0 <= k < cs.len() && (is_greek_var(cs[k]) || (is_upper(cs[k]) && k + 1 < cs.len() && is_lower(
        cs[k + 1],
    )))
}

/// One feature of a matrix, starting at `j`: an optional sign, an optional
/// variable, then a known name; or `tone`, a colon and digits. Gives the index
/// after it. `open` is where the matrix's `[` stands.
pub open spec fn feature_end(cs: Seq<char>, j: int, g: usize, l: usize, open: int) -> Result<
    int,
    RuleSyntaxError,
> {
    let has_sign = cs[j] == '+' || cs[j] == '-';
    let k1 = if has_sign {
        j + 1
    } else {
        j
    };
    let k2 = skip_ws(cs, k1);
    let has_var = var_at(cs, k2);
    let k3 = if has_var {
        k2 + 1
    } else {
        k2
    };
    let k4 = skip_ws(cs, k3);
    let k5 = name_end(cs, k4);
    if k5 == k4 {
        if k4 < cs.len() {
            Err(RuleSyntaxError::UnknownCharacter(cs[k4], pos(g, l, k4, k4 + 1)))
        } else {
            Err(RuleSyntaxError::ExpectedClosing(']', pos(g, l, open, open + 1)))
        }
    } else {
        let name = lower_seq(cs.subrange(k4, k5));
        if name == "tone"@ {
            let k6 = skip_ws(cs, k5);
            if k6 < cs.len() && cs[k6] == ':' {
                let k7 = skip_ws(cs, k6 + 1);
                let k8 = digits_end(cs, k7);
                if k8 > k7 {
                    Ok(k8)
                } else {
                    Err(RuleSyntaxError::MissingFeatureValue(pos(g, l, k4, k5)))
                }
            } else {
                Err(RuleSyntaxError::MissingFeatureValue(pos(g, l, k4, k5)))
            }
        } else if !feature_name(name) {
            Err(RuleSyntaxError::UnknownFeature(pos(g, l, k4, k5)))
        } else if !has_sign && !has_var {
            Err(RuleSyntaxError::MissingFeatureValue(pos(g, l, k4, k5)))
        } else {
            Ok(k5)
        }
    }
}

/// The rest of a matrix from `j` on: features parted by commas or spaces, up
/// to `]`. Gives the index after the `]`.
pub open spec fn matrix_end(cs: Seq<char>, j: int, g: usize, l: usize, open: int) -> Result<
    int,
    RuleSyntaxError,
>
    decreases cs.len() - j,
{
    if j < 0 || j >= cs.len() {
        Err(RuleSyntaxError::ExpectedClosing(']', pos(g, l, open, open + 1)))
    } else if is_ws(cs[j]) || cs[j] == ',' {
        matrix_end(cs, j + 1, g, l, open)
    } else if cs[j] == ']' {
        Ok(j + 1)
    } else {
        match feature_end(cs, j, g, l, open) {
            Ok(e) => if j < e <= cs.len() {
                matrix_end(cs, e, g, l, open)
            } else {
                Ok(e)
            },
            Err(x) => Err(x),
        }
    }
}

pub open spec fn mk_tok(k: TokenKind, c: char, i: int, e: int) -> Result<(Token, int), RuleSyntaxError> {
    Ok((Token { kind: k, ch: c, start: i as usize, end: e as usize }, e))
}

/// The token that starts at `i` (which is no whitespace), and the index after it.
pub open spec fn lex_one(cs: Seq<char>, i: int, g: usize, l: usize) -> Result<(Token, int), RuleSyntaxError> {
    let c = cs[i];
    let has_next = i + 1 < cs.len();
    if c == '[' {
        match matrix_end(cs, i + 1, g, l, i) {
            Ok(e) => mk_tok(TokenKind::Matrix, c, i, e),
            Err(x) => Err(x),
        }
    } else if c == '{' {
        mk_tok(TokenKind::LeftCurly, c, i, i + 1)
    } else if c == '}' {
        mk_tok(TokenKind::RightCurly, c, i, i + 1)
    } else if c == '(' {
        mk_tok(TokenKind::LeftBracket, c, i, i + 1)
    } else if c == ')' {
        mk_tok(TokenKind::RightBracket, c, i, i + 1)
    } else if c == ',' {
        mk_tok(TokenKind::Comma, c, i, i + 1)
    } else if c == ':' {
        mk_tok(TokenKind::Colon, c, i, i + 1)
    } else if c == '|' {
        mk_tok(TokenKind::Pipe, c, i, i + 1)
    } else if c == '$' {
        mk_tok(TokenKind::SyllBoundary, c, i, i + 1)
    } else if c == '%' {
        mk_tok(TokenKind::Syllable, c, i, i + 1)
    } else if c == '&' {
        mk_tok(TokenKind::Ampersand, c, i, i + 1)
    } else if c == '*' || c == '\u{2205}' {
        mk_tok(TokenKind::EmptySet, c, i, i + 1)
    } else if c == '<' {
        mk_tok(TokenKind::LessThan, c, i, i + 1)
    } else if c == '>' {
        mk_tok(TokenKind::GreaterThan, c, i, i + 1)
    } else if c == '\u{27E8}' {
        mk_tok(TokenKind::LeftAngle, c, i, i + 1)
    } else if c == '\u{27E9}' {
        mk_tok(TokenKind::RightAngle, c, i, i + 1)
    } else if c == '\u{2192}' {
        mk_tok(TokenKind::Arrow, c, i, i + 1)
    } else if c == '\u{2026}' {
        mk_tok(TokenKind::Ellipsis, c, i, i + 1)
    } else if c == '~' {
        if has_next && cs[i + 1] == '>' {
            mk_tok(TokenKind::ReverseArrow, c, i, i + 2)
        } else {
            mk_tok(TokenKind::ReverseArrow, c, i, i + 1)
        }
    } else if c == '/' {
        if has_next && cs[i + 1] == '/' {
            mk_tok(TokenKind::DoubleSlash, c, i, i + 2)
        } else {
            mk_tok(TokenKind::Slash, c, i, i + 1)
        }
    } else if c == '#' {
        if has_next && cs[i + 1] == '#' {
            mk_tok(TokenKind::ExtlBoundary, c, i, i + 2)
        } else {
            mk_tok(TokenKind::WordBoundary, c, i, i + 1)
        }
    } else if c == '.' {
        if has_next && cs[i + 1] == '.' {
            mk_tok(TokenKind::Ellipsis, c, i, i + 2)
        } else {
            Err(RuleSyntaxError::UnknownCharacter(c, pos(g, l, i, i + 1)))
        }
    } else if c == '-' {
        if has_next && cs[i + 1] == '>' {
            mk_tok(TokenKind::Arrow, c, i, i + 2)
        } else {
            mk_tok(TokenKind::Minus, c, i, i + 1)
        }
    } else if c == '\u{AC}' {
        mk_tok(TokenKind::Minus, c, i, i + 1)
    } else if c == '=' {
        if has_next && cs[i + 1] == '>' {
            mk_tok(TokenKind::Arrow, c, i, i + 2)
        } else {
            mk_tok(TokenKind::Equals, c, i, i + 1)
        }
    } else if c == '_' {
        if has_next && cs[i + 1] == ',' && i + 2 < cs.len() && !is_ws(cs[i + 2]) && cs[i + 2] != '_' {
            mk_tok(TokenKind::UnderlineComma, c, i, i + 2)
        } else {
            mk_tok(TokenKind::Underline, c, i, i + 1)
        }
    } else if is_digit(c) {
        mk_tok(TokenKind::Number, c, i, digits_end(cs, i + 1))
    } else if is_group_char(c) {
        mk_tok(TokenKind::Group, c, i, i + 1)
    } else if is_upper(c) {
        Err(RuleSyntaxError::UnknownGroup(c, pos(g, l, i, i + 1)))
    } else if is_ipa_base(c) {
        mk_tok(TokenKind::Ipa, c, i, ipa_end(cs, i + 1))
    } else {
        Err(RuleSyntaxError::UnknownCharacter(c, pos(g, l, i, i + 1)))
    }
}

/// The tokens of the line from `i` on; whitespace parts tokens and is dropped.
pub open spec fn lex_from(cs: Seq<char>, i: int, g: usize, l: usize) -> Result<Seq<Token>, RuleSyntaxError>
    decreases cs.len() - i,
{
    if i < 0 || i >= cs.len() {
        Ok(Seq::empty())
    } else if is_ws(cs[i]) {
        lex_from(cs, i + 1, g, l)
    } else {
        match lex_one(cs, i, g, l) {
            Err(x) => Err(x),
            Ok((t, j)) => if i < j <= cs.len() {
                match lex_from(cs, j, g, l) {
                    Ok(rest) => Ok(seq![t] + rest),
                    Err(x) => Err(x),
                }
            } else {
                Err(RuleSyntaxError::UnknownCharacter(cs[i], pos(g, l, i, i + 1)))
            },
        }
    }
}

/// The tokens of a line of a rule group.
pub open spec fn lex_tokens(cs: Seq<char>, g: usize, l: usize) -> Result<Seq<Token>, RuleSyntaxError> {
    lex_from(cs, 0, g, l)
}

pub open spec fn vec_result<T>(r: Result<Vec<T>, RuleSyntaxError>) -> Result<Seq<T>, RuleSyntaxError> {
    match r {
        Ok(v) => Ok(v@),
        Err(e) => Err(e),
    }
}


fn scan_ws(cs: &Vec<char>, j: usize) -> (r: usize)
    requires
        j <= cs.len(),
    ensures
        r == skip_ws(cs@, j as int),
        j <= r <= cs.len(),
{
    let mut k = j;
    while k < cs.len() && is_ws(cs[k])
        invariant
            j <= k <= cs.len(),
            skip_ws(cs@, k as int) == skip_ws(cs@, j as int),
        decreases cs.len() - k,
    {
        k = k + 1;
    }
    k
}

fn scan_digits(cs: &Vec<char>, j: usize) -> (r: usize)
    requires
        j <= cs.len(),
    ensures
        r == digits_end(cs@, j as int),
        j <= r <= cs.len(),
{
    let mut k = j;
    while k < cs.len() && is_digit(cs[k])
        invariant
            j <= k <= cs.len(),
            digits_end(cs@, k as int) == digits_end(cs@, j as int),
        decreases cs.len() - k,
    {
        k = k + 1;
    }
    k
}

fn scan_name(cs: &Vec<char>, j: usize) -> (r: usize)
    requires
        j <= cs.len(),
    ensures
        r == name_end(cs@, j as int),
        j <= r <= cs.len(),
{
    let mut k = j;
    while k < cs.len() && is_name_char(cs[k])
        invariant
            j <= k <= cs.len(),
            name_end(cs@, k as int) == name_end(cs@, j as int),
        decreases cs.len() - k,
    {
        k = k + 1;
    }
    k
}

fn scan_ipa(cs: &Vec<char>, j: usize) -> (r: usize)
    requires
        j <= cs.len(),
    ensures
        r == ipa_end(cs@, j as int),
        j <= r <= cs.len(),
{
    let mut k = j;
    loop
        invariant
            j <= k <= cs.len(),
            ipa_end(cs@, k as int) == ipa_end(cs@, j as int),
        decreases cs.len() - k,
    {
        if k < cs.len() && is_ipa_mod(cs[k]) {
            k = k + 1;
        } else if k < cs.len() && k + 1 < cs.len() && cs[k] == '^' && is_ipa_base(cs[k + 1]) {
            k = k + 2;
        } else {
            return k;
        }
    }
}

/// The characters `from..to`, in lower case.
fn lowered(cs: &Vec<char>, from: usize, to: usize) -> (r: Vec<char>)
    requires
        from <= to <= cs.len(),
    ensures
        r@ == lower_seq(cs@.subrange(from as int, to as int)),
{
    let mut r: Vec<char> = Vec::new();
    let mut k = from;
    while k < to
        invariant
            from <= k <= to <= cs.len(),
            r@ == lower_seq(cs@.subrange(from as int, k as int)),
        decreases to - k,
    {
        r.push(lower_char(cs[k]));
        k = k + 1;
        assert(r@ =~= lower_seq(cs@.subrange(from as int, k as int)));
    }
    r
}

pub fn position(g: usize, l: usize, s: usize, e: usize) -> (p: Position)
    ensures
        p == pos(g, l, s as int, e as int),
{
    Position { group: g, line: l, start: s, end: e }
}

fn feature_end_exec(cs: &Vec<char>, j: usize, g: usize, l: usize, open: usize) -> (res: Result<
    usize,
    RuleSyntaxError,
>)
    requires
        j < cs.len(),
        open < cs.len(),
    ensures
        (match res {
            Ok(e) => feature_end(cs@, j as int, g, l, open as int) == Ok::<int, RuleSyntaxError>(
                e as int,
            ) && j < e <= cs.len(),
            Err(x) => feature_end(cs@, j as int, g, l, open as int) == Err::<int, RuleSyntaxError>(x),
        }),
{
    let has_sign = cs[j] == '+' || cs[j] == '-';
    let k1 = if has_sign {
        j + 1
    } else {
        j
    };
    let k2 = scan_ws(cs, k1);
    let has_var = k2 < cs.len() && (is_greek_var(cs[k2]) || (is_upper(cs[k2]) && k2 + 1
        < cs.len() && is_lower(cs[k2 + 1])));
    let k3 = if has_var {
        k2 + 1
    } else {
        k2
    };
    let k4 = scan_ws(cs, k3);
    let k5 = scan_name(cs, k4);
    if k5 == k4 {
        if k4 < cs.len() {
            Err(RuleSyntaxError::UnknownCharacter(cs[k4], position(g, l, k4, k4 + 1)))
        } else {
            Err(RuleSyntaxError::ExpectedClosing(']', position(g, l, open, open + 1)))
        }
    } else {
        let name = lowered(cs, k4, k5);
        if chars_eq(&name, "tone") {
            let k6 = scan_ws(cs, k5);
            if k6 < cs.len() && cs[k6] == ':' {
                let k7 = scan_ws(cs, k6 + 1);
                let k8 = scan_digits(cs, k7);
                if k8 > k7 {
                    Ok(k8)
                } else {
                    Err(RuleSyntaxError::MissingFeatureValue(position(g, l, k4, k5)))
                }
            } else {
                Err(RuleSyntaxError::MissingFeatureValue(position(g, l, k4, k5)))
            }
        } else if !is_feature_name(&name) {
            Err(RuleSyntaxError::UnknownFeature(position(g, l, k4, k5)))
        } else if !has_sign && !has_var {
            Err(RuleSyntaxError::MissingFeatureValue(position(g, l, k4, k5)))
        } else {
            Ok(k5)
        }
    }
}

fn matrix_end_exec(cs: &Vec<char>, j: usize, g: usize, l: usize, open: usize) -> (res: Result<
    usize,
    RuleSyntaxError,
>)
    requires
        j <= cs.len(),
        open < cs.len(),
    ensures
        (match res {
            Ok(e) => matrix_end(cs@, j as int, g, l, open as int) == Ok::<int, RuleSyntaxError>(
                e as int,
            ) && j < e <= cs.len(),
            Err(x) => matrix_end(cs@, j as int, g, l, open as int) == Err::<int, RuleSyntaxError>(x),
        }),
{
    let mut k = j;
    loop
        invariant
            j <= k <= cs.len(),
            open < cs.len(),
            matrix_end(cs@, k as int, g, l, open as int) == matrix_end(
                cs@,
                j as int,
                g,
                l,
                open as int,
            ),
        decreases cs.len() - k,
    {
        if k >= cs.len() {
            return Err(RuleSyntaxError::ExpectedClosing(']', position(g, l, open, open + 1)));
        } else if is_ws(cs[k]) || cs[k] == ',' {
            k = k + 1;
        } else if cs[k] == ']' {
            return Ok(k + 1);
        } else {
            match feature_end_exec(cs, k, g, l, open) {
                Ok(e) => {
                    k = e;
                },
                Err(x) => {
                    return Err(x);
                },
            }
        }
    }
}

pub open spec fn tok_result(r: Result<(Token, usize), RuleSyntaxError>) -> Result<
    (Token, int),
    RuleSyntaxError,
> {
    match r {
        Ok((t, e)) => Ok((t, e as int)),
        Err(x) => Err(x),
    }
}

fn mk(k: TokenKind, c: char, i: usize, e: usize) -> (r: Result<(Token, usize), RuleSyntaxError>)
    ensures
        tok_result(r) == mk_tok(k, c, i as int, e as int),
        r is Ok,
        r matches Ok((_, e2)) ==> e2 == e,
{
    Ok((Token { kind: k, ch: c, start: i, end: e }, e))
}

fn lex_one_exec(cs: &Vec<char>, i: usize, g: usize, l: usize) -> (res: Result<
    (Token, usize),
    RuleSyntaxError,
>)
    requires
        i < cs.len(),
    ensures
        tok_result(res) == lex_one(cs@, i as int, g, l),
        res matches Ok((_, e)) ==> i < e <= cs.len(),
{
    let c = cs[i];
    let has_next = i + 1 < cs.len();
    if c == '[' {
        match matrix_end_exec(cs, i + 1, g, l, i) {
            Ok(e) => mk(TokenKind::Matrix, c, i, e),
            Err(x) => Err(x),
        }
    } else if c == '{' {
        mk(TokenKind::LeftCurly, c, i, i + 1)
    } else if c == '}' {
        mk(TokenKind::RightCurly, c, i, i + 1)
    } else if c == '(' {
        mk(TokenKind::LeftBracket, c, i, i + 1)
    } else if c == ')' {
        mk(TokenKind::RightBracket, c, i, i + 1)
    } else if c == ',' {
        mk(TokenKind::Comma, c, i, i + 1)
    } else if c == ':' {
        mk(TokenKind::Colon, c, i, i + 1)
    } else if c == '|' {
        mk(TokenKind::Pipe, c, i, i + 1)
    } else if c == '$' {
        mk(TokenKind::SyllBoundary, c, i, i + 1)
    } else if c == '%' {
        mk(TokenKind::Syllable, c, i, i + 1)
    } else if c == '&' {
        mk(TokenKind::Ampersand, c, i, i + 1)
    } else if c == '*' || c == '\u{2205}' {
        mk(TokenKind::EmptySet, c, i, i + 1)
    } else if c == '<' {
        mk(TokenKind::LessThan, c, i, i + 1)
    } else if c == '>' {
        mk(TokenKind::GreaterThan, c, i, i + 1)
    } else if c == '\u{27E8}' {
        mk(TokenKind::LeftAngle, c, i, i + 1)
    } else if c == '\u{27E9}' {
        mk(TokenKind::RightAngle, c, i, i + 1)
    } else if c == '\u{2192}' {
        mk(TokenKind::Arrow, c, i, i + 1)
    } else if c == '\u{2026}' {
        mk(TokenKind::Ellipsis, c, i, i + 1)
    } else if c == '~' {
        if has_next && cs[i + 1] == '>' {
            mk(TokenKind::ReverseArrow, c, i, i + 2)
        } else {
            mk(TokenKind::ReverseArrow, c, i, i + 1)
        }
    } else if c == '/' {
        if has_next && cs[i + 1] == '/' {
            mk(TokenKind::DoubleSlash, c, i, i + 2)
        } else {
            mk(TokenKind::Slash, c, i, i + 1)
        }
    } else if c == '#' {
        if has_next && cs[i + 1] == '#' {
            mk(TokenKind::ExtlBoundary, c, i, i + 2)
        } else {
            mk(TokenKind::WordBoundary, c, i, i + 1)
        }
    } else if c == '.' {
        if has_next && cs[i + 1] == '.' {
            mk(TokenKind::Ellipsis, c, i, i + 2)
        } else {
            Err(RuleSyntaxError::UnknownCharacter(c, position(g, l, i, i + 1)))
        }
    } else if c == '-' {
        if has_next && cs[i + 1] == '>' {
            mk(TokenKind::Arrow, c, i, i + 2)
        } else {
            mk(TokenKind::Minus, c, i, i + 1)
        }
    } else if c == '\u{AC}' {
        mk(TokenKind::Minus, c, i, i + 1)
    } else if c == '=' {
        if has_next && cs[i + 1] == '>' {
            mk(TokenKind::Arrow, c, i, i + 2)
        } else {
            mk(TokenKind::Equals, c, i, i + 1)
        }
    } else if c == '_' {
        if has_next && cs[i + 1] == ',' && i + 2 < cs.len() && !is_ws(cs[i + 2]) && cs[i + 2] != '_' {
            mk(TokenKind::UnderlineComma, c, i, i + 2)
        } else {
            mk(TokenKind::Underline, c, i, i + 1)
        }
    } else if is_digit(c) {
        let e = scan_digits(cs, i + 1);
        mk(TokenKind::Number, c, i, e)
    } else if is_group_char(c) {
        mk(TokenKind::Group, c, i, i + 1)
    } else if is_upper(c) {
        Err(RuleSyntaxError::UnknownGroup(c, position(g, l, i, i + 1)))
    } else if is_ipa_base(c) {
        let e = scan_ipa(cs, i + 1);
        mk(TokenKind::Ipa, c, i, e)
    } else {
        Err(RuleSyntaxError::UnknownCharacter(c, position(g, l, i, i + 1)))
    }
}

pub open spec fn prepend(p: Seq<Token>, r: Result<Seq<Token>, RuleSyntaxError>) -> Result<
    Seq<Token>,
    RuleSyntaxError,
> {
    match r {
        Ok(t) => Ok(p + t),
        Err(x) => Err(x),
    }
}

/// The tokens of one line of a rule group.
pub fn lex_line(cs: &Vec<char>, group: usize, line: usize) -> (res: Result<
    Vec<Token>,
    RuleSyntaxError,
>)
    ensures
        vec_result(res) == lex_tokens(cs@, group, line),
{
    let mut out: Vec<Token> = Vec::new();
    let mut i: usize = 0;
    assert(out@ + Seq::<Token>::empty() =~= out@);
    while i < cs.len()
        invariant
            i <= cs.len(),
            lex_tokens(cs@, group, line) == prepend(out@, lex_from(cs@, i as int, group, line)),
        decreases cs.len() - i,
    {
        if is_ws(cs[i]) {
            i = i + 1;
        } else {
            match lex_one_exec(cs, i, group, line) {
                Err(x) => {
                    return Err(x);
                },
                Ok((t, j)) => {
                    proof {
                        let rest = lex_from(cs@, j as int, group, line);
                        match rest {
                            Ok(r) => {
                                assert(out@ + (seq![t] + r) =~= out@.push(t) + r);
                            },
                            Err(_) => {},
                        }
                    }
                    out.push(t);
                    i = j;
                },
            }
        }
    }
    assert(out@ + Seq::<Token>::empty() =~= out@);
    Ok(out)
}

/// The characters of a string, in order.
pub fn str_chars(s: &str) -> (v: Vec<char>)
    ensures
        v@ == s@,
{
    let mut v: Vec<char> = Vec::new();
    for c in it: s.chars()
        invariant
            v@ == it.seq().take(it.index() as int),
            it.seq() == s@,
    {
        v.push(c);
    }
    v
}


/// The tokens from index `i` on lie in order inside `i..cs.len()`, each
/// spanning at least one character and none overlapping the next.
pub open spec fn spans_ordered(t: Seq<Token>, i: int, n: int) -> bool {
    &&& forall|k: int| 0 <= k < t.len() ==> i <= #[trigger] t[k].start < t[k].end <= n
    &&& forall|k: int| 0 <= k < t.len() - 1 ==> #[trigger] t[k].end <= t[k + 1].start
}

proof fn lemma_lex_one_span(cs: Seq<char>, i: int, g: usize, l: usize)
    requires
        0 <= i < cs.len(),
        cs.len() <= usize::MAX,
    ensures
        lex_one(cs, i, g, l) matches Ok((tok, j)) ==> (i < j <= cs.len() ==> tok.start == i
            && tok.end == j),
{
}

proof fn lemma_lex_from_spans(cs: Seq<char>, i: int, g: usize, l: usize)
    requires
        0 <= i <= cs.len(),
        cs.len() <= usize::MAX,
    ensures
        lex_from(cs, i, g, l) matches Ok(t) ==> spans_ordered(t, i, cs.len() as int),
    decreases cs.len() - i,
{
    if i < cs.len() {
        if is_ws(cs[i]) {
            lemma_lex_from_spans(cs, i + 1, g, l);
        } else {
            lemma_lex_one_span(cs, i, g, l);
            match lex_one(cs, i, g, l) {
                Ok((tok, j)) => {
                    if i < j <= cs.len() {
                        lemma_lex_from_spans(cs, j, g, l);
                        match lex_from(cs, j, g, l) {
                            Ok(rest) => {
                                let t = seq![tok] + rest;
                                assert forall|k: int| 0 <= k < t.len() - 1 implies #[trigger] t[k].end
                                    <= t[k + 1].start by {
                                    if k > 0 {
                                        assert(t[k] == rest[k - 1]);
                                        assert(t[k + 1] == rest[k]);
                                    } else {
                                        assert(t[1] == rest[0]);
                                    }
                                }
                                assert forall|k: int| 0 <= k < t.len() implies i <= #[trigger] t[k].start
                                    < t[k].end <= cs.len() by {
                                    if k > 0 {
                                        assert(t[k] == rest[k - 1]);
                                    }
                                }
                            },
                            Err(_) => {},
                        }
                    }
                },
                Err(_) => {},
            }
        }
    }
}

/// The tokens of a line lie in order inside it: each spans at least one
/// character of the line, and each ends where or before the next begins.
pub proof fn law_tokens_in_order(cs: Seq<char>, g: usize, l: usize)
    requires
        cs.len() <= usize::MAX,
    ensures
        lex_tokens(cs, g, l) matches Ok(t) ==> spans_ordered(t, 0, cs.len() as int),
{
    lemma_lex_from_spans(cs, 0, g, l);
}


/// Every character from `a` up to `b` is whitespace.
pub open spec fn ws_between(cs: Seq<char>, a: int, b: int) -> bool {
    forall|p: int| a <= p < b ==> is_ws(#[trigger] cs[p])
}

/// The tokens drop nothing of the line from `i` on but whitespace: what stands
/// before the first token, between two tokens and after the last is whitespace,
/// and each token records the character it starts at.
pub open spec fn drops_only_ws(cs: Seq<char>, t: Seq<Token>, i: int) -> bool {
    &&& forall|k: int| 0 <= k < t.len() ==> (#[trigger] t[k]).ch == cs[t[k].start as int]
    &&& forall|k: int|
        0 <= k < t.len() - 1 ==> #[trigger] ws_between(cs, t[k].end as int, t[k + 1].start as int)
    &&& t.len() == 0 ==> ws_between(cs, i, cs.len() as int)
    &&& t.len() > 0 ==> ws_between(cs, i, t[0].start as int) && ws_between(
        cs,
        t.last().end as int,
        cs.len() as int,
    )
}

proof fn lemma_lex_one_char(cs: Seq<char>, i: int, g: usize, l: usize)
    requires
        0 <= i < cs.len(),
    ensures
        lex_one(cs, i, g, l) matches Ok((tok, _)) ==> tok.ch == cs[i],
{
}

proof fn lemma_ws_step(cs: Seq<char>, i: int, t: Seq<Token>)
    requires
        0 <= i < cs.len(),
        is_ws(cs[i]),
        drops_only_ws(cs, t, i + 1),
    ensures
        drops_only_ws(cs, t, i),
{
    if t.len() == 0 {
        assert forall|p: int| i <= p < cs.len() implies is_ws(#[trigger] cs[p]) by {
            if p > i {
                assert(ws_between(cs, i + 1, cs.len() as int));
            }
        }
    } else {
        assert forall|p: int| i <= p < t[0].start implies is_ws(#[trigger] cs[p]) by {
            if p > i {
                assert(ws_between(cs, i + 1, t[0].start as int));
            }
        }
    }
}

proof fn lemma_token_step(cs: Seq<char>, i: int, tok: Token, rest: Seq<Token>)
    requires
        0 <= i < cs.len(),
        tok.start == i,
        tok.ch == cs[i],
        drops_only_ws(cs, rest, tok.end as int),
    ensures
        drops_only_ws(cs, seq![tok] + rest, i),
{
    let t = seq![tok] + rest;
    assert(t[0] == tok);
    assert forall|k: int| 0 <= k < t.len() implies (#[trigger] t[k]).ch == cs[t[k].start as int] by {
        if k > 0 {
            assert(t[k] == rest[k - 1]);
        }
    }
    assert forall|k: int| 0 <= k < t.len() - 1 implies #[trigger] ws_between(
        cs,
        t[k].end as int,
        t[k + 1].start as int,
    ) by {
        if k > 0 {
            assert(t[k] == rest[k - 1]);
            assert(t[k + 1] == rest[k]);
            let k1 = k - 1;
            assert(ws_between(cs, rest[k1].end as int, rest[k1 + 1].start as int));
        } else {
            assert(t[1] == rest[0]);
        }
    }
    if rest.len() > 0 {
        assert(t.last() == rest.last());
    } else {
        assert(t.last() == tok);
    }
}

proof fn lemma_lex_from_ws(cs: Seq<char>, i: int, g: usize, l: usize)
    requires
        0 <= i <= cs.len(),
        cs.len() <= usize::MAX,
    ensures
        lex_from(cs, i, g, l) matches Ok(t) ==> drops_only_ws(cs, t, i),
    decreases cs.len() - i,
{
    if i < cs.len() {
        if is_ws(cs[i]) {
            lemma_lex_from_ws(cs, i + 1, g, l);
            match lex_from(cs, i, g, l) {
                Ok(t) => {
                    lemma_ws_step(cs, i, t);
                },
                Err(_) => {},
            }
        } else {
            lemma_lex_one_span(cs, i, g, l);
            lemma_lex_one_char(cs, i, g, l);
            match lex_one(cs, i, g, l) {
                Ok((tok, j)) => {
                    if i < j <= cs.len() {
                        lemma_lex_from_ws(cs, j, g, l);
                        match lex_from(cs, j, g, l) {
                            Ok(rest) => {
                                lemma_token_step(cs, i, tok, rest);
                            },
                            Err(_) => {},
                        }
                    }
                },
                Err(_) => {},
            }
        }
    } else {
        assert(ws_between(cs, i, cs.len() as int));
    }
}

/// Lexing drops nothing but whitespace: before the first token, between two
/// tokens and after the last, the line holds only whitespace, and each token
/// records the character it starts at.
pub proof fn law_lexing_drops_only_whitespace(cs: Seq<char>, g: usize, l: usize)
    requires
        cs.len() <= usize::MAX,
    ensures
        lex_tokens(cs, g, l) matches Ok(t) ==> drops_only_ws(cs, t, 0),
{
    lemma_lex_from_ws(cs, 0, g, l);
}


/// Both negation signs of the rule syntax lex as a negation: `¬` always, and
/// `-` wherever it does not begin an arrow `->`. Each is one character long
/// and records the sign it was written with.
pub proof fn law_negation_signs_lex_as_minus(cs: Seq<char>, i: int, g: usize, l: usize)
    requires
        0 <= i < cs.len(),
        cs.len() <= usize::MAX,
    ensures
        cs[i] == '\u{AC}' ==> lex_one(cs, i, g, l) == Ok::<(Token, int), RuleSyntaxError>(
            (Token { kind: TokenKind::Minus, ch: '\u{AC}', start: i as usize, end: (i + 1) as usize }, i + 1),
        ),
        (cs[i] == '-' && !(i + 1 < cs.len() && cs[i + 1] == '>')) ==> lex_one(cs, i, g, l) == Ok::<
            (Token, int),
            RuleSyntaxError,
        >((Token { kind: TokenKind::Minus, ch: '-', start: i as usize, end: (i + 1) as usize }, i + 1)),
{
}

/// Every name and abbreviation of the feature table is a feature that a
/// matrix may hold.
pub proof fn law_feature_table_names()
    ensures
        feature_name("root"@),
        feature_name("consonantal"@),
        feature_name("cons"@),
        feature_name("sonorant"@),
        feature_name("son"@),
        feature_name("syllabic"@),
        feature_name("syll"@),
        feature_name("syl"@),
        feature_name("manner"@),
        feature_name("continuant"@),
        feature_name("cont"@),
        feature_name("approximant"@),
        feature_name("approx"@),
        feature_name("appr"@),
        feature_name("lateral"@),
        feature_name("lat"@),
        feature_name("nasal"@),
        feature_name("nas"@),
        feature_name("delayedrelease"@),
        feature_name("delrel"@),
        feature_name("d.r."@),
        feature_name("dr"@),
        feature_name("strident"@),
        feature_name("strid"@),
        feature_name("rhotic"@),
        feature_name("rho"@),
        feature_name("rhot"@),
        feature_name("click"@),
        feature_name("clk"@),
        feature_name("laryngeal"@),
        feature_name("lar"@),
        feature_name("voice"@),
        feature_name("voi"@),
        feature_name("spreadglottis"@),
        feature_name("s.g."@),
        feature_name("sg"@),
        feature_name("constrictedglottis"@),
        feature_name("c.g."@),
        feature_name("cg"@),
        feature_name("place"@),
        feature_name("labial"@),
        feature_name("lab"@),
        feature_name("labiodental"@),
        feature_name("ldental"@),
        feature_name("round"@),
        feature_name("rnd"@),
        feature_name("coronal"@),
        feature_name("cor"@),
        feature_name("anterior"@),
        feature_name("ant"@),
        feature_name("distributed"@),
        feature_name("dist"@),
        feature_name("dis"@),
        feature_name("dorsal"@),
        feature_name("dor"@),
        feature_name("front"@),
        feature_name("fr"@),
        feature_name("back"@),
        feature_name("bk"@),
        feature_name("high"@),
        feature_name("hi"@),
        feature_name("low"@),
        feature_name("lo"@),
        feature_name("tense"@),
        feature_name("tens"@),
        feature_name("tns"@),
        feature_name("reduced"@),
        feature_name("red"@),
        feature_name("pharyngeal"@),
        feature_name("phr"@),
        feature_name("phar"@),
        feature_name("advancedtongueroot"@),
        feature_name("atr"@),
        feature_name("retractedtongueroot"@),
        feature_name("rtr"@),
        feature_name("stress"@),
        feature_name("sec.stress"@),
        feature_name("len"@),
        feature_name("length"@),
        feature_name("str"@),
        feature_name("secondarystress"@),
        feature_name("secstr"@),
        feature_name("long"@),
        feature_name("lng"@),
        feature_name("overlong"@),
        feature_name("vlng"@),
        feature_name("vlong"@),
{
}

} // verus!
