//! The lexer: one source line in, a stream of typed lexemes out. Every
//! token carries a half-open byte range into the original input, so errors
//! can be reported with exact column spans.

use vstd::prelude::*;

verus! {

/// The base a number lexeme is written in.
#[derive(Clone, Copy, Debug, PartialEq, Eq, Structural)]
pub enum NumberBase {
    Decimal,
    Hexadecimal,
}

/// The kinds of lexeme the assembly language knows.
#[derive(Clone, Copy, Debug, PartialEq, Eq, Structural)]
pub enum Term {
    ChampionNameCmd,
    ChampionCommentCmd,
    CodeCmd,
    QuotedString,
    LabelDef,
    LabelUse,
    DirectChar,
    ParamSeparator,
    Number { base: NumberBase },
    Ident,
    Comment,
}

/// A lexeme: its kind and its half-open byte range in the input line.
/// A `QuotedString` range excludes the quotes; a `LabelDef` range includes
/// the trailing colon and a `LabelUse` range the leading one.
#[derive(Clone, Copy, Debug, PartialEq, Eq, Structural)]
pub struct Token {
    pub term: Term,
    pub start: usize,
    pub end: usize,
}

/// What stopped the lexer.
#[derive(Clone, Copy, Debug, PartialEq, Eq, Structural)]
pub enum LexerErrorKind {
    /// No pattern matches at this position.
    UnknownChar,
    /// A quote was opened and never closed.
    UnterminatedString,
    /// A number prefix with no digits after it.
    InvalidNumber,
}

/// A lexing failure and the byte range it covers.
#[derive(Clone, Copy, Debug, PartialEq, Eq, Structural)]
pub struct LexerError {
    pub kind: LexerErrorKind,
    pub start: usize,
    pub end: usize,
}

/// One step of the scanner: a token and the position after it, or a
/// failure.
#[derive(Clone, Copy, Debug, PartialEq, Eq, Structural)]
pub enum ScanStep {
    Tok { tok: Token, next: usize },
    Fail { err: LexerError },
}

/// Space or horizontal tab: skipped between lexemes.
pub open spec fn is_space(b: u8) -> bool {
    b == 32 || b == 9
}

/// A decimal digit.
pub open spec fn is_digit(b: u8) -> bool {
    48 <= b <= 57
}

/// A hexadecimal digit.
pub open spec fn is_hex_digit(b: u8) -> bool {
    is_digit(b) || (97 <= b <= 102) || (65 <= b <= 70)
}

/// A letter or underscore: what an identifier may start with.
pub open spec fn is_alpha(b: u8) -> bool {
    (97 <= b <= 122) || (65 <= b <= 90) || b == 95
}

/// A letter, digit or underscore: what an identifier continues with.
pub open spec fn is_ident_byte(b: u8) -> bool {
    is_alpha(b) || is_digit(b)
}

/// First position at or after `p` that does not hold whitespace.
pub open spec fn spec_skip_spaces(s: Seq<u8>, p: int) -> int
    decreases s.len() - p,
{
    if 0 <= p < s.len() && is_space(s[p]) {
        spec_skip_spaces(s, p + 1)
    } else {
        p
    }
}

/// First position at or after `p` that does not hold an identifier byte.
pub open spec fn spec_ident_end(s: Seq<u8>, p: int) -> int
    decreases s.len() - p,
{
    if 0 <= p < s.len() && is_ident_byte(s[p]) {
        spec_ident_end(s, p + 1)
    } else {
        p
    }
}

/// First position at or after `p` that does not hold a digit of the base.
pub open spec fn spec_digits_end(s: Seq<u8>, p: int, hex: bool) -> int
    decreases s.len() - p,
{
    if 0 <= p < s.len() && (if hex {
        is_hex_digit(s[p])
    } else {
        is_digit(s[p])
    }) {
        spec_digits_end(s, p + 1, hex)
    } else {
        p
    }
}

pub proof fn lemma_skip_spaces_bounds(s: Seq<u8>, p: int)
    requires
        0 <= p <= s.len(),
    ensures
        p <= spec_skip_spaces(s, p) <= s.len(),
        spec_skip_spaces(s, p) < s.len() ==> !is_space(s[spec_skip_spaces(s, p)]),
    decreases s.len() - p,
{
    if p < s.len() && is_space(s[p]) {
        lemma_skip_spaces_bounds(s, p + 1);
    }
}

pub proof fn lemma_ident_end_bounds(s: Seq<u8>, p: int)
    requires
        0 <= p <= s.len(),
    ensures
        p <= spec_ident_end(s, p) <= s.len(),
    decreases s.len() - p,
{
    if p < s.len() && is_ident_byte(s[p]) {
        lemma_ident_end_bounds(s, p + 1);
    }
}

pub proof fn lemma_digits_end_bounds(s: Seq<u8>, p: int, hex: bool)
    requires
        0 <= p <= s.len(),
    ensures
        p <= spec_digits_end(s, p, hex) <= s.len(),
    decreases s.len() - p,
{
    if p < s.len() && (if hex {
        is_hex_digit(s[p])
    } else {
        is_digit(s[p])
    }) {
        lemma_digits_end_bounds(s, p + 1, hex);
    }
}

/// Whether `s[p..p+4]` spells `name`.
pub open spec fn spec_word_name(s: Seq<u8>, p: int) -> bool {
    &&& p + 4 <= s.len()
    &&& s[p] == 110
    &&& s[p + 1] == 97
    &&& s[p + 2] == 109
    &&& s[p + 3] == 101
}

/// Whether `s[p..p+7]` spells `comment`.
pub open spec fn spec_word_comment(s: Seq<u8>, p: int) -> bool {
    &&& p + 7 <= s.len()
    &&& s[p] == 99
    &&& s[p + 1] == 111
    &&& s[p + 2] == 109
    &&& s[p + 3] == 109
    &&& s[p + 4] == 101
    &&& s[p + 5] == 110
    &&& s[p + 6] == 116
}

/// Whether `s[p..p+4]` spells `code`.
pub open spec fn spec_word_code(s: Seq<u8>, p: int) -> bool {
    &&& p + 4 <= s.len()
    &&& s[p] == 99
    &&& s[p + 1] == 111
    &&& s[p + 2] == 100
    &&& s[p + 3] == 101
}

/// The token the greedy scanner finds at position `p` of `s`, which must
/// hold a non-space byte, and the position after it.
pub open spec fn spec_token_at(s: Seq<u8>, p: int) -> ScanStep
    recommends
        0 <= p < s.len(),
        !is_space(s[p]),
{
    let n = s.len() as int;
    let b = s[p];
    if b == 46 {
        // A dot directive.
        let j = spec_ident_end(s, p + 1);
        if j == p + 5 && spec_word_name(s, p + 1) {
            ScanStep::Tok {
                tok: Token { term: Term::ChampionNameCmd, start: p as usize, end: j as usize },
                next: j as usize,
            }
        } else if j == p + 8 && spec_word_comment(s, p + 1) {
            ScanStep::Tok {
                tok: Token { term: Term::ChampionCommentCmd, start: p as usize, end: j as usize },
                next: j as usize,
            }
        } else if j == p + 5 && spec_word_code(s, p + 1) {
            ScanStep::Tok {
                tok: Token { term: Term::CodeCmd, start: p as usize, end: j as usize },
                next: j as usize,
            }
        } else {
            ScanStep::Fail {
                err: LexerError {
                    kind: LexerErrorKind::UnknownChar,
                    start: p as usize,
                    end: j as usize,
                },
            }
        }
    } else if b == 34 {
        // A quoted string, no embedded quotes; the token range excludes
        // the quotes.
        let k = spec_quote_end(s, p + 1);
        if k < n {
            ScanStep::Tok {
                tok: Token { term: Term::QuotedString, start: (p + 1) as usize, end: k as usize },
                next: (k + 1) as usize,
            }
        } else {
            ScanStep::Fail {
                err: LexerError {
                    kind: LexerErrorKind::UnterminatedString,
                    start: p as usize,
                    end: n as usize,
                },
            }
        }
    } else if is_alpha(b) {
        // An identifier, a label definition if a colon follows at once.
        let j = spec_ident_end(s, p);
        if j < n && s[j] == 58 {
            ScanStep::Tok {
                tok: Token { term: Term::LabelDef, start: p as usize, end: (j + 1) as usize },
                next: (j + 1) as usize,
            }
        } else {
            ScanStep::Tok {
                tok: Token { term: Term::Ident, start: p as usize, end: j as usize },
                next: j as usize,
            }
        }
    } else if b == 58 {
        // A label reference: colon then identifier; the range includes the
        // colon.
        let j = spec_ident_end(s, p + 1);
        if j > p + 1 {
            ScanStep::Tok {
                tok: Token { term: Term::LabelUse, start: p as usize, end: j as usize },
                next: j as usize,
            }
        } else {
            ScanStep::Fail {
                err: LexerError {
                    kind: LexerErrorKind::UnknownChar,
                    start: p as usize,
                    end: (p + 1) as usize,
                },
            }
        }
    } else if b == 37 {
        ScanStep::Tok {
            tok: Token { term: Term::DirectChar, start: p as usize, end: (p + 1) as usize },
            next: (p + 1) as usize,
        }
    } else if b == 44 {
        ScanStep::Tok {
            tok: Token { term: Term::ParamSeparator, start: p as usize, end: (p + 1) as usize },
            next: (p + 1) as usize,
        }
    } else if b == 35 {
        // A comment runs to the end of the line.
        ScanStep::Tok {
            tok: Token { term: Term::Comment, start: p as usize, end: n as usize },
            next: n as usize,
        }
    } else if b == 45 || is_digit(b) {
        // A number: optional minus sign, then `0x` and hexadecimal digits,
        // `0d` and decimal digits, or plain decimal digits.
        let q = if b == 45 {
            p + 1
        } else {
            p
        };
        if !(q < n && is_digit(s[q])) {
            ScanStep::Fail {
                err: LexerError {
                    kind: LexerErrorKind::UnknownChar,
                    start: p as usize,
                    end: (p + 1) as usize,
                },
            }
        } else if s[q] == 48 && q + 1 < n && (s[q + 1] == 120 || s[q + 1] == 100) {
            let hex = s[q + 1] == 120;
            let j = spec_digits_end(s, q + 2, hex);
            if j == q + 2 {
                ScanStep::Fail {
                    err: LexerError {
                        kind: LexerErrorKind::InvalidNumber,
                        start: p as usize,
                        end: (q + 2) as usize,
                    },
                }
            } else {
                ScanStep::Tok {
                    tok: Token {
                        term: Term::Number {
                            base: if hex {
                                NumberBase::Hexadecimal
                            } else {
                                NumberBase::Decimal
                            },
                        },
                        start: p as usize,
                        end: j as usize,
                    },
                    next: j as usize,
                }
            }
        } else {
            let j = spec_digits_end(s, q, false);
            ScanStep::Tok {
                tok: Token {
                    term: Term::Number { base: NumberBase::Decimal },
                    start: p as usize,
                    end: j as usize,
                },
                next: j as usize,
            }
        }
    } else {
        ScanStep::Fail {
            err: LexerError {
                kind: LexerErrorKind::UnknownChar,
                start: p as usize,
                end: (p + 1) as usize,
            },
        }
    }
}

/// First position at or after `p` holding a quote, or the end of the line.
pub open spec fn spec_quote_end(s: Seq<u8>, p: int) -> int
    decreases s.len() - p,
{
    if 0 <= p < s.len() && s[p] != 34 {
        spec_quote_end(s, p + 1)
    } else {
        p
    }
}

pub proof fn lemma_quote_end_bounds(s: Seq<u8>, p: int)
    requires
        0 <= p <= s.len(),
    ensures
        p <= spec_quote_end(s, p) <= s.len(),
    decreases s.len() - p,
{
    if p < s.len() && s[p] != 34 {
        lemma_quote_end_bounds(s, p + 1);
    }
}

/// The whole lexing of `s` from position `p` on: the tokens found before
/// the scanner stopped, and the failure that stopped it, if one did.
/// The two inner clamps never act (the scanner always advances within
/// bounds); they only make termination evident.
pub open spec fn spec_lex(s: Seq<u8>, p: int) -> (Seq<Token>, Option<LexerError>)
    decreases s.len() - p,
{
    if !(0 <= p <= s.len()) {
        (Seq::empty(), None)
    } else {
        let q0 = spec_skip_spaces(s, p);
        let q = if p <= q0 <= s.len() {
            q0
        } else {
            p
        };
        if q >= s.len() {
            (Seq::empty(), None)
        } else {
            match spec_token_at(s, q) {
                ScanStep::Fail { err } => (Seq::empty(), Some(err)),
                ScanStep::Tok { tok, next } => {
                    let adv = if q < next <= s.len() {
                        next as int
                    } else {
                        q + 1
                    };
                    let (rest, e) = spec_lex(s, adv);
                    (seq![tok] + rest, e)
                },
            }
        }
    }
}

// Executable scanners, each the exact image of its specification.

fn skip_spaces(line: &[u8], pos: usize) -> (r: usize)
    requires
        pos <= line@.len(),
    ensures
        r == spec_skip_spaces(line@, pos as int),
        pos <= r <= line@.len(),
        r < line@.len() ==> !is_space(line@[r as int]),
{
    let mut p = pos;
    while p < line.len() && (line[p] == 32 || line[p] == 9)
        invariant
            pos <= p <= line@.len(),
            spec_skip_spaces(line@, pos as int) == spec_skip_spaces(line@, p as int),
        decreases line@.len() - p,
    {
        p += 1;
    }
    proof {
        lemma_skip_spaces_bounds(line@, p as int);
    }
    p
}

fn ident_end(line: &[u8], pos: usize) -> (r: usize)
    requires
        pos <= line@.len(),
    ensures
        r == spec_ident_end(line@, pos as int),
        pos <= r <= line@.len(),
{
    let mut p = pos;
    while p < line.len() && ident_byte(line[p])
        invariant
            pos <= p <= line@.len(),
            spec_ident_end(line@, pos as int) == spec_ident_end(line@, p as int),
        decreases line@.len() - p,
    {
        p += 1;
    }
    proof {
        lemma_ident_end_bounds(line@, p as int);
    }
    p
}

/// Executable image of `is_ident_byte`.
fn ident_byte(b: u8) -> (r: bool)
    ensures
        r == is_ident_byte(b),
{
    (97 <= b && b <= 122) || (65 <= b && b <= 90) || b == 95 || (48 <= b && b <= 57)
}

/// Executable image of `is_digit` or `is_hex_digit`, by `hex`.
fn digit_byte(b: u8, hex: bool) -> (r: bool)
    ensures
        r == if hex {
            is_hex_digit(b)
        } else {
            is_digit(b)
        },
{
    if hex {
        (48 <= b && b <= 57) || (97 <= b && b <= 102) || (65 <= b && b <= 70)
    } else {
        48 <= b && b <= 57
    }
}

fn digits_end(line: &[u8], pos: usize, hex: bool) -> (r: usize)
    requires
        pos <= line@.len(),
    ensures
        r == spec_digits_end(line@, pos as int, hex),
        pos <= r <= line@.len(),
{
    let mut p = pos;
    while p < line.len() && digit_byte(line[p], hex)
        invariant
            pos <= p <= line@.len(),
            spec_digits_end(line@, pos as int, hex) == spec_digits_end(line@, p as int, hex),
        decreases line@.len() - p,
    {
        p += 1;
    }
    proof {
        lemma_digits_end_bounds(line@, p as int, hex);
    }
    p
}

fn quote_end(line: &[u8], pos: usize) -> (r: usize)
    requires
        pos <= line@.len(),
    ensures
        r == spec_quote_end(line@, pos as int),
        pos <= r <= line@.len(),
{
    let mut p = pos;
    while p < line.len() && line[p] != 34
        invariant
            pos <= p <= line@.len(),
            spec_quote_end(line@, pos as int) == spec_quote_end(line@, p as int),
        decreases line@.len() - p,
    {
        p += 1;
    }
    proof {
        lemma_quote_end_bounds(line@, p as int);
    }
    p
}

/// Scans the single token starting at the non-space position `pos`.
fn next_token(line: &[u8], pos: usize) -> (r: ScanStep)
    requires
        pos < line@.len(),
        !is_space(line@[pos as int]),
    ensures
        r == spec_token_at(line@, pos as int),
        r matches ScanStep::Tok { tok, next } ==> pos < next <= line@.len() && tok.start
            <= tok.end <= line@.len(),
{
    let n = line.len();
    let p = pos;
    let b = line[p];
    if b == 46 {
        let j = ident_end(line, p + 1);
        if j - p == 5 && line[p + 1] == 110 && line[p + 2] == 97 && line[p + 3] == 109
            && line[p + 4] == 101 {
            ScanStep::Tok {
                tok: Token { term: Term::ChampionNameCmd, start: p, end: j },
                next: j,
            }
        } else if j - p == 8 && line[p + 1] == 99 && line[p + 2] == 111 && line[p + 3] == 109
            && line[p + 4] == 109 && line[p + 5] == 101 && line[p + 6] == 110
            && line[p + 7] == 116 {
            ScanStep::Tok {
                tok: Token { term: Term::ChampionCommentCmd, start: p, end: j },
                next: j,
            }
        } else if j - p == 5 && line[p + 1] == 99 && line[p + 2] == 111 && line[p + 3] == 100
            && line[p + 4] == 101 {
            ScanStep::Tok {
                tok: Token { term: Term::CodeCmd, start: p, end: j },
                next: j,
            }
        } else {
            ScanStep::Fail {
                err: LexerError { kind: LexerErrorKind::UnknownChar, start: p, end: j },
            }
        }
    } else if b == 34 {
        let k = quote_end(line, p + 1);
        if k < n {
            ScanStep::Tok {
                tok: Token { term: Term::QuotedString, start: p + 1, end: k },
                next: k + 1,
            }
        } else {
            ScanStep::Fail {
                err: LexerError { kind: LexerErrorKind::UnterminatedString, start: p, end: n },
            }
        }
    } else if (97 <= b && b <= 122) || (65 <= b && b <= 90) || b == 95 {
        let j = ident_end(line, p);
        proof {
            lemma_ident_end_bounds(line@, p as int + 1);
            assert(spec_ident_end(line@, p as int) > p);
        }
        if j < n && line[j] == 58 {
            ScanStep::Tok {
                tok: Token { term: Term::LabelDef, start: p, end: j + 1 },
                next: j + 1,
            }
        } else {
            ScanStep::Tok { tok: Token { term: Term::Ident, start: p, end: j }, next: j }
        }
    } else if b == 58 {
        let j = ident_end(line, p + 1);
        if j > p + 1 {
            ScanStep::Tok { tok: Token { term: Term::LabelUse, start: p, end: j }, next: j }
        } else {
            ScanStep::Fail {
                err: LexerError { kind: LexerErrorKind::UnknownChar, start: p, end: p + 1 },
            }
        }
    } else if b == 37 {
        ScanStep::Tok {
            tok: Token { term: Term::DirectChar, start: p, end: p + 1 },
            next: p + 1,
        }
    } else if b == 44 {
        ScanStep::Tok {
            tok: Token { term: Term::ParamSeparator, start: p, end: p + 1 },
            next: p + 1,
        }
    } else if b == 35 {
        ScanStep::Tok { tok: Token { term: Term::Comment, start: p, end: n }, next: n }
    } else if b == 45 || (48 <= b && b <= 57) {
        let q = if b == 45 {
            p + 1
        } else {
            p
        };
        if !(q < n && 48 <= line[q] && line[q] <= 57) {
            ScanStep::Fail {
                err: LexerError { kind: LexerErrorKind::UnknownChar, start: p, end: p + 1 },
            }
        } else if line[q] == 48 && q + 1 < n && (line[q + 1] == 120 || line[q + 1] == 100) {
            let hex = line[q + 1] == 120;
            let j = digits_end(line, q + 2, hex);
            if j == q + 2 {
                ScanStep::Fail {
                    err: LexerError { kind: LexerErrorKind::InvalidNumber, start: p, end: q + 2 },
                }
            } else {
                let base = if hex {
                    NumberBase::Hexadecimal
                } else {
                    NumberBase::Decimal
                };
                ScanStep::Tok {
                    tok: Token { term: Term::Number { base }, start: p, end: j },
                    next: j,
                }
            }
        } else {
            let j = digits_end(line, q, false);
            proof {
                lemma_digits_end_bounds(line@, q as int + 1, false);
                assert(spec_digits_end(line@, q as int, false) > q);
            }
            ScanStep::Tok {
                tok: Token { term: Term::Number { base: NumberBase::Decimal }, start: p, end: j },
                next: j,
            }
        }
    } else {
        ScanStep::Fail {
            err: LexerError { kind: LexerErrorKind::UnknownChar, start: p, end: p + 1 },
        }
    }
}

/// The lexed line: the tokens in source order, then the failure that ended
/// the scan early, if one did.
pub struct TokenList {
    pub tokens: Vec<Token>,
    pub err: Option<LexerError>,
}

impl TokenList {
    /// The pair this list holds, for speaking about it as the
    /// specification-level lexing does.
    pub open spec fn view_pair(&self) -> (Seq<Token>, Option<LexerError>) {
        (self.tokens@, self.err)
    }
}

/// Lexes one whole line: greedy longest match at each position, whitespace
/// skipped, stopping at the first failure.
pub fn tokenize(line: &[u8]) -> (r: TokenList)
    ensures
        r.view_pair() == spec_lex(line@, 0),
        forall|i: int|
            0 <= i < r.tokens@.len() ==> (#[trigger] r.tokens@[i]).start <= r.tokens@[i].end
                <= line@.len(),
{
    let mut tokens: Vec<Token> = Vec::new();
    let mut err: Option<LexerError> = None;
    let mut pos: usize = 0;
    let mut done = false;
    while !done
        invariant
            pos <= line@.len(),
            forall|i: int|
                0 <= i < tokens@.len() ==> (#[trigger] tokens@[i]).start <= tokens@[i].end
                    <= line@.len(),
            !done ==> err is None,
            !done ==> spec_lex(line@, 0) == {
                let (rest, e) = spec_lex(line@, pos as int);
                (tokens@ + rest, e)
            },
            done ==> (tokens@, err) == spec_lex(line@, 0),
        decreases line@.len() - pos + 1, if done {
            0int
        } else {
            1int
        },
    {
        let q = skip_spaces(line, pos);
        if q >= line.len() {
            proof {
                let (rest, e) = spec_lex(line@, pos as int);
                assert(rest =~= Seq::<Token>::empty());
                assert(tokens@ + rest =~= tokens@);
            }
            done = true;
        } else {
            match next_token(line, q) {
                ScanStep::Fail { err: e } => {
                    err = Some(e);
                    proof {
                        let (rest, fe) = spec_lex(line@, pos as int);
                        assert(tokens@ + rest =~= tokens@);
                    }
                    done = true;
                },
                ScanStep::Tok { tok, next } => {
                    proof {
                        let (rest0, e0) = spec_lex(line@, pos as int);
                        let (rest1, e1) = spec_lex(line@, next as int);
                        assert(rest0 == seq![tok] + rest1 && e0 == e1);
                        assert(tokens@ + rest0 =~= (tokens@ + seq![tok]) + rest1);
                        assert(tokens@.push(tok) =~= tokens@ + seq![tok]);
                    }
                    tokens.push(tok);
                    pos = next;
                },
            }
        }
    }
    TokenList { tokens, err }
}

} // verus!
