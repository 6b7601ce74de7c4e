//! The line parser: a lexed line in, one parsed statement out. Alternation
//! merges the errors of its branches, so reports can show every expected
//! form.

use vstd::prelude::*;
use vstd::string::{StringSliceAdditionalSpecFns, StrSliceExecFns};
use crate::lexer::{
    is_digit, is_hex_digit, spec_lex, LexerError, NumberBase, Term, Token, TokenList, tokenize,
};
use crate::types::{
    AnyParam, Direct, DirInd, Indirect, Op, RegDir, Register, RegInd, SpecAnyParam, SpecDirect,
    SpecDirInd, SpecIndirect, SpecOp, SpecRegDir, SpecRegInd,
};

verus! {

broadcast use vstd::std_specs::vec::axiom_vec_index_decreases,
    vstd::std_specs::vec::axiom_vec_decreases_to_view, vstd::seq::axiom_seq_index_decreases;

/// Why a run of digits did not make a number.
#[derive(Clone, Copy, Debug, PartialEq, Eq, Structural)]
pub enum NumError {
    /// No digits at all.
    Empty,
    /// A byte that is no digit of the base.
    InvalidDigit,
    /// The magnitude does not fit a signed 64-bit value.
    TooLarge,
}

/// A parse failure. Token-bound variants carry the offending token;
/// `ExpectedOneOf` carries the failures of every alternative tried.
#[derive(Debug, PartialEq, Eq)]
pub enum ParseError {
    RemainingInput(Token),
    LexerError(LexerError),
    Unexpected(Token),
    ExpectedButGot(Term, Token),
    ExpectedButGotEof(Term),
    ExpectedOneOf(Vec<ParseError>),
    InvalidRegisterCount(i64, Token),
    InvalidRegisterPrefix(u8, Token),
    MissingRegisterPrefix(Token),
    ParseIntError(NumError, Token),
    RegisterParseIntError(NumError, Token),
    InvalidOpMnemonic(Vec<u8>, Token),
}

/// Specification twin of `ParseError`, over sequences.
pub enum SpecParseError {
    RemainingInput(Token),
    LexerError(LexerError),
    Unexpected(Token),
    ExpectedButGot(Term, Token),
    ExpectedButGotEof(Term),
    ExpectedOneOf(Seq<SpecParseError>),
    InvalidRegisterCount(i64, Token),
    InvalidRegisterPrefix(u8, Token),
    MissingRegisterPrefix(Token),
    ParseIntError(NumError, Token),
    RegisterParseIntError(NumError, Token),
    InvalidOpMnemonic(Seq<u8>, Token),
}

/// The view of a parse failure: the same tree over sequences.
pub open spec fn spec_err_view(e: ParseError) -> SpecParseError
    decreases e,
{
    match e {
        ParseError::RemainingInput(t) => SpecParseError::RemainingInput(t),
        ParseError::LexerError(le) => SpecParseError::LexerError(le),
        ParseError::Unexpected(t) => SpecParseError::Unexpected(t),
        ParseError::ExpectedButGot(term, t) => SpecParseError::ExpectedButGot(term, t),
        ParseError::ExpectedButGotEof(term) => SpecParseError::ExpectedButGotEof(term),
        ParseError::ExpectedOneOf(errs) => SpecParseError::ExpectedOneOf(
            // The guard keeps the recursion inside the vector, where
            // elements are structurally smaller; out-of-range indices
            // are never used by the constructed sequence.
            Seq::new(
                errs@.len(),
                |i: int|
                    if 0 <= i < errs@.len() {
                        spec_err_view(errs@[i])
                    } else {
                        SpecParseError::ExpectedButGotEof(Term::Comment)
                    },
            ),
        ),
        ParseError::InvalidRegisterCount(n, t) => SpecParseError::InvalidRegisterCount(n, t),
        ParseError::InvalidRegisterPrefix(c, t) => SpecParseError::InvalidRegisterPrefix(c, t),
        ParseError::MissingRegisterPrefix(t) => SpecParseError::MissingRegisterPrefix(t),
        ParseError::ParseIntError(k, t) => SpecParseError::ParseIntError(k, t),
        ParseError::RegisterParseIntError(k, t) => SpecParseError::RegisterParseIntError(k, t),
        ParseError::InvalidOpMnemonic(m, t) => SpecParseError::InvalidOpMnemonic(m@, t),
    }
}

impl View for ParseError {
    type V = SpecParseError;

    open spec fn view(&self) -> SpecParseError {
        spec_err_view(*self)
    }
}

/// What the stream shows at a position: a token, the lexing failure the
/// scan ended in, or the end of the line.
pub enum PeekKind {
    Tok(Token),
    LexFail(LexerError),
    End,
}

/// The stream element at `pos`: the tokens first, then the lexing failure
/// if the scan ended in one, then the end.
pub open spec fn spec_peek(
    toks: Seq<Token>,
    lerr: Option<LexerError>,
    pos: int,
) -> PeekKind {
    if 0 <= pos < toks.len() {
        PeekKind::Tok(toks[pos])
    } else if pos == toks.len() && lerr is Some {
        PeekKind::LexFail(lerr->Some_0)
    } else {
        PeekKind::End
    }
}

/// Taking one token of kind `term`: the token and the next position, or
/// the failure naming what was expected.
pub open spec fn spec_next(
    toks: Seq<Token>,
    lerr: Option<LexerError>,
    pos: int,
    term: Term,
) -> Result<(Token, int), SpecParseError> {
    match spec_peek(toks, lerr, pos) {
        PeekKind::Tok(t) => if t.term == term {
            Ok((t, pos + 1))
        } else {
            Err(SpecParseError::ExpectedButGot(term, t))
        },
        PeekKind::LexFail(e) => Err(SpecParseError::LexerError(e)),
        PeekKind::End => Err(SpecParseError::ExpectedButGotEof(term)),
    }
}

/// The numeric value of one digit in the base, or -1 where the byte is
/// no such digit.
pub open spec fn spec_digit_val(b: u8, hex: bool) -> int {
    if 48 <= b <= 57 {
        b - 48
    } else if hex && 97 <= b <= 102 {
        b - 87
    } else if hex && 65 <= b <= 70 {
        b - 55
    } else {
        -1
    }
}

/// Folds digits left to right onto `acc`, failing on the first byte that
/// is no digit and on the first step whose value leaves the signed 64-bit
/// range, as an ordinary scan does.
pub open spec fn spec_fold_digits(s: Seq<u8>, hex: bool, acc: int) -> Result<int, NumError>
    decreases s.len(),
{
    if s.len() == 0 {
        Ok(acc)
    } else {
        let d = spec_digit_val(s[0], hex);
        if d < 0 {
            Err(NumError::InvalidDigit)
        } else {
            let acc2 = acc * (if hex {
                16int
            } else {
                10int
            }) + d;
            if acc2 > i64::MAX {
                Err(NumError::TooLarge)
            } else {
                spec_fold_digits(s.skip(1), hex, acc2)
            }
        }
    }
}

/// The non-negative value of a run of digits, or why there is none.
pub open spec fn spec_parse_digits(s: Seq<u8>, hex: bool) -> Result<int, NumError> {
    if s.len() == 0 {
        Err(NumError::Empty)
    } else {
        spec_fold_digits(s, hex, 0)
    }
}

/// Executable image of `spec_digit_val`.
fn digit_val(b: u8, hex: bool) -> (r: i64)
    ensures
        r as int == spec_digit_val(b, hex),
{
    if 48 <= b && b <= 57 {
        (b - 48) as i64
    } else if hex && 97 <= b && b <= 102 {
        (b - 87) as i64
    } else if hex && 65 <= b && b <= 70 {
        (b - 55) as i64
    } else {
        -1
    }
}

/// Parses the digits in `line[start..end]` as a non-negative value in the
/// base.
fn parse_digits(line: &[u8], start: usize, end: usize, hex: bool) -> (r: Result<i64, NumError>)
    requires
        start <= end <= line@.len(),
    ensures
        match r {
            Ok(v) => v >= 0 && spec_parse_digits(line@.subrange(start as int, end as int), hex)
                == Ok::<int, NumError>(v as int),
            Err(e) => spec_parse_digits(line@.subrange(start as int, end as int), hex) == Err::<
                int,
                NumError,
            >(e),
        },
{
    let ghost whole = line@.subrange(start as int, end as int);
    if start == end {
        proof {
            assert(whole.len() == 0);
        }
        return Err(NumError::Empty);
    }
    let radix: i64 = if hex {
        16
    } else {
        10
    };
    let mut acc: i64 = 0;
    let mut i = start;
    while i < end
        invariant
            start <= i <= end <= line@.len(),
            start < end,
            radix == if hex {
                16int
            } else {
                10int
            },
            whole == line@.subrange(start as int, end as int),
            acc >= 0,
            spec_fold_digits(whole, hex, 0) == spec_fold_digits(
                line@.subrange(i as int, end as int),
                hex,
                acc as int,
            ),
        decreases end - i,
    {
        let ghost rest = line@.subrange(i as int, end as int);
        let d = digit_val(line[i], hex);
        proof {
            assert(rest[0] == line@[i as int]);
        }
        if d < 0 {
            return Err(NumError::InvalidDigit);
        }
        if acc > (i64::MAX - d) / radix {
            proof {
                // The next accumulator step leaves the 64-bit range.
                let a2 = acc * (radix as int) + d;
                assert(a2 > i64::MAX) by (nonlinear_arith)
                    requires
                        acc as int > (i64::MAX - d) / (radix as int),
                        acc as int >= 0,
                        (radix as int) == if hex { 16int } else { 10int },
                        0 <= (d as int) && (d as int) < (radix as int),
                        a2 == acc * (radix as int) + d,
                {}
            }
            return Err(NumError::TooLarge);
        }
        proof {
            let a2 = acc * (radix as int) + d;
            assert(a2 <= i64::MAX) by (nonlinear_arith)
                requires
                    acc as int <= (i64::MAX - d) / (radix as int),
                    acc as int >= 0,
                    (radix as int) == if hex { 16int } else { 10int },
                    0 <= (d as int) && (d as int) < (radix as int),
                    a2 == acc * (radix as int) + d,
            {}
            assert(rest.skip(1) =~= line@.subrange(i + 1, end as int));
        }
        acc = acc * radix + d;
        i += 1;
    }
    proof {
        assert(line@.subrange(i as int, end as int).len() == 0);
    }
    Ok(acc)
}

/// Copies `line[start..end]` out as an owned byte string.
fn bytes_of_range(line: &[u8], start: usize, end: usize) -> (r: Vec<u8>)
    requires
        start <= end <= line@.len(),
    ensures
        r@ == line@.subrange(start as int, end as int),
{
    let mut v: Vec<u8> = Vec::new();
    let mut i = start;
    while i < end
        invariant
            start <= i <= end <= line@.len(),
            v@ == line@.subrange(start as int, i as int),
        decreases end - i,
    {
        v.push(line[i]);
        proof {
            assert(v@ =~= line@.subrange(start as int, i + 1));
        }
        i += 1;
    }
    v
}

/// The lexed tokens of one line, consumed left to right; `pos` marks the
/// next token.
pub struct TokenStream<'a> {
    pub input: &'a [u8],
    pub tokens: Vec<Token>,
    pub err: Option<LexerError>,
    pub pos: usize,
}

impl<'a> TokenStream<'a> {
    /// Every token range lies inside the input; the position does not run
    /// past the token list.
    pub open spec fn wf(&self) -> bool {
        &&& forall|i: int|
            0 <= i < self.tokens@.len() ==> (#[trigger] self.tokens@[i]).start
                <= self.tokens@[i].end <= self.input@.len()
        &&& self.pos <= self.tokens@.len()
    }

    /// The stream a fresh line yields: its lexing, positioned at the
    /// first token.
    pub fn new(input: &'a [u8]) -> (r: TokenStream<'a>)
        ensures
            r.wf(),
            r.input@ == input@,
            (r.tokens@, r.err) == spec_lex(input@, 0),
            r.pos == 0,
    {
        let TokenList { tokens, err } = tokenize(input);
        TokenStream { input, tokens, err, pos: 0 }
    }

    /// What the stream shows at the current position, without moving.
    pub fn peek(&self) -> (r: PeekKind)
        requires
            self.wf(),
        ensures
            r == spec_peek(self.tokens@, self.err, self.pos as int),
    {
        if self.pos < self.tokens.len() {
            PeekKind::Tok(self.tokens[self.pos])
        } else {
            match self.err {
                Some(e) => PeekKind::LexFail(e),
                None => PeekKind::End,
            }
        }
    }

    /// Takes the next token, which must have the kind `term`; a token of
    /// the wrong kind is still consumed, as a plain take would.
    pub fn next_with_token(&mut self, term: Term) -> (r: Result<Token, ParseError>)
        requires
            old(self).wf(),
        ensures
            final(self).wf(),
            final(self).input == old(self).input,
            final(self).tokens == old(self).tokens,
            final(self).err == old(self).err,
            match spec_next(old(self).tokens@, old(self).err, old(self).pos as int, term) {
                Ok((t, np)) => r == Ok::<Token, ParseError>(t) && final(self).pos == np,
                Err(se) => r matches Err(e) && e@ == se && final(self).pos == (
                match spec_peek(old(self).tokens@, old(self).err, old(self).pos as int) {
                    PeekKind::Tok(_) => old(self).pos + 1,
                    _ => old(self).pos as int,
                }),
            },
    {
        if self.pos < self.tokens.len() {
            let t = self.tokens[self.pos];
            self.pos = self.pos + 1;
            if t.term == term {
                Ok(t)
            } else {
                Err(ParseError::ExpectedButGot(term, t))
            }
        } else {
            match self.err {
                Some(e) => Err(ParseError::LexerError(e)),
                None => Err(ParseError::ExpectedButGotEof(term)),
            }
        }
    }

    /// The text of a token, copied out of the line.
    pub fn text(&self, t: &Token) -> (r: Vec<u8>)
        requires
            t.start <= t.end <= self.input@.len(),
        ensures
            r@ == spec_text(self.input@, *t),
    {
        bytes_of_range(self.input, t.start, t.end)
    }

    /// `next_with_token`, the token's text range dropped.
    pub fn next(&mut self, term: Term) -> (r: Result<Token, ParseError>)
        requires
            old(self).wf(),
        ensures
            final(self).wf(),
            final(self).input == old(self).input,
            final(self).tokens == old(self).tokens,
            final(self).err == old(self).err,
            match spec_next(old(self).tokens@, old(self).err, old(self).pos as int, term) {
                Ok((t, np)) => r == Ok::<Token, ParseError>(t) && final(self).pos == np,
                Err(se) => r matches Err(e) && e@ == se && final(self).pos == (
                match spec_peek(old(self).tokens@, old(self).err, old(self).pos as int) {
                    PeekKind::Tok(_) => old(self).pos + 1,
                    _ => old(self).pos as int,
                }),
            },
    {
        self.next_with_token(term)
    }
}

/// The bytes a token covers.
pub open spec fn spec_text(input: Seq<u8>, t: Token) -> Seq<u8> {
    input.subrange(t.start as int, t.end as int)
}

/// One parsed source line.
#[derive(Debug, PartialEq, Eq)]
pub enum ParsedLine {
    ChampionName(Vec<u8>),
    ChampionComment(Vec<u8>),
    Code(Vec<u8>),
    Op(Op),
    Label(Vec<u8>),
    LabelAndOp(Vec<u8>, Op),
    Empty,
}

/// Specification twin of `ParsedLine`.
pub enum SpecParsedLine {
    ChampionName(Seq<u8>),
    ChampionComment(Seq<u8>),
    Code(Seq<u8>),
    Op(SpecOp),
    Label(Seq<u8>),
    LabelAndOp(Seq<u8>, SpecOp),
    Empty,
}

impl View for ParsedLine {
    type V = SpecParsedLine;

    open spec fn view(&self) -> SpecParsedLine {
        match self {
            ParsedLine::ChampionName(n) => SpecParsedLine::ChampionName(n@),
            ParsedLine::ChampionComment(c) => SpecParsedLine::ChampionComment(c@),
            ParsedLine::Code(b) => SpecParsedLine::Code(b@),
            ParsedLine::Op(o) => SpecParsedLine::Op(o@),
            ParsedLine::Label(l) => SpecParsedLine::Label(l@),
            ParsedLine::LabelAndOp(l, o) => SpecParsedLine::LabelAndOp(l@, o@),
            ParsedLine::Empty => SpecParsedLine::Empty,
        }
    }
}

// The specification-level parser: each function mirrors its executable
// counterpart exactly, over the lexed token sequence.

/// A number operand: any next token, which must be a number lexeme; its
/// text (sign, then an optional base prefix, then digits) read in the
/// lexeme's base. The value is exact; magnitudes beyond the signed 64-bit
/// range fail as the scan reaches them.
pub open spec fn spec_number(
    toks: Seq<Token>,
    lerr: Option<LexerError>,
    input: Seq<u8>,
    pos: int,
) -> Result<(int, int), SpecParseError> {
    match spec_peek(toks, lerr, pos) {
        PeekKind::End => Err(SpecParseError::ExpectedOneOf(
            seq![
                SpecParseError::ExpectedButGotEof(Term::Number { base: NumberBase::Decimal }),
                SpecParseError::ExpectedButGotEof(Term::Number { base: NumberBase::Hexadecimal }),
            ],
        )),
        PeekKind::LexFail(e) => Err(SpecParseError::LexerError(e)),
        PeekKind::Tok(t) => match t.term {
            Term::Number { base } => {
                let text = spec_text(input, t);
                let neg = text.len() > 0 && text[0] == 45;
                let t1 = if neg {
                    text.skip(1)
                } else {
                    text
                };
                let t2 = if t1.len() >= 2 && t1[0] == 48 && (t1[1] == 100 || t1[1] == 120) {
                    t1.skip(2)
                } else {
                    t1
                };
                match spec_parse_digits(t2, base is Hexadecimal) {
                    Ok(m) => Ok(
                        (
                            if neg {
                                -m
                            } else {
                                m
                            },
                            pos + 1,
                        ),
                    ),
                    Err(k) => Err(SpecParseError::ParseIntError(k, t)),
                }
            },
            _ => Err(SpecParseError::ExpectedOneOf(
                seq![
                    SpecParseError::ExpectedButGot(
                        Term::Number { base: NumberBase::Decimal },
                        t,
                    ),
                    SpecParseError::ExpectedButGot(
                        Term::Number { base: NumberBase::Hexadecimal },
                        t,
                    ),
                ],
            )),
        },
    }
}

/// A register operand: an identifier `r` then a number in `1..=16`.
pub open spec fn spec_register(
    toks: Seq<Token>,
    lerr: Option<LexerError>,
    input: Seq<u8>,
    pos: int,
) -> Result<(Register, int), SpecParseError> {
    match spec_next(toks, lerr, pos, Term::Ident) {
        Err(se) => Err(se),
        Ok((t, np)) => {
            let text = spec_text(input, t);
            if text.len() == 0 {
                Err(SpecParseError::MissingRegisterPrefix(t))
            } else if text[0] == 114 {
                match spec_parse_digits(text.skip(1), false) {
                    Ok(x) => if 1 <= x <= 16 {
                        Ok((Register(x as u8), np))
                    } else {
                        Err(SpecParseError::InvalidRegisterCount(x as i64, t))
                    },
                    Err(k) => Err(SpecParseError::RegisterParseIntError(k, t)),
                }
            } else {
                Err(SpecParseError::InvalidRegisterPrefix(text[0], t))
            }
        },
    }
}

/// A label reference: the identifier after the colon.
pub open spec fn spec_label_param(
    toks: Seq<Token>,
    lerr: Option<LexerError>,
    input: Seq<u8>,
    pos: int,
) -> Result<(Seq<u8>, int), SpecParseError> {
    match spec_next(toks, lerr, pos, Term::LabelUse) {
        Err(se) => Err(se),
        Ok((t, np)) => {
            let s2 = if t.start + 1 <= t.end {
                t.start + 1
            } else {
                t.end as int
            };
            Ok((input.subrange(s2, t.end as int), np))
        },
    }
}

/// A label definition: the identifier before the colon.
pub open spec fn spec_label(
    toks: Seq<Token>,
    lerr: Option<LexerError>,
    input: Seq<u8>,
    pos: int,
) -> Result<(Seq<u8>, int), SpecParseError> {
    match spec_next(toks, lerr, pos, Term::LabelDef) {
        Err(se) => Err(se),
        Ok((t, np)) => {
            let cut = if t.end > t.start {
                t.end - 1
            } else {
                t.start as int
            };
            Ok((input.subrange(t.start as int, cut), np))
        },
    }
}

/// The `.name` directive: the directive then a quoted string.
pub open spec fn spec_champion_name(
    toks: Seq<Token>,
    lerr: Option<LexerError>,
    input: Seq<u8>,
    pos: int,
) -> Result<(Seq<u8>, int), SpecParseError> {
    match spec_next(toks, lerr, pos, Term::ChampionNameCmd) {
        Err(se) => Err(se),
        Ok((_, np)) => match spec_next(toks, lerr, np, Term::QuotedString) {
            Err(se) => Err(se),
            Ok((t, np2)) => Ok((spec_text(input, t), np2)),
        },
    }
}

/// The `.comment` directive: the directive then a quoted string.
pub open spec fn spec_champion_comment(
    toks: Seq<Token>,
    lerr: Option<LexerError>,
    input: Seq<u8>,
    pos: int,
) -> Result<(Seq<u8>, int), SpecParseError> {
    match spec_next(toks, lerr, pos, Term::ChampionCommentCmd) {
        Err(se) => Err(se),
        Ok((_, np)) => match spec_next(toks, lerr, np, Term::QuotedString) {
            Err(se) => Err(se),
            Ok((t, np2)) => Ok((spec_text(input, t), np2)),
        },
    }
}

/// A signed value reduced to one byte, two's complement.
pub open spec fn spec_trunc_u8(v: int) -> u8 {
    (v % 256) as u8
}

/// As many numbers as follow, each packed into one byte; stops at the
/// first token that is no number.
pub open spec fn spec_code_numbers(
    toks: Seq<Token>,
    lerr: Option<LexerError>,
    input: Seq<u8>,
    pos: int,
) -> (Seq<u8>, int)
    decreases toks.len() - pos,
{
    if !(0 <= pos < toks.len()) {
        (Seq::empty(), pos)
    } else {
        match spec_number(toks, lerr, input, pos) {
            Err(_) => (Seq::empty(), pos),
            Ok((v, np)) => {
                let adv = if pos < np <= toks.len() {
                    np
                } else {
                    pos + 1
                };
                let (rest, fin) = spec_code_numbers(toks, lerr, input, adv);
                (seq![spec_trunc_u8(v)] + rest, fin)
            },
        }
    }
}

/// The `.code` directive: the directive, then numbers packed as bytes.
pub open spec fn spec_code(
    toks: Seq<Token>,
    lerr: Option<LexerError>,
    input: Seq<u8>,
    pos: int,
) -> Result<(Seq<u8>, int), SpecParseError> {
    match spec_next(toks, lerr, pos, Term::CodeCmd) {
        Err(se) => Err(se),
        Ok((_, np)) => {
            let (bytes, fin) = spec_code_numbers(toks, lerr, input, np);
            Ok((bytes, fin))
        },
    }
}

/// Reduces a signed 64-bit value to one byte, two's complement.
fn trunc_u8(v: i64) -> (r: u8)
    ensures
        r == spec_trunc_u8(v as int),
{
    if v >= 0 {
        (v % 256) as u8
    } else {
        // v == -(mag + 1), so v is 255 - (mag % 256) modulo 256.
        let mag: i64 = -(v + 1);
        let m: i64 = mag % 256;
        proof {
            let k = mag as int / 256;
            vstd::arithmetic::div_mod::lemma_fundamental_div_mod(mag as int, 256);
            assert(v as int == (255 - m) + (-k - 1) * 256) by (nonlinear_arith)
                requires
                    v as int == -(mag as int) - 1,
                    mag as int == k * 256 + m,
            {}
            vstd::arithmetic::div_mod::lemma_mod_multiples_vanish(-k - 1, (255 - m) as int, 256);
            vstd::arithmetic::div_mod::lemma_mod_bound(mag as int, 256);
            vstd::arithmetic::div_mod::lemma_small_mod((255 - m) as nat, 256nat);
        }
        (255 - m) as u8
    }
}

/// Reads one number operand from the stream.
fn number(st: &mut TokenStream<'_>) -> (r: Result<i64, ParseError>)
    requires
        old(st).wf(),
    ensures
        final(st).wf(),
        final(st).input == old(st).input,
        final(st).tokens == old(st).tokens,
        final(st).err == old(st).err,
        match spec_number(old(st).tokens@, old(st).err, old(st).input@, old(st).pos as int) {
            Ok((v, np)) => r matches Ok(x) && x as int == v && final(st).pos == np,
            Err(se) => r matches Err(e) && e@ == se && final(st).pos == (
            match spec_peek(old(st).tokens@, old(st).err, old(st).pos as int) {
                PeekKind::Tok(_) => old(st).pos + 1,
                _ => old(st).pos as int,
            }),
        },
{
    let tok: Token;
    if st.pos < st.tokens.len() {
        tok = st.tokens[st.pos];
        st.pos = st.pos + 1;
    } else {
        match st.err {
            Some(e) => {
                return Err(ParseError::LexerError(e));
            },
            None => {
                let mut alts: Vec<ParseError> = Vec::new();
                alts.push(ParseError::ExpectedButGotEof(Term::Number {
                    base: NumberBase::Decimal,
                }));
                alts.push(ParseError::ExpectedButGotEof(Term::Number {
                    base: NumberBase::Hexadecimal,
                }));
                let r = ParseError::ExpectedOneOf(alts);
                proof {
                    let se = spec_number(
                        old(st).tokens@,
                        old(st).err,
                        old(st).input@,
                        old(st).pos as int,
                    )->Err_0;
                    reveal_with_fuel(spec_err_view, 3);
                    let s = r@->ExpectedOneOf_0;
                    assert(s.len() == 2);
                    assert(s[0] == se->ExpectedOneOf_0[0]);
                    assert(s[1] == se->ExpectedOneOf_0[1]);
                    assert(s =~= se->ExpectedOneOf_0);
                }
                return Err(r);
            },
        }
    }
    match tok.term {
        Term::Number { base } => {
            let hex = match base {
                NumberBase::Hexadecimal => true,
                NumberBase::Decimal => false,
            };
            let mut s = tok.start;
            let end = tok.end;
            let neg = s < end && st.input[s] == 45;
            if neg {
                s = s + 1;
            }
            if end - s >= 2 && st.input[s] == 48 && (st.input[s + 1] == 100 || st.input[s + 1]
                == 120) {
                s = s + 2;
            }
            proof {
                let text = spec_text(old(st).input@, tok);
                let t1 = if text.len() > 0 && text[0] == 45 {
                    text.skip(1)
                } else {
                    text
                };
                let t2 = if t1.len() >= 2 && t1[0] == 48 && (t1[1] == 100 || t1[1] == 120) {
                    t1.skip(2)
                } else {
                    t1
                };
                assert(st.input@.subrange(s as int, end as int) =~= t2);
            }
            match parse_digits(st.input, s, end, hex) {
                Ok(m) => {
                    if neg {
                        Ok(-m)
                    } else {
                        Ok(m)
                    }
                },
                Err(k) => Err(ParseError::ParseIntError(k, tok)),
            }
        },
        _ => {
            let mut alts: Vec<ParseError> = Vec::new();
            alts.push(ParseError::ExpectedButGot(
                Term::Number { base: NumberBase::Decimal },
                tok,
            ));
            alts.push(ParseError::ExpectedButGot(
                Term::Number { base: NumberBase::Hexadecimal },
                tok,
            ));
            let r = ParseError::ExpectedOneOf(alts);
            proof {
                let se = spec_number(
                    old(st).tokens@,
                    old(st).err,
                    old(st).input@,
                    old(st).pos as int,
                )->Err_0;
                reveal_with_fuel(spec_err_view, 3);
                let s2 = r@->ExpectedOneOf_0;
                assert(s2.len() == 2);
                assert(s2[0] == se->ExpectedOneOf_0[0]);
                assert(s2[1] == se->ExpectedOneOf_0[1]);
                assert(s2 =~= se->ExpectedOneOf_0);
            }
            Err(r)
        },
    }
}

/// Reads one register operand from the stream.
fn register(st: &mut TokenStream<'_>) -> (r: Result<Register, ParseError>)
    requires
        old(st).wf(),
    ensures
        final(st).wf(),
        final(st).input == old(st).input,
        final(st).tokens == old(st).tokens,
        final(st).err == old(st).err,
        match spec_register(old(st).tokens@, old(st).err, old(st).input@, old(st).pos as int) {
            Ok((v, np)) => r matches Ok(x) && x == v && final(st).pos == np,
            Err(se) => r matches Err(e) && e@ == se,
        },
{
    let tok = match st.next_with_token(Term::Ident) {
        Ok(t) => t,
        Err(e) => {
            return Err(e);
        },
    };
    if tok.end == tok.start {
        return Err(ParseError::MissingRegisterPrefix(tok));
    }
    let first = st.input[tok.start];
    if first == 114 {
        proof {
            assert(spec_text(st.input@, tok).skip(1) =~= st.input@.subrange(
                tok.start + 1,
                tok.end as int,
            ));
            assert(spec_text(st.input@, tok)[0] == first);
        }
        match parse_digits(st.input, tok.start + 1, tok.end, false) {
            Ok(x) => {
                if 1 <= x && x <= 16 {
                    Ok(Register(x as u8))
                } else {
                    Err(ParseError::InvalidRegisterCount(x, tok))
                }
            },
            Err(k) => Err(ParseError::RegisterParseIntError(k, tok)),
        }
    } else {
        proof {
            assert(spec_text(st.input@, tok)[0] == first);
        }
        Err(ParseError::InvalidRegisterPrefix(first, tok))
    }
}

/// Reads a label reference from the stream.
fn label_param(st: &mut TokenStream<'_>) -> (r: Result<Vec<u8>, ParseError>)
    requires
        old(st).wf(),
    ensures
        final(st).wf(),
        final(st).input == old(st).input,
        final(st).tokens == old(st).tokens,
        final(st).err == old(st).err,
        match spec_label_param(old(st).tokens@, old(st).err, old(st).input@, old(st).pos as int) {
            Ok((v, np)) => r matches Ok(x) && x@ == v && final(st).pos == np,
            Err(se) => r matches Err(e) && e@ == se,
        },
{
    let tok = match st.next_with_token(Term::LabelUse) {
        Ok(t) => t,
        Err(e) => {
            return Err(e);
        },
    };
    let s2 = if tok.start < tok.end {
        tok.start + 1
    } else {
        tok.end
    };
    Ok(bytes_of_range(st.input, s2, tok.end))
}

/// Reads a label definition from the stream.
fn label(st: &mut TokenStream<'_>) -> (r: Result<Vec<u8>, ParseError>)
    requires
        old(st).wf(),
    ensures
        final(st).wf(),
        final(st).input == old(st).input,
        final(st).tokens == old(st).tokens,
        final(st).err == old(st).err,
        match spec_label(old(st).tokens@, old(st).err, old(st).input@, old(st).pos as int) {
            Ok((v, np)) => r matches Ok(x) && x@ == v && final(st).pos == np,
            Err(se) => r matches Err(e) && e@ == se,
        },
{
    let tok = match st.next_with_token(Term::LabelDef) {
        Ok(t) => t,
        Err(e) => {
            return Err(e);
        },
    };
    let cut = if tok.end > tok.start {
        tok.end - 1
    } else {
        tok.start
    };
    Ok(bytes_of_range(st.input, tok.start, cut))
}

/// Reads the `.name` directive.
fn champion_name(st: &mut TokenStream<'_>) -> (r: Result<Vec<u8>, ParseError>)
    requires
        old(st).wf(),
    ensures
        final(st).wf(),
        final(st).input == old(st).input,
        final(st).tokens == old(st).tokens,
        final(st).err == old(st).err,
        match spec_champion_name(
            old(st).tokens@,
            old(st).err,
            old(st).input@,
            old(st).pos as int,
        ) {
            Ok((v, np)) => r matches Ok(x) && x@ == v && final(st).pos == np,
            Err(se) => r matches Err(e) && e@ == se,
        },
{
    match st.next(Term::ChampionNameCmd) {
        Ok(_) => {},
        Err(e) => {
            return Err(e);
        },
    }
    let tok = match st.next_with_token(Term::QuotedString) {
        Ok(t) => t,
        Err(e) => {
            return Err(e);
        },
    };
    Ok(bytes_of_range(st.input, tok.start, tok.end))
}

/// Reads the `.comment` directive.
fn champion_comment(st: &mut TokenStream<'_>) -> (r: Result<Vec<u8>, ParseError>)
    requires
        old(st).wf(),
    ensures
        final(st).wf(),
        final(st).input == old(st).input,
        final(st).tokens == old(st).tokens,
        final(st).err == old(st).err,
        match spec_champion_comment(
            old(st).tokens@,
            old(st).err,
            old(st).input@,
            old(st).pos as int,
        ) {
            Ok((v, np)) => r matches Ok(x) && x@ == v && final(st).pos == np,
            Err(se) => r matches Err(e) && e@ == se,
        },
{
    match st.next(Term::ChampionCommentCmd) {
        Ok(_) => {},
        Err(e) => {
            return Err(e);
        },
    }
    let tok = match st.next_with_token(Term::QuotedString) {
        Ok(t) => t,
        Err(e) => {
            return Err(e);
        },
    };
    Ok(bytes_of_range(st.input, tok.start, tok.end))
}

/// Reads the `.code` directive: numbers packed into bytes.
fn code(st: &mut TokenStream<'_>) -> (r: Result<Vec<u8>, ParseError>)
    requires
        old(st).wf(),
    ensures
        final(st).wf(),
        final(st).input == old(st).input,
        final(st).tokens == old(st).tokens,
        final(st).err == old(st).err,
        match spec_code(old(st).tokens@, old(st).err, old(st).input@, old(st).pos as int) {
            Ok((v, np)) => r matches Ok(x) && x@ == v && final(st).pos == np,
            Err(se) => r matches Err(e) && e@ == se,
        },
{
    match st.next(Term::CodeCmd) {
        Ok(_) => {},
        Err(e) => {
            return Err(e);
        },
    }
    let ghost start_pos: usize = st.pos;
    let mut bytes: Vec<u8> = Vec::new();
    loop
        invariant
            st.wf(),
            st.input == old(st).input,
            st.tokens == old(st).tokens,
            st.err == old(st).err,
            (spec_next(old(st).tokens@, old(st).err, old(st).pos as int, Term::CodeCmd)
                matches Ok(p) && p.1 == start_pos as int),
            ({
                let (all, fin) = spec_code_numbers(
                    st.tokens@,
                    st.err,
                    st.input@,
                    start_pos as int,
                );
                let (rest, fin2) = spec_code_numbers(st.tokens@, st.err, st.input@, st.pos as int);
                bytes@ + rest == all && fin == fin2
            }),
        decreases st.tokens@.len() - st.pos,
    {
        let save = st.pos;
        match number(st) {
            Ok(v) => {
                proof {
                    let (all, fin) = spec_code_numbers(
                        st.tokens@,
                        st.err,
                        st.input@,
                        start_pos as int,
                    );
                    let (rest, fin2) = spec_code_numbers(
                        st.tokens@,
                        st.err,
                        st.input@,
                        save as int,
                    );
                    let (rest2, fin3) = spec_code_numbers(
                        st.tokens@,
                        st.err,
                        st.input@,
                        st.pos as int,
                    );
                    assert(rest =~= seq![spec_trunc_u8(v as int)] + rest2);
                    assert(bytes@.push(spec_trunc_u8(v as int)) + rest2 =~= bytes@ + rest);
                }
                bytes.push(trunc_u8(v));
            },
            Err(_) => {
                st.pos = save;
                proof {
                    let (rest, fin) = spec_code_numbers(
                        st.tokens@,
                        st.err,
                        st.input@,
                        st.pos as int,
                    );
                    assert(rest =~= Seq::<u8>::empty());
                    assert(bytes@ + rest =~= bytes@);
                }
                return Ok(bytes);
            },
        }
    }
}


// Operand alternations: each tries its branches from the same position and
// merges their failures.

/// A direct operand: `%` then a label reference or a number.
pub open spec fn spec_direct(
    toks: Seq<Token>,
    lerr: Option<LexerError>,
    input: Seq<u8>,
    pos: int,
) -> Result<(SpecDirect, int), SpecParseError> {
    match spec_next(toks, lerr, pos, Term::DirectChar) {
        Err(se) => Err(se),
        Ok((_, np)) => match spec_label_param(toks, lerr, input, np) {
            Ok((l, np2)) => Ok((SpecDirect::Label(l), np2)),
            Err(e1) => match spec_number(toks, lerr, input, np) {
                Ok((v, np2)) => Ok((SpecDirect::Numeric(v as i64), np2)),
                Err(e2) => Err(SpecParseError::ExpectedOneOf(seq![e1, e2])),
            },
        },
    }
}

/// An indirect operand: a bare label reference or number.
pub open spec fn spec_indirect(
    toks: Seq<Token>,
    lerr: Option<LexerError>,
    input: Seq<u8>,
    pos: int,
) -> Result<(SpecIndirect, int), SpecParseError> {
    match spec_label_param(toks, lerr, input, pos) {
        Ok((l, np2)) => Ok((SpecIndirect::Label(l), np2)),
        Err(e1) => match spec_number(toks, lerr, input, pos) {
            Ok((v, np2)) => Ok((SpecIndirect::Numeric(v as i64), np2)),
            Err(e2) => Err(SpecParseError::ExpectedOneOf(seq![e1, e2])),
        },
    }
}

/// Register or direct.
pub open spec fn spec_reg_dir(
    toks: Seq<Token>,
    lerr: Option<LexerError>,
    input: Seq<u8>,
    pos: int,
) -> Result<(SpecRegDir, int), SpecParseError> {
    match spec_register(toks, lerr, input, pos) {
        Ok((r, np)) => Ok((SpecRegDir::Reg(r), np)),
        Err(e1) => match spec_direct(toks, lerr, input, pos) {
            Ok((d, np)) => Ok((SpecRegDir::Dir(d), np)),
            Err(e2) => Err(SpecParseError::ExpectedOneOf(seq![e1, e2])),
        },
    }
}

/// Register or indirect.
pub open spec fn spec_reg_ind(
    toks: Seq<Token>,
    lerr: Option<LexerError>,
    input: Seq<u8>,
    pos: int,
) -> Result<(SpecRegInd, int), SpecParseError> {
    match spec_register(toks, lerr, input, pos) {
        Ok((r, np)) => Ok((SpecRegInd::Reg(r), np)),
        Err(e1) => match spec_indirect(toks, lerr, input, pos) {
            Ok((d, np)) => Ok((SpecRegInd::Ind(d), np)),
            Err(e2) => Err(SpecParseError::ExpectedOneOf(seq![e1, e2])),
        },
    }
}

/// Direct or indirect.
pub open spec fn spec_dir_ind(
    toks: Seq<Token>,
    lerr: Option<LexerError>,
    input: Seq<u8>,
    pos: int,
) -> Result<(SpecDirInd, int), SpecParseError> {
    match spec_direct(toks, lerr, input, pos) {
        Ok((d, np)) => Ok((SpecDirInd::Dir(d), np)),
        Err(e1) => match spec_indirect(toks, lerr, input, pos) {
            Ok((d, np)) => Ok((SpecDirInd::Ind(d), np)),
            Err(e2) => Err(SpecParseError::ExpectedOneOf(seq![e1, e2])),
        },
    }
}

/// Register, direct or indirect; the three failures are merged flat.
pub open spec fn spec_any_param(
    toks: Seq<Token>,
    lerr: Option<LexerError>,
    input: Seq<u8>,
    pos: int,
) -> Result<(SpecAnyParam, int), SpecParseError> {
    match spec_register(toks, lerr, input, pos) {
        Ok((r, np)) => Ok((SpecAnyParam::Reg(r), np)),
        Err(e1) => match spec_direct(toks, lerr, input, pos) {
            Ok((d, np)) => Ok((SpecAnyParam::Dir(d), np)),
            Err(e2) => match spec_indirect(toks, lerr, input, pos) {
                Ok((d, np)) => Ok((SpecAnyParam::Ind(d), np)),
                Err(e3) => Err(SpecParseError::ExpectedOneOf(seq![e1, e2, e3])),
            },
        },
    }
}

/// Merges two failed alternatives, as `error_range` and the reports see
/// them.
fn expected_either(e1: ParseError, e2: ParseError) -> (r: ParseError)
    ensures
        r@ == SpecParseError::ExpectedOneOf(seq![e1@, e2@]),
{
    let mut alts: Vec<ParseError> = Vec::new();
    alts.push(e1);
    alts.push(e2);
    let r = ParseError::ExpectedOneOf(alts);
    proof {
        let s = r@->ExpectedOneOf_0;
        assert(s =~= seq![spec_err_view(alts@[0]), spec_err_view(alts@[1])]);
    }
    r
}

/// Merges three failed alternatives.
fn expected_one_of3(e1: ParseError, e2: ParseError, e3: ParseError) -> (r: ParseError)
    ensures
        r@ == SpecParseError::ExpectedOneOf(seq![e1@, e2@, e3@]),
{
    let mut alts: Vec<ParseError> = Vec::new();
    alts.push(e1);
    alts.push(e2);
    alts.push(e3);
    let r = ParseError::ExpectedOneOf(alts);
    proof {
        let s = r@->ExpectedOneOf_0;
        assert(s =~= seq![
            spec_err_view(alts@[0]),
            spec_err_view(alts@[1]),
            spec_err_view(alts@[2]),
        ]);
    }
    r
}

/// Reads a direct operand.
fn direct(st: &mut TokenStream<'_>) -> (r: Result<Direct, ParseError>)
    requires
        old(st).wf(),
    ensures
        final(st).wf(),
        final(st).input == old(st).input,
        final(st).tokens == old(st).tokens,
        final(st).err == old(st).err,
        match spec_direct(old(st).tokens@, old(st).err, old(st).input@, old(st).pos as int) {
            Ok((v, np)) => r matches Ok(x) && x@ == v && final(st).pos == np,
            Err(se) => r matches Err(e) && e@ == se,
        },
{
    match st.next(Term::DirectChar) {
        Ok(_) => {},
        Err(e) => {
            return Err(e);
        },
    }
    let save = st.pos;
    match label_param(st) {
        Ok(l) => Ok(Direct::Label(l)),
        Err(e1) => {
            st.pos = save;
            match number(st) {
                Ok(v) => Ok(Direct::Numeric(v)),
                Err(e2) => Err(expected_either(e1, e2)),
            }
        },
    }
}

/// Reads an indirect operand.
fn indirect(st: &mut TokenStream<'_>) -> (r: Result<Indirect, ParseError>)
    requires
        old(st).wf(),
    ensures
        final(st).wf(),
        final(st).input == old(st).input,
        final(st).tokens == old(st).tokens,
        final(st).err == old(st).err,
        match spec_indirect(old(st).tokens@, old(st).err, old(st).input@, old(st).pos as int) {
            Ok((v, np)) => r matches Ok(x) && x@ == v && final(st).pos == np,
            Err(se) => r matches Err(e) && e@ == se,
        },
{
    let save = st.pos;
    match label_param(st) {
        Ok(l) => Ok(Indirect::Label(l)),
        Err(e1) => {
            st.pos = save;
            match number(st) {
                Ok(v) => Ok(Indirect::Numeric(v)),
                Err(e2) => Err(expected_either(e1, e2)),
            }
        },
    }
}

/// Reads a register-or-direct operand.
fn reg_dir(st: &mut TokenStream<'_>) -> (r: Result<RegDir, ParseError>)
    requires
        old(st).wf(),
    ensures
        final(st).wf(),
        final(st).input == old(st).input,
        final(st).tokens == old(st).tokens,
        final(st).err == old(st).err,
        match spec_reg_dir(old(st).tokens@, old(st).err, old(st).input@, old(st).pos as int) {
            Ok((v, np)) => r matches Ok(x) && x@ == v && final(st).pos == np,
            Err(se) => r matches Err(e) && e@ == se,
        },
{
    let save = st.pos;
    match register(st) {
        Ok(x) => Ok(RegDir::Reg(x)),
        Err(e1) => {
            st.pos = save;
            match direct(st) {
                Ok(d) => Ok(RegDir::Dir(d)),
                Err(e2) => Err(expected_either(e1, e2)),
            }
        },
    }
}

/// Reads a register-or-indirect operand.
fn reg_ind(st: &mut TokenStream<'_>) -> (r: Result<RegInd, ParseError>)
    requires
        old(st).wf(),
    ensures
        final(st).wf(),
        final(st).input == old(st).input,
        final(st).tokens == old(st).tokens,
        final(st).err == old(st).err,
        match spec_reg_ind(old(st).tokens@, old(st).err, old(st).input@, old(st).pos as int) {
            Ok((v, np)) => r matches Ok(x) && x@ == v && final(st).pos == np,
            Err(se) => r matches Err(e) && e@ == se,
        },
{
    let save = st.pos;
    match register(st) {
        Ok(x) => Ok(RegInd::Reg(x)),
        Err(e1) => {
            st.pos = save;
            match indirect(st) {
                Ok(d) => Ok(RegInd::Ind(d)),
                Err(e2) => Err(expected_either(e1, e2)),
            }
        },
    }
}

/// Reads a direct-or-indirect operand.
fn dir_ind(st: &mut TokenStream<'_>) -> (r: Result<DirInd, ParseError>)
    requires
        old(st).wf(),
    ensures
        final(st).wf(),
        final(st).input == old(st).input,
        final(st).tokens == old(st).tokens,
        final(st).err == old(st).err,
        match spec_dir_ind(old(st).tokens@, old(st).err, old(st).input@, old(st).pos as int) {
            Ok((v, np)) => r matches Ok(x) && x@ == v && final(st).pos == np,
            Err(se) => r matches Err(e) && e@ == se,
        },
{
    let save = st.pos;
    match direct(st) {
        Ok(d) => Ok(DirInd::Dir(d)),
        Err(e1) => {
            st.pos = save;
            match indirect(st) {
                Ok(d) => Ok(DirInd::Ind(d)),
                Err(e2) => Err(expected_either(e1, e2)),
            }
        },
    }
}

/// Reads an operand of any kind.
fn any_param(st: &mut TokenStream<'_>) -> (r: Result<AnyParam, ParseError>)
    requires
        old(st).wf(),
    ensures
        final(st).wf(),
        final(st).input == old(st).input,
        final(st).tokens == old(st).tokens,
        final(st).err == old(st).err,
        match spec_any_param(old(st).tokens@, old(st).err, old(st).input@, old(st).pos as int) {
            Ok((v, np)) => r matches Ok(x) && x@ == v && final(st).pos == np,
            Err(se) => r matches Err(e) && e@ == se,
        },
{
    let save = st.pos;
    match register(st) {
        Ok(x) => Ok(AnyParam::Reg(x)),
        Err(e1) => {
            st.pos = save;
            match direct(st) {
                Ok(d) => Ok(AnyParam::Dir(d)),
                Err(e2) => {
                    st.pos = save;
                    match indirect(st) {
                        Ok(d) => Ok(AnyParam::Ind(d)),
                        Err(e3) => Err(expected_one_of3(e1, e2, e3)),
                    }
                },
            }
        },
    }
}


// The sixteen mnemonics, as byte sequences.

/// The opcode a mnemonic names, or `None` for an unknown word.
pub open spec fn spec_mnemonic(w: Seq<u8>) -> Option<crate::defs::OpType> {
    if w == seq![108u8, 105u8, 118u8, 101u8] {
        Some(crate::defs::OpType::Live)
    } else if w == seq![108u8, 100u8] {
        Some(crate::defs::OpType::Ld)
    } else if w == seq![115u8, 116u8] {
        Some(crate::defs::OpType::St)
    } else if w == seq![97u8, 100u8, 100u8] {
        Some(crate::defs::OpType::Add)
    } else if w == seq![115u8, 117u8, 98u8] {
        Some(crate::defs::OpType::Sub)
    } else if w == seq![97u8, 110u8, 100u8] {
        Some(crate::defs::OpType::And)
    } else if w == seq![111u8, 114u8] {
        Some(crate::defs::OpType::Or)
    } else if w == seq![120u8, 111u8, 114u8] {
        Some(crate::defs::OpType::Xor)
    } else if w == seq![122u8, 106u8, 109u8, 112u8] {
        Some(crate::defs::OpType::Zjmp)
    } else if w == seq![108u8, 100u8, 105u8] {
        Some(crate::defs::OpType::Ldi)
    } else if w == seq![115u8, 116u8, 105u8] {
        Some(crate::defs::OpType::Sti)
    } else if w == seq![102u8, 111u8, 114u8, 107u8] {
        Some(crate::defs::OpType::Fork)
    } else if w == seq![108u8, 108u8, 100u8] {
        Some(crate::defs::OpType::Lld)
    } else if w == seq![108u8, 108u8, 100u8, 105u8] {
        Some(crate::defs::OpType::Lldi)
    } else if w == seq![108u8, 102u8, 111u8, 114u8, 107u8] {
        Some(crate::defs::OpType::Lfork)
    } else if w == seq![97u8, 102u8, 102u8] {
        Some(crate::defs::OpType::Aff)
    } else {
        None
    }
}

/// Whether `t` is the two given bytes.
fn word2(t: &Vec<u8>, a: u8, b: u8) -> (r: bool)
    ensures
        r == (t@ == seq![a, b]),
{
    let ok = t.len() == 2 && t[0] == a && t[1] == b;
    proof {
        if ok {
            assert(t@ =~= seq![a, b]);
        }
    }
    ok
}

/// Whether `t` is the three given bytes.
fn word3(t: &Vec<u8>, a: u8, b: u8, c: u8) -> (r: bool)
    ensures
        r == (t@ == seq![a, b, c]),
{
    let ok = t.len() == 3 && t[0] == a && t[1] == b && t[2] == c;
    proof {
        if ok {
            assert(t@ =~= seq![a, b, c]);
        }
    }
    ok
}

/// Whether `t` is the four given bytes.
fn word4(t: &Vec<u8>, a: u8, b: u8, c: u8, d: u8) -> (r: bool)
    ensures
        r == (t@ == seq![a, b, c, d]),
{
    let ok = t.len() == 4 && t[0] == a && t[1] == b && t[2] == c && t[3] == d;
    proof {
        if ok {
            assert(t@ =~= seq![a, b, c, d]);
        }
    }
    ok
}

/// Whether `t` is the five given bytes.
fn word5(t: &Vec<u8>, a: u8, b: u8, c: u8, d: u8, e: u8) -> (r: bool)
    ensures
        r == (t@ == seq![a, b, c, d, e]),
{
    let ok = t.len() == 5 && t[0] == a && t[1] == b && t[2] == c && t[3] == d && t[4] == e;
    proof {
        if ok {
            assert(t@ =~= seq![a, b, c, d, e]);
        }
    }
    ok
}

/// Executable image of `spec_mnemonic`.
fn mnemonic(t: &Vec<u8>) -> (r: Option<crate::defs::OpType>)
    ensures
        r == spec_mnemonic(t@),
{
    if word4(t, 108, 105, 118, 101) {
        Some(crate::defs::OpType::Live)
    } else if word2(t, 108, 100) {
        Some(crate::defs::OpType::Ld)
    } else if word2(t, 115, 116) {
        Some(crate::defs::OpType::St)
    } else if word3(t, 97, 100, 100) {
        Some(crate::defs::OpType::Add)
    } else if word3(t, 115, 117, 98) {
        Some(crate::defs::OpType::Sub)
    } else if word3(t, 97, 110, 100) {
        Some(crate::defs::OpType::And)
    } else if word2(t, 111, 114) {
        Some(crate::defs::OpType::Or)
    } else if word3(t, 120, 111, 114) {
        Some(crate::defs::OpType::Xor)
    } else if word4(t, 122, 106, 109, 112) {
        Some(crate::defs::OpType::Zjmp)
    } else if word3(t, 108, 100, 105) {
        Some(crate::defs::OpType::Ldi)
    } else if word3(t, 115, 116, 105) {
        Some(crate::defs::OpType::Sti)
    } else if word4(t, 102, 111, 114, 107) {
        Some(crate::defs::OpType::Fork)
    } else if word3(t, 108, 108, 100) {
        Some(crate::defs::OpType::Lld)
    } else if word4(t, 108, 108, 100, 105) {
        Some(crate::defs::OpType::Lldi)
    } else if word5(t, 108, 102, 111, 114, 107) {
        Some(crate::defs::OpType::Lfork)
    } else if word3(t, 97, 102, 102) {
        Some(crate::defs::OpType::Aff)
    } else {
        None
    }
}

/// The whole instruction at the stream head: a known mnemonic, then its
/// operands in the shape the table fixes, separated by commas.
pub open spec fn spec_op(
    toks: Seq<Token>,
    lerr: Option<LexerError>,
    input: Seq<u8>,
    pos: int,
) -> Result<(SpecOp, int), SpecParseError> {
    match spec_next(toks, lerr, pos, Term::Ident) {
        Err(se) => Err(se),
        Ok((t, np)) => {
            let m = spec_text(input, t);
            match spec_mnemonic(m) {
                None => Err(SpecParseError::InvalidOpMnemonic(m, t)),
                Some(o) => match o {
                    crate::defs::OpType::Live => match spec_direct(toks, lerr, input, np) {
                        Err(se) => Err(se),
                        Ok((d, p)) => Ok((SpecOp::Live(d), p)),
                    },
                    crate::defs::OpType::Zjmp => match spec_direct(toks, lerr, input, np) {
                        Err(se) => Err(se),
                        Ok((d, p)) => Ok((SpecOp::Zjmp(d), p)),
                    },
                    crate::defs::OpType::Fork => match spec_direct(toks, lerr, input, np) {
                        Err(se) => Err(se),
                        Ok((d, p)) => Ok((SpecOp::Fork(d), p)),
                    },
                    crate::defs::OpType::Lfork => match spec_direct(toks, lerr, input, np) {
                        Err(se) => Err(se),
                        Ok((d, p)) => Ok((SpecOp::Lfork(d), p)),
                    },
                    crate::defs::OpType::Aff => match spec_register(toks, lerr, input, np) {
                        Err(se) => Err(se),
                        Ok((d, p)) => Ok((SpecOp::Aff(d), p)),
                    },
                    crate::defs::OpType::Ld => match spec_args_di_r(toks, lerr, input, np) {
                        Err(se) => Err(se),
                        Ok(((a, b), p)) => Ok((SpecOp::Ld(a, b), p)),
                    },
                    crate::defs::OpType::Lld => match spec_args_di_r(toks, lerr, input, np) {
                        Err(se) => Err(se),
                        Ok(((a, b), p)) => Ok((SpecOp::Lld(a, b), p)),
                    },
                    crate::defs::OpType::St => match spec_args_r_ri(toks, lerr, input, np) {
                        Err(se) => Err(se),
                        Ok(((a, b), p)) => Ok((SpecOp::St(a, b), p)),
                    },
                    crate::defs::OpType::Add => match spec_args_rrr(toks, lerr, input, np) {
                        Err(se) => Err(se),
                        Ok(((a, b, c), p)) => Ok((SpecOp::Add(a, b, c), p)),
                    },
                    crate::defs::OpType::Sub => match spec_args_rrr(toks, lerr, input, np) {
                        Err(se) => Err(se),
                        Ok(((a, b, c), p)) => Ok((SpecOp::Sub(a, b, c), p)),
                    },
                    crate::defs::OpType::And => match spec_args_aar(toks, lerr, input, np) {
                        Err(se) => Err(se),
                        Ok(((a, b, c), p)) => Ok((SpecOp::And(a, b, c), p)),
                    },
                    crate::defs::OpType::Or => match spec_args_aar(toks, lerr, input, np) {
                        Err(se) => Err(se),
                        Ok(((a, b, c), p)) => Ok((SpecOp::Or(a, b, c), p)),
                    },
                    crate::defs::OpType::Xor => match spec_args_aar(toks, lerr, input, np) {
                        Err(se) => Err(se),
                        Ok(((a, b, c), p)) => Ok((SpecOp::Xor(a, b, c), p)),
                    },
                    crate::defs::OpType::Ldi => match spec_args_adr(toks, lerr, input, np) {
                        Err(se) => Err(se),
                        Ok(((a, b, c), p)) => Ok((SpecOp::Ldi(a, b, c), p)),
                    },
                    crate::defs::OpType::Lldi => match spec_args_adr(toks, lerr, input, np) {
                        Err(se) => Err(se),
                        Ok(((a, b, c), p)) => Ok((SpecOp::Lldi(a, b, c), p)),
                    },
                    crate::defs::OpType::Sti => match spec_args_rad(toks, lerr, input, np) {
                        Err(se) => Err(se),
                        Ok(((a, b, c), p)) => Ok((SpecOp::Sti(a, b, c), p)),
                    },
                },
            }
        },
    }
}

/// Direct-or-indirect, comma, register.
pub open spec fn spec_args_di_r(
    toks: Seq<Token>,
    lerr: Option<LexerError>,
    input: Seq<u8>,
    pos: int,
) -> Result<((SpecDirInd, Register), int), SpecParseError> {
    match spec_dir_ind(toks, lerr, input, pos) {
        Err(se) => Err(se),
        Ok((a, p1)) => match spec_next(toks, lerr, p1, Term::ParamSeparator) {
            Err(se) => Err(se),
            Ok((_, p2)) => match spec_register(toks, lerr, input, p2) {
                Err(se) => Err(se),
                Ok((b, p3)) => Ok(((a, b), p3)),
            },
        },
    }
}

/// Register, comma, register-or-indirect.
pub open spec fn spec_args_r_ri(
    toks: Seq<Token>,
    lerr: Option<LexerError>,
    input: Seq<u8>,
    pos: int,
) -> Result<((Register, SpecRegInd), int), SpecParseError> {
    match spec_register(toks, lerr, input, pos) {
        Err(se) => Err(se),
        Ok((a, p1)) => match spec_next(toks, lerr, p1, Term::ParamSeparator) {
            Err(se) => Err(se),
            Ok((_, p2)) => match spec_reg_ind(toks, lerr, input, p2) {
                Err(se) => Err(se),
                Ok((b, p3)) => Ok(((a, b), p3)),
            },
        },
    }
}

/// Three registers, comma-separated.
pub open spec fn spec_args_rrr(
    toks: Seq<Token>,
    lerr: Option<LexerError>,
    input: Seq<u8>,
    pos: int,
) -> Result<((Register, Register, Register), int), SpecParseError> {
    match spec_register(toks, lerr, input, pos) {
        Err(se) => Err(se),
        Ok((a, p1)) => match spec_next(toks, lerr, p1, Term::ParamSeparator) {
            Err(se) => Err(se),
            Ok((_, p2)) => match spec_register(toks, lerr, input, p2) {
                Err(se) => Err(se),
                Ok((b, p3)) => match spec_next(toks, lerr, p3, Term::ParamSeparator) {
                    Err(se) => Err(se),
                    Ok((_, p4)) => match spec_register(toks, lerr, input, p4) {
                        Err(se) => Err(se),
                        Ok((c, p5)) => Ok(((a, b, c), p5)),
                    },
                },
            },
        },
    }
}

/// Two any-kind operands then a register, comma-separated.
pub open spec fn spec_args_aar(
    toks: Seq<Token>,
    lerr: Option<LexerError>,
    input: Seq<u8>,
    pos: int,
) -> Result<((SpecAnyParam, SpecAnyParam, Register), int), SpecParseError> {
    match spec_any_param(toks, lerr, input, pos) {
        Err(se) => Err(se),
        Ok((a, p1)) => match spec_next(toks, lerr, p1, Term::ParamSeparator) {
            Err(se) => Err(se),
            Ok((_, p2)) => match spec_any_param(toks, lerr, input, p2) {
                Err(se) => Err(se),
                Ok((b, p3)) => match spec_next(toks, lerr, p3, Term::ParamSeparator) {
                    Err(se) => Err(se),
                    Ok((_, p4)) => match spec_register(toks, lerr, input, p4) {
                        Err(se) => Err(se),
                        Ok((c, p5)) => Ok(((a, b, c), p5)),
                    },
                },
            },
        },
    }
}

/// Any-kind, register-or-direct, register, comma-separated.
pub open spec fn spec_args_adr(
    toks: Seq<Token>,
    lerr: Option<LexerError>,
    input: Seq<u8>,
    pos: int,
) -> Result<((SpecAnyParam, SpecRegDir, Register), int), SpecParseError> {
    match spec_any_param(toks, lerr, input, pos) {
        Err(se) => Err(se),
        Ok((a, p1)) => match spec_next(toks, lerr, p1, Term::ParamSeparator) {
            Err(se) => Err(se),
            Ok((_, p2)) => match spec_reg_dir(toks, lerr, input, p2) {
                Err(se) => Err(se),
                Ok((b, p3)) => match spec_next(toks, lerr, p3, Term::ParamSeparator) {
                    Err(se) => Err(se),
                    Ok((_, p4)) => match spec_register(toks, lerr, input, p4) {
                        Err(se) => Err(se),
                        Ok((c, p5)) => Ok(((a, b, c), p5)),
                    },
                },
            },
        },
    }
}

/// Register, any-kind, register-or-direct, comma-separated.
pub open spec fn spec_args_rad(
    toks: Seq<Token>,
    lerr: Option<LexerError>,
    input: Seq<u8>,
    pos: int,
) -> Result<((Register, SpecAnyParam, SpecRegDir), int), SpecParseError> {
    match spec_register(toks, lerr, input, pos) {
        Err(se) => Err(se),
        Ok((a, p1)) => match spec_next(toks, lerr, p1, Term::ParamSeparator) {
            Err(se) => Err(se),
            Ok((_, p2)) => match spec_any_param(toks, lerr, input, p2) {
                Err(se) => Err(se),
                Ok((b, p3)) => match spec_next(toks, lerr, p3, Term::ParamSeparator) {
                    Err(se) => Err(se),
                    Ok((_, p4)) => match spec_reg_dir(toks, lerr, input, p4) {
                        Err(se) => Err(se),
                        Ok((c, p5)) => Ok(((a, b, c), p5)),
                    },
                },
            },
        },
    }
}

/// Reads a whole instruction.
fn op(st: &mut TokenStream<'_>) -> (r: Result<Op, ParseError>)
    requires
        old(st).wf(),
    ensures
        final(st).wf(),
        final(st).input == old(st).input,
        final(st).tokens == old(st).tokens,
        final(st).err == old(st).err,
        match spec_op(old(st).tokens@, old(st).err, old(st).input@, old(st).pos as int) {
            Ok((v, np)) => r matches Ok(x) && x@ == v && final(st).pos == np,
            Err(se) => r matches Err(e) && e@ == se,
        },
{
    let tok = match st.next_with_token(Term::Ident) {
        Ok(t) => t,
        Err(e) => {
            return Err(e);
        },
    };
    let text = st.text(&tok);
    let code = mnemonic(&text);
    match code {
        None => Err(ParseError::InvalidOpMnemonic(text, tok)),
        Some(o) => match o {
            crate::defs::OpType::Live => match direct(st) {
                Ok(d) => Ok(Op::Live(d)),
                Err(e) => Err(e),
            },
            crate::defs::OpType::Zjmp => match direct(st) {
                Ok(d) => Ok(Op::Zjmp(d)),
                Err(e) => Err(e),
            },
            crate::defs::OpType::Fork => match direct(st) {
                Ok(d) => Ok(Op::Fork(d)),
                Err(e) => Err(e),
            },
            crate::defs::OpType::Lfork => match direct(st) {
                Ok(d) => Ok(Op::Lfork(d)),
                Err(e) => Err(e),
            },
            crate::defs::OpType::Aff => match register(st) {
                Ok(d) => Ok(Op::Aff(d)),
                Err(e) => Err(e),
            },
            crate::defs::OpType::Ld => match args_di_r(st) {
                Ok((a, b)) => Ok(Op::Ld(a, b)),
                Err(e) => Err(e),
            },
            crate::defs::OpType::Lld => match args_di_r(st) {
                Ok((a, b)) => Ok(Op::Lld(a, b)),
                Err(e) => Err(e),
            },
            crate::defs::OpType::St => match args_r_ri(st) {
                Ok((a, b)) => Ok(Op::St(a, b)),
                Err(e) => Err(e),
            },
            crate::defs::OpType::Add => match args_rrr(st) {
                Ok((a, b, c)) => Ok(Op::Add(a, b, c)),
                Err(e) => Err(e),
            },
            crate::defs::OpType::Sub => match args_rrr(st) {
                Ok((a, b, c)) => Ok(Op::Sub(a, b, c)),
                Err(e) => Err(e),
            },
            crate::defs::OpType::And => match args_aar(st) {
                Ok((a, b, c)) => Ok(Op::And(a, b, c)),
                Err(e) => Err(e),
            },
            crate::defs::OpType::Or => match args_aar(st) {
                Ok((a, b, c)) => Ok(Op::Or(a, b, c)),
                Err(e) => Err(e),
            },
            crate::defs::OpType::Xor => match args_aar(st) {
                Ok((a, b, c)) => Ok(Op::Xor(a, b, c)),
                Err(e) => Err(e),
            },
            crate::defs::OpType::Ldi => match args_adr(st) {
                Ok((a, b, c)) => Ok(Op::Ldi(a, b, c)),
                Err(e) => Err(e),
            },
            crate::defs::OpType::Lldi => match args_adr(st) {
                Ok((a, b, c)) => Ok(Op::Lldi(a, b, c)),
                Err(e) => Err(e),
            },
            crate::defs::OpType::Sti => match args_rad(st) {
                Ok((a, b, c)) => Ok(Op::Sti(a, b, c)),
                Err(e) => Err(e),
            },
        },
    }
}

/// Reads a direct-or-indirect operand, a comma, a register.
fn args_di_r(st: &mut TokenStream<'_>) -> (r: Result<(DirInd, Register), ParseError>)
    requires
        old(st).wf(),
    ensures
        final(st).wf(),
        final(st).input == old(st).input,
        final(st).tokens == old(st).tokens,
        final(st).err == old(st).err,
        match spec_args_di_r(old(st).tokens@, old(st).err, old(st).input@, old(st).pos as int) {
            Ok(((a, b), np)) => r matches Ok(x) && x.0@ == a && x.1 == b && final(st).pos == np,
            Err(se) => r matches Err(e) && e@ == se,
        },
{
    let a = match dir_ind(st) {
        Ok(a) => a,
        Err(e) => {
            return Err(e);
        },
    };
    match st.next(Term::ParamSeparator) {
        Ok(_) => {},
        Err(e) => {
            return Err(e);
        },
    }
    let b = match register(st) {
        Ok(b) => b,
        Err(e) => {
            return Err(e);
        },
    };
    Ok((a, b))
}

/// Reads a register, a comma, a register-or-indirect operand.
fn args_r_ri(st: &mut TokenStream<'_>) -> (r: Result<(Register, RegInd), ParseError>)
    requires
        old(st).wf(),
    ensures
        final(st).wf(),
        final(st).input == old(st).input,
        final(st).tokens == old(st).tokens,
        final(st).err == old(st).err,
        match spec_args_r_ri(old(st).tokens@, old(st).err, old(st).input@, old(st).pos as int) {
            Ok(((a, b), np)) => r matches Ok(x) && x.0 == a && x.1@ == b && final(st).pos == np,
            Err(se) => r matches Err(e) && e@ == se,
        },
{
    let a = match register(st) {
        Ok(a) => a,
        Err(e) => {
            return Err(e);
        },
    };
    match st.next(Term::ParamSeparator) {
        Ok(_) => {},
        Err(e) => {
            return Err(e);
        },
    }
    let b = match reg_ind(st) {
        Ok(b) => b,
        Err(e) => {
            return Err(e);
        },
    };
    Ok((a, b))
}

/// Reads three comma-separated registers.
fn args_rrr(st: &mut TokenStream<'_>) -> (r: Result<(Register, Register, Register), ParseError>)
    requires
        old(st).wf(),
    ensures
        final(st).wf(),
        final(st).input == old(st).input,
        final(st).tokens == old(st).tokens,
        final(st).err == old(st).err,
        match spec_args_rrr(old(st).tokens@, old(st).err, old(st).input@, old(st).pos as int) {
            Ok(((a, b, c), np)) => r matches Ok(x) && x.0 == a && x.1 == b && x.2 == c
                && final(st).pos == np,
            Err(se) => r matches Err(e) && e@ == se,
        },
{
    let a = match register(st) {
        Ok(a) => a,
        Err(e) => {
            return Err(e);
        },
    };
    match st.next(Term::ParamSeparator) {
        Ok(_) => {},
        Err(e) => {
            return Err(e);
        },
    }
    let b = match register(st) {
        Ok(b) => b,
        Err(e) => {
            return Err(e);
        },
    };
    match st.next(Term::ParamSeparator) {
        Ok(_) => {},
        Err(e) => {
            return Err(e);
        },
    }
    let c = match register(st) {
        Ok(c) => c,
        Err(e) => {
            return Err(e);
        },
    };
    Ok((a, b, c))
}

/// Reads two any-kind operands and a register, comma-separated.
fn args_aar(st: &mut TokenStream<'_>) -> (r: Result<
    (AnyParam, AnyParam, Register),
    ParseError,
>)
    requires
        old(st).wf(),
    ensures
        final(st).wf(),
        final(st).input == old(st).input,
        final(st).tokens == old(st).tokens,
        final(st).err == old(st).err,
        match spec_args_aar(old(st).tokens@, old(st).err, old(st).input@, old(st).pos as int) {
            Ok(((a, b, c), np)) => r matches Ok(x) && x.0@ == a && x.1@ == b && x.2 == c
                && final(st).pos == np,
            Err(se) => r matches Err(e) && e@ == se,
        },
{
    let a = match any_param(st) {
        Ok(a) => a,
        Err(e) => {
            return Err(e);
        },
    };
    match st.next(Term::ParamSeparator) {
        Ok(_) => {},
        Err(e) => {
            return Err(e);
        },
    }
    let b = match any_param(st) {
        Ok(b) => b,
        Err(e) => {
            return Err(e);
        },
    };
    match st.next(Term::ParamSeparator) {
        Ok(_) => {},
        Err(e) => {
            return Err(e);
        },
    }
    let c = match register(st) {
        Ok(c) => c,
        Err(e) => {
            return Err(e);
        },
    };
    Ok((a, b, c))
}

/// Reads an any-kind operand, a register-or-direct, a register.
fn args_adr(st: &mut TokenStream<'_>) -> (r: Result<(AnyParam, RegDir, Register), ParseError>)
    requires
        old(st).wf(),
    ensures
        final(st).wf(),
        final(st).input == old(st).input,
        final(st).tokens == old(st).tokens,
        final(st).err == old(st).err,
        match spec_args_adr(old(st).tokens@, old(st).err, old(st).input@, old(st).pos as int) {
            Ok(((a, b, c), np)) => r matches Ok(x) && x.0@ == a && x.1@ == b && x.2 == c
                && final(st).pos == np,
            Err(se) => r matches Err(e) && e@ == se,
        },
{
    let a = match any_param(st) {
        Ok(a) => a,
        Err(e) => {
            return Err(e);
        },
    };
    match st.next(Term::ParamSeparator) {
        Ok(_) => {},
        Err(e) => {
            return Err(e);
        },
    }
    let b = match reg_dir(st) {
        Ok(b) => b,
        Err(e) => {
            return Err(e);
        },
    };
    match st.next(Term::ParamSeparator) {
        Ok(_) => {},
        Err(e) => {
            return Err(e);
        },
    }
    let c = match register(st) {
        Ok(c) => c,
        Err(e) => {
            return Err(e);
        },
    };
    Ok((a, b, c))
}

/// Reads a register, an any-kind operand, a register-or-direct.
fn args_rad(st: &mut TokenStream<'_>) -> (r: Result<(Register, AnyParam, RegDir), ParseError>)
    requires
        old(st).wf(),
    ensures
        final(st).wf(),
        final(st).input == old(st).input,
        final(st).tokens == old(st).tokens,
        final(st).err == old(st).err,
        match spec_args_rad(old(st).tokens@, old(st).err, old(st).input@, old(st).pos as int) {
            Ok(((a, b, c), np)) => r matches Ok(x) && x.0 == a && x.1@ == b && x.2@ == c
                && final(st).pos == np,
            Err(se) => r matches Err(e) && e@ == se,
        },
{
    let a = match register(st) {
        Ok(a) => a,
        Err(e) => {
            return Err(e);
        },
    };
    match st.next(Term::ParamSeparator) {
        Ok(_) => {},
        Err(e) => {
            return Err(e);
        },
    }
    let b = match any_param(st) {
        Ok(b) => b,
        Err(e) => {
            return Err(e);
        },
    };
    match st.next(Term::ParamSeparator) {
        Ok(_) => {},
        Err(e) => {
            return Err(e);
        },
    }
    let c = match reg_dir(st) {
        Ok(c) => c,
        Err(e) => {
            return Err(e);
        },
    };
    Ok((a, b, c))
}


/// Whether every alternation node of a failure holds at least one
/// alternative, as the parser always builds them.
pub open spec fn spec_err_alts_nonempty(e: SpecParseError) -> bool
    decreases e,
{
    match e {
        SpecParseError::ExpectedOneOf(cs) => cs.len() > 0 && (forall|i: int|
            0 <= i < cs.len() ==> spec_err_alts_nonempty(#[trigger] cs[i])),
        _ => true,
    }
}

/// Left fold of the least start over the ranges from index `i` on.
pub open spec fn spec_fold_min(rs: Seq<(int, Option<int>)>, i: int, acc: int) -> int
    decreases rs.len() - i,
{
    if 0 <= i < rs.len() {
        spec_fold_min(
            rs,
            i + 1,
            if rs[i].0 < acc {
                rs[i].0
            } else {
                acc
            },
        )
    } else {
        acc
    }
}

/// Left fold of the greatest known end over the ranges from index `i` on.
pub open spec fn spec_fold_max_end(
    rs: Seq<(int, Option<int>)>,
    i: int,
    acc: Option<int>,
) -> Option<int>
    decreases rs.len() - i,
{
    if 0 <= i < rs.len() {
        spec_fold_max_end(
            rs,
            i + 1,
            match (acc, rs[i].1) {
                (None, x) => x,
                (Some(a), None) => Some(a),
                (Some(a), Some(b)) => if b > a {
                    Some(b)
                } else {
                    Some(a)
                },
            },
        )
    } else {
        acc
    }
}

/// The ranges of an alternation's branches, in order.
pub open spec fn spec_child_ranges(cs: Seq<SpecParseError>) -> Seq<(int, Option<int>)>
    decreases cs,
{
    Seq::new(
        cs.len(),
        |i: int|
            if 0 <= i < cs.len() {
                spec_error_range(cs[i])
            } else {
                (0int, None::<int>)
            },
    )
}

/// The byte range a failure covers: its token's range; for an alternation,
/// the least start and the greatest known end across the alternatives; for
/// a failure at the end of the line, start 0 and no end.
pub open spec fn spec_error_range(e: SpecParseError) -> (int, Option<int>)
    decreases e,
{
    match e {
        SpecParseError::LexerError(le) => (le.start as int, Some(le.end as int)),
        SpecParseError::ExpectedButGotEof(_) => (0, None),
        SpecParseError::ExpectedOneOf(cs) => {
            if cs.len() == 0 {
                (0, None)
            } else {
                let rs = spec_child_ranges(cs);
                (spec_fold_min(rs, 1, rs[0].0), spec_fold_max_end(rs, 1, rs[0].1))
            }
        },
        SpecParseError::RemainingInput(t) => (t.start as int, Some(t.end as int)),
        SpecParseError::Unexpected(t) => (t.start as int, Some(t.end as int)),
        SpecParseError::ExpectedButGot(_, t) => (t.start as int, Some(t.end as int)),
        SpecParseError::InvalidRegisterCount(_, t) => (t.start as int, Some(t.end as int)),
        SpecParseError::InvalidRegisterPrefix(_, t) => (t.start as int, Some(t.end as int)),
        SpecParseError::MissingRegisterPrefix(t) => (t.start as int, Some(t.end as int)),
        SpecParseError::ParseIntError(_, t) => (t.start as int, Some(t.end as int)),
        SpecParseError::RegisterParseIntError(_, t) => (t.start as int, Some(t.end as int)),
        SpecParseError::InvalidOpMnemonic(_, t) => (t.start as int, Some(t.end as int)),
    }
}

/// The byte range to underline for a failure, so a host can show exact
/// column spans.
#[verifier::loop_isolation(false)]
pub fn error_range(err: &ParseError) -> (r: (usize, Option<usize>))
    requires
        spec_err_alts_nonempty(err@),
    ensures
        ({
            let (s, e) = spec_error_range(err@);
            &&& r.0 as int == s
            &&& match (r.1, e) {
                (Some(a), Some(b)) => a as int == b,
                (None, None) => true,
                _ => false,
            }
        }),
    decreases *err,
{
    match err {
        ParseError::LexerError(le) => (le.start, Some(le.end)),
        ParseError::ExpectedButGotEof(_) => (0, None),
        ParseError::ExpectedOneOf(errs) => {
            let ghost cs = err@->ExpectedOneOf_0;
            let ghost rs = spec_child_ranges(cs);
            let (mut ms, mut me) = error_range(&errs[0]);
            let mut i: usize = 1;
            while i < errs.len()
                invariant
                    1 <= i <= errs@.len(),
                    cs.len() == errs@.len(),
                    forall|j: int| 0 <= j < cs.len() ==> cs[j] == (#[trigger] errs@[j])@,
                    forall|j: int| 0 <= j < cs.len() ==> spec_err_alts_nonempty(#[trigger] cs[j]),
                    rs == spec_child_ranges(cs),
                    spec_fold_min(rs, i as int, ms as int) == spec_fold_min(rs, 1, rs[0].0),
                    spec_fold_max_end(
                        rs,
                        i as int,
                        match me {
                            Some(a) => Some(a as int),
                            None => None,
                        },
                    ) == spec_fold_max_end(rs, 1, rs[0].1),
                decreases errs@.len() - i,
            {
                let (s2, e2) = error_range(&errs[i]);
                if s2 < ms {
                    ms = s2;
                }
                me = match (me, e2) {
                    (None, x) => x,
                    (Some(a), None) => Some(a),
                    (Some(a), Some(b)) => if b > a {
                        Some(b)
                    } else {
                        Some(a)
                    },
                };
                i += 1;
            }
            (ms, me)
        },
        ParseError::RemainingInput(t) => (t.start, Some(t.end)),
        ParseError::Unexpected(t) => (t.start, Some(t.end)),
        ParseError::ExpectedButGot(_, t) => (t.start, Some(t.end)),
        ParseError::InvalidRegisterCount(_, t) => (t.start, Some(t.end)),
        ParseError::InvalidRegisterPrefix(_, t) => (t.start, Some(t.end)),
        ParseError::MissingRegisterPrefix(t) => (t.start, Some(t.end)),
        ParseError::ParseIntError(_, t) => (t.start, Some(t.end)),
        ParseError::RegisterParseIntError(_, t) => (t.start, Some(t.end)),
        ParseError::InvalidOpMnemonic(_, t) => (t.start, Some(t.end)),
    }
}

/// One whole line: the statement it holds, or the first failure; any
/// token left over beyond the statement, other than a comment, is an
/// error.
#[verifier::opaque]
pub open spec fn spec_parse_line(input: Seq<u8>) -> Result<SpecParsedLine, SpecParseError> {
    let (toks, lerr) = spec_lex(input, 0);
    match spec_peek(toks, lerr, 0) {
        PeekKind::End => Ok(SpecParsedLine::Empty),
        PeekKind::LexFail(e) => Err(SpecParseError::LexerError(e)),
        PeekKind::Tok(t) => if t.term == Term::Comment {
            Ok(SpecParsedLine::Empty)
        } else {
            let prod: Result<(SpecParsedLine, int), SpecParseError> = match t.term {
                Term::ChampionNameCmd => match spec_champion_name(toks, lerr, input, 0) {
                    Err(se) => Err(se),
                    Ok((n, np)) => Ok((SpecParsedLine::ChampionName(n), np)),
                },
                Term::ChampionCommentCmd => match spec_champion_comment(toks, lerr, input, 0) {
                    Err(se) => Err(se),
                    Ok((c, np)) => Ok((SpecParsedLine::ChampionComment(c), np)),
                },
                Term::CodeCmd => match spec_code(toks, lerr, input, 0) {
                    Err(se) => Err(se),
                    Ok((b, np)) => Ok((SpecParsedLine::Code(b), np)),
                },
                Term::LabelDef => match spec_label(toks, lerr, input, 0) {
                    Err(se) => Err(se),
                    Ok((l, np)) => match spec_peek(toks, lerr, np) {
                        PeekKind::End => Ok((SpecParsedLine::Label(l), np)),
                        PeekKind::Tok(t2) => if t2.term == Term::Comment {
                            Ok((SpecParsedLine::Label(l), np))
                        } else {
                            match spec_op(toks, lerr, input, np) {
                                Err(se) => Err(se),
                                Ok((o, np2)) => Ok((SpecParsedLine::LabelAndOp(l, o), np2)),
                            }
                        },
                        PeekKind::LexFail(_) => match spec_op(toks, lerr, input, np) {
                            Err(se) => Err(se),
                            Ok((o, np2)) => Ok((SpecParsedLine::LabelAndOp(l, o), np2)),
                        },
                    },
                },
                Term::Ident => match spec_op(toks, lerr, input, 0) {
                    Err(se) => Err(se),
                    Ok((o, np)) => Ok((SpecParsedLine::Op(o), np)),
                },
                _ => Err(SpecParseError::Unexpected(t)),
            };
            match prod {
                Err(se) => Err(se),
                Ok((pl, np)) => match spec_peek(toks, lerr, np) {
                    PeekKind::End => Ok(pl),
                    PeekKind::Tok(t2) => if t2.term == Term::Comment {
                        Ok(pl)
                    } else {
                        Err(SpecParseError::RemainingInput(t2))
                    },
                    PeekKind::LexFail(e) => Err(SpecParseError::LexerError(e)),
                },
            }
        },
    }
}

/// Parses one line given as bytes.
pub fn parse_line_bytes(line: &[u8]) -> (r: Result<ParsedLine, ParseError>)
    ensures
        match spec_parse_line(line@) {
            Ok(pl) => r matches Ok(x) && x@ == pl,
            Err(se) => r matches Err(e) && e@ == se,
        },
{
    proof {
        reveal(spec_parse_line);
    }
    let mut st = TokenStream::new(line);
    let first = st.peek();
    let tok = match first {
        PeekKind::End => {
            return Ok(ParsedLine::Empty);
        },
        PeekKind::LexFail(e) => {
            return Err(ParseError::LexerError(e));
        },
        PeekKind::Tok(t) => t,
    };
    let prod: Result<ParsedLine, ParseError> = match tok.term {
        Term::Comment => {
            return Ok(ParsedLine::Empty);
        },
        Term::ChampionNameCmd => match champion_name(&mut st) {
            Ok(n) => Ok(ParsedLine::ChampionName(n)),
            Err(e) => Err(e),
        },
        Term::ChampionCommentCmd => match champion_comment(&mut st) {
            Ok(c) => Ok(ParsedLine::ChampionComment(c)),
            Err(e) => Err(e),
        },
        Term::CodeCmd => match code(&mut st) {
            Ok(b) => Ok(ParsedLine::Code(b)),
            Err(e) => Err(e),
        },
        Term::LabelDef => match label(&mut st) {
            Err(e) => Err(e),
            Ok(l) => {
                let after = st.peek();
                let is_end = match after {
                    PeekKind::End => true,
                    PeekKind::Tok(t2) => t2.term == Term::Comment,
                    PeekKind::LexFail(_) => false,
                };
                if is_end {
                    Ok(ParsedLine::Label(l))
                } else {
                    match op(&mut st) {
                        Ok(o) => Ok(ParsedLine::LabelAndOp(l, o)),
                        Err(e) => Err(e),
                    }
                }
            },
        },
        Term::Ident => match op(&mut st) {
            Ok(o) => Ok(ParsedLine::Op(o)),
            Err(e) => Err(e),
        },
        _ => {
            return Err(ParseError::Unexpected(tok));
        },
    };
    let pl = match prod {
        Ok(pl) => pl,
        Err(e) => {
            return Err(e);
        },
    };
    match st.peek() {
        PeekKind::End => Ok(pl),
        PeekKind::Tok(t2) => {
            if t2.term == Term::Comment {
                Ok(pl)
            } else {
                Err(ParseError::RemainingInput(t2))
            }
        },
        PeekKind::LexFail(e) => Err(ParseError::LexerError(e)),
    }
}

/// Parses one line of source text.
pub fn parse_line(input: &str) -> (r: Result<ParsedLine, ParseError>)
    ensures
        match spec_parse_line(input.spec_bytes()) {
            Ok(pl) => r matches Ok(x) && x@ == pl,
            Err(se) => r matches Err(e) && e@ == se,
        },
{
    parse_line_bytes(input.as_bytes())
}


// The error language: each failure renders to one line of text;
// alternations flatten their tree and keep one line per distinct message,
// a single distinct message standing alone.

/// The printable name of a lexeme kind.
pub open spec fn spec_term_name(t: Term) -> Seq<u8> {
    match t {
        Term::ChampionNameCmd => ".name".spec_bytes(),
        Term::ChampionCommentCmd => ".comment".spec_bytes(),
        Term::CodeCmd => ".code".spec_bytes(),
        Term::QuotedString => "string".spec_bytes(),
        Term::LabelDef => "label".spec_bytes(),
        Term::LabelUse => "label reference".spec_bytes(),
        Term::DirectChar => "'%'".spec_bytes(),
        Term::ParamSeparator => "','".spec_bytes(),
        Term::Number { base: NumberBase::Decimal } => "number".spec_bytes(),
        Term::Number { base: NumberBase::Hexadecimal } => "number".spec_bytes(),
        Term::Ident => "identifier".spec_bytes(),
        Term::Comment => "comment".spec_bytes(),
    }
}

/// The printable name of a lexing fault.
pub open spec fn spec_lexkind_name(k: crate::lexer::LexerErrorKind) -> Seq<u8> {
    match k {
        crate::lexer::LexerErrorKind::UnknownChar => "unrecognized character".spec_bytes(),
        crate::lexer::LexerErrorKind::UnterminatedString => "unterminated string".spec_bytes(),
        crate::lexer::LexerErrorKind::InvalidNumber => "malformed number".spec_bytes(),
    }
}

/// The printable name of a number fault.
pub open spec fn spec_numerr_name(k: NumError) -> Seq<u8> {
    match k {
        NumError::Empty => "no digits".spec_bytes(),
        NumError::InvalidDigit => "invalid digit".spec_bytes(),
        NumError::TooLarge => "out of range".spec_bytes(),
    }
}

/// The decimal digits of a non-negative value.
pub open spec fn spec_dec_nat(n: int) -> Seq<u8>
    recommends
        n >= 0,
    decreases n,
{
    if n < 10 {
        seq![(48 + (if n >= 0 { n } else { 0 })) as u8]
    } else {
        spec_dec_nat(n / 10) + seq![(48 + n % 10) as u8]
    }
}

/// The decimal rendering of a signed value.
pub open spec fn spec_dec_i64(v: int) -> Seq<u8> {
    if v < 0 {
        seq![45u8] + spec_dec_nat(-v)
    } else {
        spec_dec_nat(v)
    }
}

/// One line of text for a failure; an alternation becomes its distinct
/// branch messages, one alone or one per line.
pub open spec fn spec_error_message(e: SpecParseError) -> Seq<u8>
    decreases e, 0int, 0int,
{
    match e {
        SpecParseError::RemainingInput(t) => "extra token remaining: ".spec_bytes()
            + spec_term_name(t.term),
        SpecParseError::LexerError(le) => spec_lexkind_name(le.kind),
        SpecParseError::Unexpected(t) => "unexpected initial token: ".spec_bytes()
            + spec_term_name(t.term),
        SpecParseError::ExpectedButGot(term, t) => "expected ".spec_bytes() + spec_term_name(
            term,
        ) + " but got ".spec_bytes() + spec_term_name(t.term),
        SpecParseError::ExpectedButGotEof(term) => "expected ".spec_bytes() + spec_term_name(
            term,
        ) + " before the end of the line".spec_bytes(),
        SpecParseError::ExpectedOneOf(cs) => {
            let ms = spec_dedup_msgs(spec_flat_msgs(cs, 0), 0, Seq::empty());
            if ms.len() == 1 {
                ms[0]
            } else {
                "either:".spec_bytes() + spec_join_alts(ms, 0)
            }
        },
        SpecParseError::InvalidRegisterCount(n, _) => "register number out of range 1..16: ".spec_bytes()
            + spec_dec_i64(n as int),
        SpecParseError::InvalidRegisterPrefix(c, _) => "register prefix should be 'r', not: ".spec_bytes()
            + seq![c],
        SpecParseError::MissingRegisterPrefix(_) => "register prefix 'r' is missing".spec_bytes(),
        SpecParseError::ParseIntError(k, _) => "invalid number: ".spec_bytes() + spec_numerr_name(
            k,
        ),
        SpecParseError::RegisterParseIntError(k, _) => "invalid register number: ".spec_bytes()
            + spec_numerr_name(k),
        SpecParseError::InvalidOpMnemonic(m, _) => "not a valid operation: ".spec_bytes() + m,
    }
}

/// The messages of an alternation's branches from index `i` on, nested
/// alternations flattened in place.
pub open spec fn spec_flat_msgs(cs: Seq<SpecParseError>, i: int) -> Seq<Seq<u8>>
    decreases cs, 1int, cs.len() - i,
{
    if !(0 <= i < cs.len()) {
        Seq::empty()
    } else {
        let head: Seq<Seq<u8>> = match cs[i] {
            SpecParseError::ExpectedOneOf(sub) => spec_flat_msgs(sub, 0),
            _ => seq![spec_error_message(cs[i])],
        };
        head + spec_flat_msgs(cs, i + 1)
    }
}

/// The distinct messages in first-appearance order; `seen` holds what has
/// already appeared.
pub open spec fn spec_dedup_msgs(
    ms: Seq<Seq<u8>>,
    i: int,
    seen: Seq<Seq<u8>>,
) -> Seq<Seq<u8>>
    decreases ms.len() - i,
{
    if !(0 <= i < ms.len()) {
        Seq::empty()
    } else if seen.contains(ms[i]) {
        spec_dedup_msgs(ms, i + 1, seen)
    } else {
        seq![ms[i]] + spec_dedup_msgs(ms, i + 1, seen.push(ms[i]))
    }
}

/// The branch messages joined, one line and a dash each.
pub open spec fn spec_join_alts(ms: Seq<Seq<u8>>, i: int) -> Seq<u8>
    decreases ms.len() - i,
{
    if !(0 <= i < ms.len()) {
        Seq::empty()
    } else {
        "\n- ".spec_bytes() + ms[i] + spec_join_alts(ms, i + 1)
    }
}


/// The views of a list of byte strings.
pub open spec fn spec_msg_views(v: Seq<Vec<u8>>) -> Seq<Seq<u8>> {
    Seq::new(
        v.len(),
        |i: int|
            if 0 <= i < v.len() {
                v[i]@
            } else {
                Seq::empty()
            },
    )
}

/// Executable image of `spec_term_name`.
fn term_name(t: Term) -> (r: Vec<u8>)
    ensures
        r@ == spec_term_name(t),
{
    match t {
        Term::ChampionNameCmd => ".name".as_bytes_vec(),
        Term::ChampionCommentCmd => ".comment".as_bytes_vec(),
        Term::CodeCmd => ".code".as_bytes_vec(),
        Term::QuotedString => "string".as_bytes_vec(),
        Term::LabelDef => "label".as_bytes_vec(),
        Term::LabelUse => "label reference".as_bytes_vec(),
        Term::DirectChar => "'%'".as_bytes_vec(),
        Term::ParamSeparator => "','".as_bytes_vec(),
        Term::Number { base: NumberBase::Decimal } => "number".as_bytes_vec(),
        Term::Number { base: NumberBase::Hexadecimal } => "number".as_bytes_vec(),
        Term::Ident => "identifier".as_bytes_vec(),
        Term::Comment => "comment".as_bytes_vec(),
    }
}

/// Executable image of `spec_lexkind_name`.
fn lexkind_name(k: crate::lexer::LexerErrorKind) -> (r: Vec<u8>)
    ensures
        r@ == spec_lexkind_name(k),
{
    match k {
        crate::lexer::LexerErrorKind::UnknownChar => "unrecognized character".as_bytes_vec(),
        crate::lexer::LexerErrorKind::UnterminatedString => "unterminated string".as_bytes_vec(),
        crate::lexer::LexerErrorKind::InvalidNumber => "malformed number".as_bytes_vec(),
    }
}

/// Executable image of `spec_numerr_name`.
fn numerr_name(k: NumError) -> (r: Vec<u8>)
    ensures
        r@ == spec_numerr_name(k),
{
    match k {
        NumError::Empty => "no digits".as_bytes_vec(),
        NumError::InvalidDigit => "invalid digit".as_bytes_vec(),
        NumError::TooLarge => "out of range".as_bytes_vec(),
    }
}

/// Renders a non-negative value in decimal.
fn dec_nat(n: u64) -> (r: Vec<u8>)
    ensures
        r@ == spec_dec_nat(n as int),
    decreases n,
{
    if n < 10 {
        let mut v: Vec<u8> = Vec::new();
        v.push(48 + n as u8);
        proof {
            assert(v@ =~= spec_dec_nat(n as int));
        }
        v
    } else {
        let mut v = dec_nat(n / 10);
        v.push(48 + (n % 10) as u8);
        proof {
            assert(v@ =~= spec_dec_nat(n as int / 10) + seq![(48 + n as int % 10) as u8]);
        }
        v
    }
}

/// Renders a signed value in decimal.
fn dec_i64(v: i64) -> (r: Vec<u8>)
    ensures
        r@ == spec_dec_i64(v as int),
{
    if v >= 0 {
        dec_nat(v as u64)
    } else {
        let mag: u64 = ((-(v + 1)) as u64) + 1;
        let mut out: Vec<u8> = Vec::new();
        out.push(45);
        let digits = dec_nat(mag);
        let mut i: usize = 0;
        while i < digits.len()
            invariant
                i <= digits@.len(),
                out@ == seq![45u8] + digits@.subrange(0, i as int),
            decreases digits@.len() - i,
        {
            proof {
                assert((seq![45u8] + digits@.subrange(0, i as int)).push(digits@[i as int])
                    =~= seq![45u8] + digits@.subrange(0, i + 1));
            }
            out.push(digits[i]);
            i += 1;
        }
        proof {
            assert(seq![45u8] + digits@.subrange(0, digits@.len() as int) =~= seq![45u8]
                + digits@);
            assert(out@ =~= spec_dec_i64(v as int));
        }
        out
    }
}

/// Appends a byte string to a message.
fn cat(out: &mut Vec<u8>, piece: &Vec<u8>)
    ensures
        final(out)@ == old(out)@ + piece@,
{
    let ghost out0 = out@;
    let mut i: usize = 0;
    while i < piece.len()
        invariant
            i <= piece@.len(),
            out@ == out0 + piece@.subrange(0, i as int),
        decreases piece@.len() - i,
    {
        proof {
            assert(out0 + piece@.subrange(0, 0) =~= out0);
            assert((out0 + piece@.subrange(0, i as int)).push(piece@[i as int]) =~= out0
                + piece@.subrange(0, i + 1));
        }
        out.push(piece[i]);
        i += 1;
    }
    proof {
        assert(out0 + piece@.subrange(0, piece@.len() as int) =~= out0 + piece@);
        assert(out0 + piece@.subrange(0, 0) =~= out0);
    }
}

/// The branch messages of an alternation, nested alternations flattened.
fn flat_msgs(errs: &Vec<ParseError>) -> (r: Vec<Vec<u8>>)
    ensures
        spec_msg_views(r@) == spec_flat_msgs(
            Seq::new(
                errs@.len(),
                |i: int|
                    if 0 <= i < errs@.len() {
                        errs@[i]@
                    } else {
                        SpecParseError::ExpectedButGotEof(Term::Comment)
                    },
            ),
            0,
        ),
    decreases *errs, 1int, 0int,
{
    let ghost cs = Seq::new(
        errs@.len(),
        |i: int|
            if 0 <= i < errs@.len() {
                errs@[i]@
            } else {
                SpecParseError::ExpectedButGotEof(Term::Comment)
            },
    );
    let mut out: Vec<Vec<u8>> = Vec::new();
    let mut i: usize = 0;
    proof {
        assert(spec_msg_views(out@) + spec_flat_msgs(cs, 0) =~= spec_flat_msgs(cs, 0));
    }
    while i < errs.len()
        invariant
            i <= errs@.len(),
            cs == Seq::new(
                errs@.len(),
                |k: int|
                    if 0 <= k < errs@.len() {
                        errs@[k]@
                    } else {
                        SpecParseError::ExpectedButGotEof(Term::Comment)
                    },
            ),
            cs.len() == errs@.len(),
            spec_msg_views(out@) + spec_flat_msgs(cs, i as int) == spec_flat_msgs(cs, 0),
        decreases errs@.len() - i,
    {
        proof {
            assert(cs[i as int] == errs@[i as int]@);
        }
        let ghost pre = spec_msg_views(out@);
        let ghost head = match cs[i as int] {
            SpecParseError::ExpectedOneOf(sub) => spec_flat_msgs(sub, 0),
            _ => seq![spec_error_message(cs[i as int])],
        };
        match &errs[i] {
            ParseError::ExpectedOneOf(sub) => {
                let subs = flat_msgs(sub);
                proof {
                    assert(cs[i as int]->ExpectedOneOf_0 =~= Seq::new(
                        sub@.len(),
                        |kk: int|
                            if 0 <= kk < sub@.len() {
                                sub@[kk]@
                            } else {
                                SpecParseError::ExpectedButGotEof(Term::Comment)
                            },
                    ));
                    assert(head == spec_msg_views(subs@));
                    assert(pre + spec_msg_views(subs@).subrange(0, 0) =~= pre);
                }
                let mut k: usize = 0;
                while k < subs.len()
                    invariant
                        k <= subs@.len(),
                        head == spec_msg_views(subs@),
                        spec_msg_views(out@) == pre + spec_msg_views(subs@).subrange(
                            0,
                            k as int,
                        ),
                    decreases subs@.len() - k,
                {
                    let ghost outpre = spec_msg_views(out@);
                    let piece = clone_msg(&subs[k]);
                    out.push(piece);
                    proof {
                        assert(spec_msg_views(out@) =~= outpre.push(subs@[k as int]@));
                        assert(spec_msg_views(subs@)[k as int] == subs@[k as int]@);
                        assert(outpre.push(subs@[k as int]@) =~= pre + spec_msg_views(
                            subs@,
                        ).subrange(0, k + 1));
                    }
                    k += 1;
                }
                proof {
                    assert(spec_msg_views(subs@).subrange(0, subs@.len() as int)
                        =~= spec_msg_views(subs@));
                    assert(spec_msg_views(out@) =~= pre + head);
                }
            },
            other => {
                let m = parse_error_message(other);
                out.push(m);
                proof {
                    assert(spec_msg_views(out@) =~= pre + head);
                }
            },
        }
        proof {
            assert((pre + head) + spec_flat_msgs(cs, i + 1) =~= pre + (head + spec_flat_msgs(
                cs,
                i + 1,
            )));
        }
        i += 1;
    }
    proof {
        assert(spec_flat_msgs(cs, cs.len() as int) =~= Seq::<Seq<u8>>::empty());
        assert(spec_msg_views(out@) + Seq::<Seq<u8>>::empty() =~= spec_msg_views(out@));
    }
    out
}

/// Copies one message.
fn clone_msg(v: &Vec<u8>) -> (r: Vec<u8>)
    ensures
        r@ == v@,
{
    let mut out: Vec<u8> = Vec::new();
    cat(&mut out, v);
    proof {
        assert(Seq::<u8>::empty() + v@ =~= v@);
    }
    out
}

/// Whether a message already appears in a list.
fn msg_in(ms: &Vec<Vec<u8>>, m: &Vec<u8>) -> (r: bool)
    ensures
        r == spec_msg_views(ms@).contains(m@),
{
    let mut i: usize = 0;
    while i < ms.len()
        invariant
            i <= ms@.len(),
            forall|j: int| 0 <= j < i ==> spec_msg_views(ms@)[j] != m@,
        decreases ms@.len() - i,
    {
        proof {
            assert(spec_msg_views(ms@)[i as int] == ms@[i as int]@);
        }
        if bytes_eq(&ms[i], m) {
            proof {
                assert(spec_msg_views(ms@)[i as int] == m@);
            }
            return true;
        }
        i += 1;
    }
    proof {
        assert(forall|j: int|
            0 <= j < spec_msg_views(ms@).len() ==> spec_msg_views(ms@)[j] != m@);
    }
    false
}

/// Whether two byte strings are equal.
fn bytes_eq(a: &Vec<u8>, b: &Vec<u8>) -> (r: bool)
    ensures
        r == (a@ == b@),
{
    if a.len() != b.len() {
        proof {
            assert(a@ != b@);
        }
        return false;
    }
    let mut i: usize = 0;
    while i < a.len()
        invariant
            i <= a@.len(),
            a@.len() == b@.len(),
            forall|j: int| 0 <= j < i ==> a@[j] == b@[j],
        decreases a@.len() - i,
    {
        if a[i] != b[i] {
            proof {
                assert(a@ != b@);
            }
            return false;
        }
        i += 1;
    }
    proof {
        assert(a@ =~= b@);
    }
    true
}

/// The distinct messages, in first-appearance order.
fn dedup_msgs(ms: &Vec<Vec<u8>>) -> (r: Vec<Vec<u8>>)
    ensures
        spec_msg_views(r@) == spec_dedup_msgs(spec_msg_views(ms@), 0, Seq::empty()),
{
    let ghost mv = spec_msg_views(ms@);
    let mut out: Vec<Vec<u8>> = Vec::new();
    let mut i: usize = 0;
    proof {
        assert(spec_msg_views(out@) =~= Seq::<Seq<u8>>::empty());
        assert(spec_msg_views(out@) + spec_dedup_msgs(mv, 0, spec_msg_views(out@))
            =~= spec_dedup_msgs(mv, 0, Seq::empty()));
    }
    while i < ms.len()
        invariant
            i <= ms@.len(),
            mv == spec_msg_views(ms@),
            mv.len() == ms@.len(),
            spec_msg_views(out@) + spec_dedup_msgs(mv, i as int, spec_msg_views(out@))
                == spec_dedup_msgs(mv, 0, Seq::empty()),
        decreases ms@.len() - i,
    {
        proof {
            assert(mv[i as int] == ms@[i as int]@);
        }
        let ghost pre = spec_msg_views(out@);
        if !msg_in(&out, &ms[i]) {
            let piece = clone_msg(&ms[i]);
            out.push(piece);
            proof {
                assert(spec_msg_views(out@) =~= pre.push(mv[i as int]));
                assert(pre.push(mv[i as int]) =~= pre + seq![mv[i as int]]);
                assert((pre + seq![mv[i as int]]) + spec_dedup_msgs(
                    mv,
                    i + 1,
                    pre.push(mv[i as int]),
                ) =~= pre + (seq![mv[i as int]] + spec_dedup_msgs(
                    mv,
                    i + 1,
                    pre.push(mv[i as int]),
                )));
            }
        }
        i += 1;
    }
    proof {
        assert(spec_dedup_msgs(mv, mv.len() as int, spec_msg_views(out@))
            =~= Seq::<Seq<u8>>::empty());
        assert(spec_msg_views(out@) + Seq::<Seq<u8>>::empty() =~= spec_msg_views(out@));
    }
    out
}

/// One line of text for a failure, as the error language fixes it:
/// duplicated alternatives are coalesced by their text, and a single
/// distinct alternative stands alone.
pub fn parse_error_message(e: &ParseError) -> (r: Vec<u8>)
    ensures
        r@ == spec_error_message(e@),
    decreases *e, 0int, 0int,
{
    match e {
        ParseError::RemainingInput(t) => {
            let mut out = "extra token remaining: ".as_bytes_vec();
            cat(&mut out, &term_name(t.term));
            out
        },
        ParseError::LexerError(le) => lexkind_name(le.kind),
        ParseError::Unexpected(t) => {
            let mut out = "unexpected initial token: ".as_bytes_vec();
            cat(&mut out, &term_name(t.term));
            out
        },
        ParseError::ExpectedButGot(term, t) => {
            let mut out = "expected ".as_bytes_vec();
            cat(&mut out, &term_name(*term));
            cat(&mut out, &" but got ".as_bytes_vec());
            cat(&mut out, &term_name(t.term));
            out
        },
        ParseError::ExpectedButGotEof(term) => {
            let mut out = "expected ".as_bytes_vec();
            cat(&mut out, &term_name(*term));
            cat(&mut out, &" before the end of the line".as_bytes_vec());
            out
        },
        ParseError::ExpectedOneOf(errs) => {
            proof {
                assert(e@->ExpectedOneOf_0 =~= Seq::new(
                    errs@.len(),
                    |kk: int|
                        if 0 <= kk < errs@.len() {
                            errs@[kk]@
                        } else {
                            SpecParseError::ExpectedButGotEof(Term::Comment)
                        },
                ));
            }
            let flat = flat_msgs(errs);
            let ms = dedup_msgs(&flat);
            if ms.len() == 1 {
                let mut out: Vec<u8> = Vec::new();
                cat(&mut out, &ms[0]);
                proof {
                    assert(Seq::<u8>::empty() + ms@[0]@ =~= ms@[0]@);
                    assert(spec_msg_views(ms@)[0] == ms@[0]@);
                }
                out
            } else {
                let ghost msv = spec_msg_views(ms@);
                let mut out = "either:".as_bytes_vec();
                let mut i: usize = 0;
                while i < ms.len()
                    invariant
                        i <= ms@.len(),
                        msv == spec_msg_views(ms@),
                        msv.len() == ms@.len(),
                        out@ + spec_join_alts(msv, i as int) == "either:".spec_bytes()
                            + spec_join_alts(msv, 0),
                    decreases ms@.len() - i,
                {
                    let ghost pre = out@;
                    cat(&mut out, &"\n- ".as_bytes_vec());
                    cat(&mut out, &ms[i]);
                    proof {
                        assert(msv[i as int] == ms@[i as int]@);
                        assert(pre + ("\n- ".spec_bytes() + msv[i as int] + spec_join_alts(
                            msv,
                            i + 1,
                        )) =~= out@ + spec_join_alts(msv, i + 1));
                        assert(pre + spec_join_alts(msv, i as int) =~= pre + ("\n- ".spec_bytes()
                            + msv[i as int] + spec_join_alts(msv, i + 1)));
                    }
                    i += 1;
                }
                proof {
                    assert(spec_join_alts(msv, msv.len() as int) =~= Seq::<u8>::empty());
                    assert(out@ + Seq::<u8>::empty() =~= out@);
                    assert("either:".spec_bytes() + spec_join_alts(msv, 0) =~= out@);
                }
                out
            }
        },
        ParseError::InvalidRegisterCount(n, _) => {
            let mut out = "register number out of range 1..16: ".as_bytes_vec();
            cat(&mut out, &dec_i64(*n));
            out
        },
        ParseError::InvalidRegisterPrefix(c, _) => {
            let mut out = "register prefix should be 'r', not: ".as_bytes_vec();
            out.push(*c);
            proof {
                assert(out@ =~= "register prefix should be 'r', not: ".spec_bytes() + seq![*c]);
            }
            out
        },
        ParseError::MissingRegisterPrefix(_) => "register prefix 'r' is missing".as_bytes_vec(),
        ParseError::ParseIntError(k, _) => {
            let mut out = "invalid number: ".as_bytes_vec();
            cat(&mut out, &numerr_name(*k));
            out
        },
        ParseError::RegisterParseIntError(k, _) => {
            let mut out = "invalid register number: ".as_bytes_vec();
            cat(&mut out, &numerr_name(*k));
            out
        },
        ParseError::InvalidOpMnemonic(m, _) => {
            let mut out = "not a valid operation: ".as_bytes_vec();
            cat(&mut out, m);
            out
        },
    }
}

} // verus!





