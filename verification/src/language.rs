//! The front-end pipeline: source text to a champion, and a champion to
//! byte code. The host feeds whole source texts; lines are split here.

use vstd::prelude::*;
use vstd::string::StringSliceAdditionalSpecFns;
use crate::assembler::{
    assemble_line, AssembleError, Champion, ChampionBuilder, SpecAssembleError,
    SpecParsedInstruction, spec_instrs, spec_opt_bytes,
};
use crate::encoder::{write_champion, EncodeError, SpecEncodeError, spec_write_champion};
use crate::parser::{
    error_range, parse_error_message, parse_line_bytes, spec_err_alts_nonempty,
    spec_error_message, spec_error_range, spec_parse_line, ParseError, SpecParseError,
    SpecParsedLine,
};

verus! {

/// What stopped reading a champion: a line that does not parse (with its
/// zero-based line number), or a directive fault.
#[derive(Debug)]
pub enum ReadError {
    ParseError(ParseError, usize),
    AssembleError(AssembleError),
}

/// Specification twin of `ReadError`.
pub enum SpecReadError {
    ParseError(SpecParseError, int),
    AssembleError(SpecAssembleError),
}

impl View for ReadError {
    type V = SpecReadError;

    open spec fn view(&self) -> SpecReadError {
        match self {
            ReadError::ParseError(e, l) => SpecReadError::ParseError(e@, *l as int),
            ReadError::AssembleError(e) => SpecReadError::AssembleError(e@),
        }
    }
}

/// What stopped compiling: reading, or encoding.
#[derive(Debug)]
pub enum CompileError {
    Read(ReadError),
    Encode(EncodeError),
}

/// Specification twin of `CompileError`.
pub enum SpecCompileError {
    Read(SpecReadError),
    Encode(SpecEncodeError),
}

impl View for CompileError {
    type V = SpecCompileError;

    open spec fn view(&self) -> SpecCompileError {
        match self {
            CompileError::Read(e) => SpecCompileError::Read(e@),
            CompileError::Encode(e) => SpecCompileError::Encode(e@),
        }
    }
}

/// The first newline at or after `p`, or the end of the text.
pub open spec fn spec_find_nl(s: Seq<u8>, p: int) -> int
    decreases s.len() - p,
{
    if 0 <= p < s.len() {
        if s[p] == 10 {
            p
        } else {
            spec_find_nl(s, p + 1)
        }
    } else {
        s.len() as int
    }
}

pub proof fn lemma_find_nl_bounds(s: Seq<u8>, p: int)
    requires
        0 <= p <= s.len(),
    ensures
        p <= spec_find_nl(s, p) <= s.len(),
    decreases s.len() - p,
{
    if p < s.len() && s[p] != 10 {
        lemma_find_nl_bounds(s, p + 1);
    }
}

/// The text split at newlines from `p` on: always at least one (possibly
/// empty) line.
pub open spec fn spec_split_lines(s: Seq<u8>, p: int) -> Seq<Seq<u8>>
    decreases s.len() - p,
{
    if !(0 <= p <= s.len()) {
        Seq::empty()
    } else {
        let e0 = spec_find_nl(s, p);
        let e = if p <= e0 <= s.len() {
            e0
        } else {
            p
        };
        if e >= s.len() {
            seq![s.subrange(p, s.len() as int)]
        } else {
            seq![s.subrange(p, e)] + spec_split_lines(s, e + 1)
        }
    }
}

/// The views of split lines.
pub open spec fn spec_line_views(v: Seq<Vec<u8>>) -> Seq<Seq<u8>> {
    Seq::new(
        v.len(),
        |i: int|
            if 0 <= i < v.len() {
                v[i]@
            } else {
                Seq::empty()
            },
    )
}

/// Splits a source text into its lines.
fn split_lines(input: &[u8]) -> (r: Vec<Vec<u8>>)
    ensures
        spec_line_views(r@) == spec_split_lines(input@, 0),
{
    let mut lines: Vec<Vec<u8>> = Vec::new();
    let mut p: usize = 0;
    loop
        invariant
            p <= input@.len(),
            spec_line_views(lines@) + spec_split_lines(input@, p as int) == spec_split_lines(
                input@,
                0,
            ),
        decreases input@.len() - p + 1,
    {
        let mut e: usize = p;
        while e < input.len() && input[e] != 10
            invariant
                p <= e <= input@.len(),
                spec_find_nl(input@, p as int) == spec_find_nl(input@, e as int),
            decreases input@.len() - e,
        {
            e += 1;
        }
        proof {
            lemma_find_nl_bounds(input@, e as int);
        }
        let mut line: Vec<u8> = Vec::new();
        let mut q: usize = p;
        while q < e
            invariant
                p <= q <= e <= input@.len(),
                line@ == input@.subrange(p as int, q as int),
            decreases e - q,
        {
            line.push(input[q]);
            proof {
                assert(line@ =~= input@.subrange(p as int, q + 1));
            }
            q += 1;
        }
        let ghost pre = spec_line_views(lines@);
        lines.push(line);
        proof {
            assert(spec_line_views(lines@) =~= pre + seq![input@.subrange(p as int, e as int)]);
        }
        if e >= input.len() {
            proof {
                assert((pre + seq![input@.subrange(p as int, input@.len() as int)])
                    + Seq::<Seq<u8>>::empty() =~= spec_line_views(lines@));
                assert(spec_line_views(lines@) =~= spec_split_lines(input@, 0));
            }
            return lines;
        }
        proof {
            assert((pre + seq![input@.subrange(p as int, e as int)]) + spec_split_lines(
                input@,
                e + 1,
            ) =~= pre + (seq![input@.subrange(p as int, e as int)] + spec_split_lines(
                input@,
                e + 1,
            )));
        }
        p = e + 1;
    }
}

/// The state a builder reaches, in specification form.
#[verifier::ext_equal]
pub struct SpecBuilder {
    pub name: Option<Seq<u8>>,
    pub comment: Option<Seq<u8>>,
    pub instrs: Seq<SpecParsedInstruction>,
}

/// The view of a builder.
pub open spec fn spec_builder_view(b: ChampionBuilder) -> SpecBuilder {
    SpecBuilder {
        name: spec_opt_bytes(b.name),
        comment: spec_opt_bytes(b.comment),
        instrs: spec_instrs(b.instructions@),
    }
}

/// One assembling step over a parsed line, in specification form: the
/// exact counterpart of `assemble_line`.
pub open spec fn spec_assemble_step(b: SpecBuilder, pl: SpecParsedLine) -> Result<
    SpecBuilder,
    SpecAssembleError,
> {
    match pl {
        SpecParsedLine::ChampionName(n) => match b.name {
            Some(prev) => Err(SpecAssembleError::NameAlreadySet(prev)),
            None => Ok(SpecBuilder { name: Some(n), ..b }),
        },
        SpecParsedLine::ChampionComment(c) => match b.comment {
            Some(prev) => Err(SpecAssembleError::CommentAlreadySet(prev)),
            None => Ok(SpecBuilder { comment: Some(c), ..b }),
        },
        SpecParsedLine::Code(bs) => Ok(
            SpecBuilder { instrs: b.instrs.push(SpecParsedInstruction::RawCode(bs)), ..b },
        ),
        SpecParsedLine::Op(o) => Ok(
            SpecBuilder { instrs: b.instrs.push(SpecParsedInstruction::Op(o)), ..b },
        ),
        SpecParsedLine::Label(l) => Ok(
            SpecBuilder { instrs: b.instrs.push(SpecParsedInstruction::Label(l)), ..b },
        ),
        SpecParsedLine::LabelAndOp(l, o) => Ok(
            SpecBuilder {
                instrs: b.instrs.push(SpecParsedInstruction::Label(l)).push(
                    SpecParsedInstruction::Op(o),
                ),
                ..b
            },
        ),
        SpecParsedLine::Empty => Ok(b),
    }
}

/// Reading lines `i` and beyond into the builder state.
pub open spec fn spec_read_fold(lines: Seq<Seq<u8>>, i: int, b: SpecBuilder) -> Result<
    SpecBuilder,
    SpecReadError,
>
    decreases lines.len() - i,
{
    if !(0 <= i < lines.len()) {
        Ok(b)
    } else {
        match spec_parse_line(lines[i]) {
            Err(e) => Err(SpecReadError::ParseError(e, i)),
            Ok(pl) => match spec_assemble_step(b, pl) {
                Err(e) => Err(SpecReadError::AssembleError(e)),
                Ok(b2) => spec_read_fold(lines, i + 1, b2),
            },
        }
    }
}

/// The champion a source text reads to: name, comment and body entries.
pub open spec fn spec_read_champion(s: Seq<u8>) -> Result<
    (Seq<u8>, Seq<u8>, Seq<SpecParsedInstruction>),
    SpecReadError,
> {
    let lines = spec_split_lines(s, 0);
    let init = SpecBuilder { name: None, comment: None, instrs: Seq::empty() };
    match spec_read_fold(lines, 0, init) {
        Err(e) => Err(e),
        Ok(b) => match (b.name, b.comment) {
            (None, _) => Err(SpecReadError::AssembleError(SpecAssembleError::MissingName)),
            (Some(_), None) => Err(
                SpecReadError::AssembleError(SpecAssembleError::MissingComment),
            ),
            (Some(n), Some(c)) => Ok((n, c, b.instrs)),
        },
    }
}

/// Reads a whole source text into a champion: each line parsed, the
/// results folded in order, both directives required.
#[verifier::rlimit(100)]
pub fn read_champion(input: &str) -> (r: Result<Champion, ReadError>)
    ensures
        (match spec_read_champion(input.spec_bytes()) {
            Ok((n, c, instrs)) => r matches Ok(ch) && ch.name@ == n && ch.comment@ == c
                && spec_instrs(ch.instructions@) == instrs,
            Err(se) => r matches Err(e) && e@ == se,
        }),
{
    let bytes = input.as_bytes();
    let lines = split_lines(bytes);
    let ghost lv = spec_line_views(lines@);
    let ghost init = SpecBuilder { name: None, comment: None, instrs: Seq::empty() };
    let mut builder = ChampionBuilder::new();
    proof {
        assert(spec_builder_view(builder) =~= init);
        assert(spec_instrs(builder.instructions@) =~= Seq::<SpecParsedInstruction>::empty());
    }
    let mut i: usize = 0;
    while i < lines.len()
        invariant
            i <= lines@.len(),
            lv == spec_line_views(lines@),
            lv == spec_split_lines(input.spec_bytes(), 0),
            init == (SpecBuilder { name: None, comment: None, instrs: Seq::empty() }),
            lv.len() == lines@.len(),
            spec_read_fold(lv, i as int, spec_builder_view(builder)) == spec_read_fold(
                lv,
                0,
                init,
            ),
        decreases lines@.len() - i,
    {
        proof {
            assert(lv[i as int] == lines@[i as int]@);
        }
        let pl = match parse_line_bytes(lines[i].as_slice()) {
            Ok(pl) => pl,
            Err(e) => {
                return Err(ReadError::ParseError(e, i));
            },
        };
        let ghost b_pre = spec_builder_view(builder);
        let ghost pl_view = pl@;
        builder = match assemble_line(builder, pl) {
            Ok(b) => b,
            Err(e) => {
                return Err(ReadError::AssembleError(e));
            },
        };
        proof {
            let b2 = spec_assemble_step(b_pre, pl_view)->Ok_0;
            let bv = spec_builder_view(builder);
            match pl_view {
                SpecParsedLine::ChampionName(n) => {
                    assert(bv.instrs =~= b2.instrs);
                },
                SpecParsedLine::ChampionComment(c) => {
                    assert(bv.instrs =~= b2.instrs);
                },
                SpecParsedLine::Code(bs) => {
                    assert(bv.instrs =~= b2.instrs);
                },
                SpecParsedLine::Op(o) => {
                    assert(bv.instrs =~= b2.instrs);
                },
                SpecParsedLine::Label(l) => {
                    assert(bv.instrs =~= b2.instrs);
                },
                SpecParsedLine::LabelAndOp(l, o) => {
                    assert(bv.instrs =~= b2.instrs);
                },
                SpecParsedLine::Empty => {
                    assert(bv.instrs =~= b2.instrs);
                },
            }
            assert(bv =~= b2);
        }
        i += 1;
    }
    match builder.finish() {
        Ok(ch) => {
            proof {
                assert(spec_instrs(ch.instructions@) =~= spec_instrs(builder.instructions@));
            }
            Ok(ch)
        },
        Err(e) => Err(ReadError::AssembleError(e)),
    }
}

/// Compiles a source text to byte code: read, then encode.
pub fn compile_champion(input: &str) -> (r: Result<Vec<u8>, CompileError>)
    ensures
        (match spec_read_champion(input.spec_bytes()) {
            Err(se) => r matches Err(e) && e@ == SpecCompileError::Read(se),
            Ok((n, c, instrs)) => match spec_write_champion(n, c, instrs) {
                Ok(image) => r matches Ok(v) && v@ == image,
                Err(se) => r matches Err(e) && e@ == SpecCompileError::Encode(se),
            },
        }),
{
    let champion = match read_champion(input) {
        Ok(ch) => ch,
        Err(e) => {
            return Err(CompileError::Read(e));
        },
    };
    match write_champion(&champion) {
        Ok(v) => Ok(v),
        Err(e) => Err(CompileError::Encode(e)),
    }
}


/// A rectangle of source text for a host to underline: rows and columns,
/// both zero-based, the end column falling back to a sentinel when a
/// failure has no known end.
#[derive(Clone, Copy, Debug, PartialEq, Eq, Structural)]
pub struct Region {
    pub from_row: usize,
    pub from_col: usize,
    pub to_row: usize,
    pub to_col: usize,
}

/// The end column reported when a failure reaches the end of the line.
pub const COLUMN_END_SENTINEL: usize = 20000;

/// One line of text for an assembling fault.
pub open spec fn spec_assemble_message(e: SpecAssembleError) -> Seq<u8> {
    match e {
        SpecAssembleError::NameAlreadySet(n) => "champion name already set: ".spec_bytes() + n,
        SpecAssembleError::CommentAlreadySet(c) => "champion comment already set: ".spec_bytes()
            + c,
        SpecAssembleError::MissingName => "the champion name is missing".spec_bytes(),
        SpecAssembleError::MissingComment => "the champion comment is missing".spec_bytes(),
    }
}

/// One line of text for an encoding fault.
pub open spec fn spec_encode_message(e: SpecEncodeError) -> Seq<u8> {
    match e {
        SpecEncodeError::UndefinedLabel(l) => "undefined label: ".spec_bytes() + l,
        SpecEncodeError::NameTooLong => "the champion name is too long".spec_bytes(),
        SpecEncodeError::CommentTooLong => "the champion comment is too long".spec_bytes(),
        SpecEncodeError::ProgramTooLong => "the champion body is too long".spec_bytes(),
    }
}

/// What a compile failure reports to the host: a region where the fault
/// is a parse failure on one line (rows its line, columns its byte range,
/// a missing end falling back to the sentinel), and a one-line message.
pub open spec fn spec_compile_report(e: SpecCompileError) -> (Option<Region>, Seq<u8>) {
    match e {
        SpecCompileError::Read(SpecReadError::ParseError(pe, l)) => {
            let (start, end) = spec_error_range(pe);
            (
                Some(
                    Region {
                        from_row: l as usize,
                        from_col: start as usize,
                        to_row: l as usize,
                        to_col: match end {
                            Some(b) => b as usize,
                            None => COLUMN_END_SENTINEL,
                        },
                    },
                ),
                spec_error_message(pe),
            )
        },
        SpecCompileError::Read(SpecReadError::AssembleError(ae)) => (
            None,
            "cannot assemble the champion: ".spec_bytes() + spec_assemble_message(ae),
        ),
        SpecCompileError::Encode(ee) => (
            None,
            "cannot encode the champion: ".spec_bytes() + spec_encode_message(ee),
        ),
    }
}

/// Whether a report can be rendered: a parse failure must hold no empty
/// alternation, as the parser always guarantees.
pub open spec fn spec_report_wf(e: SpecCompileError) -> bool {
    match e {
        SpecCompileError::Read(SpecReadError::ParseError(pe, _)) => spec_err_alts_nonempty(pe),
        _ => true,
    }
}

/// Appends a byte string to a message.
fn cat_msg(out: &mut Vec<u8>, piece: &Vec<u8>)
    ensures
        final(out)@ == old(out)@ + piece@,
{
    let ghost out0 = out@;
    let mut i: usize = 0;
    while i < piece.len()
        invariant
            i <= piece@.len(),
            out@ == out0 + piece@.subrange(0, i as int),
        decreases piece@.len() - i,
    {
        proof {
            assert(out0 + piece@.subrange(0, 0) =~= out0);
            assert((out0 + piece@.subrange(0, i as int)).push(piece@[i as int]) =~= out0
                + piece@.subrange(0, i + 1));
        }
        out.push(piece[i]);
        i += 1;
    }
    proof {
        assert(out0 + piece@.subrange(0, piece@.len() as int) =~= out0 + piece@);
        assert(out0 + piece@.subrange(0, 0) =~= out0);
    }
}

/// Renders an assembling fault.
pub fn assemble_error_message(e: &AssembleError) -> (r: Vec<u8>)
    ensures
        r@ == spec_assemble_message(e@),
{
    match e {
        AssembleError::NameAlreadySet(n) => {
            let mut out = "champion name already set: ".as_bytes_vec();
            cat_msg(&mut out, n);
            out
        },
        AssembleError::CommentAlreadySet(c) => {
            let mut out = "champion comment already set: ".as_bytes_vec();
            cat_msg(&mut out, c);
            out
        },
        AssembleError::MissingName => "the champion name is missing".as_bytes_vec(),
        AssembleError::MissingComment => "the champion comment is missing".as_bytes_vec(),
    }
}

/// Renders an encoding fault.
pub fn encode_error_message(e: &EncodeError) -> (r: Vec<u8>)
    ensures
        r@ == spec_encode_message(e@),
{
    match e {
        EncodeError::UndefinedLabel(l) => {
            let mut out = "undefined label: ".as_bytes_vec();
            cat_msg(&mut out, l);
            out
        },
        EncodeError::NameTooLong => "the champion name is too long".as_bytes_vec(),
        EncodeError::CommentTooLong => "the champion comment is too long".as_bytes_vec(),
        EncodeError::ProgramTooLong => "the champion body is too long".as_bytes_vec(),
    }
}

/// What a compile failure reports to the host: the region to underline,
/// where one is known, and the one-line message.
pub fn compile_error_report(e: &CompileError) -> (r: (Option<Region>, Vec<u8>))
    requires
        spec_report_wf(e@),
    ensures
        r.0 == spec_compile_report(e@).0,
        r.1@ == spec_compile_report(e@).1,
{
    match e {
        CompileError::Read(ReadError::ParseError(pe, l)) => {
            let (start, end) = error_range(pe);
            let region = Region {
                from_row: *l,
                from_col: start,
                to_row: *l,
                to_col: match end {
                    Some(b) => b,
                    None => COLUMN_END_SENTINEL,
                },
            };
            (Some(region), parse_error_message(pe))
        },
        CompileError::Read(ReadError::AssembleError(ae)) => {
            let mut out = "cannot assemble the champion: ".as_bytes_vec();
            cat_msg(&mut out, &assemble_error_message(ae));
            (None, out)
        },
        CompileError::Encode(ee) => {
            let mut out = "cannot encode the champion: ".as_bytes_vec();
            cat_msg(&mut out, &encode_error_message(ee));
            (None, out)
        },
    }
}

} // verus!

