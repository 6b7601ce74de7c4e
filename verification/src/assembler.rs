//! The assembler: folds parsed lines into a champion, keeping instructions
//! and label markers in source order.

use vstd::prelude::*;
use crate::parser::{ParsedLine, SpecParsedLine};
use crate::types::{Op, SpecOp};

verus! {

/// One entry of a champion's body: a label marker or an instruction.
#[derive(Debug)]
pub enum ParsedInstruction {
    Label(Vec<u8>),
    Op(Op),
    RawCode(Vec<u8>),
}

/// Specification twin of `ParsedInstruction`.
pub enum SpecParsedInstruction {
    Label(Seq<u8>),
    Op(SpecOp),
    RawCode(Seq<u8>),
}

impl View for ParsedInstruction {
    type V = SpecParsedInstruction;

    open spec fn view(&self) -> SpecParsedInstruction {
        match self {
            ParsedInstruction::Label(l) => SpecParsedInstruction::Label(l@),
            ParsedInstruction::Op(o) => SpecParsedInstruction::Op(o@),
            ParsedInstruction::RawCode(b) => SpecParsedInstruction::RawCode(b@),
        }
    }
}

/// A fully assembled champion: its name, its comment and its body in
/// source order.
#[derive(Debug)]
pub struct Champion {
    pub name: Vec<u8>,
    pub comment: Vec<u8>,
    pub instructions: Vec<ParsedInstruction>,
}

/// What went wrong while assembling.
#[derive(Debug)]
pub enum AssembleError {
    NameAlreadySet(Vec<u8>),
    CommentAlreadySet(Vec<u8>),
    MissingName,
    MissingComment,
}

/// Specification twin of `AssembleError`.
pub enum SpecAssembleError {
    NameAlreadySet(Seq<u8>),
    CommentAlreadySet(Seq<u8>),
    MissingName,
    MissingComment,
}

impl View for AssembleError {
    type V = SpecAssembleError;

    open spec fn view(&self) -> SpecAssembleError {
        match self {
            AssembleError::NameAlreadySet(n) => SpecAssembleError::NameAlreadySet(n@),
            AssembleError::CommentAlreadySet(c) => SpecAssembleError::CommentAlreadySet(c@),
            AssembleError::MissingName => SpecAssembleError::MissingName,
            AssembleError::MissingComment => SpecAssembleError::MissingComment,
        }
    }
}

/// A champion being assembled: the directives seen so far and the body in
/// source order.
#[derive(Debug)]
pub struct ChampionBuilder {
    pub name: Option<Vec<u8>>,
    pub comment: Option<Vec<u8>>,
    pub instructions: Vec<ParsedInstruction>,
}

/// The view of the name or comment slot: the bytes, if set.
pub open spec fn spec_opt_bytes(o: Option<Vec<u8>>) -> Option<Seq<u8>> {
    match o {
        Some(v) => Some(v@),
        None => None,
    }
}

/// The view of a body: each entry's view, in order.
pub open spec fn spec_instrs(v: Seq<ParsedInstruction>) -> Seq<SpecParsedInstruction> {
    Seq::new(
        v.len(),
        |i: int|
            if 0 <= i < v.len() {
                v[i]@
            } else {
                SpecParsedInstruction::Label(Seq::empty())
            },
    )
}

impl ChampionBuilder {
    /// A builder with nothing seen yet.
    pub fn new() -> (r: ChampionBuilder)
        ensures
            r.name is None,
            r.comment is None,
            r.instructions@.len() == 0,
    {
        ChampionBuilder { name: None, comment: None, instructions: Vec::new() }
    }

    /// Sets the champion name; a second `.name` directive is an error.
    pub fn with_name(self, name: Vec<u8>) -> (r: Result<ChampionBuilder, AssembleError>)
        ensures
            match old_name_case(self.name) {
                true => r matches Err(e) && e@ == SpecAssembleError::NameAlreadySet(
                    spec_opt_bytes(self.name)->Some_0,
                ),
                false => r matches Ok(b) && b.name matches Some(n) && n@ == name@ && b.comment
                    == self.comment && b.instructions == self.instructions,
            },
    {
        match self.name {
            Some(n) => Err(AssembleError::NameAlreadySet(n)),
            None => Ok(ChampionBuilder { name: Some(name), ..self }),
        }
    }

    /// Sets the champion comment; a second `.comment` directive is an
    /// error.
    pub fn with_comment(self, comment: Vec<u8>) -> (r: Result<ChampionBuilder, AssembleError>)
        ensures
            match old_name_case(self.comment) {
                true => r matches Err(e) && e@ == SpecAssembleError::CommentAlreadySet(
                    spec_opt_bytes(self.comment)->Some_0,
                ),
                false => r matches Ok(b) && b.comment matches Some(c) && c@ == comment@ && b.name
                    == self.name && b.instructions == self.instructions,
            },
    {
        match self.comment {
            Some(c) => Err(AssembleError::CommentAlreadySet(c)),
            None => Ok(ChampionBuilder { comment: Some(comment), ..self }),
        }
    }

    /// Appends a label marker to the body.
    pub fn add_label(self, label: Vec<u8>) -> (r: ChampionBuilder)
        ensures
            r.name == self.name,
            r.comment == self.comment,
            r.instructions@ == self.instructions@.push(ParsedInstruction::Label(label)),
    {
        let mut b = self;
        b.instructions.push(ParsedInstruction::Label(label));
        b
    }

    /// Appends raw body bytes, as a `.code` directive gives them.
    pub fn add_code(self, bytes: Vec<u8>) -> (r: ChampionBuilder)
        ensures
            r.name == self.name,
            r.comment == self.comment,
            r.instructions@ == self.instructions@.push(ParsedInstruction::RawCode(bytes)),
    {
        let mut b = self;
        b.instructions.push(ParsedInstruction::RawCode(bytes));
        b
    }

    /// Appends an instruction to the body.
    pub fn add_op(self, op: Op) -> (r: ChampionBuilder)
        ensures
            r.name == self.name,
            r.comment == self.comment,
            r.instructions@ == self.instructions@.push(ParsedInstruction::Op(op)),
    {
        let mut b = self;
        b.instructions.push(ParsedInstruction::Op(op));
        b
    }

    /// Closes the builder: both directives must have been seen, the
    /// missing name being reported first.
    pub fn finish(self) -> (r: Result<Champion, AssembleError>)
        ensures
            match (self.name, self.comment) {
                (None, _) => r matches Err(e) && e@ == SpecAssembleError::MissingName,
                (Some(_), None) => r matches Err(e) && e@ == SpecAssembleError::MissingComment,
                (Some(n), Some(c)) => r matches Ok(ch) && ch.name@ == n@ && ch.comment@ == c@
                    && ch.instructions == self.instructions,
            },
    {
        match (self.name, self.comment) {
            (None, _) => Err(AssembleError::MissingName),
            (Some(_), None) => Err(AssembleError::MissingComment),
            (Some(name), Some(comment)) => Ok(Champion {
                name,
                comment,
                instructions: self.instructions,
            }),
        }
    }
}

/// Whether an optional slot is already filled.
pub open spec fn old_name_case(o: Option<Vec<u8>>) -> bool {
    o is Some
}

/// Folds one parsed line into the builder: directives fill their slots,
/// labels and instructions append to the body in source order, empty
/// lines change nothing.
pub fn assemble_line(builder: ChampionBuilder, parsed_line: ParsedLine) -> (r: Result<
    ChampionBuilder,
    AssembleError,
>)
    ensures
        match parsed_line@ {
            SpecParsedLine::ChampionName(n) => if builder.name is Some {
                r matches Err(e) && e@ == SpecAssembleError::NameAlreadySet(
                    spec_opt_bytes(builder.name)->Some_0,
                )
            } else {
                r matches Ok(b) && b.name matches Some(bn) && bn@ == n && b.comment
                    == builder.comment && b.instructions == builder.instructions
            },
            SpecParsedLine::ChampionComment(c) => if builder.comment is Some {
                r matches Err(e) && e@ == SpecAssembleError::CommentAlreadySet(
                    spec_opt_bytes(builder.comment)->Some_0,
                )
            } else {
                r matches Ok(b) && b.comment matches Some(bc) && bc@ == c && b.name
                    == builder.name && b.instructions == builder.instructions
            },
            SpecParsedLine::Code(bs) => r matches Ok(b) && b.name == builder.name && b.comment
                == builder.comment && b.instructions@.len() == builder.instructions@.len() + 1
                && b.instructions@.last()@ == SpecParsedInstruction::RawCode(bs)
                && b.instructions@.subrange(0, builder.instructions@.len() as int)
                == builder.instructions@,
            SpecParsedLine::Op(o) => r matches Ok(b) && b.name == builder.name && b.comment
                == builder.comment && b.instructions@.len() == builder.instructions@.len() + 1
                && b.instructions@.last()@ == SpecParsedInstruction::Op(o)
                && b.instructions@.subrange(0, builder.instructions@.len() as int)
                == builder.instructions@,
            SpecParsedLine::Label(l) => r matches Ok(b) && b.name == builder.name && b.comment
                == builder.comment && b.instructions@.len() == builder.instructions@.len() + 1
                && b.instructions@.last()@ == SpecParsedInstruction::Label(l)
                && b.instructions@.subrange(0, builder.instructions@.len() as int)
                == builder.instructions@,
            SpecParsedLine::LabelAndOp(l, o) => r matches Ok(b) && b.name == builder.name
                && b.comment == builder.comment && b.instructions@.len()
                == builder.instructions@.len() + 2 && b.instructions@[b.instructions@.len() - 2]@
                == SpecParsedInstruction::Label(l) && b.instructions@.last()@
                == SpecParsedInstruction::Op(o) && b.instructions@.subrange(
                0,
                builder.instructions@.len() as int,
            ) == builder.instructions@,
            SpecParsedLine::Empty => r matches Ok(b) && b == builder,
        },
{
    let r = match parsed_line {
        ParsedLine::ChampionName(name) => builder.with_name(name),
        ParsedLine::ChampionComment(comment) => builder.with_comment(comment),
        ParsedLine::Code(bytes) => Ok(builder.add_code(bytes)),
        ParsedLine::Op(op) => Ok(builder.add_op(op)),
        ParsedLine::Label(label) => Ok(builder.add_label(label)),
        ParsedLine::LabelAndOp(label, op) => Ok(builder.add_label(label).add_op(op)),
        ParsedLine::Empty => Ok(builder),
    };
    proof {
        if r is Ok {
            assert(r->Ok_0.instructions@.subrange(0, r->Ok_0.instructions@.len() as int)
                =~= r->Ok_0.instructions@);
        }
    }
    r
}

} // verus!
