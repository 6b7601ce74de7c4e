//! Source-level instruction forms: typed operands as the parser produces
//! them, with label references still unresolved.

use vstd::prelude::*;

verus! {

/// A register operand, `r1` through `r16`.
#[derive(Clone, Copy, Debug, PartialEq, Eq, Structural)]
pub struct Register(pub u8);

/// A direct operand: `%` then a label reference or a signed number.
#[derive(Clone, Debug, PartialEq, Eq)]
pub enum Direct {
    Label(Vec<u8>),
    Numeric(i64),
}

/// An indirect operand: a bare label reference or signed number.
#[derive(Clone, Debug, PartialEq, Eq)]
pub enum Indirect {
    Label(Vec<u8>),
    Numeric(i64),
}

/// Register or direct.
#[derive(Clone, Debug, PartialEq, Eq)]
pub enum RegDir {
    Reg(Register),
    Dir(Direct),
}

/// Register or indirect.
#[derive(Clone, Debug, PartialEq, Eq)]
pub enum RegInd {
    Reg(Register),
    Ind(Indirect),
}

/// Direct or indirect.
#[derive(Clone, Debug, PartialEq, Eq)]
pub enum DirInd {
    Dir(Direct),
    Ind(Indirect),
}

/// Any operand kind.
#[derive(Clone, Debug, PartialEq, Eq)]
pub enum AnyParam {
    Reg(Register),
    Dir(Direct),
    Ind(Indirect),
}

/// One parsed instruction, operands typed by the shape table of the
/// language.
#[derive(Clone, Debug, PartialEq, Eq)]
pub enum Op {
    Live(Direct),
    Ld(DirInd, Register),
    St(Register, RegInd),
    Add(Register, Register, Register),
    Sub(Register, Register, Register),
    And(AnyParam, AnyParam, Register),
    Or(AnyParam, AnyParam, Register),
    Xor(AnyParam, AnyParam, Register),
    Zjmp(Direct),
    Ldi(AnyParam, RegDir, Register),
    Sti(Register, AnyParam, RegDir),
    Fork(Direct),
    Lld(DirInd, Register),
    Lldi(AnyParam, RegDir, Register),
    Lfork(Direct),
    Aff(Register),
}

// Specification twins: the same shapes over mathematical sequences, so
// contracts can speak of operand values without executable containers.

pub enum SpecDirect {
    Label(Seq<u8>),
    Numeric(i64),
}

pub enum SpecIndirect {
    Label(Seq<u8>),
    Numeric(i64),
}

pub enum SpecRegDir {
    Reg(Register),
    Dir(SpecDirect),
}

pub enum SpecRegInd {
    Reg(Register),
    Ind(SpecIndirect),
}

pub enum SpecDirInd {
    Dir(SpecDirect),
    Ind(SpecIndirect),
}

pub enum SpecAnyParam {
    Reg(Register),
    Dir(SpecDirect),
    Ind(SpecIndirect),
}

pub enum SpecOp {
    Live(SpecDirect),
    Ld(SpecDirInd, Register),
    St(Register, SpecRegInd),
    Add(Register, Register, Register),
    Sub(Register, Register, Register),
    And(SpecAnyParam, SpecAnyParam, Register),
    Or(SpecAnyParam, SpecAnyParam, Register),
    Xor(SpecAnyParam, SpecAnyParam, Register),
    Zjmp(SpecDirect),
    Ldi(SpecAnyParam, SpecRegDir, Register),
    Sti(Register, SpecAnyParam, SpecRegDir),
    Fork(SpecDirect),
    Lld(SpecDirInd, Register),
    Lldi(SpecAnyParam, SpecRegDir, Register),
    Lfork(SpecDirect),
    Aff(Register),
}

impl View for Direct {
    type V = SpecDirect;

    open spec fn view(&self) -> SpecDirect {
        match self {
            Direct::Label(l) => SpecDirect::Label(l@),
            Direct::Numeric(v) => SpecDirect::Numeric(*v),
        }
    }
}

impl View for Indirect {
    type V = SpecIndirect;

    open spec fn view(&self) -> SpecIndirect {
        match self {
            Indirect::Label(l) => SpecIndirect::Label(l@),
            Indirect::Numeric(v) => SpecIndirect::Numeric(*v),
        }
    }
}

impl View for RegDir {
    type V = SpecRegDir;

    open spec fn view(&self) -> SpecRegDir {
        match self {
            RegDir::Reg(r) => SpecRegDir::Reg(*r),
            RegDir::Dir(d) => SpecRegDir::Dir(d@),
        }
    }
}

impl View for RegInd {
    type V = SpecRegInd;

    open spec fn view(&self) -> SpecRegInd {
        match self {
            RegInd::Reg(r) => SpecRegInd::Reg(*r),
            RegInd::Ind(i) => SpecRegInd::Ind(i@),
        }
    }
}

impl View for DirInd {
    type V = SpecDirInd;

    open spec fn view(&self) -> SpecDirInd {
        match self {
            DirInd::Dir(d) => SpecDirInd::Dir(d@),
            DirInd::Ind(i) => SpecDirInd::Ind(i@),
        }
    }
}

impl View for AnyParam {
    type V = SpecAnyParam;

    open spec fn view(&self) -> SpecAnyParam {
        match self {
            AnyParam::Reg(r) => SpecAnyParam::Reg(*r),
            AnyParam::Dir(d) => SpecAnyParam::Dir(d@),
            AnyParam::Ind(i) => SpecAnyParam::Ind(i@),
        }
    }
}

impl View for Op {
    type V = SpecOp;

    open spec fn view(&self) -> SpecOp {
        match self {
            Op::Live(d) => SpecOp::Live(d@),
            Op::Ld(a, b) => SpecOp::Ld(a@, *b),
            Op::St(a, b) => SpecOp::St(*a, b@),
            Op::Add(a, b, c) => SpecOp::Add(*a, *b, *c),
            Op::Sub(a, b, c) => SpecOp::Sub(*a, *b, *c),
            Op::And(a, b, c) => SpecOp::And(a@, b@, *c),
            Op::Or(a, b, c) => SpecOp::Or(a@, b@, *c),
            Op::Xor(a, b, c) => SpecOp::Xor(a@, b@, *c),
            Op::Zjmp(d) => SpecOp::Zjmp(d@),
            Op::Ldi(a, b, c) => SpecOp::Ldi(a@, b@, *c),
            Op::Sti(a, b, c) => SpecOp::Sti(*a, b@, c@),
            Op::Fork(d) => SpecOp::Fork(d@),
            Op::Lld(a, b) => SpecOp::Lld(a@, *b),
            Op::Lldi(a, b, c) => SpecOp::Lldi(a@, b@, *c),
            Op::Lfork(d) => SpecOp::Lfork(d@),
            Op::Aff(r) => SpecOp::Aff(*r),
        }
    }
}

} // verus!
