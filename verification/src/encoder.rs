//! The encoder: a champion to its byte-code image. A first pass sizes
//! every instruction and records label offsets; a second emits the header
//! and the instruction stream, resolving label references to relative
//! offsets.

use vstd::prelude::*;
use crate::assembler::{Champion, ParsedInstruction, SpecParsedInstruction};
use crate::defs::{
    spec_dir_size_four, spec_has_ocp, spec_op_code, op_spec, OpType, CHAMP_MAX_SIZE,
    COMMENT_LENGTH, COREWAR_EXEC_MAGIC, PROG_NAME_LENGTH,
};
use crate::types::{
    AnyParam, Direct, DirInd, Indirect, Op, RegDir, Register, RegInd, SpecAnyParam, SpecDirect,
    SpecDirInd, SpecIndirect, SpecOp, SpecRegDir, SpecRegInd,
};
use crate::be::{spec_be2, spec_be4, u16_to_be, u32_to_be};

verus! {

/// A source-level operand flattened for encoding: its addressing kind and
/// its payload.
#[derive(Debug)]
pub enum SrcParam {
    Reg(u8),
    Dir(DirVal),
    Ind(DirVal),
}

/// A direct or indirect payload: a label reference or a literal.
#[derive(Debug)]
pub enum DirVal {
    Label(Vec<u8>),
    Num(i64),
}

/// Specification twins.
pub enum SpecSrcParam {
    Reg(u8),
    Dir(SpecDirVal),
    Ind(SpecDirVal),
}

pub enum SpecDirVal {
    Label(Seq<u8>),
    Num(i64),
}

impl View for DirVal {
    type V = SpecDirVal;

    open spec fn view(&self) -> SpecDirVal {
        match self {
            DirVal::Label(l) => SpecDirVal::Label(l@),
            DirVal::Num(v) => SpecDirVal::Num(*v),
        }
    }
}

impl View for SrcParam {
    type V = SpecSrcParam;

    open spec fn view(&self) -> SpecSrcParam {
        match self {
            SrcParam::Reg(n) => SpecSrcParam::Reg(*n),
            SrcParam::Dir(d) => SpecSrcParam::Dir(d@),
            SrcParam::Ind(d) => SpecSrcParam::Ind(d@),
        }
    }
}

/// What went wrong while encoding.
#[derive(Debug)]
pub enum EncodeError {
    /// A label was referenced and never defined.
    UndefinedLabel(Vec<u8>),
    /// The champion name does not fit its header field.
    NameTooLong,
    /// The champion comment does not fit its header field.
    CommentTooLong,
    /// The body exceeds the size a champion may have.
    ProgramTooLong,
}

/// Specification twin of `EncodeError`.
pub enum SpecEncodeError {
    UndefinedLabel(Seq<u8>),
    NameTooLong,
    CommentTooLong,
    ProgramTooLong,
}

impl View for EncodeError {
    type V = SpecEncodeError;

    open spec fn view(&self) -> SpecEncodeError {
        match self {
            EncodeError::UndefinedLabel(l) => SpecEncodeError::UndefinedLabel(l@),
            EncodeError::NameTooLong => SpecEncodeError::NameTooLong,
            EncodeError::CommentTooLong => SpecEncodeError::CommentTooLong,
            EncodeError::ProgramTooLong => SpecEncodeError::ProgramTooLong,
        }
    }
}

/// The view of a direct operand as an encoding payload.
pub open spec fn spec_dir_val(d: SpecDirect) -> SpecDirVal {
    match d {
        SpecDirect::Label(l) => SpecDirVal::Label(l),
        SpecDirect::Numeric(v) => SpecDirVal::Num(v),
    }
}

/// The view of an indirect operand as an encoding payload.
pub open spec fn spec_ind_val(d: SpecIndirect) -> SpecDirVal {
    match d {
        SpecIndirect::Label(l) => SpecDirVal::Label(l),
        SpecIndirect::Numeric(v) => SpecDirVal::Num(v),
    }
}

pub open spec fn spec_any_src(p: SpecAnyParam) -> SpecSrcParam {
    match p {
        SpecAnyParam::Reg(r) => SpecSrcParam::Reg(r.0),
        SpecAnyParam::Dir(d) => SpecSrcParam::Dir(spec_dir_val(d)),
        SpecAnyParam::Ind(d) => SpecSrcParam::Ind(spec_ind_val(d)),
    }
}

pub open spec fn spec_rd_src(p: SpecRegDir) -> SpecSrcParam {
    match p {
        SpecRegDir::Reg(r) => SpecSrcParam::Reg(r.0),
        SpecRegDir::Dir(d) => SpecSrcParam::Dir(spec_dir_val(d)),
    }
}

pub open spec fn spec_ri_src(p: SpecRegInd) -> SpecSrcParam {
    match p {
        SpecRegInd::Reg(r) => SpecSrcParam::Reg(r.0),
        SpecRegInd::Ind(d) => SpecSrcParam::Ind(spec_ind_val(d)),
    }
}

pub open spec fn spec_di_src(p: SpecDirInd) -> SpecSrcParam {
    match p {
        SpecDirInd::Dir(d) => SpecSrcParam::Dir(spec_dir_val(d)),
        SpecDirInd::Ind(d) => SpecSrcParam::Ind(spec_ind_val(d)),
    }
}

/// An instruction's opcode and flattened operands.
pub open spec fn spec_op_parts(op: SpecOp) -> (OpType, Seq<SpecSrcParam>) {
    match op {
        SpecOp::Live(d) => (OpType::Live, seq![SpecSrcParam::Dir(spec_dir_val(d))]),
        SpecOp::Ld(a, b) => (OpType::Ld, seq![spec_di_src(a), SpecSrcParam::Reg(b.0)]),
        SpecOp::St(a, b) => (OpType::St, seq![SpecSrcParam::Reg(a.0), spec_ri_src(b)]),
        SpecOp::Add(a, b, c) => (
            OpType::Add,
            seq![SpecSrcParam::Reg(a.0), SpecSrcParam::Reg(b.0), SpecSrcParam::Reg(c.0)],
        ),
        SpecOp::Sub(a, b, c) => (
            OpType::Sub,
            seq![SpecSrcParam::Reg(a.0), SpecSrcParam::Reg(b.0), SpecSrcParam::Reg(c.0)],
        ),
        SpecOp::And(a, b, c) => (
            OpType::And,
            seq![spec_any_src(a), spec_any_src(b), SpecSrcParam::Reg(c.0)],
        ),
        SpecOp::Or(a, b, c) => (
            OpType::Or,
            seq![spec_any_src(a), spec_any_src(b), SpecSrcParam::Reg(c.0)],
        ),
        SpecOp::Xor(a, b, c) => (
            OpType::Xor,
            seq![spec_any_src(a), spec_any_src(b), SpecSrcParam::Reg(c.0)],
        ),
        SpecOp::Zjmp(d) => (OpType::Zjmp, seq![SpecSrcParam::Dir(spec_dir_val(d))]),
        SpecOp::Ldi(a, b, c) => (
            OpType::Ldi,
            seq![spec_any_src(a), spec_rd_src(b), SpecSrcParam::Reg(c.0)],
        ),
        SpecOp::Sti(a, b, c) => (
            OpType::Sti,
            seq![SpecSrcParam::Reg(a.0), spec_any_src(b), spec_rd_src(c)],
        ),
        SpecOp::Fork(d) => (OpType::Fork, seq![SpecSrcParam::Dir(spec_dir_val(d))]),
        SpecOp::Lld(a, b) => (OpType::Lld, seq![spec_di_src(a), SpecSrcParam::Reg(b.0)]),
        SpecOp::Lldi(a, b, c) => (
            OpType::Lldi,
            seq![spec_any_src(a), spec_rd_src(b), SpecSrcParam::Reg(c.0)],
        ),
        SpecOp::Lfork(d) => (OpType::Lfork, seq![SpecSrcParam::Dir(spec_dir_val(d))]),
        SpecOp::Aff(r) => (OpType::Aff, seq![SpecSrcParam::Reg(r.0)]),
    }
}

/// The encoded byte length of one operand.
pub open spec fn spec_param_bytes(p: SpecSrcParam, dir4: bool) -> int {
    match p {
        SpecSrcParam::Reg(_) => 1,
        SpecSrcParam::Dir(_) => if dir4 {
            4int
        } else {
            2int
        },
        SpecSrcParam::Ind(_) => 2,
    }
}

/// The encoded byte length of operands `i` and beyond.
pub open spec fn spec_params_bytes(ps: Seq<SpecSrcParam>, i: int, dir4: bool) -> int
    decreases ps.len() - i,
{
    if 0 <= i < ps.len() {
        spec_param_bytes(ps[i], dir4) + spec_params_bytes(ps, i + 1, dir4)
    } else {
        0
    }
}

/// The encoded byte length of one instruction: opcode byte, coding byte
/// where the opcode carries one, then its operands.
pub open spec fn spec_op_bytes(op: SpecOp) -> int {
    let (kind, ps) = spec_op_parts(op);
    1 + (if spec_has_ocp(kind) {
        1int
    } else {
        0int
    }) + spec_params_bytes(ps, 0, spec_dir_size_four(kind))
}

/// The encoded byte length of one body entry: labels take no room.
pub open spec fn spec_entry_bytes(e: SpecParsedInstruction) -> int {
    match e {
        SpecParsedInstruction::Label(_) => 0,
        SpecParsedInstruction::RawCode(b) => b.len() as int,
        SpecParsedInstruction::Op(o) => spec_op_bytes(o),
    }
}

/// The label offsets the size pass records, walking entries `i` and
/// beyond from offset `off`: each definition with the offset it stands
/// at, in order.
pub open spec fn spec_labels(
    instrs: Seq<SpecParsedInstruction>,
    i: int,
    off: int,
) -> Seq<(Seq<u8>, int)>
    decreases instrs.len() - i,
{
    if !(0 <= i < instrs.len()) {
        Seq::empty()
    } else {
        match instrs[i] {
            SpecParsedInstruction::Label(l) => seq![(l, off)] + spec_labels(instrs, i + 1, off),
            e => spec_labels(instrs, i + 1, off + spec_entry_bytes(e)),
        }
    }
}

/// The offset a label resolves to: its latest definition wins.
pub open spec fn spec_resolve(labels: Seq<(Seq<u8>, int)>, name: Seq<u8>) -> Option<int>
    decreases labels.len(),
{
    if labels.len() == 0 {
        None
    } else if labels.last().0 == name {
        Some(labels.last().1)
    } else {
        spec_resolve(labels.drop_last(), name)
    }
}

/// A value truncated to its low 32 bits, two's complement.
pub open spec fn spec_trunc32(v: int) -> int {
    v % 0x1_0000_0000
}

/// A value truncated to its low 16 bits, two's complement.
pub open spec fn spec_trunc16(v: int) -> int {
    v % 0x1_0000
}

/// The payload a direct or indirect operand encodes: a literal as given,
/// a label as its offset relative to the instruction's own offset.
pub open spec fn spec_payload(
    d: SpecDirVal,
    labels: Seq<(Seq<u8>, int)>,
    my_off: int,
) -> Result<int, SpecEncodeError> {
    match d {
        SpecDirVal::Num(v) => Ok(v as int),
        SpecDirVal::Label(l) => match spec_resolve(labels, l) {
            Some(loff) => Ok(loff - my_off),
            None => Err(SpecEncodeError::UndefinedLabel(l)),
        },
    }
}

/// The bytes of operands `i` and beyond of one instruction.
pub open spec fn spec_emit_params(
    ps: Seq<SpecSrcParam>,
    i: int,
    dir4: bool,
    labels: Seq<(Seq<u8>, int)>,
    my_off: int,
) -> Result<Seq<u8>, SpecEncodeError>
    decreases ps.len() - i,
{
    if !(0 <= i < ps.len()) {
        Ok(Seq::empty())
    } else {
        let head: Result<Seq<u8>, SpecEncodeError> = match ps[i] {
            SpecSrcParam::Reg(n) => Ok(seq![n]),
            SpecSrcParam::Dir(d) => match spec_payload(d, labels, my_off) {
                Err(e) => Err(e),
                Ok(v) => if dir4 {
                    Ok(spec_be4(spec_trunc32(v)))
                } else {
                    Ok(spec_be2(spec_trunc16(v)))
                },
            },
            SpecSrcParam::Ind(d) => match spec_payload(d, labels, my_off) {
                Err(e) => Err(e),
                Ok(v) => Ok(spec_be2(spec_trunc16(v))),
            },
        };
        match head {
            Err(e) => Err(e),
            Ok(hb) => match spec_emit_params(ps, i + 1, dir4, labels, my_off) {
                Err(e) => Err(e),
                Ok(rest) => Ok(hb + rest),
            },
        }
    }
}

/// The two-bit coding of one operand kind: register 01, direct 10,
/// indirect 11.
pub open spec fn spec_src_code(p: SpecSrcParam) -> int {
    match p {
        SpecSrcParam::Reg(_) => 1,
        SpecSrcParam::Dir(_) => 2,
        SpecSrcParam::Ind(_) => 3,
    }
}

/// The coding byte of an instruction: two bits per operand, high slot
/// first, unused low bits zero.
pub open spec fn spec_ocp_byte(ps: Seq<SpecSrcParam>) -> int {
    (if ps.len() >= 1 {
        spec_src_code(ps[0]) * 64
    } else {
        0int
    }) + (if ps.len() >= 2 {
        spec_src_code(ps[1]) * 16
    } else {
        0int
    }) + (if ps.len() >= 3 {
        spec_src_code(ps[2]) * 4
    } else {
        0int
    })
}

/// The bytes of one encoded instruction at offset `my_off`.
pub open spec fn spec_emit_op(
    op: SpecOp,
    labels: Seq<(Seq<u8>, int)>,
    my_off: int,
) -> Result<Seq<u8>, SpecEncodeError> {
    let (kind, ps) = spec_op_parts(op);
    let head = if spec_has_ocp(kind) {
        seq![spec_op_code(kind), spec_ocp_byte(ps) as u8]
    } else {
        seq![spec_op_code(kind)]
    };
    match spec_emit_params(ps, 0, spec_dir_size_four(kind), labels, my_off) {
        Err(e) => Err(e),
        Ok(body) => Ok(head + body),
    }
}

/// The body bytes of entries `i` and beyond, emitted from offset `off`.
pub open spec fn spec_emit_body(
    instrs: Seq<SpecParsedInstruction>,
    i: int,
    off: int,
    labels: Seq<(Seq<u8>, int)>,
) -> Result<Seq<u8>, SpecEncodeError>
    decreases instrs.len() - i,
{
    if !(0 <= i < instrs.len()) {
        Ok(Seq::empty())
    } else {
        match instrs[i] {
            SpecParsedInstruction::Label(_) => spec_emit_body(instrs, i + 1, off, labels),
            SpecParsedInstruction::RawCode(b) => match spec_emit_body(
                instrs,
                i + 1,
                off + b.len(),
                labels,
            ) {
                Err(e) => Err(e),
                Ok(rest) => Ok(b + rest),
            },
            SpecParsedInstruction::Op(o) => match spec_emit_op(o, labels, off) {
                Err(e) => Err(e),
                Ok(ob) => match spec_emit_body(instrs, i + 1, off + spec_op_bytes(o), labels) {
                    Err(e) => Err(e),
                    Ok(rest) => Ok(ob + rest),
                },
            },
        }
    }
}

/// A field padded with NULs to its fixed width.
pub open spec fn spec_padded(bytes: Seq<u8>, width: int) -> Seq<u8> {
    bytes + Seq::new((width - bytes.len()) as nat, |i: int| 0u8)
}

/// The byte length of the body: entries `i` and beyond.
pub open spec fn spec_body_size(instrs: Seq<SpecParsedInstruction>, i: int) -> int
    decreases instrs.len() - i,
{
    if 0 <= i < instrs.len() {
        spec_entry_bytes(instrs[i]) + spec_body_size(instrs, i + 1)
    } else {
        0
    }
}

/// The whole byte-code image of a champion: magic, NUL-padded name,
/// reserved zeros, big-endian body size, NUL-padded comment, reserved
/// zeros, then the body. Oversized fields and bodies are refused.
pub open spec fn spec_write_champion(
    name: Seq<u8>,
    comment: Seq<u8>,
    instrs: Seq<SpecParsedInstruction>,
) -> Result<Seq<u8>, SpecEncodeError> {
    if name.len() > PROG_NAME_LENGTH {
        Err(SpecEncodeError::NameTooLong)
    } else if comment.len() > COMMENT_LENGTH {
        Err(SpecEncodeError::CommentTooLong)
    } else if spec_body_size(instrs, 0) > CHAMP_MAX_SIZE {
        Err(SpecEncodeError::ProgramTooLong)
    } else {
        let labels = spec_labels(instrs, 0, 0);
        match spec_emit_body(instrs, 0, 0, labels) {
            Err(e) => Err(e),
            Ok(body) => Ok(
                spec_be4(COREWAR_EXEC_MAGIC as int) + spec_padded(
                    name,
                    PROG_NAME_LENGTH as int,
                ) + seq![0u8, 0u8, 0u8, 0u8] + spec_be4(body.len() as int) + spec_padded(
                    comment,
                    COMMENT_LENGTH as int,
                ) + seq![0u8, 0u8, 0u8, 0u8] + body,
            ),
        }
    }
}


/// The views of flattened operands, in order.
pub open spec fn spec_src_views(v: Seq<SrcParam>) -> Seq<SpecSrcParam> {
    Seq::new(
        v.len(),
        |i: int|
            if 0 <= i < v.len() {
                v[i]@
            } else {
                SpecSrcParam::Reg(0)
            },
    )
}

/// The views of recorded label offsets, in order.
pub open spec fn spec_label_views(v: Seq<(Vec<u8>, usize)>) -> Seq<(Seq<u8>, int)> {
    Seq::new(
        v.len(),
        |i: int|
            if 0 <= i < v.len() {
                (v[i].0@, v[i].1 as int)
            } else {
                (Seq::empty(), 0int)
            },
    )
}

/// Copies a byte string.
fn clone_bytes(v: &Vec<u8>) -> (r: Vec<u8>)
    ensures
        r@ == v@,
{
    let mut out: Vec<u8> = Vec::new();
    let mut i: usize = 0;
    while i < v.len()
        invariant
            i <= v@.len(),
            out@ == v@.subrange(0, i as int),
        decreases v@.len() - i,
    {
        out.push(v[i]);
        proof {
            assert(out@ =~= v@.subrange(0, i + 1));
        }
        i += 1;
    }
    proof {
        assert(out@ =~= v@);
    }
    out
}

/// Whether two byte strings are equal.
fn bytes_eq(a: &Vec<u8>, b: &Vec<u8>) -> (r: bool)
    ensures
        r == (a@ == b@),
{
    if a.len() != b.len() {
        proof {
            assert(a@ != b@);
        }
        return false;
    }
    let mut i: usize = 0;
    while i < a.len()
        invariant
            i <= a@.len(),
            a@.len() == b@.len(),
            forall|j: int| 0 <= j < i ==> a@[j] == b@[j],
        decreases a@.len() - i,
    {
        if a[i] != b[i] {
            proof {
                assert(a@ != b@);
            }
            return false;
        }
        i += 1;
    }
    proof {
        assert(a@ =~= b@);
    }
    true
}

/// Flattens a direct operand for encoding.
fn dir_val(d: &Direct) -> (r: DirVal)
    ensures
        r@ == spec_dir_val(d@),
{
    match d {
        Direct::Label(l) => DirVal::Label(clone_bytes(l)),
        Direct::Numeric(v) => DirVal::Num(*v),
    }
}

/// Flattens an indirect operand for encoding.
fn ind_val(d: &Indirect) -> (r: DirVal)
    ensures
        r@ == spec_ind_val(d@),
{
    match d {
        Indirect::Label(l) => DirVal::Label(clone_bytes(l)),
        Indirect::Numeric(v) => DirVal::Num(*v),
    }
}

/// Flattens an any-kind operand.
fn any_src(p: &AnyParam) -> (r: SrcParam)
    ensures
        r@ == spec_any_src(p@),
{
    match p {
        AnyParam::Reg(x) => SrcParam::Reg(x.0),
        AnyParam::Dir(d) => SrcParam::Dir(dir_val(d)),
        AnyParam::Ind(d) => SrcParam::Ind(ind_val(d)),
    }
}

/// Flattens a register-or-direct operand.
fn rd_src(p: &RegDir) -> (r: SrcParam)
    ensures
        r@ == spec_rd_src(p@),
{
    match p {
        RegDir::Reg(x) => SrcParam::Reg(x.0),
        RegDir::Dir(d) => SrcParam::Dir(dir_val(d)),
    }
}

/// Flattens a register-or-indirect operand.
fn ri_src(p: &RegInd) -> (r: SrcParam)
    ensures
        r@ == spec_ri_src(p@),
{
    match p {
        RegInd::Reg(x) => SrcParam::Reg(x.0),
        RegInd::Ind(d) => SrcParam::Ind(ind_val(d)),
    }
}

/// Flattens a direct-or-indirect operand.
fn di_src(p: &DirInd) -> (r: SrcParam)
    ensures
        r@ == spec_di_src(p@),
{
    match p {
        DirInd::Dir(d) => SrcParam::Dir(dir_val(d)),
        DirInd::Ind(d) => SrcParam::Ind(ind_val(d)),
    }
}

/// The opcode and flattened operands of one instruction.
fn op_parts(op: &Op) -> (r: (OpType, Vec<SrcParam>))
    ensures
        r.0 == spec_op_parts(op@).0,
        spec_src_views(r.1@) == spec_op_parts(op@).1,
{
    let mut ps: Vec<SrcParam> = Vec::new();
    let kind: OpType = match op {
        Op::Live(d) => {
            ps.push(SrcParam::Dir(dir_val(d)));
            OpType::Live
        },
        Op::Ld(a, b) => {
            ps.push(di_src(a));
            ps.push(SrcParam::Reg(b.0));
            OpType::Ld
        },
        Op::St(a, b) => {
            ps.push(SrcParam::Reg(a.0));
            ps.push(ri_src(b));
            OpType::St
        },
        Op::Add(a, b, c) => {
            ps.push(SrcParam::Reg(a.0));
            ps.push(SrcParam::Reg(b.0));
            ps.push(SrcParam::Reg(c.0));
            OpType::Add
        },
        Op::Sub(a, b, c) => {
            ps.push(SrcParam::Reg(a.0));
            ps.push(SrcParam::Reg(b.0));
            ps.push(SrcParam::Reg(c.0));
            OpType::Sub
        },
        Op::And(a, b, c) => {
            ps.push(any_src(a));
            ps.push(any_src(b));
            ps.push(SrcParam::Reg(c.0));
            OpType::And
        },
        Op::Or(a, b, c) => {
            ps.push(any_src(a));
            ps.push(any_src(b));
            ps.push(SrcParam::Reg(c.0));
            OpType::Or
        },
        Op::Xor(a, b, c) => {
            ps.push(any_src(a));
            ps.push(any_src(b));
            ps.push(SrcParam::Reg(c.0));
            OpType::Xor
        },
        Op::Zjmp(d) => {
            ps.push(SrcParam::Dir(dir_val(d)));
            OpType::Zjmp
        },
        Op::Ldi(a, b, c) => {
            ps.push(any_src(a));
            ps.push(rd_src(b));
            ps.push(SrcParam::Reg(c.0));
            OpType::Ldi
        },
        Op::Sti(a, b, c) => {
            ps.push(SrcParam::Reg(a.0));
            ps.push(any_src(b));
            ps.push(rd_src(c));
            OpType::Sti
        },
        Op::Fork(d) => {
            ps.push(SrcParam::Dir(dir_val(d)));
            OpType::Fork
        },
        Op::Lld(a, b) => {
            ps.push(di_src(a));
            ps.push(SrcParam::Reg(b.0));
            OpType::Lld
        },
        Op::Lldi(a, b, c) => {
            ps.push(any_src(a));
            ps.push(rd_src(b));
            ps.push(SrcParam::Reg(c.0));
            OpType::Lldi
        },
        Op::Lfork(d) => {
            ps.push(SrcParam::Dir(dir_val(d)));
            OpType::Lfork
        },
        Op::Aff(r2) => {
            ps.push(SrcParam::Reg(r2.0));
            OpType::Aff
        },
    };
    proof {
        assert(spec_src_views(ps@) =~= spec_op_parts(op@).1);
    }
    (kind, ps)
}

/// The encoded byte length of one instruction; at most 14.
fn op_bytes(op: &Op) -> (r: usize)
    ensures
        r as int == spec_op_bytes(op@),
        r <= 14,
{
    let (kind, ps) = op_parts(op);
    let os = op_spec(kind);
    let mut size: usize = if os.has_ocp {
        2
    } else {
        1
    };
    let ghost views = spec_src_views(ps@);
    proof {
        assert(views.len() <= 3);
        assert(views.len() == ps@.len());
    }
    let mut i: usize = 0;
    while i < ps.len()
        invariant
            i <= ps@.len(),
            ps@.len() <= 3,
            views == spec_src_views(ps@),
            views.len() == ps@.len(),
            os.dir_size_four == spec_dir_size_four(spec_op_parts(op@).0),
            size <= 2 + 4 * i,
            size as int + spec_params_bytes(views, i as int, os.dir_size_four) == (if os.has_ocp {
                2int
            } else {
                1int
            }) + spec_params_bytes(views, 0, os.dir_size_four),
        decreases ps@.len() - i,
    {
        proof {
            assert(views[i as int] == ps@[i as int]@);
        }
        let add: usize = match &ps[i] {
            SrcParam::Reg(_) => 1,
            SrcParam::Dir(_) => if os.dir_size_four {
                4
            } else {
                2
            },
            SrcParam::Ind(_) => 2,
        };
        size += add;
        i += 1;
    }
    proof {
        assert(ps@.len() <= 3) by {
            assert(views.len() == spec_op_parts(op@).1.len());
        }
    }
    size
}

/// Resolves a label against the recorded offsets: the latest definition
/// wins.
fn resolve(labels: &Vec<(Vec<u8>, usize)>, name: &Vec<u8>) -> (r: Option<usize>)
    ensures
        (match spec_resolve(spec_label_views(labels@), name@) {
            Some(off) => r matches Some(x) && x as int == off,
            None => r is None,
        }),
        r matches Some(x) ==> exists|j: int|
            0 <= j < labels@.len() && (#[trigger] labels@[j]).1 == x,
{
    let ghost lv = spec_label_views(labels@);
    proof {
        assert(lv.subrange(0, lv.len() as int) =~= lv);
    }
    let mut i: usize = labels.len();
    while i > 0
        invariant
            i <= labels@.len(),
            lv == spec_label_views(labels@),
            lv.len() == labels@.len(),
            spec_resolve(lv.subrange(0, i as int), name@) == spec_resolve(lv, name@),
        decreases i,
    {
        i -= 1;
        proof {
            assert(lv.subrange(0, i + 1).last() == lv[i as int]);
            assert(lv.subrange(0, i + 1).drop_last() =~= lv.subrange(0, i as int));
        }
        if bytes_eq(&labels[i].0, name) {
            proof {
                assert(labels@[i as int].1 == labels@[i as int].1);
            }
            return Some(labels[i].1);
        }
    }
    proof {
        assert(lv.subrange(0, 0) =~= Seq::<(Seq<u8>, int)>::empty());
    }
    None
}

/// Truncates a value to its low 32 bits, two's complement.
fn trunc32(v: i64) -> (r: u32)
    ensures
        r as int == spec_trunc32(v as int),
{
    if v >= 0 {
        (v % 0x1_0000_0000i64) as u32
    } else {
        let mag: i64 = -(v + 1);
        let m: i64 = mag % 0x1_0000_0000i64;
        proof {
            let k = mag as int / 0x1_0000_0000;
            vstd::arithmetic::div_mod::lemma_fundamental_div_mod(mag as int, 0x1_0000_0000);
            assert(v as int == (0xffff_ffff - m) + (-k - 1) * 0x1_0000_0000)
                by (nonlinear_arith)
                requires
                    v as int == -(mag as int) - 1,
                    mag as int == k * 0x1_0000_0000 + m,
            {}
            vstd::arithmetic::div_mod::lemma_mod_multiples_vanish(
                -k - 1,
                (0xffff_ffff - m) as int,
                0x1_0000_0000,
            );
            vstd::arithmetic::div_mod::lemma_mod_bound(mag as int, 0x1_0000_0000);
            vstd::arithmetic::div_mod::lemma_small_mod(
                (0xffff_ffff - m) as nat,
                0x1_0000_0000nat,
            );
        }
        (0xffff_ffffi64 - m) as u32
    }
}

/// Truncates a value to its low 16 bits, two's complement.
fn trunc16(v: i64) -> (r: u16)
    ensures
        r as int == spec_trunc16(v as int),
{
    if v >= 0 {
        (v % 0x1_0000i64) as u16
    } else {
        let mag: i64 = -(v + 1);
        let m: i64 = mag % 0x1_0000i64;
        proof {
            let k = mag as int / 0x1_0000;
            vstd::arithmetic::div_mod::lemma_fundamental_div_mod(mag as int, 0x1_0000);
            assert(v as int == (0xffff - m) + (-k - 1) * 0x1_0000) by (nonlinear_arith)
                requires
                    v as int == -(mag as int) - 1,
                    mag as int == k * 0x1_0000 + m,
            {}
            vstd::arithmetic::div_mod::lemma_mod_multiples_vanish(
                -k - 1,
                (0xffff - m) as int,
                0x1_0000,
            );
            vstd::arithmetic::div_mod::lemma_mod_bound(mag as int, 0x1_0000);
            vstd::arithmetic::div_mod::lemma_small_mod((0xffff - m) as nat, 0x1_0000nat);
        }
        (0xffffi64 - m) as u16
    }
}

/// Appends the bytes of one encoded instruction at offset `my_off`.
fn emit_op(
    out: &mut Vec<u8>,
    op: &Op,
    labels: &Vec<(Vec<u8>, usize)>,
    my_off: usize,
) -> (r: Result<(), EncodeError>)
    requires
        my_off <= CHAMP_MAX_SIZE,
        old(out)@.len() <= usize::MAX - 14,
        forall|j: int| 0 <= j < labels@.len() ==> (#[trigger] labels@[j]).1 <= CHAMP_MAX_SIZE,
    ensures
        (match spec_emit_op(op@, spec_label_views(labels@), my_off as int) {
            Ok(bytes) => r is Ok && final(out)@ == old(out)@ + bytes,
            Err(se) => r matches Err(e) && e@ == se && final(out)@ == old(out)@,
        }),
{
    let ghost lv = spec_label_views(labels@);
    let (kind, ps) = op_parts(op);
    let os = op_spec(kind);
    let ghost views = spec_src_views(ps@);
    // Emit the operands into a scratch buffer first, so a resolution
    // failure leaves the output untouched.
    let mut scratch: Vec<u8> = Vec::new();
    let mut i: usize = 0;
    while i < ps.len()
        invariant
            i <= ps@.len(),
            out@ == old(out)@,
            my_off <= CHAMP_MAX_SIZE,
            forall|j: int| 0 <= j < labels@.len() ==> (#[trigger] labels@[j]).1
                <= CHAMP_MAX_SIZE,
            lv == spec_label_views(labels@),
            views == spec_src_views(ps@),
            views == spec_op_parts(op@).1,
            views.len() == ps@.len(),
            os.dir_size_four == spec_dir_size_four(spec_op_parts(op@).0),
            os.has_ocp == spec_has_ocp(spec_op_parts(op@).0),
            os.code == crate::defs::spec_op_code(spec_op_parts(op@).0),
            scratch@.len() <= 4 * i,
            (match spec_emit_params(views, i as int, os.dir_size_four, lv, my_off as int) {
                Ok(rest) => spec_emit_params(views, 0, os.dir_size_four, lv, my_off as int)
                    == Ok::<Seq<u8>, SpecEncodeError>(scratch@ + rest),
                Err(e) => spec_emit_params(views, 0, os.dir_size_four, lv, my_off as int)
                    == Err::<Seq<u8>, SpecEncodeError>(e),
            }),
        decreases ps@.len() - i,
    {
        proof {
            assert(views[i as int] == ps@[i as int]@);
        }
        let ghost pre = scratch@;
        match &ps[i] {
            SrcParam::Reg(n) => {
                scratch.push(*n);
                proof {
                    assert(pre.push(*n) =~= pre + seq![*n]);
                }
            },
            SrcParam::Dir(d) => {
                let v: i64 = match d {
                    DirVal::Num(v) => *v,
                    DirVal::Label(l) => match resolve(labels, l) {
                        Some(loff) => {
                            proof {
                                let j = choose|j: int|
                                    0 <= j < labels@.len() && (#[trigger] labels@[j]).1 == loff;
                                assert(labels@[j].1 <= CHAMP_MAX_SIZE);
                            }
                            loff as i64 - my_off as i64
                        },
                        None => {
                            proof {
                                assert(views[i as int] == ps@[i as int]@);
                                assert(spec_emit_params(
                                    views,
                                    i as int,
                                    os.dir_size_four,
                                    lv,
                                    my_off as int,
                                ) == Err::<Seq<u8>, SpecEncodeError>(
                                    SpecEncodeError::UndefinedLabel(l@),
                                ));
                                assert(spec_emit_params(views, 0, os.dir_size_four, lv,
                                    my_off as int) == Err::<Seq<u8>, SpecEncodeError>(
                                    SpecEncodeError::UndefinedLabel(l@),
                                ));
                                assert(views == spec_op_parts(op@).1);
                                assert(spec_emit_op(op@, spec_label_views(labels@),
                                    my_off as int) == Err::<Seq<u8>, SpecEncodeError>(
                                    SpecEncodeError::UndefinedLabel(l@),
                                ));
                            }
                            return Err(EncodeError::UndefinedLabel(clone_bytes(l)));
                        },
                    },
                };
                if os.dir_size_four {
                    let bs = u32_to_be(trunc32(v));
                    scratch.push(bs[0]);
                    scratch.push(bs[1]);
                    scratch.push(bs[2]);
                    scratch.push(bs[3]);
                    proof {
                        assert(scratch@ =~= pre + spec_be4(spec_trunc32(v as int)));
                    }
                } else {
                    let bs = u16_to_be(trunc16(v));
                    scratch.push(bs[0]);
                    scratch.push(bs[1]);
                    proof {
                        assert(scratch@ =~= pre + spec_be2(spec_trunc16(v as int)));
                    }
                }
            },
            SrcParam::Ind(d) => {
                let v: i64 = match d {
                    DirVal::Num(v) => *v,
                    DirVal::Label(l) => match resolve(labels, l) {
                        Some(loff) => {
                            proof {
                                let j = choose|j: int|
                                    0 <= j < labels@.len() && (#[trigger] labels@[j]).1 == loff;
                                assert(labels@[j].1 <= CHAMP_MAX_SIZE);
                            }
                            loff as i64 - my_off as i64
                        },
                        None => {
                            proof {
                                assert(views[i as int] == ps@[i as int]@);
                                assert(spec_emit_params(
                                    views,
                                    i as int,
                                    os.dir_size_four,
                                    lv,
                                    my_off as int,
                                ) == Err::<Seq<u8>, SpecEncodeError>(
                                    SpecEncodeError::UndefinedLabel(l@),
                                ));
                                assert(spec_emit_params(views, 0, os.dir_size_four, lv,
                                    my_off as int) == Err::<Seq<u8>, SpecEncodeError>(
                                    SpecEncodeError::UndefinedLabel(l@),
                                ));
                                assert(views == spec_op_parts(op@).1);
                                assert(spec_emit_op(op@, spec_label_views(labels@),
                                    my_off as int) == Err::<Seq<u8>, SpecEncodeError>(
                                    SpecEncodeError::UndefinedLabel(l@),
                                ));
                            }
                            return Err(EncodeError::UndefinedLabel(clone_bytes(l)));
                        },
                    },
                };
                let bs = u16_to_be(trunc16(v));
                scratch.push(bs[0]);
                scratch.push(bs[1]);
                proof {
                    assert(scratch@ =~= pre + spec_be2(spec_trunc16(v as int)));
                }
            },
        }
        proof {
            if spec_emit_params(views, i + 1, os.dir_size_four, lv, my_off as int) is Ok {
                let rest = spec_emit_params(
                    views,
                    i as int,
                    os.dir_size_four,
                    lv,
                    my_off as int,
                )->Ok_0;
                let rest2 = spec_emit_params(
                    views,
                    i + 1,
                    os.dir_size_four,
                    lv,
                    my_off as int,
                )->Ok_0;
                assert(pre + rest =~= scratch@ + rest2);
            }
        }
        i += 1;
    }
    proof {
        assert(spec_emit_params(views, views.len() as int, os.dir_size_four, lv, my_off as int)
            == Ok::<Seq<u8>, SpecEncodeError>(Seq::empty()));
        assert(scratch@ + Seq::<u8>::empty() =~= scratch@);
    }
    // Opcode byte, coding byte if any, then the operands.
    let ghost out0 = out@;
    out.push(os.code);
    if os.has_ocp {
        proof {
            if ps@.len() >= 1 {
                assert(views[0] == ps@[0]@);
            }
            if ps@.len() >= 2 {
                assert(views[1] == ps@[1]@);
            }
            if ps@.len() >= 3 {
                assert(views[2] == ps@[2]@);
            }
        }
        let c0: u8 = if ps.len() >= 1 {
            src_code(&ps[0]) * 64
        } else {
            0
        };
        let c1: u8 = if ps.len() >= 2 {
            src_code(&ps[1]) * 16
        } else {
            0
        };
        let c2: u8 = if ps.len() >= 3 {
            src_code(&ps[2]) * 4
        } else {
            0
        };
        out.push(c0 + c1 + c2);
    }
    let ghost outh = out@;
    proof {
        assert(scratch@.subrange(0, 0) =~= Seq::<u8>::empty());
        assert(outh + scratch@.subrange(0, 0) =~= outh);
    }
    let mut k: usize = 0;
    while k < scratch.len()
        invariant
            k <= scratch@.len(),
            out@ == outh + scratch@.subrange(0, k as int),
        decreases scratch@.len() - k,
    {
        out.push(scratch[k]);
        proof {
            assert((outh + scratch@.subrange(0, k as int)).push(scratch@[k as int]) =~= outh
                + scratch@.subrange(0, k + 1));
        }
        k += 1;
    }
    proof {
        let (skind, sps) = spec_op_parts(op@);
        let head = if spec_has_ocp(skind) {
            seq![crate::defs::spec_op_code(skind), spec_ocp_byte(sps) as u8]
        } else {
            seq![crate::defs::spec_op_code(skind)]
        };
        assert(outh =~= out0 + head);
        assert(scratch@.subrange(0, scratch@.len() as int) =~= scratch@);
        assert(out@ =~= out0 + (head + scratch@));
    }
    Ok(())
}

/// The two-bit coding of one flattened operand.
fn src_code(p: &SrcParam) -> (r: u8)
    ensures
        r as int == spec_src_code(p@),
{
    match p {
        SrcParam::Reg(_) => 1,
        SrcParam::Dir(_) => 2,
        SrcParam::Ind(_) => 3,
    }
}


/// Body sizes are never negative.
pub proof fn lemma_body_size_nonneg(instrs: Seq<SpecParsedInstruction>, i: int)
    ensures
        spec_body_size(instrs, i) >= 0,
    decreases instrs.len() - i,
{
    if 0 <= i < instrs.len() {
        lemma_body_size_nonneg(instrs, i + 1);
        match instrs[i] {
            SpecParsedInstruction::Op(o) => {
                lemma_params_bytes_nonneg(spec_op_parts(o).1, 0, spec_dir_size_four(
                    spec_op_parts(o).0,
                ));
            },
            _ => {},
        }
    }
}

/// Operand byte counts are never negative.
pub proof fn lemma_params_bytes_nonneg(ps: Seq<SpecSrcParam>, i: int, dir4: bool)
    ensures
        spec_params_bytes(ps, i, dir4) >= 0,
    decreases ps.len() - i,
{
    if 0 <= i < ps.len() {
        lemma_params_bytes_nonneg(ps, i + 1, dir4);
    }
}

/// What the operand emitter produces is exactly as long as the size pass
/// said.
pub proof fn lemma_emit_params_len(
    ps: Seq<SpecSrcParam>,
    i: int,
    dir4: bool,
    labels: Seq<(Seq<u8>, int)>,
    my_off: int,
)
    requires
        spec_emit_params(ps, i, dir4, labels, my_off) is Ok,
    ensures
        spec_emit_params(ps, i, dir4, labels, my_off)->Ok_0.len() == spec_params_bytes(
            ps,
            i,
            dir4,
        ),
    decreases ps.len() - i,
{
    if 0 <= i < ps.len() {
        lemma_emit_params_len(ps, i + 1, dir4, labels, my_off);
    }
}

/// What the instruction emitter produces is exactly as long as the size
/// pass said.
pub proof fn lemma_emit_op_len(op: SpecOp, labels: Seq<(Seq<u8>, int)>, my_off: int)
    requires
        spec_emit_op(op, labels, my_off) is Ok,
    ensures
        spec_emit_op(op, labels, my_off)->Ok_0.len() == spec_op_bytes(op),
{
    let (kind, ps) = spec_op_parts(op);
    lemma_emit_params_len(ps, 0, spec_dir_size_four(kind), labels, my_off);
}

/// Appends a byte string.
fn push_bytes(out: &mut Vec<u8>, v: &Vec<u8>)
    ensures
        final(out)@ == old(out)@ + v@,
{
    let ghost out0 = out@;
    let mut i: usize = 0;
    while i < v.len()
        invariant
            i <= v@.len(),
            out@ == out0 + v@.subrange(0, i as int),
        decreases v@.len() - i,
    {
        proof {
            assert(out0 + v@.subrange(0, 0) =~= out0);
            assert((out0 + v@.subrange(0, i as int)).push(v@[i as int]) =~= out0 + v@.subrange(
                0,
                i + 1,
            ));
        }
        out.push(v[i]);
        i += 1;
    }
    proof {
        assert(out0 + v@.subrange(0, v@.len() as int) =~= out0 + v@);
    }
}

/// Appends `n` NUL bytes.
fn push_zeros(out: &mut Vec<u8>, n: usize)
    ensures
        final(out)@ == old(out)@ + Seq::new(n as nat, |i: int| 0u8),
{
    let ghost out0 = out@;
    let mut i: usize = 0;
    while i < n
        invariant
            i <= n,
            out@ == out0 + Seq::new(i as nat, |k: int| 0u8),
        decreases n - i,
    {
        proof {
            assert(out0 + Seq::new(0nat, |k: int| 0u8) =~= out0);
            assert((out0 + Seq::new(i as nat, |k: int| 0u8)).push(0u8) =~= out0 + Seq::new(
                (i + 1) as nat,
                |k: int| 0u8,
            ));
        }
        out.push(0u8);
        i += 1;
    }
}

/// Appends the four big-endian bytes of an unsigned 32-bit value.
fn push_be4(out: &mut Vec<u8>, v: u32)
    ensures
        final(out)@ == old(out)@ + spec_be4(v as int),
{
    let bs = u32_to_be(v);
    let ghost out0 = out@;
    out.push(bs[0]);
    out.push(bs[1]);
    out.push(bs[2]);
    out.push(bs[3]);
    proof {
        assert(out@ =~= out0 + spec_be4(v as int));
    }
}

/// Encodes a champion into its byte-code image: header then body, labels
/// resolved to offsets relative to their referencing instruction.
pub fn write_champion(champion: &Champion) -> (r: Result<Vec<u8>, EncodeError>)
    ensures
        (match spec_write_champion(
            champion.name@,
            champion.comment@,
            crate::assembler::spec_instrs(champion.instructions@),
        ) {
            Ok(image) => r matches Ok(v) && v@ == image,
            Err(se) => r matches Err(e) && e@ == se,
        }),
{
    let ghost iv = crate::assembler::spec_instrs(champion.instructions@);
    if champion.name.len() > PROG_NAME_LENGTH {
        return Err(EncodeError::NameTooLong);
    }
    if champion.comment.len() > COMMENT_LENGTH {
        return Err(EncodeError::CommentTooLong);
    }
    // Size pass: instruction offsets and label positions.
    let instrs = &champion.instructions;
    let mut labels: Vec<(Vec<u8>, usize)> = Vec::new();
    let mut size: usize = 0;
    let mut i: usize = 0;
    proof {
        assert(iv.len() == instrs@.len());
        assert(spec_label_views(labels@) + spec_labels(iv, 0, 0) =~= spec_labels(iv, 0, 0));
    }
    while i < instrs.len()
        invariant
            i <= instrs@.len(),
            champion.name@.len() <= PROG_NAME_LENGTH,
            champion.comment@.len() <= COMMENT_LENGTH,
            iv == crate::assembler::spec_instrs(champion.instructions@),
            instrs == &champion.instructions,
            iv.len() == instrs@.len(),
            size <= CHAMP_MAX_SIZE,
            size as int + spec_body_size(iv, i as int) == spec_body_size(iv, 0),
            spec_label_views(labels@) + spec_labels(iv, i as int, size as int) == spec_labels(
                iv,
                0,
                0,
            ),
            forall|j: int| 0 <= j < labels@.len() ==> (#[trigger] labels@[j]).1
                <= CHAMP_MAX_SIZE,
        decreases instrs@.len() - i,
    {
        proof {
            assert(iv[i as int] == instrs@[i as int]@);
        }
        let ghost lv_pre = spec_label_views(labels@);
        match &instrs[i] {
            ParsedInstruction::Label(l) => {
                labels.push((clone_bytes(l), size));
                proof {
                    assert(spec_label_views(labels@) =~= lv_pre + seq![(l@, size as int)]);
                    assert((lv_pre + seq![(l@, size as int)]) + spec_labels(
                        iv,
                        i + 1,
                        size as int,
                    ) =~= lv_pre + (seq![(l@, size as int)] + spec_labels(iv, i + 1, size as int)));
                }
            },
            ParsedInstruction::RawCode(b) => {
                let add = b.len();
                proof {
                    lemma_body_size_nonneg(iv, i + 1);
                }
                if add > CHAMP_MAX_SIZE - size {
                    return Err(EncodeError::ProgramTooLong);
                }
                size = size + add;
            },
            ParsedInstruction::Op(o) => {
                let add = op_bytes(o);
                proof {
                    lemma_body_size_nonneg(iv, i + 1);
                }
                if add > CHAMP_MAX_SIZE - size {
                    return Err(EncodeError::ProgramTooLong);
                }
                size = size + add;
            },
        }
        i += 1;
    }
    proof {
        assert(spec_body_size(iv, iv.len() as int) == 0);
        assert(spec_labels(iv, iv.len() as int, size as int) =~= Seq::<(Seq<u8>, int)>::empty());
        assert(spec_label_views(labels@) + Seq::<(Seq<u8>, int)>::empty() =~= spec_label_views(
            labels@,
        ));
    }
    let ghost lv = spec_label_views(labels@);
    // Emit pass: the body.
    let mut body: Vec<u8> = Vec::new();
    let mut off: usize = 0;
    let mut k: usize = 0;
    proof {
        if spec_emit_body(iv, 0, 0, lv) is Ok {
            assert(body@ + spec_emit_body(iv, 0, 0, lv)->Ok_0 =~= spec_emit_body(
                iv,
                0,
                0,
                lv,
            )->Ok_0);
        }
    }
    while k < instrs.len()
        invariant
            k <= instrs@.len(),
            champion.name@.len() <= PROG_NAME_LENGTH,
            champion.comment@.len() <= COMMENT_LENGTH,
            iv == crate::assembler::spec_instrs(champion.instructions@),
            instrs == &champion.instructions,
            iv.len() == instrs@.len(),
            lv == spec_label_views(labels@),
            lv == spec_labels(iv, 0, 0),
            forall|j: int| 0 <= j < labels@.len() ==> (#[trigger] labels@[j]).1
                <= CHAMP_MAX_SIZE,
            off <= CHAMP_MAX_SIZE,
            off as int + spec_body_size(iv, k as int) == spec_body_size(iv, 0),
            spec_body_size(iv, 0) <= CHAMP_MAX_SIZE,
            body@.len() == off,
            (match spec_emit_body(iv, k as int, off as int, lv) {
                Ok(rest) => spec_emit_body(iv, 0, 0, lv) == Ok::<Seq<u8>, SpecEncodeError>(
                    body@ + rest,
                ),
                Err(e) => spec_emit_body(iv, 0, 0, lv) == Err::<Seq<u8>, SpecEncodeError>(e),
            }),
        decreases instrs@.len() - k,
    {
        proof {
            assert(iv[k as int] == instrs@[k as int]@);
            lemma_body_size_nonneg(iv, k + 1);
        }
        let ghost body_pre = body@;
        match &instrs[k] {
            ParsedInstruction::Label(_) => {},
            ParsedInstruction::RawCode(b) => {
                push_bytes(&mut body, b);
                off = off + b.len();
                proof {
                    if spec_emit_body(iv, k + 1, off as int, lv) is Ok {
                        let rest2 = spec_emit_body(iv, k + 1, off as int, lv)->Ok_0;
                        assert(body_pre + (b@ + rest2) =~= body@ + rest2);
                    }
                }
            },
            ParsedInstruction::Op(o) => {
                let ghost sz = spec_op_bytes(o@);
                match emit_op(&mut body, o, &labels, off) {
                    Ok(_) => {},
                    Err(e) => {
                        return Err(e);
                    },
                }
                proof {
                    lemma_emit_op_len(o@, lv, off as int);
                    lemma_params_bytes_nonneg(
                        spec_op_parts(o@).1,
                        0,
                        spec_dir_size_four(spec_op_parts(o@).0),
                    );
                }
                let add = op_bytes(o);
                off = off + add;
                proof {
                    let ob = spec_emit_op(o@, lv, (off - add) as int)->Ok_0;
                    if spec_emit_body(iv, k + 1, off as int, lv) is Ok {
                        let rest2 = spec_emit_body(iv, k + 1, off as int, lv)->Ok_0;
                        assert(body_pre + (ob + rest2) =~= (body_pre + ob) + rest2);
                    }
                }
            },
        }
        k += 1;
    }
    proof {
        assert(spec_emit_body(iv, iv.len() as int, off as int, lv) == Ok::<
            Seq<u8>,
            SpecEncodeError,
        >(Seq::empty()));
        assert(body@ + Seq::<u8>::empty() =~= body@);
    }
    // The header, then the body.
    let mut out: Vec<u8> = Vec::new();
    push_be4(&mut out, COREWAR_EXEC_MAGIC);
    push_bytes(&mut out, &champion.name);
    push_zeros(&mut out, PROG_NAME_LENGTH - champion.name.len());
    push_zeros(&mut out, 4);
    push_be4(&mut out, size as u32);
    push_bytes(&mut out, &champion.comment);
    push_zeros(&mut out, COMMENT_LENGTH - champion.comment.len());
    push_zeros(&mut out, 4);
    push_bytes(&mut out, &body);
    proof {
        let image = spec_write_champion(champion.name@, champion.comment@, iv)->Ok_0;
        assert(Seq::new(4nat, |i: int| 0u8) =~= seq![0u8, 0u8, 0u8, 0u8]);
        assert(spec_padded(champion.name@, PROG_NAME_LENGTH as int) =~= champion.name@
            + Seq::new((PROG_NAME_LENGTH - champion.name@.len()) as nat, |i: int| 0u8));
        assert(spec_padded(champion.comment@, COMMENT_LENGTH as int) =~= champion.comment@
            + Seq::new((COMMENT_LENGTH - champion.comment@.len()) as nat, |i: int| 0u8));
        assert(out@ =~= image);
    }
    Ok(out)
}

} // verus!


