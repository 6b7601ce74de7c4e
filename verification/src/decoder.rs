//! The decoder: reads one typed instruction out of the arena at an
//! address, validating the operand coding byte and register numbers.

use vstd::prelude::*;
use crate::defs::{
    spec_dir_size_four, spec_has_ocp, spec_op_from_code, spec_param_count, spec_param_mask,
    op_spec, OpType, MEM_SIZE, T_DIR, T_IND, T_REG,
};
use crate::memory::Memory;
use crate::be::{spec_i16_be, spec_i32_be};

verus! {

/// A decoded operand.
#[derive(Clone, Copy, Debug, PartialEq, Eq, Structural)]
pub enum Param {
    /// A register number in `1..=16`.
    Register(u8),
    /// A literal value; sign-extended where the encoding is two bytes.
    Direct(i32),
    /// An offset to read through, two bytes.
    Indirect(i16),
}

/// A decoded instruction: its opcode, its operands in order, and how many
/// bytes it spans (opcode and coding byte included).
#[derive(Debug)]
pub struct Instruction {
    pub kind: OpType,
    pub params: Vec<Param>,
    pub byte_size: usize,
}

/// Why a decode failed; the virtual machine treats any of these as a
/// one-byte no-op.
#[derive(Clone, Copy, Debug, PartialEq, Eq, Structural)]
pub enum DecodeError {
    InvalidOpCode(u8),
    InvalidOCP(u8),
    InvalidRegNumber(u8),
}

/// The opcode at `pc`, or the offending byte.
pub open spec fn spec_decode_op(mem: Memory, pc: int) -> Result<OpType, DecodeError> {
    match spec_op_from_code(mem.spec_cell(pc)) {
        Some(op) => Ok(op),
        None => Err(DecodeError::InvalidOpCode(mem.spec_cell(pc))),
    }
}

/// Reads the opcode byte at `pc`; codes outside `1..=16` are errors.
pub fn decode_op(mem: &Memory, pc: usize) -> (r: Result<OpType, DecodeError>)
    requires
        mem.wf(),
    ensures
        r == spec_decode_op(*mem, pc as int),
{
    let b = mem.read(pc);
    match b {
        1 => Ok(OpType::Live),
        2 => Ok(OpType::Ld),
        3 => Ok(OpType::St),
        4 => Ok(OpType::Add),
        5 => Ok(OpType::Sub),
        6 => Ok(OpType::And),
        7 => Ok(OpType::Or),
        8 => Ok(OpType::Xor),
        9 => Ok(OpType::Zjmp),
        10 => Ok(OpType::Ldi),
        11 => Ok(OpType::Sti),
        12 => Ok(OpType::Fork),
        13 => Ok(OpType::Lld),
        14 => Ok(OpType::Lldi),
        15 => Ok(OpType::Lfork),
        16 => Ok(OpType::Aff),
        _ => Err(DecodeError::InvalidOpCode(b)),
    }
}

/// The two-bit code of operand slot `i` of a coding byte, high slot first.
pub open spec fn spec_slot_code(ocp: u8, i: int) -> int {
    if i == 0 {
        (ocp as int) / 64
    } else if i == 1 {
        ((ocp as int) / 16) % 4
    } else {
        ((ocp as int) / 4) % 4
    }
}

/// The operand-type bit a two-bit code names: `01` register, `10` direct,
/// `11` indirect; 0 for the invalid code `00`.
pub open spec fn spec_code_bit(c: int) -> u8 {
    if c == 1 {
        T_REG
    } else if c == 2 {
        T_DIR
    } else if c == 3 {
        T_IND
    } else {
        0
    }
}

/// Whether the bits of the coding byte past the operand slots are zero.
pub open spec fn spec_ocp_low_zero(ocp: u8, count: int) -> bool {
    if count == 1 {
        ocp % 64 == 0
    } else if count == 2 {
        ocp % 16 == 0
    } else {
        ocp % 4 == 0
    }
}

/// The operand-type bits an instruction's operands take: read from the
/// coding byte where the opcode carries one (each slot valid and allowed
/// by the opcode's table), the table's unambiguous masks otherwise.
pub open spec fn spec_param_kinds(op: OpType, ocp: u8) -> Result<Seq<u8>, DecodeError> {
    let count = spec_param_count(op) as int;
    if !spec_has_ocp(op) {
        Ok(Seq::new(count as nat, |i: int| spec_param_mask(op, i)))
    } else if !spec_ocp_low_zero(ocp, count) {
        Err(DecodeError::InvalidOCP(ocp))
    } else {
        spec_kinds_from(op, ocp, 0)
    }
}

/// Slots `i` and beyond of the coding byte, validated left to right.
pub open spec fn spec_kinds_from(op: OpType, ocp: u8, i: int) -> Result<Seq<u8>, DecodeError>
    decreases spec_param_count(op) as int - i,
{
    if !(0 <= i < spec_param_count(op) as int) {
        Ok(Seq::empty())
    } else {
        let bit = spec_code_bit(spec_slot_code(ocp, i));
        if bit == 0 {
            Err(DecodeError::InvalidOCP(ocp))
        } else if bit & spec_param_mask(op, i) == 0 {
            Err(DecodeError::InvalidOCP(ocp))
        } else {
            match spec_kinds_from(op, ocp, i + 1) {
                Err(e) => Err(e),
                Ok(rest) => Ok(seq![bit] + rest),
            }
        }
    }
}

/// The operands read from `off` on, each by its type bit, with the
/// position after them: registers one byte in `1..=16`, direct operands
/// four or two bytes by the opcode, indirect operands two bytes.
pub open spec fn spec_read_params(
    mem: Memory,
    kinds: Seq<u8>,
    i: int,
    off: int,
    dir4: bool,
) -> Result<(Seq<Param>, int), DecodeError>
    decreases kinds.len() - i,
{
    if !(0 <= i < kinds.len()) {
        Ok((Seq::empty(), off))
    } else {
        let k = kinds[i];
        if k == T_REG {
            let b = mem.spec_cell(off);
            if b == 0 || b > 16 {
                Err(DecodeError::InvalidRegNumber(b))
            } else {
                match spec_read_params(mem, kinds, i + 1, off + 1, dir4) {
                    Err(e) => Err(e),
                    Ok((rest, fin)) => Ok((seq![Param::Register(b)] + rest, fin)),
                }
            }
        } else if k == T_DIR && dir4 {
            let v = spec_i32_be(
                mem.spec_cell(off),
                mem.spec_cell(off + 1),
                mem.spec_cell(off + 2),
                mem.spec_cell(off + 3),
            );
            match spec_read_params(mem, kinds, i + 1, off + 4, dir4) {
                Err(e) => Err(e),
                Ok((rest, fin)) => Ok((seq![Param::Direct(v as i32)] + rest, fin)),
            }
        } else if k == T_DIR {
            let v = spec_i16_be(mem.spec_cell(off), mem.spec_cell(off + 1));
            match spec_read_params(mem, kinds, i + 1, off + 2, dir4) {
                Err(e) => Err(e),
                Ok((rest, fin)) => Ok((seq![Param::Direct(v as i32)] + rest, fin)),
            }
        } else {
            let v = spec_i16_be(mem.spec_cell(off), mem.spec_cell(off + 1));
            match spec_read_params(mem, kinds, i + 1, off + 2, dir4) {
                Err(e) => Err(e),
                Ok((rest, fin)) => Ok((seq![Param::Indirect(v as i16)] + rest, fin)),
            }
        }
    }
}

/// The whole decode of `op`'s operands at `pc`: the coding byte follows
/// the opcode byte where the opcode carries one, then the operands.
pub open spec fn spec_decode_instr(mem: Memory, op: OpType, pc: int) -> Result<
    (Seq<Param>, int),
    DecodeError,
> {
    let head = if spec_has_ocp(op) {
        2int
    } else {
        1int
    };
    match spec_param_kinds(op, mem.spec_cell(pc + 1)) {
        Err(e) => Err(e),
        Ok(kinds) => spec_read_params(mem, kinds, 0, pc + head, spec_dir_size_four(op)),
    }
}

/// Decodes the full instruction for `op` at `pc`: its operands and its
/// byte size, or the fault that makes the machine skip one byte.
pub fn decode_instr(mem: &Memory, op: OpType, pc: usize) -> (r: Result<Instruction, DecodeError>)
    requires
        mem.wf(),
        pc < MEM_SIZE,
    ensures
        match (r, spec_decode_instr(*mem, op, pc as int)) {
            (Ok(instr), Ok((ps, fin))) => instr.kind == op && instr.params@ == ps
                && instr.byte_size as int == fin - pc && instr.byte_size <= 14,
            (Err(e), Err(se)) => e == se,
            _ => false,
        },
{
    let os = op_spec(op);
    let ghost count = spec_param_count(op) as int;
    let mut kinds: Vec<u8> = Vec::new();
    let head: usize;
    if os.has_ocp {
        let ocp = mem.read(pc + 1);
        head = 2;
        let low_ok = if os.param_count == 1 {
            ocp % 64 == 0
        } else if os.param_count == 2 {
            ocp % 16 == 0
        } else {
            ocp % 4 == 0
        };
        if !low_ok {
            return Err(DecodeError::InvalidOCP(ocp));
        }
        proof {
            if spec_kinds_from(op, ocp, 0) is Ok {
                assert(Seq::<u8>::empty() + spec_kinds_from(op, ocp, 0)->Ok_0
                    =~= spec_kinds_from(op, ocp, 0)->Ok_0);
            }
        }
        let mut i: usize = 0;
        while i < os.param_count
            invariant
                mem.wf(),
                i <= os.param_count,
                os.param_count == spec_param_count(op),
                os.has_ocp == spec_has_ocp(op),
                os.has_ocp,
                spec_ocp_low_zero(ocp, os.param_count as int),
                forall|j: int| 0 <= j < 3 ==> os.param_masks@[j] == spec_param_mask(op, j),
                ocp == mem.spec_cell(pc as int + 1),
                kinds@.len() == i,
                (match spec_kinds_from(op, ocp, i as int) {
                    Ok(rest) => spec_kinds_from(op, ocp, 0) == Ok::<Seq<u8>, DecodeError>(
                        kinds@ + rest,
                    ),
                    Err(e) => spec_kinds_from(op, ocp, 0) == Err::<Seq<u8>, DecodeError>(e),
                }),
            decreases os.param_count - i,
        {
            let c: u8 = if i == 0 {
                ocp / 64
            } else if i == 1 {
                (ocp / 16) % 4
            } else {
                (ocp / 4) % 4
            };
            let bit: u8 = if c == 1 {
                T_REG
            } else if c == 2 {
                T_DIR
            } else if c == 3 {
                T_IND
            } else {
                0
            };
            if bit == 0 {
                return Err(DecodeError::InvalidOCP(ocp));
            }
            if bit & os.param_masks[i] == 0 {
                return Err(DecodeError::InvalidOCP(ocp));
            }
            proof {
                assert(kinds@.push(bit) =~= kinds@ + seq![bit]);
                if spec_kinds_from(op, ocp, i as int + 1) is Ok {
                    let rest = spec_kinds_from(op, ocp, i as int)->Ok_0;
                    let rest2 = spec_kinds_from(op, ocp, i as int + 1)->Ok_0;
                    assert(kinds@ + rest =~= (kinds@ + seq![bit]) + rest2);
                }
            }
            kinds.push(bit);
            i += 1;
        }
        proof {
            assert(spec_kinds_from(op, ocp, count) == Ok::<Seq<u8>, DecodeError>(Seq::empty()));
            assert(kinds@ + Seq::<u8>::empty() =~= kinds@);
        }
    } else {
        head = 1;
        let mut i: usize = 0;
        while i < os.param_count
            invariant
                i <= os.param_count,
                os.param_count == spec_param_count(op),
                forall|j: int| 0 <= j < 3 ==> os.param_masks@[j] == spec_param_mask(op, j),
                kinds@.len() == i,
                forall|j: int| 0 <= j < i ==> kinds@[j] == spec_param_mask(op, j),
            decreases os.param_count - i,
        {
            kinds.push(os.param_masks[i]);
            i += 1;
        }
        proof {
            assert(kinds@ =~= Seq::new(count as nat, |j: int| spec_param_mask(op, j)));
        }
    }
    let ghost ocp_ghost = mem.spec_cell(pc as int + 1);
    proof {
        assert(match spec_param_kinds(op, ocp_ghost) {
            Ok(ks) => ks == kinds@,
            Err(_) => false,
        });
    }
    // Read the operands.
    let mut params: Vec<Param> = Vec::new();
    let mut off: usize = pc + head;
    proof {
        if spec_read_params(*mem, kinds@, 0, (pc + head) as int, os.dir_size_four) is Ok {
            let rest0 = spec_read_params(*mem, kinds@, 0, (pc + head) as int,
                os.dir_size_four)->Ok_0.0;
            assert(Seq::<Param>::empty() + rest0 =~= rest0);
        }
    }
    let mut i: usize = 0;
    while i < kinds.len()
        invariant
            mem.wf(),
            i <= kinds@.len(),
            kinds@.len() <= 3,
            pc < MEM_SIZE,
            pc + head <= off <= pc + head + 4 * i,
            head <= 2,
            head as int == if spec_has_ocp(op) {
                2int
            } else {
                1int
            },
            spec_param_kinds(op, mem.spec_cell(pc as int + 1)) == Ok::<Seq<u8>, DecodeError>(
                kinds@,
            ),
            os.dir_size_four == spec_dir_size_four(op),
            params@.len() == i,
            (match spec_read_params(*mem, kinds@, i as int, off as int, os.dir_size_four) {
                Ok((rest, fin)) => spec_read_params(
                    *mem,
                    kinds@,
                    0,
                    pc + head,
                    os.dir_size_four,
                ) == Ok::<(Seq<Param>, int), DecodeError>((params@ + rest, fin)),
                Err(e) => spec_read_params(*mem, kinds@, 0, pc + head, os.dir_size_four)
                    == Err::<(Seq<Param>, int), DecodeError>(e),
            }),
        decreases kinds@.len() - i,
    {
        let k = kinds[i];
        if k == T_REG {
            let b = mem.read(off);
            if b == 0 || b > 16 {
                return Err(DecodeError::InvalidRegNumber(b));
            }
            proof {
                assert(params@.push(Param::Register(b)) =~= params@ + seq![Param::Register(b)]);
                if spec_read_params(*mem, kinds@, i + 1, off + 1, os.dir_size_four) is Ok {
                    let rest = spec_read_params(*mem, kinds@, i as int, off as int,
                        os.dir_size_four)->Ok_0.0;
                    let rest2 = spec_read_params(*mem, kinds@, i + 1, off + 1,
                        os.dir_size_four)->Ok_0.0;
                    assert(params@ + rest =~= (params@ + seq![Param::Register(b)]) + rest2);
                }
            }
            params.push(Param::Register(b));
            off = off + 1;
        } else if k == T_DIR && os.dir_size_four {
            let v = mem.read_i32(off);
            proof {
                assert(params@.push(Param::Direct(v)) =~= params@ + seq![Param::Direct(v)]);
                if spec_read_params(*mem, kinds@, i + 1, off + 4, os.dir_size_four) is Ok {
                    let rest = spec_read_params(*mem, kinds@, i as int, off as int,
                        os.dir_size_four)->Ok_0.0;
                    let rest2 = spec_read_params(*mem, kinds@, i + 1, off + 4,
                        os.dir_size_four)->Ok_0.0;
                    assert(params@ + rest =~= (params@ + seq![Param::Direct(v)]) + rest2);
                }
            }
            params.push(Param::Direct(v));
            off = off + 4;
        } else if k == T_DIR {
            let v16 = mem.read_i16(off);
            let v: i32 = v16 as i32;
            proof {
                assert(params@.push(Param::Direct(v)) =~= params@ + seq![Param::Direct(v)]);
                if spec_read_params(*mem, kinds@, i + 1, off + 2, os.dir_size_four) is Ok {
                    let rest = spec_read_params(*mem, kinds@, i as int, off as int,
                        os.dir_size_four)->Ok_0.0;
                    let rest2 = spec_read_params(*mem, kinds@, i + 1, off + 2,
                        os.dir_size_four)->Ok_0.0;
                    assert(params@ + rest =~= (params@ + seq![Param::Direct(v)]) + rest2);
                }
            }
            params.push(Param::Direct(v));
            off = off + 2;
        } else {
            let v = mem.read_i16(off);
            proof {
                assert(params@.push(Param::Indirect(v)) =~= params@ + seq![Param::Indirect(v)]);
                if spec_read_params(*mem, kinds@, i + 1, off + 2, os.dir_size_four) is Ok {
                    let rest = spec_read_params(*mem, kinds@, i as int, off as int,
                        os.dir_size_four)->Ok_0.0;
                    let rest2 = spec_read_params(*mem, kinds@, i + 1, off + 2,
                        os.dir_size_four)->Ok_0.0;
                    assert(params@ + rest =~= (params@ + seq![Param::Indirect(v)]) + rest2);
                }
            }
            params.push(Param::Indirect(v));
            off = off + 2;
        }
        i += 1;
    }
    proof {
        assert(spec_read_params(*mem, kinds@, kinds@.len() as int, off as int, os.dir_size_four)
            == Ok::<(Seq<Param>, int), DecodeError>((Seq::empty(), off as int)));
        assert(params@ + Seq::<Param>::empty() =~= params@);
    }
    let byte_size = off - pc;
    Ok(Instruction { kind: op, params, byte_size })
}

} // verus!
