//! Tournament constants shared by the assembler, the encoder, the decoder
//! and the virtual machine.

use vstd::prelude::*;

verus! {

/// Number of byte cells in the circular arena.
pub const MEM_SIZE: usize = 6144;

/// Short-range addressing modulus: most addressing instructions reduce their
/// offsets modulo this before adding them to the program counter.
pub const IDX_MOD: usize = 512;

/// Initial value of `cycles_to_die`, the liveness window.
pub const CYCLE_TO_DIE: u32 = 1536;

/// Amount by which `cycles_to_die` shrinks.
pub const CYCLE_DELTA: u32 = 50;

/// Number of live calls within one window that triggers a shrink.
pub const NBR_LIVE: u32 = 21;

/// Number of checks without a shrink after which one is forced.
pub const MAX_CHECKS: u32 = 10;

/// Number of registers per process.
pub const REG_COUNT: usize = 16;

/// Maximum number of operands an instruction can carry.
pub const MAX_PARAMS: usize = 3;

/// Byte length of the champion name field in a byte-code header.
pub const PROG_NAME_LENGTH: usize = 128;

/// Byte length of the champion comment field in a byte-code header.
pub const COMMENT_LENGTH: usize = 2048;

/// Total byte length of a byte-code header:
/// magic, name, reserved, body size, comment, reserved.
pub const HEADER_SIZE: usize = 2192;

/// Magic number opening every champion byte-code file, stored big-endian.
pub const COREWAR_EXEC_MAGIC: u32 = 0xea83f3;

/// Maximum byte length of a champion's body.
pub const CHAMP_MAX_SIZE: usize = 1024;

/// Byte length of a four-byte direct operand.
pub const DIR_SIZE: usize = 4;

/// A player's identity: a positive signed integer, stamped into memory
/// cells on every write; 0 marks an untouched cell.
pub type PlayerId = i32;

/// A process identity, drawn from the virtual machine's monotonic pool.
pub type Pid = u64;

/// Operand-type mask bit for registers.
pub const T_REG: u8 = 1;

/// Operand-type mask bit for direct operands.
pub const T_DIR: u8 = 2;

/// Operand-type mask bit for indirect operands.
pub const T_IND: u8 = 4;

/// The sixteen opcodes of the instruction set.
#[derive(Clone, Copy, Debug, PartialEq, Eq, Structural)]
pub enum OpType {
    Live,
    Ld,
    St,
    Add,
    Sub,
    And,
    Or,
    Xor,
    Zjmp,
    Ldi,
    Sti,
    Fork,
    Lld,
    Lldi,
    Lfork,
    Aff,
}

/// Static properties of one opcode: its code byte, whether an operand
/// coding byte follows it, whether its direct operands take four bytes,
/// how many cycles it costs, and the allowed type masks of its operands.
pub struct OpSpec {
    pub code: u8,
    pub has_ocp: bool,
    pub dir_size_four: bool,
    pub cycles: u32,
    pub param_count: usize,
    pub param_masks: [u8; 3],
}

/// The opcode byte of `op`.
pub open spec fn spec_op_code(op: OpType) -> u8 {
    match op {
        OpType::Live => 1,
        OpType::Ld => 2,
        OpType::St => 3,
        OpType::Add => 4,
        OpType::Sub => 5,
        OpType::And => 6,
        OpType::Or => 7,
        OpType::Xor => 8,
        OpType::Zjmp => 9,
        OpType::Ldi => 10,
        OpType::Sti => 11,
        OpType::Fork => 12,
        OpType::Lld => 13,
        OpType::Lldi => 14,
        OpType::Lfork => 15,
        OpType::Aff => 16,
    }
}

/// Whether an operand coding byte follows the opcode byte of `op`.
pub open spec fn spec_has_ocp(op: OpType) -> bool {
    match op {
        OpType::Live | OpType::Zjmp | OpType::Fork | OpType::Lfork => false,
        _ => true,
    }
}

/// Whether direct operands of `op` are encoded on four bytes (else two).
pub open spec fn spec_dir_size_four(op: OpType) -> bool {
    match op {
        OpType::Zjmp | OpType::Ldi | OpType::Sti | OpType::Fork | OpType::Lldi
        | OpType::Lfork => false,
        _ => true,
    }
}

/// Cycle cost of `op`.
pub open spec fn spec_op_cycles(op: OpType) -> u32 {
    match op {
        OpType::Live => 10,
        OpType::Ld => 5,
        OpType::St => 5,
        OpType::Add => 10,
        OpType::Sub => 10,
        OpType::And => 6,
        OpType::Or => 6,
        OpType::Xor => 6,
        OpType::Zjmp => 20,
        OpType::Ldi => 25,
        OpType::Sti => 25,
        OpType::Fork => 800,
        OpType::Lld => 10,
        OpType::Lldi => 50,
        OpType::Lfork => 1000,
        OpType::Aff => 2,
    }
}

/// Number of operands of `op`.
pub open spec fn spec_param_count(op: OpType) -> usize {
    match op {
        OpType::Live | OpType::Zjmp | OpType::Fork | OpType::Lfork | OpType::Aff => 1,
        OpType::Ld | OpType::St | OpType::Lld => 2,
        _ => 3,
    }
}

/// Allowed operand-type mask of operand `i` of `op` (0 where `i` is past
/// the operand count).
pub open spec fn spec_param_mask(op: OpType, i: int) -> u8 {
    let masks: Seq<u8> = match op {
        OpType::Live => seq![T_DIR, 0, 0],
        OpType::Ld => seq![(T_DIR | T_IND) as u8, T_REG, 0],
        OpType::St => seq![T_REG, (T_REG | T_IND) as u8, 0],
        OpType::Add => seq![T_REG, T_REG, T_REG],
        OpType::Sub => seq![T_REG, T_REG, T_REG],
        OpType::And => seq![
            (T_REG | T_DIR | T_IND) as u8,
            (T_REG | T_DIR | T_IND) as u8,
            T_REG,
        ],
        OpType::Or => seq![
            (T_REG | T_DIR | T_IND) as u8,
            (T_REG | T_DIR | T_IND) as u8,
            T_REG,
        ],
        OpType::Xor => seq![
            (T_REG | T_DIR | T_IND) as u8,
            (T_REG | T_DIR | T_IND) as u8,
            T_REG,
        ],
        OpType::Zjmp => seq![T_DIR, 0, 0],
        OpType::Ldi => seq![
            (T_REG | T_DIR | T_IND) as u8,
            (T_REG | T_DIR) as u8,
            T_REG,
        ],
        OpType::Sti => seq![
            T_REG,
            (T_REG | T_DIR | T_IND) as u8,
            (T_REG | T_DIR) as u8,
        ],
        OpType::Fork => seq![T_DIR, 0, 0],
        OpType::Lld => seq![(T_DIR | T_IND) as u8, T_REG, 0],
        OpType::Lldi => seq![
            (T_REG | T_DIR | T_IND) as u8,
            (T_REG | T_DIR) as u8,
            T_REG,
        ],
        OpType::Lfork => seq![T_DIR, 0, 0],
        OpType::Aff => seq![T_REG, 0, 0],
    };
    if 0 <= i < 3 {
        masks[i]
    } else {
        0
    }
}

/// The full property record of `op`: one row of the instruction table.
pub fn op_spec(op: OpType) -> (r: OpSpec)
    ensures
        r.code == spec_op_code(op),
        r.has_ocp == spec_has_ocp(op),
        r.dir_size_four == spec_dir_size_four(op),
        r.cycles == spec_op_cycles(op),
        r.cycles >= 2,
        r.param_count == spec_param_count(op),
        r.param_count >= 1 && r.param_count <= 3,
        forall|i: int| 0 <= i < 3 ==> r.param_masks@[i] == spec_param_mask(op, i),
{
    let (code, has_ocp, dir_size_four, cycles): (u8, bool, bool, u32) = match op {
        OpType::Live => (1, false, true, 10),
        OpType::Ld => (2, true, true, 5),
        OpType::St => (3, true, true, 5),
        OpType::Add => (4, true, true, 10),
        OpType::Sub => (5, true, true, 10),
        OpType::And => (6, true, true, 6),
        OpType::Or => (7, true, true, 6),
        OpType::Xor => (8, true, true, 6),
        OpType::Zjmp => (9, false, false, 20),
        OpType::Ldi => (10, true, false, 25),
        OpType::Sti => (11, true, false, 25),
        OpType::Fork => (12, false, false, 800),
        OpType::Lld => (13, true, true, 10),
        OpType::Lldi => (14, true, false, 50),
        OpType::Lfork => (15, false, false, 1000),
        OpType::Aff => (16, true, true, 2),
    };
    let (param_count, param_masks): (usize, [u8; 3]) = match op {
        OpType::Live => (1, [T_DIR, 0, 0]),
        OpType::Ld => (2, [T_DIR | T_IND, T_REG, 0]),
        OpType::St => (2, [T_REG, T_REG | T_IND, 0]),
        OpType::Add => (3, [T_REG, T_REG, T_REG]),
        OpType::Sub => (3, [T_REG, T_REG, T_REG]),
        OpType::And => (3, [T_REG | T_DIR | T_IND, T_REG | T_DIR | T_IND, T_REG]),
        OpType::Or => (3, [T_REG | T_DIR | T_IND, T_REG | T_DIR | T_IND, T_REG]),
        OpType::Xor => (3, [T_REG | T_DIR | T_IND, T_REG | T_DIR | T_IND, T_REG]),
        OpType::Zjmp => (1, [T_DIR, 0, 0]),
        OpType::Ldi => (3, [T_REG | T_DIR | T_IND, T_REG | T_DIR, T_REG]),
        OpType::Sti => (3, [T_REG, T_REG | T_DIR | T_IND, T_REG | T_DIR]),
        OpType::Fork => (1, [T_DIR, 0, 0]),
        OpType::Lld => (2, [T_DIR | T_IND, T_REG, 0]),
        OpType::Lldi => (3, [T_REG | T_DIR | T_IND, T_REG | T_DIR, T_REG]),
        OpType::Lfork => (1, [T_DIR, 0, 0]),
        OpType::Aff => (1, [T_REG, 0, 0]),
    };
    OpSpec { code, has_ocp, dir_size_four, cycles, param_count, param_masks }
}

/// Maps an opcode byte back to its opcode; `None` for bytes outside 1..=16.
pub open spec fn spec_op_from_code(code: u8) -> Option<OpType> {
    if code == 1 {
        Some(OpType::Live)
    } else if code == 2 {
        Some(OpType::Ld)
    } else if code == 3 {
        Some(OpType::St)
    } else if code == 4 {
        Some(OpType::Add)
    } else if code == 5 {
        Some(OpType::Sub)
    } else if code == 6 {
        Some(OpType::And)
    } else if code == 7 {
        Some(OpType::Or)
    } else if code == 8 {
        Some(OpType::Xor)
    } else if code == 9 {
        Some(OpType::Zjmp)
    } else if code == 10 {
        Some(OpType::Ldi)
    } else if code == 11 {
        Some(OpType::Sti)
    } else if code == 12 {
        Some(OpType::Fork)
    } else if code == 13 {
        Some(OpType::Lld)
    } else if code == 14 {
        Some(OpType::Lldi)
    } else if code == 15 {
        Some(OpType::Lfork)
    } else if code == 16 {
        Some(OpType::Aff)
    } else {
        None
    }
}

/// Inverse of the opcode table: every opcode is found again from its code byte.
pub proof fn lemma_op_code_round_trip(op: OpType)
    ensures
        spec_op_from_code(spec_op_code(op)) == Some(op),
{
}

} // verus!
