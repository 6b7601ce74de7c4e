//! The instruction executors: the semantics of each opcode over a
//! process, the arena, and the tick's scratch state.

use vstd::prelude::*;
use vstd::wrapping::i32_specs;
use crate::defs::{OpType, PlayerId, IDX_MOD, MEM_SIZE, REG_COUNT};
use crate::decoder::{Instruction, Param};
use crate::ext::{live_set_contents, live_set_insert};
use crate::memory::{spec_store, Memory, FRESH_AGE};
use crate::pc::{spec_mem_offset, spec_trunc_mod, ProgramCounter, OffsetType};
use crate::process::{PidPool, Process, ProcessState};
use crate::be::{spec_be4, spec_i16_be, spec_i32_be, spec_u32_of_i32};
use crate::vm::ages_stable;

verus! {

/// Everything of a process except its registers and carry flag.
pub open spec fn same_frame(a: Process, b: Process) -> bool {
    &&& b.pid == a.pid
    &&& b.player_id == a.player_id
    &&& b.pc == a.pc
    &&& b.last_live_cycle == a.last_live_cycle
    &&& b.state == a.state
}

/// The address an offset operand reaches from `pc`: the offset is reduced
/// sign-preserving modulo `IDX_MOD`, or modulo the arena for long-range
/// opcodes.
pub open spec fn spec_reach_addr(pc: int, v: int, long: bool) -> int {
    spec_mem_offset(
        pc,
        spec_trunc_mod(
            v,
            if long {
                MEM_SIZE as int
            } else {
                IDX_MOD as int
            },
        ),
    )
}

/// The value an operand evaluates to: a register's content (an invalid
/// number reading as 0), a direct literal, or the arena read through an
/// indirect offset: four bytes for long-range opcodes, two otherwise.
pub open spec fn spec_eval(p: Param, proc: Process, mem: Memory, long: bool) -> int {
    match p {
        Param::Register(n) => if 1 <= n <= REG_COUNT {
            proc.registers@[n - 1] as int
        } else {
            0
        },
        Param::Direct(v) => v as int,
        Param::Indirect(v) => {
            let addr = spec_reach_addr(proc.pc as int, v as int, long);
            if long {
                spec_i32_be(
                    mem.spec_cell(addr),
                    mem.spec_cell(addr + 1),
                    mem.spec_cell(addr + 2),
                    mem.spec_cell(addr + 3),
                )
            } else {
                spec_i16_be(mem.spec_cell(addr), mem.spec_cell(addr + 1))
            }
        },
    }
}

/// Evaluates one operand.
fn eval_param(p: &Param, proc: &Process, mem: &Memory, long: bool) -> (r: i32)
    requires
        mem.wf(),
        proc.wf(),
    ensures
        r as int == spec_eval(*p, *proc, *mem, long),
{
    match p {
        Param::Register(n) => {
            if 1 <= *n && *n <= 16 {
                proc.registers[(*n - 1) as usize]
            } else {
                0
            }
        },
        Param::Direct(v) => *v,
        Param::Indirect(v) => {
            let counter = ProgramCounter(proc.pc);
            let addr = counter.offset(
                *v as isize,
                if long {
                    OffsetType::Long
                } else {
                    OffsetType::Limited
                },
            );
            if long {
                mem.read_i32(addr)
            } else {
                mem.read_i16(addr) as i32
            }
        },
    }
}

/// Writes a register, numbers outside `1..=16` writing nowhere.
fn reg_write(proc: &mut Process, n: u8, v: i32)
    ensures
        same_frame(*old(proc), *final(proc)),
        final(proc).zf == old(proc).zf,
        1 <= n <= REG_COUNT ==> final(proc).registers@ == old(proc).registers@.update(
            n - 1,
            v,
        ),
        !(1 <= n <= REG_COUNT) ==> final(proc).registers@ == old(proc).registers@,
{
    if 1 <= n && n <= 16 {
        proc.registers[(n - 1) as usize] = v;
    }
}

/// The effect of `live %n`, the counter untouched: the id joins the
/// tick's lives, the live counter grows by one (saturating), and a
/// process of a real player refreshes its life cycle.
pub open spec fn spec_live_effect(
    instr: Instruction,
    p0: Process,
    p1: Process,
    lc0: u32,
    lc1: u32,
    s0: Set<int>,
    s1: Set<int>,
    cycle: u32,
    ids: Seq<PlayerId>,
) -> bool {
    if instr.params@.len() < 1 {
        p1 == p0 && lc1 == lc0 && s1 == s0
    } else {
        match instr.params@[0] {
            Param::Direct(n) => {
                &&& s1 == s0.insert(n as int)
                &&& lc1 == if lc0 < u32::MAX {
                    (lc0 + 1) as u32
                } else {
                    u32::MAX
                }
                &&& (ids.contains(n) ==> p1.last_live_cycle == cycle)
                &&& (!ids.contains(n) ==> p1.last_live_cycle == p0.last_live_cycle)
                &&& p1.registers == p0.registers
                &&& p1.zf == p0.zf
                &&& p1.pc == p0.pc
                &&& p1.pid == p0.pid
                &&& p1.player_id == p0.player_id
                &&& p1.state == p0.state
            },
            _ => p1 == p0 && lc1 == lc0 && s1 == s0,
        }
    }
}

/// `live %n`: the id is recorded among this tick's lives; a process of a
/// real player refreshes its life cycle; the live counter grows by one,
/// saturating.
pub fn exec_live(
    instr: &Instruction,
    proc: &mut Process,
    cycle: u32,
    live_count: &mut u32,
    lives: &mut linked_hash_set::LinkedHashSet<PlayerId>,
    player_ids: &Vec<PlayerId>,
)
    requires
        instr.kind is Live,
    ensures
        spec_live_effect(
            *instr,
            *old(proc),
            *final(proc),
            *old(live_count),
            *final(live_count),
            live_set_contents(*old(lives)),
            live_set_contents(*final(lives)),
            cycle,
            player_ids@,
        ),
{
    if instr.params.len() < 1 {
        return;
    }
    match instr.params[0] {
        Param::Direct(n) => {
            live_set_insert(lives, n);
            *live_count = live_count.saturating_add(1);
            let mut found = false;
            let mut i: usize = 0;
            while i < player_ids.len()
                invariant
                    i <= player_ids@.len(),
                    found == exists|j: int| 0 <= j < i && player_ids@[j] == n,
                decreases player_ids@.len() - i,
            {
                if player_ids[i] == n {
                    found = true;
                }
                i += 1;
            }
            if found {
                proc.last_live_cycle = cycle;
            }
        },
        _ => {},
    }
}

/// The effect of `ld`/`lld`, the counter untouched: the destination
/// register takes the 32-bit value the source names, and the carry says
/// whether it is zero.
pub open spec fn spec_ld_effect(
    instr: Instruction,
    p0: Process,
    p1: Process,
    mem: Memory,
    long: bool,
) -> bool {
    &&& same_frame(p0, p1)
    &&& (instr.params@.len() < 2 ==> p1 == p0)
    &&& (instr.params@.len() >= 2 ==> (match (instr.params@[0], instr.params@[1]) {
        (Param::Register(_), _) => p1.registers == p0.registers && p1.zf == p0.zf,
        (src, Param::Register(rn)) => {
            let v = spec_ld_value(src, p0, mem, long);
            &&& (1 <= rn <= REG_COUNT ==> p1.registers@ == p0.registers@.update(rn - 1, v))
            &&& (!(1 <= rn <= REG_COUNT) ==> p1.registers@ == p0.registers@)
            &&& p1.zf == (v == 0)
        },
        _ => p1.registers == p0.registers && p1.zf == p0.zf,
    }))
}

/// `ld`/`lld`: loads the 32-bit value the source names into a register
/// and sets the carry to whether it is zero. An indirect source reads
/// four bytes at its reach address.
pub fn exec_ld(instr: &Instruction, proc: &mut Process, mem: &Memory, long: bool)
    requires
        mem.wf(),
        old(proc).wf(),
    ensures
        spec_ld_effect(*instr, *old(proc), *final(proc), *mem, long),
{
    if instr.params.len() < 2 {
        return;
    }
    let src = instr.params[0];
    let dst = instr.params[1];
    match (src, dst) {
        (Param::Register(_), _) => {},
        (_, Param::Register(rn)) => {
            let v: i32 = match src {
                Param::Direct(d) => d,
                Param::Indirect(ind) => {
                    let counter = ProgramCounter(proc.pc);
                    let addr = counter.offset(
                        ind as isize,
                        if long {
                            OffsetType::Long
                        } else {
                            OffsetType::Limited
                        },
                    );
                    mem.read_i32(addr)
                },
                Param::Register(_) => 0,
            };
            reg_write(proc, rn, v);
            proc.zf = v == 0;
        },
        _ => {},
    }
}

/// What a load's source operand yields: the literal, or the four bytes at
/// the indirect reach address.
pub open spec fn spec_ld_value(src: Param, proc: Process, mem: Memory, long: bool) -> i32 {
    match src {
        Param::Direct(d) => d,
        Param::Indirect(ind) => {
            let addr = spec_reach_addr(proc.pc as int, ind as int, long);
            spec_i32_be(
                mem.spec_cell(addr),
                mem.spec_cell(addr + 1),
                mem.spec_cell(addr + 2),
                mem.spec_cell(addr + 3),
            ) as i32
        },
        Param::Register(_) => 0,
    }
}

/// The effect of `st`, the counter untouched: a register copied into
/// another, or stored as four big-endian bytes at an indirect reach
/// address with the owner stamped.
pub open spec fn spec_st_effect(
    instr: Instruction,
    p0: Process,
    p1: Process,
    m0: Memory,
    m1: Memory,
) -> bool {
    &&& same_frame(p0, p1)
    &&& p1.zf == p0.zf
    &&& (instr.params@.len() < 2 ==> p1 == p0 && m1 == m0)
    &&& (instr.params@.len() >= 2 ==> (match (instr.params@[0], instr.params@[1]) {
        (Param::Register(rn), Param::Register(rm)) => {
            let v = spec_reg_value(p0, rn);
            &&& m1 == m0
            &&& (1 <= rm <= REG_COUNT ==> p1.registers@ == p0.registers@.update(rm - 1, v))
            &&& (!(1 <= rm <= REG_COUNT) ==> p1.registers@ == p0.registers@)
        },
        (Param::Register(rn), Param::Indirect(ind)) => {
            let v = spec_reg_value(p0, rn);
            let addr = spec_reach_addr(p0.pc as int, ind as int, false);
            &&& p1.registers == p0.registers
            &&& m1.values() == spec_store(m0.values(), addr, spec_be4(spec_u32_of_i32(v as int)))
            &&& m1.owners() == spec_store(m0.owners(), addr, Seq::new(4, |i: int| p0.player_id))
        },
        _ => m1 == m0 && p1.registers == p0.registers,
    }))
}

/// `st`: stores a register into another register, or as four big-endian
/// bytes at an indirect reach address, stamping age and owner.
pub fn exec_st(instr: &Instruction, proc: &mut Process, mem: &mut Memory)
    requires
        old(mem).wf(),
        old(proc).wf(),
    ensures
        final(mem).wf(),
        ages_stable(old(mem).ages(), final(mem).ages()),
        spec_st_effect(*instr, *old(proc), *final(proc), *old(mem), *final(mem)),
{
    if instr.params.len() < 2 {
        return;
    }
    let p0 = instr.params[0];
    let p1 = instr.params[1];
    match (p0, p1) {
        (Param::Register(rn), Param::Register(rm)) => {
            let v = reg_value(proc, rn);
            reg_write(proc, rm, v);
        },
        (Param::Register(rn), Param::Indirect(ind)) => {
            let v = reg_value(proc, rn);
            let counter = ProgramCounter(proc.pc);
            let addr = counter.offset(ind as isize, OffsetType::Limited);
            mem.write_i32(v, proc.player_id, addr);
            proof {
                crate::vm::lemma_const_store_stable(
                    old(mem).ages(),
                    addr as int,
                    Seq::new(4, |i: int| FRESH_AGE),
                );
            }
        },
        _ => {},
    }
}

/// The content of register `n`, 0 for numbers outside `1..=16`.
pub open spec fn spec_reg_value(proc: Process, n: u8) -> i32 {
    if 1 <= n <= REG_COUNT {
        proc.registers@[n - 1]
    } else {
        0
    }
}

/// Reads a register, numbers outside `1..=16` reading as 0.
fn reg_value(proc: &Process, n: u8) -> (r: i32)
    ensures
        r == spec_reg_value(*proc, n),
{
    if 1 <= n && n <= 16 {
        proc.registers[(n - 1) as usize]
    } else {
        0
    }
}

/// The effect of `add`/`sub`, the counter untouched: the third register
/// takes the two's-complement sum or difference of the first two, and
/// the carry says whether it is zero.
pub open spec fn spec_arith_effect(instr: Instruction, p0: Process, p1: Process, sub: bool) -> bool {
    &&& same_frame(p0, p1)
    &&& (instr.params@.len() < 3 ==> p1 == p0)
    &&& (instr.params@.len() >= 3 ==> (match (
        instr.params@[0],
        instr.params@[1],
        instr.params@[2],
    ) {
        (Param::Register(a), Param::Register(b), Param::Register(c)) => {
            let va = spec_reg_value(p0, a);
            let vb = spec_reg_value(p0, b);
            let v = if sub {
                i32_specs::wrapping_sub(va, vb)
            } else {
                i32_specs::wrapping_add(va, vb)
            };
            &&& (1 <= c <= REG_COUNT ==> p1.registers@ == p0.registers@.update(c - 1, v))
            &&& (!(1 <= c <= REG_COUNT) ==> p1.registers@ == p0.registers@)
            &&& p1.zf == (v == 0)
        },
        _ => p1.registers == p0.registers && p1.zf == p0.zf,
    }))
}

/// `add`/`sub`: third register takes the two's-complement sum or
/// difference of the first two; the carry says whether it is zero.
pub fn exec_arith(instr: &Instruction, proc: &mut Process, sub: bool)
    requires
        old(proc).wf(),
    ensures
        spec_arith_effect(*instr, *old(proc), *final(proc), sub),
{
    if instr.params.len() < 3 {
        return;
    }
    match (instr.params[0], instr.params[1], instr.params[2]) {
        (Param::Register(a), Param::Register(b), Param::Register(c)) => {
            let va = reg_value(proc, a);
            let vb = reg_value(proc, b);
            let v = if sub {
                va.wrapping_sub(vb)
            } else {
                va.wrapping_add(vb)
            };
            reg_write(proc, c, v);
            proc.zf = v == 0;
        },
        _ => {},
    }
}

/// The bitwise combination `and`, `or` and `xor` apply.
pub open spec fn spec_bitop(kind: OpType, a: i32, b: i32) -> i32 {
    match kind {
        OpType::And => a & b,
        OpType::Or => a | b,
        _ => a ^ b,
    }
}

/// The effect of `and`/`or`/`xor`, the counter untouched: the third
/// register takes the bitwise combination of the first two operands'
/// values, and the carry says whether it is zero.
pub open spec fn spec_bitop_effect(instr: Instruction, p0: Process, p1: Process, mem: Memory) -> bool {
    &&& same_frame(p0, p1)
    &&& (instr.params@.len() < 3 ==> p1 == p0)
    &&& (instr.params@.len() >= 3 ==> (match instr.params@[2] {
        Param::Register(c) => {
            let va = spec_eval(instr.params@[0], p0, mem, false);
            let vb = spec_eval(instr.params@[1], p0, mem, false);
            let v = spec_bitop(instr.kind, va as i32, vb as i32);
            &&& (1 <= c <= REG_COUNT ==> p1.registers@ == p0.registers@.update(c - 1, v))
            &&& (!(1 <= c <= REG_COUNT) ==> p1.registers@ == p0.registers@)
            &&& p1.zf == (v == 0)
        },
        _ => p1.registers == p0.registers && p1.zf == p0.zf,
    }))
}

/// `and`/`or`/`xor`: third register takes the bitwise combination of the
/// first two operands' values; the carry says whether it is zero.
pub fn exec_bitop(instr: &Instruction, proc: &mut Process, mem: &Memory)
    requires
        mem.wf(),
        old(proc).wf(),
        instr.kind is And || instr.kind is Or || instr.kind is Xor,
    ensures
        spec_bitop_effect(*instr, *old(proc), *final(proc), *mem),
{
    if instr.params.len() < 3 {
        return;
    }
    match instr.params[2] {
        Param::Register(c) => {
            let va = eval_param(&instr.params[0], proc, mem, false);
            let vb = eval_param(&instr.params[1], proc, mem, false);
            let v = match instr.kind {
                OpType::And => va & vb,
                OpType::Or => va | vb,
                _ => va ^ vb,
            };
            reg_write(proc, c, v);
            proc.zf = v == 0;
        },
        _ => {},
    }
}

/// `zjmp %d`: with the carry set, moves the counter by `d` (reduced
/// short-range) and reports the jump, which suppresses the normal
/// advance; with the carry clear, does nothing.
pub fn exec_zjmp(instr: &Instruction, proc: &mut Process) -> (jumped: bool)
    requires
        old(proc).wf(),
    ensures
        final(proc).wf(),
        final(proc).registers == old(proc).registers,
        final(proc).zf == old(proc).zf,
        final(proc).pid == old(proc).pid,
        final(proc).player_id == old(proc).player_id,
        final(proc).state == old(proc).state,
        final(proc).last_live_cycle == old(proc).last_live_cycle,
        instr.params@.len() < 1 ==> final(proc).pc == old(proc).pc && jumped == false,
        instr.params@.len() >= 1 ==> (match instr.params@[0] {
            Param::Direct(d) => {
                &&& jumped == old(proc).zf
                &&& (old(proc).zf ==> final(proc).pc == spec_reach_addr(
                    old(proc).pc as int,
                    d as int,
                    false,
                ))
                &&& (!old(proc).zf ==> final(proc).pc == old(proc).pc)
            },
            _ => final(proc).pc == old(proc).pc && jumped == false,
        }),
{
    if instr.params.len() < 1 {
        return false;
    }
    match instr.params[0] {
        Param::Direct(d) => {
            if proc.zf {
                let counter = ProgramCounter(proc.pc);
                proc.pc = counter.offset(d as isize, OffsetType::Limited);
                true
            } else {
                false
            }
        },
        _ => false,
    }
}

/// The effect of `ldi`/`lldi`, the counter untouched: the third register
/// takes the four bytes read through the reduced sum of the first two
/// operands' values; the carry is untouched.
pub open spec fn spec_ldi_effect(
    instr: Instruction,
    p0: Process,
    p1: Process,
    mem: Memory,
    long: bool,
) -> bool {
    &&& same_frame(p0, p1)
    &&& p1.zf == p0.zf
    &&& (instr.params@.len() < 3 ==> p1 == p0)
    &&& (instr.params@.len() >= 3 ==> (match instr.params@[2] {
        Param::Register(c) => {
            let va = spec_eval(instr.params@[0], p0, mem, long);
            let vb = spec_eval(instr.params@[1], p0, mem, long);
            let sum = i32_specs::wrapping_add(va as i32, vb as i32);
            let addr = spec_reach_addr(p0.pc as int, sum as int, long);
            let v = spec_i32_be(
                mem.spec_cell(addr),
                mem.spec_cell(addr + 1),
                mem.spec_cell(addr + 2),
                mem.spec_cell(addr + 3),
            ) as i32;
            &&& (1 <= c <= REG_COUNT ==> p1.registers@ == p0.registers@.update(c - 1, v))
            &&& (!(1 <= c <= REG_COUNT) ==> p1.registers@ == p0.registers@)
        },
        _ => p1.registers == p0.registers,
    }))
}

/// `ldi`/`lldi`: the third register takes the four bytes at
/// `pc + (a + b)`, the sum of the first two operands' values reduced
/// short-range (`ldi`) or over the whole arena (`lldi`); the carry is
/// untouched.
pub fn exec_ldi(instr: &Instruction, proc: &mut Process, mem: &Memory, long: bool)
    requires
        mem.wf(),
        old(proc).wf(),
    ensures
        spec_ldi_effect(*instr, *old(proc), *final(proc), *mem, long),
{
    if instr.params.len() < 3 {
        return;
    }
    match instr.params[2] {
        Param::Register(c) => {
            let va = eval_param(&instr.params[0], proc, mem, long);
            let vb = eval_param(&instr.params[1], proc, mem, long);
            let sum = va.wrapping_add(vb);
            let counter = ProgramCounter(proc.pc);
            let addr = counter.offset(
                sum as isize,
                if long {
                    OffsetType::Long
                } else {
                    OffsetType::Limited
                },
            );
            let v = mem.read_i32(addr);
            reg_write(proc, c, v);
        },
        _ => {},
    }
}

/// The effect of `sti` on the arena; the process is untouched.
pub open spec fn spec_sti_effect(instr: Instruction, p0: Process, m0: Memory, m1: Memory) -> bool {
    &&& (instr.params@.len() < 3 ==> m1 == m0)
    &&& (instr.params@.len() >= 3 ==> (match instr.params@[0] {
        Param::Register(rn) => {
            let v = spec_reg_value(p0, rn);
            let va = spec_eval(instr.params@[1], p0, m0, false);
            let vb = spec_eval(instr.params@[2], p0, m0, false);
            let sum = i32_specs::wrapping_add(va as i32, vb as i32);
            let addr = spec_reach_addr(p0.pc as int, sum as int, false);
            &&& m1.values() == spec_store(m0.values(), addr, spec_be4(spec_u32_of_i32(v as int)))
            &&& m1.owners() == spec_store(m0.owners(), addr, Seq::new(4, |i: int| p0.player_id))
        },
        _ => m1 == m0,
    }))
}

/// `sti`: stores the first register as four big-endian bytes at
/// `pc + (a + b)`, the sum of the second and third operands' values
/// reduced short-range.
pub fn exec_sti(instr: &Instruction, proc: &mut Process, mem: &mut Memory)
    requires
        old(mem).wf(),
        old(proc).wf(),
    ensures
        final(mem).wf(),
        *final(proc) == *old(proc),
        ages_stable(old(mem).ages(), final(mem).ages()),
        spec_sti_effect(*instr, *old(proc), *old(mem), *final(mem)),
{
    if instr.params.len() < 3 {
        return;
    }
    match instr.params[0] {
        Param::Register(rn) => {
            let v = reg_value(proc, rn);
            let va = eval_param(&instr.params[1], proc, mem, false);
            let vb = eval_param(&instr.params[2], proc, mem, false);
            let sum = va.wrapping_add(vb);
            let counter = ProgramCounter(proc.pc);
            let addr = counter.offset(sum as isize, OffsetType::Limited);
            mem.write_i32(v, proc.player_id, addr);
            proof {
                crate::vm::lemma_const_store_stable(
                    old(mem).ages(),
                    addr as int,
                    Seq::new(4, |i: int| FRESH_AGE),
                );
            }
        },
        _ => {},
    }
}

/// The effect of `fork`/`lfork`: an idle copy of the process (fresh
/// identity, same registers, carry and life cycle) joins the tick's fork
/// buffer, placed at the reduced offset.
pub open spec fn spec_fork_effect(
    instr: Instruction,
    p0: Process,
    pool0: PidPool,
    pool1: PidPool,
    forks0: Seq<Process>,
    forks1: Seq<Process>,
    long: bool,
) -> bool {
    if instr.params@.len() < 1 {
        forks1 == forks0 && pool1 == pool0
    } else {
        match instr.params@[0] {
            Param::Direct(d) => {
                let child = Process {
                    pid: pool0.0,
                    player_id: p0.player_id,
                    pc: spec_reach_addr(p0.pc as int, d as int, long) as usize,
                    registers: p0.registers,
                    zf: p0.zf,
                    last_live_cycle: p0.last_live_cycle,
                    state: ProcessState::Idle,
                };
                &&& forks1 == forks0.push(child)
                &&& child.wf()
                &&& pool1.0 == pool0.0.wrapping_add(1)
            },
            _ => forks1 == forks0 && pool1 == pool0,
        }
    }
}

/// `fork`/`lfork`: spawns an idle copy of the process (fresh identity,
/// same registers, carry and life cycle) at `pc + d`, reduced short-range
/// or over the whole arena, appended after this tick.
pub fn exec_fork(
    instr: &Instruction,
    proc: &Process,
    pid_pool: &mut PidPool,
    forks: &mut Vec<Process>,
    long: bool,
)
    requires
        proc.wf(),
    ensures
        spec_fork_effect(
            *instr,
            *proc,
            *old(pid_pool),
            *final(pid_pool),
            old(forks)@,
            final(forks)@,
            long,
        ),
{
    if instr.params.len() < 1 {
        return;
    }
    match instr.params[0] {
        Param::Direct(d) => {
            let counter = ProgramCounter(proc.pc);
            let child_pc = counter.offset(
                d as isize,
                if long {
                    OffsetType::Long
                } else {
                    OffsetType::Limited
                },
            );
            let pid = pid_pool.get();
            let child = Process {
                pid,
                player_id: proc.player_id,
                pc: child_pc,
                registers: proc.registers,
                zf: proc.zf,
                last_live_cycle: proc.last_live_cycle,
                state: ProcessState::Idle,
            };
            forks.push(child);
        },
        _ => {},
    }
}

/// `aff`: advisory only; the machine takes no observable action.
pub fn exec_aff(instr: &Instruction, proc: &Process)
    requires
        proc.wf(),
{
}

/// Where the counter stands after one instruction: a taken `zjmp` places
/// it at the jump target and suppresses the advance; everything else
/// advances it past the instruction's bytes.
pub open spec fn spec_final_pc(instr: Instruction, p0: Process) -> int {
    if instr.kind is Zjmp && instr.params@.len() >= 1 && instr.params@[0] is Direct && p0.zf {
        spec_reach_addr(p0.pc as int, instr.params@[0]->Direct_0 as int, false)
    } else {
        spec_mem_offset(p0.pc as int, instr.byte_size as int)
    }
}

/// Nothing of the tick's scratch state moved: live counter, live set,
/// fork buffer and identity pool are as before.
pub open spec fn scratch_unchanged(
    lc0: u32,
    lc1: u32,
    s0: Set<int>,
    s1: Set<int>,
    forks0: Seq<Process>,
    forks1: Seq<Process>,
    pool0: PidPool,
    pool1: PidPool,
) -> bool {
    lc1 == lc0 && s1 == s0 && forks1 == forks0 && pool1 == pool0
}

/// Runs one decoded instruction and advances the counter past it; a taken
/// `zjmp` has already placed the counter and suppresses the advance.
pub fn execute_instr(
    instr: &Instruction,
    proc: &mut Process,
    mem: &mut Memory,
    cycle: u32,
    live_count: &mut u32,
    pid_pool: &mut PidPool,
    forks: &mut Vec<Process>,
    lives: &mut linked_hash_set::LinkedHashSet<PlayerId>,
    player_ids: &Vec<PlayerId>,
)
    requires
        old(mem).wf(),
        old(proc).wf(),
        instr.byte_size <= isize::MAX,
    ensures
        final(mem).wf(),
        final(proc).wf(),
        final(proc).pid == old(proc).pid,
        final(proc).player_id == old(proc).player_id,
        final(proc).state == old(proc).state,
        ages_stable(old(mem).ages(), final(mem).ages()),
        *final(live_count) >= *old(live_count),
        final(forks)@.len() >= old(forks)@.len(),
        final(forks)@.subrange(0, old(forks)@.len() as int) == old(forks)@,
        forall|i: int|
            old(forks)@.len() <= i < final(forks)@.len()
                ==> (#[trigger] final(forks)@[i]).wf(),
        final(proc).pc as int == spec_final_pc(*instr, *old(proc)),
        ({
            // The process as the executor left it, the advance undone.
            let stepped = Process { pc: old(proc).pc, ..*final(proc) };
            let p0 = *old(proc);
            let m0 = *old(mem);
            let m1 = *final(mem);
            let lc0 = *old(live_count);
            let lc1 = *final(live_count);
            let s0 = live_set_contents(*old(lives));
            let s1 = live_set_contents(*final(lives));
            let f0 = old(forks)@;
            let f1 = final(forks)@;
            let q0 = *old(pid_pool);
            let q1 = *final(pid_pool);
            match instr.kind {
                OpType::Live => spec_live_effect(
                    *instr,
                    p0,
                    stepped,
                    lc0,
                    lc1,
                    s0,
                    s1,
                    cycle,
                    player_ids@,
                ) && m1 == m0 && f1 == f0 && q1 == q0,
                OpType::Ld => spec_ld_effect(*instr, p0, stepped, m0, false)
                    && m1 == m0 && scratch_unchanged(lc0, lc1, s0, s1, f0, f1, q0, q1),
                OpType::Lld => spec_ld_effect(*instr, p0, stepped, m0, true)
                    && m1 == m0 && scratch_unchanged(lc0, lc1, s0, s1, f0, f1, q0, q1),
                OpType::St => spec_st_effect(*instr, p0, stepped, m0, m1)
                    && scratch_unchanged(lc0, lc1, s0, s1, f0, f1, q0, q1),
                OpType::Add => spec_arith_effect(*instr, p0, stepped, false)
                    && m1 == m0 && scratch_unchanged(lc0, lc1, s0, s1, f0, f1, q0, q1),
                OpType::Sub => spec_arith_effect(*instr, p0, stepped, true)
                    && m1 == m0 && scratch_unchanged(lc0, lc1, s0, s1, f0, f1, q0, q1),
                OpType::And => spec_bitop_effect(*instr, p0, stepped, m0)
                    && m1 == m0 && scratch_unchanged(lc0, lc1, s0, s1, f0, f1, q0, q1),
                OpType::Or => spec_bitop_effect(*instr, p0, stepped, m0)
                    && m1 == m0 && scratch_unchanged(lc0, lc1, s0, s1, f0, f1, q0, q1),
                OpType::Xor => spec_bitop_effect(*instr, p0, stepped, m0)
                    && m1 == m0 && scratch_unchanged(lc0, lc1, s0, s1, f0, f1, q0, q1),
                OpType::Zjmp => stepped == p0 && m1 == m0 && scratch_unchanged(
                    lc0,
                    lc1,
                    s0,
                    s1,
                    f0,
                    f1,
                    q0,
                    q1,
                ),
                OpType::Ldi => spec_ldi_effect(*instr, p0, stepped, m0, false)
                    && m1 == m0 && scratch_unchanged(lc0, lc1, s0, s1, f0, f1, q0, q1),
                OpType::Lldi => spec_ldi_effect(*instr, p0, stepped, m0, true)
                    && m1 == m0 && scratch_unchanged(lc0, lc1, s0, s1, f0, f1, q0, q1),
                OpType::Sti => stepped == p0 && spec_sti_effect(*instr, p0, m0, m1) && lc1 == lc0
                    && s1 == s0 && f1 == f0 && q1 == q0,
                OpType::Fork => stepped == p0 && m1 == m0 && lc1 == lc0 && s1 == s0
                    && spec_fork_effect(*instr, p0, q0, q1, f0, f1, false),
                OpType::Lfork => stepped == p0 && m1 == m0 && lc1 == lc0 && s1 == s0
                    && spec_fork_effect(*instr, p0, q0, q1, f0, f1, true),
                OpType::Aff => stepped == p0 && m1 == m0 && scratch_unchanged(
                    lc0,
                    lc1,
                    s0,
                    s1,
                    f0,
                    f1,
                    q0,
                    q1,
                ),
            }
        }),
{
    let ghost forks0 = forks@;
    let jumped: bool = match instr.kind {
        OpType::Live => {
            exec_live(instr, proc, cycle, live_count, lives, player_ids);
            false
        },
        OpType::Ld => {
            exec_ld(instr, proc, mem, false);
            false
        },
        OpType::Lld => {
            exec_ld(instr, proc, mem, true);
            false
        },
        OpType::St => {
            exec_st(instr, proc, mem);
            false
        },
        OpType::Add => {
            exec_arith(instr, proc, false);
            false
        },
        OpType::Sub => {
            exec_arith(instr, proc, true);
            false
        },
        OpType::And => {
            exec_bitop(instr, proc, mem);
            false
        },
        OpType::Or => {
            exec_bitop(instr, proc, mem);
            false
        },
        OpType::Xor => {
            exec_bitop(instr, proc, mem);
            false
        },
        OpType::Zjmp => exec_zjmp(instr, proc),
        OpType::Ldi => {
            exec_ldi(instr, proc, mem, false);
            false
        },
        OpType::Lldi => {
            exec_ldi(instr, proc, mem, true);
            false
        },
        OpType::Sti => {
            exec_sti(instr, proc, mem);
            false
        },
        OpType::Fork => {
            exec_fork(instr, proc, pid_pool, forks, false);
            false
        },
        OpType::Lfork => {
            exec_fork(instr, proc, pid_pool, forks, true);
            false
        },
        OpType::Aff => {
            exec_aff(instr, proc);
            false
        },
    };
    let ghost pre_adv = *proc;
    let advance: usize = if jumped {
        0
    } else {
        instr.byte_size
    };
    let mut counter = ProgramCounter(proc.pc);
    counter.advance(advance as isize);
    proc.pc = counter.addr();
    proof {
        let stepped = Process { pc: old(proc).pc, ..*proc };
        if !(instr.kind is Zjmp) {
            assert(stepped == pre_adv);
        }
        if instr.kind is Zjmp && jumped {
            // A taken jump lands inside the arena, so the zero advance
            // leaves the counter exactly at the target.
            vstd::arithmetic::div_mod::lemma_small_mod(
                pre_adv.pc as nat,
                MEM_SIZE as nat,
            );
        }
        assert(final(forks)@.subrange(0, forks0.len() as int) =~= forks0);
    }
}

} // verus!
