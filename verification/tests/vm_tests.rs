use corewar::decoder::{decode_instr, decode_op, DecodeError, Instruction, Param};
use corewar::defs::{OpType, HEADER_SIZE, MEM_SIZE};
use corewar::instructions::exec_zjmp;
use corewar::memory::Memory;
use corewar::pc::{mem_offset, OffsetType, ProgramCounter};
use corewar::process::Process;
use corewar::vm::{VMBuilder, VirtualMachine};

fn make_program(name: &[u8], body: &[u8]) -> Vec<u8> {
    let mut p = vec![0u8; HEADER_SIZE];
    p[0] = 0x00;
    p[1] = 0xEA;
    p[2] = 0x83;
    p[3] = 0xF3;
    for (i, b) in name.iter().enumerate() {
        p[4 + i] = *b;
    }
    let n = body.len() as u32;
    p[136] = (n >> 24) as u8;
    p[137] = (n >> 16) as u8;
    p[138] = (n >> 8) as u8;
    p[139] = n as u8;
    p.extend_from_slice(body);
    p
}

#[test]
fn mem_offset_undoes_itself() {
    assert_eq!(mem_offset(mem_offset(100, 7000), -7000), 100);
    assert_eq!(mem_offset(mem_offset(0, -1), 1), 0);
    assert_eq!(mem_offset(6143, 1), 0);
    assert_eq!(mem_offset(0, -1), 6143);
}

#[test]
fn wrapping_write_splits_across_the_seam() {
    let mut mem = Memory::new();
    mem.write(MEM_SIZE - 2, &[1, 2, 3, 4], 7);
    let values = mem.values_ptr();
    assert_eq!(values[MEM_SIZE - 2], 1);
    assert_eq!(values[MEM_SIZE - 1], 2);
    assert_eq!(values[0], 3);
    assert_eq!(values[1], 4);
    let owners = mem.owners_ptr();
    assert_eq!(owners[MEM_SIZE - 1], 7);
    assert_eq!(owners[0], 7);
    assert_eq!(owners[2], 0);
    assert_eq!(mem.read_i32(MEM_SIZE - 2), 0x01020304);
}

#[test]
fn ages_reset_on_write_and_decay_on_tick() {
    let mut mem = Memory::new();
    mem.tick();
    assert_eq!(mem.ages_ptr()[5], 1023);
    mem.write(5, &[9], 1);
    assert_eq!(mem.ages_ptr()[5], 1024);
    mem.tick();
    assert_eq!(mem.ages_ptr()[5], 1023);
    assert_eq!(mem.ages_ptr()[6], 1022);
}

#[test]
fn register_number_bounds_at_decode() {
    // ld with coding byte 0b1101_0000: indirect then register.
    let mut mem = Memory::new();
    mem.write(0, &[2, 0xD0, 0, 1, 0], 1);
    assert_eq!(decode_op(&mem, 0), Ok(OpType::Ld));
    assert_eq!(decode_instr(&mem, OpType::Ld, 0).unwrap_err(), DecodeError::InvalidRegNumber(0));

    mem.write(0, &[2, 0xD0, 0, 1, 17], 1);
    assert_eq!(
        decode_instr(&mem, OpType::Ld, 0).unwrap_err(),
        DecodeError::InvalidRegNumber(17)
    );

    mem.write(0, &[2, 0xD0, 0, 1, 16], 1);
    let instr = decode_instr(&mem, OpType::Ld, 0).unwrap();
    assert_eq!(instr.params, vec![Param::Indirect(1), Param::Register(16)]);
    assert_eq!(instr.byte_size, 5);
}

#[test]
fn all_zero_coding_byte_is_invalid() {
    let mut mem = Memory::new();
    mem.write(0, &[2, 0, 0, 0, 0], 1);
    assert_eq!(decode_instr(&mem, OpType::Ld, 0).unwrap_err(), DecodeError::InvalidOCP(0));
}

#[test]
fn register_coding_where_memory_is_required_is_invalid() {
    // 0x50 = 0b0101_0000: both operands coded as registers, but the
    // first operand of ld must be direct or indirect.
    let mut mem = Memory::new();
    mem.write(0, &[2, 0x50, 0, 8, 1], 1);
    assert_eq!(decode_op(&mem, 0), Ok(OpType::Ld));
    assert_eq!(decode_instr(&mem, OpType::Ld, 0).unwrap_err(), DecodeError::InvalidOCP(0x50));
}

#[test]
fn invalid_opcode_is_reported_with_its_byte() {
    let mut mem = Memory::new();
    mem.write(0, &[42], 1);
    assert_eq!(decode_op(&mem, 0), Err(DecodeError::InvalidOpCode(42)));
}

#[test]
fn taken_zjmp_moves_the_counter_back() {
    let instr = Instruction {
        kind: OpType::Zjmp,
        params: vec![Param::Direct(-5)],
        byte_size: 3,
    };
    let mut p = Process::new(0, 1, 10);
    p.zf = true;
    let jumped = exec_zjmp(&instr, &mut p);
    assert!(jumped);
    assert_eq!(p.pc, (10 + MEM_SIZE - 5) % MEM_SIZE);

    let mut q = Process::new(1, 1, 10);
    q.zf = false;
    let jumped = exec_zjmp(&instr, &mut q);
    assert!(!jumped);
    assert_eq!(q.pc, 10);
}

#[test]
fn counter_offsets_reduce_short_range() {
    let pc = ProgramCounter(0);
    // 513 reduced modulo 512 is 1.
    assert_eq!(pc.offset(513, OffsetType::Limited), 1);
    assert_eq!(pc.offset(513, OffsetType::Long), 513);
    assert_eq!(pc.offset(-513, OffsetType::Limited), MEM_SIZE - 1);
}

#[test]
fn two_champions_load_evenly_spaced() {
    let p1 = make_program(b"alpha", &[1, 2]);
    let p2 = make_program(b"beta", &[3, 4]);
    let vm = VMBuilder::new().with_player(1, p1).with_player(2, p2).finish();
    assert_eq!(vm.player_count(), 2);
    assert_eq!(vm.process_count(), 2);
    let procs = vm.processes();
    assert_eq!(procs[0].pc, 0);
    assert_eq!(procs[1].pc, 3072);
    assert_eq!(procs[0].registers[0], 1);
    assert_eq!(procs[1].registers[0], 2);
    for k in 1..16 {
        assert_eq!(procs[0].registers[k], 0);
        assert_eq!(procs[1].registers[k], 0);
    }
    assert_eq!(vm.cell_values()[0], 1);
    assert_eq!(vm.cell_values()[3072], 3);
    assert_eq!(vm.player_name(1), b"alpha".to_vec());
    assert_eq!(vm.player_size(2), 2);
}

#[test]
fn processes_die_without_live_on_the_first_check() {
    let program = make_program(b"idle", &[0, 0]);
    let mut vm = VirtualMachine::new();
    vm.load_players(&vec![(1, program)]);
    assert_eq!(vm.cycles_to_die(), 1536);
    let mut over = false;
    for _ in 0..1536 {
        over = vm.tick();
    }
    assert!(over);
    assert_eq!(vm.cycles(), 1536);
    assert_eq!(vm.process_count(), 0);
    assert_eq!(vm.checks_without_cycle_decrement(), 1);
    assert_eq!(vm.cycles_to_die(), 1536);
    assert_eq!(vm.live_count_since_last_check(), 0);
    assert_eq!(vm.winner(), None);
}

#[test]
fn a_live_call_saves_the_process_at_the_check() {
    let program = make_program(b"alive", &[1, 0, 0, 0, 1]);
    let mut vm = VirtualMachine::new();
    vm.load_players(&vec![(1, program)]);
    let mut over = false;
    for _ in 0..1536 {
        over = vm.tick();
    }
    assert!(!over);
    assert_eq!(vm.process_count(), 1);
    // The live lands on the tick on which its ten cycles elapse.
    assert_eq!(vm.player_last_live(1), 10);
    assert_eq!(vm.checks_without_cycle_decrement(), 1);
    assert_eq!(vm.cycles_to_die(), 1536);
    assert_eq!(vm.live_count_since_last_check(), 0);
    assert_eq!(vm.winner(), Some(1));
}

#[test]
fn invalid_opcodes_advance_one_cell_per_tick() {
    let program = make_program(b"walker", &[0, 0]);
    let mut vm = VirtualMachine::new();
    vm.load_players(&vec![(1, program)]);
    vm.tick();
    assert_eq!(vm.processes()[0].pc, 1);
    // No write happened, so every age dropped by exactly one.
    assert_eq!(vm.cell_ages()[100], 1023);
    vm.tick();
    assert_eq!(vm.processes()[0].pc, 2);
    assert_eq!(vm.cell_ages()[100], 1022);
}

#[test]
fn written_cells_end_the_tick_fresh() {
    // st r1, 5: stores four bytes through a short-range indirect offset.
    // Encoding: opcode 3, coding byte reg,ind = 01 11 00 00, r1, offset 5.
    let program = make_program(b"writer", &[3, 0x70, 1, 0, 5]);
    let mut vm = VirtualMachine::new();
    vm.load_players(&vec![(1, program)]);
    for _ in 0..5 {
        vm.tick();
    }
    // The store executed on the fifth tick: its four cells are fresh,
    // untouched cells have aged five times.
    assert_eq!(vm.cell_ages()[5], 1024);
    assert_eq!(vm.cell_ages()[8], 1024);
    assert_eq!(vm.cell_ages()[100], 1024 - 5);
    assert_eq!(vm.cell_owners()[5], 1);
}

#[test]
fn per_player_and_per_address_counts_are_exact() {
    let p1 = make_program(b"alpha", &[1, 2]);
    let p2 = make_program(b"beta", &[3, 4]);
    let vm = VMBuilder::new().with_player(1, p1).with_player(2, p2).finish();
    assert_eq!(vm.player_processes(1), 1);
    assert_eq!(vm.player_processes(2), 1);
    assert_eq!(vm.player_processes(3), 0);
    let pcs = vm.process_pcs();
    assert_eq!(pcs[0], 1);
    assert_eq!(pcs[3072], 1);
    assert_eq!(pcs[1], 0);
}
