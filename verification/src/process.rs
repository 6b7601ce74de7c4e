//! Processes: the per-champion threads of control the scheduler drives.

use vstd::prelude::*;
use crate::defs::{OpType, Pid, PlayerId, MEM_SIZE, REG_COUNT};

verus! {

/// What a process is doing: waiting to fetch, or burning the cycles of a
/// fetched opcode.
#[derive(Clone, Copy, Debug, PartialEq, Eq, Structural)]
pub enum ProcessState {
    Idle,
    Executing { cycle_left: u32, op: OpType },
}

/// One process: its identity, its position in the arena, its register
/// file, its carry flag, the cycle it last proved life, and its state.
#[derive(Clone, Copy, Debug)]
pub struct Process {
    pub pid: Pid,
    pub player_id: PlayerId,
    pub pc: usize,
    pub registers: [i32; 16],
    pub zf: bool,
    pub last_live_cycle: u32,
    pub state: ProcessState,
}

impl Process {
    /// Well-formedness: the counter stays inside the arena and an
    /// executing process always has at least one cycle left.
    pub open spec fn wf(&self) -> bool {
        &&& self.pc < MEM_SIZE
        &&& match self.state {
            ProcessState::Executing { cycle_left, op } => cycle_left >= 1,
            ProcessState::Idle => true,
        }
    }

    /// A fresh idle process at `pc`, registers zeroed, carry clear.
    pub fn new(pid: Pid, player_id: PlayerId, pc: usize) -> (r: Process)
        requires
            pc < MEM_SIZE,
        ensures
            r.wf(),
            r.pid == pid,
            r.player_id == player_id,
            r.pc == pc,
            forall|i: int| 0 <= i < REG_COUNT ==> r.registers@[i] == 0,
            r.zf == false,
            r.last_live_cycle == 0,
            r.state is Idle,
    {
        Process {
            pid,
            player_id,
            pc,
            registers: [0; 16],
            zf: false,
            last_live_cycle: 0,
            state: ProcessState::Idle,
        }
    }
}

/// The monotonic counter that hands out process identities.
#[derive(Debug)]
pub struct PidPool(pub Pid);

impl PidPool {
    /// A pool that will hand out 0 first.
    pub fn new() -> (r: PidPool)
        ensures
            r.0 == 0,
    {
        PidPool(0)
    }

    /// Draws the next identity: the current value, the counter moving up
    /// by one (wrapping only at the end of the 64-bit range).
    pub fn get(&mut self) -> (r: Pid)
        ensures
            r == old(self).0,
            final(self).0 == old(self).0.wrapping_add(1),
    {
        let next = self.0.wrapping_add(1);
        let cur = self.0;
        self.0 = next;
        cur
    }
}

} // verus!
