//! The virtual machine: the arena, the players, the process list, and the
//! cycle-accurate scheduler with its liveness-driven culling.

use vstd::prelude::*;
use crate::defs::{
    op_spec, OpType, Pid, PlayerId, CYCLE_DELTA, CYCLE_TO_DIE, HEADER_SIZE, MAX_CHECKS,
    MEM_SIZE, NBR_LIVE, PROG_NAME_LENGTH, REG_COUNT,
};
use crate::decoder::{decode_instr, decode_op, Instruction, Param};
use crate::ext::{live_set_contains, live_set_contents, live_set_insert, live_set_new};
use crate::memory::{spec_store, Memory, FRESH_AGE};
use crate::pc::{mem_offset, spec_mem_offset, OffsetType, ProgramCounter};
use crate::process::{PidPool, Process, ProcessState};
use crate::be::{spec_be4, spec_u32_of_i32};

verus! {

/// One participant: identity, header fields, body size, and the last
/// cycle at which one of its processes proved life.
#[derive(Debug)]
pub struct Player {
    pub id: PlayerId,
    pub name: Vec<u8>,
    pub comment: Vec<u8>,
    pub size: usize,
    pub last_live: Option<u32>,
}

/// Ages only ever stay, drop, or return to fresh: what one tick of
/// executors leaves possible for each cell.
pub open spec fn ages_stable(older: Seq<u16>, newer: Seq<u16>) -> bool {
    &&& newer.len() == older.len()
    &&& forall|i: int|
        0 <= i < newer.len() ==> (#[trigger] newer[i]) == older[i] || newer[i] == FRESH_AGE
}

/// The virtual machine.
pub struct VirtualMachine {
    players: Vec<Player>,
    memory: Memory,
    processes: Vec<Process>,
    pid_pool: PidPool,
    cycles: u32,
    last_live_check: u32,
    cycles_to_die: u32,
    live_count_since_last_check: u32,
    checks_without_cycle_decrement: u32,
}

impl VirtualMachine {
    /// The players, for specification purposes.
    pub closed spec fn spec_players(&self) -> Seq<Player> {
        self.players@
    }

    /// The arena, for specification purposes.
    pub closed spec fn spec_memory(&self) -> Memory {
        self.memory
    }

    /// The processes, for specification purposes.
    pub closed spec fn spec_processes(&self) -> Seq<Process> {
        self.processes@
    }

    pub closed spec fn spec_cycles(&self) -> u32 {
        self.cycles
    }

    pub closed spec fn spec_last_live_check(&self) -> u32 {
        self.last_live_check
    }

    pub closed spec fn spec_cycles_to_die(&self) -> u32 {
        self.cycles_to_die
    }

    pub closed spec fn spec_live_count(&self) -> u32 {
        self.live_count_since_last_check
    }

    pub closed spec fn spec_checks_without_decrement(&self) -> u32 {
        self.checks_without_cycle_decrement
    }

    /// Well-formedness: the arena is whole, every process counter is
    /// inside it, the check clock never runs ahead of the cycle clock,
    /// and the forced-shrink counter stays under its bound.
    pub open spec fn wf(&self) -> bool {
        &&& self.spec_memory().wf()
        &&& forall|i: int|
            0 <= i < self.spec_processes().len() ==> (#[trigger] self.spec_processes()[i]).wf()
        &&& self.spec_last_live_check() <= self.spec_cycles()
        &&& self.spec_checks_without_decrement() < MAX_CHECKS
    }

    /// A fresh machine: empty arena, no players, no processes, the
    /// liveness window at its starting width.
    pub fn new() -> (r: VirtualMachine)
        ensures
            r.wf(),
            r.spec_players().len() == 0,
            r.spec_processes().len() == 0,
            r.spec_cycles() == 0,
            r.spec_last_live_check() == 0,
            r.spec_cycles_to_die() == CYCLE_TO_DIE,
            r.spec_live_count() == 0,
            r.spec_checks_without_decrement() == 0,
            r.spec_memory().values() == Seq::new(MEM_SIZE as nat, |i: int| 0u8),
            r.spec_memory().ages() == Seq::new(MEM_SIZE as nat, |i: int| FRESH_AGE),
            r.spec_memory().owners() == Seq::new(MEM_SIZE as nat, |i: int| 0 as PlayerId),
    {
        VirtualMachine {
            players: Vec::new(),
            memory: Memory::new(),
            processes: Vec::new(),
            pid_pool: PidPool::new(),
            cycles: 0,
            last_live_check: 0,
            cycles_to_die: CYCLE_TO_DIE,
            live_count_since_last_check: 0,
            checks_without_cycle_decrement: 0,
        }
    }

    // Observers.

    /// The arena.
    pub fn memory(&self) -> (r: &Memory)
        ensures
            r == self.spec_memory(),
    {
        &self.memory
    }

    /// The process list.
    pub fn processes(&self) -> (r: &Vec<Process>)
        ensures
            r@ == self.spec_processes(),
    {
        &self.processes
    }

    /// The arena size.
    pub fn size(&self) -> (r: usize)
        ensures
            r == MEM_SIZE,
    {
        self.memory.size()
    }

    /// How many processes run.
    pub fn process_count(&self) -> (r: usize)
        ensures
            r == self.spec_processes().len(),
    {
        self.processes.len()
    }

    /// How many players were loaded.
    pub fn player_count(&self) -> (r: usize)
        ensures
            r == self.spec_players().len(),
    {
        self.players.len()
    }

    /// The identity of the player at `at`.
    pub fn player_id(&self, at: usize) -> (r: PlayerId)
        requires
            at < self.spec_players().len(),
        ensures
            r == self.spec_players()[at as int].id,
    {
        self.players[at].id
    }

    /// The cycle counter.
    pub fn cycles(&self) -> (r: u32)
        ensures
            r == self.spec_cycles(),
    {
        self.cycles
    }

    /// The cycle of the last liveness check.
    pub fn last_live_check(&self) -> (r: u32)
        ensures
            r == self.spec_last_live_check(),
    {
        self.last_live_check
    }

    /// The current liveness window.
    pub fn cycles_to_die(&self) -> (r: u32)
        ensures
            r == self.spec_cycles_to_die(),
    {
        self.cycles_to_die
    }

    /// Lives counted since the last check.
    pub fn live_count_since_last_check(&self) -> (r: u32)
        ensures
            r == self.spec_live_count(),
    {
        self.live_count_since_last_check
    }

    /// Checks since the window last shrank.
    pub fn checks_without_cycle_decrement(&self) -> (r: u32)
        ensures
            r == self.spec_checks_without_decrement(),
    {
        self.checks_without_cycle_decrement
    }

    /// How many processes sit at each arena address; a count beyond the
    /// 32-bit range saturates.
    pub fn process_pcs(&self) -> (r: Vec<u32>)
        requires
            self.wf(),
        ensures
            r@.len() == MEM_SIZE,
            forall|a: int|
                0 <= a < MEM_SIZE ==> #[trigger] r@[a] as int == {
                    let c = spec_count_at(self.spec_processes(), a, 0);
                    if c <= u32::MAX {
                        c
                    } else {
                        u32::MAX as int
                    }
                },
    {
        let ghost ps = self.spec_processes();
        let mut v: Vec<u32> = vec![0u32; MEM_SIZE];
        let mut i: usize = 0;
        proof {
            lemma_count_at_total(ps, 0);
        }
        while i < self.processes.len()
            invariant
                self.wf(),
                ps == self.spec_processes(),
                v@.len() == MEM_SIZE,
                i <= self.processes@.len(),
                forall|a: int|
                    0 <= a < MEM_SIZE ==> #[trigger] v@[a] as int == {
                        let c = spec_count_at(ps, a, 0) - spec_count_at(ps, a, i as int);
                        if c <= u32::MAX {
                            c
                        } else {
                            u32::MAX as int
                        }
                    },
            decreases self.processes@.len() - i,
        {
            proof {
                assert(self.spec_processes()[i as int].wf());
            }
            let pc = self.processes[i].pc;
            let cur = v[pc];
            let ghost vpre = v@;
            if cur < u32::MAX {
                v[pc] = cur + 1;
            }
            proof {
                lemma_count_at_bounds(ps, pc as int, i as int);
                assert forall|a: int| 0 <= a < MEM_SIZE implies #[trigger] v@[a] as int == {
                    let c = spec_count_at(ps, a, 0) - spec_count_at(ps, a, i + 1);
                    if c <= u32::MAX {
                        c
                    } else {
                        u32::MAX as int
                    }
                } by {
                    lemma_count_at_bounds(ps, a, i as int);
                    if a != pc {
                        assert(v@[a] == vpre[a]);
                        assert(spec_count_at(ps, a, i as int) == spec_count_at(ps, a, i + 1));
                    }
                }
            }
            i += 1;
        }
        proof {
            assert(forall|a: int|
                0 <= a < MEM_SIZE ==> spec_count_at(ps, a, ps.len() as int) == 0);
        }
        v
    }

    /// Read-only view of the cell values.
    pub fn cell_values(&self) -> (r: &Vec<u8>)
        ensures
            r@ == self.spec_memory().values(),
    {
        self.memory.values_ptr()
    }

    /// Read-only view of the cell ages.
    pub fn cell_ages(&self) -> (r: &Vec<u16>)
        ensures
            r@ == self.spec_memory().ages(),
    {
        self.memory.ages_ptr()
    }

    /// Read-only view of the cell owners.
    pub fn cell_owners(&self) -> (r: &Vec<PlayerId>)
        ensures
            r@ == self.spec_memory().owners(),
    {
        self.memory.owners_ptr()
    }

    /// The name of the player with identity `id`.
    pub fn player_name(&self, id: PlayerId) -> (r: Vec<u8>)
        requires
            exists|i: int|
                0 <= i < self.spec_players().len() && (#[trigger] self.spec_players()[i]).id
                    == id,
        ensures
            exists|i: int|
                0 <= i < self.spec_players().len() && (#[trigger] self.spec_players()[i]).id
                    == id && r@ == self.spec_players()[i].name@,
    {
        let mut i: usize = 0;
        while i < self.players.len()
            invariant
                i <= self.players@.len(),
                exists|j: int|
                    i <= j < self.spec_players().len() && (#[trigger] self.spec_players()[j]).id
                        == id,
            decreases self.players@.len() - i,
        {
            if self.players[i].id == id {
                return self.players[i].name.clone();
            }
            i += 1;
        }
        // Unreachable: some later player always matches while the loop
        // runs, by the invariant.
        proof {
            assert(false);
        }
        Vec::new()
    }

    /// The body size of the player with identity `id`.
    pub fn player_size(&self, id: PlayerId) -> (r: usize)
        requires
            exists|i: int|
                0 <= i < self.spec_players().len() && (#[trigger] self.spec_players()[i]).id
                    == id,
        ensures
            exists|i: int|
                0 <= i < self.spec_players().len() && (#[trigger] self.spec_players()[i]).id
                    == id && r == self.spec_players()[i].size,
    {
        let mut i: usize = 0;
        while i < self.players.len()
            invariant
                i <= self.players@.len(),
                exists|j: int|
                    i <= j < self.spec_players().len() && (#[trigger] self.spec_players()[j]).id
                        == id,
            decreases self.players@.len() - i,
        {
            if self.players[i].id == id {
                return self.players[i].size;
            }
            i += 1;
        }
        proof {
            assert(false);
        }
        0
    }

    /// How many processes the player with identity `id` runs.
    pub fn player_processes(&self, id: PlayerId) -> (r: usize)
        ensures
            r as int == spec_count_player(self.spec_processes(), id, 0),
    {
        let ghost ps = self.spec_processes();
        let mut count: usize = 0;
        let mut i: usize = 0;
        while i < self.processes.len()
            invariant
                ps == self.spec_processes(),
                i <= self.processes@.len(),
                count <= i,
                count as int + spec_count_player(ps, id, i as int) == spec_count_player(
                    ps,
                    id,
                    0,
                ),
            decreases self.processes@.len() - i,
        {
            if self.processes[i].player_id == id {
                count += 1;
            }
            i += 1;
        }
        count
    }

    /// The last cycle at which the first player with identity `id` proved
    /// life; 0 where it never did or no such player exists.
    pub fn player_last_live(&self, id: PlayerId) -> (r: u32)
        ensures
            (match spec_find_player(self.spec_players(), id, 0) {
                Some(j) => r == (match self.spec_players()[j].last_live {
                    Some(c) => c,
                    None => 0u32,
                }),
                None => r == 0,
            }),
    {
        let ghost ps = self.spec_players();
        let mut i: usize = 0;
        while i < self.players.len()
            invariant
                ps == self.spec_players(),
                i <= self.players@.len(),
                spec_find_player(ps, id, 0) == spec_find_player(ps, id, i as int),
            decreases self.players@.len() - i,
        {
            if self.players[i].id == id {
                return match self.players[i].last_live {
                    Some(c) => c,
                    None => 0,
                };
            }
            i += 1;
        }
        0
    }

    /// The winner so far: the earliest-loaded player holding the greatest
    /// recorded live cycle; none if no player ever lived.
    pub fn winner(&self) -> (r: Option<PlayerId>)
        ensures
            r matches Some(id) ==> exists|j: int|
                {
                    &&& 0 <= j < self.spec_players().len()
                    &&& (#[trigger] self.spec_players()[j]).id == id
                    &&& self.spec_players()[j].last_live is Some
                    &&& (forall|k: int|
                        0 <= k < self.spec_players().len()
                            && (#[trigger] self.spec_players()[k]).last_live is Some
                            ==> self.spec_players()[k].last_live->Some_0
                            <= self.spec_players()[j].last_live->Some_0)
                    &&& (forall|k: int|
                        0 <= k < j && (#[trigger] self.spec_players()[k]).last_live is Some
                            ==> self.spec_players()[k].last_live->Some_0
                            < self.spec_players()[j].last_live->Some_0)
                },
            r is None ==> forall|i: int|
                0 <= i < self.spec_players().len() ==> (#[trigger] self.spec_players()[i]).last_live
                    is None,
    {
        let mut best: Option<(PlayerId, u32)> = None;
        let ghost mut bj: int = 0;
        let mut i: usize = 0;
        while i < self.players.len()
            invariant
                i <= self.players@.len(),
                best matches Some(b) ==> {
                    &&& 0 <= bj < i
                    &&& self.spec_players()[bj].id == b.0
                    &&& self.spec_players()[bj].last_live == Some(b.1)
                    &&& (forall|k: int|
                        0 <= k < i && (#[trigger] self.spec_players()[k]).last_live is Some
                            ==> self.spec_players()[k].last_live->Some_0 <= b.1)
                    &&& (forall|k: int|
                        0 <= k < bj && (#[trigger] self.spec_players()[k]).last_live is Some
                            ==> self.spec_players()[k].last_live->Some_0 < b.1)
                },
                best is None ==> forall|j: int|
                    0 <= j < i ==> (#[trigger] self.spec_players()[j]).last_live is None,
            decreases self.players@.len() - i,
        {
            match self.players[i].last_live {
                Some(c) => {
                    let replace = match best {
                        None => true,
                        Some((_, bc)) => c > bc,
                    };
                    if replace {
                        best = Some((self.players[i].id, c));
                        proof {
                            bj = i as int;
                        }
                    }
                },
                None => {},
            }
            i += 1;
        }
        match best {
            Some((id, _)) => Some(id),
            None => None,
        }
    }

    /// Loads one champion body at `at` and starts its process there, the
    /// first register holding the player's identity.
    fn load_champion(&mut self, champion: &[u8], player_id: PlayerId, at: usize)
        requires
            old(self).wf(),
            at < MEM_SIZE,
            at + champion@.len() <= usize::MAX,
        ensures
            final(self).wf(),
            final(self).spec_players() == old(self).spec_players(),
            final(self).spec_processes().len() == old(self).spec_processes().len() + 1,
            final(self).spec_processes().subrange(0, old(self).spec_processes().len() as int)
                == old(self).spec_processes(),
            ({
                let p = final(self).spec_processes().last();
                &&& p.pc == at
                &&& p.player_id == player_id
                &&& p.registers@[0] == player_id
                &&& forall|k: int| 1 <= k < REG_COUNT ==> p.registers@[k] == 0
                &&& p.zf == false
                &&& p.last_live_cycle == 0
                &&& p.state is Idle
            }),
            final(self).spec_memory().values() == spec_store(
                old(self).spec_memory().values(),
                at as int,
                champion@,
            ),
            final(self).spec_memory().owners() == spec_store(
                old(self).spec_memory().owners(),
                at as int,
                Seq::new(champion@.len(), |k: int| player_id),
            ),
            ages_stable(old(self).spec_memory().ages(), final(self).spec_memory().ages()),
            final(self).spec_cycles() == old(self).spec_cycles(),
            final(self).spec_last_live_check() == old(self).spec_last_live_check(),
            final(self).spec_cycles_to_die() == old(self).spec_cycles_to_die(),
            final(self).spec_live_count() == old(self).spec_live_count(),
            final(self).spec_checks_without_decrement() == old(self).spec_checks_without_decrement(),
    {
        self.memory.write(at, champion, player_id);
        proof {
            crate::memory::lemma_store_len(old(self).memory.values(), at as int, champion@);
            lemma_const_store_stable(
                old(self).memory.ages(),
                at as int,
                Seq::new(champion@.len(), |i: int| FRESH_AGE),
            );
        }
        let pid = self.pid_pool.get();
        let mut starting_process = Process::new(pid, player_id, at);
        starting_process.registers[0] = player_id;
        self.processes.push(starting_process);
        proof {
            assert(final(self).spec_processes().subrange(
                0,
                old(self).spec_processes().len() as int,
            ) =~= old(self).spec_processes());
        }
    }

    /// Loads every champion, spaced evenly around the arena: the player
    /// records are read from the byte-code headers, and one process per
    /// champion starts at its load address.
    pub fn load_players(&mut self, players: &Vec<(PlayerId, Vec<u8>)>)
        requires
            old(self).wf(),
            forall|j: int|
                0 <= j < players@.len() ==> (#[trigger] players@[j]).1@.len() >= HEADER_SIZE,
            forall|j: int| 0 <= j < players@.len() ==> (#[trigger] players@[j]).1@.len()
                <= HEADER_SIZE + MEM_SIZE,
        ensures
            final(self).wf(),
            final(self).spec_players().len() == old(self).spec_players().len() + players@.len(),
            final(self).spec_processes().len() == old(self).spec_processes().len()
                + players@.len(),
            final(self).spec_cycles() == old(self).spec_cycles(),
            final(self).spec_cycles_to_die() == old(self).spec_cycles_to_die(),
            final(self).spec_last_live_check() == old(self).spec_last_live_check(),
            final(self).spec_live_count() == old(self).spec_live_count(),
            final(self).spec_checks_without_decrement() == old(
                self,
            ).spec_checks_without_decrement(),
            ({
                let spacing = if players@.len() == 0 {
                    MEM_SIZE as int
                } else {
                    MEM_SIZE as int / players@.len() as int
                };
                forall|j: int|
                    0 <= j < players@.len() ==> {
                        let p = #[trigger] final(self).spec_processes()[old(self).spec_processes().len() + j];
                        &&& p.pc == j * spacing % (MEM_SIZE as int)
                        &&& p.player_id == players@[j].0
                        &&& p.registers@[0] == players@[j].0
                        &&& (forall|k: int| 1 <= k < REG_COUNT ==> p.registers@[k] == 0)
                        &&& p.zf == false
                        &&& p.state is Idle
                    }
            }),
            // Each champion body is stored at its spacing offset with its
            // player stamped as the owner of the written cells.
            ({
                let spacing = if players@.len() == 0 {
                    MEM_SIZE as int
                } else {
                    MEM_SIZE as int / players@.len() as int
                };
                &&& final(self).spec_memory().values() == spec_load_values(
                    old(self).spec_memory().values(),
                    spec_pairs(players@),
                    spacing,
                    0,
                )
                &&& final(self).spec_memory().owners() == spec_load_owners(
                    old(self).spec_memory().owners(),
                    spec_pairs(players@),
                    spacing,
                    0,
                )
            }),
            // Each player record carries the header's NUL-terminated name
            // and comment, the body size, and no recorded live yet.
            final(self).spec_players().subrange(0, old(self).spec_players().len() as int)
                == old(self).spec_players(),
            forall|j: int|
                0 <= j < players@.len() ==> {
                    let p = #[trigger] final(self).spec_players()[old(
                        self,
                    ).spec_players().len() + j];
                    &&& p.id == players@[j].0
                    &&& p.name@ == spec_nul_prefix(
                        players@[j].1@.subrange(4, 4 + PROG_NAME_LENGTH as int),
                    )
                    &&& p.comment@ == spec_nul_prefix(
                        players@[j].1@.subrange(
                            4 + PROG_NAME_LENGTH as int + 8,
                            4 + PROG_NAME_LENGTH as int + 8 + 2048,
                        ),
                    )
                    &&& p.size == players@[j].1@.len() - HEADER_SIZE
                    &&& p.last_live is None
                },
    {
        let n = self.players.len();
        let player_spacing: usize = MEM_SIZE / (if players.len() == 0 {
            1
        } else {
            players.len()
        });
        let ghost spacing: int = if players@.len() == 0 {
            MEM_SIZE as int
        } else {
            MEM_SIZE as int / players@.len() as int
        };
        proof {
            if players@.len() > 0 {
                assert(player_spacing as int == spacing);
            }
        }
        let mut i: usize = 0;
        while i < players.len()
            invariant
                self.wf(),
                i <= players@.len(),
                forall|j: int|
                    0 <= j < players@.len() ==> (#[trigger] players@[j]).1@.len() >= HEADER_SIZE,
                forall|j: int| 0 <= j < players@.len() ==> (#[trigger] players@[j]).1@.len()
                    <= HEADER_SIZE + MEM_SIZE,
                players@.len() > 0 ==> player_spacing as int == spacing,
                players@.len() > 0 ==> player_spacing as int == MEM_SIZE as int / players@.len()
                    as int,
                self.spec_players().len() == old(self).spec_players().len() + i,
                self.spec_processes().len() == old(self).spec_processes().len() + i,
                self.spec_cycles() == old(self).spec_cycles(),
                self.spec_cycles_to_die() == old(self).spec_cycles_to_die(),
                self.spec_last_live_check() == old(self).spec_last_live_check(),
                self.spec_live_count() == old(self).spec_live_count(),
                self.spec_checks_without_decrement() == old(
                    self,
                ).spec_checks_without_decrement(),
                spec_load_values(
                    self.spec_memory().values(),
                    spec_pairs(players@),
                    spacing,
                    i as int,
                ) == spec_load_values(
                    old(self).spec_memory().values(),
                    spec_pairs(players@),
                    spacing,
                    0,
                ),
                spec_load_owners(
                    self.spec_memory().owners(),
                    spec_pairs(players@),
                    spacing,
                    i as int,
                ) == spec_load_owners(
                    old(self).spec_memory().owners(),
                    spec_pairs(players@),
                    spacing,
                    0,
                ),
                self.spec_players().subrange(0, old(self).spec_players().len() as int) == old(
                    self,
                ).spec_players(),
                forall|j: int|
                    0 <= j < i ==> {
                        let p = #[trigger] self.spec_players()[old(self).spec_players().len()
                            + j];
                        &&& p.id == players@[j].0
                        &&& p.name@ == spec_nul_prefix(
                            players@[j].1@.subrange(4, 4 + PROG_NAME_LENGTH as int),
                        )
                        &&& p.comment@ == spec_nul_prefix(
                            players@[j].1@.subrange(
                                4 + PROG_NAME_LENGTH as int + 8,
                                4 + PROG_NAME_LENGTH as int + 8 + 2048,
                            ),
                        )
                        &&& p.size == players@[j].1@.len() - HEADER_SIZE
                        &&& p.last_live is None
                    },
                forall|j: int|
                    0 <= j < i ==> {
                        let p = #[trigger] self.spec_processes()[old(self).spec_processes().len() + j];
                        &&& p.pc == j * spacing % (MEM_SIZE as int)
                        &&& p.player_id == players@[j].0
                        &&& p.registers@[0] == players@[j].0
                        &&& (forall|k: int| 1 <= k < REG_COUNT ==> p.registers@[k] == 0)
                        &&& p.zf == false
                        &&& p.state is Idle
                    },
            decreases players@.len() - i,
        {
            let player_id = players[i].0;
            let program: &Vec<u8> = &players[i].1;
            let name = nul_terminated_prefix(program, 4, 4 + PROG_NAME_LENGTH);
            let comment = nul_terminated_prefix(
                program,
                4 + PROG_NAME_LENGTH + 8,
                4 + PROG_NAME_LENGTH + 8 + 2048,
            );
            let size = program.len() - HEADER_SIZE;
            self.players.push(Player { id: player_id, name, comment, size, last_live: None });
            proof {
                let n_players = players@.len() as int;
                let q = player_spacing as int;
                vstd::arithmetic::div_mod::lemma_fundamental_div_mod(MEM_SIZE as int, n_players);
                assert((i as int) * q <= MEM_SIZE) by (nonlinear_arith)
                    requires
                        0 <= i as int,
                        (i as int) < n_players,
                        q >= 0,
                        n_players * q <= MEM_SIZE,
                {}
                vstd::arithmetic::div_mod::lemma_mod_bound(
                    i as int * player_spacing as int,
                    MEM_SIZE as int,
                );
            }
            let at = mem_offset(i * player_spacing, 0);
            let body = body_bytes(program);
            let ghost prev = self.spec_processes();
            let ghost prev_players = self.spec_players();
            let ghost vals_pre = self.spec_memory().values();
            let ghost owns_pre = self.spec_memory().owners();
            self.load_champion(body.as_slice(), player_id, at);
            proof {
                assert(i as int * player_spacing as int == i as int * spacing);
                let pairs = spec_pairs(players@);
                assert(pairs[i as int] == (players@[i as int].0, players@[i as int].1@));
                assert(body@ =~= pairs[i as int].1.skip(HEADER_SIZE as int));
                assert(at as int == (i as int * spacing) % (MEM_SIZE as int));
                assert(Seq::new(body@.len(), |k: int| player_id) =~= Seq::new(
                    (pairs[i as int].1.len() - HEADER_SIZE) as nat,
                    |k: int| pairs[i as int].0,
                ));
                assert(spec_load_values(self.spec_memory().values(), pairs, spacing, i + 1)
                    == spec_load_values(vals_pre, pairs, spacing, i as int));
                assert(spec_load_owners(self.spec_memory().owners(), pairs, spacing, i + 1)
                    == spec_load_owners(owns_pre, pairs, spacing, i as int));
                let pbase = old(self).spec_players().len() as int;
                assert forall|j: int| 0 <= j < i implies #[trigger] self.spec_players()[pbase
                    + j] == prev_players[pbase + j] by {
                    assert(prev_players.subrange(0, prev_players.len() - 1)[pbase + j]
                        == prev_players[pbase + j]);
                }
                assert(self.spec_players().subrange(0, pbase)
                    =~= prev_players.subrange(0, pbase));
                assert(self.spec_players()[pbase + i as int] == prev_players.last());
                let base = old(self).spec_processes().len() as int;
                assert forall|j: int| 0 <= j < i implies #[trigger] self.spec_processes()[base
                    + j] == prev[base + j] by {
                    assert(self.spec_processes().subrange(0, prev.len() as int)[base + j]
                        == self.spec_processes()[base + j]);
                }
                assert(self.spec_processes()[base + i as int]
                    == self.spec_processes().last());
            }
            i += 1;
        }
    }
}

/// Constant-item stores leave every cell either untouched or holding the
/// constant.
pub proof fn lemma_const_store_stable(s: Seq<u16>, at: int, items: Seq<u16>)
    requires
        s.len() == MEM_SIZE,
        at >= 0,
        forall|j: int| 0 <= j < items.len() ==> items[j] == FRESH_AGE,
    ensures
        spec_store(s, at, items).len() == s.len(),
        forall|k: int|
            0 <= k < s.len() ==> (#[trigger] spec_store(s, at, items)[k]) == s[k] || spec_store(
                s,
                at,
                items,
            )[k] == FRESH_AGE,
    decreases items.len(),
{
    if items.len() > 0 {
        vstd::arithmetic::div_mod::lemma_mod_bound(at, MEM_SIZE as int);
        let s1 = s.update(at % (MEM_SIZE as int), items[0]);
        assert(forall|j: int| 0 <= j < items.skip(1).len() ==> items.skip(1)[j] == FRESH_AGE);
        lemma_const_store_stable(s1, at + 1, items.skip(1));
    }
}

/// The body of a byte-code file: everything after the header.
fn body_bytes(v: &Vec<u8>) -> (r: Vec<u8>)
    requires
        v@.len() >= HEADER_SIZE,
    ensures
        r@ == v@.skip(HEADER_SIZE as int),
{
    let mut out: Vec<u8> = Vec::new();
    let mut i: usize = HEADER_SIZE;
    while i < v.len()
        invariant
            HEADER_SIZE <= i <= v@.len(),
            out@ == v@.subrange(HEADER_SIZE as int, i as int),
        decreases v@.len() - i,
    {
        out.push(v[i]);
        proof {
            assert(out@ =~= v@.subrange(HEADER_SIZE as int, i + 1));
        }
        i += 1;
    }
    proof {
        assert(out@ =~= v@.skip(HEADER_SIZE as int));
    }
    out
}

/// The bytes before the first NUL in `v[start..end)`, the whole range if
/// none occurs.
fn nul_terminated_prefix(v: &Vec<u8>, start: usize, end: usize) -> (r: Vec<u8>)
    requires
        start <= end <= v@.len(),
    ensures
        r@ == spec_nul_prefix(v@.subrange(start as int, end as int)),
{
    let ghost text = v@.subrange(start as int, end as int);
    let mut out: Vec<u8> = Vec::new();
    let mut i = start;
    proof {
        assert(text.skip(0) =~= text);
        assert(Seq::<u8>::empty() + spec_nul_prefix(text) =~= spec_nul_prefix(text));
    }
    while i < end
        invariant
            start <= i <= end <= v@.len(),
            text == v@.subrange(start as int, end as int),
            spec_nul_prefix(text) == out@ + spec_nul_prefix(text.skip(i - start)),
        decreases end - i,
    {
        let ghost rest = text.skip(i - start);
        proof {
            assert(rest[0] == v@[i as int]);
        }
        let b = v[i];
        if b == 0 {
            proof {
                assert(spec_nul_prefix(rest) =~= Seq::<u8>::empty());
                assert(out@ + Seq::<u8>::empty() =~= out@);
            }
            return out;
        }
        proof {
            assert(rest.skip(1) =~= text.skip(i + 1 - start));
            assert(out@.push(b) =~= out@ + seq![b]);
            assert((out@ + seq![rest[0]]) + spec_nul_prefix(rest.skip(1)) =~= out@ + (seq![
                rest[0],
            ] + spec_nul_prefix(rest.skip(1))));
        }
        out.push(b);
        i += 1;
    }
    proof {
        assert(text.skip(end - start) =~= Seq::<u8>::empty());
        assert(out@ + Seq::<u8>::empty() =~= out@);
    }
    out
}


/// How many of the processes from index `i` on sit at address `a`.
pub open spec fn spec_count_at(ps: Seq<Process>, a: int, i: int) -> int
    decreases ps.len() - i,
{
    if 0 <= i < ps.len() {
        (if ps[i].pc == a {
            1int
        } else {
            0int
        }) + spec_count_at(ps, a, i + 1)
    } else {
        0
    }
}

/// How many of the processes from index `i` on belong to player `id`.
pub open spec fn spec_count_player(ps: Seq<Process>, id: PlayerId, i: int) -> int
    decreases ps.len() - i,
{
    if 0 <= i < ps.len() {
        (if ps[i].player_id == id {
            1int
        } else {
            0int
        }) + spec_count_player(ps, id, i + 1)
    } else {
        0
    }
}

/// The first player with identity `id`, from index `i` on.
pub open spec fn spec_find_player(ps: Seq<Player>, id: PlayerId, i: int) -> Option<int>
    decreases ps.len() - i,
{
    if 0 <= i < ps.len() {
        if ps[i].id == id {
            Some(i)
        } else {
            spec_find_player(ps, id, i + 1)
        }
    } else {
        None
    }
}

/// The identity and byte code of each player, as sequences.
pub open spec fn spec_pairs(v: Seq<(PlayerId, Vec<u8>)>) -> Seq<(PlayerId, Seq<u8>)> {
    Seq::new(
        v.len(),
        |i: int|
            if 0 <= i < v.len() {
                (v[i].0, v[i].1@)
            } else {
                (0 as PlayerId, Seq::empty())
            },
    )
}

/// The bytes before the first NUL, the whole string if none occurs.
pub open spec fn spec_nul_prefix(s: Seq<u8>) -> Seq<u8>
    decreases s.len(),
{
    if s.len() == 0 {
        Seq::empty()
    } else if s[0] == 0 {
        Seq::empty()
    } else {
        seq![s[0]] + spec_nul_prefix(s.skip(1))
    }
}

/// The arena values after the champions from index `j` on are stored,
/// each body at its spacing offset.
pub open spec fn spec_load_values(
    vals: Seq<u8>,
    pairs: Seq<(PlayerId, Seq<u8>)>,
    spacing: int,
    j: int,
) -> Seq<u8>
    decreases pairs.len() - j,
{
    if !(0 <= j < pairs.len()) {
        vals
    } else {
        spec_load_values(
            spec_store(
                vals,
                (j * spacing) % (MEM_SIZE as int),
                pairs[j].1.skip(HEADER_SIZE as int),
            ),
            pairs,
            spacing,
            j + 1,
        )
    }
}

/// The arena owners after the champions from index `j` on are stored,
/// each body's cells stamped with its player.
pub open spec fn spec_load_owners(
    owns: Seq<PlayerId>,
    pairs: Seq<(PlayerId, Seq<u8>)>,
    spacing: int,
    j: int,
) -> Seq<PlayerId>
    decreases pairs.len() - j,
{
    if !(0 <= j < pairs.len()) {
        owns
    } else {
        spec_load_owners(
            spec_store(
                owns,
                (j * spacing) % (MEM_SIZE as int),
                Seq::new((pairs[j].1.len() - HEADER_SIZE) as nat, |k: int| pairs[j].0),
            ),
            pairs,
            spacing,
            j + 1,
        )
    }
}

/// Address counts are bounded by the remaining processes.
pub proof fn lemma_count_at_bounds(ps: Seq<Process>, a: int, i: int)
    ensures
        0 <= spec_count_at(ps, a, i),
        0 <= i <= ps.len() ==> spec_count_at(ps, a, i) <= ps.len() - i,
    decreases ps.len() - i,
{
    if 0 <= i < ps.len() {
        lemma_count_at_bounds(ps, a, i + 1);
    }
}

/// Every address count is bounded by the process count.
pub proof fn lemma_count_at_total(ps: Seq<Process>, i: int)
    ensures
        forall|a: int|
            0 <= #[trigger] spec_count_at(ps, a, i) && (0 <= i <= ps.len() ==> spec_count_at(
                ps,
                a,
                i,
            ) <= ps.len() - i),
{
    assert forall|a: int|
        0 <= #[trigger] spec_count_at(ps, a, i) && (0 <= i <= ps.len() ==> spec_count_at(
            ps,
            a,
            i,
        ) <= ps.len() - i) by {
        lemma_count_at_bounds(ps, a, i);
    }
}

/// What one scheduler step may do to a process, whatever the arena held
/// at its turn: an idle process either fetches (entering execution with
/// one cycle of some opcode's cost already spent) or skips one byte on an
/// undecodable cell; a paused process burns exactly one cycle; a process
/// completing its delay returns to idle.
pub open spec fn spec_step_shape(o: Process, c: Process, t: u32) -> bool {
    &&& (o.state is Idle ==> ((exists|op: OpType|
        c == Process {
            state: ProcessState::Executing {
                cycle_left: (crate::defs::spec_op_cycles(op) - 1) as u32,
                op,
            },
            ..o
        }) || c == Process { pc: spec_mem_offset(o.pc as int, 1) as usize, ..o }))
    &&& (o.state matches ProcessState::Executing { cycle_left: n, op } ==> ((n >= 2 ==> c
        == Process {
        state: ProcessState::Executing { cycle_left: (n - 1) as u32, op },
        ..o
    }) && (n == 1 ==> c.state is Idle)))
    &&& c.pid == o.pid
    &&& c.player_id == o.player_id
    &&& (c.last_live_cycle == o.last_live_cycle || c.last_live_cycle == t)
}

/// The processes that survive a liveness check: those, in order, whose
/// recorded live cycle is later than the check being closed.
pub open spec fn spec_surviving(ps: Seq<Process>, llc: u32, j: int) -> Seq<Process>
    decreases ps.len() - j,
{
    if !(0 <= j < ps.len()) {
        Seq::empty()
    } else {
        (if ps[j].last_live_cycle > llc {
            seq![ps[j]]
        } else {
            Seq::empty()
        }) + spec_surviving(ps, llc, j + 1)
    }
}

/// How one tick carries the process list: every pre-existing process
/// takes one scheduler step, forks join strictly after them, and, when
/// the check fires, exactly the survivors remain, in order.
pub open spec fn spec_tick_processes(
    ps0: Seq<Process>,
    mid: Seq<Process>,
    fin: Seq<Process>,
    t: u32,
    fired: bool,
    llc: u32,
) -> bool {
    &&& mid.len() >= ps0.len()
    &&& (forall|i: int|
        0 <= i < ps0.len() ==> spec_step_shape(#[trigger] ps0[i], mid[i], t))
    &&& (forall|i: int| ps0.len() <= i < mid.len() ==> (#[trigger] mid[i]).wf())
    &&& (!fired ==> fin == mid)
    &&& (fired ==> fin == spec_surviving(mid, llc, 0))
}

/// How the tick's live set lands in the player records: a player whose
/// id is in the set takes the tick number as its last live cycle, every
/// other record is untouched.
pub open spec fn spec_players_relive(
    ps0: Seq<Player>,
    ps1: Seq<Player>,
    ls: Set<int>,
    t: u32,
) -> bool {
    &&& ps1.len() == ps0.len()
    &&& forall|j: int|
        0 <= j < ps0.len() ==> if ls.contains((#[trigger] ps0[j]).id as int) {
            ps1[j] == Player {
                last_live: Some(t),
                id: ps0[j].id,
                name: ps0[j].name,
                comment: ps0[j].comment,
                size: ps0[j].size,
            }
        } else {
            ps1[j] == ps0[j]
        }
}

/// How one liveness check settles the window and the forced-shrink
/// counter, given the lives `lc` counted in the closing window.
pub open spec fn spec_check_outcome(
    lc: u32,
    old_ctd: u32,
    old_checks: u32,
    new_ctd: u32,
    new_checks: u32,
) -> bool {
    let shrunk = if old_ctd >= CYCLE_DELTA {
        (old_ctd - CYCLE_DELTA) as u32
    } else {
        0u32
    };
    &&& (lc >= NBR_LIVE ==> new_ctd == shrunk && new_checks == 0)
    &&& (lc < NBR_LIVE && old_checks + 1 < MAX_CHECKS ==> new_ctd == old_ctd && new_checks
        == old_checks + 1)
    &&& (lc < NBR_LIVE && old_checks + 1 >= MAX_CHECKS ==> new_ctd == shrunk && new_checks == 0)
}

impl VirtualMachine {
    /// One machine cycle: every process steps once (newest first, so the
    /// tick's own forks wait for the next cycle), the arena ages, new
    /// forks join the list, players who proved life are recorded, the
    /// clock advances, and, when the window has elapsed, stale processes
    /// are culled and the window adapts.
    ///
    /// Returns whether the game is over: no process remains.
    #[verifier::loop_isolation(false)]
    pub fn tick(&mut self) -> (r: bool)
        requires
            old(self).wf(),
            old(self).spec_cycles() < u32::MAX,
        ensures
            final(self).wf(),
            final(self).spec_cycles() == old(self).spec_cycles() + 1,
            final(self).spec_players().len() == old(self).spec_players().len(),
            final(self).spec_memory().values().len() == MEM_SIZE,
            // Aging: a cell written this tick holds a fresh age; every
            // other age drops by exactly one, saturating at zero.
            forall|i: int|
                0 <= i < MEM_SIZE ==> {
                    let a = #[trigger] final(self).spec_memory().ages()[i];
                    a == FRESH_AGE || a == if old(self).spec_memory().ages()[i] > 0 {
                        (old(self).spec_memory().ages()[i] - 1) as u16
                    } else {
                        0u16
                    }
                },
            // Every pre-existing process took exactly one scheduler step;
            // forks joined strictly after them, and, when the check
            // fired, exactly the survivors of that stepped state remain.
            ({
                let fired0 = old(self).spec_cycles() + 1 - old(self).spec_last_live_check()
                    >= old(self).spec_cycles_to_die();
                exists|mid: Seq<Process>|
                    #[trigger] spec_tick_processes(
                        old(self).spec_processes(),
                        mid,
                        final(self).spec_processes(),
                        (old(self).spec_cycles() + 1) as u32,
                        fired0,
                        old(self).spec_last_live_check(),
                    )
            }),
            // The players who proved life this tick take the tick number
            // as their last live cycle; all other records are untouched.
            exists|ls: Set<int>|
                #[trigger] spec_players_relive(
                    old(self).spec_players(),
                    final(self).spec_players(),
                    ls,
                    (old(self).spec_cycles() + 1) as u32,
                ),
            ({
                let fired = old(self).spec_cycles() + 1 - old(self).spec_last_live_check()
                    >= old(self).spec_cycles_to_die();
                &&& (fired ==> final(self).spec_live_count() == 0 && final(self).spec_last_live_check() == old(self).spec_cycles() + 1)
                &&& (fired ==> forall|i: int|
                    0 <= i < final(self).spec_processes().len() ==> (#[trigger] final(self).spec_processes()[i]).last_live_cycle > old(self).spec_last_live_check())
                &&& (!fired ==> final(self).spec_live_count() >= old(self).spec_live_count()
                    && final(self).spec_live_count() <= old(self).spec_live_count() + old(self).spec_processes().len()
                    && final(self).spec_last_live_check() == old(self).spec_last_live_check()
                    && final(self).spec_cycles_to_die() == old(self).spec_cycles_to_die()
                    && final(self).spec_checks_without_decrement() == old(self).spec_checks_without_decrement())
                &&& (fired ==> exists|lc: u32|
                    lc >= old(self).spec_live_count() && lc <= old(self).spec_live_count()
                        + old(self).spec_processes().len() && #[trigger] spec_check_outcome(
                        lc,
                        old(self).spec_cycles_to_die(),
                        old(self).spec_checks_without_decrement(),
                        final(self).spec_cycles_to_die(),
                        final(self).spec_checks_without_decrement(),
                    ))
            }),
            r == (final(self).spec_processes().len() == 0),
    {
        // The number of this tick: what lives executed during it record.
        let tick_number: u32 = self.cycles + 1;
        // The arena ages once per cycle, before the executors run, so a
        // cell written this tick keeps its fresh age.
        self.memory.tick();
        let ghost aged = self.spec_memory().ages();
        let mut forks: Vec<Process> = Vec::new();
        let mut lives = live_set_new();
        let mut player_ids: Vec<PlayerId> = Vec::new();
        let mut pi: usize = 0;
        while pi < self.players.len()
            invariant
                pi <= self.players@.len(),
            decreases self.players@.len() - pi,
        {
            player_ids.push(self.players[pi].id);
            pi += 1;
        }

        // Step every process, newest first.
        let mut idx: usize = self.processes.len();
        while idx > 0
            invariant
                self.wf(),
                idx <= self.spec_processes().len(),
                self.spec_processes().len() == old(self).spec_processes().len(),
                self.spec_players() == old(self).spec_players(),
                self.spec_cycles() == old(self).spec_cycles(),
                self.spec_last_live_check() == old(self).spec_last_live_check(),
                self.spec_cycles_to_die() == old(self).spec_cycles_to_die(),
                self.spec_checks_without_decrement() == old(self).spec_checks_without_decrement(),
                self.spec_live_count() >= old(self).spec_live_count(),
                self.spec_live_count() as int <= old(self).spec_live_count() + (old(self).spec_processes().len() - idx),
                aged.len() == MEM_SIZE,
                forall|i: int|
                    0 <= i < MEM_SIZE ==> aged[i] == if old(self).spec_memory().ages()[i] > 0 {
                        (old(self).spec_memory().ages()[i] - 1) as u16
                    } else {
                        0u16
                    },
                ages_stable(aged, self.spec_memory().ages()),
                forall|i: int| 0 <= i < forks@.len() ==> (#[trigger] forks@[i]).wf(),
                tick_number == old(self).spec_cycles() + 1,
                forall|i: int|
                    0 <= i < idx ==> #[trigger] self.spec_processes()[i] == old(
                        self,
                    ).spec_processes()[i],
                forall|i: int|
                    idx <= i < self.spec_processes().len() ==> spec_step_shape(
                        #[trigger] old(self).spec_processes()[i],
                        self.spec_processes()[i],
                        tick_number,
                    ),
            decreases idx,
        {
            idx -= 1;
            proof {
                assert(self.spec_processes()[idx as int].wf());
            }
            let mut p: Process = self.processes[idx];
            if matches!(p.state, ProcessState::Idle) {
                match decode_op(&self.memory, p.pc) {
                    Ok(op) => {
                        let cycle_left = op_spec(op).cycles;
                        p.state = ProcessState::Executing { cycle_left, op };
                    },
                    Err(_) => {},
                }
            }
            match p.state {
                ProcessState::Executing { cycle_left: 1, op } => {
                    match decode_instr(&self.memory, op, p.pc) {
                        Ok(instr) => {
                            let ghost fl = forks@;
                            crate::instructions::execute_instr(
                                &instr,
                                &mut p,
                                &mut self.memory,
                                tick_number,
                                &mut self.live_count_since_last_check,
                                &mut self.pid_pool,
                                &mut forks,
                                &mut lives,
                                &player_ids,
                            );
                            proof {
                                assert forall|k: int|
                                    0 <= k < forks@.len() implies (#[trigger] forks@[k]).wf() by {
                                    if k < fl.len() {
                                        assert(forks@.subrange(0, fl.len() as int)[k]
                                            == forks@[k]);
                                    }
                                }
                            }
                        },
                        Err(_) => {
                            p.pc = mem_offset(p.pc, 1);
                        },
                    }
                    p.state = ProcessState::Idle;
                },
                ProcessState::Executing { cycle_left, op } => {
                    p.state = ProcessState::Executing { cycle_left: cycle_left - 1, op };
                },
                ProcessState::Idle => {
                    p.pc = mem_offset(p.pc, 1);
                },
            }
            proof {
                let o = old(self).spec_processes()[idx as int];
                if o.state is Idle && !(p.state is Idle) {
                    let op = p.state->Executing_op;
                    assert(p == Process {
                        state: ProcessState::Executing {
                            cycle_left: (crate::defs::spec_op_cycles(op) - 1) as u32,
                            op,
                        },
                        ..o
                    });
                }
                assert(spec_step_shape(o, p, tick_number));
            }
            self.processes[idx] = p;
        }

        // Forks buffered during the pass join at the tail.
        self.processes.append(&mut forks);
        let ghost procs_after = self.spec_processes();
        let ghost mem_after = self.spec_memory();

        // Record the players who proved life this tick.
        let ghost players0 = self.spec_players();
        let ghost ls = live_set_contents(lives);
        let mut i: usize = 0;
        while i < self.players.len()
            invariant
                i <= self.players@.len(),
                self.players@.len() == old(self).spec_players().len(),
                self.wf(),
                self.spec_cycles() == old(self).spec_cycles(),
                self.spec_last_live_check() == old(self).spec_last_live_check(),
                self.spec_cycles_to_die() == old(self).spec_cycles_to_die(),
                self.spec_checks_without_decrement() == old(self).spec_checks_without_decrement(),
                self.spec_live_count() >= old(self).spec_live_count(),
                self.spec_live_count() as int <= old(self).spec_live_count() + old(self).spec_processes().len(),
                self.spec_memory() == mem_after,
                self.spec_processes() == procs_after,
                tick_number == old(self).spec_cycles() + 1,
                players0 == old(self).spec_players(),
                ls == live_set_contents(lives),
                players0.len() == self.spec_players().len(),
                forall|j: int|
                    i <= j < players0.len() ==> #[trigger] self.spec_players()[j]
                        == players0[j],
                forall|j: int|
                    0 <= j < i ==> if ls.contains((#[trigger] players0[j]).id as int) {
                        self.spec_players()[j] == Player {
                            last_live: Some(tick_number),
                            id: players0[j].id,
                            name: players0[j].name,
                            comment: players0[j].comment,
                            size: players0[j].size,
                        }
                    } else {
                        self.spec_players()[j] == players0[j]
                    },
            decreases self.players@.len() - i,
        {
            if live_set_contains(&lives, self.players[i].id) {
                self.players[i].last_live = Some(tick_number);
            }
            i += 1;
        }
        proof {
            assert(spec_players_relive(
                old(self).spec_players(),
                self.spec_players(),
                ls,
                tick_number,
            ));
        }

        self.cycles = self.cycles + 1;

        // The liveness check.
        let last_live_check = self.last_live_check;
        let should_live_check = self.cycles - last_live_check >= self.cycles_to_die;
        if should_live_check {
            let mut kept: Vec<Process> = Vec::new();
            let mut j: usize = 0;
            proof {
                assert(kept@ + spec_surviving(procs_after, last_live_check, 0)
                    =~= spec_surviving(procs_after, last_live_check, 0));
            }
            while j < self.processes.len()
                invariant
                    j <= self.processes@.len(),
                    self.spec_processes() == procs_after,
                    forall|k: int| 0 <= k < self.processes@.len()
                        ==> (#[trigger] self.processes@[k]).wf(),
                    forall|k: int| 0 <= k < kept@.len() ==> (#[trigger] kept@[k]).wf(),
                    forall|k: int| 0 <= k < kept@.len()
                        ==> (#[trigger] kept@[k]).last_live_cycle > last_live_check,
                    kept@ + spec_surviving(procs_after, last_live_check, j as int)
                        == spec_surviving(procs_after, last_live_check, 0),
                decreases self.processes@.len() - j,
            {
                let ghost kept_pre = kept@;
                let q: Process = self.processes[j];
                if q.last_live_cycle > last_live_check {
                    kept.push(q);
                    proof {
                        assert(kept@ =~= kept_pre + seq![procs_after[j as int]]);
                        assert((kept_pre + seq![procs_after[j as int]]) + spec_surviving(
                            procs_after,
                            last_live_check,
                            j + 1,
                        ) =~= kept_pre + (seq![procs_after[j as int]] + spec_surviving(
                            procs_after,
                            last_live_check,
                            j + 1,
                        )));
                    }
                } else {
                    proof {
                        assert(kept_pre + (Seq::<Process>::empty() + spec_surviving(
                            procs_after,
                            last_live_check,
                            j + 1,
                        )) =~= kept_pre + spec_surviving(procs_after, last_live_check, j + 1));
                    }
                }
                j += 1;
            }
            proof {
                assert(spec_surviving(procs_after, last_live_check, procs_after.len() as int)
                    =~= Seq::<Process>::empty());
                assert(kept@ + Seq::<Process>::empty() =~= kept@);
            }
            self.processes = kept;

            let ghost lc_witness: u32 = self.live_count_since_last_check;
            if self.live_count_since_last_check >= NBR_LIVE {
                self.cycles_to_die = self.cycles_to_die.saturating_sub(CYCLE_DELTA);
                self.checks_without_cycle_decrement = 0;
            } else {
                self.checks_without_cycle_decrement = self.checks_without_cycle_decrement + 1;
            }
            if self.checks_without_cycle_decrement >= MAX_CHECKS {
                self.cycles_to_die = self.cycles_to_die.saturating_sub(CYCLE_DELTA);
                self.checks_without_cycle_decrement = 0;
            }
            self.live_count_since_last_check = 0;
            self.last_live_check = self.cycles;
            proof {
                assert(lc_witness >= old(self).spec_live_count());
                assert(lc_witness as int <= old(self).spec_live_count() + old(self).spec_processes().len());
                assert(spec_check_outcome(
                    lc_witness,
                    old(self).spec_cycles_to_die(),
                    old(self).spec_checks_without_decrement(),
                    self.spec_cycles_to_die(),
                    self.spec_checks_without_decrement(),
                ));
            }
        }
        proof {
            assert(spec_players_relive(
                old(self).spec_players(),
                self.spec_players(),
                ls,
                (old(self).spec_cycles() + 1) as u32,
            ));
            let fired0 = old(self).spec_cycles() + 1 - old(self).spec_last_live_check()
                >= old(self).spec_cycles_to_die();
            assert(fired0 == should_live_check);
            assert(spec_tick_processes(
                old(self).spec_processes(),
                procs_after,
                self.spec_processes(),
                (old(self).spec_cycles() + 1) as u32,
                fired0,
                old(self).spec_last_live_check(),
            ));
        }

        self.processes.len() == 0
    }
}


/// Collects players and their byte code, then builds a loaded machine.
#[derive(Debug)]
pub struct VMBuilder {
    pub players: Vec<(PlayerId, Vec<u8>)>,
}

impl VMBuilder {
    /// A builder with no players yet.
    pub fn new() -> (r: VMBuilder)
        ensures
            r.players@.len() == 0,
    {
        VMBuilder { players: Vec::new() }
    }

    /// Adds one player's byte code.
    pub fn with_player(self, player_id: PlayerId, champion: Vec<u8>) -> (r: VMBuilder)
        ensures
            r.players@.len() == self.players@.len() + 1,
            r.players@.last().0 == player_id,
            r.players@.last().1 == champion,
            r.players@.subrange(0, self.players@.len() as int) == self.players@,
    {
        let mut b = self;
        b.players.push((player_id, champion));
        proof {
            assert(b.players@.subrange(0, b.players@.len() - 1) =~= self.players@);
        }
        b
    }

    /// Builds the machine with every collected player loaded: bodies in
    /// the arena at their spacing offsets, one idle process each with the
    /// first register holding the player's identity.
    pub fn finish(self) -> (r: VirtualMachine)
        requires
            forall|j: int|
                0 <= j < self.players@.len() ==> HEADER_SIZE
                    <= (#[trigger] self.players@[j]).1@.len() <= HEADER_SIZE + MEM_SIZE,
        ensures
            r.wf(),
            r.spec_players().len() == self.players@.len(),
            r.spec_processes().len() == self.players@.len(),
            r.spec_cycles() == 0,
            r.spec_cycles_to_die() == CYCLE_TO_DIE,
            ({
                let spacing = if self.players@.len() == 0 {
                    MEM_SIZE as int
                } else {
                    MEM_SIZE as int / self.players@.len() as int
                };
                &&& (forall|j: int|
                    0 <= j < self.players@.len() ==> {
                        let p = #[trigger] r.spec_processes()[j];
                        &&& p.pc == j * spacing % (MEM_SIZE as int)
                        &&& p.player_id == self.players@[j].0
                        &&& p.registers@[0] == self.players@[j].0
                        &&& (forall|k: int| 1 <= k < REG_COUNT ==> p.registers@[k] == 0)
                        &&& p.zf == false
                        &&& p.state is Idle
                    })
                &&& r.spec_memory().values() == spec_load_values(
                    Seq::new(MEM_SIZE as nat, |i: int| 0u8),
                    spec_pairs(self.players@),
                    spacing,
                    0,
                )
                &&& r.spec_memory().owners() == spec_load_owners(
                    Seq::new(MEM_SIZE as nat, |i: int| 0 as PlayerId),
                    spec_pairs(self.players@),
                    spacing,
                    0,
                )
            }),
            forall|j: int|
                0 <= j < self.players@.len() ==> {
                    let p = #[trigger] r.spec_players()[j];
                    &&& p.id == self.players@[j].0
                    &&& p.name@ == spec_nul_prefix(
                        self.players@[j].1@.subrange(4, 4 + PROG_NAME_LENGTH as int),
                    )
                    &&& p.size == self.players@[j].1@.len() - HEADER_SIZE
                    &&& p.last_live is None
                },
    {
        let mut vm = VirtualMachine::new();
        let ghost v0 = vm.spec_memory().values();
        let ghost o0 = vm.spec_memory().owners();
        vm.load_players(&self.players);
        proof {
            assert(vm.spec_players().subrange(0, 0) =~= Seq::<Player>::empty());
            assert(v0 =~= Seq::new(MEM_SIZE as nat, |i: int| 0u8));
            assert(o0 =~= Seq::new(MEM_SIZE as nat, |i: int| 0 as PlayerId));
            assert forall|j: int| 0 <= j < self.players@.len() implies #[trigger] vm.spec_players()[j]
                == vm.spec_players()[0 + j] by {}
            assert forall|j: int|
                0 <= j < self.players@.len() implies #[trigger] vm.spec_processes()[j]
                == vm.spec_processes()[0 + j] by {}
        }
        vm
    }
}

} // verus!


