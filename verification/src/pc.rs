//! Program counters and the modular address arithmetic of the arena.

use vstd::prelude::*;
use vstd::arithmetic::div_mod::{
    lemma_add_mod_noop, lemma_mod_bound, lemma_mod_twice, lemma_mod_self_0,
    lemma_small_mod,
};
use crate::defs::{IDX_MOD, MEM_SIZE};

verus! {

/// Whether an addressing offset is reduced modulo `IDX_MOD` (`Limited`) or
/// modulo the whole arena (`Long`).
#[derive(Clone, Copy, Debug, PartialEq, Eq, Structural)]
pub enum OffsetType {
    Limited,
    Long,
}

/// `(at + offset)` reduced into `[0, MEM_SIZE)`.
pub open spec fn spec_mem_offset(at: int, offset: int) -> int {
    (at + offset) % (MEM_SIZE as int)
}

/// Rust's sign-preserving remainder: the reduction the addressing
/// instructions apply to their offsets before adding them to the counter.
pub open spec fn spec_trunc_mod(v: int, m: int) -> int
    recommends
        m > 0,
{
    if v >= 0 {
        v % m
    } else {
        -((-v) % m)
    }
}

/// Adds `offset` to the address `at` on the circular arena: the result is
/// `(at + offset) mod MEM_SIZE`, normalized into `[0, MEM_SIZE)` whatever
/// the signs.
pub fn mem_offset(at: usize, offset: isize) -> (r: usize)
    ensures
        r == spec_mem_offset(at as int, offset as int),
        r < MEM_SIZE,
{
    proof {
        lemma_mod_bound(at as int, MEM_SIZE as int);
    }
    let base: usize = at % MEM_SIZE;
    if offset >= 0 {
        let o: usize = (offset as usize) % MEM_SIZE;
        proof {
            lemma_mod_bound(offset as int, MEM_SIZE as int);
            lemma_add_mod_noop(at as int, offset as int, MEM_SIZE as int);
            lemma_mod_twice((at as int) + (offset as int) % (MEM_SIZE as int), MEM_SIZE as int);
            assert((base + o) % (MEM_SIZE as int) == spec_mem_offset(at as int, offset as int)) by {
                lemma_add_mod_noop(base as int, o as int, MEM_SIZE as int);
                lemma_mod_twice(at as int, MEM_SIZE as int);
                lemma_mod_twice(offset as int, MEM_SIZE as int);
                lemma_add_mod_noop(at as int, offset as int, MEM_SIZE as int);
            }
        }
        (base + o) % MEM_SIZE
    } else {
        // `-(offset + 1) + 1` equals `-offset` and cannot overflow, even for
        // the smallest representable offset.
        let neg: usize = (-(offset + 1)) as usize + 1;
        let o: usize = neg % MEM_SIZE;
        proof {
            lemma_mod_bound(neg as int, MEM_SIZE as int);
        }
        let r: usize = (base + (MEM_SIZE - o)) % MEM_SIZE;
        proof {
            assert(neg as int == -(offset as int));
            // base + (M - o) is congruent to at + offset modulo M.
            lemma_add_mod_noop(base as int, (MEM_SIZE - o) as int, MEM_SIZE as int);
            lemma_add_mod_noop(at as int, (MEM_SIZE - o) as int, MEM_SIZE as int);
            lemma_mod_twice(at as int, MEM_SIZE as int);
            assert((at as int + (MEM_SIZE - o)) % (MEM_SIZE as int)
                == spec_mem_offset(at as int, offset as int)) by {
                let m = MEM_SIZE as int;
                let k = (neg as int) / m;
                vstd::arithmetic::div_mod::lemma_fundamental_div_mod(neg as int, m);
                assert(neg as int == k * m + o);
                assert(at as int + (m - o) == at as int + offset as int + (k + 1) * m) by {
                    assert(offset as int == -(k * m + o));
                    assert((k + 1) * m == k * m + m) by (nonlinear_arith);
                }
                vstd::arithmetic::div_mod::lemma_mod_multiples_vanish(
                    k + 1,
                    at as int + offset as int,
                    m,
                );
            }
            lemma_add_mod_noop(base as int, (MEM_SIZE - o) as int, MEM_SIZE as int);
        }
        r
    }
}

/// Undoing an offset returns to the start, reduced into the arena:
/// `mem_offset(mem_offset(a, x), -x) == a mod MEM_SIZE`.
pub proof fn lemma_mem_offset_round_trip(a: int, x: int)
    ensures
        spec_mem_offset(spec_mem_offset(a, x), -x) == a % (MEM_SIZE as int),
{
    let m = MEM_SIZE as int;
    lemma_add_mod_noop((a + x) % m, -x, m);
    lemma_mod_twice(a + x, m);
    lemma_add_mod_noop(a + x, -x, m);
    lemma_mod_twice(-x, m);
}

/// A process's current absolute address in the arena, always in
/// `[0, MEM_SIZE)`.
#[derive(Clone, Copy, Debug, PartialEq, Eq, Structural)]
pub struct ProgramCounter(pub usize);

impl ProgramCounter {
    /// A counter at address `at mod MEM_SIZE`.
    pub fn at(at: usize) -> (r: ProgramCounter)
        ensures
            r.0 == (at as int) % (MEM_SIZE as int),
            r.0 < MEM_SIZE,
    {
        proof {
            lemma_mod_bound(at as int, MEM_SIZE as int);
        }
        ProgramCounter(at % MEM_SIZE)
    }

    /// Moves the counter by `offset` cells, wrapping around the arena.
    pub fn advance(&mut self, offset: isize)
        ensures
            final(self).0 == spec_mem_offset(old(self).0 as int, offset as int),
            final(self).0 < MEM_SIZE,
    {
        self.0 = mem_offset(self.0, offset);
    }

    /// The address `offset` cells away, with `offset` first reduced
    /// (sign preserved) modulo `IDX_MOD` for `Limited` addressing and modulo
    /// `MEM_SIZE` for `Long` addressing.
    pub fn offset(&self, offset: isize, offset_type: OffsetType) -> (r: usize)
        ensures
            r == spec_mem_offset(
                self.0 as int,
                spec_trunc_mod(
                    offset as int,
                    if offset_type is Limited { IDX_MOD as int } else { MEM_SIZE as int },
                ),
            ),
            r < MEM_SIZE,
    {
        let reach: usize = match offset_type {
            OffsetType::Limited => IDX_MOD,
            OffsetType::Long => MEM_SIZE,
        };
        let reduced: isize = if offset >= 0 {
            proof {
                lemma_mod_bound(offset as int, reach as int);
            }
            ((offset as usize) % reach) as isize
        } else {
            let neg: usize = (-(offset + 1)) as usize + 1;
            proof {
                lemma_mod_bound(neg as int, reach as int);
            }
            let red: usize = neg % reach;
            -(red as isize)
        };
        mem_offset(self.0, reduced)
    }

    /// The counter's absolute address.
    pub fn addr(&self) -> (r: usize)
        ensures
            r == self.0,
    {
        self.0
    }
}

} // verus!
