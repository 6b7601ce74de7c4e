//! The toroidal arena: byte cells with per-cell age and owner metadata.
//! Every index is reduced modulo `MEM_SIZE`; reads and writes that run past
//! the end wrap to the beginning.

use vstd::prelude::*;
use vstd::arithmetic::div_mod::{
    lemma_add_mod_noop, lemma_mod_bound, lemma_mod_twice, lemma_small_mod,
};
use crate::defs::{MEM_SIZE, PlayerId};
use crate::be::{be_to_i16, be_to_i32, i32_to_be, spec_be4, spec_i16_be, spec_i32_be,
    spec_u32_of_i32};

verus! {

/// Age given to a cell when it is written, and to every cell at the start.
pub const FRESH_AGE: u16 = 1024;

/// A sequence of `MEM_SIZE` cells with `items` stored one after the other
/// from index `at` on, wrapping around; later items win where the run is
/// longer than the arena.
pub open spec fn spec_store<T>(s: Seq<T>, at: int, items: Seq<T>) -> Seq<T>
    decreases items.len(),
{
    if items.len() == 0 {
        s
    } else {
        spec_store(s.update(at % (MEM_SIZE as int), items[0]), at + 1, items.skip(1))
    }
}

/// Storing preserves the length of the arena.
pub proof fn lemma_store_len<T>(s: Seq<T>, at: int, items: Seq<T>)
    requires
        s.len() == MEM_SIZE,
        at >= 0,
    ensures
        spec_store(s, at, items).len() == MEM_SIZE,
    decreases items.len(),
{
    if items.len() > 0 {
        lemma_mod_bound(at, MEM_SIZE as int);
        lemma_store_len(s.update(at % (MEM_SIZE as int), items[0]), at + 1, items.skip(1));
    }
}

/// What a store leaves in each cell, when the run fits the arena: cell
/// `(at + j) % MEM_SIZE` holds `items[j]`, and every other cell is
/// untouched.
pub proof fn lemma_store_pointwise<T>(s: Seq<T>, at: int, items: Seq<T>)
    requires
        s.len() == MEM_SIZE,
        at >= 0,
        items.len() <= MEM_SIZE,
    ensures
        spec_store(s, at, items).len() == MEM_SIZE,
        forall|j: int|
            0 <= j < items.len() ==> spec_store(s, at, items)[(at + j) % (MEM_SIZE as int)]
                == items[j],
        forall|k: int|
            0 <= k < MEM_SIZE && (forall|j: int|
                0 <= j < items.len() ==> #[trigger] ((at + j) % (MEM_SIZE as int)) != k)
                ==> #[trigger] spec_store(s, at, items)[k] == s[k],
    decreases items.len(),
{
    lemma_store_len(s, at, items);
    if items.len() > 0 {
        let m = MEM_SIZE as int;
        let c = at % m;
        lemma_mod_bound(at, m);
        let s1 = s.update(c, items[0]);
        let rest = items.skip(1);
        lemma_store_pointwise(s1, at + 1, rest);
        let r = spec_store(s, at, items);
        assert(r == spec_store(s1, at + 1, rest));
        // The first cell is written once and not touched again: the
        // remaining run is shorter than the arena, so no later index
        // falls back onto it.
        assert forall|j: int| 0 <= j < rest.len() implies #[trigger] ((at + 1 + j) % m) != c by {
            if (at + 1 + j) % m == c {
                // Two congruent indices at distance 1 + j with
                // 0 < 1 + j < MEM_SIZE: impossible.
                lemma_add_mod_noop(at, 1 + j, m);
                lemma_mod_twice(at, m);
                lemma_add_mod_noop(c, 1 + j, m);
                lemma_small_mod((1 + j) as nat, m as nat);
                assert((c + (1 + j)) % m == c);
                if c + 1 + j < m {
                    lemma_small_mod((c + 1 + j) as nat, m as nat);
                } else {
                    lemma_small_mod((c + 1 + j - m) as nat, m as nat);
                    vstd::arithmetic::div_mod::lemma_mod_multiples_vanish(
                        -1,
                        c + 1 + j,
                        m,
                    );
                }
            }
        }
        assert forall|j: int| 0 <= j < items.len() implies r[(at + j) % m] == items[j] by {
            if j == 0 {
                assert(r[c] == s1[c]);
            } else {
                assert((at + j) % m == (at + 1 + (j - 1)) % m);
                assert(r[(at + 1 + (j - 1)) % m] == rest[j - 1]);
            }
        }
        assert forall|k: int|
            0 <= k < MEM_SIZE && (forall|j: int|
                0 <= j < items.len() ==> #[trigger] ((at + j) % m) != k) implies #[trigger] r[k]
            == s[k] by {
            assert((at + 0) % m != k);
            assert(s1[k] == s[k]);
            assert forall|j2: int| 0 <= j2 < rest.len() implies #[trigger] ((at + 1 + j2) % m)
                != k by {
                assert((at + (j2 + 1)) % m != k);
                assert(at + 1 + j2 == at + (j2 + 1));
            }
        }
    }
}

/// The arena: parallel cell values, ages and owners, all of length
/// `MEM_SIZE`, every age at most `FRESH_AGE`.
pub struct Memory {
    values: Vec<u8>,
    ages: Vec<u16>,
    owners: Vec<PlayerId>,
}

impl Memory {
    /// The cell values as a sequence.
    pub closed spec fn values(&self) -> Seq<u8> {
        self.values@
    }

    /// The cell ages as a sequence.
    pub closed spec fn ages(&self) -> Seq<u16> {
        self.ages@
    }

    /// The cell owners as a sequence.
    pub closed spec fn owners(&self) -> Seq<PlayerId> {
        self.owners@
    }

    /// Well-formedness: the three buffers span the arena and no age
    /// exceeds `FRESH_AGE`.
    pub open spec fn wf(&self) -> bool {
        &&& self.values().len() == MEM_SIZE
        &&& self.ages().len() == MEM_SIZE
        &&& self.owners().len() == MEM_SIZE
        &&& forall|i: int| 0 <= i < MEM_SIZE ==> self.ages()[i] <= FRESH_AGE
    }

    /// The byte a read at `addr` yields: the cell at `addr mod MEM_SIZE`.
    pub open spec fn spec_cell(&self, addr: int) -> u8
        recommends
            self.wf(),
            addr >= 0,
    {
        self.values()[addr % (MEM_SIZE as int)]
    }

    /// A fresh arena: zeroed cells and owners, every age `FRESH_AGE`.
    pub fn new() -> (r: Memory)
        ensures
            r.wf(),
            r.values() == Seq::new(MEM_SIZE as nat, |i: int| 0u8),
            r.ages() == Seq::new(MEM_SIZE as nat, |i: int| FRESH_AGE),
            r.owners() == Seq::new(MEM_SIZE as nat, |i: int| 0 as PlayerId),
    {
        let values: Vec<u8> = vec![0u8; MEM_SIZE];
        let ages: Vec<u16> = vec![FRESH_AGE; MEM_SIZE];
        let owners: Vec<PlayerId> = vec![0 as PlayerId; MEM_SIZE];
        proof {
            assert(values@ =~= Seq::new(MEM_SIZE as nat, |i: int| 0u8));
            assert(ages@ =~= Seq::new(MEM_SIZE as nat, |i: int| FRESH_AGE));
            assert(owners@ =~= Seq::new(MEM_SIZE as nat, |i: int| 0 as PlayerId));
        }
        Memory { values, ages, owners }
    }

    /// The arena size in cells.
    pub fn size(&self) -> (r: usize)
        ensures
            r == MEM_SIZE,
    {
        MEM_SIZE
    }

    /// Read-only view of the cell values, for an observer to render.
    pub fn values_ptr(&self) -> (r: &Vec<u8>)
        ensures
            r@ == self.values(),
    {
        &self.values
    }

    /// Read-only view of the cell ages.
    pub fn ages_ptr(&self) -> (r: &Vec<u16>)
        ensures
            r@ == self.ages(),
    {
        &self.ages
    }

    /// Read-only view of the cell owners.
    pub fn owners_ptr(&self) -> (r: &Vec<PlayerId>)
        ensures
            r@ == self.owners(),
    {
        &self.owners
    }

    /// The byte at `addr`, which is reduced modulo `MEM_SIZE`: a read at
    /// any index equals the read at that index modulo the arena size.
    pub fn read(&self, addr: usize) -> (r: u8)
        requires
            self.wf(),
        ensures
            r == self.spec_cell(addr as int),
    {
        proof {
            lemma_mod_bound(addr as int, MEM_SIZE as int);
        }
        self.values[addr % MEM_SIZE]
    }

    /// One cycle of aging: every age drops by one, saturating at zero.
    pub fn tick(&mut self)
        requires
            old(self).wf(),
        ensures
            final(self).wf(),
            final(self).values() == old(self).values(),
            final(self).owners() == old(self).owners(),
            final(self).ages().len() == MEM_SIZE,
            forall|i: int|
                0 <= i < MEM_SIZE ==> final(self).ages()[i] == if old(self).ages()[i] > 0 {
                    (old(self).ages()[i] - 1) as u16
                } else {
                    0u16
                },
    {
        let ghost orig = self.ages@;
        let mut i: usize = 0;
        while i < MEM_SIZE
            invariant
                i <= MEM_SIZE,
                self.ages@.len() == MEM_SIZE,
                self.values@ == old(self).values@,
                self.owners@ == old(self).owners@,
                orig == old(self).ages@,
                forall|j: int| 0 <= j < MEM_SIZE ==> orig[j] <= FRESH_AGE,
                forall|j: int|
                    0 <= j < i ==> self.ages@[j] == if orig[j] > 0 {
                        (orig[j] - 1) as u16
                    } else {
                        0u16
                    },
                forall|j: int| i <= j < MEM_SIZE ==> self.ages@[j] == orig[j],
            decreases MEM_SIZE - i,
        {
            let a = self.ages[i];
            self.ages[i] = if a > 0 {
                a - 1
            } else {
                0
            };
            i += 1;
        }
    }

    /// Stores `bytes` from cell `at` on, wrapping around the seam: each
    /// written cell takes the byte, the age `FRESH_AGE` and the owner.
    pub fn write(&mut self, at: usize, bytes: &[u8], owner: PlayerId)
        requires
            old(self).wf(),
            at + bytes@.len() <= usize::MAX,
        ensures
            final(self).wf(),
            final(self).values() == spec_store(old(self).values(), at as int, bytes@),
            final(self).ages() == spec_store(
                old(self).ages(),
                at as int,
                Seq::new(bytes@.len(), |i: int| FRESH_AGE),
            ),
            final(self).owners() == spec_store(
                old(self).owners(),
                at as int,
                Seq::new(bytes@.len(), |i: int| owner),
            ),
    {
        let ghost fresh_items = Seq::new(bytes@.len(), |i: int| FRESH_AGE);
        let ghost owner_items = Seq::new(bytes@.len(), |i: int| owner);
        proof {
            assert(bytes@.skip(0) =~= bytes@);
            assert(fresh_items.skip(0) =~= fresh_items);
            assert(owner_items.skip(0) =~= owner_items);
        }
        let mut i: usize = 0;
        while i < bytes.len()
            invariant
                old(self).wf(),
                i <= bytes@.len(),
                at + bytes@.len() <= usize::MAX,
                self.values@.len() == MEM_SIZE,
                self.ages@.len() == MEM_SIZE,
                self.owners@.len() == MEM_SIZE,
                forall|j: int| 0 <= j < MEM_SIZE ==> self.ages@[j] <= FRESH_AGE,
                fresh_items == Seq::new(bytes@.len(), |k: int| FRESH_AGE),
                owner_items == Seq::new(bytes@.len(), |k: int| owner),
                spec_store(self.values@, at + i, bytes@.skip(i as int)) == spec_store(
                    old(self).values@,
                    at as int,
                    bytes@,
                ),
                spec_store(self.ages@, at + i, fresh_items.skip(i as int)) == spec_store(
                    old(self).ages@,
                    at as int,
                    fresh_items,
                ),
                spec_store(self.owners@, at + i, owner_items.skip(i as int)) == spec_store(
                    old(self).owners@,
                    at as int,
                    owner_items,
                ),
            decreases bytes@.len() - i,
        {
            proof {
                lemma_mod_bound(at + i, MEM_SIZE as int);
            }
            let idx: usize = (at + i) % MEM_SIZE;
            let b = bytes[i];
            self.values[idx] = b;
            self.ages[idx] = FRESH_AGE;
            self.owners[idx] = owner;
            proof {
                assert(bytes@.skip(i as int)[0] == bytes@[i as int]);
                assert(bytes@.skip(i as int).skip(1) =~= bytes@.skip(i + 1));
                assert(fresh_items.skip(i as int).skip(1) =~= fresh_items.skip(i + 1));
                assert(owner_items.skip(i as int).skip(1) =~= owner_items.skip(i + 1));
            }
            i += 1;
        }
        proof {
            assert(bytes@.skip(i as int) =~= Seq::<u8>::empty());
            assert(fresh_items.skip(i as int) =~= Seq::<u16>::empty());
            assert(owner_items.skip(i as int) =~= Seq::<PlayerId>::empty());
            lemma_store_len(old(self).values@, at as int, bytes@);
            lemma_store_len(old(self).ages@, at as int, fresh_items);
            lemma_store_len(old(self).owners@, at as int, owner_items);
        }
    }

    /// The big-endian signed 32-bit value assembled from the four cells at
    /// `addr`, wrapping around the seam.
    pub fn read_i32(&self, addr: usize) -> (r: i32)
        requires
            self.wf(),
        ensures
            r as int == spec_i32_be(
                self.spec_cell(addr as int),
                self.spec_cell(addr as int + 1),
                self.spec_cell(addr as int + 2),
                self.spec_cell(addr as int + 3),
            ),
    {
        proof {
            lemma_mod_bound(addr as int, MEM_SIZE as int);
        }
        let b0 = self.read(addr % MEM_SIZE);
        let b1 = self.read((addr % MEM_SIZE) + 1);
        let b2 = self.read((addr % MEM_SIZE) + 2);
        let b3 = self.read((addr % MEM_SIZE) + 3);
        proof {
            lemma_mod_twice(addr as int, MEM_SIZE as int);
            lemma_add_mod_noop(addr as int, 1, MEM_SIZE as int);
            lemma_add_mod_noop((addr as int) % (MEM_SIZE as int), 1, MEM_SIZE as int);
            lemma_small_mod(1nat, MEM_SIZE as nat);
            lemma_add_mod_noop(addr as int, 2, MEM_SIZE as int);
            lemma_add_mod_noop((addr as int) % (MEM_SIZE as int), 2, MEM_SIZE as int);
            lemma_small_mod(2nat, MEM_SIZE as nat);
            lemma_add_mod_noop(addr as int, 3, MEM_SIZE as int);
            lemma_add_mod_noop((addr as int) % (MEM_SIZE as int), 3, MEM_SIZE as int);
            lemma_small_mod(3nat, MEM_SIZE as nat);
        }
        be_to_i32(b0, b1, b2, b3)
    }

    /// The big-endian signed 16-bit value assembled from the two cells at
    /// `addr`, wrapping around the seam.
    pub fn read_i16(&self, addr: usize) -> (r: i16)
        requires
            self.wf(),
        ensures
            r as int == spec_i16_be(self.spec_cell(addr as int), self.spec_cell(addr as int + 1)),
    {
        proof {
            lemma_mod_bound(addr as int, MEM_SIZE as int);
        }
        let b0 = self.read(addr % MEM_SIZE);
        let b1 = self.read((addr % MEM_SIZE) + 1);
        proof {
            lemma_mod_twice(addr as int, MEM_SIZE as int);
            lemma_add_mod_noop(addr as int, 1, MEM_SIZE as int);
            lemma_add_mod_noop((addr as int) % (MEM_SIZE as int), 1, MEM_SIZE as int);
            lemma_small_mod(1nat, MEM_SIZE as nat);
        }
        be_to_i16(b0, b1)
    }

    /// Writes `value` as four big-endian bytes at `at`, stamping age and
    /// owner as `write` does.
    pub fn write_i32(&mut self, value: i32, owner: PlayerId, at: usize)
        requires
            old(self).wf(),
            at <= usize::MAX - 4,
        ensures
            final(self).wf(),
            final(self).values() == spec_store(
                old(self).values(),
                at as int,
                spec_be4(spec_u32_of_i32(value as int)),
            ),
            final(self).ages() == spec_store(
                old(self).ages(),
                at as int,
                Seq::new(4, |i: int| FRESH_AGE),
            ),
            final(self).owners() == spec_store(
                old(self).owners(),
                at as int,
                Seq::new(4, |i: int| owner),
            ),
    {
        let bytes: [u8; 4] = i32_to_be(value);
        let slice: &[u8] = bytes.as_slice();
        self.write(at, slice, owner);
        proof {
            assert(slice@ =~= bytes@);
            assert(Seq::new(slice@.len(), |i: int| FRESH_AGE) =~= Seq::new(
                4,
                |i: int| FRESH_AGE,
            ));
            assert(Seq::new(slice@.len(), |i: int| owner) =~= Seq::new(4, |i: int| owner));
            lemma_store_len(old(self).values@, at as int, slice@);
        }
    }
}


/// A read at any index equals the read at that index reduced modulo the
/// arena size.
pub proof fn lemma_read_wraps(m: Memory, k: int)
    requires
        k >= 0,
    ensures
        m.spec_cell(k) == m.spec_cell(k % (MEM_SIZE as int)),
{
    lemma_mod_twice(k, MEM_SIZE as int);
}

} // verus!

