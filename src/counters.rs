//! Item and chunk bookkeeping for the splitter.
use vstd::prelude::*;

verus! {

/// Index of the chunk that item `i` belongs to, with `n` items per chunk;
/// `n == 0` puts every item in chunk 0.
pub open spec fn chunk_of(i: nat, n: nat) -> nat {
    if n == 0 {
        0
    } else {
        i / n
    }
}

/// Position of item `i` inside its chunk.
pub open spec fn slot_of(i: nat, n: nat) -> nat {
    if n == 0 {
        i
    } else {
        i % n
    }
}

/// Counts the items placed so far and derives the chunk that the next one goes to.
pub struct Counters {
    pub items_per_chunk: u32,
    pub item_chunk_id: u32,
    pub chunk_id: u32,
    pub item_id: u32,
}

impl Counters {
    /// The counters agree with the number of items placed so far.
    pub open spec fn wf(&self) -> bool {
        &&& self.chunk_id as nat == chunk_of(self.item_id as nat, self.items_per_chunk as nat)
        &&& self.item_chunk_id as nat == slot_of(self.item_id as nat, self.items_per_chunk as nat)
    }

    pub fn new(items_per_chunk: u32) -> (r: Self)
        ensures
            r.wf(),
            r.items_per_chunk == items_per_chunk,
            r.item_id == 0,
            r.chunk_id == 0,
            r.item_chunk_id == 0,
    {
        Self { items_per_chunk, item_chunk_id: 0, chunk_id: 0, item_id: 0 }
    }

    /// Records one more placed item, rolling over to a new chunk when the
    /// current one is full.
    pub fn update(&mut self)
        requires
            old(self).wf(),
            old(self).item_id < u32::MAX,
        ensures
            final(self).wf(),
            final(self).items_per_chunk == old(self).items_per_chunk,
            final(self).item_id == old(self).item_id + 1,
    {
        proof {
            lemma_step(self.item_id as nat, self.items_per_chunk as nat);
        }
        if self.items_per_chunk > 0 && self.item_chunk_id + 1 == self.items_per_chunk {
            self.chunk_id += 1;
            self.item_chunk_id = 0;
        } else {
            self.item_chunk_id += 1;
        }
        self.item_id += 1;
    }
}

/// How chunk and slot move from item `i` to item `i + 1`.
pub proof fn lemma_step(i: nat, n: nat)
    ensures
        n > 0 && slot_of(i, n) + 1 == n ==> chunk_of(i + 1, n) == chunk_of(i, n) + 1
            && slot_of(i + 1, n) == 0,
        n > 0 && slot_of(i, n) + 1 != n ==> chunk_of(i + 1, n) == chunk_of(i, n)
            && slot_of(i + 1, n) == slot_of(i, n) + 1,
        n == 0 ==> chunk_of(i + 1, n) == 0 && slot_of(i + 1, n) == slot_of(i, n) + 1,
        chunk_of(i, n) <= i,
        slot_of(i, n) <= i,
{
    if n > 0 {
        vstd::arithmetic::div_mod::lemma_fundamental_div_mod(i as int, n as int);
        vstd::arithmetic::div_mod::lemma_fundamental_div_mod((i + 1) as int, n as int);
        vstd::arithmetic::div_mod::lemma_mod_bound(i as int, n as int);
        vstd::arithmetic::div_mod::lemma_mod_bound((i + 1) as int, n as int);
        vstd::arithmetic::div_mod::lemma_div_pos_is_pos(i as int, n as int);
        vstd::arithmetic::div_mod::lemma_div_is_ordered_by_denominator(i as int, 1, n as int);
        vstd::arithmetic::div_mod::lemma_mod_pos_bound(i as int, n as int);
        vstd::arithmetic::div_mod::lemma_div_basics(i as int);
        let q = i / n;
        let r = i % n;
        if r + 1 == n {
            assert(i + 1 == (q + 1) * n + 0) by (nonlinear_arith)
                requires i == q * n + r, r + 1 == n;
            vstd::arithmetic::div_mod::lemma_fundamental_div_mod_converse(
                (i + 1) as int, n as int, (q + 1) as int, 0);
        } else {
            assert(i + 1 == q * n + (r + 1)) by (nonlinear_arith)
                requires i == q * n + r;
            vstd::arithmetic::div_mod::lemma_fundamental_div_mod_converse(
                (i + 1) as int, n as int, q as int, (r + 1) as int);
        }
    }
}

} // verus!
