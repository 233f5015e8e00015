//! The rule table: for every pattern of source bits, the next bit of a cell.
//!
//! A table of arity `K` has `2^K` entries. The entry of the all-zero pattern
//! is `false` and the entry of the all-one pattern is `true`, so that neither
//! a dead nor a fully alive neighbourhood flips by itself.

use crate::error::GridError;
use crate::random::{coin, flip};
use vstd::arithmetic::power2::{lemma2_to64, lemma_pow2_strictly_increases, lemma_pow2_unfold, pow2};
use vstd::prelude::*;

verus! {

/// The largest arity a table can have.
pub const MAX_ARITY: usize = 16;

/// How many refused draws an entry takes before it is given the one value
/// that can stand at its place.
pub const REROLL_LIMIT: u64 = 0xffff_ffff_ffff_ffff;

/// Whether `value` may stand at `index` in a table of `size` entries.
pub open spec fn admissible(index: nat, size: nat, value: bool) -> bool {
    &&& index == 0 ==> !value
    &&& index + 1 == size ==> value
}

/// Whether `entries` is a rule table of the given arity.
pub open spec fn valid_table(arity: nat, entries: Seq<bool>) -> bool {
    &&& 1 <= arity <= MAX_ARITY
    &&& entries.len() == pow2(arity)
    &&& entries.len() >= 2
    &&& !entries[0]
    &&& entries[entries.len() - 1]
}

/// The entry at `index` that a generator in `state` settles on, and the state
/// it is left in: the first admissible draw, or the opposite of the last draw
/// once `budget` further draws have been refused.
pub open spec fn settled(state: u64, index: nat, size: nat, budget: nat) -> (bool, u64)
    decreases budget,
{
    let draw = coin(state);
    if admissible(index, size, draw.0) {
        draw
    } else if budget == 0 {
        (!draw.0, draw.1)
    } else {
        settled(draw.1, index, size, (budget - 1) as nat)
    }
}

/// The first `count` entries of a table of `size` entries rolled by a
/// generator in `state`, and the state after them.
pub open spec fn rolled(state: u64, size: nat, count: nat) -> (Seq<bool>, u64)
    decreases count,
{
    if count == 0 {
        (Seq::empty(), state)
    } else {
        let before = rolled(state, size, (count - 1) as nat);
        let entry = settled(before.1, (count - 1) as nat, size, REROLL_LIMIT as nat);
        (before.0.push(entry.0), entry.1)
    }
}

/// The table of the given arity rolled by a generator in `state`, and the
/// state after it.
pub open spec fn rolled_table(arity: nat, state: u64) -> (Seq<bool>, u64) {
    rolled(state, pow2(arity), pow2(arity))
}

/// Whatever the draws, a settled entry is admissible.
pub proof fn lemma_settled_admissible(state: u64, index: nat, size: nat, budget: nat)
    requires
        size >= 2,
    ensures
        admissible(index, size, settled(state, index, size, budget).0),
    decreases budget,
{
    let draw = coin(state);
    if !admissible(index, size, draw.0) && budget > 0 {
        lemma_settled_admissible(draw.1, index, size, (budget - 1) as nat);
    }
}

/// Rolling `count` entries gives `count` entries, each admissible at its
/// place.
pub proof fn lemma_rolled_admissible(state: u64, size: nat, count: nat)
    requires
        size >= 2,
    ensures
        rolled(state, size, count).0.len() == count,
        forall|i: int|
            0 <= i < count ==> admissible(i as nat, size, #[trigger] rolled(state, size, count).0[i]),
    decreases count,
{
    if count > 0 {
        let before = rolled(state, size, (count - 1) as nat);
        lemma_rolled_admissible(state, size, (count - 1) as nat);
        lemma_settled_admissible(before.1, (count - 1) as nat, size, REROLL_LIMIT as nat);
    }
}

/// Every rolled table is a rule table: its first entry is `false` and its
/// last entry is `true`, whatever the seed.
pub proof fn lemma_rolled_table_valid(arity: nat, state: u64)
    requires
        1 <= arity <= MAX_ARITY,
    ensures
        valid_table(arity, rolled_table(arity, state).0),
{
    lemma_size_bounds(arity);
    lemma_rolled_admissible(state, pow2(arity), pow2(arity));
    let table = rolled_table(arity, state).0;
    assert(admissible(0, pow2(arity), table[0]));
    assert(admissible((pow2(arity) - 1) as nat, pow2(arity), table[pow2(arity) - 1]));
}

/// A table of an arity between 1 and `MAX_ARITY` has between 2 and 65536
/// entries.
pub proof fn lemma_size_bounds(arity: nat)
    requires
        1 <= arity <= MAX_ARITY,
    ensures
        2 <= pow2(arity) <= 0x10000,
{
    lemma2_to64();
    if arity > 1 {
        lemma_pow2_strictly_increases(1, arity);
    }
    if arity < 16 {
        lemma_pow2_strictly_increases(arity, 16);
    }
}

/// Tells whether `value` may stand at `index` in a table of `size` entries.
pub fn is_admissible(index: usize, size: usize, value: bool) -> (ok: bool)
    ensures
        ok == admissible(index as nat, size as nat, value),
{
    if index == 0 && value {
        false
    } else if size > 0 && index == size - 1 && !value {
        false
    } else {
        true
    }
}

/// The number of entries of a table of the given arity.
pub fn table_size(arity: usize) -> (size: usize)
    requires
        1 <= arity <= MAX_ARITY,
    ensures
        size == pow2(arity as nat),
{
    let mut size: usize = 1;
    let mut done: usize = 0;
    proof {
        lemma2_to64();
    }
    while done < arity
        invariant
            done <= arity <= MAX_ARITY,
            size == pow2(done as nat),
        decreases arity - done,
    {
        proof {
            lemma_pow2_unfold((done + 1) as nat);
            lemma_size_bounds((done + 1) as nat);
        }
        size = size * 2;
        done = done + 1;
    }
    size
}

/// Draws the entry at `index` until the draw is admissible there.
fn settle(state: u64, index: usize, size: usize) -> (r: (bool, u64))
    requires
        size >= 2,
    ensures
        r == settled(state, index as nat, size as nat, REROLL_LIMIT as nat),
        admissible(index as nat, size as nat, r.0),
{
    let mut current = state;
    let mut left: u64 = REROLL_LIMIT;
    loop
        invariant
            size >= 2,
            settled(state, index as nat, size as nat, REROLL_LIMIT as nat) == settled(
                current,
                index as nat,
                size as nat,
                left as nat,
            ),
        decreases left,
    {
        let (bit, next) = flip(current);
        if is_admissible(index, size, bit) {
            return (bit, next);
        }
        if left == 0 {
            return (!bit, next);
        }
        current = next;
        left = left - 1;
    }
}

/// Rolls all `size` entries of a table, in index order.
fn roll(state: u64, size: usize) -> (r: (Vec<bool>, u64))
    requires
        size >= 2,
    ensures
        (r.0@, r.1) == rolled(state, size as nat, size as nat),
{
    let mut entries: Vec<bool> = Vec::new();
    let mut current = state;
    let mut index: usize = 0;
    while index < size
        invariant
            index <= size,
            size >= 2,
            (entries@, current) == rolled(state, size as nat, index as nat),
        decreases size - index,
    {
        let (bit, next) = settle(current, index, size);
        entries.push(bit);
        current = next;
        index = index + 1;
    }
    (entries, current)
}

/// A copy of a vector of bits.
pub(crate) fn copy_bits(items: &Vec<bool>) -> (r: Vec<bool>)
    ensures
        r@ == items@,
{
    let mut r: Vec<bool> = Vec::new();
    let mut i: usize = 0;
    while i < items.len()
        invariant
            i <= items.len(),
            r@ == items@.take(i as int),
        decreases items.len() - i,
    {
        r.push(items[i]);
        i = i + 1;
        assert(r@ == items@.take(i as int));
    }
    assert(items@.take(items.len() as int) == items@);
    r
}

/// A rule table.
pub struct RuleTable {
    arity: usize,
    entries: Vec<bool>,
}

impl View for RuleTable {
    type V = Seq<bool>;

    /// The entries, by pattern.
    closed spec fn view(&self) -> Seq<bool> {
        self.entries@
    }
}

impl RuleTable {
    /// The number of source bits that a pattern packs.
    pub closed spec fn spec_arity(&self) -> nat {
        self.arity as nat
    }

    /// The table has `2^K` entries for its arity `K`, the first `false` and
    /// the last `true`.
    pub open spec fn wf(&self) -> bool {
        valid_table(self.spec_arity(), self@)
    }

    /// Takes the given entries as a table, or refuses them if they are no rule
    /// table of that arity.
    pub fn from_entries(arity: usize, entries: Vec<bool>) -> (r: Result<RuleTable, GridError>)
        ensures
            match r {
                Ok(table) => {
                    &&& valid_table(arity as nat, entries@)
                    &&& table.wf()
                    &&& table.spec_arity() == arity
                    &&& table@ == entries@
                },
                Err(e) => e == GridError::Configuration && !valid_table(arity as nat, entries@),
            },
    {
        if arity < 1 || arity > MAX_ARITY {
            return Err(GridError::Configuration);
        }
        let size = table_size(arity);
        proof {
            lemma_size_bounds(arity as nat);
        }
        if entries.len() != size || entries[0] || !entries[size - 1] {
            return Err(GridError::Configuration);
        }
        Ok(RuleTable { arity, entries })
    }

    /// Rolls a table of the given arity from a generator in `state`, and gives
    /// the state after it. An arity outside 1 to `MAX_ARITY` is refused.
    pub fn generate(arity: usize, state: u64) -> (r: Result<(RuleTable, u64), GridError>)
        ensures
            match r {
                Ok((table, next)) => {
                    &&& 1 <= arity <= MAX_ARITY
                    &&& table.wf()
                    &&& table.spec_arity() == arity
                    &&& (table@, next) == rolled_table(arity as nat, state)
                },
                Err(e) => e == GridError::Configuration && !(1 <= arity <= MAX_ARITY),
            },
    {
        if arity < 1 || arity > MAX_ARITY {
            return Err(GridError::Configuration);
        }
        let size = table_size(arity);
        proof {
            lemma_size_bounds(arity as nat);
            lemma_rolled_table_valid(arity as nat, state);
        }
        let (entries, next) = roll(state, size);
        Ok((RuleTable { arity, entries }, next))
    }

    /// Rolls every entry anew from a generator in `state`, and gives the state
    /// after it. The arity stays.
    pub fn randomize(&mut self, state: u64) -> (next: u64)
        requires
            old(self).wf(),
        ensures
            final(self).wf(),
            final(self).spec_arity() == old(self).spec_arity(),
            (final(self)@, next) == rolled_table(old(self).spec_arity(), state),
    {
        proof {
            lemma_size_bounds(self.arity as nat);
            lemma_rolled_table_valid(self.arity as nat, state);
        }
        let (entries, next) = roll(state, self.entries.len());
        self.entries = entries;
        next
    }

    /// A copy of the table.
    pub fn clone(&self) -> (r: RuleTable)
        ensures
            r@ == self@,
            r.spec_arity() == self.spec_arity(),
    {
        RuleTable { arity: self.arity, entries: copy_bits(&self.entries) }
    }

    /// The number of source bits that a pattern packs.
    pub fn arity(&self) -> (k: usize)
        ensures
            k == self.spec_arity(),
    {
        self.arity
    }

    /// The number of entries.
    pub fn size(&self) -> (n: usize)
        ensures
            n == self@.len(),
    {
        self.entries.len()
    }

    /// The next bit for the pattern `address`.
    pub fn lookup(&self, address: usize) -> (bit: bool)
        requires
            address < self@.len(),
        ensures
            bit == self@[address as int],
    {
        self.entries[address]
    }

    /// The next bit for the pattern `address`, if the table has that pattern.
    pub fn get(&self, address: usize) -> (bit: Option<bool>)
        ensures
            bit == if address < self@.len() {
                Some(self@[address as int])
            } else {
                None
            },
    {
        if address < self.entries.len() {
            Some(self.entries[address])
        } else {
            None
        }
    }
}

} // verus!
