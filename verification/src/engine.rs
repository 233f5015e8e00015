//! The step: from one generation of cells to the next.
//!
//! Every cell packs the current bits of its sources into a pattern, first
//! source in the highest place, and takes the rule table's entry for that
//! pattern as its next bit. All cells read the same generation; none sees a
//! neighbour's new bit. Beside each cell runs a counter of how recently the
//! cell changed. The counters are for display alone and never enter a step.

use crate::partition::{chunk_end, chunk_start, gathered, lemma_chunks_cover, lemma_gathered_whole, plan};
use crate::rule::{lemma_size_bounds, RuleTable, MAX_ARITY};
use crate::topology::Topology;
use vstd::arithmetic::power2::{lemma2_to64, lemma_pow2_unfold, pow2};
use vstd::prelude::*;

verus! {

/// A bit as a number.
pub open spec fn bit(b: bool) -> nat {
    if b {
        1
    } else {
        0
    }
}

/// The pattern that the bits of the cells in `tuple` pack, the first of the
/// tuple in the highest place.
pub open spec fn address(cells: Seq<bool>, tuple: Seq<usize>) -> nat
    decreases tuple.len(),
{
    if tuple.len() == 0 {
        0
    } else {
        2 * address(cells, tuple.drop_last()) + bit(cells[tuple.last() as int])
    }
}

/// The next bit of the cell with index `cell`.
pub open spec fn next_bit(cells: Seq<bool>, links: Seq<Seq<usize>>, rule: Seq<bool>, cell: int) -> bool {
    rule[address(cells, links[cell]) as int]
}

/// The next generation of cells.
pub open spec fn next_cells(cells: Seq<bool>, links: Seq<Seq<usize>>, rule: Seq<bool>) -> Seq<bool> {
    Seq::new(cells.len(), |c: int| next_bit(cells, links, rule, c))
}

/// The counter of a cell after a step: raised by 2 but not above `window` if
/// the cell changed, and then lowered by 1 but not below 0.
pub open spec fn next_recency(prior: nat, changed: bool, window: nat) -> nat {
    let raised = if changed {
        if prior + 2 <= window {
            prior + 2
        } else {
            window
        }
    } else {
        prior
    };
    if raised == 0 {
        0
    } else {
        (raised - 1) as nat
    }
}

/// The counters after the step from `cells` to `next`.
pub open spec fn next_recencies(
    cells: Seq<bool>,
    next: Seq<bool>,
    recency: Seq<usize>,
    window: nat,
) -> Seq<usize> {
    Seq::new(
        recency.len(),
        |c: int| next_recency(recency[c] as nat, cells[c] != next[c], window) as usize,
    )
}

/// Whether the parts fit together as the state of one grid: the connection
/// table and the rule table are well formed and of one arity, there is one
/// bit and one counter for each cell, and no counter is above `window`.
pub open spec fn steppable(
    cells: Seq<bool>,
    topology: &Topology,
    rule: &RuleTable,
    recency: Seq<usize>,
    window: nat,
) -> bool {
    &&& topology.wf()
    &&& rule.wf()
    &&& rule.spec_arity() == topology.spec_arity()
    &&& cells.len() == topology@.len()
    &&& recency.len() == cells.len()
    &&& forall|c: int| 0 <= c < recency.len() ==> (#[trigger] recency[c]) <= window
}

/// A pattern of `K` bits is below `2^K`.
pub proof fn lemma_address_bound(cells: Seq<bool>, tuple: Seq<usize>)
    ensures
        address(cells, tuple) < pow2(tuple.len()),
    decreases tuple.len(),
{
    if tuple.len() == 0 {
        lemma2_to64();
    } else {
        lemma_address_bound(cells, tuple.drop_last());
        lemma_pow2_unfold(tuple.len());
    }
}

/// A counter that is at most `window` stays at most `window`.
pub proof fn lemma_recency_bounded(prior: nat, changed: bool, window: nat)
    requires
        prior <= window,
    ensures
        next_recency(prior, changed, window) <= window,
{
}

/// The counter of a cell that did not change falls by 1, but not below 0. The
/// counter of a cell that changed rises by 1, where the rise by 2 stays within
/// `window`.
pub proof fn lemma_recency_tick(prior: nat, changed: bool, window: nat)
    requires
        prior <= window,
        changed ==> prior + 2 <= window || window == 0,
    ensures
        changed ==> next_recency(prior, changed, window) == if prior + 1 <= window {
            prior + 1
        } else {
            window
        },
        !changed ==> next_recency(prior, changed, window) == if prior >= 1 {
            prior - 1
        } else {
            0
        },
{
}

/// Packs the bits of the cells in `tuple` into a pattern, the first of the
/// tuple in the highest place.
pub fn pack(cells: &Vec<bool>, tuple: &Vec<usize>) -> (r: usize)
    requires
        tuple.len() <= MAX_ARITY,
        forall|k: int| 0 <= k < tuple.len() ==> (#[trigger] tuple@[k]) < cells.len(),
    ensures
        r == address(cells@, tuple@),
        r < pow2(tuple.len() as nat),
{
    let mut value: usize = 0;
    let mut k: usize = 0;
    proof {
        lemma2_to64();
        assert(tuple@.take(0) == Seq::<usize>::empty());
    }
    while k < tuple.len()
        invariant
            k <= tuple.len() <= MAX_ARITY,
            forall|j: int| 0 <= j < tuple.len() ==> (#[trigger] tuple@[j]) < cells.len(),
            value == address(cells@, tuple@.take(k as int)),
        decreases tuple.len() - k,
    {
        let one: usize = if cells[tuple[k]] {
            1
        } else {
            0
        };
        proof {
            assert(tuple@.take(k + 1).drop_last() == tuple@.take(k as int));
            assert(tuple@.take(k + 1).last() == tuple@[k as int]);
            lemma_address_bound(cells@, tuple@.take(k as int));
            lemma_pow2_unfold((k + 1) as nat);
            lemma_size_bounds((k + 1) as nat);
        }
        value = value * 2 + one;
        k = k + 1;
    }
    proof {
        assert(tuple@.take(k as int) == tuple@);
        lemma_address_bound(cells@, tuple@);
    }
    value
}

/// Moves the counter of a cell over one step.
pub fn bump(prior: usize, changed: bool, window: usize) -> (r: usize)
    ensures
        r == next_recency(prior as nat, changed, window as nat),
{
    let raised = if changed {
        if prior >= window || window - prior <= 2 {
            window
        } else {
            prior + 2
        }
    } else {
        prior
    };
    if raised == 0 {
        0
    } else {
        raised - 1
    }
}

/// Computes the next bits and counters of the cells from `start` up to, not
/// including, `end`. Nothing is written but the result: a slice can be
/// computed beside any other.
pub fn step_slice(
    cells: &Vec<bool>,
    topology: &Topology,
    rule: &RuleTable,
    recency: &Vec<usize>,
    window: usize,
    start: usize,
    end: usize,
) -> (r: (Vec<bool>, Vec<usize>))
    requires
        steppable(cells@, topology, rule, recency@, window as nat),
        start <= end <= cells.len(),
    ensures
        r.0@ == next_cells(cells@, topology@, rule@).subrange(start as int, end as int),
        r.1@ == next_recencies(
            cells@,
            next_cells(cells@, topology@, rule@),
            recency@,
            window as nat,
        ).subrange(start as int, end as int),
{
    let mut bits: Vec<bool> = Vec::new();
    let mut counters: Vec<usize> = Vec::new();
    let ghost all_bits = next_cells(cells@, topology@, rule@);
    let ghost all_counters = next_recencies(cells@, all_bits, recency@, window as nat);
    let mut c: usize = start;
    while c < end
        invariant
            start <= c <= end <= cells.len(),
            steppable(cells@, topology, rule, recency@, window as nat),
            all_bits == next_cells(cells@, topology@, rule@),
            all_counters == next_recencies(cells@, all_bits, recency@, window as nat),
            bits@ == all_bits.subrange(start as int, c as int),
            counters@ == all_counters.subrange(start as int, c as int),
        decreases end - c,
    {
        let tuple = topology.tuple(c);
        let pattern = pack(cells, tuple);
        let fresh = rule.lookup(pattern);
        let counter = bump(recency[c], cells[c] != fresh, window);
        proof {
            lemma_recency_bounded(recency[c as int] as nat, cells[c as int] != fresh, window as nat);
        }
        bits.push(fresh);
        counters.push(counter);
        c = c + 1;
        assert(bits@ == all_bits.subrange(start as int, c as int));
        assert(counters@ == all_counters.subrange(start as int, c as int));
    }
    (bits, counters)
}

/// Computes the next generation: the next bit of every cell, and its counter
/// after the step.
pub fn step(
    cells: &Vec<bool>,
    topology: &Topology,
    rule: &RuleTable,
    recency: &Vec<usize>,
    window: usize,
) -> (r: (Vec<bool>, Vec<usize>))
    requires
        steppable(cells@, topology, rule, recency@, window as nat),
    ensures
        r.0@ == next_cells(cells@, topology@, rule@),
        r.1@ == next_recencies(cells@, r.0@, recency@, window as nat),
        steppable(r.0@, topology, rule, r.1@, window as nat),
{
    let r = step_slice(cells, topology, rule, recency, window, 0, cells.len());
    proof {
        let bits = next_cells(cells@, topology@, rule@);
        let counters = next_recencies(cells@, bits, recency@, window as nat);
        assert(bits.subrange(0, cells.len() as int) == bits);
        assert(counters.subrange(0, cells.len() as int) == counters);
        lemma_counters_bounded(cells@, bits, recency@, window as nat);
    }
    r
}

/// Computes the next generation range by range, as `workers` workers would,
/// and puts the ranges together. The result is that of `step`, whatever the
/// number of workers.
pub fn step_partitioned(
    cells: &Vec<bool>,
    topology: &Topology,
    rule: &RuleTable,
    recency: &Vec<usize>,
    window: usize,
    workers: usize,
) -> (r: (Vec<bool>, Vec<usize>))
    requires
        steppable(cells@, topology, rule, recency@, window as nat),
        workers >= 1,
    ensures
        r.0@ == next_cells(cells@, topology@, rule@),
        r.1@ == next_recencies(cells@, r.0@, recency@, window as nat),
        steppable(r.0@, topology, rule, r.1@, window as nat),
{
    let ranges = plan(cells.len(), workers, &None);
    let ghost all_bits = next_cells(cells@, topology@, rule@);
    let ghost all_counters = next_recencies(cells@, all_bits, recency@, window as nat);
    let mut bits: Vec<bool> = Vec::new();
    let mut counters: Vec<usize> = Vec::new();
    let mut w: usize = 0;
    while w < workers
        invariant
            w <= workers,
            ranges.len() == workers,
            steppable(cells@, topology, rule, recency@, window as nat),
            all_bits == next_cells(cells@, topology@, rule@),
            all_counters == next_recencies(cells@, all_bits, recency@, window as nat),
            forall|v: int|
                0 <= v < workers ==> (#[trigger] ranges[v]).start == chunk_start(
                    cells.len() as nat,
                    workers as nat,
                    v as nat,
                ) && ranges[v].end == chunk_end(cells.len() as nat, workers as nat, v as nat),
            bits@ == gathered(all_bits, workers as nat, w as nat),
            counters@ == gathered(all_counters, workers as nat, w as nat),
        decreases workers - w,
    {
        let range = ranges[w];
        proof {
            lemma_chunks_cover(cells.len() as nat, workers as nat, w as nat);
        }
        let (mut part_bits, mut part_counters) = step_slice(
            cells,
            topology,
            rule,
            recency,
            window,
            range.start,
            range.end,
        );
        bits.append(&mut part_bits);
        counters.append(&mut part_counters);
        w = w + 1;
    }
    proof {
        lemma_gathered_whole(all_bits, workers as nat);
        lemma_gathered_whole(all_counters, workers as nat);
        lemma_counters_bounded(cells@, all_bits, recency@, window as nat);
    }
    (bits, counters)
}

/// After a step no counter is above `window`, if none was before.
pub proof fn lemma_counters_bounded(
    cells: Seq<bool>,
    next: Seq<bool>,
    recency: Seq<usize>,
    window: nat,
)
    requires
        forall|c: int| 0 <= c < recency.len() ==> (#[trigger] recency[c]) <= window,
    ensures
        next_recencies(cells, next, recency, window).len() == recency.len(),
        forall|c: int|
            0 <= c < recency.len() ==> (#[trigger] next_recencies(cells, next, recency, window)[c])
                <= window,
{
    let after = next_recencies(cells, next, recency, window);
    assert forall|c: int| 0 <= c < recency.len() implies (#[trigger] after[c]) <= window by {
        lemma_recency_bounded(recency[c] as nat, cells[c] != next[c], window);
    }
}

} // verus!
