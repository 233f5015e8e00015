//! The split of the cells among workers.
//!
//! The cells are cut into contiguous ranges of one length, the number of
//! cells divided by the number of workers and rounded up; the last ranges may
//! be shorter or empty. The ranges follow one another without gap or overlap,
//! so that every cell belongs to exactly one worker. Each worker may be
//! assigned a processor core to run on, where the platform reports any.

use vstd::arithmetic::div_mod::lemma_fundamental_div_mod;
use vstd::prelude::*;

verus! {

/// The length of a worker's range: `cells / workers`, rounded up.
pub open spec fn chunk_len(cells: nat, workers: nat) -> nat {
    if cells % workers == 0 {
        cells / workers
    } else {
        cells / workers + 1
    }
}

/// The first cell of the range of worker `w`.
pub open spec fn chunk_start(cells: nat, workers: nat, w: nat) -> nat {
    if w * chunk_len(cells, workers) <= cells {
        w * chunk_len(cells, workers)
    } else {
        cells
    }
}

/// The cell after the last of the range of worker `w`.
pub open spec fn chunk_end(cells: nat, workers: nat, w: nat) -> nat {
    chunk_start(cells, workers, w + 1)
}

/// The number of workers for a step: the processors at hand, but no more than
/// `cap`, and at least one.
pub open spec fn workers_for(available: nat, cap: nat) -> nat {
    let fewer = if available <= cap {
        available
    } else {
        cap
    };
    if fewer == 0 {
        1
    } else {
        fewer
    }
}

/// The core that worker `w` is pinned to: the `w`-th of the reported cores,
/// or none where the platform reports no cores or fewer than that.
pub open spec fn core_for(cores: Option<Seq<usize>>, w: int) -> Option<usize> {
    match cores {
        Some(ids) => if 0 <= w < ids.len() {
            Some(ids[w])
        } else {
            None
        },
        None => None,
    }
}

/// The first `upto` ranges of `full`, one after the other.
pub open spec fn gathered<T>(full: Seq<T>, workers: nat, upto: nat) -> Seq<T>
    decreases upto,
{
    if upto == 0 {
        Seq::empty()
    } else {
        gathered(full, workers, (upto - 1) as nat) + full.subrange(
            chunk_start(full.len(), workers, (upto - 1) as nat) as int,
            chunk_end(full.len(), workers, (upto - 1) as nat) as int,
        )
    }
}

/// The ranges are laid out in order: each starts where the one before ends,
/// the first starts at cell 0, none reaches beyond the cells, and the last
/// ends at the last cell.
pub proof fn lemma_chunks_cover(cells: nat, workers: nat, w: nat)
    requires
        workers >= 1,
    ensures
        chunk_start(cells, workers, 0) == 0,
        chunk_start(cells, workers, w) <= chunk_end(cells, workers, w) <= cells,
        chunk_end(cells, workers, w) - chunk_start(cells, workers, w) <= chunk_len(cells, workers),
        w + 1 >= workers ==> chunk_end(cells, workers, w) == cells,
{
    let len = chunk_len(cells, workers);
    lemma_fundamental_div_mod(cells as int, workers as int);
    assert(workers * len >= cells) by (nonlinear_arith)
        requires
            cells == workers * (cells / workers) + cells % workers,
            0 <= cells % workers < workers,
            len == if cells % workers == 0 {
                cells / workers
            } else {
                cells / workers + 1
            },
    ;
    assert((w + 1) * len == w * len + len) by (nonlinear_arith);
    assert(0 * len == 0) by (nonlinear_arith);
    if w + 1 >= workers {
        assert((w + 1) * len >= workers * len) by (nonlinear_arith)
            requires
                w + 1 >= workers,
                len >= 0,
        ;
    }
}

/// The ranges of all workers, one after the other, give back the whole,
/// whatever the number of workers.
pub proof fn lemma_gathered_whole<T>(full: Seq<T>, workers: nat)
    requires
        workers >= 1,
    ensures
        gathered(full, workers, workers) == full,
{
    lemma_gathered_prefix(full, workers, workers);
    lemma_chunks_cover(full.len(), workers, (workers - 1) as nat);
    assert(full.subrange(0, full.len() as int) == full);
}

/// The first `upto` ranges, one after the other, are the cells before the
/// start of range `upto`.
pub proof fn lemma_gathered_prefix<T>(full: Seq<T>, workers: nat, upto: nat)
    requires
        workers >= 1,
    ensures
        gathered(full, workers, upto) == full.subrange(
            0,
            chunk_start(full.len(), workers, upto) as int,
        ),
    decreases upto,
{
    lemma_chunks_cover(full.len(), workers, upto);
    if upto == 0 {
        assert(full.subrange(0, 0) == Seq::<T>::empty());
    } else {
        let w = (upto - 1) as nat;
        lemma_gathered_prefix(full, workers, w);
        lemma_chunks_cover(full.len(), workers, w);
        let from = chunk_start(full.len(), workers, w) as int;
        let to = chunk_end(full.len(), workers, w) as int;
        assert(full.subrange(0, from) + full.subrange(from, to) == full.subrange(0, to));
    }
}

/// Asks `num_cpus::get` for the number of processors at hand.
///
/// Trusted to return. Nothing is claimed of the number: it depends on the
/// machine and on what the process is allowed to use.
#[verifier::external_body]
pub(crate) fn available_cores() -> usize {
    num_cpus::get()
}

/// Asks `core_affinity::get_core_ids` for the cores that the current thread
/// may run on, each as its number.
///
/// Trusted to return. Nothing is claimed of the cores: they depend on the
/// machine, and a platform that cannot tell gives `None`.
#[verifier::external_body]
pub(crate) fn reported_cores() -> Option<Vec<usize>> {
    core_affinity::get_core_ids().map(|ids| ids.into_iter().map(|core| core.id).collect())
}

/// Looks at the machine and lays out the ranges of a step over `cells` cells:
/// as many workers as there are processors at hand, but no more than `cap`
/// and at least one, each pinned to a reported core where there is one.
pub fn survey(cells: usize, cap: usize) -> (r: Vec<Assignment>)
    ensures
        1 <= r.len(),
        cap >= 1 ==> r.len() <= cap,
        forall|w: int|
            0 <= w < r.len() ==> (#[trigger] r[w]).start == chunk_start(
                cells as nat,
                r.len() as nat,
                w as nat,
            ) && r[w].end == chunk_end(cells as nat, r.len() as nat, w as nat),
{
    let workers = worker_count(available_cores(), cap);
    let cores = reported_cores();
    plan(cells, workers, &cores)
}

/// The number of workers for a step.
pub fn worker_count(available: usize, cap: usize) -> (workers: usize)
    ensures
        workers == workers_for(available as nat, cap as nat),
        workers >= 1,
{
    let fewer = if available <= cap {
        available
    } else {
        cap
    };
    if fewer == 0 {
        1
    } else {
        fewer
    }
}

/// The length of a worker's range.
pub fn chunk_size(cells: usize, workers: usize) -> (len: usize)
    requires
        workers >= 1,
    ensures
        len == chunk_len(cells as nat, workers as nat),
        len <= cells,
{
    proof {
        lemma_fundamental_div_mod(cells as int, workers as int);
        assert(cells / workers <= cells && (cells % workers != 0 ==> cells / workers < cells))
            by (nonlinear_arith)
            requires
                cells == workers * (cells / workers) + cells % workers,
                0 <= cells % workers < workers,
                workers >= 1,
                0 <= cells / workers,
        ;
    }
    if cells % workers == 0 {
        cells / workers
    } else {
        cells / workers + 1
    }
}

/// The range of one worker, and the core it is pinned to, if any.
#[derive(Clone, Copy, Debug, PartialEq, Eq, Structural)]
pub struct Assignment {
    /// The first cell of the range.
    pub start: usize,
    /// The cell after the last of the range.
    pub end: usize,
    /// The core to run on.
    pub core: Option<usize>,
}

/// The view of the reported cores as plain values.
pub open spec fn cores_view(cores: &Option<Vec<usize>>) -> Option<Seq<usize>> {
    match cores {
        Some(ids) => Some(ids@),
        None => None,
    }
}

/// Lays out the ranges of `workers` workers over `cells` cells, and pins
/// worker `w` to the `w`-th reported core.
pub fn plan(cells: usize, workers: usize, cores: &Option<Vec<usize>>) -> (r: Vec<Assignment>)
    requires
        workers >= 1,
    ensures
        r.len() == workers,
        forall|w: int|
            0 <= w < workers ==> (#[trigger] r[w]) == (Assignment {
                start: chunk_start(cells as nat, workers as nat, w as nat) as usize,
                end: chunk_end(cells as nat, workers as nat, w as nat) as usize,
                core: core_for(cores_view(cores), w),
            }),
{
    let len = chunk_size(cells, workers);
    let mut r: Vec<Assignment> = Vec::new();
    let mut w: usize = 0;
    let mut start: usize = 0;
    proof {
        lemma_chunks_cover(cells as nat, workers as nat, 0);
    }
    while w < workers
        invariant
            w <= workers,
            workers >= 1,
            len == chunk_len(cells as nat, workers as nat),
            len <= cells,
            start == chunk_start(cells as nat, workers as nat, w as nat),
            r.len() == w,
            forall|v: int|
                0 <= v < w ==> (#[trigger] r[v]) == (Assignment {
                    start: chunk_start(cells as nat, workers as nat, v as nat) as usize,
                    end: chunk_end(cells as nat, workers as nat, v as nat) as usize,
                    core: core_for(cores_view(cores), v),
                }),
        decreases workers - w,
    {
        proof {
            lemma_chunks_cover(cells as nat, workers as nat, w as nat);
            assert((w + 1) * len == w * len + len) by (nonlinear_arith);
        }
        let end = if len <= cells - start {
            start + len
        } else {
            cells
        };
        let core = match cores {
            Some(ids) => if w < ids.len() {
                Some(ids[w])
            } else {
                None
            },
            None => None,
        };
        r.push(Assignment { start, end, core });
        start = end;
        w = w + 1;
    }
    r
}

} // verus!
