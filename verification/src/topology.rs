//! The connection table: for every cell, the tuple of cells it reads.
//!
//! A cell draws its sources from a list of candidate offsets. The list is
//! shuffled and scanned in order, and the first offsets that land inside the
//! grid give the sources, in the order in which they were found. A grid in
//! which some cell has too few candidates inside the grid is refused: no slot
//! of a tuple is ever left to a default.

use crate::error::GridError;
use crate::random::{shuffle, shuffled};
use crate::rule::MAX_ARITY;
use vstd::arithmetic::div_mod::{lemma_fundamental_div_mod, lemma_fundamental_div_mod_converse};
use vstd::prelude::*;
use vstd::seq_lib::{commutative_foldl, lemma_fold_left_permutation};

verus! {

/// A displacement from a cell to a candidate source, as `(dx, dy)`.
pub type Offset = (i32, i32);

/// The largest radius a square neighbourhood can have.
pub const MAX_RADIUS: usize = 64;

/// The largest number of cells a grid can have.
pub const MAX_CELLS: usize = 0x4000_0000;

/// Which relative positions a cell may draw its sources from.
#[derive(Clone, Copy, Debug, PartialEq, Eq, Structural)]
pub enum Neighborhood {
    /// Every offset `(dx, dy)` with `|dx|` and `|dy|` at most `radius`; the
    /// cell itself is among them only if `include_center` is set.
    Square { radius: usize, include_center: bool },
    /// The four direct neighbours.
    Cross,
}

/// When the candidate list is shuffled.
#[derive(Clone, Copy, Debug, PartialEq, Eq, Structural)]
pub enum Reshuffle {
    /// Once at the start and again before every cell.
    PerCell,
    /// Once at the start; every cell scans the same order.
    Once,
}

/// The offsets of the square of the given radius, centre included, column by
/// column: `dx` ascending, and `dy` ascending within one `dx`.
pub open spec fn square_offsets(radius: nat) -> Seq<Offset> {
    let side = 2 * radius + 1;
    Seq::new(
        (side * side) as nat,
        |i: int| ((i / side as int - radius) as i32, (i % side as int - radius) as i32),
    )
}

/// The place of the offset `(0, 0)` in `square_offsets(radius)`.
pub open spec fn center_index(radius: nat) -> int {
    (radius * (2 * radius + 1) + radius) as int
}

/// The candidate offsets of a neighbourhood, in their initial order.
pub open spec fn candidate_offsets(neighborhood: Neighborhood) -> Seq<Offset> {
    match neighborhood {
        Neighborhood::Square { radius, include_center } => if include_center {
            square_offsets(radius as nat)
        } else {
            square_offsets(radius as nat).remove(center_index(radius as nat))
        },
        Neighborhood::Cross => seq![(0i32, 1i32), (1i32, 0i32), (0i32, -1i32), (-1i32, 0i32)],
    }
}

/// Whether the neighbourhood can be built: its radius is at most
/// `MAX_RADIUS`.
pub open spec fn valid_neighborhood(neighborhood: Neighborhood) -> bool {
    match neighborhood {
        Neighborhood::Square { radius, include_center } => radius <= MAX_RADIUS,
        Neighborhood::Cross => true,
    }
}

/// Whether the offset `d` from the cell `(x, y)` lands inside the grid.
pub open spec fn lands(width: int, height: int, x: int, y: int, d: Offset) -> bool {
    0 <= x + d.0 < width && 0 <= y + d.1 < height
}

/// The index of the cell that the offset `d` from the cell `(x, y)` lands on.
pub open spec fn landing(width: int, x: int, y: int, d: Offset) -> int {
    (x + d.0) + (y + d.1) * width
}

/// The cells that the offsets reach from `(x, y)` inside the grid, in the
/// order of the offsets.
pub open spec fn reachable(offsets: Seq<Offset>, width: int, height: int, x: int, y: int) -> Seq<
    usize,
>
    decreases offsets.len(),
{
    if offsets.len() == 0 {
        Seq::empty()
    } else {
        let before = reachable(offsets.drop_last(), width, height, x, y);
        if lands(width, height, x, y, offsets.last()) {
            before.push(landing(width, x, y, offsets.last()) as usize)
        } else {
            before
        }
    }
}

/// The sources of the cell `(x, y)` under the given order of offsets: the
/// first `arity` cells reached.
pub open spec fn sources(
    offsets: Seq<Offset>,
    width: int,
    height: int,
    x: int,
    y: int,
    arity: int,
) -> Seq<usize> {
    reachable(offsets, width, height, x, y).take(arity)
}

/// What a prefix of the offsets reaches is a prefix of what all of them
/// reach.
pub proof fn lemma_reachable_prefix(
    offsets: Seq<Offset>,
    upto: int,
    width: int,
    height: int,
    x: int,
    y: int,
)
    requires
        0 <= upto <= offsets.len(),
    ensures
        reachable(offsets.take(upto), width, height, x, y).len() <= reachable(
            offsets,
            width,
            height,
            x,
            y,
        ).len(),
        reachable(offsets, width, height, x, y).take(
            reachable(offsets.take(upto), width, height, x, y).len() as int,
        ) == reachable(offsets.take(upto), width, height, x, y),
    decreases offsets.len(),
{
    let all = reachable(offsets, width, height, x, y);
    if upto == offsets.len() {
        assert(offsets.take(upto) == offsets);
        assert(all.take(all.len() as int) == all);
    } else {
        let shorter = offsets.drop_last();
        assert(shorter.take(upto) == offsets.take(upto));
        lemma_reachable_prefix(shorter, upto, width, height, x, y);
        let part = reachable(offsets.take(upto), width, height, x, y);
        let before = reachable(shorter, width, height, x, y);
        assert(all.take(part.len() as int) == before.take(part.len() as int));
    }
}

/// Every cell reached lies inside the grid.
pub proof fn lemma_reachable_in_grid(
    offsets: Seq<Offset>,
    width: int,
    height: int,
    x: int,
    y: int,
)
    requires
        0 < width,
        0 < height,
        width * height <= MAX_CELLS,
    ensures
        forall|i: int|
            0 <= i < reachable(offsets, width, height, x, y).len() ==> (#[trigger] reachable(
                offsets,
                width,
                height,
                x,
                y,
            )[i]) < width * height,
    decreases offsets.len(),
{
    if offsets.len() > 0 {
        lemma_reachable_in_grid(offsets.drop_last(), width, height, x, y);
        let d = offsets.last();
        let before = reachable(offsets.drop_last(), width, height, x, y);
        let all = reachable(offsets, width, height, x, y);
        if lands(width, height, x, y, d) {
            lemma_landing_in_grid(width, height, x + d.0, y + d.1);
        }
        assert forall|i: int| 0 <= i < all.len() implies (#[trigger] all[i]) < width * height by {
            if i < before.len() {
                assert(all[i] == before[i]);
            }
        }
    }
}

/// A position inside the grid has an index below the number of cells.
pub proof fn lemma_landing_in_grid(width: int, height: int, column: int, row: int)
    requires
        0 <= column < width,
        0 <= row < height,
    ensures
        0 <= column + row * width < width * height,
{
    assert(row * width <= (height - 1) * width) by (nonlinear_arith)
        requires
            0 <= row <= height - 1,
            0 < width,
    ;
    assert((height - 1) * width == width * height - width) by (nonlinear_arith);
    assert(0 <= row * width) by (nonlinear_arith)
        requires
            0 <= row,
            0 < width,
    ;
}

/// Scans the offsets in order from the cell `(x, y)` and takes the first
/// `arity` cells they reach inside the grid; `None` if they reach fewer.
pub fn pick_sources(
    deck: &Vec<Offset>,
    width: usize,
    height: usize,
    x: usize,
    y: usize,
    arity: usize,
) -> (r: Option<Vec<usize>>)
    requires
        x < width,
        y < height,
        width * height <= MAX_CELLS,
    ensures
        match r {
            Some(tuple) => {
                &&& reachable(deck@, width as int, height as int, x as int, y as int).len() >= arity
                &&& tuple@ == sources(
                    deck@,
                    width as int,
                    height as int,
                    x as int,
                    y as int,
                    arity as int,
                )
            },
            None => reachable(deck@, width as int, height as int, x as int, y as int).len() < arity,
        },
{
    let mut tuple: Vec<usize> = Vec::new();
    let mut at: usize = 0;
    assert(deck@.take(0) == Seq::<Offset>::empty());
    while at < deck.len() && tuple.len() < arity
        invariant
            at <= deck.len(),
            tuple.len() <= arity,
            x < width,
            y < height,
            width * height <= MAX_CELLS,
            tuple@ == reachable(deck@.take(at as int), width as int, height as int, x as int, y as int),
        decreases deck.len() - at,
    {
        let d = deck[at];
        proof {
            assert(deck@.take(at + 1).drop_last() == deck@.take(at as int));
            assert(deck@.take(at + 1).last() == d);
            assert(width <= MAX_CELLS && height <= MAX_CELLS) by (nonlinear_arith)
                requires
                    0 < width,
                    0 < height,
                    width * height <= MAX_CELLS,
            ;
        }
        let column = x as i64 + d.0 as i64;
        let row = y as i64 + d.1 as i64;
        if 0 <= column && column < width as i64 && 0 <= row && row < height as i64 {
            proof {
                lemma_landing_in_grid(width as int, height as int, column as int, row as int);
            }
            tuple.push(column as usize + row as usize * width);
        }
        at = at + 1;
    }
    proof {
        lemma_reachable_prefix(deck@, at as int, width as int, height as int, x as int, y as int);
        if at == deck.len() {
            assert(deck@.take(at as int) == deck@);
        }
    }
    if tuple.len() == arity {
        Some(tuple)
    } else {
        None
    }
}

/// The step of a count of the offsets that land inside the grid from the
/// cell `(x, y)`.
pub open spec fn tally(width: int, height: int, x: int, y: int) -> spec_fn(nat, Offset) -> nat {
    |count: nat, d: Offset|
        if lands(width, height, x, y, d) {
            count + 1
        } else {
            count
        }
}

/// The number of cells reached is the count of the offsets that land inside
/// the grid.
pub proof fn lemma_reach_count_is_tally(
    offsets: Seq<Offset>,
    width: int,
    height: int,
    x: int,
    y: int,
)
    ensures
        reachable(offsets, width, height, x, y).len() == offsets.fold_left(
            0nat,
            tally(width, height, x, y),
        ),
    decreases offsets.len(),
{
    if offsets.len() > 0 {
        lemma_reach_count_is_tally(offsets.drop_last(), width, height, x, y);
    }
}

/// Two orders of the same offsets reach the same number of cells.
pub proof fn lemma_reach_count_permutation(
    a: Seq<Offset>,
    b: Seq<Offset>,
    width: int,
    height: int,
    x: int,
    y: int,
)
    requires
        a.to_multiset() == b.to_multiset(),
    ensures
        reachable(a, width, height, x, y).len() == reachable(b, width, height, x, y).len(),
{
    let step = tally(width, height, x, y);
    lemma_reach_count_is_tally(a, width, height, x, y);
    lemma_reach_count_is_tally(b, width, height, x, y);
    assert(commutative_foldl(step));
    lemma_fold_left_permutation(a, b, step, 0nat);
}

/// Lists the candidate offsets of a neighbourhood in their initial order. A
/// radius above `MAX_RADIUS` is refused.
pub fn candidates(neighborhood: Neighborhood) -> (r: Result<Vec<Offset>, GridError>)
    ensures
        match r {
            Ok(list) => valid_neighborhood(neighborhood) && list@ == candidate_offsets(
                neighborhood,
            ),
            Err(e) => e == GridError::Configuration && !valid_neighborhood(neighborhood),
        },
{
    match neighborhood {
        Neighborhood::Cross => {
            let mut list: Vec<Offset> = Vec::new();
            list.push((0, 1));
            list.push((1, 0));
            list.push((0, -1));
            list.push((-1, 0));
            assert(list@ == candidate_offsets(neighborhood));
            Ok(list)
        },
        Neighborhood::Square { radius, include_center } => {
            if radius > MAX_RADIUS {
                return Err(GridError::Configuration);
            }
            let side: usize = 2 * radius + 1;
            assert(side * side <= 129 * 129) by (nonlinear_arith)
                requires
                    side <= 129,
            ;
            let total: usize = side * side;
            let mut list: Vec<Offset> = Vec::new();
            let mut i: usize = 0;
            while i < total
                invariant
                    i <= total,
                    total == side * side,
                    side == 2 * radius + 1,
                    radius <= MAX_RADIUS,
                    list@ == square_offsets(radius as nat).take(i as int),
                decreases total - i,
            {
                proof {
                    assert(0 <= (i as int) / (side as int) < side) by (nonlinear_arith)
                        requires
                            0 <= i < side * side,
                            0 < side,
                    ;
                }
                let dx: i32 = (i / side) as i32 - radius as i32;
                let dy: i32 = (i % side) as i32 - radius as i32;
                list.push((dx, dy));
                i = i + 1;
                assert(list@ == square_offsets(radius as nat).take(i as int));
            }
            assert(list@ == square_offsets(radius as nat));
            if !include_center {
                assert(radius * side + radius < side * side) by (nonlinear_arith)
                    requires
                        side == 2 * radius + 1,
                ;
                assert(radius * side <= 64 * 129) by (nonlinear_arith)
                    requires
                        radius <= 64,
                        side <= 129,
                ;
                list.remove(radius * side + radius);
            }
            Ok(list)
        },
    }
}

/// Whether a grid of these dimensions and this arity can be built.
pub open spec fn valid_shape(width: nat, height: nat, arity: nat) -> bool {
    &&& 1 <= width
    &&& 1 <= height
    &&& width * height <= MAX_CELLS
    &&& 1 <= arity <= MAX_ARITY
}

/// Whether `links` gives each of `cells` cells a tuple of `arity` sources,
/// each of them a cell of the grid.
pub open spec fn valid_wiring(cells: nat, arity: nat, links: Seq<Seq<usize>>) -> bool {
    &&& links.len() == cells
    &&& forall|c: int| 0 <= c < cells ==> (#[trigger] links[c]).len() == arity
    &&& forall|c: int, k: int|
        0 <= c < cells && 0 <= k < arity ==> (#[trigger] links[c][k]) < cells
}

/// Whether some cell of the grid has fewer than `arity` candidates inside the
/// grid. The order of the candidates plays no part in it.
pub open spec fn underfilled(width: nat, height: nat, arity: nat, neighborhood: Neighborhood) -> bool {
    exists|x: int, y: int|
        0 <= x < width && 0 <= y < height && (#[trigger] reachable(
            candidate_offsets(neighborhood),
            width as int,
            height as int,
            x,
            y,
        )).len() < arity
}

/// The candidate list after its first shuffle by a generator in `state`, and
/// the state after that shuffle.
pub open spec fn first_deck(neighborhood: Neighborhood, state: u64) -> (Seq<Offset>, u64) {
    shuffled(usize::BITS, state, candidate_offsets(neighborhood))
}

/// The order of the offsets that the cell visited as number `visit` (from 0)
/// scans, and the state of the generator once that cell is done.
pub open spec fn deck_at(start: (Seq<Offset>, u64), reshuffle: Reshuffle, visit: nat) -> (
    Seq<Offset>,
    u64,
)
    decreases visit,
{
    let before = if visit == 0 {
        start
    } else {
        deck_at(start, reshuffle, (visit - 1) as nat)
    };
    match reshuffle {
        Reshuffle::PerCell => shuffled(usize::BITS, before.1, before.0),
        Reshuffle::Once => before,
    }
}

/// The order of the offsets that the cell `(x, y)` scans. Cells are visited
/// column by column, so the cell is number `x * height + y`.
pub open spec fn cell_order(
    start: (Seq<Offset>, u64),
    reshuffle: Reshuffle,
    height: nat,
    x: int,
    y: int,
) -> Seq<Offset> {
    deck_at(start, reshuffle, (x * height + y) as nat).0
}

/// The sources of the cell `(x, y)`.
pub open spec fn tuple_at(
    width: nat,
    height: nat,
    arity: nat,
    start: (Seq<Offset>, u64),
    reshuffle: Reshuffle,
    x: int,
    y: int,
) -> Seq<usize> {
    sources(
        cell_order(start, reshuffle, height, x, y),
        width as int,
        height as int,
        x,
        y,
        arity as int,
    )
}

/// The connection table that a generator in `state` builds: the tuple of the
/// cell `(x, y)` stands at index `x + y * width`.
pub open spec fn wiring(
    width: nat,
    height: nat,
    arity: nat,
    neighborhood: Neighborhood,
    reshuffle: Reshuffle,
    state: u64,
) -> Seq<Seq<usize>> {
    Seq::new(
        width * height,
        |c: int|
            tuple_at(
                width,
                height,
                arity,
                first_deck(neighborhood, state),
                reshuffle,
                c % width as int,
                c / width as int,
            ),
    )
}

/// The state of the generator after it has built the connection table.
pub open spec fn wiring_state(
    width: nat,
    height: nat,
    neighborhood: Neighborhood,
    reshuffle: Reshuffle,
    state: u64,
) -> u64 {
    deck_at(first_deck(neighborhood, state), reshuffle, (width * height - 1) as nat).1
}

/// A cell index names one position: two positions with the same index are
/// the same.
pub proof fn lemma_index_unique(width: int, x: int, y: int, a: int, b: int)
    requires
        0 <= x < width,
        0 <= a < width,
        x + y * width == a + b * width,
    ensures
        x == a,
        y == b,
{
    lemma_fundamental_div_mod_converse(x + y * width, width, y, x);
    lemma_fundamental_div_mod_converse(a + b * width, width, b, a);
}

/// The position of a cell index: column `c % width`, row `c / width`.
pub proof fn lemma_position(width: int, height: int, c: int)
    requires
        0 < width,
        0 <= c < width * height,
    ensures
        0 <= c % width < width,
        0 <= c / width < height,
        c == c % width + (c / width) * width,
{
    lemma_fundamental_div_mod(c, width);
    let q = c / width;
    let r = c % width;
    assert(0 <= r < width);
    assert(q < height) by (nonlinear_arith)
        requires
            c == width * q + r,
            0 <= r,
            c < width * height,
            0 < width,
    ;
    assert(0 <= q) by (nonlinear_arith)
        requires
            c == width * q + r,
            r < width,
            0 <= c,
            0 < width,
    ;
    assert(width * q == q * width) by (nonlinear_arith);
}

/// What holds of the cell `(x, y)` once it has been wired: its tuple stands
/// in `links`, and its candidates reach enough cells in any order.
spec fn wired(
    links: Seq<Vec<usize>>,
    pool: Seq<Offset>,
    start: (Seq<Offset>, u64),
    reshuffle: Reshuffle,
    width: nat,
    height: nat,
    arity: nat,
    x: int,
    y: int,
) -> bool {
    &&& links[x + y * width]@ == tuple_at(width, height, arity, start, reshuffle, x, y)
    &&& reachable(pool, width as int, height as int, x, y).len() >= arity
    &&& reachable(
        cell_order(start, reshuffle, height, x, y),
        width as int,
        height as int,
        x,
        y,
    ).len() >= arity
}

/// The tuples that the vectors hold, one by one.
pub open spec fn tuples_of(links: Seq<Vec<usize>>) -> Seq<Seq<usize>> {
    Seq::new(links.len(), |c: int| links[c]@)
}

/// A connection table.
pub struct Topology {
    width: usize,
    height: usize,
    arity: usize,
    links: Vec<Vec<usize>>,
}

impl View for Topology {
    type V = Seq<Seq<usize>>;

    /// The tuples of sources, by cell index.
    closed spec fn view(&self) -> Seq<Seq<usize>> {
        tuples_of(self.links@)
    }
}

impl Topology {
    /// The number of columns of the grid.
    pub closed spec fn spec_width(&self) -> nat {
        self.width as nat
    }

    /// The number of rows of the grid.
    pub closed spec fn spec_height(&self) -> nat {
        self.height as nat
    }

    /// The number of sources of a cell.
    pub closed spec fn spec_arity(&self) -> nat {
        self.arity as nat
    }

    /// Every cell has a tuple of exactly `arity` sources, each a cell of the
    /// grid.
    pub open spec fn wf(&self) -> bool {
        &&& valid_shape(self.spec_width(), self.spec_height(), self.spec_arity())
        &&& valid_wiring(self.spec_width() * self.spec_height(), self.spec_arity(), self@)
    }

    /// Builds the connection table of a grid from a generator in `state`, and
    /// gives the state after it.
    ///
    /// Dimensions, an arity or a radius outside their limits are refused as
    /// `Configuration`. A grid in which some cell has fewer than `arity`
    /// candidates inside the grid is refused as `TopologyUnderfill`.
    pub fn generate(
        width: usize,
        height: usize,
        arity: usize,
        neighborhood: Neighborhood,
        reshuffle: Reshuffle,
        state: u64,
    ) -> (r: Result<(Topology, u64), GridError>)
        ensures
            match r {
                Ok((topology, next)) => {
                    &&& valid_shape(width as nat, height as nat, arity as nat)
                    &&& valid_neighborhood(neighborhood)
                    &&& !underfilled(width as nat, height as nat, arity as nat, neighborhood)
                    &&& topology.wf()
                    &&& topology.spec_width() == width
                    &&& topology.spec_height() == height
                    &&& topology.spec_arity() == arity
                    &&& topology@ == wiring(
                        width as nat,
                        height as nat,
                        arity as nat,
                        neighborhood,
                        reshuffle,
                        state,
                    )
                    &&& next == wiring_state(
                        width as nat,
                        height as nat,
                        neighborhood,
                        reshuffle,
                        state,
                    )
                },
                Err(e) => match e {
                    GridError::Configuration => !(valid_shape(
                        width as nat,
                        height as nat,
                        arity as nat,
                    ) && valid_neighborhood(neighborhood)),
                    GridError::TopologyUnderfill => {
                        &&& valid_shape(width as nat, height as nat, arity as nat)
                        &&& valid_neighborhood(neighborhood)
                        &&& underfilled(width as nat, height as nat, arity as nat, neighborhood)
                    },
                    GridError::IndexOutOfRange => false,
                },
            },
    {
        if !shape_fits(width, height, arity) {
            return Err(GridError::Configuration);
        }
        let base = match candidates(neighborhood) {
            Ok(list) => list,
            Err(e) => {
                return Err(e);
            },
        };
        let cells: usize = width * height;
        let mut links: Vec<Vec<usize>> = Vec::new();
        let mut made: usize = 0;
        while made < cells
            invariant
                made <= cells,
                links.len() == made,
            decreases cells - made,
        {
            links.push(Vec::new());
            made = made + 1;
        }
        let ghost start = first_deck(neighborhood, state);
        let ghost pool = candidate_offsets(neighborhood);
        let (first, after) = shuffle(state, base);
        let mut deck = first;
        let mut current = after;
        let mut visit: usize = 0;
        let mut x: usize = 0;
        while x < width
            invariant
                x <= width,
                valid_shape(width as nat, height as nat, arity as nat),
                valid_neighborhood(neighborhood),
                cells == width * height,
                links.len() == cells,
                visit == x * height,
                start == first_deck(neighborhood, state),
                pool == candidate_offsets(neighborhood),
                deck@.to_multiset() == pool.to_multiset(),
                (deck@, current) == if visit == 0 {
                    start
                } else {
                    deck_at(start, reshuffle, (visit - 1) as nat)
                },
                forall|a: int, b: int|
                    0 <= a < x && 0 <= b < height ==> #[trigger] wired(
                        links@,
                        pool,
                        start,
                        reshuffle,
                        width as nat,
                        height as nat,
                        arity as nat,
                        a,
                        b,
                    ),
            decreases width - x,
        {
            let mut y: usize = 0;
            while y < height
                invariant
                    x < width,
                    y <= height,
                    valid_shape(width as nat, height as nat, arity as nat),
                    valid_neighborhood(neighborhood),
                    cells == width * height,
                    links.len() == cells,
                    visit == x * height + y,
                    start == first_deck(neighborhood, state),
                    pool == candidate_offsets(neighborhood),
                    deck@.to_multiset() == pool.to_multiset(),
                    (deck@, current) == if visit == 0 {
                        start
                    } else {
                        deck_at(start, reshuffle, (visit - 1) as nat)
                    },
                    forall|a: int, b: int|
                        (0 <= a < x && 0 <= b < height) || (a == x && 0 <= b < y) ==> #[trigger] wired(
                            links@,
                            pool,
                            start,
                            reshuffle,
                            width as nat,
                            height as nat,
                            arity as nat,
                            a,
                            b,
                        ),
                decreases height - y,
            {
                proof {
                    lemma_landing_in_grid(width as int, height as int, x as int, y as int);
                    lemma_landing_in_grid(height as int, width as int, y as int, x as int);
                    assert(height * width == width * height) by (nonlinear_arith);
                }
                match reshuffle {
                    Reshuffle::PerCell => {
                        let (mixed, after) = shuffle(current, deck);
                        deck = mixed;
                        current = after;
                    },
                    Reshuffle::Once => {},
                }
                assert((deck@, current) == deck_at(start, reshuffle, visit as nat));
                proof {
                    lemma_reach_count_permutation(
                        deck@,
                        pool,
                        width as int,
                        height as int,
                        x as int,
                        y as int,
                    );
                }
                match pick_sources(&deck, width, height, x, y, arity) {
                    None => {
                        assert(reachable(pool, width as int, height as int, x as int, y as int).len()
                            < arity);
                        assert(underfilled(width as nat, height as nat, arity as nat, neighborhood));
                        return Err(GridError::TopologyUnderfill);
                    },
                    Some(tuple) => {
                        let ghost before = links@;
                        links.set(x + y * width, tuple);
                        assert forall|a: int, b: int|
                            (0 <= a < x && 0 <= b < height) || (a == x && 0 <= b < y
                                + 1) implies #[trigger] wired(
                            links@,
                            pool,
                            start,
                            reshuffle,
                            width as nat,
                            height as nat,
                            arity as nat,
                            a,
                            b,
                        ) by {
                            if a == x && b == y {
                            } else {
                                assert(wired(
                                    before,
                                    pool,
                                    start,
                                    reshuffle,
                                    width as nat,
                                    height as nat,
                                    arity as nat,
                                    a,
                                    b,
                                ));
                                if a + b * width == x + y * width {
                                    lemma_index_unique(width as int, x as int, y as int, a, b);
                                }
                                lemma_landing_in_grid(width as int, height as int, a, b);
                                assert(links@[a + b * width] == before[a + b * width]);
                            }
                        }
                    },
                }
                y = y + 1;
                visit = visit + 1;
            }
            x = x + 1;
            assert(visit == x * height) by (nonlinear_arith)
                requires
                    visit == (x - 1) * height + height,
            ;
        }
        let topology = Topology { width, height, arity, links };
        proof {
            assert(visit == cells && cells >= 1) by (nonlinear_arith)
                requires
                    visit == x * height,
                    x == width,
                    cells == width * height,
                    width >= 1,
                    height >= 1,
            ;
            let target = wiring(
                width as nat,
                height as nat,
                arity as nat,
                neighborhood,
                reshuffle,
                state,
            );
            assert forall|c: int| 0 <= c < cells implies topology@[c] == target[c] && (
            #[trigger] topology@[c]).len() == arity && forall|k: int|
                0 <= k < arity ==> (#[trigger] topology@[c][k]) < cells by {
                lemma_position(width as int, height as int, c);
                let a = c % (width as int);
                let b = c / (width as int);
                assert(wired(
                    topology.links@,
                    pool,
                    start,
                    reshuffle,
                    width as nat,
                    height as nat,
                    arity as nat,
                    a,
                    b,
                ));
                lemma_reachable_in_grid(
                    cell_order(start, reshuffle, height as nat, a, b),
                    width as int,
                    height as int,
                    a,
                    b,
                );
            }
            assert(topology@ =~= target);
            assert forall|a: int, b: int| 0 <= a < width && 0 <= b < height implies (
            #[trigger] reachable(pool, width as int, height as int, a, b)).len() >= arity by {
                assert(wired(
                    topology.links@,
                    pool,
                    start,
                    reshuffle,
                    width as nat,
                    height as nat,
                    arity as nat,
                    a,
                    b,
                ));
            }
        }
        Ok((topology, current))
    }

    /// Takes the given tuples as the connection table of a grid, the tuple of
    /// the cell `(x, y)` at index `x + y * width`. They are refused unless the
    /// grid can be built and every cell has `arity` sources inside the grid.
    pub fn from_links(width: usize, height: usize, arity: usize, links: Vec<Vec<usize>>) -> (r:
        Result<Topology, GridError>)
        ensures
            match r {
                Ok(topology) => {
                    &&& valid_shape(width as nat, height as nat, arity as nat)
                    &&& valid_wiring((width * height) as nat, arity as nat, tuples_of(links@))
                    &&& topology.wf()
                    &&& topology.spec_width() == width
                    &&& topology.spec_height() == height
                    &&& topology.spec_arity() == arity
                    &&& topology@ == tuples_of(links@)
                },
                Err(e) => {
                    &&& e == GridError::Configuration
                    &&& !(valid_shape(width as nat, height as nat, arity as nat) && valid_wiring(
                        (width * height) as nat,
                        arity as nat,
                        tuples_of(links@),
                    ))
                },
            },
    {
        if !shape_fits(width, height, arity) {
            return Err(GridError::Configuration);
        }
        let cells: usize = width * height;
        if links.len() != cells {
            return Err(GridError::Configuration);
        }
        let ghost given = tuples_of(links@);
        let mut c: usize = 0;
        while c < cells
            invariant
                c <= cells,
                cells == width * height,
                links.len() == cells,
                given == tuples_of(links@),
                forall|i: int| 0 <= i < c ==> (#[trigger] given[i]).len() == arity,
                forall|i: int, k: int| 0 <= i < c && 0 <= k < arity ==> (#[trigger] given[i][k]) < cells,
            decreases cells - c,
        {
            let tuple = &links[c];
            assert(tuple@ == given[c as int]);
            if tuple.len() != arity {
                return Err(GridError::Configuration);
            }
            let mut k: usize = 0;
            while k < arity
                invariant
                    k <= arity,
                    c < cells,
                    cells == width * height,
                    links.len() == cells,
                    given == tuples_of(links@),
                    tuple.len() == arity,
                    tuple@ == given[c as int],
                    forall|j: int| 0 <= j < k ==> (#[trigger] tuple@[j]) < cells,
                decreases arity - k,
            {
                if tuple[k] >= cells {
                    assert(!(given[c as int][k as int] < cells));
                    return Err(GridError::Configuration);
                }
                k = k + 1;
            }
            c = c + 1;
        }
        Ok(Topology { width, height, arity, links })
    }

    /// A copy of the connection table.
    pub fn clone(&self) -> (r: Topology)
        ensures
            r@ == self@,
            r.spec_width() == self.spec_width(),
            r.spec_height() == self.spec_height(),
            r.spec_arity() == self.spec_arity(),
    {
        let mut links: Vec<Vec<usize>> = Vec::new();
        let mut c: usize = 0;
        while c < self.links.len()
            invariant
                c <= self.links.len(),
                links.len() == c,
                forall|i: int| 0 <= i < c ==> (#[trigger] links@[i])@ == self.links@[i]@,
            decreases self.links.len() - c,
        {
            links.push(copy_indices(&self.links[c]));
            c = c + 1;
        }
        assert(tuples_of(links@) == tuples_of(self.links@));
        Topology { width: self.width, height: self.height, arity: self.arity, links }
    }

    /// The number of columns of the grid.
    pub fn width(&self) -> (w: usize)
        ensures
            w == self.spec_width(),
    {
        self.width
    }

    /// The number of rows of the grid.
    pub fn height(&self) -> (h: usize)
        ensures
            h == self.spec_height(),
    {
        self.height
    }

    /// The number of sources of a cell.
    pub fn arity(&self) -> (k: usize)
        ensures
            k == self.spec_arity(),
    {
        self.arity
    }

    /// The number of cells of the grid.
    pub fn cells(&self) -> (n: usize)
        requires
            self.wf(),
        ensures
            n == self.spec_width() * self.spec_height(),
            n == self@.len(),
    {
        self.links.len()
    }

    /// The sources of the cell with the given index, in tuple order.
    pub fn tuple(&self, cell: usize) -> (r: &Vec<usize>)
        requires
            self.wf(),
            cell < self@.len(),
        ensures
            r@ == self@[cell as int],
    {
        &self.links[cell]
    }

    /// The sources of the cell with the given index, in tuple order, if the
    /// grid has that cell.
    pub fn sources_of(&self, cell: usize) -> (r: Option<Vec<usize>>)
        requires
            self.wf(),
        ensures
            match r {
                Some(tuple) => cell < self@.len() && tuple@ == self@[cell as int],
                None => cell >= self@.len(),
            },
    {
        if cell < self.links.len() {
            Some(copy_indices(&self.links[cell]))
        } else {
            None
        }
    }
}

/// A copy of a vector of indices.
pub(crate) fn copy_indices(items: &Vec<usize>) -> (r: Vec<usize>)
    ensures
        r@ == items@,
{
    let mut r: Vec<usize> = Vec::new();
    let mut i: usize = 0;
    while i < items.len()
        invariant
            i <= items.len(),
            r@ == items@.take(i as int),
        decreases items.len() - i,
    {
        r.push(items[i]);
        i = i + 1;
        assert(r@ == items@.take(i as int));
    }
    assert(items@.take(items.len() as int) == items@);
    r
}

/// Tells whether a grid of these dimensions and this arity can be built.
pub fn shape_fits(width: usize, height: usize, arity: usize) -> (ok: bool)
    ensures
        ok == valid_shape(width as nat, height as nat, arity as nat),
{
    if width < 1 || height < 1 || arity < 1 || arity > MAX_ARITY {
        return false;
    }
    if width > MAX_CELLS || height > MAX_CELLS {
        assert(width * height > MAX_CELLS) by (nonlinear_arith)
            requires
                width >= 1,
                height >= 1,
                width > MAX_CELLS || height > MAX_CELLS,
        ;
        return false;
    }
    assert(width * height <= 0x4000_0000 * 0x4000_0000) by (nonlinear_arith)
        requires
            width <= 0x4000_0000,
            height <= 0x4000_0000,
    ;
    (width as u64) * (height as u64) <= MAX_CELLS as u64
}

} // verus!
