//! The grid: cells, connection table, rule table and counters as one state.
//!
//! A grid is built from a configuration and a seed. From then on it is
//! stepped, its cells are toggled one by one or drawn anew, and its rule table
//! is rolled anew. A second grid forked from it serves as a shadow: toggled in
//! one cell and stepped beside the first, it shows where the two differ.

use crate::engine::{next_cells, next_recencies, step_partitioned, step_slice};
use crate::error::GridError;
use crate::partition::{available_cores, survey, worker_count, Assignment};
use crate::random::{coin, flip};
use crate::rule::{copy_bits, lemma_rolled_table_valid, rolled_table, valid_table, RuleTable};
use crate::topology::{
    copy_indices, lemma_landing_in_grid, lemma_position, shape_fits,
    underfilled, valid_neighborhood, valid_shape, valid_wiring, wiring, wiring_state,
    Neighborhood, Reshuffle, Topology,
};
use vstd::prelude::*;

verus! {

/// What a grid is built from.
#[derive(Clone, Copy, Debug, PartialEq, Eq, Structural)]
pub struct GridConfig {
    /// The number of columns.
    pub width: usize,
    /// The number of rows.
    pub height: usize,
    /// The number of sources of a cell.
    pub arity: usize,
    /// Where a cell may draw its sources from.
    pub neighborhood: Neighborhood,
    /// When the candidate offsets are shuffled.
    pub reshuffle: Reshuffle,
    /// The highest value a counter of recent change can take.
    pub window: usize,
    /// The largest number of workers a step is split among.
    pub max_workers: usize,
}

impl GridConfig {
    /// The usual grid: 480 by 300 cells of 3 sources each, drawn from the
    /// square of radius 3 around the cell with a fresh shuffle for every
    /// cell, counters up to 20, and at most 16 workers.
    pub fn standard() -> (config: GridConfig)
        ensures
            config == (GridConfig {
                width: 480,
                height: 300,
                arity: 3,
                neighborhood: Neighborhood::Square { radius: 3, include_center: true },
                reshuffle: Reshuffle::PerCell,
                window: 20,
                max_workers: 16,
            }),
            valid_config(config),
    {
        assert(480 * 300 == 144000) by (nonlinear_arith);
        GridConfig {
            width: 480,
            height: 300,
            arity: 3,
            neighborhood: Neighborhood::Square { radius: 3, include_center: true },
            reshuffle: Reshuffle::PerCell,
            window: 20,
            max_workers: 16,
        }
    }
}

/// What the pixels show.
#[derive(Clone, Copy, Debug, PartialEq, Eq, Structural)]
pub enum DrawMode {
    /// The bit of each cell.
    Normal,
    /// How recently each cell changed.
    Changes,
}

/// What one pixel shows.
#[derive(Clone, Copy, Debug, PartialEq, Eq, Structural)]
pub enum Shade {
    /// The cell differs from the same cell of the grid compared to.
    Differs,
    /// The cell is on.
    Alive,
    /// The cell is off.
    Dead,
    /// The cell has not changed for as long as the counters look back.
    Still,
    /// The cell changed lately: its counter, and the highest value a counter
    /// can take.
    Warm { level: usize, window: usize },
}

/// Whether a grid can be built from the configuration, as far as the
/// configuration alone tells.
pub open spec fn valid_config(config: GridConfig) -> bool {
    &&& valid_shape(config.width as nat, config.height as nat, config.arity as nat)
    &&& valid_neighborhood(config.neighborhood)
    &&& config.max_workers >= 1
}

/// The first `count` bits that a generator in `state` draws, and the state
/// after them.
pub open spec fn drawn_bits(state: u64, count: nat) -> (Seq<bool>, u64)
    decreases count,
{
    if count == 0 {
        (Seq::empty(), state)
    } else {
        let before = drawn_bits(state, (count - 1) as nat);
        let draw = coin(before.1);
        (before.0.push(draw.0), draw.1)
    }
}

/// The index of the cell in column `x` and row `y`.
pub open spec fn cell_index(width: nat, x: int, y: int) -> int {
    x + y * width
}

/// What a pixel shows of a cell.
pub open spec fn shade_of(cell: bool, other: bool, counter: usize, window: usize, mode: DrawMode) -> Shade {
    if cell != other {
        Shade::Differs
    } else {
        match mode {
            DrawMode::Normal => if cell {
                Shade::Alive
            } else {
                Shade::Dead
            },
            DrawMode::Changes => if counter == 0 {
                Shade::Still
            } else {
                Shade::Warm { level: counter, window }
            },
        }
    }
}

/// Whether the bits and counters can stand as the state of the cells of the
/// grid: one of each for every cell, and no counter above the window.
pub open spec fn committable(grid: GridModel, bits: Seq<bool>, counters: Seq<usize>) -> bool {
    &&& bits.len() == grid.cells.len()
    &&& counters.len() == grid.cells.len()
    &&& forall|c: int| 0 <= c < counters.len() ==> (#[trigger] counters[c]) <= grid.window
}

/// The state of a grid as plain values.
pub struct GridModel {
    /// The number of columns.
    pub width: nat,
    /// The number of rows.
    pub height: nat,
    /// The number of sources of a cell.
    pub arity: nat,
    /// The bit of each cell; the cell `(x, y)` has index `x + y * width`.
    pub cells: Seq<bool>,
    /// The sources of each cell.
    pub links: Seq<Seq<usize>>,
    /// The rule table, by pattern.
    pub rule: Seq<bool>,
    /// The highest value a counter can take.
    pub window: nat,
    /// The counter of recent change of each cell.
    pub recency: Seq<usize>,
    /// The largest number of workers a step is split among.
    pub max_workers: nat,
    /// The state of the generator that the next draws start from.
    pub dice: u64,
}

impl GridModel {
    /// The invariant of a grid: a tuple of `arity` sources inside the grid
    /// for every cell, a rule table of that arity, one bit and one counter
    /// for every cell, and no counter above the window.
    pub open spec fn valid(self) -> bool {
        &&& valid_shape(self.width, self.height, self.arity)
        &&& valid_wiring(self.width * self.height, self.arity, self.links)
        &&& valid_table(self.arity, self.rule)
        &&& self.cells.len() == self.width * self.height
        &&& self.recency.len() == self.cells.len()
        &&& self.window <= usize::MAX
        &&& forall|c: int| 0 <= c < self.recency.len() ==> (#[trigger] self.recency[c]) <= self.window
        &&& self.max_workers >= 1
    }

    /// The grid built from a configuration and a seed: first the cells are
    /// drawn, then the connection table, then the rule table. All counters
    /// start at 0.
    pub open spec fn generated(config: GridConfig, seed: u64) -> GridModel {
        let width = config.width as nat;
        let height = config.height as nat;
        let arity = config.arity as nat;
        let cells = drawn_bits(seed, width * height);
        let links = wiring(width, height, arity, config.neighborhood, config.reshuffle, cells.1);
        let wired = wiring_state(width, height, config.neighborhood, config.reshuffle, cells.1);
        let table = rolled_table(arity, wired);
        GridModel {
            width,
            height,
            arity,
            cells: cells.0,
            links,
            rule: table.0,
            window: config.window as nat,
            recency: Seq::new(width * height, |c: int| 0usize),
            max_workers: config.max_workers as nat,
            dice: table.1,
        }
    }

    /// The grid one generation later.
    pub open spec fn stepped(self) -> GridModel {
        let next = next_cells(self.cells, self.links, self.rule);
        GridModel {
            cells: next,
            recency: next_recencies(self.cells, next, self.recency, self.window),
            ..self
        }
    }

    /// The grid with the bit of one cell flipped.
    pub open spec fn toggled(self, index: int) -> GridModel {
        GridModel { cells: self.cells.update(index, !self.cells[index]), ..self }
    }

    /// The grid with all cells drawn anew.
    pub open spec fn with_drawn_cells(self) -> GridModel {
        let drawn = drawn_bits(self.dice, self.cells.len());
        GridModel { cells: drawn.0, dice: drawn.1, ..self }
    }

    /// The grid with its rule table rolled anew.
    pub open spec fn with_rolled_table(self) -> GridModel {
        let table = rolled_table(self.arity, self.dice);
        GridModel { rule: table.0, dice: table.1, ..self }
    }

    /// Whether the cell with the given index differs between the two grids.
    pub open spec fn differs_at(self, shadow: GridModel, index: int) -> bool {
        self.cells[index] != shadow.cells[index]
    }

    /// The pixels of the grid, by cell index, compared to `other` if there is
    /// one.
    pub open spec fn image(self, other: Option<GridModel>, mode: DrawMode) -> Seq<Shade> {
        Seq::new(
            self.cells.len(),
            |c: int|
                shade_of(
                    self.cells[c],
                    match other {
                        Some(o) => o.cells[c],
                        None => self.cells[c],
                    },
                    self.recency[c],
                    self.window as usize,
                    mode,
                ),
        )
    }
}

/// Draws `count` bits, one after the other.
fn draw_bits(state: u64, count: usize) -> (r: (Vec<bool>, u64))
    ensures
        (r.0@, r.1) == drawn_bits(state, count as nat),
{
    let mut bits: Vec<bool> = Vec::new();
    let mut current = state;
    let mut done: usize = 0;
    while done < count
        invariant
            done <= count,
            (bits@, current) == drawn_bits(state, done as nat),
        decreases count - done,
    {
        let (bit, next) = flip(current);
        bits.push(bit);
        current = next;
        done = done + 1;
    }
    (bits, current)
}

/// As many counters as there are cells, all 0.
fn fresh_counters(count: usize) -> (r: Vec<usize>)
    ensures
        r@ == Seq::new(count as nat, |c: int| 0usize),
{
    let mut counters: Vec<usize> = Vec::new();
    let mut done: usize = 0;
    while done < count
        invariant
            done <= count,
            counters@ == Seq::new(done as nat, |c: int| 0usize),
        decreases count - done,
    {
        counters.push(0);
        done = done + 1;
        assert(counters@ == Seq::new(done as nat, |c: int| 0usize));
    }
    counters
}

/// Tells what a pixel shows of a cell.
pub fn shade(cell: bool, other: bool, counter: usize, window: usize, mode: DrawMode) -> (r: Shade)
    ensures
        r == shade_of(cell, other, counter, window, mode),
{
    if cell != other {
        Shade::Differs
    } else {
        match mode {
            DrawMode::Normal => if cell {
                Shade::Alive
            } else {
                Shade::Dead
            },
            DrawMode::Changes => if counter == 0 {
                Shade::Still
            } else {
                Shade::Warm { level: counter, window }
            },
        }
    }
}

/// A grid of cells with its connection table, rule table and counters.
pub struct Grid {
    cells: Vec<bool>,
    topology: Topology,
    rule: RuleTable,
    window: usize,
    recency: Vec<usize>,
    max_workers: usize,
    dice: u64,
}

impl View for Grid {
    type V = GridModel;

    closed spec fn view(&self) -> GridModel {
        GridModel {
            width: self.topology.spec_width(),
            height: self.topology.spec_height(),
            arity: self.topology.spec_arity(),
            cells: self.cells@,
            links: self.topology@,
            rule: self.rule@,
            window: self.window as nat,
            recency: self.recency@,
            max_workers: self.max_workers as nat,
            dice: self.dice,
        }
    }
}

impl Grid {
    /// The connection table and the rule table are well formed and of one
    /// arity.
    pub closed spec fn coherent(&self) -> bool {
        &&& self.topology.wf()
        &&& self.rule.wf()
        &&& self.rule.spec_arity() == self.topology.spec_arity()
    }

    /// The grid holds its invariant.
    pub open spec fn wf(&self) -> bool {
        &&& self@.valid()
        &&& self.coherent()
    }

    /// Builds a grid from a configuration and a seed.
    ///
    /// Dimensions, an arity, a radius or a number of workers outside their
    /// limits are refused as `Configuration`. A grid in which some cell has
    /// fewer candidate sources inside the grid than the arity asks for is
    /// refused as `TopologyUnderfill`.
    pub fn new(config: GridConfig, seed: u64) -> (r: Result<Grid, GridError>)
        ensures
            match r {
                Ok(grid) => {
                    &&& valid_config(config)
                    &&& !underfilled(
                        config.width as nat,
                        config.height as nat,
                        config.arity as nat,
                        config.neighborhood,
                    )
                    &&& grid.wf()
                    &&& grid@ == GridModel::generated(config, seed)
                },
                Err(e) => match e {
                    GridError::Configuration => !valid_config(config),
                    GridError::TopologyUnderfill => valid_config(config) && underfilled(
                        config.width as nat,
                        config.height as nat,
                        config.arity as nat,
                        config.neighborhood,
                    ),
                    GridError::IndexOutOfRange => false,
                },
            },
    {
        if !shape_fits(config.width, config.height, config.arity) || config.max_workers < 1 {
            return Err(GridError::Configuration);
        }
        let count: usize = config.width * config.height;
        let (cells, drawn) = draw_bits(seed, count);
        let (topology, wired) = match Topology::generate(
            config.width,
            config.height,
            config.arity,
            config.neighborhood,
            config.reshuffle,
            drawn,
        ) {
            Ok(pair) => pair,
            Err(e) => {
                return Err(e);
            },
        };
        let (rule, rolled) = match RuleTable::generate(config.arity, wired) {
            Ok(pair) => pair,
            Err(e) => {
                return Err(e);
            },
        };
        let recency = fresh_counters(count);
        proof {
            lemma_drawn_count(seed, count as nat);
        }
        Ok(
            Grid {
                cells,
                topology,
                rule,
                window: config.window,
                recency,
                max_workers: config.max_workers,
                dice: rolled,
            },
        )
    }

    /// Puts a grid together from its parts, with all counters at 0. The parts
    /// are refused unless there is one bit for each cell of the connection
    /// table, the two tables are of one arity, and there is at least one
    /// worker.
    pub fn from_parts(
        cells: Vec<bool>,
        topology: Topology,
        rule: RuleTable,
        window: usize,
        max_workers: usize,
        seed: u64,
    ) -> (r: Result<Grid, GridError>)
        requires
            topology.wf(),
            rule.wf(),
        ensures
            match r {
                Ok(grid) => {
                    &&& grid.wf()
                    &&& grid@ == (GridModel {
                        width: topology.spec_width(),
                        height: topology.spec_height(),
                        arity: topology.spec_arity(),
                        cells: cells@,
                        links: topology@,
                        rule: rule@,
                        window: window as nat,
                        recency: Seq::new(cells@.len(), |c: int| 0usize),
                        max_workers: max_workers as nat,
                        dice: seed,
                    })
                },
                Err(e) => {
                    &&& e == GridError::Configuration
                    &&& (cells@.len() != topology@.len() || rule.spec_arity()
                        != topology.spec_arity() || max_workers < 1)
                },
            },
    {
        if cells.len() != topology.cells() || rule.arity() != topology.arity() || max_workers < 1 {
            return Err(GridError::Configuration);
        }
        let recency = fresh_counters(cells.len());
        Ok(Grid { cells, topology, rule, window, recency, max_workers, dice: seed })
    }

    /// The number of columns.
    pub fn width(&self) -> (w: usize)
        ensures
            w == self@.width,
    {
        self.topology.width()
    }

    /// The number of rows.
    pub fn height(&self) -> (h: usize)
        ensures
            h == self@.height,
    {
        self.topology.height()
    }

    /// The number of sources of a cell.
    pub fn arity(&self) -> (k: usize)
        ensures
            k == self@.arity,
    {
        self.topology.arity()
    }

    /// The highest value a counter can take.
    pub fn window(&self) -> (l: usize)
        ensures
            l == self@.window,
    {
        self.window
    }

    /// The number of cells.
    pub fn len(&self) -> (n: usize)
        ensures
            n == self@.cells.len(),
    {
        self.cells.len()
    }

    /// The bits of all cells, by cell index.
    pub fn cells(&self) -> (r: &Vec<bool>)
        ensures
            r@ == self@.cells,
    {
        &self.cells
    }

    /// The counters of all cells, by cell index.
    pub fn recencies(&self) -> (r: &Vec<usize>)
        ensures
            r@ == self@.recency,
    {
        &self.recency
    }

    /// The connection table.
    pub fn topology(&self) -> (r: &Topology)
        ensures
            r@ == self@.links,
            self.wf() ==> r.wf(),
    {
        &self.topology
    }

    /// The rule table.
    pub fn rule(&self) -> (r: &RuleTable)
        ensures
            r@ == self@.rule,
            self.wf() ==> r.wf(),
    {
        &self.rule
    }

    /// The index of the cell in column `x` and row `y`, if the grid has that
    /// cell.
    pub fn index_of(&self, x: usize, y: usize) -> (r: Result<usize, GridError>)
        requires
            self.wf(),
        ensures
            match r {
                Ok(index) => {
                    &&& x < self@.width
                    &&& y < self@.height
                    &&& index == cell_index(self@.width, x as int, y as int)
                    &&& index < self@.cells.len()
                },
                Err(e) => e == GridError::IndexOutOfRange && !(x < self@.width && y
                    < self@.height),
            },
    {
        let width = self.topology.width();
        if x >= width || y >= self.topology.height() {
            return Err(GridError::IndexOutOfRange);
        }
        proof {
            lemma_landing_in_grid(self@.width as int, self@.height as int, x as int, y as int);
        }
        Ok(x + y * width)
    }

    /// The column and the row of the cell with the given index, if the grid
    /// has that cell.
    pub fn position_of(&self, index: usize) -> (r: Result<(usize, usize), GridError>)
        requires
            self.wf(),
        ensures
            match r {
                Ok((x, y)) => {
                    &&& index < self@.cells.len()
                    &&& x < self@.width
                    &&& y < self@.height
                    &&& index == cell_index(self@.width, x as int, y as int)
                },
                Err(e) => e == GridError::IndexOutOfRange && index >= self@.cells.len(),
            },
    {
        if index >= self.cells.len() {
            return Err(GridError::IndexOutOfRange);
        }
        let width = self.topology.width();
        proof {
            lemma_position(self@.width as int, self@.height as int, index as int);
        }
        Ok((index % width, index / width))
    }

    /// The bit of the cell in column `x` and row `y`.
    pub fn cell(&self, x: usize, y: usize) -> (r: Result<bool, GridError>)
        requires
            self.wf(),
        ensures
            match r {
                Ok(bit) => {
                    &&& x < self@.width
                    &&& y < self@.height
                    &&& bit == self@.cells[cell_index(self@.width, x as int, y as int)]
                },
                Err(e) => e == GridError::IndexOutOfRange && !(x < self@.width && y
                    < self@.height),
            },
    {
        match self.index_of(x, y) {
            Ok(index) => Ok(self.cells[index]),
            Err(e) => Err(e),
        }
    }

    /// The counter of recent change of the cell in column `x` and row `y`.
    pub fn recency(&self, x: usize, y: usize) -> (r: Result<usize, GridError>)
        requires
            self.wf(),
        ensures
            match r {
                Ok(counter) => {
                    &&& x < self@.width
                    &&& y < self@.height
                    &&& counter == self@.recency[cell_index(self@.width, x as int, y as int)]
                    &&& counter <= self@.window
                },
                Err(e) => e == GridError::IndexOutOfRange && !(x < self@.width && y
                    < self@.height),
            },
    {
        match self.index_of(x, y) {
            Ok(index) => Ok(self.recency[index]),
            Err(e) => Err(e),
        }
    }

    /// Flips the bit of the cell with the given index. An index outside the
    /// grid is refused and changes nothing.
    pub fn toggle(&mut self, index: usize) -> (r: Result<(), GridError>)
        requires
            old(self).wf(),
        ensures
            final(self).wf(),
            match r {
                Ok(_) => index < old(self)@.cells.len() && final(self)@ == old(self)@.toggled(
                    index as int,
                ),
                Err(e) => {
                    &&& e == GridError::IndexOutOfRange
                    &&& index >= old(self)@.cells.len()
                    &&& final(self)@ == old(self)@
                },
            },
    {
        if index >= self.cells.len() {
            return Err(GridError::IndexOutOfRange);
        }
        let flipped = !self.cells[index];
        self.cells.set(index, flipped);
        Ok(())
    }

    /// Flips the bit of the cell in column `x` and row `y`. A position
    /// outside the grid is refused and changes nothing.
    pub fn toggle_cell(&mut self, x: usize, y: usize) -> (r: Result<(), GridError>)
        requires
            old(self).wf(),
        ensures
            final(self).wf(),
            match r {
                Ok(_) => {
                    &&& x < old(self)@.width
                    &&& y < old(self)@.height
                    &&& final(self)@ == old(self)@.toggled(
                        cell_index(old(self)@.width, x as int, y as int),
                    )
                },
                Err(e) => {
                    &&& e == GridError::IndexOutOfRange
                    &&& !(x < old(self)@.width && y < old(self)@.height)
                    &&& final(self)@ == old(self)@
                },
            },
    {
        match self.index_of(x, y) {
            Ok(index) => self.toggle(index),
            Err(e) => Err(e),
        }
    }

    /// Advances the grid by one generation. The work is laid out for as many
    /// workers as there are processors at hand, up to the configured number;
    /// the result does not depend on how many they are.
    pub fn update(&mut self)
        requires
            old(self).wf(),
        ensures
            final(self).wf(),
            final(self)@ == old(self)@.stepped(),
    {
        let workers = worker_count(available_cores(), self.max_workers);
        let (bits, counters) = step_partitioned(
            &self.cells,
            &self.topology,
            &self.rule,
            &self.recency,
            self.window,
            workers,
        );
        self.cells = bits;
        self.recency = counters;
    }

    /// Advances the grid by one generation, the work laid out for the given
    /// number of workers. The result is the same for every number; no workers
    /// at all are refused, and nothing changes.
    pub fn update_with(&mut self, workers: usize) -> (r: Result<(), GridError>)
        requires
            old(self).wf(),
        ensures
            final(self).wf(),
            match r {
                Ok(_) => workers >= 1 && final(self)@ == old(self)@.stepped(),
                Err(e) => {
                    &&& e == GridError::Configuration
                    &&& workers == 0
                    &&& final(self)@ == old(self)@
                },
            },
    {
        if workers < 1 {
            return Err(GridError::Configuration);
        }
        let (bits, counters) = step_partitioned(
            &self.cells,
            &self.topology,
            &self.rule,
            &self.recency,
            self.window,
            workers,
        );
        self.cells = bits;
        self.recency = counters;
        Ok(())
    }

    /// The ranges of the cells that the workers of one step take, each with
    /// the core to run on where the platform reports one.
    pub fn work_plan(&self) -> (r: Vec<Assignment>)
        requires
            self.wf(),
        ensures
            1 <= r.len() <= self@.max_workers,
            forall|w: int|
                0 <= w < r.len() ==> (#[trigger] r[w]).start == crate::partition::chunk_start(
                    self@.cells.len(),
                    r.len() as nat,
                    w as nat,
                ) && r[w].end == crate::partition::chunk_end(
                    self@.cells.len(),
                    r.len() as nat,
                    w as nat,
                ),
    {
        survey(self.cells.len(), self.max_workers)
    }

    /// The next bits and counters of the cells from `start` up to, not
    /// including, `end`. The grid stays as it is.
    pub fn step_range(&self, start: usize, end: usize) -> (r: Result<
        (Vec<bool>, Vec<usize>),
        GridError,
    >)
        requires
            self.wf(),
        ensures
            match r {
                Ok((bits, counters)) => {
                    &&& start <= end <= self@.cells.len()
                    &&& bits@ == self@.stepped().cells.subrange(start as int, end as int)
                    &&& counters@ == self@.stepped().recency.subrange(start as int, end as int)
                },
                Err(e) => e == GridError::IndexOutOfRange && !(start <= end
                    <= self@.cells.len()),
            },
    {
        if start > end || end > self.cells.len() {
            return Err(GridError::IndexOutOfRange);
        }
        Ok(
            step_slice(
                &self.cells,
                &self.topology,
                &self.rule,
                &self.recency,
                self.window,
                start,
                end,
            ),
        )
    }

    /// Takes the given bits and counters as the state of the cells. They are
    /// refused, and nothing changes, unless there is one bit and one counter
    /// for each cell and no counter is above the window.
    pub fn commit(&mut self, bits: Vec<bool>, counters: Vec<usize>) -> (r: Result<(), GridError>)
        requires
            old(self).wf(),
        ensures
            final(self).wf(),
            match r {
                Ok(_) => {
                    &&& committable(old(self)@, bits@, counters@)
                    &&& final(self)@ == (GridModel {
                        cells: bits@,
                        recency: counters@,
                        ..old(self)@
                    })
                },
                Err(e) => {
                    &&& e == GridError::Configuration
                    &&& !committable(old(self)@, bits@, counters@)
                    &&& final(self)@ == old(self)@
                },
            },
    {
        let count = self.cells.len();
        if bits.len() != count || counters.len() != count {
            return Err(GridError::Configuration);
        }
        let mut c: usize = 0;
        while c < count
            invariant
                c <= count,
                self.wf(),
                self@ == old(self)@,
                count == self.cells.len(),
                bits.len() == count,
                counters.len() == count,
                forall|i: int| 0 <= i < c ==> (#[trigger] counters@[i]) <= self.window,
            decreases count - c,
        {
            if counters[c] > self.window {
                return Err(GridError::Configuration);
            }
            c = c + 1;
        }
        self.cells = bits;
        self.recency = counters;
        Ok(())
    }

    /// Draws the bit of every cell anew, in index order. The counters stay.
    pub fn randomize_cells(&mut self)
        requires
            old(self).wf(),
        ensures
            final(self).wf(),
            final(self)@ == old(self)@.with_drawn_cells(),
    {
        let (bits, next) = draw_bits(self.dice, self.cells.len());
        proof {
            lemma_drawn_count(self.dice, self.cells.len() as nat);
        }
        self.cells = bits;
        self.dice = next;
    }

    /// Rolls the rule table anew. Every table it can roll is a rule table: its
    /// first entry is `false` and its last is `true`.
    pub fn randomize_table(&mut self)
        requires
            old(self).wf(),
        ensures
            final(self).wf(),
            final(self)@ == old(self)@.with_rolled_table(),
    {
        let next = self.rule.randomize(self.dice);
        self.dice = next;
    }

    /// A copy of the grid that shares nothing with it.
    pub fn clone(&self) -> (r: Grid)
        ensures
            r@ == self@,
            self.wf() ==> r.wf(),
    {
        Grid {
            cells: copy_bits(&self.cells),
            topology: self.topology.clone(),
            rule: self.rule.clone(),
            window: self.window,
            recency: copy_indices(&self.recency),
            max_workers: self.max_workers,
            dice: self.dice,
        }
    }

    /// Forks a shadow of the grid: a copy of cells, tables and counters that
    /// goes its own way from here on.
    pub fn fork(&self) -> (shadow: Grid)
        ensures
            shadow@ == self@,
            self.wf() ==> shadow.wf(),
    {
        self.clone()
    }

    /// Tells whether the cell with the given index differs between this grid
    /// and the shadow. An index that one of them lacks is refused.
    pub fn differs_at(&self, shadow: &Grid, index: usize) -> (r: Result<bool, GridError>)
        ensures
            match r {
                Ok(differs) => {
                    &&& index < self@.cells.len()
                    &&& index < shadow@.cells.len()
                    &&& differs == self@.differs_at(shadow@, index as int)
                },
                Err(e) => e == GridError::IndexOutOfRange && !(index < self@.cells.len() && index
                    < shadow@.cells.len()),
            },
    {
        if index >= self.cells.len() || index >= shadow.cells.len() {
            return Err(GridError::IndexOutOfRange);
        }
        Ok(self.cells[index] != shadow.cells[index])
    }

    /// Tells whether the cell in column `x` and row `y` differs between this
    /// grid and the shadow. A position that one of them lacks is refused.
    pub fn differs_in_cell(&self, shadow: &Grid, x: usize, y: usize) -> (r: Result<bool, GridError>)
        requires
            self.wf(),
        ensures
            match r {
                Ok(differs) => {
                    &&& x < self@.width
                    &&& y < self@.height
                    &&& cell_index(self@.width, x as int, y as int) < shadow@.cells.len()
                    &&& differs == self@.differs_at(
                        shadow@,
                        cell_index(self@.width, x as int, y as int),
                    )
                },
                Err(e) => {
                    &&& e == GridError::IndexOutOfRange
                    &&& !(x < self@.width && y < self@.height && cell_index(
                        self@.width,
                        x as int,
                        y as int,
                    ) < shadow@.cells.len())
                },
            },
    {
        match self.index_of(x, y) {
            Ok(index) => self.differs_at(shadow, index),
            Err(e) => Err(e),
        }
    }

    /// The pixels of the grid, by cell index. A cell that differs from the
    /// same cell of `other` shows as `Differs`; the rest show their bit or
    /// their counter, as the mode says.
    pub fn to_image_compared_to(&self, other: Option<&Grid>, draw_mode: DrawMode) -> (image: Vec<
        Shade,
    >)
        requires
            self.wf(),
            match other {
                Some(o) => o@.cells.len() >= self@.cells.len(),
                None => true,
            },
        ensures
            image@ == self@.image(
                match other {
                    Some(o) => Some(o@),
                    None => None,
                },
                draw_mode,
            ),
    {
        let ghost compared = match other {
            Some(o) => Some(o@),
            None => None,
        };
        let ghost whole = self@.image(compared, draw_mode);
        let mut image: Vec<Shade> = Vec::new();
        let mut c: usize = 0;
        while c < self.cells.len()
            invariant
                c <= self.cells.len(),
                self.wf(),
                match other {
                    Some(o) => o@.cells.len() >= self@.cells.len(),
                    None => true,
                },
                compared == match other {
                    Some(o) => Some(o@),
                    None => None,
                },
                whole == self@.image(compared, draw_mode),
                image@ == whole.take(c as int),
            decreases self.cells.len() - c,
        {
            let cell = self.cells[c];
            let seen = match other {
                Some(o) => o.cells[c],
                None => cell,
            };
            image.push(shade(cell, seen, self.recency[c], self.window, draw_mode));
            c = c + 1;
            assert(image@ == whole.take(c as int));
        }
        assert(whole.take(whole.len() as int) == whole);
        image
    }
}

/// Drawing `count` bits gives `count` bits.
pub proof fn lemma_drawn_count(state: u64, count: nat)
    ensures
        drawn_bits(state, count).0.len() == count,
    decreases count,
{
    if count > 0 {
        lemma_drawn_count(state, (count - 1) as nat);
    }
}

/// Generation is a function of the configuration and the seed: two grids
/// built from the same configuration and the same seed are the same, and so
/// are two connection tables and two rule tables built from the same values.
pub proof fn lemma_generation_deterministic(
    first: GridConfig,
    first_seed: u64,
    second: GridConfig,
    second_seed: u64,
)
    requires
        first == second,
        first_seed == second_seed,
    ensures
        GridModel::generated(first, first_seed) == GridModel::generated(second, second_seed),
        wiring(
            first.width as nat,
            first.height as nat,
            first.arity as nat,
            first.neighborhood,
            first.reshuffle,
            first_seed,
        ) == wiring(
            second.width as nat,
            second.height as nat,
            second.arity as nat,
            second.neighborhood,
            second.reshuffle,
            second_seed,
        ),
        rolled_table(first.arity as nat, first_seed) == rolled_table(
            second.arity as nat,
            second_seed,
        ),
{
}

/// The rule table of a grid built from a valid configuration is a rule table,
/// whatever the seed: it starts with `false` and ends with `true`.
pub proof fn lemma_generated_table_valid(config: GridConfig, seed: u64)
    requires
        valid_config(config),
    ensures
        valid_table(config.arity as nat, GridModel::generated(config, seed).rule),
{
    let width = config.width as nat;
    let height = config.height as nat;
    let cells = drawn_bits(seed, width * height);
    let wired = wiring_state(width, height, config.neighborhood, config.reshuffle, cells.1);
    lemma_rolled_table_valid(config.arity as nat, wired);
}

/// The next cells depend on the cells, the connection table and the rule
/// table alone: two grids that agree in these agree in their next cells,
/// whatever their counters, windows, numbers of workers and generators.
pub proof fn lemma_step_ignores_counters(first: GridModel, second: GridModel)
    requires
        first.cells == second.cells,
        first.links == second.links,
        first.rule == second.rule,
    ensures
        first.stepped().cells == second.stepped().cells,
{
}

/// A step keeps the invariant of a grid: in particular every counter stays
/// between 0 and the window.
pub proof fn lemma_stepped_valid(grid: GridModel)
    requires
        grid.valid(),
    ensures
        grid.stepped().valid(),
        forall|c: int|
            0 <= c < grid.cells.len() ==> 0 <= (#[trigger] grid.stepped().recency[c])
                <= grid.window,
{
    let next = next_cells(grid.cells, grid.links, grid.rule);
    crate::engine::lemma_counters_bounded(grid.cells, next, grid.recency, grid.window);
}

/// Over one step the counter of every cell moves as `next_recency` says, by
/// whether the cell's bit changed.
pub proof fn lemma_stepped_recency(grid: GridModel, cell: int)
    requires
        grid.valid(),
        0 <= cell < grid.cells.len(),
    ensures
        grid.stepped().recency[cell] == crate::engine::next_recency(
            grid.recency[cell] as nat,
            grid.cells[cell] != grid.stepped().cells[cell],
            grid.window,
        ),
{
    crate::engine::lemma_recency_bounded(
        grid.recency[cell] as nat,
        grid.cells[cell] != grid.stepped().cells[cell],
        grid.window,
    );
}

/// Splitting a step among any number of workers, one at least, changes
/// nothing: the ranges of the next cells and counters, put together in order,
/// are the next cells and counters.
pub proof fn lemma_partition_agrees(grid: GridModel, workers: nat)
    requires
        workers >= 1,
    ensures
        crate::partition::gathered(grid.stepped().cells, workers, workers)
            == grid.stepped().cells,
        crate::partition::gathered(grid.stepped().recency, workers, workers)
            == grid.stepped().recency,
        crate::partition::gathered(grid.stepped().cells, workers, workers)
            == crate::partition::gathered(grid.stepped().cells, 1, 1),
{
    crate::partition::lemma_gathered_whole(grid.stepped().cells, workers);
    crate::partition::lemma_gathered_whole(grid.stepped().recency, workers);
    crate::partition::lemma_gathered_whole(grid.stepped().cells, 1);
}

/// A shadow forked from a grid and toggled in one cell differs from the grid
/// in that cell and in no other.
pub proof fn lemma_fork_toggle_differs(grid: GridModel, toggled: int, cell: int)
    requires
        0 <= toggled < grid.cells.len(),
        0 <= cell < grid.cells.len(),
    ensures
        grid.differs_at(grid.toggled(toggled), cell) <==> cell == toggled,
{
}

/// Toggling a cell, drawing the cells anew and rolling the rule table anew
/// keep the invariant of a grid, however often they are done.
pub proof fn lemma_mutations_valid(grid: GridModel, index: int)
    requires
        grid.valid(),
        0 <= index < grid.cells.len(),
    ensures
        grid.toggled(index).valid(),
        grid.with_drawn_cells().valid(),
        grid.with_rolled_table().valid(),
{
    lemma_drawn_count(grid.dice, grid.cells.len());
    lemma_rolled_table_valid(grid.arity, grid.dice);
}

} // verus!
