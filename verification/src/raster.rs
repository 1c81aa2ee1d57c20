//! The state of a front end: a backend and a circular raster of its spikes,
//! one row per neuron and one column per tick of a sliding window.

use vstd::prelude::*;
use crate::backend::SnnBackend;
use crate::event_queue::SpikeEvent;

verus! {

/// The mark of a spike in the raster.
pub const SPIKE_MARK: char = '\u{2022}';

/// The mark of an empty cell of the raster.
pub const BLANK_MARK: char = ' ';

/// The rows held by a vector of rows.
pub open spec fn grid_of(raster: Seq<Vec<char>>) -> Seq<Seq<char>> {
    Seq::new(raster.len(), |r: int| raster[r]@)
}

/// One of the spikes is a spike of neuron `row`.
pub open spec fn spiked(spikes: Seq<SpikeEvent>, row: int) -> bool {
    exists|i: int| 0 <= i < spikes.len() && (#[trigger] spikes[i]).neuron_id as int == row
}

/// One of the first `n` spikes is a spike of neuron `row`.
pub open spec fn spiked_among(spikes: Seq<SpikeEvent>, n: int, row: int) -> bool {
    exists|i: int| 0 <= i < n && i < spikes.len() && (#[trigger] spikes[i]).neuron_id as int == row
}

/// The grid after the given spikes were drawn into column `col`: in that
/// column a row shows the spike mark if its neuron spiked and a blank if
/// not; the other columns are as they were.
pub open spec fn drawn(grid: Seq<Seq<char>>, col: int, spikes: Seq<SpikeEvent>) -> Seq<Seq<char>> {
    Seq::new(
        grid.len(),
        |r: int|
            Seq::new(
                grid[r].len(),
                |c: int|
                    if c != col {
                        grid[r][c]
                    } else if spiked(spikes, r) {
                        SPIKE_MARK
                    } else {
                        BLANK_MARK
                    },
            ),
    )
}

/// A grid of `rows` rows and `width` columns of blanks.
pub open spec fn blank_grid(rows: nat, width: nat) -> Seq<Seq<char>> {
    Seq::new(rows, |r: int| Seq::new(width, |c: int| BLANK_MARK))
}

/// A backend together with the raster of its recent spikes.
pub struct App<B: SnnBackend> {
    pub backend: B,
    /// The number of steps taken.
    pub tick: u64,
    /// The number of columns of the raster.
    pub width: usize,
    /// The raster, by neuron and column.
    pub raster: Vec<Vec<char>>,
    /// Whether the front end steps by itself.
    pub running: bool,
}

impl<B: SnnBackend> App<B> {
    /// The raster as rows of marks.
    pub open spec fn grid(&self) -> Seq<Seq<char>> {
        grid_of(self.raster@)
    }

    /// The front end can step: the backend is ready, the raster has at least
    /// one column, and every row has all its columns.
    pub open spec fn wf(&self) -> bool {
        self.backend.ready() && self.grid_wf()
    }

    /// The tick count after one more step; the last representable count
    /// stays.
    pub open spec fn next_tick(tick: u64) -> u64 {
        if tick == u64::MAX {
            tick
        } else {
            (tick + 1) as u64
        }
    }

    /// A paused front end at tick 0 with a blank raster of `rows` rows and
    /// `width` columns.
    pub fn with_rows(backend: B, width: usize, rows: usize) -> (app: App<B>)
        ensures
            app.backend == backend,
            app.tick == 0,
            app.width == width,
            !app.running,
            app.grid() == blank_grid(rows as nat, width as nat),
            backend.ready() && width > 0 ==> app.wf(),
    {
        let mut raster: Vec<Vec<char>> = Vec::new();
        let mut r: usize = 0;
        while r < rows
            invariant
                r <= rows,
                raster@.len() == r,
                forall|i: int| 0 <= i < r ==> (#[trigger] raster@[i])@.len() == width,
                forall|i: int, c: int|
                    0 <= i < r && 0 <= c < width ==> #[trigger] raster@[i]@[c] == BLANK_MARK,
            decreases rows - r,
        {
            let mut row: Vec<char> = Vec::new();
            let mut c: usize = 0;
            while c < width
                invariant
                    c <= width,
                    row@.len() == c,
                    forall|j: int| 0 <= j < c ==> #[trigger] row@[j] == BLANK_MARK,
                decreases width - c,
            {
                row.push(BLANK_MARK);
                c = c + 1;
            }
            raster.push(row);
            r = r + 1;
        }
        let app = App { backend, tick: 0, width, raster, running: false };
        proof {
            let goal = blank_grid(rows as nat, width as nat);
            assert(app.grid().len() == goal.len());
            assert forall|i: int| 0 <= i < rows implies app.grid()[i] =~= goal[i] by {
                assert(app.grid()[i] == app.raster@[i]@);
            }
            assert(app.grid() =~= goal);
        }
        app
    }

    /// A paused front end at tick 0 with a blank raster of `width` columns
    /// and as many rows as the backend reports neurons.
    pub fn new(backend: B, width: usize) -> (app: App<B>)
        ensures
            app.backend == backend,
            app.tick == 0,
            app.width == width,
            !app.running,
            exists|rows: nat| app.grid() == blank_grid(rows, width as nat),
            backend.ready() && width > 0 ==> app.wf(),
    {
        let n = backend.neurons();
        Self::with_rows(backend, width, n)
    }

    /// Switches between running and paused.
    pub fn toggle_running(&mut self)
        ensures
            final(self).running == !old(self).running,
            final(self).backend == old(self).backend,
            final(self).tick == old(self).tick,
            final(self).width == old(self).width,
            final(self).raster == old(self).raster,
    {
        self.running = !self.running;
    }

    /// The raster can be drawn into: it has at least one column, and every
    /// row has all its columns.
    pub open spec fn grid_wf(&self) -> bool {
        &&& self.width > 0
        &&& forall|r: int| 0 <= r < self.raster@.len() ==> (#[trigger] self.raster@[r])@.len() == self.width
    }

    /// The column into which the spikes of tick count `tick` are drawn.
    pub open spec fn column_of(tick: u64, width: usize) -> int {
        tick as int % width as int
    }

    /// Steps the backend once and draws the spikes that it returned into the
    /// column of the new tick count.
    pub fn step(&mut self)
        requires
            old(self).wf(),
        ensures
            final(self).wf(),
            final(self).tick == Self::next_tick(old(self).tick),
            final(self).width == old(self).width,
            final(self).running == old(self).running,
            exists|spikes: Seq<SpikeEvent>|
                final(self).grid() == drawn(
                    old(self).grid(),
                    Self::column_of(final(self).tick, old(self).width),
                    spikes,
                ),
    {
        let spikes: Vec<SpikeEvent> = self.backend.step();
        self.record(&spikes);
        assert(self.grid() == drawn(
            old(self).grid(),
            Self::column_of(self.tick, old(self).width),
            spikes@,
        ));
    }

    /// Counts one tick and draws its spikes into the column of the new tick
    /// count, which is the count modulo the width: a row shows the spike
    /// mark there if its neuron is among the spikes, and a blank if not. A
    /// spike of a neuron without a row is not drawn.
    pub fn record(&mut self, spikes: &Vec<SpikeEvent>)
        requires
            old(self).grid_wf(),
        ensures
            final(self).grid_wf(),
            final(self).backend == old(self).backend,
            final(self).tick == Self::next_tick(old(self).tick),
            final(self).width == old(self).width,
            final(self).running == old(self).running,
            final(self).grid() == drawn(
                old(self).grid(),
                Self::column_of(final(self).tick, old(self).width),
                spikes@,
            ),
    {
        self.tick = self.tick.saturating_add(1);
        let col = (self.tick % (self.width as u64)) as usize;
        let ghost before = old(self).grid();

        let rows = self.raster.len();
        let mut row: usize = 0;
        while row < rows
            invariant
                row <= rows,
                rows == self.raster@.len(),
                rows == before.len(),
                col < self.width,
                col == Self::column_of(self.tick, self.width),
                self.width == old(self).width,
                self.tick == Self::next_tick(old(self).tick),
                self.running == old(self).running,
                self.backend == old(self).backend,
                forall|r: int| 0 <= r < rows ==> (#[trigger] self.raster@[r])@.len() == self.width,
                forall|r: int| 0 <= r < rows ==> (#[trigger] before[r]).len() == self.width,
                forall|r: int, c: int|
                    0 <= r < rows && 0 <= c < self.width ==> #[trigger] self.raster@[r]@[c] == (if r
                        < row && c == col {
                        BLANK_MARK
                    } else {
                        before[r][c]
                    }),
            decreases rows - row,
        {
            self.raster[row][col] = BLANK_MARK;
            row = row + 1;
        }

        let mut i: usize = 0;
        while i < spikes.len()
            invariant
                i <= spikes@.len(),
                rows == self.raster@.len(),
                rows == before.len(),
                col < self.width,
                col == Self::column_of(self.tick, self.width),
                self.width == old(self).width,
                self.tick == Self::next_tick(old(self).tick),
                self.running == old(self).running,
                self.backend == old(self).backend,
                forall|r: int| 0 <= r < rows ==> (#[trigger] self.raster@[r])@.len() == self.width,
                forall|r: int| 0 <= r < rows ==> (#[trigger] before[r]).len() == self.width,
                forall|r: int, c: int|
                    0 <= r < rows && 0 <= c < self.width ==> #[trigger] self.raster@[r]@[c] == (if c
                        != col {
                        before[r][c]
                    } else if spiked_among(spikes@, i as int, r) {
                        SPIKE_MARK
                    } else {
                        BLANK_MARK
                    }),
            decreases spikes@.len() - i,
        {
            let target = spikes[i].neuron_id as usize;
            if target < self.raster.len() {
                self.raster[target][col] = SPIKE_MARK;
            }
            proof {
                assert forall|r: int| 0 <= r < rows implies (spiked_among(spikes@, i + 1, r)
                    <==> spiked_among(spikes@, i as int, r) || r == target) by {
                    if spiked_among(spikes@, i as int, r) {
                        let w = choose|w: int|
                            0 <= w < i && w < spikes@.len() && (#[trigger] spikes@[w]).neuron_id as int
                                == r;
                        assert(0 <= w < i + 1 && spikes@[w].neuron_id as int == r);
                    }
                    if r == target {
                        assert(spikes@[i as int].neuron_id as int == r);
                    }
                }
            }
            i = i + 1;
        }
        proof {
            let after = self.grid();
            let goal = drawn(before, col as int, spikes@);
            assert forall|r: int| 0 <= r < rows implies (spiked_among(
                spikes@,
                spikes@.len() as int,
                r,
            ) <==> spiked(spikes@, r)) by {
                if spiked(spikes@, r) {
                    let w = choose|w: int|
                        0 <= w < spikes@.len() && (#[trigger] spikes@[w]).neuron_id as int == r;
                    assert(0 <= w < spikes@.len() && w < spikes@.len() && spikes@[w].neuron_id as int
                        == r);
                }
            }
            assert(after.len() == goal.len());
            assert forall|r: int| 0 <= r < rows implies after[r] =~= goal[r] by {
                assert(after[r] == self.raster@[r]@);
            }
            assert(after =~= goal);
        }
    }
}

} // verus!
