//! The grid engine: a `Universe` owns a toroidal grid of cells in a dense
//! bit set, together with the ascending list of live-cell indices, and
//! advances it one generation per `tick`.

use vstd::prelude::*;
use vstd::string::StringExecFns;

use crate::bits::bits_of;
use crate::bits::fbs_contains;
use crate::bits::fbs_set;
use crate::bits::fbs_with_capacity;
use crate::rules::glyph;
use crate::rules::live_count;
use crate::rules::live_list;
use crate::rules::live_prefix;
use crate::rules::neighbor_count;
use crate::rules::next_gen;
use crate::rules::next_state;
use crate::rules::render_rows;
use crate::rules::render_spec;
use crate::rules::row_chars;
use crate::rules::seed_in_range;
use crate::rules::seeded_cells;
use crate::rules::wrap_dec;
use crate::rules::wrap_inc;
use crate::rules::lemma_index_bound;
use crate::rules::lemma_index_decomp;
use crate::rules::lemma_live_count_matches;
use crate::rules::lemma_live_prefix_exact;

verus! {

/// The state of one grid position.
#[derive(Clone, Copy, Debug, PartialEq, Eq, Structural)]
pub enum Cell {
    Dead,
    Alive,
}

/// Why a construction was rejected.
#[derive(Clone, Copy, Debug, PartialEq, Eq, Structural)]
pub enum GridError {
    /// The width or the height was zero.
    InvalidDimensions,
    /// A seed index lay outside the grid.
    IndexOutOfRange,
}

/// A fixed-size toroidal cell grid: `width * height` cells in row-major
/// order, one bit per cell, plus the ascending list of live indices.
pub struct Universe {
    width: u32,
    height: u32,
    cells: fixedbitset::FixedBitSet,
    alive: Vec<u32>,
}

impl Universe {
    /// The stored width.
    pub closed spec fn spec_width(&self) -> u32 {
        self.width
    }

    /// The stored height.
    pub closed spec fn spec_height(&self) -> u32 {
        self.height
    }

    /// The cells, row-major, `true` where alive.
    pub closed spec fn cells_view(&self) -> Seq<bool> {
        bits_of(self.cells)
    }

    /// The grid invariant: positive dimensions, a cell count that fits a
    /// `u32` index, one bit per cell, and a live-cell list that matches
    /// the bits exactly.
    pub closed spec fn wf(&self) -> bool {
        &&& 1 <= self.width
        &&& 1 <= self.height
        &&& (self.width as int) * (self.height as int) <= u32::MAX as int
        &&& bits_of(self.cells).len() == (self.width as int) * (self.height as int)
        &&& self.alive@ == live_list(bits_of(self.cells))
    }

    /// What every well-formed grid guarantees its callers.
    pub proof fn lemma_wf(&self)
        requires
            self.wf(),
        ensures
            1 <= self.spec_width(),
            1 <= self.spec_height(),
            (self.spec_width() as int) * (self.spec_height() as int) <= u32::MAX as int,
            self.cells_view().len() == (self.spec_width() as int) * (self.spec_height() as int),
    {
    }

    /// The ascending list of the indices whose bits are set.
    fn collect_alive(cells: &fixedbitset::FixedBitSet, size: usize) -> (r: Vec<u32>)
        requires
            bits_of(*cells).len() == size as int,
            size <= u32::MAX,
        ensures
            r@ == live_list(bits_of(*cells)),
    {
        let mut r: Vec<u32> = Vec::new();
        let mut i: usize = 0;
        while i < size
            invariant
                i <= size,
                size <= u32::MAX,
                bits_of(*cells).len() == size as int,
                r@ == live_prefix(bits_of(*cells), i as int),
            decreases size - i,
        {
            if fbs_contains(cells, i) {
                r.push(i as u32);
            }
            i = i + 1;
            proof {
                assert(r@ =~= live_prefix(bits_of(*cells), i as int));
            }
        }
        r
    }

    /// Builds the grid whose live cells are exactly the listed indices.
    /// Zero dimensions are `InvalidDimensions`; a seed index at or past
    /// `width * height` is `IndexOutOfRange`; duplicate and unsorted seed
    /// indices are accepted, each cell simply ends up alive.
    pub fn new_with_state(width: u32, height: u32, alive_cells: &[u32]) -> (r: Result<
        Universe,
        GridError,
    >)
        requires
            (width as int) * (height as int) <= u32::MAX as int,
        ensures
            (width == 0 || height == 0) <==> r == Err::<Universe, GridError>(
                GridError::InvalidDimensions,
            ),
            (width >= 1 && height >= 1 && !seed_in_range(
                alive_cells@,
                (width as int) * (height as int),
            )) <==> r == Err::<Universe, GridError>(GridError::IndexOutOfRange),
            r is Ok <==> (width >= 1 && height >= 1 && seed_in_range(
                alive_cells@,
                (width as int) * (height as int),
            )),
            r matches Ok(g) ==> g.wf() && g.spec_width() == width && g.spec_height() == height
                && g.cells_view() == seeded_cells(
                (width as int) * (height as int),
                alive_cells@,
            ),
    {
        if width == 0 || height == 0 {
            return Err(GridError::InvalidDimensions);
        }
        let total: u32 = width * height;
        let size: usize = total as usize;
        let mut k: usize = 0;
        while k < alive_cells.len()
            invariant
                width >= 1,
                height >= 1,
                k <= alive_cells@.len(),
                total as int == (width as int) * (height as int),
                forall|j: int| 0 <= j < k ==> (alive_cells@[j] as int) < total as int,
            decreases alive_cells@.len() - k,
        {
            if alive_cells[k] >= total {
                return Err(GridError::IndexOutOfRange);
            }
            k = k + 1;
        }
        let mut cells = fbs_with_capacity(size);
        let mut k: usize = 0;
        while k < alive_cells.len()
            invariant
                k <= alive_cells@.len(),
                total as int == (width as int) * (height as int),
                size == total,
                bits_of(cells).len() == total as int,
                forall|j: int| 0 <= j < alive_cells@.len() ==> (alive_cells@[j] as int) < total as int,
                forall|i: int|
                    0 <= i < total as int ==> bits_of(cells)[i] == alive_cells@.take(
                        k as int,
                    ).contains(i as u32),
            decreases alive_cells@.len() - k,
        {
            let v = alive_cells[k];
            let ghost pre_bits = bits_of(cells);
            fbs_set(&mut cells, v as usize, true);
            k = k + 1;
            proof {
                let seen = alive_cells@.take(k as int);
                assert(seen =~= alive_cells@.take(k as int - 1).push(v));
                assert forall|i: int|
                    0 <= i < total as int implies bits_of(cells)[i] == seen.contains(i as u32) by {
                    let prev = alive_cells@.take(k as int - 1);
                    if i == v as int {
                        assert(seen[k as int - 1] == v);
                        assert(seen.contains(i as u32));
                    } else {
                        assert(bits_of(cells)[i] == pre_bits[i]);
                        assert((i as u32) != v);
                        if seen.contains(i as u32) {
                            let j = choose|j: int|
                                0 <= j < seen.len() && seen[j] == i as u32;
                            assert(prev[j] == i as u32);
                            assert(prev.contains(i as u32));
                        }
                        if prev.contains(i as u32) {
                            let j = choose|j: int|
                                0 <= j < prev.len() && prev[j] == i as u32;
                            assert(seen[j] == i as u32);
                            assert(seen.contains(i as u32));
                        }
                    }
                }
            }
        }
        proof {
            assert(alive_cells@.take(alive_cells@.len() as int) =~= alive_cells@);
            assert(bits_of(cells) =~= seeded_cells(total as int, alive_cells@));
        }
        let alive = Self::collect_alive(&cells, size);
        Ok(Universe { width, height, cells, alive })
    }

    /// Builds a grid from one coin flip per cell, alive where the flip is
    /// `true`. The flips are injected so that the caller chooses the
    /// entropy source and tests stay deterministic.
    pub fn new(width: u32, height: u32, flips: &[bool]) -> (r: Result<Universe, GridError>)
        requires
            (width as int) * (height as int) <= u32::MAX as int,
            flips@.len() == (width as int) * (height as int),
        ensures
            (width == 0 || height == 0) <==> r == Err::<Universe, GridError>(
                GridError::InvalidDimensions,
            ),
            r is Ok <==> (width >= 1 && height >= 1),
            r matches Ok(g) ==> g.wf() && g.spec_width() == width && g.spec_height() == height
                && g.cells_view() == flips@,
    {
        if width == 0 || height == 0 {
            return Err(GridError::InvalidDimensions);
        }
        let total: u32 = width * height;
        let size: usize = total as usize;
        let mut cells = fbs_with_capacity(size);
        let mut i: usize = 0;
        while i < size
            invariant
                i <= size,
                flips@.len() == size as int,
                bits_of(cells).len() == size as int,
                forall|j: int| 0 <= j < i ==> bits_of(cells)[j] == flips@[j],
            decreases size - i,
        {
            fbs_set(&mut cells, i, flips[i]);
            i = i + 1;
        }
        proof {
            assert(bits_of(cells) =~= flips@);
        }
        let alive = Self::collect_alive(&cells, size);
        Ok(Universe { width, height, cells, alive })
    }

    /// The stored width.
    pub fn width(&self) -> (r: u32)
        ensures
            r == self.spec_width(),
    {
        self.width
    }

    /// The stored height.
    pub fn height(&self) -> (r: u32)
        ensures
            r == self.spec_height(),
    {
        self.height
    }

    /// A dense snapshot of every cell's state, row-major.
    pub fn cells(&self) -> (r: Vec<Cell>)
        requires
            self.wf(),
        ensures
            r@.len() == self.cells_view().len(),
            forall|i: int|
                0 <= i < r@.len() ==> r@[i] == (if self.cells_view()[i] {
                    Cell::Alive
                } else {
                    Cell::Dead
                }),
    {
        let size: usize = (self.width as usize) * (self.height as usize);
        let mut r: Vec<Cell> = Vec::new();
        let mut i: usize = 0;
        while i < size
            invariant
                i <= size,
                bits_of(self.cells).len() == size as int,
                r@.len() == i as int,
                forall|j: int|
                    0 <= j < i ==> r@[j] == (if bits_of(self.cells)[j] {
                        Cell::Alive
                    } else {
                        Cell::Dead
                    }),
            decreases size - i,
        {
            if fbs_contains(&self.cells, i) {
                r.push(Cell::Alive);
            } else {
                r.push(Cell::Dead);
            }
            i = i + 1;
        }
        r
    }

    /// A copy of the ascending live-cell index list.
    pub fn alive_cells(&self) -> (r: Vec<u32>)
        requires
            self.wf(),
        ensures
            r@ == live_list(self.cells_view()),
    {
        self.get_live_cells()
    }

    /// A copy of the ascending live-cell index list.
    pub fn get_live_cells(&self) -> (r: Vec<u32>)
        requires
            self.wf(),
        ensures
            r@ == live_list(self.cells_view()),
    {
        let mut r: Vec<u32> = Vec::new();
        let mut i: usize = 0;
        while i < self.alive.len()
            invariant
                i <= self.alive@.len(),
                r@ == self.alive@.take(i as int),
            decreases self.alive@.len() - i,
        {
            r.push(self.alive[i]);
            i = i + 1;
            proof {
                assert(r@ =~= self.alive@.take(i as int));
            }
        }
        proof {
            assert(self.alive@.take(self.alive@.len() as int) =~= self.alive@);
        }
        r
    }

    /// How many cells are alive.
    pub fn get_live_cells_count(&self) -> (r: u32)
        requires
            self.wf(),
        ensures
            r == live_list(self.cells_view()).len(),
            r == live_count(self.cells_view()),
    {
        proof {
            lemma_live_prefix_exact(bits_of(self.cells), bits_of(self.cells).len() as int);
            lemma_live_count_matches(bits_of(self.cells));
        }
        self.alive.len() as u32
    }

    /// The row-major index of `(row, col)`.
    fn get_index(&self, row: u32, col: u32) -> (r: usize)
        requires
            self.wf(),
            row < self.spec_height(),
            col < self.spec_width(),
        ensures
            r as int == (row as int) * (self.spec_width() as int) + col as int,
            (r as int) < (self.spec_width() as int) * (self.spec_height() as int),
    {
        proof {
            lemma_index_bound(self.width as int, self.height as int, row as int, col as int);
        }
        (row as usize) * (self.width as usize) + (col as usize)
    }

    /// How many of the eight toroidal neighbors of `(row, col)` are alive.
    pub fn live_neighbor_count(&self, row: u32, col: u32) -> (count: u8)
        requires
            self.wf(),
            row < self.spec_height(),
            col < self.spec_width(),
        ensures
            count as int == neighbor_count(
                self.cells_view(),
                self.spec_width() as int,
                self.spec_height() as int,
                row as int,
                col as int,
            ),
    {
        let mut count: u8 = 0;
        let north = if row == 0 {
            self.height - 1
        } else {
            row - 1
        };
        let south = if row == self.height - 1 {
            0
        } else {
            row + 1
        };
        let west = if col == 0 {
            self.width - 1
        } else {
            col - 1
        };
        let east = if col == self.width - 1 {
            0
        } else {
            col + 1
        };
        proof {
            assert(north as int == wrap_dec(row as int, self.spec_height() as int));
            assert(south as int == wrap_inc(row as int, self.spec_height() as int));
            assert(west as int == wrap_dec(col as int, self.spec_width() as int));
            assert(east as int == wrap_inc(col as int, self.spec_width() as int));
        }
        let nw = self.get_index(north, west);
        if fbs_contains(&self.cells, nw) {
            count = count + 1;
        }
        let n = self.get_index(north, col);
        if fbs_contains(&self.cells, n) {
            count = count + 1;
        }
        let ne = self.get_index(north, east);
        if fbs_contains(&self.cells, ne) {
            count = count + 1;
        }
        let w = self.get_index(row, west);
        if fbs_contains(&self.cells, w) {
            count = count + 1;
        }
        let e = self.get_index(row, east);
        if fbs_contains(&self.cells, e) {
            count = count + 1;
        }
        let sw = self.get_index(south, west);
        if fbs_contains(&self.cells, sw) {
            count = count + 1;
        }
        let s = self.get_index(south, col);
        if fbs_contains(&self.cells, s) {
            count = count + 1;
        }
        let se = self.get_index(south, east);
        if fbs_contains(&self.cells, se) {
            count = count + 1;
        }
        count
    }

    /// Advances the grid one generation: every cell's next state is
    /// computed from the pre-step snapshot, the bit set is replaced
    /// wholesale, and the live-cell list is rebuilt in ascending order.
    pub fn tick(&mut self)
        requires
            old(self).wf(),
        ensures
            final(self).wf(),
            final(self).spec_width() == old(self).spec_width(),
            final(self).spec_height() == old(self).spec_height(),
            final(self).cells_view() == next_gen(
                old(self).cells_view(),
                old(self).spec_width() as int,
                old(self).spec_height() as int,
            ),
    {
        let ghost s0 = bits_of(self.cells);
        let ghost wi = self.width as int;
        let ghost hi = self.height as int;
        let ghost ng = next_gen(s0, wi, hi);
        let size: usize = (self.width as usize) * (self.height as usize);
        let mut next = fbs_with_capacity(size);
        let mut row: u32 = 0;
        while row < self.height
            invariant
                self == old(self),
                self.wf(),
                s0 == bits_of(self.cells),
                wi == self.spec_width() as int,
                hi == self.spec_height() as int,
                ng == next_gen(s0, wi, hi),
                size as int == wi * hi,
                row <= self.spec_height(),
                bits_of(next).len() == size as int,
                forall|i: int| 0 <= i < (row as int) * wi ==> bits_of(next)[i] == ng[i],
            decreases self.spec_height() as int - row as int,
        {
            let mut col: u32 = 0;
            proof {
                lemma_index_bound(wi, hi, row as int, 0);
            }
            while col < self.width
                invariant
                    self == old(self),
                    self.wf(),
                    s0 == bits_of(self.cells),
                    wi == self.spec_width() as int,
                    hi == self.spec_height() as int,
                    ng == next_gen(s0, wi, hi),
                    size as int == wi * hi,
                    row < self.spec_height(),
                    col <= self.spec_width(),
                    bits_of(next).len() == size as int,
                    forall|i: int|
                        0 <= i < (row as int) * wi + col as int ==> bits_of(next)[i] == ng[i],
                decreases self.spec_width() as int - col as int,
            {
                let idx = self.get_index(row, col);
                let cell = fbs_contains(&self.cells, idx);
                let live_neighbors = self.live_neighbor_count(row, col);
                let alive = if cell {
                    live_neighbors == 2 || live_neighbors == 3
                } else {
                    live_neighbors == 3
                };
                proof {
                    lemma_index_decomp(wi, row as int, col as int);
                    assert(ng[idx as int] == next_state(
                        s0[idx as int],
                        neighbor_count(s0, wi, hi, row as int, col as int),
                    ));
                    assert(ng[idx as int] == alive);
                }
                let ghost pre_bits = bits_of(next);
                fbs_set(&mut next, idx, alive);
                col = col + 1;
                proof {
                    assert forall|i: int|
                        0 <= i < (row as int) * wi + col as int implies bits_of(next)[i]
                        == ng[i] by {
                        if i != idx as int {
                            assert(bits_of(next)[i] == pre_bits[i]);
                        }
                    }
                }
            }
            row = row + 1;
            proof {
                assert((row as int) * wi == (row as int - 1) * wi + wi) by (nonlinear_arith);
            }
        }
        proof {
            assert(ng.len() == size as int);
            assert((row as int) * wi == size as int) by (nonlinear_arith)
                requires
                    row as int == hi,
                    size as int == wi * hi,
            ;
            assert(bits_of(next) =~= ng);
        }
        let alive = Self::collect_alive(&next, size);
        self.cells = next;
        self.alive = alive;
    }

    /// The grid as text: one line per row, `width` glyphs per line, a
    /// filled square for a live cell and an open square for a dead one,
    /// with a line break between rows and none after the last.
    pub fn render(&self) -> (r: String)
        requires
            self.wf(),
        ensures
            r@ == render_spec(
                self.cells_view(),
                self.spec_width() as int,
                self.spec_height() as int,
            ),
    {
        let ghost s = bits_of(self.cells);
        let ghost wi = self.width as int;
        let ghost hi = self.height as int;
        proof {
            reveal_strlit("◼");
            reveal_strlit("◻");
            reveal_strlit("\n");
        }
        let mut out = String::new();
        let mut row: u32 = 0;
        while row < self.height
            invariant
                self.wf(),
                s == bits_of(self.cells),
                wi == self.spec_width() as int,
                hi == self.spec_height() as int,
                row <= self.spec_height(),
                out@ == render_rows(s, wi, row as int),
            decreases self.spec_height() as int - row as int,
        {
            let mut line = String::new();
            let mut col: u32 = 0;
            while col < self.width
                invariant
                    self.wf(),
                    s == bits_of(self.cells),
                    wi == self.spec_width() as int,
                    hi == self.spec_height() as int,
                    row < self.spec_height(),
                    col <= self.spec_width(),
                    line@ == row_chars(s, wi, row as int).take(col as int),
                decreases self.spec_width() as int - col as int,
            {
                let idx = self.get_index(row, col);
                if fbs_contains(&self.cells, idx) {
                    line.append("◼");
                } else {
                    line.append("◻");
                }
                col = col + 1;
                proof {
                    reveal_strlit("◼");
                    reveal_strlit("◻");
                    assert(glyph(s[(row as int) * wi + col as int - 1]) == line@[col as int - 1]);
                    assert(line@ =~= row_chars(s, wi, row as int).take(col as int));
                }
            }
            proof {
                assert(row_chars(s, wi, row as int).take(wi) =~= row_chars(s, wi, row as int));
            }
            if row > 0 {
                out.append("\n");
            }
            out.append(line.as_str());
            row = row + 1;
            proof {
                reveal_strlit("\n");
                if row == 1 {
                    assert(out@ =~= render_rows(s, wi, 1));
                } else {
                    assert(out@ =~= render_rows(s, wi, row as int - 1) + seq!['\n'] + row_chars(
                        s,
                        wi,
                        row as int - 1,
                    ));
                    assert(out@ =~= render_rows(s, wi, row as int));
                }
            }
        }
        out
    }
}

} // verus!
