//! The universe: a `width` by `height` torus of cells, its seeding, its
//! transition from one generation to the next, and its queries.

use fixedbitset::FixedBitSet;
use vstd::prelude::*;

use crate::bitset::{self, bits_of, word_bit};
use crate::rules::{
    all_in_range, even_or_seventh, index_of, lemma_coords_index, lemma_index_coords,
    lemma_live_coords_in_grid, lemma_names_index_push, lemma_set_indices_in_range, live_coords,
    names_index, neighbor, neighbor_count, next_generation, row_neighbors, seeded, set_indices,
};

verus! {

/// Why a universe refused a request.
#[derive(Debug, Clone, Copy, PartialEq, Eq, Structural)]
pub enum UniverseError {
    /// A coordinate lies outside the grid.
    OutOfRange,
}

/// A `width` by `height` grid of cells whose edges wrap around, stored one
/// bit per cell in row-major order.
pub struct Universe {
    width: u32,
    height: u32,
    cells: FixedBitSet,
}

/// What a universe is: its size and its cells in row-major order, `true`
/// for alive.
pub struct UniverseView {
    pub width: nat,
    pub height: nat,
    pub cells: Seq<bool>,
}

impl View for Universe {
    type V = UniverseView;

    closed spec fn view(&self) -> UniverseView {
        UniverseView { width: self.width as nat, height: self.height as nat, cells: bits_of(self.cells) }
    }
}

impl Universe {
    /// One cell per position of the grid, and every linear index fits in a `u32`.
    pub open spec fn wf(&self) -> bool {
        &&& self@.cells.len() == self@.width * self@.height
        &&& self@.width * self@.height <= u32::MAX
    }

    /// A `height` by `width` universe whose cells are all dead.
    pub fn new(height: u32, width: u32) -> (r: Universe)
        requires
            height * width <= u32::MAX,
        ensures
            r.wf(),
            r@.width == width,
            r@.height == height,
            r@.cells == Seq::new((height * width) as nat, |i: int| false),
    {
        proof {
            assert(height * width == width * height) by (nonlinear_arith);
        }
        let cells = bitset::with_capacity((height * width) as usize);
        Universe { width, height, cells }
    }

    /// The linear index of the cell at (`row`, `col`).
    fn get_index(&self, row: u32, col: u32) -> (r: usize)
        requires
            self.wf(),
            row < self@.height,
            col < self@.width,
        ensures
            r == index_of(self@.width as int, row as int, col as int),
            r < self@.cells.len(),
    {
        proof {
            lemma_coords_index(self.width as int, self.height as int, row as int, col as int);
        }
        (self.width * row + col) as usize
    }

    /// 1 where the neighbour of (`row`, `col`) at offsets `dr`, `dc` is
    /// alive and is not the cell itself, else 0.
    fn neighbor_alive(&self, row: u32, col: u32, dr: u32, dc: u32) -> (r: u8)
        requires
            self.wf(),
            row < self@.height,
            col < self@.width,
            dr <= self@.height,
            dc <= self@.width,
        ensures
            r == neighbor(self@.cells, self@.width as int, self@.height as int, row as int, col as int, dr as int, dc as int),
    {
        if dr == 0 && dc == 0 {
            return 0;
        }
        let neighbor_row = ((row as u64 + dr as u64) % (self.height as u64)) as u32;
        let neighbor_col = ((col as u64 + dc as u64) % (self.width as u64)) as u32;
        let idx = self.get_index(neighbor_row, neighbor_col);
        if bitset::contains(&self.cells, idx) {
            1
        } else {
            0
        }
    }

    /// The live neighbours of (`row`, `col`) in the row at offset `dr`.
    fn row_neighbor_count(&self, row: u32, col: u32, dr: u32) -> (r: u8)
        requires
            self.wf(),
            row < self@.height,
            col < self@.width,
            dr <= self@.height,
        ensures
            r == row_neighbors(self@.cells, self@.width as int, self@.height as int, row as int, col as int, dr as int),
            r <= 3,
    {
        self.neighbor_alive(row, col, dr, self.width - 1) + self.neighbor_alive(row, col, dr, 0)
            + self.neighbor_alive(row, col, dr, 1)
    }

    /// The number of live cells among the eight toroidally adjacent ones.
    fn live_neighbor_count(&self, row: u32, col: u32) -> (r: u8)
        requires
            self.wf(),
            row < self@.height,
            col < self@.width,
        ensures
            r == neighbor_count(self@.cells, self@.width as int, self@.height as int, row as int, col as int),
    {
        self.row_neighbor_count(row, col, self.height - 1) + self.row_neighbor_count(row, col, 0)
            + self.row_neighbor_count(row, col, 1)
    }

    /// Advances one generation: every cell takes the state that the B3/S23
    /// rule gives it from the previous generation.
    pub fn tick(&mut self)
        requires
            old(self).wf(),
        ensures
            final(self).wf(),
            final(self)@.width == old(self)@.width,
            final(self)@.height == old(self)@.height,
            final(self)@.cells == next_generation(old(self)@.cells, old(self)@.width as int, old(self)@.height as int),
    {
        let mut next = bitset::copy(&self.cells);
        let len = (self.width * self.height) as usize;
        let mut idx: usize = 0;
        while idx < len
            invariant
                self.wf(),
                self@ == old(self)@,
                len == self@.cells.len(),
                idx <= len,
                bits_of(next).len() == len,
                forall|k: int| 0 <= k < idx ==> bits_of(next)[k] == #[trigger] next_generation(self@.cells, self@.width as int, self@.height as int)[k],
            decreases len - idx,
        {
            proof {
                lemma_index_coords(self.width as int, self.height as int, idx as int);
            }
            let row = idx as u32 / self.width;
            let col = idx as u32 % self.width;
            let is_alive = bitset::contains(&self.cells, idx);
            let live_neighbors = self.live_neighbor_count(row, col);
            let next_cell = if is_alive {
                live_neighbors == 2 || live_neighbors == 3
            } else {
                live_neighbors == 3
            };
            bitset::set(&mut next, idx, next_cell);
            idx = idx + 1;
        }
        proof {
            assert(bits_of(next) =~= next_generation(self@.cells, self@.width as int, self@.height as int));
        }
        self.cells = next;
    }

    /// Marks alive every cell that `alive_cells` names as (row, col). Fails
    /// with `OutOfRange`, changing nothing, when one of them lies outside
    /// the grid.
    pub fn set_alive(&mut self, alive_cells: &[(u32, u32)]) -> (r: Result<(), UniverseError>)
        requires
            old(self).wf(),
        ensures
            final(self).wf(),
            final(self)@.width == old(self)@.width,
            final(self)@.height == old(self)@.height,
            r is Ok <==> all_in_range(alive_cells@, old(self)@.width as int, old(self)@.height as int),
            r is Ok ==> final(self)@.cells == seeded(old(self)@.cells, old(self)@.width as int, alive_cells@),
            r is Err ==> r == Err::<(), UniverseError>(UniverseError::OutOfRange) && final(self)@ == old(self)@,
    {
        let mut j: usize = 0;
        while j < alive_cells.len()
            invariant
                self.wf(),
                self@ == old(self)@,
                j <= alive_cells@.len(),
                all_in_range(alive_cells@.take(j as int), self@.width as int, self@.height as int),
            decreases alive_cells@.len() - j,
        {
            let (row, col) = alive_cells[j];
            if row >= self.height || col >= self.width {
                proof {
                    assert(!all_in_range(alive_cells@, self@.width as int, self@.height as int)) by {
                        assert(alive_cells@[j as int] == (row, col));
                    }
                }
                return Err(UniverseError::OutOfRange);
            }
            proof {
                assert forall|k: int| 0 <= k < j + 1 implies (#[trigger] alive_cells@.take(j + 1)[k]).0 < self@.height
                    && alive_cells@.take(j + 1)[k].1 < self@.width by {
                    if k < j {
                        assert(alive_cells@.take(j + 1)[k] == alive_cells@.take(j as int)[k]);
                    }
                }
            }
            j = j + 1;
        }
        assert(alive_cells@.take(j as int) =~= alive_cells@);
        let ghost start = self@.cells;
        let ghost width = self@.width as int;
        let mut j: usize = 0;
        while j < alive_cells.len()
            invariant
                self.wf(),
                self@.width == width,
                self@.height == old(self)@.height,
                start == old(self)@.cells,
                j <= alive_cells@.len(),
                all_in_range(alive_cells@, width, self@.height as int),
                self@.cells == seeded(start, width, alive_cells@.take(j as int)),
            decreases alive_cells@.len() - j,
        {
            let (row, col) = alive_cells[j];
            let idx = self.get_index(row, col);
            bitset::set(&mut self.cells, idx, true);
            proof {
                let before = alive_cells@.take(j as int);
                let after = alive_cells@.take(j + 1);
                assert(after =~= before.push((row, col)));
                lemma_names_index_push(before, (row, col), width);
                assert(self@.cells =~= seeded(start, width, after));
            }
            j = j + 1;
        }
        assert(alive_cells@.take(j as int) =~= alive_cells@);
        Ok(())
    }

    /// The (row, col) of every live cell, in increasing linear index, that
    /// is row by row from the top and left to right within a row.
    pub fn get_alive_cell_indexes(&self) -> (r: Vec<(u32, u32)>)
        requires
            self.wf(),
        ensures
            r@ == live_coords(self@.cells, self@.width as int),
            forall|k: int| 0 <= k < r@.len() ==> (#[trigger] r@[k]).0 < self@.height && r@[k].1 < self@.width,
    {
        let ones = bitset::ones(&self.cells);
        let ghost g = self@.cells;
        let ghost width = self@.width as int;
        proof {
            lemma_set_indices_in_range(g);
            assert(ones@.len() == set_indices(g).len());
        }
        let mut live_cells: Vec<(u32, u32)> = Vec::new();
        let mut j: usize = 0;
        while j < ones.len()
            invariant
                self.wf(),
                g == self@.cells,
                width == self@.width,
                ones@.map_values(|i: usize| i as int) == set_indices(g),
                forall|k: int| 0 <= k < set_indices(g).len() ==> 0 <= #[trigger] set_indices(g)[k] < g.len(),
                j <= ones@.len(),
                live_cells@ == live_coords(g, width).take(j as int),
            decreases ones@.len() - j,
        {
            let idx = ones[j];
            proof {
                assert(set_indices(g)[j as int] == idx as int);
                lemma_index_coords(width, self@.height as int, idx as int);
            }
            let row = idx as u32 / self.width;
            let col = idx as u32 - self.width * row;
            live_cells.push((row, col));
            proof {
                assert(live_coords(g, width)[j as int] == (row, col));
                assert(live_cells@ =~= live_coords(g, width).take(j + 1));
            }
            j = j + 1;
        }
        proof {
            assert(live_cells@ =~= live_coords(g, width));
            lemma_live_coords_in_grid(g, width, self@.height as int);
        }
        live_cells
    }

    /// A `height` by `width` universe whose live cells are those with a
    /// linear index divisible by 2 or by 7.
    pub fn generate_predefined_universe_even_and_7(height: u32, width: u32) -> (r: Universe)
        requires
            height * width <= u32::MAX,
        ensures
            r.wf(),
            r@.width == width,
            r@.height == height,
            r@.cells == Seq::new((height * width) as nat, |i: int| even_or_seventh(i)),
    {
        let mut universe = Universe::new(height, width);
        let ghost w = width as int;
        let len = (height * width) as usize;
        let mut live_cells: Vec<(u32, u32)> = Vec::new();
        let mut idx: usize = 0;
        while idx < len
            invariant
                universe.wf(),
                universe@.width == width,
                universe@.height == height,
                universe@.cells == Seq::new(len as nat, |i: int| false),
                len == height * width,
                w == width,
                idx <= len,
                all_in_range(live_cells@, w, height as int),
                forall|k: int| 0 <= k < live_cells@.len() ==> even_or_seventh(
                    index_of(w, (#[trigger] live_cells@[k]).0 as int, live_cells@[k].1 as int),
                ),
                forall|i: int| 0 <= i < idx && even_or_seventh(i) ==> #[trigger] names_index(live_cells@, w, i),
            decreases len - idx,
        {
            proof {
                lemma_index_coords(w, height as int, idx as int);
            }
            let row = idx as u32 / width;
            let col = idx as u32 % width;
            let i = universe.get_index(row, col);
            if i % 2 == 0 || i % 7 == 0 {
                proof {
                    lemma_names_index_push(live_cells@, (row, col), w);
                }
                live_cells.push((row, col));
            }
            idx = idx + 1;
        }
        // Every coordinate gathered lies in the grid, so seeding succeeds.
        let _ = universe.set_alive(live_cells.as_slice());
        proof {
            assert forall|i: int| 0 <= i < len implies #[trigger] names_index(live_cells@, w, i) == even_or_seventh(i) by {
                if names_index(live_cells@, w, i) {
                    let k = choose|k: int| 0 <= k < live_cells@.len() && #[trigger] index_of(w, live_cells@[k].0 as int, live_cells@[k].1 as int) == i;
                    assert(even_or_seventh(index_of(w, live_cells@[k].0 as int, live_cells@[k].1 as int)));
                }
            }
            assert(universe@.cells =~= Seq::new((height * width) as nat, |i: int| even_or_seventh(i)));
        }
        universe
    }

    /// A `height` by `width` universe in which the cell at linear index `i`
    /// is alive exactly when `draws[i]` is `true`; cells past the end of
    /// `draws` stay dead. The caller draws one fair coin per cell.
    pub fn generate_random_universe(height: u32, width: u32, draws: &[bool]) -> (r: Universe)
        requires
            height * width <= u32::MAX,
        ensures
            r.wf(),
            r@.width == width,
            r@.height == height,
            r@.cells == Seq::new((height * width) as nat, |i: int| i < draws@.len() && draws@[i]),
    {
        let mut universe = Universe::new(height, width);
        let ghost w = width as int;
        let len = (height * width) as usize;
        let mut live_cells: Vec<(u32, u32)> = Vec::new();
        let mut idx: usize = 0;
        while idx < len
            invariant
                universe.wf(),
                universe@.width == width,
                universe@.height == height,
                universe@.cells == Seq::new(len as nat, |i: int| false),
                len == height * width,
                w == width,
                idx <= len,
                all_in_range(live_cells@, w, height as int),
                forall|k: int| 0 <= k < live_cells@.len() ==> ({
                    let i = index_of(w, (#[trigger] live_cells@[k]).0 as int, live_cells@[k].1 as int);
                    i < draws@.len() && draws@[i]
                }),
                forall|i: int| 0 <= i < idx && i < draws@.len() && draws@[i] ==> #[trigger] names_index(live_cells@, w, i),
            decreases len - idx,
        {
            proof {
                lemma_index_coords(w, height as int, idx as int);
            }
            let row = idx as u32 / width;
            let col = idx as u32 % width;
            if idx < draws.len() && draws[idx] {
                proof {
                    lemma_names_index_push(live_cells@, (row, col), w);
                }
                live_cells.push((row, col));
            }
            idx = idx + 1;
        }
        // Every coordinate gathered lies in the grid, so seeding succeeds.
        let _ = universe.set_alive(live_cells.as_slice());
        proof {
            assert(forall|i: int| 0 <= i < len ==> #[trigger] names_index(live_cells@, w, i) == (i < draws@.len() && draws@[i]));
            assert(universe@.cells =~= Seq::new((height * width) as nat, |i: int| i < draws@.len() && draws@[i]));
        }
        universe
    }

    /// A universe with three live cells in a vertical line, at (27, 28),
    /// (28, 28) and (29, 28). Fails with `OutOfRange` when the grid has
    /// fewer than 30 rows or 29 columns.
    pub fn generate_simple_stable_universe(height: u32, width: u32) -> (r: Result<Universe, UniverseError>)
        requires
            height * width <= u32::MAX,
        ensures
            r is Ok <==> height >= 30 && width >= 29,
            r is Err ==> r == Err::<Universe, UniverseError>(UniverseError::OutOfRange),
            r matches Ok(u) ==> {
                &&& u.wf()
                &&& u@.width == width
                &&& u@.height == height
                &&& u@.cells == Seq::new(
                    (height * width) as nat,
                    |i: int|
                        i == index_of(width as int, 27, 28) || i == index_of(width as int, 28, 28)
                            || i == index_of(width as int, 29, 28),
                )
            },
    {
        let mut universe = Universe::new(height, width);
        let live_cells: Vec<(u32, u32)> = vec![(27, 28), (28, 28), (29, 28)];
        let ghost w = width as int;
        proof {
            let s = live_cells@;
            assert(s[0] == (27u32, 28u32) && s[1] == (28u32, 28u32) && s[2] == (29u32, 28u32));
            assert(all_in_range(s, w, height as int) <==> height >= 30 && width >= 29) by {
                if height >= 30 && width >= 29 {
                    assert forall|k: int| 0 <= k < s.len() implies (#[trigger] s[k]).0 < height && s[k].1 < width by {}
                }
            }
            assert forall|i: int| #[trigger] names_index(s, w, i) == (i == index_of(w, 27, 28) || i == index_of(w, 28, 28)
                || i == index_of(w, 29, 28)) by {
                if i == index_of(w, 27, 28) {
                    assert(index_of(w, s[0].0 as int, s[0].1 as int) == i);
                }
                if i == index_of(w, 28, 28) {
                    assert(index_of(w, s[1].0 as int, s[1].1 as int) == i);
                }
                if i == index_of(w, 29, 28) {
                    assert(index_of(w, s[2].0 as int, s[2].1 as int) == i);
                }
            }
        }
        match universe.set_alive(live_cells.as_slice()) {
            Ok(()) => {
                proof {
                    assert(universe@.cells =~= Seq::new(
                        (height * width) as nat,
                        |i: int|
                            i == index_of(w, 27, 28) || i == index_of(w, 28, 28) || i == index_of(w, 29, 28),
                    ));
                }
                Ok(universe)
            },
            Err(e) => Err(e),
        }
    }

    /// The number of columns.
    pub fn width(&self) -> (r: u32)
        ensures
            r == self@.width,
    {
        self.width
    }

    /// The number of rows.
    pub fn height(&self) -> (r: u32)
        ensures
            r == self@.height,
    {
        self.height
    }

    /// The cells packed 32 to a block: cell `i` in row-major order is bit
    /// `i % 32` of block `i / 32`. The view is valid until the universe
    /// next changes.
    pub fn cells(&self) -> (r: &[u32])
        ensures
            r@.len() == (self@.cells.len() + 31) / 32,
            forall|i: int| 0 <= i < self@.cells.len() ==> (#[trigger] self@.cells[i] == word_bit(r@[i / 32], i % 32)),
    {
        bitset::blocks(&self.cells)
    }
}

} // verus!
