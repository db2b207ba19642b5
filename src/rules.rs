//! The mathematical model: grids as sequences of cells in row-major order,
//! the B3/S23 rule, toroidal neighbourhoods, and the laws they obey.

use vstd::prelude::*;

verus! {

/// The positions of the `true` entries of `g`, in increasing order.
pub open spec fn set_indices(g: Seq<bool>) -> Seq<int>
    decreases g.len(),
{
    if g.len() == 0 {
        Seq::empty()
    } else {
        let p = set_indices(g.drop_last());
        if g.last() {
            p.push(g.len() - 1)
        } else {
            p
        }
    }
}

/// The linear index of the cell at (`row`, `col`) in a grid `width` wide.
pub open spec fn index_of(width: int, row: int, col: int) -> int {
    width * row + col
}

/// The cell at (`row`, `col`) of grid `g`, `width` wide.
pub open spec fn cell_at(g: Seq<bool>, width: int, row: int, col: int) -> bool {
    g[index_of(width, row, col)]
}

/// One neighbour of (`row`, `col`), reached by adding `dr` and `dc` modulo
/// the height and the width, counted as 1 when alive; the offset pair
/// (0, 0) is the cell itself and counts nothing.
pub open spec fn neighbor(g: Seq<bool>, width: int, height: int, row: int, col: int, dr: int, dc: int) -> int {
    if dr == 0 && dc == 0 {
        0
    } else if cell_at(g, width, (row + dr) % height, (col + dc) % width) {
        1
    } else {
        0
    }
}

/// The live neighbours of (`row`, `col`) in the row reached by offset `dr`,
/// the column offsets being `width - 1`, `0` and `1`.
pub open spec fn row_neighbors(g: Seq<bool>, width: int, height: int, row: int, col: int, dr: int) -> int {
    neighbor(g, width, height, row, col, dr, width - 1)
        + neighbor(g, width, height, row, col, dr, 0)
        + neighbor(g, width, height, row, col, dr, 1)
}

/// The number of live cells among the toroidally adjacent ones, the row
/// offsets being `height - 1`, `0` and `1`.
pub open spec fn neighbor_count(g: Seq<bool>, width: int, height: int, row: int, col: int) -> int {
    row_neighbors(g, width, height, row, col, height - 1)
        + row_neighbors(g, width, height, row, col, 0)
        + row_neighbors(g, width, height, row, col, 1)
}

/// The B3/S23 rule: a live cell survives with two or three live neighbours,
/// a dead one is born with exactly three.
pub open spec fn next_state(alive: bool, live_neighbors: int) -> bool {
    if alive {
        live_neighbors == 2 || live_neighbors == 3
    } else {
        live_neighbors == 3
    }
}

/// The generation that follows `g` on a `width` by `height` torus.
pub open spec fn next_generation(g: Seq<bool>, width: int, height: int) -> Seq<bool> {
    Seq::new(
        g.len(),
        |i: int| next_state(g[i], neighbor_count(g, width, height, i / width, i % width)),
    )
}

/// The grid after `n` generations.
pub open spec fn generations(g: Seq<bool>, width: int, height: int, n: nat) -> Seq<bool>
    decreases n,
{
    if n == 0 {
        g
    } else {
        next_generation(generations(g, width, height, (n - 1) as nat), width, height)
    }
}

/// The (row, col) of each live cell of `g`, in increasing linear index.
pub open spec fn live_coords(g: Seq<bool>, width: int) -> Seq<(u32, u32)> {
    set_indices(g).map_values(|i: int| ((i / width) as u32, (i % width) as u32))
}

/// Whether one of `cells` names the linear index `i`.
pub open spec fn names_index(cells: Seq<(u32, u32)>, width: int, i: int) -> bool {
    exists|k: int| 0 <= k < cells.len() && #[trigger] index_of(width, cells[k].0 as int, cells[k].1 as int) == i
}

/// Grid `g` with every cell that `cells` names made alive.
pub open spec fn seeded(g: Seq<bool>, width: int, cells: Seq<(u32, u32)>) -> Seq<bool> {
    Seq::new(g.len(), |i: int| g[i] || names_index(cells, width, i))
}

/// Whether every one of `cells` lies inside a `width` by `height` grid.
pub open spec fn all_in_range(cells: Seq<(u32, u32)>, width: int, height: int) -> bool {
    forall|k: int| 0 <= k < cells.len() ==> (#[trigger] cells[k]).0 < height && cells[k].1 < width
}

/// The cell at linear index `i` of a grid `width` wide is at
/// (`i / width`, `i % width`), and that pair lies in the grid.
pub proof fn lemma_index_coords(width: int, height: int, i: int)
    requires
        0 <= width,
        0 <= height,
        0 <= i < width * height,
    ensures
        width > 0,
        0 <= i / width < height,
        0 <= i % width < width,
        index_of(width, i / width, i % width) == i,
{
    if width == 0 {
        assert(width * height == 0);
    }
    assert(i == width * (i / width) + i % width && 0 <= i % width < width) by (nonlinear_arith)
        requires width > 0;
    assert(0 <= i / width < height) by (nonlinear_arith)
        requires width > 0, 0 <= i < width * height, i == width * (i / width) + i % width, 0 <= i % width < width;
}

/// The cell at (`row`, `col`) of a `width` by `height` grid has a linear
/// index inside the grid, from which `row` and `col` come back.
pub proof fn lemma_coords_index(width: int, height: int, row: int, col: int)
    requires
        0 <= row < height,
        0 <= col < width,
    ensures
        0 <= index_of(width, row, col) < width * height,
        index_of(width, row, col) / width == row,
        index_of(width, row, col) % width == col,
{
    assert(0 <= width * row + col < width * height) by (nonlinear_arith)
        requires 0 <= row < height, 0 <= col < width;
    assert(width * row == row * width) by (nonlinear_arith);
    vstd::arithmetic::div_mod::lemma_fundamental_div_mod_converse(width * row + col, width, row, col);
}


/// Every position that `set_indices` gives lies inside the sequence.
pub proof fn lemma_set_indices_in_range(g: Seq<bool>)
    ensures
        forall|k: int| 0 <= k < set_indices(g).len() ==> 0 <= #[trigger] set_indices(g)[k] < g.len(),
    decreases g.len(),
{
    if g.len() > 0 {
        let p = set_indices(g.drop_last());
        lemma_set_indices_in_range(g.drop_last());
        assert forall|k: int| 0 <= k < set_indices(g).len() implies 0 <= #[trigger] set_indices(g)[k] < g.len() by {
            if k < p.len() {
                assert(set_indices(g)[k] == p[k]);
            }
        }
    }
}

/// Every coordinate that `live_coords` gives for a `width` by `height` grid
/// lies inside it.
pub proof fn lemma_live_coords_in_grid(g: Seq<bool>, width: int, height: int)
    requires
        0 <= width,
        0 <= height,
        g.len() == width * height,
    ensures
        forall|k: int| 0 <= k < live_coords(g, width).len() ==> (#[trigger] live_coords(g, width)[k]).0 < height
            && live_coords(g, width)[k].1 < width,
{
    lemma_set_indices_in_range(g);
    assert forall|k: int| 0 <= k < live_coords(g, width).len() implies (#[trigger] live_coords(g, width)[k]).0 < height
        && live_coords(g, width)[k].1 < width by {
        let i = set_indices(g)[k];
        lemma_index_coords(width, height, i);
    }
}


/// Appending a coordinate keeps every index already named and names the
/// appended one's.
pub proof fn lemma_names_index_push(cells: Seq<(u32, u32)>, x: (u32, u32), width: int)
    ensures
        forall|i: int| names_index(cells, width, i) ==> #[trigger] names_index(cells.push(x), width, i),
        names_index(cells.push(x), width, index_of(width, x.0 as int, x.1 as int)),
        forall|i: int| #[trigger] names_index(cells.push(x), width, i) ==> names_index(cells, width, i)
            || i == index_of(width, x.0 as int, x.1 as int),
{
    let after = cells.push(x);
    assert forall|i: int| names_index(cells, width, i) implies #[trigger] names_index(after, width, i) by {
        let k = choose|k: int| 0 <= k < cells.len() && #[trigger] index_of(width, cells[k].0 as int, cells[k].1 as int) == i;
        assert(after[k] == cells[k]);
    }
    assert(after[cells.len() as int] == x);
    assert forall|i: int| #[trigger] names_index(after, width, i) implies names_index(cells, width, i)
        || i == index_of(width, x.0 as int, x.1 as int) by {
        let k = choose|k: int| 0 <= k < after.len() && #[trigger] index_of(width, after[k].0 as int, after[k].1 as int) == i;
        if k < cells.len() {
            assert(after[k] == cells[k]);
        }
    }
}

/// The cells of the fixed pattern: those whose linear index is a multiple
/// of 2 or of 7.
pub open spec fn even_or_seventh(i: int) -> bool {
    i % 2 == 0 || i % 7 == 0
}

} // verus!
