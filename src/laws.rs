//! Laws of the simulation, stated over the model of `rules` and proved.

use vstd::prelude::*;

use crate::rules::{
    cell_at, generations, lemma_coords_index, lemma_index_coords, lemma_live_coords_in_grid, live_coords, neighbor_count, next_generation,
    seeded,
};

verus! {

/// 1 for a live cell, 0 for a dead one.
pub open spec fn count_of(alive: bool) -> int {
    if alive {
        1
    } else {
        0
    }
}

/// A generation has as many cells as the one before it.
pub proof fn lemma_generations_len(g: Seq<bool>, width: int, height: int, n: nat)
    ensures
        generations(g, width, height, n).len() == g.len(),
    decreases n,
{
    if n > 0 {
        lemma_generations_len(g, width, height, (n - 1) as nat);
    }
}

/// In every generation of a `width` by `height` grid, each live cell that
/// is reported lies inside the grid: `0 <= row < height`, `0 <= col < width`.
pub proof fn lemma_shape_conserved(g: Seq<bool>, width: int, height: int, n: nat)
    requires
        0 <= width,
        0 <= height,
        g.len() == width * height,
    ensures
        forall|k: int|
            0 <= k < live_coords(generations(g, width, height, n), width).len() ==> (#[trigger] live_coords(
                generations(g, width, height, n),
                width,
            )[k]).0 < height && live_coords(generations(g, width, height, n), width)[k].1 < width,
{
    lemma_generations_len(g, width, height, n);
    lemma_live_coords_in_grid(generations(g, width, height, n), width, height);
}

/// Two grids of the same size seeded with the same cells report the same
/// live cells after any equal number of generations.
pub proof fn lemma_deterministic(
    g1: Seq<bool>,
    g2: Seq<bool>,
    width: int,
    height: int,
    cells: Seq<(u32, u32)>,
    n: nat,
)
    requires
        g1 == g2,
    ensures
        live_coords(generations(seeded(g1, width, cells), width, height, n), width) == live_coords(
            generations(seeded(g2, width, cells), width, height, n),
            width,
        ),
{
}

/// Seeding twice with the same cells leaves the grid as seeding once does.
pub proof fn lemma_seeding_idempotent(g: Seq<bool>, width: int, cells: Seq<(u32, u32)>)
    ensures
        seeded(seeded(g, width, cells), width, cells) == seeded(g, width, cells),
{
    assert(seeded(seeded(g, width, cells), width, cells) =~= seeded(g, width, cells));
}

/// The corner (0, 0) of a grid of at least 3 by 3 has as neighbours the
/// cells across both edges: (h-1, w-1), (h-1, 0), (h-1, 1), (0, w-1), and
/// next to it (0, 1), (1, w-1), (1, 0), (1, 1), each counted once.
pub proof fn lemma_corner_wraps(g: Seq<bool>, width: int, height: int)
    requires
        width >= 3,
        height >= 3,
        g.len() == width * height,
    ensures
        neighbor_count(g, width, height, 0, 0) == count_of(cell_at(g, width, height - 1, width - 1))
            + count_of(cell_at(g, width, height - 1, 0)) + count_of(cell_at(g, width, height - 1, 1))
            + count_of(cell_at(g, width, 0, width - 1)) + count_of(cell_at(g, width, 0, 1))
            + count_of(cell_at(g, width, 1, width - 1)) + count_of(cell_at(g, width, 1, 0))
            + count_of(cell_at(g, width, 1, 1)),
{
    vstd::arithmetic::div_mod::lemma_small_mod((height - 1) as nat, height as nat);
    vstd::arithmetic::div_mod::lemma_small_mod((width - 1) as nat, width as nat);
    vstd::arithmetic::div_mod::lemma_small_mod(1, height as nat);
    vstd::arithmetic::div_mod::lemma_small_mod(1, width as nat);
    vstd::arithmetic::div_mod::lemma_small_mod(0, height as nat);
    vstd::arithmetic::div_mod::lemma_small_mod(0, width as nat);
}


/// Whether (`row`, `col`) is one of the four cells of the 2 by 2 block whose
/// top left cell is (`top`, `left`).
pub open spec fn in_block(top: int, left: int, row: int, col: int) -> bool {
    (row == top || row == top + 1) && (col == left || col == left + 1)
}

/// A `width` by `height` grid in which exactly the 2 by 2 block at
/// (`top`, `left`) is alive.
pub open spec fn block_grid(width: int, height: int, top: int, left: int) -> Seq<bool> {
    Seq::new((width * height) as nat, |i: int| in_block(top, left, i / width, i % width))
}

/// Moving one step either way along a ring of `n` positions.
proof fn lemma_ring_steps(x: int, n: int)
    requires
        0 <= x < n,
    ensures
        (x + (n - 1)) % n == if x == 0 { n - 1 } else { x - 1 },
        (x + 0) % n == x,
        (x + 1) % n == if x == n - 1 { 0 } else { x + 1 },
{
    if x == 0 {
        vstd::arithmetic::div_mod::lemma_fundamental_div_mod_converse(x + (n - 1), n, 0, n - 1);
    } else {
        vstd::arithmetic::div_mod::lemma_fundamental_div_mod_converse(x + (n - 1), n, 1, x - 1);
    }
    vstd::arithmetic::div_mod::lemma_fundamental_div_mod_converse(x, n, 0, x);
    if x == n - 1 {
        vstd::arithmetic::div_mod::lemma_fundamental_div_mod_converse(x + 1, n, 1, 0);
    } else {
        vstd::arithmetic::div_mod::lemma_fundamental_div_mod_converse(x + 1, n, 0, x + 1);
    }
}

/// Reading the block grid at (`row`, `col`) asks whether the cell is in the block.
proof fn lemma_block_cell(width: int, height: int, top: int, left: int, row: int, col: int)
    requires
        0 <= row < height,
        0 <= col < width,
    ensures
        cell_at(block_grid(width, height, top, left), width, row, col) == in_block(top, left, row, col),
{
    lemma_coords_index(width, height, row, col);
}

/// A 2 by 2 block of live cells on a grid of at least 4 by 4 is a still
/// life: the next generation is the same grid.
pub proof fn lemma_block_still_life(width: int, height: int, top: int, left: int)
    requires
        width >= 4,
        height >= 4,
        0 <= top,
        top + 1 < height,
        0 <= left,
        left + 1 < width,
    ensures
        next_generation(block_grid(width, height, top, left), width, height) == block_grid(width, height, top, left),
{
    let g = block_grid(width, height, top, left);
    assert forall|i: int| 0 <= i < g.len() implies #[trigger] next_generation(g, width, height)[i] == g[i] by {
        lemma_index_coords(width, height, i);
        let x = i / width;
        let y = i % width;
        lemma_ring_steps(x, height);
        lemma_ring_steps(y, width);
        let up = if x == 0 { height - 1 } else { x - 1 };
        let down = if x == height - 1 { 0 } else { x + 1 };
        let lt = if y == 0 { width - 1 } else { y - 1 };
        let rt = if y == width - 1 { 0 } else { y + 1 };
        lemma_block_cell(width, height, top, left, up, lt);
        lemma_block_cell(width, height, top, left, up, y);
        lemma_block_cell(width, height, top, left, up, rt);
        lemma_block_cell(width, height, top, left, x, lt);
        lemma_block_cell(width, height, top, left, x, y);
        lemma_block_cell(width, height, top, left, x, rt);
        lemma_block_cell(width, height, top, left, down, lt);
        lemma_block_cell(width, height, top, left, down, y);
        lemma_block_cell(width, height, top, left, down, rt);
    }
    assert(next_generation(g, width, height) =~= g);
}

} // verus!
