//! The mosaic assembler: one matching pass over the grid, and the canvas
//! composed from its outcome.

use vstd::prelude::*;
use vstd::arithmetic::div_mod::{lemma_fundamental_div_mod, lemma_fundamental_div_mod_converse};
use crate::catalog::{Catalog, Tile};
use crate::color::{
    closer_than, lemma_distance_zero_iff_identical, lemma_nothing_closer_than_zero, transparent,
    Rgb, Rgba, MAX_SQUARED_DISTANCE,
};
use crate::matcher::{
    choice, entry_distance, find_outcome, full_pool, lemma_choice_exists, lemma_find_pool_step,
    pool_fits, Matcher,
};
use crate::raster::{flat_index, in_block, lemma_flat_index, lemma_flat_index_split, Raster};

verus! {

/// A grid cell counts as transparent, and gets no tile, when its
/// transparency channel is at or below this value.
pub const ALPHA_CUTOFF: u8 = 125;

/// Whether a grid cell is opaque enough to get a tile.
pub open spec fn is_opaque(px: Rgba) -> bool {
    px.a > ALPHA_CUTOFF
}

/// The pool as it stands when the pass reaches cell `k`, the cells taken row
/// by row: empty before the first cell, and changed by every opaque cell
/// before `k`.
pub open spec fn pool_before(
    colors: Seq<Rgb>,
    cells: Seq<Rgba>,
    threshold: int,
    unique: bool,
    k: int,
) -> Seq<usize>
    decreases k,
{
    if k <= 0 {
        Seq::empty()
    } else {
        let earlier = pool_before(colors, cells, threshold, unique, k - 1);
        if is_opaque(cells[k - 1]) {
            find_outcome(colors, earlier, cells[k - 1].rgb(), threshold, unique).1
        } else {
            earlier
        }
    }
}

/// The outcome of the pass for cell `k`: the identity of the tile to place,
/// or `None` for a cell that is skipped or that no tile is close enough to.
pub open spec fn cell_outcome(
    colors: Seq<Rgb>,
    cells: Seq<Rgba>,
    threshold: int,
    unique: bool,
    k: int,
) -> Option<usize> {
    if is_opaque(cells[k]) {
        find_outcome(
            colors,
            pool_before(colors, cells, threshold, unique, k),
            cells[k].rgb(),
            threshold,
            unique,
        ).0
    } else {
        None
    }
}

/// `results` is what a pass over `cells` gives: one outcome per cell, each
/// the outcome of its cell.
pub open spec fn is_pass_outcome(
    colors: Seq<Rgb>,
    cells: Seq<Rgba>,
    threshold: int,
    unique: bool,
    results: Seq<Option<usize>>,
) -> bool {
    &&& results.len() == cells.len()
    &&& forall|k: int|
        0 <= k < results.len() ==> #[trigger] results[k] == cell_outcome(
            colors,
            cells,
            threshold,
            unique,
            k,
        )
}

/// The outcomes of a pass over `cells`, one per cell.
pub open spec fn pass_outcomes(
    colors: Seq<Rgb>,
    cells: Seq<Rgba>,
    threshold: int,
    unique: bool,
) -> Seq<Option<usize>> {
    Seq::new(cells.len(), |k: int| cell_outcome(colors, cells, threshold, unique, k))
}

/// Every outcome that names a tile names one of a catalog of `n` tiles.
pub open spec fn outcomes_within(results: Seq<Option<usize>>, n: nat) -> bool {
    forall|k: int| 0 <= k < results.len() ==> (#[trigger] results[k] matches Some(id) ==> id < n)
}

/// The pixel at `(x, y)` of the canvas composed from `results` for a grid of
/// `columns` cells per row and blocks of `size * size` pixels: the pixel of
/// the matched tile's thumbnail, or a fully transparent pixel where the cell
/// has no tile.
pub open spec fn canvas_pixel(
    tiles: Seq<Tile>,
    results: Seq<Option<usize>>,
    columns: int,
    size: int,
    x: int,
    y: int,
) -> Rgba {
    match results[flat_index(x / size, y / size, columns)] {
        Some(id) => tiles[id as int].thumbnail().pixel(x % size, y % size),
        None => transparent(),
    }
}

/// `canvas` is the canvas composed from `results` for a grid of
/// `columns * rows` cells and blocks of `size * size` pixels: it is `size`
/// times as wide and as high as the grid, whatever the cells came to, and
/// every pixel of it is the pixel of its cell's block.
pub open spec fn is_canvas_of(
    canvas: Raster,
    tiles: Seq<Tile>,
    results: Seq<Option<usize>>,
    columns: nat,
    rows: nat,
    size: nat,
) -> bool {
    &&& canvas.wf()
    &&& canvas.columns() == columns * size
    &&& canvas.rows() == rows * size
    &&& forall|x: int, y: int|
        canvas.contains(x, y) ==> #[trigger] canvas.pixel(x, y) == canvas_pixel(
            tiles,
            results,
            columns as int,
            size as int,
            x,
            y,
        )
}

/// A coordinate lies in the `c`-th stretch of `size` exactly when dividing it
/// by `size` gives `c`, and its place in the stretch is the remainder.
pub proof fn lemma_block_coordinate(i: int, size: int, c: int)
    requires
        0 < size,
        0 <= i,
        0 <= c,
    ensures
        c * size <= i < c * size + size <==> i / size == c,
        i / size == c ==> i % size == i - c * size,
{
    assert(c * size == size * c) by (nonlinear_arith);
    lemma_fundamental_div_mod(i, size);
    if c * size <= i < c * size + size {
        lemma_fundamental_div_mod_converse(i, size, c, i - c * size);
    }
}

/// A coordinate of a canvas of `count` blocks of `size` pixels falls in one
/// of those blocks.
pub proof fn lemma_block_within(i: int, size: int, count: int)
    requires
        0 < size,
        0 <= i < count * size,
    ensures
        0 <= i / size < count,
        0 <= i % size < size,
{
    lemma_fundamental_div_mod(i, size);
    let q = i / size;
    assert(0 <= q < count) by (nonlinear_arith)
        requires
            0 < size,
            0 <= i < count * size,
            i == size * q + i % size,
            0 <= i % size < size,
    ;
}

/// Runs one matching pass: visits the cells of `grid` row by row, skips
/// every cell that is not opaque, and matches the colour of every other one
/// against the catalog, with one pool for the whole pass.
pub fn match_cells(catalog: &Catalog, grid: &Raster, threshold: usize, unique: bool) -> (results:
    Vec<Option<usize>>)
    requires
        grid.wf(),
    ensures
        is_pass_outcome(catalog.colors(), grid.pixels(), threshold as int, unique, results@),
        results@ == pass_outcomes(catalog.colors(), grid.pixels(), threshold as int, unique),
        outcomes_within(results@, catalog.tiles().len()),
{
    let ghost colors = catalog.colors();
    let ghost cells = grid.pixels();
    let width: u32 = grid.width();
    let height: u32 = grid.height();
    let mut matcher = Matcher::new(catalog);
    let mut results: Vec<Option<usize>> = Vec::new();
    let mut y: u32 = 0;
    while y < height
        invariant
            y <= height,
            grid.wf(),
            width == grid.columns(),
            height == grid.rows(),
            colors == catalog.colors(),
            cells == grid.pixels(),
            matcher.wf(),
            matcher.colors() == colors,
            results@.len() == y * width,
            matcher.pool() == pool_before(colors, cells, threshold as int, unique, results@.len() as int),
            forall|k: int|
                0 <= k < results@.len() ==> #[trigger] results@[k] == cell_outcome(
                    colors,
                    cells,
                    threshold as int,
                    unique,
                    k,
                ),
            outcomes_within(results@, colors.len()),
        decreases height - y,
    {
        let mut x: u32 = 0;
        while x < width
            invariant
                x <= width,
                y < height,
                grid.wf(),
                width == grid.columns(),
                height == grid.rows(),
                colors == catalog.colors(),
                cells == grid.pixels(),
                matcher.wf(),
                matcher.colors() == colors,
                results@.len() == y * width + x,
                matcher.pool() == pool_before(
                    colors,
                    cells,
                    threshold as int,
                    unique,
                    results@.len() as int,
                ),
                forall|k: int|
                    0 <= k < results@.len() ==> #[trigger] results@[k] == cell_outcome(
                        colors,
                        cells,
                        threshold as int,
                        unique,
                        k,
                    ),
                outcomes_within(results@, colors.len()),
            decreases width - x,
        {
            let px: Rgba = grid.get_pixel(x, y);
            let ghost k = results@.len() as int;
            proof {
                lemma_flat_index(x as int, y as int, width as int, height as int);
                assert(px == cells[k]);
            }
            let outcome: Option<usize> = if px.a > ALPHA_CUTOFF {
                let target: Rgb = px.color();
                matcher.find(unique, threshold, &target)
            } else {
                None
            };
            results.push(outcome);
            proof {
                assert(outcome == cell_outcome(colors, cells, threshold as int, unique, k));
                assert(matcher.pool() == pool_before(colors, cells, threshold as int, unique, k + 1));
            }
            x = x + 1;
        }
        proof {
            assert(y * width + width == (y + 1) * width) by (nonlinear_arith);
        }
        y = y + 1;
    }
    proof {
        assert(height * width == width * height) by (nonlinear_arith);
        assert(results@ =~= pass_outcomes(colors, cells, threshold as int, unique));
    }
    results
}

/// Composes the canvas of a pass: one block of `size * size` pixels per
/// cell, the blocks laid out as the cells are. The block of a matched cell
/// is a copy of the tile's thumbnail; the block of any other cell is fully
/// transparent.
pub fn assemble(
    catalog: &Catalog,
    results: &Vec<Option<usize>>,
    columns: u32,
    rows: u32,
    size: u32,
) -> (canvas: Raster)
    requires
        catalog.wf(),
        catalog.tiles().len() > 0 ==> catalog.side() == size,
        results@.len() == columns * rows,
        outcomes_within(results@, catalog.tiles().len()),
        columns * size <= u32::MAX,
        rows * size <= u32::MAX,
        (columns * size) * (rows * size) <= usize::MAX,
    ensures
        is_canvas_of(
            canvas,
            catalog.tiles(),
            results@,
            columns as nat,
            rows as nat,
            size as nat,
        ),
{
    let ghost tiles = catalog.tiles();
    let combined_width: u32 = columns * size;
    let combined_height: u32 = rows * size;
    let mut canvas = Raster::new(combined_width, combined_height);
    let mut index: usize = 0;
    while index < results.len()
        invariant
            index <= results@.len(),
            catalog.wf(),
            tiles == catalog.tiles(),
            tiles.len() > 0 ==> catalog.side() == size,
            results@.len() == columns * rows,
            outcomes_within(results@, tiles.len()),
            combined_width == columns * size,
            combined_height == rows * size,
            canvas.wf(),
            canvas.columns() == combined_width,
            canvas.rows() == combined_height,
            forall|x: int, y: int|
                canvas.contains(x, y) && flat_index(x / (size as int), y / (size as int), columns as int)
                    < index ==> #[trigger] canvas.pixel(x, y) == canvas_pixel(
                    tiles,
                    results@,
                    columns as int,
                    size as int,
                    x,
                    y,
                ),
        decreases results@.len() - index,
    {
        proof {
            assert(columns > 0) by (nonlinear_arith)
                requires
                    index < columns * rows,
                    0 <= columns,
            ;
            lemma_flat_index_split(index as int, columns as int, rows as int);
        }
        let column: u32 = (index % (columns as usize)) as u32;
        let row: u32 = (index / (columns as usize)) as u32;
        proof {
            assert(column * size + size <= columns * size) by (nonlinear_arith)
                requires
                    0 <= column < columns,
                    0 <= size,
            ;
            assert(row * size + size <= rows * size) by (nonlinear_arith)
                requires
                    0 <= row < rows,
                    0 <= size,
            ;
            assert(0 <= column * size && 0 <= row * size) by (nonlinear_arith)
                requires
                    0 <= column,
                    0 <= row,
                    0 <= size,
            ;
        }
        let x_offset: u32 = column * size;
        let y_offset: u32 = row * size;
        let ghost before = canvas;
        match results[index] {
            Some(id) => {
                let found = catalog.get(id);
                assert(found.is_some());
                let tile: &Tile = found.unwrap();
                canvas.blit(tile.img(), x_offset, y_offset);
            },
            None => {
                canvas.fill_block(x_offset, y_offset, size, size, Rgba { r: 0, g: 0, b: 0, a: 0 });
            },
        }
        proof {
            assert forall|x: int, y: int|
                canvas.contains(x, y) && flat_index(x / (size as int), y / (size as int), columns as int)
                    < index + 1 implies #[trigger] canvas.pixel(x, y) == canvas_pixel(
                tiles,
                results@,
                columns as int,
                size as int,
                x,
                y,
            ) by {
                assert(size > 0) by (nonlinear_arith)
                    requires
                        0 <= x < columns * size,
                        0 <= size,
                ;
                lemma_block_within(x, size as int, columns as int);
                lemma_block_within(y, size as int, rows as int);
                lemma_block_coordinate(x, size as int, column as int);
                lemma_block_coordinate(y, size as int, row as int);
                let cx = x / (size as int);
                let cy = y / (size as int);
                lemma_flat_index(cx, cy, columns as int, rows as int);
                lemma_flat_index(column as int, row as int, columns as int, rows as int);
                let inside = in_block(
                    x,
                    y,
                    x_offset as int,
                    y_offset as int,
                    size as int,
                    size as int,
                );
                assert(inside <==> flat_index(cx, cy, columns as int) == index);
                assert(before.contains(x, y));
                if !inside {
                    assert(canvas.pixel(x, y) == before.pixel(x, y));
                }
            }
        }
        index = index + 1;
    }
    proof {
        assert forall|x: int, y: int| canvas.contains(x, y) implies #[trigger] canvas.pixel(x, y)
            == canvas_pixel(tiles, results@, columns as int, size as int, x, y) by {
            assert(size > 0) by (nonlinear_arith)
                requires
                    0 <= x < columns * size,
                    0 <= size,
            ;
            lemma_block_within(x, size as int, columns as int);
            lemma_block_within(y, size as int, rows as int);
            lemma_flat_index(x / (size as int), y / (size as int), columns as int, rows as int);
        }
    }
    canvas
}

/// Throughout a pass the pool fits the catalog.
pub proof fn lemma_pool_before_fits(
    colors: Seq<Rgb>,
    cells: Seq<Rgba>,
    threshold: int,
    unique: bool,
    k: int,
)
    requires
        colors.len() <= usize::MAX,
    ensures
        pool_fits(pool_before(colors, cells, threshold, unique, k), colors.len()),
    decreases k,
{
    if k > 0 {
        lemma_pool_before_fits(colors, cells, threshold, unique, k - 1);
        let earlier = pool_before(colors, cells, threshold, unique, k - 1);
        lemma_find_pool_step(colors, earlier, cells[k - 1].rgb(), threshold, unique);
    }
}

/// With a threshold of zero no colour is matched, whatever the pool holds.
pub proof fn lemma_zero_threshold_finds_nothing(
    colors: Seq<Rgb>,
    pool: Seq<usize>,
    target: Rgb,
    unique: bool,
)
    ensures
        find_outcome(colors, pool, target, 0, unique).0.is_none(),
{
    let full = full_pool(colors.len());
    assert forall|k: int| !closer_than(#[trigger] entry_distance(colors, pool, target, k), 0) by {
        lemma_nothing_closer_than_zero(colors[pool[k] as int], target);
    }
    assert forall|k: int| !closer_than(#[trigger] entry_distance(colors, full, target, k), 0) by {
        lemma_nothing_closer_than_zero(colors[full[k] as int], target);
    }
}

/// With a threshold of zero a pass matches no cell: every cell of every
/// grid comes out without a tile, whatever the catalog holds.
pub proof fn lemma_zero_threshold_matches_no_cell(
    colors: Seq<Rgb>,
    cells: Seq<Rgba>,
    unique: bool,
    k: int,
)
    ensures
        cell_outcome(colors, cells, 0, unique, k).is_none(),
{
    lemma_zero_threshold_finds_nothing(
        colors,
        pool_before(colors, cells, 0, unique, k),
        cells[k].rgb(),
        unique,
    );
}

/// With a catalog of one tile, uniqueness off and a threshold above every
/// possible distance, a pass gives that tile to every opaque cell.
pub proof fn lemma_single_tile_matches_every_opaque_cell(
    colors: Seq<Rgb>,
    cells: Seq<Rgba>,
    threshold: int,
    k: int,
)
    requires
        colors.len() == 1,
        closer_than(MAX_SQUARED_DISTANCE as int, threshold),
        0 <= k < cells.len(),
        is_opaque(cells[k]),
    ensures
        cell_outcome(colors, cells, threshold, false, k) == Some(0usize),
{
    let pool = pool_before(colors, cells, threshold, false, k);
    let target = cells[k].rgb();
    let full = full_pool(1);
    lemma_pool_before_fits(colors, cells, threshold, false, k);
    if pool.len() >= 2 {
        assert(pool[0] < pool[1]);
        assert(pool[1] < 1);
    }
    let first = if pool.len() == 0 {
        full
    } else {
        pool
    };
    assert(first.len() == 1 && first[0] == 0) by {
        if pool.len() == 1 {
            assert(pool[0] < 1);
        }
    }
    lemma_distance_zero_iff_identical(colors[0], target);
    assert(closer_than(entry_distance(colors, first, target, 0), threshold));
    lemma_choice_exists(colors, first, target, threshold);
    assert(choice(colors, first, target, threshold) == 0);
}

/// A pass is determined by the colours of the catalog in catalog order, the
/// cells of the grid, the threshold and the uniqueness setting: two passes
/// that agree on these give the same outcome for every cell.
pub proof fn lemma_pass_is_deterministic(
    colors_a: Seq<Rgb>,
    colors_b: Seq<Rgb>,
    cells_a: Seq<Rgba>,
    cells_b: Seq<Rgba>,
    threshold: int,
    unique: bool,
    results_a: Seq<Option<usize>>,
    results_b: Seq<Option<usize>>,
)
    requires
        colors_a == colors_b,
        cells_a == cells_b,
        is_pass_outcome(colors_a, cells_a, threshold, unique, results_a),
        is_pass_outcome(colors_b, cells_b, threshold, unique, results_b),
    ensures
        results_a == results_b,
{
    assert(results_a =~= results_b);
}

/// The block of cell `k` on the canvas: the `size * size` pixels whose
/// top-left corner is at `size` times the cell's column and row. Where the
/// cell has no tile, every pixel of the block is fully transparent; where it
/// has one, the block is the tile's thumbnail.
pub proof fn lemma_block_of_cell(
    tiles: Seq<Tile>,
    results: Seq<Option<usize>>,
    columns: int,
    rows: int,
    size: int,
    k: int,
    dx: int,
    dy: int,
)
    requires
        0 < columns,
        0 <= rows,
        results.len() == columns * rows,
        0 <= k < results.len(),
        0 <= dx < size,
        0 <= dy < size,
    ensures
        0 <= (k % columns) * size + dx < columns * size,
        0 <= (k / columns) * size + dy < rows * size,
        canvas_pixel(
            tiles,
            results,
            columns,
            size,
            (k % columns) * size + dx,
            (k / columns) * size + dy,
        ) == match results[k] {
            Some(id) => tiles[id as int].thumbnail().pixel(dx, dy),
            None => transparent(),
        },
{
    lemma_flat_index_split(k, columns, rows);
    let column = k % columns;
    let row = k / columns;
    let x = column * size + dx;
    let y = row * size + dy;
    assert(0 <= column * size && column * size + size <= columns * size) by (nonlinear_arith)
        requires
            0 <= column < columns,
            0 <= size,
    ;
    assert(0 <= row * size && row * size + size <= rows * size) by (nonlinear_arith)
        requires
            0 <= row < rows,
            0 <= size,
    ;
    lemma_block_coordinate(x, size, column);
    lemma_block_coordinate(y, size, row);
}

} // verus!
