//! Painting a grid into a pixel buffer, one uniform block of pixels per cell.
use vstd::prelude::*;
use crate::grid::{ALIVE, is_grid};

verus! {

/// The colour of a living cell.
pub const WHITE: u32 = 0xFFFFFF;

/// The colour of a dead cell.
pub const BLACK: u32 = 0x000000;

/// The colour that paints a cell in state `cell`.
pub open spec fn cell_colour(cell: i8) -> u32 {
    if cell == ALIVE {
        WHITE
    } else {
        BLACK
    }
}

/// The position in a row-major buffer `width` pixels wide of the pixel at row `y`, column `x`.
pub open spec fn pixel_index(width: int, y: int, x: int) -> int {
    y * width + x
}

/// The value that the pixel at `(y, x)` holds once `g` is painted over the buffer `before`:
/// a cell covers a block `width / cols` pixels wide and `height / rows` pixels high, and the
/// margin that those truncated blocks leave uncovered keeps its earlier value.
pub open spec fn painted_pixel(
    g: Seq<Seq<i8>>,
    before: Seq<u32>,
    rows: int,
    cols: int,
    width: int,
    height: int,
    y: int,
    x: int,
) -> u32 {
    let block_width = width / cols;
    let block_height = height / rows;
    if y < rows * block_height && x < cols * block_width {
        cell_colour(g[y / block_height][x / block_width])
    } else {
        before[pixel_index(width, y, x)]
    }
}

/// The colour for a cell in state `cell`.
pub fn colour_of(cell: i8) -> (colour: u32)
    ensures
        colour == cell_colour(cell),
{
    if cell == ALIVE {
        WHITE
    } else {
        BLACK
    }
}

/// Distinct positions inside a row of `width` pixels have distinct buffer indices, and every
/// position inside a `width` by `height` buffer has an index inside it.
proof fn lemma_index_in_buffer(width: int, height: int, y: int, x: int, y2: int, x2: int)
    requires
        0 <= y < height,
        0 <= x < width,
        0 <= y2 < height,
        0 <= x2 < width,
    ensures
        0 <= pixel_index(width, y, x) < width * height,
        pixel_index(width, y, x) == pixel_index(width, y2, x2) ==> y == y2 && x == x2,
{
    assert(0 <= y * width + x < width * height) by (nonlinear_arith)
        requires
            0 <= y < height,
            0 <= x < width,
    ;
    if y < y2 {
        assert(y * width + x < y2 * width + x2) by (nonlinear_arith)
            requires
                0 <= y < y2,
                0 <= x < width,
                0 <= x2,
        ;
    } else if y2 < y {
        assert(y2 * width + x2 < y * width + x) by (nonlinear_arith)
            requires
                0 <= y2 < y,
                0 <= x2 < width,
                0 <= x,
        ;
    }
}

/// `n` blocks of `size / n` pixels fit in `size` pixels.
proof fn lemma_blocks_fit(n: int, size: int)
    requires
        0 < n,
        0 <= size,
    ensures
        n * (size / n) <= size,
{
    let b = size / n;
    assert(n * b <= size) by (nonlinear_arith)
        requires
            0 < n,
            0 <= size,
            b == size / n,
    ;
}

/// Every pixel that `n` blocks of `size / n` pixels cover belongs to one of the blocks.
proof fn lemma_block_in_range(n: int, size: int, p: int)
    requires
        0 < n,
        0 <= size,
        0 <= p < n * (size / n),
    ensures
        0 < size / n,
        0 <= p / (size / n) < n,
{
    let b = size / n;
    assert(0 < b) by (nonlinear_arith)
        requires
            0 <= p < n * b,
            0 < n,
    ;
    assert(0 <= p / b < n) by (nonlinear_arith)
        requires
            0 <= p < n * b,
            0 < b,
    ;
}

/// Paints `grid` into `buffer`, a row-major image `width` pixels wide and `height` high: each
/// cell fills a block of `width / cols` by `height / rows` pixels, white when alive and black
/// when dead. Pixels outside every block keep their value.
pub fn draw_grid(
    grid: &Vec<Vec<i8>>,
    buffer: &mut Vec<u32>,
    rows: usize,
    cols: usize,
    width: usize,
    height: usize,
)
    requires
        is_grid(grid.deep_view(), rows as int, cols as int),
        0 < rows,
        0 < cols,
        old(buffer)@.len() == width * height,
    ensures
        final(buffer)@.len() == old(buffer)@.len(),
        forall|y: int, x: int|
            0 <= y < height && 0 <= x < width ==> #[trigger] final(buffer)@[pixel_index(
                width as int,
                y,
                x,
            )] == painted_pixel(
                grid.deep_view(),
                old(buffer)@,
                rows as int,
                cols as int,
                width as int,
                height as int,
                y,
                x,
            ),
{
    let ghost g = grid.deep_view();
    let ghost before = buffer@;
    let total = buffer.len();
    let cell_width = width / cols;
    let cell_height = height / rows;
    proof {
        lemma_blocks_fit(rows as int, height as int);
        lemma_blocks_fit(cols as int, width as int);
    }
    let painted_height = rows * cell_height;
    let painted_width = cols * cell_width;
    let mut y: usize = 0;
    while y < painted_height
        invariant
            g == grid.deep_view(),
            is_grid(g, rows as int, cols as int),
            0 < rows,
            0 < cols,
            cell_width == width / cols,
            cell_height == height / rows,
            painted_height == rows * cell_height,
            painted_width == cols * cell_width,
            painted_height <= height,
            painted_width <= width,
            y <= painted_height,
            buffer@.len() == width * height,
            total == width * height,
            before.len() == width * height,
            forall|y1: int, x1: int|
                0 <= y1 < height && 0 <= x1 < width ==> #[trigger] buffer@[pixel_index(
                    width as int,
                    y1,
                    x1,
                )] == if y1 < y {
                    painted_pixel(
                        g,
                        before,
                        rows as int,
                        cols as int,
                        width as int,
                        height as int,
                        y1,
                        x1,
                    )
                } else {
                    before[pixel_index(width as int, y1, x1)]
                },
        decreases painted_height - y,
    {
        proof {
            lemma_block_in_range(rows as int, height as int, y as int);
        }
        let cells = &grid[y / cell_height];
        assert(cells@ == g[(y / cell_height) as int]);
        let mut x: usize = 0;
        while x < painted_width
            invariant
                g == grid.deep_view(),
                is_grid(g, rows as int, cols as int),
                0 < rows,
                0 < cols,
                cell_width == width / cols,
                cell_height == height / rows,
                painted_height == rows * cell_height,
                painted_width == cols * cell_width,
                painted_height <= height,
                painted_width <= width,
                y < painted_height,
                0 <= y / cell_height < rows,
                cells@ == g[(y / cell_height) as int],
                x <= painted_width,
                buffer@.len() == width * height,
                total == width * height,
            total == width * height,
                before.len() == width * height,
                forall|y1: int, x1: int|
                    0 <= y1 < height && 0 <= x1 < width ==> #[trigger] buffer@[pixel_index(
                        width as int,
                        y1,
                        x1,
                    )] == if y1 < y || (y1 == y && x1 < x) {
                        painted_pixel(
                            g,
                            before,
                            rows as int,
                            cols as int,
                            width as int,
                            height as int,
                            y1,
                            x1,
                        )
                    } else {
                        before[pixel_index(width as int, y1, x1)]
                    },
            decreases painted_width - x,
        {
            proof {
                lemma_block_in_range(cols as int, width as int, x as int);
                lemma_index_in_buffer(width as int, height as int, y as int, x as int, 0, 0);
            }
            let colour = colour_of(cells[x / cell_width]);
            let idx = y * width + x;
            let ghost prev = buffer@;
            buffer.set(idx, colour);
            assert forall|y1: int, x1: int|
                0 <= y1 < height && 0 <= x1 < width implies #[trigger] buffer@[pixel_index(
                    width as int,
                    y1,
                    x1,
                )] == if y1 < y || (y1 == y && x1 < x + 1) {
                    painted_pixel(
                        g,
                        before,
                        rows as int,
                        cols as int,
                        width as int,
                        height as int,
                        y1,
                        x1,
                    )
                } else {
                    before[pixel_index(width as int, y1, x1)]
                } by {
                lemma_index_in_buffer(width as int, height as int, y1, x1, y as int, x as int);
                assert(prev[pixel_index(width as int, y1, x1)] == if y1 < y || (y1 == y && x1
                    < x) {
                    painted_pixel(
                        g,
                        before,
                        rows as int,
                        cols as int,
                        width as int,
                        height as int,
                        y1,
                        x1,
                    )
                } else {
                    before[pixel_index(width as int, y1, x1)]
                });
            }
            x = x + 1;
        }
        assert forall|y1: int, x1: int|
            0 <= y1 < height && 0 <= x1 < width && y1 == y && painted_width <= x1 implies before[pixel_index(width as int, y1, x1)] == painted_pixel(
                g,
                before,
                rows as int,
                cols as int,
                width as int,
                height as int,
                y1,
                x1,
            ) by {}
        y = y + 1;
    }
    assert forall|y1: int, x1: int|
        0 <= y1 < height && 0 <= x1 < width && painted_height <= y1 implies before[pixel_index(width as int, y1, x1)] == painted_pixel(
            g,
            before,
            rows as int,
            cols as int,
            width as int,
            height as int,
            y1,
            x1,
        ) by {}
}

} // verus!
