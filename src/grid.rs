//! The grid model: cell states, neighbour counts and the generation step.
use vstd::prelude::*;

verus! {

#[verifier::external_type_specification]
#[verifier::external_body]
pub struct ExThreadRng(rand::rngs::ThreadRng);

/// Relies on rand::thread_rng: hands out the thread's random number generator.
pub assume_specification[ rand::thread_rng ]() -> rand::rngs::ThreadRng;

/// Relies on rand::Rng::gen_range: a draw from the inclusive range `0..=1`, which is not
/// empty, so the call does not panic.
#[verifier::external_body]
fn random_cell(rng: &mut rand::rngs::ThreadRng) -> (cell: i8)
    ensures
        cell == DEAD || cell == ALIVE,
{
    rand::Rng::gen_range(rng, 0..=1)
}

/// The value of a living cell.
pub const ALIVE: i8 = 1;

/// The value of a dead cell.
pub const DEAD: i8 = 0;

/// `g` has exactly `rows` rows of `cols` cells each, and every cell is dead or alive.
pub open spec fn is_grid(g: Seq<Seq<i8>>, rows: int, cols: int) -> bool {
    &&& g.len() == rows
    &&& forall|r: int| 0 <= r < rows ==> #[trigger] g[r].len() == cols
    &&& forall|r: int, c: int|
        0 <= r < rows && 0 <= c < cols ==> (#[trigger] g[r][c] == DEAD || g[r][c] == ALIVE)
}

/// The state of the cell at `(r, c)`, where every position off the grid counts as dead.
pub open spec fn cell_at(g: Seq<Seq<i8>>, r: int, c: int) -> int {
    if 0 <= r < g.len() && 0 <= c < g[r].len() {
        g[r][c] as int
    } else {
        0
    }
}

/// The number of living cells among the eight positions around `(r, c)`.
pub open spec fn neighbour_count(g: Seq<Seq<i8>>, r: int, c: int) -> int {
    cell_at(g, r - 1, c - 1) + cell_at(g, r - 1, c) + cell_at(g, r - 1, c + 1)
        + cell_at(g, r, c - 1) + cell_at(g, r, c + 1)
        + cell_at(g, r + 1, c - 1) + cell_at(g, r + 1, c) + cell_at(g, r + 1, c + 1)
}

/// What the position at offset `(i, j)` from `(r, c)` adds to the neighbour count.
spec fn offset_value(g: Seq<Seq<i8>>, r: int, c: int, i: int, j: int) -> int {
    if i == 0 && j == 0 {
        0
    } else {
        cell_at(g, r + i, c + j)
    }
}

/// The offsets `(i, -1)` up to `(i, j - 1)` of one row of the neighbourhood, summed.
spec fn row_prefix(g: Seq<Seq<i8>>, r: int, c: int, i: int, j: int) -> int
    decreases j + 1,
{
    if j <= -1 {
        0
    } else {
        row_prefix(g, r, c, i, j - 1) + offset_value(g, r, c, i, j - 1)
    }
}

/// The rows `-1` up to `i - 1` of the neighbourhood, summed.
spec fn rows_prefix(g: Seq<Seq<i8>>, r: int, c: int, i: int) -> int
    decreases i + 1,
{
    if i <= -1 {
        0
    } else {
        rows_prefix(g, r, c, i - 1) + row_prefix(g, r, c, i - 1, 2)
    }
}

proof fn lemma_prefix_is_count(g: Seq<Seq<i8>>, r: int, c: int)
    ensures
        rows_prefix(g, r, c, 2) == neighbour_count(g, r, c),
{
    reveal_with_fuel(rows_prefix, 4);
    reveal_with_fuel(row_prefix, 4);
}

/// Counts the living cells around `(row, col)`; positions off the grid count as dead.
pub fn count_neighbours(grid: &Vec<Vec<i8>>, row: isize, col: isize, rows: usize, cols: usize) -> (count: i8)
    requires
        is_grid(grid.deep_view(), rows as int, cols as int),
        rows <= isize::MAX,
        cols <= isize::MAX,
        isize::MIN < row < isize::MAX,
        isize::MIN < col < isize::MAX,
    ensures
        count as int == neighbour_count(grid.deep_view(), row as int, col as int),
        0 <= count <= 8,
{
    let ghost g = grid.deep_view();
    let mut count: i8 = 0;
    let mut i: isize = -1;
    while i <= 1
        invariant
            g == grid.deep_view(),
            is_grid(g, rows as int, cols as int),
            rows <= isize::MAX,
            cols <= isize::MAX,
            isize::MIN < row < isize::MAX,
            isize::MIN < col < isize::MAX,
            -1 <= i <= 2,
            count as int == rows_prefix(g, row as int, col as int, i as int),
            0 <= count <= 3 * (i + 1),
        decreases 2 - i,
    {
        let mut j: isize = -1;
        while j <= 1
            invariant
                g == grid.deep_view(),
                is_grid(g, rows as int, cols as int),
                rows <= isize::MAX,
                cols <= isize::MAX,
                isize::MIN < row < isize::MAX,
                isize::MIN < col < isize::MAX,
                -1 <= i <= 1,
                -1 <= j <= 2,
                count as int == rows_prefix(g, row as int, col as int, i as int) + row_prefix(
                    g,
                    row as int,
                    col as int,
                    i as int,
                    j as int,
                ),
                0 <= count <= 3 * (i + 1) + (j + 1),
            decreases 2 - j,
        {
            if !(i == 0 && j == 0) {
                let new_row = row + i;
                let new_col = col + j;
                if new_row >= 0 && new_row < rows as isize && new_col >= 0 && new_col < cols as isize {
                    let ghost (nr, nc) = (new_row as int, new_col as int);
                    assert(g[nr] == grid@[nr]@);
                    assert(g[nr][nc] == DEAD || g[nr][nc] == ALIVE);
                    count = count + grid[new_row as usize][new_col as usize];
                }
            }
            j = j + 1;
        }
        i = i + 1;
    }
    proof {
        lemma_prefix_is_count(g, row as int, col as int);
    }
    count
}

/// The state a cell with `neighbours` living neighbours takes in the next generation.
pub open spec fn next_state(cell: i8, neighbours: int) -> i8 {
    if cell == ALIVE && neighbours > 3 {
        DEAD
    } else if cell == ALIVE && neighbours < 2 {
        DEAD
    } else if cell == DEAD && neighbours == 3 {
        ALIVE
    } else {
        cell
    }
}

/// The textbook statement of the rule: a cell lives in the next generation exactly when it
/// has three living neighbours, or is alive and has two.
pub open spec fn conway_state(cell: i8, neighbours: int) -> i8 {
    if neighbours == 3 || (cell == ALIVE && neighbours == 2) {
        ALIVE
    } else {
        DEAD
    }
}

/// The generation that follows `g`: every cell is computed from `g` as a whole.
pub open spec fn next_gen(g: Seq<Seq<i8>>) -> Seq<Seq<i8>> {
    Seq::new(
        g.len(),
        |r: int| Seq::new(g[r].len(), |c: int| next_state(g[r][c], neighbour_count(g, r, c))),
    )
}

/// The grid after `n` generations starting from `g`.
pub open spec fn generations(g: Seq<Seq<i8>>, n: nat) -> Seq<Seq<i8>>
    decreases n,
{
    if n == 0 {
        g
    } else {
        next_gen(generations(g, (n - 1) as nat))
    }
}

/// The four-branch rule and the textbook rule agree on every dead or living cell and every
/// neighbour count from 0 to 8.
pub proof fn lemma_rule_is_conway(cell: i8, neighbours: int)
    requires
        cell == DEAD || cell == ALIVE,
        0 <= neighbours <= 8,
    ensures
        next_state(cell, neighbours) == conway_state(cell, neighbours),
{
}

/// One generation keeps the grid's dimensions, and every cell stays dead or alive.
pub proof fn lemma_step_keeps_grid(g: Seq<Seq<i8>>, rows: int, cols: int)
    requires
        is_grid(g, rows, cols),
    ensures
        is_grid(next_gen(g), rows, cols),
{
    let n = next_gen(g);
    assert forall|r: int| 0 <= r < rows implies #[trigger] n[r].len() == cols by {}
    assert forall|r: int, c: int| 0 <= r < rows && 0 <= c < cols implies (#[trigger] n[r][c]
        == DEAD || n[r][c] == ALIVE) by {
        assert(g[r][c] == DEAD || g[r][c] == ALIVE);
    }
}

/// However many generations pass, the grid keeps its dimensions and every cell stays dead
/// or alive.
pub proof fn lemma_generations_keep_grid(g: Seq<Seq<i8>>, rows: int, cols: int, n: nat)
    requires
        is_grid(g, rows, cols),
    ensures
        is_grid(generations(g, n), rows, cols),
    decreases n,
{
    if n > 0 {
        lemma_generations_keep_grid(g, rows, cols, (n - 1) as nat);
        lemma_step_keeps_grid(generations(g, (n - 1) as nat), rows, cols);
    }
}

/// The next state of a cell that is `cell` and has `neighbours` living neighbours.
pub fn next_cell(cell: i8, neighbours: i8) -> (next: i8)
    ensures
        next == next_state(cell, neighbours as int),
{
    if neighbours > 3 && cell == ALIVE {
        DEAD
    } else if neighbours < 2 && cell == ALIVE {
        DEAD
    } else if neighbours == 3 && cell == DEAD {
        ALIVE
    } else {
        cell
    }
}

/// Replaces the grid with its next generation, computed from a frozen copy of the current one.
pub fn update_grid(grid: &mut Vec<Vec<i8>>, rows: usize, cols: usize)
    requires
        is_grid(old(grid).deep_view(), rows as int, cols as int),
        rows <= isize::MAX,
        cols <= isize::MAX,
    ensures
        final(grid).deep_view() == next_gen(old(grid).deep_view()),
        is_grid(final(grid).deep_view(), rows as int, cols as int),
{
    let ghost g = grid.deep_view();
    let ghost next = next_gen(g);
    let mut new_grid: Vec<Vec<i8>> = Vec::new();
    let mut row: usize = 0;
    while row < rows
        invariant
            g == grid.deep_view(),
            next == next_gen(g),
            is_grid(g, rows as int, cols as int),
            rows <= isize::MAX,
            cols <= isize::MAX,
            row <= rows,
            new_grid@.len() == row,
            forall|r: int| 0 <= r < row ==> #[trigger] new_grid@[r]@ == next[r],
        decreases rows - row,
    {
        let mut new_row: Vec<i8> = Vec::new();
        let mut col: usize = 0;
        while col < cols
            invariant
                g == grid.deep_view(),
                next == next_gen(g),
                is_grid(g, rows as int, cols as int),
                rows <= isize::MAX,
                cols <= isize::MAX,
                row < rows,
                col <= cols,
                new_row@.len() == col,
                forall|c: int| 0 <= c < col ==> #[trigger] new_row@[c] == next[row as int][c],
            decreases cols - col,
        {
            let neighbours = count_neighbours(grid, row as isize, col as isize, rows, cols);
            assert(g[row as int] == grid@[row as int]@);
            let cell = grid[row][col];
            new_row.push(next_cell(cell, neighbours));
            col = col + 1;
        }
        assert(new_row@ =~= next[row as int]);
        new_grid.push(new_row);
        row = row + 1;
    }
    assert(new_grid.deep_view() =~~= next);
    *grid = new_grid;
    proof {
        lemma_step_keeps_grid(g, rows as int, cols as int);
    }
}

/// A grid of `rows` by `cols` cells, each drawn independently as dead or alive.
pub fn generate_grid(rows: usize, cols: usize) -> (grid: Vec<Vec<i8>>)
    ensures
        is_grid(grid.deep_view(), rows as int, cols as int),
{
    let mut rng = rand::thread_rng();
    let mut grid: Vec<Vec<i8>> = Vec::new();
    let mut row: usize = 0;
    while row < rows
        invariant
            row <= rows,
            grid@.len() == row,
            forall|r: int| 0 <= r < row ==> #[trigger] grid@[r]@.len() == cols,
            forall|r: int, c: int|
                0 <= r < row && 0 <= c < cols ==> (#[trigger] grid@[r]@[c] == DEAD
                    || grid@[r]@[c] == ALIVE),
        decreases rows - row,
    {
        let mut cells: Vec<i8> = Vec::new();
        let mut col: usize = 0;
        while col < cols
            invariant
                col <= cols,
                cells@.len() == col,
                forall|c: int| 0 <= c < col ==> (#[trigger] cells@[c] == DEAD || cells@[c] == ALIVE),
            decreases cols - col,
        {
            cells.push(random_cell(&mut rng));
            col = col + 1;
        }
        grid.push(cells);
        row = row + 1;
    }
    let ghost g = grid.deep_view();
    assert forall|r: int| 0 <= r < rows implies #[trigger] g[r].len() == cols by {
        assert(g[r] == grid@[r]@);
    }
    assert forall|r: int, c: int| 0 <= r < rows && 0 <= c < cols implies (#[trigger] g[r][c]
        == DEAD || g[r][c] == ALIVE) by {
        assert(g[r] == grid@[r]@);
    }
    grid
}

} // verus!
