use life::grid::{count_neighbours, generate_grid, next_cell, update_grid, ALIVE, DEAD};
use life::render::{colour_of, draw_grid, BLACK, WHITE};

fn grid_of(rows: &[&[i8]]) -> Vec<Vec<i8>> {
    rows.iter().map(|r| r.to_vec()).collect()
}

#[test]
fn corner_sees_three_neighbours() {
    let g = grid_of(&[&[1, 1, 1], &[1, 1, 1], &[1, 1, 1]]);
    assert_eq!(count_neighbours(&g, 0, 0, 3, 3), 3);
    assert_eq!(count_neighbours(&g, 2, 2, 3, 3), 3);
    assert_eq!(count_neighbours(&g, 0, 1, 3, 3), 5);
    assert_eq!(count_neighbours(&g, 1, 1, 3, 3), 8);
}

#[test]
fn interior_count_ignores_the_cell_itself() {
    let g = grid_of(&[&[0, 1, 0, 0], &[1, 1, 0, 0], &[0, 0, 1, 0], &[0, 0, 0, 1]]);
    assert_eq!(count_neighbours(&g, 1, 1, 4, 4), 3);
    assert_eq!(count_neighbours(&g, 2, 2, 4, 4), 2);
    assert_eq!(count_neighbours(&g, 3, 3, 4, 4), 1);
    assert_eq!(count_neighbours(&g, 0, 3, 4, 4), 0);
}

#[test]
fn rule_table() {
    assert_eq!(next_cell(ALIVE, 0), DEAD);
    assert_eq!(next_cell(ALIVE, 1), DEAD);
    assert_eq!(next_cell(ALIVE, 2), ALIVE);
    assert_eq!(next_cell(ALIVE, 3), ALIVE);
    assert_eq!(next_cell(ALIVE, 4), DEAD);
    assert_eq!(next_cell(ALIVE, 8), DEAD);
    assert_eq!(next_cell(DEAD, 3), ALIVE);
    assert_eq!(next_cell(DEAD, 2), DEAD);
    assert_eq!(next_cell(DEAD, 4), DEAD);
    assert_eq!(next_cell(DEAD, 0), DEAD);
}

#[test]
fn step_applies_rule_table_to_grid() {
    // (0,1) has 4 neighbours and dies, (1,2) has 2 and survives, (0,2) is dead with 3 and is born
    let mut g = grid_of(&[&[1, 1, 0], &[1, 1, 1], &[0, 0, 0]]);
    update_grid(&mut g, 3, 3);
    assert_eq!(g, grid_of(&[&[1, 0, 1], &[1, 0, 1], &[0, 1, 0]]));
}

#[test]
fn all_dead_stays_dead() {
    let mut g = grid_of(&[&[0, 0, 0], &[0, 0, 0], &[0, 0, 0]]);
    update_grid(&mut g, 3, 3);
    assert_eq!(g, vec![vec![0i8; 3]; 3]);
}

#[test]
fn isolated_cell_dies() {
    let mut g = grid_of(&[&[0, 0, 0], &[0, 1, 0], &[0, 0, 0]]);
    update_grid(&mut g, 3, 3);
    assert_eq!(g, vec![vec![0i8; 3]; 3]);
}

#[test]
fn blinker_has_period_two() {
    let horizontal = grid_of(&[
        &[0, 0, 0, 0, 0],
        &[0, 0, 0, 0, 0],
        &[0, 1, 1, 1, 0],
        &[0, 0, 0, 0, 0],
        &[0, 0, 0, 0, 0],
    ]);
    let vertical = grid_of(&[
        &[0, 0, 0, 0, 0],
        &[0, 0, 1, 0, 0],
        &[0, 0, 1, 0, 0],
        &[0, 0, 1, 0, 0],
        &[0, 0, 0, 0, 0],
    ]);
    let mut g = horizontal.clone();
    update_grid(&mut g, 5, 5);
    assert_eq!(g, vertical);
    update_grid(&mut g, 5, 5);
    assert_eq!(g, horizontal);
    update_grid(&mut g, 5, 5);
    assert_eq!(g, vertical);
}

#[test]
fn step_reads_a_frozen_copy() {
    let (rows, cols) = (12usize, 9usize);
    let mut g = generate_grid(rows, cols);
    let frozen = g.clone();
    update_grid(&mut g, rows, cols);
    for r in 0..rows {
        for c in 0..cols {
            let n = count_neighbours(&frozen, r as isize, c as isize, rows, cols);
            assert_eq!(g[r][c], next_cell(frozen[r][c], n));
        }
    }
}

#[test]
fn dimensions_survive_many_steps() {
    let (rows, cols) = (7usize, 11usize);
    let mut g = generate_grid(rows, cols);
    for _ in 0..50 {
        update_grid(&mut g, rows, cols);
        assert_eq!(g.len(), rows);
        assert!(g.iter().all(|r| r.len() == cols));
        assert!(g.iter().flatten().all(|&c| c == 0 || c == 1));
    }
}

#[test]
fn generated_grid_is_well_formed() {
    let g = generate_grid(20, 30);
    assert_eq!(g.len(), 20);
    assert!(g.iter().all(|r| r.len() == 30));
    assert!(g.iter().flatten().all(|&c| c == DEAD || c == ALIVE));
    assert!(generate_grid(0, 5).is_empty());
}

#[test]
fn paint_one_alive_cell() {
    let g = grid_of(&[&[1, 0], &[0, 0]]);
    let mut buffer = vec![0u32; 16];
    draw_grid(&g, &mut buffer, 2, 2, 4, 4);
    for y in 0..4 {
        for x in 0..4 {
            let expected = if y < 2 && x < 2 { WHITE } else { BLACK };
            assert_eq!(buffer[y * 4 + x], expected, "pixel ({}, {})", y, x);
        }
    }
}

#[test]
fn paint_overwrites_earlier_frame() {
    let g = grid_of(&[&[0, 1], &[1, 0]]);
    let mut buffer = vec![0x123456u32; 16];
    draw_grid(&g, &mut buffer, 2, 2, 4, 4);
    assert_eq!(buffer[0], BLACK);
    assert_eq!(buffer[3], WHITE);
    assert_eq!(buffer[2 * 4 + 1], WHITE);
    assert_eq!(buffer[3 * 4 + 3], BLACK);
}

#[test]
fn paint_leaves_truncated_margin() {
    // 3 columns over 4 pixels: blocks are 1 pixel wide, the last column is never written
    let g = grid_of(&[&[1, 0, 1], &[0, 1, 0]]);
    let mut buffer = vec![7u32; 20];
    draw_grid(&g, &mut buffer, 2, 3, 4, 5);
    // height 5 over 2 rows: blocks are 2 pixels high, the last row is never written
    let expected: [[u32; 4]; 5] = [
        [WHITE, BLACK, WHITE, 7],
        [WHITE, BLACK, WHITE, 7],
        [BLACK, WHITE, BLACK, 7],
        [BLACK, WHITE, BLACK, 7],
        [7, 7, 7, 7],
    ];
    for y in 0..5 {
        for x in 0..4 {
            assert_eq!(buffer[y * 4 + x], expected[y][x], "pixel ({}, {})", y, x);
        }
    }
}

#[test]
fn colours_of_states() {
    assert_eq!(colour_of(ALIVE), 0xFFFFFF);
    assert_eq!(colour_of(DEAD), 0x000000);
}
