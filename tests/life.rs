use life_term::drive::{board_size, same_delta, Action, Driver, SizeError, FALLBACK_SIZE};
use life_term::game::{next_cell, Cell, Config, Game, SEED_BOUND};

const CLAMP: Config = Config { wrap_rows: false, wrap_cols: false };
const TORUS: Config = Config { wrap_rows: true, wrap_cols: true };

fn board(lines: &[&str], config: Config) -> Game {
    let rows = lines.len();
    let cols = lines[0].len();
    let mut g = Game::new(rows, cols, config);
    for (r, line) in lines.iter().enumerate() {
        for (c, ch) in line.chars().enumerate() {
            g.set(r, c, Cell::from(ch == '#'));
        }
    }
    g
}

fn picture(g: &Game) -> Vec<String> {
    let mut out = Vec::new();
    for r in 0..g.x_len() {
        let mut line = String::new();
        for c in 0..g.y_len() {
            line.push(if g.at(r, c).alive { '#' } else { '.' });
        }
        out.push(line);
    }
    out
}

fn naive_weight(g: &Game, r: usize, c: usize) -> usize {
    // Counts the up-to-eight torus neighbors directly.
    let rows = g.x_len();
    let cols = g.y_len();
    let mut n = 0;
    for dr in [rows - 1, 0, 1] {
        for dc in [cols - 1, 0, 1] {
            if dr == 0 && dc == 0 {
                continue;
            }
            if g.at((r + dr) % rows, (c + dc) % cols).alive {
                n += 1;
            }
        }
    }
    n
}

#[test]
fn rule_table_matches_b3_s23() {
    for w in 0..=8usize {
        assert_eq!(next_cell(false, w), w == 3);
        assert_eq!(next_cell(true, w), w == 2 || w == 3);
    }
}

#[test]
fn rule_applied_to_every_cell() {
    let mut g = board(&["#.#.#", ".##..", "#..##", "##.#."], TORUS);
    let before = picture(&g);
    let mut expected = Vec::new();
    for r in 0..4 {
        for c in 0..5 {
            let w = g.weight(r, c);
            let was = g.at(r, c).alive;
            expected.push(w == 3 || (w == 2 && was));
        }
    }
    let delta = g.tick();
    for r in 0..4 {
        for c in 0..5 {
            assert_eq!(g.at(r, c).alive, expected[r * 5 + c]);
        }
    }
    let changed: Vec<(usize, usize)> = (0..4)
        .flat_map(|r| (0..5).map(move |c| (r, c)))
        .filter(|&(r, c)| (before[r].as_bytes()[c] == b'#') != g.at(r, c).alive)
        .collect();
    assert_eq!(delta, changed);
}

#[test]
fn snapshot_isolation_any_visit_order() {
    let g = board(&["##..#.", ".#.##.", "#....#", "..##..", "#.#..#"], CLAMP);
    let mut stepped = board(&["##..#.", ".#.##.", "#....#", "..##..", "#.#..#"], CLAMP);
    stepped.tick();
    // Column-major, and reversed row-major, both reading the snapshot `g`.
    let mut by_columns = board(&["##..#.", ".#.##.", "#....#", "..##..", "#.#..#"], CLAMP);
    for c in 0..6 {
        for r in 0..5 {
            by_columns.set(r, c, Cell::from(next_cell(g.at(r, c).alive, g.weight(r, c))));
        }
    }
    let mut reversed = board(&["##..#.", ".#.##.", "#....#", "..##..", "#.#..#"], CLAMP);
    for r in (0..5).rev() {
        for c in (0..6).rev() {
            reversed.set(r, c, Cell::from(next_cell(g.at(r, c).alive, g.weight(r, c))));
        }
    }
    assert_eq!(picture(&stepped), picture(&by_columns));
    assert_eq!(picture(&stepped), picture(&reversed));
}

#[test]
fn delta_is_exactly_the_changed_cells_in_row_major_order() {
    let mut g = board(&["#.##", "##..", "..#.", ".###"], TORUS);
    let before = picture(&g);
    let delta = g.tick();
    let after = picture(&g);
    let mut expected = Vec::new();
    for r in 0..4 {
        for c in 0..4 {
            if before[r].as_bytes()[c] != after[r].as_bytes()[c] {
                expected.push((r, c));
            }
        }
    }
    assert!(!expected.is_empty());
    assert_eq!(delta, expected);
    for w in delta.windows(2) {
        assert!(w[0] < w[1]);
    }
}

#[test]
fn block_still_life_clamp() {
    let mut g = board(&["....", ".##.", ".##.", "...."], CLAMP);
    for _ in 0..3 {
        assert_eq!(g.tick(), vec![]);
        assert_eq!(picture(&g), vec!["....", ".##.", ".##.", "...."]);
    }
}

#[test]
fn block_still_life_on_torus_across_edges() {
    let mut g = board(&["#..#", "....", "....", "#..#"], TORUS);
    for _ in 0..3 {
        assert_eq!(g.tick(), vec![]);
    }
    assert_eq!(picture(&g), vec!["#..#", "....", "....", "#..#"]);
}

#[test]
fn blinker_period_two_clamp() {
    let mut g = board(&[".....", ".....", ".###.", ".....", "....."], CLAMP);
    let d1 = g.tick();
    assert_eq!(picture(&g), vec![".....", "..#..", "..#..", "..#..", "....."]);
    assert_eq!(d1, vec![(1, 2), (2, 1), (2, 3), (3, 2)]);
    let d2 = g.tick();
    assert_eq!(picture(&g), vec![".....", ".....", ".###.", ".....", "....."]);
    assert_eq!(d2, vec![(1, 2), (2, 1), (2, 3), (3, 2)]);
    assert_eq!(d1.len(), 4);
}

#[test]
fn blinker_period_two_torus() {
    let mut g = board(&[".....", ".....", ".###.", ".....", "....."], TORUS);
    let d1 = g.tick();
    let d2 = g.tick();
    let d3 = g.tick();
    assert_eq!(d1, vec![(1, 2), (2, 1), (2, 3), (3, 2)]);
    assert_eq!(d2, d1);
    assert_eq!(d3, d1);
    assert_eq!(picture(&g), vec![".....", "..#..", "..#..", "..#..", "....."]);
}

#[test]
fn blinker_stops_the_loop_within_three_ticks() {
    let mut g = board(&[".....", ".....", ".###.", ".....", "....."], CLAMP);
    let mut driver = Driver::new(4);
    let mut stopped_at = None;
    for t in 1..=3 {
        let delta = g.tick();
        let action = driver.step(delta);
        if action.repeating {
            stopped_at = Some(t);
            break;
        }
    }
    assert_eq!(stopped_at, Some(2));
}

#[test]
fn wrap_corner_cell_counts_like_torus() {
    let g = board(&["#..", "...", "..."], TORUS);
    for r in 0..3 {
        for c in 0..3 {
            assert_eq!(g.weight(r, c), naive_weight(&g, r, c));
            let expected = if (r, c) == (0, 0) { 0 } else { 1 };
            assert_eq!(g.weight(r, c), expected);
        }
    }
}

#[test]
fn clamp_corner_cell_counts() {
    let g = board(&["#..", "...", "..."], CLAMP);
    let mut counts = Vec::new();
    for r in 0..3 {
        for c in 0..3 {
            counts.push(g.weight(r, c));
        }
    }
    // (0,1) and (1,0) see the corner twice through the clamped index.
    assert_eq!(counts, vec![0, 2, 0, 2, 1, 0, 0, 0, 0]);
}

#[test]
fn single_cell_dies_either_policy() {
    let mut t = board(&["#..", "...", "..."], TORUS);
    assert_eq!(t.tick(), vec![(0, 0)]);
    let mut k = board(&["#..", "...", "..."], CLAMP);
    assert_eq!(k.tick(), vec![(0, 0)]);
    assert_eq!(picture(&k), vec!["...", "...", "..."]);
}

#[test]
fn glider_moves_diagonally_in_four_ticks() {
    let start = ["......", "..#...", "...#..", ".###..", "......", "......"];
    let mut g = board(&start, CLAMP);
    for _ in 0..4 {
        let d = g.tick();
        assert_eq!(d.len(), 4);
    }
    assert_eq!(picture(&g), vec!["......", "......", "...#..", "....#.", "..###.", "......"]);
}

#[test]
fn glider_returns_on_torus_after_24_ticks() {
    let start = ["......", "..#...", "...#..", ".###..", "......", "......"];
    let mut g = board(&start, TORUS);
    for t in 0..24 {
        g.tick();
        if t < 23 {
            assert_ne!(picture(&g), start.to_vec());
        }
    }
    assert_eq!(picture(&g), start.to_vec());
}

#[test]
fn full_frame_three_by_three() {
    let g = board(&["...", ".#.", "..."], CLAMP);
    assert_eq!(g.iframe(), "\x1B[2J\x1B[1;1H|---|\n|   |\n| # |\n|   |\n|---|\n");
}

#[test]
fn full_frame_wide_board() {
    let g = board(&["#...#.....##"], TORUS);
    assert_eq!(g.iframe(), "\x1B[2J\x1B[1;1H|------------|\n|#   #     ##|\n|------------|\n");
}

#[test]
fn partial_render_paints_changed_cells() {
    let g = board(&["...", "...", ".#."], CLAMP);
    let s = g.partial_render(&vec![(0, 0), (2, 1)]);
    assert_eq!(s, "\x1B[2;2H \x1B[4;3H#\x1B[6;1H");
}

#[test]
fn partial_render_multi_digit_positions() {
    let mut g = Game::new(120, 15, CLAMP);
    g.set(99, 10, Cell::from(true));
    let s = g.partial_render(&vec![(99, 10), (7, 0)]);
    assert_eq!(s, "\x1B[101;12H#\x1B[9;2H \x1B[123;1H");
    assert_eq!(g.partial_render(&vec![]), "\x1B[123;1H");
}

#[test]
fn new_board_is_dead() {
    let g = Game::new(2, 3, TORUS);
    assert_eq!(g.x_len(), 2);
    assert_eq!(g.y_len(), 3);
    assert_eq!(picture(&g), vec!["...", "..."]);
    assert_eq!(g.config(), TORUS);
}

#[test]
fn one_by_one_board() {
    let mut g = board(&["#"], TORUS);
    assert_eq!(g.weight(0, 0), 0);
    assert_eq!(g.tick(), vec![(0, 0)]);
    let mut h = Game::new(1, 4, CLAMP);
    h.set(0, 1, Cell::from(true));
    h.set(0, 2, Cell::from(true));
    // A single row is its own neighbor row three times over.
    for c in 0..4 {
        assert_eq!(h.weight(0, c), 3);
    }
    assert_eq!(h.tick(), vec![(0, 0), (0, 3)]);
    assert_eq!(picture(&h), vec!["####"]);
}

#[test]
fn cell_from_values() {
    assert!(Cell::from(true).alive);
    assert!(!Cell::from(false).alive);
    assert!(!Cell::from(0usize).alive);
    assert!(Cell::from(1usize).alive);
    assert!(Cell::from(7usize).alive);
}

#[test]
fn seeding_follows_the_draws() {
    let mut g = Game::new(2, 3, CLAMP);
    let draws = vec![vec![0, 63, 64], vec![255, SEED_BOUND - 1, 200]];
    g.seed_from_draws(&draws);
    assert_eq!(picture(&g), vec!["##.", ".#."]);
}

#[test]
fn randomize_keeps_dimensions() {
    let mut g = Game::new(7, 9, TORUS);
    g.randomize();
    assert_eq!(g.x_len(), 7);
    assert_eq!(g.y_len(), 9);
    assert_eq!(g.config(), TORUS);
}

#[test]
fn board_size_choices() {
    assert_eq!(board_size(Some((30, 20)), Some((80, 24))), Ok((20, 30)));
    assert_eq!(board_size(Some((0, 20)), None), Err(SizeError::BadArgument));
    assert_eq!(board_size(Some((30, 0)), None), Err(SizeError::BadArgument));
    assert_eq!(board_size(None, Some((80, 24))), Ok((20, 78)));
    assert_eq!(board_size(None, Some((2, 24))), Err(SizeError::TerminalTooSmall));
    assert_eq!(board_size(None, Some((80, 4))), Err(SizeError::TerminalTooSmall));
    assert_eq!(board_size(None, Some((3, 5))), Ok((1, 1)));
    assert_eq!(board_size(None, None), Ok((FALLBACK_SIZE, FALLBACK_SIZE)));
    assert_eq!(FALLBACK_SIZE, 10);
}

#[test]
fn driver_full_frame_cadence() {
    for period in 1..=4usize {
        let mut d = Driver::new(period);
        for step in 0..10usize {
            let a = d.step(vec![(step, 0)]);
            assert_eq!(a, Action { full_frame: step % period == 0, repeating: false });
        }
    }
}

#[test]
fn driver_detects_period_one_and_two() {
    let mut d = Driver::new(3);
    assert!(!d.step(vec![(0, 1)]).repeating);
    assert!(d.step(vec![(0, 1)]).repeating);

    let mut e = Driver::new(3);
    assert!(!e.step(vec![(1, 1)]).repeating);
    assert!(!e.step(vec![(2, 2)]).repeating);
    assert!(e.step(vec![(1, 1)]).repeating);

    let mut f = Driver::new(3);
    assert!(!f.step(vec![(1, 1)]).repeating);
    assert!(!f.step(vec![(2, 2)]).repeating);
    assert!(!f.step(vec![(3, 3)]).repeating);
    assert!(!f.step(vec![(1, 1)]).repeating);
}

#[test]
fn driver_stops_on_empty_first_delta() {
    let mut d = Driver::new(2);
    assert_eq!(d.step(vec![]), Action { full_frame: true, repeating: true });
}

#[test]
fn same_delta_compares_order() {
    assert!(same_delta(&vec![(1, 2), (3, 4)], &vec![(1, 2), (3, 4)]));
    assert!(!same_delta(&vec![(1, 2), (3, 4)], &vec![(3, 4), (1, 2)]));
    assert!(!same_delta(&vec![(1, 2)], &vec![(1, 2), (3, 4)]));
    assert!(same_delta(&vec![], &vec![]));
}

#[test]
fn block_still_life_on_smallest_torus() {
    let mut g = board(&["#.#", "...", "#.#"], TORUS);
    assert_eq!(g.tick(), vec![]);
    let mut h = board(&["##.", "##.", "..."], TORUS);
    assert_eq!(h.tick(), vec![]);
}

#[test]
fn block_filling_two_by_two_torus_dies() {
    let mut g = board(&["##", "##"], TORUS);
    assert_eq!(g.tick(), vec![(0, 0), (0, 1), (1, 0), (1, 1)]);
}

#[test]
fn clone_is_an_independent_snapshot() {
    let mut g = board(&[".....", ".....", ".###.", ".....", "....."], CLAMP);
    let snapshot = g.clone();
    g.tick();
    assert_eq!(picture(&snapshot), vec![".....", ".....", ".###.", ".....", "....."]);
    assert_ne!(picture(&snapshot), picture(&g));
}
