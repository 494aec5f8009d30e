use burn::layers::Layerable;
use burn::state::fire_state::{
    FireCell, FireLayer, FireState, Neighbors, ASH_COLOR, ASH_GLYPHS, FIRE_COLORS, FIRE_GLYPHS,
    SPREAD_ODDS, TTL_HIGH, TTL_LOW,
};

fn burnt(state: &FireState) -> usize {
    state
        .features()
        .iter()
        .map(|row| row.iter().filter(|cell| **cell != FireCell::Unlit).count())
        .sum()
}

fn lit_next_to(state: &FireState, r: usize, c: usize) -> usize {
    let lit = |r: isize, c: isize| {
        r >= 0
            && c >= 0
            && (r as usize) < state.rows()
            && (c as usize) < state.cols()
            && matches!(state.features()[r as usize][c as usize], FireCell::Lit { .. })
    };
    let (r, c) = (r as isize, c as isize);
    [lit(r - 1, c), lit(r, c + 1), lit(r + 1, c), lit(r, c - 1)]
        .iter()
        .filter(|lit| **lit)
        .count()
}

fn painted(color: (u8, u8, u8), glyph: char) -> String {
    format!(
        "\x1b[38;2;{};{};{}m{}\x1b[39m",
        color.0, color.1, color.2, glyph
    )
}

// Holds every allowed step of a cell against the cell that came out.
fn follows(cell: FireCell, lit_neighbors: usize, next: FireCell) -> bool {
    match cell {
        FireCell::Unlit => match next {
            FireCell::Unlit => true,
            FireCell::Lit { ttl } => lit_neighbors > 0 && TTL_LOW <= ttl && ttl < TTL_HIGH,
            FireCell::Extinguished { .. } => false,
        },
        FireCell::Lit { ttl: 0 } => match next {
            FireCell::Extinguished { glyph } => ASH_GLYPHS.contains(&glyph),
            _ => false,
        },
        FireCell::Lit { ttl } => next == FireCell::Lit { ttl: ttl - 1 },
        FireCell::Extinguished { .. } => next == cell,
    }
}

#[test]
fn fire_state_test_start_fire() {
    let mut fire_state = FireState::new(3, 3);

    fire_state.start_fire();

    let last_row: &Vec<FireCell> = fire_state.features().into_iter().last().unwrap();

    let fire_cell_count = last_row.into_iter().fold(0, |acc, &cell| match cell {
        FireCell::Lit { .. } => acc + 1,
        _ => acc,
    });

    assert_eq!(fire_cell_count, 1);
}

#[test]
fn the_constants_of_the_fire() {
    assert_eq!(FIRE_GLYPHS, ['%', '*', ',', 'W', 'Y', '^']);
    assert_eq!(ASH_GLYPHS, ['.', ' ', ' ', ' ', ' ', ' ', ' ']);
    assert_eq!(
        FIRE_COLORS,
        [(232, 81, 44), (198, 46, 7), (247, 39, 67), (255, 134, 5), (255, 72, 48)]
    );
    assert_eq!(ASH_COLOR, (100, 100, 100));
    assert_eq!(SPREAD_ODDS, 7);
    assert_eq!(TTL_LOW, 3);
    assert_eq!(TTL_HIGH, 26);
}

#[test]
fn a_new_fire_is_all_unlit() {
    let state = FireState::new(4, 6);
    assert_eq!(state.rows(), 4);
    assert_eq!(state.cols(), 6);
    assert_eq!(state.n_fires(), 0);
    assert_eq!(state.features(), &vec![vec![FireCell::Unlit; 6]; 4]);
    assert!(!state.is_saturated());
}

#[test]
fn a_fire_without_cells() {
    let state = FireState::new(0, 5);
    assert_eq!(state.features().len(), 0);
    assert!(!state.is_saturated());
    let next = state.get_next();
    assert_eq!(next.features().len(), 0);
    assert_eq!(next.n_fires(), 0);
    let state = FireState::new(2, 0);
    assert_eq!(state.features(), &vec![Vec::<FireCell>::new(); 2]);
    assert!(!state.get_next().is_saturated());
}

#[test]
fn start_fire_lights_one_cell_of_the_bottom_row() {
    for &(rows, cols) in &[(1usize, 1usize), (1, 7), (3, 3), (5, 2), (6, 9)] {
        for _ in 0..40 {
            let mut state = FireState::new(rows, cols);
            state.start_fire();
            assert_eq!(state.n_fires(), 1);
            let mut lit = Vec::new();
            for r in 0..rows {
                for c in 0..cols {
                    match state.cell(r, c) {
                        FireCell::Unlit => {}
                        FireCell::Lit { ttl } => {
                            assert!(TTL_LOW <= ttl && ttl < TTL_HIGH);
                            lit.push((r, c));
                        }
                        FireCell::Extinguished { .. } => panic!("ash in a fire just started"),
                    }
                }
            }
            assert_eq!(lit.len(), 1);
            assert_eq!(lit[0].0, rows - 1);
        }
    }
}

#[test]
fn start_fire_draws_its_column_and_its_time_to_live() {
    // Over many starts, more than one column and more than one time to live
    // come up: neither is a constant.
    let mut columns = Vec::new();
    let mut ttls = Vec::new();
    for _ in 0..400 {
        let mut state = FireState::new(2, 8);
        state.start_fire();
        for c in 0..8 {
            if let FireCell::Lit { ttl } = state.cell(1, c) {
                if !columns.contains(&c) {
                    columns.push(c);
                }
                if !ttls.contains(&ttl) {
                    ttls.push(ttl);
                }
            }
        }
    }
    assert!(columns.len() > 1);
    assert!(ttls.len() > 1);
}

#[test]
fn set_cell_fire_lights_the_cell_and_counts_it() {
    let mut state = FireState::new(3, 4);
    state.set_cell_fire(1, 2, 9);
    assert_eq!(state.cell(1, 2), FireCell::Lit { ttl: 9 });
    assert_eq!(state.n_fires(), 1);
    state.set_cell_fire(0, 0, 0);
    assert_eq!(state.cell(0, 0), FireCell::Lit { ttl: 0 });
    assert_eq!(state.n_fires(), 2);
    assert_eq!(burnt(&state), 2);
    for r in 0..3 {
        for c in 0..4 {
            if (r, c) != (1, 2) && (r, c) != (0, 0) {
                assert_eq!(state.cell(r, c), FireCell::Unlit);
            }
        }
    }
}

#[test]
fn neighbors_are_the_four_cells_next_to_a_cell() {
    let mut state = FireState::new(3, 3);
    state.set_cell_fire(0, 1, 4);
    state.set_cell_fire(1, 0, 5);
    state.set_cell_fire(1, 2, 6);
    state.set_cell_fire(2, 1, 7);
    let around = state.get_neighbors(1, 1);
    assert_eq!(
        around,
        Neighbors {
            row: 1,
            col: 1,
            top: FireCell::Lit { ttl: 4 },
            right: FireCell::Lit { ttl: 6 },
            bottom: FireCell::Lit { ttl: 7 },
            left: FireCell::Lit { ttl: 5 },
        }
    );
    assert_eq!(around.n_fires(), 4);
    assert!(around.fire_in_neighborhood());
    // Beyond the grid nothing burns.
    let corner = state.get_neighbors(0, 0);
    assert_eq!(
        corner,
        Neighbors {
            row: 0,
            col: 0,
            top: FireCell::Unlit,
            right: FireCell::Lit { ttl: 4 },
            bottom: FireCell::Lit { ttl: 5 },
            left: FireCell::Unlit,
        }
    );
    assert_eq!(corner.n_fires(), 2);
    let corner = state.get_neighbors(2, 2);
    assert_eq!(corner.top, FireCell::Lit { ttl: 6 });
    assert_eq!(corner.left, FireCell::Lit { ttl: 7 });
    assert_eq!(corner.right, FireCell::Unlit);
    assert_eq!(corner.bottom, FireCell::Unlit);
    // A cell does not count itself.
    let lone = state.get_neighbors(0, 1);
    assert_eq!(lone.n_fires(), 0);
    assert!(!lone.fire_in_neighborhood());
}

#[test]
fn ash_next_door_does_not_count_as_fire() {
    let around = Neighbors {
        row: 1,
        col: 1,
        top: FireCell::Extinguished { glyph: '.' },
        right: FireCell::Unlit,
        bottom: FireCell::Extinguished { glyph: ' ' },
        left: FireCell::Lit { ttl: 0 },
    };
    assert_eq!(around.n_fires(), 1);
    assert!(around.fire_in_neighborhood());
    let none = Neighbors { left: FireCell::Unlit, ..around };
    assert_eq!(none.n_fires(), 0);
    assert!(!none.fire_in_neighborhood());
}

#[test]
fn nothing_burns_where_nothing_burned() {
    let mut state = FireState::new(4, 4);
    for _ in 0..20 {
        state = state.get_next();
        assert_eq!(state.n_fires(), 0);
        assert_eq!(state.features(), &vec![vec![FireCell::Unlit; 4]; 4]);
    }
}

#[test]
fn a_cell_with_no_burning_neighbour_stays_unlit() {
    for _ in 0..200 {
        let mut state = FireState::new(5, 5);
        state.set_cell_fire(2, 2, 10);
        let next = state.get_next();
        for r in 0..5 {
            for c in 0..5 {
                let beside = (r == 2 && (c == 1 || c == 3)) || (c == 2 && (r == 1 || r == 3));
                if (r, c) != (2, 2) && !beside {
                    assert_eq!(next.cell(r, c), FireCell::Unlit);
                }
            }
        }
    }
}

#[test]
fn fire_spreads_to_a_neighbour_now_and_then() {
    // One burning neighbour sets a cell alight in about one tick of seven:
    // over many ticks it does so sometimes, and sometimes not.
    let mut caught = 0;
    let mut spared = 0;
    for _ in 0..600 {
        let mut state = FireState::new(1, 2);
        state.set_cell_fire(0, 0, 10);
        match state.get_next().cell(0, 1) {
            FireCell::Unlit => spared += 1,
            FireCell::Lit { ttl } => {
                assert!(TTL_LOW <= ttl && ttl < TTL_HIGH);
                caught += 1;
            }
            FireCell::Extinguished { .. } => panic!("an unlit cell fell to ash"),
        }
    }
    assert!(caught > 0);
    assert!(spared > caught);
}

#[test]
fn a_burning_cell_counts_down() {
    let mut state = FireState::new(1, 1);
    state.set_cell_fire(0, 0, 5);
    for ttl in [4, 3, 2, 1, 0] {
        state = state.get_next();
        assert_eq!(state.cell(0, 0), FireCell::Lit { ttl });
        assert_eq!(state.n_fires(), 1);
    }
}

#[test]
fn a_cell_out_of_time_falls_to_ash() {
    let mut seen = Vec::new();
    for _ in 0..300 {
        let mut state = FireState::new(1, 1);
        state.set_cell_fire(0, 0, 0);
        let next = state.get_next();
        match next.cell(0, 0) {
            FireCell::Extinguished { glyph } => {
                assert!(ASH_GLYPHS.contains(&glyph));
                if !seen.contains(&glyph) {
                    seen.push(glyph);
                }
            }
            other => panic!("expected ash, found {:?}", other),
        }
        assert_eq!(next.n_fires(), 1);
    }
    // Both kinds of ash come up.
    seen.sort();
    assert_eq!(seen, vec![' ', '.']);
}

#[test]
fn a_cell_out_of_time_still_burns_for_its_neighbours() {
    // A cell with no time left burns in the state that the tick reads: it
    // falls to ash, and may set a neighbour alight in the same tick.
    let mut caught = false;
    for _ in 0..400 {
        let mut state = FireState::new(1, 2);
        state.set_cell_fire(0, 0, 0);
        let next = state.get_next();
        assert!(matches!(next.cell(0, 0), FireCell::Extinguished { .. }));
        caught = caught || matches!(next.cell(0, 1), FireCell::Lit { .. });
    }
    assert!(caught);
}

#[test]
fn ash_stays_as_it_is() {
    let mut state = FireState::new(1, 3);
    state.set_cell_fire(0, 1, 0);
    state = state.get_next();
    let ash = state.cell(0, 1);
    assert!(matches!(ash, FireCell::Extinguished { .. }));
    for _ in 0..60 {
        state = state.get_next();
        assert_eq!(state.cell(0, 1), ash);
    }
}

#[test]
fn ash_sets_nothing_alight() {
    let mut state = FireState::new(3, 1);
    state.set_cell_fire(1, 0, 0);
    let mut state = state.get_next();
    while state.n_fires() > 1 {
        // A neighbour caught fire in the very tick: try again.
        let mut again = FireState::new(3, 1);
        again.set_cell_fire(1, 0, 0);
        state = again.get_next();
    }
    for _ in 0..60 {
        state = state.get_next();
        assert_eq!(state.cell(0, 0), FireCell::Unlit);
        assert_eq!(state.cell(2, 0), FireCell::Unlit);
        assert_eq!(state.n_fires(), 1);
    }
}

#[test]
fn every_tick_follows_the_rule_cell_by_cell() {
    for _ in 0..20 {
        let mut state = FireState::new(6, 7);
        state.start_fire();
        for _ in 0..60 {
            let next = state.get_next();
            assert_eq!(next.rows(), 6);
            assert_eq!(next.cols(), 7);
            for r in 0..6 {
                for c in 0..7 {
                    assert!(
                        follows(state.cell(r, c), lit_next_to(&state, r, c), next.cell(r, c)),
                        "{:?} with {} burning neighbours became {:?}",
                        state.cell(r, c),
                        lit_next_to(&state, r, c),
                        next.cell(r, c)
                    );
                }
            }
            state = next;
        }
    }
}

#[test]
fn the_count_of_burnt_cells_never_falls() {
    for _ in 0..20 {
        let mut state = FireState::new(5, 8);
        state.start_fire();
        assert_eq!(burnt(&state), 1);
        for _ in 0..80 {
            let next = state.get_next();
            assert!(burnt(&next) >= burnt(&state));
            assert!(next.n_fires() >= state.n_fires());
            assert_eq!(next.n_fires(), burnt(&next));
            for r in 0..5 {
                for c in 0..8 {
                    if state.cell(r, c) != FireCell::Unlit {
                        assert_ne!(next.cell(r, c), FireCell::Unlit);
                    }
                }
            }
            state = next;
        }
    }
}

#[test]
fn get_next_leaves_the_state_it_reads_alone() {
    let mut state = FireState::new(3, 3);
    state.start_fire();
    let before = state.clone();
    let _ = state.get_next();
    assert_eq!(state.features(), before.features());
    assert_eq!(state.n_fires(), before.n_fires());
}

#[test]
fn one_cell_in_nine_does_not_saturate() {
    let mut state = FireState::new(3, 3);
    state.start_fire();
    assert_eq!(state.n_fires(), 1);
    assert!(!state.is_saturated());
}

#[test]
fn saturation_is_more_than_99_in_100() {
    // Ten by ten: 99 cells are exactly 99 in 100, which is not more.
    let mut state = FireState::new(10, 10);
    for k in 0..99 {
        assert!(!state.is_saturated());
        state.set_cell_fire(k / 10, k % 10, 3);
    }
    assert_eq!(state.n_fires(), 99);
    assert!(!state.is_saturated());
    state.set_cell_fire(9, 9, 3);
    assert_eq!(state.n_fires(), 100);
    assert!(state.is_saturated());
    // Twenty by ten: 198 cells are 99 in 100 again, 199 are more.
    let mut state = FireState::new(20, 10);
    for k in 0..198 {
        state.set_cell_fire(k / 10, k % 10, 3);
    }
    assert!(!state.is_saturated());
    state.set_cell_fire(19, 8, 3);
    assert!(state.is_saturated());
}

#[test]
fn a_small_grid_saturates_only_when_all_of_it_burned() {
    let mut state = FireState::new(3, 3);
    for k in 0..8 {
        state.set_cell_fire(k / 3, k % 3, 3);
        assert!(!state.is_saturated());
    }
    state.set_cell_fire(2, 2, 3);
    assert!(state.is_saturated());
    // Ash counts as well as fire.
    for _ in 0..30 {
        state = state.get_next();
        assert!(state.is_saturated());
    }
    assert!(matches!(state.cell(0, 0), FireCell::Extinguished { .. }));
}

#[test]
fn an_unlit_cell_shows_nothing() {
    assert_eq!(Option::<String>::from(FireCell::Unlit), None);
}

#[test]
fn ash_shows_its_glyph_in_grey() {
    assert_eq!(
        Option::<String>::from(FireCell::Extinguished { glyph: '.' }),
        Some("\x1b[38;2;100;100;100m.\x1b[39m".to_string())
    );
    assert_eq!(
        Option::<String>::from(FireCell::Extinguished { glyph: ' ' }),
        Some("\x1b[38;2;100;100;100m \x1b[39m".to_string())
    );
}

#[test]
fn a_burning_cell_flickers() {
    let mut allowed = Vec::new();
    for glyph in FIRE_GLYPHS {
        for color in FIRE_COLORS {
            allowed.push(painted(color, glyph));
        }
    }
    assert!(allowed.contains(&"\x1b[38;2;198;46;7m%\x1b[39m".to_string()));
    assert!(allowed.contains(&"\x1b[38;2;255;134;5m^\x1b[39m".to_string()));
    let mut seen = Vec::new();
    for _ in 0..400 {
        let glyph = Option::<String>::from(FireCell::Lit { ttl: 3 }).unwrap();
        assert!(allowed.contains(&glyph), "{:?}", glyph);
        if !seen.contains(&glyph) {
            seen.push(glyph);
        }
    }
    assert!(seen.len() > 1);
}

#[test]
fn the_fire_as_a_layer() {
    let mut state = FireState::new(2, 3);
    state.set_cell_fire(1, 1, 0);
    state.set_cell_fire(0, 2, 8);
    let state = state.get_next();
    let ash = match state.cell(1, 1) {
        FireCell::Extinguished { glyph } => glyph,
        other => panic!("expected ash, found {:?}", other),
    };
    let layer: FireLayer = state.as_layer();
    assert_eq!(layer.rows(), 2);
    assert_eq!(layer.cols(), 3);
    assert_eq!(layer.features().len(), 2);
    assert_eq!(layer.features()[0].len(), 3);
    assert_eq!(layer.features()[1].len(), 3);
    assert_eq!(layer.get(1, 1), Some(painted(ASH_COLOR, ash)));
    let flame = layer.get(0, 2).unwrap();
    assert!(FIRE_GLYPHS
        .iter()
        .any(|g| FIRE_COLORS.iter().any(|c| painted(*c, *g) == flame)));
    for r in 0..2 {
        for c in 0..3 {
            assert_eq!(layer.get(r, c).is_none(), state.cell(r, c) == FireCell::Unlit);
        }
    }
}

#[test]
fn a_fire_converts_into_its_layer() {
    let mut state = FireState::new(2, 2);
    state.set_cell_fire(1, 0, 0);
    let state = state.get_next();
    let layer = FireLayer::from(&state);
    assert_eq!(layer.rows(), 2);
    assert_eq!(layer.cols(), 2);
    let layer_again: FireLayer = (&state).into();
    let ash = match state.cell(1, 0) {
        FireCell::Extinguished { glyph } => painted(ASH_COLOR, glyph),
        other => panic!("expected ash, found {:?}", other),
    };
    assert_eq!(layer.get(1, 0), Some(ash.clone()));
    assert_eq!(layer_again.get(1, 0), Some(ash));
    assert_eq!(layer.get(0, 1), None);
    assert_eq!(layer_again.get(0, 1), None);
}

#[test]
fn a_new_fire_layer_shows_nothing() {
    let layer = FireLayer::new(2, 3);
    assert_eq!(layer.rows(), 2);
    assert_eq!(layer.cols(), 3);
    assert_eq!(layer.features(), &vec![vec![None; 3]; 2]);
    assert_eq!(layer.get(1, 2), None);
    let same = FireState::new(2, 3).as_layer();
    assert_eq!(same.features(), layer.features());
}

#[test]
fn a_copy_of_the_fire_is_the_same_fire() {
    let mut state = FireState::new(3, 4);
    state.start_fire();
    let state = state.get_next();
    let copy = state.clone();
    assert_eq!(copy.rows(), state.rows());
    assert_eq!(copy.cols(), state.cols());
    assert_eq!(copy.n_fires(), state.n_fires());
    assert_eq!(copy.features(), state.features());
}
