use burn::layers::Layerable;
use burn::state::fire_state::{FireCell, FireState};
use burn::state::smoke_state::{
    SmokeCell, SmokeLayer, SmokeState, DRIFT_HIGH, DRIFT_LOW, SMOKE_COLORS, SMOKE_GLYPHS,
    SPAWN_ODDS,
};

fn units(cell: SmokeCell) -> usize {
    match cell {
        SmokeCell::Clear => 0,
        SmokeCell::Smoky { volume } => volume,
    }
}

fn at(state: &SmokeState, r: usize, c: usize) -> usize {
    units(state.features()[r][c])
}

fn row_volume(state: &SmokeState, r: usize) -> usize {
    state.features()[r].iter().map(|cell| units(*cell)).sum()
}

fn total_volume(state: &SmokeState) -> usize {
    (0..state.rows()).map(|r| row_volume(state, r)).sum()
}

fn lit_cells(fire: &FireState) -> usize {
    fire.features()
        .iter()
        .map(|row| row.iter().filter(|cell| matches!(cell, FireCell::Lit { .. })).count())
        .sum()
}

fn painted(color: (u8, u8, u8), glyph: char) -> String {
    format!(
        "\x1b[38;2;{};{};{}m{}\x1b[39m",
        color.0, color.1, color.2, glyph
    )
}

#[test]
fn the_constants_of_the_smoke() {
    assert_eq!(SMOKE_GLYPHS, ['"', '&', '@', '?']);
    assert_eq!(
        SMOKE_COLORS,
        [(79, 79, 79), (140, 133, 133), (178, 173, 173), (140, 120, 120)]
    );
    assert_eq!(SPAWN_ODDS, 10);
    assert_eq!(DRIFT_LOW, -1);
    assert_eq!(DRIFT_HIGH, 2);
}

#[test]
fn new_smoke_is_clear() {
    let state = SmokeState::new(3, 4);
    assert_eq!(state.rows(), 3);
    assert_eq!(state.cols(), 4);
    assert_eq!(state.features(), &vec![vec![SmokeCell::Clear; 4]; 3]);
    assert_eq!(total_volume(&state), 0);
}

#[test]
fn a_unit_goes_one_row_up_and_as_far_aside_as_it_drifts() {
    let state = SmokeState::new(4, 5);
    assert_eq!(state.destination(3, 2, -1), Some((2, 1)));
    assert_eq!(state.destination(3, 2, 0), Some((2, 2)));
    assert_eq!(state.destination(3, 2, 1), Some((2, 3)));
    assert_eq!(state.destination(1, 0, 0), Some((0, 0)));
    assert_eq!(state.destination(1, 0, 1), Some((0, 1)));
    assert_eq!(state.destination(1, 4, -1), Some((0, 3)));
    assert_eq!(state.destination(2, 1, 3), Some((1, 4)));
    assert_eq!(state.destination(2, 3, -3), Some((1, 0)));
}

#[test]
fn a_unit_that_leaves_the_grid_goes_nowhere() {
    let state = SmokeState::new(4, 5);
    // Above the top row.
    assert_eq!(state.destination(0, 2, -1), None);
    assert_eq!(state.destination(0, 2, 0), None);
    assert_eq!(state.destination(0, 2, 1), None);
    // Beside the first and the last column: no wrapping, no clamping.
    assert_eq!(state.destination(2, 0, -1), None);
    assert_eq!(state.destination(2, 4, 1), None);
    assert_eq!(state.destination(2, 1, -2), None);
    assert_eq!(state.destination(2, 3, 2), None);
    assert_eq!(state.destination(3, 0, isize::MIN), None);
    assert_eq!(state.destination(3, 4, isize::MAX), None);
    // A grid of one column loses what drifts at all.
    let narrow = SmokeState::new(3, 1);
    assert_eq!(narrow.destination(2, 0, -1), None);
    assert_eq!(narrow.destination(2, 0, 0), Some((1, 0)));
    assert_eq!(narrow.destination(2, 0, 1), None);
}

#[test]
fn a_moving_unit_drifts_one_column_at_most() {
    let state = SmokeState::new(3, 5);
    let mut seen = Vec::new();
    for _ in 0..300 {
        let target = state.gen_smoke_movement(2, 2);
        assert!(
            target == Some((1, 1)) || target == Some((1, 2)) || target == Some((1, 3)),
            "{:?}",
            target
        );
        if !seen.contains(&target) {
            seen.push(target);
        }
    }
    // Each of the three ways comes up.
    assert_eq!(seen.len(), 3);
    for _ in 0..100 {
        assert_eq!(state.gen_smoke_movement(0, 2), None);
        let target = state.gen_smoke_movement(1, 0);
        assert!(target == None || target == Some((0, 0)) || target == Some((0, 1)));
        let target = state.gen_smoke_movement(1, 4);
        assert!(target == None || target == Some((0, 3)) || target == Some((0, 4)));
    }
}

#[test]
fn placed_units_stack() {
    let mut state = SmokeState::new(2, 2);
    state.place_smoke(1, 0);
    assert_eq!(state.features()[1][0], SmokeCell::Smoky { volume: 1 });
    state.place_smoke(1, 0);
    state.place_smoke(1, 0);
    assert_eq!(state.features()[1][0], SmokeCell::Smoky { volume: 3 });
    state.place_smoke(0, 1);
    assert_eq!(
        state.features(),
        &vec![
            vec![SmokeCell::Clear, SmokeCell::Smoky { volume: 1 }],
            vec![SmokeCell::Smoky { volume: 3 }, SmokeCell::Clear],
        ]
    );
    assert_eq!(total_volume(&state), 4);
}

#[test]
fn a_cleared_cell_holds_no_smoke() {
    let mut state = SmokeState::new(2, 2);
    state.place_smoke(1, 0);
    state.place_smoke(1, 0);
    state.place_smoke(0, 1);
    state.clear_smoke(1, 0);
    assert_eq!(
        state.features(),
        &vec![
            vec![SmokeCell::Clear, SmokeCell::Smoky { volume: 1 }],
            vec![SmokeCell::Clear, SmokeCell::Clear],
        ]
    );
    // Clearing clear air changes nothing.
    state.clear_smoke(0, 0);
    assert_eq!(total_volume(&state), 1);
    state.clear_smoke(0, 1);
    assert_eq!(state.features(), &vec![vec![SmokeCell::Clear; 2]; 2]);
}

#[test]
fn clear_air_over_no_fire_stays_clear() {
    let fire = FireState::new(3, 3);
    let mut state = SmokeState::new(3, 3);
    for _ in 0..10 {
        state = state.get_next(&fire);
        assert_eq!(total_volume(&state), 0);
        assert_eq!(state.features(), &vec![vec![SmokeCell::Clear; 3]; 3]);
    }
}

#[test]
fn smoke_rises_a_row_with_every_tick() {
    for _ in 0..100 {
        let fire = FireState::new(4, 7);
        let mut state = SmokeState::new(4, 7);
        state.place_smoke(3, 3);
        state.place_smoke(3, 3);
        state.place_smoke(3, 3);
        // Row 3 to row 2: columns 2 to 4.
        let next = state.get_next(&fire);
        assert_eq!(row_volume(&next, 3), 0);
        assert_eq!(row_volume(&next, 2), 3);
        assert_eq!(at(&next, 2, 2) + at(&next, 2, 3) + at(&next, 2, 4), 3);
        // Row 2 to row 1: columns 1 to 5.
        let next = next.get_next(&fire);
        assert_eq!(row_volume(&next, 2), 0);
        assert_eq!(row_volume(&next, 1), 3);
        assert_eq!(at(&next, 1, 0) + at(&next, 1, 6), 0);
        // Row 1 to row 0: columns 0 to 6, still within the grid.
        let next = next.get_next(&fire);
        assert_eq!(row_volume(&next, 0), 3);
        assert_eq!(total_volume(&next), 3);
        // From the top row it is gone.
        let next = next.get_next(&fire);
        assert_eq!(total_volume(&next), 0);
        assert_eq!(next.features(), &vec![vec![SmokeCell::Clear; 7]; 4]);
    }
}

#[test]
fn smoke_is_conserved_away_from_the_edges() {
    // No fire: nothing is given off. Smoke in the inner columns of a lower
    // row cannot leave the grid in one tick: nothing is lost.
    let fire = FireState::new(3, 5);
    for _ in 0..100 {
        let mut state = SmokeState::new(3, 5);
        for _ in 0..2 {
            state.place_smoke(2, 1);
            state.place_smoke(2, 3);
        }
        state.place_smoke(1, 2);
        assert_eq!(total_volume(&state), 5);
        let next = state.get_next(&fire);
        assert_eq!(total_volume(&next), 5);
        assert_eq!(row_volume(&next, 2), 0);
        assert_eq!(row_volume(&next, 1), 4);
        assert_eq!(row_volume(&next, 0), 1);
    }
}

#[test]
fn smoke_is_lost_only_at_the_top_and_the_sides() {
    let fire = FireState::new(3, 2);
    let mut lost_some = false;
    let mut kept_some = false;
    for _ in 0..200 {
        let mut state = SmokeState::new(3, 2);
        state.place_smoke(0, 0);
        state.place_smoke(0, 1);
        state.place_smoke(2, 0);
        state.place_smoke(2, 1);
        // The two units of the top row are lost whatever the dice say; the
        // two of the bottom row are lost if they drift out at the sides.
        let next = state.get_next(&fire);
        let total = total_volume(&next);
        assert!(total <= 2);
        assert_eq!(row_volume(&next, 1), total);
        lost_some = lost_some || total < 2;
        kept_some = kept_some || total > 0;
    }
    assert!(lost_some);
    assert!(kept_some);
}

#[test]
fn only_burning_cells_give_off_smoke() {
    let mut fire = FireState::new(3, 3);
    fire.set_cell_fire(2, 1, 20);
    fire.set_cell_fire(0, 0, 20);
    let mut some = 0;
    let mut none = 0;
    for _ in 0..400 {
        let state = SmokeState::new(3, 3);
        let next = state.get_next(&fire);
        for r in 0..3 {
            for c in 0..3 {
                if (r, c) == (2, 1) || (r, c) == (0, 0) {
                    assert!(at(&next, r, c) <= 1);
                    if at(&next, r, c) == 1 {
                        some += 1;
                    } else {
                        none += 1;
                    }
                } else {
                    assert_eq!(next.features()[r][c], SmokeCell::Clear);
                }
            }
        }
        assert!(total_volume(&next) <= lit_cells(&fire));
    }
    // About one burning cell in ten gives off a unit.
    assert!(some > 0);
    assert!(none > some);
}

#[test]
fn ash_gives_off_no_smoke() {
    let mut fire = FireState::new(1, 1);
    fire.set_cell_fire(0, 0, 0);
    let fire = fire.get_next();
    assert!(matches!(fire.cell(0, 0), FireCell::Extinguished { .. }));
    for _ in 0..200 {
        let next = SmokeState::new(1, 1).get_next(&fire);
        assert_eq!(total_volume(&next), 0);
    }
}

#[test]
fn new_smoke_stacks_on_what_arrived() {
    // The fire burns where the smoke below must rise to: what is given off
    // is added to what arrives.
    let mut fire = FireState::new(2, 1);
    fire.set_cell_fire(0, 0, 20);
    let mut stacked = false;
    for _ in 0..3000 {
        let mut state = SmokeState::new(2, 1);
        state.place_smoke(1, 0);
        let next = state.get_next(&fire);
        assert_eq!(at(&next, 1, 0), 0);
        // One unit below: it arrives, if it does not drift out of the one
        // column; one more may be given off.
        assert!(at(&next, 0, 0) <= 2);
        stacked = stacked || at(&next, 0, 0) == 2;
    }
    assert!(stacked);
}

#[test]
fn the_volume_changes_by_what_is_lost_and_what_is_given_off() {
    for _ in 0..20 {
        let mut fire = FireState::new(6, 6);
        fire.start_fire();
        let mut smoke = SmokeState::new(6, 6);
        for _ in 0..60 {
            fire = fire.get_next();
            let next = smoke.get_next(&fire);
            // Nothing is lost but from the top row and the two outer
            // columns; nothing is given off but by cells that burn.
            let mut exposed = row_volume(&smoke, 0);
            for r in 1..6 {
                exposed += at(&smoke, r, 0) + at(&smoke, r, 5);
            }
            assert!(total_volume(&next) + exposed >= total_volume(&smoke));
            assert!(total_volume(&next) <= total_volume(&smoke) + lit_cells(&fire));
            // Row by row: what a row holds came from the row below or from
            // its own fire.
            for r in 0..6 {
                let below = if r + 1 < 6 { row_volume(&smoke, r + 1) } else { 0 };
                let lit = fire.features()[r]
                    .iter()
                    .filter(|cell| matches!(cell, FireCell::Lit { .. }))
                    .count();
                assert!(row_volume(&next, r) <= below + lit);
            }
            smoke = next;
        }
    }
}

#[test]
fn get_next_leaves_the_smoke_it_reads_alone() {
    let fire = FireState::new(3, 3);
    let mut state = SmokeState::new(3, 3);
    state.place_smoke(2, 1);
    let before = state.clone();
    let _ = state.get_next(&fire);
    assert_eq!(state.features(), before.features());
}

#[test]
fn a_clear_cell_shows_nothing() {
    assert_eq!(Option::<String>::from(SmokeCell::Clear), None);
}

#[test]
fn smoke_billows_whatever_its_volume() {
    let mut allowed = Vec::new();
    for glyph in SMOKE_GLYPHS {
        for color in SMOKE_COLORS {
            allowed.push(painted(color, glyph));
        }
    }
    assert!(allowed.contains(&"\x1b[38;2;79;79;79m\"\x1b[39m".to_string()));
    assert!(allowed.contains(&"\x1b[38;2;140;133;133m?\x1b[39m".to_string()));
    let mut seen = Vec::new();
    for volume in [1usize, 2, 50] {
        for _ in 0..200 {
            let glyph = Option::<String>::from(SmokeCell::Smoky { volume }).unwrap();
            assert!(allowed.contains(&glyph), "{:?}", glyph);
            if !seen.contains(&glyph) {
                seen.push(glyph);
            }
        }
    }
    assert!(seen.len() > 1);
}

#[test]
fn smoke_converts_into_its_layer() {
    let mut state = SmokeState::new(2, 2);
    state.place_smoke(1, 1);
    let layer = SmokeLayer::from(&state);
    assert_eq!(layer.rows(), 2);
    assert_eq!(layer.cols(), 2);
    assert!(layer.get(1, 1).is_some());
    assert_eq!(layer.get(0, 0), None);
    assert_eq!(layer.get(0, 1), None);
    assert_eq!(layer.get(1, 0), None);
    let layer_again: SmokeLayer = (&state).into();
    assert!(layer_again.get(1, 1).is_some());
    assert_eq!(layer_again.get(1, 0), None);
}

#[test]
fn the_smoke_as_a_layer() {
    let mut state = SmokeState::new(2, 3);
    state.place_smoke(0, 1);
    state.place_smoke(1, 2);
    state.place_smoke(1, 2);
    let layer: SmokeLayer = state.as_layer();
    assert_eq!(layer.rows(), 2);
    assert_eq!(layer.cols(), 3);
    for r in 0..2 {
        assert_eq!(layer.features()[r].len(), 3);
        for c in 0..3 {
            match layer.get(r, c) {
                None => assert_eq!(at(&state, r, c), 0),
                Some(glyph) => {
                    assert!(at(&state, r, c) > 0);
                    assert!(SMOKE_GLYPHS
                        .iter()
                        .any(|g| SMOKE_COLORS.iter().any(|c| painted(*c, *g) == glyph)));
                }
            }
        }
    }
}
