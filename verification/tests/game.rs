use quan_minesweeper::game_logic::{
    CellInteraction, CellKind, GameParams, GameState, GameStatus,
};
use quan_minesweeper::game_settings::{Difficulty, Size};

fn params(difficulty: Difficulty, size: Size) -> GameParams {
    GameParams { difficulty, size }
}

fn count_cleared_cells(state: &GameState) -> isize {
    let (rows, columns) = state.dimensions();
    let mut n = 0;
    for r in 0..rows {
        for c in 0..columns {
            let (interaction, kind) = state.get_cell_state(r, c).unwrap();
            if matches!(interaction, CellInteraction::Cleared) && !matches!(kind, CellKind::Mine) {
                n += 1;
            }
        }
    }
    n
}

#[test]
fn mine_budgets_for_every_combination() {
    let cases = [
        (Difficulty::Easy, Size::Small, 96, 14),
        (Difficulty::Normal, Size::Small, 96, 24),
        (Difficulty::Hard, Size::Small, 96, 33),
        (Difficulty::Easy, Size::Medium, 150, 22),
        (Difficulty::Normal, Size::Medium, 150, 37),
        (Difficulty::Hard, Size::Medium, 150, 52),
        (Difficulty::Easy, Size::Large, 216, 32),
        (Difficulty::Normal, Size::Large, 216, 54),
        (Difficulty::Hard, Size::Large, 216, 75),
    ];
    for (difficulty, size, total, mines) in cases {
        let state = GameState::new(params(difficulty, size));
        let (rows, columns) = state.dimensions();
        assert_eq!(rows * columns, total);
        assert_eq!(state.info().clear_total, total - mines);
        assert!(mines > 0 && mines < total);
    }
}

#[test]
fn small_board_dimensions() {
    let state = GameState::new(params(Difficulty::Easy, Size::Small));
    assert_eq!(state.dimensions(), (8, 12));
    assert_eq!(state.info().clear_total, 82);
}

#[test]
fn first_dig_is_never_a_mine() {
    for _ in 0..20 {
        let mut state = GameState::new(params(Difficulty::Hard, Size::Small));
        let out = state.dig(3, 4);
        assert!(out.timer_started);
        let (interaction, kind) = state.get_cell_state(3, 4).unwrap();
        assert!(matches!(interaction, CellInteraction::Cleared));
        assert!(!matches!(kind, CellKind::Mine));
        for dr in -1..=1 {
            for dc in -1..=1 {
                if let Some((_, kind)) = state.get_cell_state(3 + dr, 4 + dc) {
                    assert!(!matches!(kind, CellKind::Mine));
                }
            }
        }
    }
}

#[test]
fn first_dig_in_corner_is_safe() {
    let mut state = GameState::new(params(Difficulty::Hard, Size::Large));
    state.dig(0, 0);
    let (interaction, kind) = state.get_cell_state(0, 0).unwrap();
    assert!(matches!(interaction, CellInteraction::Cleared));
    assert!(!matches!(kind, CellKind::Mine));
}

#[test]
fn out_of_bounds_dig_and_flag_are_no_ops() {
    let mut state = GameState::new(params(Difficulty::Easy, Size::Small));
    state.dig(1, 1);
    let before = count_cleared_cells(&state);
    let out = state.dig(-3, 99);
    assert!(out.updates.is_empty());
    assert!(state.flag(99, -1).is_none());
    assert_eq!(count_cleared_cells(&state), before);
}

#[test]
fn cleared_counter_matches_grid_and_never_decreases() {
    let mut state = GameState::new(params(Difficulty::Normal, Size::Small));
    state.dig(4, 6);
    let mut last = 0;
    let (rows, columns) = state.dimensions();
    for r in 0..rows {
        for c in 0..columns {
            if let Some((_, CellKind::Clear(_))) = state.get_cell_state(r, c) {
                state.dig(r, c);
                let info = state.info();
                assert_eq!(info.cleared, count_cleared_cells(&state));
                assert!(info.cleared >= last);
                last = info.cleared;
            }
        }
    }
}

#[test]
fn flag_toggles_and_leaves_cleared_count_alone() {
    let mut state = GameState::new(params(Difficulty::Easy, Size::Small));
    state.dig(0, 0);
    let cleared = state.info().cleared;
    // find an untouched cell
    let (rows, columns) = state.dimensions();
    let mut target = None;
    for r in 0..rows {
        for c in 0..columns {
            if let Some((CellInteraction::Untouched, _)) = state.get_cell_state(r, c) {
                target = Some((r, c));
            }
        }
    }
    let (r, c) = target.expect("some cell is untouched after one dig");
    let up = state.flag(r, c).unwrap();
    assert!(matches!(up.interaction, CellInteraction::Flagged));
    let (interaction, _) = state.get_cell_state(r, c).unwrap();
    assert!(matches!(interaction, CellInteraction::Flagged));
    // digging a flagged cell is a no-op
    state.dig(r, c);
    let (interaction, _) = state.get_cell_state(r, c).unwrap();
    assert!(matches!(interaction, CellInteraction::Flagged));
    // unflag returns to untouched
    let up = state.flag(r, c).unwrap();
    assert!(matches!(up.interaction, CellInteraction::Untouched));
    let (interaction, _) = state.get_cell_state(r, c).unwrap();
    assert!(matches!(interaction, CellInteraction::Untouched));
    assert_eq!(state.info().cleared, cleared);
    // flagging a cleared cell is a no-op
    assert!(state.flag(0, 0).is_none());
}

fn snapshot(state: &GameState) -> Vec<(CellInteraction, CellKind)> {
    let (rows, columns) = state.dimensions();
    let mut cells = Vec::new();
    for r in 0..rows {
        for c in 0..columns {
            cells.push(state.get_cell_state(r, c).unwrap());
        }
    }
    cells
}

fn find_cleared_numbered(state: &GameState) -> Option<(isize, isize, u32)> {
    let (rows, columns) = state.dimensions();
    for r in 0..rows {
        for c in 0..columns {
            if let Some((CellInteraction::Cleared, CellKind::Clear(n))) = state.get_cell_state(r, c)
            {
                if n > 0 {
                    return Some((r, c, n));
                }
            }
        }
    }
    None
}

#[test]
fn chord_with_wrong_flag_count_changes_nothing() {
    let mut state = GameState::new(params(Difficulty::Normal, Size::Small));
    state.dig(4, 6);
    let (r, c, _n) = find_cleared_numbered(&state).expect("a numbered cell is revealed");
    let before = snapshot(&state);
    // no flags are set, so the flagged-neighbor count cannot match the number
    state.dig(r, c);
    assert_eq!(snapshot(&state), before);
}

#[test]
fn chord_with_matching_flags_opens_the_neighbors() {
    let mut state = GameState::new(params(Difficulty::Normal, Size::Small));
    state.dig(4, 6);
    if let Some((r, c, n)) = find_cleared_numbered(&state) {
        // flag exactly the mines around the cell
        let mut flagged = 0;
        for dr in -1..=1 {
            for dc in -1..=1 {
                if let Some((CellInteraction::Untouched, CellKind::Mine)) =
                    state.get_cell_state(r + dr, c + dc)
                {
                    state.flag(r + dr, c + dc);
                    flagged += 1;
                }
            }
        }
        assert_eq!(flagged, n, "every neighboring mine was still untouched");
        state.dig(r, c);
        for dr in -1..=1 {
            for dc in -1..=1 {
                if let Some((interaction, _)) = state.get_cell_state(r + dr, c + dc) {
                    assert!(!matches!(interaction, CellInteraction::Untouched));
                }
            }
        }
        assert!(!matches!(state.info().status, GameStatus::GameOver));
    }
}

#[test]
fn clearing_every_safe_cell_wins_exactly_once() {
    let mut state = GameState::new(params(Difficulty::Easy, Size::Small));
    let mut submissions = 0;
    let out = state.dig(2, 3);
    if out.submit.is_some() {
        submissions += 1;
    }
    let (rows, columns) = state.dimensions();
    for r in 0..rows {
        for c in 0..columns {
            if let Some((CellInteraction::Untouched, CellKind::Clear(_))) =
                state.get_cell_state(r, c)
            {
                let out = state.dig(r, c);
                if out.submit.is_some() {
                    submissions += 1;
                }
            }
        }
    }
    let info = state.info();
    assert!(matches!(info.status, GameStatus::Victory));
    assert_eq!(info.cleared, 82);
    assert_eq!(submissions, 1);
    // the win is terminal
    let before = snapshot(&state);
    state.dig(0, 0);
    state.flag(0, 0);
    assert_eq!(snapshot(&state), before);
    assert!(matches!(state.info().status, GameStatus::Victory));
}

#[test]
fn digging_a_mine_loses_and_is_terminal() {
    let mut state = GameState::new(params(Difficulty::Normal, Size::Small));
    state.dig(0, 0);
    let (rows, columns) = state.dimensions();
    let mut mine = None;
    for r in 0..rows {
        for c in 0..columns {
            if let Some((CellInteraction::Untouched, CellKind::Mine)) = state.get_cell_state(r, c)
            {
                mine = Some((r, c));
            }
        }
    }
    let (r, c) = mine.expect("some mine is untouched");
    let out = state.dig(r, c);
    assert!(matches!(state.info().status, GameStatus::GameOver));
    assert!(out.submit.is_none());
    // the loss reveal lists untouched mines, shown as cleared mines
    assert!(!out.loss_reveal.is_empty() || count_cleared_cells(&state) == 0);
    for u in &out.loss_reveal {
        let (interaction, kind) = state.get_cell_state(u.row, u.column).unwrap();
        assert!(matches!(interaction, CellInteraction::Untouched));
        assert!(matches!(kind, CellKind::Mine));
        assert!(matches!(u.interaction, CellInteraction::Cleared));
        assert!(matches!(u.kind, CellKind::Mine));
    }
    // the loss is terminal
    let before = snapshot(&state);
    state.dig(1, 1);
    state.flag(1, 1);
    assert_eq!(snapshot(&state), before);
}

#[test]
fn reset_restores_a_fresh_idle_board() {
    let mut state = GameState::new(params(Difficulty::Easy, Size::Small));
    state.dig(3, 3);
    state.flag(0, 0);
    let updates = state.reset();
    let info = state.info();
    assert!(matches!(info.status, GameStatus::Idle));
    assert_eq!(info.cleared, 0);
    assert_eq!(info.clear_total, 82);
    assert_eq!(info.elapsed_seconds, 0);
    assert_eq!(updates.len(), 96);
    let (rows, columns) = state.dimensions();
    for r in 0..rows {
        for c in 0..columns {
            let (interaction, kind) = state.get_cell_state(r, c).unwrap();
            assert!(matches!(interaction, CellInteraction::Untouched));
            assert!(matches!(kind, CellKind::Clear(0)));
        }
    }
    // a new game can be played after the reset
    let out = state.dig(3, 3);
    assert!(out.timer_started);
    assert!(matches!(
        state.info().status,
        GameStatus::Started | GameStatus::Victory
    ));
}

#[test]
fn zero_cascade_reveals_its_whole_neighborhood() {
    let mut state = GameState::new(params(Difficulty::Easy, Size::Medium));
    state.dig(5, 7);
    let (rows, columns) = state.dimensions();
    let mut zero = None;
    for r in 0..rows {
        for c in 0..columns {
            if let Some((CellInteraction::Cleared, CellKind::Clear(0))) =
                state.get_cell_state(r, c)
            {
                zero = Some((r, c));
                for dr in -1..=1 {
                    for dc in -1..=1 {
                        if let Some((interaction, _)) = state.get_cell_state(r + dr, c + dc) {
                            assert!(!matches!(interaction, CellInteraction::Untouched));
                        }
                    }
                }
            }
        }
    }
    // re-digging a revealed zero cell has nothing left to open
    if let Some((r, c)) = zero {
        let before = snapshot(&state);
        state.dig(r, c);
        assert_eq!(snapshot(&state), before);
    }
}

#[test]
fn timer_only_ticks_while_the_game_runs() {
    let mut state = GameState::new(params(Difficulty::Easy, Size::Small));
    assert!(!state.timer_tick(1));
    assert_eq!(state.info().elapsed_seconds, 0);
    state.dig(4, 4);
    assert!(state.timer_tick(7));
    assert_eq!(state.info().elapsed_seconds, 7);
    state.reset();
    assert!(!state.timer_tick(9));
    assert_eq!(state.info().elapsed_seconds, 0);
}
