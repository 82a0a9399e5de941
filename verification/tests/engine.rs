use minesweeper_core::CellState;
use minesweeper_core::Difficulty;
use minesweeper_core::GameState;
use minesweeper_core::GameStatus;

#[test]
fn dimensions_presets() {
    assert_eq!(Difficulty::Beginner.dimensions(), (9, 9, 10));
    assert_eq!(Difficulty::Intermediate.dimensions(), (16, 16, 40));
    assert_eq!(Difficulty::Expert.dimensions(), (16, 30, 99));
    assert_eq!(Difficulty::Custom(5, 7, 3).dimensions(), (5, 7, 3));
}

#[test]
fn new_game_is_blank() {
    let s = GameState::new(Difficulty::Beginner);
    assert_eq!(s.status, GameStatus::NotStarted);
    assert_eq!(s.board.len(), 9);
    assert!(s.board.iter().all(|row| row.len() == 9 && row.iter().all(|&v| v == 0)));
    assert!(s
        .cell_states
        .iter()
        .all(|row| row.len() == 9 && row.iter().all(|&c| c == CellState::Hidden)));
    assert!(s.mines_positions.is_empty());
    assert_eq!(s.flags_count, 0);
    assert_eq!(s.elapsed_seconds, 0);
}

#[test]
fn beginner_first_reveal_is_fair() {
    fastrand::seed(7);
    let mut s = GameState::new(Difficulty::Beginner);
    let changed = s.reveal_cell(4, 4);
    assert!(changed);
    assert_eq!(s.mines_positions.len(), 10);
    for &(r, c) in &s.mines_positions {
        assert!(!(3 <= r && r <= 5 && 3 <= c && c <= 5), "mine in the safe zone at {r},{c}");
        assert_eq!(s.board[r][c], 9);
    }
    assert_eq!(s.status, GameStatus::Playing);
    assert_eq!(s.cell_states[4][4], CellState::Revealed);
}

#[test]
fn mines_stay_unallocated_before_first_reveal() {
    let mut s = GameState::new(Difficulty::Intermediate);
    assert!(s.toggle_flag(0, 0));
    assert!(s.toggle_flag(5, 5));
    assert!(s.toggle_flag(5, 5));
    assert_eq!(s.status, GameStatus::NotStarted);
    assert!(s.mines_positions.is_empty());
    assert!(s.board.iter().all(|row| row.iter().all(|&v| v == 0)));
}

#[test]
fn custom_two_by_two_without_mines_wins_at_once() {
    let mut s = GameState::new(Difficulty::Custom(2, 2, 0));
    let changed = s.reveal_cell(0, 0);
    assert!(changed);
    for r in 0..2 {
        for c in 0..2 {
            assert_eq!(s.cell_states[r][c], CellState::Revealed);
            assert_eq!(s.board[r][c], 0);
        }
    }
    assert_eq!(s.status, GameStatus::Won);
}

#[test]
fn counts_match_brute_force_recount() {
    fastrand::seed(11);
    let mut s = GameState::new(Difficulty::Expert);
    s.reveal_cell(8, 15);
    for r in 0..16usize {
        for c in 0..30usize {
            if s.board[r][c] == 9 {
                continue;
            }
            let mut count = 0;
            for nr in r.saturating_sub(1)..=(r + 1).min(15) {
                for nc in c.saturating_sub(1)..=(c + 1).min(29) {
                    if s.board[nr][nc] == 9 {
                        count += 1;
                    }
                }
            }
            assert_eq!(s.board[r][c], count, "wrong count at {r},{c}");
        }
    }
}

#[test]
fn toggle_flag_twice_restores_everything() {
    let mut s = GameState::new(Difficulty::Beginner);
    let fresh = s.clone();
    assert!(s.toggle_flag(1, 2));
    assert_eq!(s.cell_states[1][2], CellState::Flagged);
    assert_eq!(s.flags_count, 1);
    assert!(s.toggle_flag(1, 2));
    assert_eq!(s.cell_states[1][2], CellState::Hidden);
    assert_eq!(s.flags_count, 0);
    assert_eq!(s.cell_states, fresh.cell_states);
}

#[test]
fn toggle_flag_ignores_revealed_cells_and_finished_games() {
    let mut s = GameState::new(Difficulty::Custom(2, 2, 0));
    s.reveal_cell(0, 0);
    assert_eq!(s.status, GameStatus::Won);
    assert!(!s.toggle_flag(1, 1));
    assert_eq!(s.flags_count, 0);
}

#[test]
fn revealing_a_flagged_cell_initializes_but_reveals_nothing() {
    fastrand::seed(3);
    let mut s = GameState::new(Difficulty::Custom(4, 4, 2));
    assert!(s.toggle_flag(0, 0));
    let changed = s.reveal_cell(0, 0);
    assert!(!changed);
    assert_eq!(s.status, GameStatus::Playing);
    assert_eq!(s.mines_positions.len(), 2);
    assert_eq!(s.cell_states[0][0], CellState::Flagged);
    assert_eq!(s.flags_count, 1);
}

#[test]
fn revealing_a_mine_loses_and_reveals_nothing_else() {
    let mut found = false;
    for seed in 0..20u64 {
        fastrand::seed(seed);
        let mut s = GameState::new(Difficulty::Custom(6, 6, 8));
        s.reveal_cell(0, 0);
        if s.status != GameStatus::Playing {
            continue;
        }
        found = true;
        let (mr, mc) = s.mines_positions[0];
        let before = s.cell_states.clone();
        let changed = s.reveal_cell(mr, mc);
        assert!(changed);
        assert_eq!(s.status, GameStatus::Lost);
        assert_eq!(s.cell_states[mr][mc], CellState::Revealed);
        for r in 0..6 {
            for c in 0..6 {
                if (r, c) != (mr, mc) {
                    assert_eq!(s.cell_states[r][c], before[r][c]);
                }
            }
        }
        assert!(!s.reveal_cell(0, 5), "a lost game accepted a reveal");
        break;
    }
    assert!(found, "no game stayed in play after the first reveal");
}

#[test]
fn cascade_skips_flagged_cells_and_win_needs_them_cleared() {
    let mut s = GameState::new(Difficulty::Custom(5, 5, 0));
    assert!(s.toggle_flag(2, 2));
    let changed = s.reveal_cell(0, 0);
    assert!(changed);
    for r in 0..5 {
        for c in 0..5 {
            if (r, c) == (2, 2) {
                assert_eq!(s.cell_states[r][c], CellState::Flagged);
            } else {
                assert_eq!(s.cell_states[r][c], CellState::Revealed);
            }
        }
    }
    assert_eq!(s.status, GameStatus::Playing);
    assert!(s.toggle_flag(2, 2));
    assert!(s.reveal_cell(2, 2));
    assert_eq!(s.status, GameStatus::Won);
}

#[test]
fn win_by_revealing_every_safe_cell_with_a_flag_on_a_mine() {
    let mut found = false;
    for seed in 0..20u64 {
        fastrand::seed(seed);
        let mut s = GameState::new(Difficulty::Custom(4, 4, 1));
        s.reveal_cell(0, 0);
        if s.status != GameStatus::Playing {
            continue;
        }
        found = true;
        let (mr, mc) = s.mines_positions[0];
        assert!(s.toggle_flag(mr, mc));
        for r in 0..4 {
            for c in 0..4 {
                if (r, c) != (mr, mc) && s.status == GameStatus::Playing {
                    s.reveal_cell(r, c);
                }
            }
        }
        assert_eq!(s.status, GameStatus::Won);
        assert_eq!(s.flags_count, 1);
        break;
    }
    assert!(found, "no game stayed in play after the first reveal");
}

#[test]
fn remaining_mines_can_go_negative() {
    let mut s = GameState::new(Difficulty::Custom(2, 3, 1));
    assert_eq!(s.remaining_mines(), 1);
    assert!(s.toggle_flag(0, 0));
    assert!(s.toggle_flag(0, 1));
    assert_eq!(s.remaining_mines(), -1);
}

#[test]
fn reset_restores_the_initial_state() {
    fastrand::seed(5);
    let mut s = GameState::new(Difficulty::Beginner);
    s.reveal_cell(4, 4);
    s.toggle_flag(0, 0);
    s.elapsed_seconds = 37;
    s.reset(None);
    let fresh = GameState::new(Difficulty::Beginner);
    assert_eq!(s.difficulty, fresh.difficulty);
    assert_eq!(s.status, GameStatus::NotStarted);
    assert_eq!(s.board, fresh.board);
    assert_eq!(s.cell_states, fresh.cell_states);
    assert_eq!(s.mines_positions, fresh.mines_positions);
    assert_eq!(s.flags_count, 0);
    assert_eq!(s.elapsed_seconds, 0);
}

#[test]
fn reset_with_a_difficulty_switches_to_it() {
    let mut s = GameState::new(Difficulty::Beginner);
    s.reset(Some(Difficulty::Expert));
    let fresh = GameState::new(Difficulty::Expert);
    assert_eq!(s.difficulty, Difficulty::Expert);
    assert_eq!(s.board, fresh.board);
    assert_eq!(s.cell_states, fresh.cell_states);
    assert_eq!(s.status, GameStatus::NotStarted);
}

#[test]
fn can_start_at_checks_the_free_room_for_mines() {
    let s = GameState::new(Difficulty::Custom(3, 3, 4));
    assert!(s.can_start_at(0, 0));
    assert!(!s.can_start_at(1, 1));
    let b = GameState::new(Difficulty::Beginner);
    assert!(b.can_start_at(4, 4));
}
