use minesofrust::enums::{GameDifficulty, GameState};
use minesofrust::minesweeper::{
    first_losing_square, first_losing_square_of_vec, Coordinate, Error, GameBoard, PlayResult,
    RevealType, Square,
};

fn count_mines(gb: &GameBoard) -> u32 {
    gb.squares.iter().filter(|s| s.is_mine()).count() as u32
}

fn brute_numeral(gb: &GameBoard, x: u32, y: u32) -> u32 {
    let mut n = 0;
    for dx in -1i64..=1 {
        for dy in -1i64..=1 {
            if dx == 0 && dy == 0 {
                continue;
            }
            let nx = x as i64 + dx;
            let ny = y as i64 + dy;
            if nx >= 0 && ny >= 0 && nx < gb.width as i64 && ny < gb.height as i64 {
                if gb.squares[(ny * gb.width as i64 + nx) as usize].is_mine() {
                    n += 1;
                }
            }
        }
    }
    n
}

/// 10x10 board with mines at (1,0) and (0,1), numerals computed.
fn corner_board() -> GameBoard {
    let mut gb = GameBoard::new(10, 10);
    gb.squares[1] = Square::default_mine();
    gb.squares[10] = Square::default_mine();
    gb.populate_numerals().unwrap();
    gb
}

#[test]
fn populate_places_exactly_n_and_keeps_clear() {
    for _ in 0..20 {
        let mut gb = GameBoard::new(3, 3);
        gb.populate_mines_around(8, Some(Coordinate { x: 1, y: 1 })).unwrap();
        assert_eq!(count_mines(&gb), 8);
        assert!(!gb.get_square(1, 1).unwrap().is_mine());
        assert!(gb.is_populated);
        assert_eq!(gb.num_mines, 8);
        assert_eq!(gb.get_square(1, 1).unwrap().numeral, 8);
    }
}

#[test]
fn populate_fills_whole_board() {
    let mut gb = GameBoard::new(4, 3);
    gb.populate_mines(12).unwrap();
    assert_eq!(count_mines(&gb), 12);
}

#[test]
fn populate_random_counts() {
    for _ in 0..10 {
        let mut gb = GameBoard::new(10, 10);
        gb.populate_mines_around(50, Some(Coordinate { x: 9, y: 9 })).unwrap();
        assert_eq!(count_mines(&gb), 50);
        assert!(!gb.get_square(9, 9).unwrap().is_mine());
    }
}

#[test]
fn populate_full_board_around_kept_square_is_refused() {
    let mut gb = GameBoard::new(3, 3);
    match gb.populate_mines_around(9, Some(Coordinate { x: 0, y: 0 })) {
        Err(Error::ExcessiveMines) => {}
        _ => panic!("expected ExcessiveMines"),
    }
    assert_eq!(count_mines(&gb), 0);
    assert!(!gb.is_populated);
}

#[test]
fn excessive_mines_leaves_board_unpopulated() {
    let mut gb = GameBoard::new(2, 2);
    match gb.populate_mines_around(5, None) {
        Err(Error::ExcessiveMines) => {}
        _ => panic!("expected ExcessiveMines"),
    }
    assert!(!gb.is_populated);
    assert_eq!(gb.num_mines, 0);
    assert_eq!(count_mines(&gb), 0);
}

#[test]
fn numerals_match_neighbour_counts() {
    let gb = GameBoard::new_populated(12, 7, 30).unwrap();
    for x in 0..12 {
        for y in 0..7 {
            assert_eq!(gb.get_square(x, y).unwrap().numeral, brute_numeral(&gb, x, y));
        }
    }
}

#[test]
fn numerals_corner_fixture() {
    let gb = corner_board();
    assert_eq!(gb.get_square(0, 0).unwrap().numeral, 2);
    assert_eq!(gb.get_square(1, 1).unwrap().numeral, 2);
    assert_eq!(gb.get_square(2, 0).unwrap().numeral, 1);
    assert_eq!(gb.get_square(0, 2).unwrap().numeral, 1);
    assert_eq!(gb.get_square(2, 2).unwrap().numeral, 0);
}

#[test]
fn numerals_single_mine_fixture() {
    let mut gb = GameBoard::new(10, 10);
    gb.squares[1] = Square::default_mine();
    gb.populate_numerals().unwrap();
    assert_eq!(gb.get_square(0, 0).unwrap().numeral, 1);
    assert_eq!(gb.get_square(1, 1).unwrap().numeral, 1);
    assert_eq!(gb.get_square(0, 1).unwrap().numeral, 1);
    assert_eq!(gb.get_square(3, 0).unwrap().numeral, 0);
}

#[test]
fn reveal_twice_numeral_square() {
    let mut gb = corner_board();
    match gb.reveal_square(1, 1).unwrap() {
        PlayResult::Revealed(c) => assert_eq!(c, Coordinate { x: 1, y: 1 }),
        _ => panic!("expected Revealed"),
    }
    assert!(gb.get_square(1, 1).unwrap().is_revealed);
    assert!(matches!(gb.reveal_square(1, 1).unwrap(), PlayResult::NoChange));
}

#[test]
fn reveal_twice_blank_square() {
    let mut gb = corner_board();
    assert!(matches!(gb.reveal_square(5, 5).unwrap(), PlayResult::CascadedReveal(_)));
    assert!(matches!(gb.reveal_square(5, 5).unwrap(), PlayResult::NoChange));
}

#[test]
fn cascade_opens_flood_region() {
    let mut gb = corner_board();
    let r = gb.reveal_square(9, 9).unwrap();
    match r {
        PlayResult::CascadedReveal(v) => {
            assert_eq!(v.len(), 9);
            assert!(matches!(v[4], PlayResult::NoChange));
            assert!(matches!(v[8], PlayResult::NoChange));
        }
        _ => panic!("expected a cascade"),
    }
    for x in 0..10u32 {
        for y in 0..10u32 {
            let s = gb.get_square(x, y).unwrap();
            let hidden = (x, y) == (0, 0) || (x, y) == (1, 0) || (x, y) == (0, 1);
            assert_eq!(s.is_revealed, !hidden, "square {} {}", x, y);
        }
    }
    assert!(!gb.is_win_configuration());
    assert!(!gb.is_loss_configuration());
}

#[test]
fn flags_stop_the_cascade() {
    let mut gb = GameBoard::new(5, 1);
    gb.populate_numerals().unwrap();
    gb.flag(2, 0).unwrap();
    gb.reveal_square(0, 0).unwrap();
    assert!(gb.get_square(0, 0).unwrap().is_revealed);
    assert!(gb.get_square(1, 0).unwrap().is_revealed);
    assert!(!gb.get_square(2, 0).unwrap().is_revealed);
    assert!(!gb.get_square(3, 0).unwrap().is_revealed);
    assert!(!gb.get_square(4, 0).unwrap().is_revealed);
}

#[test]
fn flag_round_trip() {
    let mut gb = GameBoard::new(3, 3);
    assert!(matches!(gb.flag(2, 1).unwrap(), PlayResult::Flagged(true)));
    assert_eq!(gb.num_flags(), 1);
    assert!(matches!(gb.flag(2, 1).unwrap(), PlayResult::Flagged(false)));
    assert_eq!(gb.num_flags(), 0);
    assert!(!gb.get_square(2, 1).unwrap().is_revealed);
    assert!(!gb.get_square(2, 1).unwrap().is_flagged);
}

#[test]
fn flag_on_revealed_square_changes_nothing() {
    let mut gb = corner_board();
    gb.reveal_square(1, 1).unwrap();
    assert!(matches!(gb.flag(1, 1).unwrap(), PlayResult::NoChange));
    assert!(!gb.get_square(1, 1).unwrap().is_flagged);
}

#[test]
fn chord_needs_matching_flags() {
    let mut gb = corner_board();
    gb.reveal_square(1, 1).unwrap();
    gb.flag(1, 0).unwrap();
    assert_eq!(gb.can_chord_square(1, 1).unwrap(), false);
    assert!(matches!(gb.chord(1, 1).unwrap(), PlayResult::NoChange));
    gb.flag(0, 1).unwrap();
    assert_eq!(gb.can_chord_square(1, 1).unwrap(), true);
    gb.flag(2, 2).unwrap();
    assert_eq!(gb.can_chord_square(1, 1).unwrap(), false);
}

#[test]
fn chord_results_in_enumeration_order() {
    let mut gb = corner_board();
    gb.flag(1, 0).unwrap();
    gb.flag(0, 1).unwrap();
    gb.reveal_square(1, 1).unwrap();
    let r = gb.chord(1, 1).unwrap();
    let v = match r {
        PlayResult::CascadedReveal(v) => v,
        _ => panic!("expected a chord"),
    };
    assert_eq!(v.len(), 9);
    // (0,0) numeral 2
    assert!(matches!(v[0], PlayResult::Revealed(Coordinate { x: 0, y: 0 })));
    // (0,1) flagged
    assert!(matches!(v[1], PlayResult::NoChange));
    // (0,2) numeral 1
    assert!(matches!(v[2], PlayResult::Revealed(Coordinate { x: 0, y: 2 })));
    // (1,0) flagged
    assert!(matches!(v[3], PlayResult::NoChange));
    // (1,1) already revealed
    assert!(matches!(v[4], PlayResult::NoChange));
    // (1,2) numeral 1
    assert!(matches!(v[5], PlayResult::Revealed(Coordinate { x: 1, y: 2 })));
    // (2,0) numeral 1
    assert!(matches!(v[6], PlayResult::Revealed(Coordinate { x: 2, y: 0 })));
    // (2,1) numeral 1
    assert!(matches!(v[7], PlayResult::Revealed(Coordinate { x: 2, y: 1 })));
    // (2,2) blank: a nested cascade
    match &v[8] {
        PlayResult::CascadedReveal(inner) => assert_eq!(inner.len(), 9),
        _ => panic!("expected a nested cascade"),
    }
    assert!(gb.is_win_configuration());
    assert!(!gb.is_loss_configuration());
}

#[test]
fn win_on_small_board_by_cascade() {
    let mut gb = GameBoard::new(3, 3);
    gb.squares[0] = Square::default_mine();
    gb.populate_numerals().unwrap();
    assert!(!gb.is_win_configuration());
    assert!(matches!(gb.play(2, 2, RevealType::Reveal).unwrap(), PlayResult::CascadedReveal(_)));
    assert!(gb.is_win_configuration());
    assert!(!gb.is_loss_configuration());
}

#[test]
fn win_on_small_board_by_chord() {
    let mut gb = GameBoard::new(3, 3);
    gb.squares[0] = Square::default_mine();
    gb.populate_numerals().unwrap();
    gb.play(1, 1, RevealType::Reveal).unwrap();
    gb.play(0, 0, RevealType::Flag).unwrap();
    gb.play(1, 1, RevealType::Chord).unwrap();
    assert!(gb.is_win_configuration());
    assert!(!gb.is_loss_configuration());
}

#[test]
fn revealing_a_mine_loses() {
    let mut gb = corner_board();
    assert!(!gb.is_loss_configuration());
    match gb.reveal_square(1, 0).unwrap() {
        PlayResult::Explosion(c) => assert!(c.matches(1, 0)),
        _ => panic!("expected an explosion"),
    }
    assert!(gb.get_square(1, 0).unwrap().is_revealed);
    assert!(gb.is_loss_configuration());
}

#[test]
fn wrong_flags_make_chord_explode() {
    let mut gb = corner_board();
    gb.reveal_square(1, 1).unwrap();
    gb.flag(0, 0).unwrap();
    gb.flag(2, 2).unwrap();
    let r = gb.chord(1, 1).unwrap();
    assert_eq!(first_losing_square(&r), Some(Coordinate { x: 0, y: 1 }));
    assert!(gb.is_loss_configuration());
}

#[test]
fn errors_for_off_board_coordinates() {
    let mut gb = GameBoard::new(3, 2);
    assert!(matches!(gb.reveal_square(3, 0), Err(Error::InvalidCoordinates)));
    assert!(matches!(gb.flag(0, 2), Err(Error::InvalidCoordinates)));
    assert!(matches!(gb.chord(5, 5), Err(Error::InvalidCoordinates)));
    assert!(matches!(gb.cascade_from(3, 1), Err(Error::InvalidCoordinates)));
    assert!(matches!(gb.can_chord_square(0, 9), Err(Error::InvalidCoordinates)));
    assert!(matches!(gb.mined_neighbor_count(7, 0), Err(Error::InvalidCoordinates)));
    assert!(matches!(gb.flagged_neighbor_count(0, 7), Err(Error::InvalidCoordinates)));
    assert!(matches!(gb.play(3, 3, RevealType::Reveal), Err(Error::InvalidCoordinates)));
    assert!(matches!(gb.idx_to_xy(6), Err(Error::IndexOutOfBounds)));
}

#[test]
fn cascade_refuses_non_blank_squares() {
    let mut gb = corner_board();
    assert!(matches!(gb.cascade_from(1, 1), Err(Error::InvalidCascade)));
    assert!(matches!(gb.cascade_from(1, 0), Err(Error::InvalidCascade)));
    gb.flag(5, 5).unwrap();
    assert!(matches!(gb.cascade_from(5, 5), Err(Error::InvalidCascade)));
    assert!(!gb.get_square(1, 1).unwrap().is_revealed);
}

#[test]
fn cascade_from_blank_square() {
    let mut gb = corner_board();
    match gb.cascade_from(9, 0).unwrap() {
        PlayResult::CascadedReveal(v) => {
            assert_eq!(v.len(), 9);
            assert!(matches!(v[0], PlayResult::NoChange));
            assert!(matches!(v[4], PlayResult::NoChange));
            assert!(matches!(v[6], PlayResult::NoChange));
        }
        _ => panic!("expected a cascade"),
    }
    assert!(gb.get_square(9, 0).unwrap().is_revealed);
    assert!(gb.get_square(2, 2).unwrap().is_revealed);
    assert!(!gb.get_square(0, 0).unwrap().is_revealed);
}

#[test]
fn flag_all_and_reset_existing() {
    let mut gb = corner_board();
    gb.reveal_square(5, 5).unwrap();
    gb.flag(0, 0).unwrap();
    gb.flag_all_mines();
    assert_eq!(gb.num_flags(), 2);
    assert!(gb.get_square(1, 0).unwrap().is_flagged);
    assert!(!gb.get_square(0, 0).unwrap().is_flagged);
    gb.reset_existing();
    assert_eq!(gb.num_flags(), 0);
    assert!(!gb.get_square(5, 5).unwrap().is_revealed);
    assert!(gb.get_square(1, 0).unwrap().is_mine());
    assert_eq!(gb.get_square(1, 1).unwrap().numeral, 2);
}

#[test]
fn reset_clears_every_square() {
    let mut gb = corner_board();
    gb.reveal_square(5, 5).unwrap();
    gb.reset();
    assert_eq!(gb.squares.len(), 100);
    assert_eq!(gb.width, 10);
    assert_eq!(gb.height, 10);
    assert_eq!(gb.num_mines, 0);
    assert!(!gb.is_populated);
    assert_eq!(count_mines(&gb), 0);
    assert!(gb.squares.iter().all(|s| *s == Square::default()));
}

#[test]
fn new_populated_around_keeps_square_clear() {
    for _ in 0..10 {
        let gb = GameBoard::new_populated_around(4, 4, 15, Coordinate { x: 2, y: 3 }).unwrap();
        assert_eq!(count_mines(&gb), 15);
        assert!(!gb.get_square(2, 3).unwrap().is_mine());
        assert_eq!(gb.get_square(2, 3).unwrap().numeral, brute_numeral(&gb, 2, 3));
    }
    assert!(matches!(
        GameBoard::new_populated_around(4, 4, 16, Coordinate { x: 2, y: 3 }),
        Err(Error::ExcessiveMines)
    ));
    assert!(matches!(GameBoard::new_populated(4, 4, 17), Err(Error::ExcessiveMines)));
}

#[test]
fn first_explosion_of_results() {
    let v = vec![
        PlayResult::NoChange,
        PlayResult::Revealed(Coordinate { x: 1, y: 1 }),
        PlayResult::Explosion(Coordinate { x: 2, y: 3 }),
        PlayResult::Explosion(Coordinate { x: 4, y: 4 }),
    ];
    assert_eq!(first_losing_square_of_vec(&v), Some(Coordinate { x: 2, y: 3 }));
    assert_eq!(first_losing_square_of_vec(&v[..2]), None);
    assert_eq!(
        first_losing_square(&PlayResult::Explosion(Coordinate { x: 7, y: 8 })),
        Some(Coordinate { x: 7, y: 8 })
    );
    assert_eq!(first_losing_square(&PlayResult::Flagged(true)), None);
    assert_eq!(first_losing_square(&PlayResult::CascadedReveal(v)), Some(Coordinate { x: 2, y: 3 }));
}

#[test]
fn coordinate_from_pair() {
    let c = Coordinate::from((3, 4));
    assert_eq!(c, Coordinate { x: 3, y: 4 });
    assert!(c.matches(3, 4));
    assert!(!c.matches(4, 3));
}

#[test]
fn game_state_transitions() {
    assert!(GameState::EndedLoss.game_ended());
    assert!(GameState::EndedWin.game_ended());
    assert!(!GameState::Playing.game_ended());
    assert!(!GameState::NotStarted.game_ended());
    assert_eq!(GameState::Playing.settle(true, true), GameState::EndedLoss);
    assert_eq!(GameState::Playing.settle(false, true), GameState::EndedWin);
    assert_eq!(GameState::Playing.settle(false, false), GameState::Playing);
    assert_eq!(GameState::NotStarted.settle(true, false), GameState::NotStarted);
    assert_eq!(GameState::EndedWin.settle(true, false), GameState::EndedWin);
}

#[test]
fn difficulty_names() {
    assert_eq!(GameDifficulty::Beginner.as_str(), "Beginner");
    assert_eq!(GameDifficulty::Intermediate.as_str(), "Intermediate");
    assert_eq!(GameDifficulty::Expert.as_str(), "Expert");
}

#[test]
fn cascade_over_large_blank_board() {
    let mut gb = GameBoard::new(40, 40);
    gb.populate_numerals().unwrap();
    assert!(matches!(gb.reveal_square(20, 20).unwrap(), PlayResult::CascadedReveal(_)));
    assert!(gb.is_win_configuration());
    assert!(!gb.is_loss_configuration());
}

#[test]
fn reset_unpopulates_a_populated_board() {
    let mut gb = GameBoard::new_populated(5, 4, 6).unwrap();
    assert!(gb.is_populated);
    gb.reset();
    assert!(!gb.is_populated);
    assert_eq!(gb.num_mines, 0);
    assert_eq!(count_mines(&gb), 0);
    gb.populate_mines(6).unwrap();
    assert_eq!(count_mines(&gb), 6);
}

fn mined_indices(gb: &GameBoard) -> Vec<usize> {
    (0..gb.squares.len()).filter(|&i| gb.squares[i].is_mine()).collect()
}

#[test]
fn populate_from_draws_is_deterministic() {
    let mut gb = GameBoard::new(3, 3);
    // 0 is kept clear, 5 is taken, the second 5 is already mined, 99 is off
    // the board, 3 is taken; then enough mines are placed.
    let draws = [0usize, 5, 5, 99, 3, 7];
    gb.populate_mines_from_draws(2, Some(Coordinate { x: 0, y: 0 }), &draws).unwrap();
    assert_eq!(mined_indices(&gb), vec![3, 5]);
    assert!(gb.is_populated);
    assert_eq!(gb.num_mines, 2);
    assert_eq!(gb.get_square(0, 0).unwrap().numeral, 1);
    assert_eq!(gb.get_square(1, 1).unwrap().numeral, 2);
    assert_eq!(gb.get_square(2, 2).unwrap().numeral, 1);
}

#[test]
fn populate_from_draws_that_run_out() {
    let mut gb = GameBoard::new(3, 3);
    match gb.populate_mines_from_draws(3, None, &[4, 4, 8]) {
        Err(Error::UnexpectedResult) => {}
        _ => panic!("expected UnexpectedResult"),
    }
    assert_eq!(mined_indices(&gb), vec![4, 8]);
    assert!(!gb.is_populated);
    match gb.populate_mines_from_draws(10, None, &[0, 1]) {
        Err(Error::ExcessiveMines) => {}
        _ => panic!("expected ExcessiveMines"),
    }
}

#[test]
fn place_mine_from_single_draw() {
    let mut gb = GameBoard::new(2, 2);
    assert!(gb.place_mine_from_draw(3, None));
    assert!(!gb.place_mine_from_draw(3, None));
    assert!(!gb.place_mine_from_draw(4, None));
    assert!(!gb.place_mine_from_draw(1, Some(Coordinate { x: 1, y: 0 })));
    assert!(gb.place_mine_from_draw(1, Some(Coordinate { x: 0, y: 0 })));
    assert_eq!(mined_indices(&gb), vec![1, 3]);
}

fn has_explosion(r: &PlayResult) -> bool {
    match r {
        PlayResult::Explosion(_) => true,
        PlayResult::CascadedReveal(v) => v.iter().any(has_explosion),
        _ => false,
    }
}

#[test]
fn cascade_tree_has_no_explosion_on_computed_board() {
    for _ in 0..20 {
        let mut gb = GameBoard::new_populated_around(12, 12, 20, Coordinate { x: 6, y: 6 }).unwrap();
        let mut blank = None;
        for x in 0..12 {
            for y in 0..12 {
                let s = gb.get_square(x, y).unwrap();
                if !s.is_mine() && s.numeral == 0 && blank.is_none() {
                    blank = Some((x, y));
                }
            }
        }
        if let Some((x, y)) = blank {
            let r = gb.reveal_square(x, y).unwrap();
            assert!(!has_explosion(&r));
            assert!(!gb.is_loss_configuration());
        }
    }
}

#[test]
fn nested_cascade_lists_follow_the_board() {
    // One row of four blank squares: revealing (0,0) cascades into (1,0),
    // which cascades into (2,0), and so on.
    let mut gb = GameBoard::new(4, 1);
    gb.populate_numerals().unwrap();
    let r = gb.reveal_square(0, 0).unwrap();
    let v = match r {
        PlayResult::CascadedReveal(v) => v,
        _ => panic!("expected a cascade"),
    };
    // offsets (dx, dy): index 4 is the centre, 7 is (1, 0)
    for k in [0, 1, 2, 3, 4, 5, 6, 8] {
        assert!(matches!(v[k], PlayResult::NoChange), "entry {}", k);
    }
    let w = match &v[7] {
        PlayResult::CascadedReveal(w) => w,
        _ => panic!("expected a nested cascade"),
    };
    // around (1,0): (0,0) is revealed already, (1,0) is the centre,
    // (2,0) cascades further
    assert!(matches!(w[1], PlayResult::NoChange));
    assert!(matches!(w[4], PlayResult::NoChange));
    match &w[7] {
        PlayResult::CascadedReveal(u) => assert!(matches!(u[7], PlayResult::CascadedReveal(_))),
        _ => panic!("expected a nested cascade"),
    }
    assert!(gb.is_win_configuration());
}
