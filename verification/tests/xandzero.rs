use hello_actix::{
    check_winner, get_computer_move, play_turn, score_for_winner, sudden_death_trim,
    without_value, PlayOutcome, XandZeroRequest,
};

fn board(cells: [&str; 9]) -> Vec<String> {
    cells.iter().map(|s| s.to_string()).collect()
}

#[test]
fn winner_on_a_row() {
    let b = board(["X", "X", "X", "", "O", "", "O", "", ""]);
    assert_eq!(check_winner(&b), Some("X".to_string()));
}

#[test]
fn winner_on_a_column() {
    let b = board(["O", "X", "", "O", "X", "", "O", "", "X"]);
    assert_eq!(check_winner(&b), Some("O".to_string()));
}

#[test]
fn winner_on_a_diagonal() {
    let b = board(["X", "O", "", "O", "X", "", "", "", "X"]);
    assert_eq!(check_winner(&b), Some("X".to_string()));
}

#[test]
fn full_board_without_lines_is_a_draw() {
    let b = board(["X", "O", "X", "X", "O", "O", "O", "X", "X"]);
    assert_eq!(check_winner(&b), Some("Draw".to_string()));
}

#[test]
fn open_board_has_no_winner() {
    let b = board(["X", "O", "", "", "", "", "", "", ""]);
    assert_eq!(check_winner(&b), None);
}

#[test]
fn computer_takes_its_winning_move() {
    let b = board(["O", "O", "", "X", "X", "O", "X", "", ""]);
    assert_eq!(get_computer_move(&b), Some(2));
}

#[test]
fn computer_blocks_the_player() {
    let b = board(["X", "X", "", "", "O", "", "", "", ""]);
    assert_eq!(get_computer_move(&b), Some(2));
}

#[test]
fn computer_takes_the_center() {
    let b = board(["X", "", "", "", "", "", "", "", ""]);
    assert_eq!(get_computer_move(&b), Some(4));
}

#[test]
fn computer_picks_some_free_cell_otherwise() {
    let b = board(["X", "O", "X", "O", "X", "O", "", "", ""]);
    // No immediate win or block from this position and the center is taken:
    // any free cell is a legal answer.
    let mv = get_computer_move(&b).expect("free cells exist");
    assert!(b[mv].is_empty());
}

#[test]
fn computer_passes_on_a_full_board() {
    let b = board(["X", "O", "X", "O", "X", "O", "O", "X", "O"]);
    assert_eq!(get_computer_move(&b), None);
}

#[test]
fn score_mapping_matches_the_rules() {
    assert_eq!(score_for_winner(&Some("X".to_string())), 100);
    assert_eq!(score_for_winner(&Some("O".to_string())), 10);
    assert_eq!(score_for_winner(&Some("Draw".to_string())), 20);
    assert_eq!(score_for_winner(&Some("Z".to_string())), 0);
    assert_eq!(score_for_winner(&None), 0);
}

#[test]
fn without_value_removes_every_occurrence_in_order() {
    let h = vec![3usize, 1, 4, 1, 5];
    assert_eq!(without_value(&h, 1), vec![3, 4, 5]);
    assert_eq!(without_value(&h, 9), vec![3, 1, 4, 1, 5]);
}

#[test]
fn sudden_death_removes_the_oldest_fourth_mark() {
    let mut b = board(["X", "X", "X", "", "X", "", "O", "", ""]);
    let mut h = vec![0usize, 6, 1, 2, 4];
    sudden_death_trim(&mut b, &mut h, &"X".to_string());
    // Four X marks on the board: the oldest X move (cell 0) is erased.
    assert_eq!(b[0], "");
    assert_eq!(h, vec![6, 1, 2, 4]);
}

#[test]
fn sudden_death_with_three_marks_changes_nothing() {
    let mut b = board(["X", "X", "X", "", "", "", "O", "", ""]);
    let mut h = vec![0usize, 6, 1, 2];
    sudden_death_trim(&mut b, &mut h, &"X".to_string());
    assert_eq!(b[0], "X");
    assert_eq!(h, vec![0, 6, 1, 2]);
}

fn request(b: Vec<String>) -> XandZeroRequest {
    XandZeroRequest {
        board: b,
        move_history: None,
        game_mode: "normal".to_string(),
        used_power_up: false,
        erase_index: None,
    }
}

#[test]
fn power_up_with_too_few_points_is_refused() {
    let mut req = request(board(["X", "", "", "", "", "", "", "", ""]));
    req.used_power_up = true;
    req.erase_index = Some(0);
    let r = play_turn(req, 49);
    assert!(matches!(r, PlayOutcome::InsufficientPoints));
}

#[test]
fn power_up_erases_the_mark_and_deducts_fifty() {
    let mut req = request(board(["X", "O", "", "", "", "", "", "", ""]));
    req.used_power_up = true;
    req.erase_index = Some(1);
    req.move_history = Some(vec![0usize, 1]);
    match play_turn(req, 60) {
        PlayOutcome::PowerUp { response, new_total } => {
            assert_eq!(response.board[1], "");
            assert_eq!(response.move_history, vec![0]);
            assert_eq!(new_total, Some(10));
            assert_eq!(response.winner, None);
            assert_eq!(response.score_increment, 0);
            assert!(!response.power_up_used_by_ai);
            assert_eq!(response.ai_erase_index, None);
        }
        _ => panic!("expected a power-up outcome"),
    }
}

#[test]
fn power_up_on_an_empty_cell_deducts_nothing() {
    let mut req = request(board(["X", "", "", "", "", "", "", "", ""]));
    req.used_power_up = true;
    req.erase_index = Some(5);
    match play_turn(req, 60) {
        PlayOutcome::PowerUp { response, new_total } => {
            assert_eq!(new_total, None);
            assert_eq!(response.board[0], "X");
        }
        _ => panic!("expected a power-up outcome"),
    }
}

#[test]
fn finished_game_is_reported_without_a_computer_move() {
    let req = request(board(["X", "X", "X", "O", "O", "", "", "", ""]));
    match play_turn(req, 0) {
        PlayOutcome::Turn { response } => {
            assert_eq!(response.winner, Some("X".to_string()));
            assert_eq!(response.score_increment, 100);
            assert_eq!(response.board[5], "");
            assert!(!response.power_up_used_by_ai);
        }
        _ => panic!("expected an ordinary turn"),
    }
}

#[test]
fn ordinary_turn_lets_the_computer_move() {
    let req = request(board(["X", "", "", "", "", "", "", "", ""]));
    match play_turn(req, 0) {
        PlayOutcome::Turn { response } => {
            // The computer answers the opening by taking the center.
            assert_eq!(response.board[4], "O");
            assert_eq!(response.move_history, vec![4]);
            assert_eq!(response.winner, None);
            assert_eq!(response.score_increment, 0);
        }
        _ => panic!("expected an ordinary turn"),
    }
}

#[test]
fn sudden_death_trims_the_player_before_the_winner_check() {
    // Four player marks: the oldest one (cell 5) leaves the board and the
    // history before anything else happens; the remaining row decides the
    // game, so the computer never moves.
    let mut req = request(board(["X", "X", "X", "", "", "X", "", "", ""]));
    req.game_mode = "sudden_death".to_string();
    req.move_history = Some(vec![5usize, 0, 1, 2]);
    match play_turn(req, 0) {
        PlayOutcome::Turn { response } => {
            assert_eq!(response.board[5], "");
            assert_eq!(response.move_history, vec![0, 1, 2]);
            assert_eq!(response.winner, Some("X".to_string()));
            assert_eq!(response.score_increment, 100);
            assert!(!response.power_up_used_by_ai);
            assert_eq!(response.ai_erase_index, None);
        }
        _ => panic!("expected an ordinary turn"),
    }
}

#[test]
fn sudden_death_trims_the_computer_after_its_move() {
    // The computer completes its row at cell 2, which is its fourth mark:
    // the oldest (cell 0) is trimmed away again, and the would-be win
    // evaporates. One player mark only, so the erase roll cannot fire.
    let mut req = request(board(["O", "O", "", "O", "", "", "", "", "X"]));
    req.game_mode = "sudden_death".to_string();
    req.move_history = Some(vec![0usize, 1, 3, 8]);
    match play_turn(req, 0) {
        PlayOutcome::Turn { response } => {
            assert_eq!(response.board[2], "O");
            assert_eq!(response.board[0], "");
            assert_eq!(response.move_history, vec![1, 3, 8, 2]);
            assert_eq!(response.winner, None);
            assert_eq!(response.score_increment, 0);
        }
        _ => panic!("expected an ordinary turn"),
    }
}

#[test]
fn computer_win_scores_ten() {
    let req = request(board(["O", "O", "", "X", "X", "O", "X", "", "X"]));
    match play_turn(req, 0) {
        PlayOutcome::Turn { response } => {
            assert_eq!(response.board[2], "O");
            assert_eq!(response.winner, Some("O".to_string()));
            assert_eq!(response.score_increment, 10);
        }
        _ => panic!("expected an ordinary turn"),
    }
}
