use fleetcore::commitment::commit;
use fleetcore::encoder;
use fleetcore::guest::{board_after_shot, fire, is_hit, join, report, wave, win};
use fleetcore::journal::{BaseInputs, FireInputs};

const BOB: [u8; 18] = [2, 9, 19, 29, 14, 24, 34, 44, 54, 57, 67, 70, 71, 72, 73, 90, 91, 96];

fn base(board: &[u8]) -> BaseInputs {
    BaseInputs {
        gameid: "g1".to_string(),
        fleet: "bob".to_string(),
        board: board.to_vec(),
        random: "r_b".to_string(),
    }
}

fn shot(board: &[u8], pos: u8) -> FireInputs {
    FireInputs {
        gameid: "g1".to_string(),
        fleet: "bob".to_string(),
        board: board.to_vec(),
        random: "r_b".to_string(),
        target: "alice".to_string(),
        pos,
    }
}

#[test]
fn join_commits_to_the_board() {
    let journal = join(base(&BOB), false);
    assert_eq!(journal.gameid, "g1");
    assert_eq!(journal.fleet, "bob");
    assert_eq!(journal.board, commit("r_b", &BOB));
}

#[test]
fn join_with_the_debug_flag_takes_a_three_cell_layout() {
    let journal = join(base(&[10, 11, 12]), true);
    assert_eq!(journal.board, commit("r_b", &[10, 11, 12]));
}

#[test]
fn fire_publishes_target_and_cell() {
    let journal = fire(shot(&BOB, 42));
    assert_eq!(journal.gameid, "g1");
    assert_eq!(journal.fleet, "bob");
    assert_eq!(journal.target, "alice");
    assert_eq!(journal.pos, 42);
    assert_eq!(journal.board, commit("r_b", &BOB));
}

#[test]
fn fire_with_one_cell_left() {
    let journal = fire(shot(&[96], 0));
    assert_eq!(journal.board, commit("r_b", &[96]));
    assert_eq!(journal.pos, 0);
}

#[test]
fn report_of_a_miss_keeps_the_commitment() {
    let journal = report(shot(&BOB, 0));
    assert_eq!(journal.report, "Miss");
    assert_eq!(journal.pos, 0);
    assert_eq!(journal.gameid, "g1");
    assert_eq!(journal.fleet, "bob");
    assert_eq!(journal.board, commit("r_b", &BOB));
    assert_eq!(journal.next_board, journal.board);
}

#[test]
fn report_of_a_hit_commits_to_the_board_without_the_cell() {
    let journal = report(shot(&BOB, 34));
    assert_eq!(journal.report, "Hit");
    assert_eq!(journal.pos, 34);
    assert_eq!(journal.board, commit("r_b", &BOB));
    let left: [u8; 17] = [2, 9, 19, 29, 14, 24, 44, 54, 57, 67, 70, 71, 72, 73, 90, 91, 96];
    assert_eq!(journal.next_board, commit("r_b", &left));
    assert_ne!(journal.next_board, journal.board);
}

#[test]
fn report_of_a_hit_on_the_last_cell_commits_to_the_empty_board() {
    let journal = report(shot(&[7], 7));
    assert_eq!(journal.report, "Hit");
    assert_eq!(journal.next_board, commit("r_b", &[]));
}

#[test]
fn report_on_an_empty_board_is_a_miss() {
    let journal = report(shot(&[], 7));
    assert_eq!(journal.report, "Miss");
    assert_eq!(journal.board, commit("r_b", &[]));
    assert_eq!(journal.next_board, commit("r_b", &[]));
}

#[test]
fn report_ignores_the_target() {
    let mut input = shot(&BOB, 34);
    input.target = String::new();
    let journal = report(input);
    assert_eq!(journal.report, "Hit");
    assert_eq!(journal.board, commit("r_b", &BOB));
}

#[test]
fn wave_recommits_to_the_board() {
    let journal = wave(base(&BOB));
    assert_eq!(journal.gameid, "g1");
    assert_eq!(journal.fleet, "bob");
    assert_eq!(journal.board, commit("r_b", &BOB));
}

#[test]
fn wave_of_a_sunk_fleet_commits_to_the_empty_board() {
    let journal = wave(base(&[]));
    assert_eq!(journal.board, commit("r_b", &[]));
}

#[test]
fn win_commits_to_the_board() {
    let journal = win(base(&[96]));
    assert_eq!(journal.gameid, "g1");
    assert_eq!(journal.fleet, "bob");
    assert_eq!(journal.board, commit("r_b", &[96]));
}

#[test]
fn every_move_commits_to_the_same_bytes() {
    let joined = join(base(&BOB), false);
    let fired = fire(shot(&BOB, 1));
    let reported = report(shot(&BOB, 1));
    let waved = wave(base(&BOB));
    let won = win(base(&BOB));
    assert_eq!(joined.board, fired.board);
    assert_eq!(joined.board, reported.board);
    assert_eq!(joined.board, waved.board);
    assert_eq!(joined.board, won.board);
}

#[test]
fn hit_is_membership() {
    assert!(is_hit(&BOB, 34));
    assert!(is_hit(&BOB, 2));
    assert!(is_hit(&BOB, 96));
    assert!(!is_hit(&BOB, 0));
    assert!(!is_hit(&[], 0));
}

#[test]
fn board_after_a_hit_keeps_the_order_of_the_other_cells() {
    assert_eq!(board_after_shot(&[5, 3, 9, 1], 9), vec![5, 3, 1]);
    assert_eq!(board_after_shot(&[5, 3, 9, 1], 5), vec![3, 9, 1]);
    assert_eq!(board_after_shot(&[5, 3, 9, 1], 1), vec![5, 3, 9]);
}

#[test]
fn board_after_a_miss_is_the_board() {
    assert_eq!(board_after_shot(&[5, 3, 9, 1], 2), vec![5, 3, 9, 1]);
    assert_eq!(board_after_shot(&[], 2), Vec::<u8>::new());
}

#[test]
fn board_after_a_hit_loses_every_copy_of_the_cell() {
    assert_eq!(board_after_shot(&[4, 7, 4, 4, 8], 4), vec![7, 8]);
}

#[test]
fn encoder_builds_the_inputs_of_a_join() {
    let input =
        encoder::join_game("g1".to_string(), "bob".to_string(), BOB.to_vec(), "r_b".to_string());
    assert_eq!(input.gameid, "g1");
    assert_eq!(input.fleet, "bob");
    assert_eq!(input.board, BOB.to_vec());
    assert_eq!(input.random, "r_b");
}

#[test]
fn encoder_turns_coordinates_into_the_cell_of_a_fire() {
    let input = encoder::fire(
        "g1".to_string(),
        "alice".to_string(),
        vec![1, 2],
        "r_a".to_string(),
        "bob".to_string(),
        4,
        3,
    );
    assert_eq!(input.gameid, "g1");
    assert_eq!(input.fleet, "alice");
    assert_eq!(input.board, vec![1, 2]);
    assert_eq!(input.random, "r_a");
    assert_eq!(input.target, "bob");
    assert_eq!(input.pos, 34);
}

#[test]
fn encoder_leaves_the_target_of_a_report_empty() {
    let input = encoder::report(
        "g1".to_string(),
        "bob".to_string(),
        BOB.to_vec(),
        "r_b".to_string(),
        0,
        9,
    );
    assert_eq!(input.target, "");
    assert_eq!(input.pos, 90);
    assert_eq!(input.fleet, "bob");
    assert_eq!(input.board, BOB.to_vec());
}

#[test]
fn encoder_builds_the_inputs_of_wave_and_win() {
    let waved = encoder::wave("g1".to_string(), "bob".to_string(), vec![3], "r_b".to_string());
    assert_eq!((waved.gameid.as_str(), waved.fleet.as_str()), ("g1", "bob"));
    assert_eq!(waved.board, vec![3]);
    assert_eq!(waved.random, "r_b");
    let won = encoder::win("g2".to_string(), "carol".to_string(), vec![8, 9], "r_c".to_string());
    assert_eq!((won.gameid.as_str(), won.fleet.as_str()), ("g2", "carol"));
    assert_eq!(won.board, vec![8, 9]);
    assert_eq!(won.random, "r_c");
}

#[test]
fn encoded_moves_give_the_journals_of_a_round() {
    let fired = fire(encoder::fire(
        "g1".to_string(),
        "alice".to_string(),
        vec![1, 2],
        "r_a".to_string(),
        "bob".to_string(),
        4,
        3,
    ));
    assert_eq!(fired.pos, 34);
    let reported = report(encoder::report(
        "g1".to_string(),
        "bob".to_string(),
        BOB.to_vec(),
        "r_b".to_string(),
        4,
        3,
    ));
    assert_eq!(reported.pos, fired.pos);
    assert_eq!(reported.report, "Hit");
}
