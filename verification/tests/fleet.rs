use fleetcore::fleet::{is_accepted_fleet, is_debug_fleet, is_valid_fleet};

const ALICE: [u8; 18] = [0, 1, 2, 3, 4, 20, 21, 22, 23, 40, 41, 42, 60, 61, 64, 65, 80, 99];

const BOB: [u8; 18] = [2, 9, 19, 29, 14, 24, 34, 44, 54, 57, 67, 70, 71, 72, 73, 90, 91, 96];

#[test]
fn fleet_of_horizontal_ships_is_valid() {
    assert!(is_valid_fleet(&ALICE));
}

#[test]
fn fleet_with_vertical_ships_is_valid() {
    assert!(is_valid_fleet(&BOB));
}

#[test]
fn fleet_is_valid_in_any_order_of_its_cells() {
    let mut board = ALICE;
    board.reverse();
    assert!(is_valid_fleet(&board));
    let shuffled: [u8; 18] = [99, 0, 80, 1, 65, 2, 64, 3, 61, 4, 60, 20, 42, 21, 41, 22, 40, 23];
    assert!(is_valid_fleet(&shuffled));
}

#[test]
fn fleet_of_17_cells_is_invalid() {
    assert!(!is_valid_fleet(&ALICE[..17]));
}

#[test]
fn fleet_of_19_cells_is_invalid() {
    let mut board = ALICE.to_vec();
    board.push(97);
    assert!(!is_valid_fleet(&board));
}

#[test]
fn empty_board_is_invalid() {
    assert!(!is_valid_fleet(&[]));
}

#[test]
fn fleet_with_ships_of_1_1_2_3_4_5_5_is_invalid() {
    // seven ships, but 21 cells
    let board: [u8; 21] =
        [0, 1, 2, 3, 4, 20, 21, 22, 23, 24, 40, 41, 42, 43, 60, 61, 62, 80, 81, 97, 99];
    assert!(!is_valid_fleet(&board));
}

#[test]
fn fleet_of_18_cells_with_two_ships_of_five_is_invalid() {
    // 5 + 5 + 4 + 2 + 1 + 1 = 18
    let board: [u8; 18] = [0, 1, 2, 3, 4, 20, 21, 22, 23, 24, 40, 41, 42, 43, 60, 61, 80, 99];
    assert!(!is_valid_fleet(&board));
}

#[test]
fn fleet_with_a_ship_of_six_is_invalid() {
    // 6 + 4 + 3 + 2 + 1 + 1 + 1 = 18
    let board: [u8; 18] = [0, 1, 2, 3, 4, 5, 20, 21, 22, 23, 40, 41, 42, 60, 61, 80, 97, 99];
    assert!(!is_valid_fleet(&board));
}

#[test]
fn fleet_with_three_ships_of_one_is_invalid() {
    // 5 + 4 + 3 + 2 + 1 + 1 + 1 + 1 = 18
    let board: [u8; 18] = [0, 1, 2, 3, 4, 20, 21, 22, 23, 40, 41, 42, 60, 61, 64, 66, 80, 99];
    assert!(!is_valid_fleet(&board));
}

#[test]
fn fleet_with_a_cell_named_twice_is_invalid() {
    let mut board = ALICE;
    board[17] = 0;
    assert!(!is_valid_fleet(&board));
}

#[test]
fn fleet_with_a_cell_off_the_grid_is_invalid() {
    let mut board = ALICE;
    board[17] = 100;
    assert!(!is_valid_fleet(&board));
    board[17] = 255;
    assert!(!is_valid_fleet(&board));
}

#[test]
fn ship_does_not_run_over_the_end_of_a_row() {
    // 8, 9 and 10, 11, 12 are a ship of two and a ship of three, not one of five
    let board: [u8; 18] = [8, 9, 10, 11, 12, 30, 31, 32, 33, 34, 50, 51, 52, 53, 70, 71, 90, 99];
    // ships: 2, 3, 5, 4, 2, 1, 1
    assert!(is_valid_fleet(&board));
}

#[test]
fn ships_side_by_side_in_a_row_are_one_ship() {
    // the ships of two at 60, 61 and 62, 63 touch: they count as one of four
    let board: [u8; 18] = [0, 1, 2, 3, 4, 20, 21, 22, 23, 40, 41, 42, 60, 61, 62, 63, 80, 99];
    assert!(!is_valid_fleet(&board));
}

#[test]
fn ship_runs_east_before_south() {
    // 0, 1 and 10: the ship from 0 runs east to 1, and 10 is a ship of one
    let board: [u8; 18] = [0, 1, 10, 30, 31, 32, 33, 34, 50, 51, 52, 53, 70, 71, 72, 90, 91, 99];
    // ships: 2 (0, 1), 1 (10), 5, 4, 3, 2, 1
    assert!(is_valid_fleet(&board));
}

#[test]
fn ship_running_south_takes_its_cells_from_later_rows() {
    // the ship from 5 runs south through 15 and 25; 14 then cannot run east into 15
    let board: [u8; 18] = [5, 15, 25, 14, 40, 41, 42, 43, 44, 60, 61, 62, 63, 80, 81, 90, 91, 99];
    // ships: 3 (5, 15, 25), 1 (14), 5, 4, 2, 2, 1
    assert!(is_valid_fleet(&board));
}

#[test]
fn column_of_five_is_a_ship() {
    let board: [u8; 18] = [9, 19, 29, 39, 49, 0, 10, 20, 30, 2, 12, 22, 4, 14, 6, 16, 50, 97];
    // ships: 4 (0..30), 3 (2..22), 2 (4, 14), 2 (6, 16), 5 (9..49), 1, 1
    assert!(is_valid_fleet(&board));
}

#[test]
fn debug_fleet_in_a_row() {
    assert!(is_debug_fleet(&[0, 1, 2]));
    assert!(is_debug_fleet(&[2, 0, 1]));
    assert!(is_debug_fleet(&[97, 98, 99]));
}

#[test]
fn debug_fleet_in_a_column() {
    assert!(is_debug_fleet(&[0, 10, 20]));
    assert!(is_debug_fleet(&[99, 79, 89]));
}

#[test]
fn debug_fleet_must_stay_in_its_row() {
    assert!(!is_debug_fleet(&[8, 9, 10]));
    assert!(!is_debug_fleet(&[9, 10, 11]));
}

#[test]
fn debug_fleet_must_be_three_cells_in_line() {
    assert!(!is_debug_fleet(&[0, 1, 3]));
    assert!(!is_debug_fleet(&[0, 10, 30]));
    assert!(!is_debug_fleet(&[0, 1, 10]));
    assert!(!is_debug_fleet(&[0, 1]));
    assert!(!is_debug_fleet(&[0, 1, 2, 3]));
    assert!(!is_debug_fleet(&[]));
}

#[test]
fn debug_fleet_names_each_cell_once_on_the_grid() {
    assert!(!is_debug_fleet(&[0, 0, 1]));
    assert!(!is_debug_fleet(&[1, 1, 1]));
    assert!(!is_debug_fleet(&[98, 99, 100]));
    assert!(!is_debug_fleet(&[80, 90, 100]));
}

#[test]
fn debug_layouts_are_accepted_only_with_the_flag() {
    assert!(is_accepted_fleet(&[0, 1, 2], true));
    assert!(!is_accepted_fleet(&[0, 1, 2], false));
    assert!(!is_valid_fleet(&[0, 1, 2]));
    assert!(!is_accepted_fleet(&[0, 1, 3], true));
}

#[test]
fn legal_fleets_are_accepted_with_and_without_the_flag() {
    assert!(is_accepted_fleet(&ALICE, false));
    assert!(is_accepted_fleet(&ALICE, true));
    assert!(is_accepted_fleet(&BOB, false));
    assert!(!is_accepted_fleet(&ALICE[..17], true));
    assert!(!is_accepted_fleet(&ALICE[..17], false));
}
