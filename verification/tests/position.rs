use fleetcore::encoder::position;
use fleetcore::position::xy_pos;

#[test]
fn label_of_the_first_cell() {
    assert_eq!(xy_pos(0), "A0");
}

#[test]
fn label_of_the_last_cell() {
    assert_eq!(xy_pos(99), "J9");
}

#[test]
fn label_is_column_letter_then_row() {
    assert_eq!(xy_pos(34), "E3");
    assert_eq!(xy_pos(9), "J0");
    assert_eq!(xy_pos(10), "A1");
    assert_eq!(xy_pos(57), "H5");
}

#[test]
fn label_off_the_grid_has_a_two_digit_row() {
    assert_eq!(xy_pos(100), "A10");
    assert_eq!(xy_pos(209), "J20");
    assert_eq!(xy_pos(255), "F25");
}

#[test]
fn labels_of_all_cells_of_the_grid() {
    for pos in 0u8..100 {
        let expected = format!("{}{}", (b'A' + pos % 10) as char, pos / 10);
        assert_eq!(xy_pos(pos), expected);
    }
}

#[test]
fn position_is_row_times_ten_plus_column() {
    assert_eq!(position(0, 0), 0);
    assert_eq!(position(4, 3), 34);
    assert_eq!(position(9, 9), 99);
    assert_eq!(position(0, 1), 10);
}

#[test]
fn position_and_label_agree() {
    for y in 0u8..10 {
        for x in 0u8..10 {
            let expected = format!("{}{}", (b'A' + x) as char, y);
            assert_eq!(xy_pos(position(x, y)), expected);
        }
    }
}
