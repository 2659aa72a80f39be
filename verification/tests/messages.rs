use fleetcore::journal::Command;
use fleetcore::messages;

#[test]
fn answers_to_the_caller() {
    assert_eq!(messages::ok_text(), "OK");
    assert_eq!(messages::unverified_text(), "Could not verify receipt");
}

#[test]
fn events_for_invalid_receipts() {
    assert_eq!(
        messages::invalid_receipt_text(Command::Join),
        "Attempting to join game with invalid receipt"
    );
    assert_eq!(
        messages::invalid_receipt_text(Command::Fire),
        "Attempting to fire with invalid receipt"
    );
    assert_eq!(
        messages::invalid_receipt_text(Command::Report),
        "Attempting to report with invalid receipt"
    );
    assert_eq!(
        messages::invalid_receipt_text(Command::Wave),
        "Attempting to wave with invalid receipt"
    );
    assert_eq!(
        messages::invalid_receipt_text(Command::Win),
        "Attempting to claim win with invalid receipt"
    );
}

#[test]
fn texts_of_accepted_moves() {
    assert_eq!(messages::joined_text("alice", "g1"), "Player alice joined game g1");
    assert_eq!(messages::already_joined_text("g1"), "Player already in game g1");
    assert_eq!(
        messages::fired_text("alice", "bob", "E3", "g1"),
        "Player alice fired at bob's fleet at position E3 in game g1"
    );
    assert_eq!(
        messages::reported_text("bob", "Hit", "E3", "g1"),
        "Player bob reported result 'Hit' at position E3 in game g1"
    );
    assert_eq!(messages::waved_text("bob", "g1"), "Player bob waved their turn on game g1");
    assert_eq!(messages::victory_text("alice", "g1"), "Player alice claims victory in game g1!");
}

#[test]
fn texts_of_rejections() {
    assert_eq!(messages::game_not_found_text("g1"), "Game g1 not found");
    assert_eq!(
        messages::firer_not_found_text("carol", "g1"),
        "Firing fleet carol not found in game g1"
    );
    assert_eq!(
        messages::reporter_not_found_text("carol", "g1"),
        "Reporting fleet carol not found in game g1"
    );
    assert_eq!(
        messages::not_your_turn_text("bob", "fire", "g1", "alice"),
        "It's not bob's turn to fire in game g1. It's alice's turn."
    );
    assert_eq!(
        messages::awaiting_report_text("wave", "g1"),
        "No player is allowed to wave right now in game g1. Awaiting report."
    );
    assert_eq!(
        messages::no_report_expected_text("g1"),
        "No report expected at this time in game g1."
    );
    assert_eq!(
        messages::fire_state_mismatch_text("alice", "g1"),
        "Invalid fire: board hash does not match stored state for fleet alice in game g1"
    );
    assert_eq!(
        messages::report_state_mismatch_text("bob", "g1"),
        "Invalid report: board hash does not match stored state for fleet bob in game g1"
    );
    assert_eq!(
        messages::target_not_found_text("carol", "g1"),
        "Target fleet carol not found in game g1"
    );
    assert_eq!(
        messages::shot_mismatch_text("A0", "B0", "bob", "g1"),
        "Invalid report: last shot position A0 does not match reported position B0 \
         for fleet bob in game g1"
    );
    assert_eq!(
        messages::no_last_shot_text("bob", "g1"),
        "Invalid report: no last shot position recorded for fleet bob in game g1"
    );
    assert_eq!(
        messages::no_last_player_text("g1"),
        "No last player found to set next player in game g1"
    );
}

#[test]
fn texts_take_empty_and_non_ascii_names() {
    assert_eq!(messages::joined_text("", ""), "Player  joined game ");
    assert_eq!(messages::joined_text("zoë", "jeu n°1"), "Player zoë joined game jeu n°1");
}
