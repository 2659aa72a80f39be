//! The texts that the ledger answers with and broadcasts.
//!
//! Each text has a spec function that says what it is and an executable
//! function, named with `_text` at the end, that builds it.

use vstd::prelude::*;
use vstd::string::*;
use crate::journal::Command;

verus! {

/// The answer to a request that was accepted.
pub open spec fn ok() -> Seq<char> {
    "OK"@
}

/// The answer to a request whose receipt failed verification.
pub open spec fn unverified() -> Seq<char> {
    "Could not verify receipt"@
}

/// The event broadcast when the receipt of a `cmd` request failed
/// verification.
pub open spec fn invalid_receipt(cmd: Command) -> Seq<char> {
    match cmd {
        Command::Join => "Attempting to join game with invalid receipt"@,
        Command::Fire => "Attempting to fire with invalid receipt"@,
        Command::Report => "Attempting to report with invalid receipt"@,
        Command::Wave => "Attempting to wave with invalid receipt"@,
        Command::Win => "Attempting to claim win with invalid receipt"@,
    }
}

/// A fleet has entered a game.
pub open spec fn joined(fleet: Seq<char>, gameid: Seq<char>) -> Seq<char> {
    "Player "@ + fleet + " joined game "@ + gameid
}

/// A fleet that is in the game asked to join again.
pub open spec fn already_joined(gameid: Seq<char>) -> Seq<char> {
    "Player already in game "@ + gameid
}

/// No game has this identifier.
pub open spec fn game_not_found(gameid: Seq<char>) -> Seq<char> {
    "Game "@ + gameid + " not found"@
}

/// The fleet that fires is not in the game.
pub open spec fn firer_not_found(fleet: Seq<char>, gameid: Seq<char>) -> Seq<char> {
    "Firing fleet "@ + fleet + " not found in game "@ + gameid
}

/// The fleet that reports, waves or claims victory is not in the game.
pub open spec fn reporter_not_found(fleet: Seq<char>, gameid: Seq<char>) -> Seq<char> {
    "Reporting fleet "@ + fleet + " not found in game "@ + gameid
}

/// Another fleet holds the turn. `verb` is the move that was tried.
pub open spec fn not_your_turn(
    fleet: Seq<char>,
    verb: Seq<char>,
    gameid: Seq<char>,
    expected: Seq<char>,
) -> Seq<char> {
    "It's not "@ + fleet + "'s turn to "@ + verb + " in game "@ + gameid + ". It's "@ + expected
        + "'s turn."@
}

/// Nobody holds the turn: a report is pending. `verb` is the move that was
/// tried.
pub open spec fn awaiting_report(verb: Seq<char>, gameid: Seq<char>) -> Seq<char> {
    "No player is allowed to "@ + verb + " right now in game "@ + gameid + ". Awaiting report."@
}

/// A report came while no shot was pending.
pub open spec fn no_report_expected(gameid: Seq<char>) -> Seq<char> {
    "No report expected at this time in game "@ + gameid + "."@
}

/// The firer's commitment is not the one on record.
pub open spec fn fire_state_mismatch(fleet: Seq<char>, gameid: Seq<char>) -> Seq<char> {
    "Invalid fire: board hash does not match stored state for fleet "@ + fleet + " in game "@
        + gameid
}

/// The commitment of a report, wave or victory claim is not the one on
/// record.
pub open spec fn report_state_mismatch(fleet: Seq<char>, gameid: Seq<char>) -> Seq<char> {
    "Invalid report: board hash does not match stored state for fleet "@ + fleet + " in game "@
        + gameid
}

/// The fleet fired at is not in the game.
pub open spec fn target_not_found(target: Seq<char>, gameid: Seq<char>) -> Seq<char> {
    "Target fleet "@ + target + " not found in game "@ + gameid
}

/// A shot was accepted. `at` is the label of the cell.
pub open spec fn fired(
    fleet: Seq<char>,
    target: Seq<char>,
    at: Seq<char>,
    gameid: Seq<char>,
) -> Seq<char> {
    "Player "@ + fleet + " fired at "@ + target + "'s fleet at position "@ + at + " in game "@
        + gameid
}

/// A report answers another cell than the one fired at. `last` and `at` are
/// the labels of the two cells.
pub open spec fn shot_mismatch(
    last: Seq<char>,
    at: Seq<char>,
    fleet: Seq<char>,
    gameid: Seq<char>,
) -> Seq<char> {
    "Invalid report: last shot position "@ + last + " does not match reported position "@ + at
        + " for fleet "@ + fleet + " in game "@ + gameid
}

/// A report came while no shot is on record.
pub open spec fn no_last_shot(fleet: Seq<char>, gameid: Seq<char>) -> Seq<char> {
    "Invalid report: no last shot position recorded for fleet "@ + fleet + " in game "@ + gameid
}

/// A report was accepted. `report` is its word, `at` the label of the cell.
pub open spec fn reported(
    fleet: Seq<char>,
    report: Seq<char>,
    at: Seq<char>,
    gameid: Seq<char>,
) -> Seq<char> {
    "Player "@ + fleet + " reported result '"@ + report + "' at position "@ + at + " in game "@
        + gameid
}

/// A fleet passed its turn.
pub open spec fn waved(fleet: Seq<char>, gameid: Seq<char>) -> Seq<char> {
    "Player "@ + fleet + " waved their turn on game "@ + gameid
}

/// A fleet waved before anyone had fired: there is nobody to hand the turn
/// to.
pub open spec fn no_last_player(gameid: Seq<char>) -> Seq<char> {
    "No last player found to set next player in game "@ + gameid
}

/// A fleet claims to have won.
pub open spec fn victory(fleet: Seq<char>, gameid: Seq<char>) -> Seq<char> {
    "Player "@ + fleet + " claims victory in game "@ + gameid + "!"@
}

pub fn ok_text() -> (s: String)
    ensures
        s@ == ok(),
{
    String::from_str("OK")
}

pub fn unverified_text() -> (s: String)
    ensures
        s@ == unverified(),
{
    String::from_str("Could not verify receipt")
}

pub fn invalid_receipt_text(cmd: Command) -> (s: String)
    ensures
        s@ == invalid_receipt(cmd),
{
    match cmd {
        Command::Join => String::from_str("Attempting to join game with invalid receipt"),
        Command::Fire => String::from_str("Attempting to fire with invalid receipt"),
        Command::Report => String::from_str("Attempting to report with invalid receipt"),
        Command::Wave => String::from_str("Attempting to wave with invalid receipt"),
        Command::Win => String::from_str("Attempting to claim win with invalid receipt"),
    }
}

pub fn joined_text(fleet: &str, gameid: &str) -> (s: String)
    ensures
        s@ == joined(fleet@, gameid@),
{
    let mut s = String::from_str("Player ");
    s.append(fleet);
    s.append(" joined game ");
    s.append(gameid);
    s
}

pub fn already_joined_text(gameid: &str) -> (s: String)
    ensures
        s@ == already_joined(gameid@),
{
    let mut s = String::from_str("Player already in game ");
    s.append(gameid);
    s
}

pub fn game_not_found_text(gameid: &str) -> (s: String)
    ensures
        s@ == game_not_found(gameid@),
{
    let mut s = String::from_str("Game ");
    s.append(gameid);
    s.append(" not found");
    s
}

pub fn firer_not_found_text(fleet: &str, gameid: &str) -> (s: String)
    ensures
        s@ == firer_not_found(fleet@, gameid@),
{
    let mut s = String::from_str("Firing fleet ");
    s.append(fleet);
    s.append(" not found in game ");
    s.append(gameid);
    s
}

pub fn reporter_not_found_text(fleet: &str, gameid: &str) -> (s: String)
    ensures
        s@ == reporter_not_found(fleet@, gameid@),
{
    let mut s = String::from_str("Reporting fleet ");
    s.append(fleet);
    s.append(" not found in game ");
    s.append(gameid);
    s
}

pub fn not_your_turn_text(fleet: &str, verb: &str, gameid: &str, expected: &str) -> (s: String)
    ensures
        s@ == not_your_turn(fleet@, verb@, gameid@, expected@),
{
    let mut s = String::from_str("It's not ");
    s.append(fleet);
    s.append("'s turn to ");
    s.append(verb);
    s.append(" in game ");
    s.append(gameid);
    s.append(". It's ");
    s.append(expected);
    s.append("'s turn.");
    s
}

pub fn awaiting_report_text(verb: &str, gameid: &str) -> (s: String)
    ensures
        s@ == awaiting_report(verb@, gameid@),
{
    let mut s = String::from_str("No player is allowed to ");
    s.append(verb);
    s.append(" right now in game ");
    s.append(gameid);
    s.append(". Awaiting report.");
    s
}

pub fn no_report_expected_text(gameid: &str) -> (s: String)
    ensures
        s@ == no_report_expected(gameid@),
{
    let mut s = String::from_str("No report expected at this time in game ");
    s.append(gameid);
    s.append(".");
    s
}

pub fn fire_state_mismatch_text(fleet: &str, gameid: &str) -> (s: String)
    ensures
        s@ == fire_state_mismatch(fleet@, gameid@),
{
    let mut s = String::from_str("Invalid fire: board hash does not match stored state for fleet ");
    s.append(fleet);
    s.append(" in game ");
    s.append(gameid);
    s
}

pub fn report_state_mismatch_text(fleet: &str, gameid: &str) -> (s: String)
    ensures
        s@ == report_state_mismatch(fleet@, gameid@),
{
    let mut s = String::from_str(
        "Invalid report: board hash does not match stored state for fleet ",
    );
    s.append(fleet);
    s.append(" in game ");
    s.append(gameid);
    s
}

pub fn target_not_found_text(target: &str, gameid: &str) -> (s: String)
    ensures
        s@ == target_not_found(target@, gameid@),
{
    let mut s = String::from_str("Target fleet ");
    s.append(target);
    s.append(" not found in game ");
    s.append(gameid);
    s
}

pub fn fired_text(fleet: &str, target: &str, at: &str, gameid: &str) -> (s: String)
    ensures
        s@ == fired(fleet@, target@, at@, gameid@),
{
    let mut s = String::from_str("Player ");
    s.append(fleet);
    s.append(" fired at ");
    s.append(target);
    s.append("'s fleet at position ");
    s.append(at);
    s.append(" in game ");
    s.append(gameid);
    s
}

pub fn shot_mismatch_text(last: &str, at: &str, fleet: &str, gameid: &str) -> (s: String)
    ensures
        s@ == shot_mismatch(last@, at@, fleet@, gameid@),
{
    let mut s = String::from_str("Invalid report: last shot position ");
    s.append(last);
    s.append(" does not match reported position ");
    s.append(at);
    s.append(" for fleet ");
    s.append(fleet);
    s.append(" in game ");
    s.append(gameid);
    s
}

pub fn no_last_shot_text(fleet: &str, gameid: &str) -> (s: String)
    ensures
        s@ == no_last_shot(fleet@, gameid@),
{
    let mut s = String::from_str("Invalid report: no last shot position recorded for fleet ");
    s.append(fleet);
    s.append(" in game ");
    s.append(gameid);
    s
}

pub fn reported_text(fleet: &str, report: &str, at: &str, gameid: &str) -> (s: String)
    ensures
        s@ == reported(fleet@, report@, at@, gameid@),
{
    let mut s = String::from_str("Player ");
    s.append(fleet);
    s.append(" reported result '");
    s.append(report);
    s.append("' at position ");
    s.append(at);
    s.append(" in game ");
    s.append(gameid);
    s
}

pub fn waved_text(fleet: &str, gameid: &str) -> (s: String)
    ensures
        s@ == waved(fleet@, gameid@),
{
    let mut s = String::from_str("Player ");
    s.append(fleet);
    s.append(" waved their turn on game ");
    s.append(gameid);
    s
}

pub fn no_last_player_text(gameid: &str) -> (s: String)
    ensures
        s@ == no_last_player(gameid@),
{
    let mut s = String::from_str("No last player found to set next player in game ");
    s.append(gameid);
    s
}

pub fn victory_text(fleet: &str, gameid: &str) -> (s: String)
    ensures
        s@ == victory(fleet@, gameid@),
{
    let mut s = String::from_str("Player ");
    s.append(fleet);
    s.append(" claims victory in game ");
    s.append(gameid);
    s.append("!");
    s
}

} // verus!
