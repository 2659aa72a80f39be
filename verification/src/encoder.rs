//! The move encoder: turns what a player intends into the private inputs of
//! the move. The prover makes a receipt of them, which goes to the ledger
//! tagged with the move's command.

use vstd::prelude::*;
use crate::journal::{BaseInputs, FireInputs};
use crate::position::{cell_at, column_letter, decimal, digit, label};

verus! {

/// The cell at column `x` and row `y`.
pub fn position(x: u8, y: u8) -> (pos: u8)
    requires
        cell_at(x as int, y as int) <= u8::MAX,
    ensures
        pos == cell_at(x as int, y as int),
        x <= 9 && y <= 9 ==> pos < 100,
{
    y * 10 + x
}

/// On the grid, the label of the cell at column `x` and row `y` is the
/// letter of `x` followed by the digit `y`.
pub proof fn lemma_label_of_cell(x: u8, y: u8)
    requires
        x <= 9,
        y <= 9,
    ensures
        label(cell_at(x as int, y as int) as u8) == seq![
            column_letter(x as int),
            digit(y as int),
        ],
{
    let pos = cell_at(x as int, y as int) as u8;
    assert(pos as int % 10 == x && pos / 10 == y);
    assert(decimal(y as nat) == seq![digit(y as int)]);
    assert(label(pos) =~= seq![column_letter(x as int), digit(y as int)]);
}

/// The inputs of a Join.
pub fn join_game(
    gameid: String,
    fleetid: String,
    board: Vec<u8>,
    random: String,
) -> (input: BaseInputs)
    ensures
        input.gameid == gameid,
        input.fleet == fleetid,
        input.board == board,
        input.random == random,
{
    BaseInputs { gameid, fleet: fleetid, board, random }
}

/// The inputs of a Fire at column `x`, row `y` of the fleet `targetfleet`.
pub fn fire(
    gameid: String,
    fleetid: String,
    board: Vec<u8>,
    random: String,
    targetfleet: String,
    x: u8,
    y: u8,
) -> (input: FireInputs)
    requires
        cell_at(x as int, y as int) <= u8::MAX,
    ensures
        input.gameid == gameid,
        input.fleet == fleetid,
        input.board == board,
        input.random == random,
        input.target == targetfleet,
        input.pos == cell_at(x as int, y as int),
{
    FireInputs { gameid, fleet: fleetid, board, random, target: targetfleet, pos: position(x, y) }
}

/// The inputs of a Report on the shot at column `x`, row `y`. A report has
/// no target: the field is left empty.
pub fn report(
    gameid: String,
    fleetid: String,
    board: Vec<u8>,
    random: String,
    x: u8,
    y: u8,
) -> (input: FireInputs)
    requires
        cell_at(x as int, y as int) <= u8::MAX,
    ensures
        input.gameid == gameid,
        input.fleet == fleetid,
        input.board == board,
        input.random == random,
        input.target@ == Seq::<char>::empty(),
        input.pos == cell_at(x as int, y as int),
{
    FireInputs {
        gameid,
        fleet: fleetid,
        board,
        random,
        target: String::new(),
        pos: position(x, y),
    }
}

/// The inputs of a Wave.
pub fn wave(gameid: String, fleetid: String, board: Vec<u8>, random: String) -> (input: BaseInputs)
    ensures
        input.gameid == gameid,
        input.fleet == fleetid,
        input.board == board,
        input.random == random,
{
    BaseInputs { gameid, fleet: fleetid, board, random }
}

/// The inputs of a Win.
pub fn win(gameid: String, fleetid: String, board: Vec<u8>, random: String) -> (input: BaseInputs)
    ensures
        input.gameid == gameid,
        input.fleet == fleetid,
        input.board == board,
        input.random == random,
{
    BaseInputs { gameid, fleet: fleetid, board, random }
}

} // verus!
