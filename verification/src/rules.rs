//! The rules of the ledger, as functions on plain values: what each request
//! does to the games, what is answered and what is broadcast.

use vstd::prelude::*;
use crate::journal::{BaseRecord, Command, FireRecord, ReportRecord};
use crate::messages;
use crate::position::label;

verus! {

/// Why a request was turned down.
#[derive(Clone, Copy, Debug, PartialEq, Eq, Structural)]
pub enum Rejection {
    /// The receipt failed verification.
    ProofInvalid,
    /// No game has the identifier.
    UnknownGame,
    /// The fleet that moves is not in the game.
    UnknownFleet,
    /// The move is not the one that the game waits for.
    OutOfTurn,
    /// The commitment submitted is not the one on record for the fleet.
    StateMismatch,
    /// The report answers another cell than the one fired at.
    ReportMismatch,
    /// The fleet fired at is not in the game.
    IllegalTarget,
}

/// A game as the ledger sees it. Fleets and games are known by their
/// identifiers; a board only by its commitment.
pub struct GameState {
    /// The commitment on record for each fleet in the game.
    pub players: Map<Seq<char>, Seq<u8>>,
    /// The fleet that may fire, wave or claim victory.
    pub next_player: Option<Seq<char>>,
    /// The fleet that must report on the last shot.
    pub next_report: Option<Seq<char>>,
    /// The cell of the shot that awaits its report.
    pub last_shot_pos: Option<u8>,
    /// The fleet that fired last, or that waved since.
    pub last_player: Option<Seq<char>>,
}

/// What handling one request comes to.
pub struct Step {
    /// The games afterwards.
    pub games: Map<Seq<char>, GameState>,
    /// `None` when the request was accepted.
    pub rejection: Option<Rejection>,
    /// The answer to the caller.
    pub response: Seq<char>,
    /// The text broadcast to the observers.
    pub event: Seq<char>,
}

/// A request: the move, and its journal if the receipt was verified.
pub enum RequestRecord {
    Join(Option<BaseRecord>),
    Fire(Option<FireRecord>),
    Report(Option<ReportRecord>),
    Wave(Option<BaseRecord>),
    Win(Option<BaseRecord>),
}

pub open spec fn accepted(games: Map<Seq<char>, GameState>, event: Seq<char>) -> Step {
    Step { games, rejection: None, response: messages::ok(), event }
}

pub open spec fn rejected(
    games: Map<Seq<char>, GameState>,
    why: Rejection,
    text: Seq<char>,
) -> Step {
    Step { games, rejection: Some(why), response: text, event: text }
}

/// A request whose receipt failed verification changes nothing.
pub open spec fn unverified(games: Map<Seq<char>, GameState>, cmd: Command) -> Step {
    Step {
        games,
        rejection: Some(Rejection::ProofInvalid),
        response: messages::unverified(),
        event: messages::invalid_receipt(cmd),
    }
}

/// The game that the first Join of `j.gameid` opens: the joiner is its only
/// player and holds the turn.
pub open spec fn opened_by(j: BaseRecord) -> GameState {
    GameState {
        players: Map::<Seq<char>, Seq<u8>>::empty().insert(j.fleet, j.board),
        next_player: Some(j.fleet),
        next_report: None,
        last_shot_pos: None,
        last_player: None,
    }
}

/// Join opens the game if there is none and enters the fleet if it is not in
/// it. A fleet that is in the game stays as it is.
pub open spec fn join(games: Map<Seq<char>, GameState>, j: BaseRecord) -> Step {
    if !games.dom().contains(j.gameid) {
        accepted(games.insert(j.gameid, opened_by(j)), messages::joined(j.fleet, j.gameid))
    } else {
        let g = games[j.gameid];
        if g.players.dom().contains(j.fleet) {
            accepted(games, messages::already_joined(j.gameid))
        } else {
            accepted(
                games.insert(
                    j.gameid,
                    GameState { players: g.players.insert(j.fleet, j.board), ..g },
                ),
                messages::joined(j.fleet, j.gameid),
            )
        }
    }
}

/// Fire: the turn holder, committing from the board on record, announces a
/// shot at a fleet of the same game. The game then waits for that fleet's
/// report.
pub open spec fn fire(games: Map<Seq<char>, GameState>, j: FireRecord) -> Step {
    if !games.dom().contains(j.gameid) {
        rejected(games, Rejection::UnknownGame, messages::game_not_found(j.gameid))
    } else {
        let g = games[j.gameid];
        if !g.players.dom().contains(j.fleet) {
            rejected(games, Rejection::UnknownFleet, messages::firer_not_found(j.fleet, j.gameid))
        } else if g.next_player is None {
            rejected(games, Rejection::OutOfTurn, messages::awaiting_report("fire"@, j.gameid))
        } else if g.next_player->0 != j.fleet {
            rejected(
                games,
                Rejection::OutOfTurn,
                messages::not_your_turn(j.fleet, "fire"@, j.gameid, g.next_player->0),
            )
        } else if g.players[j.fleet] != j.board {
            rejected(
                games,
                Rejection::StateMismatch,
                messages::fire_state_mismatch(j.fleet, j.gameid),
            )
        } else if !g.players.dom().contains(j.target) {
            rejected(
                games,
                Rejection::IllegalTarget,
                messages::target_not_found(j.target, j.gameid),
            )
        } else {
            accepted(
                games.insert(
                    j.gameid,
                    GameState {
                        players: g.players.insert(j.fleet, j.board),
                        next_player: None,
                        next_report: Some(j.target),
                        last_shot_pos: Some(j.pos),
                        last_player: Some(j.fleet),
                    },
                ),
                messages::fired(j.fleet, j.target, label(j.pos), j.gameid),
            )
        }
    }
}

/// Report: the fleet fired at answers the shot on record, committing from
/// the board on record. Its new commitment replaces the old one and the turn
/// passes to it.
pub open spec fn report(games: Map<Seq<char>, GameState>, j: ReportRecord) -> Step {
    if !games.dom().contains(j.gameid) {
        rejected(games, Rejection::UnknownGame, messages::game_not_found(j.gameid))
    } else {
        let g = games[j.gameid];
        if !g.players.dom().contains(j.fleet) {
            rejected(
                games,
                Rejection::UnknownFleet,
                messages::reporter_not_found(j.fleet, j.gameid),
            )
        } else if g.next_report is None {
            rejected(games, Rejection::OutOfTurn, messages::no_report_expected(j.gameid))
        } else if g.next_report->0 != j.fleet {
            rejected(
                games,
                Rejection::OutOfTurn,
                messages::not_your_turn(j.fleet, "report"@, j.gameid, g.next_report->0),
            )
        } else if g.last_shot_pos is None {
            rejected(games, Rejection::ReportMismatch, messages::no_last_shot(j.fleet, j.gameid))
        } else if g.last_shot_pos->0 != j.pos {
            rejected(
                games,
                Rejection::ReportMismatch,
                messages::shot_mismatch(label(g.last_shot_pos->0), label(j.pos), j.fleet, j.gameid),
            )
        } else if g.players[j.fleet] != j.board {
            rejected(
                games,
                Rejection::StateMismatch,
                messages::report_state_mismatch(j.fleet, j.gameid),
            )
        } else {
            accepted(
                games.insert(
                    j.gameid,
                    GameState {
                        players: g.players.insert(j.fleet, j.next_board),
                        next_player: Some(j.fleet),
                        next_report: None,
                        last_shot_pos: None,
                        last_player: g.last_player,
                    },
                ),
                messages::reported(j.fleet, j.report, label(j.pos), j.gameid),
            )
        }
    }
}

/// Wave: the turn holder, committing from the board on record, hands the
/// turn to the fleet that fired last.
pub open spec fn wave(games: Map<Seq<char>, GameState>, j: BaseRecord) -> Step {
    if !games.dom().contains(j.gameid) {
        rejected(games, Rejection::UnknownGame, messages::game_not_found(j.gameid))
    } else {
        let g = games[j.gameid];
        if !g.players.dom().contains(j.fleet) {
            rejected(
                games,
                Rejection::UnknownFleet,
                messages::reporter_not_found(j.fleet, j.gameid),
            )
        } else if g.players[j.fleet] != j.board {
            rejected(
                games,
                Rejection::StateMismatch,
                messages::report_state_mismatch(j.fleet, j.gameid),
            )
        } else if g.next_player is None {
            rejected(games, Rejection::OutOfTurn, messages::awaiting_report("wave"@, j.gameid))
        } else if g.next_player->0 != j.fleet {
            rejected(
                games,
                Rejection::OutOfTurn,
                messages::not_your_turn(j.fleet, "wave"@, j.gameid, g.next_player->0),
            )
        } else if g.last_player is None {
            rejected(games, Rejection::OutOfTurn, messages::no_last_player(j.gameid))
        } else {
            accepted(
                games.insert(
                    j.gameid,
                    GameState { next_player: g.last_player, last_player: Some(j.fleet), ..g },
                ),
                messages::waved(j.fleet, j.gameid),
            )
        }
    }
}

/// Win: a fleet of the game, committing from the board on record, claims
/// victory. The games stay as they are.
pub open spec fn win(games: Map<Seq<char>, GameState>, j: BaseRecord) -> Step {
    if !games.dom().contains(j.gameid) {
        rejected(games, Rejection::UnknownGame, messages::game_not_found(j.gameid))
    } else {
        let g = games[j.gameid];
        if !g.players.dom().contains(j.fleet) {
            rejected(
                games,
                Rejection::UnknownFleet,
                messages::reporter_not_found(j.fleet, j.gameid),
            )
        } else if g.players[j.fleet] != j.board {
            rejected(
                games,
                Rejection::StateMismatch,
                messages::report_state_mismatch(j.fleet, j.gameid),
            )
        } else {
            accepted(games, messages::victory(j.fleet, j.gameid))
        }
    }
}

/// What the ledger does with a request.
pub open spec fn step(games: Map<Seq<char>, GameState>, request: RequestRecord) -> Step {
    match request {
        RequestRecord::Join(None) => unverified(games, Command::Join),
        RequestRecord::Join(Some(j)) => join(games, j),
        RequestRecord::Fire(None) => unverified(games, Command::Fire),
        RequestRecord::Fire(Some(j)) => fire(games, j),
        RequestRecord::Report(None) => unverified(games, Command::Report),
        RequestRecord::Report(Some(j)) => report(games, j),
        RequestRecord::Wave(None) => unverified(games, Command::Wave),
        RequestRecord::Wave(Some(j)) => wave(games, j),
        RequestRecord::Win(None) => unverified(games, Command::Win),
        RequestRecord::Win(Some(j)) => win(games, j),
    }
}

/// What holds of a game between requests: either a fleet holds the turn or a
/// fleet owes a report, never both and never neither; a shot is on record
/// exactly while a report is owed; and every fleet that the game names is
/// one of its players.
pub open spec fn coherent_game(g: GameState) -> bool {
    &&& (g.next_player is Some) != (g.next_report is Some)
    &&& (g.last_shot_pos is Some) == (g.next_report is Some)
    &&& g.next_report is Some ==> g.last_player is Some
    &&& g.next_player matches Some(p) ==> g.players.dom().contains(p)
    &&& g.next_report matches Some(r) ==> g.players.dom().contains(r)
    &&& g.last_player matches Some(l) ==> g.players.dom().contains(l)
}

/// Every game is coherent.
pub open spec fn coherent(games: Map<Seq<char>, GameState>) -> bool {
    forall|id: Seq<char>| #[trigger] games.dom().contains(id) ==> coherent_game(games[id])
}

/// The game and the fleet that a verified request speaks for, and the
/// commitment that it was made from.
pub open spec fn mover(request: RequestRecord) -> Option<BaseRecord> {
    match request {
        RequestRecord::Join(Some(j)) => Some(j),
        RequestRecord::Fire(Some(j)) => Some(
            BaseRecord { gameid: j.gameid, fleet: j.fleet, board: j.board },
        ),
        RequestRecord::Report(Some(j)) => Some(
            BaseRecord { gameid: j.gameid, fleet: j.fleet, board: j.board },
        ),
        RequestRecord::Wave(Some(j)) => Some(j),
        RequestRecord::Win(Some(j)) => Some(j),
        _ => None,
    }
}

/// The commitment that is on record for the mover once the request has been
/// accepted: the board after the shot for a Report, else the board that the
/// move was made from.
pub open spec fn recorded(request: RequestRecord) -> Seq<u8> {
    match request {
        RequestRecord::Report(Some(j)) => j.next_board,
        _ => mover(request)->0.board,
    }
}

/// The games after a run of requests, handled one after the other.
pub open spec fn after(games: Map<Seq<char>, GameState>, requests: Seq<RequestRecord>) -> Map<
    Seq<char>,
    GameState,
>
    decreases requests.len(),
{
    if requests.len() == 0 {
        games
    } else {
        step(after(games, requests.drop_last()), requests.last()).games
    }
}

/// The events of a run of requests, in the order in which they are
/// broadcast: one for each request, in the order of the requests.
pub open spec fn events(games: Map<Seq<char>, GameState>, requests: Seq<RequestRecord>) -> Seq<
    Seq<char>,
>
    decreases requests.len(),
{
    if requests.len() == 0 {
        Seq::empty()
    } else {
        events(games, requests.drop_last()).push(
            step(after(games, requests.drop_last()), requests.last()).event,
        )
    }
}

} // verus!
