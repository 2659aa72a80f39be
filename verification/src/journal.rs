//! The private inputs of the five moves and the public journals that they
//! publish.

use vstd::prelude::*;
use crate::commitment::Commitment;

verus! {

/// The five moves of the protocol.
#[derive(Clone, Copy, Debug, PartialEq, Eq, Structural)]
pub enum Command {
    Join,
    Fire,
    Report,
    Wave,
    Win,
}

/// Private inputs of Join, Wave and Win.
#[derive(Debug)]
pub struct BaseInputs {
    pub gameid: String,
    pub fleet: String,
    /// Cells still afloat. Secret.
    pub board: Vec<u8>,
    /// The player's secret, the same for every move of a game.
    pub random: String,
}

/// Private inputs of Fire and Report. Report ignores `target`.
#[derive(Debug)]
pub struct FireInputs {
    pub gameid: String,
    pub fleet: String,
    /// Cells still afloat. Secret.
    pub board: Vec<u8>,
    /// The player's secret, the same for every move of a game.
    pub random: String,
    pub target: String,
    pub pos: u8,
}

/// Journal of Join, Wave and Win.
#[derive(Debug)]
pub struct BaseJournal {
    pub gameid: String,
    pub fleet: String,
    pub board: Commitment,
}

/// Journal of Fire.
#[derive(Debug)]
pub struct FireJournal {
    pub gameid: String,
    pub fleet: String,
    pub board: Commitment,
    pub target: String,
    pub pos: u8,
}

/// Journal of Report.
#[derive(Debug)]
pub struct ReportJournal {
    pub gameid: String,
    pub fleet: String,
    /// `Hit` or `Miss`.
    pub report: String,
    pub pos: u8,
    /// The board the shot was taken at.
    pub board: Commitment,
    /// The board after the shot.
    pub next_board: Commitment,
}

/// What a `BaseJournal` says, as plain values.
pub struct BaseRecord {
    pub gameid: Seq<char>,
    pub fleet: Seq<char>,
    pub board: Seq<u8>,
}

/// What a `FireJournal` says, as plain values.
pub struct FireRecord {
    pub gameid: Seq<char>,
    pub fleet: Seq<char>,
    pub board: Seq<u8>,
    pub target: Seq<char>,
    pub pos: u8,
}

/// What a `ReportJournal` says, as plain values.
pub struct ReportRecord {
    pub gameid: Seq<char>,
    pub fleet: Seq<char>,
    pub report: Seq<char>,
    pub pos: u8,
    pub board: Seq<u8>,
    pub next_board: Seq<u8>,
}

impl View for BaseJournal {
    type V = BaseRecord;

    open spec fn view(&self) -> BaseRecord {
        BaseRecord { gameid: self.gameid@, fleet: self.fleet@, board: self.board@ }
    }
}

impl View for FireJournal {
    type V = FireRecord;

    open spec fn view(&self) -> FireRecord {
        FireRecord {
            gameid: self.gameid@,
            fleet: self.fleet@,
            board: self.board@,
            target: self.target@,
            pos: self.pos,
        }
    }
}

impl View for ReportJournal {
    type V = ReportRecord;

    open spec fn view(&self) -> ReportRecord {
        ReportRecord {
            gameid: self.gameid@,
            fleet: self.fleet@,
            report: self.report@,
            pos: self.pos,
            board: self.board@,
            next_board: self.next_board@,
        }
    }
}

impl Clone for BaseInputs {
    fn clone(&self) -> (copy: Self)
        ensures
            copy.gameid@ == self.gameid@,
            copy.fleet@ == self.fleet@,
            copy.board@ == self.board@,
            copy.random@ == self.random@,
    {
        BaseInputs {
            gameid: self.gameid.clone(),
            fleet: self.fleet.clone(),
            board: self.board.clone(),
            random: self.random.clone(),
        }
    }
}

impl Clone for FireInputs {
    fn clone(&self) -> (copy: Self)
        ensures
            copy.gameid@ == self.gameid@,
            copy.fleet@ == self.fleet@,
            copy.board@ == self.board@,
            copy.random@ == self.random@,
            copy.target@ == self.target@,
            copy.pos == self.pos,
    {
        FireInputs {
            gameid: self.gameid.clone(),
            fleet: self.fleet.clone(),
            board: self.board.clone(),
            random: self.random.clone(),
            target: self.target.clone(),
            pos: self.pos,
        }
    }
}

impl Clone for BaseJournal {
    fn clone(&self) -> (copy: Self)
        ensures
            copy@ == self@,
    {
        BaseJournal { gameid: self.gameid.clone(), fleet: self.fleet.clone(), board: self.board }
    }
}

impl Clone for FireJournal {
    fn clone(&self) -> (copy: Self)
        ensures
            copy@ == self@,
    {
        FireJournal {
            gameid: self.gameid.clone(),
            fleet: self.fleet.clone(),
            board: self.board,
            target: self.target.clone(),
            pos: self.pos,
        }
    }
}

impl Clone for ReportJournal {
    fn clone(&self) -> (copy: Self)
        ensures
            copy@ == self@,
    {
        ReportJournal {
            gameid: self.gameid.clone(),
            fleet: self.fleet.clone(),
            report: self.report.clone(),
            pos: self.pos,
            board: self.board,
            next_board: self.next_board,
        }
    }
}

} // verus!
