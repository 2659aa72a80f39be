//! The ledger: the authority that holds the games and decides on each
//! request. It never sees a board, only commitments.

use vstd::prelude::*;
use vstd::string::*;
use crate::commitment::Commitment;
use crate::journal::{BaseJournal, Command, FireJournal, ReportJournal};
use crate::ledger_laws::lemma_step_keeps_coherent;
use crate::messages;
use crate::position::xy_pos;
use crate::rules;
use crate::rules::{GameState, Rejection, RequestRecord, Step};

verus! {

/// A fleet in a game, and the commitment on record for it.
#[derive(Debug)]
pub struct Player {
    pub name: String,
    pub current_state: Commitment,
}

/// A game: its fleets, and whose move it is.
#[derive(Debug)]
pub struct Game {
    id: String,
    players: Vec<Player>,
    next_player: Option<String>,
    next_report: Option<String>,
    last_shot_pos: Option<u8>,
    last_player: Option<String>,
}

/// The games, by identifier.
#[derive(Debug)]
pub struct Ledger {
    games: Vec<Game>,
}

/// The answer to a request and the event to broadcast for it.
#[derive(Debug)]
pub struct Outcome {
    /// `None` when the request was accepted.
    pub rejection: Option<Rejection>,
    /// The answer to the caller: `OK`, or why not.
    pub response: String,
    /// The text for the observers.
    pub event: String,
}

/// A request: the move, and its journal if the receipt was verified against
/// the program of that move (`None` if verification failed).
#[derive(Debug)]
pub enum Request {
    Join(Option<BaseJournal>),
    Fire(Option<FireJournal>),
    Report(Option<ReportJournal>),
    Wave(Option<BaseJournal>),
    Win(Option<BaseJournal>),
}

/// The identifier that an optional string holds.
pub open spec fn name_of(s: Option<String>) -> Option<Seq<char>> {
    match s {
        Some(x) => Some(x@),
        None => None,
    }
}

/// The identifier that an optional borrowed string holds.
pub open spec fn name_at(s: Option<&String>) -> Option<Seq<char>> {
    match s {
        Some(x) => Some(x@),
        None => None,
    }
}

impl View for Request {
    type V = RequestRecord;

    open spec fn view(&self) -> RequestRecord {
        match *self {
            Request::Join(None) => RequestRecord::Join(None),
            Request::Join(Some(j)) => RequestRecord::Join(Some(j@)),
            Request::Fire(None) => RequestRecord::Fire(None),
            Request::Fire(Some(j)) => RequestRecord::Fire(Some(j@)),
            Request::Report(None) => RequestRecord::Report(None),
            Request::Report(Some(j)) => RequestRecord::Report(Some(j@)),
            Request::Wave(None) => RequestRecord::Wave(None),
            Request::Wave(Some(j)) => RequestRecord::Wave(Some(j@)),
            Request::Win(None) => RequestRecord::Win(None),
            Request::Win(Some(j)) => RequestRecord::Win(Some(j@)),
        }
    }
}

impl Request {
    /// The move that is asked for.
    pub open spec fn spec_command(&self) -> Command {
        match *self {
            Request::Join(_) => Command::Join,
            Request::Fire(_) => Command::Fire,
            Request::Report(_) => Command::Report,
            Request::Wave(_) => Command::Wave,
            Request::Win(_) => Command::Win,
        }
    }

    /// The move that is asked for.
    #[verifier::when_used_as_spec(spec_command)]
    pub fn command(&self) -> (cmd: Command)
        ensures
            cmd == self.spec_command(),
    {
        match self {
            Request::Join(_) => Command::Join,
            Request::Fire(_) => Command::Fire,
            Request::Report(_) => Command::Report,
            Request::Wave(_) => Command::Wave,
            Request::Win(_) => Command::Win,
        }
    }
}

impl Outcome {
    /// Whether this outcome is what `step` comes to.
    pub open spec fn reflects(&self, step: Step) -> bool {
        &&& self.rejection == step.rejection
        &&& self.response@ == step.response
        &&& self.event@ == step.event
    }

    /// Whether the request was accepted.
    pub fn accepted(&self) -> (yes: bool)
        ensures
            yes == (self.rejection is None),
    {
        self.rejection.is_none()
    }

    fn ok(event: String) -> (out: Outcome)
        ensures
            out.rejection is None,
            out.response@ == messages::ok(),
            out.event == event,
    {
        Outcome { rejection: None, response: messages::ok_text(), event }
    }

    fn refused(why: Rejection, text: String) -> (out: Outcome)
        ensures
            out.rejection == Some(why),
            out.response@ == text@,
            out.event == text,
    {
        Outcome { rejection: Some(why), response: text.clone(), event: text }
    }

    fn unverified(cmd: Command) -> (out: Outcome)
        ensures
            out.rejection == Some(Rejection::ProofInvalid),
            out.response@ == messages::unverified(),
            out.event@ == messages::invalid_receipt(cmd),
    {
        Outcome {
            rejection: Some(Rejection::ProofInvalid),
            response: messages::unverified_text(),
            event: messages::invalid_receipt_text(cmd),
        }
    }
}

impl Game {
    /// The names of the fleets, in the order in which they are stored.
    pub closed spec fn names(&self) -> Seq<Seq<char>> {
        Seq::new(self.players@.len(), |i: int| self.players@[i].name@)
    }

    /// No fleet is stored twice.
    pub closed spec fn well_stored(&self) -> bool {
        self.names().no_duplicates()
    }

    /// The identifier under which the ledger holds the game.
    pub closed spec fn id(&self) -> Seq<char> {
        self.id@
    }

    /// The commitment on record for `fleet`, if it is in the game.
    pub fn player(&self, fleet: &str) -> (found: Option<&Player>)
        requires
            self.well_stored(),
        ensures
            found is Some == self@.players.dom().contains(fleet@),
            found matches Some(p) ==> p.name@ == fleet@ && p.current_state@
                == self@.players[fleet@],
    {
        let name = String::from_str(fleet);
        match self.find_player(&name) {
            Some(i) => {
                proof {
                    self.lemma_player_at(i as int);
                }
                Some(&self.players[i])
            },
            None => None,
        }
    }

    /// How many fleets are in the game.
    pub fn player_count(&self) -> (n: usize)
        requires
            self.well_stored(),
        ensures
            n == self@.players.dom().len(),
            self@.players.dom().finite(),
    {
        proof {
            self.lemma_players_counted();
        }
        self.players.len()
    }

    /// The fleet that may fire, wave or claim victory.
    pub fn next_player(&self) -> (fleet: Option<&String>)
        ensures
            name_at(fleet) == self@.next_player,
    {
        self.next_player.as_ref()
    }

    /// The fleet that must report on the last shot.
    pub fn next_report(&self) -> (fleet: Option<&String>)
        ensures
            name_at(fleet) == self@.next_report,
    {
        self.next_report.as_ref()
    }

    /// The cell of the shot that awaits its report.
    pub fn last_shot_pos(&self) -> (pos: Option<u8>)
        ensures
            pos == self@.last_shot_pos,
    {
        self.last_shot_pos
    }

    /// The fleet that fired last, or that waved since.
    pub fn last_player(&self) -> (fleet: Option<&String>)
        ensures
            name_at(fleet) == self@.last_player,
    {
        self.last_player.as_ref()
    }

    fn find_player(&self, fleet: &String) -> (found: Option<usize>)
        ensures
            match found {
                Some(i) => i < self.players.len() && self.players[i as int].name@ == fleet@,
                None => !self.names().contains(fleet@),
            },
    {
        let mut i: usize = 0;
        while i < self.players.len()
            invariant
                i <= self.players.len(),
                forall|k: int| 0 <= k < i ==> self.players[k].name@ != fleet@,
            decreases self.players.len() - i,
        {
            if self.players[i].name == *fleet {
                return Some(i);
            }
            i += 1;
        }
        assert forall|k: int| 0 <= k < self.names().len() implies self.names()[k] != fleet@ by {
            assert(self.names()[k] == self.players[k].name@);
        }
        None
    }

    /// The fleet stored at `i` is in the view, with its commitment.
    proof fn lemma_player_at(&self, i: int)
        requires
            self.well_stored(),
            0 <= i < self.players.len(),
        ensures
            self@.players.dom().contains(self.players[i].name@),
            self@.players[self.players[i].name@] == self.players[i].current_state@,
            self.names().index_of(self.players[i].name@) == i,
    {
        let names = self.names();
        assert(names[i] == self.players[i].name@);
        assert(names.contains(names[i]));
    }

    /// Replacing the commitment stored at `i` replaces it in the view.
    proof fn lemma_player_set(&self, after: Game, i: int)
        requires
            self.well_stored(),
            0 <= i < self.players.len(),
            after.players.len() == self.players.len(),
            after.players[i].name@ == self.players[i].name@,
            forall|k: int|
                0 <= k < self.players.len() && k != i ==> after.players[k] == self.players[k],
        ensures
            after.well_stored(),
            after.names() == self.names(),
            after@.players == self@.players.insert(
                self.players[i].name@,
                after.players[i].current_state@,
            ),
    {
        assert(after.names() =~= self.names());
        self.lemma_player_at(i);
        let set = self@.players.insert(self.players[i].name@, after.players[i].current_state@);
        assert forall|name: Seq<char>|
            self.names().contains(name) implies #[trigger] after@.players[name] == set[name] by {
            let k = self.names().index_of(name);
            if k != i {
                assert(self.names()[k] == name);
            }
        }
        assert(after@.players =~= set);
    }

    /// Storing one more fleet, of a name that is not in the game, adds it to
    /// the view.
    proof fn lemma_player_pushed(&self, after: Game, p: Player)
        requires
            self.well_stored(),
            !self.names().contains(p.name@),
            after.players@ == self.players@.push(p),
        ensures
            after.well_stored(),
            after@.players == self@.players.insert(p.name@, p.current_state@),
    {
        let before = self.names();
        let names = after.names();
        assert(names =~= before.push(p.name@));
        assert forall|i: int, j: int| 0 <= i < j < names.len() implies names[i] != names[j] by {
            if j < before.len() {
                assert(before[i] != before[j]);
            } else {
                assert(before.contains(before[i]));
            }
        }
        assert forall|name: Seq<char>| names.contains(name) <==> (before.contains(name) || name
            == p.name@) by {
            if before.contains(name) {
                let k = before.index_of(name);
                assert(names[k] == name);
            }
            if name == p.name@ {
                assert(names[before.len() as int] == name);
            }
        }
        assert forall|name: Seq<char>| names.contains(name) implies #[trigger] after@.players[name]
            == self@.players.insert(p.name@, p.current_state@)[name] by {
            let k = names.index_of(name);
            assert(names[k] == name);
            if name != p.name@ {
                let k0 = before.index_of(name);
                assert(before[k0] == name);
                assert(names[k0] == name);
            }
        }
        assert(after@.players =~= self@.players.insert(p.name@, p.current_state@));
    }

    proof fn lemma_players_counted(&self)
        requires
            self.well_stored(),
        ensures
            self@.players.dom().finite(),
            self@.players.dom().len() == self.players.len(),
    {
        let names = self.names();
        assert(self@.players.dom() =~= names.to_set());
        names.unique_seq_to_set();
    }
}

impl View for Game {
    type V = GameState;

    closed spec fn view(&self) -> GameState {
        GameState {
            players: Map::new(
                |name: Seq<char>| self.names().contains(name),
                |name: Seq<char>| self.players@[self.names().index_of(name)].current_state@,
            ),
            next_player: name_of(self.next_player),
            next_report: name_of(self.next_report),
            last_shot_pos: self.last_shot_pos,
            last_player: name_of(self.last_player),
        }
    }
}


impl Ledger {
    /// The identifiers of the games, in the order in which they are stored.
    pub closed spec fn ids(&self) -> Seq<Seq<char>> {
        Seq::new(self.games@.len(), |i: int| self.games@[i].id@)
    }

    /// No game is stored twice, and no fleet twice in a game.
    pub closed spec fn well_stored(&self) -> bool {
        &&& self.ids().no_duplicates()
        &&& forall|i: int| 0 <= i < self.games@.len() ==> (#[trigger] self.games@[i]).well_stored()
    }

    /// The ledger is well stored and its games are coherent.
    pub open spec fn wf(&self) -> bool {
        &&& self.well_stored()
        &&& rules::coherent(self@)
    }

    /// A ledger without games.
    pub fn new() -> (ledger: Ledger)
        ensures
            ledger.wf(),
            ledger@ == Map::<Seq<char>, GameState>::empty(),
    {
        let ledger = Ledger { games: Vec::new() };
        assert(ledger@ =~= Map::<Seq<char>, GameState>::empty());
        ledger
    }

    /// The game `gameid`, if there is one.
    pub fn game(&self, gameid: &str) -> (found: Option<&Game>)
        requires
            self.wf(),
        ensures
            found is Some == self@.dom().contains(gameid@),
            found matches Some(g) ==> g@ == self@[gameid@] && g.id() == gameid@ && g.well_stored(),
    {
        let id = String::from_str(gameid);
        match self.find_game(&id) {
            Some(i) => {
                proof {
                    self.lemma_game_at(i as int);
                }
                Some(&self.games[i])
            },
            None => None,
        }
    }

    /// How many games there are.
    pub fn game_count(&self) -> (n: usize)
        requires
            self.wf(),
        ensures
            n == self@.dom().len(),
            self@.dom().finite(),
    {
        proof {
            let ids = self.ids();
            assert(self@.dom() =~= ids.to_set());
            ids.unique_seq_to_set();
        }
        self.games.len()
    }

    fn find_game(&self, gameid: &String) -> (found: Option<usize>)
        ensures
            match found {
                Some(i) => i < self.games.len() && self.games[i as int].id@ == gameid@,
                None => !self.ids().contains(gameid@),
            },
    {
        let mut i: usize = 0;
        while i < self.games.len()
            invariant
                i <= self.games.len(),
                forall|k: int| 0 <= k < i ==> self.games[k].id@ != gameid@,
            decreases self.games.len() - i,
        {
            if self.games[i].id == *gameid {
                return Some(i);
            }
            i += 1;
        }
        assert forall|k: int| 0 <= k < self.ids().len() implies self.ids()[k] != gameid@ by {
            assert(self.ids()[k] == self.games[k].id@);
        }
        None
    }

    /// The game stored at `i` is in the view.
    proof fn lemma_game_at(&self, i: int)
        requires
            self.well_stored(),
            0 <= i < self.games.len(),
        ensures
            self@.dom().contains(self.games[i].id@),
            self@[self.games[i].id@] == self.games[i]@,
            self.ids().index_of(self.games[i].id@) == i,
            self.games[i].well_stored(),
    {
        let ids = self.ids();
        assert(ids[i] == self.games[i].id@);
        assert(ids.contains(ids[i]));
    }

    /// Replacing the game stored at `i` by one of the same identifier
    /// replaces it in the view.
    proof fn lemma_game_set(&self, after: Ledger, i: int)
        requires
            self.well_stored(),
            0 <= i < self.games.len(),
            after.games.len() == self.games.len(),
            after.games[i].id@ == self.games[i].id@,
            after.games[i].well_stored(),
            forall|k: int| 0 <= k < self.games.len() && k != i ==> after.games[k] == self.games[k],
        ensures
            after.well_stored(),
            after@ == self@.insert(self.games[i].id@, after.games[i]@),
    {
        assert(after.ids() =~= self.ids());
        self.lemma_game_at(i);
        assert forall|k: int| 0 <= k < after.games@.len() implies (
        #[trigger] after.games@[k]).well_stored() by {
            if k != i {
                assert(self.games@[k].well_stored());
            }
        }
        assert forall|id: Seq<char>| self.ids().contains(id) implies #[trigger] after@[id]
            == self@.insert(self.games[i].id@, after.games[i]@)[id] by {
            let k = self.ids().index_of(id);
            if k != i {
                assert(self.ids()[k] == id);
            }
        }
        assert(after@ =~= self@.insert(self.games[i].id@, after.games[i]@));
    }

    /// Storing one more game, of an identifier that is not in use, adds it to
    /// the view.
    proof fn lemma_game_pushed(&self, after: Ledger, g: Game)
        requires
            self.well_stored(),
            g.well_stored(),
            !self.ids().contains(g.id@),
            after.games@ == self.games@.push(g),
        ensures
            after.well_stored(),
            after@ == self@.insert(g.id@, g@),
    {
        let before = self.ids();
        let ids = after.ids();
        assert(ids =~= before.push(g.id@));
        assert forall|i: int, j: int| 0 <= i < j < ids.len() implies ids[i] != ids[j] by {
            if j < before.len() {
                assert(before[i] != before[j]);
            } else {
                assert(before.contains(before[i]));
            }
        }
        assert forall|k: int| 0 <= k < after.games@.len() implies (
        #[trigger] after.games@[k]).well_stored() by {
            if k < self.games@.len() {
                assert(self.games@[k].well_stored());
            }
        }
        assert forall|id: Seq<char>| ids.contains(id) <==> (before.contains(id) || id == g.id@) by {
            if before.contains(id) {
                let k = before.index_of(id);
                assert(ids[k] == id);
            }
            if id == g.id@ {
                assert(ids[before.len() as int] == id);
            }
        }
        assert forall|id: Seq<char>| ids.contains(id) implies #[trigger] after@[id] == self@.insert(
            g.id@,
            g@,
        )[id] by {
            let k = ids.index_of(id);
            assert(ids[k] == id);
            if id != g.id@ {
                let k0 = before.index_of(id);
                assert(before[k0] == id);
                assert(ids[k0] == id);
            }
        }
        assert(after@ =~= self@.insert(g.id@, g@));
    }

    /// Handles a Join request.
    pub fn handle_join(&mut self, journal: Option<BaseJournal>) -> (out: Outcome)
        requires
            old(self).wf(),
        ensures
            final(self).wf(),
            final(self)@ == rules::step(old(self)@, Request::Join(journal)@).games,
            out.reflects(rules::step(old(self)@, Request::Join(journal)@)),
    {
        let data = match journal {
            Some(data) => data,
            None => {
                return Outcome::unverified(Command::Join);
            },
        };
        match self.find_game(&data.gameid) {
            None => {
                let event = messages::joined_text(data.fleet.as_str(), data.gameid.as_str());
                let player = Player { name: data.fleet.clone(), current_state: data.board };
                let mut game = Game {
                    id: data.gameid,
                    players: Vec::new(),
                    next_player: Some(data.fleet),
                    next_report: None,
                    last_shot_pos: None,
                    last_player: None,
                };
                let ghost empty = game;
                game.players.push(player);
                self.games.push(game);
                proof {
                    assert(empty@.players =~= Map::<Seq<char>, Seq<u8>>::empty());
                    empty.lemma_player_pushed(game, player);
                    old(self).lemma_game_pushed(*self, game);
                    lemma_step_keeps_coherent(old(self)@, Request::Join(journal)@);
                }
                Outcome::ok(event)
            },
            Some(gi) => {
                proof {
                    self.lemma_game_at(gi as int);
                }
                match self.games[gi].find_player(&data.fleet) {
                    Some(pi) => {
                        proof {
                            self.games[gi as int].lemma_player_at(pi as int);
                        }
                        Outcome::ok(messages::already_joined_text(data.gameid.as_str()))
                    },
                    None => {
                        let event = messages::joined_text(
                            data.fleet.as_str(),
                            data.gameid.as_str(),
                        );
                        let player = Player { name: data.fleet, current_state: data.board };
                        self.games[gi].players.push(player);
                        proof {
                            old(self).games[gi as int].lemma_player_pushed(
                                self.games[gi as int],
                                player,
                            );
                            old(self).lemma_game_set(*self, gi as int);
                            lemma_step_keeps_coherent(old(self)@, Request::Join(journal)@);
                        }
                        Outcome::ok(event)
                    },
                }
            },
        }
    }

    /// Handles a Fire request.
    pub fn handle_fire(&mut self, journal: Option<FireJournal>) -> (out: Outcome)
        requires
            old(self).wf(),
        ensures
            final(self).wf(),
            final(self)@ == rules::step(old(self)@, Request::Fire(journal)@).games,
            out.reflects(rules::step(old(self)@, Request::Fire(journal)@)),
    {
        let data = match journal {
            Some(data) => data,
            None => {
                return Outcome::unverified(Command::Fire);
            },
        };
        let gi = match self.find_game(&data.gameid) {
            Some(gi) => gi,
            None => {
                return Outcome::refused(
                    Rejection::UnknownGame,
                    messages::game_not_found_text(data.gameid.as_str()),
                );
            },
        };
        proof {
            self.lemma_game_at(gi as int);
        }
        let pi = match self.games[gi].find_player(&data.fleet) {
            Some(pi) => pi,
            None => {
                return Outcome::refused(
                    Rejection::UnknownFleet,
                    messages::firer_not_found_text(data.fleet.as_str(), data.gameid.as_str()),
                );
            },
        };
        proof {
            self.games[gi as int].lemma_player_at(pi as int);
        }
        match &self.games[gi].next_player {
            Some(expected) => {
                if !(*expected == data.fleet) {
                    return Outcome::refused(
                        Rejection::OutOfTurn,
                        messages::not_your_turn_text(
                            data.fleet.as_str(),
                            "fire",
                            data.gameid.as_str(),
                            expected.as_str(),
                        ),
                    );
                }
            },
            None => {
                return Outcome::refused(
                    Rejection::OutOfTurn,
                    messages::awaiting_report_text("fire", data.gameid.as_str()),
                );
            },
        }
        if self.games[gi].players[pi].current_state != data.board {
            return Outcome::refused(
                Rejection::StateMismatch,
                messages::fire_state_mismatch_text(data.fleet.as_str(), data.gameid.as_str()),
            );
        }
        match self.games[gi].find_player(&data.target) {
            Some(ti) => {
                proof {
                    self.games[gi as int].lemma_player_at(ti as int);
                }
            },
            None => {
                return Outcome::refused(
                    Rejection::IllegalTarget,
                    messages::target_not_found_text(data.target.as_str(), data.gameid.as_str()),
                );
            },
        }
        let event = messages::fired_text(
            data.fleet.as_str(),
            data.target.as_str(),
            xy_pos(data.pos).as_str(),
            data.gameid.as_str(),
        );
        self.games[gi].players[pi].current_state = data.board;
        self.games[gi].next_report = Some(data.target);
        self.games[gi].next_player = None;
        self.games[gi].last_player = Some(data.fleet);
        self.games[gi].last_shot_pos = Some(data.pos);
        proof {
            old(self).games[gi as int].lemma_player_set(self.games[gi as int], pi as int);
            old(self).lemma_game_set(*self, gi as int);
            lemma_step_keeps_coherent(old(self)@, Request::Fire(journal)@);
        }
        Outcome::ok(event)
    }

    /// Handles a Wave request.
    pub fn handle_wave(&mut self, journal: Option<BaseJournal>) -> (out: Outcome)
        requires
            old(self).wf(),
        ensures
            final(self).wf(),
            final(self)@ == rules::step(old(self)@, Request::Wave(journal)@).games,
            out.reflects(rules::step(old(self)@, Request::Wave(journal)@)),
    {
        let data = match journal {
            Some(data) => data,
            None => {
                return Outcome::unverified(Command::Wave);
            },
        };
        let gi = match self.find_game(&data.gameid) {
            Some(gi) => gi,
            None => {
                return Outcome::refused(
                    Rejection::UnknownGame,
                    messages::game_not_found_text(data.gameid.as_str()),
                );
            },
        };
        proof {
            self.lemma_game_at(gi as int);
        }
        let pi = match self.games[gi].find_player(&data.fleet) {
            Some(pi) => pi,
            None => {
                return Outcome::refused(
                    Rejection::UnknownFleet,
                    messages::reporter_not_found_text(data.fleet.as_str(), data.gameid.as_str()),
                );
            },
        };
        proof {
            self.games[gi as int].lemma_player_at(pi as int);
        }
        if self.games[gi].players[pi].current_state != data.board {
            return Outcome::refused(
                Rejection::StateMismatch,
                messages::report_state_mismatch_text(data.fleet.as_str(), data.gameid.as_str()),
            );
        }
        match &self.games[gi].next_player {
            Some(expected) => {
                if !(*expected == data.fleet) {
                    return Outcome::refused(
                        Rejection::OutOfTurn,
                        messages::not_your_turn_text(
                            data.fleet.as_str(),
                            "wave",
                            data.gameid.as_str(),
                            expected.as_str(),
                        ),
                    );
                }
            },
            None => {
                return Outcome::refused(
                    Rejection::OutOfTurn,
                    messages::awaiting_report_text("wave", data.gameid.as_str()),
                );
            },
        }
        let last = match &self.games[gi].last_player {
            Some(last) => last.clone(),
            None => {
                return Outcome::refused(
                    Rejection::OutOfTurn,
                    messages::no_last_player_text(data.gameid.as_str()),
                );
            },
        };
        let event = messages::waved_text(data.fleet.as_str(), data.gameid.as_str());
        self.games[gi].next_player = Some(last);
        self.games[gi].last_player = Some(data.fleet);
        proof {
            old(self).lemma_game_set(*self, gi as int);
            lemma_step_keeps_coherent(old(self)@, Request::Wave(journal)@);
        }
        Outcome::ok(event)
    }

    /// Handles a Win request.
    pub fn handle_win(&self, journal: Option<BaseJournal>) -> (out: Outcome)
        requires
            self.wf(),
        ensures
            out.reflects(rules::step(self@, Request::Win(journal)@)),
            rules::step(self@, Request::Win(journal)@).games == self@,
    {
        let data = match journal {
            Some(data) => data,
            None => {
                return Outcome::unverified(Command::Win);
            },
        };
        let gi = match self.find_game(&data.gameid) {
            Some(gi) => gi,
            None => {
                return Outcome::refused(
                    Rejection::UnknownGame,
                    messages::game_not_found_text(data.gameid.as_str()),
                );
            },
        };
        proof {
            self.lemma_game_at(gi as int);
        }
        let pi = match self.games[gi].find_player(&data.fleet) {
            Some(pi) => pi,
            None => {
                return Outcome::refused(
                    Rejection::UnknownFleet,
                    messages::reporter_not_found_text(data.fleet.as_str(), data.gameid.as_str()),
                );
            },
        };
        proof {
            self.games[gi as int].lemma_player_at(pi as int);
        }
        if self.games[gi].players[pi].current_state != data.board {
            return Outcome::refused(
                Rejection::StateMismatch,
                messages::report_state_mismatch_text(data.fleet.as_str(), data.gameid.as_str()),
            );
        }
        Outcome::ok(messages::victory_text(data.fleet.as_str(), data.gameid.as_str()))
    }

    /// Hands a request to the handler of its move.
    pub fn smart_contract(&mut self, request: Request) -> (out: Outcome)
        requires
            old(self).wf(),
        ensures
            final(self).wf(),
            final(self)@ == rules::step(old(self)@, request@).games,
            out.reflects(rules::step(old(self)@, request@)),
    {
        match request {
            Request::Join(journal) => self.handle_join(journal),
            Request::Fire(journal) => self.handle_fire(journal),
            Request::Report(journal) => self.handle_report(journal),
            Request::Wave(journal) => self.handle_wave(journal),
            Request::Win(journal) => self.handle_win(journal),
        }
    }

    /// Handles a Report request.
    pub fn handle_report(&mut self, journal: Option<ReportJournal>) -> (out: Outcome)
        requires
            old(self).wf(),
        ensures
            final(self).wf(),
            final(self)@ == rules::step(old(self)@, Request::Report(journal)@).games,
            out.reflects(rules::step(old(self)@, Request::Report(journal)@)),
    {
        let data = match journal {
            Some(data) => data,
            None => {
                return Outcome::unverified(Command::Report);
            },
        };
        let gi = match self.find_game(&data.gameid) {
            Some(gi) => gi,
            None => {
                return Outcome::refused(
                    Rejection::UnknownGame,
                    messages::game_not_found_text(data.gameid.as_str()),
                );
            },
        };
        proof {
            self.lemma_game_at(gi as int);
        }
        let pi = match self.games[gi].find_player(&data.fleet) {
            Some(pi) => pi,
            None => {
                return Outcome::refused(
                    Rejection::UnknownFleet,
                    messages::reporter_not_found_text(data.fleet.as_str(), data.gameid.as_str()),
                );
            },
        };
        proof {
            self.games[gi as int].lemma_player_at(pi as int);
        }
        match &self.games[gi].next_report {
            None => {
                return Outcome::refused(
                    Rejection::OutOfTurn,
                    messages::no_report_expected_text(data.gameid.as_str()),
                );
            },
            Some(expected) => {
                if !(*expected == data.fleet) {
                    return Outcome::refused(
                        Rejection::OutOfTurn,
                        messages::not_your_turn_text(
                            data.fleet.as_str(),
                            "report",
                            data.gameid.as_str(),
                            expected.as_str(),
                        ),
                    );
                }
            },
        }
        match self.games[gi].last_shot_pos {
            None => {
                return Outcome::refused(
                    Rejection::ReportMismatch,
                    messages::no_last_shot_text(data.fleet.as_str(), data.gameid.as_str()),
                );
            },
            Some(last) => {
                if last != data.pos {
                    return Outcome::refused(
                        Rejection::ReportMismatch,
                        messages::shot_mismatch_text(
                            xy_pos(last).as_str(),
                            xy_pos(data.pos).as_str(),
                            data.fleet.as_str(),
                            data.gameid.as_str(),
                        ),
                    );
                }
            },
        }
        if self.games[gi].players[pi].current_state != data.board {
            return Outcome::refused(
                Rejection::StateMismatch,
                messages::report_state_mismatch_text(data.fleet.as_str(), data.gameid.as_str()),
            );
        }
        let event = messages::reported_text(
            data.fleet.as_str(),
            data.report.as_str(),
            xy_pos(data.pos).as_str(),
            data.gameid.as_str(),
        );
        self.games[gi].players[pi].current_state = data.next_board;
        self.games[gi].next_player = Some(data.fleet);
        self.games[gi].next_report = None;
        self.games[gi].last_shot_pos = None;
        proof {
            old(self).games[gi as int].lemma_player_set(self.games[gi as int], pi as int);
            old(self).lemma_game_set(*self, gi as int);
            lemma_step_keeps_coherent(old(self)@, Request::Report(journal)@);
        }
        Outcome::ok(event)
    }
}

impl Default for Ledger {
    /// A ledger without games.
    fn default() -> (ledger: Ledger)
        ensures
            ledger.wf(),
            ledger@ == Map::<Seq<char>, GameState>::empty(),
    {
        Ledger::new()
    }
}

impl View for Ledger {
    type V = Map<Seq<char>, GameState>;

    closed spec fn view(&self) -> Map<Seq<char>, GameState> {
        Map::new(
            |id: Seq<char>| self.ids().contains(id),
            |id: Seq<char>| self.games@[self.ids().index_of(id)]@,
        )
    }
}

} // verus!
