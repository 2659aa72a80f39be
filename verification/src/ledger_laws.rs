//! What holds of the games whatever requests the ledger is sent.

use vstd::prelude::*;
use crate::journal::{BaseRecord, FireRecord, ReportRecord};
use crate::rules::{
    after, coherent, events, fire, join, mover, recorded, report, step, wave, GameState,
    RequestRecord,
};

verus! {

/// Handling a request keeps the games coherent.
pub proof fn lemma_step_keeps_coherent(games: Map<Seq<char>, GameState>, request: RequestRecord)
    requires
        coherent(games),
    ensures
        coherent(step(games, request).games),
{
}

/// Between requests exactly one of the two is set in every game: the fleet
/// that holds the turn, or the fleet that owes a report.
pub proof fn lemma_turn_is_exclusive(
    games: Map<Seq<char>, GameState>,
    request: RequestRecord,
    id: Seq<char>,
)
    requires
        coherent(games),
        step(games, request).games.dom().contains(id),
    ensures
        (step(games, request).games[id].next_player is Some) != (step(
            games,
            request,
        ).games[id].next_report is Some),
{
    lemma_step_keeps_coherent(games, request);
}

/// A shot is on record exactly while a report is owed.
pub proof fn lemma_shot_awaits_report(
    games: Map<Seq<char>, GameState>,
    request: RequestRecord,
    id: Seq<char>,
)
    requires
        coherent(games),
        step(games, request).games.dom().contains(id),
    ensures
        (step(games, request).games[id].last_shot_pos is Some) == (step(
            games,
            request,
        ).games[id].next_report is Some),
{
    lemma_step_keeps_coherent(games, request);
}

/// A Fire, Report, Wave or Win is accepted only from the commitment that was
/// on record for the fleet just before.
pub proof fn lemma_accepted_move_continues_chain(
    games: Map<Seq<char>, GameState>,
    request: RequestRecord,
)
    requires
        step(games, request).rejection is None,
        !(request is Join),
    ensures
        mover(request) matches Some(m) && games.dom().contains(m.gameid)
            && games[m.gameid].players.dom().contains(m.fleet)
            && games[m.gameid].players[m.fleet] == m.board,
{
}

/// A Fire is accepted only at a fleet of the same game, which then owes the
/// report on the cell fired at.
pub proof fn lemma_accepted_fire_awaits_report(games: Map<Seq<char>, GameState>, j: FireRecord)
    requires
        fire(games, j).rejection is None,
    ensures
        games[j.gameid].players.dom().contains(j.target),
        fire(games, j).games[j.gameid].next_report == Some(j.target),
        fire(games, j).games[j.gameid].last_shot_pos == Some(j.pos),
        fire(games, j).games[j.gameid].last_player == Some(j.fleet),
        fire(games, j).games[j.gameid].next_player is None,
{
}

/// A Report is accepted only from the fleet that owes it and only on the
/// cell fired at; the turn then is the reporter's.
pub proof fn lemma_accepted_report_answers_shot(
    games: Map<Seq<char>, GameState>,
    j: ReportRecord,
)
    requires
        report(games, j).rejection is None,
    ensures
        games[j.gameid].next_report == Some(j.fleet),
        games[j.gameid].last_shot_pos == Some(j.pos),
        report(games, j).games[j.gameid].next_player == Some(j.fleet),
        report(games, j).games[j.gameid].next_report is None,
{
}

/// A Wave is accepted only from the fleet that holds the turn, and hands
/// the turn to the fleet that moved last before it.
pub proof fn lemma_accepted_wave_hands_turn_back(games: Map<Seq<char>, GameState>, j: BaseRecord)
    requires
        wave(games, j).rejection is None,
    ensures
        games[j.gameid].next_player == Some(j.fleet),
        games[j.gameid].last_player is Some,
        wave(games, j).games[j.gameid].next_player == games[j.gameid].last_player,
        wave(games, j).games[j.gameid].last_player == Some(j.fleet),
{
}

/// Once a request is accepted, the commitment on record for its fleet is the
/// one that the request establishes. The one exception is a Join of a fleet
/// that was in the game already, which leaves the record as it was.
pub proof fn lemma_record_follows_accepted_move(
    games: Map<Seq<char>, GameState>,
    request: RequestRecord,
)
    requires
        step(games, request).rejection is None,
    ensures
        mover(request) matches Some(m) && ({
            let after = step(games, request).games;
            &&& after.dom().contains(m.gameid)
            &&& after[m.gameid].players.dom().contains(m.fleet)
            &&& after[m.gameid].players[m.fleet] == if request is Join && games.dom().contains(
                m.gameid,
            ) && games[m.gameid].players.dom().contains(m.fleet) {
                games[m.gameid].players[m.fleet]
            } else {
                recorded(request)
            }
        }),
{
}

/// A second Join of a fleet to a game, whatever board it commits to, leaves
/// the games as the first Join left them.
pub proof fn lemma_join_is_idempotent(
    games: Map<Seq<char>, GameState>,
    first: BaseRecord,
    again: BaseRecord,
)
    requires
        again.gameid == first.gameid,
        again.fleet == first.fleet,
    ensures
        join(join(games, first).games, again).games == join(games, first).games,
        join(join(games, first).games, again).rejection is None,
{
}

/// A request that is turned down leaves the games as they were.
pub proof fn lemma_rejection_changes_nothing(
    games: Map<Seq<char>, GameState>,
    request: RequestRecord,
)
    requires
        step(games, request).rejection is Some,
    ensures
        step(games, request).games == games,
{
}

/// A request touches no game but its own, and in that game the commitment
/// of no fleet but its own.
pub proof fn lemma_step_is_local(
    games: Map<Seq<char>, GameState>,
    request: RequestRecord,
    id: Seq<char>,
    fleet: Seq<char>,
)
    requires
        games.dom().contains(id),
    ensures
        step(games, request).games.dom().contains(id),
        mover(request) is None || mover(request)->0.gameid != id ==> step(games, request).games[id]
            == games[id],
        games[id].players.dom().contains(fleet) ==> step(
            games,
            request,
        ).games[id].players.dom().contains(fleet),
        games[id].players.dom().contains(fleet) && (mover(request) is None || mover(
            request,
        )->0.fleet != fleet) ==> step(games, request).games[id].players[fleet]
            == games[id].players[fleet],
{
}

/// Whatever requests a ledger has handled since it was empty, its games are
/// coherent.
pub proof fn lemma_history_is_coherent(requests: Seq<RequestRecord>)
    ensures
        coherent(after(Map::empty(), requests)),
    decreases requests.len(),
{
    if requests.len() > 0 {
        lemma_history_is_coherent(requests.drop_last());
        lemma_step_keeps_coherent(after(Map::empty(), requests.drop_last()), requests.last());
    }
}

/// The `k`-th event of a run is the event of the `k`-th request, handled in
/// the games that the requests before it have left.
pub proof fn lemma_events_follow_requests(
    games: Map<Seq<char>, GameState>,
    requests: Seq<RequestRecord>,
    k: int,
)
    requires
        0 <= k < requests.len(),
    ensures
        events(games, requests).len() == requests.len(),
        events(games, requests)[k] == step(after(games, requests.take(k)), requests[k]).event,
    decreases requests.len(),
{
    let front = requests.drop_last();
    lemma_events_len(games, front);
    if k < requests.len() - 1 {
        lemma_events_follow_requests(games, front, k);
        assert(front.take(k) =~= requests.take(k));
    } else {
        assert(requests.take(k) =~= front);
    }
}

/// A run has as many events as requests.
pub proof fn lemma_events_len(games: Map<Seq<char>, GameState>, requests: Seq<RequestRecord>)
    ensures
        events(games, requests).len() == requests.len(),
    decreases requests.len(),
{
    if requests.len() > 0 {
        lemma_events_len(games, requests.drop_last());
    }
}

/// In any run of requests, a Fire, Report, Wave or Win that is accepted was
/// made from the commitment that the requests before it had left on record
/// for the fleet.
pub proof fn lemma_history_continues_chain(
    games: Map<Seq<char>, GameState>,
    requests: Seq<RequestRecord>,
    k: int,
)
    requires
        0 <= k < requests.len(),
        !(requests[k] is Join),
        step(after(games, requests.take(k)), requests[k]).rejection is None,
    ensures
        mover(requests[k]) matches Some(m) && ({
            let before = after(games, requests.take(k));
            &&& before.dom().contains(m.gameid)
            &&& before[m.gameid].players.dom().contains(m.fleet)
            &&& before[m.gameid].players[m.fleet] == m.board
        }),
{
    lemma_accepted_move_continues_chain(after(games, requests.take(k)), requests[k]);
}

} // verus!
