//! The five moves. Each takes a player's private inputs, checks what the
//! move demands of them, and gives the journal to publish: the board appears
//! in it only as a commitment.
//!
//! A move whose demands are not met has no journal; the demands are the
//! functions' preconditions.

use vstd::prelude::*;
use vstd::string::*;
use crate::commitment::{commit, commitment, preimage};
use crate::fleet::accepted_fleet;
use crate::journal::{
    BaseInputs, BaseJournal, BaseRecord, FireInputs, FireJournal, FireRecord, ReportJournal,
    ReportRecord,
};

verus! {

/// The cells that a shot at `pos` spares.
pub open spec fn spared(pos: u8) -> spec_fn(u8) -> bool {
    |cell: u8| cell != pos
}

/// The board after a shot at `pos`: the cells other than `pos`, in their
/// order.
pub open spec fn after_shot(board: Seq<u8>, pos: u8) -> Seq<u8> {
    board.filter(spared(pos))
}

/// The word that reports a shot at `pos` on `board`.
pub open spec fn verdict(board: Seq<u8>, pos: u8) -> Seq<char> {
    if board.contains(pos) {
        "Hit"@
    } else {
        "Miss"@
    }
}

/// The board after a shot, cell by cell from the last.
proof fn lemma_after_shot_unfolds(board: Seq<u8>, pos: u8)
    requires
        board.len() > 0,
    ensures
        after_shot(board, pos) == if board.last() != pos {
            after_shot(board.drop_last(), pos).push(board.last())
        } else {
            after_shot(board.drop_last(), pos)
        },
{
    reveal_with_fuel(Seq::filter, 2);
}

/// A shot that misses leaves the board as it is.
pub proof fn lemma_miss_keeps_board(board: Seq<u8>, pos: u8)
    requires
        !board.contains(pos),
    ensures
        after_shot(board, pos) == board,
    decreases board.len(),
{
    if board.len() > 0 {
        let front = board.drop_last();
        assert forall|i: int| 0 <= i < front.len() implies front[i] != pos by {
            assert(board[i] == front[i]);
        }
        lemma_miss_keeps_board(front, pos);
        lemma_after_shot_unfolds(board, pos);
        assert(board.last() == board[board.len() - 1]);
        assert(front.push(board.last()) =~= board);
    }
}

/// A shot that hits leaves fewer cells, none of them the cell hit.
pub proof fn lemma_hit_shrinks_board(board: Seq<u8>, pos: u8)
    requires
        board.contains(pos),
    ensures
        after_shot(board, pos).len() < board.len(),
        !after_shot(board, pos).contains(pos),
    decreases board.len(),
{
    let front = board.drop_last();
    front.lemma_filter_len(spared(pos));
    lemma_after_shot_unfolds(board, pos);
    if board.last() != pos {
        let i = choose|i: int| 0 <= i < board.len() && board[i] == pos;
        assert(front[i] == pos);
        lemma_hit_shrinks_board(front, pos);
    }
    let after = after_shot(board, pos);
    assert forall|i: int| 0 <= i < after.len() implies after[i] != pos by {
        board.lemma_filter_pred(spared(pos), i);
    }
}

/// Whether a shot at `pos` hits the board.
pub fn is_hit(board: &[u8], pos: u8) -> (hit: bool)
    ensures
        hit == board@.contains(pos),
{
    let mut i: usize = 0;
    while i < board.len()
        invariant
            i <= board.len(),
            forall|k: int| 0 <= k < i ==> board[k] != pos,
        decreases board.len() - i,
    {
        if board[i] == pos {
            return true;
        }
        i += 1;
    }
    false
}

/// The board after a shot at `pos`.
pub fn board_after_shot(board: &[u8], pos: u8) -> (next: Vec<u8>)
    ensures
        next@ == after_shot(board@, pos),
{
    let mut next: Vec<u8> = Vec::new();
    let mut i: usize = 0;
    while i < board.len()
        invariant
            i <= board.len(),
            next@ == after_shot(board@.take(i as int), pos),
        decreases board.len() - i,
    {
        proof {
            assert(board@.take(i + 1).drop_last() =~= board@.take(i as int));
            lemma_after_shot_unfolds(board@.take(i + 1), pos);
        }
        if board[i] != pos {
            next.push(board[i]);
        }
        i += 1;
    }
    proof {
        assert(board@.take(i as int) =~= board@);
    }
    next
}

/// Join: enters a game with a fleet. The layout must be one that is
/// accepted as a fleet; `debug` admits the three-cell layouts as well.
pub fn join(input: BaseInputs, debug: bool) -> (journal: BaseJournal)
    requires
        accepted_fleet(input.board@, debug),
    ensures
        journal@ == (BaseRecord {
            gameid: input.gameid@,
            fleet: input.fleet@,
            board: commitment(input.random@, input.board@),
        }),
{
    let board = commit(input.random.as_str(), input.board.as_slice());
    BaseJournal { gameid: input.gameid, fleet: input.fleet, board }
}

/// Fire: announces a shot at the cell `pos` of the fleet `target`. The cell
/// must be on the grid, the firer must have a cell afloat, and the target
/// must be another fleet.
pub fn fire(input: FireInputs) -> (journal: FireJournal)
    requires
        input.pos < 100,
        input.board@.len() > 0,
        input.fleet@ != input.target@,
    ensures
        journal@ == (FireRecord {
            gameid: input.gameid@,
            fleet: input.fleet@,
            board: commitment(input.random@, input.board@),
            target: input.target@,
            pos: input.pos,
        }),
        journal.pos < 100,
        journal.target@ != journal.fleet@,
{
    let board = commit(input.random.as_str(), input.board.as_slice());
    FireJournal {
        gameid: input.gameid,
        fleet: input.fleet,
        board,
        target: input.target,
        pos: input.pos,
    }
}

/// Report: answers a shot at the cell `pos`, which must be on the grid. The
/// shot is a hit exactly if the cell is on the board; the board after it is
/// the board without that cell. The journal commits to both boards, so the
/// word and the new commitment cannot disagree.
pub fn report(input: FireInputs) -> (journal: ReportJournal)
    requires
        input.pos < 100,
    ensures
        journal@ == (ReportRecord {
            gameid: input.gameid@,
            fleet: input.fleet@,
            report: verdict(input.board@, input.pos),
            pos: input.pos,
            board: commitment(input.random@, input.board@),
            next_board: commitment(input.random@, after_shot(input.board@, input.pos)),
        }),
        !input.board@.contains(input.pos) ==> journal.next_board == journal.board,
        input.board@.contains(input.pos) ==> preimage(
            input.random@,
            after_shot(input.board@, input.pos),
        ) != preimage(input.random@, input.board@),
{
    let hit = is_hit(input.board.as_slice(), input.pos);
    let next = board_after_shot(input.board.as_slice(), input.pos);
    let word = if hit {
        String::from_str("Hit")
    } else {
        String::from_str("Miss")
    };
    let board = commit(input.random.as_str(), input.board.as_slice());
    let next_board = commit(input.random.as_str(), next.as_slice());
    proof {
        if hit {
            lemma_hit_shrinks_board(input.board@, input.pos);
            assert(preimage(input.random@, next@).len() != preimage(
                input.random@,
                input.board@,
            ).len());
        } else {
            lemma_miss_keeps_board(input.board@, input.pos);
            assert(next_board.bytes@ == board.bytes@);
            assert(next_board.bytes =~= board.bytes);
        }
    }
    ReportJournal {
        gameid: input.gameid,
        fleet: input.fleet,
        report: word,
        pos: input.pos,
        board,
        next_board,
    }
}

/// Wave: passes the turn. The journal commits to the board as it is.
pub fn wave(input: BaseInputs) -> (journal: BaseJournal)
    ensures
        journal@ == (BaseRecord {
            gameid: input.gameid@,
            fleet: input.fleet@,
            board: commitment(input.random@, input.board@),
        }),
{
    let board = commit(input.random.as_str(), input.board.as_slice());
    BaseJournal { gameid: input.gameid, fleet: input.fleet, board }
}

/// Win: claims victory. The claimant must have a cell afloat.
pub fn win(input: BaseInputs) -> (journal: BaseJournal)
    requires
        input.board@.len() > 0,
    ensures
        journal@ == (BaseRecord {
            gameid: input.gameid@,
            fleet: input.fleet@,
            board: commitment(input.random@, input.board@),
        }),
{
    let board = commit(input.random.as_str(), input.board.as_slice());
    BaseJournal { gameid: input.gameid, fleet: input.fleet, board }
}

} // verus!
