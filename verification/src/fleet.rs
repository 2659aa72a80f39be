//! Fleet layouts. A layout is a legal fleet when its 18 cells fall into
//! seven ships: one of five cells, one of four, one of three, two of two and
//! two of one.
//!
//! The ships are read off the grid from the first cell to the last, row by
//! row. A cell that no ship has taken starts a ship. The ship runs east
//! along its row for as long as it finds cells that no ship has taken; a
//! ship that found none to the east runs south down its column instead.

use vstd::prelude::*;
use vstd::multiset::Multiset;

verus! {

/// A straight run of cells: `len` cells from `start`, to the east along the
/// row or to the south down the column.
pub struct Ship {
    pub start: int,
    pub len: nat,
    pub vertical: bool,
}

impl Ship {
    /// The `k`-th cell of the ship, counted from 0.
    pub open spec fn cell(self, k: int) -> int {
        if self.vertical {
            self.start + 10 * k
        } else {
            self.start + k
        }
    }

    /// Whether `c` is one of the ship's cells.
    pub open spec fn covers(self, c: int) -> bool {
        exists|k: int| 0 <= k < self.len && c == #[trigger] self.cell(k)
    }

    /// The ship's cells.
    pub open spec fn cells(self) -> Set<int> {
        Set::new(|c: int| self.covers(c))
    }

    /// The ship has a cell, lies on the grid and, if it runs east, stays in
    /// its row.
    pub open spec fn on_grid(self) -> bool {
        &&& self.len >= 1
        &&& 0 <= self.start
        &&& self.cell(self.len - 1) < 100
        &&& !self.vertical ==> self.start / 10 == self.cell(self.len - 1) / 10
    }
}

/// The cells that a board occupies.
pub open spec fn cells_of(board: Seq<u8>) -> Set<int> {
    Set::new(|c: int| exists|i: int| 0 <= i < board.len() && #[trigger] board[i] as int == c)
}

/// Whether `c` is an occupied cell of the grid that no ship has taken yet.
pub open spec fn afloat(cells: Set<int>, taken: Set<int>, c: int) -> bool {
    0 <= c < 100 && cells.contains(c) && !taken.contains(c)
}

/// How many cells from `c` eastwards are afloat and in the row `row`, up to
/// the first that is not.
pub open spec fn run_east(cells: Set<int>, taken: Set<int>, c: int, row: int) -> nat
    decreases 100 - c,
{
    if afloat(cells, taken, c) && c / 10 == row {
        1 + run_east(cells, taken, c + 1, row)
    } else {
        0
    }
}

/// How many cells from `c` southwards are afloat, up to the first that is
/// not.
pub open spec fn run_south(cells: Set<int>, taken: Set<int>, c: int) -> nat
    decreases 110 - c,
{
    if afloat(cells, taken, c) {
        1 + run_south(cells, taken, c + 10)
    } else {
        0
    }
}

/// The ship that starts at the cell `c`: it runs east as far as cells are
/// afloat in the row; if it got no further than `c` that way, it runs south
/// instead.
pub open spec fn ship_from(cells: Set<int>, taken: Set<int>, c: int) -> Ship {
    let east = run_east(cells, taken, c + 1, c / 10);
    if east > 0 {
        Ship { start: c, len: east + 1, vertical: false }
    } else {
        Ship { start: c, len: run_south(cells, taken, c + 10) + 1, vertical: true }
    }
}

/// The ships that are found from the cell `c` on, in the order of their
/// first cells: each cell afloat starts a ship, which takes its cells.
pub open spec fn ships_from(cells: Set<int>, taken: Set<int>, c: int) -> Seq<Ship>
    decreases 100 - c,
{
    if c < 0 || c >= 100 {
        Seq::empty()
    } else if afloat(cells, taken, c) {
        let ship = ship_from(cells, taken, c);
        seq![ship] + ships_from(cells, taken.union(ship.cells()), c + 1)
    } else {
        ships_from(cells, taken, c + 1)
    }
}

/// The ships that a set of cells falls into.
pub open spec fn ships_of(cells: Set<int>) -> Seq<Ship> {
    ships_from(cells, Set::empty(), 0)
}

/// The lengths of some ships, each as often as a ship has it.
pub open spec fn sizes(ships: Seq<Ship>) -> Multiset<nat>
    decreases ships.len(),
{
    if ships.len() == 0 {
        Multiset::empty()
    } else {
        sizes(ships.drop_first()).insert(ships[0].len)
    }
}

/// The lengths of the ships of a fleet: 5, 4, 3, 2, 2, 1, 1.
pub open spec fn fleet_sizes() -> Multiset<nat> {
    Multiset::empty().insert(1nat).insert(1nat).insert(2nat).insert(2nat).insert(3nat).insert(
        4nat,
    ).insert(5nat)
}

/// Every cell of the board is on the grid and none is named twice.
pub open spec fn on_grid_once(board: Seq<u8>) -> bool {
    &&& forall|i: int| 0 <= i < board.len() ==> board[i] <= 99
    &&& board.no_duplicates()
}

/// The rule for a fleet: 18 cells of the grid, each named once, that fall
/// into ships of the lengths of a fleet.
pub open spec fn valid_fleet(board: Seq<u8>) -> bool {
    &&& board.len() == 18
    &&& on_grid_once(board)
    &&& sizes(ships_of(cells_of(board))) == fleet_sizes()
}

/// The permissive rule for debugging: three cells of the grid, each named
/// once, that are one ship.
pub open spec fn debug_fleet(board: Seq<u8>) -> bool {
    &&& board.len() == 3
    &&& on_grid_once(board)
    &&& exists|s: Ship| #[trigger] s.on_grid() && s.len == 3 && s.cells() == cells_of(board)
}

/// The boards that are accepted as fleets: the legal ones and, only where
/// `debug` is set, also those of the rule for debugging.
pub open spec fn accepted_fleet(board: Seq<u8>, debug: bool) -> bool {
    valid_fleet(board) || (debug && debug_fleet(board))
}

/// The cells that a table of the grid marks.
pub open spec fn marked(table: [bool; 100]) -> Set<int> {
    Set::new(|c: int| 0 <= c < 100 && table@[c])
}

/// Marks the cells of a board in a table of the grid. There is no table for
/// a board that names a cell off the grid, or a cell twice.
fn occupancy(board: &[u8]) -> (table: Option<[bool; 100]>)
    ensures
        table is Some == on_grid_once(board@),
        table matches Some(t) ==> marked(t) == cells_of(board@),
{
    let mut table = [false; 100];
    let mut i: usize = 0;
    while i < board.len()
        invariant
            i <= board.len(),
            forall|k: int| 0 <= k < i ==> board[k] <= 99,
            forall|k: int, l: int| 0 <= k < l < i ==> board[k] != board[l],
            forall|c: int|
                0 <= c < 100 ==> (table@[c] <==> exists|k: int|
                    0 <= k < i && #[trigger] board[k] as int == c),
        decreases board.len() - i,
    {
        let pos = board[i];
        if pos > 99 {
            return None;
        }
        if table[pos as usize] {
            proof {
                let k = choose|k: int| 0 <= k < i && #[trigger] board[k] as int == pos as int;
                assert(board@[k] == board@[i as int]);
            }
            return None;
        }
        table[pos as usize] = true;
        i += 1;
    }
    proof {
        assert(marked(table) =~= cells_of(board@));
    }
    Some(table)
}

/// A run to the east that is afloat up to `to` goes on from there.
pub proof fn lemma_run_east_from(cells: Set<int>, taken: Set<int>, from: int, to: int, row: int)
    requires
        from <= to,
        forall|k: int| from <= k < to ==> afloat(cells, taken, k) && k / 10 == row,
    ensures
        run_east(cells, taken, from, row) == (to - from) + run_east(cells, taken, to, row),
    decreases to - from,
{
    if from < to {
        lemma_run_east_from(cells, taken, from + 1, to, row);
    }
}

/// The cell `j` rows south of `c`.
pub open spec fn south(c: int, j: int) -> int {
    c + 10 * j
}

/// A run to the south that is afloat for `n` cells goes on from there.
pub proof fn lemma_run_south_from(cells: Set<int>, taken: Set<int>, from: int, n: int)
    requires
        0 <= n,
        forall|j: int| 0 <= j < n ==> afloat(cells, taken, #[trigger] south(from, j)),
    ensures
        run_south(cells, taken, from) == n + run_south(cells, taken, south(from, n)),
    decreases n,
{
    if 0 < n {
        assert(afloat(cells, taken, south(from, 0)));
        assert forall|j: int| 0 <= j < n - 1 implies afloat(
            cells,
            taken,
            #[trigger] south(from + 10, j),
        ) by {
            assert(afloat(cells, taken, south(from, j + 1)));
        }
        lemma_run_south_from(cells, taken, from + 10, n - 1);
        assert(south(from + 10, n - 1) == south(from, n));
    }
}

/// Takes the ship that starts at `c` and tells its length.
fn take_ship(occupied: &[bool; 100], taken: &mut [bool; 100], c: usize) -> (len: usize)
    requires
        afloat(marked(*occupied), marked(*old(taken)), c as int),
    ensures
        len == ship_from(marked(*occupied), marked(*old(taken)), c as int).len,
        1 <= len <= 10,
        marked(*final(taken)) == marked(*old(taken)).union(
            ship_from(marked(*occupied), marked(*old(taken)), c as int).cells(),
        ),
{
    let ghost cells = marked(*occupied);
    let ghost before = marked(*taken);
    let row = c / 10;
    taken[c] = true;
    let mut len: usize = 1;
    let mut next: usize = c + 1;
    while next < 100 && next / 10 == row && occupied[next] && !taken[next]
        invariant
            c < 100,
            row == c / 10,
            cells == marked(*occupied),
            before == marked(*old(taken)),
            next == c + len,
            1 <= len <= 10,
            next <= 100,
            forall|k: int| c < k < next ==> afloat(cells, before, k) && k / 10 == row,
            forall|k: int|
                #![trigger taken@[k]]
                0 <= k < 100 ==> (taken@[k] <==> before.contains(k) || c <= k < next),
        decreases 100 - next,
    {
        taken[next] = true;
        len += 1;
        next += 1;
    }
    proof {
        lemma_run_east_from(cells, before, c + 1, next as int, row as int);
        assert(!(afloat(cells, before, next as int) && next as int / 10 == row));
        assert(run_east(cells, before, c + 1, row as int) == len - 1);
    }
    if len == 1 {
        next = c + 10;
        proof {
            assert(south(c as int, 0) == c);
        }
        while next < 100 && occupied[next] && !taken[next]
            invariant
                c < 100,
                cells == marked(*occupied),
                before == marked(*old(taken)),
                next == c + 10 * len,
                1 <= len <= 10,
                forall|j: int|
                    1 <= j < len ==> afloat(cells, before, #[trigger] south(c as int, j)),
                forall|k: int|
                    #![trigger taken@[k]]
                    0 <= k < 100 ==> (taken@[k] <==> before.contains(k) || exists|j: int|
                        0 <= j < len && k == #[trigger] south(c as int, j)),
            decreases 110 - next,
        {
            let ghost marks = taken@;
            taken[next] = true;
            len += 1;
            next += 10;
            proof {
                assert(taken@ == marks.update(next - 10, true));
                assert forall|k: int| 0 <= k < 100 implies (taken@[k] <==> before.contains(k)
                    || exists|j: int| 0 <= j < len && k == #[trigger] south(c as int, j)) by {
                    if k == next - 10 {
                        assert(k == south(c as int, len - 1));
                    } else if marks[k] && !before.contains(k) {
                        let j = choose|j: int|
                            0 <= j < len - 1 && k == #[trigger] south(c as int, j);
                        assert(0 <= j < len && k == south(c as int, j));
                    }
                }
            }
        }
        proof {
            assert forall|j: int| 0 <= j < len - 1 implies afloat(
                cells,
                before,
                #[trigger] south(c + 10, j),
            ) by {
                assert(afloat(cells, before, south(c as int, j + 1)));
            }
            lemma_run_south_from(cells, before, c + 10, len - 1);
            assert(south(c + 10, len - 1) == next);
            assert(!afloat(cells, before, next as int)) by {
                if next < 100 && !before.contains(next as int) && cells.contains(next as int) {
                    assert(taken@[next as int]);
                    let j = choose|j: int|
                        0 <= j < len && next as int == #[trigger] south(c as int, j);
                    assert(false);
                }
            }
            let ship = ship_from(cells, before, c as int);
            assert(ship == Ship { start: c as int, len: len as nat, vertical: true });
            assert forall|k: int| marked(*taken).contains(k) <==> before.union(
                ship.cells(),
            ).contains(k) by {
                if ship.covers(k) {
                    let j = choose|j: int| 0 <= j < ship.len && k == #[trigger] ship.cell(j);
                    assert(k == south(c as int, j));
                    if j > 0 {
                        assert(afloat(cells, before, south(c as int, j)));
                    }
                }
                if 0 <= k < 100 && taken@[k] && !before.contains(k) {
                    let j = choose|j: int| 0 <= j < len && k == #[trigger] south(c as int, j);
                    assert(k == ship.cell(j));
                }
            }
            assert(marked(*taken) =~= before.union(ship.cells()));
        }
    } else {
        proof {
            let ship = ship_from(cells, before, c as int);
            assert(ship == Ship { start: c as int, len: len as nat, vertical: false });
            assert forall|k: int| marked(*taken).contains(k) implies before.union(
                ship.cells(),
            ).contains(k) by {
                if !before.contains(k) {
                    assert(k == ship.cell(k - c));
                    assert(ship.covers(k));
                }
            }
            assert forall|k: int| before.union(ship.cells()).contains(k) implies marked(
                *taken,
            ).contains(k) by {
                if ship.covers(k) {
                    let j = choose|j: int| 0 <= j < ship.len && k == #[trigger] ship.cell(j);
                    assert(c <= k < next);
                    assert(taken@[k]);
                } else {
                    assert(taken@[k]);
                }
            }
            assert(marked(*taken) =~= before.union(ship.cells()));
        }
    }
    len
}

/// The lengths of a ship and of the ships after it.
pub proof fn lemma_sizes_of_first_and_rest(ship: Ship, rest: Seq<Ship>)
    ensures
        sizes(seq![ship] + rest) == sizes(rest).insert(ship.len),
{
    assert((seq![ship] + rest).drop_first() =~= rest);
}

/// How often each length occurs among the ships of a fleet.
proof fn lemma_fleet_sizes_counted()
    ensures
        fleet_sizes().count(1) == 2,
        fleet_sizes().count(2) == 2,
        fleet_sizes().count(3) == 1,
        fleet_sizes().count(4) == 1,
        fleet_sizes().count(5) == 1,
        forall|v: nat| !(1 <= v <= 5) ==> fleet_sizes().count(v) == 0,
{
}

/// Whether a board is a legal fleet: 18 cells of the grid, each named once,
/// that fall into ships of five, four and three cells, two ships of two and
/// two of one.
pub fn is_valid_fleet(board: &[u8]) -> (ok: bool)
    ensures
        ok == valid_fleet(board@),
{
    if board.len() != 18 {
        return false;
    }
    let occupied = match occupancy(board) {
        Some(table) => table,
        None => {
            return false;
        },
    };
    let ghost cells = cells_of(board@);
    let ghost mut found: Multiset<nat> = Multiset::empty();
    let mut taken = [false; 100];
    // tally[n] counts the ships of n cells, tally[0] those of more than five
    let mut tally = [0usize; 6];
    let mut c: usize = 0;
    proof {
        assert(marked(taken) =~= Set::<int>::empty());
        assert(found.add(sizes(ships_of(cells))) =~= sizes(ships_of(cells)));
    }
    while c < 100
        invariant
            c <= 100,
            marked(occupied) == cells,
            found.add(sizes(ships_from(cells, marked(taken), c as int))) == sizes(ships_of(cells)),
            forall|v: nat| 1 <= v <= 5 ==> tally@[v as int] == #[trigger] found.count(v),
            tally@[0] == 0 ==> forall|v: nat| !(1 <= v <= 5) ==> #[trigger] found.count(v) == 0,
            tally@[0] > 0 ==> exists|v: nat| !(1 <= v <= 5) && #[trigger] found.count(v) > 0,
            forall|i: int| 0 <= i < 6 ==> #[trigger] tally@[i] <= c,
        decreases 100 - c,
    {
        if occupied[c] && !taken[c] {
            let ghost before = marked(taken);
            let ghost earlier = found;
            let len = take_ship(&occupied, &mut taken, c);
            let slot = if len <= 5 {
                len
            } else {
                0
            };
            tally[slot] = tally[slot] + 1;
            proof {
                let ship = ship_from(cells, before, c as int);
                let rest = ships_from(cells, before.union(ship.cells()), c + 1);
                lemma_sizes_of_first_and_rest(ship, rest);
                found = earlier.insert(ship.len);
                assert(found.add(sizes(rest)) =~= earlier.add(sizes(rest).insert(ship.len)));
                if len > 5 {
                    assert(found.count(len as nat) > 0);
                } else if tally@[0] > 0 {
                    let v = choose|v: nat| !(1 <= v <= 5) && #[trigger] earlier.count(v) > 0;
                    assert(found.count(v) > 0);
                }
            }
        }
        c += 1;
    }
    proof {
        assert(found.add(Multiset::empty()) =~= found);
        lemma_fleet_sizes_counted();
        if tally@[0] == 0 && tally@[1] == 2 && tally@[2] == 2 && tally@[3] == 1 && tally@[4] == 1
            && tally@[5] == 1 {
            assert(found =~= fleet_sizes());
        }
    }
    tally[0] == 0 && tally[1] == 2 && tally[2] == 2 && tally[3] == 1 && tally[4] == 1 && tally[5]
        == 1
}

/// Whether a board passes the permissive rule for debugging: three cells of
/// the grid, each named once, that lie side by side in a row or one below
/// the other in a column.
pub fn is_debug_fleet(board: &[u8]) -> (ok: bool)
    ensures
        ok == debug_fleet(board@),
{
    if board.len() != 3 {
        return false;
    }
    let a = board[0];
    let b = board[1];
    let c = board[2];
    if a > 99 || b > 99 || c > 99 {
        return false;
    }
    if a == b || a == c || b == c {
        proof {
            assert(board@[0] == a && board@[1] == b && board@[2] == c);
        }
        return false;
    }
    let lo = if a < b && a < c {
        a
    } else if b < c {
        b
    } else {
        c
    };
    let hi = if a > b && a > c {
        a
    } else if b > c {
        b
    } else {
        c
    };
    let mid = a + b - lo + c - hi;
    let east = mid == lo + 1 && hi == lo + 2 && lo / 10 == hi / 10;
    let south = mid == lo + 10 && hi == lo + 20;
    proof {
        let cells = cells_of(board@);
        assert(board@[0] == a && board@[1] == b && board@[2] == c);
        assert(cells.contains(a as int) && cells.contains(b as int) && cells.contains(c as int));
        if east || south {
            let s = Ship { start: lo as int, len: 3, vertical: south };
            assert(s.cell(0) == lo && s.cell(1) == mid && s.cell(2) == hi);
            assert(s.covers(lo as int) && s.covers(mid as int) && s.covers(hi as int));
            assert forall|x: int| s.covers(x) implies cells.contains(x) by {
                let k = choose|k: int| 0 <= k < s.len && x == #[trigger] s.cell(k);
                assert(k == 0 || k == 1 || k == 2);
            }
            assert(s.cells() =~= cells);
            assert(s.on_grid());
        }
        if debug_fleet(board@) {
            let s = choose|s: Ship| #[trigger] s.on_grid() && s.len == 3 && s.cells() == cells;
            assert(s.covers(a as int) && s.covers(b as int) && s.covers(c as int));
            let ka = choose|k: int| 0 <= k < s.len && a as int == #[trigger] s.cell(k);
            let kb = choose|k: int| 0 <= k < s.len && b as int == #[trigger] s.cell(k);
            let kc = choose|k: int| 0 <= k < s.len && c as int == #[trigger] s.cell(k);
            assert(ka != kb && ka != kc && kb != kc);
            assert(s.cell(0) == lo && s.cell(1) == mid && s.cell(2) == hi);
            assert(east || south);
        }
    }
    east || south
}

/// Whether a board is accepted as a fleet. The rule is that of
/// `is_valid_fleet`; with `debug` set, the three-cell layouts of
/// `is_debug_fleet` are accepted too.
pub fn is_accepted_fleet(board: &[u8], debug: bool) -> (ok: bool)
    ensures
        ok == accepted_fleet(board@, debug),
{
    if debug && board.len() == 3 {
        is_debug_fleet(board)
    } else {
        is_valid_fleet(board)
    }
}

} // verus!
