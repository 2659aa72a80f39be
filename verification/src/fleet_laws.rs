//! What the rule for fleets means for the ships of a layout.
//!
//! The ships that a layout falls into are straight, lie on the grid, share
//! no cell and occupy exactly the cells of the layout. And a layout made of
//! ships that do not touch falls into exactly those ships. Ships that touch
//! may be read as other ships than the ones that were laid down: two ships
//! of two cells side by side in a row are read as one ship of four.

use vstd::prelude::*;
use vstd::multiset::Multiset;
use crate::fleet::{
    afloat, cells_of, fleet_sizes, lemma_run_east_from, lemma_run_south_from,
    lemma_sizes_of_first_and_rest, run_east, run_south, ship_from, ships_from, ships_of, sizes,
    south, valid_fleet, Ship,
};

verus! {

/// The ships lie on the grid, no two share a cell, and together they occupy
/// exactly the cells.
pub open spec fn decomposes(cells: Set<int>, ships: Seq<Ship>) -> bool {
    &&& forall|i: int| 0 <= i < ships.len() ==> (#[trigger] ships[i]).on_grid()
    &&& forall|i: int, j: int, x: int|
        #![trigger ships[i].covers(x), ships[j].covers(x)]
        0 <= i < j < ships.len() ==> !(ships[i].covers(x) && ships[j].covers(x))
    &&& forall|x: int| cells.contains(x) <==> occupied_by(ships, x)
}

/// Whether one of the ships has the cell `x`.
pub open spec fn occupied_by(ships: Seq<Ship>, x: int) -> bool {
    exists|i: int| 0 <= i < ships.len() && (#[trigger] ships[i]).covers(x)
}

/// The cells of a run to the east are afloat, in the row, and on the grid.
proof fn lemma_run_east_afloat(cells: Set<int>, taken: Set<int>, from: int, row: int)
    ensures
        from + run_east(cells, taken, from, row) <= 100 || run_east(cells, taken, from, row) == 0,
        forall|k: int|
            from <= k < from + run_east(cells, taken, from, row) ==> #[trigger] afloat(
                cells,
                taken,
                k,
            ) && k / 10 == row,
    decreases 100 - from,
{
    if afloat(cells, taken, from) && from / 10 == row {
        lemma_run_east_afloat(cells, taken, from + 1, row);
    }
}

/// The cells of a run to the south are afloat and on the grid.
proof fn lemma_run_south_afloat(cells: Set<int>, taken: Set<int>, from: int)
    ensures
        forall|j: int|
            0 <= j < run_south(cells, taken, from) ==> afloat(
                cells,
                taken,
                #[trigger] south(from, j),
            ),
    decreases 110 - from,
{
    if afloat(cells, taken, from) {
        lemma_run_south_afloat(cells, taken, from + 10);
        assert forall|j: int| 0 <= j < run_south(cells, taken, from) implies afloat(
            cells,
            taken,
            #[trigger] south(from, j),
        ) by {
            if j > 0 {
                assert(afloat(cells, taken, south(from + 10, j - 1)));
            }
        }
    }
}

/// The ship that starts at a cell afloat lies on the grid, has that cell,
/// and has only cells afloat, none before its first.
pub proof fn lemma_ship_from_afloat(cells: Set<int>, taken: Set<int>, c: int)
    requires
        afloat(cells, taken, c),
    ensures
        ship_from(cells, taken, c).on_grid(),
        ship_from(cells, taken, c).start == c,
        ship_from(cells, taken, c).covers(c),
        forall|x: int| #[trigger]
            ship_from(cells, taken, c).covers(x) ==> afloat(cells, taken, x) && c <= x,
{
    let ship = ship_from(cells, taken, c);
    let row = c / 10;
    lemma_run_east_afloat(cells, taken, c + 1, row);
    lemma_run_south_afloat(cells, taken, c + 10);
    assert(c == ship.cell(0));
    if ship.vertical {
        let n = run_south(cells, taken, c + 10);
        if n > 0 {
            assert(afloat(cells, taken, south(c + 10, n - 1)));
        }
        assert forall|x: int| #[trigger] ship.covers(x) implies afloat(cells, taken, x) && c
            <= x by {
            let k = choose|k: int| 0 <= k < ship.len && x == #[trigger] ship.cell(k);
            if k > 0 {
                assert(afloat(cells, taken, south(c + 10, k - 1)));
            }
        }
    } else {
        let n = run_east(cells, taken, c + 1, row);
        assert(n >= 1);
        assert(afloat(cells, taken, c + n));
        assert((c + n) / 10 == row);
        assert forall|x: int| #[trigger] ship.covers(x) implies afloat(cells, taken, x) && c
            <= x by {
            let k = choose|k: int| 0 <= k < ship.len && x == #[trigger] ship.cell(k);
            if k > 0 {
                assert(afloat(cells, taken, c + k));
            }
        }
    }
}

/// The ships found from `c` on lie on the grid, share no cell, and have
/// exactly the cells from `c` on that are afloat.
pub proof fn lemma_ships_from_decompose(cells: Set<int>, taken: Set<int>, c: int)
    requires
        0 <= c <= 100,
    ensures
        decomposes(
            Set::new(|x: int| afloat(cells, taken, x) && c <= x),
            ships_from(cells, taken, c),
        ),
    decreases 100 - c,
{
    let ships = ships_from(cells, taken, c);
    let open = Set::new(|x: int| afloat(cells, taken, x) && c <= x);
    if c >= 100 {
    } else if afloat(cells, taken, c) {
        let ship = ship_from(cells, taken, c);
        let after = taken.union(ship.cells());
        let rest = ships_from(cells, after, c + 1);
        let left = Set::new(|x: int| afloat(cells, after, x) && c + 1 <= x);
        lemma_ship_from_afloat(cells, taken, c);
        lemma_ships_from_decompose(cells, after, c + 1);
        assert(ships == seq![ship] + rest);
        assert(ships[0] == ship);
        assert forall|i: int| 1 <= i < ships.len() implies ships[i] == rest[i - 1] by {}
        assert forall|i: int, x: int| 1 <= i < ships.len() && #[trigger] ships[i].covers(
            x,
        ) implies left.contains(x) by {
            assert(rest[i - 1].covers(x));
            assert(occupied_by(rest, x));
        }
        assert forall|i: int| 0 <= i < ships.len() implies (#[trigger] ships[i]).on_grid() by {
            if i > 0 {
                assert(rest[i - 1].on_grid());
            }
        }
        assert forall|i: int, j: int, x: int|
            #![trigger ships[i].covers(x), ships[j].covers(x)]
            0 <= i < j < ships.len() implies !(ships[i].covers(x) && ships[j].covers(x)) by {
            if ships[i].covers(x) && ships[j].covers(x) {
                assert(left.contains(x));
                if i == 0 {
                    assert(after.contains(x));
                } else {
                    assert(rest[i - 1].covers(x) && rest[j - 1].covers(x));
                }
            }
        }
        assert forall|x: int| open.contains(x) <==> occupied_by(ships, x) by {
            if open.contains(x) {
                if ship.covers(x) {
                    assert(ships[0].covers(x));
                } else {
                    assert(left.contains(x));
                    assert(occupied_by(rest, x));
                    let i = choose|i: int| 0 <= i < rest.len() && (#[trigger] rest[i]).covers(x);
                    assert(ships[i + 1].covers(x));
                }
            }
            if occupied_by(ships, x) {
                let i = choose|i: int| 0 <= i < ships.len() && (#[trigger] ships[i]).covers(x);
                if i > 0 {
                    assert(left.contains(x));
                }
            }
        }
    } else {
        lemma_ships_from_decompose(cells, taken, c + 1);
        let left = Set::new(|x: int| afloat(cells, taken, x) && c + 1 <= x);
        assert(left =~= open);
    }
}

/// The ships that cells of the grid fall into lie on the grid, share no
/// cell, and together occupy exactly those cells.
pub proof fn lemma_ships_decompose(cells: Set<int>)
    requires
        forall|x: int| cells.contains(x) ==> 0 <= x < 100,
    ensures
        decomposes(cells, ships_of(cells)),
{
    lemma_ships_from_decompose(cells, Set::empty(), 0);
    assert(Set::new(|x: int| afloat(cells, Set::<int>::empty(), x) && 0 <= x) =~= cells);
}

/// A legal fleet is made of seven straight ships, of five, four and three
/// cells, two of two and two of one, that lie on the grid, share no cell
/// and occupy exactly the cells of the board.
pub proof fn lemma_valid_fleet_is_seven_ships(board: Seq<u8>)
    requires
        valid_fleet(board),
    ensures
        exists|ships: Seq<Ship>| #[trigger]
            decomposes(cells_of(board), ships) && ships.len() == 7 && sizes(ships)
                == fleet_sizes(),
{
    let cells = cells_of(board);
    let ships = ships_of(cells);
    assert forall|x: int| cells.contains(x) implies 0 <= x < 100 by {
        let i = choose|i: int| 0 <= i < board.len() && #[trigger] board[i] as int == x;
    }
    lemma_ships_decompose(cells);
    lemma_sizes_len(ships);
    assert(fleet_sizes().len() == 7);
}

/// There are as many lengths as ships.
pub proof fn lemma_sizes_len(ships: Seq<Ship>)
    ensures
        sizes(ships).len() == ships.len(),
    decreases ships.len(),
{
    if ships.len() > 0 {
        lemma_sizes_len(ships.drop_first());
    }
}

/// Whether two cells share an edge.
pub open spec fn adjacent(x: int, y: int) -> bool {
    ||| y == x + 10
    ||| x == y + 10
    ||| (y == x + 1 && x / 10 == y / 10)
    ||| (x == y + 1 && x / 10 == y / 10)
}

/// Two ships that share no cell and do not touch: no cell of the one is a
/// cell of the other or shares an edge with one.
pub open spec fn apart(a: Ship, b: Ship) -> bool {
    forall|x: int, y: int|
        #![trigger a.covers(x), b.covers(y)]
        a.covers(x) && b.covers(y) ==> x != y && !adjacent(x, y)
}

/// Ships on the grid, any two of them apart.
pub open spec fn separated(ships: Seq<Ship>) -> bool {
    &&& forall|i: int| 0 <= i < ships.len() ==> (#[trigger] ships[i]).on_grid()
    &&& forall|i: int, j: int|
        0 <= i < ships.len() && 0 <= j < ships.len() && i != j ==> apart(
            #[trigger] ships[i],
            #[trigger] ships[j],
        )
}

/// The cells that the ships occupy.
pub open spec fn cover(ships: Seq<Ship>) -> Set<int> {
    Set::new(|x: int| occupied_by(ships, x))
}

/// The cells of the ships whose first cell comes before `c`.
pub open spec fn begun(ships: Seq<Ship>, c: int) -> Set<int> {
    Set::new(
        |x: int|
            exists|i: int|
                0 <= i < ships.len() && ships[i].start < c && (#[trigger] ships[i]).covers(x),
    )
}

/// The lengths of the ships whose first cell is `c` or comes after it.
pub open spec fn sizes_from(ships: Seq<Ship>, c: int) -> Multiset<nat>
    decreases ships.len(),
{
    if ships.len() == 0 {
        Multiset::empty()
    } else if ships[0].start >= c {
        sizes_from(ships.drop_first(), c).insert(ships[0].len)
    } else {
        sizes_from(ships.drop_first(), c)
    }
}

proof fn lemma_sizes_from_first_cell(ships: Seq<Ship>)
    requires
        forall|i: int| 0 <= i < ships.len() ==> (#[trigger] ships[i]).start >= 0,
    ensures
        sizes_from(ships, 0) == sizes(ships),
    decreases ships.len(),
{
    if ships.len() > 0 {
        let rest = ships.drop_first();
        assert forall|i: int| 0 <= i < rest.len() implies (#[trigger] rest[i]).start >= 0 by {
            assert(rest[i] == ships[i + 1]);
        }
        lemma_sizes_from_first_cell(rest);
    }
}

proof fn lemma_sizes_from_past_the_grid(ships: Seq<Ship>)
    requires
        forall|i: int| 0 <= i < ships.len() ==> (#[trigger] ships[i]).start < 100,
    ensures
        sizes_from(ships, 100) == Multiset::<nat>::empty(),
    decreases ships.len(),
{
    if ships.len() > 0 {
        let rest = ships.drop_first();
        assert forall|i: int| 0 <= i < rest.len() implies (#[trigger] rest[i]).start < 100 by {
            assert(rest[i] == ships[i + 1]);
        }
        lemma_sizes_from_past_the_grid(rest);
    }
}

/// Where no ship begins at `c`, the ships from `c` on are those after `c`.
proof fn lemma_sizes_from_skips(ships: Seq<Ship>, c: int)
    requires
        forall|i: int| 0 <= i < ships.len() ==> (#[trigger] ships[i]).start != c,
    ensures
        sizes_from(ships, c) == sizes_from(ships, c + 1),
    decreases ships.len(),
{
    if ships.len() > 0 {
        let rest = ships.drop_first();
        assert forall|i: int| 0 <= i < rest.len() implies (#[trigger] rest[i]).start != c by {
            assert(rest[i] == ships[i + 1]);
        }
        lemma_sizes_from_skips(rest, c);
        assert(ships[0].start != c);
    }
}

/// Where one ship begins at `c`, the ships from `c` on are that ship and
/// those after `c`.
proof fn lemma_sizes_from_takes(ships: Seq<Ship>, c: int, k: int)
    requires
        0 <= k < ships.len(),
        ships[k].start == c,
        forall|i: int| 0 <= i < ships.len() && i != k ==> (#[trigger] ships[i]).start != c,
    ensures
        sizes_from(ships, c) == sizes_from(ships, c + 1).insert(ships[k].len),
    decreases ships.len(),
{
    let rest = ships.drop_first();
    if k == 0 {
        assert forall|i: int| 0 <= i < rest.len() implies (#[trigger] rest[i]).start != c by {
            assert(rest[i] == ships[i + 1]);
        }
        lemma_sizes_from_skips(rest, c);
    } else {
        assert forall|i: int| 0 <= i < rest.len() && i != k - 1 implies (#[trigger] rest[i]).start
            != c by {
            assert(rest[i] == ships[i + 1]);
        }
        assert(rest[k - 1] == ships[k]);
        lemma_sizes_from_takes(rest, c, k - 1);
        assert(ships[0].start != c);
        let tail = sizes_from(rest, c + 1);
        if ships[0].start >= c {
            assert(tail.insert(ships[k].len).insert(ships[0].len) =~= tail.insert(
                ships[0].len,
            ).insert(ships[k].len));
        }
    }
}

/// Among separated ships, the ship that is found at the first cell of one
/// of them is that ship.
proof fn lemma_separated_ship_is_found(ships: Seq<Ship>, k: int)
    requires
        separated(ships),
        0 <= k < ships.len(),
    ensures
        afloat(cover(ships), begun(ships, ships[k].start), ships[k].start),
        ship_from(cover(ships), begun(ships, ships[k].start), ships[k].start).len == ships[k].len,
        ship_from(cover(ships), begun(ships, ships[k].start), ships[k].start).cells()
            == ships[k].cells(),
{
    let s = ships[k];
    let c = s.start;
    let cells = cover(ships);
    let taken = begun(ships, c);
    let row = c / 10;
    assert(s.on_grid());
    // every cell of the ship is afloat
    assert forall|m: int| 0 <= m < s.len implies afloat(cells, taken, #[trigger] s.cell(m)) by {
        let x = s.cell(m);
        assert(s.covers(x));
        assert(occupied_by(ships, x));
        if taken.contains(x) {
            let i = choose|i: int|
                0 <= i < ships.len() && ships[i].start < c && (#[trigger] ships[i]).covers(x);
            assert(apart(ships[i], ships[k]));
        }
    }
    // a cell afloat that is not the ship's does not share an edge with it
    assert forall|x: int, y: int| s.covers(x) && afloat(cells, taken, y) && !s.covers(y)
        implies !#[trigger] adjacent(x, y) by {
        assert(occupied_by(ships, y));
        let j = choose|j: int| 0 <= j < ships.len() && (#[trigger] ships[j]).covers(y);
        assert(apart(ships[k], ships[j]));
    }
    assert(c == s.cell(0));
    assert(s.covers(c));
    let last = s.cell(s.len - 1);
    assert(s.covers(last));
    if !s.vertical && s.len >= 2 {
        assert forall|x: int| c < x < c + s.len implies afloat(cells, taken, x) && x / 10
            == row by {
            assert(x == s.cell(x - c));
        }
        lemma_run_east_from(cells, taken, c + 1, c + s.len, row);
        let next = c + s.len;
        if afloat(cells, taken, next) && next / 10 == row {
            if s.covers(next) {
                let m = choose|m: int| 0 <= m < s.len && next == #[trigger] s.cell(m);
            }
            assert(adjacent(last, next));
        }
        assert(run_east(cells, taken, next, row) == 0);
        assert(ship_from(cells, taken, c) == s);
    } else {
        let east = c + 1;
        if afloat(cells, taken, east) && east / 10 == row {
            if s.covers(east) {
                let m = choose|m: int| 0 <= m < s.len && east == #[trigger] s.cell(m);
            }
            assert(adjacent(c, east));
        }
        assert(run_east(cells, taken, east, row) == 0);
        let n = if s.vertical {
            s.len as int
        } else {
            1
        };
        assert forall|j: int| 0 <= j < n - 1 implies afloat(
            cells,
            taken,
            #[trigger] south(c + 10, j),
        ) by {
            assert(south(c + 10, j) == s.cell(j + 1));
        }
        lemma_run_south_from(cells, taken, c + 10, n - 1);
        let below = south(c + 10, n - 1);
        if afloat(cells, taken, below) {
            if s.covers(below) {
                let m = choose|m: int| 0 <= m < s.len && below == #[trigger] s.cell(m);
            }
            assert(adjacent(last, below));
        }
        assert(run_south(cells, taken, below) == 0);
        let found = ship_from(cells, taken, c);
        assert(found == Ship { start: c, len: s.len, vertical: true });
        assert forall|x: int| found.covers(x) <==> s.covers(x) by {
            if found.covers(x) {
                let m = choose|m: int| 0 <= m < found.len && x == #[trigger] found.cell(m);
                assert(x == s.cell(m));
            }
            if s.covers(x) {
                let m = choose|m: int| 0 <= m < s.len && x == #[trigger] s.cell(m);
                assert(x == found.cell(m));
            }
        }
        assert(found.cells() =~= s.cells());
    }
}

/// Among separated ships, the ships found from `c` on, once those that
/// begin before `c` are taken, have the lengths of the ships that begin at
/// `c` or after it.
proof fn lemma_separated_ships_are_found_from(ships: Seq<Ship>, c: int)
    requires
        separated(ships),
        0 <= c <= 100,
    ensures
        sizes(ships_from(cover(ships), begun(ships, c), c)) == sizes_from(ships, c),
    decreases 100 - c,
{
    let cells = cover(ships);
    let taken = begun(ships, c);
    if c >= 100 {
        assert forall|i: int| 0 <= i < ships.len() implies (#[trigger] ships[i]).start < 100 by {
            assert(ships[i].on_grid());
        }
        lemma_sizes_from_past_the_grid(ships);
    } else if exists|k: int| 0 <= k < ships.len() && (#[trigger] ships[k]).start == c {
        let k = choose|k: int| 0 <= k < ships.len() && (#[trigger] ships[k]).start == c;
        let s = ships[k];
        assert(s.on_grid());
        assert(c == s.cell(0));
        assert(s.covers(c));
        assert forall|i: int| 0 <= i < ships.len() && i != k implies (#[trigger] ships[i]).start
            != c by {
            if ships[i].start == c {
                assert(ships[i].on_grid());
                assert(c == ships[i].cell(0));
                assert(ships[i].covers(c));
                assert(apart(ships[i], ships[k]));
            }
        }
        lemma_separated_ship_is_found(ships, k);
        let found = ship_from(cells, taken, c);
        let after = taken.union(found.cells());
        assert forall|x: int| after.contains(x) <==> begun(ships, c + 1).contains(x) by {
            if begun(ships, c + 1).contains(x) {
                let i = choose|i: int|
                    0 <= i < ships.len() && ships[i].start < c + 1 && (#[trigger] ships[i]).covers(
                        x,
                    );
                if i != k {
                    assert(ships[i].start < c);
                }
            }
            if found.cells().contains(x) {
                assert(s.covers(x));
            }
        }
        assert(after =~= begun(ships, c + 1));
        lemma_separated_ships_are_found_from(ships, c + 1);
        lemma_sizes_of_first_and_rest(found, ships_from(cells, after, c + 1));
        lemma_sizes_from_takes(ships, c, k);
    } else {
        if cells.contains(c) {
            let i = choose|i: int| 0 <= i < ships.len() && (#[trigger] ships[i]).covers(c);
            let m = choose|m: int| 0 <= m < ships[i].len && c == #[trigger] ships[i].cell(m);
            assert(ships[i].start <= c);
            assert(ships[i].start < c);
            assert(taken.contains(c));
        }
        assert forall|x: int| taken.contains(x) <==> begun(ships, c + 1).contains(x) by {
            if begun(ships, c + 1).contains(x) {
                let i = choose|i: int|
                    0 <= i < ships.len() && ships[i].start < c + 1 && (#[trigger] ships[i]).covers(
                        x,
                    );
                assert(ships[i].start < c);
            }
        }
        assert(taken =~= begun(ships, c + 1));
        lemma_separated_ships_are_found_from(ships, c + 1);
        lemma_sizes_from_skips(ships, c);
    }
}

/// Cells laid out as ships that do not touch fall into exactly those
/// ships.
pub proof fn lemma_separated_ships_are_found(ships: Seq<Ship>)
    requires
        separated(ships),
    ensures
        sizes(ships_of(cover(ships))) == sizes(ships),
{
    assert forall|i: int| 0 <= i < ships.len() implies (#[trigger] ships[i]).start >= 0 by {
        assert(ships[i].on_grid());
    }
    assert(begun(ships, 0) =~= Set::<int>::empty());
    lemma_separated_ships_are_found_from(ships, 0);
    lemma_sizes_from_first_cell(ships);
}

/// A board of 18 cells, each named once, that are the cells of ships of
/// the lengths of a fleet, no two of which touch, is a legal fleet.
pub proof fn lemma_separated_fleet_is_valid(board: Seq<u8>, ships: Seq<Ship>)
    requires
        board.len() == 18,
        board.no_duplicates(),
        separated(ships),
        cover(ships) == cells_of(board),
        sizes(ships) == fleet_sizes(),
    ensures
        valid_fleet(board),
{
    lemma_separated_ships_are_found(ships);
    assert forall|i: int| 0 <= i < board.len() implies board[i] <= 99 by {
        let x = board[i] as int;
        assert(cells_of(board).contains(x));
        assert(occupied_by(ships, x));
        let j = choose|j: int| 0 <= j < ships.len() && (#[trigger] ships[j]).covers(x);
        let m = choose|m: int| 0 <= m < ships[j].len && x == #[trigger] ships[j].cell(m);
        assert(ships[j].on_grid());
    }
}

} // verus!
