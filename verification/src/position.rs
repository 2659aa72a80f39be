//! Cells of the 10×10 grid. A cell is one byte, `row * 10 + column`; its
//! label is the column letter followed by the row number.

use vstd::prelude::*;
use vstd::string::*;

verus! {

/// The decimal digit `d` as a character.
pub open spec fn digit(d: int) -> char {
    (48 + d) as char
}

/// The decimal numeral of `n`, without leading zeros.
pub open spec fn decimal(n: nat) -> Seq<char>
    decreases n,
{
    if n < 10 {
        seq![digit(n as int)]
    } else {
        decimal(n / 10).push(digit((n % 10) as int))
    }
}

/// The letter of column `col`: `A` for 0, `B` for 1, and so on.
pub open spec fn column_letter(col: int) -> char {
    (65 + col) as char
}

/// The label of the cell `pos`: column letter, then row number.
pub open spec fn label(pos: u8) -> Seq<char> {
    seq![column_letter(pos as int % 10)] + decimal((pos / 10) as nat)
}

/// The cell at column `x` and row `y`.
pub open spec fn cell_at(x: int, y: int) -> int {
    y * 10 + x
}

fn digit_text(d: u8) -> (s: &'static str)
    requires
        d < 10,
    ensures
        s@ == seq![digit(d as int)],
{
    let digits = "0123456789";
    proof {
        reveal_strlit("0123456789");
    }
    let s = digits.substring_ascii(d as usize, d as usize + 1);
    assert(s@ =~= seq![digit(d as int)]);
    s
}

fn column_text(col: u8) -> (s: &'static str)
    requires
        col < 10,
    ensures
        s@ == seq![column_letter(col as int)],
{
    let letters = "ABCDEFGHIJ";
    proof {
        reveal_strlit("ABCDEFGHIJ");
    }
    let s = letters.substring_ascii(col as usize, col as usize + 1);
    assert(s@ =~= seq![column_letter(col as int)]);
    s
}

/// The human-readable label of a cell, such as `A0` or `E3`.
pub fn xy_pos(pos: u8) -> (s: String)
    ensures
        s@ == label(pos),
{
    let x = pos % 10;
    let y = pos / 10;
    let mut s = String::from_str(column_text(x));
    if y >= 10 {
        s.append(digit_text(y / 10));
        assert(decimal((y / 10) as nat) == seq![digit((y / 10) as int)]);
    }
    s.append(digit_text(y % 10));
    proof {
        assert(decimal(y as nat) =~= if y >= 10 {
            seq![digit((y / 10) as int), digit((y % 10) as int)]
        } else {
            seq![digit(y as int)]
        });
        assert(s@ =~= label(pos));
    }
    s
}

} // verus!
