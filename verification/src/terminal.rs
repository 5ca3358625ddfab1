//! The bytes that paint one row of cells on an ANSI terminal: a blank on
//! the default background for a barrier, a blank on a palette colour for
//! fluid, and a reset and a line feed at the end of the row.

use vstd::prelude::*;
use crate::colours::{blue_level, green_level, lemma_levels_in_range, red_level, Colours, N_COLORS};

verus! {

/// The decimal digits of `n`, as ASCII bytes, without leading zeros.
pub open spec fn decimal(n: nat) -> Seq<u8>
    decreases n,
{
    if n < 10 {
        seq![(48 + n) as u8]
    } else {
        decimal(n / 10).push((48 + n % 10) as u8)
    }
}

/// The escape sequence that resets colours: `ESC [ 0 m`.
pub open spec fn reset_text() -> Seq<u8> {
    seq![27u8, 91u8, 48u8, 109u8]
}

/// A barrier cell: a reset and a blank.
pub open spec fn blank_text() -> Seq<u8> {
    reset_text().push(32u8)
}

/// A fluid cell: `ESC [ 48 ; 2 ; r ; g ; b m` and a blank, which sets a
/// background of the given levels.
pub open spec fn shade_text(red: nat, green: nat, blue: nat) -> Seq<u8> {
    seq![27u8, 91u8, 52u8, 56u8, 59u8, 50u8, 59u8] + decimal(red) + seq![59u8] + decimal(green)
        + seq![59u8] + decimal(blue) + seq![109u8, 32u8]
}

/// One cell: `None` is a barrier, `Some(i)` is fluid shown in palette
/// entry `i`.
pub open spec fn cell_text(cell: Option<usize>) -> Seq<u8> {
    match cell {
        None => blank_text(),
        Some(i) => shade_text(
            red_level(i as int) as nat,
            green_level(i as int) as nat,
            blue_level(i as int) as nat,
        ),
    }
}

/// The cells of a row, one after the other.
pub open spec fn cells_text(cells: Seq<Option<usize>>) -> Seq<u8>
    decreases cells.len(),
{
    if cells.len() == 0 {
        Seq::empty()
    } else {
        cells_text(cells.drop_last()) + cell_text(cells.last())
    }
}

/// A row: its cells, a reset and a line feed.
pub open spec fn row_text(cells: Seq<Option<usize>>) -> Seq<u8> {
    cells_text(cells) + reset_text().push(10u8)
}

/// Appends the decimal digits of `n` to `out`.
pub fn push_decimal(out: &mut Vec<u8>, n: u64)
    ensures
        final(out)@ == old(out)@ + decimal(n as nat),
    decreases n,
{
    if n >= 10 {
        push_decimal(out, n / 10);
    }
    out.push(48 + (n % 10) as u8);
    assert(out@ =~= old(out)@ + decimal(n as nat));
}

fn push_reset(out: &mut Vec<u8>)
    ensures
        final(out)@ == old(out)@ + reset_text(),
{
    out.push(27);
    out.push(91);
    out.push(48);
    out.push(109);
    assert(out@ =~= old(out)@ + reset_text());
}

/// Appends the text of one cell to `out`.
pub fn push_cell(out: &mut Vec<u8>, cell: Option<usize>, colours: &Colours)
    requires
        colours.wf(),
        cell is Some ==> cell->Some_0 < N_COLORS,
    ensures
        final(out)@ == old(out)@ + cell_text(cell),
{
    match cell {
        None => {
            push_reset(out);
            out.push(32);
            assert(out@ =~= old(out)@ + cell_text(cell));
        },
        Some(i) => {
            let colour = colours.colour(i);
            out.push(27);
            out.push(91);
            out.push(52);
            out.push(56);
            out.push(59);
            out.push(50);
            out.push(59);
            push_decimal(out, colour.red);
            out.push(59);
            push_decimal(out, colour.green);
            out.push(59);
            push_decimal(out, colour.blue);
            out.push(109);
            out.push(32);
            proof {
                lemma_levels_in_range(i as int);
            }
            assert(out@ =~= old(out)@ + cell_text(cell));
        },
    }
}

/// Appends the text of one row of cells to `out`.
pub fn push_row(out: &mut Vec<u8>, cells: &Vec<Option<usize>>, colours: &Colours)
    requires
        colours.wf(),
        forall|k: int|
            0 <= k < cells@.len() && (#[trigger] cells@[k]) is Some ==> cells@[k]->Some_0
                < N_COLORS,
    ensures
        final(out)@ == old(out)@ + row_text(cells@),
{
    let mut x: usize = 0;
    while x < cells.len()
        invariant
            x <= cells@.len(),
            colours.wf(),
            forall|k: int|
                0 <= k < cells@.len() && (#[trigger] cells@[k]) is Some ==> cells@[k]->Some_0
                    < N_COLORS,
            out@ == old(out)@ + cells_text(cells@.take(x as int)),
        decreases cells@.len() - x,
    {
        let ghost before = out@;
        push_cell(out, cells[x], colours);
        proof {
            let next = cells@.take(x + 1);
            assert(next.drop_last() =~= cells@.take(x as int));
            assert(next.last() == cells@[x as int]);
            assert(out@ =~= old(out)@ + cells_text(next));
        }
        x += 1;
    }
    assert(cells@.take(x as int) =~= cells@);
    push_reset(out);
    out.push(10);
    assert(out@ =~= old(out)@ + row_text(cells@));
}

} // verus!
