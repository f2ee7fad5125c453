//! A fixed-width box-drawing rendering of the grid for diagnostic output.
//!
//! Double-line separators delimit the 3x3 boxes, single-line separators
//! the cells in between.  The output is for human eyes; nothing parses
//! it back.

use vstd::prelude::*;
use crate::graph::{cell_in_slot, graph_wf, Graph};

verus! {

/// The characters of the decimal digit a cell value prints as.
pub open spec fn digit_chars(v: u8) -> Seq<char> {
    if v == 0 {
        "0"@
    } else if v == 1 {
        "1"@
    } else if v == 2 {
        "2"@
    } else if v == 3 {
        "3"@
    } else if v == 4 {
        "4"@
    } else if v == 5 {
        "5"@
    } else if v == 6 {
        "6"@
    } else if v == 7 {
        "7"@
    } else if v == 8 {
        "8"@
    } else {
        "9"@
    }
}

/// One printed cell: the value between spaces, closed by a box or cell
/// border.
pub open spec fn piece_chars(g: Graph, i: int, j: int) -> Seq<char> {
    " "@ + digit_chars(g.cells@[j * 9 + i].value) + (if j == 2 || j == 5 || j == 8 {
        " \u{2551}"@
    } else {
        " \u{2502}"@
    })
}

/// The printed cells of output line `i`, up to column `j`.
pub open spec fn pieces_prefix(g: Graph, i: int, j: int) -> Seq<char>
    decreases j,
{
    if j <= 0 {
        Seq::empty()
    } else {
        pieces_prefix(g, i, j - 1) + piece_chars(g, i, j - 1)
    }
}

/// The separator printed before output line `i`.
pub open spec fn sep_chars(i: int) -> Seq<char> {
    if i == 3 || i == 6 {
        "\n"@ + "\u{2560}\u{2550}\u{2550}\u{2550}\u{256a}\u{2550}\u{2550}\u{2550}\u{256a}\u{2550}\u{2550}\u{2550}\u{256c}\u{2550}\u{2550}\u{2550}\u{256a}\u{2550}\u{2550}\u{2550}\u{256a}\u{2550}\u{2550}\u{2550}\u{256c}\u{2550}\u{2550}\u{2550}\u{256a}\u{2550}\u{2550}\u{2550}\u{256a}\u{2550}\u{2550}\u{2550}\u{2563}"@
            + "\n\u{2551}"@
    } else if i > 0 {
        "\n"@ + "\u{255f}\u{2500}\u{2500}\u{2500}\u{253c}\u{2500}\u{2500}\u{2500}\u{253c}\u{2500}\u{2500}\u{2500}\u{256b}\u{2500}\u{2500}\u{2500}\u{253c}\u{2500}\u{2500}\u{2500}\u{253c}\u{2500}\u{2500}\u{2500}\u{256b}\u{2500}\u{2500}\u{2500}\u{253c}\u{2500}\u{2500}\u{2500}\u{253c}\u{2500}\u{2500}\u{2500}\u{2562}"@
            + "\n\u{2551}"@
    } else {
        "\n\u{2551}"@
    }
}

/// The rendering through output line `i - 1`.
pub open spec fn lines_prefix(g: Graph, i: int) -> Seq<char>
    decreases i,
{
    if i <= 0 {
        "\u{2554}\u{2550}\u{2550}\u{2550}\u{2564}\u{2550}\u{2550}\u{2550}\u{2564}\u{2550}\u{2550}\u{2550}\u{2566}\u{2550}\u{2550}\u{2550}\u{2564}\u{2550}\u{2550}\u{2550}\u{2564}\u{2550}\u{2550}\u{2550}\u{2566}\u{2550}\u{2550}\u{2550}\u{2564}\u{2550}\u{2550}\u{2550}\u{2564}\u{2550}\u{2550}\u{2550}\u{2557}"@
    } else {
        lines_prefix(g, i - 1) + sep_chars(i - 1) + pieces_prefix(g, i - 1, 9)
    }
}

/// The full rendering of a grid.
pub open spec fn render_chars(g: Graph) -> Seq<char> {
    lines_prefix(g, 9) + "\n"@
        + "\u{255a}\u{2550}\u{2550}\u{2550}\u{2567}\u{2550}\u{2550}\u{2550}\u{2567}\u{2550}\u{2550}\u{2550}\u{2569}\u{2550}\u{2550}\u{2550}\u{2567}\u{2550}\u{2550}\u{2550}\u{2567}\u{2550}\u{2550}\u{2550}\u{2569}\u{2550}\u{2550}\u{2550}\u{2567}\u{2550}\u{2550}\u{2550}\u{2567}\u{2550}\u{2550}\u{2550}\u{255d}"@
        + "\n"@
}

/// The top border of the grid.
fn double_row_top() -> (r: String)
    ensures
        r@ == "\u{2554}\u{2550}\u{2550}\u{2550}\u{2564}\u{2550}\u{2550}\u{2550}\u{2564}\u{2550}\u{2550}\u{2550}\u{2566}\u{2550}\u{2550}\u{2550}\u{2564}\u{2550}\u{2550}\u{2550}\u{2564}\u{2550}\u{2550}\u{2550}\u{2566}\u{2550}\u{2550}\u{2550}\u{2564}\u{2550}\u{2550}\u{2550}\u{2564}\u{2550}\u{2550}\u{2550}\u{2557}"@,
{
    "\u{2554}\u{2550}\u{2550}\u{2550}\u{2564}\u{2550}\u{2550}\u{2550}\u{2564}\u{2550}\u{2550}\u{2550}\u{2566}\u{2550}\u{2550}\u{2550}\u{2564}\u{2550}\u{2550}\u{2550}\u{2564}\u{2550}\u{2550}\u{2550}\u{2566}\u{2550}\u{2550}\u{2550}\u{2564}\u{2550}\u{2550}\u{2550}\u{2564}\u{2550}\u{2550}\u{2550}\u{2557}".to_owned()
}

/// The bottom border of the grid.
fn double_row_bottom() -> (r: String)
    ensures
        r@ == "\u{255a}\u{2550}\u{2550}\u{2550}\u{2567}\u{2550}\u{2550}\u{2550}\u{2567}\u{2550}\u{2550}\u{2550}\u{2569}\u{2550}\u{2550}\u{2550}\u{2567}\u{2550}\u{2550}\u{2550}\u{2567}\u{2550}\u{2550}\u{2550}\u{2569}\u{2550}\u{2550}\u{2550}\u{2567}\u{2550}\u{2550}\u{2550}\u{2567}\u{2550}\u{2550}\u{2550}\u{255d}"@,
{
    "\u{255a}\u{2550}\u{2550}\u{2550}\u{2567}\u{2550}\u{2550}\u{2550}\u{2567}\u{2550}\u{2550}\u{2550}\u{2569}\u{2550}\u{2550}\u{2550}\u{2567}\u{2550}\u{2550}\u{2550}\u{2567}\u{2550}\u{2550}\u{2550}\u{2569}\u{2550}\u{2550}\u{2550}\u{2567}\u{2550}\u{2550}\u{2550}\u{2567}\u{2550}\u{2550}\u{2550}\u{255d}".to_owned()
}

/// The heavy separator between 3x3 box bands.
fn double_row_middle() -> (r: String)
    ensures
        r@ == "\u{2560}\u{2550}\u{2550}\u{2550}\u{256a}\u{2550}\u{2550}\u{2550}\u{256a}\u{2550}\u{2550}\u{2550}\u{256c}\u{2550}\u{2550}\u{2550}\u{256a}\u{2550}\u{2550}\u{2550}\u{256a}\u{2550}\u{2550}\u{2550}\u{256c}\u{2550}\u{2550}\u{2550}\u{256a}\u{2550}\u{2550}\u{2550}\u{256a}\u{2550}\u{2550}\u{2550}\u{2563}"@,
{
    "\u{2560}\u{2550}\u{2550}\u{2550}\u{256a}\u{2550}\u{2550}\u{2550}\u{256a}\u{2550}\u{2550}\u{2550}\u{256c}\u{2550}\u{2550}\u{2550}\u{256a}\u{2550}\u{2550}\u{2550}\u{256a}\u{2550}\u{2550}\u{2550}\u{256c}\u{2550}\u{2550}\u{2550}\u{256a}\u{2550}\u{2550}\u{2550}\u{256a}\u{2550}\u{2550}\u{2550}\u{2563}".to_owned()
}

/// The light separator between plain rows.
fn single_row_middle() -> (r: String)
    ensures
        r@ == "\u{255f}\u{2500}\u{2500}\u{2500}\u{253c}\u{2500}\u{2500}\u{2500}\u{253c}\u{2500}\u{2500}\u{2500}\u{256b}\u{2500}\u{2500}\u{2500}\u{253c}\u{2500}\u{2500}\u{2500}\u{253c}\u{2500}\u{2500}\u{2500}\u{256b}\u{2500}\u{2500}\u{2500}\u{253c}\u{2500}\u{2500}\u{2500}\u{253c}\u{2500}\u{2500}\u{2500}\u{2562}"@,
{
    "\u{255f}\u{2500}\u{2500}\u{2500}\u{253c}\u{2500}\u{2500}\u{2500}\u{253c}\u{2500}\u{2500}\u{2500}\u{256b}\u{2500}\u{2500}\u{2500}\u{253c}\u{2500}\u{2500}\u{2500}\u{253c}\u{2500}\u{2500}\u{2500}\u{256b}\u{2500}\u{2500}\u{2500}\u{253c}\u{2500}\u{2500}\u{2500}\u{253c}\u{2500}\u{2500}\u{2500}\u{2562}".to_owned()
}

/// The decimal digit a cell value prints as.
fn digit_str(v: u8) -> (r: &'static str)
    requires
        v <= 9,
    ensures
        r@ == digit_chars(v),
{
    match v {
        0 => "0",
        1 => "1",
        2 => "2",
        3 => "3",
        4 => "4",
        5 => "5",
        6 => "6",
        7 => "7",
        8 => "8",
        _ => "9",
    }
}

impl Graph {
    /// The grid as a fixed-width box-drawing diagram, one line per value
    /// of the first axis.
    pub fn render(&self) -> (r: String)
        requires
            graph_wf(*self),
        ensures
            r@ == render_chars(*self),
    {
        let mut s: String = double_row_top();
        proof {
            assert(s@ == lines_prefix(*self, 0));
        }
        let mut i: usize = 0;
        while i < 9
            invariant
                graph_wf(*self),
                i <= 9,
                s@ == lines_prefix(*self, i as int),
            decreases 9 - i,
        {
            if i == 3 || i == 6 {
                s.append("\n");
                let mid = double_row_middle();
                s.append(mid.as_str());
                s.append("\n\u{2551}");
            } else if i > 0 {
                s.append("\n");
                let mid = single_row_middle();
                s.append(mid.as_str());
                s.append("\n\u{2551}");
            } else {
                s.append("\n\u{2551}");
            }
            proof {
                assert(s@ == lines_prefix(*self, i as int) + sep_chars(i as int));
                assert(pieces_prefix(*self, i as int, 0) == Seq::<char>::empty());
                assert(s@ == lines_prefix(*self, i as int) + sep_chars(i as int) + pieces_prefix(
                    *self,
                    i as int,
                    0,
                ));
            }
            let mut j: usize = 0;
            while j < 9
                invariant
                    graph_wf(*self),
                    i < 9,
                    j <= 9,
                    s@ == lines_prefix(*self, i as int) + sep_chars(i as int) + pieces_prefix(
                        *self,
                        i as int,
                        j as int,
                    ),
                decreases 9 - j,
            {
                let ghost s0 = s@;
                let v = self.cells[j * 9 + i].value;
                proof {
                    assert(cell_in_slot(
                        self.cells@[j as int * 9 + i as int],
                        j as int * 9 + i as int,
                    ));
                }
                s.append(" ");
                s.append(digit_str(v));
                if j == 2 || j == 5 || j == 8 {
                    s.append(" \u{2551}");
                } else {
                    s.append(" \u{2502}");
                }
                proof {
                    assert(s@ =~= s0 + piece_chars(*self, i as int, j as int));
                    assert(s@ =~= lines_prefix(*self, i as int) + sep_chars(i as int)
                        + pieces_prefix(*self, i as int, j + 1));
                }
                j += 1;
            }
            proof {
                assert(s@ =~= lines_prefix(*self, i + 1));
            }
            i += 1;
        }
        s.append("\n");
        let bottom = double_row_bottom();
        s.append(bottom.as_str());
        s.append("\n");
        proof {
            assert(s@ =~= render_chars(*self));
        }
        s
    }
}

} // verus!
