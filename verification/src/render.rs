//! Text rendering: a board becomes a bordered block of characters, one
//! line per row, `'X'` for a live square and a blank for a dead one.

use vstd::prelude::*;
use crate::board::Board;
use crate::board::Square;

verus! {

/// Character displayed for one square.
pub open spec fn square_char(s: Square) -> char {
    if s is Alive {
        'X'
    } else {
        ' '
    }
}

/// The border line above and below the grid: `+`, `w` dashes, `+`, newline.
pub open spec fn border_line(w: int) -> Seq<char> {
    seq!['+'] + Seq::new(w as nat, |i: int| '-') + seq!['+', '\n']
}

/// One displayed row: `|`, the squares of row `y` left to right, `|`,
/// newline.
pub open spec fn row_line(b: Board, y: int) -> Seq<char> {
    seq!['|'] + Seq::new(b.width as nat, |x: int| square_char(b.at(x, y))) + seq!['|', '\n']
}

/// The first `k` displayed rows, concatenated top to bottom.
pub open spec fn rows_upto(b: Board, k: int) -> Seq<char>
    decreases k,
{
    if k <= 0 {
        Seq::empty()
    } else {
        rows_upto(b, k - 1) + row_line(b, k - 1)
    }
}

/// The full text block for a board: border, every row, border.
pub open spec fn rendering(b: Board) -> Seq<char> {
    border_line(b.width as int) + rows_upto(b, b.height as int) + border_line(b.width as int)
}

/// Each displayed line — border or row — is `width + 3` characters long.
pub proof fn lemma_rows_upto_len(b: Board, k: int)
    requires
        0 <= k,
        0 <= b.width,
    ensures
        rows_upto(b, k).len() == k * (b.width as int + 3),
    decreases k,
{
    if k > 0 {
        lemma_rows_upto_len(b, k - 1);
        assert(rows_upto(b, k) == rows_upto(b, k - 1) + row_line(b, k - 1));
        assert(row_line(b, k - 1).len() == b.width as int + 3);
        assert((k - 1) * (b.width as int + 3) + (b.width as int + 3) == k * (b.width as int + 3))
            by (nonlinear_arith);
    } else {
        assert(k * (b.width as int + 3) == 0) by (nonlinear_arith)
            requires
                k == 0,
        ;
    }
}

/// Within the concatenated rows, character `c` of displayed row `y` sits at
/// flat offset `y * (width + 3) + c`.
pub proof fn lemma_rows_upto_index(b: Board, k: int, y: int, c: int)
    requires
        0 <= y < k,
        0 <= b.width,
        0 <= c < b.width as int + 3,
    ensures
        rows_upto(b, k)[y * (b.width as int + 3) + c] == row_line(b, y)[c],
    decreases k,
{
    lemma_rows_upto_len(b, k - 1);
    if y == k - 1 {
        assert(rows_upto(b, k) == rows_upto(b, k - 1) + row_line(b, k - 1));
    } else {
        lemma_rows_upto_index(b, k - 1, y, c);
        assert(y * (b.width as int + 3) + c < (k - 1) * (b.width as int + 3)) by (nonlinear_arith)
            requires
                0 <= c < b.width as int + 3,
                y <= k - 2,
        ;
    }
}

/// Reading the rendering back: the character for square `(x, y)` stands at
/// flat index `(width + 3) * (y + 1) + 1 + x`, and is `'X'` exactly when
/// the square is alive (`square_char` says which character each state
/// gets). The whole block is `height + 2` lines of `width + 3` characters.
pub proof fn lemma_rendering_square(b: Board, x: int, y: int)
    requires
        b.wf(),
        b.in_range(x, y),
    ensures
        rendering(b).len() == (b.width as int + 3) * (b.height as int + 2),
        rendering(b)[(b.width as int + 3) * (y + 1) + 1 + x] == square_char(b.at(x, y)),
{
    let w = b.width as int;
    let h = b.height as int;
    lemma_rows_upto_len(b, h);
    assert((w + 3) + h * (w + 3) + (w + 3) == (w + 3) * (h + 2)) by (nonlinear_arith);
    assert((w + 3) * (y + 1) + 1 + x == (w + 3) + (y * (w + 3) + (1 + x))) by (nonlinear_arith);
    assert(y * (w + 3) + (1 + x) < h * (w + 3)) by (nonlinear_arith)
        requires
            0 <= x < w,
            y <= h - 1,
    ;
    assert(0 <= y * (w + 3)) by (nonlinear_arith)
        requires
            0 <= y,
            0 <= w,
    ;
    lemma_rows_upto_index(b, h, y, 1 + x);
}

/// Appends the border line to `out`.
#[verifier::loop_isolation(false)]
fn push_border(out: &mut Vec<char>, width: i32)
    requires
        0 <= width,
    ensures
        final(out)@ == old(out)@ + border_line(width as int),
{
    out.push('+');
    let mut i: i32 = 0;
    while i < width
        invariant
            0 <= i <= width,
            out@ == old(out)@ + seq!['+'] + Seq::new(i as nat, |k: int| '-'),
        decreases width - i,
    {
        out.push('-');
        i += 1;
        proof {
            assert(out@ =~= old(out)@ + seq!['+'] + Seq::new(i as nat, |k: int| '-'));
        }
    }
    out.push('+');
    out.push('\n');
    proof {
        assert(out@ =~= old(out)@ + border_line(width as int));
    }
}

/// Appends the displayed form of row `y` to `out`.
#[verifier::loop_isolation(false)]
fn push_row(out: &mut Vec<char>, b: &Board, y: i32)
    requires
        b.wf(),
        0 <= y < b.height,
    ensures
        final(out)@ == old(out)@ + row_line(*b, y as int),
{
    out.push('|');
    let mut x: i32 = 0;
    while x < b.width
        invariant
            0 <= x <= b.width,
            out@ == old(out)@ + seq!['|'] + Seq::new(
                x as nat,
                |k: int| square_char(b.at(k, y as int)),
            ),
        decreases b.width - x,
    {
        let s = b.get(x, y);
        if s == Square::Alive {
            out.push('X');
        } else {
            out.push(' ');
        }
        x += 1;
        proof {
            assert(out@ =~= old(out)@ + seq!['|'] + Seq::new(
                x as nat,
                |k: int| square_char(b.at(k, y as int)),
            ));
        }
    }
    out.push('|');
    out.push('\n');
    proof {
        assert(out@ =~= old(out)@ + row_line(*b, y as int));
    }
}

impl Board {
    /// Renders the current generation as a bordered block of characters:
    /// the border line, one line per row top to bottom, the border line
    /// again, each line ending in a newline.
    #[verifier::loop_isolation(false)]
    pub fn render(&self) -> (out: Vec<char>)
        requires
            self.wf(),
        ensures
            out@ == rendering(*self),
    {
        let mut out: Vec<char> = Vec::new();
        push_border(&mut out, self.width);
        let mut y: i32 = 0;
        while y < self.height
            invariant
                0 <= y <= self.height,
                out@ == border_line(self.width as int) + rows_upto(*self, y as int),
            decreases self.height - y,
        {
            push_row(&mut out, self, y);
            y += 1;
            proof {
                assert(out@ =~= border_line(self.width as int) + rows_upto(*self, y as int));
            }
        }
        push_border(&mut out, self.width);
        proof {
            assert(out@ =~= rendering(*self));
        }
        out
    }
}

} // verus!
