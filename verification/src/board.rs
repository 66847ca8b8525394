//! The grid engine: square states, coordinate wrapping, neighbor counting,
//! rule application, and the double-buffered generation step.

use vstd::prelude::*;

verus! {

/// State of one grid square.
#[derive(Debug, Copy, Clone, PartialEq, Eq, Structural)]
pub enum Square {
    Dead,
    Alive,
}

/// Successor of a square under the Game-of-Life rules, given its live
/// neighbor count `n`: a live square survives exactly with 2 or 3 live
/// neighbors; a dead square comes alive exactly with 3.
pub open spec fn next_square(s: Square, n: int) -> Square {
    if s is Alive {
        if n < 2 {
            Square::Dead
        } else if n > 3 {
            Square::Dead
        } else {
            Square::Alive
        }
    } else {
        if n == 3 {
            Square::Alive
        } else {
            Square::Dead
        }
    }
}

/// Normalization of one coordinate against an axis of length `limit`:
/// a negative coordinate wraps around from the far edge (`limit + c`);
/// one at or past the edge is reflected (`limit - c`), which sends `limit`
/// itself to `0`. The two branches are deliberately asymmetric.
pub open spec fn wrap_coord(limit: int, c: int) -> int {
    let c1 = if c < 0 {
        limit + c
    } else {
        c
    };
    if c1 >= limit {
        limit - c1
    } else {
        c1
    }
}

/// One generation step: `post` has the same dimensions as `pre`, and every
/// in-range square of `post` is the Game-of-Life successor of the matching
/// square of `pre`.
pub open spec fn stepped(pre: Board, post: Board) -> bool {
    &&& post.width == pre.width
    &&& post.height == pre.height
    &&& forall|x: int, y: int|
        pre.in_range(x, y) ==> #[trigger] post.at(x, y) == next_square(
            pre.at(x, y),
            pre.neighbor_count(x, y),
        )
}

/// The board: current generation in `squares`, scratch buffer for the next
/// generation in `next_squares`, both row-major of size `height * width`.
pub struct Board {
    pub height: i32,
    pub width: i32,
    pub squares: Vec<Square>,
    pub next_squares: Vec<Square>,
}

/// Row-major index arithmetic: the flat index of an in-range position is
/// within the buffer.
pub proof fn lemma_idx_bounds(w: int, h: int, x: int, y: int)
    requires
        0 <= x < w,
        0 <= y < h,
    ensures
        0 <= y * w + x < w * h,
{
    assert(0 <= y * w + x < w * h) by (nonlinear_arith)
        requires
            0 <= x < w,
            0 <= y < h,
    ;
}

/// Row-major index arithmetic: distinct in-range positions have distinct
/// flat indices.
pub proof fn lemma_idx_injective(w: int, x1: int, y1: int, x2: int, y2: int)
    requires
        0 <= x1 < w,
        0 <= x2 < w,
        y1 * w + x1 == y2 * w + x2,
    ensures
        x1 == x2,
        y1 == y2,
{
    assert(y1 == y2) by (nonlinear_arith)
        requires
            0 <= x1 < w,
            0 <= x2 < w,
            y1 * w + x1 == y2 * w + x2,
    ;
}

/// `wrap_coord` is the identity on in-range coordinates.
pub proof fn lemma_wrap_coord_identity(limit: int, c: int)
    requires
        0 <= c < limit,
    ensures
        wrap_coord(limit, c) == c,
{
}

/// `wrap_coord` lands in range on its whole domain: any coordinate within
/// one axis length of the grid, on either side.
pub proof fn lemma_wrap_coord_in_range(limit: int, c: int)
    requires
        0 < limit,
        -limit <= c <= limit,
    ensures
        0 <= wrap_coord(limit, c) < limit,
{
}

/// On an axis of length at least 2, wrapping an in-range coordinate's
/// immediate neighbors never lands back on the coordinate itself.
pub proof fn lemma_wrap_coord_moves(limit: int, c: int)
    requires
        2 <= limit,
        0 <= c < limit,
    ensures
        wrap_coord(limit, c - 1) != c,
        wrap_coord(limit, c + 1) != c,
        0 <= wrap_coord(limit, c - 1) < limit,
        0 <= wrap_coord(limit, c + 1) < limit,
{
}

/// Writing a square and reading it back: a board whose current generation
/// is `pre`'s with `v` written at in-range `(x, y)` — which is what `set`
/// produces — reads back `v` there, through the wrapped read that `get`
/// performs as well as directly.
pub proof fn lemma_set_then_get(pre: Board, post: Board, x: int, y: int, v: Square)
    requires
        pre.wf(),
        pre.in_range(x, y),
        post.width == pre.width,
        post.height == pre.height,
        post.squares@ == pre.squares@.update(pre.idx(x, y), v),
    ensures
        post.at(x, y) == v,
        post.at_wrapped(x, y) == v,
{
    lemma_idx_bounds(pre.width as int, pre.height as int, x, y);
    lemma_wrap_coord_identity(pre.width as int, x);
    lemma_wrap_coord_identity(pre.height as int, y);
}

/// On a board whose squares are all dead, every neighbor count is 0.
pub proof fn lemma_neighbor_count_all_dead(b: Board, x: int, y: int)
    requires
        b.wf(),
        b.neighbor_ok(x, y),
        forall|i: int, j: int| b.in_range(i, j) ==> #[trigger] b.at(i, j) is Dead,
    ensures
        b.neighbor_count(x, y) == 0,
{
    reveal(Board::neighbor_count);
    let w = b.width as int;
    let h = b.height as int;
    assert forall|dx: int, dy: int|
        -1 <= dx <= 1 && -1 <= dy <= 1 implies #[trigger] b.alive_one(x + dx, y + dy) == 0 by {
        lemma_wrap_coord_in_range(w, x + dx);
        lemma_wrap_coord_in_range(h, y + dy);
        assert(b.in_range(wrap_coord(w, x + dx), wrap_coord(h, y + dy)));
    }
}

/// Underpopulation: a live square that is the only live square on a board
/// with both dimensions at least 2 has no live neighbors, and is dead after
/// one generation step.
pub proof fn lemma_lone_square_dies(pre: Board, post: Board, x: int, y: int)
    requires
        pre.wf(),
        2 <= pre.width,
        2 <= pre.height,
        pre.in_range(x, y),
        pre.at(x, y) is Alive,
        forall|i: int, j: int|
            pre.in_range(i, j) && (i != x || j != y) ==> #[trigger] pre.at(i, j) is Dead,
        stepped(pre, post),
    ensures
        pre.neighbor_count(x, y) == 0,
        post.at(x, y) is Dead,
{
    reveal(Board::neighbor_count);
    let w = pre.width as int;
    let h = pre.height as int;
    assert forall|dx: int, dy: int|
        -1 <= dx <= 1 && -1 <= dy <= 1 && (dx != 0 || dy != 0) implies #[trigger] pre.alive_one(
        x + dx,
        y + dy,
    ) == 0 by {
        lemma_wrap_coord_in_range(w, x + dx);
        lemma_wrap_coord_in_range(h, y + dy);
        lemma_wrap_coord_identity(w, x);
        lemma_wrap_coord_identity(h, y);
        if dx != 0 {
            lemma_wrap_coord_moves(w, x);
        }
        if dy != 0 {
            lemma_wrap_coord_moves(h, y);
        }
        assert(pre.in_range(wrap_coord(w, x + dx), wrap_coord(h, y + dy)));
        assert(wrap_coord(w, x + dx) != x || wrap_coord(h, y + dy) != y);
    }
}

/// Still life: if every live square has 2 or 3 live neighbors and no dead
/// square has exactly 3, one generation step leaves every square unchanged.
/// A 2-by-2 block of live squares on an otherwise dead board is the
/// classic instance.
pub proof fn lemma_still_life(pre: Board, post: Board)
    requires
        pre.wf(),
        stepped(pre, post),
        forall|i: int, j: int|
            pre.in_range(i, j) && #[trigger] pre.at(i, j) is Alive ==> 2 <= pre.neighbor_count(
                i,
                j,
            ) <= 3,
        forall|i: int, j: int|
            pre.in_range(i, j) && #[trigger] pre.at(i, j) is Dead ==> pre.neighbor_count(i, j)
                != 3,
    ensures
        forall|i: int, j: int| pre.in_range(i, j) ==> #[trigger] post.at(i, j) == pre.at(i, j),
{
    assert forall|i: int, j: int| pre.in_range(i, j) implies #[trigger] post.at(i, j) == pre.at(
        i,
        j,
    ) by {
        if pre.at(i, j) is Alive {
            assert(2 <= pre.neighbor_count(i, j) <= 3);
        } else {
            assert(pre.neighbor_count(i, j) != 3);
        }
    }
}

impl Board {
    /// `neighbor_count` reads only the current generation and the
    /// dimensions; the scratch buffer does not enter into it.
    pub proof fn lemma_neighbor_count_same_current(a: Board, b: Board, x: int, y: int)
        requires
            a.squares@ == b.squares@,
            a.width == b.width,
            a.height == b.height,
        ensures
            a.neighbor_count(x, y) == b.neighbor_count(x, y),
    {
        reveal(Board::neighbor_count);
    }

    /// Well-formedness: positive dimensions, both buffers exactly
    /// `width * height` long, and that product representable as a `usize`.
    pub open spec fn wf(self) -> bool {
        &&& 0 < self.width
        &&& 0 < self.height
        &&& (self.width as int) * (self.height as int) <= usize::MAX as int
        &&& self.squares@.len() == (self.width as int) * (self.height as int)
        &&& self.next_squares@.len() == (self.width as int) * (self.height as int)
    }

    /// The position is a valid index into the grid, no wrapping needed.
    pub open spec fn in_range(self, x: int, y: int) -> bool {
        &&& 0 <= x < self.width as int
        &&& 0 <= y < self.height as int
    }

    /// Flat row-major index of an in-range position.
    pub open spec fn idx(self, x: int, y: int) -> int {
        y * (self.width as int) + x
    }

    /// Current-generation square at an in-range position.
    pub open spec fn at(self, x: int, y: int) -> Square {
        self.squares@[self.idx(x, y)]
    }

    /// Scratch-buffer square at an in-range position.
    pub open spec fn at_next(self, x: int, y: int) -> Square {
        self.next_squares@[self.idx(x, y)]
    }

    /// The domain on which `wrap` lands inside the grid: one wraparound or
    /// reflection step suffices. Outside it the reflected coordinate would
    /// itself be out of range.
    pub open spec fn wrap_ok(self, x: int, y: int) -> bool {
        &&& -(self.width as int) <= x <= self.width as int
        &&& -(self.height as int) <= y <= self.height as int
    }

    /// Current-generation square at an arbitrary position, after
    /// normalizing each axis with `wrap_coord`.
    pub open spec fn at_wrapped(self, x: int, y: int) -> Square {
        self.at(wrap_coord(self.width as int, x), wrap_coord(self.height as int, y))
    }

    /// The positions at Chebyshev distance 1 from `(x, y)` all lie in the
    /// domain of `wrap`.
    pub open spec fn neighbor_ok(self, x: int, y: int) -> bool {
        &&& -(self.width as int) < x < self.width as int
        &&& -(self.height as int) < y < self.height as int
    }

    /// 1 if the wrapped position holds a live square, else 0.
    pub open spec fn alive_one(self, x: int, y: int) -> int {
        if self.at_wrapped(x, y) is Alive {
            1
        } else {
            0
        }
    }

    /// Number of live squares among the 8 neighbors of `(x, y)` — the
    /// positions at Chebyshev distance 1, each looked up after wrapping.
    #[verifier::opaque]
    pub open spec fn neighbor_count(self, x: int, y: int) -> int {
        self.alive_one(x - 1, y - 1) + self.alive_one(x, y - 1) + self.alive_one(x + 1, y - 1)
            + self.alive_one(x - 1, y) + self.alive_one(x + 1, y) + self.alive_one(x - 1, y + 1)
            + self.alive_one(x, y + 1) + self.alive_one(x + 1, y + 1)
    }

    /// Creates a board of the given dimensions with every square dead.
    pub fn new(width: i32, height: i32) -> (b: Board)
        requires
            0 < width,
            0 < height,
            (width as int) * (height as int) <= usize::MAX as int,
        ensures
            b.wf(),
            b.width == width,
            b.height == height,
            forall|x: int, y: int| b.in_range(x, y) ==> b.at(x, y) is Dead,
    {
        let n = (width as usize) * (height as usize);
        let squares = vec![Square::Dead; n];
        let next_squares = vec![Square::Dead; n];
        let b = Board { height, width, squares, next_squares };
        proof {
            assert forall|x: int, y: int| b.in_range(x, y) implies b.at(x, y) is Dead by {
                lemma_idx_bounds(width as int, height as int, x, y);
            }
        }
        b
    }

    /// Normalizes a coordinate pair into an in-range index pair, wrapping
    /// a negative coordinate around from the far edge and reflecting one
    /// at or past it.
    pub fn wrap(&self, x: i32, y: i32) -> (r: (usize, usize))
        requires
            self.wf(),
            self.wrap_ok(x as int, y as int),
        ensures
            r.0 as int == wrap_coord(self.width as int, x as int),
            r.1 as int == wrap_coord(self.height as int, y as int),
            self.in_range(r.0 as int, r.1 as int),
    {
        let mut x = x;
        let mut y = y;
        if y < 0 {
            y = self.height + y;
        }
        if x < 0 {
            x = self.width + x;
        }
        if y >= self.height {
            y = self.height - y;
        }
        if x >= self.width {
            x = self.width - x;
        }
        (x as usize, y as usize)
    }

    /// Flat index of an in-range position, for indexing either buffer.
    fn index_of(&self, x: usize, y: usize) -> (i: usize)
        requires
            self.wf(),
            self.in_range(x as int, y as int),
        ensures
            i as int == self.idx(x as int, y as int),
            i < self.squares@.len(),
            i < self.next_squares@.len(),
    {
        proof {
            lemma_idx_bounds(self.width as int, self.height as int, x as int, y as int);
        }
        y * (self.width as usize) + x
    }

    /// Writes `value` into the current generation at an in-range position.
    pub fn set(&mut self, x: usize, y: usize, value: Square)
        requires
            old(self).wf(),
            old(self).in_range(x as int, y as int),
        ensures
            final(self).wf(),
            final(self).width == old(self).width,
            final(self).height == old(self).height,
            final(self).next_squares@ == old(self).next_squares@,
            final(self).squares@ == old(self).squares@.update(
                old(self).idx(x as int, y as int),
                value,
            ),
            final(self).at(x as int, y as int) == value,
            forall|i: int, j: int|
                old(self).in_range(i, j) && (i != x as int || j != y as int) ==> final(self).at(
                    i,
                    j,
                ) == old(self).at(i, j),
    {
        let i = self.index_of(x, y);
        self.squares[i] = value;
        proof {
            assert forall|i2: int, j2: int|
                old(self).in_range(i2, j2) && (i2 != x as int || j2 != y as int) implies self.at(
                i2,
                j2,
            ) == old(self).at(i2, j2) by {
                lemma_idx_bounds(self.width as int, self.height as int, i2, j2);
                if old(self).idx(i2, j2) == old(self).idx(x as int, y as int) {
                    lemma_idx_injective(self.width as int, i2, j2, x as int, y as int);
                }
            }
        }
    }

    /// Reads the current generation at an arbitrary position, wrapping it
    /// into range first.
    pub fn get(&self, x: i32, y: i32) -> (r: Square)
        requires
            self.wf(),
            self.wrap_ok(x as int, y as int),
        ensures
            r == self.at_wrapped(x as int, y as int),
            self.in_range(x as int, y as int) ==> r == self.at(x as int, y as int),
    {
        let (xx, yy) = self.wrap(x, y);
        let i = self.index_of(xx, yy);
        self.squares[i]
    }

    /// Counts the live squares among the 8 neighbors of `(x, y)`, looking
    /// each one up through `get` so that out-of-range neighbors wrap.
    pub fn get_number_of_neighbors(&self, x: i32, y: i32) -> (n: i32)
        requires
            self.wf(),
            self.neighbor_ok(x as int, y as int),
        ensures
            n as int == self.neighbor_count(x as int, y as int),
            0 <= n <= 8,
    {
        proof {
            reveal(Board::neighbor_count);
        }
        let mut n: i32 = 0;
        if self.get(x - 1, y - 1) == Square::Alive {
            n += 1;
        }
        if self.get(x, y - 1) == Square::Alive {
            n += 1;
        }
        if self.get(x + 1, y - 1) == Square::Alive {
            n += 1;
        }
        if self.get(x - 1, y) == Square::Alive {
            n += 1;
        }
        if self.get(x + 1, y) == Square::Alive {
            n += 1;
        }
        if self.get(x - 1, y + 1) == Square::Alive {
            n += 1;
        }
        if self.get(x, y + 1) == Square::Alive {
            n += 1;
        }
        if self.get(x + 1, y + 1) == Square::Alive {
            n += 1;
        }
        n
    }

    /// Writes `value` into the scratch buffer at the wrapped position.
    pub fn set_next(&mut self, xx: i32, yy: i32, value: Square)
        requires
            old(self).wf(),
            old(self).wrap_ok(xx as int, yy as int),
        ensures
            final(self).wf(),
            final(self).width == old(self).width,
            final(self).height == old(self).height,
            final(self).squares@ == old(self).squares@,
            final(self).next_squares@ == old(self).next_squares@.update(
                old(self).idx(
                    wrap_coord(old(self).width as int, xx as int),
                    wrap_coord(old(self).height as int, yy as int),
                ),
                value,
            ),
            final(self).at_next(
                wrap_coord(old(self).width as int, xx as int),
                wrap_coord(old(self).height as int, yy as int),
            ) == value,
            forall|i: int, j: int|
                old(self).in_range(i, j) && (i != wrap_coord(old(self).width as int, xx as int)
                    || j != wrap_coord(old(self).height as int, yy as int))
                    ==> final(self).at_next(i, j) == old(self).at_next(i, j),
    {
        let (x, y) = self.wrap(xx, yy);
        let i = self.index_of(x, y);
        self.next_squares[i] = value;
        proof {
            let wx = wrap_coord(old(self).width as int, xx as int);
            let wy = wrap_coord(old(self).height as int, yy as int);
            assert forall|i2: int, j2: int|
                old(self).in_range(i2, j2) && (i2 != wx || j2 != wy) implies self.at_next(i2, j2)
                == old(self).at_next(i2, j2) by {
                lemma_idx_bounds(self.width as int, self.height as int, i2, j2);
                if old(self).idx(i2, j2) == old(self).idx(wx, wy) {
                    lemma_idx_injective(self.width as int, i2, j2, wx, wy);
                }
            }
        }
    }

    /// Computes the successor of the square at `(x, y)` from its live
    /// neighbor count and stores it in the scratch buffer; the current
    /// generation is left untouched.
    pub fn apply_rules(&mut self, x: i32, y: i32)
        requires
            old(self).wf(),
            old(self).neighbor_ok(x as int, y as int),
        ensures
            final(self).wf(),
            final(self).width == old(self).width,
            final(self).height == old(self).height,
            final(self).squares@ == old(self).squares@,
            final(self).at_next(
                wrap_coord(old(self).width as int, x as int),
                wrap_coord(old(self).height as int, y as int),
            ) == next_square(
                old(self).at_wrapped(x as int, y as int),
                old(self).neighbor_count(x as int, y as int),
            ),
            forall|i: int, j: int|
                old(self).in_range(i, j) && (i != wrap_coord(old(self).width as int, x as int)
                    || j != wrap_coord(old(self).height as int, y as int))
                    ==> final(self).at_next(i, j) == old(self).at_next(i, j),
    {
        let n = self.get_number_of_neighbors(x, y);
        if self.get(x, y) == Square::Alive {
            if n < 2 {
                self.set_next(x, y, Square::Dead);
            } else if n > 3 {
                self.set_next(x, y, Square::Dead);
            } else {
                self.set_next(x, y, Square::Alive);
            }
        } else {
            if n == 3 {
                self.set_next(x, y, Square::Alive);
            } else {
                self.set_next(x, y, Square::Dead);
            }
        }
    }

    /// Fills the scratch buffer with each square's successor, reading only
    /// the current generation.
    #[verifier::loop_isolation(false)]
    #[verifier::rlimit(50)]
    fn fill_next(&mut self)
        requires
            old(self).wf(),
        ensures
            final(self).wf(),
            final(self).width == old(self).width,
            final(self).height == old(self).height,
            final(self).squares@ == old(self).squares@,
            forall|i: int, j: int|
                old(self).in_range(i, j) ==> #[trigger] final(self).at_next(i, j) == next_square(
                    old(self).at(i, j),
                    old(self).neighbor_count(i, j),
                ),
    {
        let w = self.width;
        let h = self.height;
        let mut y: i32 = 0;
        while y < h
            invariant
                0 <= y <= h,
                self.width == w,
                self.height == h,
                self.wf(),
                self.squares@ == old(self).squares@,
                forall|i: int, j: int|
                    0 <= i < w as int && 0 <= j < y as int ==> #[trigger] self.at_next(i, j)
                        == next_square(old(self).at(i, j), old(self).neighbor_count(i, j)),
            decreases h - y,
        {
            let mut x: i32 = 0;
            while x < w
                invariant
                    0 <= x <= w,
                    0 <= y < h,
                    self.width == w,
                    self.height == h,
                    self.wf(),
                    self.squares@ == old(self).squares@,
                    forall|i: int, j: int|
                        0 <= i < w as int && 0 <= j < y as int ==> #[trigger] self.at_next(i, j)
                            == next_square(old(self).at(i, j), old(self).neighbor_count(i, j)),
                    forall|i: int|
                        0 <= i < x as int ==> #[trigger] self.at_next(i, y as int) == next_square(
                            old(self).at(i, y as int),
                            old(self).neighbor_count(i, y as int),
                        ),
                decreases w - x,
            {
                let ghost prev = *self;
                self.apply_rules(x, y);
                proof {
                    Board::lemma_neighbor_count_same_current(
                        prev,
                        *old(self),
                        x as int,
                        y as int,
                    );
                }
                x += 1;
            }
            y += 1;
        }
    }

    /// Copies the scratch buffer back into the current generation,
    /// position by position.
    #[verifier::loop_isolation(false)]
    fn copy_back(&mut self)
        requires
            old(self).wf(),
        ensures
            final(self).wf(),
            final(self).width == old(self).width,
            final(self).height == old(self).height,
            final(self).next_squares@ == old(self).next_squares@,
            final(self).squares@ == old(self).next_squares@,
    {
        let w = self.width;
        let h = self.height;
        let mut yy: i32 = 0;
        while yy < h
            invariant
                0 <= yy <= h,
                self.width == w,
                self.height == h,
                self.wf(),
                self.next_squares@ == old(self).next_squares@,
                forall|k: int|
                    0 <= k < (yy as int) * (w as int) ==> self.squares@[k]
                        == old(self).next_squares@[k],
            decreases h - yy,
        {
            let mut xx: i32 = 0;
            while xx < w
                invariant
                    0 <= xx <= w,
                    0 <= yy < h,
                    self.width == w,
                    self.height == h,
                    self.wf(),
                    self.next_squares@ == old(self).next_squares@,
                    forall|k: int|
                        0 <= k < (yy as int) * (w as int) + xx as int ==> self.squares@[k]
                            == old(self).next_squares@[k],
                decreases w - xx,
            {
                let (x2, y2) = self.wrap(xx, yy);
                let i = self.index_of(x2, y2);
                let v = self.next_squares[i];
                self.squares[i] = v;
                xx += 1;
            }
            proof {
                assert(((yy as int) + 1) * (w as int) == (yy as int) * (w as int) + w as int)
                    by (nonlinear_arith);
            }
            yy += 1;
        }
        proof {
            assert((h as int) * (w as int) == (w as int) * (h as int)) by (nonlinear_arith);
            assert(self.squares@ =~= old(self).next_squares@);
        }
    }

    /// Advances the board by one generation: fills the scratch buffer with
    /// each square's successor (reading only the current generation), then
    /// copies the scratch buffer back position by position.
    pub fn tick(&mut self)
        requires
            old(self).wf(),
        ensures
            final(self).wf(),
            final(self).width == old(self).width,
            final(self).height == old(self).height,
            stepped(*old(self), *final(self)),
    {
        self.fill_next();
        let ghost mid = *self;
        self.copy_back();
        proof {
            assert forall|x: int, y: int| old(self).in_range(x, y) implies #[trigger] self.at(x, y)
                == next_square(old(self).at(x, y), old(self).neighbor_count(x, y)) by {
                assert(mid.at_next(x, y) == next_square(
                    old(self).at(x, y),
                    old(self).neighbor_count(x, y),
                ));
            }
        }
    }
}

} // verus!
