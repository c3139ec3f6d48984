//! Mathematical view of a board: squares addressed by index, the
//! neighbourhood relation, neighbour counts, and the flood-fill region that a
//! reveal opens.
use vstd::prelude::*;
use crate::minesweeper::{Coordinate, Error, GameBoard, PlayResult, Square, SquareType};

verus! {

/// Column offset of the `t`-th square of a 3x3 neighbourhood, `t` in `0..9`,
/// enumerated with the column offset outer and the row offset inner.
pub open spec fn off_x(t: int) -> int {
    t / 3 - 1
}

/// Row offset of the `t`-th square of a 3x3 neighbourhood.
pub open spec fn off_y(t: int) -> int {
    t % 3 - 1
}

/// How many of the first `t` squares of the 3x3 neighbourhood of `(x, y)`,
/// leaving out the centre, lie on a `w` x `h` grid and are set in `m`.
pub open spec fn count_around(w: int, h: int, m: Seq<bool>, x: int, y: int, t: int) -> int
    decreases t,
{
    if t <= 0 {
        0
    } else {
        let s = t - 1;
        let nx = x + off_x(s);
        let ny = y + off_y(s);
        count_around(w, h, m, x, y, s) + if s != 4 && 0 <= nx < w && 0 <= ny < h && m[ny * w + nx] {
            1int
        } else {
            0int
        }
    }
}

/// Number of unrevealed squares.
pub open spec fn hidden_count(s: Seq<Square>) -> nat
    decreases s.len(),
{
    if s.len() == 0 {
        0
    } else {
        hidden_count(s.drop_last()) + if s.last().is_revealed {
            0nat
        } else {
            1nat
        }
    }
}

/// Number of set entries.
pub open spec fn count_true(m: Seq<bool>) -> nat
    decreases m.len(),
{
    if m.len() == 0 {
        0
    } else {
        count_true(m.drop_last()) + if m.last() {
            1nat
        } else {
            0nat
        }
    }
}

/// The coordinate of the first explosion in a list of results, if any.
pub open spec fn first_explosion(s: Seq<PlayResult>) -> Option<Coordinate>
    decreases s.len(),
{
    if s.len() == 0 {
        None
    } else {
        match s[0] {
            PlayResult::Explosion(c) => Some(c),
            _ => first_explosion(s.drop_first()),
        }
    }
}

/// The mine mask after placing up to `need` mines from `draws` in order,
/// and how many are still needed: a draw places a mine when it names an
/// index of `m` that is not set and is not `keep`; other draws are skipped.
pub open spec fn place_draws(m: Seq<bool>, keep: int, draws: Seq<usize>, need: nat) -> (Seq<bool>, nat)
    decreases draws.len(),
{
    if need == 0 || draws.len() == 0 {
        (m, need)
    } else {
        let d = draws[0] as int;
        if 0 <= d < m.len() && !m[d] && d != keep {
            place_draws(m.update(d, true), keep, draws.drop_first(), (need - 1) as nat)
        } else {
            place_draws(m, keep, draws.drop_first(), need)
        }
    }
}

/// No explosion anywhere in `r`, nested cascades included.
pub open spec fn explosion_free(r: PlayResult) -> bool
    decreases r,
{
    match r {
        PlayResult::Explosion(_) => false,
        PlayResult::CascadedReveal(v) => forall|k: int| 0 <= k < v@.len() ==> explosion_free(#[trigger] v@[k]),
        _ => true,
    }
}

impl Square {
    pub open spec fn mined(self) -> bool {
        self.square_type == SquareType::Mine
    }

    /// Not a mine, not flagged, and no mined neighbour.
    pub open spec fn blank(self) -> bool {
        !self.mined() && !self.is_flagged && self.numeral == 0
    }

    /// The square as a fresh board holds it.
    pub open spec fn fresh() -> Square {
        Square { is_revealed: false, is_flagged: false, square_type: SquareType::Empty, numeral: 0 }
    }

    /// A freshly placed mine.
    pub open spec fn fresh_mine() -> Square {
        Square { is_revealed: false, is_flagged: false, square_type: SquareType::Mine, numeral: 0 }
    }

    pub open spec fn with_revealed(self) -> Square {
        Square {
            is_revealed: true,
            is_flagged: self.is_flagged,
            square_type: self.square_type,
            numeral: self.numeral,
        }
    }

    pub open spec fn with_flag(self, f: bool) -> Square {
        Square {
            is_revealed: self.is_revealed,
            is_flagged: f,
            square_type: self.square_type,
            numeral: self.numeral,
        }
    }

    pub open spec fn with_hidden(self) -> Square {
        Square {
            is_revealed: false,
            is_flagged: self.is_flagged,
            square_type: self.square_type,
            numeral: self.numeral,
        }
    }

    pub open spec fn with_numeral(self, n: u32) -> Square {
        Square {
            is_revealed: self.is_revealed,
            is_flagged: self.is_flagged,
            square_type: self.square_type,
            numeral: n,
        }
    }
}

impl GameBoard {
    /// The squares hold the whole `width` x `height` grid, row by row, and
    /// their number fits in a `u32`.
    pub open spec fn wf(self) -> bool {
        &&& self.squares@.len() == self.width * self.height
        &&& self.width * self.height <= u32::MAX
    }

    /// What `new(w, h)` makes: a well-formed `w` x `h` board of fresh
    /// squares, with no mines and not populated.
    pub open spec fn is_empty_board(self, w: u32, h: u32) -> bool {
        &&& self.wf()
        &&& self.width == w
        &&& self.height == h
        &&& self.num_mines == 0
        &&& !self.is_populated
        &&& forall|i: int| 0 <= i < self.len() ==> #[trigger] self.squares@[i] == Square::fresh()
    }

    pub open spec fn len(self) -> int {
        self.squares@.len() as int
    }

    pub open spec fn has(self, i: int) -> bool {
        0 <= i < self.len()
    }

    pub open spec fn in_grid(self, x: int, y: int) -> bool {
        0 <= x < self.width && 0 <= y < self.height
    }

    pub open spec fn index_of(self, x: int, y: int) -> int {
        y * self.width + x
    }

    pub open spec fn col(self, i: int) -> int {
        i % (self.width as int)
    }

    pub open spec fn row(self, i: int) -> int {
        i / (self.width as int)
    }

    pub open spec fn sq(self, i: int) -> Square {
        self.squares@[i]
    }

    pub open spec fn revealed(self, i: int) -> bool {
        self.squares@[i].is_revealed
    }

    /// The square at `(x, y)`.
    pub open spec fn at(self, x: int, y: int) -> Square {
        self.squares@[self.index_of(x, y)]
    }

    /// Squares `i` and `j` are in each other's 3x3 neighbourhood (a square
    /// counts as its own neighbour here).
    pub open spec fn adjacent(self, i: int, j: int) -> bool {
        &&& -1 <= self.col(i) - self.col(j) <= 1
        &&& -1 <= self.row(i) - self.row(j) <= 1
    }

    /// Position of `n` in the 3x3 neighbourhood of `o`, in enumeration order.
    pub open spec fn rank(self, o: int, n: int) -> int {
        (self.col(n) - self.col(o) + 1) * 3 + (self.row(n) - self.row(o) + 1)
    }

    pub open spec fn mine_mask(self) -> Seq<bool> {
        self.squares@.map_values(|s: Square| s.mined())
    }

    pub open spec fn flag_mask(self) -> Seq<bool> {
        self.squares@.map_values(|s: Square| s.is_flagged)
    }

    /// Which squares can take a mine: those not mined, but for index `keep`.
    pub open spec fn free_mask(self, keep: int) -> Seq<bool> {
        Seq::new(self.squares@.len(), |i: int| !self.squares@[i].mined() && i != keep)
    }

    pub open spec fn mine_total(self) -> nat {
        count_true(self.mine_mask())
    }

    pub open spec fn flag_total(self) -> nat {
        count_true(self.flag_mask())
    }

    /// Mines among the (at most eight) squares around `(x, y)`.
    pub open spec fn mined_neighbours(self, x: int, y: int) -> int {
        count_around(self.width as int, self.height as int, self.mine_mask(), x, y, 9)
    }

    /// Flags among the (at most eight) squares around `(x, y)`.
    pub open spec fn flagged_neighbours(self, x: int, y: int) -> int {
        count_around(self.width as int, self.height as int, self.flag_mask(), x, y, 9)
    }

    /// Every square's numeral is the number of mines around it.
    pub open spec fn numerals_ok(self) -> bool {
        forall|i: int|
            self.has(i) ==> (#[trigger] self.squares@[i]).numeral as int == self.mined_neighbours(
                self.col(i),
                self.row(i),
            )
    }

    /// A chord at `(x, y)` goes ahead: the square is blank of numeral, or
    /// exactly as many neighbours are flagged as its numeral says.
    pub open spec fn chordable(self, x: int, y: int) -> bool {
        let n = self.at(x, y).numeral as int;
        n == 0 || n == self.flagged_neighbours(x, y)
    }

    pub open spec fn hidden(self) -> nat {
        hidden_count(self.squares@)
    }

    pub open spec fn is_won(self) -> bool {
        forall|i: int| self.has(i) ==> (#[trigger] self.squares@[i]).mined() || self.squares@[i].is_revealed
    }

    pub open spec fn is_lost(self) -> bool {
        exists|i: int| self.has(i) && (#[trigger] self.squares@[i]).mined() && self.squares@[i].is_revealed
    }

    /// The index a kept-clear coordinate protects, or -1 where it protects none.
    pub open spec fn keep_index(self, kc: Option<Coordinate>) -> int {
        match kc {
            Some(c) => if self.in_grid(c.x as int, c.y as int) {
                self.index_of(c.x as int, c.y as int)
            } else {
                -1
            },
            None => -1,
        }
    }

    /// A reveal that reaches square `i` opens it: flags protect.
    pub open spec fn opens(self, i: int) -> bool {
        self.has(i) && !self.squares@[i].is_flagged
    }

    /// A reveal that reaches square `i` goes on to its neighbours.
    pub open spec fn spreads(self, i: int) -> bool {
        self.has(i) && self.squares@[i].blank() && !self.squares@[i].is_revealed
    }

    /// `p` is a path a reveal can follow: every square on it opens, and each
    /// square but the last spreads to the next, which is its neighbour.
    pub open spec fn is_path(self, p: Seq<int>) -> bool {
        &&& p.len() > 0
        &&& forall|t: int| 0 <= t < p.len() ==> self.opens(#[trigger] p[t])
        &&& forall|t: int|
            0 <= t < p.len() - 1 ==> self.spreads(#[trigger] p[t]) && self.adjacent(p[t], p[t + 1])
    }

    /// The squares that a reveal at `o` opens: the flood-fill region, the
    /// ends of paths from `o`.
    pub open spec fn flood(self, o: int, c: int) -> bool {
        exists|p: Seq<int>| #[trigger] self.is_path(p) && p[0] == o && p.last() == c
    }

    /// The squares that revealing each neighbour of `o` in turn opens.
    pub open spec fn flood_around(self, o: int, c: int) -> bool {
        exists|n: int| self.has(n) && self.adjacent(o, n) && #[trigger] self.flood(n, c)
    }

    /// `b` differs from `self` at most in which squares are revealed, and
    /// nothing revealed in `self` is hidden in `b`.
    pub open spec fn reveals_only(self, b: GameBoard) -> bool {
        &&& b.width == self.width
        &&& b.height == self.height
        &&& b.num_mines == self.num_mines
        &&& b.is_populated == self.is_populated
        &&& b.squares@.len() == self.squares@.len()
        &&& forall|i: int|
            0 <= i < self.len() ==> {
                &&& (#[trigger] b.squares@[i]).square_type == self.squares@[i].square_type
                &&& b.squares@[i].is_flagged == self.squares@[i].is_flagged
                &&& b.squares@[i].numeral == self.squares@[i].numeral
                &&& (self.squares@[i].is_revealed ==> b.squares@[i].is_revealed)
            }
    }

    /// Every blank square that `b` reveals and `self` did not has all its
    /// neighbours revealed or flagged in `b`.
    pub open spec fn spread_done(self, b: GameBoard) -> bool {
        forall|c: int, j: int|
            self.has(c) && self.has(j) && b.revealed(c) && !self.revealed(c) && self.sq(c).blank()
                && #[trigger] self.adjacent(c, j) ==> b.revealed(j) || self.sq(j).is_flagged
    }

    /// `b` follows from `self` by reveals.
    pub open spec fn reveal_step(self, b: GameBoard) -> bool {
        self.reveals_only(b) && self.spread_done(b)
    }

    /// `b` is what a reveal at square `o` makes of `self`: exactly the flood
    /// region of `o` is revealed in addition.
    pub open spec fn revealed_from(self, b: GameBoard, o: int) -> bool {
        &&& self.reveal_step(b)
        &&& forall|c: int| self.has(c) ==> (#[trigger] b.revealed(c) <==> self.revealed(c) || self.flood(o, c))
    }

    /// `b` is what revealing each neighbour of `o` in turn makes of `self`.
    pub open spec fn revealed_around(self, b: GameBoard, o: int) -> bool {
        &&& self.reveal_step(b)
        &&& forall|c: int|
            self.has(c) ==> (#[trigger] b.revealed(c) <==> self.revealed(c) || self.flood_around(o, c))
    }

    /// `r` is a result that revealing `(x, y)` on this board can give: the
    /// kind of result agrees with the square, only a hidden square is
    /// revealed or cascades, an unflagged mine always
    /// explodes, and off the board or on a flag nothing happens.
    pub open spec fn fits(self, x: int, y: int, r: PlayResult) -> bool {
        &&& (self.in_grid(x, y) && self.at(x, y).mined() && !self.at(x, y).is_flagged ==> r is Explosion)
        &&& (self.in_grid(x, y) && self.at(x, y).is_flagged ==> r is NoChange)
        &&& match r {
            PlayResult::NoChange => true,
            PlayResult::Explosion(c) => c.x as int == x && c.y as int == y && self.in_grid(x, y)
                && self.at(x, y).mined(),
            PlayResult::Revealed(c) => c.x as int == x && c.y as int == y && self.in_grid(x, y)
                && !self.at(x, y).mined() && self.at(x, y).numeral > 0 && !self.at(x, y).is_revealed,
            PlayResult::CascadedReveal(v) => self.in_grid(x, y) && self.at(x, y).blank()
                && !self.at(x, y).is_revealed && v@.len() == 9,
            PlayResult::Flagged(_) => false,
        }
    }

    /// What a flag at `(x, y)` does: off the board an error, on a revealed
    /// square nothing, elsewhere the flag is toggled and its new state returned.
    pub open spec fn flag_outcome(self, b: GameBoard, x: int, y: int, r: Result<PlayResult, Error>) -> bool {
        if !self.in_grid(x, y) {
            r == Err::<PlayResult, Error>(Error::InvalidCoordinates) && b == self
        } else {
            let o = self.index_of(x, y);
            let s = self.squares@[o];
            if s.is_revealed {
                r == Ok::<PlayResult, Error>(PlayResult::NoChange) && b == self
            } else {
                r == Ok::<PlayResult, Error>(PlayResult::Flagged(!s.is_flagged)) && self.changed_at(
                    b,
                    o,
                    s.with_flag(!s.is_flagged),
                )
            }
        }
    }

    /// What a reveal at `(x, y)` does: off the board an error; a mine that is
    /// not flagged explodes; a hidden square with mined neighbours is revealed
    /// alone; a hidden blank square opens its flood region, listing the
    /// results around it; a flagged or revealed square stays as it is.
    pub open spec fn reveal_outcome(self, b: GameBoard, x: int, y: int, r: Result<PlayResult, Error>) -> bool {
        if !self.in_grid(x, y) {
            r == Err::<PlayResult, Error>(Error::InvalidCoordinates) && b == self
        } else {
            let o = self.index_of(x, y);
            let s = self.squares@[o];
            &&& r is Ok
            &&& self.revealed_from(b, o)
            &&& !s.is_flagged ==> b.squares@[o].is_revealed
            &&& self.fits(x, y, r->Ok_0)
            &&& s.mined() && !s.is_flagged ==> r == Ok::<PlayResult, Error>(
                PlayResult::Explosion(Coordinate { x: x as u32, y: y as u32 }),
            ) && self.changed_at(b, o, s.with_revealed()) && b.is_lost()
            &&& !s.mined() && !s.is_flagged && !s.is_revealed && s.numeral > 0 ==> r == Ok::<
                PlayResult,
                Error,
            >(PlayResult::Revealed(Coordinate { x: x as u32, y: y as u32 })) && self.changed_at(
                b,
                o,
                s.with_revealed(),
            )
            &&& s.blank() && !s.is_revealed ==> exists|e: GameBoard|
                #[trigger] self.changed_at(e, o, s.with_revealed()) && e.cascade_exact(x, y, r->Ok_0)
            &&& self.reveal_is_idle(o) ==> r == Ok::<PlayResult, Error>(PlayResult::NoChange) && b == self
        }
    }

    /// What a chord at `(x, y)` does: off the board an error; where the flags
    /// around do not match the numeral nothing; else each square around is
    /// revealed in turn and the results listed.
    pub open spec fn chord_outcome(self, b: GameBoard, x: int, y: int, r: Result<PlayResult, Error>) -> bool {
        if !self.in_grid(x, y) {
            r == Err::<PlayResult, Error>(Error::InvalidCoordinates) && b == self
        } else if !self.chordable(x, y) {
            r == Ok::<PlayResult, Error>(PlayResult::NoChange) && b == self
        } else {
            &&& r is Ok
            &&& self.cascade_exact(x, y, r->Ok_0)
            &&& self.revealed_around(b, self.index_of(x, y))
        }
    }

    /// Square `c` is opened by revealing, in enumeration order, the first `t`
    /// squares of the 3x3 neighbourhood of `(x, y)`.
    pub open spec fn opened_by_first(self, x: int, y: int, t: int, c: int) -> bool {
        exists|s: int|
            0 <= s < t && self.in_grid(x + off_x(s), y + off_y(s)) && #[trigger] self.flood(
                self.index_of(x + off_x(s), y + off_y(s)),
                c,
            )
    }

    /// `e` is this board once the squares opened by revealing the first `t`
    /// squares around `(x, y)`, and square `n`, are revealed.
    pub open spec fn revealed_before(self, e: GameBoard, x: int, y: int, t: int, n: int) -> bool {
        &&& e.width == self.width
        &&& e.height == self.height
        &&& e.squares@.len() == self.squares@.len()
        &&& forall|i: int|
            0 <= i < self.len() ==> {
                &&& (#[trigger] e.squares@[i]).square_type == self.squares@[i].square_type
                &&& e.squares@[i].is_flagged == self.squares@[i].is_flagged
                &&& e.squares@[i].numeral == self.squares@[i].numeral
                &&& e.squares@[i].is_revealed == (self.squares@[i].is_revealed || self.opened_by_first(
                    x,
                    y,
                    t,
                    i,
                ) || i == n)
            }
    }

    /// `r` is the result of revealing the `t`-th square of the neighbourhood
    /// of `(x, y)` once the squares before it have been revealed: nothing off
    /// the board, on a flag, or on a square revealed by then; an explosion
    /// on a mine; a single reveal on a square with mined neighbours; else the
    /// cascade that revealing that square's own neighbourhood gives, on the
    /// board as it then stands.
    pub open spec fn entry_exact(self, x: int, y: int, t: int, r: PlayResult) -> bool
        decreases r, 1nat,
    {
        let nx = x + off_x(t);
        let ny = y + off_y(t);
        let n = self.index_of(nx, ny);
        let s = self.squares@[n];
        if !self.in_grid(nx, ny) || s.is_flagged {
            r == PlayResult::NoChange
        } else if s.mined() {
            r == PlayResult::Explosion(Coordinate { x: nx as u32, y: ny as u32 })
        } else if s.is_revealed || self.opened_by_first(x, y, t, n) {
            r == PlayResult::NoChange
        } else if s.numeral > 0 {
            r == PlayResult::Revealed(Coordinate { x: nx as u32, y: ny as u32 })
        } else {
            exists|e: GameBoard| #[trigger] self.revealed_before(e, x, y, t, n) && e.cascade_exact(nx, ny, r)
        }
    }

    /// `r` lists, entry by entry and at every depth, the results of revealing
    /// each square of the neighbourhood of `(x, y)` in turn, starting from
    /// this board.
    pub open spec fn cascade_exact(self, x: int, y: int, r: PlayResult) -> bool
        decreases r, 0nat,
    {
        match r {
            PlayResult::CascadedReveal(v) => v@.len() == 9 && forall|t: int|
                0 <= t < 9 ==> self.entry_exact(x, y, t, #[trigger] v@[t]),
            _ => false,
        }
    }

    /// `b` is `self` with square `i` changed to `s`.
    pub open spec fn changed_at(self, b: GameBoard, i: int, s: Square) -> bool {
        &&& b.width == self.width
        &&& b.height == self.height
        &&& b.num_mines == self.num_mines
        &&& b.is_populated == self.is_populated
        &&& b.squares@ == self.squares@.update(i, s)
    }

    /// A reveal at square `i` changes nothing: it is flagged, or a revealed
    /// square without a mine.
    pub open spec fn reveal_is_idle(self, i: int) -> bool {
        self.squares@[i].is_flagged || (!self.squares@[i].mined() && self.squares@[i].is_revealed)
    }
}

} // verus!
