//! The board engine: mine placement, numerals, reveal with flood-fill
//! cascade, chord, flag, and win / loss queries.
use vstd::prelude::*;
use vstd::arithmetic::div_mod::lemma_fundamental_div_mod_converse;
use rand::Rng;
use crate::model::{count_around, count_true, first_explosion, off_x, off_y, place_draws};
use crate::lemmas::{
    lemma_coords, lemma_count_all, lemma_count_bound, lemma_count_none, lemma_count_update,
    lemma_flood_after, lemma_flood_complete, lemma_flood_mono, lemma_flood_prepend, lemma_flood_self,
    lemma_flood_stuck, lemma_hidden, lemma_index, lemma_reveals_only_trans, lemma_step_trans,
};

verus! {

/// What went wrong with a request on the board.
#[derive(Debug, PartialEq, Eq, Structural, Clone, Copy)]
pub enum Error {
    ExcessiveMines,
    InvalidCoordinates,
    IndexOutOfBounds,
    InvalidCascade,
    UnexpectedResult,
}

/// Whether a square holds a mine.
#[derive(Debug, Copy, Clone, PartialEq, Eq, Structural)]
pub enum SquareType {
    Empty,
    Mine,
}

/// One square of the board.
#[derive(Debug, Copy, Clone, PartialEq, Eq, Structural)]
pub struct Square {
    pub is_revealed: bool,
    pub is_flagged: bool,
    pub square_type: SquareType,
    pub numeral: u32,
}

impl Default for Square {
    fn default() -> (r: Self)
        ensures
            r == Square::fresh(),
    {
        Square { is_revealed: false, is_flagged: false, numeral: 0, square_type: SquareType::Empty }
    }
}

impl Square {
    /// An unrevealed, unflagged mine.
    pub fn default_mine() -> (r: Self)
        ensures
            r == Square::fresh_mine(),
    {
        Square { is_revealed: false, is_flagged: false, numeral: 0, square_type: SquareType::Mine }
    }

    pub fn is_mine(&self) -> (r: bool)
        ensures
            r == self.mined(),
    {
        match self.square_type {
            SquareType::Mine => true,
            SquareType::Empty => false,
        }
    }
}

/// A square's position: column `x`, row `y`, both from 0.
#[derive(Debug, PartialEq, Eq, Structural, Clone, Copy)]
pub struct Coordinate {
    pub x: u32,
    pub y: u32,
}

impl From<(u32, u32)> for Coordinate {
    fn from(xy: (u32, u32)) -> (r: Self) {
        Coordinate { x: xy.0, y: xy.1 }
    }
}

impl vstd::std_specs::convert::FromSpecImpl<(u32, u32)> for Coordinate {
    open spec fn obeys_from_spec() -> bool {
        true
    }

    open spec fn from_spec(xy: (u32, u32)) -> Coordinate {
        Coordinate { x: xy.0, y: xy.1 }
    }
}

impl Coordinate {
    pub fn matches(&self, x: u32, y: u32) -> (r: bool)
        ensures
            r == (self.x == x && self.y == y),
    {
        self.x == x && self.y == y
    }
}

/// The three player actions.
pub enum RevealType {
    Reveal,
    Chord,
    Flag,
}

/// What a play did.
#[derive(Debug)]
pub enum PlayResult {
    /// The square's flag is now set (`true`) or cleared (`false`).
    Flagged(bool),
    /// A mine at this position was revealed.
    Explosion(Coordinate),
    NoChange,
    /// A single square with mined neighbours was revealed.
    Revealed(Coordinate),
    /// The results of revealing each square of a 3x3 neighbourhood in turn,
    /// column offset outer and row offset inner, the centre included.
    CascadedReveal(Vec<PlayResult>),
}

/// A minesweeper board of `width` x `height` squares, stored row by row.
#[derive(Debug, Clone)]
pub struct GameBoard {
    pub width: u32,
    pub height: u32,
    pub num_mines: u32,
    pub squares: Vec<Square>,
    pub is_populated: bool,
}

impl GameBoard {
    /// An unpopulated board of fresh squares.
    pub fn new(width: u32, height: u32) -> (r: GameBoard)
        requires
            width * height <= u32::MAX,
        ensures
            r.is_empty_board(width, height),
    {
        GameBoard { width, height, num_mines: 0, squares: fresh_squares(width * height), is_populated: false }
    }

    /// Index of an in-grid coordinate.
    fn xy_to_idx(&self, x: u32, y: u32) -> (r: u32)
        requires
            self.wf(),
            self.in_grid(x as int, y as int),
        ensures
            r as int == self.index_of(x as int, y as int),
            self.has(r as int),
    {
        proof {
            lemma_index(*self, x as int, y as int);
        }
        y * self.width + x
    }

    /// Coordinate of an index.
    pub fn idx_to_xy(&self, idx: u32) -> (r: Result<Coordinate, Error>)
        requires
            self.wf(),
        ensures
            self.has(idx as int) ==> r == Ok::<Coordinate, Error>(
                Coordinate { x: self.col(idx as int) as u32, y: self.row(idx as int) as u32 },
            ),
            !self.has(idx as int) ==> r == Err::<Coordinate, Error>(Error::IndexOutOfBounds),
            r is Ok ==> self.in_grid(r->Ok_0.x as int, r->Ok_0.y as int) && self.index_of(
                r->Ok_0.x as int,
                r->Ok_0.y as int,
            ) == idx,
    {
        if idx as usize >= self.squares.len() {
            Err(Error::IndexOutOfBounds)
        } else {
            proof {
                lemma_coords(*self, idx as int);
            }
            Ok(Coordinate { x: idx % self.width, y: idx / self.width })
        }
    }

    fn get_square_by_idx(&self, idx: u32) -> (r: Result<Square, Error>)
        ensures
            self.has(idx as int) ==> r == Ok::<Square, Error>(self.squares@[idx as int]),
            !self.has(idx as int) ==> r == Err::<Square, Error>(Error::InvalidCoordinates),
    {
        if idx as usize >= self.squares.len() {
            Err(Error::InvalidCoordinates)
        } else {
            Ok(self.squares[idx as usize])
        }
    }

    /// The square at `(x, y)`.
    pub fn get_square(&self, x: u32, y: u32) -> (r: Result<Square, Error>)
        requires
            self.wf(),
        ensures
            self.in_grid(x as int, y as int) ==> r == Ok::<Square, Error>(self.at(x as int, y as int)),
            !self.in_grid(x as int, y as int) ==> r == Err::<Square, Error>(Error::InvalidCoordinates),
    {
        if x >= self.width || y >= self.height {
            Err(Error::InvalidCoordinates)
        } else {
            self.get_square_by_idx(self.xy_to_idx(x, y))
        }
    }

    /// Whether `(x, y)` is on the board and mined; off-board is no mine.
    fn is_mine_protected(&self, x: i64, y: i64) -> (r: bool)
        requires
            self.wf(),
        ensures
            r == (self.in_grid(x as int, y as int) && self.mine_mask()[self.index_of(x as int, y as int)]),
    {
        if x < 0 || y < 0 || x >= self.width as i64 || y >= self.height as i64 {
            return false;
        }
        proof {
            lemma_index(*self, x as int, y as int);
        }
        match self.get_square(x as u32, y as u32) {
            Ok(sqr) => sqr.is_mine(),
            Err(_) => false,
        }
    }

    /// Whether `(x, y)` is on the board and flagged; off-board is no flag.
    fn is_flagged_protected(&self, x: i64, y: i64) -> (r: bool)
        requires
            self.wf(),
        ensures
            r == (self.in_grid(x as int, y as int) && self.flag_mask()[self.index_of(x as int, y as int)]),
    {
        if x < 0 || y < 0 || x >= self.width as i64 || y >= self.height as i64 {
            return false;
        }
        proof {
            lemma_index(*self, x as int, y as int);
        }
        match self.get_square(x as u32, y as u32) {
            Ok(sqr) => sqr.is_flagged,
            Err(_) => false,
        }
    }

    /// Number of flagged squares among the neighbours of `(x, y)`.
    pub fn flagged_neighbor_count(&self, x: u32, y: u32) -> (r: Result<u32, Error>)
        requires
            self.wf(),
        ensures
            self.in_grid(x as int, y as int) ==> r is Ok && r->Ok_0 as int == self.flagged_neighbours(
                x as int,
                y as int,
            ),
            !self.in_grid(x as int, y as int) ==> r == Err::<u32, Error>(Error::InvalidCoordinates),
    {
        if x >= self.width || y >= self.height {
            return Err(Error::InvalidCoordinates);
        }
        let mut acc: u32 = 0;
        let mut t: u32 = 0;
        while t < 9
            invariant
                t <= 9,
                acc <= t,
                self.wf(),
                acc as int == count_around(
                    self.width as int,
                    self.height as int,
                    self.flag_mask(),
                    x as int,
                    y as int,
                    t as int,
                ),
            decreases 9 - t,
        {
            let dx: i64 = (t / 3) as i64 - 1;
            let dy: i64 = (t % 3) as i64 - 1;
            if t != 4 && self.is_flagged_protected(x as i64 + dx, y as i64 + dy) {
                acc = acc + 1;
            }
            t = t + 1;
        }
        Ok(acc)
    }

    /// Number of mined squares among the neighbours of `(x, y)`.
    pub fn mined_neighbor_count(&self, x: u32, y: u32) -> (r: Result<u32, Error>)
        requires
            self.wf(),
        ensures
            self.in_grid(x as int, y as int) ==> r is Ok && r->Ok_0 as int == self.mined_neighbours(
                x as int,
                y as int,
            ),
            !self.in_grid(x as int, y as int) ==> r == Err::<u32, Error>(Error::InvalidCoordinates),
    {
        if x >= self.width || y >= self.height {
            return Err(Error::InvalidCoordinates);
        }
        let mut acc: u32 = 0;
        let mut t: u32 = 0;
        while t < 9
            invariant
                t <= 9,
                acc <= t,
                self.wf(),
                acc as int == count_around(
                    self.width as int,
                    self.height as int,
                    self.mine_mask(),
                    x as int,
                    y as int,
                    t as int,
                ),
            decreases 9 - t,
        {
            let dx: i64 = (t / 3) as i64 - 1;
            let dy: i64 = (t % 3) as i64 - 1;
            if t != 4 && self.is_mine_protected(x as i64 + dx, y as i64 + dy) {
                acc = acc + 1;
            }
            t = t + 1;
        }
        Ok(acc)
    }

    /// Sets every square's numeral to the number of mines around it.
    pub fn populate_numerals(&mut self) -> (r: Result<(), Error>)
        requires
            old(self).wf(),
        ensures
            r is Ok,
            final(self).wf(),
            final(self).width == old(self).width,
            final(self).height == old(self).height,
            final(self).num_mines == old(self).num_mines,
            final(self).is_populated == old(self).is_populated,
            final(self).squares@.len() == old(self).squares@.len(),
            forall|i: int|
                0 <= i < old(self).len() ==> #[trigger] final(self).squares@[i] == old(self).squares@[i].with_numeral(
                    final(self).squares@[i].numeral,
                ),
            final(self).mine_mask() == old(self).mine_mask(),
            final(self).numerals_ok(),
    {
        let ghost b0 = *self;
        let n = self.squares.len();
        let mut i: usize = 0;
        while i < n
            invariant
                i <= n,
                n == b0.len(),
                b0.wf(),
                self.wf(),
                self.width == b0.width,
                self.height == b0.height,
                self.num_mines == b0.num_mines,
                self.is_populated == b0.is_populated,
                self.squares@.len() == n,
                self.mine_mask() == b0.mine_mask(),
                forall|j: int|
                    0 <= j < n ==> #[trigger] self.squares@[j] == b0.squares@[j].with_numeral(
                        self.squares@[j].numeral,
                    ),
                forall|j: int|
                    0 <= j < i ==> (#[trigger] self.squares@[j]).numeral as int == b0.mined_neighbours(
                        b0.col(j),
                        b0.row(j),
                    ),
            decreases n - i,
        {
            proof {
                lemma_coords(*self, i as int);
            }
            let x = (i as u32) % self.width;
            let y = (i as u32) / self.width;
            let c = match self.mined_neighbor_count(x, y) {
                Ok(c) => c,
                Err(_) => 0,
            };
            let mut sq = self.squares[i];
            sq.numeral = c;
            self.squares.set(i, sq);
            proof {
                assert(self.mine_mask() =~= b0.mine_mask());
            }
            i = i + 1;
        }
        Ok(())
    }

    /// The indices of the squares that can take a mine, in order.
    fn free_squares(&self, keep: i64) -> (r: Vec<usize>)
        requires
            self.wf(),
        ensures
            r@.len() == count_true(self.free_mask(keep as int)),
            forall|q: int|
                0 <= q < r@.len() ==> self.has(#[trigger] r@[q] as int) && self.free_mask(
                    keep as int,
                )[r@[q] as int],
    {
        let ghost m = self.free_mask(keep as int);
        let n = self.squares.len();
        let mut r: Vec<usize> = Vec::new();
        let mut j: usize = 0;
        while j < n
            invariant
                j <= n,
                n == self.len(),
                m == self.free_mask(keep as int),
                n <= u32::MAX,
                r@.len() == count_true(m.take(j as int)),
                forall|q: int| 0 <= q < r@.len() ==> (#[trigger] r@[q] as int) < n && m[r@[q] as int],
            decreases n - j,
        {
            proof {
                assert(m.take(j as int + 1).drop_last() =~= m.take(j as int));
                assert(m.take(j as int + 1).last() == m[j as int]);
                assert(m[j as int] == (!self.squares@[j as int].mined() && j as int != keep as int));
                lemma_count_bound(m.take(j as int));
            }
            if !self.squares[j].is_mine() && j as i64 != keep {
                r.push(j);
            }
            j = j + 1;
        }
        proof {
            assert(m.take(n as int) =~= m);
        }
        r
    }

    /// Places `num_mines` mines at random on squares that hold none, never on
    /// `keep_clear`, then computes every numeral. Each mine goes to a square
    /// drawn uniformly from those that can still take one. Fails with
    /// `ExcessiveMines`, leaving the board as it is, when fewer squares can take
    /// a mine than asked (in particular when `num_mines` exceeds the board).
    pub fn populate_mines_around(&mut self, num_mines: u32, keep_clear: Option<Coordinate>) -> (r:
        Result<(), Error>)
        requires
            old(self).wf(),
        ensures
            final(self).wf(),
            r is Err <==> num_mines > count_true(old(self).free_mask(old(self).keep_index(keep_clear))),
            num_mines > old(self).width * old(self).height ==> r is Err,
            (forall|i: int| 0 <= i < old(self).len() ==> !(#[trigger] old(self).squares@[i]).mined()) ==> (r is Err
                <==> num_mines + (if old(self).keep_index(keep_clear) >= 0 {
                1int
            } else {
                0int
            }) > old(self).width * old(self).height),
            r is Err ==> r == Err::<(), Error>(Error::ExcessiveMines) && *final(self) == *old(self),
            r is Ok ==> {
                &&& final(self).width == old(self).width
                &&& final(self).height == old(self).height
                &&& final(self).num_mines == num_mines
                &&& final(self).is_populated
                &&& final(self).mine_total() == old(self).mine_total() + num_mines
                &&& final(self).numerals_ok()
                &&& forall|i: int|
                    0 <= i < old(self).len() ==> #[trigger] final(self).squares@[i].with_numeral(0)
                        == if !old(self).squares@[i].mined() && final(self).squares@[i].mined() {
                        Square::fresh_mine()
                    } else {
                        old(self).squares@[i].with_numeral(0)
                    }
                &&& old(self).keep_index(keep_clear) >= 0 ==> final(self).squares@[old(
                    self,
                ).keep_index(keep_clear)].mined() == old(self).squares@[old(self).keep_index(
                    keep_clear,
                )].mined()
            },
    {
        let ghost b0 = *self;
        proof {
            lemma_count_bound(self.free_mask(self.keep_index(keep_clear)));
            if forall|i: int| 0 <= i < b0.len() ==> !(#[trigger] b0.squares@[i]).mined() {
                if b0.keep_index(keep_clear) >= 0 {
                    let c = keep_clear->Some_0;
                    lemma_index(b0, c.x as int, c.y as int);
                }
                b0.lemma_free_without_mines(b0.keep_index(keep_clear));
            }
        }
        if num_mines > self.width * self.height {
            return Err(Error::ExcessiveMines);
        }
        let keep: i64 = match &keep_clear {
            Some(c) => if c.x < self.width && c.y < self.height {
                self.xy_to_idx(c.x, c.y) as i64
            } else {
                -1
            },
            None => -1,
        };
        proof {
            assert(keep as int == b0.keep_index(keep_clear));
        }
        let free = self.free_squares(keep);
        if num_mines as usize > free.len() {
            return Err(Error::ExcessiveMines);
        }
        let ghost f0 = count_true(b0.free_mask(keep as int));
        let mut placed: u32 = 0;
        while placed < num_mines
            invariant
                placed <= num_mines,
                num_mines <= f0,
                f0 == count_true(b0.free_mask(keep as int)),
                keep as int == b0.keep_index(keep_clear),
                b0.wf(),
                self.wf(),
                self.width == b0.width,
                self.height == b0.height,
                self.num_mines == b0.num_mines,
                self.is_populated == b0.is_populated,
                self.squares@.len() == b0.squares@.len(),
                count_true(self.free_mask(keep as int)) + placed == f0,
                self.mine_total() == b0.mine_total() + placed,
                forall|i: int|
                    0 <= i < b0.len() ==> #[trigger] self.squares@[i] == if !b0.squares@[i].mined()
                        && self.squares@[i].mined() {
                        Square::fresh_mine()
                    } else {
                        b0.squares@[i]
                    },
                forall|i: int|
                    0 <= i < b0.len() && !b0.squares@[i].mined() && (#[trigger] self.squares@[i]).mined()
                        ==> i != keep,
            decreases num_mines - placed,
        {
            let cand = self.free_squares(keep);
            let k = random_below(cand.len());
            let i = cand[k];
            proof {
                lemma_count_update(self.free_mask(keep as int), i as int, false);
                lemma_count_update(self.mine_mask(), i as int, true);
            }
            let ghost before = *self;
            let _ = self.place_mine_from_draw(i, keep_clear);
            proof {
                assert(self.free_mask(keep as int) =~= before.free_mask(keep as int).update(i as int, false));
                assert(self.mine_mask() =~= before.mine_mask().update(i as int, true));
            }
            placed = placed + 1;
        }
        self.num_mines = num_mines;
        self.is_populated = true;
        let ghost placed_board = *self;
        let _ = self.populate_numerals();
        proof {
            assert forall|i: int| 0 <= i < b0.len() implies #[trigger] self.squares@[i].with_numeral(0)
                == if !b0.squares@[i].mined() && self.squares@[i].mined() {
                Square::fresh_mine()
            } else {
                b0.squares@[i].with_numeral(0)
            } by {
                assert(self.squares@[i] == placed_board.squares@[i].with_numeral(self.squares@[i].numeral));
                assert(placed_board.mine_mask()[i] == self.mine_mask()[i]);
            }
            if keep >= 0 {
                let q = keep as int;
                assert(placed_board.mine_mask()[q] == self.mine_mask()[q]);
            }
        }
        Ok(())
    }

    /// Places a mine at square `draw` (row by row) when it is on the board,
    /// holds no mine and is not `keep_clear`; says whether it did.
    pub fn place_mine_from_draw(&mut self, draw: usize, keep_clear: Option<Coordinate>) -> (placed: bool)
        requires
            old(self).wf(),
        ensures
            final(self).wf(),
            placed == (old(self).has(draw as int) && !old(self).squares@[draw as int].mined() && draw as int
                != old(self).keep_index(keep_clear)),
            placed ==> old(self).changed_at(*final(self), draw as int, Square::fresh_mine()),
            !placed ==> *final(self) == *old(self),
    {
        if draw >= self.squares.len() || self.squares[draw].is_mine() {
            return false;
        }
        match &keep_clear {
            Some(c) => {
                if c.x < self.width && c.y < self.height && self.xy_to_idx(c.x, c.y) as usize == draw {
                    return false;
                }
            },
            None => {},
        }
        self.squares.set(draw, Square::default_mine());
        true
    }

    /// Places `num_mines` mines from the given draws instead of at random,
    /// then computes every numeral. The draws are taken in order; each names
    /// a square row by row and places a mine there when it is on the board,
    /// holds no mine and is not `keep_clear`, until enough are placed. Fails
    /// with `ExcessiveMines`, leaving the board as it is, when `num_mines`
    /// exceeds the board, and with `UnexpectedResult` when the draws run out
    /// first (the mines they placed stay, the board stays unpopulated).
    pub fn populate_mines_from_draws(
        &mut self,
        num_mines: u32,
        keep_clear: Option<Coordinate>,
        draws: &[usize],
    ) -> (r: Result<(), Error>)
        requires
            old(self).wf(),
        ensures
            final(self).wf(),
            num_mines > old(self).width * old(self).height ==> r == Err::<(), Error>(Error::ExcessiveMines)
                && *final(self) == *old(self),
            num_mines <= old(self).width * old(self).height ==> {
                let p = place_draws(
                    old(self).mine_mask(),
                    old(self).keep_index(keep_clear),
                    draws@,
                    num_mines as nat,
                );
                &&& final(self).width == old(self).width
                &&& final(self).height == old(self).height
                &&& final(self).mine_mask() == p.0
                &&& (r is Ok <==> p.1 == 0)
                &&& r is Err ==> r == Err::<(), Error>(Error::UnexpectedResult) && final(self).num_mines
                    == old(self).num_mines && final(self).is_populated == old(self).is_populated
                &&& r is Ok ==> final(self).num_mines == num_mines && final(self).is_populated
                    && final(self).numerals_ok()
                &&& forall|i: int|
                    0 <= i < old(self).len() ==> #[trigger] final(self).squares@[i].with_numeral(0)
                        == if !old(self).squares@[i].mined() && final(self).squares@[i].mined() {
                        Square::fresh_mine()
                    } else {
                        old(self).squares@[i].with_numeral(0)
                    }
            },
    {
        if num_mines > self.width * self.height {
            return Err(Error::ExcessiveMines);
        }
        let ghost b0 = *self;
        let ghost keep = b0.keep_index(keep_clear);
        let ghost goal = place_draws(b0.mine_mask(), keep, draws@, num_mines as nat);
        let mut need: u32 = num_mines;
        let mut i: usize = 0;
        proof {
            assert(draws@.subrange(0, draws@.len() as int) =~= draws@);
        }
        while i < draws.len() && need > 0
            invariant
                i <= draws@.len(),
                need <= num_mines,
                b0.wf(),
                self.wf(),
                self.width == b0.width,
                self.height == b0.height,
                self.num_mines == b0.num_mines,
                self.is_populated == b0.is_populated,
                self.squares@.len() == b0.squares@.len(),
                keep == b0.keep_index(keep_clear),
                place_draws(self.mine_mask(), keep, draws@.subrange(i as int, draws@.len() as int), need as nat)
                    == goal,
                forall|j: int|
                    0 <= j < b0.len() ==> #[trigger] self.squares@[j] == if !b0.squares@[j].mined()
                        && self.squares@[j].mined() {
                        Square::fresh_mine()
                    } else {
                        b0.squares@[j]
                    },
            decreases draws@.len() - i,
        {
            let ghost before = *self;
            let ghost rest = draws@.subrange(i as int, draws@.len() as int);
            let placed = self.place_mine_from_draw(draws[i], keep_clear);
            proof {
                assert(rest.drop_first() =~= draws@.subrange(i as int + 1, draws@.len() as int));
                assert(rest[0] == draws@[i as int]);
                if placed {
                    assert(self.mine_mask() =~= before.mine_mask().update(draws@[i as int] as int, true));
                } else {
                    assert(self.mine_mask() =~= before.mine_mask());
                }
            }
            if placed {
                need = need - 1;
            }
            i = i + 1;
        }
        proof {
            if i == draws.len() {
                assert(draws@.subrange(i as int, draws@.len() as int).len() == 0);
            }
        }
        if need > 0 {
            return Err(Error::UnexpectedResult);
        }
        self.num_mines = num_mines;
        self.is_populated = true;
        let ghost placed_board = *self;
        let _ = self.populate_numerals();
        proof {
            assert forall|j: int| 0 <= j < b0.len() implies #[trigger] self.squares@[j].with_numeral(0)
                == if !b0.squares@[j].mined() && self.squares@[j].mined() {
                Square::fresh_mine()
            } else {
                b0.squares@[j].with_numeral(0)
            } by {
                assert(self.squares@[j] == placed_board.squares@[j].with_numeral(self.squares@[j].numeral));
                assert(placed_board.mine_mask()[j] == self.mine_mask()[j]);
            }
        }
        Ok(())
    }

    /// Places `num_mines` mines at random, then computes every numeral.
    pub fn populate_mines(&mut self, num_mines: u32) -> (r: Result<(), Error>)
        requires
            old(self).wf(),
        ensures
            final(self).wf(),
            r is Err <==> num_mines > count_true(old(self).free_mask(-1)),
            num_mines > old(self).width * old(self).height ==> r is Err,
            (forall|i: int| 0 <= i < old(self).len() ==> !(#[trigger] old(self).squares@[i]).mined()) ==> (r is Err
                <==> num_mines > old(self).width * old(self).height),
            r is Err ==> r == Err::<(), Error>(Error::ExcessiveMines) && *final(self) == *old(self),
            r is Ok ==> {
                &&& final(self).width == old(self).width
                &&& final(self).height == old(self).height
                &&& final(self).num_mines == num_mines
                &&& final(self).is_populated
                &&& final(self).mine_total() == old(self).mine_total() + num_mines
                &&& final(self).numerals_ok()
                &&& forall|i: int|
                    0 <= i < old(self).len() ==> #[trigger] final(self).squares@[i].with_numeral(0)
                        == if !old(self).squares@[i].mined() && final(self).squares@[i].mined() {
                        Square::fresh_mine()
                    } else {
                        old(self).squares@[i].with_numeral(0)
                    }
            },
    {
        self.populate_mines_around(num_mines, None)
    }

    /// Reveals `(x, y)`: a mine explodes, a square with mined neighbours is
    /// revealed alone, a blank square opens its whole flood region; a flagged
    /// or already revealed square is left as it is.
    pub fn reveal_square(&mut self, x: u32, y: u32) -> (r: Result<PlayResult, Error>)
        requires
            old(self).wf(),
        ensures
            final(self).wf(),
            old(self).reveal_outcome(*final(self), x as int, y as int, r),
        decreases old(self).hidden(), 1nat,
    {
        if x >= self.width || y >= self.height {
            return Err(Error::InvalidCoordinates);
        }
        let idx = self.xy_to_idx(x, y) as usize;
        let ghost o = idx as int;
        let ghost b0 = *self;
        let sqr = self.squares[idx];
        if sqr.is_mine() && !sqr.is_flagged {
            let mut s = sqr;
            s.is_revealed = true;
            self.squares.set(idx, s);
            proof {
                self.lemma_single_reveal(b0, o);
                assert(self.has(o) && self.squares@[o].mined() && self.squares@[o].is_revealed);
            }
            Ok(PlayResult::Explosion(Coordinate { x, y }))
        } else if !sqr.is_mine() && !sqr.is_flagged && !sqr.is_revealed {
            if sqr.numeral == 0 {
                let v = self.expand(x, y);
                proof {
                    lemma_flood_self(b0, o);
                    assert(self.revealed(o));
                }
                Ok(PlayResult::CascadedReveal(v))
            } else {
                let mut s = sqr;
                s.is_revealed = true;
                self.squares.set(idx, s);
                proof {
                    self.lemma_single_reveal(b0, o);
                }
                Ok(PlayResult::Revealed(Coordinate { x, y }))
            }
        } else {
            proof {
                assert forall|c: int| b0.has(c) implies (#[trigger] self.revealed(c) <==> b0.revealed(c)
                    || b0.flood(o, c)) by {
                    if b0.flood(o, c) {
                        lemma_flood_stuck(b0, o, c);
                    }
                }
            }
            Ok(PlayResult::NoChange)
        }
    }

    /// A board that differs from `b0` only by revealing square `o`, which
    /// does not spread, is what a reveal at `o` makes of `b0`.
    proof fn lemma_single_reveal(self, b0: GameBoard, o: int)
        requires
            b0.has(o),
            !b0.spreads(o),
            b0.opens(o),
            self.width == b0.width,
            self.height == b0.height,
            self.num_mines == b0.num_mines,
            self.is_populated == b0.is_populated,
            self.squares@ == b0.squares@.update(o, b0.squares@[o].with_revealed()),
            !b0.squares@[o].blank() || b0.squares@[o].is_revealed,
        ensures
            b0.revealed_from(self, o),
            b0.changed_at(self, o, b0.squares@[o].with_revealed()),
    {
        assert forall|c: int| b0.has(c) implies (#[trigger] self.revealed(c) <==> b0.revealed(c)
            || b0.flood(o, c)) by {
            if c == o {
                lemma_flood_self(b0, o);
            }
            if b0.flood(o, c) {
                lemma_flood_stuck(b0, o, c);
            }
        }
    }

    /// Reveals the unrevealed blank square `(x, y)`, then each square of its
    /// neighbourhood in turn.
    fn expand(&mut self, x: u32, y: u32) -> (r: Vec<PlayResult>)
        requires
            old(self).wf(),
            old(self).in_grid(x as int, y as int),
            old(self).spreads(old(self).index_of(x as int, y as int)),
        ensures
            final(self).wf(),
            old(self).revealed_from(*final(self), old(self).index_of(x as int, y as int)),
            exists|e: GameBoard|
                #[trigger] old(self).changed_at(
                    e,
                    old(self).index_of(x as int, y as int),
                    old(self).squares@[old(self).index_of(x as int, y as int)].with_revealed(),
                ) && e.cascade_exact(x as int, y as int, PlayResult::CascadedReveal(r)),
        decreases old(self).hidden(), 0nat,
    {
        let ghost b0 = *self;
        let idx = self.xy_to_idx(x, y) as usize;
        let ghost o = idx as int;
        let mut sq = self.squares[idx];
        sq.is_revealed = true;
        self.squares.set(idx, sq);
        let ghost e = *self;
        proof {
            lemma_hidden(b0.squares@, e.squares@, o);
            assert(b0.reveals_only(e));
        }
        let v = self.reveal_neighbours(x, y);
        proof {
            let b1 = *self;
            lemma_reveals_only_trans(b0, e, b1);
            assert forall|c: int, j: int|
                b0.has(c) && b0.has(j) && b1.revealed(c) && !b0.revealed(c) && b0.sq(c).blank()
                    && #[trigger] b0.adjacent(c, j) implies b1.revealed(j) || b0.sq(j).is_flagged by {
                assert(e.squares@[j].is_flagged == b0.squares@[j].is_flagged);
                if c == o {
                    assert(e.adjacent(o, j));
                } else {
                    assert(e.squares@[c] == b0.squares@[c]);
                    assert(e.adjacent(c, j));
                }
            }
            assert(b0.reveal_step(b1));
            assert forall|c: int| b0.has(c) implies (#[trigger] b1.revealed(c) <==> b0.revealed(c)
                || b0.flood(o, c)) by {
                if b1.revealed(c) && !b0.revealed(c) {
                    if e.revealed(c) {
                        assert(c == o);
                        lemma_flood_self(b0, o);
                    } else {
                        assert(e.flood_around(o, c));
                        let n = choose|n: int| e.has(n) && e.adjacent(o, n) && #[trigger] e.flood(n, c);
                        lemma_flood_mono(b0, e, n, c);
                        lemma_flood_prepend(b0, o, n, c);
                    }
                }
                if b0.flood(o, c) {
                    lemma_flood_complete(b0, b1, o, c);
                }
            }
            assert(b0.changed_at(e, o, b0.squares@[o].with_revealed()));
        }
        v
    }

    /// Reveals `(x, y)` where it lies on the board; elsewhere nothing changes.
    fn reveal_protected(&mut self, x: i64, y: i64) -> (r: PlayResult)
        requires
            old(self).wf(),
        ensures
            final(self).wf(),
            old(self).fits(x as int, y as int, r),
            old(self).in_grid(x as int, y as int) ==> old(self).revealed_from(
                *final(self),
                old(self).index_of(x as int, y as int),
            ),
            !old(self).in_grid(x as int, y as int) ==> *final(self) == *old(self) && r
                == PlayResult::NoChange,
            old(self).in_grid(x as int, y as int) ==> old(self).reveal_outcome(
                *final(self),
                x as int,
                y as int,
                Ok(r),
            ),
        decreases old(self).hidden(), 2nat,
    {
        if x < 0 || y < 0 || x >= self.width as i64 || y >= self.height as i64 {
            return PlayResult::NoChange;
        }
        match self.reveal_square(x as u32, y as u32) {
            Ok(res) => res,
            Err(_) => PlayResult::NoChange,
        }
    }

    /// Reveals each square of the 3x3 neighbourhood of `(x, y)` in turn,
    /// column offset outer and row offset inner, and lists the results.
    fn reveal_neighbours(&mut self, x: u32, y: u32) -> (r: Vec<PlayResult>)
        requires
            old(self).wf(),
            old(self).in_grid(x as int, y as int),
        ensures
            final(self).wf(),
            old(self).revealed_around(*final(self), old(self).index_of(x as int, y as int)),
            old(self).cascade_exact(x as int, y as int, PlayResult::CascadedReveal(r)),
            forall|n: int|
                old(self).has(n) && #[trigger] old(self).adjacent(old(self).index_of(x as int, y as int), n)
                    ==> final(self).revealed(n) || old(self).squares@[n].is_flagged,
        decreases old(self).hidden(), 3nat,
    {
        let ghost b0 = *self;
        let ghost o = b0.index_of(x as int, y as int);
        proof {
            lemma_index(b0, x as int, y as int);
        }
        let mut results: Vec<PlayResult> = Vec::new();
        let mut t: u32 = 0;
        while t < 9
            invariant
                t <= 9,
                results@.len() == t,
                b0 == *old(self),
                b0.wf(),
                self.wf(),
                b0.in_grid(x as int, y as int),
                o == b0.index_of(x as int, y as int),
                b0.has(o),
                b0.col(o) == x,
                b0.row(o) == y,
                b0.reveal_step(*self),
                self.hidden() <= b0.hidden(),
                forall|c: int|
                    b0.has(c) ==> (#[trigger] self.revealed(c) <==> b0.revealed(c) || b0.opened_by_first(
                        x as int,
                        y as int,
                        t as int,
                        c,
                    )),
                forall|n: int|
                    b0.has(n) && #[trigger] b0.adjacent(o, n) && b0.rank(o, n) < t ==> self.revealed(n)
                        || b0.squares@[n].is_flagged,
                forall|s: int| 0 <= s < t ==> b0.entry_exact(x as int, y as int, s, #[trigger] results@[s]),
            decreases 9 - t,
        {
            let dx: i64 = (t / 3) as i64 - 1;
            let dy: i64 = (t % 3) as i64 - 1;
            let ghost prev = *self;
            let ghost nx = x + off_x(t as int);
            let ghost ny = y + off_y(t as int);
            let res = self.reveal_protected(x as i64 + dx, y as i64 + dy);
            proof {
                let cur = *self;
                if prev.in_grid(nx, ny) {
                    let n = prev.index_of(nx, ny);
                    lemma_index(prev, nx, ny);
                    lemma_step_trans(b0, prev, cur);
                    assert(b0.adjacent(o, n));
                    assert forall|c: int| b0.has(c) implies (#[trigger] cur.revealed(c) <==> b0.revealed(c)
                        || b0.opened_by_first(x as int, y as int, t + 1, c)) by {
                        if !prev.revealed(c) && prev.flood(n, c) {
                            lemma_flood_mono(b0, prev, n, c);
                        }
                        if b0.flood(n, c) {
                            lemma_flood_after(b0, prev, n, c);
                        }
                        if b0.opened_by_first(x as int, y as int, t + 1, c) {
                            let s = choose|s: int|
                                0 <= s < t + 1 && b0.in_grid(x + off_x(s), y + off_y(s)) && #[trigger] b0.flood(
                                    b0.index_of(x + off_x(s), y + off_y(s)),
                                    c,
                                );
                            if s < t {
                                assert(b0.opened_by_first(x as int, y as int, t as int, c));
                            }
                        }
                        if b0.opened_by_first(x as int, y as int, t as int, c) {
                            let s = choose|s: int|
                                0 <= s < t && b0.in_grid(x + off_x(s), y + off_y(s)) && #[trigger] b0.flood(
                                    b0.index_of(x + off_x(s), y + off_y(s)),
                                    c,
                                );
                            assert(b0.opened_by_first(x as int, y as int, t + 1, c));
                        }
                        if cur.revealed(c) && !prev.revealed(c) {
                            assert(b0.flood(n, c));
                            assert(b0.in_grid(x + off_x(t as int), y + off_y(t as int)) && b0.flood(
                                b0.index_of(x + off_x(t as int), y + off_y(t as int)),
                                c,
                            ));
                            assert(b0.opened_by_first(x as int, y as int, t + 1, c));
                        }
                    }
                    assert(prev.revealed(n) <==> b0.revealed(n) || b0.opened_by_first(
                        x as int,
                        y as int,
                        t as int,
                        n,
                    ));
                    if !b0.squares@[n].is_flagged && !b0.squares@[n].mined() && !prev.revealed(n)
                        && b0.squares@[n].numeral == 0 {
                        let e = choose|e: GameBoard|
                            #[trigger] prev.changed_at(e, n, prev.squares@[n].with_revealed()) && e.cascade_exact(
                                nx,
                                ny,
                                res,
                            );
                        assert forall|i: int| 0 <= i < b0.len() implies {
                            &&& (#[trigger] e.squares@[i]).square_type == b0.squares@[i].square_type
                            &&& e.squares@[i].is_flagged == b0.squares@[i].is_flagged
                            &&& e.squares@[i].numeral == b0.squares@[i].numeral
                            &&& e.squares@[i].is_revealed == (b0.squares@[i].is_revealed
                                || b0.opened_by_first(x as int, y as int, t as int, i) || i == n)
                        } by {
                            assert(prev.squares@[i].square_type == b0.squares@[i].square_type);
                            assert(prev.revealed(i) <==> b0.revealed(i) || b0.opened_by_first(
                                x as int,
                                y as int,
                                t as int,
                                i,
                            ));
                        }
                        assert(b0.revealed_before(e, x as int, y as int, t as int, n));
                    }
                    assert(b0.entry_exact(x as int, y as int, t as int, res));
                    assert forall|m: int|
                        b0.has(m) && #[trigger] b0.adjacent(o, m) && b0.rank(o, m) < t + 1 implies cur.revealed(m)
                            || b0.squares@[m].is_flagged by {
                        if b0.rank(o, m) == t {
                            lemma_fundamental_div_mod_converse(
                                t as int,
                                3,
                                b0.col(m) - b0.col(o) + 1,
                                b0.row(m) - b0.row(o) + 1,
                            );
                            lemma_coords(b0, m);
                            assert(m == n);
                            assert(prev.squares@[n].is_flagged == b0.squares@[n].is_flagged);
                            if !prev.squares@[n].is_flagged {
                                lemma_flood_self(prev, n);
                            }
                        } else {
                            assert(prev.revealed(m) || b0.squares@[m].is_flagged);
                        }
                    }
                    assert(prev.squares@[n].square_type == b0.squares@[n].square_type);
                    assert(prev.squares@[n].numeral == b0.squares@[n].numeral);
                    assert(prev.squares@[n].is_flagged == b0.squares@[n].is_flagged);
                } else {
                    assert forall|c: int| b0.has(c) implies (#[trigger] cur.revealed(c) <==> b0.revealed(c)
                        || b0.opened_by_first(x as int, y as int, t + 1, c)) by {
                        if b0.opened_by_first(x as int, y as int, t + 1, c) {
                            let s = choose|s: int|
                                0 <= s < t + 1 && b0.in_grid(x + off_x(s), y + off_y(s)) && #[trigger] b0.flood(
                                    b0.index_of(x + off_x(s), y + off_y(s)),
                                    c,
                                );
                            assert(b0.opened_by_first(x as int, y as int, t as int, c));
                        }
                        if b0.opened_by_first(x as int, y as int, t as int, c) {
                            let s = choose|s: int|
                                0 <= s < t && b0.in_grid(x + off_x(s), y + off_y(s)) && #[trigger] b0.flood(
                                    b0.index_of(x + off_x(s), y + off_y(s)),
                                    c,
                                );
                            assert(b0.opened_by_first(x as int, y as int, t + 1, c));
                        }
                    }
                    assert forall|m: int|
                        b0.has(m) && #[trigger] b0.adjacent(o, m) && b0.rank(o, m) < t + 1 implies cur.revealed(m)
                            || b0.squares@[m].is_flagged by {
                        if b0.rank(o, m) == t {
                            lemma_fundamental_div_mod_converse(
                                t as int,
                                3,
                                b0.col(m) - b0.col(o) + 1,
                                b0.row(m) - b0.row(o) + 1,
                            );
                            lemma_coords(b0, m);
                        }
                    }
                }
                lemma_hidden(b0.squares@, cur.squares@, 0);
            }
            results.push(res);
            t = t + 1;
        }
        proof {
            let b1 = *self;
            assert forall|n: int|
                b0.has(n) && #[trigger] b0.adjacent(o, n) implies b1.revealed(n) || b0.squares@[n].is_flagged by {
                assert(b0.rank(o, n) < 9);
            }
            assert forall|c: int| b0.has(c) implies (#[trigger] b1.revealed(c) <==> b0.revealed(c)
                || b0.flood_around(o, c)) by {
                if b0.flood_around(o, c) {
                    let n = choose|n: int| b0.has(n) && b0.adjacent(o, n) && #[trigger] b0.flood(n, c);
                    lemma_flood_complete(b0, b1, n, c);
                }
                if b0.opened_by_first(x as int, y as int, 9, c) {
                    let s = choose|s: int|
                        0 <= s < 9 && b0.in_grid(x + off_x(s), y + off_y(s)) && #[trigger] b0.flood(
                            b0.index_of(x + off_x(s), y + off_y(s)),
                            c,
                        );
                    let n = b0.index_of(x + off_x(s), y + off_y(s));
                    lemma_index(b0, x + off_x(s), y + off_y(s));
                    assert(b0.has(n) && b0.adjacent(o, n) && b0.flood(n, c));
                }
            }
            assert(results@.len() == 9);
        }
        results
    }

    /// Opens the flood region of the blank square `(x, y)`: reveals it, then
    /// each square around it in turn.
    pub fn cascade_from(&mut self, x: u32, y: u32) -> (r: Result<PlayResult, Error>)
        requires
            old(self).wf(),
        ensures
            final(self).wf(),
            !old(self).in_grid(x as int, y as int) ==> r == Err::<PlayResult, Error>(
                Error::InvalidCoordinates,
            ) && *final(self) == *old(self),
            old(self).in_grid(x as int, y as int) ==> {
                let o = old(self).index_of(x as int, y as int);
                let s = old(self).squares@[o];
                &&& !s.blank() ==> r == Err::<PlayResult, Error>(Error::InvalidCascade) && *final(self)
                    == *old(self)
                &&& s.blank() ==> r is Ok && r->Ok_0 is CascadedReveal
                &&& s.blank() && !s.is_revealed ==> old(self).revealed_from(*final(self), o) && exists|
                    e: GameBoard,
                | #[trigger] old(self).changed_at(e, o, s.with_revealed()) && e.cascade_exact(
                    x as int,
                    y as int,
                    r->Ok_0,
                )
                &&& s.blank() && s.is_revealed ==> old(self).revealed_around(*final(self), o) && old(
                    self,
                ).cascade_exact(x as int, y as int, r->Ok_0)
            },
    {
        if x >= self.width || y >= self.height {
            return Err(Error::InvalidCoordinates);
        }
        let idx = self.xy_to_idx(x, y) as usize;
        let sqr = self.squares[idx];
        if sqr.is_mine() || sqr.is_flagged || sqr.numeral > 0 {
            return Err(Error::InvalidCascade);
        }
        if sqr.is_revealed {
            Ok(PlayResult::CascadedReveal(self.reveal_neighbours(x, y)))
        } else {
            Ok(PlayResult::CascadedReveal(self.expand(x, y)))
        }
    }

    /// Toggles the flag of `(x, y)` and returns its new state; a revealed
    /// square cannot be flagged.
    pub fn flag(&mut self, x: u32, y: u32) -> (r: Result<PlayResult, Error>)
        requires
            old(self).wf(),
        ensures
            final(self).wf(),
            old(self).flag_outcome(*final(self), x as int, y as int, r),
    {
        if x >= self.width || y >= self.height {
            Err(Error::InvalidCoordinates)
        } else {
            let idx = self.xy_to_idx(x, y) as usize;
            let mut sqr = self.squares[idx];
            if !sqr.is_revealed {
                sqr.is_flagged = !sqr.is_flagged;
                self.squares.set(idx, sqr);
                Ok(PlayResult::Flagged(self.squares[idx].is_flagged))
            } else {
                Ok(PlayResult::NoChange)
            }
        }
    }

    /// Whether `(x, y)` can be chorded: its numeral is zero, or exactly that
    /// many of its neighbours are flagged. Says nothing of whether the chord
    /// is safe.
    pub fn can_chord_square(&self, x: u32, y: u32) -> (r: Result<bool, Error>)
        requires
            self.wf(),
        ensures
            self.in_grid(x as int, y as int) ==> r == Ok::<bool, Error>(self.chordable(x as int, y as int)),
            !self.in_grid(x as int, y as int) ==> r == Err::<bool, Error>(Error::InvalidCoordinates),
    {
        if x >= self.width || y >= self.height {
            return Err(Error::InvalidCoordinates);
        }
        let sqr = match self.get_square(x, y) {
            Ok(s) => s,
            Err(e) => return Err(e),
        };
        let flagged = match self.flagged_neighbor_count(x, y) {
            Ok(n) => n,
            Err(e) => return Err(e),
        };
        Ok(sqr.numeral == 0 || sqr.numeral == flagged)
    }

    /// Chords `(x, y)`: where it can be chorded, reveals each square around it
    /// in turn.
    pub fn chord(&mut self, x: u32, y: u32) -> (r: Result<PlayResult, Error>)
        requires
            old(self).wf(),
        ensures
            final(self).wf(),
            old(self).chord_outcome(*final(self), x as int, y as int, r),
    {
        if x >= self.width || y >= self.height {
            return Err(Error::InvalidCoordinates);
        }
        match self.can_chord_square(x, y) {
            Ok(true) => Ok(PlayResult::CascadedReveal(self.reveal_neighbours(x, y))),
            Ok(false) => Ok(PlayResult::NoChange),
            Err(e) => Err(e),
        }
    }

    /// Every square without a mine is revealed; mines need not be flagged.
    pub fn is_win_configuration(&self) -> (r: bool)
        ensures
            r == self.is_won(),
    {
        let mut i: usize = 0;
        while i < self.squares.len()
            invariant
                i <= self.squares@.len(),
                forall|j: int| 0 <= j < i ==> (#[trigger] self.squares@[j]).mined() || self.squares@[j].is_revealed,
            decreases self.squares@.len() - i,
        {
            if !self.squares[i].is_mine() && !self.squares[i].is_revealed {
                return false;
            }
            i = i + 1;
        }
        true
    }

    /// Some mine is revealed.
    pub fn is_loss_configuration(&self) -> (r: bool)
        ensures
            r == self.is_lost(),
    {
        let mut i: usize = 0;
        while i < self.squares.len()
            invariant
                i <= self.squares@.len(),
                forall|j: int| 0 <= j < i ==> !((#[trigger] self.squares@[j]).mined() && self.squares@[j].is_revealed),
            decreases self.squares@.len() - i,
        {
            if self.squares[i].is_mine() && self.squares[i].is_revealed {
                assert(self.has(i as int) && self.squares@[i as int].mined() && self.squares@[i as int].is_revealed);
                return true;
            }
            i = i + 1;
        }
        false
    }

    /// Carries out one player action at `(x, y)`.
    pub fn play(&mut self, x: u32, y: u32, reveal_type: RevealType) -> (r: Result<PlayResult, Error>)
        requires
            old(self).wf(),
        ensures
            final(self).wf(),
            reveal_type is Flag ==> old(self).flag_outcome(*final(self), x as int, y as int, r),
            reveal_type is Reveal ==> old(self).reveal_outcome(*final(self), x as int, y as int, r),
            reveal_type is Chord ==> old(self).chord_outcome(*final(self), x as int, y as int, r),
    {
        match reveal_type {
            RevealType::Flag => self.flag(x, y),
            RevealType::Reveal => self.reveal_square(x, y),
            RevealType::Chord => self.chord(x, y),
        }
    }

    /// Number of flagged squares.
    pub fn num_flags(&self) -> (r: u32)
        requires
            self.wf(),
        ensures
            r == self.flag_total(),
    {
        let ghost m = self.flag_mask();
        let mut n: u32 = 0;
        let mut i: usize = 0;
        while i < self.squares.len()
            invariant
                self.wf(),
                m == self.flag_mask(),
                i <= self.squares@.len(),
                n == count_true(m.take(i as int)),
            decreases self.squares@.len() - i,
        {
            proof {
                assert(m.take(i as int + 1).drop_last() =~= m.take(i as int));
                lemma_count_bound(m.take(i as int + 1));
            }
            if self.squares[i].is_flagged {
                n = n + 1;
            }
            i = i + 1;
        }
        proof {
            assert(m.take(i as int) =~= m);
        }
        n
    }

    /// Flags exactly the mined squares.
    pub fn flag_all_mines(&mut self)
        requires
            old(self).wf(),
        ensures
            final(self).wf(),
            final(self).width == old(self).width,
            final(self).height == old(self).height,
            final(self).num_mines == old(self).num_mines,
            final(self).is_populated == old(self).is_populated,
            final(self).squares@.len() == old(self).squares@.len(),
            forall|i: int|
                0 <= i < old(self).len() ==> #[trigger] final(self).squares@[i] == old(self).squares@[i].with_flag(
                    old(self).squares@[i].mined(),
                ),
    {
        let n = self.squares.len();
        let mut i: usize = 0;
        while i < n
            invariant
                i <= n,
                n == old(self).squares@.len(),
                self.width == old(self).width,
                self.height == old(self).height,
                self.num_mines == old(self).num_mines,
                self.is_populated == old(self).is_populated,
                self.squares@.len() == n,
                forall|j: int|
                    0 <= j < n ==> #[trigger] self.squares@[j] == if j < i {
                        old(self).squares@[j].with_flag(old(self).squares@[j].mined())
                    } else {
                        old(self).squares@[j]
                    },
            decreases n - i,
        {
            let mut sqr = self.squares[i];
            sqr.is_flagged = sqr.is_mine();
            self.squares.set(i, sqr);
            i = i + 1;
        }
    }

    /// Hides and unflags every square, keeping the mines and numerals.
    pub fn reset_existing(&mut self)
        requires
            old(self).wf(),
        ensures
            final(self).wf(),
            final(self).width == old(self).width,
            final(self).height == old(self).height,
            final(self).num_mines == old(self).num_mines,
            final(self).is_populated == old(self).is_populated,
            final(self).squares@.len() == old(self).squares@.len(),
            forall|i: int|
                0 <= i < old(self).len() ==> #[trigger] final(self).squares@[i] == old(self).squares@[i].with_flag(
                    false,
                ).with_hidden(),
    {
        let n = self.squares.len();
        let mut i: usize = 0;
        while i < n
            invariant
                i <= n,
                n == old(self).squares@.len(),
                self.width == old(self).width,
                self.height == old(self).height,
                self.num_mines == old(self).num_mines,
                self.is_populated == old(self).is_populated,
                self.squares@.len() == n,
                forall|j: int|
                    0 <= j < n ==> #[trigger] self.squares@[j] == if j < i {
                        old(self).squares@[j].with_flag(false).with_hidden()
                    } else {
                        old(self).squares@[j]
                    },
            decreases n - i,
        {
            let mut sqr = self.squares[i];
            sqr.is_flagged = false;
            sqr.is_revealed = false;
            self.squares.set(i, sqr);
            i = i + 1;
        }
    }

    /// Makes this board a new empty one of the same size: fresh squares, no
    /// mines, not populated.
    pub fn reset(&mut self)
        requires
            old(self).wf(),
        ensures
            final(self).is_empty_board(old(self).width, old(self).height),
    {
        self.num_mines = 0;
        self.is_populated = false;
        self.squares = fresh_squares(self.width * self.height);
    }

    /// A `width` x `height` board with `num_mines` mines placed at random and
    /// every numeral computed.
    pub fn new_populated(width: u32, height: u32, num_mines: u32) -> (r: Result<GameBoard, Error>)
        requires
            width * height <= u32::MAX,
        ensures
            r is Err <==> num_mines > width * height,
            r is Err ==> r == Err::<GameBoard, Error>(Error::ExcessiveMines),
            r is Ok ==> {
                let b = r->Ok_0;
                &&& b.wf()
                &&& b.width == width
                &&& b.height == height
                &&& b.num_mines == num_mines
                &&& b.is_populated
                &&& b.mine_total() == num_mines
                &&& b.numerals_ok()
                &&& forall|i: int| 0 <= i < b.len() ==> !(#[trigger] b.squares@[i]).is_revealed && !b.squares@[i].is_flagged
            },
    {
        let mut gb = Self::new(width, height);
        proof {
            gb.lemma_fresh_counts();
        }
        let ghost g0 = gb;
        match gb.populate_mines(num_mines) {
            Ok(()) => {},
            Err(e) => return Err(e),
        }
        proof {
            assert forall|i: int| 0 <= i < gb.len() implies !(#[trigger] gb.squares@[i]).is_revealed && !gb.squares@[i].is_flagged by {
                assert(g0.squares@[i] == Square::fresh());
                assert(gb.squares@[i].with_numeral(0).is_revealed == gb.squares@[i].is_revealed);
            }
        }
        Ok(gb)
    }

    /// A `width` x `height` board with `num_mines` mines placed at random,
    /// none at `keep_clear`, and every numeral computed.
    pub fn new_populated_around(width: u32, height: u32, num_mines: u32, keep_clear: Coordinate) -> (r:
        Result<GameBoard, Error>)
        requires
            width * height <= u32::MAX,
        ensures
            r is Err <==> num_mines + (if keep_clear.x < width && keep_clear.y < height {
                1int
            } else {
                0int
            }) > width * height,
            r is Err ==> r == Err::<GameBoard, Error>(Error::ExcessiveMines),
            r is Ok ==> {
                let b = r->Ok_0;
                &&& b.wf()
                &&& b.width == width
                &&& b.height == height
                &&& b.num_mines == num_mines
                &&& b.is_populated
                &&& b.mine_total() == num_mines
                &&& b.numerals_ok()
                &&& forall|i: int| 0 <= i < b.len() ==> !(#[trigger] b.squares@[i]).is_revealed && !b.squares@[i].is_flagged
                &&& b.in_grid(keep_clear.x as int, keep_clear.y as int) ==> !b.at(
                    keep_clear.x as int,
                    keep_clear.y as int,
                ).mined()
            },
    {
        let mut gb = Self::new(width, height);
        proof {
            gb.lemma_fresh_counts();
            if gb.in_grid(keep_clear.x as int, keep_clear.y as int) {
                lemma_index(gb, keep_clear.x as int, keep_clear.y as int);
            }
        }
        match gb.populate_mines_around(num_mines, Some(keep_clear)) {
            Ok(()) => {},
            Err(e) => return Err(e),
        }
        proof {
            assert forall|i: int| 0 <= i < gb.len() implies !(#[trigger] gb.squares@[i]).is_revealed && !gb.squares@[i].is_flagged by {
                assert(gb.squares@[i].with_numeral(0).is_revealed == gb.squares@[i].is_revealed);
            }
        }
        Ok(gb)
    }

    /// On a board of fresh squares no mine is placed yet.
    proof fn lemma_fresh_counts(self)
        requires
            forall|i: int| 0 <= i < self.len() ==> #[trigger] self.squares@[i] == Square::fresh(),
        ensures
            self.mine_total() == 0,
    {
        lemma_count_none(self.mine_mask());
    }

    /// On a board without mines every square but `keep` can take one.
    proof fn lemma_free_without_mines(self, keep: int)
        requires
            forall|i: int| 0 <= i < self.len() ==> !(#[trigger] self.squares@[i]).mined(),
            keep < self.len(),
        ensures
            count_true(self.free_mask(keep)) + (if keep >= 0 { 1int } else { 0int }) == self.len(),
    {
        let m = self.free_mask(keep);
        let all = Seq::new(self.squares@.len(), |i: int| true);
        lemma_count_all(all);
        if keep >= 0 {
            assert(m =~= all.update(keep, false));
            lemma_count_update(all, keep, false);
        } else {
            assert(m =~= all);
        }
    }
}

/// The coordinate of the first explosion in a list of results.
pub fn first_losing_square_of_vec(play_result: &[PlayResult]) -> (r: Option<Coordinate>)
    ensures
        r == first_explosion(play_result@),
{
    let mut i: usize = 0;
    proof {
        assert(play_result@.subrange(0, play_result@.len() as int) =~= play_result@);
    }
    while i < play_result.len()
        invariant
            i <= play_result@.len(),
            first_explosion(play_result@) == first_explosion(play_result@.subrange(i as int, play_result@.len() as int)),
        decreases play_result@.len() - i,
    {
        let ghost rest = play_result@.subrange(i as int, play_result@.len() as int);
        proof {
            assert(rest.drop_first() =~= play_result@.subrange(i as int + 1, play_result@.len() as int));
        }
        match &play_result[i] {
            PlayResult::Explosion(c) => return Some(*c),
            _ => {},
        }
        i = i + 1;
    }
    None
}

/// The coordinate of the explosion a play caused: the play's own, or the
/// first among the results of a cascade.
pub fn first_losing_square(play_result: &PlayResult) -> (r: Option<Coordinate>)
    ensures
        r == match play_result {
            PlayResult::Explosion(c) => Some(*c),
            PlayResult::CascadedReveal(v) => first_explosion(v@),
            _ => None,
        },
{
    match play_result {
        PlayResult::Explosion(c) => Some(*c),
        PlayResult::CascadedReveal(r) => first_losing_square_of_vec(r.as_slice()),
        _ => None,
    }
}

/// Relies on rand's `thread_rng().gen_range(0..bound)`: a number drawn from
/// `0..bound`, a range that is not empty here (gen_range panics on an empty one).
#[verifier::external_body]
fn random_below(bound: usize) -> (r: usize)
    requires
        bound > 0,
    ensures
        r < bound,
{
    rand::thread_rng().gen_range(0..bound)
}

/// `n` fresh squares.
fn fresh_squares(n: u32) -> (r: Vec<Square>)
    ensures
        r@.len() == n,
        forall|i: int| 0 <= i < n ==> #[trigger] r@[i] == Square::fresh(),
{
    let mut v: Vec<Square> = Vec::new();
    let mut i: u32 = 0;
    while i < n
        invariant
            i <= n,
            v@.len() == i,
            forall|j: int| 0 <= j < i ==> #[trigger] v@[j] == Square::fresh(),
        decreases n - i,
    {
        v.push(Square::default());
        i = i + 1;
    }
    v
}

} // verus!
