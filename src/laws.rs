//! Properties that relate several calls, or hold of every board.
use vstd::prelude::*;
use vstd::arithmetic::div_mod::lemma_fundamental_div_mod_converse;
use crate::minesweeper::{Error, GameBoard, PlayResult};
use crate::model::{count_around, explosion_free, off_x, off_y};
use crate::lemmas::{lemma_coords, lemma_flood_self, lemma_index};

verus! {

/// Revealing a square without a mine twice: the first reveal reveals it
/// (alone or with its flood region) unless it is flagged or already
/// revealed, and the second one changes nothing and reports no change.
pub proof fn lemma_reveal_twice(
    b0: GameBoard,
    b1: GameBoard,
    b2: GameBoard,
    x: int,
    y: int,
    r1: Result<PlayResult, Error>,
    r2: Result<PlayResult, Error>,
)
    requires
        b0.wf(),
        b0.in_grid(x, y),
        !b0.at(x, y).mined(),
        b0.reveal_outcome(b1, x, y, r1),
        b1.reveal_outcome(b2, x, y, r2),
    ensures
        !b0.at(x, y).is_revealed && !b0.at(x, y).is_flagged ==> r1->Ok_0 is Revealed || r1->Ok_0 is CascadedReveal,
        r2 == Ok::<PlayResult, Error>(PlayResult::NoChange),
        b2 == b1,
{
    let o = b0.index_of(x, y);
    lemma_index(b0, x, y);
    if !b0.squares@[o].is_flagged {
        lemma_flood_self(b0, o);
        assert(b1.revealed(o));
    }
    assert(b1.squares@[o].square_type == b0.squares@[o].square_type);
    assert(b1.reveal_is_idle(o));
}

/// Flagging an unrevealed square twice sets the flag then clears it (or the
/// other way round), leaves the square unrevealed, and restores the board.
pub proof fn lemma_flag_twice(
    b0: GameBoard,
    b1: GameBoard,
    b2: GameBoard,
    x: int,
    y: int,
    r1: Result<PlayResult, Error>,
    r2: Result<PlayResult, Error>,
)
    requires
        b0.wf(),
        b0.in_grid(x, y),
        !b0.at(x, y).is_revealed,
        b0.flag_outcome(b1, x, y, r1),
        b1.flag_outcome(b2, x, y, r2),
    ensures
        r1 == Ok::<PlayResult, Error>(PlayResult::Flagged(!b0.at(x, y).is_flagged)),
        r2 == Ok::<PlayResult, Error>(PlayResult::Flagged(b0.at(x, y).is_flagged)),
        !b1.at(x, y).is_revealed,
        !b2.at(x, y).is_revealed,
        b2.squares@ == b0.squares@,
        b2.width == b0.width && b2.height == b0.height,
        b2.num_mines == b0.num_mines && b2.is_populated == b0.is_populated,
{
    let o = b0.index_of(x, y);
    lemma_index(b0, x, y);
    assert(b2.squares@ =~= b0.squares@);
}

/// A square with a numeral can be chorded exactly when that many of its
/// neighbours are flagged: a numeral-2 square with one flag around it cannot,
/// with two it can.
pub proof fn lemma_chord_needs_matching_flags(b: GameBoard, x: int, y: int)
    requires
        b.in_grid(x, y),
        b.at(x, y).numeral > 0,
    ensures
        b.chordable(x, y) <==> b.flagged_neighbours(x, y) == b.at(x, y).numeral,
        b.at(x, y).numeral == 2 && b.flagged_neighbours(x, y) == 1 ==> !b.chordable(x, y),
        b.at(x, y).numeral == 2 && b.flagged_neighbours(x, y) == 2 ==> b.chordable(x, y),
{
}

/// The count over a neighbourhood is at least each of its terms.
proof fn lemma_count_around_term(w: int, h: int, m: Seq<bool>, x: int, y: int, t: int, s: int)
    requires
        0 <= s < t,
        s != 4,
        0 <= x + off_x(s) < w,
        0 <= y + off_y(s) < h,
        m[(y + off_y(s)) * w + x + off_x(s)],
    ensures
        count_around(w, h, m, x, y, t) >= 1,
    decreases t,
{
    lemma_count_around_nonneg(w, h, m, x, y, t - 1);
    if s < t - 1 {
        lemma_count_around_term(w, h, m, x, y, t - 1, s);
    }
}

proof fn lemma_count_around_nonneg(w: int, h: int, m: Seq<bool>, x: int, y: int, t: int)
    ensures
        count_around(w, h, m, x, y, t) >= 0,
    decreases t,
{
    if t > 0 {
        lemma_count_around_nonneg(w, h, m, x, y, t - 1);
    }
}

/// On a board whose numerals are computed, a reveal opens no mine but
/// possibly the square it was aimed at: a blank square has no mined
/// neighbour.
pub proof fn lemma_flood_avoids_mines(b: GameBoard, o: int, c: int)
    requires
        b.wf(),
        b.numerals_ok(),
        b.flood(o, c),
        c != o,
    ensures
        !b.squares@[c].mined(),
{
    let p = choose|p: Seq<int>| #[trigger] b.is_path(p) && p[0] == o && p.last() == c;
    let n = p.len() - 1;
    assert(b.opens(p[n]));
    if n == 0 {
        assert(false);
    }
    let q = p[n - 1];
    assert(b.spreads(q) && b.adjacent(q, p[n]));
    if q != c && b.squares@[c].mined() {
        let w = b.width as int;
        lemma_coords(b, q);
        lemma_coords(b, c);
        let a = b.col(c) - b.col(q) + 1;
        let d = b.row(c) - b.row(q) + 1;
        let t = a * 3 + d;
        lemma_fundamental_div_mod_converse(t, 3, a, d);
        assert(t != 4);
        assert(b.mine_mask()[c]);
        assert(b.squares@[q].numeral as int == b.mined_neighbours(b.col(q), b.row(q)));
        lemma_count_around_term(
            w,
            b.height as int,
            b.mine_mask(),
            b.col(q),
            b.row(q),
            9,
            t,
        );
    }
}

/// On a board whose numerals are computed and where no mine is revealed,
/// revealing a square without a mine reveals no mine either.
pub proof fn lemma_safe_reveal_keeps_no_loss(
    b0: GameBoard,
    b1: GameBoard,
    x: int,
    y: int,
    r: Result<PlayResult, Error>,
)
    requires
        b0.wf(),
        b0.numerals_ok(),
        !b0.is_lost(),
        b0.in_grid(x, y),
        !b0.at(x, y).mined(),
        b0.reveal_outcome(b1, x, y, r),
    ensures
        !b1.is_lost(),
{
    let o = b0.index_of(x, y);
    lemma_index(b0, x, y);
    assert forall|i: int| b1.has(i) implies !((#[trigger] b1.squares@[i]).mined() && b1.squares@[i].is_revealed) by {
        assert(b1.squares@[i].square_type == b0.squares@[i].square_type);
        if b1.revealed(i) && !b0.revealed(i) && i != o {
            lemma_flood_avoids_mines(b0, o, i);
        }
        assert(!(b0.squares@[i].mined() && b0.squares@[i].is_revealed));
    }
}

/// A board that agrees with a board whose numerals are computed on mines
/// and numerals has its numerals computed too.
proof fn lemma_numerals_carry(b: GameBoard, e: GameBoard)
    requires
        b.wf(),
        b.numerals_ok(),
        e.width == b.width,
        e.height == b.height,
        e.squares@.len() == b.squares@.len(),
        forall|i: int|
            0 <= i < b.len() ==> (#[trigger] e.squares@[i]).square_type == b.squares@[i].square_type
                && e.squares@[i].numeral == b.squares@[i].numeral,
    ensures
        e.wf(),
        e.numerals_ok(),
{
    assert(e.mine_mask() =~= b.mine_mask());
    assert forall|i: int| e.has(i) implies (#[trigger] e.squares@[i]).numeral as int == e.mined_neighbours(
        e.col(i),
        e.row(i),
    ) by {
        assert(b.squares@[i].numeral as int == b.mined_neighbours(b.col(i), b.row(i)));
    }
}

/// On a board whose numerals are computed, the cascade that revealing the
/// neighbourhood of a blank square gives holds no explosion at any depth.
pub proof fn lemma_cascade_explosion_free(b: GameBoard, x: int, y: int, r: PlayResult)
    requires
        b.wf(),
        b.numerals_ok(),
        b.in_grid(x, y),
        b.at(x, y).blank(),
        b.cascade_exact(x, y, r),
    ensures
        explosion_free(r),
    decreases r,
{
    let v = r->CascadedReveal_0;
    let o = b.index_of(x, y);
    lemma_index(b, x, y);
    assert forall|t: int| 0 <= t < v@.len() implies explosion_free(#[trigger] v@[t]) by {
        let nx = x + off_x(t);
        let ny = y + off_y(t);
        assert(b.entry_exact(x, y, t, v@[t]));
        if b.in_grid(nx, ny) {
            let n = b.index_of(nx, ny);
            lemma_index(b, nx, ny);
            if b.squares@[n].mined() && !b.squares@[n].is_flagged {
                if t != 4 {
                    assert(b.mine_mask()[n]);
                    assert(b.squares@[o].numeral as int == b.mined_neighbours(b.col(o), b.row(o)));
                    lemma_count_around_term(
                        b.width as int,
                        b.height as int,
                        b.mine_mask(),
                        x,
                        y,
                        9,
                        t,
                    );
                }
            }
            if !b.squares@[n].is_flagged && !b.squares@[n].mined() && !b.squares@[n].is_revealed
                && !b.opened_by_first(x, y, t, n) && b.squares@[n].numeral == 0 {
                let e = choose|e: GameBoard|
                    #[trigger] b.revealed_before(e, x, y, t, n) && e.cascade_exact(nx, ny, v@[t]);
                lemma_numerals_carry(b, e);
                assert(e.squares@[n].square_type == b.squares@[n].square_type);
                lemma_cascade_explosion_free(e, nx, ny, v@[t]);
            }
        }
    }
}

/// On a board whose numerals are computed, the cascade that opening a
/// hidden blank square gives (its reveal, or `cascade_from`) holds no
/// explosion at any depth.
pub proof fn lemma_opened_cascade_explosion_free(b: GameBoard, x: int, y: int, r: PlayResult)
    requires
        b.wf(),
        b.numerals_ok(),
        b.in_grid(x, y),
        b.at(x, y).blank(),
        exists|e: GameBoard|
            #[trigger] b.changed_at(e, b.index_of(x, y), b.at(x, y).with_revealed()) && e.cascade_exact(
                x,
                y,
                r,
            ),
    ensures
        explosion_free(r),
{
    let o = b.index_of(x, y);
    lemma_index(b, x, y);
    let e = choose|e: GameBoard| #[trigger] b.changed_at(e, o, b.at(x, y).with_revealed()) && e.cascade_exact(x, y, r);
    assert forall|i: int| 0 <= i < b.len() implies (#[trigger] e.squares@[i]).square_type
        == b.squares@[i].square_type && e.squares@[i].numeral == b.squares@[i].numeral by {
        if i != o {
            assert(e.squares@[i] == b.squares@[i]);
        }
    }
    lemma_numerals_carry(b, e);
    lemma_cascade_explosion_free(e, x, y, r);
}

/// On a board whose numerals are computed, revealing a square without a
/// mine gives no explosion at any depth of its result.
pub proof fn lemma_reveal_explosion_free(
    b0: GameBoard,
    b1: GameBoard,
    x: int,
    y: int,
    r: Result<PlayResult, Error>,
)
    requires
        b0.wf(),
        b0.numerals_ok(),
        b0.in_grid(x, y),
        !b0.at(x, y).mined(),
        b0.reveal_outcome(b1, x, y, r),
    ensures
        explosion_free(r->Ok_0),
{
    let s = b0.at(x, y);
    if s.blank() && !s.is_revealed {
        lemma_opened_cascade_explosion_free(b0, x, y, r->Ok_0);
    } else {
        lemma_index(b0, x, y);
        if !s.is_flagged && !s.is_revealed {
            assert(s.numeral > 0);
        }
    }
}

} // verus!
