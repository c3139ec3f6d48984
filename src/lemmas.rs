//! Lemmas on the board model: index arithmetic, counts, and the flood-fill
//! region.
use vstd::prelude::*;
use vstd::arithmetic::div_mod::{lemma_fundamental_div_mod, lemma_fundamental_div_mod_converse};
use crate::minesweeper::{GameBoard, Square};
use crate::model::{hidden_count, count_true};

verus! {

/// An in-grid coordinate names an index of the board, and comes back from it.
pub proof fn lemma_index(b: GameBoard, x: int, y: int)
    requires
        b.wf(),
        b.in_grid(x, y),
    ensures
        b.has(b.index_of(x, y)),
        b.col(b.index_of(x, y)) == x,
        b.row(b.index_of(x, y)) == y,
{
    let w = b.width as int;
    let h = b.height as int;
    assert(0 <= y * w + x < w * h) by (nonlinear_arith)
        requires
            0 <= x < w,
            0 <= y < h,
    ;
    lemma_fundamental_div_mod_converse(y * w + x, w, y, x);
}

/// Every index of the board is an in-grid coordinate.
pub proof fn lemma_coords(b: GameBoard, i: int)
    requires
        b.wf(),
        b.has(i),
    ensures
        b.in_grid(b.col(i), b.row(i)),
        b.index_of(b.col(i), b.row(i)) == i,
{
    let w = b.width as int;
    let h = b.height as int;
    assert(w > 0) by (nonlinear_arith)
        requires
            0 <= i < w * h,
            w >= 0,
            h >= 0,
    ;
    lemma_fundamental_div_mod(i, w);
    let q = i / w;
    let r = i % w;
    assert(0 <= r < w);
    assert(0 <= q < h) by (nonlinear_arith)
        requires
            i == w * q + r,
            0 <= r < w,
            0 <= i < w * h,
    ;
}

/// Revealing more squares never raises the number of hidden ones, and
/// revealing one more strictly lowers it.
pub proof fn lemma_hidden(s0: Seq<Square>, s1: Seq<Square>, i: int)
    requires
        s0.len() == s1.len(),
        forall|j: int| 0 <= j < s0.len() && (#[trigger] s0[j]).is_revealed ==> s1[j].is_revealed,
    ensures
        hidden_count(s1) <= hidden_count(s0),
        0 <= i < s0.len() && !s0[i].is_revealed && s1[i].is_revealed ==> hidden_count(s1) < hidden_count(
            s0,
        ),
    decreases s0.len(),
{
    if s0.len() > 0 {
        let n = s0.len() - 1;
        assert forall|j: int|
            0 <= j < s0.drop_last().len() && (#[trigger] s0.drop_last()[j]).is_revealed implies s1.drop_last()[j].is_revealed by {
            assert(s0[j].is_revealed);
        }
        lemma_hidden(s0.drop_last(), s1.drop_last(), i);
        assert(s0[n].is_revealed ==> s1[n].is_revealed);
    }
}

/// Changing one entry changes the count by what was there and what is put.
pub proof fn lemma_count_update(m: Seq<bool>, i: int, v: bool)
    requires
        0 <= i < m.len(),
    ensures
        count_true(m.update(i, v)) + (if m[i] { 1int } else { 0int }) == count_true(m) + (if v {
            1int
        } else {
            0int
        }),
    decreases m.len(),
{
    let u = m.update(i, v);
    if i == m.len() - 1 {
        assert(u.drop_last() =~= m.drop_last());
    } else {
        assert(u.drop_last() =~= m.drop_last().update(i, v));
        lemma_count_update(m.drop_last(), i, v);
    }
}

/// When every entry is set, the count is the length.
pub proof fn lemma_count_all(m: Seq<bool>)
    requires
        forall|i: int| 0 <= i < m.len() ==> #[trigger] m[i],
    ensures
        count_true(m) == m.len(),
    decreases m.len(),
{
    if m.len() > 0 {
        assert forall|i: int| 0 <= i < m.drop_last().len() implies #[trigger] m.drop_last()[i] by {
            assert(m[i]);
        }
        lemma_count_all(m.drop_last());
    }
}

/// When no entry is set, the count is zero.
pub proof fn lemma_count_none(m: Seq<bool>)
    requires
        forall|i: int| 0 <= i < m.len() ==> !#[trigger] m[i],
    ensures
        count_true(m) == 0,
    decreases m.len(),
{
    if m.len() > 0 {
        assert forall|i: int| 0 <= i < m.drop_last().len() implies !#[trigger] m.drop_last()[i] by {
            assert(!m[i]);
        }
        lemma_count_none(m.drop_last());
    }
}

/// No more entries are set than there are entries.
pub proof fn lemma_count_bound(m: Seq<bool>)
    ensures
        count_true(m) <= m.len(),
    decreases m.len(),
{
    if m.len() > 0 {
        lemma_count_bound(m.drop_last());
    }
}

/// A one-square path: a square that opens is in its own flood region.
pub proof fn lemma_flood_self(b: GameBoard, o: int)
    requires
        b.opens(o),
    ensures
        b.flood(o, o),
{
    let p = seq![o];
    assert(b.is_path(p) && p[0] == o && p.last() == o);
}

/// A board with more squares revealed has no more paths.
pub proof fn lemma_flood_mono(b0: GameBoard, b1: GameBoard, o: int, c: int)
    requires
        b0.reveals_only(b1),
        b1.flood(o, c),
    ensures
        b0.flood(o, c),
{
    let p = choose|p: Seq<int>| #[trigger] b1.is_path(p) && p[0] == o && p.last() == c;
    assert forall|t: int| 0 <= t < p.len() implies b0.opens(#[trigger] p[t]) by {
        assert(b1.opens(p[t]));
        assert(b1.squares@[p[t]].is_flagged == b0.squares@[p[t]].is_flagged);
    }
    assert forall|t: int| 0 <= t < p.len() - 1 implies b0.spreads(#[trigger] p[t]) && b0.adjacent(
        p[t],
        p[t + 1],
    ) by {
        assert(b1.spreads(p[t]));
        assert(b1.squares@[p[t]].square_type == b0.squares@[p[t]].square_type);
    }
    assert(b0.is_path(p));
}

/// A path from a neighbour of a spreading square is a path from that square.
pub proof fn lemma_flood_prepend(b: GameBoard, o: int, n: int, c: int)
    requires
        b.spreads(o),
        b.adjacent(o, n),
        b.flood(n, c),
    ensures
        b.flood(o, c),
{
    let p = choose|p: Seq<int>| #[trigger] b.is_path(p) && p[0] == n && p.last() == c;
    let q = seq![o] + p;
    assert forall|t: int| 0 <= t < q.len() implies b.opens(#[trigger] q[t]) by {
        if t > 0 {
            assert(q[t] == p[t - 1]);
        }
    }
    assert forall|t: int| 0 <= t < q.len() - 1 implies b.spreads(#[trigger] q[t]) && b.adjacent(
        q[t],
        q[t + 1],
    ) by {
        if t > 0 {
            assert(q[t] == p[t - 1]);
            assert(q[t + 1] == p[t]);
        }
    }
    assert(b.is_path(q) && q[0] == o && q.last() == c);
}

/// Once a square of a path is revealed by reveal steps, so is the rest of
/// the path: every opened blank square has had its neighbours revealed.
proof fn lemma_path_revealed(b0: GameBoard, b1: GameBoard, p: Seq<int>, j: int, k: int)
    requires
        b0.reveal_step(b1),
        b0.is_path(p),
        0 <= j <= k < p.len(),
        b1.revealed(p[j]),
    ensures
        b1.revealed(p[k]),
    decreases k - j,
{
    assert(b0.opens(p[k]));
    if k > j {
        lemma_path_revealed(b0, b1, p, j, k - 1);
        assert(b0.spreads(p[k - 1]) && b0.adjacent(p[k - 1], p[k]));
    }
}

/// After reveal steps, the flood region of `n` is revealed already or
/// still flooded from `n`.
pub proof fn lemma_flood_after(b0: GameBoard, b1: GameBoard, n: int, c: int)
    requires
        b0.reveal_step(b1),
        b0.flood(n, c),
    ensures
        b1.revealed(c) || b1.flood(n, c),
{
    let p = choose|p: Seq<int>| #[trigger] b0.is_path(p) && p[0] == n && p.last() == c;
    if exists|j: int| 0 <= j < p.len() && #[trigger] b1.revealed(p[j]) {
        let j = choose|j: int| 0 <= j < p.len() && #[trigger] b1.revealed(p[j]);
        lemma_path_revealed(b0, b1, p, j, p.len() - 1);
    } else {
        assert forall|t: int| 0 <= t < p.len() implies b1.opens(#[trigger] p[t]) by {
            assert(b0.opens(p[t]));
            assert(b1.squares@[p[t]].is_flagged == b0.squares@[p[t]].is_flagged);
        }
        assert forall|t: int| 0 <= t < p.len() - 1 implies b1.spreads(#[trigger] p[t]) && b1.adjacent(
            p[t],
            p[t + 1],
        ) by {
            assert(b0.spreads(p[t]));
            assert(b1.squares@[p[t]].square_type == b0.squares@[p[t]].square_type);
            assert(!b1.revealed(p[t]));
        }
        assert(b1.is_path(p));
    }
}

/// Once the start is revealed and every opened blank square has had its
/// neighbours revealed, the whole flood region is revealed.
pub proof fn lemma_flood_complete(b0: GameBoard, b1: GameBoard, o: int, c: int)
    requires
        b0.reveal_step(b1),
        b0.opens(o) ==> b1.revealed(o),
        b0.flood(o, c),
    ensures
        b1.revealed(c),
{
    let p = choose|p: Seq<int>| #[trigger] b0.is_path(p) && p[0] == o && p.last() == c;
    assert(b0.opens(p[0]));
    lemma_path_revealed(b0, b1, p, 0, p.len() - 1);
}

/// From a square that does not spread, a reveal opens only that square.
pub proof fn lemma_flood_stuck(b: GameBoard, o: int, c: int)
    requires
        !b.spreads(o),
        b.flood(o, c),
    ensures
        c == o,
        b.opens(o),
{
    let p = choose|p: Seq<int>| #[trigger] b.is_path(p) && p[0] == o && p.last() == c;
    assert(b.opens(p[0]));
    if p.len() > 1 {
        assert(b.spreads(p[0]));
    }
}

/// Boards that differ only by more reveals compose.
pub proof fn lemma_reveals_only_trans(b0: GameBoard, b1: GameBoard, b2: GameBoard)
    requires
        b0.reveals_only(b1),
        b1.reveals_only(b2),
    ensures
        b0.reveals_only(b2),
{
    assert forall|i: int| 0 <= i < b0.len() implies {
        &&& (#[trigger] b2.squares@[i]).square_type == b0.squares@[i].square_type
        &&& b2.squares@[i].is_flagged == b0.squares@[i].is_flagged
        &&& b2.squares@[i].numeral == b0.squares@[i].numeral
        &&& (b0.squares@[i].is_revealed ==> b2.squares@[i].is_revealed)
    } by {
        assert(b1.squares@[i].square_type == b0.squares@[i].square_type);
    }
}

/// Reveal steps compose.
pub proof fn lemma_step_trans(b0: GameBoard, b1: GameBoard, b2: GameBoard)
    requires
        b0.reveal_step(b1),
        b1.reveal_step(b2),
    ensures
        b0.reveal_step(b2),
{
    assert forall|i: int| 0 <= i < b0.len() implies {
        &&& (#[trigger] b2.squares@[i]).square_type == b0.squares@[i].square_type
        &&& b2.squares@[i].is_flagged == b0.squares@[i].is_flagged
        &&& b2.squares@[i].numeral == b0.squares@[i].numeral
        &&& (b0.squares@[i].is_revealed ==> b2.squares@[i].is_revealed)
    } by {
        assert(b1.squares@[i].square_type == b0.squares@[i].square_type);
    }
    assert forall|c: int, j: int|
        b0.has(c) && b0.has(j) && b2.revealed(c) && !b0.revealed(c) && b0.sq(c).blank()
            && #[trigger] b0.adjacent(c, j) implies b2.revealed(j) || b0.sq(j).is_flagged by {
        assert(b1.squares@[c].square_type == b0.squares@[c].square_type);
        assert(b1.squares@[j].square_type == b0.squares@[j].square_type);
        assert(b2.squares@[j].square_type == b1.squares@[j].square_type);
        if b1.revealed(c) {
            assert(b0.adjacent(c, j));
        } else {
            assert(b1.adjacent(c, j));
        }
    }
}

} // verus!
