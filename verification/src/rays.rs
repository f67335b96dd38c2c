//! Walks along the templates that pieces have: one step in a straight
//! line, repeated or not, and two steps with a turn.

use vstd::prelude::*;
use crate::color::Color;
use crate::coord::Coord;
use crate::direction::Direction;
use crate::name::Name;
use crate::piece::Piece;
use crate::walk::{
    Placement, arrives, lemma_reached_by, lemma_rep_end, passes, rep_end, rep_start, runs, span_x,
    span_y, spread, step_to, walk_reaches,
};

verus! {

/// The squares one to `n` steps from `origin` in direction `d` are on the
/// board and empty.
pub open spec fn clear_toward(p: Placement, origin: Coord, d: Direction, n: int) -> bool {
    forall|m: int|
        1 <= m <= n ==> (#[trigger] origin.toward(d, m)).on_board() && !p.dom().contains(
            origin.toward(d, m),
        )
}

/// `n` times a unit is `n`, `-n` or 0.
pub open spec fn scaled(unit: int, n: int) -> int {
    if unit > 0 {
        n
    } else if unit < 0 {
        -n
    } else {
        0
    }
}

/// Steps in a direction, without a product: each axis moves by `n`, by
/// `-n` or not at all.
pub proof fn lemma_toward(origin: Coord, d: Direction)
    ensures
        forall|n: int| #[trigger]
            origin.toward(d, n) == origin.shift(scaled(d.dx(), n), scaled(d.dy(), n)),
{
    assert forall|n: int| #[trigger]
        origin.toward(d, n) == origin.shift(scaled(d.dx(), n), scaled(d.dy(), n)) by {
        assert(n * d.dx() == scaled(d.dx(), n)) by (nonlinear_arith)
            requires
                -1 <= d.dx() <= 1,
        ;
        assert(n * d.dy() == scaled(d.dy(), n)) by (nonlinear_arith)
            requires
                -1 <= d.dy() <= 1,
        ;
    }
}

/// A template of a single step `d` leads along a straight line: its
/// repetition `k` starts `k` steps from the origin, in the direction in
/// which the side takes the step, and ends one step further.
pub proof fn lemma_line(origin: Coord, color: Color, d: Direction, k: int)
    ensures
        rep_start(origin, color, seq![d], k) == origin.toward(color.faces(d), k),
        rep_end(origin, color, seq![d], k) == origin.toward(color.faces(d), k + 1),
{
    let t = seq![d];
    reveal_with_fuel(span_x, 2);
    reveal_with_fuel(span_y, 2);
    assert(t.len() == 1 && t[0] == d);
    assert(span_x(t, 1) == d.dx());
    assert(span_y(t, 1) == d.dy());
    d.lemma_reversed();
    lemma_toward(origin, color.faces(d));
    assert forall|i: int| #[trigger]
        rep_start(origin, color, t, i) == origin.toward(color.faces(d), i) by {
        assert(i * d.dx() == scaled(d.dx(), i)) by (nonlinear_arith)
            requires
                -1 <= d.dx() <= 1,
        ;
        assert(i * d.dy() == scaled(d.dy(), i)) by (nonlinear_arith)
            requires
                -1 <= d.dy() <= 1,
        ;
    }
    assert(rep_start(origin, color, t, k + 1) == origin.toward(color.faces(d), k + 1));
}

/// A template of two steps leads to the square one step from the origin
/// and then one step on, each in the direction in which the side takes it.
pub proof fn lemma_turn(origin: Coord, color: Color, d1: Direction, d2: Direction)
    ensures
        step_to(origin, color, seq![d1, d2], 1) == origin.toward(color.faces(d1), 1),
        step_to(origin, color, seq![d1, d2], 2) == origin.toward(color.faces(d1), 1).toward(
            color.faces(d2),
            1,
        ),
        rep_end(origin, color, seq![d1, d2], 0) == origin.toward(color.faces(d1), 1).toward(
            color.faces(d2),
            1,
        ),
{
    let t = seq![d1, d2];
    reveal_with_fuel(span_x, 3);
    reveal_with_fuel(span_y, 3);
    assert(t.len() == 2 && t[0] == d1 && t[1] == d2);
    d1.lemma_reversed();
    d2.lemma_reversed();
    lemma_rep_end(origin, color, t, 0);
}

/// A walk along a template of a single step `d` goes in a straight line:
/// it arrives at the end of repetition `k`, `k + 1` steps from the origin,
/// exactly when that square is on the board and the `k` squares before it
/// are empty; only a sliding piece goes beyond the first.
pub proof fn lemma_one_step(
    p: Placement,
    origin: Coord,
    color: Color,
    name: Name,
    d: Direction,
    k: int,
)
    ensures
        rep_end(origin, color, seq![d], k) == origin.toward(color.faces(d), k + 1),
        arrives(p, origin, color, name, seq![d], k) <==> {
            &&& 0 <= k
            &&& k == 0 || name.slides()
            &&& clear_toward(p, origin, color.faces(d), k)
            &&& origin.toward(color.faces(d), k + 1).on_board()
        },
{
    let t = seq![d];
    let e = color.faces(d);
    assert forall|i: int|
        runs(p, #[trigger] rep_start(origin, color, t, i), color, name.jumps(), t) == origin.toward(
            e,
            i + 1,
        ).on_board() by {
        let from = rep_start(origin, color, t, i);
        lemma_line(origin, color, d, i);
        lemma_rep_end(origin, color, t, i);
        assert(step_to(from, color, t, 1) == origin.toward(e, i + 1));
        if origin.toward(e, i + 1).on_board() {
            assert forall|j: int| 1 <= j <= t.len() implies {
                &&& (#[trigger] step_to(from, color, t, j)).on_board()
                &&& j < t.len() ==> name.jumps() || !p.dom().contains(step_to(from, color, t, j))
            } by {
                assert(j == 1);
            }
        }
    }
    assert forall|i: int| #[trigger]
        passes(p, origin, color, name, t, i) == (origin.toward(e, i + 1).on_board()
            && !p.dom().contains(origin.toward(e, i + 1))) by {
        lemma_line(origin, color, d, i);
    }
    lemma_line(origin, color, d, k);
    if 0 <= k {
        if forall|i: int| 0 <= i < k ==> #[trigger] passes(p, origin, color, name, t, i) {
            assert forall|m: int| 1 <= m <= k implies (#[trigger] origin.toward(e, m)).on_board()
                && !p.dom().contains(origin.toward(e, m)) by {
                assert(passes(p, origin, color, name, t, m - 1));
            }
        }
        if clear_toward(p, origin, e, k) {
            assert forall|i: int| 0 <= i < k implies #[trigger] passes(
                p,
                origin,
                color,
                name,
                t,
                i,
            ) by {
                assert(origin.toward(e, i + 1).on_board());
            }
        }
    }
}

/// A walk along a template of two steps: it arrives at the end of its
/// first repetition exactly when both steps stay on the board and the
/// square between is empty or jumped over.
pub proof fn lemma_two_steps(
    p: Placement,
    origin: Coord,
    color: Color,
    name: Name,
    d1: Direction,
    d2: Direction,
)
    ensures
        rep_end(origin, color, seq![d1, d2], 0) == origin.toward(color.faces(d1), 1).toward(
            color.faces(d2),
            1,
        ),
        arrives(p, origin, color, name, seq![d1, d2], 0) <==> {
            let mid = origin.toward(color.faces(d1), 1);
            &&& mid.on_board()
            &&& name.jumps() || !p.dom().contains(mid)
            &&& mid.toward(color.faces(d2), 1).on_board()
        },
{
    let t = seq![d1, d2];
    let mid = origin.toward(color.faces(d1), 1);
    let end = mid.toward(color.faces(d2), 1);
    lemma_turn(origin, color, d1, d2);
    lemma_rep_end(origin, color, t, 0);
    if mid.on_board() && (name.jumps() || !p.dom().contains(mid)) && end.on_board() {
        assert forall|j: int| 1 <= j <= t.len() implies {
            &&& (#[trigger] step_to(origin, color, t, j)).on_board()
            &&& j < t.len() ==> name.jumps() || !p.dom().contains(step_to(origin, color, t, j))
        } by {
            assert(j == 1 || j == 2);
        }
    }
    if arrives(p, origin, color, name, t, 0) {
        assert(step_to(origin, color, t, 1).on_board());
        assert(step_to(origin, color, t, 2).on_board());
    }
}

/// Looking back along a line: the squares between `a` and the square
/// `n + 1` steps from it are the same from either end.
pub proof fn lemma_clear_toward_reverses(p: Placement, a: Coord, d: Direction, n: int)
    requires
        0 <= n,
    ensures
        a.toward(d, n + 1).toward(d.reversed(), n + 1) == a,
        clear_toward(p, a, d, n) == clear_toward(p, a.toward(d, n + 1), d.reversed(), n),
{
    let b = a.toward(d, n + 1);
    let r = d.reversed();
    d.lemma_reversed();
    lemma_toward(a, d);
    lemma_toward(b, r);
    if clear_toward(p, a, d, n) {
        assert forall|m: int| 1 <= m <= n implies (#[trigger] b.toward(r, m)).on_board()
            && !p.dom().contains(b.toward(r, m)) by {
            assert(b.toward(r, m) == a.toward(d, n + 1 - m));
        }
    }
    if clear_toward(p, b, r, n) {
        assert forall|m: int| 1 <= m <= n implies (#[trigger] a.toward(d, m)).on_board()
            && !p.dom().contains(a.toward(d, m)) by {
            assert(a.toward(d, m) == b.toward(r, n + 1 - m));
        }
    }
}

/// The shape of the capture templates: they do not depend on whether the
/// piece has moved; a knight's have two steps, every other kind's one.
pub proof fn lemma_capture_templates(name: Name, i: int)
    requires
        0 <= i < name.capture_templates(false).len(),
    ensures
        name.capture_templates(true) == name.capture_templates(false),
        name.capture_templates(false)[i].len() == (if name == Name::Knight {
            2int
        } else {
            1int
        }),
{
    assert(name.capture_templates(true) =~~= name.capture_templates(false));
}

/// Every capture template has a step and moves the piece.
pub proof fn lemma_capture_templates_move(name: Name, i: int)
    requires
        0 <= i < name.capture_templates(false).len(),
    ensures
        name.capture_templates(false)[i].len() > 0,
        span_x(name.capture_templates(false)[i], name.capture_templates(false)[i].len() as int)
            != 0 || span_y(
            name.capture_templates(false)[i],
            name.capture_templates(false)[i].len() as int,
        ) != 0,
{
    reveal_with_fuel(span_x, 3);
    reveal_with_fuel(span_y, 3);
    lemma_capture_templates(name, i);
}

/// The second step of the template goes along one of the two axes of the
/// first: the shape of a knight's move.
pub open spec fn turns_along(d1: Direction, d2: Direction) -> bool {
    ||| d2.dx() == d1.dx() && d2.dy() == 0
    ||| d2.dy() == d1.dy() && d2.dx() == 0
}

/// A walk in a straight line runs both ways: if repetition `k` of a
/// template of one step from `a` ends on `b`, both on the board, then for
/// the other side repetition `k` from `b` ends on `a`, and the one walk
/// arrives exactly when the other does.
pub proof fn lemma_line_reverses(
    p: Placement,
    a: Coord,
    b: Coord,
    color: Color,
    name: Name,
    d: Direction,
    k: int,
)
    requires
        a.on_board(),
        b.on_board(),
        rep_end(a, color, seq![d], k) == b,
    ensures
        rep_end(b, color.opponent(), seq![d], k) == a,
        arrives(p, a, color, name, seq![d], k) == arrives(p, b, color.opponent(), name, seq![d], k),
{
    let e = color.faces(d);
    let other = color.opponent();
    lemma_one_step(p, a, color, name, d, k);
    lemma_one_step(p, b, other, name, d, k);
    d.lemma_reversed();
    e.lemma_reversed();
    assert(other.faces(d) == e.reversed());
    lemma_toward(a, e);
    lemma_toward(b, e.reversed());
    assert(b.toward(e.reversed(), k + 1) == a);
    if 0 <= k {
        lemma_clear_toward_reverses(p, a, e, k);
    }
}

/// A jump of two steps runs both ways: if a jumping piece's template of
/// the shape of a knight's move leads from `a` to `b`, both on the board,
/// then for the other side it leads from `b` to `a`, and either walk
/// arrives.
pub proof fn lemma_jump_reverses(
    p: Placement,
    a: Coord,
    b: Coord,
    color: Color,
    name: Name,
    d1: Direction,
    d2: Direction,
)
    requires
        a.on_board(),
        b.on_board(),
        name.jumps(),
        turns_along(d1, d2),
        rep_end(a, color, seq![d1, d2], 0) == b,
    ensures
        rep_end(b, color.opponent(), seq![d1, d2], 0) == a,
        arrives(p, a, color, name, seq![d1, d2], 0),
        arrives(p, b, color.opponent(), name, seq![d1, d2], 0),
{
    let other = color.opponent();
    lemma_two_steps(p, a, color, name, d1, d2);
    lemma_two_steps(p, b, other, name, d1, d2);
    d1.lemma_reversed();
    d2.lemma_reversed();
    let mid_a = a.toward(color.faces(d1), 1);
    let mid_b = b.toward(other.faces(d1), 1);
    lemma_toward(a, color.faces(d1));
    lemma_toward(mid_a, color.faces(d2));
    lemma_toward(b, other.faces(d1));
    lemma_toward(mid_b, other.faces(d2));
    assert(mid_a.toward(color.faces(d2), 1) == b);
    assert(mid_b.toward(other.faces(d2), 1) == a);
    assert(mid_a.on_board());
    assert(mid_b.on_board());
}

/// A walk along a capture template runs both ways: if its repetition
/// `k` from `a` ends on `b` for one side, then its repetition `k` from `b`
/// ends on `a` for the other side, and the one walk arrives exactly when
/// the other does.
pub proof fn lemma_arrival_reverses(
    p: Placement,
    a: Coord,
    b: Coord,
    color: Color,
    name: Name,
    i: int,
    k: int,
)
    requires
        a.on_board(),
        b.on_board(),
        0 <= i < name.capture_templates(false).len(),
        rep_end(a, color, name.capture_templates(false)[i], k) == b,
    ensures
        rep_end(b, color.opponent(), name.capture_templates(false)[i], k) == a,
        arrives(p, a, color, name, name.capture_templates(false)[i], k) == arrives(
            p,
            b,
            color.opponent(),
            name,
            name.capture_templates(false)[i],
            k,
        ),
{
    let t = name.capture_templates(false)[i];
    lemma_capture_templates(name, i);
    lemma_rep_end_reverses(a, color, t, k);
    if name == Name::Knight {
        if k == 0 {
            let d1 = t[0];
            let d2 = t[1];
            assert(t =~= seq![d1, d2]);
            assert(turns_along(d1, d2));
            lemma_jump_reverses(p, a, b, color, name, d1, d2);
        }
    } else {
        let d = t[0];
        assert(t =~= seq![d]);
        lemma_line_reverses(p, a, b, color, name, d, k);
    }
}

/// Whether a walk along a capture template arrives at the end of a
/// repetition does not depend on what stands there: two placements with the
/// same squares occupied, but for that end, let the walk arrive alike.
pub proof fn lemma_arrival_ignores_end(
    p: Placement,
    q: Placement,
    origin: Coord,
    color: Color,
    name: Name,
    i: int,
    k: int,
)
    requires
        0 <= i < name.capture_templates(false).len(),
        forall|c: Coord|
            c != rep_end(origin, color, name.capture_templates(false)[i], k) ==> (
            p.dom().contains(c) == q.dom().contains(c)),
    ensures
        arrives(p, origin, color, name, name.capture_templates(false)[i], k) == arrives(
            q,
            origin,
            color,
            name,
            name.capture_templates(false)[i],
            k,
        ),
{
    let t = name.capture_templates(false)[i];
    lemma_capture_templates(name, i);
    if name == Name::Knight {
        if k == 0 {
            assert(t =~= seq![t[0], t[1]]);
            lemma_two_steps(p, origin, color, name, t[0], t[1]);
            lemma_two_steps(q, origin, color, name, t[0], t[1]);
        }
    } else {
        let d = t[0];
        let e = color.faces(d);
        assert(t =~= seq![d]);
        lemma_one_step(p, origin, color, name, d, k);
        lemma_one_step(q, origin, color, name, d, k);
        lemma_toward(origin, e);
        if clear_toward(p, origin, e, k) {
            assert forall|m: int| 1 <= m <= k implies (#[trigger] origin.toward(e, m)).on_board()
                && !q.dom().contains(origin.toward(e, m)) by {
                assert(!p.dom().contains(origin.toward(e, m)));
            }
        }
        if clear_toward(q, origin, e, k) {
            assert forall|m: int| 1 <= m <= k implies (#[trigger] origin.toward(e, m)).on_board()
                && !p.dom().contains(origin.toward(e, m)) by {
                assert(!q.dom().contains(origin.toward(e, m)));
            }
        }
    }
}

/// Playing repetition `k` for one side and then for the other leads back
/// to where the walk began.
pub proof fn lemma_rep_end_reverses(a: Coord, color: Color, t: Seq<Direction>, k: int)
    ensures
        rep_end(rep_end(a, color, t, k), color.opponent(), t, k) == a,
{
}

/// The templates by which a kind moves lead to different squares.
pub proof fn lemma_moves_spread(name: Name, moved: bool, origin: Coord, color: Color)
    ensures
        spread(origin, color, name.slides(), name.move_templates(moved)),
{
    let ts = name.move_templates(moved);
    assert forall|i: int, k: int, j: int, m: int|
        0 <= i < ts.len() && 0 <= j < ts.len() && 0 <= k && 0 <= m && (name.slides() || (k == 0
            && m == 0)) && #[trigger] rep_end(origin, color, ts[i], k) == #[trigger] rep_end(
            origin,
            color,
            ts[j],
            m,
        ) implies i == j && k == m by {
        lemma_ends_apart(origin, color, ts[i], k, ts[j], m);
    }
}

/// The templates by which a kind captures lead to different squares.
pub proof fn lemma_captures_spread(name: Name, origin: Coord, color: Color)
    ensures
        spread(origin, color, name.slides(), name.capture_templates(false)),
{
    let ts = name.capture_templates(false);
    assert forall|i: int, k: int, j: int, m: int|
        0 <= i < ts.len() && 0 <= j < ts.len() && 0 <= k && 0 <= m && (name.slides() || (k == 0
            && m == 0)) && #[trigger] rep_end(origin, color, ts[i], k) == #[trigger] rep_end(
            origin,
            color,
            ts[j],
            m,
        ) implies i == j && k == m by {
        lemma_ends_apart(origin, color, ts[i], k, ts[j], m);
    }
}

/// The template is one that some piece has: a single step, a knight's
/// move, or a pawn's two steps ahead.
spec fn plain(t: Seq<Direction>) -> bool {
    ||| t.len() == 1
    ||| t.len() == 2 && t[0].dx() != 0 && t[0].dy() != 0 && turns_along(t[0], t[1])
    ||| t.len() == 2 && t[0] == Direction::Up && t[1] == Direction::Up
}

/// Where repetition `k` of a plain template ends, without a product. A
/// template of two steps is taken at its first repetition.
proof fn lemma_plain_end(origin: Coord, color: Color, t: Seq<Direction>, k: int)
    requires
        plain(t),
        t.len() == 2 ==> k == 0,
    ensures
        rep_end(origin, color, t, k) == (if t.len() == 1 {
            origin.shift(
                color.mirror(scaled(t[0].dx(), k + 1)),
                color.mirror(scaled(t[0].dy(), k + 1)),
            )
        } else {
            origin.shift(
                color.mirror(t[0].dx() + t[1].dx()),
                color.mirror(t[0].dy() + t[1].dy()),
            )
        }),
{
    let a = t[0];
    a.lemma_reversed();
    lemma_toward(origin, color.faces(a));
    if t.len() == 1 {
        assert(t =~= seq![a]);
        lemma_line(origin, color, a, k);
    } else {
        let b = t[1];
        assert(t =~= seq![a, b]);
        lemma_turn(origin, color, a, b);
        b.lemma_reversed();
        lemma_toward(origin.toward(color.faces(a), 1), color.faces(b));
    }
}

/// Two plain templates whose repetitions end on the same square are the
/// same template, repeated as often. A template of two steps is taken at
/// its first repetition, and so is a template of one step beside it; beside
/// a pawn's two steps ahead only its one step ahead is considered.
proof fn lemma_ends_apart(
    origin: Coord,
    color: Color,
    s: Seq<Direction>,
    k: int,
    t: Seq<Direction>,
    m: int,
)
    requires
        plain(s),
        plain(t),
        0 <= k,
        0 <= m,
        s.len() == 2 ==> k == 0,
        t.len() == 2 ==> m == 0,
        s.len() != t.len() ==> k == 0 && m == 0,
        s.len() == 2 && s[0] == Direction::Up ==> t[0] == Direction::Up,
        t.len() == 2 && t[0] == Direction::Up ==> s[0] == Direction::Up,
        rep_end(origin, color, s, k) == rep_end(origin, color, t, m),
    ensures
        s == t,
        k == m,
{
    lemma_plain_end(origin, color, s, k);
    lemma_plain_end(origin, color, t, m);
    if s.len() == t.len() {
        assert(s[0].dx() == t[0].dx() && s[0].dy() == t[0].dy());
        assert(s[0] == t[0]);
        if s.len() == 2 {
            assert(s[1].dx() == t[1].dx() && s[1].dy() == t[1].dy());
            assert(s[1] == t[1]);
        }
        assert(s =~= t);
    }
}

/// A pawn's two walks end on different squares: the ordinary one on the
/// pawn's own file, the one for captures on a file beside it.
pub proof fn lemma_pawn_walks_apart(p: Placement, origin: Coord, mover: Piece, dest: Coord)
    requires
        mover.name == Name::Pawn,
    ensures
        walk_reaches(p, origin, mover, mover.move_templates(), false, dest) ==> dest.file
            == origin.file,
        walk_reaches(p, origin, mover, mover.capture_templates(), true, dest) ==> dest.file
            != origin.file,
{
    if walk_reaches(p, origin, mover, mover.move_templates(), false, dest) {
        let ts = mover.move_templates();
        let (i, k) = lemma_reached_by(p, origin, mover, ts, false, dest);
        lemma_plain_end(origin, mover.color, ts[i], k);
    }
    if walk_reaches(p, origin, mover, mover.capture_templates(), true, dest) {
        let cs = mover.capture_templates();
        let (i, k) = lemma_reached_by(p, origin, mover, cs, true, dest);
        lemma_plain_end(origin, mover.color, cs[i], k);
    }
}

} // verus!
