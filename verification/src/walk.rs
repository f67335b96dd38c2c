//! What a walk along move templates reaches on a given placement of pieces.
//!
//! A template is a sequence of steps. A walk plays the template from the
//! square where the piece stands; a sliding piece plays it again from where
//! the last repetition ended, as long as that square was empty. Everything
//! here is ghost code: the searches over a board are proved to compute these
//! sets.

use vstd::prelude::*;
use crate::color::Color;
use crate::coord::Coord;
use crate::direction::Direction;
use crate::name::Name;
use crate::piece::Piece;

verus! {

/// Which piece stands where: the occupied squares and their occupants.
pub type Placement = Map<Coord, Piece>;

/// Every occupied square lies on the board.
pub open spec fn on_board(p: Placement) -> bool {
    forall|c: Coord| p.dom().contains(c) ==> c.on_board()
}

/// Files gained by the first `n` steps of a template, as White plays it.
pub open spec fn span_x(t: Seq<Direction>, n: int) -> int
    decreases n,
{
    if n <= 0 {
        0
    } else {
        span_x(t, n - 1) + t[n - 1].dx()
    }
}

/// Ranks gained by the first `n` steps of a template, as White plays it.
pub open spec fn span_y(t: Seq<Direction>, n: int) -> int
    decreases n,
{
    if n <= 0 {
        0
    } else {
        span_y(t, n - 1) + t[n - 1].dy()
    }
}

/// The square that a piece of `color` reaches from `from` by the first `n`
/// steps of the template.
pub open spec fn step_to(from: Coord, color: Color, t: Seq<Direction>, n: int) -> Coord {
    from.shift(color.mirror(span_x(t, n)), color.mirror(span_y(t, n)))
}

/// The square on which repetition `k` of the template starts, counting
/// repetitions from 0: the origin moved by `k` whole templates.
pub open spec fn rep_start(origin: Coord, color: Color, t: Seq<Direction>, k: int) -> Coord {
    origin.shift(
        color.mirror(k * span_x(t, t.len() as int)),
        color.mirror(k * span_y(t, t.len() as int)),
    )
}

/// The square on which repetition `k` of the template ends.
pub open spec fn rep_end(origin: Coord, color: Color, t: Seq<Direction>, k: int) -> Coord {
    rep_start(origin, color, t, k + 1)
}

/// One repetition played from `from` runs its course: every step stays on
/// the board, and every square before the last is empty, unless the piece
/// jumps.
pub open spec fn runs(
    p: Placement,
    from: Coord,
    color: Color,
    jumps: bool,
    t: Seq<Direction>,
) -> bool {
    forall|j: int|
        1 <= j <= t.len() ==> {
            &&& (#[trigger] step_to(from, color, t, j)).on_board()
            &&& j < t.len() ==> jumps || !p.dom().contains(step_to(from, color, t, j))
        }
}

/// Repetition `i` runs its course and ends on an empty square, so that a
/// sliding piece may go on from there.
pub open spec fn passes(
    p: Placement,
    origin: Coord,
    color: Color,
    name: Name,
    t: Seq<Direction>,
    i: int,
) -> bool {
    &&& runs(p, rep_start(origin, color, t, i), color, name.jumps(), t)
    &&& !p.dom().contains(rep_end(origin, color, t, i))
}

/// The walk gets as far as the last square of repetition `k`: the
/// template has a step, only a sliding piece repeats, every earlier
/// repetition passed, and repetition `k` runs its course. What stands on
/// that last square is not considered.
pub open spec fn arrives(
    p: Placement,
    origin: Coord,
    color: Color,
    name: Name,
    t: Seq<Direction>,
    k: int,
) -> bool {
    &&& 0 <= k
    &&& t.len() > 0
    &&& k == 0 || name.slides()
    &&& forall|i: int| 0 <= i < k ==> #[trigger] passes(p, origin, color, name, t, i)
    &&& runs(p, rep_start(origin, color, t, k), color, name.jumps(), t)
}

/// The mover may end a walk on `dest`. On an empty square it may, unless
/// the walk is for captures only. On an occupied square it may when the
/// occupant is an enemy and the walk is one that captures: any walk of a
/// piece that captures as it moves, and the capture walk of one that
/// captures apart.
pub open spec fn may_land(p: Placement, mover: Piece, capture_only: bool, dest: Coord) -> bool {
    if p.dom().contains(dest) {
        p[dest].color != mover.color && (capture_only || !mover.name.captures_apart())
    } else {
        !capture_only
    }
}

/// Repetition `k` of the template yields a destination: the walk arrives
/// there and may land. A walk for captures only never goes past its first
/// repetition.
pub open spec fn records(
    p: Placement,
    origin: Coord,
    mover: Piece,
    t: Seq<Direction>,
    capture_only: bool,
    k: int,
) -> bool {
    &&& arrives(p, origin, mover.color, mover.name, t, k)
    &&& capture_only ==> k == 0
    &&& may_land(p, mover, capture_only, rep_end(origin, mover.color, t, k))
}

/// Some repetition of the template yields `dest`.
pub open spec fn template_reaches(
    p: Placement,
    origin: Coord,
    mover: Piece,
    t: Seq<Direction>,
    capture_only: bool,
    dest: Coord,
) -> bool {
    exists|k: int| #[trigger]
        records(p, origin, mover, t, capture_only, k) && rep_end(origin, mover.color, t, k)
            == dest
}

/// Some template of the list yields `dest`.
pub open spec fn walk_reaches(
    p: Placement,
    origin: Coord,
    mover: Piece,
    ts: Seq<Seq<Direction>>,
    capture_only: bool,
    dest: Coord,
) -> bool {
    exists|i: int|
        0 <= i < ts.len() && #[trigger] template_reaches(
            p,
            origin,
            mover,
            ts[i],
            capture_only,
            dest,
        )
}

/// The destinations of a walk of `mover` from `origin` along the templates.
pub open spec fn walk_destinations(
    p: Placement,
    origin: Coord,
    mover: Piece,
    ts: Seq<Seq<Direction>>,
    capture_only: bool,
) -> Set<Coord> {
    Set::new(|dest: Coord| walk_reaches(p, origin, mover, ts, capture_only, dest))
}

/// The piece on `origin` may move to `dest`: a walk along its ordinary
/// templates reaches it, or, for a piece that captures apart, a walk for
/// captures only along its capture templates.
pub open spec fn is_legal_move(p: Placement, origin: Coord, dest: Coord) -> bool {
    &&& p.dom().contains(origin)
    &&& {
        let mover = p[origin];
        ||| walk_reaches(p, origin, mover, mover.move_templates(), false, dest)
        ||| mover.name.captures_apart() && walk_reaches(
            p,
            origin,
            mover,
            mover.capture_templates(),
            true,
            dest,
        )
    }
}

/// All squares to which the piece on `origin` may move.
pub open spec fn legal_destinations(p: Placement, origin: Coord) -> Set<Coord> {
    Set::new(|dest: Coord| is_legal_move(p, origin, dest))
}

/// The piece on `from` bears on `target`: a walk along one of its capture
/// templates arrives there. What stands on `target` is not considered.
pub open spec fn threatens(p: Placement, from: Coord, target: Coord) -> bool {
    &&& p.dom().contains(from)
    &&& {
        let mover = p[from];
        exists|i: int, k: int|
            0 <= i < mover.capture_templates().len() && #[trigger] arrives(
                p,
                from,
                mover.color,
                mover.name,
                mover.capture_templates()[i],
                k,
            ) && rep_end(from, mover.color, mover.capture_templates()[i], k) == target
    }
}

/// `from` holds an enemy of `color` that bears on `target`.
pub open spec fn is_attacker(p: Placement, target: Coord, color: Color, from: Coord) -> bool {
    &&& p.dom().contains(from)
    &&& p[from].color != color
    &&& threatens(p, from, target)
}

/// The squares of all enemies of `color` that bear on `target`.
pub open spec fn attackers(p: Placement, target: Coord, color: Color) -> Set<Coord> {
    Set::new(|from: Coord| is_attacker(p, target, color, from))
}

/// The templates of the list lead to different squares: from `origin`, for
/// a piece of `color`, no square is the end of two repetitions, of one
/// template or of two. Of a piece that does not slide only the first
/// repetition of each template is considered.
pub open spec fn spread(
    origin: Coord,
    color: Color,
    slides: bool,
    ts: Seq<Seq<Direction>>,
) -> bool {
    forall|i: int, k: int, j: int, m: int|
        0 <= i < ts.len() && 0 <= j < ts.len() && 0 <= k && 0 <= m && (slides || (k == 0 && m
            == 0)) && #[trigger] rep_end(origin, color, ts[i], k) == #[trigger] rep_end(
            origin,
            color,
            ts[j],
            m,
        ) ==> i == j && k == m
}

/// The template with every step turned round.
pub open spec fn reversed(t: Seq<Direction>) -> Seq<Direction> {
    t.map_values(|d: Direction| d.reversed())
}

/// A repetition ends where the next one starts, and a step further along
/// the template moves by that step.
pub proof fn lemma_step(from: Coord, color: Color, t: Seq<Direction>, n: int)
    requires
        0 <= n,
    ensures
        step_to(from, color, t, 0) == from,
        step_to(from, color, t, n + 1) == step_to(from, color, t, n).shift(
            color.mirror(t[n].dx()),
            color.mirror(t[n].dy()),
        ),
{
}

/// The last step of repetition `k` is the start of repetition `k + 1`.
pub proof fn lemma_rep_end(origin: Coord, color: Color, t: Seq<Direction>, k: int)
    ensures
        step_to(rep_start(origin, color, t, k), color, t, t.len() as int) == rep_end(
            origin,
            color,
            t,
            k,
        ),
        rep_start(origin, color, t, 0) == origin,
{
    let x = span_x(t, t.len() as int);
    let y = span_y(t, t.len() as int);
    assert((k + 1) * x == k * x + x) by (nonlinear_arith);
    assert((k + 1) * y == k * y + y) by (nonlinear_arith);
}

/// A repetition that starts away from the origin shows that the template
/// moves the piece.
pub proof fn lemma_rep_moves(origin: Coord, color: Color, t: Seq<Direction>, k: int)
    requires
        rep_start(origin, color, t, k) != origin,
    ensures
        span_x(t, t.len() as int) != 0 || span_y(t, t.len() as int) != 0,
{
    let x = span_x(t, t.len() as int);
    let y = span_y(t, t.len() as int);
    assert(x == 0 ==> k * x == 0) by (nonlinear_arith);
    assert(y == 0 ==> k * y == 0) by (nonlinear_arith);
}

/// A repetition other than the first that starts on the origin shows that
/// the template leads back to where it began.
pub proof fn lemma_rep_stays(origin: Coord, color: Color, t: Seq<Direction>, k: int)
    requires
        k != 0,
        rep_start(origin, color, t, k) == origin,
    ensures
        span_x(t, t.len() as int) == 0,
        span_y(t, t.len() as int) == 0,
{
    let x = span_x(t, t.len() as int);
    let y = span_y(t, t.len() as int);
    assert(k * x == 0 ==> x == 0) by (nonlinear_arith)
        requires
            k != 0,
    ;
    assert(k * y == 0 ==> y == 0) by (nonlinear_arith)
        requires
            k != 0,
    ;
}

/// Of a template that moves the piece, only the first eight repetitions
/// can start on the board: each moves the start by the same amount, and the
/// board is eight squares wide.
pub proof fn lemma_rep_bound(origin: Coord, color: Color, t: Seq<Direction>, k: int)
    requires
        0 <= k,
        origin.on_board(),
        rep_start(origin, color, t, k).on_board(),
        span_x(t, t.len() as int) != 0 || span_y(t, t.len() as int) != 0,
    ensures
        k <= 7,
{
    let x = span_x(t, t.len() as int);
    let y = span_y(t, t.len() as int);
    assert(x != 0 ==> k * x >= k || k * x <= -k) by (nonlinear_arith)
        requires
            0 <= k,
    ;
    assert(y != 0 ==> k * y >= k || k * y <= -k) by (nonlinear_arith)
        requires
            0 <= k,
    ;
}

/// Where a walk arrives lies on the board.
pub proof fn lemma_arrives_on_board(
    p: Placement,
    origin: Coord,
    color: Color,
    name: Name,
    t: Seq<Direction>,
    k: int,
)
    requires
        arrives(p, origin, color, name, t, k),
    ensures
        rep_end(origin, color, t, k).on_board(),
{
    lemma_rep_end(origin, color, t, k);
    assert(step_to(rep_start(origin, color, t, k), color, t, t.len() as int).on_board());
}

/// What repetition `k` of template `i` yields, the walk reaches.
pub proof fn lemma_reaches(
    p: Placement,
    origin: Coord,
    mover: Piece,
    ts: Seq<Seq<Direction>>,
    capture_only: bool,
    i: int,
    k: int,
)
    requires
        0 <= i < ts.len(),
        records(p, origin, mover, ts[i], capture_only, k),
    ensures
        walk_reaches(p, origin, mover, ts, capture_only, rep_end(origin, mover.color, ts[i], k)),
{
    assert(template_reaches(
        p,
        origin,
        mover,
        ts[i],
        capture_only,
        rep_end(origin, mover.color, ts[i], k),
    ));
}

/// The template and the repetition by which a walk reaches `dest`.
pub proof fn lemma_reached_by(
    p: Placement,
    origin: Coord,
    mover: Piece,
    ts: Seq<Seq<Direction>>,
    capture_only: bool,
    dest: Coord,
) -> (by: (int, int))
    requires
        walk_reaches(p, origin, mover, ts, capture_only, dest),
    ensures
        0 <= by.0 < ts.len(),
        records(p, origin, mover, ts[by.0], capture_only, by.1),
        rep_end(origin, mover.color, ts[by.0], by.1) == dest,
{
    let i = choose|i: int|
        0 <= i < ts.len() && #[trigger] template_reaches(
            p,
            origin,
            mover,
            ts[i],
            capture_only,
            dest,
        );
    let k = choose|k: int| #[trigger]
        records(p, origin, mover, ts[i], capture_only, k) && rep_end(
            origin,
            mover.color,
            ts[i],
            k,
        ) == dest;
    (i, k)
}

/// Where a walk along capture template `i` of the piece on `from` arrives,
/// on that square the piece bears.
pub proof fn lemma_bears_on(p: Placement, from: Coord, i: int, k: int)
    requires
        p.dom().contains(from),
        0 <= i < p[from].capture_templates().len(),
        arrives(p, from, p[from].color, p[from].name, p[from].capture_templates()[i], k),
    ensures
        threatens(p, from, rep_end(from, p[from].color, p[from].capture_templates()[i], k)),
{
}

/// The capture template and the repetition by which the piece on `from`
/// bears on `target`.
pub proof fn lemma_borne_on_by(p: Placement, from: Coord, target: Coord) -> (by: (int, int))
    requires
        threatens(p, from, target),
    ensures
        0 <= by.0 < p[from].capture_templates().len(),
        arrives(p, from, p[from].color, p[from].name, p[from].capture_templates()[by.0], by.1),
        rep_end(from, p[from].color, p[from].capture_templates()[by.0], by.1) == target,
{
    let mover = p[from];
    let (i, k) = choose|i: int, k: int|
        0 <= i < mover.capture_templates().len() && #[trigger] arrives(
            p,
            from,
            mover.color,
            mover.name,
            mover.capture_templates()[i],
            k,
        ) && rep_end(from, mover.color, mover.capture_templates()[i], k) == target;
    (i, k)
}

/// Turning every step round and changing sides leaves each square of the
/// walk where it was.
pub proof fn lemma_reversed_step(from: Coord, color: Color, t: Seq<Direction>, n: int)
    requires
        0 <= n <= t.len(),
    ensures
        span_x(reversed(t), n) == -span_x(t, n),
        span_y(reversed(t), n) == -span_y(t, n),
        step_to(from, color.opponent(), reversed(t), n) == step_to(from, color, t, n),
    decreases n,
{
    if n > 0 {
        lemma_reversed_step(from, color, t, n - 1);
        t[n - 1].lemma_reversed();
    }
}

/// A repetition runs its course backwards for the other side exactly when
/// it does forwards for this one.
pub proof fn lemma_reversed_runs(
    p: Placement,
    from: Coord,
    color: Color,
    jumps: bool,
    t: Seq<Direction>,
)
    ensures
        runs(p, from, color.opponent(), jumps, reversed(t)) == runs(p, from, color, jumps, t),
{
    assert forall|j: int| 1 <= j <= t.len() implies #[trigger] step_to(
        from,
        color.opponent(),
        reversed(t),
        j,
    ) == step_to(from, color, t, j) by {
        lemma_reversed_step(from, color, t, j);
    }
    if runs(p, from, color, jumps, t) {
        assert forall|j: int| 1 <= j <= reversed(t).len() implies {
            &&& (#[trigger] step_to(from, color.opponent(), reversed(t), j)).on_board()
            &&& j < reversed(t).len() ==> jumps || !p.dom().contains(
                step_to(from, color.opponent(), reversed(t), j),
            )
        } by {
            assert(step_to(from, color, t, j).on_board());
        }
    }
    if runs(p, from, color.opponent(), jumps, reversed(t)) {
        assert forall|j: int| 1 <= j <= t.len() implies {
            &&& (#[trigger] step_to(from, color, t, j)).on_board()
            &&& j < t.len() ==> jumps || !p.dom().contains(step_to(from, color, t, j))
        } by {
            assert(step_to(from, color.opponent(), reversed(t), j).on_board());
        }
    }
}

} // verus!
