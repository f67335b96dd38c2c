//! What the walks come to for the pieces of the game: the moves of each
//! kind of piece stated outright, and the agreement of attack and move.

use vstd::prelude::*;
use crate::color::Color;
use crate::coord::Coord;
use crate::direction::Direction;
use crate::name::Name;
use crate::piece::Piece;
use crate::rays::{
    clear_toward, lemma_arrival_ignores_end, lemma_capture_templates,
    lemma_capture_templates_move, lemma_one_step, lemma_toward, lemma_two_steps,
};
use crate::walk::{
    Placement, attackers, is_legal_move, legal_destinations, lemma_arrives_on_board,
    lemma_bears_on, lemma_borne_on_by, lemma_reached_by, lemma_reaches, lemma_rep_stays, on_board,
    records, threatens, walk_reaches,
};

verus! {

/// A legal move ends on the board.
pub proof fn lemma_legal_move_on_board(p: Placement, origin: Coord, dest: Coord)
    requires
        is_legal_move(p, origin, dest),
    ensures
        dest.on_board(),
{
    let mover = p[origin];
    if walk_reaches(p, origin, mover, mover.move_templates(), false, dest) {
        let ts = mover.move_templates();
        let (i, k) = lemma_reached_by(p, origin, mover, ts, false, dest);
        lemma_arrives_on_board(p, origin, mover.color, mover.name, ts[i], k);
    } else {
        let cs = mover.capture_templates();
        let (i, k) = lemma_reached_by(p, origin, mover, cs, true, dest);
        lemma_arrives_on_board(p, origin, mover.color, mover.name, cs[i], k);
    }
}

/// A sliding piece goes along each of its lines as far as the first
/// occupied square: the square `n` steps from it in a direction in which it
/// slides is a legal destination exactly when it is on the board, every
/// square before it is empty, and it is itself empty or holds an enemy. So
/// an enemy met on the line is the last destination on it, a friend is none,
/// and nothing beyond either is reached.
pub proof fn lemma_slider_moves(p: Placement, origin: Coord, d: Direction, n: int)
    requires
        on_board(p),
        p.dom().contains(origin),
        p[origin].name.slides_along(d),
        1 <= n,
    ensures
        is_legal_move(p, origin, origin.toward(d, n)) <==> {
            &&& origin.toward(d, n).on_board()
            &&& clear_toward(p, origin, d, n - 1)
            &&& p.dom().contains(origin.toward(d, n)) ==> p[origin.toward(d, n)].color
                != p[origin].color
        },
{
    let mover = p[origin];
    let color = mover.color;
    let name = mover.name;
    let ts = mover.move_templates();
    let dest = origin.toward(d, n);
    d.lemma_reversed();
    if dest.on_board() && clear_toward(p, origin, d, n - 1) && (p.dom().contains(dest)
        ==> p[dest].color != color) {
        // the template that this side plays in direction `d`
        let w = color.faces(d);
        let i: int = if name == Name::Bishop {
            match w {
                Direction::UpLeft => 0,
                Direction::UpRight => 1,
                Direction::DownLeft => 2,
                _ => 3,
            }
        } else {
            match w {
                Direction::Up => 0,
                Direction::Down => 1,
                Direction::Left => 2,
                Direction::Right => 3,
                Direction::UpLeft => 4,
                Direction::UpRight => 5,
                Direction::DownLeft => 6,
                Direction::DownRight => 7,
            }
        };
        assert(0 <= i < ts.len() && ts[i] =~= seq![w]);
        lemma_one_step(p, origin, color, name, w, n - 1);
        lemma_reaches(p, origin, mover, ts, false, i, n - 1);
    }
    if is_legal_move(p, origin, dest) {
        let (i, k) = lemma_reached_by(p, origin, mover, ts, false, dest);
        let w = ts[i][0];
        assert(ts[i] =~= seq![w]);
        lemma_one_step(p, origin, color, name, w, k);
        w.lemma_reversed();
        lemma_toward(origin, d);
        lemma_toward(origin, color.faces(w));
        assert(color.faces(w) == d && k + 1 == n);
    }
}

/// A sliding piece does not pass an occupied square: nothing beyond the
/// first piece on a line, friend or enemy, is a legal destination.
pub proof fn lemma_slider_stops(p: Placement, origin: Coord, d: Direction, m: int, n: int)
    requires
        on_board(p),
        p.dom().contains(origin),
        p[origin].name.slides_along(d),
        1 <= m < n,
        p.dom().contains(origin.toward(d, m)),
    ensures
        !is_legal_move(p, origin, origin.toward(d, n)),
{
    lemma_slider_moves(p, origin, d, n);
    if clear_toward(p, origin, d, n - 1) {
        assert(!p.dom().contains(origin.toward(d, m)));
    }
}

/// The two squares touch: they differ by at most one file and one rank,
/// and are not the same.
pub open spec fn adjacent(a: Coord, b: Coord) -> bool {
    &&& -1 <= b.file - a.file <= 1
    &&& -1 <= b.rank - a.rank <= 1
    &&& a != b
}

/// A king's destinations are the squares around it: a square is one
/// exactly when it is on the board, touches the king's square, and is empty
/// or held by an enemy.
pub proof fn lemma_king_moves(p: Placement, origin: Coord, dest: Coord)
    requires
        on_board(p),
        p.dom().contains(origin),
        p[origin].name == Name::King,
    ensures
        is_legal_move(p, origin, dest) <==> {
            &&& dest.on_board()
            &&& adjacent(origin, dest)
            &&& p.dom().contains(dest) ==> p[dest].color != p[origin].color
        },
{
    let mover = p[origin];
    let color = mover.color;
    let ts = mover.move_templates();
    if dest.on_board() && adjacent(origin, dest) && (p.dom().contains(dest) ==> p[dest].color
        != color) {
        // the template that leads to `dest`, by the step as White would take it
        let wx = color.mirror(dest.file - origin.file);
        let wy = color.mirror(dest.rank - origin.rank);
        let i: int = if wx == 0 && wy == 1 {
            0
        } else if wx == 0 && wy == -1 {
            1
        } else if wx == -1 && wy == 0 {
            2
        } else if wx == 1 && wy == 0 {
            3
        } else if wx == -1 && wy == 1 {
            4
        } else if wx == 1 && wy == 1 {
            5
        } else if wx == -1 && wy == -1 {
            6
        } else {
            7
        };
        let w = ts[i][0];
        assert(0 <= i < ts.len() && ts[i] =~= seq![w]);
        lemma_one_step(p, origin, color, Name::King, w, 0);
        w.lemma_reversed();
        lemma_toward(origin, color.faces(w));
        lemma_reaches(p, origin, mover, ts, false, i, 0);
    }
    if is_legal_move(p, origin, dest) {
        let (i, k) = lemma_reached_by(p, origin, mover, ts, false, dest);
        let w = ts[i][0];
        assert(ts[i] =~= seq![w]);
        lemma_one_step(p, origin, color, Name::King, w, k);
        w.lemma_reversed();
        lemma_toward(origin, color.faces(w));
    }
}

/// The two squares are a knight's jump apart: one file and two ranks, or
/// two files and one rank.
pub open spec fn knight_jump(a: Coord, b: Coord) -> bool {
    let dx = b.file - a.file;
    let dy = b.rank - a.rank;
    ||| (dx == 1 || dx == -1) && (dy == 2 || dy == -2)
    ||| (dx == 2 || dx == -2) && (dy == 1 || dy == -1)
}

/// A knight's destinations depend on the destination square alone: a
/// square is one exactly when it is on the board, a knight's jump away, and
/// empty or held by an enemy. What stands on any other square plays no part.
pub proof fn lemma_knight_moves(p: Placement, origin: Coord, dest: Coord)
    requires
        on_board(p),
        p.dom().contains(origin),
        p[origin].name == Name::Knight,
    ensures
        is_legal_move(p, origin, dest) <==> {
            &&& dest.on_board()
            &&& knight_jump(origin, dest)
            &&& p.dom().contains(dest) ==> p[dest].color != p[origin].color
        },
{
    let mover = p[origin];
    let color = mover.color;
    let ts = mover.move_templates();
    if dest.on_board() && knight_jump(origin, dest) && (p.dom().contains(dest) ==> p[dest].color
        != color) {
        // the template that leads to `dest`, by the jump as White would make it
        let wx = color.mirror(dest.file - origin.file);
        let wy = color.mirror(dest.rank - origin.rank);
        let i: int = if wx == -1 && wy == 2 {
            0
        } else if wx == -2 && wy == 1 {
            1
        } else if wx == 1 && wy == 2 {
            2
        } else if wx == 2 && wy == 1 {
            3
        } else if wx == -1 && wy == -2 {
            4
        } else if wx == -2 && wy == -1 {
            5
        } else if wx == 1 && wy == -2 {
            6
        } else {
            7
        };
        let d1 = ts[i][0];
        let d2 = ts[i][1];
        assert(0 <= i < ts.len() && ts[i] =~= seq![d1, d2]);
        lemma_two_steps(p, origin, color, Name::Knight, d1, d2);
        d1.lemma_reversed();
        d2.lemma_reversed();
        lemma_toward(origin, color.faces(d1));
        lemma_toward(origin.toward(color.faces(d1), 1), color.faces(d2));
        assert(origin.on_board());
        lemma_reaches(p, origin, mover, ts, false, i, 0);
    }
    if is_legal_move(p, origin, dest) {
        let (i, k) = lemma_reached_by(p, origin, mover, ts, false, dest);
        let d1 = ts[i][0];
        let d2 = ts[i][1];
        assert(ts[i] =~= seq![d1, d2]);
        lemma_two_steps(p, origin, color, Name::Knight, d1, d2);
        d1.lemma_reversed();
        d2.lemma_reversed();
        lemma_toward(origin, color.faces(d1));
        lemma_toward(origin.toward(color.faces(d1), 1), color.faces(d2));
    }
}

/// A pawn's moves along its file: of the squares on the pawn's own file,
/// the one ahead is a legal destination exactly when it is on the board and
/// empty; the second ahead exactly when the pawn has not moved and both are
/// empty; and no other square is. So an unmoved pawn has two such
/// destinations, one, or none, and a pawn that has moved never has the
/// second.
pub proof fn lemma_pawn_advances(p: Placement, origin: Coord, dest: Coord)
    requires
        on_board(p),
        p.dom().contains(origin),
        p[origin].name == Name::Pawn,
        dest.file == origin.file,
    ensures
        is_legal_move(p, origin, dest) <==> {
            let ahead = p[origin].color.faces(Direction::Up);
            let one = origin.toward(ahead, 1);
            let two = origin.toward(ahead, 2);
            ||| dest == one && one.on_board() && !p.dom().contains(one)
            ||| dest == two && !p[origin].moved && two.on_board() && !p.dom().contains(one)
                && !p.dom().contains(two)
        },
{
    let mover = p[origin];
    let color = mover.color;
    let ahead = color.faces(Direction::Up);
    let one = origin.toward(ahead, 1);
    let two = origin.toward(ahead, 2);
    let ts = mover.move_templates();
    let cs = mover.capture_templates();
    lemma_toward(origin, ahead);
    lemma_toward(one, ahead);
    lemma_one_step(p, origin, color, Name::Pawn, Direction::Up, 0);
    lemma_two_steps(p, origin, color, Name::Pawn, Direction::Up, Direction::Up);
    assert(ts[0] =~= seq![Direction::Up]);
    if !mover.moved {
        assert(ts[1] =~= seq![Direction::Up, Direction::Up]);
    }
    if dest == one && one.on_board() && !p.dom().contains(one) {
        lemma_reaches(p, origin, mover, ts, false, 0, 0);
    }
    if dest == two && !mover.moved && two.on_board() && !p.dom().contains(one) && !p.dom().contains(
        two,
    ) {
        assert(origin.on_board());
        lemma_reaches(p, origin, mover, ts, false, 1, 0);
    }
    if is_legal_move(p, origin, dest) {
        if walk_reaches(p, origin, mover, ts, false, dest) {
            let (i, k) = lemma_reached_by(p, origin, mover, ts, false, dest);
            assert(k == 0);
        } else {
            // a walk for captures ends on another file
            let (i, k) = lemma_reached_by(p, origin, mover, cs, true, dest);
            let w = cs[i][0];
            assert(cs[i] =~= seq![w]);
            lemma_one_step(p, origin, color, Name::Pawn, w, 0);
            w.lemma_reversed();
            lemma_toward(origin, color.faces(w));
        }
    }
}

/// A pawn's moves off its file: a square on another file is a legal
/// destination exactly when it is one of the two squares diagonally ahead,
/// on the board, and held by an enemy. An empty diagonal and one held by a
/// friend are never destinations.
pub proof fn lemma_pawn_captures(p: Placement, origin: Coord, dest: Coord)
    requires
        on_board(p),
        p.dom().contains(origin),
        p[origin].name == Name::Pawn,
        dest.file != origin.file,
    ensures
        is_legal_move(p, origin, dest) <==> {
            let color = p[origin].color;
            &&& dest == origin.toward(color.faces(Direction::UpLeft), 1) || dest == origin.toward(
                color.faces(Direction::UpRight),
                1,
            )
            &&& dest.on_board()
            &&& p.dom().contains(dest)
            &&& p[dest].color != color
        },
{
    let mover = p[origin];
    let color = mover.color;
    let left = origin.toward(color.faces(Direction::UpLeft), 1);
    let right = origin.toward(color.faces(Direction::UpRight), 1);
    let ahead = color.faces(Direction::Up);
    let ts = mover.move_templates();
    let cs = mover.capture_templates();
    lemma_toward(origin, color.faces(Direction::UpLeft));
    lemma_toward(origin, color.faces(Direction::UpRight));
    lemma_toward(origin, ahead);
    lemma_toward(origin.toward(ahead, 1), ahead);
    lemma_one_step(p, origin, color, Name::Pawn, Direction::UpLeft, 0);
    lemma_one_step(p, origin, color, Name::Pawn, Direction::UpRight, 0);
    lemma_one_step(p, origin, color, Name::Pawn, Direction::Up, 0);
    lemma_two_steps(p, origin, color, Name::Pawn, Direction::Up, Direction::Up);
    assert(cs[0] =~= seq![Direction::UpLeft]);
    assert(cs[1] =~= seq![Direction::UpRight]);
    assert(ts[0] =~= seq![Direction::Up]);
    if !mover.moved {
        assert(ts[1] =~= seq![Direction::Up, Direction::Up]);
    }
    if dest.on_board() && p.dom().contains(dest) && p[dest].color != color {
        if dest == left {
            lemma_reaches(p, origin, mover, cs, true, 0, 0);
        }
        if dest == right {
            lemma_reaches(p, origin, mover, cs, true, 1, 0);
        }
    }
    if is_legal_move(p, origin, dest) {
        if walk_reaches(p, origin, mover, ts, false, dest) {
            // an ordinary walk ends on the pawn's own file
            let (i, k) = lemma_reached_by(p, origin, mover, ts, false, dest);
            assert(k == 0);
        } else {
            let (i, k) = lemma_reached_by(p, origin, mover, cs, true, dest);
            assert(k == 0);
        }
    }
}

/// Attack and move agree. Where a piece of `color` stands on `target`, the
/// attackers of `target` are exactly the enemies of `color` for which
/// `target` is a legal destination.
pub proof fn lemma_attackers_capture(p: Placement, target: Coord, color: Color, from: Coord)
    requires
        on_board(p),
        p.dom().contains(target),
        p[target].color == color,
    ensures
        attackers(p, target, color).contains(from) <==> {
            &&& p.dom().contains(from)
            &&& p[from].color != color
            &&& legal_destinations(p, from).contains(target)
        },
{
    if p.dom().contains(from) && p[from].color != color {
        let mover = p[from];
        let ts = mover.move_templates();
        let cs = mover.capture_templates();
        if threatens(p, from, target) {
            let (i, k) = lemma_borne_on_by(p, from, target);
            if mover.name == Name::Pawn {
                assert(records(p, from, mover, cs[i], true, k));
                lemma_reaches(p, from, mover, cs, true, i, k);
            } else {
                assert(records(p, from, mover, ts[i], false, k));
                lemma_reaches(p, from, mover, ts, false, i, k);
            }
        }
        if is_legal_move(p, from, target) {
            if walk_reaches(p, from, mover, ts, false, target) {
                let (i, k) = lemma_reached_by(p, from, mover, ts, false, target);
                lemma_bears_on(p, from, i, k);
            } else {
                let (i, k) = lemma_reached_by(p, from, mover, cs, true, target);
                lemma_bears_on(p, from, i, k);
            }
        }
    }
}

/// What stands on a square plays no part in whether the square is
/// attacked: a piece bears on `target` in a placement exactly when it does
/// with `victim` put on `target`.
pub proof fn lemma_threat_ignores_target(p: Placement, from: Coord, target: Coord, victim: Piece)
    requires
        from != target,
    ensures
        threatens(p.insert(target, victim), from, target) == threatens(p, from, target),
{
    let q = p.insert(target, victim);
    if p.dom().contains(from) {
        let mover = p[from];
        lemma_capture_templates(mover.name, 0);
        if threatens(p, from, target) {
            let (i, k) = lemma_borne_on_by(p, from, target);
            lemma_arrival_ignores_end(p, q, from, mover.color, mover.name, i, k);
            lemma_bears_on(q, from, i, k);
        }
        if threatens(q, from, target) {
            let (i, k) = lemma_borne_on_by(q, from, target);
            lemma_arrival_ignores_end(p, q, from, mover.color, mover.name, i, k);
            lemma_bears_on(p, from, i, k);
        }
    }
}

/// No piece bears on the square on which it stands.
pub proof fn lemma_no_threat_to_self(p: Placement, from: Coord)
    ensures
        !threatens(p, from, from),
{
    if threatens(p, from, from) {
        let mover = p[from];
        let (i, k) = lemma_borne_on_by(p, from, from);
        lemma_capture_templates(mover.name, 0);
        lemma_capture_templates_move(mover.name, i);
        lemma_rep_stays(from, mover.color, mover.capture_templates()[i], k + 1);
    }
}

/// Attack and move agree. The attackers of `target`, taken as enemies of
/// `color`, are exactly the pieces of the other color for which `target`
/// would be a legal destination if a piece of `color` stood there, whatever
/// stands there now.
pub proof fn lemma_attackers_would_capture(
    p: Placement,
    target: Coord,
    color: Color,
    victim: Piece,
    from: Coord,
)
    requires
        on_board(p),
        target.on_board(),
        victim.color == color,
    ensures
        attackers(p, target, color).contains(from) <==> {
            &&& from != target
            &&& p.dom().contains(from)
            &&& p[from].color != color
            &&& legal_destinations(p.insert(target, victim), from).contains(target)
        },
{
    lemma_no_threat_to_self(p, from);
    if from != target {
        lemma_threat_ignores_target(p, from, target, victim);
        lemma_attackers_capture(p.insert(target, victim), target, color, from);
    }
}

} // verus!
