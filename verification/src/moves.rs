//! Move generation and attack detection: the walks of the pieces over a
//! board.

use vstd::prelude::*;
use crate::board::Board;
use crate::color::Color;
use crate::coord::Coord;
use crate::direction::Direction;
use crate::file::File;
use crate::name::Name;
use crate::piece::{Piece, templates};
use crate::rank::Rank;
use crate::rays::{
    lemma_arrival_reverses, lemma_capture_templates, lemma_capture_templates_move,
    lemma_captures_spread, lemma_moves_spread, lemma_pawn_walks_apart,
};
use crate::square::Square;
use crate::walk::{
    Placement, arrives, attackers, is_attacker, legal_destinations, lemma_arrives_on_board,
    lemma_bears_on, lemma_borne_on_by, lemma_reached_by, lemma_reaches, lemma_rep_bound,
    lemma_rep_end, lemma_rep_moves, lemma_reversed_runs, lemma_reversed_step, lemma_step,
    on_board, passes, records, rep_end, rep_start, reversed, runs, span_x, span_y, spread,
    step_to, walk_destinations, walk_reaches,
};

verus! {

/// The squares of a sequence, as a set of coordinates.
pub open spec fn coords(s: Seq<Square>) -> Set<Coord> {
    Set::new(|c: Coord| exists|i: int| 0 <= i < s.len() && #[trigger] s[i].coord() == c)
}

/// No two squares of the sequence have the same rank and file.
pub open spec fn distinct(s: Seq<Square>) -> bool {
    forall|a: int, b: int|
        0 <= a < b < s.len() ==> (#[trigger] s[a]).coord() != (#[trigger] s[b]).coord()
}

impl Board {
    /// The squares to which the piece on `square` may move, each with what
    /// stands on it: those that a walk along the piece's ordinary templates
    /// reaches, and for a piece that captures apart (a pawn) those that a
    /// walk for captures only along its capture templates reaches. No square
    /// is given twice, and every square given lies on the board.
    ///
    /// `square` must hold a piece.
    pub fn legal_moves(&self, square: Square) -> (legal_moves: Vec<Square>)
        requires
            self.wf(),
            square.wf(),
            self@.dom().contains(square.coord()),
        ensures
            coords(legal_moves@) == legal_destinations(self@, square.coord()),
            distinct(legal_moves@),
            forall|i: int| 0 <= i < legal_moves@.len() ==> (#[trigger] legal_moves@[i]).wf(),
            forall|i: int| 0 <= i < legal_moves@.len() ==> self.holds(#[trigger] legal_moves@[i]),
    {
        let square = self.get(square);
        let mut legal_moves: Vec<Square> = Vec::new();

        let piece = square.piece.unwrap();
        proof {
            lemma_moves_spread(piece.name, piece.moved, square.coord(), piece.color);
        }

        if piece.special_capture_move() {
            let mut plain = self.calculate_legal_moves(square, piece.moves(), false);
            let ghost plain_squares = plain@;
            legal_moves.append(&mut plain);

            let mut captures = self.calculate_legal_moves(square, piece.capture_moves(), true);
            proof {
                lemma_captures_spread(piece.name, square.coord(), piece.color);
                lemma_capture_templates(piece.name, 0);
                lemma_pawn_walks_differ(self@, square.coord(), piece, plain_squares, captures@);
                lemma_coords_add(plain_squares, captures@);
                lemma_distinct_add(plain_squares, captures@);
            }
            legal_moves.append(&mut captures);
        } else {
            let mut plain = self.calculate_legal_moves(square, piece.moves(), false);
            legal_moves.append(&mut plain);
        }
        assert(coords(legal_moves@) =~= legal_destinations(self@, square.coord()));
        legal_moves
    }

    /// The destinations of a walk from `square`, for the piece on it, along
    /// the templates of `moves`, each with what stands on it; with
    /// `capture_moves` set, the walk is for captures only. A template without
    /// a step yields nothing. Where the templates lead to different squares,
    /// no square is given twice.
    ///
    /// `square` must be this board's own square and hold a piece.
    pub fn calculate_legal_moves(
        &self,
        square: &Square,
        moves: Vec<Vec<Direction>>,
        capture_moves: bool,
    ) -> (legal_moves: Vec<Square>)
        requires
            self.wf(),
            self.holds(*square),
            square.piece is Some,
        ensures
            coords(legal_moves@) == walk_destinations(
                self@,
                square.coord(),
                square.piece.unwrap(),
                templates(moves@),
                capture_moves,
            ),
            forall|i: int| 0 <= i < legal_moves@.len() ==> self.holds(#[trigger] legal_moves@[i]),
            spread(
                square.coord(),
                square.piece.unwrap().color,
                square.piece.unwrap().name.slides(),
                templates(moves@),
            ) ==> distinct(legal_moves@),
    {
        let mut legal_moves: Vec<Square> = Vec::new();
        let piece = square.piece.unwrap();
        let ghost ts = templates(moves@);
        // for each square found, the template and the repetition that gave it
        let ghost mut found_by: Seq<(int, int)> = Seq::empty();

        let mut i: usize = 0;
        while i < moves.len()
            invariant
                self.wf(),
                self.holds(*square),
                square.piece == Some(piece),
                ts == templates(moves@),
                i <= moves.len(),
                walked(
                    *self,
                    square.coord(),
                    piece,
                    ts,
                    capture_moves,
                    i as int,
                    legal_moves@,
                    found_by,
                ),
            decreases moves.len() - i,
        {
            let ghost before = legal_moves@;
            assert(ts[i as int] == moves@[i as int]@);
            if moves[i].len() > 0 {
                self.walk_template(square, piece, &moves[i], capture_moves, &mut legal_moves);
            }
            proof {
                found_by = lemma_walked_on(
                    *self,
                    square.coord(),
                    piece,
                    ts,
                    capture_moves,
                    i as int,
                    before,
                    legal_moves@,
                    found_by,
                );
            }
            i += 1;
        }
        proof {
            lemma_walked_all(
                *self,
                square.coord(),
                piece,
                ts,
                capture_moves,
                legal_moves@,
                found_by,
            );
        }
        legal_moves
    }

    /// The squares of the pieces that attack `square` as enemies of
    /// `color`, each with the piece on it: every piece of the other color
    /// that bears on `square` along one of its capture templates, whatever
    /// stands on `square` itself. No square is given twice.
    ///
    /// The search looks out from `square`: for each kind of piece it walks
    /// that kind's capture templates backwards and keeps the first piece it
    /// meets, if that is an enemy of the kind.
    pub fn can_capture(&self, square: Square, color: Color) -> (squares: Vec<Square>)
        requires
            self.wf(),
            square.wf(),
        ensures
            coords(squares@) == attackers(self@, square.coord(), color),
            distinct(squares@),
            forall|i: int| 0 <= i < squares@.len() ==> self.holds(#[trigger] squares@[i]),
    {
        let mut squares: Vec<Square> = Vec::new();
        // for each square found, the kind and the template that gave it
        let ghost mut found_by: Seq<(int, int)> = Seq::empty();

        let names = Name::all();
        let mut n: usize = 0;
        while n < names.len()
            invariant
                self.wf(),
                square.wf(),
                names@ == Name::every(),
                n <= names.len(),
                looked(*self, square.coord(), color, n as int, 0, squares@, found_by),
            decreases names.len() - n,
        {
            let name = names[n];
            let piece = Piece::simple(name);
            let capture_moves = piece.capture_moves();

            let mut i: usize = 0;
            while i < capture_moves.len()
                invariant
                    self.wf(),
                    square.wf(),
                    names@ == Name::every(),
                    n < names.len(),
                    name == Name::every()[n as int],
                    piece.name == name,
                    templates(capture_moves@) == name.capture_templates(false),
                    i <= capture_moves.len(),
                    looked(*self, square.coord(), color, n as int, i as int, squares@, found_by),
                decreases capture_moves.len() - i,
            {
                let ghost before = squares@;
                proof {
                    assert(name.capture_templates(false)[i as int] == capture_moves@[i as int]@);
                    lemma_capture_templates_move(name, i as int);
                }
                self.probe_template(
                    &square,
                    color,
                    piece,
                    Ghost(i as int),
                    &capture_moves[i],
                    &mut squares,
                );
                proof {
                    found_by = lemma_looked_on(
                        *self,
                        square.coord(),
                        color,
                        n as int,
                        i as int,
                        before,
                        squares@,
                        found_by,
                    );
                }
                i += 1;
            }
            proof {
                lemma_looked_next(
                    *self,
                    square.coord(),
                    color,
                    n as int,
                    i as int,
                    squares@,
                    found_by,
                );
            }
            n += 1;
        }
        proof {
            lemma_looked_all(*self, square.coord(), color, squares@, found_by);
        }
        squares
    }

    /// Plays the steps of `template` once, from `(file, rank)`, for a piece
    /// of `color`. Gives the square on which the last step ends, or `None`
    /// when a step leaves the board or a square on the way is occupied and
    /// the piece does not jump.
    fn run_template(
        &self,
        rank: isize,
        file: isize,
        color: Color,
        jumps: bool,
        template: &Vec<Direction>,
    ) -> (end: Option<Square>)
        requires
            self.wf(),
            template.len() > 0,
            Coord::at(file as int, rank as int).on_board(),
        ensures
            end is Some <==> runs(
                self@,
                Coord::at(file as int, rank as int),
                color,
                jumps,
                template@,
            ),
            end matches Some(square) ==> square == self.cell(
                step_to(
                    Coord::at(file as int, rank as int),
                    color,
                    template@,
                    template.len() as int,
                ),
            ),
    {
        let ghost from = Coord::at(file as int, rank as int);
        let direction_change = color.direction();
        let mut curr_rank: isize = rank;
        let mut curr_file: isize = file;
        let mut last: Option<Square> = None;
        let mut j: usize = 0;
        while j < template.len()
            invariant
                self.wf(),
                j <= template.len(),
                direction_change == color.sign(),
                from == Coord::at(file as int, rank as int),
                Coord::at(curr_file as int, curr_rank as int) == step_to(
                    from,
                    color,
                    template@,
                    j as int,
                ),
                step_to(from, color, template@, j as int).on_board(),
                forall|i: int|
                    1 <= i <= j ==> {
                        &&& (#[trigger] step_to(from, color, template@, i)).on_board()
                        &&& i < template.len() ==> jumps || !self@.dom().contains(
                            step_to(from, color, template@, i),
                        )
                    },
                j > 0 ==> last == Some(self.cell(step_to(from, color, template@, j as int))),
            decreases template.len() - j,
        {
            let delta_y = template[j].delta_y();
            let delta_x = template[j].delta_x();
            proof {
                lemma_step(from, color, template@, j as int);
                assert(delta_y * direction_change == color.mirror(delta_y as int)
                    && delta_x * direction_change == color.mirror(delta_x as int))
                    by (nonlinear_arith)
                    requires
                        direction_change == color.sign(),
                ;
            }
            curr_rank = curr_rank + delta_y * direction_change;
            curr_file = curr_file + delta_x * direction_change;
            let ghost next = step_to(from, color, template@, j + 1);
            assert(next == Coord::at(curr_file as int, curr_rank as int));

            let file = match File::try_from(curr_file) {
                Ok(f) => f,
                Err(_) => {
                    assert(!next.on_board());
                    return None;
                },
            };
            let rank = match Rank::try_from(curr_rank) {
                Ok(r) => r,
                Err(_) => {
                    assert(!next.on_board());
                    return None;
                },
            };
            let square = self.get(Square::new(rank, file));
            if j != template.len() - 1 {
                if !(square.is_empty() || jumps) {
                    assert(self@.dom().contains(next));
                    return None;
                }
            }
            last = Some(*square);
            j += 1;
        }
        last
    }

    /// Walks one template from `origin` for `mover` and pushes the
    /// destinations it yields on `out`, nearest first: one square for each
    /// repetition that records, and no other.
    fn walk_template(
        &self,
        origin: &Square,
        mover: Piece,
        template: &Vec<Direction>,
        capture_only: bool,
        out: &mut Vec<Square>,
    )
        requires
            self.wf(),
            origin.wf(),
            self@.dom().contains(origin.coord()),
            template.len() > 0,
        ensures
            final(out)@.len() >= old(out)@.len(),
            forall|i: int| 0 <= i < old(out)@.len() ==> final(out)@[i] == old(out)@[i],
            forall|i: int|
                old(out)@.len() <= i < final(out)@.len() ==> #[trigger] final(out)@[i] == self.cell(
                    rep_end(origin.coord(), mover.color, template@, i - old(out)@.len()),
                ),
            forall|k: int|
                0 <= k ==> (k < final(out)@.len() - old(out)@.len() <==> #[trigger] records(
                    self@,
                    origin.coord(),
                    mover,
                    template@,
                    capture_only,
                    k,
                )),
    {
        let color = mover.color;
        let jumps = mover.can_jump();
        let slides = mover.repetetive_moves();
        let special = mover.special_capture_move();
        let ghost p = self@;
        let ghost o = origin.coord();
        let ghost t = template@;
        let ghost base = out@;

        let mut curr_rank: isize = origin.rank.0 as isize;
        let mut curr_file: isize = origin.file.0 as isize;
        let mut k: usize = 0;
        proof {
            lemma_rep_end(o, color, t, 0);
        }
        loop
            invariant_except_break
                k <= 7,
                Coord::at(curr_file as int, curr_rank as int) == rep_start(o, color, t, k as int),
                rep_start(o, color, t, k as int).on_board(),
                k == 0 || slides,
                capture_only ==> k == 0,
                forall|i: int| 0 <= i < k ==> #[trigger] passes(p, o, color, mover.name, t, i),
                out@.len() == base.len() + k,
            invariant
                self.wf(),
                template.len() > 0,
                p == self@,
                o == origin.coord(),
                o.on_board(),
                p.dom().contains(o),
                t == template@,
                color == mover.color,
                jumps == mover.name.jumps(),
                slides == mover.name.slides(),
                special == mover.name.captures_apart(),
                out@.len() >= base.len(),
                forall|i: int| 0 <= i < base.len() ==> out@[i] == base[i],
                forall|i: int|
                    base.len() <= i < out@.len() ==> #[trigger] out@[i] == self.cell(
                        rep_end(o, color, t, i - base.len()),
                    ),
                forall|i: int|
                    0 <= i < out@.len() - base.len() ==> #[trigger] records(
                        p,
                        o,
                        mover,
                        t,
                        capture_only,
                        i,
                    ),
            ensures
                forall|i: int|
                    i >= out@.len() - base.len() ==> !#[trigger] records(
                        p,
                        o,
                        mover,
                        t,
                        capture_only,
                        i,
                    ),
            decreases 8 - k,
        {
            let end = self.run_template(curr_rank, curr_file, color, jumps, template);
            proof {
                lemma_rep_end(o, color, t, k as int);
            }
            match end {
                None => {
                    assert(!passes(p, o, color, mover.name, t, k as int));
                    break ;
                },
                Some(square) => {
                    assert(arrives(p, o, color, mover.name, t, k as int));
                    let mut capture = false;
                    if square.is_empty() {
                        if capture_only {
                            break ;
                        }
                    } else {
                        assert(!passes(p, o, color, mover.name, t, k as int));
                        if !capture_only && special {
                            break ;
                        }
                        let captured_piece = square.piece.unwrap();
                        if captured_piece.color == color {
                            break ;
                        } else {
                            capture = true;
                        }
                    }
                    out.push(square);
                    assert(records(p, o, mover, t, capture_only, k as int));
                    if capture {
                        break ;
                    }
                    assert(passes(p, o, color, mover.name, t, k as int));
                    if !slides {
                        break ;
                    }
                    proof {
                        lemma_rep_moves(o, color, t, k + 1);
                        lemma_rep_bound(o, color, t, k + 1);
                    }
                    curr_rank = square.rank.0 as isize;
                    curr_file = square.file.0 as isize;
                    k += 1;
                },
            }
        }
    }

    /// Looks from `target` along one capture template of the kind of
    /// `probe`, as an enemy of `color` of that kind would come: each step
    /// is taken backwards, with the enemy's sign. Pushes on `out` the square
    /// of the enemy of that kind that the walk meets first, if it meets one
    /// before anything else.
    fn probe_template(
        &self,
        target: &Square,
        color: Color,
        probe: Piece,
        Ghost(i): Ghost<int>,
        template: &Vec<Direction>,
        out: &mut Vec<Square>,
    )
        requires
            self.wf(),
            target.wf(),
            0 <= i < probe.name.capture_templates(false).len(),
            template@ == probe.name.capture_templates(false)[i],
            template.len() > 0,
            span_x(template@, template.len() as int) != 0 || span_y(
                template@,
                template.len() as int,
            ) != 0,
        ensures
            old(out)@.len() <= final(out)@.len() <= old(out)@.len() + 1,
            forall|n: int| 0 <= n < old(out)@.len() ==> final(out)@[n] == old(out)@[n],
            forall|n: int|
                old(out)@.len() <= n < final(out)@.len() ==> self.holds(#[trigger] final(out)@[n]),
            forall|n: int|
                old(out)@.len() <= n < final(out)@.len() ==> sighted(
                    self@,
                    target.coord(),
                    color,
                    probe.name,
                    i,
                    (#[trigger] final(out)@[n]).coord(),
                ),
            forall|from: Coord| #[trigger]
                sighted(self@, target.coord(), color, probe.name, i, from) ==> final(out)@.len()
                    == old(out)@.len() + 1 && final(out)@[old(out)@.len() as int].coord() == from,
    {
        let name = probe.name;
        let jumps = probe.can_jump();
        let slides = probe.repetetive_moves();
        let enemy = color.opposite();
        let ghost p = self@;
        let ghost o = target.coord();
        let ghost t = template@;
        let ghost base = out@;

        let mut backward: Vec<Direction> = Vec::new();
        let mut j: usize = 0;
        while j < template.len()
            invariant
                j <= template.len(),
                t == template@,
                backward@.len() == j,
                forall|n: int| 0 <= n < j ==> #[trigger] backward@[n] == t[n].reversed(),
            decreases template.len() - j,
        {
            backward.push(template[j].backwards());
            j += 1;
        }
        assert(backward@ =~= reversed(t));

        let mut curr_rank: isize = target.rank.0 as isize;
        let mut curr_file: isize = target.file.0 as isize;
        let mut k: usize = 0;
        let ghost mut hit: int = 0;
        proof {
            lemma_rep_end(o, color, t, 0);
        }
        loop
            invariant_except_break
                k <= 7,
                Coord::at(curr_file as int, curr_rank as int) == rep_start(o, color, t, k as int),
                rep_start(o, color, t, k as int).on_board(),
                k == 0 || slides,
                forall|n: int| 0 <= n < k ==> #[trigger] passes(p, o, color, name, t, n),
                out@ == base,
            invariant
                self.wf(),
                p == self@,
                o == target.coord(),
                o.on_board(),
                t == template@,
                t.len() > 0,
                backward@ == reversed(t),
                enemy == color.opponent(),
                name == probe.name,
                jumps == name.jumps(),
                slides == name.slides(),
                span_x(t, t.len() as int) != 0 || span_y(t, t.len() as int) != 0,
                forall|n: int| 0 <= n < k ==> !#[trigger] meets(p, o, color, name, t, n),
            ensures
                base.len() <= out@.len() <= base.len() + 1,
                forall|n: int| 0 <= n < base.len() ==> out@[n] == base[n],
                out@.len() == base.len() + 1 ==> {
                    &&& self.holds(out@[base.len() as int])
                    &&& meets(p, o, color, name, t, hit)
                    &&& rep_end(o, color, t, hit) == out@[base.len() as int].coord()
                },
                forall|n: int| #[trigger]
                    meets(p, o, color, name, t, n) ==> out@.len() == base.len() + 1 && rep_end(
                        o,
                        color,
                        t,
                        n,
                    ) == out@[base.len() as int].coord(),
            decreases 8 - k,
        {
            let end = self.run_template(curr_rank, curr_file, enemy, jumps, &backward);
            proof {
                lemma_rep_end(o, color, t, k as int);
                lemma_reversed_runs(p, rep_start(o, color, t, k as int), color, jumps, t);
                lemma_reversed_step(rep_start(o, color, t, k as int), color, t, t.len() as int);
            }
            match end {
                None => {
                    assert(!passes(p, o, color, name, t, k as int));
                    break ;
                },
                Some(square) => {
                    assert(arrives(p, o, color, name, t, k as int));
                    proof {
                        lemma_arrives_on_board(p, o, color, name, t, k as int);
                    }
                    if !square.is_empty() {
                        assert(!passes(p, o, color, name, t, k as int));
                        let capturing_piece = square.piece.unwrap();
                        if capturing_piece.color != color && capturing_piece.name == name {
                            out.push(square);
                            proof {
                                hit = k as int;
                            }
                        }
                        break ;
                    }
                    assert(passes(p, o, color, name, t, k as int));
                    if !slides {
                        break ;
                    }
                    proof {
                        lemma_rep_bound(o, color, t, k + 1);
                    }
                    curr_rank = square.rank.0 as isize;
                    curr_file = square.file.0 as isize;
                    k += 1;
                },
            }
        }
        proof {
            assert forall|from: Coord| #[trigger]
                sighted(p, o, color, name, i, from) implies out@.len() == base.len() + 1
                && out@[base.len() as int].coord() == from by {
                let n = choose|n: int| #[trigger]
                    meets(p, o, color, name, t, n) && rep_end(o, color, t, n) == from;
            }
        }
    }
}

/// The first of two pairs comes before the second, comparing the first
/// numbers and then the second.
spec fn before(a: (int, int), b: (int, int)) -> bool {
    a.0 < b.0 || (a.0 == b.0 && a.1 < b.1)
}

/// `found` lists what the walks along the first `n` templates yield, in the
/// order of the templates and of their repetitions: `found_by` gives for
/// each square the template and the repetition that yield it.
spec fn walked(
    board: Board,
    origin: Coord,
    mover: Piece,
    ts: Seq<Seq<Direction>>,
    capture_only: bool,
    n: int,
    found: Seq<Square>,
    found_by: Seq<(int, int)>,
) -> bool {
    &&& found_by.len() == found.len()
    &&& forall|x: int| 0 <= x < found.len() ==> board.holds(#[trigger] found[x])
    &&& forall|x: int|
        0 <= x < found.len() ==> {
            let (i, k) = #[trigger] found_by[x];
            &&& 0 <= i < n
            &&& i < ts.len()
            &&& records(board@, origin, mover, ts[i], capture_only, k)
            &&& found[x].coord() == rep_end(origin, mover.color, ts[i], k)
        }
    &&& forall|a: int, b: int|
        0 <= a < b < found.len() ==> before(#[trigger] found_by[a], #[trigger] found_by[b])
    &&& forall|i: int, k: int|
        0 <= i < n && i < ts.len() && #[trigger] records(
            board@,
            origin,
            mover,
            ts[i],
            capture_only,
            k,
        ) ==> found_by.contains((i, k))
}

/// The list of what the first `n` templates yield, continued by what
/// template `n` yields, is the list of what the first `n + 1` yield.
proof fn lemma_walked_on(
    board: Board,
    origin: Coord,
    mover: Piece,
    ts: Seq<Seq<Direction>>,
    capture_only: bool,
    n: int,
    found: Seq<Square>,
    longer: Seq<Square>,
    found_by: Seq<(int, int)>,
) -> (longer_by: Seq<(int, int)>)
    requires
        walked(board, origin, mover, ts, capture_only, n, found, found_by),
        0 <= n < ts.len(),
        found.len() <= longer.len(),
        forall|x: int| 0 <= x < found.len() ==> longer[x] == found[x],
        forall|x: int|
            found.len() <= x < longer.len() ==> #[trigger] longer[x] == board.cell(
                rep_end(origin, mover.color, ts[n], x - found.len()),
            ),
        forall|k: int|
            0 <= k ==> (k < longer.len() - found.len() <==> #[trigger] records(
                board@,
                origin,
                mover,
                ts[n],
                capture_only,
                k,
            )),
    ensures
        walked(board, origin, mover, ts, capture_only, n + 1, longer, longer_by),
{
    let p = board@;
    let longer_by = Seq::new(
        longer.len(),
        |x: int|
            if x < found.len() {
                found_by[x]
            } else {
                (n, x - found.len())
            },
    );
    assert forall|x: int| 0 <= x < longer.len() implies board.holds(#[trigger] longer[x]) by {
        if x < found.len() {
            assert(board.holds(found[x]));
        } else {
            let k = x - found.len();
            assert(records(p, origin, mover, ts[n], capture_only, k));
            lemma_arrives_on_board(p, origin, mover.color, mover.name, ts[n], k);
        }
    }
    assert forall|x: int| 0 <= x < longer.len() implies {
        let (i, k) = #[trigger] longer_by[x];
        &&& 0 <= i < n + 1
        &&& i < ts.len()
        &&& records(p, origin, mover, ts[i], capture_only, k)
        &&& longer[x].coord() == rep_end(origin, mover.color, ts[i], k)
    } by {
        if x < found.len() {
            assert(longer_by[x] == found_by[x]);
            assert(longer[x] == found[x]);
        } else {
            let k = x - found.len();
            assert(records(p, origin, mover, ts[n], capture_only, k));
            lemma_arrives_on_board(p, origin, mover.color, mover.name, ts[n], k);
        }
    }
    assert forall|a: int, b: int| 0 <= a < b < longer.len() implies before(
        #[trigger] longer_by[a],
        #[trigger] longer_by[b],
    ) by {
        if b < found.len() {
            assert(before(found_by[a], found_by[b]));
        } else if a < found.len() {
            assert(longer_by[a] == found_by[a]);
        }
    }
    assert forall|i: int, k: int|
        0 <= i < n + 1 && i < ts.len() && #[trigger] records(
            p,
            origin,
            mover,
            ts[i],
            capture_only,
            k,
        ) implies longer_by.contains((i, k)) by {
        if i < n {
            let x = choose|x: int| 0 <= x < found_by.len() && found_by[x] == (i, k);
            assert(longer_by[x] == (i, k));
        } else {
            assert(longer_by[found.len() + k] == (i, k));
        }
    }
    longer_by
}

/// The list of what all the templates yield holds the destinations of the
/// walk and no other square, and none of them twice where the templates
/// lead to different squares.
proof fn lemma_walked_all(
    board: Board,
    origin: Coord,
    mover: Piece,
    ts: Seq<Seq<Direction>>,
    capture_only: bool,
    found: Seq<Square>,
    found_by: Seq<(int, int)>,
)
    requires
        walked(board, origin, mover, ts, capture_only, ts.len() as int, found, found_by),
    ensures
        coords(found) == walk_destinations(board@, origin, mover, ts, capture_only),
        spread(origin, mover.color, mover.name.slides(), ts) ==> distinct(found),
{
    let p = board@;
    assert forall|d: Coord|
        coords(found).contains(d) == walk_reaches(p, origin, mover, ts, capture_only, d) by {
        if coords(found).contains(d) {
            let x = choose|x: int| 0 <= x < found.len() && #[trigger] found[x].coord() == d;
            let (i, k) = found_by[x];
            lemma_reaches(p, origin, mover, ts, capture_only, i, k);
        }
        if walk_reaches(p, origin, mover, ts, capture_only, d) {
            let (i, k) = lemma_reached_by(p, origin, mover, ts, capture_only, d);
            let x = choose|x: int| 0 <= x < found_by.len() && found_by[x] == (i, k);
            assert(found[x].coord() == d);
        }
    }
    assert(coords(found) =~= walk_destinations(p, origin, mover, ts, capture_only));
    if spread(origin, mover.color, mover.name.slides(), ts) {
        assert forall|a: int, b: int| 0 <= a < b < found.len() implies (#[trigger] found[a]).coord()
            != (#[trigger] found[b]).coord() by {
            let (ia, ka) = found_by[a];
            let (ib, kb) = found_by[b];
            assert(before(found_by[a], found_by[b]));
            if found[a].coord() == found[b].coord() {
                assert(rep_end(origin, mover.color, ts[ia], ka) == rep_end(
                    origin,
                    mover.color,
                    ts[ib],
                    kb,
                ));
            }
        }
    }
}

/// The squares that a pawn's ordinary walk yields and those that its walk
/// for captures yields have no square in common.
proof fn lemma_pawn_walks_differ(
    p: Placement,
    origin: Coord,
    mover: Piece,
    plain: Seq<Square>,
    captures: Seq<Square>,
)
    requires
        mover.name == Name::Pawn,
        coords(plain) == walk_destinations(p, origin, mover, mover.move_templates(), false),
        coords(captures) == walk_destinations(p, origin, mover, mover.capture_templates(), true),
    ensures
        forall|a: int, b: int|
            0 <= a < plain.len() && 0 <= b < captures.len() ==> (#[trigger] plain[a]).coord() != (
            #[trigger] captures[b]).coord(),
{
    assert forall|a: int, b: int| 0 <= a < plain.len() && 0 <= b < captures.len() implies (
    #[trigger] plain[a]).coord() != (#[trigger] captures[b]).coord() by {
        assert(coords(plain).contains(plain[a].coord()));
        assert(coords(captures).contains(captures[b].coord()));
        lemma_pawn_walks_apart(p, origin, mover, plain[a].coord());
        lemma_pawn_walks_apart(p, origin, mover, captures[b].coord());
    }
}

/// A walk from `target` along the template, played as a piece of `color`
/// and of kind `name` would play it, arrives at the end of repetition `k` on
/// an enemy of `color` of that kind.
spec fn meets(
    p: Placement,
    target: Coord,
    color: Color,
    name: Name,
    t: Seq<Direction>,
    k: int,
) -> bool {
    let end = rep_end(target, color, t, k);
    &&& arrives(p, target, color, name, t, k)
    &&& p.dom().contains(end)
    &&& p[end].color != color
    &&& p[end].name == name
}

/// An enemy of `color`, of kind `name`, stands on `from`, and a walk from
/// `target` along the kind's capture template `i` meets it there.
spec fn sighted(
    p: Placement,
    target: Coord,
    color: Color,
    name: Name,
    i: int,
    from: Coord,
) -> bool {
    &&& 0 <= i < name.capture_templates(false).len()
    &&& exists|k: int| #[trigger]
        meets(p, target, color, name, name.capture_templates(false)[i], k) && rep_end(
            target,
            color,
            name.capture_templates(false)[i],
            k,
        ) == from
}

/// The template `(m, j)`, template `j` of kind `m`, comes before `(n, i)`
/// and belongs to a kind.
spec fn looked_at(m: int, j: int, n: int, i: int) -> bool {
    0 <= m < Name::every().len() && before((m, j), (n, i))
}

/// `found` lists the enemies sighted from `target` along the capture
/// templates that come before template `i` of kind `n`, going through the
/// kinds in the order of [`Name::every`] and through each kind's templates in
/// their order: `found_by` gives for each square the kind and the template
/// along which it is sighted.
spec fn looked(
    board: Board,
    target: Coord,
    color: Color,
    n: int,
    i: int,
    found: Seq<Square>,
    found_by: Seq<(int, int)>,
) -> bool {
    &&& found_by.len() == found.len()
    &&& forall|x: int| 0 <= x < found.len() ==> board.holds(#[trigger] found[x])
    &&& forall|x: int|
        0 <= x < found.len() ==> {
            let (m, j) = #[trigger] found_by[x];
            &&& looked_at(m, j, n, i)
            &&& sighted(board@, target, color, Name::every()[m], j, found[x].coord())
        }
    &&& forall|a: int, b: int|
        0 <= a < b < found.len() ==> before(#[trigger] found_by[a], #[trigger] found_by[b])
    &&& forall|m: int, j: int, from: Coord|
        looked_at(m, j, n, i) && #[trigger] sighted(
            board@,
            target,
            color,
            Name::every()[m],
            j,
            from,
        ) ==> coords(found).contains(from)
}

/// The list of the enemies sighted before template `i` of kind `n`,
/// continued by the one sighted along that template, if any, is the list of
/// those sighted before template `i + 1`.
proof fn lemma_looked_on(
    board: Board,
    target: Coord,
    color: Color,
    n: int,
    i: int,
    found: Seq<Square>,
    longer: Seq<Square>,
    found_by: Seq<(int, int)>,
) -> (longer_by: Seq<(int, int)>)
    requires
        looked(board, target, color, n, i, found, found_by),
        0 <= n < Name::every().len(),
        found.len() <= longer.len() <= found.len() + 1,
        forall|x: int| 0 <= x < found.len() ==> longer[x] == found[x],
        forall|x: int| found.len() <= x < longer.len() ==> board.holds(#[trigger] longer[x]),
        forall|x: int|
            found.len() <= x < longer.len() ==> sighted(
                board@,
                target,
                color,
                Name::every()[n],
                i,
                (#[trigger] longer[x]).coord(),
            ),
        forall|from: Coord| #[trigger]
            sighted(board@, target, color, Name::every()[n], i, from) ==> longer.len()
                == found.len() + 1 && longer[found.len() as int].coord() == from,
    ensures
        looked(board, target, color, n, i + 1, longer, longer_by),
{
    let p = board@;
    let longer_by = Seq::new(
        longer.len(),
        |x: int|
            if x < found.len() {
                found_by[x]
            } else {
                (n, i)
            },
    );
    assert forall|x: int| 0 <= x < longer.len() implies board.holds(#[trigger] longer[x]) by {
        if x < found.len() {
            assert(board.holds(found[x]));
        }
    }
    assert forall|x: int| 0 <= x < longer.len() implies {
        let (m, j) = #[trigger] longer_by[x];
        &&& looked_at(m, j, n, i + 1)
        &&& sighted(p, target, color, Name::every()[m], j, longer[x].coord())
    } by {
        if x < found.len() {
            assert(longer_by[x] == found_by[x]);
            assert(longer[x] == found[x]);
        }
    }
    assert forall|a: int, b: int| 0 <= a < b < longer.len() implies before(
        #[trigger] longer_by[a],
        #[trigger] longer_by[b],
    ) by {
        if b < found.len() {
            assert(before(found_by[a], found_by[b]));
        } else {
            assert(longer_by[a] == found_by[a]);
        }
    }
    assert forall|m: int, j: int, from: Coord|
        looked_at(m, j, n, i + 1) && #[trigger] sighted(
            p,
            target,
            color,
            Name::every()[m],
            j,
            from,
        ) implies coords(longer).contains(from) by {
        if looked_at(m, j, n, i) {
            assert(coords(found).contains(from));
            let x = choose|x: int| 0 <= x < found.len() && #[trigger] found[x].coord() == from;
            assert(longer[x].coord() == from);
        } else {
            assert(longer[found.len() as int].coord() == from);
        }
    }
    longer_by
}

/// When the templates of kind `n` are done, those that come before its
/// template `i` are those that come before the first of the next kind.
proof fn lemma_looked_next(
    board: Board,
    target: Coord,
    color: Color,
    n: int,
    i: int,
    found: Seq<Square>,
    found_by: Seq<(int, int)>,
)
    requires
        looked(board, target, color, n, i, found, found_by),
        0 <= n < Name::every().len(),
        i == Name::every()[n].capture_templates(false).len(),
    ensures
        looked(board, target, color, n + 1, 0, found, found_by),
{
    assert forall|x: int| 0 <= x < found.len() implies {
        let (m, j) = #[trigger] found_by[x];
        &&& looked_at(m, j, n + 1, 0)
        &&& sighted(board@, target, color, Name::every()[m], j, found[x].coord())
    } by {
        let (m, j) = found_by[x];
        assert(looked_at(m, j, n, i));
    }
}

/// The list of the enemies sighted along all the capture templates of all
/// the kinds holds the attackers and no other square, and none of them
/// twice.
proof fn lemma_looked_all(
    board: Board,
    target: Coord,
    color: Color,
    found: Seq<Square>,
    found_by: Seq<(int, int)>,
)
    requires
        target.on_board(),
        looked(board, target, color, Name::every().len() as int, 0, found, found_by),
    ensures
        coords(found) == attackers(board@, target, color),
        distinct(found),
{
    let p = board@;
    let kinds = Name::every().len() as int;
    board.lemma_view_on_board();
    assert forall|from: Coord|
        coords(found).contains(from) == is_attacker(p, target, color, from) by {
        if coords(found).contains(from) {
            let x = choose|x: int| 0 <= x < found.len() && #[trigger] found[x].coord() == from;
            let (m, j) = found_by[x];
            lemma_sighted_is_attacker(p, target, color, Name::every()[m], j, from);
        }
        if is_attacker(p, target, color, from) {
            let j = lemma_attacker_is_sighted(p, target, color, from);
            Name::lemma_every_is_complete(p[from].name);
            let m = choose|m: int| 0 <= m < Name::every().len() && Name::every()[m] == p[from].name;
            assert(looked_at(m, j, kinds, 0));
            assert(sighted(p, target, color, Name::every()[m], j, from));
        }
    }
    assert(coords(found) =~= attackers(p, target, color));
    assert forall|a: int, b: int| 0 <= a < b < found.len() implies (#[trigger] found[a]).coord()
        != (#[trigger] found[b]).coord() by {
        let from = found[a].coord();
        if found[b].coord() == from {
            let (ma, ja) = found_by[a];
            let (mb, jb) = found_by[b];
            assert(before(found_by[a], found_by[b]));
            let name = Name::every()[ma];
            assert(Name::every()[mb] == name);
            assert(ma == mb);
            let ts = name.capture_templates(false);
            let ka = choose|k: int| #[trigger]
                meets(p, target, color, name, ts[ja], k) && rep_end(target, color, ts[ja], k)
                    == from;
            let kb = choose|k: int| #[trigger]
                meets(p, target, color, name, ts[jb], k) && rep_end(target, color, ts[jb], k)
                    == from;
            lemma_captures_spread(name, target, color);
            assert(rep_end(target, color, ts[ja], ka) == rep_end(target, color, ts[jb], kb));
        }
    }
}

/// An enemy sighted from a target bears on it.
proof fn lemma_sighted_is_attacker(
    p: Placement,
    target: Coord,
    color: Color,
    name: Name,
    j: int,
    from: Coord,
)
    requires
        on_board(p),
        target.on_board(),
        sighted(p, target, color, name, j, from),
    ensures
        is_attacker(p, target, color, from),
{
    let t = name.capture_templates(false)[j];
    let k = choose|k: int| #[trigger]
        meets(p, target, color, name, t, k) && rep_end(target, color, t, k) == from;
    lemma_capture_templates(name, j);
    lemma_arrival_reverses(p, target, from, color, name, j, k);
    let mover = p[from];
    assert(mover.color == color.opponent());
    assert(mover.capture_templates() == name.capture_templates(false));
    lemma_bears_on(p, from, j, k);
}

/// An enemy that bears on a target is sighted from it, along the capture
/// template by which it bears on the target.
proof fn lemma_attacker_is_sighted(
    p: Placement,
    target: Coord,
    color: Color,
    from: Coord,
) -> (j: int)
    requires
        on_board(p),
        target.on_board(),
        is_attacker(p, target, color, from),
    ensures
        sighted(p, target, color, p[from].name, j, from),
{
    let mover = p[from];
    let (j, k) = lemma_borne_on_by(p, from, target);
    lemma_capture_templates(mover.name, 0);
    lemma_arrival_reverses(p, from, target, mover.color, mover.name, j, k);
    assert(mover.color.opponent() == color);
    assert(meets(p, target, color, mover.name, mover.name.capture_templates(false)[j], k));
    j
}

/// The squares of two sequences joined are those of the one and those of
/// the other.
proof fn lemma_coords_add(a: Seq<Square>, b: Seq<Square>)
    ensures
        coords(a + b) == coords(a).union(coords(b)),
{
    let ab = a + b;
    assert forall|c: Coord| coords(ab).contains(c) == coords(a).union(coords(b)).contains(c) by {
        if coords(ab).contains(c) {
            let i = choose|i: int| 0 <= i < ab.len() && #[trigger] ab[i].coord() == c;
            if i < a.len() {
                assert(a[i].coord() == c);
            } else {
                assert(b[i - a.len()].coord() == c);
            }
        }
        if coords(a).contains(c) {
            let i = choose|i: int| 0 <= i < a.len() && #[trigger] a[i].coord() == c;
            assert(ab[i].coord() == c);
        }
        if coords(b).contains(c) {
            let i = choose|i: int| 0 <= i < b.len() && #[trigger] b[i].coord() == c;
            assert(ab[a.len() + i].coord() == c);
        }
    }
    assert(coords(ab) =~= coords(a).union(coords(b)));
}

/// Two sequences without a repeated square, and without a square in
/// common, have none repeated when joined.
proof fn lemma_distinct_add(a: Seq<Square>, b: Seq<Square>)
    requires
        distinct(a),
        distinct(b),
        forall|i: int, j: int|
            0 <= i < a.len() && 0 <= j < b.len() ==> (#[trigger] a[i]).coord() != (
            #[trigger] b[j]).coord(),
    ensures
        distinct(a + b),
{
    let ab = a + b;
    assert forall|i: int, j: int| 0 <= i < j < ab.len() implies (#[trigger] ab[i]).coord() != (
    #[trigger] ab[j]).coord() by {
        if j < a.len() {
            assert(ab[i] == a[i] && ab[j] == a[j]);
        } else if i < a.len() {
            assert(ab[i] == a[i] && ab[j] == b[j - a.len()]);
        } else {
            assert(ab[i] == b[i - a.len()] && ab[j] == b[j - a.len()]);
        }
    }
}

} // verus!
