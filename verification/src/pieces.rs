//! Animated piece instances and the layer that owns them.
//!
//! A `Figurine` is one piece on the board with its animation state: where it
//! is drawn right now, when its current animation started, and whether it is
//! settling toward its square, fading out, or being dragged. `Pieces` owns
//! the figurines together with the snapshot they were built from, applies
//! snapshot diffs, and answers the per-frame queries of the renderer.

use vstd::prelude::*;

use crate::anim::{ease_in_out_cubic, spec_ease, ANIMATE_DURATION_MS};
use crate::diff::{
    add_ok, compute_diff, diff_post, fade_ok, in_adds, in_dests, in_fades, in_origins, is_added,
    is_removed, match_ok, DiffFade,
};
use crate::board::{lemma_square_index_injective, spec_starting_piece, Board, Color, Piece, Square};
use crate::geometry::{
    rect_matches, rect_to_pixels, spec_rect_to_pixels, square_rect_pixels, square_to_inverted,
    spec_square_center, BoardGeometry, PixelRect, Pos,
};

verus! {

/// One piece instance on the board with its animation state. `square` is the
/// square the piece belongs to (its target while settling, its origin while
/// dragging); `pos` is the position its current animation started from (or,
/// while dragging, the live pointer position); `time` is when that animation
/// started.
#[derive(Clone, Copy, PartialEq, Eq, Structural, Debug)]
pub struct Figurine {
    pub square: Square,
    pub piece: Piece,
    pub pos: Pos,
    pub time: u64,
    pub fading: bool,
    pub replaced: bool,
    pub dragging: bool,
}

/// Milliseconds since the figurine's animation started, clamped at zero.
pub open spec fn spec_elapsed(f: Figurine, now: u64) -> int {
    if now >= f.time {
        now - f.time
    } else {
        0
    }
}

/// The center of the figurine's own square.
pub open spec fn spec_target(f: Figurine) -> Pos {
    spec_square_center(f.square)
}

/// Where the figurine is drawn at `now`: a dragged piece is drawn at its
/// origin square (the live drag image is drawn separately), a fading piece
/// stays put, and a settling piece eases from `pos` toward its square.
pub open spec fn spec_pos_at(f: Figurine, now: u64) -> Pos {
    if f.dragging {
        spec_target(f)
    } else if f.fading {
        f.pos
    } else {
        Pos {
            x: spec_ease(
                f.pos.x as int,
                spec_target(f).x as int,
                spec_elapsed(f, now),
                ANIMATE_DURATION_MS as int,
            ) as i64,
            y: spec_ease(
                f.pos.y as int,
                spec_target(f).y as int,
                spec_elapsed(f, now),
                ANIMATE_DURATION_MS as int,
            ) as i64,
        }
    }
}

/// Opacity easing in thousandths: while fading, ease `base` down to zero
/// over the animation duration; otherwise hold `base`.
pub open spec fn spec_alpha_easing(f: Figurine, base: int, now: u64) -> int {
    if f.fading {
        spec_ease(base, 0, spec_elapsed(f, now), ANIMATE_DURATION_MS as int)
    } else {
        base
    }
}

/// Opacity of the piece image drawn at the pointer during a drag, and of any
/// piece not being dragged: full, or half when it fades after a capture.
pub open spec fn spec_drag_alpha(f: Figurine, now: u64) -> int {
    spec_alpha_easing(
        f,
        if f.fading && f.replaced {
            500
        } else {
            1000
        },
        now,
    )
}

/// Opacity of the figurine on its square: a dragged piece leaves a faint
/// shadow on its origin square.
pub open spec fn spec_alpha(f: Figurine, now: u64) -> int {
    if f.dragging {
        spec_alpha_easing(f, 200, now)
    } else {
        spec_drag_alpha(f, now)
    }
}

/// The pixel edges (left, top, right, bottom) a figurine's animation frame
/// must invalidate: the outward-rounded union of the unit square around its
/// current draw position and its own square's cell.
pub open spec fn spec_damage_edges(
    f: Figurine,
    geom: BoardGeometry,
    orientation: Color,
    now: u64,
) -> (int, int, int, int) {
    let p = spec_pos_at(f, now);
    let e1 = spec_rect_to_pixels(geom, orientation, p.x - 500, p.y - 500, 1000, 1000);
    let e2 = spec_rect_to_pixels(
        geom,
        orientation,
        f.square.file * 1000,
        (7 - f.square.rank) * 1000,
        1000,
        1000,
    );
    (
        if e1.0 <= e2.0 {
            e1.0
        } else {
            e2.0
        },
        if e1.1 <= e2.1 {
            e1.1
        } else {
            e2.1
        },
        if e1.2 >= e2.2 {
            e1.2
        } else {
            e2.2
        },
        if e1.3 >= e2.3 {
            e1.3
        } else {
            e2.3
        },
    )
}

/// Whether the figurine still needs animation frames: not while dragged,
/// only within the animation window, and only if it is fading or has not yet
/// been released at its target.
pub open spec fn spec_is_animating(f: Figurine, now: u64) -> bool {
    &&& !f.dragging
    &&& spec_elapsed(f, now) <= ANIMATE_DURATION_MS
    &&& (f.fading || f.pos != spec_target(f))
}

impl Figurine {
    /// Geometry of the figurine is inside the working range.
    pub open spec fn wf(self) -> bool {
        self.square.wf() && self.pos.wf()
    }

    /// Milliseconds since this figurine's animation started.
    pub fn elapsed(&self, now: u64) -> (e: u64)
        ensures
            e == spec_elapsed(*self, now),
    {
        if now >= self.time {
            now - self.time
        } else {
            0
        }
    }

    /// The figurine's draw position at `now`.
    pub fn pos_at(&self, now: u64) -> (p: Pos)
        requires
            self.wf(),
        ensures
            p == spec_pos_at(*self, now),
            p.wf(),
    {
        let end = square_to_inverted(self.square);
        if self.dragging {
            end
        } else if self.fading {
            self.pos
        } else {
            let e = self.elapsed(now);
            Pos {
                x: ease_in_out_cubic(self.pos.x, end.x, e, ANIMATE_DURATION_MS),
                y: ease_in_out_cubic(self.pos.y, end.y, e, ANIMATE_DURATION_MS),
            }
        }
    }

    /// Opacity easing toward zero while fading, in thousandths.
    fn alpha_easing(&self, base: i64, now: u64) -> (a: i64)
        requires
            0 <= base <= 1000,
        ensures
            a == spec_alpha_easing(*self, base as int, now),
            0 <= a <= base,
            !self.fading ==> a == base,
    {
        if self.fading {
            ease_in_out_cubic(base, 0, self.elapsed(now), ANIMATE_DURATION_MS)
        } else {
            base
        }
    }

    /// Opacity of the drag image, in thousandths.
    pub fn drag_alpha(&self, now: u64) -> (a: i64)
        ensures
            a == spec_drag_alpha(*self, now),
            0 <= a <= 1000,
            !self.fading ==> a == 1000,
    {
        let base: i64 = if self.fading && self.replaced {
            500
        } else {
            1000
        };
        self.alpha_easing(base, now)
    }

    /// Opacity of the figurine on its square, in thousandths.
    pub fn alpha(&self, now: u64) -> (a: i64)
        ensures
            a == spec_alpha(*self, now),
            0 <= a <= 1000,
            !self.fading ==> a > 0,
    {
        if self.dragging {
            self.alpha_easing(200, now)
        } else {
            self.drag_alpha(now)
        }
    }

    /// Whether this figurine still needs animation frames.
    pub fn is_animating(&self, now: u64) -> (r: bool)
        requires
            self.wf(),
        ensures
            r == spec_is_animating(*self, now),
    {
        !self.dragging && self.elapsed(now) <= ANIMATE_DURATION_MS && (self.fading || !(self.pos
            == square_to_inverted(self.square)))
    }

    /// The pixel area to invalidate for this figurine's next animation frame:
    /// the union of the square around its current draw position and its
    /// target square, or `None` when it is not animating.
    pub fn queue_animation(&self, geom: &BoardGeometry, orientation: Color, now: u64) -> (r:
        Option<PixelRect>)
        requires
            self.wf(),
            geom.wf(),
        ensures
            r is Some <==> spec_is_animating(*self, now),
            r is Some ==> r->0.wf() && rect_matches(
                r->0,
                spec_damage_edges(*self, *geom, orientation, now),
            ),
    {
        if self.is_animating(now) {
            let p = self.pos_at(now);
            let r1 = rect_to_pixels(geom, orientation, p.x - 500, p.y - 500, 1000, 1000);
            let r2 = square_rect_pixels(geom, orientation, self.square);
            Some(r1.union(r2))
        } else {
            None
        }
    }
}

/// `g` occurs among the figurines.
pub open spec fn in_figs(figs: Seq<Figurine>, g: Figurine) -> bool {
    exists|i: int| 0 <= i < figs.len() && figs[i] == g
}

/// `g` occurs among the first `i` figurines.
pub open spec fn fig_from_prefix(figs: Seq<Figurine>, i: int, g: Figurine) -> bool {
    exists|w: int| 0 <= w < i && figs[w] == g
}

/// Some live (non-fading) figurine stands on `sq`.
pub open spec fn has_fig_at(figs: Seq<Figurine>, sq: Square) -> bool {
    exists|i: int| 0 <= i < figs.len() && !(#[trigger] figs[i]).fading && figs[i].square == sq
}

/// The figurines agree with a snapshot: every live figurine stands on a
/// square the snapshot occupies with its piece, no two live figurines share
/// a square, and every occupied square has its live figurine.
pub open spec fn figs_match_board(figs: Seq<Figurine>, board: Seq<Option<Piece>>) -> bool {
    &&& forall|i: int| 0 <= i < figs.len() ==> (#[trigger] figs[i]).wf()
    &&& forall|i: int|
        0 <= i < figs.len() && !(#[trigger] figs[i]).fading ==> board[figs[i].square.spec_index()]
            == Some(figs[i].piece)
    &&& forall|i: int, j: int|
        #![trigger figs[i], figs[j]]
        0 <= i < j < figs.len() && !figs[i].fading && !figs[j].fading ==> figs[i].square
            != figs[j].square
    &&& forall|sq: Square| sq.wf() && #[trigger] board[sq.spec_index()] is Some ==> has_fig_at(
        figs,
        sq,
    )
}

/// At most one figurine is being dragged.
pub open spec fn at_most_one_dragging(figs: Seq<Figurine>) -> bool {
    forall|i: int, j: int|
        #![trigger figs[i], figs[j]]
        0 <= i < j < figs.len() ==> !(figs[i].dragging && figs[j].dragging)
}

/// The piece layer: the snapshot most recently applied and the animated
/// figurines standing for it.
pub struct Pieces {
    board: Board,
    figurines: Vec<Figurine>,
}

impl Pieces {
    /// The figurines, as a sequence.
    pub closed spec fn figs(&self) -> Seq<Figurine> {
        self.figurines@
    }

    /// The applied snapshot.
    pub closed spec fn board_view(&self) -> Seq<Option<Piece>> {
        self.board@
    }

    /// Layer invariant: the live figurines mirror the snapshot exactly, and
    /// at most one figurine is dragged.
    pub open spec fn wf(&self) -> bool {
        &&& self.board_view().len() == 64
        &&& figs_match_board(self.figs(), self.board_view())
        &&& at_most_one_dragging(self.figs())
    }

    /// A layer for `board` with every piece already at rest on its square.
    pub fn new_from_board(board: Board) -> (r: Pieces)
        requires
            board.wf(),
        ensures
            r.wf(),
            r.board_view() == board@,
            forall|i: int|
                0 <= i < r.figs().len() ==> !(#[trigger] r.figs()[i]).fading
                    && !r.figs()[i].dragging && !r.figs()[i].replaced && r.figs()[i].pos
                    == spec_square_center(r.figs()[i].square),
    {
        let mut figurines: Vec<Figurine> = Vec::new();
        for idx in 0..64usize
            invariant
                board.wf(),
                forall|i: int|
                    0 <= i < figurines@.len() ==> {
                        let g = #[trigger] figurines@[i];
                        g.wf() && !g.fading && !g.dragging && !g.replaced && g.pos
                            == spec_square_center(g.square) && board@[g.square.spec_index()]
                            == Some(g.piece) && g.square.spec_index() < idx
                    },
                forall|i: int, j: int|
                    #![trigger figurines@[i], figurines@[j]]
                    0 <= i < j < figurines@.len() ==> figurines@[i].square != figurines@[j].square,
                forall|sq: Square|
                    sq.wf() && sq.spec_index() < idx && #[trigger] board@[sq.spec_index()]
                        is Some ==> has_fig_at(figurines@, sq),
        {
            let sq = Square { file: (idx % 8) as u8, rank: (idx / 8) as u8 };
            proof {
                vstd::arithmetic::div_mod::lemma_fundamental_div_mod(idx as int, 8);
                assert(sq.wf() && sq.spec_index() == idx);
            }
            if let Some(p) = board.piece_at(sq) {
                let ghost prior = figurines@;
                figurines.push(
                    Figurine {
                        square: sq,
                        piece: p,
                        pos: square_to_inverted(sq),
                        time: 0,
                        fading: false,
                        replaced: false,
                        dragging: false,
                    },
                );
                proof {
                    assert forall|s2: Square|
                        s2.wf() && s2.spec_index() < idx + 1 && #[trigger] board@[s2.spec_index()]
                            is Some implies has_fig_at(figurines@, s2) by {
                        if s2.spec_index() < idx {
                            let w = choose|w: int|
                                0 <= w < prior.len() && !(#[trigger] prior[w]).fading
                                    && prior[w].square == s2;
                            assert(!figurines@[w].fading && figurines@[w].square == s2);
                        } else {
                            lemma_square_index_injective(s2, sq);
                            let last = figurines@.len() - 1;
                            assert(!figurines@[last].fading && figurines@[last].square == s2);
                        }
                    }
                }
            } else {
                proof {
                    assert forall|s2: Square|
                        s2.wf() && s2.spec_index() < idx + 1 && #[trigger] board@[s2.spec_index()]
                            is Some implies has_fig_at(figurines@, s2) by {
                        if s2.spec_index() >= idx {
                            lemma_square_index_injective(s2, sq);
                        }
                    }
                }
            }
        }
        Pieces { board, figurines }
    }

    /// A layer for the standard starting position, every piece at rest.
    pub fn new() -> (r: Pieces)
        ensures
            r.wf(),
            forall|sq: Square|
                sq.wf() ==> r.board_view()[#[trigger] sq.spec_index()] == spec_starting_piece(sq),
            forall|i: int|
                0 <= i < r.figs().len() ==> !(#[trigger] r.figs()[i]).fading
                    && !r.figs()[i].dragging && !r.figs()[i].replaced && r.figs()[i].pos
                    == spec_square_center(r.figs()[i].square),
    {
        Pieces::new_from_board(Board::standard())
    }

    /// Whether `sq` is occupied in the applied snapshot.
    pub fn occupied(&self, sq: Square) -> (r: bool)
        requires
            self.wf(),
            sq.wf(),
        ensures
            r == self.board_view()[sq.spec_index()] is Some,
    {
        self.board.occupied(sq)
    }

    /// The occupant of `sq` in the applied snapshot.
    pub fn piece_on(&self, sq: Square) -> (p: Option<Piece>)
        requires
            self.wf(),
            sq.wf(),
        ensures
            p == self.board_view()[sq.spec_index()],
    {
        self.board.piece_at(sq)
    }

    /// The index of the live figurine on `sq`, if the square is occupied.
    pub fn figurine_index(&self, sq: Square) -> (r: Option<usize>)
        requires
            self.wf(),
            sq.wf(),
        ensures
            match r {
                Some(i) => i < self.figs().len() && !self.figs()[i as int].fading && self.figs()[
                    i as int
                ].square == sq,
                None => !has_fig_at(self.figs(), sq) && self.board_view()[sq.spec_index()] is None,
            },
    {
        let n = self.figurines.len();
        for i in 0..n
            invariant
                n == self.figs().len(),
                self.wf(),
                sq.wf(),
                forall|k: int|
                    0 <= k < i ==> (#[trigger] self.figs()[k]).fading || self.figs()[k].square
                        != sq,
        {
            let g = self.figurines[i];
            if !g.fading && g.square == sq {
                return Some(i);
            }
        }
        proof {
            if self.board_view()[sq.spec_index()] is Some {
                assert(has_fig_at(self.figs(), sq));
                let w = choose|w: int|
                    0 <= w < self.figs().len() && !(#[trigger] self.figs()[w]).fading
                        && self.figs()[w].square == sq;
                assert(false);
            }
        }
        None
    }

    /// The live figurine on `sq`, if the square is occupied.
    pub fn figurine_at(&self, sq: Square) -> (r: Option<Figurine>)
        requires
            self.wf(),
            sq.wf(),
        ensures
            match r {
                Some(g) => !g.fading && g.square == sq && in_figs(self.figs(), g)
                    && self.board_view()[sq.spec_index()] == Some(g.piece),
                None => !has_fig_at(self.figs(), sq) && self.board_view()[sq.spec_index()] is None,
            },
    {
        match self.figurine_index(sq) {
            Some(i) => {
                let g = self.figurines[i];
                proof {
                    assert(self.figs()[i as int] == g);
                }
                Some(g)
            },
            None => None,
        }
    }

    /// The index of the dragged figurine, if a drag is in progress.
    pub fn dragging_index(&self) -> (r: Option<usize>)
        requires
            self.wf(),
        ensures
            match r {
                Some(i) => i < self.figs().len() && self.figs()[i as int].dragging,
                None => forall|k: int|
                    0 <= k < self.figs().len() ==> !(#[trigger] self.figs()[k]).dragging,
            },
    {
        let n = self.figurines.len();
        for i in 0..n
            invariant
                n == self.figs().len(),
                forall|k: int| 0 <= k < i ==> !(#[trigger] self.figs()[k]).dragging,
        {
            if self.figurines[i].dragging {
                return Some(i);
            }
        }
        None
    }

    /// The dragged figurine, if a drag is in progress.
    pub fn dragging(&self) -> (r: Option<Figurine>)
        requires
            self.wf(),
        ensures
            match r {
                Some(g) => g.dragging && in_figs(self.figs(), g) && g.wf(),
                None => forall|k: int|
                    0 <= k < self.figs().len() ==> !(#[trigger] self.figs()[k]).dragging,
            },
    {
        match self.dragging_index() {
            Some(i) => {
                let g = self.figurines[i];
                proof {
                    assert(self.figs()[i as int] == g);
                }
                Some(g)
            },
            None => None,
        }
    }

    /// Whether any figurine still needs animation frames.
    pub fn is_animating(&self, now: u64) -> (r: bool)
        requires
            self.wf(),
        ensures
            r == exists|i: int|
                0 <= i < self.figs().len() && spec_is_animating(#[trigger] self.figs()[i], now),
    {
        let n = self.figurines.len();
        for i in 0..n
            invariant
                n == self.figs().len(),
                self.wf(),
                forall|k: int|
                    0 <= k < i ==> !spec_is_animating(#[trigger] self.figs()[k], now),
        {
            let g = self.figurines[i];
            if g.is_animating(now) {
                proof {
                    assert(spec_is_animating(self.figs()[i as int], now));
                }
                return true;
            }
        }
        false
    }
}

/// Some figurine is being dragged.
pub open spec fn has_dragging(figs: Seq<Figurine>) -> bool {
    exists|i: int| 0 <= i < figs.len() && (#[trigger] figs[i]).dragging
}

/// The dragged figurine (well defined whenever at most one is dragged).
pub open spec fn dragging_fig(figs: Seq<Figurine>) -> Figurine {
    figs[choose|i: int| 0 <= i < figs.len() && (#[trigger] figs[i]).dragging]
}

/// The figurines that survive the pruning sweep, in order: those whose fade
/// has not yet reached zero opacity.
pub open spec fn spec_prune(figs: Seq<Figurine>, now: u64) -> Seq<Figurine>
    decreases figs.len(),
{
    if figs.len() == 0 {
        Seq::empty()
    } else {
        let rest = spec_prune(figs.drop_last(), now);
        if spec_alpha(figs.last(), now) > 0 {
            rest.push(figs.last())
        } else {
            rest
        }
    }
}

/// A figurine with its animation frozen at `now`: its draw position becomes
/// the new easing start, so an interrupted slide continues smoothly. Fading
/// figurines are left alone.
pub open spec fn spec_freeze(g: Figurine, now: u64) -> Figurine {
    if g.fading {
        g
    } else {
        Figurine { pos: spec_pos_at(g, now), time: now, ..g }
    }
}

/// The destination matched with origin `sq` (meaningful when `sq` is a match
/// origin and origins are distinct).
pub open spec fn dest_of(m: Seq<(Square, Square)>, sq: Square) -> Square {
    (m[choose|k: int| 0 <= k < m.len() && (#[trigger] m[k]).0 == sq]).1
}

/// The `replaced` flag of the fade on `sq` (meaningful when `sq` fades and
/// fade squares are distinct).
pub open spec fn fade_replaced(f: Seq<DiffFade>, sq: Square) -> bool {
    (f[choose|k: int| 0 <= k < f.len() && (#[trigger] f[k]).square == sq]).replaced
}

/// How one frozen figurine reacts to a diff outcome: a matched origin slides
/// to its destination, an unmatched removal starts fading, everything else —
/// including every already-fading figurine — is untouched.
pub open spec fn spec_transition(
    g: Figurine,
    m: Seq<(Square, Square)>,
    f: Seq<DiffFade>,
    now: u64,
) -> Figurine {
    if g.fading {
        g
    } else if in_origins(m, g.square) {
        Figurine { square: dest_of(m, g.square), time: now, ..g }
    } else if in_fades(f, g.square) {
        Figurine { fading: true, replaced: fade_replaced(f, g.square), time: now, ..g }
    } else {
        g
    }
}

/// The figurine created for a pure addition: at rest on its square.
pub open spec fn spec_new_figurine(e: (Square, Piece), now: u64) -> Figurine {
    Figurine {
        square: e.0,
        piece: e.1,
        pos: spec_square_center(e.0),
        time: now,
        fading: false,
        replaced: false,
        dragging: false,
    }
}

/// The whole layer update of one snapshot application: for some diff outcome
/// of the two snapshots (matches `m`, fades `f`, additions `a`), the final
/// figurines are exactly the pruned old ones, frozen at `now` and transitioned
/// under that outcome — matched origins slide, unmatched removals start
/// fading, everything else (fading figurines included) is untouched — followed
/// by one new figurine at rest for each addition.
pub open spec fn spec_layer_update(
    figs0: Seq<Figurine>,
    figs1: Seq<Figurine>,
    old_board: Seq<Option<Piece>>,
    new_board: Seq<Option<Piece>>,
    now: u64,
) -> bool {
    exists|m: Seq<(Square, Square)>, f: Seq<DiffFade>, a: Seq<(Square, Piece)>|
        #[trigger] diff_post(old_board, new_board, m, f, a) && {
            let pruned = spec_prune(figs0, now);
            &&& figs1.len() == pruned.len() + a.len()
            &&& forall|i: int|
                0 <= i < pruned.len() ==> figs1[i] == spec_transition(
                    spec_freeze(#[trigger] pruned[i], now),
                    m,
                    f,
                    now,
                )
            &&& forall|k: int|
                0 <= k < a.len() ==> figs1[pruned.len() + k] == spec_new_figurine(
                    #[trigger] a[k],
                    now,
                )
        }
}

/// The destination matched with origin `sq`, or `None` when `sq` is not a
/// match origin.
fn find_dest(m: &Vec<(Square, Square)>, sq: Square) -> (r: Option<Square>)
    requires
        forall|k: int, l: int|
            #![trigger m@[k], m@[l]]
            0 <= k < l < m@.len() ==> m@[k].0 != m@[l].0,
    ensures
        r is Some <==> in_origins(m@, sq),
        r is Some ==> r->0 == dest_of(m@, sq),
{
    let n = m.len();
    for k in 0..n
        invariant
            n == m@.len(),
            forall|k2: int, l: int|
                #![trigger m@[k2], m@[l]]
                0 <= k2 < l < m@.len() ==> m@[k2].0 != m@[l].0,
            forall|k2: int| 0 <= k2 < k ==> (#[trigger] m@[k2]).0 != sq,
    {
        let e = m[k];
        if e.0 == sq {
            proof {
                assert(in_origins(m@, sq));
                let c = choose|c: int| 0 <= c < m@.len() && (#[trigger] m@[c]).0 == sq;
                if c != k {
                    assert(m@[c].0 != m@[k as int].0 || m@[k as int].0 != m@[c].0);
                    assert(false);
                }
            }
            return Some(e.1);
        }
    }
    None
}

/// The `replaced` flag of the fade on `sq`, or `None` when `sq` does not
/// fade.
fn find_fade(f: &Vec<DiffFade>, sq: Square) -> (r: Option<bool>)
    requires
        forall|k: int, l: int|
            #![trigger f@[k], f@[l]]
            0 <= k < l < f@.len() ==> f@[k].square != f@[l].square,
    ensures
        r is Some <==> in_fades(f@, sq),
        r is Some ==> r->0 == fade_replaced(f@, sq),
{
    let n = f.len();
    for k in 0..n
        invariant
            n == f@.len(),
            forall|k2: int, l: int|
                #![trigger f@[k2], f@[l]]
                0 <= k2 < l < f@.len() ==> f@[k2].square != f@[l].square,
            forall|k2: int| 0 <= k2 < k ==> (#[trigger] f@[k2]).square != sq,
    {
        let e = f[k];
        if e.square == sq {
            proof {
                assert(in_fades(f@, sq));
                let c = choose|c: int| 0 <= c < f@.len() && (#[trigger] f@[c]).square == sq;
                if c != k {
                    assert(f@[c].square != f@[k as int].square || f@[k as int].square
                        != f@[c].square);
                    assert(false);
                }
            }
            return Some(e.replaced);
        }
    }
    None
}

/// Transitioning a snapshot-consistent figurine set under a diff outcome,
/// then appending the outcome's pure additions, yields a set consistent with
/// the new snapshot; no second drag appears.
proof fn lemma_transition_preserves(
    old_board: Seq<Option<Piece>>,
    new_board: Seq<Option<Piece>>,
    frozen: Seq<Figurine>,
    figs: Seq<Figurine>,
    m: Seq<(Square, Square)>,
    f: Seq<DiffFade>,
    a: Seq<(Square, Piece)>,
    now: u64,
)
    requires
        old_board.len() == 64,
        new_board.len() == 64,
        figs_match_board(frozen, old_board),
        at_most_one_dragging(frozen),
        diff_post(old_board, new_board, m, f, a),
        figs.len() == frozen.len() + a.len(),
        forall|i: int|
            0 <= i < frozen.len() ==> figs[i] == spec_transition(#[trigger] frozen[i], m, f, now),
        forall|k: int|
            0 <= k < a.len() ==> figs[frozen.len() + k] == spec_new_figurine(#[trigger] a[k], now),
    ensures
        figs_match_board(figs, new_board),
        at_most_one_dragging(figs),
        forall|i: int|
            0 <= i < frozen.len() && !(#[trigger] frozen[i]).fading && old_board[frozen[
                i
            ].square.spec_index()] == new_board[frozen[i].square.spec_index()] ==> figs[i]
                == frozen[i],
{
    let nf = frozen.len() as int;
    // a frozen figurine with an unchanged square is untouched: its square is
    // not removed, so it is neither a match origin nor a fade
    assert forall|i: int|
        0 <= i < nf && !(#[trigger] frozen[i]).fading && old_board[frozen[i].square.spec_index()]
            == new_board[frozen[i].square.spec_index()] implies figs[i] == frozen[i] by {
        let sq = frozen[i].square;
        if in_origins(m, sq) {
            let w = choose|w: int| 0 <= w < m.len() && (#[trigger] m[w]).0 == sq;
            assert(match_ok(old_board, new_board, m[w]));
            assert(false);
        }
        if in_fades(f, sq) {
            let w = choose|w: int| 0 <= w < f.len() && (#[trigger] f[w]).square == sq;
            assert(fade_ok(old_board, new_board, m, f[w]));
            assert(false);
        }
    }
    // shape of every transitioned figurine
    assert forall|i: int| 0 <= i < nf implies (#[trigger] figs[i]).wf() && figs[i].fading == (
    frozen[i].fading || (!in_origins(m, frozen[i].square) && in_fades(f, frozen[i].square)))
        && figs[i].dragging == frozen[i].dragging && figs[i].piece == frozen[i].piece && (
    !figs[i].fading ==> new_board[figs[i].square.spec_index()] == Some(figs[i].piece)) by {
        let g = frozen[i];
        if !g.fading {
            let sq = g.square;
            if in_origins(m, sq) {
                let c = choose|c: int| 0 <= c < m.len() && (#[trigger] m[c]).0 == sq;
                assert(match_ok(old_board, new_board, m[c]));
                assert(figs[i].square == m[c].1);
                assert(new_board[m[c].1.spec_index()] == old_board[sq.spec_index()]);
            } else if in_fades(f, sq) {
            } else {
                if old_board[sq.spec_index()] != new_board[sq.spec_index()] {
                    assert(is_removed(old_board, new_board, sq));
                    assert(in_fades(f, sq));
                    assert(false);
                }
            }
        }
    }
    // shape of every appended figurine
    assert forall|k: int|
        0 <= k < a.len() implies (#[trigger] figs[nf + k]).wf() && !figs[nf + k].fading && !figs[nf
        + k].dragging && figs[nf + k].square == a[k].0 && new_board[figs[nf
        + k].square.spec_index()] == Some(figs[nf + k].piece) by {
        assert(add_ok(old_board, new_board, m, a[k]));
        assert(figs[nf + k] == spec_new_figurine(a[k], now));
    }
    // no two live figurines share a square
    assert forall|i: int, j: int|
        #![trigger figs[i], figs[j]]
        0 <= i < j < figs.len() && !figs[i].fading && !figs[j].fading implies figs[i].square
        != figs[j].square by {
        if figs[i].square == figs[j].square {
            let si = figs[i].square;
            if i < nf && j < nf {
                let gi = frozen[i];
                let gj = frozen[j];
                assert(gi.square != gj.square);
                let oi = in_origins(m, gi.square);
                let oj = in_origins(m, gj.square);
                if oi && oj {
                    let ci = choose|c: int| 0 <= c < m.len() && (#[trigger] m[c]).0 == gi.square;
                    let cj = choose|c: int| 0 <= c < m.len() && (#[trigger] m[c]).0 == gj.square;
                    assert(ci != cj);
                    assert(m[ci].1 != m[cj].1);
                    assert(false);
                } else if oi {
                    // j kept its square, which is unchanged-occupied; i moved
                    // to an added square
                    let ci = choose|c: int| 0 <= c < m.len() && (#[trigger] m[c]).0 == gi.square;
                    assert(match_ok(old_board, new_board, m[ci]));
                    assert(is_added(old_board, new_board, figs[i].square));
                    assert(old_board[gj.square.spec_index()] == Some(gj.piece));
                    assert(new_board[figs[j].square.spec_index()] == Some(figs[j].piece));
                    assert(old_board[si.spec_index()] != new_board[si.spec_index()]);
                    assert(figs[j] == gj);
                    assert(false);
                } else if oj {
                    let cj = choose|c: int| 0 <= c < m.len() && (#[trigger] m[c]).0 == gj.square;
                    assert(match_ok(old_board, new_board, m[cj]));
                    assert(is_added(old_board, new_board, figs[j].square));
                    assert(figs[i] == gi);
                    assert(old_board[si.spec_index()] != new_board[si.spec_index()]);
                    assert(old_board[gi.square.spec_index()] == Some(gi.piece));
                    assert(false);
                } else {
                    assert(figs[i] == gi && figs[j] == gj);
                    assert(false);
                }
            } else if i < nf && j >= nf {
                assert(add_ok(old_board, new_board, m, a[j - nf]));
                assert(figs[j] == spec_new_figurine(a[j - nf], now));
                let gi = frozen[i];
                if in_origins(m, gi.square) {
                    let ci = choose|c: int| 0 <= c < m.len() && (#[trigger] m[c]).0 == gi.square;
                    assert(m[ci].1 == figs[i].square);
                    assert(in_dests(m, figs[j].square));
                    assert(false);
                } else {
                    assert(figs[i] == gi);
                    assert(old_board[si.spec_index()] == Some(gi.piece));
                    assert(is_added(old_board, new_board, figs[j].square));
                    assert(false);
                }
            } else {
                assert(add_ok(old_board, new_board, m, a[i - nf]));
                assert(add_ok(old_board, new_board, m, a[j - nf]));
                assert(figs[i] == spec_new_figurine(a[i - nf], now));
                assert(figs[j] == spec_new_figurine(a[j - nf], now));
                assert(a[i - nf].0 != a[j - nf].0);
                assert(false);
            }
        }
    }
    // every occupied square of the new snapshot has its live figurine
    assert forall|sq: Square|
        sq.wf() && #[trigger] new_board[sq.spec_index()] is Some implies has_fig_at(figs, sq) by {
        if old_board[sq.spec_index()] == new_board[sq.spec_index()] {
            assert(has_fig_at(frozen, sq));
            let i = choose|i: int|
                0 <= i < frozen.len() && !(#[trigger] frozen[i]).fading && frozen[i].square == sq;
            assert(figs[i] == frozen[i]);
            assert(!figs[i].fading && figs[i].square == sq);
        } else {
            assert(is_added(old_board, new_board, sq));
            if in_dests(m, sq) {
                let k = choose|k: int| 0 <= k < m.len() && (#[trigger] m[k]).1 == sq;
                let orig = m[k].0;
                assert(match_ok(old_board, new_board, m[k]));
                assert(old_board[orig.spec_index()] is Some);
                assert(has_fig_at(frozen, orig));
                let i = choose|i: int|
                    0 <= i < frozen.len() && !(#[trigger] frozen[i]).fading && frozen[i].square
                        == orig;
                assert(in_origins(m, orig));
                let c = choose|c: int| 0 <= c < m.len() && (#[trigger] m[c]).0 == orig;
                if c != k {
                    assert(m[c].0 != m[k].0 || m[k].0 != m[c].0);
                    assert(false);
                }
                assert(figs[i].square == sq && !figs[i].fading);
            } else {
                assert(in_adds(a, sq));
                let k = choose|k: int| 0 <= k < a.len() && (#[trigger] a[k]).0 == sq;
                assert(figs[nf + k].square == sq && !figs[nf + k].fading);
            }
        }
    }
    // at most one drag survives
    assert forall|i: int, j: int|
        #![trigger figs[i], figs[j]]
        0 <= i < j < figs.len() implies !(figs[i].dragging && figs[j].dragging) by {
        if figs[i].dragging && figs[j].dragging {
            if j >= nf {
                assert(figs[j] == spec_new_figurine(a[j - nf], now));
                assert(false);
            }
            if i >= nf {
                assert(figs[i] == spec_new_figurine(a[i - nf], now));
                assert(false);
            }
            assert(frozen[i].dragging && frozen[j].dragging);
            assert(false);
        }
    }
    // assemble the layer consistency conjuncts over the whole sequence
    assert forall|i: int| 0 <= i < figs.len() implies (#[trigger] figs[i]).wf() by {
        if i >= nf {
            assert(figs[nf + (i - nf)] == figs[i]);
        }
    }
    assert forall|i: int|
        0 <= i < figs.len() && !(#[trigger] figs[i]).fading implies new_board[figs[
        i
    ].square.spec_index()] == Some(figs[i].piece) by {
        if i >= nf {
            assert(figs[nf + (i - nf)] == figs[i]);
        }
    }
}

impl Pieces {
    /// Apply the next snapshot: prune fully faded figurines, freeze running
    /// animations so interrupted slides continue smoothly, diff the old
    /// snapshot against the new one, then slide matched pieces, start fades
    /// for the removals and create the additions. A figurine whose square
    /// is untouched by the diff survives unchanged (but frozen), drag state
    /// included.
    pub fn set_board(&mut self, board: Board, now: u64)
        requires
            old(self).wf(),
            board.wf(),
        ensures
            final(self).wf(),
            final(self).board_view() == board@,
            spec_layer_update(old(self).figs(), final(self).figs(), old(self).board_view(), board@, now),
            forall|i: int|
                0 <= i < old(self).figs().len() && !(#[trigger] old(self).figs()[i]).fading && old(
                    self,
                ).board_view()[old(self).figs()[i].square.spec_index()] == board@[old(
                    self,
                ).figs()[i].square.spec_index()] ==> in_figs(
                    final(self).figs(),
                    spec_freeze(old(self).figs()[i], now),
                ),
    {
        let ghost board0 = self.board_view();
        let ghost figs0 = self.figs();

        // prune figurines whose fade has completed
        let n = self.figurines.len();
        let mut kept: Vec<Figurine> = Vec::new();
        proof {
            assert(figs0.take(0) =~= Seq::<Figurine>::empty());
        }
        for i in 0..n
            invariant
                self == old(self),
                old(self).wf(),
                n == figs0.len(),
                figs0 == self.figs(),
                kept@ == spec_prune(figs0.take(i as int), now),
                forall|k: int|
                    0 <= k < kept@.len() ==> fig_from_prefix(figs0, i as int, #[trigger] kept@[k]),
                forall|w: int|
                    0 <= w < i && !(#[trigger] figs0[w]).fading ==> in_figs(kept@, figs0[w]),
                forall|k: int, l: int|
                    #![trigger kept@[k], kept@[l]]
                    0 <= k < l < kept@.len() && !kept@[k].fading && !kept@[l].fading ==> kept@[
                        k
                    ].square != kept@[l].square,
                forall|k: int, l: int|
                    #![trigger kept@[k], kept@[l]]
                    0 <= k < l < kept@.len() ==> !(kept@[k].dragging && kept@[l].dragging),
        {
            let g = self.figurines[i];
            proof {
                assert(figs0.take(i + 1).drop_last() =~= figs0.take(i as int));
                assert(figs0.take(i + 1).last() == figs0[i as int]);
            }
            if g.alpha(now) > 0 {
                let ghost prior = kept@;
                kept.push(g);
                proof {
                    assert(kept@ == spec_prune(figs0.take(i + 1), now));
                    assert(kept@[kept@.len() - 1] == figs0[i as int]);
                    assert forall|k: int, l: int|
                        #![trigger kept@[k], kept@[l]]
                        0 <= k < l < kept@.len() && !kept@[k].fading
                            && !kept@[l].fading implies kept@[k].square != kept@[l].square by {
                        if l == kept@.len() - 1 && kept@[k].square == kept@[l].square {
                            assert(fig_from_prefix(figs0, i as int, prior[k]));
                            let w = choose|w: int| 0 <= w < i && figs0[w] == prior[k];
                            assert(figs0[w].square == figs0[i as int].square);
                            assert(false);
                        }
                    }
                    assert forall|k: int, l: int|
                        #![trigger kept@[k], kept@[l]]
                        0 <= k < l < kept@.len() implies !(kept@[k].dragging
                        && kept@[l].dragging) by {
                        if l == kept@.len() - 1 && kept@[k].dragging && kept@[l].dragging {
                            assert(fig_from_prefix(figs0, i as int, prior[k]));
                            let w = choose|w: int| 0 <= w < i && figs0[w] == prior[k];
                            assert(figs0[w].dragging && figs0[i as int].dragging);
                            assert(false);
                        }
                    }
                    assert forall|w: int|
                        0 <= w < i + 1 && !(#[trigger] figs0[w]).fading implies in_figs(
                        kept@,
                        figs0[w],
                    ) by {
                        if w < i {
                            let u = choose|u: int| 0 <= u < prior.len() && prior[u] == figs0[w];
                            assert(kept@[u] == figs0[w]);
                        } else {
                            assert(kept@[kept@.len() - 1] == figs0[w]);
                        }
                    }
                }
            } else {
                proof {
                    // only a fading figurine can reach zero opacity
                    assert(figs0[i as int].fading);
                    assert(kept@ == spec_prune(figs0.take(i + 1), now));
                }
            }
        }
        proof {
            assert(figs0.take(n as int) =~= figs0);
        }
        self.figurines = kept;

        // freeze running animations at their current position
        let nk = self.figurines.len();
        let ghost pruned = self.figs();
        proof {
            assert forall|i: int| 0 <= i < pruned.len() implies (#[trigger] pruned[i]).wf() by {
                assert(fig_from_prefix(figs0, n as int, pruned[i]));
                let w = choose|w: int| 0 <= w < n && figs0[w] == pruned[i];
            }
        }
        for k in 0..nk
            invariant
                nk == pruned.len(),
                self.figs().len() == nk,
                self.board_view() == board0,
                forall|i: int| 0 <= i < pruned.len() ==> (#[trigger] pruned[i]).wf(),
                forall|i: int| 0 <= i < k ==> self.figs()[i] == spec_freeze(#[trigger] pruned[i], now),
                forall|i: int| 0 <= i < k ==> (#[trigger] self.figs()[i]).wf(),
                forall|i: int| k <= i < nk ==> self.figs()[i] == pruned[i],
        {
            let g = self.figurines[k];
            proof {
                assert(self.figs()[k as int] == pruned[k as int]);
                assert(pruned[k as int].wf());
            }
            if !g.fading {
                let p = g.pos_at(now);
                self.figurines.set(k, Figurine { pos: p, time: now, ..g });
                proof {
                    assert(self.figs()[k as int] == spec_freeze(pruned[k as int], now));
                    assert(self.figs()[k as int].wf());
                }
            } else {
                proof {
                    assert(self.figs()[k as int] == spec_freeze(pruned[k as int], now));
                }
            }
        }
        let ghost frozen = self.figs();

        // diff the snapshots and let every figurine react
        let d = compute_diff(&self.board, &board);
        let nf = self.figurines.len();
        for k in 0..nf
            invariant
                nf == frozen.len(),
                self.figs().len() == nf,
                self.board_view() == board0,
                board0 == old(self).board_view(),
                board.wf(),
                old(self).wf(),
                diff_post(board0, board@, d.matched@, d.fades@, d.adds@),
                forall|i: int| 0 <= i < frozen.len() ==> (#[trigger] frozen[i]).wf(),
                forall|i: int|
                    0 <= i < k ==> self.figs()[i] == spec_transition(
                        #[trigger] frozen[i],
                        d.matched@,
                        d.fades@,
                        now,
                    ),
                forall|i: int| k <= i < nf ==> self.figs()[i] == frozen[i],
        {
            let g = self.figurines[k];
            if !g.fading {
                if let Some(dst) = find_dest(&d.matched, g.square) {
                    proof {
                        let c = choose|c: int|
                            0 <= c < d.matched@.len() && (#[trigger] d.matched@[c]).0 == g.square;
                        assert(match_ok(board0, board@, d.matched@[c]));
                    }
                    self.figurines.set(k, Figurine { square: dst, time: now, ..g });
                } else if let Some(rep) = find_fade(&d.fades, g.square) {
                    self.figurines.set(
                        k,
                        Figurine { fading: true, replaced: rep, time: now, ..g },
                    );
                }
            }
        }
        let ghost transitioned = self.figs();

        // create the pure additions, at rest on their squares
        let na = d.adds.len();
        for k in 0..na
            invariant
                na == d.adds@.len(),
                self.figs().len() == transitioned.len() + k,
                self.board_view() == board0,
                board0 == old(self).board_view(),
                board.wf(),
                diff_post(board0, board@, d.matched@, d.fades@, d.adds@),
                forall|i: int|
                    0 <= i < transitioned.len() ==> #[trigger] self.figs()[i] == transitioned[i],
                forall|i: int|
                    0 <= i < k ==> self.figs()[transitioned.len() + i] == spec_new_figurine(
                        #[trigger] d.adds@[i],
                        now,
                    ),
        {
            let e = d.adds[k];
            proof {
                assert(add_ok(board0, board@, d.matched@, d.adds@[k as int]));
            }
            self.figurines.push(
                Figurine {
                    square: e.0,
                    piece: e.1,
                    pos: square_to_inverted(e.0),
                    time: now,
                    fading: false,
                    replaced: false,
                    dragging: false,
                },
            );
        }
        self.board = board;

        proof {
            // the frozen layer still mirrors the old snapshot
            assert(figs_match_board(frozen, board0)) by {
                assert forall|i: int|
                    0 <= i < frozen.len() && !(#[trigger] frozen[i]).fading implies board0[frozen[
                    i
                ].square.spec_index()] == Some(frozen[i].piece) by {
                    assert(frozen[i] == spec_freeze(pruned[i], now));
                }
                assert forall|sq: Square|
                    sq.wf() && #[trigger] board0[sq.spec_index()] is Some implies has_fig_at(
                    frozen,
                    sq,
                ) by {
                    assert(has_fig_at(figs0, sq));
                    let w = choose|w: int|
                        0 <= w < figs0.len() && !(#[trigger] figs0[w]).fading && figs0[w].square
                            == sq;
                    assert(in_figs(pruned, figs0[w]));
                    let u = choose|u: int| 0 <= u < pruned.len() && pruned[u] == figs0[w];
                    assert(frozen[u] == spec_freeze(pruned[u], now));
                    assert(!frozen[u].fading && frozen[u].square == sq);
                }
                assert forall|i: int, j: int|
                    #![trigger frozen[i], frozen[j]]
                    0 <= i < j < frozen.len() && !frozen[i].fading
                        && !frozen[j].fading implies frozen[i].square != frozen[j].square by {
                    assert(frozen[i] == spec_freeze(pruned[i], now));
                    assert(frozen[j] == spec_freeze(pruned[j], now));
                }
            }
            assert(at_most_one_dragging(frozen)) by {
                assert forall|i: int, j: int|
                    #![trigger frozen[i], frozen[j]]
                    0 <= i < j < frozen.len() implies !(frozen[i].dragging
                    && frozen[j].dragging) by {
                    assert(frozen[i] == spec_freeze(pruned[i], now));
                    assert(frozen[j] == spec_freeze(pruned[j], now));
                }
            }
            lemma_transition_preserves(
                board0,
                board@,
                frozen,
                self.figs(),
                d.matched@,
                d.fades@,
                d.adds@,
                now,
            );
            // the exact layer update, witnessed by the computed diff
            assert(pruned == spec_prune(figs0, now));
            assert forall|i: int| 0 <= i < pruned.len() implies self.figs()[i] == spec_transition(
                spec_freeze(#[trigger] pruned[i], now),
                d.matched@,
                d.fades@,
                now,
            ) by {
                assert(frozen[i] == spec_freeze(pruned[i], now));
                assert(transitioned[i] == spec_transition(frozen[i], d.matched@, d.fades@, now));
            }
            assert forall|k: int| 0 <= k < d.adds@.len() implies self.figs()[pruned.len() + k]
                == spec_new_figurine(#[trigger] d.adds@[k], now) by {
                assert(self.figs()[transitioned.len() + k] == spec_new_figurine(d.adds@[k], now));
            }
            assert(spec_layer_update(figs0, self.figs(), board0, board@, now));
            // a figurine on an untouched square survives, frozen
            assert forall|i: int|
                0 <= i < figs0.len() && !(#[trigger] figs0[i]).fading && board0[figs0[
                i
            ].square.spec_index()] == board@[figs0[i].square.spec_index()] implies in_figs(
                self.figs(),
                spec_freeze(figs0[i], now),
            ) by {
                assert(in_figs(pruned, figs0[i]));
                let u = choose|u: int| 0 <= u < pruned.len() && pruned[u] == figs0[i];
                assert(frozen[u] == spec_freeze(figs0[i], now));
                assert(!frozen[u].fading);
                assert(frozen[u].square == figs0[i].square);
                assert(self.figs()[u] == frozen[u]);
            }
        }
    }
}

/// What the renderer needs to draw one figurine: its identity square, piece
/// kind, draw position and opacity (in thousandths).
#[derive(Clone, Copy, PartialEq, Eq, Structural, Debug)]
pub struct RenderEntry {
    pub square: Square,
    pub piece: Piece,
    pub pos: Pos,
    pub alpha: i64,
}

/// The render entry of one figurine at `now`.
pub open spec fn spec_render_entry(g: Figurine, now: u64) -> RenderEntry {
    RenderEntry {
        square: g.square,
        piece: g.piece,
        pos: spec_pos_at(g, now),
        alpha: spec_alpha(g, now) as i64,
    }
}

/// Draw-order class of a figurine: fading pieces first, settled pieces next,
/// actively animating pieces last so they are never occluded.
pub open spec fn spec_render_class(g: Figurine, now: u64) -> int {
    if g.fading {
        0
    } else if !spec_is_animating(g, now) {
        1
    } else {
        2
    }
}

/// Whether the promotion overlay (over `hide`'s origin and destination)
/// suppresses this figurine.
pub open spec fn spec_hidden(g: Figurine, hide: Option<(Square, Square)>) -> bool {
    match hide {
        Some((o, d)) => g.square == o || g.square == d,
        None => false,
    }
}

/// The render entries of the figurines of one draw-order class, in figurine
/// order, suppressed figurines skipped.
pub open spec fn spec_render_pass(
    figs: Seq<Figurine>,
    now: u64,
    hide: Option<(Square, Square)>,
    cls: int,
) -> Seq<RenderEntry>
    decreases figs.len(),
{
    if figs.len() == 0 {
        Seq::empty()
    } else {
        let rest = spec_render_pass(figs.drop_last(), now, hide, cls);
        let g = figs.last();
        if spec_render_class(g, now) == cls && !spec_hidden(g, hide) {
            rest.push(spec_render_entry(g, now))
        } else {
            rest
        }
    }
}

impl Pieces {
    /// One render pass over the layer, collecting the entries of one
    /// draw-order class.
    fn render_pass(&self, now: u64, hide: Option<(Square, Square)>, cls: u8) -> (r: Vec<
        RenderEntry,
    >)
        requires
            self.wf(),
            cls <= 2,
        ensures
            r@ == spec_render_pass(self.figs(), now, hide, cls as int),
    {
        let mut r: Vec<RenderEntry> = Vec::new();
        let n = self.figurines.len();
        proof {
            assert(self.figs().take(0) =~= Seq::<Figurine>::empty());
        }
        for i in 0..n
            invariant
                self.wf(),
                n == self.figs().len(),
                cls <= 2,
                r@ == spec_render_pass(self.figs().take(i as int), now, hide, cls as int),
        {
            let g = self.figurines[i];
            proof {
                assert(self.figs().take(i + 1).drop_last() =~= self.figs().take(i as int));
                assert(self.figs().take(i + 1).last() == g);
            }
            let gcls: u8 = if g.fading {
                0
            } else if !g.is_animating(now) {
                1
            } else {
                2
            };
            let hidden = match hide {
                Some((o, d)) => g.square == o || g.square == d,
                None => false,
            };
            if gcls == cls && !hidden {
                let p = g.pos_at(now);
                let a = g.alpha(now);
                r.push(RenderEntry { square: g.square, piece: g.piece, pos: p, alpha: a });
            }
        }
        proof {
            assert(self.figs().take(n as int) =~= self.figs());
        }
        r
    }

    /// The full draw list for one frame, in draw order: fading pieces first,
    /// settled pieces next, actively animating pieces on top. Figurines on
    /// the squares of a pending promotion (`hide`) are suppressed, since the
    /// overlay covers them.
    pub fn render(&self, now: u64, hide: Option<(Square, Square)>) -> (r: Vec<RenderEntry>)
        requires
            self.wf(),
        ensures
            r@ == spec_render_pass(self.figs(), now, hide, 0) + spec_render_pass(
                self.figs(),
                now,
                hide,
                1,
            ) + spec_render_pass(self.figs(), now, hide, 2),
    {
        let mut r = self.render_pass(now, hide, 0);
        let mut r1 = self.render_pass(now, hide, 1);
        let mut r2 = self.render_pass(now, hide, 2);
        let ghost g0 = r@;
        let ghost g1 = r1@;
        let ghost g2 = r2@;
        r.append(&mut r1);
        r.append(&mut r2);
        proof {
            assert(r@ =~= g0 + g1 + g2);
        }
        r
    }

    /// The drag image: the dragged figurine drawn at the live pointer
    /// position, at drag opacity.
    pub fn drag_render(&self, now: u64) -> (r: Option<RenderEntry>)
        requires
            self.wf(),
        ensures
            match r {
                Some(e) => exists|i: int|
                    0 <= i < self.figs().len() && (#[trigger] self.figs()[i]).dragging && e == (
                    RenderEntry {
                        square: self.figs()[i].square,
                        piece: self.figs()[i].piece,
                        pos: self.figs()[i].pos,
                        alpha: spec_drag_alpha(self.figs()[i], now) as i64,
                    }),
                None => forall|i: int|
                    0 <= i < self.figs().len() ==> !(#[trigger] self.figs()[i]).dragging,
            },
    {
        match self.dragging_index() {
            Some(i) => {
                let g = self.figurines[i];
                let a = g.drag_alpha(now);
                proof {
                    assert(self.figs()[i as int] == g);
                }
                Some(RenderEntry { square: g.square, piece: g.piece, pos: g.pos, alpha: a })
            },
            None => None,
        }
    }

    /// The pixel areas that must be redrawn for the next animation frame,
    /// one per animating figurine.
    pub fn queue_animation(&self, geom: &BoardGeometry, orientation: Color, now: u64) -> (r: Vec<
        PixelRect,
    >)
        requires
            self.wf(),
            geom.wf(),
        ensures
            forall|k: int| 0 <= k < r@.len() ==> (#[trigger] r@[k]).wf(),
            r@.len() > 0 <==> exists|i: int|
                0 <= i < self.figs().len() && spec_is_animating(#[trigger] self.figs()[i], now),
    {
        let mut r: Vec<PixelRect> = Vec::new();
        let n = self.figurines.len();
        for i in 0..n
            invariant
                self.wf(),
                geom.wf(),
                n == self.figs().len(),
                forall|k: int| 0 <= k < r@.len() ==> (#[trigger] r@[k]).wf(),
                r@.len() > 0 <==> exists|j: int|
                    0 <= j < i && spec_is_animating(#[trigger] self.figs()[j], now),
        {
            let g = self.figurines[i];
            if let Some(rect) = g.queue_animation(geom, orientation, now) {
                r.push(rect);
                proof {
                    assert(spec_is_animating(self.figs()[i as int], now));
                }
            }
        }
        r
    }
}

/// A figurine with its drag flag set exactly when it is the live figurine on
/// `sq`.
pub open spec fn spec_with_dragging(g: Figurine, sq: Square) -> Figurine {
    Figurine { dragging: !g.fading && g.square == sq, ..g }
}

/// A dragged figurine following the pointer to `pos`.
pub open spec fn spec_drag_to(g: Figurine, pos: Pos, now: u64) -> Figurine {
    if g.dragging {
        Figurine { pos, time: now, ..g }
    } else {
        g
    }
}

/// A dragged figurine released at `pos`.
pub open spec fn spec_release(g: Figurine, pos: Pos, now: u64) -> Figurine {
    if g.dragging {
        Figurine { pos, time: now, dragging: false, ..g }
    } else {
        g
    }
}

impl Pieces {
    /// Begin dragging the live figurine on `sq` (and defensively end any
    /// other drag).
    pub fn mark_dragging(&mut self, sq: Square)
        requires
            old(self).wf(),
            sq.wf(),
        ensures
            final(self).wf(),
            final(self).board_view() == old(self).board_view(),
            final(self).figs().len() == old(self).figs().len(),
            forall|i: int|
                0 <= i < old(self).figs().len() ==> final(self).figs()[i] == spec_with_dragging(
                    #[trigger] old(self).figs()[i],
                    sq,
                ),
    {
        let ghost figs0 = self.figs();
        let n = self.figurines.len();
        for k in 0..n
            invariant
                n == figs0.len(),
                self.figs().len() == n,
                self.board_view() == old(self).board_view(),
                figs0 == old(self).figs(),
                sq.wf(),
                forall|i: int| 0 <= i < figs0.len() ==> (#[trigger] figs0[i]).wf(),
                forall|i: int|
                    0 <= i < k ==> self.figs()[i] == spec_with_dragging(#[trigger] figs0[i], sq),
                forall|i: int| k <= i < n ==> self.figs()[i] == figs0[i],
        {
            let g = self.figurines[k];
            let flag = !g.fading && g.square == sq;
            if g.dragging != flag {
                self.figurines.set(k, Figurine { dragging: flag, ..g });
            }
            proof {
                assert(self.figs()[k as int] == spec_with_dragging(figs0[k as int], sq));
            }
        }
        proof {
            assert forall|i: int, j: int|
                #![trigger self.figs()[i], self.figs()[j]]
                0 <= i < j < self.figs().len() implies !(self.figs()[i].dragging
                && self.figs()[j].dragging) by {
                if self.figs()[i].dragging && self.figs()[j].dragging {
                    assert(self.figs()[i] == spec_with_dragging(figs0[i], sq));
                    assert(self.figs()[j] == spec_with_dragging(figs0[j], sq));
                    assert(!figs0[i].fading && !figs0[j].fading && figs0[i].square
                        == figs0[j].square);
                    assert(false);
                }
            }
            lemma_retag_preserves(figs0, self.figs(), self.board_view());
        }
    }

    /// Move the dragged figurine (if any) to the live pointer position,
    /// returning its prior state.
    pub fn update_drag(&mut self, pos: Pos, now: u64) -> (r: Option<Figurine>)
        requires
            old(self).wf(),
            pos.wf(),
        ensures
            final(self).wf(),
            final(self).board_view() == old(self).board_view(),
            final(self).figs().len() == old(self).figs().len(),
            forall|i: int|
                0 <= i < old(self).figs().len() ==> final(self).figs()[i] == spec_drag_to(
                    #[trigger] old(self).figs()[i],
                    pos,
                    now,
                ),
            match r {
                Some(g) => g.dragging && in_figs(old(self).figs(), g) && g.wf(),
                None => forall|i: int|
                    0 <= i < old(self).figs().len() ==> !(#[trigger] old(self).figs()[i]).dragging,
            },
    {
        let ghost figs0 = self.figs();
        let n = self.figurines.len();
        let mut found: Option<Figurine> = None;
        for k in 0..n
            invariant
                n == figs0.len(),
                self.figs().len() == n,
                self.board_view() == old(self).board_view(),
                figs0 == old(self).figs(),
                pos.wf(),
                forall|i: int| 0 <= i < figs0.len() ==> (#[trigger] figs0[i]).wf(),
                forall|i: int|
                    0 <= i < k ==> self.figs()[i] == spec_drag_to(#[trigger] figs0[i], pos, now),
                forall|i: int| k <= i < n ==> self.figs()[i] == figs0[i],
                match found {
                    Some(g) => g.dragging && in_figs(figs0, g) && g.wf(),
                    None => forall|i: int| 0 <= i < k ==> !(#[trigger] figs0[i]).dragging,
                },
        {
            let g = self.figurines[k];
            if g.dragging {
                self.figurines.set(k, Figurine { pos, time: now, ..g });
                found = Some(g);
                proof {
                    assert(figs0[k as int] == g);
                }
            }
            proof {
                assert(self.figs()[k as int] == spec_drag_to(figs0[k as int], pos, now));
            }
        }
        proof {
            assert forall|i: int, j: int|
                #![trigger self.figs()[i], self.figs()[j]]
                0 <= i < j < self.figs().len() implies !(self.figs()[i].dragging
                && self.figs()[j].dragging) by {
                if self.figs()[i].dragging && self.figs()[j].dragging {
                    assert(self.figs()[i] == spec_drag_to(figs0[i], pos, now));
                    assert(self.figs()[j] == spec_drag_to(figs0[j], pos, now));
                    assert(figs0[i].dragging && figs0[j].dragging);
                    assert(false);
                }
            }
            lemma_retag_preserves(figs0, self.figs(), self.board_view());
        }
        found
    }

    /// Release the dragged figurine (if any) at `pos`, ending the drag and
    /// restarting its settle animation; returns its prior state.
    pub fn release_drag(&mut self, pos: Pos, now: u64) -> (r: Option<Figurine>)
        requires
            old(self).wf(),
            pos.wf(),
        ensures
            final(self).wf(),
            final(self).board_view() == old(self).board_view(),
            final(self).figs().len() == old(self).figs().len(),
            forall|i: int|
                0 <= i < old(self).figs().len() ==> final(self).figs()[i] == spec_release(
                    #[trigger] old(self).figs()[i],
                    pos,
                    now,
                ),
            match r {
                Some(g) => g.dragging && in_figs(old(self).figs(), g) && g.wf(),
                None => forall|i: int|
                    0 <= i < old(self).figs().len() ==> !(#[trigger] old(self).figs()[i]).dragging,
            },
    {
        let ghost figs0 = self.figs();
        let n = self.figurines.len();
        let mut found: Option<Figurine> = None;
        for k in 0..n
            invariant
                n == figs0.len(),
                self.figs().len() == n,
                self.board_view() == old(self).board_view(),
                figs0 == old(self).figs(),
                pos.wf(),
                forall|i: int| 0 <= i < figs0.len() ==> (#[trigger] figs0[i]).wf(),
                forall|i: int|
                    0 <= i < k ==> self.figs()[i] == spec_release(#[trigger] figs0[i], pos, now),
                forall|i: int| k <= i < n ==> self.figs()[i] == figs0[i],
                match found {
                    Some(g) => g.dragging && in_figs(figs0, g) && g.wf(),
                    None => forall|i: int| 0 <= i < k ==> !(#[trigger] figs0[i]).dragging,
                },
        {
            let g = self.figurines[k];
            if g.dragging {
                self.figurines.set(k, Figurine { pos, time: now, dragging: false, ..g });
                found = Some(g);
                proof {
                    assert(figs0[k as int] == g);
                }
            }
            proof {
                assert(self.figs()[k as int] == spec_release(figs0[k as int], pos, now));
            }
        }
        proof {
            assert forall|i: int, j: int|
                #![trigger self.figs()[i], self.figs()[j]]
                0 <= i < j < self.figs().len() implies !(self.figs()[i].dragging
                && self.figs()[j].dragging) by {
                if self.figs()[i].dragging && self.figs()[j].dragging {
                    assert(self.figs()[i] == spec_release(figs0[i], pos, now));
                    assert(self.figs()[j] == spec_release(figs0[j], pos, now));
                    assert(figs0[i].dragging && figs0[j].dragging);
                    assert(false);
                }
            }
            lemma_retag_preserves(figs0, self.figs(), self.board_view());
        }
        found
    }
}

/// Changing only drag flags, draw positions and animation clocks — never a
/// figurine's square, piece or fade state — preserves the layer invariant,
/// as long as positions stay in range and no second drag appears.
proof fn lemma_retag_preserves(figs0: Seq<Figurine>, figs: Seq<Figurine>, board: Seq<Option<Piece>>)
    requires
        figs_match_board(figs0, board),
        at_most_one_dragging(figs0),
        figs.len() == figs0.len(),
        forall|i: int|
            0 <= i < figs.len() ==> {
                let g = #[trigger] figs[i];
                let g0 = figs0[i];
                g.square == g0.square && g.piece == g0.piece && g.fading == g0.fading && g.wf()
            },
        forall|i: int, j: int|
            #![trigger figs[i], figs[j]]
            0 <= i < j < figs.len() ==> !(figs[i].dragging && figs[j].dragging),
    ensures
        figs_match_board(figs, board),
        at_most_one_dragging(figs),
{
    assert forall|sq: Square|
        sq.wf() && #[trigger] board[sq.spec_index()] is Some implies has_fig_at(figs, sq) by {
        let i = choose|i: int|
            0 <= i < figs0.len() && !(#[trigger] figs0[i]).fading && figs0[i].square == sq;
        assert(!figs[i].fading && figs[i].square == sq);
    }
}

/// When two snapshots differ by exactly one piece moving from `s1` to the
/// previously empty `s2`, the layer update slides exactly one figurine: the
/// live one on `s1` is retargeted to `s2` with a fresh clock, every other
/// surviving figurine is merely frozen, nothing starts fading and nothing is
/// added.
pub proof fn lemma_layer_single_move(
    figs0: Seq<Figurine>,
    figs1: Seq<Figurine>,
    old_board: Seq<Option<Piece>>,
    new_board: Seq<Option<Piece>>,
    s1: Square,
    s2: Square,
    p: Piece,
    now: u64,
)
    requires
        spec_layer_update(figs0, figs1, old_board, new_board, now),
        s1.wf(),
        s2.wf(),
        s1 != s2,
        old_board[s1.spec_index()] == Some(p),
        new_board[s1.spec_index()] is None,
        old_board[s2.spec_index()] is None,
        new_board[s2.spec_index()] == Some(p),
        forall|sq: Square|
            sq.wf() && sq != s1 && sq != s2 ==> old_board[#[trigger] sq.spec_index()] == new_board[
                sq.spec_index()
            ],
    ensures
        figs1.len() == spec_prune(figs0, now).len(),
        forall|i: int|
            0 <= i < figs1.len() ==> figs1[i] == ({
                let g = spec_freeze(#[trigger] spec_prune(figs0, now)[i], now);
                if !g.fading && g.square == s1 {
                    Figurine { square: s2, time: now, ..g }
                } else {
                    g
                }
            }),
{
    let pruned = spec_prune(figs0, now);
    let (m, f, a) = choose|m: Seq<(Square, Square)>, f: Seq<DiffFade>, a: Seq<(Square, Piece)>|
        #[trigger] diff_post(old_board, new_board, m, f, a) && {
            &&& figs1.len() == pruned.len() + a.len()
            &&& forall|i: int|
                0 <= i < pruned.len() ==> figs1[i] == spec_transition(
                    spec_freeze(#[trigger] pruned[i], now),
                    m,
                    f,
                    now,
                )
            &&& forall|k: int|
                0 <= k < a.len() ==> figs1[pruned.len() + k] == spec_new_figurine(
                    #[trigger] a[k],
                    now,
                )
        };
    crate::diff::lemma_diff_single_move(old_board, new_board, s1, s2, p, m, f, a);
    assert forall|i: int| 0 <= i < figs1.len() implies figs1[i] == ({
        let g = spec_freeze(#[trigger] pruned[i], now);
        if !g.fading && g.square == s1 {
            Figurine { square: s2, time: now, ..g }
        } else {
            g
        }
    }) by {
        let g = spec_freeze(pruned[i], now);
        if !g.fading {
            if g.square == s1 {
                assert(in_origins(m, s1)) by {
                    assert(m[0].0 == s1);
                }
                let c = choose|c: int| 0 <= c < m.len() && (#[trigger] m[c]).0 == g.square;
                assert(m[c] == (s1, s2));
            } else {
                if in_origins(m, g.square) {
                    let c = choose|c: int| 0 <= c < m.len() && (#[trigger] m[c]).0 == g.square;
                    assert(m[c] == (s1, s2));
                    assert(false);
                }
                if in_fades(f, g.square) {
                    let c = choose|c: int|
                        0 <= c < f.len() && (#[trigger] f[c]).square == g.square;
                    assert(false);
                }
            }
        }
    }
}

/// When a piece is captured — its square now holds a different kind, no
/// vacated square held that new kind and no addition elsewhere is of the
/// captured kind — the layer update marks the live figurine on that square
/// fading, flags it `replaced`, restarts its fade clock and moves it nowhere.
pub proof fn lemma_layer_capture(
    figs0: Seq<Figurine>,
    figs1: Seq<Figurine>,
    old_board: Seq<Option<Piece>>,
    new_board: Seq<Option<Piece>>,
    s: Square,
    p: Piece,
    q: Piece,
    now: u64,
)
    requires
        spec_layer_update(figs0, figs1, old_board, new_board, now),
        s.wf(),
        old_board[s.spec_index()] == Some(p),
        new_board[s.spec_index()] == Some(q),
        p != q,
        forall|r: Square| #[trigger] is_removed(old_board, new_board, r) ==> old_board[r.spec_index()] != Some(q),
        forall|d: Square| #[trigger] is_added(old_board, new_board, d) ==> new_board[d.spec_index()] != Some(p),
    ensures
        forall|i: int|
            0 <= i < spec_prune(figs0, now).len() && !(#[trigger] spec_prune(figs0, now)[i]).fading
                && spec_prune(figs0, now)[i].square == s ==> figs1[i] == ({
                let g = spec_freeze(spec_prune(figs0, now)[i], now);
                Figurine { fading: true, replaced: true, time: now, ..g }
            }),
{
    let pruned = spec_prune(figs0, now);
    let (m, f, a) = choose|m: Seq<(Square, Square)>, f: Seq<DiffFade>, a: Seq<(Square, Piece)>|
        #[trigger] diff_post(old_board, new_board, m, f, a) && {
            &&& figs1.len() == pruned.len() + a.len()
            &&& forall|i: int|
                0 <= i < pruned.len() ==> figs1[i] == spec_transition(
                    spec_freeze(#[trigger] pruned[i], now),
                    m,
                    f,
                    now,
                )
            &&& forall|k: int|
                0 <= k < a.len() ==> figs1[pruned.len() + k] == spec_new_figurine(
                    #[trigger] a[k],
                    now,
                )
        };
    crate::diff::lemma_diff_capture(old_board, new_board, s, p, q, m, f, a);
    assert forall|i: int|
        0 <= i < pruned.len() && !(#[trigger] pruned[i]).fading && pruned[i].square
            == s implies figs1[i] == ({
        let g = spec_freeze(pruned[i], now);
        Figurine { fading: true, replaced: true, time: now, ..g }
    }) by {
        let g = spec_freeze(pruned[i], now);
        // s is not a match origin: its fade entry says so
        let w = choose|w: int| 0 <= w < f.len() && (#[trigger] f[w]).square == s;
        assert(fade_ok(old_board, new_board, m, f[w]));
        assert(!in_origins(m, s));
        assert(fade_replaced(f, s)) by {
            let c = choose|c: int| 0 <= c < f.len() && (#[trigger] f[c]).square == s;
            assert(f[c].replaced);
        }
    }
}

/// A fading figurine that survives the pruning sweep stays exactly as it
/// was: it never returns to settling and is never retargeted.
pub proof fn lemma_layer_keeps_fading(
    figs0: Seq<Figurine>,
    figs1: Seq<Figurine>,
    old_board: Seq<Option<Piece>>,
    new_board: Seq<Option<Piece>>,
    now: u64,
)
    requires
        spec_layer_update(figs0, figs1, old_board, new_board, now),
    ensures
        figs1.len() >= spec_prune(figs0, now).len(),
        forall|i: int|
            0 <= i < spec_prune(figs0, now).len() && (#[trigger] spec_prune(figs0, now)[i]).fading
                ==> figs1[i] == spec_prune(figs0, now)[i],
{
    let pruned = spec_prune(figs0, now);
    let (m, f, a) = choose|m: Seq<(Square, Square)>, f: Seq<DiffFade>, a: Seq<(Square, Piece)>|
        #[trigger] diff_post(old_board, new_board, m, f, a) && {
            &&& figs1.len() == pruned.len() + a.len()
            &&& forall|i: int|
                0 <= i < pruned.len() ==> figs1[i] == spec_transition(
                    spec_freeze(#[trigger] pruned[i], now),
                    m,
                    f,
                    now,
                )
            &&& forall|k: int|
                0 <= k < a.len() ==> figs1[pruned.len() + k] == spec_new_figurine(
                    #[trigger] a[k],
                    now,
                )
        };
}

/// An animated piece stops reporting `is_animating` once the animation
/// duration has elapsed, regardless of the distance it traveled.
pub proof fn lemma_animation_completes(f: Figurine, now: u64)
    requires
        spec_elapsed(f, now) > ANIMATE_DURATION_MS,
    ensures
        !spec_is_animating(f, now),
{
}

} // verus!
