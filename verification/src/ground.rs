//! The interaction state machine: selection, drag and promotion handling.
//!
//! Pointer events come in as board-space positions and squares; out come
//! move proposals. Every proposal corresponds to an entry of the externally
//! supplied legal-move list at the time it is emitted.

use vstd::prelude::*;

use crate::board::{
    spec_has_move, spec_has_promotion, Board, Color, LegalMove, LegalMoveSet, Piece, Role, Square,
};
use crate::geometry::{
    inverted_to_square, rect_to_pixels, spec_inverted_to_square, spec_square_center,
    square_rect_pixels, square_to_inverted, BoardGeometry, PixelRect, Pos,
};
use crate::pieces::{
    dragging_fig, has_dragging, spec_drag_to, spec_release, spec_with_dragging, Figurine, Pieces,
    RenderEntry,
};
use crate::promotable::{spec_promotion_pick, spec_role_at, Promotable, Promoting};

verus! {

/// The recorded pointer-down that may turn into a drag once the pointer has
/// moved far enough.
#[derive(Clone, Copy, PartialEq, Eq, Structural, Debug)]
pub struct DragStart {
    pub pos: Pos,
    pub square: Square,
}

/// A pointer event, already mapped into board space: the continuous position
/// and the square under it (if on the playing area).
#[derive(Clone, Copy, PartialEq, Eq, Structural, Debug)]
pub struct EventContext {
    pub pos: Pos,
    pub square: Option<Square>,
}

impl EventContext {
    pub open spec fn wf(&self) -> bool {
        self.pos.wf() && match self.square {
            Some(sq) => sq.wf(),
            None => true,
        }
    }
}

/// What the host feeds the board and what the board proposes back.
pub enum GroundMsg {
    /// A new position from the rules engine: the snapshot, its legal moves,
    /// the move that produced it and the checked king's square, if any.
    SetPosition {
        board: Board,
        legals: LegalMoveSet,
        last_move: Option<(Square, Square)>,
        check: Option<Square>,
    },
    /// A user gesture committed a move.
    UserMove(Square, Square, Option<Role>),
    /// The user's drawn shapes changed.
    ShapesChanged,
}

impl GroundMsg {
    pub open spec fn wf(&self) -> bool {
        match self {
            GroundMsg::SetPosition { board, legals, last_move, check } => {
                &&& board.wf()
                &&& match last_move {
                    Some((a, b)) => a.wf() && b.wf(),
                    None => true,
                }
                &&& match check {
                    Some(sq) => sq.wf(),
                    None => true,
                }
            },
            GroundMsg::UserMove(orig, dest, _) => orig.wf() && dest.wf(),
            GroundMsg::ShapesChanged => true,
        }
    }
}

/// Some hint entry names `dest`.
pub open spec fn in_hints(hints: Seq<(Square, bool)>, dest: Square) -> bool {
    exists|l: int| 0 <= l < hints.len() && (#[trigger] hints[l]).0 == dest
}

/// The proposal a primary pointer-down commits under the two-click scheme: a
/// selection already present, a different clicked square, and a legal move
/// between them.
pub open spec fn spec_click_emit(
    legals: Seq<LegalMove>,
    selected: Option<Square>,
    square: Option<Square>,
    button: u32,
) -> Option<(Square, Square)> {
    if button == 1 && selected is Some && square is Some && selected != square && spec_has_move(
        legals,
        selected->0,
        square->0,
    ) {
        Some((selected->0, square->0))
    } else {
        None
    }
}

/// The selection after a primary pointer-down: a committed move or a repeated
/// click deselects; any other click selects the square under the pointer, if
/// occupied.
pub open spec fn spec_click_selected(
    board: Seq<Option<Piece>>,
    legals: Seq<LegalMove>,
    selected: Option<Square>,
    square: Option<Square>,
    button: u32,
) -> Option<Square> {
    if button != 1 {
        None
    } else if selected is Some && square is Some {
        if selected == square {
            None
        } else if spec_has_move(legals, selected->0, square->0) {
            None
        } else if board[square->0.spec_index()] is Some {
            square
        } else {
            None
        }
    } else if square is Some && board[square->0.spec_index()] is Some {
        square
    } else {
        None
    }
}

/// The drag anchor after a pointer-down: a primary click on an occupied
/// square records one.
pub open spec fn spec_drag_anchor(
    board: Seq<Option<Piece>>,
    anchor: Option<DragStart>,
    pos: Pos,
    square: Option<Square>,
    button: u32,
) -> Option<DragStart> {
    if button == 1 && square is Some && board[square->0.spec_index()] is Some {
        Some(DragStart { pos, square: square->0 })
    } else {
        anchor
    }
}

/// Whether pointer travel from the anchor has crossed the drag threshold of
/// one tenth of a square.
pub open spec fn spec_threshold_crossed(anchor: Pos, p: Pos) -> bool {
    (p.x - anchor.x) * (p.x - anchor.x) + (p.y - anchor.y) * (p.y - anchor.y) >= 10000
}

/// The figurines after one motion event's threshold test: once the pointer
/// has strayed past the threshold from the anchor, the live figurine on the
/// anchored square enters drag mode (and any other drag ends).
pub open spec fn spec_motion_marked(
    figs: Seq<Figurine>,
    anchor: Option<DragStart>,
    p: Pos,
) -> Seq<Figurine> {
    match anchor {
        Some(a) => if spec_threshold_crossed(a.pos, p) {
            figs.map_values(|g: Figurine| spec_with_dragging(g, a.square))
        } else {
            figs
        },
        None => figs,
    }
}

/// The figurines after a whole motion event: after the threshold test, a
/// dragged figurine follows the pointer directly (never through the easing
/// clock).
pub open spec fn spec_motion_figs(
    figs: Seq<Figurine>,
    anchor: Option<DragStart>,
    p: Pos,
    now: u64,
) -> Seq<Figurine> {
    let marked = spec_motion_marked(figs, anchor, p);
    if has_dragging(marked) {
        marked.map_values(|g: Figurine| spec_drag_to(g, p, now))
    } else {
        marked
    }
}

/// The selection after a motion event: selection and an active drag on the
/// same origin square are mutually exclusive, so a selection of the drag
/// origin is dropped.
pub open spec fn spec_motion_selected(
    selected: Option<Square>,
    figs: Seq<Figurine>,
    anchor: Option<DragStart>,
    p: Pos,
) -> Option<Square> {
    let marked = spec_motion_marked(figs, anchor, p);
    if has_dragging(marked) && selected == Some(dragging_fig(marked).square) {
        None
    } else {
        selected
    }
}

/// The gesture a pointer-up commits: a live, non-fading drag released on a
/// different square of the board.
pub open spec fn spec_drag_up_emit(figs: Seq<Figurine>, square: Option<Square>) -> Option<
    (Square, Square),
> {
    if has_dragging(figs) && !dragging_fig(figs).fading && square is Some && square != Some(
        dragging_fig(figs).square,
    ) {
        Some((dragging_fig(figs).square, square->0))
    } else {
        None
    }
}

/// The square a drag is dropped on: the square under the pointer, or the
/// origin square when the pointer is off the board.
pub open spec fn spec_drop_square(figs: Seq<Figurine>, square: Option<Square>) -> Square {
    match square {
        Some(d) => d,
        None => dragging_fig(figs).square,
    }
}

/// The figurines after a pointer-up: the dragged figurine, if any, is
/// released at the drop square's center and starts settling.
pub open spec fn spec_release_figs(
    figs: Seq<Figurine>,
    square: Option<Square>,
    now: u64,
) -> Seq<Figurine> {
    if has_dragging(figs) {
        figs.map_values(
            |g: Figurine|
                spec_release(g, spec_square_center(spec_drop_square(figs, square)), now),
        )
    } else {
        figs
    }
}

/// The legality gate on a raw gesture: a legal move with no role choice is
/// proposed; everything else is withheld.
pub open spec fn spec_gate(legals: Seq<LegalMove>, raw: Option<(Square, Square)>) -> Option<
    (Square, Square, Option<Role>),
> {
    match raw {
        Some((o, d)) => if spec_has_move(legals, o, d) && !spec_has_promotion(legals, o, d) {
            Some((o, d, None))
        } else {
            None
        },
        None => None,
    }
}

/// The promotion overlay after gating a raw gesture: a legal move that needs
/// a role choice opens it.
pub open spec fn spec_gate_pending(
    legals: Seq<LegalMove>,
    raw: Option<(Square, Square)>,
    pending: Option<Promoting>,
) -> Option<Promoting> {
    match raw {
        Some((o, d)) => if spec_has_move(legals, o, d) && spec_has_promotion(legals, o, d) {
            Some(Promoting { orig: o, dest: d, hover: None })
        } else {
            pending
        },
        None => pending,
    }
}

/// The square to highlight as the drop target: the square under the dragged
/// piece, when moving there from the drag origin is legal.
pub open spec fn spec_hover(figs: Seq<Figurine>, legals: Seq<LegalMove>) -> Option<Square> {
    if has_dragging(figs) {
        match spec_inverted_to_square(dragging_fig(figs).pos) {
            Some(h) => if spec_has_move(legals, dragging_fig(figs).square, h) {
                Some(h)
            } else {
                None
            },
            None => None,
        }
    } else {
        None
    }
}

/// Whether some hint entry already names `sq`.
fn hints_contain(hints: &Vec<(Square, bool)>, sq: Square) -> (r: bool)
    ensures
        r == in_hints(hints@, sq),
{
    let n = hints.len();
    for k in 0..n
        invariant
            n == hints@.len(),
            forall|l: int| 0 <= l < k ==> (#[trigger] hints@[l]).0 != sq,
    {
        if hints[k].0 == sq {
            assert(in_hints(hints@, sq)) by {
                assert(hints@[k as int].0 == sq);
            }
            return true;
        }
    }
    false
}

/// The board's interaction state: the piece layer, the orientation, the
/// current selection and drag, and the position data supplied by the host.
pub struct BoardState {
    pub pieces: Pieces,
    pub orientation: Color,
    pub check: Option<Square>,
    pub selected: Option<Square>,
    pub last_move: Option<(Square, Square)>,
    pub drag_start: Option<DragStart>,
    pub legals: LegalMoveSet,
}

impl BoardState {
    pub open spec fn wf(&self) -> bool {
        &&& self.pieces.wf()
        &&& match self.check {
            Some(sq) => sq.wf(),
            None => true,
        }
        &&& match self.selected {
            Some(sq) => sq.wf(),
            None => true,
        }
        &&& match self.last_move {
            Some((a, b)) => a.wf() && b.wf(),
            None => true,
        }
        &&& match self.drag_start {
            Some(ds) => ds.pos.wf() && ds.square.wf(),
            None => true,
        }
    }

    /// A fresh board: the standard starting position, white at the bottom,
    /// nothing selected, and no legal moves until the host supplies them.
    pub fn new() -> (r: BoardState)
        ensures
            r.wf(),
            r.orientation == Color::White,
            r.check is None,
            r.selected is None,
            r.last_move is None,
            r.drag_start is None,
            r.legals@ =~= Seq::<LegalMove>::empty(),
    {
        BoardState {
            pieces: Pieces::new(),
            orientation: Color::White,
            check: None,
            selected: None,
            last_move: None,
            drag_start: None,
            legals: LegalMoveSet::new(),
        }
    }

    /// All destinations of legal moves leaving `orig`.
    pub fn move_targets(&self, orig: Square) -> (ts: Vec<Square>)
        ensures
            forall|k: int|
                0 <= k < ts@.len() ==> spec_has_move(self.legals@, orig, #[trigger] ts@[k]),
            forall|dest: Square| spec_has_move(self.legals@, orig, dest) ==> ts@.contains(dest),
    {
        self.legals.targets_from(orig)
    }

    /// Whether some legal move goes from `orig` to `dest`.
    pub fn valid_move(&self, orig: Square, dest: Square) -> (r: bool)
        ensures
            r == spec_has_move(self.legals@, orig, dest),
    {
        self.legals.contains_move(orig, dest)
    }

    /// The move hints to draw for the current selection: each legal target
    /// square exactly once, flagged with whether it is occupied (a capture
    /// hint looks different from a quiet-move dot). Empty without a
    /// selection.
    pub fn move_hints(&self) -> (hints: Vec<(Square, bool)>)
        requires
            self.wf(),
        ensures
            self.selected is None ==> hints@.len() == 0,
            forall|k: int|
                0 <= k < hints@.len() ==> self.selected is Some && spec_has_move(
                    self.legals@,
                    self.selected->0,
                    (#[trigger] hints@[k]).0,
                ) && ((#[trigger] hints@[k]).1 <==> hints@[k].0.wf()
                    && self.pieces.board_view()[hints@[k].0.spec_index()] is Some),
            forall|k: int, l: int|
                #![trigger hints@[k], hints@[l]]
                0 <= k < l < hints@.len() ==> hints@[k].0 != hints@[l].0,
            forall|dest: Square|
                self.selected is Some && dest.wf() && spec_has_move(
                    self.legals@,
                    self.selected->0,
                    dest,
                ) ==> in_hints(hints@, dest),
    {
        let mut hints: Vec<(Square, bool)> = Vec::new();
        if let Some(orig) = self.selected {
            let targets = self.legals.targets_from(orig);
            let n = targets.len();
            for i in 0..n
                invariant
                    self.wf(),
                    self.selected == Some(orig),
                    n == targets@.len(),
                    forall|k: int|
                        0 <= k < targets@.len() ==> spec_has_move(
                            self.legals@,
                            orig,
                            #[trigger] targets@[k],
                        ),
                    forall|dest: Square|
                        spec_has_move(self.legals@, orig, dest) ==> targets@.contains(dest),
                    forall|k: int|
                        0 <= k < hints@.len() ==> spec_has_move(
                            self.legals@,
                            orig,
                            (#[trigger] hints@[k]).0,
                        ) && ((#[trigger] hints@[k]).1 <==> hints@[k].0.wf()
                            && self.pieces.board_view()[hints@[k].0.spec_index()] is Some),
                    forall|k: int, l: int|
                        #![trigger hints@[k], hints@[l]]
                        0 <= k < l < hints@.len() ==> hints@[k].0 != hints@[l].0,
                    forall|k: int| 0 <= k < i ==> in_hints(hints@, #[trigger] targets@[k]),
            {
                let dest = targets[i];
                let ghost prior = hints@;
                if hints_contain(&hints, dest) {
                    // several promotions can share a destination; hint it once
                } else if dest.file < 8 && dest.rank < 8 {
                    let occupied = self.pieces.occupied(dest);
                    hints.push((dest, occupied));
                } else {
                    hints.push((dest, false));
                }
                proof {
                    assert forall|k2: int| 0 <= k2 < i + 1 implies in_hints(
                        hints@,
                        #[trigger] targets@[k2],
                    ) by {
                        if k2 == i && hints@ != prior {
                            assert(hints@[hints@.len() - 1].0 == targets@[k2]);
                        } else {
                            assert(in_hints(prior, targets@[k2]));
                            let w = choose|w: int|
                                0 <= w < prior.len() && (#[trigger] prior[w]).0 == targets@[k2];
                            assert(hints@[w].0 == targets@[k2]);
                        }
                    }
                    assert forall|k: int, l: int|
                        #![trigger hints@[k], hints@[l]]
                        0 <= k < l < hints@.len() implies hints@[k].0 != hints@[l].0 by {
                        if hints@ != prior && l == hints@.len() - 1 {
                            assert(hints@[k] == prior[k]);
                            if hints@[k].0 == dest {
                                assert(in_hints(prior, dest));
                                assert(false);
                            }
                        }
                    }
                }
            }
            proof {
                assert forall|dest: Square|
                    spec_has_move(self.legals@, orig, dest) implies in_hints(hints@, dest) by {
                    assert(targets@.contains(dest));
                    let w = choose|w: int|
                        0 <= w < targets@.len() && #[trigger] targets@[w] == dest;
                    assert(in_hints(hints@, targets@[w]));
                }
            }
        }
        hints
    }

    /// The square to highlight as the drop target while dragging: the square
    /// under the dragged piece, when moving there from the drag origin is
    /// legal. (While a drag is active the origin square is not selected, so
    /// the origin is read from the dragged figurine itself.)
    pub fn hover_square(&self) -> (r: Option<Square>)
        requires
            self.wf(),
        ensures
            r == spec_hover(self.pieces.figs(), self.legals@),
    {
        if let Some(g) = self.pieces.dragging() {
            proof {
                lemma_unique_drag(self.pieces.figs(), g);
            }
            if let Some(hovered) = inverted_to_square(g.pos) {
                if self.valid_move(g.square, hovered) {
                    return Some(hovered);
                }
            }
            None
        } else {
            None
        }
    }

    /// Handle a primary-button pointer-down for the two-click move scheme:
    /// with a selection already present, a click on another square proposes
    /// the move between them when it is legal; an illegal click selects the
    /// clicked square instead, if occupied; a repeated click deselects.
    pub fn selection_mouse_down(&mut self, ctx: &EventContext, button: u32) -> (emit: Option<
        (Square, Square),
    >)
        requires
            old(self).wf(),
            ctx.wf(),
        ensures
            final(self).wf(),
            final(self).pieces == old(self).pieces,
            final(self).legals == old(self).legals,
            final(self).drag_start == old(self).drag_start,
            final(self).orientation == old(self).orientation,
            final(self).check == old(self).check,
            final(self).last_move == old(self).last_move,
            emit == spec_click_emit(old(self).legals@, old(self).selected, ctx.square, button),
            final(self).selected == spec_click_selected(
                old(self).pieces.board_view(),
                old(self).legals@,
                old(self).selected,
                ctx.square,
                button,
            ),
    {
        let orig = self.selected;
        self.selected = None;
        if button == 1 {
            if let (Some(o), Some(d)) = (orig, ctx.square) {
                if o != d {
                    if self.valid_move(o, d) {
                        return Some((o, d));
                    }
                    // an illegal second click selects the clicked square
                    if self.pieces.occupied(d) {
                        self.selected = Some(d);
                    }
                }
                // a repeated click on the selected square deselects
            } else if let Some(d) = ctx.square {
                if self.pieces.occupied(d) {
                    self.selected = Some(d);
                }
            }
        }
        None
    }

    /// Record a primary-button pointer-down on an occupied square as a
    /// potential drag anchor.
    pub fn drag_mouse_down(&mut self, ctx: &EventContext, button: u32)
        requires
            old(self).wf(),
            ctx.wf(),
        ensures
            final(self).wf(),
            final(self).pieces == old(self).pieces,
            final(self).legals == old(self).legals,
            final(self).selected == old(self).selected,
            final(self).orientation == old(self).orientation,
            final(self).check == old(self).check,
            final(self).last_move == old(self).last_move,
            final(self).drag_start == spec_drag_anchor(
                old(self).pieces.board_view(),
                old(self).drag_start,
                ctx.pos,
                ctx.square,
                button,
            ),
    {
        if button == 1 {
            if let Some(sq) = ctx.square {
                if self.pieces.figurine_at(sq).is_some() {
                    self.drag_start = Some(DragStart { pos: ctx.pos, square: sq });
                }
            }
        }
    }

    /// Handle pointer motion: once the pointer has strayed one tenth of a
    /// square from the drag anchor the anchored piece enters drag mode, and a
    /// dragged piece follows the pointer. A selection of the drag origin is
    /// dropped: selection and an active drag are mutually exclusive. Returns
    /// whether the whole widget must be repainted and the smaller areas to
    /// repaint otherwise.
    pub fn drag_mouse_move(&mut self, geom: &BoardGeometry, ctx: &EventContext, now: u64) -> (r: (
        bool,
        Vec<PixelRect>,
    ))
        requires
            old(self).wf(),
            geom.wf(),
            ctx.wf(),
        ensures
            final(self).wf(),
            final(self).legals == old(self).legals,
            final(self).drag_start == old(self).drag_start,
            final(self).orientation == old(self).orientation,
            final(self).check == old(self).check,
            final(self).last_move == old(self).last_move,
            final(self).pieces.board_view() == old(self).pieces.board_view(),
            forall|k: int| 0 <= k < r.1@.len() ==> (#[trigger] r.1@[k]).wf(),
            final(self).pieces.figs() == spec_motion_figs(
                old(self).pieces.figs(),
                old(self).drag_start,
                ctx.pos,
                now,
            ),
            final(self).selected == spec_motion_selected(
                old(self).selected,
                old(self).pieces.figs(),
                old(self).drag_start,
                ctx.pos,
            ),
    {
        let ghost figs0 = self.pieces.figs();
        let mut rects: Vec<PixelRect> = Vec::new();
        let mut full = false;
        let orientation = self.orientation;

        if let Some(ds) = self.drag_start {
            let dx = ctx.pos.x - ds.pos.x;
            let dy = ctx.pos.y - ds.pos.y;
            proof {
                assert(0 <= dx * dx <= 4_000_000_000_000_000_000 && 0 <= dy * dy
                    <= 4_000_000_000_000_000_000) by (nonlinear_arith)
                    requires
                        -2_000_000_000 <= dx <= 2_000_000_000,
                        -2_000_000_000 <= dy <= 2_000_000_000,
                ;
            }
            if dx * dx + dy * dy >= 10000 {
                self.pieces.mark_dragging(ds.square);
                proof {
                    assert(self.pieces.figs() =~= spec_motion_marked(figs0, Some(ds), ctx.pos));
                }
            }
        }
        let ghost marked = spec_motion_marked(figs0, old(self).drag_start, ctx.pos);
        proof {
            assert(self.pieces.figs() == marked);
        }

        if let Some(g) = self.pieces.dragging() {
            proof {
                lemma_unique_drag(marked, g);
            }
            // selection and an active drag are exclusive: drop a selection of
            // the drag origin
            let same = match self.selected {
                Some(sq) => sq == g.square,
                None => false,
            };
            if same {
                self.selected = None;
                full = true;
            }
            // invalidate where the piece was
            rects.push(rect_to_pixels(geom, orientation, g.pos.x - 500, g.pos.y - 500, 1000, 1000));
            rects.push(square_rect_pixels(geom, orientation, g.square));
            if let Some(sq) = inverted_to_square(g.pos) {
                rects.push(square_rect_pixels(geom, orientation, sq));
            }
            // follow the pointer
            let moved = self.pieces.update_drag(ctx.pos, now);
            proof {
                if moved is None {
                    assert(false);
                }
                assert(self.pieces.figs() =~= marked.map_values(
                    |g2: Figurine| spec_drag_to(g2, ctx.pos, now),
                ));
            }
            // invalidate where the piece is now
            rects.push(
                rect_to_pixels(geom, orientation, ctx.pos.x - 500, ctx.pos.y - 500, 1000, 1000),
            );
            if let Some(sq) = ctx.square {
                rects.push(square_rect_pixels(geom, orientation, sq));
            }
        } else {
            proof {
                assert(!has_dragging(marked)) by {
                    if has_dragging(marked) {
                        let w = choose|w: int|
                            0 <= w < marked.len() && (#[trigger] marked[w]).dragging;
                        assert(false);
                    }
                }
            }
        }
        (full, rects)
    }

    /// Handle a pointer-up: a live drag released on a different square of the
    /// board proposes exactly that move (and clears the selection); released
    /// on its own square, off the board, or while its piece fades, it only
    /// snaps back, proposing nothing. The dragged piece is released at the
    /// drop square's center and settles from there.
    pub fn drag_mouse_up(&mut self, ctx: &EventContext, now: u64) -> (emit: Option<
        (Square, Square),
    >)
        requires
            old(self).wf(),
            ctx.wf(),
        ensures
            final(self).wf(),
            final(self).legals == old(self).legals,
            final(self).drag_start is None,
            final(self).orientation == old(self).orientation,
            final(self).check == old(self).check,
            final(self).last_move == old(self).last_move,
            final(self).pieces.board_view() == old(self).pieces.board_view(),
            emit == spec_drag_up_emit(old(self).pieces.figs(), ctx.square),
            final(self).pieces.figs() == spec_release_figs(
                old(self).pieces.figs(),
                ctx.square,
                now,
            ),
            final(self).selected == (if spec_drag_up_emit(old(self).pieces.figs(), ctx.square)
                is Some {
                None::<Square>
            } else {
                old(self).selected
            }),
    {
        self.drag_start = None;
        let ghost figs0 = self.pieces.figs();
        let dragged = self.pieces.dragging();
        match dragged {
            Some(g) => {
                proof {
                    lemma_unique_drag(figs0, g);
                }
                let dest = match ctx.square {
                    Some(sq) => sq,
                    None => g.square,
                };
                let _ = self.pieces.release_drag(square_to_inverted(dest), now);
                proof {
                    assert(dest == spec_drop_square(figs0, ctx.square));
                    assert(self.pieces.figs() =~= figs0.map_values(
                        |g2: Figurine|
                            spec_release(
                                g2,
                                spec_square_center(spec_drop_square(figs0, ctx.square)),
                                now,
                            ),
                    ));
                }
                if g.square != dest && !g.fading {
                    self.selected = None;
                    Some((g.square, dest))
                } else {
                    None
                }
            },
            None => {
                proof {
                    assert(!has_dragging(figs0)) by {
                        if has_dragging(figs0) {
                            let w = choose|w: int|
                                0 <= w < figs0.len() && (#[trigger] figs0[w]).dragging;
                            assert(false);
                        }
                    }
                }
                None
            },
        }
    }
}

/// A figurine returned by the drag query is the unique dragged one.
proof fn lemma_unique_drag(figs: Seq<Figurine>, g: Figurine)
    requires
        crate::pieces::at_most_one_dragging(figs),
        g.dragging,
        crate::pieces::in_figs(figs, g),
    ensures
        has_dragging(figs),
        dragging_fig(figs) == g,
{
    let i = choose|i: int| 0 <= i < figs.len() && figs[i] == g;
    assert(figs[i].dragging);
    let c = choose|c: int| 0 <= c < figs.len() && (#[trigger] figs[c]).dragging;
    if c != i {
        assert(!(figs[c].dragging && figs[i].dragging) || !(figs[i].dragging
            && figs[c].dragging));
        assert(false);
    }
}

/// The whole interactive-board state: the board proper and the promotion
/// overlay.
pub struct State {
    pub board_state: BoardState,
    pub promotable: Promotable,
}

impl State {
    pub open spec fn wf(&self) -> bool {
        self.board_state.wf() && self.promotable.wf()
    }

    pub fn new() -> (r: State)
        ensures
            r.wf(),
            r.promotable.pending() is None,
            r.board_state.legals@ =~= Seq::<LegalMove>::empty(),
    {
        State { board_state: BoardState::new(), promotable: Promotable::new() }
    }

    /// Whether any piece still needs animation frames.
    pub fn is_animating(&self, now: u64) -> (r: bool)
        requires
            self.wf(),
        ensures
            r == exists|i: int|
                0 <= i < self.board_state.pieces.figs().len() && crate::pieces::spec_is_animating(
                    #[trigger] self.board_state.pieces.figs()[i],
                    now,
                ),
    {
        self.board_state.pieces.is_animating(now)
    }

    /// The frame's draw list, with the promotion overlay's squares
    /// suppressed.
    pub fn render(&self, now: u64) -> (r: Vec<RenderEntry>)
        requires
            self.wf(),
        ensures
            ({
                let figs = self.board_state.pieces.figs();
                let hide = match self.promotable.pending() {
                    Some(p) => Some((p.orig, p.dest)),
                    None => None::<(Square, Square)>,
                };
                r@ == crate::pieces::spec_render_pass(figs, now, hide, 0)
                    + crate::pieces::spec_render_pass(figs, now, hide, 1)
                    + crate::pieces::spec_render_pass(figs, now, hide, 2)
            }),
    {
        let hide = self.promotable.hide_squares();
        self.board_state.pieces.render(now, hide)
    }

    /// The drag image to draw on top, if a drag is live: the dragged piece at
    /// the live pointer position, at drag opacity.
    pub fn drag_render(&self, now: u64) -> (r: Option<RenderEntry>)
        requires
            self.wf(),
        ensures
            match r {
                Some(e) => exists|i: int|
                    0 <= i < self.board_state.pieces.figs().len() && (
                    #[trigger] self.board_state.pieces.figs()[i]).dragging && e == (RenderEntry {
                        square: self.board_state.pieces.figs()[i].square,
                        piece: self.board_state.pieces.figs()[i].piece,
                        pos: self.board_state.pieces.figs()[i].pos,
                        alpha: crate::pieces::spec_drag_alpha(
                            self.board_state.pieces.figs()[i],
                            now,
                        ) as i64,
                    }),
                None => forall|i: int|
                    0 <= i < self.board_state.pieces.figs().len() ==> !(
                    #[trigger] self.board_state.pieces.figs()[i]).dragging,
            },
    {
        self.board_state.pieces.drag_render(now)
    }

    /// The pixel areas to invalidate for the next animation frame, one per
    /// animating figurine; empty exactly when nothing animates.
    pub fn queue_animation(&self, geom: &BoardGeometry, now: u64) -> (r: Vec<PixelRect>)
        requires
            self.wf(),
            geom.wf(),
        ensures
            forall|k: int| 0 <= k < r@.len() ==> (#[trigger] r@[k]).wf(),
            r@.len() > 0 <==> exists|i: int|
                0 <= i < self.board_state.pieces.figs().len() && crate::pieces::spec_is_animating(
                    #[trigger] self.board_state.pieces.figs()[i],
                    now,
                ),
    {
        self.board_state.pieces.queue_animation(geom, self.board_state.orientation, now)
    }
}

/// Gate a raw (origin, destination) gesture against the legal-move list: an
/// illegal gesture is dropped silently; a legal move that needs a role choice
/// opens the promotion overlay instead of being proposed; a legal plain move
/// is proposed as is.
pub fn user_move(state: &mut State, orig: Square, dest: Square) -> (r: Option<
    (Square, Square, Option<Role>),
>)
    requires
        old(state).wf(),
        orig.wf(),
        dest.wf(),
    ensures
        final(state).wf(),
        final(state).board_state == old(state).board_state,
        r == spec_gate(old(state).board_state.legals@, Some((orig, dest))),
        final(state).promotable.pending() == spec_gate_pending(
            old(state).board_state.legals@,
            Some((orig, dest)),
            old(state).promotable.pending(),
        ),
        r is Some ==> old(state).board_state.legals@.contains(
            LegalMove { from: orig, to: dest, promotion: None },
        ),
{
    if state.board_state.valid_move(orig, dest) {
        if state.board_state.legals.contains_promotion(orig, dest) {
            state.promotable.start_promoting(orig, dest);
            None
        } else {
            proof {
                let k = choose|k: int|
                    0 <= k < state.board_state.legals@.len() && (#[trigger] state.board_state.legals@[k]).from
                        == orig && state.board_state.legals@[k].to == dest;
                assert(state.board_state.legals@[k].promotion is None);
                assert(state.board_state.legals@[k] == (LegalMove {
                    from: orig,
                    to: dest,
                    promotion: None,
                }));
            }
            Some((orig, dest, None))
        }
    } else {
        None
    }
}

/// Handle a pointer-down: an open promotion overlay consumes it first (a
/// click on a legal role option commits that promotion, anything else cancels
/// it); otherwise the click drives the two-click scheme, records a drag
/// anchor, and any raw gesture is gated against the legal-move list. Every
/// returned proposal is in that list.
pub fn button_press_event(state: &mut State, ctx: &EventContext, button: u32) -> (r: Option<
    (Square, Square, Option<Role>),
>)
    requires
        old(state).wf(),
        ctx.wf(),
    ensures
        final(state).wf(),
        final(state).board_state.legals == old(state).board_state.legals,
        r matches Some((o, d, p)) ==> old(state).board_state.legals@.contains(
            LegalMove { from: o, to: d, promotion: p },
        ),
        old(state).promotable.pending() matches Some(p) ==> final(state).board_state == old(
            state,
        ).board_state && final(state).promotable.pending() is None && r == (match
            spec_promotion_pick(p, old(state).board_state.legals@, ctx.square) {
            Some((o, d, role)) => Some((o, d, Some(role))),
            None => None::<(Square, Square, Option<Role>)>,
        }),
        old(state).promotable.pending() is None ==> ({
            let raw = spec_click_emit(
                old(state).board_state.legals@,
                old(state).board_state.selected,
                ctx.square,
                button,
            );
            &&& r == spec_gate(old(state).board_state.legals@, raw)
            &&& final(state).promotable.pending() == spec_gate_pending(
                old(state).board_state.legals@,
                raw,
                old(state).promotable.pending(),
            )
            &&& final(state).board_state.selected == spec_click_selected(
                old(state).board_state.pieces.board_view(),
                old(state).board_state.legals@,
                old(state).board_state.selected,
                ctx.square,
                button,
            )
            &&& final(state).board_state.drag_start == spec_drag_anchor(
                old(state).board_state.pieces.board_view(),
                old(state).board_state.drag_start,
                ctx.pos,
                ctx.square,
                button,
            )
            &&& final(state).board_state.pieces == old(state).board_state.pieces
            &&& final(state).board_state.orientation == old(state).board_state.orientation
            &&& final(state).board_state.check == old(state).board_state.check
            &&& final(state).board_state.last_move == old(state).board_state.last_move
        }),
{
    let (handled, pick) = state.promotable.mouse_down(&state.board_state.legals, ctx.square);
    if handled {
        return match pick {
            Some((o, d, role)) => Some((o, d, Some(role))),
            None => None,
        };
    }
    let raw = state.board_state.selection_mouse_down(ctx, button);
    state.board_state.drag_mouse_down(ctx, button);
    match raw {
        Some((o, d)) => user_move(state, o, d),
        None => None,
    }
}

/// Handle a pointer-up: finish any drag and gate the resulting gesture.
/// Releasing a drag on its own square proposes nothing; a legal move needing
/// a role choice opens the promotion overlay instead of being proposed.
pub fn button_release_event(state: &mut State, ctx: &EventContext, now: u64) -> (r: Option<
    (Square, Square, Option<Role>),
>)
    requires
        old(state).wf(),
        ctx.wf(),
    ensures
        final(state).wf(),
        final(state).board_state.legals == old(state).board_state.legals,
        r matches Some((o, d, p)) ==> old(state).board_state.legals@.contains(
            LegalMove { from: o, to: d, promotion: p },
        ),
        ({
            let figs0 = old(state).board_state.pieces.figs();
            let raw = spec_drag_up_emit(figs0, ctx.square);
            &&& r == spec_gate(old(state).board_state.legals@, raw)
            &&& final(state).promotable.pending() == spec_gate_pending(
                old(state).board_state.legals@,
                raw,
                old(state).promotable.pending(),
            )
            &&& final(state).board_state.pieces.figs() == spec_release_figs(
                figs0,
                ctx.square,
                now,
            )
            &&& final(state).board_state.pieces.board_view() == old(
                state,
            ).board_state.pieces.board_view()
            &&& final(state).board_state.drag_start is None
            &&& final(state).board_state.selected == (if raw is Some {
                None::<Square>
            } else {
                old(state).board_state.selected
            })
            &&& final(state).board_state.orientation == old(state).board_state.orientation
            &&& final(state).board_state.check == old(state).board_state.check
            &&& final(state).board_state.last_move == old(state).board_state.last_move
        }),
{
    let ghost figs0 = state.board_state.pieces.figs();
    let raw = state.board_state.drag_mouse_up(ctx, now);
    match raw {
        Some((o, d)) => {
            proof {
                // the raw gesture names the dragged figurine's (well-formed)
                // squares
                let c = choose|c: int|
                    0 <= c < figs0.len() && (#[trigger] figs0[c]).dragging;
                assert(figs0[c].wf());
                assert(o == dragging_fig(figs0).square);
            }
            user_move(state, o, d)
        },
        None => None,
    }
}

/// Handle pointer motion: an open promotion overlay tracks the hovered role
/// option (and asks for a repaint); otherwise the drag machinery runs.
pub fn motion_notify_event(state: &mut State, geom: &BoardGeometry, ctx: &EventContext, now: u64) -> (r: (
    bool,
    Vec<PixelRect>,
))
    requires
        old(state).wf(),
        geom.wf(),
        ctx.wf(),
    ensures
        final(state).wf(),
        final(state).board_state.legals == old(state).board_state.legals,
        forall|k: int| 0 <= k < r.1@.len() ==> (#[trigger] r.1@[k]).wf(),
        old(state).promotable.pending() matches Some(p) ==> final(state).board_state == old(state).board_state && final(state).promotable.pending() == Some(Promoting { hover: (match ctx.square { Some(sq) => spec_role_at(p, sq), None => None }), ..p }),
        old(state).promotable.pending() is None ==> ({
            let figs0 = old(state).board_state.pieces.figs();
            &&& final(state).promotable.pending() is None
            &&& final(state).board_state.pieces.figs() == spec_motion_figs(
                figs0,
                old(state).board_state.drag_start,
                ctx.pos,
                now,
            )
            &&& final(state).board_state.pieces.board_view() == old(
                state,
            ).board_state.pieces.board_view()
            &&& final(state).board_state.selected == spec_motion_selected(
                old(state).board_state.selected,
                figs0,
                old(state).board_state.drag_start,
                ctx.pos,
            )
            &&& final(state).board_state.drag_start == old(state).board_state.drag_start
            &&& final(state).board_state.orientation == old(state).board_state.orientation
            &&& final(state).board_state.check == old(state).board_state.check
            &&& final(state).board_state.last_move == old(state).board_state.last_move
        }),
{
    if state.promotable.mouse_move(ctx.square) {
        (true, Vec::new())
    } else {
        state.board_state.drag_mouse_move(geom, ctx, now)
    }
}

/// Handle a host message: a new position replaces the snapshot, the legal
/// moves and the highlights (and needs a repaint); a user move that needs a
/// role choice opens the promotion overlay; anything else is ignored.
pub fn update(state: &mut State, msg: GroundMsg, now: u64) -> (redraw: bool)
    requires
        old(state).wf(),
        msg.wf(),
    ensures
        final(state).wf(),
        msg matches GroundMsg::SetPosition { board, legals, last_move, check } ==> final(state).board_state.pieces.board_view() == board@ && final(state).board_state.legals == legals && final(state).board_state.last_move == last_move && final(state).board_state.check == check && redraw,
        msg matches GroundMsg::SetPosition { board, legals, last_move, check } ==> crate::pieces::spec_layer_update(old(state).board_state.pieces.figs(), final(state).board_state.pieces.figs(), old(state).board_state.pieces.board_view(), board@, now),
        msg matches GroundMsg::UserMove(orig, dest, None) ==> final(state).promotable.pending() == (if spec_has_move(old(state).board_state.legals@, orig, dest) && spec_has_promotion(old(state).board_state.legals@, orig, dest) {
            Some(Promoting { orig, dest, hover: None::<Role> })
        } else {
            old(state).promotable.pending()
        }) && final(state).board_state == old(state).board_state && redraw == (spec_has_move(old(state).board_state.legals@, orig, dest) && spec_has_promotion(old(state).board_state.legals@, orig, dest)),
        msg matches GroundMsg::UserMove(_, _, Some(_)) ==> *final(state) == *old(state) && !redraw,
        msg matches GroundMsg::ShapesChanged ==> *final(state) == *old(state) && !redraw,
{
    match msg {
        GroundMsg::SetPosition { board, legals, last_move, check } => {
            state.board_state.pieces.set_board(board, now);
            state.board_state.legals = legals;
            state.board_state.last_move = last_move;
            state.board_state.check = check;
            true
        },
        GroundMsg::UserMove(orig, dest, None) => {
            if state.board_state.valid_move(orig, dest) && state.board_state.legals.contains_promotion(
                orig,
                dest,
            ) {
                state.promotable.start_promoting(orig, dest);
                true
            } else {
                false
            }
        },
        _ => false,
    }
}

} // verus!
