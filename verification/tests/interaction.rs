use chessground::board::{Board, Color, LegalMove, LegalMoveSet, Piece, Role, Square};
use chessground::geometry::{square_to_inverted, Pos};
use chessground::ground::{
    button_press_event, button_release_event, motion_notify_event, update, EventContext, GroundMsg,
    State,
};
use chessground::geometry::BoardGeometry;

fn sq(file: u8, rank: u8) -> Square {
    Square::new(file, rank)
}

fn ctx_at(square: Square) -> EventContext {
    EventContext { pos: square_to_inverted(square), square: Some(square) }
}

fn ctx_pos(pos: Pos) -> EventContext {
    EventContext { pos, square: chessground::geometry::inverted_to_square(pos) }
}

/// A position with a lone white pawn on e2 that may advance to e3 or e4.
fn pawn_state() -> State {
    let mut board = Board::empty();
    board.set_piece_at(sq(4, 1), Some(Piece { color: Color::White, role: Role::Pawn }));
    let mut legals = LegalMoveSet::new();
    legals.push(LegalMove { from: sq(4, 1), to: sq(4, 2), promotion: None });
    legals.push(LegalMove { from: sq(4, 1), to: sq(4, 3), promotion: None });
    let mut state = State::new();
    update(
        &mut state,
        GroundMsg::SetPosition { board, legals, last_move: None, check: None },
        0,
    );
    state
}

/// A position with a white pawn on e7 that can promote on e8 to a queen or a
/// knight only.
fn promotion_state() -> State {
    let mut board = Board::empty();
    board.set_piece_at(sq(4, 6), Some(Piece { color: Color::White, role: Role::Pawn }));
    let mut legals = LegalMoveSet::new();
    legals.push(LegalMove { from: sq(4, 6), to: sq(4, 7), promotion: Some(Role::Queen) });
    legals.push(LegalMove { from: sq(4, 6), to: sq(4, 7), promotion: Some(Role::Knight) });
    let mut state = State::new();
    update(
        &mut state,
        GroundMsg::SetPosition { board, legals, last_move: None, check: None },
        0,
    );
    state
}

/// Drag from `from` to `to` through a couple of motion events.
fn drag(state: &mut State, from: Square, to: Square, now: u64) -> Option<(Square, Square, Option<Role>)> {
    let geom = BoardGeometry::new(900, 900);
    let start = square_to_inverted(from);
    assert_eq!(button_press_event(state, &ctx_at(from), 1), None);
    // cross the drag threshold, then glide to the target
    motion_notify_event(state, &geom, &ctx_pos(Pos { x: start.x + 200, y: start.y }), now + 10);
    motion_notify_event(state, &geom, &ctx_at(to), now + 20);
    button_release_event(state, &ctx_at(to), now + 30)
}

#[test]
fn drag_to_a_legal_square_proposes_the_move() {
    let mut state = pawn_state();
    let r = drag(&mut state, sq(4, 1), sq(4, 3), 100);
    assert_eq!(r, Some((sq(4, 1), sq(4, 3), None)));
}

#[test]
fn drag_released_on_its_own_square_proposes_nothing() {
    let mut state = pawn_state();
    let r = drag(&mut state, sq(4, 1), sq(4, 1), 100);
    assert_eq!(r, None);
    // the piece is still there and no promotion is pending
    assert!(state.board_state.pieces.occupied(sq(4, 1)));
    assert!(!state.promotable.is_pending());
}

#[test]
fn drag_to_an_illegal_square_is_dropped_silently() {
    let mut state = pawn_state();
    let r = drag(&mut state, sq(4, 1), sq(0, 7), 100);
    assert_eq!(r, None);
}

#[test]
fn an_illegal_drag_snaps_the_piece_back() {
    let mut state = pawn_state();
    // released on a8, which is not a legal target: no proposal
    let r = drag(&mut state, sq(4, 1), sq(0, 7), 500);
    assert_eq!(r, None);
    // the drag ended: the piece was released at the drop square's center
    // and settles back toward its own square
    assert!(state.drag_render(531).is_none());
    assert!(state.is_animating(531));
    let entries = state.render(531);
    let pawn: Vec<_> = entries.iter().filter(|e| e.alpha > 0).collect();
    assert_eq!(pawn.len(), 1);
    assert_eq!(pawn[0].square, sq(4, 1));
    assert_eq!(pawn[0].pos, square_to_inverted(sq(0, 7)));
    // once the settle animation is over it rests on its origin square again
    let entries = state.render(800);
    let pawn: Vec<_> = entries.iter().filter(|e| e.alpha > 0).collect();
    assert_eq!(pawn[0].pos, square_to_inverted(sq(4, 1)));
    assert!(!state.is_animating(800));
}

#[test]
fn two_click_move_proposes_on_the_second_click() {
    let mut state = pawn_state();
    // first click selects the pawn
    assert_eq!(button_press_event(&mut state, &ctx_at(sq(4, 1)), 1), None);
    assert_eq!(state.board_state.selected, Some(sq(4, 1)));
    assert_eq!(button_release_event(&mut state, &ctx_at(sq(4, 1)), 10), None);
    // second click on a legal target commits the move
    let r = button_press_event(&mut state, &ctx_at(sq(4, 2)), 1);
    assert_eq!(r, Some((sq(4, 1), sq(4, 2), None)));
}

#[test]
fn an_illegal_second_click_reselects_the_clicked_piece() {
    let mut state = pawn_state();
    // add a second piece with no legal moves
    let mut board = Board::empty();
    board.set_piece_at(sq(4, 1), Some(Piece { color: Color::White, role: Role::Pawn }));
    board.set_piece_at(sq(6, 0), Some(Piece { color: Color::White, role: Role::Knight }));
    let mut legals = LegalMoveSet::new();
    legals.push(LegalMove { from: sq(4, 1), to: sq(4, 2), promotion: None });
    legals.push(LegalMove { from: sq(4, 1), to: sq(4, 3), promotion: None });
    update(&mut state, GroundMsg::SetPosition { board, legals, last_move: None, check: None }, 0);

    button_press_event(&mut state, &ctx_at(sq(4, 1)), 1);
    assert_eq!(state.board_state.selected, Some(sq(4, 1)));
    // e2 to g1 is not legal: no proposal, and the knight becomes selected
    let r = button_press_event(&mut state, &ctx_at(sq(6, 0)), 1);
    assert_eq!(r, None);
    assert_eq!(state.board_state.selected, Some(sq(6, 0)));
    // an illegal second click on an empty square just deselects
    let r = button_press_event(&mut state, &ctx_at(sq(0, 4)), 1);
    assert_eq!(r, None);
    assert_eq!(state.board_state.selected, None);
}

#[test]
fn a_repeated_click_on_the_selected_piece_deselects() {
    let mut state = pawn_state();
    button_press_event(&mut state, &ctx_at(sq(4, 1)), 1);
    assert_eq!(state.board_state.selected, Some(sq(4, 1)));
    let r = button_press_event(&mut state, &ctx_at(sq(4, 1)), 1);
    assert_eq!(r, None);
    assert_eq!(state.board_state.selected, None);
}

#[test]
fn promotion_targets_are_hinted_once() {
    let mut state = promotion_state();
    button_press_event(&mut state, &ctx_at(sq(4, 6)), 1);
    // two promotion entries share the destination; the hint appears once
    let hints = state.board_state.move_hints();
    assert_eq!(hints, vec![(sq(4, 7), false)]);
}

#[test]
fn secondary_button_clears_the_selection() {
    let mut state = pawn_state();
    button_press_event(&mut state, &ctx_at(sq(4, 1)), 1);
    assert_eq!(state.board_state.selected, Some(sq(4, 1)));
    button_press_event(&mut state, &ctx_at(sq(4, 1)), 3);
    assert_eq!(state.board_state.selected, None);
}

#[test]
fn promotion_drag_opens_the_overlay_instead_of_emitting() {
    let mut state = promotion_state();
    let r = drag(&mut state, sq(4, 6), sq(4, 7), 100);
    assert_eq!(r, None);
    assert!(state.promotable.is_pending());
}

#[test]
fn picking_the_knight_emits_exactly_that_promotion() {
    let mut state = promotion_state();
    drag(&mut state, sq(4, 6), sq(4, 7), 100);
    // the overlay lists queen, rook, bishop, knight down the e-file from e8;
    // the knight's option sits three squares below the destination
    let r = button_press_event(&mut state, &ctx_at(sq(4, 4)), 1);
    assert_eq!(r, Some((sq(4, 6), sq(4, 7), Some(Role::Knight))));
    assert!(!state.promotable.is_pending());
}

#[test]
fn picking_an_illegal_promotion_role_emits_nothing() {
    let mut state = promotion_state();
    drag(&mut state, sq(4, 6), sq(4, 7), 100);
    // the rook's option square: one below the destination — not in the list
    let r = button_press_event(&mut state, &ctx_at(sq(4, 6)), 1);
    assert_eq!(r, None);
    assert!(!state.promotable.is_pending());
}

#[test]
fn clicking_off_the_overlay_cancels_the_promotion() {
    let mut state = promotion_state();
    drag(&mut state, sq(4, 6), sq(4, 7), 100);
    let r = button_press_event(&mut state, &ctx_at(sq(0, 0)), 1);
    assert_eq!(r, None);
    assert!(!state.promotable.is_pending());
}

#[test]
fn drag_released_off_the_board_snaps_back() {
    let mut state = pawn_state();
    let geom = BoardGeometry::new(900, 900);
    let start = square_to_inverted(sq(4, 1));
    button_press_event(&mut state, &ctx_at(sq(4, 1)), 1);
    motion_notify_event(&mut state, &geom, &ctx_pos(Pos { x: start.x, y: start.y + 300 }), 100);
    // pointer leaves the playing area entirely
    let off = EventContext { pos: Pos { x: -2000, y: -2000 }, square: None };
    motion_notify_event(&mut state, &geom, &off, 110);
    let r = button_release_event(&mut state, &off, 120);
    assert_eq!(r, None);
    // the pawn is still on its square and settles back
    assert!(state.board_state.pieces.occupied(sq(4, 1)));
    assert!(state.drag_render(130).is_none());
}

#[test]
fn a_plain_user_move_does_not_open_the_overlay() {
    let mut state = pawn_state();
    let redraw = update(&mut state, GroundMsg::UserMove(sq(4, 1), sq(4, 3), None), 50);
    assert!(!redraw);
    assert!(!state.promotable.is_pending());
}

#[test]
fn a_promoting_user_move_opens_the_overlay() {
    let mut state = promotion_state();
    let redraw = update(&mut state, GroundMsg::UserMove(sq(4, 6), sq(4, 7), None), 50);
    assert!(redraw);
    assert!(state.promotable.is_pending());
}

#[test]
fn move_hints_flag_occupied_targets() {
    let mut state = pawn_state();
    // put an enemy piece on e3 so one hint is a capture hint
    let mut board = Board::empty();
    board.set_piece_at(sq(4, 1), Some(Piece { color: Color::White, role: Role::Pawn }));
    board.set_piece_at(sq(4, 2), Some(Piece { color: Color::Black, role: Role::Knight }));
    let mut legals = LegalMoveSet::new();
    legals.push(LegalMove { from: sq(4, 1), to: sq(4, 2), promotion: None });
    legals.push(LegalMove { from: sq(4, 1), to: sq(4, 3), promotion: None });
    update(&mut state, GroundMsg::SetPosition { board, legals, last_move: None, check: None }, 0);

    assert_eq!(state.board_state.move_hints(), vec![]);
    button_press_event(&mut state, &ctx_at(sq(4, 1)), 1);
    let mut hints = state.board_state.move_hints();
    hints.sort_by_key(|h| h.0.rank);
    assert_eq!(hints, vec![(sq(4, 2), true), (sq(4, 3), false)]);
}

#[test]
fn move_targets_follow_the_legal_move_list() {
    let state = pawn_state();
    let ts = state.board_state.move_targets(sq(4, 1));
    assert!(ts.contains(&sq(4, 2)));
    assert!(ts.contains(&sq(4, 3)));
    assert_eq!(ts.len(), 2);
    assert!(state.board_state.valid_move(sq(4, 1), sq(4, 3)));
    assert!(!state.board_state.valid_move(sq(4, 1), sq(4, 4)));
}

#[test]
fn the_drag_image_follows_the_pointer() {
    let mut state = pawn_state();
    let geom = BoardGeometry::new(900, 900);
    let start = square_to_inverted(sq(4, 1));
    button_press_event(&mut state, &ctx_at(sq(4, 1)), 1);
    let live = Pos { x: start.x + 700, y: start.y - 900 };
    motion_notify_event(&mut state, &geom, &ctx_pos(live), 500);
    let image = state.drag_render(510).expect("a drag image");
    assert_eq!(image.pos, live);
    assert_eq!(image.alpha, 1000);
    // selection and an active drag are exclusive: the origin is deselected
    assert_eq!(state.board_state.selected, None);
    // the drop-target highlight is read from the drag itself
    assert_eq!(state.board_state.hover_square(), None);
    // and needs-another-frame stays quiet while dragging
    assert!(!state.is_animating(510));
}

#[test]
fn animation_frames_request_damage_areas_until_settled() {
    let mut state = pawn_state();
    let geom = BoardGeometry::new(900, 900);
    // play e2-e4 externally so the pawn slides
    let mut board = Board::empty();
    board.set_piece_at(sq(4, 3), Some(Piece { color: Color::White, role: Role::Pawn }));
    update(
        &mut state,
        GroundMsg::SetPosition {
            board,
            legals: LegalMoveSet::new(),
            last_move: Some((sq(4, 1), sq(4, 3))),
            check: None,
        },
        1000,
    );
    assert!(state.is_animating(1100));
    let rects = state.queue_animation(&geom, 1100);
    assert!(!rects.is_empty());
    for r in &rects {
        assert!(r.width > 0 && r.height > 0);
    }
    // settled: no more damage, no more frames
    assert!(!state.is_animating(1300));
    assert!(state.queue_animation(&geom, 1300).is_empty());
}

#[test]
fn the_hovered_square_highlights_only_legal_targets() {
    let mut state = pawn_state();
    let geom = BoardGeometry::new(900, 900);
    button_press_event(&mut state, &ctx_at(sq(4, 1)), 1);
    // hover over the legal target e4
    motion_notify_event(&mut state, &geom, &ctx_at(sq(4, 3)), 50);
    assert_eq!(state.board_state.hover_square(), Some(sq(4, 3)));
    // hover over an illegal square
    motion_notify_event(&mut state, &geom, &ctx_at(sq(0, 7)), 60);
    assert_eq!(state.board_state.hover_square(), None);
}

#[test]
fn a_new_position_resets_selection_targets() {
    let mut state = pawn_state();
    // play e2-e4 externally: pawn now on e4, no legal moves supplied
    let mut board = Board::empty();
    board.set_piece_at(sq(4, 3), Some(Piece { color: Color::White, role: Role::Pawn }));
    update(
        &mut state,
        GroundMsg::SetPosition {
            board,
            legals: LegalMoveSet::new(),
            last_move: Some((sq(4, 1), sq(4, 3))),
            check: None,
        },
        500,
    );
    assert!(state.board_state.pieces.occupied(sq(4, 3)));
    assert_eq!(state.board_state.last_move, Some((sq(4, 1), sq(4, 3))));
    // with an empty legal-move list nothing can be proposed any more
    assert_eq!(button_press_event(&mut state, &ctx_at(sq(4, 3)), 1), None);
    let r = drag(&mut state, sq(4, 3), sq(4, 4), 600);
    assert_eq!(r, None);
}
