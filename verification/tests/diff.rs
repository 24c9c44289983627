use chessground::board::{Board, Color, Piece, Role, Square};
use chessground::diff::compute_diff;
use chessground::pieces::Pieces;

fn piece(color: Color, role: Role) -> Piece {
    Piece { color, role }
}

fn board_of(placements: &[(u8, u8, Color, Role)]) -> Board {
    let mut b = Board::empty();
    for &(file, rank, color, role) in placements {
        b.set_piece_at(Square::new(file, rank), Some(piece(color, role)));
    }
    b
}

#[test]
fn identical_snapshots_diff_to_nothing() {
    let a = board_of(&[(4, 1, Color::White, Role::Pawn), (6, 0, Color::White, Role::Knight)]);
    let b = board_of(&[(4, 1, Color::White, Role::Pawn), (6, 0, Color::White, Role::Knight)]);
    let d = compute_diff(&a, &b);
    assert_eq!(d.matched.len(), 0);
    assert_eq!(d.fades.len(), 0);
    assert_eq!(d.adds.len(), 0);
}

#[test]
fn a_single_move_matches_exactly_once() {
    // a knight hops g1 -> f3; everything else stays put
    let a = board_of(&[(6, 0, Color::White, Role::Knight), (4, 1, Color::White, Role::Pawn)]);
    let b = board_of(&[(5, 2, Color::White, Role::Knight), (4, 1, Color::White, Role::Pawn)]);
    let d = compute_diff(&a, &b);
    assert_eq!(d.matched, vec![(Square::new(6, 0), Square::new(5, 2))]);
    assert_eq!(d.fades.len(), 0);
    assert_eq!(d.adds.len(), 0);
}

#[test]
fn a_capture_fades_the_captured_piece_as_replaced() {
    // white pawn e4 takes the black pawn on d5
    let a = board_of(&[(4, 3, Color::White, Role::Pawn), (3, 4, Color::Black, Role::Pawn)]);
    let b = board_of(&[(3, 4, Color::White, Role::Pawn)]);
    let d = compute_diff(&a, &b);
    assert_eq!(d.matched, vec![(Square::new(4, 3), Square::new(3, 4))]);
    assert_eq!(d.fades.len(), 1);
    assert_eq!(d.fades[0].square, Square::new(3, 4));
    assert!(d.fades[0].replaced);
    assert_eq!(d.adds.len(), 0);
}

#[test]
fn castling_slides_both_pieces() {
    let a = board_of(&[(4, 0, Color::White, Role::King), (7, 0, Color::White, Role::Rook)]);
    let b = board_of(&[(6, 0, Color::White, Role::King), (5, 0, Color::White, Role::Rook)]);
    let d = compute_diff(&a, &b);
    assert_eq!(d.matched.len(), 2);
    assert!(d.matched.contains(&(Square::new(4, 0), Square::new(6, 0))));
    assert!(d.matched.contains(&(Square::new(7, 0), Square::new(5, 0))));
    assert_eq!(d.fades.len(), 0);
    assert_eq!(d.adds.len(), 0);
}

#[test]
fn an_appearing_piece_with_no_origin_is_a_pure_add() {
    // a promotion leaves no pawn anywhere: the queen appears from nowhere
    let a = board_of(&[(4, 6, Color::White, Role::Pawn)]);
    let b = board_of(&[(4, 7, Color::White, Role::Queen)]);
    let d = compute_diff(&a, &b);
    assert_eq!(d.matched.len(), 0);
    assert_eq!(d.fades.len(), 1);
    assert_eq!(d.fades[0].square, Square::new(4, 6));
    assert!(!d.fades[0].replaced);
    assert_eq!(d.adds, vec![(Square::new(4, 7), piece(Color::White, Role::Queen))]);
}

#[test]
fn nearest_origin_wins_the_match() {
    // two white rooks could have moved to d4; the diff slides the closer one
    let a = board_of(&[(3, 0, Color::White, Role::Rook), (3, 7, Color::White, Role::Rook)]);
    let b = board_of(&[(3, 2, Color::White, Role::Rook), (3, 7, Color::White, Role::Rook)]);
    let d = compute_diff(&a, &b);
    assert_eq!(d.matched, vec![(Square::new(3, 0), Square::new(3, 2))]);
}

#[test]
fn the_layer_tracks_snapshots_and_settles() {
    let a = board_of(&[(6, 0, Color::White, Role::Knight)]);
    let b = board_of(&[(5, 2, Color::White, Role::Knight)]);
    let mut layer = Pieces::new_from_board(a);
    assert!(!layer.is_animating(1000));
    assert!(layer.occupied(Square::new(6, 0)));

    layer.set_board(b, 1000);
    assert!(layer.occupied(Square::new(5, 2)));
    assert!(!layer.occupied(Square::new(6, 0)));
    // the matched move slides, then settles after the animation duration
    assert!(layer.is_animating(1000));
    assert!(layer.is_animating(1150));
    assert!(!layer.is_animating(1201));

    let g = layer.figurine_at(Square::new(5, 2)).expect("moved piece");
    assert_eq!(g.piece, piece(Color::White, Role::Knight));
    assert!(!g.fading);
}

#[test]
fn faded_pieces_are_pruned_on_the_next_snapshot() {
    let a = board_of(&[(4, 3, Color::White, Role::Pawn), (3, 4, Color::Black, Role::Pawn)]);
    let b = board_of(&[(3, 4, Color::White, Role::Pawn)]);
    let mut layer = Pieces::new_from_board(a);
    layer.set_board(b, 1000);
    // while fading, both the mover and the captured piece are drawn
    let entries = layer.render(1050, None);
    assert_eq!(entries.len(), 2);
    // after the fade finishes and another snapshot arrives, only the mover
    // remains
    let c = board_of(&[(3, 4, Color::White, Role::Pawn)]);
    layer.set_board(c, 2000);
    let entries = layer.render(2000, None);
    assert_eq!(entries.len(), 1);
    assert_eq!(entries[0].square, Square::new(3, 4));
    assert_eq!(entries[0].alpha, 1000);
}

#[test]
fn render_draws_fading_pieces_first_and_movers_on_top() {
    let a = board_of(&[(4, 3, Color::White, Role::Pawn), (3, 4, Color::Black, Role::Pawn)]);
    let b = board_of(&[(3, 4, Color::White, Role::Pawn)]);
    let mut layer = Pieces::new_from_board(a);
    layer.set_board(b, 1000);
    let entries = layer.render(1100, None);
    assert_eq!(entries.len(), 2);
    // the fading black pawn comes first, at captured (half-base) opacity
    assert_eq!(entries[0].piece, piece(Color::Black, Role::Pawn));
    assert!(entries[0].alpha < 500);
    // the sliding white pawn draws on top, fully opaque, mid-flight
    assert_eq!(entries[1].piece, piece(Color::White, Role::Pawn));
    assert_eq!(entries[1].alpha, 1000);
    let target = chessground::geometry::square_to_inverted(Square::new(3, 4));
    assert_ne!(entries[1].pos, target);
}
