use chessground::anim::{ease_in_out_cubic, ANIMATE_DURATION_MS};
use chessground::board::{Color, Piece, Role, Square};
use chessground::geometry::Pos;
use chessground::pieces::Figurine;

fn figurine_at_rest(square: Square, time: u64) -> Figurine {
    Figurine {
        square,
        piece: Piece { color: Color::White, role: Role::Knight },
        pos: chessground::geometry::square_to_inverted(square),
        time,
        fading: false,
        replaced: false,
        dragging: false,
    }
}

#[test]
fn easing_hits_the_endpoints_exactly() {
    assert_eq!(ease_in_out_cubic(0, 1000, 0, 200), 0);
    assert_eq!(ease_in_out_cubic(0, 1000, 200, 200), 1000);
    assert_eq!(ease_in_out_cubic(0, 1000, 10_000, 200), 1000);
    assert_eq!(ease_in_out_cubic(700, 700, 37, 200), 700);
}

#[test]
fn easing_midpoint_and_quarter() {
    // at half time the cubic ease-in-out sits exactly halfway
    assert_eq!(ease_in_out_cubic(0, 1000, 100, 200), 500);
    // at a quarter: 4 * 0.25^3 = 1/16 of the way
    assert_eq!(ease_in_out_cubic(0, 1000, 50, 200), 62);
    // symmetric for a decreasing quantity
    assert_eq!(ease_in_out_cubic(1000, 0, 100, 200), 500);
}

#[test]
fn easing_stays_between_the_endpoints() {
    for t in 0..=220u64 {
        let v = ease_in_out_cubic(-300, 900, t, ANIMATE_DURATION_MS);
        assert!((-300..=900).contains(&v));
    }
}

#[test]
fn animation_completes_after_the_duration() {
    // a piece that just started sliding from a1's center toward b2
    let mut f = figurine_at_rest(Square::new(0, 0), 1000);
    f.square = Square::new(1, 1);
    assert!(f.is_animating(1000));
    assert!(f.is_animating(1200));
    // once the duration has elapsed it reports done, whatever the distance
    assert!(!f.is_animating(1201));
    assert!(!f.is_animating(999_999));
}

#[test]
fn a_piece_at_rest_never_animates() {
    let f = figurine_at_rest(Square::new(4, 4), 1000);
    assert!(!f.is_animating(1000));
    assert!(!f.is_animating(1100));
}

#[test]
fn dragged_pieces_do_not_animate_and_fade_opacity_eases_out() {
    let mut f = figurine_at_rest(Square::new(2, 2), 1000);
    f.dragging = true;
    assert!(!f.is_animating(1100));
    // the origin-square shadow of a dragged piece is faint
    assert_eq!(f.alpha(1100), 200);

    let mut g = figurine_at_rest(Square::new(2, 2), 1000);
    g.fading = true;
    assert_eq!(g.alpha(1000), 1000);
    assert_eq!(g.alpha(1100), 500);
    assert_eq!(g.alpha(1200), 0);
    // a captured piece fades from half opacity
    g.replaced = true;
    assert_eq!(g.alpha(1000), 500);
    assert_eq!(g.alpha(1200), 0);
}

#[test]
fn eased_position_moves_toward_the_target() {
    let mut f = figurine_at_rest(Square::new(0, 0), 1000);
    // retarget to c1 with the position still frozen at a1's center
    f.square = Square::new(2, 0);
    let start = f.pos;
    let target = chessground::geometry::square_to_inverted(f.square);
    assert_eq!(f.pos_at(1000), start);
    let mid = f.pos_at(1100);
    assert_eq!(mid, Pos { x: 1500, y: 7500 });
    assert_eq!(f.pos_at(1200), target);
    assert_eq!(f.pos_at(5000), target);
}
