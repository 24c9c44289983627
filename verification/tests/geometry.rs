use chessground::board::{Color, Square};
use chessground::geometry::{
    invert_pos, inverted_to_square, point_to_square, pos_to_square, rect_to_pixels,
    square_rect_pixels, square_to_inverted, square_to_point, BoardGeometry, PixelRect, Pos,
};

#[test]
fn round_trip_all_squares_both_orientations() {
    for file in 0..8u8 {
        for rank in 0..8u8 {
            let sq = Square::new(file, rank);
            for orientation in [Color::White, Color::Black] {
                let p = square_to_point(sq, orientation);
                assert_eq!(point_to_square(p, orientation), Some(sq));
            }
        }
    }
}

#[test]
fn square_centers() {
    // a1 sits at the bottom-left of the playing area
    let a1 = Square::new(0, 0);
    assert_eq!(square_to_inverted(a1), Pos { x: 500, y: 7500 });
    // h8 at the top right
    let h8 = Square::new(7, 7);
    assert_eq!(square_to_inverted(h8), Pos { x: 7500, y: 500 });
    // flipped, a1 draws at the top right
    assert_eq!(square_to_point(a1, Color::Black), Pos { x: 7500, y: 500 });
}

#[test]
fn off_board_positions_have_no_square() {
    assert_eq!(inverted_to_square(Pos { x: -1, y: 100 }), None);
    assert_eq!(inverted_to_square(Pos { x: 8000, y: 100 }), None);
    assert_eq!(inverted_to_square(Pos { x: 100, y: 9125 }), None);
    assert_eq!(
        inverted_to_square(Pos { x: 1500, y: 6500 }),
        Some(Square::new(1, 1))
    );
}

#[test]
fn pixel_round_trip_at_square_centers() {
    let geom = BoardGeometry::new(900, 900);
    // a8's center in board space is (500, 500); the drawn region -500..8500
    // maps onto 0..900, so that lands at pixel (100, 100)
    let sq = pos_to_square(&geom, Color::White, 100, 100);
    assert_eq!(sq, Some(Square::new(0, 7)));
    // the same pixel under the flipped orientation is h1
    let sq = pos_to_square(&geom, Color::Black, 100, 100);
    assert_eq!(sq, Some(Square::new(7, 0)));
}

#[test]
fn invert_pos_maps_pixels_into_board_space() {
    let geom = BoardGeometry::new(900, 900);
    // pixel (100, 100) is exactly a8's center
    assert_eq!(invert_pos(&geom, Color::White, 100, 100), Pos { x: 500, y: 500 });
    // far-away pixels are clamped, never panic
    let p = invert_pos(&geom, Color::White, -1_000_000_000, 2_000_000_000);
    assert!(p.x >= -9500 && p.y <= 17500);
}

#[test]
fn square_rect_covers_the_square() {
    let geom = BoardGeometry::new(900, 900);
    // a8 occupies board rect (0,0)..(1000,1000): pixels 50..150 on each axis
    let r = square_rect_pixels(&geom, Color::White, Square::new(0, 7));
    assert_eq!(r, PixelRect { x: 50, y: 50, width: 100, height: 100 });
    // same square flipped lands mirrored about the board center
    let rf = square_rect_pixels(&geom, Color::Black, Square::new(0, 7));
    assert_eq!(rf, PixelRect { x: 750, y: 750, width: 100, height: 100 });
}

#[test]
fn rect_union_is_monotone() {
    let geom = BoardGeometry::new(900, 900);
    let a = rect_to_pixels(&geom, Color::White, 0, 0, 1000, 1000);
    let b = rect_to_pixels(&geom, Color::White, 2000, 3000, 1000, 1000);
    let u = a.union(b);
    assert!(u.x <= a.x && u.x <= b.x);
    assert!(u.x + u.width >= a.x + a.width);
    assert!(u.x + u.width >= b.x + b.width);
    assert!(u.y + u.height >= b.y + b.height);
}
