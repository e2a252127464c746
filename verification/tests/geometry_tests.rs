use buster_engine::command::Command;
use buster_engine::geometry::Coord;

#[test]
fn distance_exact_pythagorean() {
    let a = Coord::new(0, 0);
    let b = Coord::new(3, 4);
    assert_eq!(a.distance_to(&b), 5);
    assert_eq!(b.distance_to(&a), 5);
}

#[test]
fn distance_rounds_to_nearest() {
    let o = Coord::new(0, 0);
    // sqrt(2) = 1.41.. rounds down
    assert_eq!(o.distance_to(&Coord::new(1, 1)), 1);
    // sqrt(5) = 2.23.. rounds down
    assert_eq!(o.distance_to(&Coord::new(2, 1)), 2);
    // sqrt(8) = 2.82.. rounds up
    assert_eq!(o.distance_to(&Coord::new(2, 2)), 3);
    // sqrt(3250000) = 1802.77.. rounds up
    assert_eq!(o.distance_to(&Coord::new(1500, 1000)), 1803);
}

#[test]
fn distance_zero_and_radius_boundary() {
    let a = Coord::new(42, -7);
    assert_eq!(a.distance_to(&a), 0);
    let o = Coord::new(0, 0);
    // boundary inclusive
    assert!(o.is_in_radius(&Coord::new(1750, 0), 1750));
    assert!(!o.is_in_radius(&Coord::new(1751, 0), 1750));
}

#[test]
fn interpolate_rounds_each_coordinate() {
    let a = Coord::new(0, 0);
    let b = Coord::new(10, 10);
    assert_eq!(a.interpolate(&b, 9), Coord::new(9, 9));
    assert_eq!(a.interpolate(&b, 1), Coord::new(1, 1));
    // halves round away from zero
    let c = Coord::new(1, 1);
    assert_eq!(a.interpolate(&c, 5), Coord::new(1, 1));
    let d = Coord::new(-1, -1);
    assert_eq!(a.interpolate(&d, 5), Coord::new(-1, -1));
}

#[test]
fn throw_coords_counts_and_single_point() {
    let anchor = Coord::new(500, 500);
    let pts = anchor.throw_coords(3, false, 6500, false);
    assert_eq!(pts.len(), 3);
    // a single-point arc degenerates to the anchor, pulled toward the
    // quadrant corner by nine tenths
    let single = anchor.throw_coords(1, false, 6500, false);
    assert_eq!(single.len(), 1);
    assert_eq!(single[0], Coord::new(6350, 6350));
}

#[test]
fn throw_coords_endpoints_lie_on_the_axes() {
    let anchor = Coord::new(500, 500);
    let pts = anchor.throw_coords(2, false, 1000, false);
    // first point: full horizontal offset, no vertical offset
    assert_eq!(pts[0], Coord::new(1500, 500).interpolate(&Coord::new(1500, 1500), 9));
    // last point: full vertical offset
    assert_eq!(pts[1], Coord::new(500, 1500).interpolate(&Coord::new(1500, 1500), 9));
}

#[test]
fn coord_to_string_renders_decimal() {
    assert_eq!(Coord::new(-12, 340).to_string(), "-12 340");
    assert_eq!(Coord::new(0, 9000).to_string(), "0 9000");
}

#[test]
fn command_lines_match_protocol() {
    assert_eq!(Command::Move { x: 3, y: 4 }.to_line(), "MOVE 3 4");
    assert_eq!(Command::Bust { id: 7 }.to_line(), "BUST 7");
    assert_eq!(Command::Stun { id: 12 }.to_line(), "STUN 12");
    assert_eq!(Command::Release.to_line(), "RELEASE");
    assert_eq!(Command::Move { x: -100, y: 16000 }.to_line(), "MOVE -100 16000");
}
