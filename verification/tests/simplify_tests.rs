use rgis::geom::{Coord, Feature, FeatureCollection, GeometryNode, PolygonGeom};
use rgis::params::parse_epsilon;
use rgis::rdp::{simplify_line_string, simplify_ring};

fn c(x: i64, y: i64) -> Coord {
    Coord { x, y }
}

fn line(points: &[(i64, i64)]) -> Vec<Coord> {
    points.iter().map(|&(x, y)| c(x, y)).collect()
}

#[test]
fn simplify_drops_near_collinear_point() {
    // LineString (0,0),(1,0.01),(2,0),(3,5),(4,0) in thousandths,
    // tolerance 0.1 -> only (1,0.01) is near-collinear and dropped.
    let ls = line(&[(0, 0), (1000, 10), (2000, 0), (3000, 5000), (4000, 0)]);
    let eps = parse_epsilon("0.1").unwrap();
    assert_eq!(eps, 100);
    let out = simplify_line_string(&ls, eps);
    assert_eq!(out, line(&[(0, 0), (2000, 0), (3000, 5000), (4000, 0)]));
}

#[test]
fn simplify_never_grows() {
    let ls = line(&[(0, 0), (500, 40), (1000, 0), (1500, -40), (2000, 0)]);
    for eps in [0i64, 10, 100, 1000, 1_000_000] {
        let out = simplify_line_string(&ls, eps);
        assert!(out.len() <= ls.len());
        assert!(out.len() >= 2);
        assert_eq!(out[0], ls[0]);
        assert_eq!(out[out.len() - 1], ls[ls.len() - 1]);
    }
}

#[test]
fn simplify_is_a_fixed_point() {
    let ls = line(&[(0, 0), (100, 90), (200, 0), (300, 400), (400, 10), (500, 0)]);
    for eps in [0i64, 50, 95, 200, 10_000] {
        let once = simplify_line_string(&ls, eps);
        let twice = simplify_line_string(&once, eps);
        assert_eq!(once, twice);
    }
}

#[test]
fn looser_tolerance_keeps_no_more_points() {
    let ls = line(&[(0, 0), (100, 90), (200, 0), (300, 400), (400, 10), (500, 0)]);
    let mut last_len = usize::MAX;
    for eps in [0i64, 50, 100, 200, 500, 100_000] {
        let out = simplify_line_string(&ls, eps);
        assert!(out.len() <= last_len);
        last_len = out.len();
    }
}

#[test]
fn collinear_interior_points_vanish_at_zero_tolerance() {
    let ls = line(&[(0, 0), (1000, 0), (2000, 0), (3000, 0)]);
    let out = simplify_line_string(&ls, 0);
    assert_eq!(out, line(&[(0, 0), (3000, 0)]));
}

#[test]
fn two_point_line_is_untouched() {
    let ls = line(&[(0, 0), (9, 9)]);
    let out = simplify_line_string(&ls, 1_000_000);
    assert_eq!(out, ls);
}

#[test]
fn simplified_ring_stays_closed_with_four_points() {
    // A square with a nearly-collinear extra vertex on one edge.
    let ring = line(&[(0, 0), (500, 1), (1000, 0), (1000, 1000), (0, 1000), (0, 0)]);
    let out = simplify_ring(&ring, 100);
    assert!(out.len() >= 4);
    assert_eq!(out[0], out[out.len() - 1]);
    assert!(out.len() <= ring.len());
    assert_eq!(out, line(&[(0, 0), (1000, 0), (1000, 1000), (0, 1000), (0, 0)]));
}

#[test]
fn huge_tolerance_falls_back_to_the_original_ring() {
    let ring = line(&[(0, 0), (1000, 0), (1000, 1000), (0, 1000), (0, 0)]);
    let out = simplify_ring(&ring, 1_000_000_000);
    assert_eq!(out, ring);
}

#[test]
fn parse_accepts_plain_and_fractional_text() {
    assert_eq!(parse_epsilon("0.1"), Some(100));
    assert_eq!(parse_epsilon("5"), Some(5000));
    assert_eq!(parse_epsilon(".5"), Some(500));
    assert_eq!(parse_epsilon("5."), Some(5000));
    assert_eq!(parse_epsilon("0.001"), Some(1));
    assert_eq!(parse_epsilon("12.34"), Some(12340));
    assert_eq!(parse_epsilon("1000000"), Some(1_000_000_000));
    assert_eq!(parse_epsilon("0000.25"), Some(250));
}

#[test]
fn parse_rejects_malformed_or_oversized_text() {
    assert_eq!(parse_epsilon("abc"), None);
    assert_eq!(parse_epsilon(""), None);
    assert_eq!(parse_epsilon("."), None);
    assert_eq!(parse_epsilon("-1"), None);
    assert_eq!(parse_epsilon("1.2345"), None);
    assert_eq!(parse_epsilon("1e3"), None);
    assert_eq!(parse_epsilon("1 0"), None);
    assert_eq!(parse_epsilon("1..0"), None);
    assert_eq!(parse_epsilon("1000001"), None);
    assert_eq!(parse_epsilon("1000000.001"), None);
}

#[test]
fn well_formedness_checker_matches_the_data() {
    let good = FeatureCollection {
        features: vec![Feature {
            geometry: GeometryNode::Polygon(PolygonGeom {
                exterior: line(&[(0, 0), (10, 0), (10, 10), (0, 0)]),
                interiors: vec![],
            }),
            properties: vec![],
        }],
    };
    assert!(rgis::geom::is_well_formed(&good));
    let open_ring = FeatureCollection {
        features: vec![Feature {
            geometry: GeometryNode::Polygon(PolygonGeom {
                exterior: line(&[(0, 0), (10, 0), (10, 10), (0, 9)]),
                interiors: vec![],
            }),
            properties: vec![],
        }],
    };
    assert!(!rgis::geom::is_well_formed(&open_ring));
    let short_line = FeatureCollection {
        features: vec![Feature {
            geometry: GeometryNode::LineString(line(&[(0, 0)])),
            properties: vec![],
        }],
    };
    assert!(!rgis::geom::is_well_formed(&short_line));
}
