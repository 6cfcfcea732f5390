use rgis::geom::{Coord, Feature, FeatureCollection, GeometryNode, PolygonGeom, coords_count};
use rgis::kind::{GeomKind, GeomKindMask, observed_kinds};
use rgis::ops::{
    Action, OpState, OperationKind, Outcome, Simplify, UiRender, instantiate, list,
};

fn c(x: i64, y: i64) -> Coord {
    Coord { x, y }
}

fn line(points: &[(i64, i64)]) -> Vec<Coord> {
    points.iter().map(|&(x, y)| c(x, y)).collect()
}

fn feature(geometry: GeometryNode) -> Feature {
    Feature { geometry, properties: vec![] }
}

fn square_ring() -> Vec<Coord> {
    line(&[(0, 0), (1000, 0), (1000, 1000), (0, 1000), (0, 0)])
}

fn sample_line_feature() -> FeatureCollection {
    FeatureCollection {
        features: vec![feature(GeometryNode::LineString(line(&[
            (0, 0),
            (1000, 10),
            (2000, 0),
            (3000, 5000),
            (4000, 0),
        ])))],
    }
}

#[test]
fn registry_lists_the_simplify_operation() {
    let ds = list();
    assert_eq!(ds.len(), 1);
    assert_eq!(ds[0].name, "Simplify geometries");
    assert_eq!(ds[0].kind, OperationKind::Simplify);
    assert!(ds[0].allowed.line_string);
    assert!(ds[0].allowed.multi_line_string);
    assert!(ds[0].allowed.polygon);
    assert!(ds[0].allowed.multi_polygon);
    assert!(!ds[0].allowed.point);
    assert!(!ds[0].allowed.multi_point);
    assert!(!ds[0].allowed.geometry_collection);
}

#[test]
fn dispatch_respects_the_declared_mask() {
    // An operation allowing only LineString and Polygon, run over a
    // collection holding one Point, one MultiPoint, one LineString
    // and one Polygon: exactly the line and the polygon are visited,
    // once each, in input order.
    let mask = GeomKindMask {
        point: false,
        line_string: true,
        polygon: true,
        multi_point: false,
        multi_line_string: false,
        multi_polygon: false,
        geometry_collection: false,
    };
    let mut op = Simplify::new();
    op.allowed = mask;
    op.epsilon = Some(0);
    let input = FeatureCollection {
        features: vec![
            feature(GeometryNode::Point(c(5, 5))),
            feature(GeometryNode::MultiPoint(line(&[(1, 1), (2, 2)]))),
            feature(GeometryNode::LineString(line(&[(0, 0), (1000, 1000), (2000, 0)]))),
            feature(GeometryNode::Polygon(PolygonGeom {
                exterior: square_ring(),
                interiors: vec![],
            })),
        ],
    };
    op.run(&input);
    assert_eq!(op.buffer.len(), 2);
    assert!(matches!(op.buffer[0], GeometryNode::LineString(..)));
    assert!(matches!(op.buffer[1], GeometryNode::Polygon(..)));
}

#[test]
fn dispatcher_recurses_into_nested_collections() {
    let mut op = Simplify::new();
    op.epsilon = Some(0);
    let nested = GeometryNode::GeometryCollection(vec![
        GeometryNode::Point(c(1, 1)),
        GeometryNode::GeometryCollection(vec![GeometryNode::LineString(line(&[
            (0, 0),
            (1000, 1000),
        ]))]),
    ]);
    let input = FeatureCollection { features: vec![feature(nested)] };
    op.run(&input);
    assert_eq!(op.buffer.len(), 1);
    assert!(matches!(op.buffer[0], GeometryNode::LineString(..)));
}

#[test]
fn preview_then_commit_produces_one_wrapped_feature() {
    // Scenario: tolerance text "0.1" over the five-point line;
    // preview drops the near-collinear point, commit wraps the
    // result in a collection inside a single feature.
    let input = sample_line_feature();
    let mut op = instantiate(OperationKind::Simplify);
    let r: UiRender = op.render_parameters("0.1", false, &input);
    assert!(r.parse_ok);
    assert!(r.commit_enabled);
    assert_eq!(r.previous_nodes, 5);
    assert_eq!(r.simplified_nodes, 4);
    assert_eq!(op.state, OpState::PreviewReady);
    assert_eq!(op.next_action(), Action::RenderUi);

    let r2 = op.render_parameters("0.1", true, &input);
    assert!(r2.commit_enabled);
    assert_eq!(op.state, OpState::Committed);
    assert_eq!(op.next_action(), Action::Perform);

    op.run(&input);
    let outcome = op.finalize().unwrap();
    let Outcome::FeatureCollection(out) = outcome;
    assert_eq!(out.features.len(), 1);
    assert!(out.features[0].properties.is_empty());
    match &out.features[0].geometry {
        GeometryNode::GeometryCollection(children) => {
            assert_eq!(children.len(), 1);
            match &children[0] {
                GeometryNode::LineString(l) => {
                    assert_eq!(
                        *l,
                        line(&[(0, 0), (2000, 0), (3000, 5000), (4000, 0)])
                    );
                }
                _ => panic!("expected a line string"),
            }
        }
        _ => panic!("expected a geometry collection"),
    }
    assert_eq!(op.next_action(), Action::RenderUi);
}

#[test]
fn unparseable_text_blocks_commit_forever() {
    // Scenario: tolerance text "abc" never parses; the commit
    // affordance stays disabled and the host keeps rendering.
    let input = sample_line_feature();
    let mut op = instantiate(OperationKind::Simplify);
    for _ in 0..3 {
        let r = op.render_parameters("abc", true, &input);
        assert!(!r.parse_ok);
        assert!(!r.commit_enabled);
        assert_eq!(op.state, OpState::AwaitingParameters);
        assert_eq!(op.next_action(), Action::RenderUi);
    }
    assert!(op.buffer.is_empty());
}

#[test]
fn empty_input_finalizes_to_an_empty_collection() {
    // Scenario: an empty input collection commits cleanly into one
    // feature wrapping an empty collection, not an error.
    let input = FeatureCollection::empty();
    let mut op = instantiate(OperationKind::Simplify);
    op.render_parameters("1", true, &input);
    assert_eq!(op.next_action(), Action::Perform);
    op.run(&input);
    let outcome = op.finalize().unwrap();
    let Outcome::FeatureCollection(out) = outcome;
    assert_eq!(out.features.len(), 1);
    match &out.features[0].geometry {
        GeometryNode::GeometryCollection(children) => assert!(children.is_empty()),
        _ => panic!("expected a geometry collection"),
    }
}

#[test]
fn perform_is_handed_out_exactly_once() {
    let input = sample_line_feature();
    let mut op = instantiate(OperationKind::Simplify);
    assert_eq!(op.next_action(), Action::RenderUi);
    op.render_parameters("0.5", false, &input);
    assert_eq!(op.next_action(), Action::RenderUi);
    op.render_parameters("0.5", true, &input);
    assert_eq!(op.next_action(), Action::Perform);
    assert_eq!(op.next_action(), Action::RenderUi);
    assert_eq!(op.next_action(), Action::RenderUi);
    assert_eq!(op.state, OpState::Committed);
}

#[test]
fn second_finalize_wraps_an_empty_buffer() {
    let input = sample_line_feature();
    let mut op = instantiate(OperationKind::Simplify);
    op.render_parameters("0.1", true, &input);
    op.run(&input);
    let first = op.finalize().unwrap();
    let Outcome::FeatureCollection(fc1) = first;
    assert_eq!(fc1.features.len(), 1);
    let second = op.finalize().unwrap();
    let Outcome::FeatureCollection(fc2) = second;
    match &fc2.features[0].geometry {
        GeometryNode::GeometryCollection(children) => assert!(children.is_empty()),
        _ => panic!("expected a geometry collection"),
    }
}

#[test]
fn polygon_rings_are_simplified_independently_and_stay_closed() {
    let polygon = PolygonGeom {
        exterior: line(&[
            (0, 0),
            (5000, 1),
            (10000, 0),
            (10000, 10000),
            (0, 10000),
            (0, 0),
        ]),
        interiors: vec![line(&[
            (2000, 2000),
            (3000, 2001),
            (4000, 2000),
            (4000, 4000),
            (2000, 4000),
            (2000, 2000),
        ])],
    };
    let input = FeatureCollection {
        features: vec![feature(GeometryNode::Polygon(polygon))],
    };
    let mut op = instantiate(OperationKind::Simplify);
    let r = op.render_parameters("0.1", false, &input);
    assert!(r.parse_ok);
    assert_eq!(op.buffer.len(), 1);
    match &op.buffer[0] {
        GeometryNode::Polygon(p) => {
            assert_eq!(
                p.exterior,
                line(&[(0, 0), (10000, 0), (10000, 10000), (0, 10000), (0, 0)])
            );
            assert_eq!(p.interiors.len(), 1);
            assert_eq!(
                p.interiors[0],
                line(&[
                    (2000, 2000),
                    (4000, 2000),
                    (4000, 4000),
                    (2000, 4000),
                    (2000, 2000),
                ])
            );
            for ring in std::iter::once(&p.exterior).chain(p.interiors.iter()) {
                assert!(ring.len() >= 4);
                assert_eq!(ring[0], ring[ring.len() - 1]);
            }
        }
        _ => panic!("expected a polygon"),
    }
}

#[test]
fn observed_kinds_reports_what_the_collection_holds() {
    let input = FeatureCollection {
        features: vec![
            feature(GeometryNode::Point(c(1, 1))),
            feature(GeometryNode::GeometryCollection(vec![GeometryNode::LineString(line(&[
                (0, 0),
                (5, 5),
            ]))])),
        ],
    };
    let m = observed_kinds(&input);
    assert!(m.allows(GeomKind::Point));
    assert!(m.allows(GeomKind::LineString));
    assert!(m.allows(GeomKind::GeometryCollection));
    assert!(!m.allows(GeomKind::Polygon));
    assert!(!m.allows(GeomKind::MultiPoint));

    let simplify_mask = list()[0].allowed;
    assert!(m.intersects(&simplify_mask));

    let points_only = FeatureCollection {
        features: vec![feature(GeometryNode::Point(c(0, 0)))],
    };
    let m2 = observed_kinds(&points_only);
    assert!(!m2.intersects(&simplify_mask));
}

#[test]
fn mask_union_and_containment() {
    let none = GeomKindMask {
        point: false,
        line_string: false,
        polygon: false,
        multi_point: false,
        multi_line_string: false,
        multi_polygon: false,
        geometry_collection: false,
    };
    let a = none.with(GeomKind::Point);
    let b = none.with(GeomKind::Polygon);
    let u = a.union(b);
    assert!(u.allows(GeomKind::Point));
    assert!(u.allows(GeomKind::Polygon));
    assert!(!u.allows(GeomKind::LineString));
    assert!(!a.intersects(&b));
    assert!(u.intersects(&a));
    assert!(u.intersects(&b));
}

#[test]
fn coordinate_counting_covers_every_kind() {
    let input = FeatureCollection {
        features: vec![
            feature(GeometryNode::Point(c(1, 1))),
            feature(GeometryNode::MultiPoint(line(&[(1, 1), (2, 2)]))),
            feature(GeometryNode::LineString(line(&[(0, 0), (1, 1), (2, 2)]))),
            feature(GeometryNode::MultiLineString(vec![
                line(&[(0, 0), (1, 1)]),
                line(&[(2, 2), (3, 3)]),
            ])),
            feature(GeometryNode::Polygon(PolygonGeom {
                exterior: square_ring(),
                interiors: vec![line(&[(1, 1), (2, 1), (2, 2), (1, 1)])],
            })),
            feature(GeometryNode::GeometryCollection(vec![GeometryNode::Point(c(9, 9))])),
        ],
    };
    // 1 + 2 + 3 + 4 + (5 + 4) + 1
    assert_eq!(coords_count(&input), 20);
}

#[test]
fn catalog_and_fetch_job_metadata() {
    let entries = rgis::catalog::entries();
    assert_eq!(entries.len(), 9);
    assert_eq!(entries[0].name, "USA States");
    assert_eq!(entries[8].name, "NYC Street Centerline (CSCL)");
    assert!(entries.iter().all(|e| e.crs == 4326));
    assert!(entries.iter().all(|e| e.url.starts_with("https://")));

    let job = rgis::network::NetworkFetchJob {
        url: String::from("https://example.invalid/data.geojson"),
        crs_epsg_code: 4326,
        name: String::from("USA States"),
    };
    assert_eq!(job.name(), "Fetching 'USA States'");
}
