use kml_polygonizer::coordinate::{numbers_equal, Coordinate};
use kml_polygonizer::document::{
    extract_data_from_kml, extract_data_from_kml_within, polygonize_kml, polygonize_kml_within,
    DocumentNode,
};
use kml_polygonizer::geometry::{
    close_ring, extract_data_from_geometry, extract_data_from_geometry_within, ring_to_polygons,
    ExtractError, Geometry, Polygon,
};

fn pt(x: f64, y: f64) -> Coordinate {
    Coordinate::new(x.to_bits(), y.to_bits())
}

fn ring(points: &[(f64, f64)]) -> Vec<Coordinate> {
    points.iter().map(|p| pt(p.0, p.1)).collect()
}

fn floats(polygon: &Polygon) -> Vec<Vec<(f64, f64)>> {
    polygon
        .points
        .iter()
        .map(|r| r.iter().map(|c| (f64::from_bits(c.x), f64::from_bits(c.y))).collect())
        .collect()
}

fn square() -> Vec<Coordinate> {
    ring(&[(0.0, 0.0), (4.0, 0.0), (4.0, 4.0), (0.0, 4.0), (0.0, 0.0)])
}

fn hole() -> Vec<Coordinate> {
    ring(&[(1.0, 1.0), (2.0, 1.0), (2.0, 2.0), (1.0, 1.0)])
}

#[test]
fn polygon_is_handed_on_with_its_rings() {
    let second_hole = ring(&[(3.0, 3.0), (3.5, 3.0), (3.5, 3.5), (3.0, 3.0)]);
    let geom = Geometry::Polygon { outer: square(), inner: vec![hole(), second_hole.clone()] };
    let out = extract_data_from_geometry(&geom);
    assert_eq!(out, vec![Polygon { points: vec![square(), hole(), second_hole] }]);
}

#[test]
fn polygon_rings_are_not_closed_or_checked() {
    let open = ring(&[(0.0, 0.0), (1.0, 0.0)]);
    let geom = Geometry::Polygon { outer: open.clone(), inner: vec![] };
    let out = extract_data_from_geometry(&geom);
    assert_eq!(out, vec![Polygon { points: vec![open] }]);
}

#[test]
fn line_string_without_points_gives_nothing() {
    let out = extract_data_from_geometry(&Geometry::LineString(vec![]));
    assert_eq!(out, vec![]);
}

#[test]
fn line_string_of_one_point_gives_nothing() {
    let out = extract_data_from_geometry(&Geometry::LineString(ring(&[(1.0, 2.0)])));
    assert_eq!(out, vec![]);
}

#[test]
fn line_string_of_two_points_gives_nothing() {
    let out = extract_data_from_geometry(&Geometry::LineString(ring(&[(1.0, 2.0), (3.0, 4.0)])));
    assert_eq!(out, vec![]);
}

#[test]
fn closed_line_string_keeps_its_length() {
    let path = ring(&[(0.0, 0.0), (1.0, 0.0), (1.0, 1.0), (0.0, 0.0)]);
    let out = extract_data_from_geometry(&Geometry::LineString(path.clone()));
    assert_eq!(out, vec![Polygon { points: vec![path] }]);
}

#[test]
fn open_line_string_gets_its_first_point_appended() {
    let path = ring(&[(0.5, 0.25), (1.0, 0.0), (1.0, 1.0)]);
    let out = extract_data_from_geometry(&Geometry::LineString(path));
    assert_eq!(out.len(), 1);
    assert_eq!(floats(&out[0]), vec![vec![(0.5, 0.25), (1.0, 0.0), (1.0, 1.0), (0.5, 0.25)]]);
}

#[test]
fn ends_that_differ_on_one_axis_only_are_open() {
    let same_x = ring(&[(0.0, 0.0), (1.0, 0.0), (0.0, 1.0)]);
    let out = extract_data_from_geometry(&Geometry::LineString(same_x));
    assert_eq!(floats(&out[0]), vec![vec![(0.0, 0.0), (1.0, 0.0), (0.0, 1.0), (0.0, 0.0)]]);
    let same_y = ring(&[(0.0, 0.0), (1.0, 1.0), (1.0, 0.0)]);
    let out = extract_data_from_geometry(&Geometry::LineString(same_y));
    assert_eq!(floats(&out[0]), vec![vec![(0.0, 0.0), (1.0, 1.0), (1.0, 0.0), (0.0, 0.0)]]);
}

#[test]
fn zeros_of_either_sign_close_a_ring() {
    let path = ring(&[(0.0, 0.0), (1.0, 0.0), (1.0, 1.0), (-0.0, -0.0)]);
    let out = extract_data_from_geometry(&Geometry::LineString(path.clone()));
    assert_eq!(out, vec![Polygon { points: vec![path] }]);
}

#[test]
fn not_a_number_never_closes_a_ring() {
    let path = ring(&[(f64::NAN, 0.0), (1.0, 0.0), (1.0, 1.0), (f64::NAN, 0.0)]);
    let out = extract_data_from_geometry(&Geometry::LineString(path.clone()));
    assert_eq!(out.len(), 1);
    assert_eq!(out[0].points.len(), 1);
    assert_eq!(out[0].points[0].len(), 5);
    assert_eq!(out[0].points[0][4], path[0]);
}

#[test]
fn numbers_equal_follows_numeric_equality() {
    let samples = [
        0.0,
        -0.0,
        1.0,
        -1.0,
        1.5,
        f64::MIN_POSITIVE,
        f64::MAX,
        f64::INFINITY,
        f64::NEG_INFINITY,
        f64::NAN,
        -f64::NAN,
        5e-324,
    ];
    for a in samples {
        for b in samples {
            assert_eq!(numbers_equal(a.to_bits(), b.to_bits()), a == b);
        }
    }
}

#[test]
fn coincides_needs_both_axes() {
    assert!(pt(1.0, 2.0).coincides(&pt(1.0, 2.0)));
    assert!(!pt(1.0, 2.0).coincides(&pt(1.0, 3.0)));
    assert!(!pt(1.0, 2.0).coincides(&pt(0.0, 2.0)));
    assert!(pt(0.0, -0.0).coincides(&pt(-0.0, 0.0)));
}

#[test]
fn close_ring_appends_only_when_open() {
    let mut open = ring(&[(0.0, 0.0), (1.0, 0.0)]);
    close_ring(&mut open);
    assert_eq!(open, ring(&[(0.0, 0.0), (1.0, 0.0), (0.0, 0.0)]));
    close_ring(&mut open);
    assert_eq!(open, ring(&[(0.0, 0.0), (1.0, 0.0), (0.0, 0.0)]));
    let mut single = ring(&[(7.0, 8.0)]);
    close_ring(&mut single);
    assert_eq!(single, ring(&[(7.0, 8.0)]));
    let mut none: Vec<Coordinate> = vec![];
    close_ring(&mut none);
    assert_eq!(none, vec![]);
}

#[test]
fn ring_to_polygons_needs_more_than_two_points() {
    assert_eq!(ring_to_polygons(ring(&[(0.0, 0.0), (1.0, 0.0)])), vec![]);
    assert_eq!(
        ring_to_polygons(ring(&[(0.0, 0.0), (1.0, 0.0), (1.0, 1.0)])),
        vec![Polygon { points: vec![ring(&[(0.0, 0.0), (1.0, 0.0), (1.0, 1.0), (0.0, 0.0)])] }]
    );
}

#[test]
fn line_strings_are_stitched_into_one_closed_ring() {
    let geom = Geometry::MultiGeometry(vec![
        Geometry::LineString(ring(&[(0.0, 0.0), (1.0, 0.0)])),
        Geometry::LineString(ring(&[(1.0, 1.0), (0.0, 1.0)])),
    ]);
    let out = extract_data_from_geometry(&geom);
    assert_eq!(
        out,
        vec![Polygon {
            points: vec![ring(&[(0.0, 0.0), (1.0, 0.0), (1.0, 1.0), (0.0, 1.0), (0.0, 0.0)])]
        }]
    );
}

#[test]
fn stitched_ring_comes_after_sibling_polygons() {
    let geom = Geometry::MultiGeometry(vec![
        Geometry::LineString(ring(&[(10.0, 10.0), (11.0, 10.0)])),
        Geometry::Polygon { outer: square(), inner: vec![hole()] },
        Geometry::LineString(ring(&[(11.0, 11.0), (10.0, 10.0)])),
    ]);
    let out = extract_data_from_geometry(&geom);
    assert_eq!(
        out,
        vec![
            Polygon { points: vec![square(), hole()] },
            Polygon { points: vec![ring(&[(10.0, 10.0), (11.0, 10.0), (11.0, 11.0), (10.0, 10.0)])] },
        ]
    );
}

#[test]
fn short_stitch_buffer_gives_no_polygon() {
    let geom = Geometry::MultiGeometry(vec![
        Geometry::LineString(ring(&[(0.0, 0.0)])),
        Geometry::Other,
        Geometry::LineString(ring(&[(1.0, 0.0)])),
    ]);
    assert_eq!(extract_data_from_geometry(&geom), vec![]);
}

#[test]
fn nested_collection_has_its_own_stitch_buffer() {
    let inner = Geometry::MultiGeometry(vec![
        Geometry::LineString(ring(&[(5.0, 5.0), (6.0, 5.0)])),
        Geometry::LineString(ring(&[(6.0, 6.0)])),
    ]);
    let geom = Geometry::MultiGeometry(vec![
        Geometry::LineString(ring(&[(0.0, 0.0), (1.0, 0.0)])),
        inner,
        Geometry::LineString(ring(&[(1.0, 1.0)])),
    ]);
    let out = extract_data_from_geometry(&geom);
    assert_eq!(
        out,
        vec![
            Polygon { points: vec![ring(&[(5.0, 5.0), (6.0, 5.0), (6.0, 6.0), (5.0, 5.0)])] },
            Polygon { points: vec![ring(&[(0.0, 0.0), (1.0, 0.0), (1.0, 1.0), (0.0, 0.0)])] },
        ]
    );
}

#[test]
fn nested_fragments_do_not_complete_the_outer_ring() {
    let inner = Geometry::MultiGeometry(vec![Geometry::LineString(ring(&[(9.0, 9.0)]))]);
    let geom = Geometry::MultiGeometry(vec![
        Geometry::LineString(ring(&[(0.0, 0.0), (1.0, 0.0)])),
        inner,
    ]);
    assert_eq!(extract_data_from_geometry(&geom), vec![]);
}

#[test]
fn other_geometry_gives_nothing() {
    assert_eq!(extract_data_from_geometry(&Geometry::Other), vec![]);
}

#[test]
fn folder_placemarks_come_in_document_order() {
    let p1 = ring(&[(0.0, 0.0), (1.0, 0.0), (1.0, 1.0), (0.0, 0.0)]);
    let p2 = ring(&[(2.0, 2.0), (3.0, 2.0), (3.0, 3.0), (2.0, 2.0)]);
    let doc = DocumentNode::Document(vec![DocumentNode::Folder(vec![
        DocumentNode::Placemark(Some(Geometry::Polygon { outer: p1.clone(), inner: vec![] })),
        DocumentNode::Placemark(Some(Geometry::Polygon { outer: p2.clone(), inner: vec![] })),
    ])]);
    let out = extract_data_from_kml(&doc);
    assert_eq!(out, vec![Polygon { points: vec![p1] }, Polygon { points: vec![p2] }]);
}

#[test]
fn walk_is_depth_first_over_all_containers() {
    let tri = |d: f64| ring(&[(d, 0.0), (d + 1.0, 0.0), (d + 1.0, 1.0), (d, 0.0)]);
    let mark = |d: f64| DocumentNode::Placemark(Some(Geometry::Polygon { outer: tri(d), inner: vec![] }));
    let doc = DocumentNode::DocumentRoot(vec![
        DocumentNode::Other,
        DocumentNode::Document(vec![
            mark(1.0),
            DocumentNode::Folder(vec![mark(2.0), DocumentNode::Placemark(None), mark(3.0)]),
            mark(4.0),
        ]),
        DocumentNode::Folder(vec![]),
        mark(5.0),
    ]);
    let out = polygonize_kml(&doc);
    let expected: Vec<Polygon> =
        [1.0, 2.0, 3.0, 4.0, 5.0].iter().map(|d| Polygon { points: vec![tri(*d)] }).collect();
    assert_eq!(out.polygons, expected);
}

#[test]
fn placemark_line_strings_are_not_stitched_across_placemarks() {
    let doc = DocumentNode::Folder(vec![
        DocumentNode::Placemark(Some(Geometry::LineString(ring(&[(0.0, 0.0), (1.0, 0.0)])))),
        DocumentNode::Placemark(Some(Geometry::LineString(ring(&[(1.0, 1.0), (0.0, 1.0)])))),
    ]);
    assert_eq!(extract_data_from_kml(&doc), vec![]);
}

#[test]
fn placemark_without_geometry_and_other_nodes_give_nothing() {
    assert_eq!(extract_data_from_kml(&DocumentNode::Placemark(None)), vec![]);
    assert_eq!(extract_data_from_kml(&DocumentNode::Other), vec![]);
    assert_eq!(extract_data_from_kml(&DocumentNode::Document(vec![])), vec![]);
}

#[test]
fn geometry_within_limit_matches_unlimited() {
    let leaf = Geometry::LineString(ring(&[(0.0, 0.0), (1.0, 0.0), (1.0, 1.0)]));
    assert_eq!(extract_data_from_geometry_within(&leaf, 0), Ok(extract_data_from_geometry(&leaf)));
    let nested = Geometry::MultiGeometry(vec![
        Geometry::MultiGeometry(vec![Geometry::Polygon { outer: square(), inner: vec![] }]),
        Geometry::LineString(ring(&[(0.0, 0.0), (1.0, 0.0), (1.0, 1.0)])),
    ]);
    let full = extract_data_from_geometry(&nested);
    assert_eq!(full.len(), 2);
    assert_eq!(extract_data_from_geometry_within(&nested, 2), Ok(full));
}

#[test]
fn geometry_beyond_limit_is_refused() {
    let nested = Geometry::MultiGeometry(vec![
        Geometry::Polygon { outer: square(), inner: vec![] },
        Geometry::MultiGeometry(vec![]),
    ]);
    assert_eq!(
        extract_data_from_geometry_within(&nested, 1),
        Err(ExtractError::RecursionLimitExceeded)
    );
    assert_eq!(
        extract_data_from_geometry_within(&nested, 0),
        Err(ExtractError::RecursionLimitExceeded)
    );
}

#[test]
fn document_depth_counts_containers_and_collections() {
    let doc = DocumentNode::DocumentRoot(vec![DocumentNode::Folder(vec![
        DocumentNode::Placemark(Some(Geometry::MultiGeometry(vec![Geometry::Polygon {
            outer: square(),
            inner: vec![],
        }]))),
    ])]);
    let expected = vec![Polygon { points: vec![square()] }];
    assert_eq!(extract_data_from_kml_within(&doc, 3), Ok(expected.clone()));
    assert_eq!(extract_data_from_kml_within(&doc, 2), Err(ExtractError::RecursionLimitExceeded));
    assert_eq!(polygonize_kml_within(&doc, 3).map(|o| o.polygons), Ok(expected));
    assert_eq!(
        polygonize_kml_within(&doc, 0).map(|o| o.polygons),
        Err(ExtractError::RecursionLimitExceeded)
    );
}

#[test]
fn crate_root_offers_the_entry_points() {
    let doc = kml_polygonizer::DocumentNode::Placemark(Some(kml_polygonizer::Geometry::Polygon {
        outer: square(),
        inner: vec![hole()],
    }));
    let out: kml_polygonizer::PolygonizeOutput = kml_polygonizer::polygonize_kml(&doc);
    assert_eq!(out.polygons, vec![kml_polygonizer::Polygon { points: vec![square(), hole()] }]);
}

#[test]
fn stitching_skips_members_that_are_no_line_strings() {
    let a = ring(&[(0.0, 0.0), (1.0, 0.0)]);
    let b = ring(&[(1.0, 1.0), (0.0, 1.0)]);
    let plain = Geometry::MultiGeometry(vec![
        Geometry::LineString(a.clone()),
        Geometry::LineString(b.clone()),
    ]);
    let mixed = Geometry::MultiGeometry(vec![
        Geometry::Other,
        Geometry::LineString(a),
        Geometry::MultiGeometry(vec![Geometry::Other]),
        Geometry::LineString(b),
        Geometry::Other,
    ]);
    let expected = extract_data_from_geometry(&plain);
    assert_eq!(expected.len(), 1);
    assert_eq!(extract_data_from_geometry(&mixed), expected);
}
