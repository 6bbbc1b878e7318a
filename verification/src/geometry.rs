//! Geometries and the polygons read off them.

use crate::coordinate::{same_point, Coordinate};
use vstd::prelude::*;

verus! {

/// One geometry of a placemark.
#[derive(Debug, PartialEq)]
pub enum Geometry {
    /// An area with one outer boundary and any number of holes.
    Polygon { outer: Vec<Coordinate>, inner: Vec<Vec<Coordinate>> },
    /// A path of points.
    LineString(Vec<Coordinate>),
    /// A collection of geometries, nested to any depth.
    MultiGeometry(Vec<Geometry>),
    /// Any geometry that bounds no area here (a point, a model, ...).
    Other,
}

/// A polygon as a list of rings: the outer boundary first, then the holes.
#[derive(Clone, Debug, PartialEq)]
pub struct Polygon {
    pub points: Vec<Vec<Coordinate>>,
}

/// The point sequences of a list of rings.
pub open spec fn ring_views(rings: Seq<Vec<Coordinate>>) -> Seq<Seq<Coordinate>> {
    rings.map_values(|ring: Vec<Coordinate>| ring@)
}

impl View for Polygon {
    type V = Seq<Seq<Coordinate>>;

    open spec fn view(&self) -> Seq<Seq<Coordinate>> {
        ring_views(self.points@)
    }
}

/// The rings of each polygon of a list.
pub open spec fn polygon_views(polygons: Seq<Polygon>) -> Seq<Seq<Seq<Coordinate>>> {
    polygons.map_values(|polygon: Polygon| polygon@)
}

/// The sequence has points, and its first and its last coincide.
pub open spec fn is_closed(points: Seq<Coordinate>) -> bool {
    points.len() > 0 && same_point(points.last(), points.first())
}

/// The sequence itself where it is closed or empty, else the sequence
/// followed by a copy of its first point.
pub open spec fn closed_ring(points: Seq<Coordinate>) -> Seq<Coordinate> {
    if points.len() == 0 || is_closed(points) {
        points
    } else {
        points.push(points.first())
    }
}

/// What a path of points gives: nothing where it has at most two points, else
/// one polygon whose only ring is the closed path.
pub open spec fn ring_polygons(points: Seq<Coordinate>) -> Seq<Seq<Seq<Coordinate>>> {
    if points.len() > 2 {
        seq![seq![closed_ring(points)]]
    } else {
        Seq::empty()
    }
}

/// The points that a member of a collection adds to the collection's path:
/// those of a line string, and none for any other geometry.
pub open spec fn line_points(geom: Geometry) -> Seq<Coordinate> {
    match geom {
        Geometry::LineString(coords) => coords@,
        _ => Seq::empty(),
    }
}

/// The points of the line strings among the first `n` members, in order.
pub open spec fn stitch_buffer(members: Seq<Geometry>, n: nat) -> Seq<Coordinate>
    decreases n,
{
    if n == 0 || n > members.len() {
        Seq::empty()
    } else {
        stitch_buffer(members, (n - 1) as nat) + line_points(members[n - 1])
    }
}

/// The polygons of a geometry, each as its list of rings.
pub open spec fn geometry_polygons(geom: Geometry) -> Seq<Seq<Seq<Coordinate>>>
    decreases geom, 0nat,
{
    match geom {
        Geometry::Polygon { outer, inner } => seq![seq![outer@] + ring_views(inner@)],
        Geometry::LineString(coords) => ring_polygons(coords@),
        Geometry::MultiGeometry(members) => nested_polygons(members@, members@.len())
            + ring_polygons(stitch_buffer(members@, members@.len())),
        Geometry::Other => Seq::empty(),
    }
}

/// The polygons that the first `n` members of a collection give by
/// themselves: those of its polygons and of its nested collections, in order.
/// Line strings give none here; their points go to the collection's path.
pub open spec fn nested_polygons(members: Seq<Geometry>, n: nat) -> Seq<Seq<Seq<Coordinate>>>
    decreases members, n,
{
    if n == 0 || n > members.len() {
        Seq::empty()
    } else {
        nested_polygons(members, (n - 1) as nat) + (match members[n - 1] {
            Geometry::Polygon { .. } | Geometry::MultiGeometry(_) => geometry_polygons(
                members[n - 1],
            ),
            _ => Seq::empty(),
        })
    }
}

/// Copies a sequence of points.
fn copy_ring(ring: &Vec<Coordinate>) -> (copy: Vec<Coordinate>)
    ensures
        copy@ == ring@,
{
    let mut copy: Vec<Coordinate> = Vec::new();
    let mut i: usize = 0;
    while i < ring.len()
        invariant
            i <= ring.len(),
            copy@ == ring@.take(i as int),
        decreases ring.len() - i,
    {
        copy.push(ring[i]);
        assert(ring@.take(i + 1) =~= ring@.take(i as int).push(ring@[i as int]));
        i += 1;
    }
    assert(ring@.take(ring@.len() as int) =~= ring@);
    copy
}

/// Appends the points of `more` to `points`.
fn append_points(points: &mut Vec<Coordinate>, more: &Vec<Coordinate>)
    ensures
        final(points)@ == old(points)@ + more@,
{
    let mut i: usize = 0;
    while i < more.len()
        invariant
            i <= more.len(),
            points@ == old(points)@ + more@.take(i as int),
        decreases more.len() - i,
    {
        points.push(more[i]);
        assert(more@.take(i + 1) =~= more@.take(i as int).push(more@[i as int]));
        assert(points@ =~= old(points)@ + more@.take(i + 1));
        i += 1;
    }
    assert(more@.take(more@.len() as int) =~= more@);
}

/// Closes a path: where its last point does not coincide with its first, on
/// either axis, a copy of the first point is appended. A path without points
/// stays as it is.
pub fn close_ring(points: &mut Vec<Coordinate>)
    ensures
        final(points)@ == closed_ring(old(points)@),
{
    if points.len() > 0 {
        let first: Coordinate = points[0];
        let last: Coordinate = points[points.len() - 1];
        if !last.coincides(&first) {
            points.push(first);
        }
    }
}

/// Turns a path of points into at most one polygon.
pub fn ring_to_polygons(points: Vec<Coordinate>) -> (polygons: Vec<Polygon>)
    ensures
        polygon_views(polygons@) == ring_polygons(points@),
{
    let mut polygons: Vec<Polygon> = Vec::new();
    if points.len() > 2 {
        let mut ring: Vec<Coordinate> = points;
        close_ring(&mut ring);
        let mut rings: Vec<Vec<Coordinate>> = Vec::new();
        rings.push(ring);
        let polygon = Polygon { points: rings };
        assert(polygon@ =~= seq![closed_ring(points@)]);
        polygons.push(polygon);
    }
    assert(polygon_views(polygons@) =~= ring_polygons(points@));
    polygons
}

/// Copies a list of rings.
fn copy_rings(outer: &Vec<Coordinate>, inner: &Vec<Vec<Coordinate>>) -> (rings: Vec<
    Vec<Coordinate>,
>)
    ensures
        ring_views(rings@) == seq![outer@] + ring_views(inner@),
{
    let mut rings: Vec<Vec<Coordinate>> = Vec::new();
    rings.push(copy_ring(outer));
    let mut i: usize = 0;
    while i < inner.len()
        invariant
            i <= inner.len(),
            ring_views(rings@) == seq![outer@] + ring_views(inner@.take(i as int)),
        decreases inner.len() - i,
    {
        let ghost before = rings@;
        rings.push(copy_ring(&inner[i]));
        assert(inner@.take(i + 1) =~= inner@.take(i as int).push(inner@[i as int]));
        assert(ring_views(rings@) =~= ring_views(before).push(inner@[i as int]@));
        assert(ring_views(inner@.take(i + 1)) =~= ring_views(inner@.take(i as int)).push(
            inner@[i as int]@,
        ));
        assert(ring_views(rings@) =~= seq![outer@] + ring_views(inner@.take(i + 1)));
        i += 1;
    }
    assert(inner@.take(inner@.len() as int) =~= inner@);
    rings
}

/// Reads the polygons off one geometry.
///
/// A polygon is handed on with its rings as they are. A line string of more
/// than two points becomes a polygon of one closed ring. A collection gives
/// the polygons of its polygons and nested collections in order, and last the
/// polygon of the path that its own line strings form together.
pub fn extract_data_from_geometry(geom: &Geometry) -> (polygons: Vec<Polygon>)
    ensures
        polygon_views(polygons@) == geometry_polygons(*geom),
    decreases *geom,
{
    match geom {
        Geometry::Polygon { outer, inner } => {
            let mut polygons: Vec<Polygon> = Vec::new();
            let polygon = Polygon { points: copy_rings(outer, inner) };
            polygons.push(polygon);
            assert(polygon_views(polygons@) =~= geometry_polygons(*geom));
            polygons
        },
        Geometry::LineString(coords) => ring_to_polygons(copy_ring(coords)),
        Geometry::MultiGeometry(members) => {
            let mut polygons: Vec<Polygon> = Vec::new();
            let mut buffer: Vec<Coordinate> = Vec::new();
            let mut i: usize = 0;
            assert(polygon_views(polygons@) =~= nested_polygons(members@, 0));
            while i < members.len()
                invariant
                    i <= members.len(),
                    polygon_views(polygons@) == nested_polygons(members@, i as nat),
                    buffer@ == stitch_buffer(members@, i as nat),
                    *geom is MultiGeometry,
                    geom->MultiGeometry_0 == *members,
                decreases members.len() - i,
            {
                match &members[i] {
                    Geometry::LineString(coords) => {
                        append_points(&mut buffer, coords);
                    },
                    Geometry::Polygon { .. } | Geometry::MultiGeometry(_) => {
                        assert(decreases_to!(*geom => geom->MultiGeometry_0));
                        assert(decreases_to!(*members => members[i as int]));
                        let mut found = extract_data_from_geometry(&members[i]);
                        polygons.append(&mut found);
                    },
                    Geometry::Other => {},
                }
                assert(polygon_views(polygons@) =~= nested_polygons(members@, (i + 1) as nat));
                assert(buffer@ =~= stitch_buffer(members@, (i + 1) as nat));
                i += 1;
            }
            let mut stitched = ring_to_polygons(buffer);
            polygons.append(&mut stitched);
            assert(polygon_views(polygons@) =~= geometry_polygons(*geom));
            polygons
        },
        Geometry::Other => {
            let polygons: Vec<Polygon> = Vec::new();
            assert(polygon_views(polygons@) =~= geometry_polygons(*geom));
            polygons
        },
    }
}

/// A polygon gives exactly one polygon: its outer ring first, then its inner
/// rings in their order, every point as it was.
pub proof fn polygon_keeps_its_rings(outer: Vec<Coordinate>, inner: Vec<Vec<Coordinate>>)
    ensures
        geometry_polygons(Geometry::Polygon { outer, inner }).len() == 1,
        geometry_polygons(Geometry::Polygon { outer, inner })[0].len() == inner@.len() + 1,
        geometry_polygons(Geometry::Polygon { outer, inner })[0][0] == outer@,
        forall|k: int|
            0 <= k < inner@.len() ==> #[trigger] geometry_polygons(
                Geometry::Polygon { outer, inner },
            )[0][k + 1] == inner@[k]@,
{
}

/// A path of at most two points bounds no area: it gives no polygon.
pub proof fn short_path_gives_nothing(points: Seq<Coordinate>)
    requires
        points.len() <= 2,
    ensures
        ring_polygons(points) == Seq::<Seq<Seq<Coordinate>>>::empty(),
{
}

/// A line string of at most two points gives no polygon.
pub proof fn short_line_string_gives_nothing(coords: Vec<Coordinate>)
    requires
        coords@.len() <= 2,
    ensures
        geometry_polygons(Geometry::LineString(coords)) == Seq::<Seq<Seq<Coordinate>>>::empty(),
{
}

/// A path of more than two points gives one polygon of one ring. Where the
/// path's ends coincide, the ring is the path. Where they do not, the ring is
/// the path and one more point, which is the path's first.
pub proof fn long_path_gives_closed_ring(points: Seq<Coordinate>)
    requires
        points.len() > 2,
    ensures
        ring_polygons(points).len() == 1,
        ring_polygons(points)[0].len() == 1,
        ring_polygons(points)[0][0].len() >= 3,
        is_closed(points) ==> ring_polygons(points)[0][0] == points,
        !is_closed(points) ==> {
            &&& ring_polygons(points)[0][0].len() == points.len() + 1
            &&& ring_polygons(points)[0][0].take(points.len() as int) == points
            &&& ring_polygons(points)[0][0].last() == points.first()
        },
{
    if !is_closed(points) {
        assert(points.push(points.first()).take(points.len() as int) =~= points);
    }
}

/// A closed ring begins as the path did, and its last point coincides with
/// its first or is a copy of it.
pub proof fn closed_ring_ends_where_it_begins(points: Seq<Coordinate>)
    requires
        points.len() > 0,
    ensures
        closed_ring(points).first() == points.first(),
        is_closed(closed_ring(points)) || closed_ring(points).last() == closed_ring(
            points,
        ).first(),
{
}

/// Closing a ring twice is closing it once, where the first point holds a
/// number on both axes.
pub proof fn closing_twice_is_closing_once(points: Seq<Coordinate>)
    requires
        points.len() > 0,
        same_point(points.first(), points.first()),
    ensures
        is_closed(closed_ring(points)),
        closed_ring(closed_ring(points)) == closed_ring(points),
{
}

/// The line strings of a collection form one path whatever stands between
/// them: a line string, a polygon and a line string give the polygon, and
/// then what the two line strings' points give as one path.
pub proof fn line_strings_stitch_across_polygon(members: Vec<Geometry>)
    requires
        members@.len() == 3,
        members@[0] is LineString,
        members@[1] is Polygon,
        members@[2] is LineString,
    ensures
        geometry_polygons(Geometry::MultiGeometry(members)) == geometry_polygons(members@[1])
            + ring_polygons(line_points(members@[0]) + line_points(members@[2])),
{
    reveal_with_fuel(stitch_buffer, 4);
    reveal_with_fuel(nested_polygons, 4);
    assert(stitch_buffer(members@, 3) =~= line_points(members@[0]) + line_points(members@[2]));
    assert(nested_polygons(members@, 3) =~= geometry_polygons(members@[1]));
}

/// A collection nested between two line strings keeps its own path: the outer
/// collection gives what the nested one gives by itself, and then what the
/// two line strings' points give as one path.
pub proof fn nested_collection_keeps_its_path(members: Vec<Geometry>)
    requires
        members@.len() == 3,
        members@[0] is LineString,
        members@[1] is MultiGeometry,
        members@[2] is LineString,
    ensures
        geometry_polygons(Geometry::MultiGeometry(members)) == geometry_polygons(members@[1])
            + ring_polygons(line_points(members@[0]) + line_points(members@[2])),
{
    reveal_with_fuel(stitch_buffer, 4);
    reveal_with_fuel(nested_polygons, 4);
    assert(stitch_buffer(members@, 3) =~= line_points(members@[0]) + line_points(members@[2]));
    assert(nested_polygons(members@, 3) =~= geometry_polygons(members@[1]));
}

/// The path of the first `n` members depends on those members alone.
proof fn stitch_buffer_of_prefix(a: Seq<Geometry>, b: Seq<Geometry>, n: nat)
    requires
        n <= a.len(),
        n <= b.len(),
        forall|i: int| 0 <= i < n ==> a[i] == b[i],
    ensures
        stitch_buffer(a, n) == stitch_buffer(b, n),
    decreases n,
{
    if n > 0 {
        stitch_buffer_of_prefix(a, b, (n - 1) as nat);
    }
}

/// The path of a collection is made member by member: that of one list of
/// members followed by another is the path of the first list followed by the
/// path of the second. Members that are no line strings add nothing to it,
/// wherever they stand.
pub proof fn stitch_buffer_of_concatenation(a: Seq<Geometry>, b: Seq<Geometry>, n: nat)
    requires
        n <= b.len(),
    ensures
        stitch_buffer(a + b, a.len() + n) == stitch_buffer(a, a.len()) + stitch_buffer(b, n),
    decreases n,
{
    if n == 0 {
        stitch_buffer_of_prefix(a + b, a, a.len());
        assert(stitch_buffer(a, a.len()) + stitch_buffer(b, 0) =~= stitch_buffer(a, a.len()));
    } else {
        stitch_buffer_of_concatenation(a, b, (n - 1) as nat);
        assert((a + b)[a.len() + n - 1] == b[n - 1]);
        assert(stitch_buffer(a + b, a.len() + n) =~= stitch_buffer(a, a.len()) + stitch_buffer(
            b,
            n,
        ));
    }
}

/// A member that is no line string leaves the collection's path as it is
/// without that member, wherever it stands among the line strings: a polygon
/// between two fragments does not part them, and a nested collection keeps
/// its own line strings to itself.
pub proof fn other_member_leaves_the_path(
    before: Seq<Geometry>,
    member: Geometry,
    after: Seq<Geometry>,
)
    requires
        !(member is LineString),
    ensures
        stitch_buffer(before + seq![member] + after, before.len() + 1 + after.len())
            == stitch_buffer(before + after, before.len() + after.len()),
{
    stitch_buffer_of_concatenation(before + seq![member], after, after.len());
    stitch_buffer_of_concatenation(before, seq![member], 1);
    stitch_buffer_of_concatenation(before, after, after.len());
    reveal_with_fuel(stitch_buffer, 2);
    assert(stitch_buffer(seq![member], 1) =~= Seq::<Coordinate>::empty());
    assert(stitch_buffer(before, before.len()) + Seq::<Coordinate>::empty() =~= stitch_buffer(
        before,
        before.len(),
    ));
}

/// The polygons of the first `n` members depend on those members alone.
proof fn nested_polygons_of_prefix(a: Seq<Geometry>, b: Seq<Geometry>, n: nat)
    requires
        n <= a.len(),
        n <= b.len(),
        forall|i: int| 0 <= i < n ==> a[i] == b[i],
    ensures
        nested_polygons(a, n) == nested_polygons(b, n),
    decreases n,
{
    if n > 0 {
        nested_polygons_of_prefix(a, b, (n - 1) as nat);
    }
}

/// The members of a collection give their polygons in the members' order:
/// one list of members followed by another gives the polygons of the first
/// list followed by those of the second.
pub proof fn nested_polygons_of_concatenation(a: Seq<Geometry>, b: Seq<Geometry>, n: nat)
    requires
        n <= b.len(),
    ensures
        nested_polygons(a + b, a.len() + n) == nested_polygons(a, a.len()) + nested_polygons(
            b,
            n,
        ),
    decreases n,
{
    if n == 0 {
        nested_polygons_of_prefix(a + b, a, a.len());
        assert(nested_polygons(a, a.len()) + nested_polygons(b, 0) =~= nested_polygons(
            a,
            a.len(),
        ));
    } else {
        nested_polygons_of_concatenation(a, b, (n - 1) as nat);
        assert((a + b)[a.len() + n - 1] == b[n - 1]);
        assert(nested_polygons(a + b, a.len() + n) =~= nested_polygons(a, a.len())
            + nested_polygons(b, n));
    }
}

/// Why an extraction gave up.
#[derive(Clone, Copy, Debug, PartialEq, Eq)]
pub enum ExtractError {
    /// The input nests deeper than the caller's limit.
    RecursionLimitExceeded,
}

/// How deep collections nest in a geometry: nothing for a geometry that is
/// no collection, and for a collection one more than its deepest member.
pub open spec fn geometry_depth(geom: Geometry) -> nat
    decreases geom, 0nat,
{
    match geom {
        Geometry::MultiGeometry(members) => 1 + members_depth(members@, members@.len()),
        _ => 0,
    }
}

/// The depth of the deepest among the first `n` members.
pub open spec fn members_depth(members: Seq<Geometry>, n: nat) -> nat
    decreases members, n,
{
    if n == 0 || n > members.len() {
        0
    } else if members_depth(members, (n - 1) as nat) >= geometry_depth(members[n - 1]) {
        members_depth(members, (n - 1) as nat)
    } else {
        geometry_depth(members[n - 1])
    }
}

/// No member is deeper than the deepest.
pub proof fn member_depth_is_bounded(members: Seq<Geometry>, k: int, n: nat)
    requires
        0 <= k < n <= members.len(),
    ensures
        geometry_depth(members[k]) <= members_depth(members, n),
    decreases n,
{
    if k < n - 1 {
        member_depth_is_bounded(members, k, (n - 1) as nat);
    }
}

/// Reads the polygons off one geometry, entering at most `limit` collections
/// one inside the other.
///
/// Within the limit the result is that of `extract_data_from_geometry`; a
/// geometry that nests deeper is refused.
pub fn extract_data_from_geometry_within(geom: &Geometry, limit: usize) -> (result: Result<
    Vec<Polygon>,
    ExtractError,
>)
    ensures
        geometry_depth(*geom) <= limit ==> result is Ok && polygon_views(result->Ok_0@)
            == geometry_polygons(*geom),
        geometry_depth(*geom) > limit ==> result == Err::<Vec<Polygon>, ExtractError>(
            ExtractError::RecursionLimitExceeded,
        ),
    decreases *geom,
{
    match geom {
        Geometry::MultiGeometry(members) => {
            if limit == 0 {
                return Err(ExtractError::RecursionLimitExceeded);
            }
            let mut polygons: Vec<Polygon> = Vec::new();
            let mut buffer: Vec<Coordinate> = Vec::new();
            let mut i: usize = 0;
            assert(polygon_views(polygons@) =~= nested_polygons(members@, 0));
            while i < members.len()
                invariant
                    i <= members.len(),
                    limit > 0,
                    polygon_views(polygons@) == nested_polygons(members@, i as nat),
                    buffer@ == stitch_buffer(members@, i as nat),
                    members_depth(members@, i as nat) < limit,
                    *geom is MultiGeometry,
                    geom->MultiGeometry_0 == *members,
                decreases members.len() - i,
            {
                match &members[i] {
                    Geometry::LineString(coords) => {
                        append_points(&mut buffer, coords);
                    },
                    Geometry::Polygon { .. } | Geometry::MultiGeometry(_) => {
                        assert(decreases_to!(*geom => geom->MultiGeometry_0));
                        assert(decreases_to!(*members => members[i as int]));
                        match extract_data_from_geometry_within(&members[i], limit - 1) {
                            Ok(mut found) => {
                                polygons.append(&mut found);
                            },
                            Err(error) => {
                                proof {
                                    member_depth_is_bounded(
                                        members@,
                                        i as int,
                                        members@.len(),
                                    );
                                }
                                return Err(error);
                            },
                        }
                    },
                    Geometry::Other => {},
                }
                assert(polygon_views(polygons@) =~= nested_polygons(members@, (i + 1) as nat));
                assert(buffer@ =~= stitch_buffer(members@, (i + 1) as nat));
                assert(geometry_depth(members@[i as int]) < limit);
                assert(members_depth(members@, (i + 1) as nat) < limit);
                i += 1;
            }
            let mut stitched = ring_to_polygons(buffer);
            polygons.append(&mut stitched);
            assert(polygon_views(polygons@) =~= geometry_polygons(*geom));
            Ok(polygons)
        },
        _ => Ok(extract_data_from_geometry(geom)),
    }
}

} // verus!
