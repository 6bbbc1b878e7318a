//! The document tree and the walk that collects its polygons.

use crate::coordinate::Coordinate;
use crate::geometry::{
    extract_data_from_geometry, extract_data_from_geometry_within, geometry_depth,
    geometry_polygons, polygon_views, ExtractError, Geometry, Polygon,
};
use vstd::prelude::*;

verus! {

/// One node of a parsed document.
#[derive(Debug, PartialEq)]
pub enum DocumentNode {
    /// The root element, with the nodes under it.
    DocumentRoot(Vec<DocumentNode>),
    /// A document, with the nodes under it.
    Document(Vec<DocumentNode>),
    /// A folder, with the nodes under it.
    Folder(Vec<DocumentNode>),
    /// A placemark, with its geometry where it has one.
    Placemark(Option<Geometry>),
    /// Any node that bears no geometry (a style, a schema, an overlay, ...).
    Other,
}

/// The polygons of a whole document, in the order of the walk.
#[derive(Clone, Debug, PartialEq)]
pub struct PolygonizeOutput {
    pub polygons: Vec<Polygon>,
}

impl View for PolygonizeOutput {
    type V = Seq<Seq<Seq<Coordinate>>>;

    open spec fn view(&self) -> Seq<Seq<Seq<Coordinate>>> {
        polygon_views(self.polygons@)
    }
}

/// The polygons under a node, depth first, each as its list of rings.
pub open spec fn document_polygons(node: DocumentNode) -> Seq<Seq<Seq<Coordinate>>>
    decreases node, 0nat,
{
    match node {
        DocumentNode::DocumentRoot(elements) => elements_polygons(elements@, elements@.len()),
        DocumentNode::Document(elements) => elements_polygons(elements@, elements@.len()),
        DocumentNode::Folder(elements) => elements_polygons(elements@, elements@.len()),
        DocumentNode::Placemark(Some(geom)) => geometry_polygons(geom),
        DocumentNode::Placemark(None) => Seq::empty(),
        DocumentNode::Other => Seq::empty(),
    }
}

/// The polygons under the first `n` of a container's nodes, in order.
pub open spec fn elements_polygons(elements: Seq<DocumentNode>, n: nat) -> Seq<
    Seq<Seq<Coordinate>>,
>
    decreases elements, n,
{
    if n == 0 || n > elements.len() {
        Seq::empty()
    } else {
        elements_polygons(elements, (n - 1) as nat) + document_polygons(elements[n - 1])
    }
}

/// Collects the polygons under each node of a container, in order.
pub fn extract_data_from_elements(elements: &Vec<DocumentNode>) -> (polygons: Vec<Polygon>)
    ensures
        polygon_views(polygons@) == elements_polygons(elements@, elements@.len()),
    decreases *elements, 1nat,
{
    let mut polygons: Vec<Polygon> = Vec::new();
    let mut i: usize = 0;
    assert(polygon_views(polygons@) =~= elements_polygons(elements@, 0));
    while i < elements.len()
        invariant
            i <= elements.len(),
            polygon_views(polygons@) == elements_polygons(elements@, i as nat),
        decreases elements.len() - i,
    {
        assert(decreases_to!(*elements => elements[i as int]));
        let mut found = extract_data_from_kml(&elements[i]);
        polygons.append(&mut found);
        assert(polygon_views(polygons@) =~= elements_polygons(elements@, (i + 1) as nat));
        i += 1;
    }
    polygons
}

/// Walks a document depth first and collects its polygons.
///
/// A container gives the polygons of its nodes in order, a placemark those of
/// its geometry; a placemark without geometry and any other node give none.
pub fn extract_data_from_kml(kml: &DocumentNode) -> (polygons: Vec<Polygon>)
    ensures
        polygon_views(polygons@) == document_polygons(*kml),
    decreases *kml, 0nat,
{
    match kml {
        DocumentNode::DocumentRoot(elements) => extract_data_from_elements(elements),
        DocumentNode::Document(elements) => extract_data_from_elements(elements),
        DocumentNode::Folder(elements) => extract_data_from_elements(elements),
        DocumentNode::Placemark(Some(geom)) => extract_data_from_geometry(geom),
        DocumentNode::Placemark(None) => {
            let polygons: Vec<Polygon> = Vec::new();
            assert(polygon_views(polygons@) =~= document_polygons(*kml));
            polygons
        },
        DocumentNode::Other => {
            let polygons: Vec<Polygon> = Vec::new();
            assert(polygon_views(polygons@) =~= document_polygons(*kml));
            polygons
        },
    }
}

/// The polygons of a parsed document, in the order of a depth-first walk.
pub fn polygonize_kml(kml: &DocumentNode) -> (output: PolygonizeOutput)
    ensures
        output@ == document_polygons(*kml),
{
    PolygonizeOutput { polygons: extract_data_from_kml(kml) }
}

/// The walk keeps the order of the document: a document that holds one
/// folder of two placemarks gives the polygons of the first placemark's
/// geometry, then those of the second's.
pub proof fn folder_keeps_placemark_order(
    top: Vec<DocumentNode>,
    placemarks: Vec<DocumentNode>,
    first: Geometry,
    second: Geometry,
)
    requires
        top@.len() == 1,
        top@[0] == DocumentNode::Folder(placemarks),
        placemarks@.len() == 2,
        placemarks@[0] == DocumentNode::Placemark(Some(first)),
        placemarks@[1] == DocumentNode::Placemark(Some(second)),
    ensures
        document_polygons(DocumentNode::Document(top)) == geometry_polygons(first)
            + geometry_polygons(second),
{
    reveal_with_fuel(elements_polygons, 3);
    reveal_with_fuel(document_polygons, 3);
    assert(elements_polygons(placemarks@, 2) =~= geometry_polygons(first) + geometry_polygons(
        second,
    ));
    assert(elements_polygons(top@, 1) =~= elements_polygons(placemarks@, 2));
}

/// The polygons under the first `n` nodes depend on those nodes alone.
proof fn elements_polygons_of_prefix(a: Seq<DocumentNode>, b: Seq<DocumentNode>, n: nat)
    requires
        n <= a.len(),
        n <= b.len(),
        forall|i: int| 0 <= i < n ==> a[i] == b[i],
    ensures
        elements_polygons(a, n) == elements_polygons(b, n),
    decreases n,
{
    if n > 0 {
        elements_polygons_of_prefix(a, b, (n - 1) as nat);
    }
}

/// The walk keeps the order of a container's nodes: one list of nodes
/// followed by another gives the polygons under the first list followed by
/// those under the second.
pub proof fn elements_polygons_of_concatenation(
    a: Seq<DocumentNode>,
    b: Seq<DocumentNode>,
    n: nat,
)
    requires
        n <= b.len(),
    ensures
        elements_polygons(a + b, a.len() + n) == elements_polygons(a, a.len())
            + elements_polygons(b, n),
    decreases n,
{
    if n == 0 {
        elements_polygons_of_prefix(a + b, a, a.len());
        assert(elements_polygons(a, a.len()) + elements_polygons(b, 0) =~= elements_polygons(
            a,
            a.len(),
        ));
    } else {
        elements_polygons_of_concatenation(a, b, (n - 1) as nat);
        assert((a + b)[a.len() + n - 1] == b[n - 1]);
        assert(elements_polygons(a + b, a.len() + n) =~= elements_polygons(a, a.len())
            + elements_polygons(b, n));
    }
}

/// A node without geometry adds nothing: a placemark that has none, or a node
/// of any other kind.
pub proof fn bare_node_gives_nothing(node: DocumentNode)
    requires
        node == DocumentNode::Placemark(None) || node == DocumentNode::Other,
    ensures
        document_polygons(node) == Seq::<Seq<Seq<Coordinate>>>::empty(),
{
}

/// How deep a node nests: a container is one deeper than its deepest node, a
/// placemark as deep as its geometry, any other node not at all.
pub open spec fn node_depth(node: DocumentNode) -> nat
    decreases node, 0nat,
{
    match node {
        DocumentNode::DocumentRoot(elements) => 1 + elements_depth(elements@, elements@.len()),
        DocumentNode::Document(elements) => 1 + elements_depth(elements@, elements@.len()),
        DocumentNode::Folder(elements) => 1 + elements_depth(elements@, elements@.len()),
        DocumentNode::Placemark(Some(geom)) => geometry_depth(geom),
        DocumentNode::Placemark(None) => 0,
        DocumentNode::Other => 0,
    }
}

/// The depth of the deepest among the first `n` nodes.
pub open spec fn elements_depth(elements: Seq<DocumentNode>, n: nat) -> nat
    decreases elements, n,
{
    if n == 0 || n > elements.len() {
        0
    } else if elements_depth(elements, (n - 1) as nat) >= node_depth(elements[n - 1]) {
        elements_depth(elements, (n - 1) as nat)
    } else {
        node_depth(elements[n - 1])
    }
}

/// No node is deeper than the deepest.
pub proof fn element_depth_is_bounded(elements: Seq<DocumentNode>, k: int, n: nat)
    requires
        0 <= k < n <= elements.len(),
    ensures
        node_depth(elements[k]) <= elements_depth(elements, n),
    decreases n,
{
    if k < n - 1 {
        element_depth_is_bounded(elements, k, (n - 1) as nat);
    }
}

/// Collects the polygons under each node of a container, in order, going at
/// most `limit` levels down.
pub fn extract_data_from_elements_within(elements: &Vec<DocumentNode>, limit: usize) -> (result:
    Result<Vec<Polygon>, ExtractError>)
    ensures
        elements_depth(elements@, elements@.len()) <= limit ==> result is Ok && polygon_views(
            result->Ok_0@,
        ) == elements_polygons(elements@, elements@.len()),
        elements_depth(elements@, elements@.len()) > limit ==> result == Err::<
            Vec<Polygon>,
            ExtractError,
        >(ExtractError::RecursionLimitExceeded),
    decreases *elements, 1nat,
{
    let mut polygons: Vec<Polygon> = Vec::new();
    let mut i: usize = 0;
    assert(polygon_views(polygons@) =~= elements_polygons(elements@, 0));
    while i < elements.len()
        invariant
            i <= elements.len(),
            polygon_views(polygons@) == elements_polygons(elements@, i as nat),
            elements_depth(elements@, i as nat) <= limit,
        decreases elements.len() - i,
    {
        assert(decreases_to!(*elements => elements[i as int]));
        match extract_data_from_kml_within(&elements[i], limit) {
            Ok(mut found) => {
                polygons.append(&mut found);
            },
            Err(error) => {
                proof {
                    element_depth_is_bounded(elements@, i as int, elements@.len());
                }
                return Err(error);
            },
        }
        assert(polygon_views(polygons@) =~= elements_polygons(elements@, (i + 1) as nat));
        i += 1;
    }
    Ok(polygons)
}

/// Walks a document depth first and collects its polygons, going at most
/// `limit` levels down through containers and collections.
///
/// Within the limit the result is that of `extract_data_from_kml`; a
/// document that nests deeper is refused.
pub fn extract_data_from_kml_within(kml: &DocumentNode, limit: usize) -> (result: Result<
    Vec<Polygon>,
    ExtractError,
>)
    ensures
        node_depth(*kml) <= limit ==> result is Ok && polygon_views(result->Ok_0@)
            == document_polygons(*kml),
        node_depth(*kml) > limit ==> result == Err::<Vec<Polygon>, ExtractError>(
            ExtractError::RecursionLimitExceeded,
        ),
    decreases *kml, 0nat,
{
    match kml {
        DocumentNode::DocumentRoot(elements) | DocumentNode::Document(elements)
        | DocumentNode::Folder(elements) => {
            if limit == 0 {
                Err(ExtractError::RecursionLimitExceeded)
            } else {
                extract_data_from_elements_within(elements, limit - 1)
            }
        },
        DocumentNode::Placemark(Some(geom)) => extract_data_from_geometry_within(geom, limit),
        _ => Ok(extract_data_from_kml(kml)),
    }
}

/// The polygons of a parsed document, in the order of a depth-first walk,
/// unless the document nests deeper than `limit`.
pub fn polygonize_kml_within(kml: &DocumentNode, limit: usize) -> (result: Result<
    PolygonizeOutput,
    ExtractError,
>)
    ensures
        node_depth(*kml) <= limit ==> result is Ok && result->Ok_0@ == document_polygons(*kml),
        node_depth(*kml) > limit ==> result == Err::<PolygonizeOutput, ExtractError>(
            ExtractError::RecursionLimitExceeded,
        ),
{
    match extract_data_from_kml_within(kml, limit) {
        Ok(polygons) => Ok(PolygonizeOutput { polygons }),
        Err(error) => Err(error),
    }
}

} // verus!
