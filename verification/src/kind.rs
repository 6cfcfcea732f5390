use vstd::prelude::*;

use crate::geom::GeometryNode;

verus! {

/// The closed set of geometry kinds.
#[derive(Clone, Copy, PartialEq, Eq, Structural, Debug)]
pub enum GeomKind {
    Point,
    LineString,
    Polygon,
    MultiPoint,
    MultiLineString,
    MultiPolygon,
    GeometryCollection,
}

/// A set of geometry kinds, used both as an operation's declared
/// capability and as the set of kinds observed in a collection.
#[derive(Clone, Copy, PartialEq, Eq, Structural, Debug)]
pub struct GeomKindMask {
    pub point: bool,
    pub line_string: bool,
    pub polygon: bool,
    pub multi_point: bool,
    pub multi_line_string: bool,
    pub multi_polygon: bool,
    pub geometry_collection: bool,
}

impl GeomKindMask {
    pub open spec fn spec_allows(self, k: GeomKind) -> bool {
        match k {
            GeomKind::Point => self.point,
            GeomKind::LineString => self.line_string,
            GeomKind::Polygon => self.polygon,
            GeomKind::MultiPoint => self.multi_point,
            GeomKind::MultiLineString => self.multi_line_string,
            GeomKind::MultiPolygon => self.multi_polygon,
            GeomKind::GeometryCollection => self.geometry_collection,
        }
    }

    /// The mask that allows no kind at all.
    pub fn none() -> (m: GeomKindMask)
        ensures
            forall|k: GeomKind| !m.spec_allows(k),
    {
        GeomKindMask {
            point: false,
            line_string: false,
            polygon: false,
            multi_point: false,
            multi_line_string: false,
            multi_polygon: false,
            geometry_collection: false,
        }
    }

    pub fn allows(&self, k: GeomKind) -> (b: bool)
        ensures
            b == self.spec_allows(k),
    {
        match k {
            GeomKind::Point => self.point,
            GeomKind::LineString => self.line_string,
            GeomKind::Polygon => self.polygon,
            GeomKind::MultiPoint => self.multi_point,
            GeomKind::MultiLineString => self.multi_line_string,
            GeomKind::MultiPolygon => self.multi_polygon,
            GeomKind::GeometryCollection => self.geometry_collection,
        }
    }

    /// The same mask with one more kind allowed.
    pub fn with(self, k: GeomKind) -> (m: GeomKindMask)
        ensures
            forall|j: GeomKind| m.spec_allows(j) == (j == k || self.spec_allows(j)),
    {
        let mut m = self;
        match k {
            GeomKind::Point => m.point = true,
            GeomKind::LineString => m.line_string = true,
            GeomKind::Polygon => m.polygon = true,
            GeomKind::MultiPoint => m.multi_point = true,
            GeomKind::MultiLineString => m.multi_line_string = true,
            GeomKind::MultiPolygon => m.multi_polygon = true,
            GeomKind::GeometryCollection => m.geometry_collection = true,
        }
        m
    }

    /// Kind-set union.
    pub fn union(self, o: GeomKindMask) -> (m: GeomKindMask)
        ensures
            forall|k: GeomKind| m.spec_allows(k) == (self.spec_allows(k) || o.spec_allows(k)),
    {
        GeomKindMask {
            point: self.point || o.point,
            line_string: self.line_string || o.line_string,
            polygon: self.polygon || o.polygon,
            multi_point: self.multi_point || o.multi_point,
            multi_line_string: self.multi_line_string || o.multi_line_string,
            multi_polygon: self.multi_polygon || o.multi_polygon,
            geometry_collection: self.geometry_collection || o.geometry_collection,
        }
    }

    /// Do the two masks share at least one kind?
    pub fn intersects(&self, o: &GeomKindMask) -> (b: bool)
        ensures
            b == exists|k: GeomKind| self.spec_allows(k) && o.spec_allows(k),
    {
        let b = (self.point && o.point) || (self.line_string && o.line_string) || (self.polygon
            && o.polygon) || (self.multi_point && o.multi_point) || (self.multi_line_string
            && o.multi_line_string) || (self.multi_polygon && o.multi_polygon)
            || (self.geometry_collection && o.geometry_collection);
        proof {
            if b {
                if self.point && o.point {
                    assert(self.spec_allows(GeomKind::Point) && o.spec_allows(GeomKind::Point));
                } else if self.line_string && o.line_string {
                    assert(self.spec_allows(GeomKind::LineString) && o.spec_allows(
                        GeomKind::LineString,
                    ));
                } else if self.polygon && o.polygon {
                    assert(self.spec_allows(GeomKind::Polygon) && o.spec_allows(GeomKind::Polygon));
                } else if self.multi_point && o.multi_point {
                    assert(self.spec_allows(GeomKind::MultiPoint) && o.spec_allows(
                        GeomKind::MultiPoint,
                    ));
                } else if self.multi_line_string && o.multi_line_string {
                    assert(self.spec_allows(GeomKind::MultiLineString) && o.spec_allows(
                        GeomKind::MultiLineString,
                    ));
                } else if self.multi_polygon && o.multi_polygon {
                    assert(self.spec_allows(GeomKind::MultiPolygon) && o.spec_allows(
                        GeomKind::MultiPolygon,
                    ));
                } else {
                    assert(self.spec_allows(GeomKind::GeometryCollection) && o.spec_allows(
                        GeomKind::GeometryCollection,
                    ));
                }
            } else {
                assert forall|k: GeomKind| !(self.spec_allows(k) && o.spec_allows(k)) by {
                    match k {
                        GeomKind::Point => {},
                        GeomKind::LineString => {},
                        GeomKind::Polygon => {},
                        GeomKind::MultiPoint => {},
                        GeomKind::MultiLineString => {},
                        GeomKind::MultiPolygon => {},
                        GeomKind::GeometryCollection => {},
                    }
                }
            }
        }
        b
    }
}

impl GeometryNode {
    /// The kind tag of the node itself.
    pub open spec fn spec_kind(self) -> GeomKind {
        match self {
            GeometryNode::Point(..) => GeomKind::Point,
            GeometryNode::LineString(..) => GeomKind::LineString,
            GeometryNode::Polygon(..) => GeomKind::Polygon,
            GeometryNode::MultiPoint(..) => GeomKind::MultiPoint,
            GeometryNode::MultiLineString(..) => GeomKind::MultiLineString,
            GeometryNode::MultiPolygon(..) => GeomKind::MultiPolygon,
            GeometryNode::GeometryCollection(..) => GeomKind::GeometryCollection,
        }
    }

    pub fn kind(&self) -> (k: GeomKind)
        ensures
            k == self.spec_kind(),
    {
        match self {
            GeometryNode::Point(..) => GeomKind::Point,
            GeometryNode::LineString(..) => GeomKind::LineString,
            GeometryNode::Polygon(..) => GeomKind::Polygon,
            GeometryNode::MultiPoint(..) => GeomKind::MultiPoint,
            GeometryNode::MultiLineString(..) => GeomKind::MultiLineString,
            GeometryNode::MultiPolygon(..) => GeomKind::MultiPolygon,
            GeometryNode::GeometryCollection(..) => GeomKind::GeometryCollection,
        }
    }
}

impl GeometryNode {
    /// Is kind k observed anywhere in this geometry tree?  A
    /// collection observes its own kind and everything its children
    /// observe.
    pub open spec fn observes(self, k: GeomKind) -> bool
        decreases self,
    {
        match self {
            GeometryNode::GeometryCollection(gs) => k == GeomKind::GeometryCollection || exists|
                i: int,
            | 0 <= i < gs@.len() && (#[trigger] gs@[i]).observes(k),
            _ => k == self.spec_kind(),
        }
    }
}

/// Is kind k observed in any feature of the collection?
pub open spec fn collection_observes(fc: crate::geom::FeatureCollection, k: GeomKind) -> bool {
    exists|i: int|
        0 <= i < fc.features@.len() && (#[trigger] fc.features@[i]).geometry.observes(k)
}

/// The kinds observed in one geometry tree.
pub fn observed_kinds_node(g: &GeometryNode) -> (m: GeomKindMask)
    ensures
        forall|k: GeomKind| #[trigger] m.spec_allows(k) == g.observes(k),
    decreases g,
{
    match g {
        GeometryNode::GeometryCollection(gs) => {
            proof {
                assert(decreases_to!(*g => *gs));
            }
            let mut m = GeomKindMask::none().with(GeomKind::GeometryCollection);
            let mut j: usize = 0;
            while j < gs.len()
                invariant
                    0 <= j <= gs@.len(),
                    decreases_to!(*g => *gs),
                    forall|k: GeomKind| #[trigger]
                        m.spec_allows(k) == (k == GeomKind::GeometryCollection || exists|i: int|
                            0 <= i < j && (#[trigger] gs@[i]).observes(k)),
                decreases gs@.len() - j,
            {
                proof {
                    vstd::std_specs::vec::axiom_vec_decreases_to_view(*gs);
                    vstd::seq::axiom_seq_index_decreases(gs@, j as int);
                    assert(decreases_to!(*g => gs@[j as int]));
                }
                let child = observed_kinds_node(&gs[j]);
                let merged = m.union(child);
                proof {
                    assert forall|k: GeomKind| #[trigger]
                        merged.spec_allows(k) == (k == GeomKind::GeometryCollection || exists|
                            i: int,
                        | 0 <= i < j + 1 && (#[trigger] gs@[i]).observes(k)) by {
                        if merged.spec_allows(k) {
                            if !(k == GeomKind::GeometryCollection) {
                                if m.spec_allows(k) {
                                } else {
                                    assert(gs@[j as int].observes(k));
                                }
                            }
                        } else {
                            assert(!m.spec_allows(k));
                            assert(!child.spec_allows(k));
                        }
                    }
                }
                m = merged;
                j += 1;
            }
            m
        },
        _ => {
            let k = g.kind();
            GeomKindMask::none().with(k)
        },
    }
}

/// The kinds observed across a whole feature collection; the host
/// offers an operation when this mask intersects the operation's
/// declared mask.
pub fn observed_kinds(fc: &crate::geom::FeatureCollection) -> (m: GeomKindMask)
    ensures
        forall|k: GeomKind| #[trigger] m.spec_allows(k) == collection_observes(*fc, k),
{
    let mut m = GeomKindMask::none();
    let mut j: usize = 0;
    while j < fc.features.len()
        invariant
            0 <= j <= fc.features@.len(),
            forall|k: GeomKind| #[trigger]
                m.spec_allows(k) == exists|i: int|
                    0 <= i < j && (#[trigger] fc.features@[i]).geometry.observes(k),
        decreases fc.features@.len() - j,
    {
        let child = observed_kinds_node(&fc.features[j].geometry);
        let merged = m.union(child);
        proof {
            assert forall|k: GeomKind| #[trigger]
                merged.spec_allows(k) == exists|i: int|
                    0 <= i < j + 1 && (#[trigger] fc.features@[i]).geometry.observes(k) by {
                if merged.spec_allows(k) {
                    if m.spec_allows(k) {
                    } else {
                        assert(fc.features@[j as int].geometry.observes(k));
                    }
                } else {
                    assert(!m.spec_allows(k));
                    assert(!child.spec_allows(k));
                }
            }
        }
        m = merged;
        j += 1;
    }
    m
}

} // verus!
