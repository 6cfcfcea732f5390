use vstd::prelude::*;

verus! {

broadcast use vstd::seq::axiom_seq_index_decreases, vstd::std_specs::vec::axiom_vec_decreases_to_view;

/// A planar coordinate in fixed-point units: each axis value counts
/// thousandths of a map unit, so the library needs no floating point.
#[derive(Clone, Copy, PartialEq, Eq, Structural, Debug)]
pub struct Coord {
    pub x: i64,
    pub y: i64,
}

/// Largest magnitude an axis value may have in a well-formed geometry.
pub const COORD_LIMIT: i64 = 1_000_000_000;

impl Coord {
    pub open spec fn in_range(self) -> bool {
        -(COORD_LIMIT as int) <= self.x <= COORD_LIMIT as int
            && -(COORD_LIMIT as int) <= self.y <= COORD_LIMIT as int
    }
}

/// A polygon: one exterior ring and zero or more interior rings.  Each
/// ring is a closed coordinate sequence (first equals last, at least
/// four entries).
pub struct PolygonGeom {
    pub exterior: Vec<Coord>,
    pub interiors: Vec<Vec<Coord>>,
}

/// The closed set of geometry shapes, recursively nestable through
/// `GeometryCollection`.
pub enum GeometryNode {
    Point(Coord),
    LineString(Vec<Coord>),
    Polygon(PolygonGeom),
    MultiPoint(Vec<Coord>),
    MultiLineString(Vec<Vec<Coord>>),
    MultiPolygon(Vec<PolygonGeom>),
    GeometryCollection(Vec<GeometryNode>),
}

pub open spec fn ring_wf(r: Seq<Coord>) -> bool {
    &&& r.len() >= 4
    &&& r[0] == r[r.len() - 1]
    &&& forall|i: int| 0 <= i < r.len() ==> #[trigger] r[i].in_range()
}

pub open spec fn line_wf(l: Seq<Coord>) -> bool {
    &&& l.len() >= 2
    &&& forall|i: int| 0 <= i < l.len() ==> #[trigger] l[i].in_range()
}

impl PolygonGeom {
    pub open spec fn wf(self) -> bool {
        &&& ring_wf(self.exterior@)
        &&& forall|i: int|
            0 <= i < self.interiors@.len() ==> ring_wf(#[trigger] self.interiors@[i]@)
    }
}

impl GeometryNode {
    /// Well-formedness of a geometry tree: coordinates bounded, lines
    /// with at least two points, rings closed with at least four.
    pub open spec fn wf(self) -> bool
        decreases self,
    {
        match self {
            GeometryNode::Point(c) => c.in_range(),
            GeometryNode::LineString(l) => line_wf(l@),
            GeometryNode::Polygon(p) => p.wf(),
            GeometryNode::MultiPoint(cs) => forall|i: int|
                0 <= i < cs@.len() ==> (#[trigger] cs@[i]).in_range(),
            GeometryNode::MultiLineString(ls) => forall|i: int|
                0 <= i < ls@.len() ==> line_wf(#[trigger] ls@[i]@),
            GeometryNode::MultiPolygon(ps) => forall|i: int|
                0 <= i < ps@.len() ==> (#[trigger] ps@[i]).wf(),
            GeometryNode::GeometryCollection(gs) => forall|i: int|
                0 <= i < gs@.len() ==> (#[trigger] gs@[i]).wf(),
        }
    }
}

/// Mathematical model of a polygon: plain sequences of coordinates.
#[verifier::ext_equal]
pub struct PolyModel {
    pub exterior: Seq<Coord>,
    pub interiors: Seq<Seq<Coord>>,
}

/// Mathematical model of a geometry tree.
#[verifier::ext_equal]
pub enum GeomModel {
    Point(Coord),
    LineString(Seq<Coord>),
    Polygon(PolyModel),
    MultiPoint(Seq<Coord>),
    MultiLineString(Seq<Seq<Coord>>),
    MultiPolygon(Seq<PolyModel>),
    GeometryCollection(Seq<GeomModel>),
}

impl PolygonGeom {
    pub open spec fn model(self) -> PolyModel {
        PolyModel {
            exterior: self.exterior@,
            interiors: Seq::new(self.interiors@.len(), |i: int| self.interiors@[i]@),
        }
    }
}

impl GeometryNode {
    /// The models of the first n children, in order.
    pub open spec fn models_upto(gs: Vec<GeometryNode>, n: int) -> Seq<GeomModel>
        decreases gs, n,
        via GeometryNode::models_upto_dec
    {
        if n <= 0 || n > gs@.len() {
            Seq::empty()
        } else {
            GeometryNode::models_upto(gs, n - 1).push(gs@[n - 1].model())
        }
    }

    #[via_fn]
    proof fn models_upto_dec(gs: Vec<GeometryNode>, n: int) {
        if 0 < n <= gs@.len() {
            vstd::std_specs::vec::axiom_vec_decreases_to_view(gs);
            vstd::seq::axiom_seq_index_decreases(gs@, n - 1);
            assert(decreases_to!(gs => gs@[n - 1]));
        }
    }

    pub open spec fn model(self) -> GeomModel
        decreases self, 1int,
    {
        match self {
            GeometryNode::Point(c) => GeomModel::Point(c),
            GeometryNode::LineString(l) => GeomModel::LineString(l@),
            GeometryNode::Polygon(p) => GeomModel::Polygon(p.model()),
            GeometryNode::MultiPoint(cs) => GeomModel::MultiPoint(cs@),
            GeometryNode::MultiLineString(ls) => GeomModel::MultiLineString(
                Seq::new(ls@.len(), |i: int| ls@[i]@),
            ),
            GeometryNode::MultiPolygon(ps) => GeomModel::MultiPolygon(
                Seq::new(ps@.len(), |i: int| ps@[i].model()),
            ),
            GeometryNode::GeometryCollection(gs) => GeomModel::GeometryCollection(
                GeometryNode::models_upto(gs, gs@.len() as int),
            ),
        }
    }
}

/// The models of a buffer of geometry nodes, in buffer order.
pub open spec fn models_of(s: Seq<GeometryNode>) -> Seq<GeomModel> {
    Seq::new(s.len(), |i: int| s[i].model())
}

/// A property value attached to a feature.
pub enum PropValue {
    Null,
    Truth(bool),
    Number(i64),
    Text(String),
}

/// One feature: a geometry plus its keyed properties.
pub struct Feature {
    pub geometry: GeometryNode,
    pub properties: Vec<(String, PropValue)>,
}

/// An ordered sequence of features.
pub struct FeatureCollection {
    pub features: Vec<Feature>,
}

impl Feature {
    pub open spec fn wf(self) -> bool {
        self.geometry.wf()
    }
}

impl FeatureCollection {
    pub open spec fn wf(self) -> bool {
        forall|i: int| 0 <= i < self.features@.len() ==> (#[trigger] self.features@[i]).wf()
    }

    pub fn empty() -> (fc: FeatureCollection)
        ensures
            fc.features@.len() == 0,
            fc.wf(),
    {
        FeatureCollection { features: Vec::new() }
    }
}

/// The children models collected by `models_upto` are exactly the
/// models of the children, in order.
pub proof fn lemma_models_upto(gs: Vec<GeometryNode>, n: int)
    requires
        0 <= n <= gs@.len(),
    ensures
        GeometryNode::models_upto(gs, n).len() == n,
        forall|i: int|
            0 <= i < n ==> #[trigger] GeometryNode::models_upto(gs, n)[i] == gs@[i].model(),
    decreases n,
{
    if n > 0 {
        lemma_models_upto(gs, n - 1);
    }
}

/// Number of coordinates in a geometry tree.
pub open spec fn coord_count(g: GeomModel) -> int
    decreases g,
{
    match g {
        GeomModel::Point(..) => 1,
        GeomModel::LineString(l) => l.len() as int,
        GeomModel::Polygon(p) => poly_coord_count(p),
        GeomModel::MultiPoint(cs) => cs.len() as int,
        GeomModel::MultiLineString(ls) => seq_len_sum(ls),
        GeomModel::MultiPolygon(ps) => poly_count_sum(ps, ps.len() as int),
        GeomModel::GeometryCollection(gs) => coll_count_sum(gs, gs.len() as int),
    }
}

pub open spec fn seq_len_sum(ls: Seq<Seq<Coord>>) -> int
    decreases ls.len(),
{
    if ls.len() == 0 {
        0
    } else {
        seq_len_sum(ls.drop_last()) + ls.last().len() as int
    }
}

pub open spec fn poly_coord_count(p: PolyModel) -> int {
    p.exterior.len() as int + seq_len_sum(p.interiors)
}

pub open spec fn poly_count_sum(ps: Seq<PolyModel>, n: int) -> int
    decreases n,
{
    if n <= 0 {
        0
    } else {
        poly_count_sum(ps, n - 1) + poly_coord_count(ps[n - 1])
    }
}

pub open spec fn coll_count_sum(gs: Seq<GeomModel>, n: int) -> int
    decreases gs, n,
{
    if n <= 0 || n > gs.len() {
        0
    } else {
        coll_count_sum(gs, n - 1) + coord_count(gs[n - 1])
    }
}

fn check_coord(c: Coord) -> (b: bool)
    ensures
        b == c.in_range(),
{
    -COORD_LIMIT <= c.x && c.x <= COORD_LIMIT && -COORD_LIMIT <= c.y && c.y <= COORD_LIMIT
}

fn check_coords(l: &Vec<Coord>) -> (b: bool)
    ensures
        b == forall|i: int| 0 <= i < l@.len() ==> (#[trigger] l@[i]).in_range(),
{
    let mut i: usize = 0;
    while i < l.len()
        invariant
            0 <= i <= l@.len(),
            forall|j: int| 0 <= j < i ==> (#[trigger] l@[j]).in_range(),
        decreases l@.len() - i,
    {
        if !check_coord(l[i]) {
            return false;
        }
        i += 1;
    }
    true
}

fn check_line(l: &Vec<Coord>) -> (b: bool)
    ensures
        b == line_wf(l@),
{
    l.len() >= 2 && check_coords(l)
}

fn check_ring(r: &Vec<Coord>) -> (b: bool)
    ensures
        b == ring_wf(r@),
{
    r.len() >= 4 && r[0] == r[r.len() - 1] && check_coords(r)
}

fn check_polygon(p: &PolygonGeom) -> (b: bool)
    ensures
        b == p.wf(),
{
    if !check_ring(&p.exterior) {
        return false;
    }
    let mut i: usize = 0;
    while i < p.interiors.len()
        invariant
            0 <= i <= p.interiors@.len(),
            ring_wf(p.exterior@),
            forall|j: int| 0 <= j < i ==> ring_wf(#[trigger] p.interiors@[j]@),
        decreases p.interiors@.len() - i,
    {
        if !check_ring(&p.interiors[i]) {
            return false;
        }
        i += 1;
    }
    true
}

/// Decide well-formedness of one geometry tree.
pub fn node_well_formed(g: &GeometryNode) -> (b: bool)
    ensures
        b == g.wf(),
    decreases g,
{
    match g {
        GeometryNode::Point(c) => check_coord(*c),
        GeometryNode::LineString(l) => check_line(l),
        GeometryNode::Polygon(p) => check_polygon(p),
        GeometryNode::MultiPoint(cs) => check_coords(cs),
        GeometryNode::MultiLineString(ls) => {
            let mut i: usize = 0;
            while i < ls.len()
                invariant
                    0 <= i <= ls@.len(),
                    g is MultiLineString,
                    g->MultiLineString_0 == *ls,
                    forall|j: int| 0 <= j < i ==> line_wf(#[trigger] ls@[j]@),
                decreases ls@.len() - i,
            {
                if !check_line(&ls[i]) {
                    proof {
                        assert(!line_wf(ls@[i as int]@));
                        assert(g.wf() ==> line_wf(ls@[i as int]@));
                    }
                    return false;
                }
                i += 1;
            }
            true
        },
        GeometryNode::MultiPolygon(ps) => {
            let mut i: usize = 0;
            while i < ps.len()
                invariant
                    0 <= i <= ps@.len(),
                    g is MultiPolygon,
                    g->MultiPolygon_0 == *ps,
                    forall|j: int| 0 <= j < i ==> (#[trigger] ps@[j]).wf(),
                decreases ps@.len() - i,
            {
                if !check_polygon(&ps[i]) {
                    proof {
                        assert(!(ps@[i as int]).wf());
                        assert(g.wf() ==> (ps@[i as int]).wf());
                    }
                    return false;
                }
                i += 1;
            }
            true
        },
        GeometryNode::GeometryCollection(gs) => {
            proof {
                assert(decreases_to!(*g => *gs));
            }
            let mut i: usize = 0;
            while i < gs.len()
                invariant
                    0 <= i <= gs@.len(),
                    g is GeometryCollection,
                    g->GeometryCollection_0 == *gs,
                    decreases_to!(*g => *gs),
                    forall|j: int| 0 <= j < i ==> (#[trigger] gs@[j]).wf(),
                decreases gs@.len() - i,
            {
                proof {
                    vstd::std_specs::vec::axiom_vec_decreases_to_view(*gs);
                    vstd::seq::axiom_seq_index_decreases(gs@, i as int);
                    assert(decreases_to!(*g => gs@[i as int]));
                }
                if !node_well_formed(&gs[i]) {
                    proof {
                        assert(!(gs@[i as int]).wf());
                        assert(g.wf() ==> (gs@[i as int]).wf());
                    }
                    return false;
                }
                i += 1;
            }
            true
        },
    }
}

/// Decide well-formedness of a whole feature collection.
pub fn is_well_formed(fc: &FeatureCollection) -> (b: bool)
    ensures
        b == fc.wf(),
{
    let mut i: usize = 0;
    while i < fc.features.len()
        invariant
            0 <= i <= fc.features@.len(),
            forall|j: int| 0 <= j < i ==> (#[trigger] fc.features@[j]).wf(),
        decreases fc.features@.len() - i,
    {
        if !node_well_formed(&fc.features[i].geometry) {
            return false;
        }
        i += 1;
    }
    true
}

/// Coordinate count of the first n features.
pub open spec fn features_count_upto(fs: Seq<Feature>, n: int) -> int
    decreases n,
{
    if n <= 0 || n > fs.len() {
        0
    } else {
        features_count_upto(fs, n - 1) + coord_count(fs[n - 1].geometry.model())
    }
}

/// Coordinate count of a whole feature collection.
pub open spec fn collection_coord_count(fc: FeatureCollection) -> int {
    features_count_upto(fc.features@, fc.features@.len() as int)
}

/// Clamp a mathematical count to what a u64 can report.
pub open spec fn sat64(v: int) -> int {
    if v > u64::MAX as int {
        u64::MAX as int
    } else {
        v
    }
}

proof fn lemma_seq_len_sum_nonneg(ls: Seq<Seq<Coord>>)
    ensures
        seq_len_sum(ls) >= 0,
    decreases ls.len(),
{
    if ls.len() > 0 {
        lemma_seq_len_sum_nonneg(ls.drop_last());
    }
}

proof fn lemma_poly_count_sum_nonneg(ps: Seq<PolyModel>, n: int)
    ensures
        poly_count_sum(ps, n) >= 0,
    decreases n,
{
    if n > 0 {
        lemma_poly_count_sum_nonneg(ps, n - 1);
        lemma_seq_len_sum_nonneg(ps[n - 1].interiors);
    }
}

pub proof fn lemma_coord_count_nonneg(g: GeomModel)
    ensures
        coord_count(g) >= 0,
    decreases g, 1int,
{
    match g {
        GeomModel::MultiLineString(ls) => {
            lemma_seq_len_sum_nonneg(ls);
        },
        GeomModel::MultiPolygon(ps) => {
            lemma_poly_count_sum_nonneg(ps, ps.len() as int);
        },
        GeomModel::Polygon(p) => {
            lemma_seq_len_sum_nonneg(p.interiors);
        },
        GeomModel::GeometryCollection(gs) => {
            lemma_coll_count_sum_nonneg(gs, gs.len() as int);
        },
        _ => {},
    }
}

pub proof fn lemma_coll_count_sum_nonneg(gs: Seq<GeomModel>, n: int)
    ensures
        coll_count_sum(gs, n) >= 0,
    decreases gs, 0int, n,
{
    if 0 < n <= gs.len() {
        lemma_coll_count_sum_nonneg(gs, n - 1);
        vstd::seq::axiom_seq_index_decreases(gs, n - 1);
        lemma_coord_count_nonneg(gs[n - 1]);
    }
}

/// u64 addition clamped at the top of the range.
fn sat_add_u64(a: u64, b: u64) -> (r: u64)
    ensures
        r as int == sat64(a as int + b as int),
{
    if a > u64::MAX - b {
        u64::MAX
    } else {
        a + b
    }
}

/// Coordinates in one geometry tree, clamped to u64.
pub fn node_coords_count(g: &GeometryNode) -> (n: u64)
    ensures
        n as int == sat64(coord_count(g.model())),
    decreases g,
{
    match g {
        GeometryNode::Point(..) => 1,
        GeometryNode::LineString(l) => l.len() as u64,
        GeometryNode::MultiPoint(cs) => cs.len() as u64,
        GeometryNode::MultiLineString(ls) => {
            let ghost lsm = Seq::new(ls@.len(), |i: int| ls@[i]@);
            let mut total: u64 = 0;
            let mut i: usize = 0;
            while i < ls.len()
                invariant
                    0 <= i <= ls@.len(),
                    lsm == Seq::new(ls@.len(), |k: int| ls@[k]@),
                    total as int == sat64(seq_len_sum(lsm.take(i as int))),
                decreases ls@.len() - i,
            {
                proof {
                    assert(lsm.take(i + 1).drop_last() =~= lsm.take(i as int));
                    lemma_seq_len_sum_nonneg(lsm.take(i as int));
                }
                total = sat_add_u64(total, ls[i].len() as u64);
                i += 1;
            }
            proof {
                assert(lsm.take(ls@.len() as int) =~= lsm);
            }
            total
        },
        GeometryNode::Polygon(p) => polygon_coords_count(p),
        GeometryNode::MultiPolygon(ps) => {
            let ghost psm = Seq::new(ps@.len(), |i: int| ps@[i].model());
            let mut total: u64 = 0;
            let mut i: usize = 0;
            while i < ps.len()
                invariant
                    0 <= i <= ps@.len(),
                    psm == Seq::new(ps@.len(), |k: int| ps@[k].model()),
                    total as int == sat64(poly_count_sum(psm, i as int)),
                decreases ps@.len() - i,
            {
                proof {
                    lemma_poly_count_sum_nonneg(psm, i as int);
                    lemma_seq_len_sum_nonneg(psm[i as int].interiors);
                }
                let c = polygon_coords_count(&ps[i]);
                total = sat_add_u64(total, c);
                i += 1;
            }
            total
        },
        GeometryNode::GeometryCollection(gs) => {
            let ghost gsm = GeometryNode::models_upto(*gs, gs@.len() as int);
            proof {
                lemma_models_upto(*gs, gs@.len() as int);
                assert(decreases_to!(*g => *gs));
            }
            let mut total: u64 = 0;
            let mut i: usize = 0;
            while i < gs.len()
                invariant
                    0 <= i <= gs@.len(),
                    decreases_to!(*g => *gs),
                    gsm == GeometryNode::models_upto(*gs, gs@.len() as int),
                    gsm.len() == gs@.len(),
                    forall|k: int| 0 <= k < gs@.len() ==> #[trigger] gsm[k] == gs@[k].model(),
                    total as int == sat64(coll_count_sum(gsm, i as int)),
                decreases gs@.len() - i,
            {
                proof {
                    lemma_coll_count_sum_nonneg(gsm, i as int);
                    lemma_coord_count_nonneg(gsm[i as int]);
                    vstd::std_specs::vec::axiom_vec_decreases_to_view(*gs);
                    vstd::seq::axiom_seq_index_decreases(gs@, i as int);
                    assert(decreases_to!(*g => gs@[i as int]));
                }
                let c = node_coords_count(&gs[i]);
                total = sat_add_u64(total, c);
                i += 1;
            }
            total
        },
    }
}

/// Coordinates in one polygon, clamped to u64.
fn polygon_coords_count(p: &PolygonGeom) -> (n: u64)
    ensures
        n as int == sat64(poly_coord_count(p.model())),
{
    let ghost im = Seq::new(p.interiors@.len(), |i: int| p.interiors@[i]@);
    let mut total: u64 = p.exterior.len() as u64;
    let mut i: usize = 0;
    while i < p.interiors.len()
        invariant
            0 <= i <= p.interiors@.len(),
            im == Seq::new(p.interiors@.len(), |k: int| p.interiors@[k]@),
            total as int == sat64(p.exterior@.len() + seq_len_sum(im.take(i as int))),
        decreases p.interiors@.len() - i,
    {
        proof {
            assert(im.take(i + 1).drop_last() =~= im.take(i as int));
            lemma_seq_len_sum_nonneg(im.take(i as int));
        }
        total = sat_add_u64(total, p.interiors[i].len() as u64);
        i += 1;
    }
    proof {
        assert(im.take(p.interiors@.len() as int) =~= im);
    }
    total
}

/// Coordinates in a whole feature collection, clamped to u64.
pub fn coords_count(fc: &FeatureCollection) -> (n: u64)
    ensures
        n as int == sat64(collection_coord_count(*fc)),
{
    let mut total: u64 = 0;
    let mut i: usize = 0;
    while i < fc.features.len()
        invariant
            0 <= i <= fc.features@.len(),
            total as int == sat64(features_count_upto(fc.features@, i as int)),
        decreases fc.features@.len() - i,
    {
        proof {
            lemma_features_count_upto_nonneg(fc.features@, i as int);
            lemma_coord_count_nonneg(fc.features@[i as int].geometry.model());
        }
        let c = node_coords_count(&fc.features[i].geometry);
        total = sat_add_u64(total, c);
        i += 1;
    }
    total
}

proof fn lemma_features_count_upto_nonneg(fs: Seq<Feature>, n: int)
    ensures
        features_count_upto(fs, n) >= 0,
    decreases n,
{
    if n > 0 {
        lemma_features_count_upto_nonneg(fs, n - 1);
        if n <= fs.len() {
            lemma_coord_count_nonneg(fs[n - 1].geometry.model());
        }
    }
}

/// Coordinate count of the first n buffer entries.
pub open spec fn buffer_count_upto(buf: Seq<GeometryNode>, n: int) -> int
    decreases n,
{
    if n <= 0 || n > buf.len() {
        0
    } else {
        buffer_count_upto(buf, n - 1) + coord_count(buf[n - 1].model())
    }
}

proof fn lemma_buffer_count_upto_nonneg(buf: Seq<GeometryNode>, n: int)
    ensures
        buffer_count_upto(buf, n) >= 0,
    decreases n,
{
    if n > 0 {
        lemma_buffer_count_upto_nonneg(buf, n - 1);
        if n <= buf.len() {
            lemma_coord_count_nonneg(buf[n - 1].model());
        }
    }
}

/// Coordinates in an accumulation buffer, clamped to u64.
pub fn buffer_coords_count(buf: &Vec<GeometryNode>) -> (n: u64)
    ensures
        n as int == sat64(buffer_count_upto(buf@, buf@.len() as int)),
{
    let mut total: u64 = 0;
    let mut i: usize = 0;
    while i < buf.len()
        invariant
            0 <= i <= buf@.len(),
            total as int == sat64(buffer_count_upto(buf@, i as int)),
        decreases buf@.len() - i,
    {
        proof {
            lemma_buffer_count_upto_nonneg(buf@, i as int);
            lemma_coord_count_nonneg(buf@[i as int].model());
        }
        let c = node_coords_count(&buf[i]);
        total = sat_add_u64(total, c);
        i += 1;
    }
    total
}

} // verus!
