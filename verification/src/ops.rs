use vstd::prelude::*;

use crate::geom::{
    Coord, Feature, FeatureCollection, GeomModel, GeometryNode, PolyModel, PolygonGeom, line_wf,
    models_of, ring_wf,
};
use crate::kind::{GeomKind, GeomKindMask};
use crate::params::{eps_parse, parse_epsilon};
use crate::rdp::{
    EPSILON_LIMIT, copy_line, dp, lemma_simplify_line_valid, lemma_simplify_ring_valid,
    simplify_line_string, simplify_ring, simplify_ring_spec,
};

verus! {

/// What the host should do next with an operation.
#[derive(Clone, Copy, PartialEq, Eq, Structural, Debug)]
pub enum Action {
    RenderUi,
    Perform,
}

/// The interactive lifecycle of an operation instance.
#[derive(Clone, Copy, PartialEq, Eq, Structural, Debug)]
pub enum OpState {
    AwaitingParameters,
    PreviewReady,
    Committed,
}

/// Result value handed back by a completed operation.
pub enum Outcome {
    FeatureCollection(FeatureCollection),
}

/// Failure surfaced by `finalize`.
#[derive(Clone, Copy, PartialEq, Eq, Structural, Debug)]
pub enum OpError {
    Finalize,
}

/// What one refresh cycle asks the surface to show.
#[derive(Clone, Copy, PartialEq, Eq, Structural, Debug)]
pub struct UiRender {
    /// The parameter text parsed; a preview was recomputed.
    pub parse_ok: bool,
    /// The commit button may be pressed this cycle.
    pub commit_enabled: bool,
    /// Coordinates in the input collection (saturating).
    pub previous_nodes: u64,
    /// Coordinates in the preview buffer (saturating).
    pub simplified_nodes: u64,
}

/// The kind tag of a geometry model.
pub open spec fn model_kind(m: GeomModel) -> GeomKind {
    match m {
        GeomModel::Point(..) => GeomKind::Point,
        GeomModel::LineString(..) => GeomKind::LineString,
        GeomModel::Polygon(..) => GeomKind::Polygon,
        GeomModel::MultiPoint(..) => GeomKind::MultiPoint,
        GeomModel::MultiLineString(..) => GeomKind::MultiLineString,
        GeomModel::MultiPolygon(..) => GeomKind::MultiPolygon,
        GeomModel::GeometryCollection(..) => GeomKind::GeometryCollection,
    }
}

/// The simplified form of one polygon: every ring simplified on its
/// own, with the original ring kept wherever plain elimination would
/// leave fewer than four points.
pub open spec fn simplify_poly_model(p: PolyModel, eps: int) -> PolyModel {
    PolyModel {
        exterior: simplify_ring_spec(p.exterior, eps),
        interiors: Seq::new(p.interiors.len(), |i: int| simplify_ring_spec(p.interiors[i], eps)),
    }
}

/// The simplified form of one leaf geometry.
pub open spec fn simplify_leaf_model(m: GeomModel, eps: int) -> GeomModel {
    match m {
        GeomModel::Point(c) => GeomModel::Point(c),
        GeomModel::LineString(l) => GeomModel::LineString(dp(l, eps)),
        GeomModel::Polygon(p) => GeomModel::Polygon(simplify_poly_model(p, eps)),
        GeomModel::MultiPoint(cs) => GeomModel::MultiPoint(cs),
        GeomModel::MultiLineString(ls) => GeomModel::MultiLineString(
            Seq::new(ls.len(), |i: int| dp(ls[i], eps)),
        ),
        GeomModel::MultiPolygon(ps) => GeomModel::MultiPolygon(
            Seq::new(ps.len(), |i: int| simplify_poly_model(ps[i], eps)),
        ),
        GeomModel::GeometryCollection(..) => m,
    }
}

/// What a traversal of the first n children contributes to the
/// buffer.
pub open spec fn processed_upto(gs: Seq<GeomModel>, mask: GeomKindMask, eps: int, n: int) -> Seq<
    GeomModel,
>
    decreases gs, 0int, n,
    via processed_upto_dec
{
    if n <= 0 || n > gs.len() {
        Seq::empty()
    } else {
        processed_upto(gs, mask, eps, n - 1) + processed_model(gs[n - 1], mask, eps)
    }
}

#[via_fn]
proof fn processed_upto_dec(gs: Seq<GeomModel>, mask: GeomKindMask, eps: int, n: int) {
    if 0 < n <= gs.len() {
        vstd::seq::axiom_seq_index_decreases(gs, n - 1);
    }
}

/// What traversing one geometry tree contributes to the buffer: a
/// collection is recursed into in order; a leaf of an allowed kind
/// contributes its simplified form; any other leaf contributes
/// nothing and is thereby dropped.
pub open spec fn processed_model(m: GeomModel, mask: GeomKindMask, eps: int) -> Seq<GeomModel>
    decreases m, 1int, 0int,
{
    match m {
        GeomModel::GeometryCollection(gs) => processed_upto(gs, mask, eps, gs.len() as int),
        _ => if mask.spec_allows(model_kind(m)) {
            seq![simplify_leaf_model(m, eps)]
        } else {
            Seq::empty()
        },
    }
}

/// Buffer contribution of the first n features of a collection.
pub open spec fn processed_features_upto(
    fs: Seq<Feature>,
    mask: GeomKindMask,
    eps: int,
    n: int,
) -> Seq<GeomModel>
    decreases n,
{
    if n <= 0 || n > fs.len() {
        Seq::empty()
    } else {
        processed_features_upto(fs, mask, eps, n - 1) + processed_model(
            fs[n - 1].geometry.model(),
            mask,
            eps,
        )
    }
}

/// What one full traversal of a feature collection accumulates.
pub open spec fn processed_collection(
    fc: FeatureCollection,
    mask: GeomKindMask,
    eps: int,
) -> Seq<GeomModel> {
    processed_features_upto(fc.features@, mask, eps, fc.features@.len() as int)
}

/// The tolerance-based simplification operation.
pub struct Simplify {
    /// The kinds this instance acts on; never changes after
    /// construction.
    pub allowed: GeomKindMask,
    /// The last successfully parsed tolerance.
    pub epsilon: Option<i64>,
    /// Accumulation buffer of produced geometries.
    pub buffer: Vec<GeometryNode>,
    /// Interactive lifecycle state.
    pub state: OpState,
    /// Whether `Action::Perform` was already handed out.
    pub performed: bool,
}

impl Simplify {
    pub open spec fn inv(self) -> bool {
        &&& match self.epsilon {
            Some(e) => 0 <= e <= EPSILON_LIMIT,
            None => true,
        }
        &&& forall|i: int| 0 <= i < self.buffer@.len() ==> (#[trigger] self.buffer@[i]).wf()
    }

    pub open spec fn spec_eps(self) -> int {
        match self.epsilon {
            Some(e) => e as int,
            None => 0,
        }
    }

    /// The geometry kinds the simplification operation declares
    /// support for.
    pub fn default_mask() -> (m: GeomKindMask)
        ensures
            m.line_string && m.multi_line_string && m.polygon && m.multi_polygon,
            !m.point && !m.multi_point && !m.geometry_collection,
    {
        GeomKindMask {
            point: false,
            line_string: true,
            polygon: true,
            multi_point: false,
            multi_line_string: true,
            multi_polygon: true,
            geometry_collection: false,
        }
    }

    /// A fresh instance: default parameters, empty buffer, awaiting
    /// parameters.
    pub fn new() -> (op: Simplify)
        ensures
            op.inv(),
            op.allowed.line_string && op.allowed.multi_line_string && op.allowed.polygon
                && op.allowed.multi_polygon,
            !op.allowed.point && !op.allowed.multi_point && !op.allowed.geometry_collection,
            op.epsilon is None,
            op.buffer@.len() == 0,
            op.state == OpState::AwaitingParameters,
            !op.performed,
    {
        Simplify {
            allowed: Simplify::default_mask(),
            epsilon: None,
            buffer: Vec::new(),
            state: OpState::AwaitingParameters,
            performed: false,
        }
    }

    /// Ask what the host should do next: render another interactive
    /// cycle, or perform the committed operation.  `Perform` is
    /// handed out exactly once, after the commit transition.
    pub fn next_action(&mut self) -> (a: Action)
        ensures
            final(self).allowed == old(self).allowed,
            final(self).epsilon == old(self).epsilon,
            final(self).buffer == old(self).buffer,
            final(self).state == old(self).state,
            a == (if old(self).state == OpState::Committed && !old(self).performed {
                Action::Perform
            } else {
                Action::RenderUi
            }),
            final(self).performed == (old(self).performed || old(self).state
                == OpState::Committed),
            old(self).inv() ==> final(self).inv(),
    {
        if matches!(self.state, OpState::Committed) {
            let first = !self.performed;
            self.performed = true;
            if first {
                Action::Perform
            } else {
                Action::RenderUi
            }
        } else {
            Action::RenderUi
        }
    }

    /// Visit one line string: when a tolerance is staged, append its
    /// simplified form to the buffer; without one, do nothing.
    pub fn visit_line_string(&mut self, l: &Vec<Coord>)
        requires
            old(self).inv(),
            line_wf(l@),
            old(self).allowed.spec_allows(GeomKind::LineString),
        ensures
            final(self).inv(),
            final(self).allowed == old(self).allowed,
            final(self).epsilon == old(self).epsilon,
            final(self).state == old(self).state,
            final(self).performed == old(self).performed,
            old(self).epsilon is Some ==> models_of(final(self).buffer@) == models_of(
                old(self).buffer@,
            ).push(GeomModel::LineString(dp(l@, old(self).spec_eps()))),
            old(self).epsilon is None ==> final(self).buffer == old(self).buffer,
    {
        let eps = match self.epsilon {
            Some(e) => e,
            None => {
                return ;
            },
        };
        let simplified = simplify_line_string(l, eps);
        let node = GeometryNode::LineString(simplified);
        self.buffer.push(node);
        proof {
            lemma_simplify_line_valid(l@, eps as int);
            assert(models_of(self.buffer@) =~= models_of(old(self).buffer@).push(
                GeomModel::LineString(dp(l@, old(self).spec_eps())),
            ));
        }
    }

    /// Visit one point: points pass through unchanged.
    pub fn visit_point(&mut self, c: Coord)
        requires
            old(self).inv(),
            c.in_range(),
            old(self).allowed.spec_allows(GeomKind::Point),
        ensures
            final(self).inv(),
            final(self).allowed == old(self).allowed,
            final(self).epsilon == old(self).epsilon,
            final(self).state == old(self).state,
            final(self).performed == old(self).performed,
            old(self).epsilon is Some ==> models_of(final(self).buffer@) == models_of(
                old(self).buffer@,
            ).push(GeomModel::Point(c)),
            old(self).epsilon is None ==> final(self).buffer == old(self).buffer,
    {
        if matches!(self.epsilon, None) {
            return ;
        }
        self.buffer.push(GeometryNode::Point(c));
        proof {
            assert(models_of(self.buffer@) =~= models_of(old(self).buffer@).push(
                GeomModel::Point(c),
            ));
        }
    }

    /// Visit one multi-point: passes through unchanged.
    pub fn visit_multi_point(&mut self, cs: &Vec<Coord>)
        requires
            old(self).inv(),
            forall|i: int| 0 <= i < cs@.len() ==> (#[trigger] cs@[i]).in_range(),
            old(self).allowed.spec_allows(GeomKind::MultiPoint),
        ensures
            final(self).inv(),
            final(self).allowed == old(self).allowed,
            final(self).epsilon == old(self).epsilon,
            final(self).state == old(self).state,
            final(self).performed == old(self).performed,
            old(self).epsilon is Some ==> models_of(final(self).buffer@) == models_of(
                old(self).buffer@,
            ).push(GeomModel::MultiPoint(cs@)),
            old(self).epsilon is None ==> final(self).buffer == old(self).buffer,
    {
        if matches!(self.epsilon, None) {
            return ;
        }
        let copy = copy_line(cs);
        self.buffer.push(GeometryNode::MultiPoint(copy));
        proof {
            assert(models_of(self.buffer@) =~= models_of(old(self).buffer@).push(
                GeomModel::MultiPoint(cs@),
            ));
        }
    }

    /// Visit one multi-line-string: every component line simplified
    /// independently.
    pub fn visit_multi_line_string(&mut self, ls: &Vec<Vec<Coord>>)
        requires
            old(self).inv(),
            forall|i: int| 0 <= i < ls@.len() ==> line_wf(#[trigger] ls@[i]@),
            old(self).allowed.spec_allows(GeomKind::MultiLineString),
        ensures
            final(self).inv(),
            final(self).allowed == old(self).allowed,
            final(self).epsilon == old(self).epsilon,
            final(self).state == old(self).state,
            final(self).performed == old(self).performed,
            old(self).epsilon is Some ==> models_of(final(self).buffer@) == models_of(
                old(self).buffer@,
            ).push(
                GeomModel::MultiLineString(
                    Seq::new(ls@.len(), |i: int| dp(ls@[i]@, old(self).spec_eps())),
                ),
            ),
            old(self).epsilon is None ==> final(self).buffer == old(self).buffer,
    {
        let eps = match self.epsilon {
            Some(e) => e,
            None => {
                return ;
            },
        };
        let mut out: Vec<Vec<Coord>> = Vec::new();
        let mut i: usize = 0;
        while i < ls.len()
            invariant
                0 <= i <= ls@.len(),
                forall|j: int| 0 <= j < ls@.len() ==> line_wf(#[trigger] ls@[j]@),
                0 <= eps <= EPSILON_LIMIT,
                out@.len() == i,
                forall|j: int| 0 <= j < i ==> #[trigger] out@[j]@ == dp(ls@[j]@, eps as int),
                forall|j: int| 0 <= j < i ==> line_wf(#[trigger] out@[j]@),
            decreases ls@.len() - i,
        {
            let simplified = simplify_line_string(&ls[i], eps);
            proof {
                lemma_simplify_line_valid(ls@[i as int]@, eps as int);
            }
            out.push(simplified);
            i += 1;
        }
        self.buffer.push(GeometryNode::MultiLineString(out));
        proof {
            assert(Seq::new(out@.len(), |j: int| out@[j]@) =~= Seq::new(
                ls@.len(),
                |i: int| dp(ls@[i]@, old(self).spec_eps()),
            ));
            assert(models_of(self.buffer@) =~= models_of(old(self).buffer@).push(
                GeomModel::MultiLineString(
                    Seq::new(ls@.len(), |i: int| dp(ls@[i]@, old(self).spec_eps())),
                ),
            ));
        }
    }

    /// Visit one polygon: exterior and each interior ring simplified
    /// independently, each staying a valid ring.
    pub fn visit_polygon(&mut self, p: &PolygonGeom)
        requires
            old(self).inv(),
            p.wf(),
            old(self).allowed.spec_allows(GeomKind::Polygon),
        ensures
            final(self).inv(),
            final(self).allowed == old(self).allowed,
            final(self).epsilon == old(self).epsilon,
            final(self).state == old(self).state,
            final(self).performed == old(self).performed,
            old(self).epsilon is Some ==> models_of(final(self).buffer@) == models_of(
                old(self).buffer@,
            ).push(GeomModel::Polygon(simplify_poly_model(p.model(), old(self).spec_eps()))),
            old(self).epsilon is None ==> final(self).buffer == old(self).buffer,
    {
        let eps = match self.epsilon {
            Some(e) => e,
            None => {
                return ;
            },
        };
        let simplified = simplify_polygon_parts(p, eps);
        self.buffer.push(GeometryNode::Polygon(simplified));
        proof {
            assert(models_of(self.buffer@) =~= models_of(old(self).buffer@).push(
                GeomModel::Polygon(simplify_poly_model(p.model(), old(self).spec_eps())),
            ));
        }
    }

    /// Visit one multi-polygon: every member simplified.
    pub fn visit_multi_polygon(&mut self, ps: &Vec<PolygonGeom>)
        requires
            old(self).inv(),
            forall|i: int| 0 <= i < ps@.len() ==> (#[trigger] ps@[i]).wf(),
            old(self).allowed.spec_allows(GeomKind::MultiPolygon),
        ensures
            final(self).inv(),
            final(self).allowed == old(self).allowed,
            final(self).epsilon == old(self).epsilon,
            final(self).state == old(self).state,
            final(self).performed == old(self).performed,
            old(self).epsilon is Some ==> models_of(final(self).buffer@) == models_of(
                old(self).buffer@,
            ).push(
                GeomModel::MultiPolygon(
                    Seq::new(
                        ps@.len(),
                        |i: int| simplify_poly_model(ps@[i].model(), old(self).spec_eps()),
                    ),
                ),
            ),
            old(self).epsilon is None ==> final(self).buffer == old(self).buffer,
    {
        let eps = match self.epsilon {
            Some(e) => e,
            None => {
                return ;
            },
        };
        let mut out: Vec<PolygonGeom> = Vec::new();
        let mut i: usize = 0;
        while i < ps.len()
            invariant
                0 <= i <= ps@.len(),
                forall|j: int| 0 <= j < ps@.len() ==> (#[trigger] ps@[j]).wf(),
                0 <= eps <= EPSILON_LIMIT,
                out@.len() == i,
                forall|j: int|
                    0 <= j < i ==> (#[trigger] out@[j]).model() == simplify_poly_model(
                        ps@[j].model(),
                        eps as int,
                    ),
                forall|j: int| 0 <= j < i ==> (#[trigger] out@[j]).wf(),
            decreases ps@.len() - i,
        {
            let simplified = simplify_polygon_parts(&ps[i], eps);
            out.push(simplified);
            i += 1;
        }
        self.buffer.push(GeometryNode::MultiPolygon(out));
        proof {
            assert(Seq::new(out@.len(), |j: int| out@[j].model()) =~= Seq::new(
                ps@.len(),
                |i: int| simplify_poly_model(ps@[i].model(), old(self).spec_eps()),
            ));
            assert(models_of(self.buffer@) =~= models_of(old(self).buffer@).push(
                GeomModel::MultiPolygon(
                    Seq::new(
                        ps@.len(),
                        |i: int| simplify_poly_model(ps@[i].model(), old(self).spec_eps()),
                    ),
                ),
            ));
        }
    }
}

impl Simplify {
    /// Depth-first, order-preserving traversal of one geometry tree:
    /// recurse into collections, hand each leaf of an allowed kind
    /// to its visitor, and drop every other leaf.
    fn visit_node(&mut self, g: &GeometryNode)
        requires
            old(self).inv(),
            g.wf(),
            old(self).epsilon is Some,
        ensures
            final(self).inv(),
            final(self).allowed == old(self).allowed,
            final(self).epsilon == old(self).epsilon,
            final(self).state == old(self).state,
            final(self).performed == old(self).performed,
            models_of(final(self).buffer@) == models_of(old(self).buffer@) + processed_model(
                g.model(),
                old(self).allowed,
                old(self).spec_eps(),
            ),
        decreases g,
    {
        let ghost mask = self.allowed;
        let ghost eps = self.spec_eps();
        let allowed = self.allowed;
        match g {
            GeometryNode::Point(c) => {
                if allowed.allows(GeomKind::Point) {
                    self.visit_point(*c);
                }
                proof {
                    assert(models_of(self.buffer@) =~~= models_of(old(self).buffer@)
                        + processed_model(g.model(), mask, eps));
                }
            },
            GeometryNode::LineString(l) => {
                if allowed.allows(GeomKind::LineString) {
                    self.visit_line_string(l);
                }
                proof {
                    assert(models_of(self.buffer@) =~~= models_of(old(self).buffer@)
                        + processed_model(g.model(), mask, eps));
                }
            },
            GeometryNode::Polygon(p) => {
                if allowed.allows(GeomKind::Polygon) {
                    self.visit_polygon(p);
                }
                proof {
                    assert(models_of(self.buffer@) =~~= models_of(old(self).buffer@)
                        + processed_model(g.model(), mask, eps));
                }
            },
            GeometryNode::MultiPoint(cs) => {
                if allowed.allows(GeomKind::MultiPoint) {
                    self.visit_multi_point(cs);
                }
                proof {
                    assert(models_of(self.buffer@) =~~= models_of(old(self).buffer@)
                        + processed_model(g.model(), mask, eps));
                }
            },
            GeometryNode::MultiLineString(ls) => {
                if allowed.allows(GeomKind::MultiLineString) {
                    self.visit_multi_line_string(ls);
                }
                proof {
                    assert(models_of(self.buffer@) =~~= models_of(old(self).buffer@)
                        + processed_model(g.model(), mask, eps));
                }
            },
            GeometryNode::MultiPolygon(ps) => {
                if allowed.allows(GeomKind::MultiPolygon) {
                    self.visit_multi_polygon(ps);
                }
                proof {
                    assert(models_of(self.buffer@) =~~= models_of(old(self).buffer@)
                        + processed_model(g.model(), mask, eps));
                }
            },
            GeometryNode::GeometryCollection(gs) => {
                let ghost ms = GeometryNode::models_upto(*gs, gs@.len() as int);
                proof {
                    crate::geom::lemma_models_upto(*gs, gs@.len() as int);
                    assert(decreases_to!(*g => *gs));
                    assert(forall|i: int| 0 <= i < gs@.len() ==> (#[trigger] gs@[i]).wf());
                }
                let ghost buf0 = models_of(self.buffer@);
                let mut j: usize = 0;
                while j < gs.len()
                    invariant
                        0 <= j <= gs@.len(),
                        self.inv(),
                        self.allowed == mask,
                        self.epsilon == old(self).epsilon,
                        self.epsilon is Some,
                        self.spec_eps() == eps,
                        self.state == old(self).state,
                        self.performed == old(self).performed,
                        g == GeometryNode::GeometryCollection(*gs),
                        decreases_to!(*g => *gs),
                        forall|i: int| 0 <= i < gs@.len() ==> (#[trigger] gs@[i]).wf(),
                        ms == GeometryNode::models_upto(*gs, gs@.len() as int),
                        ms.len() == gs@.len(),
                        forall|i: int| 0 <= i < gs@.len() ==> #[trigger] ms[i] == gs@[i].model(),
                        buf0 == models_of(old(self).buffer@),
                        models_of(self.buffer@) == buf0 + processed_upto(
                            ms,
                            mask,
                            eps,
                            j as int,
                        ),
                    decreases gs@.len() - j,
                {
                    proof {
                        assert(decreases_to!(*g => *gs));
                        vstd::std_specs::vec::axiom_vec_decreases_to_view(*gs);
                        vstd::seq::axiom_seq_index_decreases(gs@, j as int);
                        assert(decreases_to!(*g => gs@[j as int]));
                        assert(gs@[j as int].wf());
                    }
                    let child = &gs[j];
                    self.visit_node(child);
                    j += 1;
                    proof {
                        assert(models_of(self.buffer@) =~= buf0 + processed_upto(
                            ms,
                            mask,
                            eps,
                            j as int,
                        ));
                    }
                }
                proof {
                    assert(processed_model(g.model(), mask, eps) == processed_upto(
                        ms,
                        mask,
                        eps,
                        ms.len() as int,
                    ));
                }
            },
        }
    }

    /// One full pass: reset the accumulation buffer, then traverse
    /// the collection feature by feature in order.  Every pass thus
    /// starts from a clean buffer and never appends to stale
    /// results.
    pub fn run(&mut self, input: &FeatureCollection)
        requires
            old(self).inv(),
            input.wf(),
            old(self).epsilon is Some,
        ensures
            final(self).inv(),
            final(self).allowed == old(self).allowed,
            final(self).epsilon == old(self).epsilon,
            final(self).state == old(self).state,
            final(self).performed == old(self).performed,
            models_of(final(self).buffer@) == processed_collection(
                *input,
                old(self).allowed,
                old(self).spec_eps(),
            ),
    {
        let ghost mask = self.allowed;
        let ghost eps = self.spec_eps();
        self.buffer = Vec::new();
        proof {
            assert(models_of(self.buffer@) =~= processed_features_upto(
                input.features@,
                mask,
                eps,
                0,
            ));
        }
        let mut i: usize = 0;
        while i < input.features.len()
            invariant
                0 <= i <= input.features@.len(),
                self.inv(),
                self.allowed == mask,
                self.epsilon == old(self).epsilon,
                self.epsilon is Some,
                self.spec_eps() == eps,
                self.state == old(self).state,
                self.performed == old(self).performed,
                input.wf(),
                models_of(self.buffer@) == processed_features_upto(
                    input.features@,
                    mask,
                    eps,
                    i as int,
                ),
            decreases input.features@.len() - i,
        {
            let f = &input.features[i];
            proof {
                assert(input.features@[i as int].wf());
            }
            let ghost before = models_of(self.buffer@);
            self.visit_node(&f.geometry);
            i += 1;
            proof {
                assert(models_of(self.buffer@) =~= processed_features_upto(
                    input.features@,
                    mask,
                    eps,
                    i as int,
                ));
            }
        }
    }

    /// Atomically drain the accumulation buffer and wrap its
    /// contents: one feature with empty properties whose geometry is
    /// a collection of everything accumulated.  Always succeeds; a
    /// second call wraps an empty buffer.
    pub fn finalize(&mut self) -> (r: Result<Outcome, OpError>)
        requires
            old(self).inv(),
        ensures
            final(self).inv(),
            final(self).allowed == old(self).allowed,
            final(self).epsilon == old(self).epsilon,
            final(self).state == old(self).state,
            final(self).performed == old(self).performed,
            final(self).buffer@.len() == 0,
            r matches Ok(o) && ({
                &&& o matches Outcome::FeatureCollection(fc)
                &&& fc.features@.len() == 1
                &&& fc.features@[0].properties@.len() == 0
                &&& fc.features@[0].geometry.model() == GeomModel::GeometryCollection(
                    models_of(old(self).buffer@),
                )
                &&& fc.wf()
            }),
    {
        let mut drained: Vec<GeometryNode> = Vec::new();
        core::mem::swap(&mut self.buffer, &mut drained);
        proof {
            crate::geom::lemma_models_upto(drained, drained@.len() as int);
            assert(GeometryNode::models_upto(drained, drained@.len() as int) =~= models_of(
                drained@,
            ));
        }
        let node = GeometryNode::GeometryCollection(drained);
        let feature = Feature { geometry: node, properties: Vec::new() };
        let mut features: Vec<Feature> = Vec::new();
        features.push(feature);
        Ok(Outcome::FeatureCollection(FeatureCollection { features }))
    }
}

impl Simplify {
    /// One interactive refresh cycle.  The surface hands in the
    /// current parameter text and whether the commit affordance was
    /// activated; the operation parses, recomputes a full preview on
    /// success, and reports what to show.  Unparseable text reverts
    /// to awaiting parameters, disables commit, and fires no
    /// visitor.  A commit signal with valid parameters makes the
    /// state `Committed`.
    pub fn render_parameters(
        &mut self,
        epsilon_text: &str,
        commit_requested: bool,
        input: &FeatureCollection,
    ) -> (r: UiRender)
        requires
            old(self).inv(),
            input.wf(),
            old(self).state != OpState::Committed,
        ensures
            final(self).inv(),
            final(self).allowed == old(self).allowed,
            final(self).performed == old(self).performed,
            final(self).epsilon == eps_parse(epsilon_text@),
            r.parse_ok == (eps_parse(epsilon_text@) is Some),
            r.commit_enabled == r.parse_ok,
            eps_parse(epsilon_text@) matches Some(e) ==> {
                &&& models_of(final(self).buffer@) == processed_collection(
                    *input,
                    old(self).allowed,
                    e as int,
                )
                &&& final(self).state == (if commit_requested {
                    OpState::Committed
                } else {
                    OpState::PreviewReady
                })
                &&& r.previous_nodes as int == crate::geom::sat64(
                    crate::geom::collection_coord_count(*input),
                )
                &&& r.simplified_nodes as int == crate::geom::sat64(
                    crate::geom::buffer_count_upto(
                        final(self).buffer@,
                        final(self).buffer@.len() as int,
                    ),
                )
            },
            eps_parse(epsilon_text@) is None ==> {
                &&& final(self).state == OpState::AwaitingParameters
                &&& final(self).buffer == old(self).buffer
                &&& r.previous_nodes == 0
                &&& r.simplified_nodes == 0
            },
    {
        match parse_epsilon(epsilon_text) {
            Some(e) => {
                self.epsilon = Some(e);
                self.run(input);
                let prev = crate::geom::coords_count(input);
                let simp = crate::geom::buffer_coords_count(&self.buffer);
                if commit_requested {
                    self.state = OpState::Committed;
                } else {
                    self.state = OpState::PreviewReady;
                }
                UiRender {
                    parse_ok: true,
                    commit_enabled: true,
                    previous_nodes: prev,
                    simplified_nodes: simp,
                }
            },
            None => {
                self.epsilon = None;
                self.state = OpState::AwaitingParameters;
                UiRender {
                    parse_ok: false,
                    commit_enabled: false,
                    previous_nodes: 0,
                    simplified_nodes: 0,
                }
            },
        }
    }
}

/// Static metadata describing one available operation.
pub struct OperationDescriptor {
    /// Display name for the host's menu.
    pub name: &'static str,
    /// Kinds the operation declares support for.
    pub allowed: GeomKindMask,
    /// Which operation the descriptor builds.
    pub kind: OperationKind,
}

/// The closed set of operations the registry offers.
#[derive(Clone, Copy, PartialEq, Eq, Structural, Debug)]
pub enum OperationKind {
    Simplify,
}

/// The ordered registry of available operations.
pub fn list() -> (ds: Vec<OperationDescriptor>)
    ensures
        ds@.len() == 1,
        ds@[0].kind == OperationKind::Simplify,
        ds@[0].name@ == "Simplify geometries"@,
        ds@[0].allowed.line_string && ds@[0].allowed.multi_line_string && ds@[0].allowed.polygon
            && ds@[0].allowed.multi_polygon,
        !ds@[0].allowed.point && !ds@[0].allowed.multi_point
            && !ds@[0].allowed.geometry_collection,
{
    let d = OperationDescriptor {
        name: "Simplify geometries",
        allowed: Simplify::default_mask(),
        kind: OperationKind::Simplify,
    };
    let mut ds: Vec<OperationDescriptor> = Vec::new();
    ds.push(d);
    ds
}

/// Build a fresh instance of the chosen operation: default
/// parameters, empty buffer, no shared state with any other
/// instance.
pub fn instantiate(kind: OperationKind) -> (op: Simplify)
    ensures
        op.inv(),
        op.epsilon is None,
        op.buffer@.len() == 0,
        op.state == OpState::AwaitingParameters,
        !op.performed,
        op.allowed.line_string && op.allowed.multi_line_string && op.allowed.polygon
            && op.allowed.multi_polygon,
        !op.allowed.point && !op.allowed.multi_point && !op.allowed.geometry_collection,
{
    match kind {
        OperationKind::Simplify => Simplify::new(),
    }
}

/// Simplify every ring of one polygon.
fn simplify_polygon_parts(p: &PolygonGeom, eps: i64) -> (out: PolygonGeom)
    requires
        p.wf(),
        0 <= eps <= EPSILON_LIMIT,
    ensures
        out.model() == simplify_poly_model(p.model(), eps as int),
        out.wf(),
{
    let exterior = simplify_ring(&p.exterior, eps);
    proof {
        lemma_simplify_ring_valid(p.exterior@, eps as int);
    }
    let mut interiors: Vec<Vec<Coord>> = Vec::new();
    let mut i: usize = 0;
    while i < p.interiors.len()
        invariant
            0 <= i <= p.interiors@.len(),
            p.wf(),
            0 <= eps <= EPSILON_LIMIT,
            interiors@.len() == i,
            forall|j: int|
                0 <= j < i ==> #[trigger] interiors@[j]@ == simplify_ring_spec(
                    p.interiors@[j]@,
                    eps as int,
                ),
            forall|j: int| 0 <= j < i ==> ring_wf(#[trigger] interiors@[j]@),
        decreases p.interiors@.len() - i,
    {
        let r = simplify_ring(&p.interiors[i], eps);
        proof {
            lemma_simplify_ring_valid(p.interiors@[i as int]@, eps as int);
        }
        interiors.push(r);
        i += 1;
    }
    let out = PolygonGeom { exterior, interiors };
    proof {
        assert(out.model().interiors =~= simplify_poly_model(p.model(), eps as int).interiors);
        assert(out.model() == simplify_poly_model(p.model(), eps as int));
    }
    out
}

} // verus!
