//! Core scene data: vertices, meshes, models, scenes, and axis-aligned
//! bounding boxes.
//!
//! Coordinates are fixed-point scalars (see `crate::fixed`). A scene is an
//! ordered collection of models, each a sequence of meshes, each an ordered
//! sequence of vertices; the core only ever reads it.

use vstd::prelude::*;
use vstd::multiset::Multiset;

use crate::fixed::COORD_LIMIT;
use crate::fixed::spec_abs;

verus! {

pub type Scalar = i64;

/// One vertex: position, normal and texture coordinate.
#[derive(Debug, Clone, Copy, PartialEq)]
pub struct Vertex {
    pub position: (Scalar, Scalar, Scalar),
    pub normal: (Scalar, Scalar, Scalar),
    pub uv: (Scalar, Scalar),
}

/// An ordered sequence of vertices.
#[derive(Debug, Clone, PartialEq)]
pub struct Mesh {
    pub vertices: Vec<Vertex>,
}

/// A named group of meshes.
#[derive(Debug, Clone, PartialEq)]
pub struct Model {
    pub meshes: Vec<Mesh>,
    pub name: Vec<u8>,
}

/// An ordered collection of models.
#[derive(Debug, Clone, PartialEq)]
pub struct Scene {
    pub models: Vec<Model>,
}

/// An axis-aligned box given by its two extreme corners.
#[derive(Debug, Clone, Copy, PartialEq)]
pub struct BoundingBox {
    pub min: (Scalar, Scalar, Scalar),
    pub max: (Scalar, Scalar, Scalar),
}

/// A node of the spatial index: a box, a bucket of vertices, and either
/// no children or exactly eight.
#[derive(Debug)]
pub struct OctreeNode {
    pub bounds: BoundingBox,
    pub vertices: Vec<Vertex>,
    pub children: Vec<OctreeNode>,
}

/// Every component of a point small enough for exact arithmetic.
pub open spec fn point_bounded(p: (Scalar, Scalar, Scalar)) -> bool {
    &&& spec_abs(p.0 as int) <= COORD_LIMIT as int
    &&& spec_abs(p.1 as int) <= COORD_LIMIT as int
    &&& spec_abs(p.2 as int) <= COORD_LIMIT as int
}

/// All three attribute vectors of a vertex are bounded.
pub open spec fn vertex_bounded(v: Vertex) -> bool {
    &&& point_bounded(v.position)
    &&& point_bounded(v.normal)
    &&& spec_abs(v.uv.0 as int) <= COORD_LIMIT as int
    &&& spec_abs(v.uv.1 as int) <= COORD_LIMIT as int
}

/// A box is well formed when its corners are ordered component-wise
/// and bounded.
pub open spec fn box_wf(b: BoundingBox) -> bool {
    &&& b.min.0 <= b.max.0
    &&& b.min.1 <= b.max.1
    &&& b.min.2 <= b.max.2
    &&& point_bounded(b.min)
    &&& point_bounded(b.max)
}

/// Inclusive point containment on every axis.
pub open spec fn spec_contains_point(b: BoundingBox, p: (Scalar, Scalar, Scalar)) -> bool {
    &&& b.min.0 <= p.0 <= b.max.0
    &&& b.min.1 <= p.1 <= b.max.1
    &&& b.min.2 <= p.2 <= b.max.2
}

/// The low half of a split along one axis: its midpoint, rounded down.
pub open spec fn spec_mid(lo: int, hi: int) -> int
    recommends
        lo <= hi,
{
    lo + (hi - lo) / 2
}

/// The midpoint as a scalar; agrees with `spec_mid` on well-formed input.
pub open spec fn mid_s(lo: Scalar, hi: Scalar) -> Scalar {
    (lo + (hi - lo) / 2) as i64
}

/// On an ordered, bounded pair the scalar midpoint is exact and sits
/// between the two ends.
pub proof fn lemma_mid_s(lo: Scalar, hi: Scalar)
    requires
        lo <= hi,
        spec_abs(lo as int) <= COORD_LIMIT as int,
        spec_abs(hi as int) <= COORD_LIMIT as int,
    ensures
        mid_s(lo, hi) as int == spec_mid(lo as int, hi as int),
        lo <= mid_s(lo, hi) <= hi,
{
    let d = hi - lo;
    vstd::arithmetic::div_mod::lemma_fundamental_div_mod(d, 2);
    vstd::arithmetic::div_mod::lemma_mod_bound(d, 2);
    vstd::arithmetic::div_mod::lemma_div_pos_is_pos(d, 2);
    assert(0 <= d / 2 <= d);
}

/// The multiset of vertices carried by a sequence of meshes.
pub open spec fn meshes_verts(ms: Seq<Mesh>) -> Multiset<Vertex>
    decreases ms.len(),
{
    if ms.len() == 0 {
        Multiset::empty()
    } else {
        meshes_verts(ms.drop_last()).add(ms.last().vertices@.to_multiset())
    }
}

/// The multiset of vertices carried by a sequence of models.
pub open spec fn models_verts(ms: Seq<Model>) -> Multiset<Vertex>
    decreases ms.len(),
{
    if ms.len() == 0 {
        Multiset::empty()
    } else {
        models_verts(ms.drop_last()).add(meshes_verts(ms.last().meshes@))
    }
}

/// Every vertex position of every mesh of every model, as one multiset.
pub open spec fn scene_verts(s: Scene) -> Multiset<Vertex> {
    models_verts(s.models@)
}

/// The vertices of a sequence of meshes, flattened in order.
pub open spec fn meshes_vertex_seq(ms: Seq<Mesh>) -> Seq<Vertex>
    decreases ms.len(),
{
    if ms.len() == 0 {
        Seq::empty()
    } else {
        meshes_vertex_seq(ms.drop_last()) + ms.last().vertices@
    }
}

/// The vertices of a sequence of models, flattened in order.
pub open spec fn models_vertex_seq(ms: Seq<Model>) -> Seq<Vertex>
    decreases ms.len(),
{
    if ms.len() == 0 {
        Seq::empty()
    } else {
        models_vertex_seq(ms.drop_last()) + meshes_vertex_seq(ms.last().meshes@)
    }
}

/// Every vertex of the scene, flattened in model, mesh, vertex order:
/// the exact order a build visits them in.
pub open spec fn scene_vertex_seq(s: Scene) -> Seq<Vertex> {
    models_vertex_seq(s.models@)
}

/// Extending a mesh prefix by one mesh appends exactly that mesh's
/// vertices, in order.
pub proof fn lemma_meshes_vertex_seq_take(s: Seq<Mesh>, j: int)
    requires
        0 <= j < s.len(),
    ensures
        meshes_vertex_seq(s.take(j + 1)) == meshes_vertex_seq(s.take(j)) + s[j].vertices@,
{
    let t = s.take(j + 1);
    assert(t.drop_last() =~= s.take(j));
    assert(t.last() == s[j]);
}

/// Extending a model prefix by one model appends exactly that model's
/// vertices, in order.
pub proof fn lemma_models_vertex_seq_take(s: Seq<Model>, m: int)
    requires
        0 <= m < s.len(),
    ensures
        models_vertex_seq(s.take(m + 1)) == models_vertex_seq(s.take(m)) + meshes_vertex_seq(
            s[m].meshes@,
        ),
{
    let t = s.take(m + 1);
    assert(t.drop_last() =~= s.take(m));
    assert(t.last() == s[m]);
}

/// Extending a mesh prefix by one mesh adds exactly that mesh's vertices.
pub proof fn lemma_meshes_verts_take(s: Seq<Mesh>, j: int)
    requires
        0 <= j < s.len(),
    ensures
        meshes_verts(s.take(j + 1)) == meshes_verts(s.take(j)).add(s[j].vertices@.to_multiset()),
{
    let t = s.take(j + 1);
    assert(t.drop_last() =~= s.take(j));
    assert(t.last() == s[j]);
}

/// Extending a model prefix by one model adds exactly that model's vertices.
pub proof fn lemma_models_verts_take(s: Seq<Model>, m: int)
    requires
        0 <= m < s.len(),
    ensures
        models_verts(s.take(m + 1)) == models_verts(s.take(m)).add(meshes_verts(s[m].meshes@)),
{
    let t = s.take(m + 1);
    assert(t.drop_last() =~= s.take(m));
    assert(t.last() == s[m]);
}

/// A vertex of any mesh of the sequence is among the sequence's vertices.
pub proof fn lemma_meshes_verts_contains(s: Seq<Mesh>, j: int, v: Vertex)
    requires
        0 <= j < s.len(),
        s[j].vertices@.to_multiset().contains(v),
    ensures
        meshes_verts(s).contains(v),
    decreases s.len(),
{
    if j == s.len() - 1 {
        assert(s.last() == s[j]);
    } else {
        assert(s.drop_last()[j] == s[j]);
        lemma_meshes_verts_contains(s.drop_last(), j, v);
    }
}

/// A vertex of any model of the sequence is among the sequence's vertices.
pub proof fn lemma_models_verts_contains(s: Seq<Model>, m: int, v: Vertex)
    requires
        0 <= m < s.len(),
        meshes_verts(s[m].meshes@).contains(v),
    ensures
        models_verts(s).contains(v),
    decreases s.len(),
{
    if m == s.len() - 1 {
        assert(s.last() == s[m]);
    } else {
        assert(s.drop_last()[m] == s[m]);
        lemma_models_verts_contains(s.drop_last(), m, v);
    }
}

/// If every indexed vertex of every mesh is bounded, so is every
/// vertex of the combined multiset.
pub proof fn lemma_meshes_verts_bounded(ms: Seq<Mesh>)
    requires
        forall|j: int, k: int|
            0 <= j < ms.len() && 0 <= k < ms[j].vertices@.len() ==> vertex_bounded(
                #[trigger] ms[j].vertices@[k],
            ),
    ensures
        forall|v: Vertex| meshes_verts(ms).contains(v) ==> vertex_bounded(v),
    decreases ms.len(),
{
    if ms.len() > 0 {
        assert(forall|j: int, k: int|
            0 <= j < ms.drop_last().len() && 0 <= k < ms.drop_last()[j].vertices@.len()
                ==> vertex_bounded(#[trigger] ms.drop_last()[j].vertices@[k])) by {
            assert(forall|j: int|
                0 <= j < ms.len() - 1 ==> #[trigger] ms.drop_last()[j] == ms[j]);
        }
        lemma_meshes_verts_bounded(ms.drop_last());
        ms.last().vertices@.to_multiset_ensures();
        assert forall|v: Vertex| meshes_verts(ms).contains(v) implies vertex_bounded(v) by {
            if ms.last().vertices@.to_multiset().contains(v) {
                let k = choose|k: int|
                    0 <= k < ms.last().vertices@.len() && ms.last().vertices@[k] == v;
                assert(vertex_bounded(ms[ms.len() - 1].vertices@[k]));
            } else {
                assert(meshes_verts(ms.drop_last()).contains(v));
            }
        }
    }
}

/// If every indexed vertex of every model is bounded, so is every
/// vertex of the combined multiset.
pub proof fn lemma_models_verts_bounded(s: Seq<Model>)
    requires
        forall|m: int, j: int, k: int|
            0 <= m < s.len() && 0 <= j < s[m].meshes@.len() && 0 <= k
                < s[m].meshes@[j].vertices@.len() ==> vertex_bounded(
                #[trigger] s[m].meshes@[j].vertices@[k],
            ),
    ensures
        forall|v: Vertex| models_verts(s).contains(v) ==> vertex_bounded(v),
    decreases s.len(),
{
    if s.len() > 0 {
        assert forall|m: int, j: int, k: int|
            0 <= m < s.drop_last().len() && 0 <= j < s.drop_last()[m].meshes@.len() && 0 <= k
                < s.drop_last()[m].meshes@[j].vertices@.len() implies vertex_bounded(
            #[trigger] s.drop_last()[m].meshes@[j].vertices@[k],
        ) by {
            assert(s.drop_last()[m] == s[m]);
            assert(vertex_bounded(s[m].meshes@[j].vertices@[k]));
        }
        lemma_models_verts_bounded(s.drop_last());
        assert(forall|j: int, k: int|
            0 <= j < s.last().meshes@.len() && 0 <= k < s.last().meshes@[j].vertices@.len()
                ==> vertex_bounded(#[trigger] s.last().meshes@[j].vertices@[k])) by {
            assert(s.last() == s[s.len() - 1]);
        }
        lemma_meshes_verts_bounded(s.last().meshes@);
        assert forall|v: Vertex| models_verts(s).contains(v) implies vertex_bounded(v) by {
            if meshes_verts(s.last().meshes@).contains(v) {
            } else {
                assert(models_verts(s.drop_last()).contains(v));
            }
        }
    }
}

/// Every vertex of the scene has bounded attributes.
pub open spec fn scene_bounded(s: Scene) -> bool {
    forall|v: Vertex| scene_verts(s).contains(v) ==> vertex_bounded(v)
}

impl Scene {
    /// An empty scene.
    pub fn new() -> (s: Self)
        ensures
            s.models@.len() == 0,
            scene_verts(s) == Multiset::<Vertex>::empty(),
    {
        Self { models: Vec::new() }
    }
}

impl BoundingBox {
    /// Whether the box contains the point, inclusively on both bounds of
    /// every face, so that points on a face are accepted.
    pub fn contains_point(&self, point: &(Scalar, Scalar, Scalar)) -> (r: bool)
        ensures
            r == spec_contains_point(*self, *point),
    {
        point.0 >= self.min.0 && point.0 <= self.max.0 && point.1 >= self.min.1 && point.1
            <= self.max.1 && point.2 >= self.min.2 && point.2 <= self.max.2
    }

    /// The geometric center, each component rounded down to a scalar.
    pub fn center(&self) -> (c: (Scalar, Scalar, Scalar))
        requires
            box_wf(*self),
        ensures
            c.0 == mid_s(self.min.0, self.max.0),
            c.1 == mid_s(self.min.1, self.max.1),
            c.2 == mid_s(self.min.2, self.max.2),
            self.min.0 <= c.0 <= self.max.0,
            self.min.1 <= c.1 <= self.max.1,
            self.min.2 <= c.2 <= self.max.2,
            point_bounded(c),
    {
        proof {
            lemma_mid_s(self.min.0, self.max.0);
            lemma_mid_s(self.min.1, self.max.1);
            lemma_mid_s(self.min.2, self.max.2);
        }
        let dx: u64 = (self.max.0 - self.min.0) as u64;
        let dy: u64 = (self.max.1 - self.min.1) as u64;
        let dz: u64 = (self.max.2 - self.min.2) as u64;
        (
            self.min.0 + (dx / 2) as i64,
            self.min.1 + (dy / 2) as i64,
            self.min.2 + (dz / 2) as i64,
        )
    }
}

} // verus!
