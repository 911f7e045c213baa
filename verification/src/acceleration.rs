//! The spatial index: an octree over the vertex positions of a scene.
//!
//! A node either has no children or exactly eight, produced by bisecting
//! its box at the midpoint of every axis. Vertices are routed into the
//! first octant that contains them, inclusively on every face, and land
//! in a bucket once the configured depth is reached.

use vstd::prelude::*;
use vstd::multiset::Multiset;

use crate::venom_core::BoundingBox;
use crate::venom_core::OctreeNode;
use crate::venom_core::Scalar;
use crate::venom_core::Scene;
use crate::venom_core::Vertex;
use crate::venom_core::Mesh;
use crate::venom_core::Model;
use crate::venom_core::box_wf;
use crate::venom_core::lemma_meshes_verts_contains;
use crate::venom_core::lemma_meshes_verts_take;
use crate::venom_core::lemma_models_verts_contains;
use crate::venom_core::lemma_models_verts_take;
use crate::venom_core::meshes_verts;
use crate::venom_core::meshes_vertex_seq;
use crate::venom_core::models_vertex_seq;
use crate::venom_core::mid_s;
use crate::venom_core::models_verts;
use crate::venom_core::point_bounded;
use crate::venom_core::scene_bounded;
use crate::venom_core::scene_verts;
use crate::venom_core::spec_contains_point;
use crate::venom_core::vertex_bounded;

verus! {

/// Octants whose low half is taken along the x axis, in the fixed
/// enumeration order of the eight children.
pub open spec fn oct_low_x(i: int) -> bool {
    i == 0 || i == 2 || i == 3 || i == 5
}

/// Octants whose low half is taken along the y axis.
pub open spec fn oct_low_y(i: int) -> bool {
    i == 0 || i == 1 || i == 3 || i == 6
}

/// Octants whose low half is taken along the z axis.
pub open spec fn oct_low_z(i: int) -> bool {
    i == 0 || i == 1 || i == 2 || i == 7
}

/// The `i`-th of the eight sub-boxes produced by bisecting `b` at its
/// center along all three axes.
pub open spec fn octant(b: BoundingBox, i: int) -> BoundingBox
    recommends
        box_wf(b),
        0 <= i < 8,
{
    let cx = mid_s(b.min.0, b.max.0);
    let cy = mid_s(b.min.1, b.max.1);
    let cz = mid_s(b.min.2, b.max.2);
    BoundingBox {
        min: (
            if oct_low_x(i) {
                b.min.0
            } else {
                cx
            },
            if oct_low_y(i) {
                b.min.1
            } else {
                cy
            },
            if oct_low_z(i) {
                b.min.2
            } else {
                cz
            },
        ),
        max: (
            if oct_low_x(i) {
                cx
            } else {
                b.max.0
            },
            if oct_low_y(i) {
                cy
            } else {
                b.max.1
            },
            if oct_low_z(i) {
                cz
            } else {
                b.max.2
            },
        ),
    }
}

/// The volume of a box: the product of its three extents.
pub open spec fn box_volume(b: BoundingBox) -> int {
    (b.max.0 - b.min.0) * ((b.max.1 - b.min.1) * (b.max.2 - b.min.2))
}

/// The length of the overlap of two closed intervals.
pub open spec fn interval_overlap(lo1: int, hi1: int, lo2: int, hi2: int) -> int {
    let lo = if lo1 >= lo2 {
        lo1
    } else {
        lo2
    };
    let hi = if hi1 <= hi2 {
        hi1
    } else {
        hi2
    };
    if hi >= lo {
        hi - lo
    } else {
        0
    }
}

/// The volume shared by the interiors of two boxes.
pub open spec fn overlap_volume(a: BoundingBox, b: BoundingBox) -> int {
    interval_overlap(a.min.0 as int, a.max.0 as int, b.min.0 as int, b.max.0 as int)
        * (interval_overlap(a.min.1 as int, a.max.1 as int, b.min.1 as int, b.max.1 as int)
        * interval_overlap(a.min.2 as int, a.max.2 as int, b.min.2 as int, b.max.2 as int))
}

/// Which octant accepts a point whose per-axis low-half tests came out
/// as given: the first octant, in enumeration order, with those flags.
pub open spec fn flag_index(lx: bool, ly: bool, lz: bool) -> int {
    if lx && ly && lz {
        0
    } else if !lx && ly && lz {
        1
    } else if lx && !ly && lz {
        2
    } else if lx && ly && !lz {
        3
    } else if !lx && !ly && !lz {
        4
    } else if lx && !ly && !lz {
        5
    } else if !lx && ly && !lz {
        6
    } else {
        7
    }
}

/// Each octant of a well-formed box is itself well formed and lies
/// inside its parent.
pub proof fn lemma_octant_wf(b: BoundingBox, i: int)
    requires
        box_wf(b),
        0 <= i < 8,
    ensures
        box_wf(octant(b, i)),
        forall|p: (Scalar, Scalar, Scalar)|
            spec_contains_point(octant(b, i), p) ==> spec_contains_point(b, p),
{
    crate::venom_core::lemma_mid_s(b.min.0, b.max.0);
    crate::venom_core::lemma_mid_s(b.min.1, b.max.1);
    crate::venom_core::lemma_mid_s(b.min.2, b.max.2);
}

/// A point contained in a box is contained in at least one of its
/// octants: the inclusive bounds leave no point on a split plane behind.
pub proof fn lemma_octant_cover(b: BoundingBox, p: (Scalar, Scalar, Scalar))
    requires
        box_wf(b),
        spec_contains_point(b, p),
    ensures
        exists|i: int| 0 <= i < 8 && spec_contains_point(octant(b, i), p),
{
    crate::venom_core::lemma_mid_s(b.min.0, b.max.0);
    crate::venom_core::lemma_mid_s(b.min.1, b.max.1);
    crate::venom_core::lemma_mid_s(b.min.2, b.max.2);
    let lx = p.0 <= mid_s(b.min.0, b.max.0);
    let ly = p.1 <= mid_s(b.min.1, b.max.1);
    let lz = p.2 <= mid_s(b.min.2, b.max.2);
    let i = flag_index(lx, ly, lz);
    assert(0 <= i < 8 && spec_contains_point(octant(b, i), p));
}

/// Law (tiling): bisecting a well-formed box at its center yields eight
/// octants whose volumes sum exactly to the parent volume.
pub proof fn lemma_octant_volumes(b: BoundingBox)
    requires
        box_wf(b),
    ensures
        box_volume(octant(b, 0)) + box_volume(octant(b, 1)) + box_volume(octant(b, 2))
            + box_volume(octant(b, 3)) + box_volume(octant(b, 4)) + box_volume(octant(b, 5))
            + box_volume(octant(b, 6)) + box_volume(octant(b, 7)) == box_volume(b),
{
    crate::venom_core::lemma_mid_s(b.min.0, b.max.0);
    crate::venom_core::lemma_mid_s(b.min.1, b.max.1);
    crate::venom_core::lemma_mid_s(b.min.2, b.max.2);
    let cx = mid_s(b.min.0, b.max.0) as int;
    let cy = mid_s(b.min.1, b.max.1) as int;
    let cz = mid_s(b.min.2, b.max.2) as int;
    let a0 = cx - b.min.0;
    let b0 = b.max.0 - cx;
    let a1 = cy - b.min.1;
    let b1 = b.max.1 - cy;
    let a2 = cz - b.min.2;
    let b2 = b.max.2 - cz;
    let s12 = (a1 + b1) * (a2 + b2);
    assert(s12 == a1 * a2 + a1 * b2 + b1 * a2 + b1 * b2) by (nonlinear_arith)
        requires
            s12 == (a1 + b1) * (a2 + b2),
    ;
    assert((a0 + b0) * s12 == a0 * s12 + b0 * s12) by (nonlinear_arith);
    assert(a0 * s12 == a0 * (a1 * a2) + a0 * (a1 * b2) + a0 * (b1 * a2) + a0 * (b1 * b2))
        by (nonlinear_arith)
        requires
            s12 == a1 * a2 + a1 * b2 + b1 * a2 + b1 * b2,
    ;
    assert(b0 * s12 == b0 * (a1 * a2) + b0 * (a1 * b2) + b0 * (b1 * a2) + b0 * (b1 * b2))
        by (nonlinear_arith)
        requires
            s12 == a1 * a2 + a1 * b2 + b1 * a2 + b1 * b2,
    ;
}

/// Law (tiling): two distinct octants of a well-formed box share no
/// interior volume.
pub proof fn lemma_octant_disjoint(b: BoundingBox, i: int, j: int)
    requires
        box_wf(b),
        0 <= i < 8,
        0 <= j < 8,
        i != j,
    ensures
        overlap_volume(octant(b, i), octant(b, j)) == 0,
{
    crate::venom_core::lemma_mid_s(b.min.0, b.max.0);
    crate::venom_core::lemma_mid_s(b.min.1, b.max.1);
    crate::venom_core::lemma_mid_s(b.min.2, b.max.2);
    let oi = octant(b, i);
    let oj = octant(b, j);
    assert(oct_low_x(i) == oct_low_x(j) && oct_low_y(i) == oct_low_y(j) && oct_low_z(i)
        == oct_low_z(j) ==> i == j);
    if oct_low_x(i) != oct_low_x(j) {
        assert(interval_overlap(oi.min.0 as int, oi.max.0 as int, oj.min.0 as int, oj.max.0 as int)
            == 0);
    } else if oct_low_y(i) != oct_low_y(j) {
        assert(interval_overlap(oi.min.1 as int, oi.max.1 as int, oj.min.1 as int, oj.max.1 as int)
            == 0);
        assert(overlap_volume(oi, oj) == interval_overlap(
            oi.min.0 as int,
            oi.max.0 as int,
            oj.min.0 as int,
            oj.max.0 as int,
        ) * 0) by {
            assert(0 * interval_overlap(
                oi.min.2 as int,
                oi.max.2 as int,
                oj.min.2 as int,
                oj.max.2 as int,
            ) == 0) by (nonlinear_arith);
        }
        assert(overlap_volume(oi, oj) == 0) by (nonlinear_arith)
            requires
                overlap_volume(oi, oj) == interval_overlap(
                    oi.min.0 as int,
                    oi.max.0 as int,
                    oj.min.0 as int,
                    oj.max.0 as int,
                ) * 0,
        ;
    } else {
        assert(interval_overlap(oi.min.2 as int, oi.max.2 as int, oj.min.2 as int, oj.max.2 as int)
            == 0);
        assert(overlap_volume(oi, oj) == 0) by (nonlinear_arith)
            requires
                interval_overlap(
                    oi.min.2 as int,
                    oi.max.2 as int,
                    oj.min.2 as int,
                    oj.max.2 as int,
                ) == 0,
                overlap_volume(oi, oj) == interval_overlap(
                    oi.min.0 as int,
                    oi.max.0 as int,
                    oj.min.0 as int,
                    oj.max.0 as int,
                ) * (interval_overlap(
                    oi.min.1 as int,
                    oi.max.1 as int,
                    oj.min.1 as int,
                    oj.max.1 as int,
                ) * interval_overlap(
                    oi.min.2 as int,
                    oi.max.2 as int,
                    oj.min.2 as int,
                    oj.max.2 as int,
                )),
        ;
    }
}

/// The specification's picture of a subtree: box, bucket and children
/// as pure values, so that contracts can pin the whole structure a
/// build produces, not only what it stores.
#[verifier::ext_equal]
pub struct NodeModel {
    pub bounds: BoundingBox,
    pub bucket: Seq<Vertex>,
    pub children: Seq<NodeModel>,
}

/// The eight fresh octant children of a box, in enumeration order.
pub open spec fn spec_make_children(b: BoundingBox) -> Seq<NodeModel> {
    Seq::new(
        8,
        |i: int| NodeModel { bounds: octant(b, i), bucket: Seq::empty(), children: Seq::empty() },
    )
}

/// The first child at or after `i`, in enumeration order, whose box
/// contains the point, or the child count when none does.
pub open spec fn first_containing_from(
    children: Seq<NodeModel>,
    p: (Scalar, Scalar, Scalar),
    i: int,
) -> int
    decreases children.len() - i,
{
    if i < 0 || i >= children.len() {
        children.len() as int
    } else if spec_contains_point(children[i].bounds, p) {
        i
    } else {
        first_containing_from(children, p, i + 1)
    }
}

/// A scan never stops before its start nor past the end.
proof fn lemma_first_containing_range(
    children: Seq<NodeModel>,
    p: (Scalar, Scalar, Scalar),
    i: int,
)
    requires
        0 <= i <= children.len(),
    ensures
        i <= first_containing_from(children, p, i) <= children.len(),
    decreases children.len() - i,
{
    if i < children.len() && !spec_contains_point(children[i].bounds, p) {
        lemma_first_containing_range(children, p, i + 1);
    }
}

/// A scan that saw no earlier containing child stops exactly at the
/// first containing one.
proof fn lemma_first_containing_from(
    children: Seq<NodeModel>,
    p: (Scalar, Scalar, Scalar),
    i: int,
    idx: int,
)
    requires
        0 <= i <= idx < children.len(),
        spec_contains_point(children[idx].bounds, p),
        forall|j: int| i <= j < idx ==> !spec_contains_point((#[trigger] children[j]).bounds, p),
    ensures
        first_containing_from(children, p, i) == idx,
    decreases idx - i,
{
    if i < idx {
        lemma_first_containing_from(children, p, i + 1, idx);
    }
}

/// One insertion, exactly as the build performs it: at the configured
/// depth the vertex joins this node's bucket and nothing else moves;
/// above it, the eight octants are created on first use and the vertex
/// is routed into the first one, in enumeration order, whose box
/// contains it. The last octant stands in as the deterministic
/// fallback; a point the node's own box contains never needs it.
pub open spec fn spec_insert(
    node: NodeModel,
    vertex: Vertex,
    max_depth: int,
    current_depth: int,
) -> NodeModel
    decreases max_depth - current_depth,
{
    if current_depth >= max_depth {
        NodeModel { bucket: node.bucket.push(vertex), ..node }
    } else {
        let kids = if node.children.len() == 0 {
            spec_make_children(node.bounds)
        } else {
            node.children
        };
        let i0 = first_containing_from(kids, vertex.position, 0);
        let i = if i0 < kids.len() {
            i0
        } else {
            kids.len() - 1
        };
        NodeModel {
            children: kids.update(i, spec_insert(kids[i], vertex, max_depth, current_depth + 1)),
            ..node
        }
    }
}

/// Every insertion of a build: the vertices folded into the tree one
/// at a time, in order, each routed from the root.
pub open spec fn spec_build_from(m: NodeModel, vs: Seq<Vertex>, max_depth: int) -> NodeModel
    decreases vs.len(),
{
    if vs.len() == 0 {
        m
    } else {
        spec_insert(spec_build_from(m, vs.drop_last(), max_depth), vs.last(), max_depth, 0)
    }
}

/// The tight componentwise bounds of a vertex sequence, folded in
/// order from the inverted extreme corners.
pub open spec fn spec_fold_bounds(vs: Seq<Vertex>) -> BoundingBox
    decreases vs.len(),
{
    if vs.len() == 0 {
        BoundingBox {
            min: (
                crate::fixed::COORD_LIMIT,
                crate::fixed::COORD_LIMIT,
                crate::fixed::COORD_LIMIT,
            ),
            max: (
                (-(crate::fixed::COORD_LIMIT as int)) as i64,
                (-(crate::fixed::COORD_LIMIT as int)) as i64,
                (-(crate::fixed::COORD_LIMIT as int)) as i64,
            ),
        }
    } else {
        let b = spec_fold_bounds(vs.drop_last());
        let p = vs.last().position;
        BoundingBox {
            min: (
                if p.0 < b.min.0 {
                    p.0
                } else {
                    b.min.0
                },
                if p.1 < b.min.1 {
                    p.1
                } else {
                    b.min.1
                },
                if p.2 < b.min.2 {
                    p.2
                } else {
                    b.min.2
                },
            ),
            max: (
                if p.0 > b.max.0 {
                    p.0
                } else {
                    b.max.0
                },
                if p.1 > b.max.1 {
                    p.1
                } else {
                    b.max.1
                },
                if p.2 > b.max.2 {
                    p.2
                } else {
                    b.max.2
                },
            ),
        }
    }
}

/// The root box of a build: the tight componentwise minimum and
/// maximum over every vertex position, or a degenerate box at the
/// origin for a scene without vertices.
pub open spec fn spec_root_bounds(vs: Seq<Vertex>) -> BoundingBox {
    if vs.len() == 0 {
        BoundingBox { min: (0, 0, 0), max: (0, 0, 0) }
    } else {
        spec_fold_bounds(vs)
    }
}

/// The whole tree a build of this scene at this depth denotes: the
/// tight root box, then every scene vertex inserted in order. Two
/// builds of equal input denote, and so produce, the same tree.
pub open spec fn spec_build(s: Scene, max_depth: int) -> NodeModel {
    let vs = crate::venom_core::scene_vertex_seq(s);
    spec_build_from(
        NodeModel {
            bounds: spec_root_bounds(vs),
            bucket: Seq::empty(),
            children: Seq::empty(),
        },
        vs,
        max_depth,
    )
}

/// No node of the tree is simultaneously subdivided and a non-empty
/// bucket.
pub open spec fn spec_no_mixed(m: NodeModel) -> bool
    decreases m,
{
    &&& (m.children.len() > 0 ==> m.bucket.len() == 0)
    &&& forall|i: int| 0 <= i < m.children.len() ==> spec_no_mixed(#[trigger] m.children[i])
}

/// The depth discipline of a build with `r` levels of routing left at
/// this node: a node that still routes holds nothing itself, and a
/// node at the floor is never subdivided.
pub open spec fn spec_depth_ok(m: NodeModel, r: int) -> bool
    decreases m,
{
    &&& (r > 0 ==> m.bucket.len() == 0)
    &&& (r <= 0 ==> m.children.len() == 0)
    &&& forall|i: int| 0 <= i < m.children.len() ==> spec_depth_ok(#[trigger] m.children[i], r - 1)
}

/// The depth discipline keeps buckets and subdivision apart.
proof fn lemma_depth_ok_no_mixed(m: NodeModel, r: int)
    requires
        spec_depth_ok(m, r),
    ensures
        spec_no_mixed(m),
    decreases m,
{
    assert forall|i: int| 0 <= i < m.children.len() implies spec_no_mixed(
        #[trigger] m.children[i],
    ) by {
        lemma_depth_ok_no_mixed(m.children[i], r - 1);
    }
}

/// One insertion preserves the depth discipline.
proof fn lemma_spec_insert_depth_ok(m: NodeModel, vertex: Vertex, max_depth: int, current_depth: int)
    requires
        current_depth <= max_depth,
        spec_depth_ok(m, max_depth - current_depth),
    ensures
        spec_depth_ok(
            spec_insert(m, vertex, max_depth, current_depth),
            max_depth - current_depth,
        ),
    decreases max_depth - current_depth,
{
    let res = spec_insert(m, vertex, max_depth, current_depth);
    if current_depth >= max_depth {
        assert(res.children == m.children);
        assert forall|j: int| 0 <= j < res.children.len() implies spec_depth_ok(
            #[trigger] res.children[j],
            max_depth - current_depth - 1,
        ) by {
            assert(spec_depth_ok(m.children[j], max_depth - current_depth - 1));
        }
    } else {
        let r = max_depth - current_depth;
        let kids = if m.children.len() == 0 {
            spec_make_children(m.bounds)
        } else {
            m.children
        };
        assert forall|i: int| 0 <= i < kids.len() implies spec_depth_ok(
            #[trigger] kids[i],
            r - 1,
        ) by {
            if m.children.len() == 0 {
                assert(kids[i].bucket.len() == 0 && kids[i].children.len() == 0);
            } else {
                assert(spec_depth_ok(m.children[i], r - 1));
            }
        }
        let i0 = first_containing_from(kids, vertex.position, 0);
        lemma_first_containing_range(kids, vertex.position, 0);
        let i = if i0 < kids.len() {
            i0
        } else {
            kids.len() - 1
        };
        assert(0 <= i < kids.len());
        assert(spec_depth_ok(kids[i], r - 1));
        lemma_spec_insert_depth_ok(kids[i], vertex, max_depth, current_depth + 1);
        let sub = spec_insert(kids[i], vertex, max_depth, current_depth + 1);
        assert(res.children == kids.update(i, sub));
        assert forall|j: int| 0 <= j < res.children.len() implies spec_depth_ok(
            #[trigger] res.children[j],
            r - 1,
        ) by {
            if j == i {
                assert(res.children[j] == sub);
            } else {
                assert(res.children[j] == kids[j]);
            }
        }
        assert(res.bucket == m.bucket);
    }
}

/// A whole build preserves the depth discipline.
proof fn lemma_spec_build_from_depth_ok(m: NodeModel, vs: Seq<Vertex>, max_depth: int)
    requires
        max_depth >= 0,
        spec_depth_ok(m, max_depth),
    ensures
        spec_depth_ok(spec_build_from(m, vs, max_depth), max_depth),
    decreases vs.len(),
{
    if vs.len() > 0 {
        lemma_spec_build_from_depth_ok(m, vs.drop_last(), max_depth);
        lemma_spec_insert_depth_ok(
            spec_build_from(m, vs.drop_last(), max_depth),
            vs.last(),
            max_depth,
            0,
        );
    }
}

/// Law (no mixed nodes): in a built tree, no node is simultaneously
/// subdivided and a non-empty bucket: routing nodes hold nothing, and
/// buckets sit only at the configured depth, as the insertion policy
/// prescribes.
pub proof fn lemma_built_no_mixed(s: Scene, max_depth: int)
    requires
        max_depth >= 0,
    ensures
        spec_no_mixed(spec_build(s, max_depth)),
{
    let vs = crate::venom_core::scene_vertex_seq(s);
    let init = NodeModel {
        bounds: spec_root_bounds(vs),
        bucket: Seq::empty(),
        children: Seq::empty(),
    };
    assert(spec_depth_ok(init, max_depth));
    lemma_spec_build_from_depth_ok(init, vs, max_depth);
    lemma_depth_ok_no_mixed(spec_build(s, max_depth), max_depth);
}

impl OctreeNode {
    /// The abstract tree this node stores. A node that does not carry
    /// its full eight children reads as a leaf; well-formed trees have
    /// none such.
    pub open spec fn model(self) -> NodeModel
        decreases self,
    {
        NodeModel {
            bounds: self.bounds,
            bucket: self.vertices@,
            children: if self.children@.len() == 8 {
                seq![
                    self.children@[0].model(),
                    self.children@[1].model(),
                    self.children@[2].model(),
                    self.children@[3].model(),
                    self.children@[4].model(),
                    self.children@[5].model(),
                    self.children@[6].model(),
                    self.children@[7].model(),
                ]
            } else {
                Seq::empty()
            },
        }
    }

    /// Every vertex stored in this subtree, as a multiset.
    pub open spec fn verts(self) -> Multiset<Vertex>
        decreases self,
    {
        if self.children@.len() == 8 {
            self.vertices@.to_multiset().add(self.children@[0].verts()).add(
                self.children@[1].verts(),
            ).add(self.children@[2].verts()).add(self.children@[3].verts()).add(
                self.children@[4].verts(),
            ).add(self.children@[5].verts()).add(self.children@[6].verts()).add(
                self.children@[7].verts(),
            )
        } else {
            self.vertices@.to_multiset()
        }
    }

    /// Structural soundness of a subtree: boxes are well formed, buckets
    /// hold bounded vertices that their node's box contains, and the eight
    /// children of a subdivided node tile the parent box in the fixed
    /// enumeration order.
    pub open spec fn wf(self) -> bool
        decreases self,
    {
        &&& box_wf(self.bounds)
        &&& self.children@.len() == 0 || self.children@.len() == 8
        &&& (forall|k: int|
            0 <= k < self.vertices@.len() ==> vertex_bounded(#[trigger] self.vertices@[k])
                && spec_contains_point(self.bounds, self.vertices@[k].position))
        &&& (self.children@.len() == 8 ==> (forall|i: int|
            0 <= i < 8 ==> (#[trigger] self.children@[i]).bounds == octant(self.bounds, i)
                && self.children@[i].wf()))
    }

    /// A vertex is reachable from this node by repeated point-containment
    /// descent: it sits in this node's bucket, or in a child whose box
    /// contains its position, recursively.
    pub open spec fn reaches(self, v: Vertex) -> bool
        decreases self,
    {
        self.vertices@.contains(v) || (self.children@.len() == 8 && exists|i: int|
            0 <= i < 8 && spec_contains_point((#[trigger] self.children@[i]).bounds, v.position)
                && self.children@[i].reaches(v))
    }

    /// Every vertex stored in a well-formed subtree lies inside the
    /// subtree's box and is bounded.
    pub proof fn lemma_verts_in_bounds(self, v: Vertex)
        requires
            self.wf(),
            self.verts().contains(v),
        ensures
            spec_contains_point(self.bounds, v.position),
            vertex_bounded(v),
        decreases self,
    {
        self.vertices@.to_multiset_ensures();
        if self.children@.len() == 8 {
            if self.vertices@.to_multiset().count(v) > 0 {
                let k = choose|k: int| 0 <= k < self.vertices@.len() && self.vertices@[k] == v;
                assert(vertex_bounded(self.vertices@[k]));
            } else {
                let i = if self.children@[0].verts().count(v) > 0 {
                    0int
                } else if self.children@[1].verts().count(v) > 0 {
                    1int
                } else if self.children@[2].verts().count(v) > 0 {
                    2int
                } else if self.children@[3].verts().count(v) > 0 {
                    3int
                } else if self.children@[4].verts().count(v) > 0 {
                    4int
                } else if self.children@[5].verts().count(v) > 0 {
                    5int
                } else if self.children@[6].verts().count(v) > 0 {
                    6int
                } else {
                    7int
                };
                assert(self.children@[i].verts().contains(v));
                self.children@[i].lemma_verts_in_bounds(v);
                lemma_octant_wf(self.bounds, i);
            }
        } else {
            let k = choose|k: int| 0 <= k < self.vertices@.len() && self.vertices@[k] == v;
            assert(vertex_bounded(self.vertices@[k]));
        }
    }

    /// Law (reachability): every vertex stored in a well-formed subtree
    /// is reachable from its root by repeated point-containment descent.
    pub proof fn lemma_octree_reachable(self, v: Vertex)
        requires
            self.wf(),
            self.verts().contains(v),
        ensures
            self.reaches(v),
        decreases self,
    {
        self.vertices@.to_multiset_ensures();
        if self.children@.len() == 8 {
            if self.vertices@.to_multiset().count(v) > 0 {
            } else {
                let i = if self.children@[0].verts().count(v) > 0 {
                    0int
                } else if self.children@[1].verts().count(v) > 0 {
                    1int
                } else if self.children@[2].verts().count(v) > 0 {
                    2int
                } else if self.children@[3].verts().count(v) > 0 {
                    3int
                } else if self.children@[4].verts().count(v) > 0 {
                    4int
                } else if self.children@[5].verts().count(v) > 0 {
                    5int
                } else if self.children@[6].verts().count(v) > 0 {
                    6int
                } else {
                    7int
                };
                assert(self.children@[i].verts().contains(v));
                self.children@[i].lemma_verts_in_bounds(v);
                self.children@[i].lemma_octree_reachable(v);
            }
        }
    }

    /// Law (tiling): for every subdivided well-formed node, the eight
    /// children's box volumes sum exactly to the parent's volume, and no
    /// two children's boxes overlap in interior volume.
    pub proof fn lemma_octree_tiling(self)
        requires
            self.wf(),
            self.children@.len() == 8,
        ensures
            box_volume(self.children@[0].bounds) + box_volume(self.children@[1].bounds)
                + box_volume(self.children@[2].bounds) + box_volume(self.children@[3].bounds)
                + box_volume(self.children@[4].bounds) + box_volume(self.children@[5].bounds)
                + box_volume(self.children@[6].bounds) + box_volume(self.children@[7].bounds)
                == box_volume(self.bounds),
            forall|i: int, j: int|
                0 <= i < 8 && 0 <= j < 8 && i != j ==> overlap_volume(
                    (#[trigger] self.children@[i]).bounds,
                    (#[trigger] self.children@[j]).bounds,
                ) == 0,
    {
        lemma_octant_volumes(self.bounds);
        assert forall|i: int, j: int| 0 <= i < 8 && 0 <= j < 8 && i != j implies overlap_volume(
            (#[trigger] self.children@[i]).bounds,
            (#[trigger] self.children@[j]).bounds,
        ) == 0 by {
            lemma_octant_disjoint(self.bounds, i, j);
        }
    }

    /// A fresh leaf node with the given box and an empty bucket.
    pub fn new(bounds: BoundingBox) -> (node: Self)
        ensures
            node.bounds == bounds,
            node.vertices@.len() == 0,
            node.children@.len() == 0,
            node.verts() == Multiset::<Vertex>::empty(),
            box_wf(bounds) ==> node.wf(),
    {
        let node = Self { bounds, vertices: Vec::new(), children: Vec::new() };
        proof {
            node.vertices@.to_multiset_ensures();
            assert(node.vertices@.to_multiset() =~= Multiset::<Vertex>::empty());
        }
        node
    }

    /// Create the eight children by bisecting this node's box at its
    /// geometric center along all three axes, in the fixed enumeration
    /// order. The bucket and the box stay as they are.
    fn subdivide(&mut self)
        requires
            old(self).wf(),
            old(self).children@.len() == 0,
        ensures
            final(self).wf(),
            final(self).bounds == old(self).bounds,
            final(self).vertices@ == old(self).vertices@,
            final(self).children@.len() == 8,
            final(self).verts() == old(self).verts(),
            forall|i: int|
                0 <= i < 8 ==> (#[trigger] final(self).children@[i]).bounds == octant(
                    old(self).bounds,
                    i,
                ) && final(self).children@[i].verts() == Multiset::<Vertex>::empty(),
            final(self).model() == (NodeModel {
                children: spec_make_children(old(self).bounds),
                ..old(self).model()
            }),
    {
        let center = self.bounds.center();
        let mn = self.bounds.min;
        let mx = self.bounds.max;
        let mut kids: Vec<OctreeNode> = Vec::new();
        kids.push(OctreeNode::new(BoundingBox { min: mn, max: center }));
        kids.push(
            OctreeNode::new(
                BoundingBox {
                    min: (center.0, mn.1, mn.2),
                    max: (mx.0, center.1, center.2),
                },
            ),
        );
        kids.push(
            OctreeNode::new(
                BoundingBox {
                    min: (mn.0, center.1, mn.2),
                    max: (center.0, mx.1, center.2),
                },
            ),
        );
        kids.push(
            OctreeNode::new(
                BoundingBox {
                    min: (mn.0, mn.1, center.2),
                    max: (center.0, center.1, mx.2),
                },
            ),
        );
        kids.push(OctreeNode::new(BoundingBox { min: center, max: mx }));
        kids.push(
            OctreeNode::new(
                BoundingBox {
                    min: (mn.0, center.1, center.2),
                    max: (center.0, mx.1, mx.2),
                },
            ),
        );
        kids.push(
            OctreeNode::new(
                BoundingBox {
                    min: (center.0, mn.1, center.2),
                    max: (mx.0, center.1, mx.2),
                },
            ),
        );
        kids.push(
            OctreeNode::new(
                BoundingBox {
                    min: (center.0, center.1, mn.2),
                    max: (mx.0, mx.1, center.2),
                },
            ),
        );
        proof {
            assert forall|i: int| 0 <= i < 8 implies (#[trigger] kids@[i]).bounds == octant(
                self.bounds,
                i,
            ) && kids@[i].wf() && kids@[i].verts() == Multiset::<Vertex>::empty() by {
                lemma_octant_wf(self.bounds, i);
            }
        }
        self.children = kids;
        proof {
            assert(self.verts() =~= old(self).verts());
            assert forall|i: int| 0 <= i < 8 implies self.model().children[i]
                == spec_make_children(old(self).bounds)[i] by {
                assert(self.children@[i].model() =~~= spec_make_children(old(self).bounds)[i]);
            }
            assert(self.model().children =~~= spec_make_children(old(self).bounds));
            assert(self.model().bounds == old(self).model().bounds);
            assert(self.model().bucket =~~= old(self).model().bucket);
            assert(self.model() =~~= (NodeModel {
                children: spec_make_children(old(self).bounds),
                ..old(self).model()
            }));
        }
    }

    /// The index of the first child, in enumeration order, whose box
    /// contains the point.
    fn pick_child(children: &Vec<OctreeNode>, p: &(Scalar, Scalar, Scalar)) -> (i: usize)
        requires
            children@.len() == 8,
            exists|j: int| 0 <= j < 8 && spec_contains_point((#[trigger] children@[j]).bounds, *p),
        ensures
            i < 8,
            spec_contains_point(children@[i as int].bounds, *p),
            forall|j: int|
                0 <= j < i ==> !spec_contains_point((#[trigger] children@[j]).bounds, *p),
    {
        let mut i: usize = 0;
        while i < 7
            invariant
                i <= 7,
                children@.len() == 8,
                exists|j: int|
                    0 <= j < 8 && spec_contains_point((#[trigger] children@[j]).bounds, *p),
                forall|j: int|
                    0 <= j < i ==> !spec_contains_point((#[trigger] children@[j]).bounds, *p),
            decreases 7 - i,
        {
            if children[i].bounds.contains_point(p) {
                return i;
            }
            i = i + 1;
        }
        i
    }

    /// Insert one vertex. At the configured depth it is appended to this
    /// node's bucket; above it, the node is subdivided on first use and
    /// the vertex is routed into the first octant that contains it.
    #[verifier::rlimit(100)]
    pub fn insert(&mut self, vertex: Vertex, max_depth: usize, current_depth: usize)
        requires
            old(self).wf(),
            current_depth <= max_depth,
            vertex_bounded(vertex),
            spec_contains_point(old(self).bounds, vertex.position),
        ensures
            final(self).wf(),
            final(self).bounds == old(self).bounds,
            final(self).verts() == old(self).verts().insert(vertex),
            final(self).model() == spec_insert(
                old(self).model(),
                vertex,
                max_depth as int,
                current_depth as int,
            ),
        decreases max_depth - current_depth,
    {
        let ghost old_model = old(self).model();
        if current_depth == max_depth {
            proof {
                self.vertices@.to_multiset_ensures();
            }
            self.vertices.push(vertex);
            proof {
                assert(self.verts() =~= old(self).verts().insert(vertex));
                assert(self.model() =~~= spec_insert(
                    old_model,
                    vertex,
                    max_depth as int,
                    current_depth as int,
                ));
            }
        } else {
            if self.children.len() == 0 {
                self.subdivide();
            }
            proof {
                lemma_octant_cover(self.bounds, vertex.position);
                let i0 = choose|i: int|
                    0 <= i < 8 && spec_contains_point(octant(self.bounds, i), vertex.position);
                assert(spec_contains_point(self.children@[i0].bounds, vertex.position));
            }
            let idx = Self::pick_child(&self.children, &vertex.position);
            let ghost before = *self;
            let child = &mut self.children[idx];
            child.insert(vertex, max_depth, current_depth + 1);
            proof {
                assert(self.children@ =~= before.children@.update(
                    idx as int,
                    self.children@[idx as int],
                ));
                assert forall|i: int|
                    0 <= i < 8 implies (#[trigger] self.children@[i]).bounds == octant(
                    self.bounds,
                    i,
                ) && self.children@[i].wf() by {
                    if i != idx as int {
                        assert(self.children@[i] == before.children@[i]);
                    }
                }
                assert(self.wf());
                assert(self.verts() =~= before.verts().insert(vertex));
                assert(before.verts() == old(self).verts());
                // the whole new tree is the one the insertion spec names
                let kids = if old_model.children.len() == 0 {
                    spec_make_children(old_model.bounds)
                } else {
                    old_model.children
                };
                assert(before.model().children =~~= kids);
                assert forall|j: int| 0 <= j < 8 implies kids[j] == (
                #[trigger] before.children@[j]).model() by {
                    assert(before.model().children[j] == before.children@[j].model());
                }
                assert(spec_contains_point(kids[idx as int].bounds, vertex.position));
                assert forall|j: int| 0 <= j < idx as int implies !spec_contains_point(
                    (#[trigger] kids[j]).bounds,
                    vertex.position,
                ) by {
                    assert(kids[j].bounds == before.children@[j].bounds);
                }
                lemma_first_containing_from(kids, vertex.position, 0, idx as int);
                assert(self.children@[idx as int].model() == spec_insert(
                    kids[idx as int],
                    vertex,
                    max_depth as int,
                    current_depth as int + 1,
                ));
                assert(self.model().children =~~= kids.update(
                    idx as int,
                    spec_insert(
                        kids[idx as int],
                        vertex,
                        max_depth as int,
                        current_depth as int + 1,
                    ),
                ));
                assert(self.model() =~~= spec_insert(
                    old_model,
                    vertex,
                    max_depth as int,
                    current_depth as int,
                ));
            }
        }
    }

    /// The number of copies of `u` among this node's bucket and the
    /// subtrees of its first `n` children, counting only vertices that
    /// sit at position `p`.
    pub open spec fn query_count(self, p: (Scalar, Scalar, Scalar), n: int, u: Vertex) -> int
        decreases n,
    {
        if n <= 0 {
            if u.position == p {
                self.vertices@.to_multiset().count(u) as int
            } else {
                0
            }
        } else {
            self.query_count(p, n - 1, u) + (if u.position == p && n <= self.children@.len() {
                self.children@[n - 1].verts().count(u) as int
            } else {
                0
            })
        }
    }

    /// Collect every stored vertex whose position equals `p`, descending
    /// only into children whose box contains `p`.
    pub fn query_point(&self, p: &(Scalar, Scalar, Scalar)) -> (found: Vec<Vertex>)
        requires
            self.wf(),
        ensures
            forall|u: Vertex| #[trigger]
                found@.to_multiset().count(u) == (if u.position == *p {
                    self.verts().count(u) as int
                } else {
                    0
                }),
        decreases *self,
    {
        let mut found: Vec<Vertex> = Vec::new();
        proof {
            found@.to_multiset_ensures();
            self.vertices@.take(0int).to_multiset_ensures();
            assert(found@.to_multiset() =~= Multiset::<Vertex>::empty());
            assert(self.vertices@.take(0int) =~= Seq::<Vertex>::empty());
            assert(self.vertices@.take(0int).to_multiset() =~= Multiset::<Vertex>::empty());
        }
        let mut k: usize = 0;
        while k < self.vertices.len()
            invariant
                k <= self.vertices@.len(),
                forall|u: Vertex| #[trigger]
                    found@.to_multiset().count(u) == (if u.position == *p {
                        self.vertices@.take(k as int).to_multiset().count(u) as int
                    } else {
                        0
                    }),
            decreases self.vertices@.len() - k,
        {
            let v = self.vertices[k];
            proof {
                found@.to_multiset_ensures();
                self.vertices@.take(k as int).to_multiset_ensures();
                assert(self.vertices@.take(k as int + 1) =~= self.vertices@.take(k as int).push(
                    v,
                ));
            }
            if v.position.0 == p.0 && v.position.1 == p.1 && v.position.2 == p.2 {
                found.push(v);
            }
            k = k + 1;
        }
        proof {
            assert(self.vertices@.take(k as int) =~= self.vertices@);
        }
        if self.children.len() == 8 {
            let mut i: usize = 0;
            proof {
                assert(forall|u: Vertex| #[trigger]
                    found@.to_multiset().count(u) == self.query_count(*p, 0, u));
            }
            while i < 8
                invariant
                    self.wf(),
                    self.children@.len() == 8,
                    i <= 8,
                    forall|u: Vertex| #[trigger]
                        found@.to_multiset().count(u) == self.query_count(*p, i as int, u),
                decreases 8 - i,
            {
                let ghost found_pre = found@;
                if self.children[i].bounds.contains_point(p) {
                    let mut sub = self.children[i].query_point(p);
                    proof {
                        vstd::seq_lib::lemma_multiset_commutative(found@, sub@);
                    }
                    let ghost sub_pre = sub@;
                    found.append(&mut sub);
                    proof {
                        assert(found@ =~= found_pre + sub_pre);
                    }
                } else {
                    proof {
                        assert forall|u: Vertex|
                            u.position == *p implies (#[trigger] self.children@[i as int].verts().count(
                            u,
                        )) == 0 by {
                            if self.children@[i as int].verts().count(u) > 0 {
                                self.children@[i as int].lemma_verts_in_bounds(u);
                            }
                        }
                    }
                }
                i = i + 1;
            }
            proof {
                assert forall|u: Vertex| #[trigger]
                    found@.to_multiset().count(u) == (if u.position == *p {
                        self.verts().count(u) as int
                    } else {
                        0
                    }) by {
                    assert(self.query_count(*p, 8, u) == self.query_count(*p, 7, u) + (if u.position
                        == *p {
                        self.children@[7].verts().count(u) as int
                    } else {
                        0
                    }));
                    assert(self.query_count(*p, 7, u) == self.query_count(*p, 6, u) + (if u.position
                        == *p {
                        self.children@[6].verts().count(u) as int
                    } else {
                        0
                    }));
                    assert(self.query_count(*p, 6, u) == self.query_count(*p, 5, u) + (if u.position
                        == *p {
                        self.children@[5].verts().count(u) as int
                    } else {
                        0
                    }));
                    assert(self.query_count(*p, 5, u) == self.query_count(*p, 4, u) + (if u.position
                        == *p {
                        self.children@[4].verts().count(u) as int
                    } else {
                        0
                    }));
                    assert(self.query_count(*p, 4, u) == self.query_count(*p, 3, u) + (if u.position
                        == *p {
                        self.children@[3].verts().count(u) as int
                    } else {
                        0
                    }));
                    assert(self.query_count(*p, 3, u) == self.query_count(*p, 2, u) + (if u.position
                        == *p {
                        self.children@[2].verts().count(u) as int
                    } else {
                        0
                    }));
                    assert(self.query_count(*p, 2, u) == self.query_count(*p, 1, u) + (if u.position
                        == *p {
                        self.children@[1].verts().count(u) as int
                    } else {
                        0
                    }));
                    assert(self.query_count(*p, 1, u) == self.query_count(*p, 0, u) + (if u.position
                        == *p {
                        self.children@[0].verts().count(u) as int
                    } else {
                        0
                    }));
                }
            }
        }
        found
    }

    /// Build the octree over every vertex position of the scene: compute
    /// the tight bounding box of all vertices, then insert them one at a
    /// time, routing each down to the configured depth. The whole tree is
    /// pinned by `spec_build`, so the result is a function of the scene
    /// and the depth alone: two builds of equal input are identical.
    pub fn build_octree(scene: &Scene, max_depth: usize) -> (root: OctreeNode)
        requires
            scene_bounded(*scene),
        ensures
            root.wf(),
            root.verts() == scene_verts(*scene),
            root.model() == spec_build(*scene, max_depth as int),
            root.bounds == spec_root_bounds(crate::venom_core::scene_vertex_seq(*scene)),
    {
        let limit: i64 = crate::fixed::COORD_LIMIT;
        // Flatten the scene into one ordered vertex list.
        let mut all: Vec<Vertex> = Vec::new();
        proof {
            all@.to_multiset_ensures();
            assert(all@.to_multiset() =~= Multiset::<Vertex>::empty());
            assert(scene.models@.take(0int) =~= Seq::<Model>::empty());
            assert(all@.to_multiset() =~= models_verts(scene.models@.take(0int)));
            assert(all@ =~= models_vertex_seq(scene.models@.take(0int)));
        }
        let mut m: usize = 0;
        while m < scene.models.len()
            invariant
                scene_bounded(*scene),
                m <= scene.models@.len(),
                all@.to_multiset() == models_verts(scene.models@.take(m as int)),
                all@ == models_vertex_seq(scene.models@.take(m as int)),
                forall|k: int| 0 <= k < all@.len() ==> vertex_bounded(#[trigger] all@[k]),
            decreases scene.models@.len() - m,
        {
            let model = &scene.models[m];
            proof {
                assert(model.meshes@.take(0int) =~= Seq::<Mesh>::empty());
                assert(all@.to_multiset() =~= models_verts(scene.models@.take(m as int)).add(
                    meshes_verts(model.meshes@.take(0int)),
                ));
                assert(all@ =~= models_vertex_seq(scene.models@.take(m as int))
                    + meshes_vertex_seq(model.meshes@.take(0int)));
            }
            let mut j: usize = 0;
            while j < model.meshes.len()
                invariant
                    scene_bounded(*scene),
                    m < scene.models@.len(),
                    *model == scene.models@[m as int],
                    j <= model.meshes@.len(),
                    all@.to_multiset() == models_verts(scene.models@.take(m as int)).add(
                        meshes_verts(model.meshes@.take(j as int)),
                    ),
                    all@ == models_vertex_seq(scene.models@.take(m as int)) + meshes_vertex_seq(
                        model.meshes@.take(j as int),
                    ),
                    forall|k: int| 0 <= k < all@.len() ==> vertex_bounded(#[trigger] all@[k]),
                decreases model.meshes@.len() - j,
            {
                let mesh = &model.meshes[j];
                proof {
                    assert(mesh.vertices@.take(0int) =~= Seq::<Vertex>::empty());
                    mesh.vertices@.take(0int).to_multiset_ensures();
                    assert(all@.to_multiset() =~= models_verts(scene.models@.take(m as int)).add(
                        meshes_verts(model.meshes@.take(j as int)),
                    ).add(mesh.vertices@.take(0int).to_multiset()));
                    assert(all@ =~= models_vertex_seq(scene.models@.take(m as int))
                        + meshes_vertex_seq(model.meshes@.take(j as int)) + mesh.vertices@.take(
                        0int,
                    ));
                }
                let mut k: usize = 0;
                while k < mesh.vertices.len()
                    invariant
                        scene_bounded(*scene),
                        m < scene.models@.len(),
                        *model == scene.models@[m as int],
                        j < model.meshes@.len(),
                        *mesh == model.meshes@[j as int],
                        k <= mesh.vertices@.len(),
                        all@.to_multiset() == models_verts(scene.models@.take(m as int)).add(
                            meshes_verts(model.meshes@.take(j as int)),
                        ).add(mesh.vertices@.take(k as int).to_multiset()),
                        all@ == models_vertex_seq(scene.models@.take(m as int))
                            + meshes_vertex_seq(model.meshes@.take(j as int))
                            + mesh.vertices@.take(k as int),
                        forall|k2: int|
                            0 <= k2 < all@.len() ==> vertex_bounded(#[trigger] all@[k2]),
                    decreases mesh.vertices@.len() - k,
                {
                    let v = mesh.vertices[k];
                    proof {
                        mesh.vertices@.to_multiset_ensures();
                        assert(mesh.vertices@.contains(v));
                        lemma_meshes_verts_contains(model.meshes@, j as int, v);
                        lemma_models_verts_contains(scene.models@, m as int, v);
                        assert(scene_verts(*scene).contains(v));
                        all@.to_multiset_ensures();
                        mesh.vertices@.take(k as int).to_multiset_ensures();
                        assert(mesh.vertices@.take(k as int + 1) =~= mesh.vertices@.take(
                            k as int,
                        ).push(v));
                        assert(all@.push(v) =~= models_vertex_seq(scene.models@.take(m as int))
                            + meshes_vertex_seq(model.meshes@.take(j as int))
                            + mesh.vertices@.take(k as int + 1));
                    }
                    all.push(v);
                    k = k + 1;
                }
                proof {
                    assert(mesh.vertices@.take(k as int) =~= mesh.vertices@);
                    lemma_meshes_verts_take(model.meshes@, j as int);
                    crate::venom_core::lemma_meshes_vertex_seq_take(model.meshes@, j as int);
                    assert(all@ =~= models_vertex_seq(scene.models@.take(m as int))
                        + meshes_vertex_seq(model.meshes@.take(j as int + 1)));
                }
                j = j + 1;
            }
            proof {
                assert(model.meshes@.take(j as int) =~= model.meshes@);
                lemma_models_verts_take(scene.models@, m as int);
                crate::venom_core::lemma_models_vertex_seq_take(scene.models@, m as int);
                assert(all@ =~= models_vertex_seq(scene.models@.take(m as int + 1)));
            }
            m = m + 1;
        }
        proof {
            assert(scene.models@.take(m as int) =~= scene.models@);
            assert(all@.to_multiset() == scene_verts(*scene));
            assert(all@ == crate::venom_core::scene_vertex_seq(*scene));
        }
        // Bounding box over every vertex position; the fold starts from
        // the extreme admissible corners, inverted, as a neutral element.
        let mut mn: (Scalar, Scalar, Scalar) = (limit, limit, limit);
        let mut mx: (Scalar, Scalar, Scalar) = (-limit, -limit, -limit);
        let mut k: usize = 0;
        proof {
            assert(all@.take(0int) =~= Seq::<Vertex>::empty());
        }
        while k < all.len()
            invariant
                k <= all@.len(),
                forall|k2: int| 0 <= k2 < all@.len() ==> vertex_bounded(#[trigger] all@[k2]),
                point_bounded(mn),
                point_bounded(mx),
                mn == spec_fold_bounds(all@.take(k as int)).min,
                mx == spec_fold_bounds(all@.take(k as int)).max,
                forall|k2: int|
                    0 <= k2 < k ==> {
                        let p = (#[trigger] all@[k2]).position;
                        mn.0 <= p.0 <= mx.0 && mn.1 <= p.1 <= mx.1 && mn.2 <= p.2 <= mx.2
                    },
            decreases all@.len() - k,
        {
            proof {
                assert(all@.take(k as int + 1).drop_last() =~= all@.take(k as int));
                assert(all@.take(k as int + 1).last() == all@[k as int]);
            }
            let p = all[k].position;
            mn = (
                if p.0 < mn.0 {
                    p.0
                } else {
                    mn.0
                },
                if p.1 < mn.1 {
                    p.1
                } else {
                    mn.1
                },
                if p.2 < mn.2 {
                    p.2
                } else {
                    mn.2
                },
            );
            mx = (
                if p.0 > mx.0 {
                    p.0
                } else {
                    mx.0
                },
                if p.1 > mx.1 {
                    p.1
                } else {
                    mx.1
                },
                if p.2 > mx.2 {
                    p.2
                } else {
                    mx.2
                },
            );
            k = k + 1;
        }
        let root_bounds = if all.len() == 0 {
            // No vertex anywhere: a degenerate box at the origin.
            BoundingBox { min: (0, 0, 0), max: (0, 0, 0) }
        } else {
            BoundingBox { min: mn, max: mx }
        };
        let mut root = OctreeNode::new(root_bounds);
        proof {
            if all@.len() == 0 {
                all@.to_multiset_ensures();
                assert(all@.to_multiset() =~= Multiset::<Vertex>::empty());
            } else {
                assert(mn.0 <= all@[0].position.0 <= mx.0);
            }
            assert(all@.take(k as int) =~= all@);
            assert(root_bounds == spec_root_bounds(all@));
            assert(all@.take(0int) =~= Seq::<Vertex>::empty());
            all@.take(0int).to_multiset_ensures();
            assert(root.verts() =~= all@.take(0int).to_multiset());
            assert(root.model() =~~= (NodeModel {
                bounds: root_bounds,
                bucket: Seq::empty(),
                children: Seq::empty(),
            }));
            assert(root.model() == spec_build_from(
                NodeModel { bounds: root_bounds, bucket: Seq::empty(), children: Seq::empty() },
                all@.take(0int),
                max_depth as int,
            ));
        }
        let mut i: usize = 0;
        while i < all.len()
            invariant
                root.wf(),
                root.bounds == root_bounds,
                i <= all@.len(),
                forall|k2: int| 0 <= k2 < all@.len() ==> vertex_bounded(#[trigger] all@[k2]),
                forall|k2: int|
                    0 <= k2 < all@.len() ==> spec_contains_point(
                        root_bounds,
                        (#[trigger] all@[k2]).position,
                    ),
                root.verts() == all@.take(i as int).to_multiset(),
                root.model() == spec_build_from(
                    NodeModel {
                        bounds: root_bounds,
                        bucket: Seq::empty(),
                        children: Seq::empty(),
                    },
                    all@.take(i as int),
                    max_depth as int,
                ),
            decreases all@.len() - i,
        {
            let v = all[i];
            proof {
                all@.take(i as int).to_multiset_ensures();
                assert(all@.take(i as int + 1) =~= all@.take(i as int).push(v));
                assert(all@.take(i as int + 1).drop_last() =~= all@.take(i as int));
                assert(all@.take(i as int + 1).last() == v);
            }
            root.insert(v, max_depth, 0);
            i = i + 1;
        }
        proof {
            assert(all@.take(i as int) =~= all@);
            assert(root.model() == spec_build(*scene, max_depth as int));
        }
        root
    }
}

} // verus!
