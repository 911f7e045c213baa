use venom::fixed::FP_ONE;
use venom::venom_core::{BoundingBox, Mesh, Model, OctreeNode, Scene, Vertex};

const S: i64 = FP_ONE;

fn vert(x: i64, y: i64, z: i64) -> Vertex {
    Vertex { position: (x, y, z), normal: (0, 0, S), uv: (0, 0) }
}

fn scene_of(verts: Vec<Vertex>) -> Scene {
    Scene {
        models: vec![Model { meshes: vec![Mesh { vertices: verts }], name: b"cloud".to_vec() }],
    }
}

fn count_bucket_verts(node: &OctreeNode) -> usize {
    let mut n = node.vertices.len();
    for child in node.children.iter() {
        n += count_bucket_verts(child);
    }
    n
}

fn reachable_by_descent(node: &OctreeNode, v: &Vertex) -> bool {
    if node.vertices.iter().any(|u| u == v) {
        return true;
    }
    for child in node.children.iter() {
        if child.bounds.contains_point(&v.position) && reachable_by_descent(child, v) {
            return true;
        }
    }
    false
}

#[test]
fn bounding_box_contains_and_center() {
    let b = BoundingBox { min: (-3, -3, -3), max: (2, 2, 2) };
    assert!(b.contains_point(&(-3, 0, 2)));
    assert!(!b.contains_point(&(3, 0, 0)));
    // the center rounds down: -3 + (5 / 2) == -1 on every axis
    assert_eq!(b.center(), (-1, -1, -1));
}

#[test]
fn octree_keeps_every_vertex() {
    let verts = vec![
        vert(-S, -S, -S),
        vert(S, S, S),
        vert(0, 0, 0),
        vert(0, 0, 0), // a duplicate must be kept twice
        vert(S, -S, S),
    ];
    let scene = scene_of(verts.clone());
    let root = OctreeNode::build_octree(&scene, 3);
    assert_eq!(count_bucket_verts(&root), verts.len());
    for v in verts.iter() {
        assert!(reachable_by_descent(&root, v));
    }
}

#[test]
fn octree_point_query_finds_stored_copies() {
    let verts = vec![vert(0, 0, 0), vert(0, 0, 0), vert(S, S, S)];
    let scene = scene_of(verts);
    let root = OctreeNode::build_octree(&scene, 4);
    assert_eq!(root.query_point(&(0, 0, 0)).len(), 2);
    assert_eq!(root.query_point(&(S, S, S)).len(), 1);
    assert_eq!(root.query_point(&(7, 7, 7)).len(), 0);
}

#[test]
fn octree_split_plane_vertex_goes_to_first_octant() {
    // a vertex exactly on the center plane is accepted by more than one
    // octant; routing must pick the first in enumeration order
    let verts = vec![vert(-S, -S, -S), vert(S, S, S), vert(0, 0, 0)];
    let scene = scene_of(verts);
    let root = OctreeNode::build_octree(&scene, 1);
    assert_eq!(root.children.len(), 8);
    // octant 0 is the all-low box [min, center]; the center point is on
    // its closed upper face, so it lands there
    let zero = (0i64, 0i64, 0i64);
    assert!(root.children[0].vertices.iter().any(|u| u.position == zero));
}

#[test]
fn octree_children_tile_parent_volume() {
    let verts = vec![vert(-3 * S, -S, -7 * S), vert(2 * S + 1, 5 * S, S)];
    let scene = scene_of(verts);
    let root = OctreeNode::build_octree(&scene, 2);
    assert_eq!(root.children.len(), 8);
    let vol = |b: &BoundingBox| -> i128 {
        ((b.max.0 - b.min.0) as i128) * ((b.max.1 - b.min.1) as i128)
            * ((b.max.2 - b.min.2) as i128)
    };
    let total: i128 = root.children.iter().map(|c| vol(&c.bounds)).sum();
    assert_eq!(total, vol(&root.bounds));
    // no two children share interior volume
    let overlap_axis = |lo1: i64, hi1: i64, lo2: i64, hi2: i64| -> i128 {
        let lo = lo1.max(lo2);
        let hi = hi1.min(hi2);
        if hi >= lo {
            (hi - lo) as i128
        } else {
            0
        }
    };
    for i in 0..8 {
        for j in 0..8 {
            if i != j {
                let a = &root.children[i].bounds;
                let b = &root.children[j].bounds;
                let ov = overlap_axis(a.min.0, a.max.0, b.min.0, b.max.0)
                    * overlap_axis(a.min.1, a.max.1, b.min.1, b.max.1)
                    * overlap_axis(a.min.2, a.max.2, b.min.2, b.max.2);
                assert_eq!(ov, 0, "children {} and {} overlap", i, j);
            }
        }
    }
}

#[test]
fn octree_empty_scene() {
    let root = OctreeNode::build_octree(&Scene::new(), 3);
    assert_eq!(count_bucket_verts(&root), 0);
    assert_eq!(root.children.len(), 0);
}

#[test]
fn direct_insert_routes_to_depth() {
    let b = BoundingBox { min: (-2 * S, -2 * S, -2 * S), max: (2 * S, 2 * S, 2 * S) };
    let mut node = OctreeNode::new(b.clone());
    assert!(node.children.is_empty());
    node.insert(vert(S, S, S), 2, 0);
    // two levels of routing: the vertex sits in a grandchild bucket
    assert_eq!(node.children.len(), 8);
    assert_eq!(node.vertices.len(), 0);
    assert_eq!(count_bucket_verts(&node), 1);
    // at the configured depth the bucket takes the vertex directly
    let mut leaf = OctreeNode::new(b);
    leaf.insert(vert(S, S, S), 2, 2);
    assert_eq!(leaf.children.len(), 0);
    assert_eq!(leaf.vertices.len(), 1);
}

#[test]
fn scene_new_is_empty() {
    assert_eq!(Scene::new().models.len(), 0);
}

fn trees_equal(a: &OctreeNode, b: &OctreeNode) -> bool {
    a.bounds == b.bounds && a.vertices == b.vertices && a.children.len() == b.children.len()
        && a.children.iter().zip(b.children.iter()).all(|(x, y)| trees_equal(x, y))
}

fn no_mixed_nodes(node: &OctreeNode) -> bool {
    (node.children.is_empty() || node.vertices.is_empty())
        && node.children.iter().all(no_mixed_nodes)
}

#[test]
fn two_builds_of_one_scene_are_identical() {
    let verts = vec![
        vert(-3 * S, S, 2 * S),
        vert(S, -S, 0),
        vert(0, 0, 0),
        vert(2 * S, 2 * S, 2 * S),
    ];
    let a = OctreeNode::build_octree(&scene_of(verts.clone()), 3);
    let b = OctreeNode::build_octree(&scene_of(verts), 3);
    assert!(trees_equal(&a, &b));
}

#[test]
fn built_root_box_is_the_tight_vertex_bounds() {
    let verts = vec![vert(-3 * S, -S, -7 * S), vert(2 * S + 1, 5 * S, S), vert(0, 0, 0)];
    let root = OctreeNode::build_octree(&scene_of(verts), 2);
    assert_eq!(root.bounds.min, (-3 * S, -S, -7 * S));
    assert_eq!(root.bounds.max, (2 * S + 1, 5 * S, S));
}

#[test]
fn built_trees_have_no_mixed_nodes() {
    let verts = vec![
        vert(-S, -S, -S),
        vert(S, S, S),
        vert(0, 0, 0),
        vert(S, -S, S),
        vert(-S, S, -S),
    ];
    let root = OctreeNode::build_octree(&scene_of(verts), 3);
    assert!(no_mixed_nodes(&root));
}
