use asset_gate::handle::Handle;
use asset_gate::scene::{NamePredicate, SceneGraph, SceneNodePatcher};

fn mat(slot: usize) -> Handle {
    Handle { slot, generation: 0 }
}

fn suffix(s: &str) -> NamePredicate {
    NamePredicate::SuffixIgnoreCase(String::from(s))
}

#[test]
fn predicate_matches_suffix_ignoring_case() {
    let p = suffix("img_render_basecolor.png");
    assert!(p.matches("Wall_IMG_render_BaseColor.PNG"));
    assert!(p.matches("img_render_basecolor.png"));
    assert!(!p.matches("img_render_basecolor.png.bak"));
    assert!(!p.matches("basecolor.png"));
    assert!(!p.matches(""));
}

#[test]
fn exact_predicate_requires_the_whole_name() {
    let p = NamePredicate::ExactIgnoreCase(String::from("Lamp"));
    assert!(p.matches("lamp"));
    assert!(p.matches("LAMP"));
    assert!(!p.matches("table lamp"));
    assert!(!p.matches("lam"));
}

#[test]
fn five_node_hierarchy_patches_exactly_the_two_matches() {
    let original = mat(1);
    let patched = mat(99);
    let mut g = SceneGraph::new();
    let root = g.add_node(String::from("SceneRoot"), original, None);
    let wall = g.add_node(
        String::from("Wall_img_render_basecolor.PNG"),
        original,
        Some(root),
    );
    let floor = g.add_node(String::from("Floor"), original, Some(root));
    let crate_node = g.add_node(
        String::from("Crate_IMG_RENDER_BASECOLOR.png"),
        original,
        Some(wall),
    );
    let lamp = g.add_node(String::from("Lamp"), original, Some(floor));

    let patcher = SceneNodePatcher::new(suffix("img_render_basecolor.png"), patched);
    let count = patcher.patch(&mut g, root);
    assert_eq!(count, 2);
    assert_eq!(g.material_of(wall), patched);
    assert_eq!(g.material_of(crate_node), patched);
    // The other three nodes keep their original binding.
    assert_eq!(g.material_of(root), original);
    assert_eq!(g.material_of(floor), original);
    assert_eq!(g.material_of(lamp), original);
}

#[test]
fn zero_matches_is_a_valid_outcome() {
    let original = mat(1);
    let mut g = SceneGraph::new();
    let root = g.add_node(String::from("SceneRoot"), original, None);
    g.add_node(String::from("Floor"), original, Some(root));
    let patcher = SceneNodePatcher::new(suffix("wear_mask.png"), mat(99));
    assert_eq!(patcher.patch(&mut g, root), 0);
}

#[test]
fn patching_is_independent_of_depth() {
    let original = mat(1);
    let mut g = SceneGraph::new();
    let root = g.add_node(String::from("root"), original, None);
    let a = g.add_node(String::from("a"), original, Some(root));
    let b = g.add_node(String::from("b"), original, Some(a));
    let c = g.add_node(String::from("c"), original, Some(b));
    let deep = g.add_node(String::from("deep_mask.png"), original, Some(c));
    let patcher = SceneNodePatcher::new(suffix("mask.png"), mat(99));
    assert_eq!(patcher.patch(&mut g, root), 1);
    assert_eq!(g.material_of(deep), mat(99));
}

#[test]
fn nodes_outside_the_chosen_subtree_are_untouched() {
    let original = mat(1);
    let mut g = SceneGraph::new();
    let root_a = g.add_node(String::from("RootA"), original, None);
    let root_b = g.add_node(String::from("RootB"), original, None);
    let under_a = g.add_node(String::from("thing_mask.png"), original, Some(root_a));
    let under_b = g.add_node(String::from("other_mask.png"), original, Some(root_b));
    let patcher = SceneNodePatcher::new(suffix("mask.png"), mat(99));
    assert_eq!(patcher.patch(&mut g, root_a), 1);
    assert_eq!(g.material_of(under_a), mat(99));
    assert_eq!(g.material_of(under_b), original);
}

#[test]
fn the_root_itself_is_not_patched() {
    let original = mat(1);
    let mut g = SceneGraph::new();
    let root = g.add_node(String::from("root_mask.png"), original, None);
    let child = g.add_node(String::from("child_mask.png"), original, Some(root));
    let patcher = SceneNodePatcher::new(suffix("mask.png"), mat(99));
    assert_eq!(patcher.patch(&mut g, root), 1);
    assert_eq!(g.material_of(root), original);
    assert_eq!(g.material_of(child), mat(99));
}

#[test]
fn all_matches_share_one_material_instance() {
    let original = mat(1);
    let shared = mat(42);
    let mut g = SceneGraph::new();
    let root = g.add_node(String::from("root"), original, None);
    let x = g.add_node(String::from("x_mask.png"), original, Some(root));
    let y = g.add_node(String::from("y_mask.png"), original, Some(root));
    let patcher = SceneNodePatcher::new(suffix("mask.png"), shared);
    assert_eq!(patcher.patch(&mut g, root), 2);
    assert_eq!(g.material_of(x), g.material_of(y));
    assert_eq!(g.material_of(x), shared);
}

#[test]
fn names_survive_patching() {
    let mut g = SceneGraph::new();
    let root = g.add_node(String::from("root"), mat(1), None);
    let child = g.add_node(String::from("child_mask.png"), mat(1), Some(root));
    let patcher = SceneNodePatcher::new(suffix("mask.png"), mat(99));
    patcher.patch(&mut g, root);
    assert_eq!(g.name_of(root), "root");
    assert_eq!(g.name_of(child), "child_mask.png");
    assert_eq!(g.len(), 2);
}
