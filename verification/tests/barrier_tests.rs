use asset_gate::barrier::{BarrierPhase, ReadinessBarrier};
use asset_gate::bundle::{BundleMember, DependencyBundle};
use asset_gate::handle::{Handle, LoadState};
use asset_gate::tracker::{LoadStateTracker, TrackerError};

fn two_member_bundle(tracker: &mut LoadStateTracker) -> (DependencyBundle, Handle, Handle) {
    let scene = tracker.register();
    let mask = tracker.register();
    let bundle = DependencyBundle::new(
        String::from("level-bundle"),
        vec![
            BundleMember { name: String::from("scene"), handle: scene },
            BundleMember { name: String::from("mask"), handle: mask },
        ],
    );
    (bundle, scene, mask)
}

#[test]
fn bundle_reports_its_declaration() {
    let mut tracker = LoadStateTracker::new();
    let (bundle, scene, _mask) = two_member_bundle(&mut tracker);
    assert_eq!(bundle.label(), "level-bundle");
    assert_eq!(bundle.len(), 2);
    assert_eq!(bundle.name_at(0), "scene");
    assert_eq!(bundle.name_at(1), "mask");
    assert_eq!(bundle.handle_at(0), scene);
}

#[test]
fn success_scenario_fires_once_on_the_loaded_tick() {
    // Bundle {scene: "level.gltf", mask: "wear_mask.png"}.
    let mut tracker = LoadStateTracker::new();
    let (bundle, scene, mask) = two_member_bundle(&mut tracker);
    let mut barrier = ReadinessBarrier::new(bundle);
    assert_eq!(barrier.phase(), BarrierPhase::Empty);

    // First poll requests the loads: Empty -> Pending, no signal.
    assert!(!barrier.poll(&tracker));
    assert_eq!(barrier.phase(), BarrierPhase::Pending);
    tracker.set_loading(scene).unwrap();
    tracker.set_loading(mask).unwrap();

    // Tick 1: both Loading -> Pending, no signal.
    assert!(!barrier.poll(&tracker));
    assert_eq!(barrier.phase(), BarrierPhase::Pending);

    // Tick 2: scene Loaded, mask still Loading -> still Pending.
    tracker.set_loaded(scene, &vec![]).unwrap();
    assert!(!barrier.poll(&tracker));
    assert_eq!(barrier.phase(), BarrierPhase::Pending);

    // Tick 3: both Loaded -> Ready, the signal fires.
    tracker.set_loaded(mask, &vec![]).unwrap();
    assert!(barrier.poll(&tracker));
    assert_eq!(barrier.phase(), BarrierPhase::Ready);

    // Tick 4: no further signal, state remains Ready.
    assert!(!barrier.poll(&tracker));
    assert_eq!(barrier.phase(), BarrierPhase::Ready);
}

#[test]
fn failure_scenario_settles_failed_without_firing() {
    let mut tracker = LoadStateTracker::new();
    let (bundle, scene, mask) = two_member_bundle(&mut tracker);
    let mut barrier = ReadinessBarrier::new(bundle);
    assert!(!barrier.poll(&tracker));
    tracker.set_loading(scene).unwrap();
    tracker.set_loading(mask).unwrap();

    // Tick 1: both Loading.
    assert!(!barrier.poll(&tracker));
    assert_eq!(barrier.phase(), BarrierPhase::Pending);

    // Tick 2: mask fails -> barrier transitions to Failed, never Ready.
    tracker.set_loaded(scene, &vec![]).unwrap();
    tracker
        .set_failed(mask, String::from("file not found"))
        .unwrap();
    assert!(!barrier.poll(&tracker));
    assert_eq!(barrier.phase(), BarrierPhase::Failed);

    // Further polls stay Failed and never fire.
    assert!(!barrier.poll(&tracker));
    assert_eq!(barrier.phase(), BarrierPhase::Failed);
}

#[test]
fn pending_polls_fire_nothing_before_any_member_resolves() {
    let mut tracker = LoadStateTracker::new();
    let (bundle, scene, mask) = two_member_bundle(&mut tracker);
    let mut barrier = ReadinessBarrier::new(bundle);
    assert!(!barrier.poll(&tracker));
    tracker.set_loading(scene).unwrap();
    tracker.set_loading(mask).unwrap();
    for _ in 0..5 {
        assert!(!barrier.poll(&tracker));
        assert_eq!(barrier.phase(), BarrierPhase::Pending);
    }
}

#[test]
fn one_failed_member_dominates_loaded_members() {
    let mut tracker = LoadStateTracker::new();
    let a = tracker.register();
    let b = tracker.register();
    let c = tracker.register();
    let bundle = DependencyBundle::new(
        String::from("worst-case"),
        vec![
            BundleMember { name: String::from("a"), handle: a },
            BundleMember { name: String::from("b"), handle: b },
            BundleMember { name: String::from("c"), handle: c },
        ],
    );
    tracker.set_loaded(a, &vec![]).unwrap();
    tracker.set_failed(b, String::from("decode error")).unwrap();
    tracker.set_loaded(c, &vec![]).unwrap();
    match tracker.transitive_state_of(&bundle).unwrap() {
        LoadState::Failed(reason) => assert_eq!(reason, "decode error"),
        _ => panic!("aggregate must be Failed"),
    }
}

#[test]
fn embedded_dependencies_gate_readiness() {
    // A loaded scene that references a sub-texture is not ready until the
    // sub-texture is.
    let mut tracker = LoadStateTracker::new();
    let scene = tracker.register();
    let sub_texture = tracker.register();
    let bundle = DependencyBundle::new(
        String::from("scene-only"),
        vec![BundleMember { name: String::from("scene"), handle: scene }],
    );
    tracker.set_loading(sub_texture).unwrap();
    tracker.set_loaded(scene, &vec![sub_texture]).unwrap();
    let mut barrier = ReadinessBarrier::new(bundle);
    assert!(!barrier.poll(&tracker));
    assert!(!barrier.poll(&tracker));
    assert_eq!(barrier.phase(), BarrierPhase::Pending);
    tracker.set_loaded(sub_texture, &vec![]).unwrap();
    assert!(barrier.poll(&tracker));
    assert_eq!(barrier.phase(), BarrierPhase::Ready);
}

#[test]
fn failure_deep_in_the_dependency_chain_fails_the_bundle() {
    let mut tracker = LoadStateTracker::new();
    let a = tracker.register();
    let b = tracker.register();
    let c = tracker.register();
    tracker.set_failed(c, String::from("missing")).unwrap();
    tracker.set_loaded(b, &vec![c]).unwrap();
    tracker.set_loaded(a, &vec![b]).unwrap();
    let bundle = DependencyBundle::new(
        String::from("chain"),
        vec![BundleMember { name: String::from("a"), handle: a }],
    );
    match tracker.transitive_state_of(&bundle).unwrap() {
        LoadState::Failed(reason) => assert_eq!(reason, "missing"),
        _ => panic!("aggregate must be Failed"),
    }
}

#[test]
fn empty_bundle_is_immediately_loaded() {
    let tracker = LoadStateTracker::new();
    let bundle = DependencyBundle::new(String::from("empty"), vec![]);
    assert!(matches!(
        tracker.transitive_state_of(&bundle).unwrap(),
        LoadState::Loaded
    ));
    let mut barrier = ReadinessBarrier::new(bundle);
    assert!(!barrier.poll(&tracker));
    assert!(barrier.poll(&tracker));
    assert_eq!(barrier.phase(), BarrierPhase::Ready);
}

#[test]
fn stale_handles_are_rejected_explicitly() {
    let mut tracker = LoadStateTracker::new();
    let h = tracker.register();
    tracker.set_loaded(h, &vec![]).unwrap();
    tracker.invalidate(h).unwrap();
    assert!(matches!(
        tracker.state_of(h),
        Err(TrackerError::StaleHandleUse)
    ));
    // The slot itself was reverted to Unloaded under a new generation.
    let reloaded = Handle { slot: h.slot, generation: h.generation + 1 };
    assert!(matches!(tracker.state_of(reloaded), Ok(LoadState::Unloaded)));
}

#[test]
fn stale_member_fails_the_barrier() {
    let mut tracker = LoadStateTracker::new();
    let h = tracker.register();
    let bundle = DependencyBundle::new(
        String::from("stale"),
        vec![BundleMember { name: String::from("h"), handle: h }],
    );
    let mut barrier = ReadinessBarrier::new(bundle);
    assert!(!barrier.poll(&tracker));
    tracker.invalidate(h).unwrap();
    assert!(!barrier.poll(&tracker));
    assert_eq!(barrier.phase(), BarrierPhase::Failed);
}

#[test]
fn stale_discovered_dependency_is_rejected() {
    let mut tracker = LoadStateTracker::new();
    let scene = tracker.register();
    let gone = tracker.register();
    tracker.invalidate(gone).unwrap();
    assert_eq!(
        tracker.set_loaded(scene, &vec![gone]),
        Err(TrackerError::StaleHandleUse)
    );
    // Nothing was recorded: the scene is still unloaded.
    assert!(matches!(tracker.state_of(scene), Ok(LoadState::Unloaded)));
}

#[test]
fn settled_states_do_not_silently_revert() {
    let mut tracker = LoadStateTracker::new();
    let h = tracker.register();
    tracker.set_loaded(h, &vec![]).unwrap();
    tracker.set_loading(h).unwrap();
    assert!(matches!(tracker.state_of(h), Ok(LoadState::Loaded)));
    let f = tracker.register();
    tracker.set_failed(f, String::from("bad")).unwrap();
    tracker.set_loading(f).unwrap();
    assert!(matches!(tracker.state_of(f), Ok(LoadState::Failed(_))));
}
