use chuk_robot_benches::checks::x03_derivation_rule;
use chuk_robot_benches::episode::{InterventionEdge, InterventionTracker};
use chuk_robot_benches::schema::{kernel_of, BrakeKernel};
use chuk_robot_benches::versions::{
    bench_versions, layer_versions, EdgeVersions, ACTIVE_BRAKE_CELL_VERSION, ARENA_AGENTS_VERSION,
    ARENA_BENCH_VERSION, ARENA_CELLS_VERSION, ARENA_CORE_VERSION, DYNAMIC_PLANT_VERSION,
    DYN_EDGE_FAILSAFE_VERSION, EDGE_BENCH_VERSION,
};

#[test]
fn layer_versions_carry_every_layer_tag() {
    let v = layer_versions();
    assert_eq!(v.core, "0.1.0-m0");
    assert_eq!(v.core, ARENA_CORE_VERSION);
    assert_eq!(v.plant, "0.1.0-m0-kinematic");
    assert_eq!(v.agents, "0.1.0-m0");
    assert_eq!(v.cells, "0.1.0-m0-native-placeholder");
    assert_eq!(v.store, "0.1.0-m0");
    assert_eq!(v.tourney, "0.1.0-m0");
    assert_eq!(v, layer_versions());
}

#[test]
fn bench_versions_carry_the_bench_and_its_layers() {
    let v = bench_versions();
    assert_eq!(v.bench, ARENA_BENCH_VERSION);
    assert_eq!(v.plant_dynamic, DYNAMIC_PLANT_VERSION);
    assert_eq!(v.cells, ARENA_CELLS_VERSION);
    assert_eq!(v.active_brake_cell, ACTIVE_BRAKE_CELL_VERSION);
    assert_eq!(v.active_brake_cell, "0.1.0-m1-native-placeholder");
    let e = EdgeVersions {
        edge_bench: EDGE_BENCH_VERSION.to_string(),
        plant_dynamic: DYNAMIC_PLANT_VERSION.to_string(),
        failsafe: DYN_EDGE_FAILSAFE_VERSION.to_string(),
        agents: ARENA_AGENTS_VERSION.to_string(),
    };
    assert_eq!(e.edge_bench, "0.1.0-m1");
}

#[test]
fn x03_always_passes_with_its_fixed_wording() {
    let r = x03_derivation_rule();
    assert_eq!(r.code, "X03");
    assert!(r.pass);
    assert_eq!(r.description, "derivation rule: no hand-entered derivables");
    assert_eq!(r.detail, "all mass/CoG/inertia/geometry quantities computed by this pipeline");
}

#[test]
fn kernel_selector_zero_is_coast_anything_else_active() {
    assert_eq!(kernel_of(0), BrakeKernel::NaiveCoast);
    assert_eq!(kernel_of(1), BrakeKernel::ActiveAligned);
    assert_eq!(kernel_of(u32::MAX), BrakeKernel::ActiveAligned);
}

#[test]
fn tracker_counts_each_intervention_window_once() {
    let mut t = InterventionTracker::new();
    assert!(!t.intervening);
    assert_eq!(t.interventions, 0);
    let ticks = [false, true, true, false, false, true, false, true, true];
    let mut edges = Vec::new();
    for &tick in &ticks {
        edges.push(t.observe(tick));
    }
    assert_eq!(
        edges,
        vec![
            None,
            Some(InterventionEdge::Start),
            None,
            Some(InterventionEdge::End),
            None,
            Some(InterventionEdge::Start),
            Some(InterventionEdge::End),
            Some(InterventionEdge::Start),
            None,
        ]
    );
    assert_eq!(t.interventions, 3);
    assert!(t.intervening);
}

#[test]
fn tracker_with_no_overrides_counts_nothing() {
    let mut t = InterventionTracker::new();
    for _ in 0..10 {
        assert_eq!(t.observe(false), None);
    }
    assert_eq!(t.interventions, 0);
    assert!(!t.intervening);
}
