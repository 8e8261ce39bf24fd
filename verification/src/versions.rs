//! Layer version tags. Every episode and bench record carries the tags of
//! the layers that produced it, so a banked corpus stays reproducible.

use vstd::prelude::*;
use vstd::string::StringExecFns;

verus! {

/// World primitives (clock, PRNG, planar math, edge geometry).
pub const ARENA_CORE_VERSION: &'static str = "0.1.0-m0";

/// Box contact model.
pub const CONTACT_VERSION: &'static str = "0.1.0-m1-boxes";

/// Kinematic plant path.
pub const ARENA_PLANT_VERSION: &'static str = "0.1.0-m0-kinematic";

/// Dynamic plant.
pub const DYNAMIC_PLANT_VERSION: &'static str = "0.1.0-m1-dynamic";

/// Scripted drivers.
pub const ARENA_AGENTS_VERSION: &'static str = "0.1.0-m0";

/// Edge-failsafe cell.
pub const ARENA_CELLS_VERSION: &'static str = "0.1.0-m0-native-placeholder";

/// Active-braking envelope cell.
pub const ACTIVE_BRAKE_CELL_VERSION: &'static str = "0.1.0-m1-native-placeholder";

/// Dynamic-plant edge failsafe.
pub const DYN_EDGE_FAILSAFE_VERSION: &'static str = "0.1.0-m1-native-placeholder";

/// Episode schema and identity hashing.
pub const ARENA_STORE_VERSION: &'static str = "0.1.0-m0";

/// Episode runner and experiment harness.
pub const ARENA_TOURNEY_VERSION: &'static str = "0.1.0-m0";

/// Virtual benches.
pub const ARENA_BENCH_VERSION: &'static str = "0.1.0-m1";

/// Edge bench on the dynamic plant.
pub const EDGE_BENCH_VERSION: &'static str = "0.1.0-m1";

/// Differential rig.
pub const ARENA_DIFF_VERSION: &'static str = "0.1.0-m1";

/// The reference engine of the differential rig.
pub const RAPIER_VERSION: &'static str = "rapier2d-f64 0.22";

/// Robot-as-data crate.
pub const ROBOTSPEC_VERSION: &'static str = "0.1.0-m0";

/// Authored robot schema.
pub const SCHEMA_VERSION: &'static str = "robotspec-v0.1";

/// Derivation pipeline.
pub const DERIVATION_PIPELINE_VERSION: &'static str = "derive-v0.1.0-parametric";

/// Version tag of every layer, embedded in every episode record.
#[derive(Clone, Debug, PartialEq, Eq)]
pub struct LayerVersions {
    pub core: String,
    pub plant: String,
    pub agents: String,
    pub cells: String,
    pub store: String,
    pub tourney: String,
}

/// The current tag of every episode layer.
pub fn layer_versions() -> (v: LayerVersions)
    ensures
        v.core@ == ARENA_CORE_VERSION@,
        v.plant@ == ARENA_PLANT_VERSION@,
        v.agents@ == ARENA_AGENTS_VERSION@,
        v.cells@ == ARENA_CELLS_VERSION@,
        v.store@ == ARENA_STORE_VERSION@,
        v.tourney@ == ARENA_TOURNEY_VERSION@,
{
    LayerVersions {
        core: String::from_str(ARENA_CORE_VERSION),
        plant: String::from_str(ARENA_PLANT_VERSION),
        agents: String::from_str(ARENA_AGENTS_VERSION),
        cells: String::from_str(ARENA_CELLS_VERSION),
        store: String::from_str(ARENA_STORE_VERSION),
        tourney: String::from_str(ARENA_TOURNEY_VERSION),
    }
}

/// The version tags a bench report carries.
#[derive(Clone, Debug)]
pub struct BenchVersions {
    pub bench: String,
    pub plant_dynamic: String,
    pub cells: String,
    pub active_brake_cell: String,
}

/// The current tags of the bench and of the layers it exercises.
pub fn bench_versions() -> (v: BenchVersions)
    ensures
        v.bench@ == ARENA_BENCH_VERSION@,
        v.plant_dynamic@ == DYNAMIC_PLANT_VERSION@,
        v.cells@ == ARENA_CELLS_VERSION@,
        v.active_brake_cell@ == ACTIVE_BRAKE_CELL_VERSION@,
{
    BenchVersions {
        bench: String::from_str(ARENA_BENCH_VERSION),
        plant_dynamic: String::from_str(DYNAMIC_PLANT_VERSION),
        cells: String::from_str(ARENA_CELLS_VERSION),
        active_brake_cell: String::from_str(ACTIVE_BRAKE_CELL_VERSION),
    }
}

/// The version tags an edge-bench report carries.
#[derive(Clone, Debug)]
pub struct EdgeVersions {
    pub edge_bench: String,
    pub plant_dynamic: String,
    pub failsafe: String,
    pub agents: String,
}

} // verus!
