//! Every scenario built and run on a few representations.

use opti_set_int::scenario::{
    ClearScenario, ContainsScenario, DeserializeScenario, DifferenceScenario,
    IntersectionScenario, InsertScenario, IterScenario, LenScenario, MixedScenario,
    RemoveScenario, Scenario, ScenarioContructor, SerializeScenario, SparseScenario,
    SymmetricDifferenceScenario, UnionScenario,
};
use opti_set_int::set_int::SetIntConstruct;
use opti_set_int::types::{BitTreeSet, ByteArraySet, IntervalSet, LibRoaring, StdVec};

fn run<S: ScenarioContructor>(capacity: u16, fill: u16, data: u16, seed: u64) {
    let mut s = S::new(capacity, fill, data, seed);
    s.task();
    s.task();
}

fn all_scenarios<T: SetIntConstruct>() {
    for &(cap, fill, data) in &[(15u16, 7u16, 3u16), (255, 255, 15), (0, 0, 0), (1023, 63, 1023)] {
        run::<InsertScenario<T>>(cap, fill, data, 9);
        run::<ContainsScenario<T>>(cap, fill, data, 9);
        run::<RemoveScenario<T>>(cap, fill, data, 9);
        run::<MixedScenario<T>>(cap, fill, data, 9);
        run::<SparseScenario<T>>(cap, fill, data, 9);
        run::<ClearScenario<T>>(cap, fill, data, 9);
        run::<LenScenario<T>>(cap, fill, data, 9);
        run::<IterScenario<T>>(cap, fill, data, 9);
        run::<UnionScenario<T>>(cap, fill, data, 9);
        run::<IntersectionScenario<T>>(cap, fill, data, 9);
        run::<DifferenceScenario<T>>(cap, fill, data, 9);
        run::<SymmetricDifferenceScenario<T>>(cap, fill, data, 9);
        run::<SerializeScenario<T>>(cap, fill, data, 9);
        run::<DeserializeScenario<T>>(cap, fill, data, 9);
    }
}

#[test]
fn scenarios_on_bitmaps() {
    all_scenarios::<ByteArraySet>();
    all_scenarios::<LibRoaring>();
}

#[test]
fn scenarios_on_trees_and_lists() {
    all_scenarios::<BitTreeSet>();
    all_scenarios::<StdVec>();
    all_scenarios::<IntervalSet>();
}

#[test]
fn sparse_range_wraps_at_sixteen_bits() {
    run::<SparseScenario<ByteArraySet>>(u16::MAX, 100, 100, 3);
}
