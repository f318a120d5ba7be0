//! The scenario matrix: coverage of both sweeps and deduplication of
//! overlapping shape pairs.

use stable_map_bench::fixture::FixtureKind;
use stable_map_bench::scenario::{scenario_table, BackendKind, Operation, Scenario, POINT_COUNT};

#[test]
fn table_covers_the_whole_matrix_once() {
    // Per point operation: two 19-candidate sweeps, each losing one
    // duplicate at the (32, 128) pair, plus four narrow shapes; then the
    // manager-backed, large-payload and scan classes.
    let per_point_op = (19 - 1) + (19 - 1) + 4;
    let expected = 6 * per_point_op + 4 * 5 + 4 + 9 * 3;
    assert_eq!(scenario_table().len(), expected);
}

#[test]
fn table_holds_no_duplicate_scenarios() {
    let table = scenario_table();
    for i in 0..table.len() {
        for j in (i + 1)..table.len() {
            assert!(table[i] != table[j]);
        }
    }
}

fn occurrences(table: &[Scenario], sc: &Scenario) -> usize {
    table.iter().filter(|t| *t == sc).count()
}

#[test]
fn overlapping_sweep_pair_resolves_to_one_scenario() {
    let table = scenario_table();
    // The key sweep at width 32 and the value sweep at width 128 name the
    // same shape pair; it must be benchmarked exactly once per operation.
    let sc = Scenario {
        op: Operation::Insert,
        key_kind: FixtureKind::Bounded { width: 32 },
        value_kind: FixtureKind::Bounded { width: 128 },
        backend: BackendKind::Direct,
        count: POINT_COUNT,
    };
    assert_eq!(occurrences(&table, &sc), 1);
    let sc_unbounded = Scenario {
        op: Operation::Remove,
        key_kind: FixtureKind::Unbounded { capacity: 32 },
        value_kind: FixtureKind::Unbounded { capacity: 128 },
        backend: BackendKind::Direct,
        count: POINT_COUNT,
    };
    assert_eq!(occurrences(&table, &sc_unbounded), 1);
}

#[test]
fn both_sweeps_cover_distinct_pairs() {
    let table = scenario_table();
    let key_sweep = Scenario {
        op: Operation::Get,
        key_kind: FixtureKind::Bounded { width: 4 },
        value_kind: FixtureKind::Bounded { width: 128 },
        backend: BackendKind::Direct,
        count: POINT_COUNT,
    };
    let value_sweep = Scenario {
        op: Operation::Get,
        key_kind: FixtureKind::Bounded { width: 32 },
        value_kind: FixtureKind::Bounded { width: 4 },
        backend: BackendKind::Direct,
        count: POINT_COUNT,
    };
    let empty_value = Scenario {
        op: Operation::Get,
        key_kind: FixtureKind::Bounded { width: 32 },
        value_kind: FixtureKind::Bounded { width: 0 },
        backend: BackendKind::Direct,
        count: POINT_COUNT,
    };
    assert_eq!(occurrences(&table, &key_sweep), 1);
    assert_eq!(occurrences(&table, &value_sweep), 1);
    assert_eq!(occurrences(&table, &empty_value), 1);
}

#[test]
fn manager_backed_scenarios_are_present() {
    let table = scenario_table();
    let sc = Scenario {
        op: Operation::Contains,
        key_kind: FixtureKind::Bounded { width: 8 },
        value_kind: FixtureKind::Bounded { width: 512 },
        backend: BackendKind::Multiplexed,
        count: POINT_COUNT,
    };
    assert_eq!(occurrences(&table, &sc), 1);
    // Extraction and traversal run over the direct backend only.
    assert!(!table
        .iter()
        .any(|t| t.backend == BackendKind::Multiplexed
            && matches!(t.op, Operation::PopFirst | Operation::PopLast)));
}

#[test]
fn scan_classes_are_present() {
    let table = scenario_table();
    let large = Scenario {
        op: Operation::RangeCount,
        key_kind: FixtureKind::Bounded { width: 8 },
        value_kind: FixtureKind::Bounded { width: 10 * 1024 * 1024 },
        backend: BackendKind::Direct,
        count: 20,
    };
    assert_eq!(occurrences(&table, &large), 1);
    let small = Scenario {
        op: Operation::TraverseKeysRev,
        key_kind: FixtureKind::Bounded { width: 8 },
        value_kind: FixtureKind::Bounded { width: 0 },
        backend: BackendKind::Direct,
        count: 1000,
    };
    assert_eq!(occurrences(&table, &small), 1);
}
