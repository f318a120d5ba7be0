//! The benchmark scenario matrix.
//!
//! A scenario is one fully specified benchmark unit: the operation under
//! test, the key and value fixture kinds, the backend, and the workload
//! cardinality. The candidate list `all_candidates` writes the whole cross
//! product out — each point operation over a sweep of key widths against a
//! fixed value width, the fixed key width against a sweep of value widths and
//! the empty value, the narrow integer-sized combinations, an
//! opaque-identifier key, the manager-backed combinations, the large-payload
//! class, and the three size classes of each scan operation. Two sweeps meet
//! at one (key, value) pair, and equal shapes also arise from distinct
//! integer-sized source types, so the table keeps the first occurrence of
//! each identity: it equals `scenario_table_spec()`, the deduplicating fold
//! of the candidates, and holds no duplicates.

use vstd::prelude::*;

use crate::fixture::FixtureKind;

verus! {

/// The operation a scenario times.
#[derive(Clone, Copy, Debug, PartialEq, Eq, Structural)]
pub enum Operation {
    Insert,
    Remove,
    Get,
    Contains,
    PopFirst,
    PopLast,
    TraverseEntries,
    TraverseEntriesRev,
    TraverseKeys,
    TraverseKeysRev,
    TraverseValues,
    TraverseValuesRev,
    RangeKeySum,
    RangeValueSum,
    RangeCount,
}

/// Which memory the store under test runs over.
#[derive(Clone, Copy, Debug, PartialEq, Eq, Structural)]
pub enum BackendKind {
    Direct,
    Multiplexed,
}

/// One fully specified benchmark unit.
#[derive(Clone, Copy, Debug, PartialEq, Eq, Structural)]
pub struct Scenario {
    pub op: Operation,
    pub key_kind: FixtureKind,
    pub value_kind: FixtureKind,
    pub backend: BackendKind,
    pub count: usize,
}

/// The number of pairs a point-operation workload holds.
pub const POINT_COUNT: usize = 10000;

/// The width of an opaque identifier key, in bytes.
pub const ID_WIDTH: usize = 29;

/// No two scenarios of the table are the same unit.
pub open spec fn distinct_scenarios(s: Seq<Scenario>) -> bool {
    forall|i: int, j: int|
        #![trigger s[i], s[j]]
        0 <= i < j < s.len() ==> s[i] != s[j]
}

/// A candidate enters the table unless an equal scenario is already there.
pub open spec fn table_insert(t: Seq<Scenario>, sc: Scenario) -> Seq<Scenario> {
    if t.contains(sc) {
        t
    } else {
        t.push(sc)
    }
}

/// A candidate list enters the table first to last, each unless already
/// there.
pub open spec fn table_extend(t: Seq<Scenario>, cs: Seq<Scenario>) -> Seq<Scenario>
    decreases cs.len(),
{
    if cs.len() == 0 {
        t
    } else {
        table_extend(table_insert(t, cs[0]), cs.skip(1))
    }
}

/// Entering two candidate lists in turn is entering their concatenation.
pub proof fn lemma_table_extend_concat(t: Seq<Scenario>, a: Seq<Scenario>, b: Seq<Scenario>)
    ensures
        table_extend(t, a + b) == table_extend(table_extend(t, a), b),
    decreases a.len(),
{
    if a.len() == 0 {
        assert(a + b =~= b);
    } else {
        assert((a + b)[0] == a[0]);
        assert((a + b).skip(1) =~= a.skip(1) + b);
        lemma_table_extend_concat(table_insert(t, a[0]), a.skip(1), b);
    }
}

/// A fixture kind of this width, in the bounded or the unbounded family.
pub open spec fn fixture_of(w: usize, unbounded: bool) -> FixtureKind {
    if unbounded {
        FixtureKind::Unbounded { capacity: w }
    } else {
        FixtureKind::Bounded { width: w }
    }
}

/// A point-operation scenario over the direct backend at the standard
/// cardinality.
pub open spec fn point_scenario(op: Operation, kk: FixtureKind, vk: FixtureKind) -> Scenario {
    Scenario {
        op,
        key_kind: kk,
        value_kind: vk,
        backend: BackendKind::Direct,
        count: POINT_COUNT,
    }
}

/// The key and value widths each point-operation sweep walks through.
pub open spec fn sweep_widths_spec() -> Seq<usize> {
    seq![4usize, 8, 16, 32, 64, 128, 256, 512, 1024]
}

/// The key sweep: every width against a 128-byte value.
pub open spec fn key_sweep(op: Operation, unbounded: bool) -> Seq<Scenario> {
    Seq::new(
        9,
        |i: int|
            point_scenario(
                op,
                fixture_of(sweep_widths_spec()[i], unbounded),
                fixture_of(128, unbounded),
            ),
    )
}

/// The value sweep: a 32-byte key against every width.
pub open spec fn value_sweep(op: Operation, unbounded: bool) -> Seq<Scenario> {
    Seq::new(
        9,
        |i: int|
            point_scenario(
                op,
                fixture_of(32, unbounded),
                fixture_of(sweep_widths_spec()[i], unbounded),
            ),
    )
}

/// The empty-value scenario: a 32-byte key against a zero-byte value.
pub open spec fn empty_value_scenario(op: Operation, unbounded: bool) -> Scenario {
    point_scenario(op, fixture_of(32, unbounded), FixtureKind::Bounded { width: 0 })
}

/// One family's sweeps of one point operation: the key sweep, the empty
/// value, the value sweep.
pub open spec fn sweep_candidates(op: Operation, unbounded: bool) -> Seq<Scenario> {
    key_sweep(op, unbounded) + seq![empty_value_scenario(op, unbounded)] + value_sweep(
        op,
        unbounded,
    )
}

/// The narrow integer-sized combinations of one point operation, and the
/// opaque-identifier key.
pub open spec fn narrow_candidates(op: Operation) -> Seq<Scenario> {
    seq![
        point_scenario(op, fixture_of(8, false), fixture_of(8, false)),
        point_scenario(op, fixture_of(8, false), fixture_of(8, true)),
        point_scenario(op, fixture_of(8, true), fixture_of(8, false)),
        point_scenario(op, fixture_of(ID_WIDTH, false), FixtureKind::Bounded { width: 0 }),
    ]
}

/// Everything one point operation contributes over the direct backend.
pub open spec fn op_candidates(op: Operation) -> Seq<Scenario> {
    sweep_candidates(op, false) + sweep_candidates(op, true) + narrow_candidates(op)
}

/// The point-operation candidates, operation by operation.
pub open spec fn point_candidates(ops: Seq<Operation>) -> Seq<Scenario>
    decreases ops.len(),
{
    if ops.len() == 0 {
        Seq::empty()
    } else {
        op_candidates(ops[0]) + point_candidates(ops.skip(1))
    }
}

/// The manager-backed combinations of one point operation.
pub open spec fn multiplexed_candidates(op: Operation) -> Seq<Scenario> {
    seq![
        Scenario {
            op,
            key_kind: fixture_of(8, false),
            value_kind: fixture_of(8, false),
            backend: BackendKind::Multiplexed,
            count: POINT_COUNT,
        },
        Scenario {
            op,
            key_kind: fixture_of(8, false),
            value_kind: fixture_of(512, false),
            backend: BackendKind::Multiplexed,
            count: POINT_COUNT,
        },
        Scenario {
            op,
            key_kind: fixture_of(512, false),
            value_kind: fixture_of(8, false),
            backend: BackendKind::Multiplexed,
            count: POINT_COUNT,
        },
        Scenario {
            op,
            key_kind: fixture_of(8, false),
            value_kind: fixture_of(512, true),
            backend: BackendKind::Multiplexed,
            count: POINT_COUNT,
        },
        Scenario {
            op,
            key_kind: fixture_of(512, true),
            value_kind: fixture_of(8, false),
            backend: BackendKind::Multiplexed,
            count: POINT_COUNT,
        },
    ]
}

/// The manager-backed candidates, operation by operation.
pub open spec fn mm_candidates(ops: Seq<Operation>) -> Seq<Scenario>
    decreases ops.len(),
{
    if ops.len() == 0 {
        Seq::empty()
    } else {
        multiplexed_candidates(ops[0]) + mm_candidates(ops.skip(1))
    }
}

/// The large-payload scenario of one point operation: few entries of
/// ten-mebibyte values.
pub open spec fn large_scenario(op: Operation) -> Scenario {
    Scenario {
        op,
        key_kind: fixture_of(8, false),
        value_kind: fixture_of(10485760, false),
        backend: BackendKind::Direct,
        count: 20,
    }
}

/// The large-payload candidates, operation by operation.
pub open spec fn large_candidates(ops: Seq<Operation>) -> Seq<Scenario>
    decreases ops.len(),
{
    if ops.len() == 0 {
        Seq::empty()
    } else {
        seq![large_scenario(ops[0])] + large_candidates(ops.skip(1))
    }
}

/// The three size classes of one scan operation.
pub open spec fn scan_candidates(op: Operation) -> Seq<Scenario> {
    seq![
        Scenario {
            op,
            key_kind: fixture_of(8, false),
            value_kind: fixture_of(0, false),
            backend: BackendKind::Direct,
            count: 1000,
        },
        Scenario {
            op,
            key_kind: fixture_of(8, false),
            value_kind: fixture_of(10240, false),
            backend: BackendKind::Direct,
            count: 1000,
        },
        Scenario {
            op,
            key_kind: fixture_of(8, false),
            value_kind: fixture_of(10485760, false),
            backend: BackendKind::Direct,
            count: 20,
        },
    ]
}

/// The scan candidates, operation by operation.
pub open spec fn scans_candidates(ops: Seq<Operation>) -> Seq<Scenario>
    decreases ops.len(),
{
    if ops.len() == 0 {
        Seq::empty()
    } else {
        scan_candidates(ops[0]) + scans_candidates(ops.skip(1))
    }
}

/// The point operations benchmarked over the fixture sweeps.
pub open spec fn point_ops_spec() -> Seq<Operation> {
    seq![
        Operation::Insert,
        Operation::Remove,
        Operation::Get,
        Operation::Contains,
        Operation::PopFirst,
        Operation::PopLast,
    ]
}

/// The point operations that also run manager-backed and large-payload.
pub open spec fn four_ops_spec() -> Seq<Operation> {
    seq![Operation::Insert, Operation::Remove, Operation::Get, Operation::Contains]
}

/// The traversal and range operations benchmarked over the size classes.
pub open spec fn scan_ops_spec() -> Seq<Operation> {
    seq![
        Operation::TraverseEntries,
        Operation::TraverseEntriesRev,
        Operation::TraverseKeys,
        Operation::TraverseKeysRev,
        Operation::TraverseValues,
        Operation::TraverseValuesRev,
        Operation::RangeKeySum,
        Operation::RangeValueSum,
        Operation::RangeCount,
    ]
}

/// Every candidate of the matrix, in declaration order.
pub open spec fn all_candidates() -> Seq<Scenario> {
    point_candidates(point_ops_spec()) + mm_candidates(four_ops_spec()) + large_candidates(
        four_ops_spec(),
    ) + scans_candidates(scan_ops_spec())
}

/// The scenario table: the candidates entered in order, first occurrence of
/// each identity kept.
pub open spec fn scenario_table_spec() -> Seq<Scenario> {
    table_extend(Seq::empty(), all_candidates())
}

/// Appends the scenario unless an equal one is already in the table.
fn push_if_new(table: &mut Vec<Scenario>, sc: Scenario)
    requires
        distinct_scenarios(old(table)@),
    ensures
        distinct_scenarios(final(table)@),
        final(table)@ == table_insert(old(table)@, sc),
        final(table)@.len() >= old(table)@.len(),
        final(table)@.len() >= 1,
{
    let n = table.len();
    let mut i: usize = 0;
    while i < n
        invariant
            i <= n,
            n == table@.len(),
            table@ == old(table)@,
            distinct_scenarios(table@),
            forall|j: int| 0 <= j < i ==> table@[j] != sc,
        decreases n - i,
    {
        if table[i] == sc {
            proof {
                assert(old(table)@.contains(sc)) by {
                    assert(old(table)@[i as int] == sc);
                }
            }
            return ;
        }
        i = i + 1;
    }
    proof {
        if table@.contains(sc) {
            let j = choose|j: int| 0 <= j < table@.len() && table@[j] == sc;
            assert(table@[j] != sc);
        }
    }
    table.push(sc);
    proof {
        let t = table@;
        assert forall|i2: int, j2: int|
            #![trigger t[i2], t[j2]]
            0 <= i2 < j2 < t.len() implies t[i2] != t[j2] by {
            if j2 == t.len() - 1 {
                assert(t[i2] == old(table)@[i2]);
            }
        }
    }
}

/// The key and value widths each point-operation sweep walks through.
fn sweep_widths() -> (r: Vec<usize>)
    ensures
        r@ == sweep_widths_spec(),
{
    let mut w: Vec<usize> = Vec::new();
    w.push(4);
    w.push(8);
    w.push(16);
    w.push(32);
    w.push(64);
    w.push(128);
    w.push(256);
    w.push(512);
    w.push(1024);
    proof {
        assert(w@ =~= sweep_widths_spec());
    }
    w
}

/// The point operations benchmarked over the fixture sweeps.
fn point_ops() -> (r: Vec<Operation>)
    ensures
        r@ == point_ops_spec(),
{
    let mut ops: Vec<Operation> = Vec::new();
    ops.push(Operation::Insert);
    ops.push(Operation::Remove);
    ops.push(Operation::Get);
    ops.push(Operation::Contains);
    ops.push(Operation::PopFirst);
    ops.push(Operation::PopLast);
    proof {
        assert(ops@ =~= point_ops_spec());
    }
    ops
}

/// The point operations that also run manager-backed and large-payload.
fn four_ops() -> (r: Vec<Operation>)
    ensures
        r@ == four_ops_spec(),
{
    let mut ops: Vec<Operation> = Vec::new();
    ops.push(Operation::Insert);
    ops.push(Operation::Remove);
    ops.push(Operation::Get);
    ops.push(Operation::Contains);
    proof {
        assert(ops@ =~= four_ops_spec());
    }
    ops
}

/// The traversal and range operations benchmarked over the size classes.
fn scan_ops() -> (r: Vec<Operation>)
    ensures
        r@ == scan_ops_spec(),
{
    let mut ops: Vec<Operation> = Vec::new();
    ops.push(Operation::TraverseEntries);
    ops.push(Operation::TraverseEntriesRev);
    ops.push(Operation::TraverseKeys);
    ops.push(Operation::TraverseKeysRev);
    ops.push(Operation::TraverseValues);
    ops.push(Operation::TraverseValuesRev);
    ops.push(Operation::RangeKeySum);
    ops.push(Operation::RangeValueSum);
    ops.push(Operation::RangeCount);
    proof {
        assert(ops@ =~= scan_ops_spec());
    }
    ops
}

/// The fixture kind of this width in the given family.
fn make_kind(w: usize, unbounded: bool) -> (r: FixtureKind)
    ensures
        r == fixture_of(w, unbounded),
{
    if unbounded {
        FixtureKind::Unbounded { capacity: w }
    } else {
        FixtureKind::Bounded { width: w }
    }
}

/// Enters the two shape sweeps of one point operation over one fixture
/// family: every key width against a 128-byte value, the empty value, and a
/// 32-byte key against every value width.
fn push_sweeps(table: &mut Vec<Scenario>, op: Operation, unbounded: bool)
    requires
        distinct_scenarios(old(table)@),
    ensures
        distinct_scenarios(final(table)@),
        final(table)@ == table_extend(old(table)@, sweep_candidates(op, unbounded)),
        final(table)@.len() >= old(table)@.len(),
        final(table)@.len() >= 1,
{
    let ghost ks = key_sweep(op, unbounded);
    let ghost vs = value_sweep(op, unbounded);
    let widths = sweep_widths();
    let n = widths.len();
    proof {
        assert(ks.skip(0) =~= ks);
    }
    let mut i: usize = 0;
    while i < n
        invariant
            distinct_scenarios(table@),
            i <= n,
            n == 9,
            widths@ == sweep_widths_spec(),
            ks == key_sweep(op, unbounded),
            table_extend(table@, ks.skip(i as int)) == table_extend(old(table)@, ks),
            table@.len() >= old(table)@.len(),
        decreases n - i,
    {
        let sc = Scenario {
            op,
            key_kind: make_kind(widths[i], unbounded),
            value_kind: make_kind(128, unbounded),
            backend: BackendKind::Direct,
            count: POINT_COUNT,
        };
        proof {
            assert(ks.skip(i as int)[0] == ks[i as int]);
            assert(ks.skip(i as int).skip(1) =~= ks.skip(i + 1));
            assert(sc == ks[i as int]);
        }
        push_if_new(table, sc);
        i = i + 1;
    }
    proof {
        assert(ks.skip(9) =~= Seq::<Scenario>::empty());
    }
    let ghost after_keys = table@;
    let key32 = make_kind(32, unbounded);
    let sc_empty = Scenario {
        op,
        key_kind: key32,
        value_kind: FixtureKind::Bounded { width: 0 },
        backend: BackendKind::Direct,
        count: POINT_COUNT,
    };
    proof {
        assert(sc_empty == empty_value_scenario(op, unbounded));
    }
    push_if_new(table, sc_empty);
    let ghost after_empty = table@;
    proof {
        reveal_with_fuel(table_extend, 3);
        assert(seq![empty_value_scenario(op, unbounded)].skip(1) =~= Seq::<Scenario>::empty());
        assert(after_empty == table_extend(
            after_keys,
            seq![empty_value_scenario(op, unbounded)],
        ));
        assert(vs.skip(0) =~= vs);
    }
    let mut i: usize = 0;
    while i < n
        invariant
            distinct_scenarios(table@),
            i <= n,
            n == 9,
            widths@ == sweep_widths_spec(),
            key32 == fixture_of(32, unbounded),
            vs == value_sweep(op, unbounded),
            table_extend(table@, vs.skip(i as int)) == table_extend(after_empty, vs),
            table@.len() >= after_empty.len(),
            after_empty.len() >= 1,
        decreases n - i,
    {
        let sc = Scenario {
            op,
            key_kind: key32,
            value_kind: make_kind(widths[i], unbounded),
            backend: BackendKind::Direct,
            count: POINT_COUNT,
        };
        proof {
            assert(vs.skip(i as int)[0] == vs[i as int]);
            assert(vs.skip(i as int).skip(1) =~= vs.skip(i + 1));
            assert(sc == vs[i as int]);
        }
        push_if_new(table, sc);
        i = i + 1;
    }
    proof {
        assert(vs.skip(9) =~= Seq::<Scenario>::empty());
        lemma_table_extend_concat(
            old(table)@,
            ks,
            seq![empty_value_scenario(op, unbounded)],
        );
        lemma_table_extend_concat(
            old(table)@,
            ks + seq![empty_value_scenario(op, unbounded)],
            vs,
        );
    }
}

/// Enters the narrow integer-sized combinations of one point operation:
/// eight-byte keys and values in each family, and the opaque-identifier key.
fn push_narrow(table: &mut Vec<Scenario>, op: Operation)
    requires
        distinct_scenarios(old(table)@),
    ensures
        distinct_scenarios(final(table)@),
        final(table)@ == table_extend(old(table)@, narrow_candidates(op)),
        final(table)@.len() >= old(table)@.len(),
        final(table)@.len() >= 1,
{
    let ghost nc = narrow_candidates(op);
    let b8 = FixtureKind::Bounded { width: 8 };
    let u8k = FixtureKind::Unbounded { capacity: 8 };
    proof {
        assert(nc.skip(1) =~= seq![nc[1], nc[2], nc[3]]);
        assert(seq![nc[1], nc[2], nc[3]].skip(1) =~= seq![nc[2], nc[3]]);
        assert(seq![nc[2], nc[3]].skip(1) =~= seq![nc[3]]);
        assert(seq![nc[3]].skip(1) =~= Seq::<Scenario>::empty());
    }
    push_if_new(
        table,
        Scenario {
            op,
            key_kind: b8,
            value_kind: b8,
            backend: BackendKind::Direct,
            count: POINT_COUNT,
        },
    );
    push_if_new(
        table,
        Scenario {
            op,
            key_kind: b8,
            value_kind: u8k,
            backend: BackendKind::Direct,
            count: POINT_COUNT,
        },
    );
    push_if_new(
        table,
        Scenario {
            op,
            key_kind: u8k,
            value_kind: b8,
            backend: BackendKind::Direct,
            count: POINT_COUNT,
        },
    );
    push_if_new(
        table,
        Scenario {
            op,
            key_kind: FixtureKind::Bounded { width: ID_WIDTH },
            value_kind: FixtureKind::Bounded { width: 0 },
            backend: BackendKind::Direct,
            count: POINT_COUNT,
        },
    );
    proof {
        reveal_with_fuel(table_extend, 6);
    }
}

/// Enters the manager-backed combinations of one point operation.
fn push_multiplexed(table: &mut Vec<Scenario>, op: Operation)
    requires
        distinct_scenarios(old(table)@),
    ensures
        distinct_scenarios(final(table)@),
        final(table)@ == table_extend(old(table)@, multiplexed_candidates(op)),
        final(table)@.len() >= old(table)@.len(),
        final(table)@.len() >= 1,
{
    let ghost mc = multiplexed_candidates(op);
    let b8 = FixtureKind::Bounded { width: 8 };
    let b512 = FixtureKind::Bounded { width: 512 };
    let u512 = FixtureKind::Unbounded { capacity: 512 };
    proof {
        assert(mc.skip(1) =~= seq![mc[1], mc[2], mc[3], mc[4]]);
        assert(seq![mc[1], mc[2], mc[3], mc[4]].skip(1) =~= seq![mc[2], mc[3], mc[4]]);
        assert(seq![mc[2], mc[3], mc[4]].skip(1) =~= seq![mc[3], mc[4]]);
        assert(seq![mc[3], mc[4]].skip(1) =~= seq![mc[4]]);
        assert(seq![mc[4]].skip(1) =~= Seq::<Scenario>::empty());
    }
    push_if_new(
        table,
        Scenario {
            op,
            key_kind: b8,
            value_kind: b8,
            backend: BackendKind::Multiplexed,
            count: POINT_COUNT,
        },
    );
    push_if_new(
        table,
        Scenario {
            op,
            key_kind: b8,
            value_kind: b512,
            backend: BackendKind::Multiplexed,
            count: POINT_COUNT,
        },
    );
    push_if_new(
        table,
        Scenario {
            op,
            key_kind: b512,
            value_kind: b8,
            backend: BackendKind::Multiplexed,
            count: POINT_COUNT,
        },
    );
    push_if_new(
        table,
        Scenario {
            op,
            key_kind: b8,
            value_kind: u512,
            backend: BackendKind::Multiplexed,
            count: POINT_COUNT,
        },
    );
    push_if_new(
        table,
        Scenario {
            op,
            key_kind: u512,
            value_kind: b8,
            backend: BackendKind::Multiplexed,
            count: POINT_COUNT,
        },
    );
    proof {
        reveal_with_fuel(table_extend, 7);
    }
}

/// Enters the three size classes of one scan operation.
fn push_scans(table: &mut Vec<Scenario>, op: Operation)
    requires
        distinct_scenarios(old(table)@),
    ensures
        distinct_scenarios(final(table)@),
        final(table)@ == table_extend(old(table)@, scan_candidates(op)),
        final(table)@.len() >= old(table)@.len(),
        final(table)@.len() >= 1,
{
    let ghost cs = scan_candidates(op);
    let b8 = FixtureKind::Bounded { width: 8 };
    proof {
        assert(cs.skip(1) =~= seq![cs[1], cs[2]]);
        assert(seq![cs[1], cs[2]].skip(1) =~= seq![cs[2]]);
        assert(seq![cs[2]].skip(1) =~= Seq::<Scenario>::empty());
    }
    push_if_new(
        table,
        Scenario {
            op,
            key_kind: b8,
            value_kind: FixtureKind::Bounded { width: 0 },
            backend: BackendKind::Direct,
            count: 1000,
        },
    );
    push_if_new(
        table,
        Scenario {
            op,
            key_kind: b8,
            value_kind: FixtureKind::Bounded { width: 10240 },
            backend: BackendKind::Direct,
            count: 1000,
        },
    );
    push_if_new(
        table,
        Scenario {
            op,
            key_kind: b8,
            value_kind: FixtureKind::Bounded { width: 10485760 },
            backend: BackendKind::Direct,
            count: 20,
        },
    );
    proof {
        reveal_with_fuel(table_extend, 5);
    }
}

/// The whole scenario table: the deduplicating fold of every candidate of
/// the matrix.
pub fn scenario_table() -> (r: Vec<Scenario>)
    ensures
        distinct_scenarios(r@),
        r@ == scenario_table_spec(),
        r@.len() > 0,
{
    let mut table: Vec<Scenario> = Vec::new();
    let ghost empty = Seq::<Scenario>::empty();
    let ghost pc = point_candidates(point_ops_spec());
    let ops = point_ops();
    let n = ops.len();
    proof {
        assert(table@ =~= Seq::<Scenario>::empty());
        assert(point_ops_spec().skip(0) =~= point_ops_spec());
    }
    let mut i: usize = 0;
    while i < n
        invariant
            distinct_scenarios(table@),
            i <= n,
            n == 6,
            ops@ == point_ops_spec(),
            pc == point_candidates(point_ops_spec()),
            table_extend(table@, point_candidates(ops@.skip(i as int)))
                == table_extend(Seq::<Scenario>::empty(), pc),
            i > 0 ==> table@.len() >= 1,
        decreases n - i,
    {
        let op = ops[i];
        let ghost before = table@;
        let ghost rest = point_candidates(ops@.skip(i + 1));
        proof {
            assert(ops@.skip(i as int)[0] == ops@[i as int]);
            assert(ops@.skip(i as int).skip(1) =~= ops@.skip(i + 1));
        }
        push_sweeps(&mut table, op, false);
        push_sweeps(&mut table, op, true);
        push_narrow(&mut table, op);
        proof {
            lemma_table_extend_concat(before, sweep_candidates(op, false), sweep_candidates(op, true));
            lemma_table_extend_concat(
                before,
                sweep_candidates(op, false) + sweep_candidates(op, true),
                narrow_candidates(op),
            );
            assert(table@ == table_extend(before, op_candidates(op)));
            lemma_table_extend_concat(before, op_candidates(op), rest);
        }
        i = i + 1;
    }
    proof {
        assert(ops@.skip(6) =~= Seq::<Operation>::empty());
    }
    let ghost g1 = table@;
    let ghost mm = mm_candidates(four_ops_spec());
    let fops = four_ops();
    proof {
        assert(four_ops_spec().skip(0) =~= four_ops_spec());
    }
    let mut i: usize = 0;
    while i < 4
        invariant
            distinct_scenarios(table@),
            i <= 4,
            fops@ == four_ops_spec(),
            mm == mm_candidates(four_ops_spec()),
            g1.len() >= 1,
            table@.len() >= g1.len(),
            table_extend(table@, mm_candidates(fops@.skip(i as int))) == table_extend(g1, mm),
        decreases 4 - i,
    {
        let ghost before = table@;
        let ghost rest = mm_candidates(fops@.skip(i + 1));
        proof {
            assert(fops@.skip(i as int)[0] == fops@[i as int]);
            assert(fops@.skip(i as int).skip(1) =~= fops@.skip(i + 1));
        }
        push_multiplexed(&mut table, fops[i]);
        proof {
            lemma_table_extend_concat(before, multiplexed_candidates(fops@[i as int]), rest);
        }
        i = i + 1;
    }
    proof {
        assert(fops@.skip(4) =~= Seq::<Operation>::empty());
    }
    let ghost g2 = table@;
    let ghost lc = large_candidates(four_ops_spec());
    let mut i: usize = 0;
    while i < 4
        invariant
            distinct_scenarios(table@),
            i <= 4,
            fops@ == four_ops_spec(),
            lc == large_candidates(four_ops_spec()),
            g2.len() >= 1,
            table@.len() >= g2.len(),
            table_extend(table@, large_candidates(fops@.skip(i as int))) == table_extend(g2, lc),
        decreases 4 - i,
    {
        let ghost before = table@;
        let ghost rest = large_candidates(fops@.skip(i + 1));
        let sc = Scenario {
            op: fops[i],
            key_kind: FixtureKind::Bounded { width: 8 },
            value_kind: FixtureKind::Bounded { width: 10485760 },
            backend: BackendKind::Direct,
            count: 20,
        };
        proof {
            assert(fops@.skip(i as int)[0] == fops@[i as int]);
            assert(fops@.skip(i as int).skip(1) =~= fops@.skip(i + 1));
            assert(sc == large_scenario(fops@[i as int]));
            assert(seq![large_scenario(fops@[i as int])].skip(1) =~= Seq::<Scenario>::empty());
        }
        push_if_new(&mut table, sc);
        proof {
            reveal_with_fuel(table_extend, 3);
            assert(table@ == table_extend(before, seq![large_scenario(fops@[i as int])]));
            lemma_table_extend_concat(before, seq![large_scenario(fops@[i as int])], rest);
        }
        i = i + 1;
    }
    let ghost g3 = table@;
    let ghost scs = scans_candidates(scan_ops_spec());
    let scans = scan_ops();
    let sn = scans.len();
    proof {
        assert(scan_ops_spec().skip(0) =~= scan_ops_spec());
    }
    let mut i: usize = 0;
    while i < sn
        invariant
            distinct_scenarios(table@),
            i <= sn,
            sn == 9,
            scans@ == scan_ops_spec(),
            scs == scans_candidates(scan_ops_spec()),
            g3.len() >= 1,
            table@.len() >= g3.len(),
            table_extend(table@, scans_candidates(scans@.skip(i as int))) == table_extend(g3, scs),
        decreases sn - i,
    {
        let ghost before = table@;
        let ghost rest = scans_candidates(scans@.skip(i + 1));
        proof {
            assert(scans@.skip(i as int)[0] == scans@[i as int]);
            assert(scans@.skip(i as int).skip(1) =~= scans@.skip(i + 1));
        }
        push_scans(&mut table, scans[i]);
        proof {
            lemma_table_extend_concat(before, scan_candidates(scans@[i as int]), rest);
        }
        i = i + 1;
    }
    proof {
        assert(scans@.skip(9) =~= Seq::<Operation>::empty());
        lemma_table_extend_concat(empty, pc, mm);
        lemma_table_extend_concat(empty, pc + mm, lc);
        lemma_table_extend_concat(empty, pc + mm + lc, scs);
    }
    table
}

} // verus!
