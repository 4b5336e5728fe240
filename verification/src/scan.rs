//! Aggregation of the per-file scan results into per-package statistics.
//!
//! Packages and source files are identified by integer keys; the caller
//! keeps the table that maps them back to package ids and paths.

pub mod default;
pub mod dep_info;
pub mod forbid;
pub mod path_order;
pub mod report;
pub mod rs_file;

use vstd::prelude::*;
use std::collections::{HashMap, HashSet};
use crate::geiger::RsFileMetrics;
use crate::format::StyledText;
use vstd::std_specs::hash::{spec_hash_keys_iter, spec_hash_map_iter};
use vstd::std_specs::iter::IteratorSpec;
use crate::report::{block_addable, block_sum, zero_block, Count, CounterBlock, UnsafeInfo};

verus! {

broadcast use vstd::std_specs::hash::group_hash_axioms;

/// The metrics of one `.rs` file, and whether it is a crate entry point.
#[derive(Clone, Copy, Debug, PartialEq, Eq, Structural)]
pub struct RsFileMetricsWrapper {
    /// The information gathered from the `.rs` file.
    pub metrics: RsFileMetrics,
    /// All crate entry points must declare forbid(unsafe_code) to make it
    /// count for the crate as a whole.
    pub is_crate_entry_point: bool,
}

/// The metrics of the `.rs` files of one package.
#[derive(Debug)]
pub struct PackageMetrics {
    /// The key is the key of the canonicalized path to the rs source file.
    pub rs_path_to_metrics: HashMap<u64, RsFileMetricsWrapper>,
}

/// One of the ten counters of a block: for `i` from 0 to 9, the safe and
/// the unsafe counter of functions, expressions, impls, traits and methods.
pub open spec fn block_field(b: CounterBlock, i: int) -> int {
    if i == 0 {
        b.functions.safe as int
    } else if i == 1 {
        b.functions.unsafe_ as int
    } else if i == 2 {
        b.exprs.safe as int
    } else if i == 3 {
        b.exprs.unsafe_ as int
    } else if i == 4 {
        b.item_impls.safe as int
    } else if i == 5 {
        b.item_impls.unsafe_ as int
    } else if i == 6 {
        b.item_traits.safe as int
    } else if i == 7 {
        b.item_traits.unsafe_ as int
    } else if i == 8 {
        b.methods.safe as int
    } else {
        b.methods.unsafe_ as int
    }
}

/// The step of a sum of counter `i` over files.
pub open spec fn field_adder(m: Map<u64, RsFileMetricsWrapper>, i: int) -> spec_fn(int, u64) -> int {
    |acc: int, k: u64| acc + block_field(m[k].metrics.counters, i)
}

/// The sum of counter `i` over the files whose keys are in `keys`.
pub open spec fn field_sum(m: Map<u64, RsFileMetricsWrapper>, keys: Set<u64>, i: int) -> int {
    keys.fold(0int, field_adder(m, i))
}

/// The counter block that sums the blocks of the files whose keys are in
/// `keys`.
pub open spec fn summed_block(m: Map<u64, RsFileMetricsWrapper>, keys: Set<u64>) -> CounterBlock {
    CounterBlock {
        functions: Count {
            safe: field_sum(m, keys, 0) as u64,
            unsafe_: field_sum(m, keys, 1) as u64,
        },
        exprs: Count { safe: field_sum(m, keys, 2) as u64, unsafe_: field_sum(m, keys, 3) as u64 },
        item_impls: Count {
            safe: field_sum(m, keys, 4) as u64,
            unsafe_: field_sum(m, keys, 5) as u64,
        },
        item_traits: Count {
            safe: field_sum(m, keys, 6) as u64,
            unsafe_: field_sum(m, keys, 7) as u64,
        },
        methods: Count {
            safe: field_sum(m, keys, 8) as u64,
            unsafe_: field_sum(m, keys, 9) as u64,
        },
    }
}

/// Every counter summed over all files of the map fits in a `u64`.
pub open spec fn sums_fit(m: Map<u64, RsFileMetricsWrapper>) -> bool {
    forall|i: int| 0 <= i < 10 ==> #[trigger] field_sum(m, m.dom(), i) <= u64::MAX
}

/// Every entry point file of the map declares `forbid(unsafe_code)`.
pub open spec fn entry_points_forbid_unsafe(m: Map<u64, RsFileMetricsWrapper>) -> bool {
    forall|k: u64|
        #[trigger] m.contains_key(k) && m[k].is_crate_entry_point ==> m[k].metrics.forbids_unsafe
}

proof fn lemma_field_adder_commutative(m: Map<u64, RsFileMetricsWrapper>, i: int)
    ensures
        vstd::set::fold::is_fun_commutative(field_adder(m, i)),
{
}

/// Adding a key to a set of keys adds that file's counter to the sum.
proof fn lemma_field_sum_insert(m: Map<u64, RsFileMetricsWrapper>, keys: Set<u64>, k: u64, i: int)
    requires
        keys.finite(),
        !keys.contains(k),
    ensures
        field_sum(m, keys.insert(k), i) == field_sum(m, keys, i) + block_field(
            m[k].metrics.counters,
            i,
        ),
{
    lemma_field_adder_commutative(m, i);
    vstd::set::fold::lemma_fold_insert(keys, 0int, field_adder(m, i), k);
}

proof fn lemma_field_sum_empty(m: Map<u64, RsFileMetricsWrapper>, i: int)
    ensures
        field_sum(m, Set::empty(), i) == 0,
{
    vstd::set::fold::lemma_fold_empty(0int, field_adder(m, i));
}

/// A sum over fewer files is no larger.
pub(crate) proof fn lemma_field_sum_subset(m: Map<u64, RsFileMetricsWrapper>, a: Set<u64>, b: Set<u64>, i: int)
    requires
        b.finite(),
        a.subset_of(b),
    ensures
        0 <= field_sum(m, a, i) <= field_sum(m, b, i),
    decreases b.len(),
{
    if b.len() == 0 {
        assert(b =~= Set::empty());
        assert(a =~= Set::empty());
        lemma_field_sum_empty(m, i);
    } else {
        let x = b.choose();
        let b1 = b.remove(x);
        assert(b1.insert(x) =~= b);
        lemma_field_sum_insert(m, b1, x, i);
        if a.contains(x) {
            let a1 = a.remove(x);
            assert(a1.insert(x) =~= a);
            lemma_field_sum_subset(m, a1, b1, i);
            lemma_field_sum_insert(m, a1, x, i);
        } else {
            lemma_field_sum_subset(m, a, b1, i);
        }
    }
}

/// The summed block of a set extended by one key is the summed block of the
/// set plus that file's block.
proof fn lemma_summed_block_insert(
    m: Map<u64, RsFileMetricsWrapper>,
    keys: Set<u64>,
    k: u64,
    all: Set<u64>,
)
    requires
        all.finite(),
        keys.subset_of(all),
        all.contains(k),
        !keys.contains(k),
        forall|i: int| 0 <= i < 10 ==> #[trigger] field_sum(m, all, i) <= u64::MAX,
    ensures
        block_addable(summed_block(m, keys), m[k].metrics.counters),
        summed_block(m, keys.insert(k)) == block_sum(summed_block(m, keys), m[k].metrics.counters),
{
    assert forall|i: int| 0 <= i < 10 implies field_sum(m, keys.insert(k), i) == field_sum(
        m,
        keys,
        i,
    ) + block_field(m[k].metrics.counters, i) && 0 <= field_sum(m, keys, i) && field_sum(
        m,
        keys.insert(k),
        i,
    ) <= u64::MAX by {
        lemma_field_sum_insert(m, keys, k, i);
        lemma_field_sum_subset(m, keys, all, i);
        lemma_field_sum_subset(m, keys.insert(k), all, i);
    }
    assert(field_sum(m, keys.insert(k), 0) == field_sum(m, keys, 0) + block_field(m[k].metrics.counters, 0));
    assert(field_sum(m, keys.insert(k), 1) == field_sum(m, keys, 1) + block_field(m[k].metrics.counters, 1));
    assert(field_sum(m, keys.insert(k), 2) == field_sum(m, keys, 2) + block_field(m[k].metrics.counters, 2));
    assert(field_sum(m, keys.insert(k), 3) == field_sum(m, keys, 3) + block_field(m[k].metrics.counters, 3));
    assert(field_sum(m, keys.insert(k), 4) == field_sum(m, keys, 4) + block_field(m[k].metrics.counters, 4));
    assert(field_sum(m, keys.insert(k), 5) == field_sum(m, keys, 5) + block_field(m[k].metrics.counters, 5));
    assert(field_sum(m, keys.insert(k), 6) == field_sum(m, keys, 6) + block_field(m[k].metrics.counters, 6));
    assert(field_sum(m, keys.insert(k), 7) == field_sum(m, keys, 7) + block_field(m[k].metrics.counters, 7));
    assert(field_sum(m, keys.insert(k), 8) == field_sum(m, keys, 8) + block_field(m[k].metrics.counters, 8));
    assert(field_sum(m, keys.insert(k), 9) == field_sum(m, keys, 9) + block_field(m[k].metrics.counters, 9));
}

proof fn lemma_summed_block_empty(m: Map<u64, RsFileMetricsWrapper>)
    ensures
        summed_block(m, Set::empty()) == zero_block(),
{
    lemma_field_sum_empty(m, 0);
    lemma_field_sum_empty(m, 1);
    lemma_field_sum_empty(m, 2);
    lemma_field_sum_empty(m, 3);
    lemma_field_sum_empty(m, 4);
    lemma_field_sum_empty(m, 5);
    lemma_field_sum_empty(m, 6);
    lemma_field_sum_empty(m, 7);
    lemma_field_sum_empty(m, 8);
    lemma_field_sum_empty(m, 9);
}

/// Sums the metrics of a package, separately for the files used by the
/// build and for the others, and finds out whether every entry point file
/// forbids unsafe code.
pub fn unsafe_stats(package_metrics: &PackageMetrics, rs_files_used: &HashSet<u64>) -> (r:
    UnsafeInfo)
    requires
        sums_fit(package_metrics.rs_path_to_metrics@),
    ensures
        r.used == summed_block(
            package_metrics.rs_path_to_metrics@,
            package_metrics.rs_path_to_metrics@.dom().intersect(rs_files_used@),
        ),
        r.unused == summed_block(
            package_metrics.rs_path_to_metrics@,
            package_metrics.rs_path_to_metrics@.dom().difference(rs_files_used@),
        ),
        r.forbids_unsafe == entry_points_forbid_unsafe(package_metrics.rs_path_to_metrics@),
{
    let ghost m = package_metrics.rs_path_to_metrics@;
    let ghost u = rs_files_used@;
    let ghost dom = m.dom();
    let mut forbids_unsafe = true;
    let mut used = CounterBlock::new();
    let mut unused = CounterBlock::new();
    let ghost mut seen: Set<u64> = Set::empty();
    let ghost s = spec_hash_map_iter(&package_metrics.rs_path_to_metrics).remaining();
    proof {
        assert forall|k: u64| #[trigger] dom.contains(k) implies exists|j: int|
            0 <= j < s.len() && *s[j].0 == k by {
            assert(s.contains((&k, &m[k])));
            let j = choose|j: int| 0 <= j < s.len() && s[j] == (&k, &m[k]);
            assert(*s[j].0 == k);
        }
        lemma_summed_block_empty(m);
        assert(seen.intersect(u) =~= Set::empty());
        assert(seen.difference(u) =~= Set::empty());
    }
    for entry in it: package_metrics.rs_path_to_metrics.iter()
        invariant
            m == package_metrics.rs_path_to_metrics@,
            u == rs_files_used@,
            dom == m.dom(),
            dom.finite(),
            sums_fit(m),
            s == spec_hash_map_iter(&package_metrics.rs_path_to_metrics).remaining(),
            it.seq() == s,
            forall|k: u64|
                #[trigger] dom.contains(k) ==> seen.contains(k) || exists|j: int|
                    it.index() <= j < s.len() && *s[j].0 == k,
            it.seq().no_duplicates(),
            seen.finite(),
            seen.subset_of(dom),
            forall|k: u64|
                seen.contains(k) <==> exists|j: int| 0 <= j < it.index() && *it.seq()[j].0 == k,
            used == summed_block(m, seen.intersect(u)),
            unused == summed_block(m, seen.difference(u)),
            forbids_unsafe == (forall|k: u64|
                #[trigger] seen.contains(k) && m[k].is_crate_entry_point
                    ==> m[k].metrics.forbids_unsafe),
    {
        let (k, w) = entry;
        let ghost idx = it.index();
        proof {
            assert(m.contains_key(*k) && m[*k] == *w);
            if seen.contains(*k) {
                let j = choose|j: int| 0 <= j < idx && *it.seq()[j].0 == *k;
                assert(m[*it.seq()[j].0] == *it.seq()[j].1);
                assert(it.seq()[j] == it.seq()[idx]);
                assert(false);
            }
        }
        if w.is_crate_entry_point && !w.metrics.forbids_unsafe {
            forbids_unsafe = false;
        }
        if rs_files_used.contains(k) {
            proof {
                assert(seen.intersect(u).insert(*k) =~= seen.insert(*k).intersect(u));
                assert(seen.difference(u) =~= seen.insert(*k).difference(u));
                lemma_summed_block_insert(m, seen.intersect(u), *k, dom);
            }
            used.add_assign(w.metrics.counters);
        } else {
            proof {
                assert(seen.difference(u).insert(*k) =~= seen.insert(*k).difference(u));
                assert(seen.intersect(u) =~= seen.insert(*k).intersect(u));
                lemma_summed_block_insert(m, seen.difference(u), *k, dom);
            }
            unused.add_assign(w.metrics.counters);
        }
        proof {
            seen = seen.insert(*k);
            assert forall|k2: u64|
                seen.contains(k2) <==> exists|j: int|
                    0 <= j < idx + 1 && *it.seq()[j].0 == k2 by {
                if k2 == *k {
                    assert(*it.seq()[idx].0 == k2);
                }
            }
            assert forall|k2: u64| #[trigger] dom.contains(k2) implies seen.contains(k2) || exists|j: int|
                idx + 1 <= j < s.len() && *s[j].0 == k2 by {
                if !seen.contains(k2) {
                    let j = choose|j: int| idx <= j < s.len() && *s[j].0 == k2;
                    assert(j != idx);
                }
            }
        }
    }
    proof {
        assert(seen =~= dom);
        assert(seen.intersect(u) =~= dom.intersect(u));
        assert(seen.difference(u) =~= dom.difference(u));
    }
    UnsafeInfo { used, unused, forbids_unsafe }
}


/// The whole counter blocks of the used and of the unused files together
/// sum every file of the package.
pub(crate) proof fn lemma_field_sum_split(
    m: Map<u64, RsFileMetricsWrapper>,
    a: Set<u64>,
    b: Set<u64>,
    i: int,
)
    requires
        a.finite(),
        b.finite(),
        a.disjoint(b),
    ensures
        field_sum(m, a.union(b), i) == field_sum(m, a, i) + field_sum(m, b, i),
    decreases b.len(),
{
    if b.len() == 0 {
        assert(b =~= Set::empty());
        assert(a.union(b) =~= a);
        lemma_field_sum_empty(m, i);
    } else {
        let x = b.choose();
        let b1 = b.remove(x);
        assert(b1.insert(x) =~= b);
        lemma_field_sum_split(m, a, b1, i);
        lemma_field_sum_insert(m, b1, x, i);
        assert(a.union(b1).insert(x) =~= a.union(b));
        lemma_field_sum_insert(m, a.union(b1), x, i);
    }
}

/// The statistics of the files used by the build and of the files not used
/// by the build together are the statistics of every file of the package:
/// each file is counted exactly once.
pub proof fn law_used_and_unused_partition_the_package(
    m: Map<u64, RsFileMetricsWrapper>,
    used: Set<u64>,
)
    requires
        m.dom().finite(),
        sums_fit(m),
    ensures
        block_addable(
            summed_block(m, m.dom().intersect(used)),
            summed_block(m, m.dom().difference(used)),
        ),
        block_sum(
            summed_block(m, m.dom().intersect(used)),
            summed_block(m, m.dom().difference(used)),
        ) == summed_block(m, m.dom()),
{
    let a = m.dom().intersect(used);
    let b = m.dom().difference(used);
    assert(a.union(b) =~= m.dom());
    assert forall|i: int| 0 <= i < 10 implies field_sum(m, a, i) + field_sum(m, b, i) == field_sum(
        m,
        m.dom(),
        i,
    ) && 0 <= field_sum(m, a, i) && 0 <= field_sum(m, b, i) by {
        lemma_field_sum_split(m, a, b, i);
        lemma_field_sum_subset(m, a, m.dom(), i);
        lemma_field_sum_subset(m, b, m.dom(), i);
    }
    assert(field_sum(m, m.dom(), 0) <= u64::MAX);
    assert(field_sum(m, m.dom(), 1) <= u64::MAX);
    assert(field_sum(m, m.dom(), 2) <= u64::MAX);
    assert(field_sum(m, m.dom(), 3) <= u64::MAX);
    assert(field_sum(m, m.dom(), 4) <= u64::MAX);
    assert(field_sum(m, m.dom(), 5) <= u64::MAX);
    assert(field_sum(m, m.dom(), 6) <= u64::MAX);
    assert(field_sum(m, m.dom(), 7) <= u64::MAX);
    assert(field_sum(m, m.dom(), 8) <= u64::MAX);
    assert(field_sum(m, m.dom(), 9) <= u64::MAX);
    assert(0 <= field_sum(m, a, 0) && 0 <= field_sum(m, b, 0));
    assert(0 <= field_sum(m, a, 1) && 0 <= field_sum(m, b, 1));
    assert(0 <= field_sum(m, a, 2) && 0 <= field_sum(m, b, 2));
    assert(0 <= field_sum(m, a, 3) && 0 <= field_sum(m, b, 3));
    assert(0 <= field_sum(m, a, 4) && 0 <= field_sum(m, b, 4));
    assert(0 <= field_sum(m, a, 5) && 0 <= field_sum(m, b, 5));
    assert(0 <= field_sum(m, a, 6) && 0 <= field_sum(m, b, 6));
    assert(0 <= field_sum(m, a, 7) && 0 <= field_sum(m, b, 7));
    assert(0 <= field_sum(m, a, 8) && 0 <= field_sum(m, b, 8));
    assert(0 <= field_sum(m, a, 9) && 0 <= field_sum(m, b, 9));
}

/// A package without any scanned file has empty statistics, and counts as
/// forbidding unsafe code.
pub proof fn law_empty_package_stats(used: Set<u64>)
    ensures
        summed_block(Map::<u64, RsFileMetricsWrapper>::empty(), Set::<u64>::empty().intersect(used))
            == zero_block(),
        summed_block(Map::<u64, RsFileMetricsWrapper>::empty(), Set::<u64>::empty().difference(used))
            == zero_block(),
        entry_points_forbid_unsafe(Map::<u64, RsFileMetricsWrapper>::empty()),
{
    assert(Set::<u64>::empty().intersect(used) =~= Set::empty());
    assert(Set::<u64>::empty().difference(used) =~= Set::empty());
    lemma_summed_block_empty(Map::<u64, RsFileMetricsWrapper>::empty());
}

// ---------------------------------------------------------------------------
// Source files

/// Provides information needed to scan for crate root
/// `#![forbid(unsafe_code)]`. The key names a canonicalized path.
#[derive(Clone, Copy, Debug, PartialEq, Eq, Structural)]
pub enum RsFile {
    /// Executable entry point source file, usually src/main.rs
    BinRoot(u64),
    /// Not sure if this is relevant but let's be conservative for now.
    CustomBuildRoot(u64),
    /// Library entry point source file, usually src/lib.rs
    LibRoot(u64),
    /// All other .rs files.
    Other(u64),
}

/// The kind of a build target of a package.
#[derive(Clone, Copy, Debug, PartialEq, Eq, Structural)]
pub enum TargetKind {
    Bench,
    Bin,
    CustomBuild,
    ExampleBin,
    ExampleLib,
    Lib,
    Test,
}

/// Whether the file is a crate entry point, and the key of its path.
pub fn into_is_entry_point_and_path_buf(rs_file: RsFile) -> (r: (bool, u64))
    ensures
        r == match rs_file {
            RsFile::BinRoot(p) => (true, p),
            RsFile::CustomBuildRoot(p) => (true, p),
            RsFile::LibRoot(p) => (true, p),
            RsFile::Other(p) => (false, p),
        },
{
    match rs_file {
        RsFile::BinRoot(pb) => (true, pb),
        RsFile::CustomBuildRoot(pb) => (true, pb),
        RsFile::LibRoot(pb) => (true, pb),
        RsFile::Other(pb) => (false, pb),
    }
}

/// The role of the entry point file of a build target of the given kind.
pub open spec fn spec_rs_code_file(target_kind: TargetKind, path: u64) -> RsFile {
    match target_kind {
        TargetKind::Bin => RsFile::BinRoot(path),
        TargetKind::CustomBuild => RsFile::CustomBuildRoot(path),
        TargetKind::Lib => RsFile::LibRoot(path),
        _ => RsFile::Other(path),
    }
}

/// The role of the entry point file of a build target of the given kind.
pub fn into_rs_code_file(target_kind: &TargetKind, path: u64) -> (r: RsFile)
    ensures
        r == spec_rs_code_file(*target_kind, path),
{
    match target_kind {
        TargetKind::Bench => RsFile::Other(path),
        TargetKind::Bin => RsFile::BinRoot(path),
        TargetKind::CustomBuild => RsFile::CustomBuildRoot(path),
        TargetKind::ExampleBin => RsFile::Other(path),
        TargetKind::ExampleLib => RsFile::Other(path),
        TargetKind::Lib => RsFile::LibRoot(path),
        TargetKind::Test => RsFile::Other(path),
    }
}

/// The kind of a build target from the kinds that `cargo metadata` lists
/// for it: a single `bench`, `bin`, `custom-build`, `example` or `test`
/// gives that kind, anything else is a library.
pub fn into_target_kind(raw_target_kind: &Vec<String>) -> (r: TargetKind)
    ensures
        r == (if raw_target_kind@.len() == 1 {
            let k = raw_target_kind@[0]@;
            if k == "bench"@ {
                TargetKind::Bench
            } else if k == "bin"@ {
                TargetKind::Bin
            } else if k == "custom-build"@ {
                TargetKind::CustomBuild
            } else if k == "example"@ {
                TargetKind::ExampleBin
            } else if k == "test"@ {
                TargetKind::Test
            } else {
                TargetKind::Lib
            }
        } else {
            TargetKind::Lib
        }),
{
    if raw_target_kind.len() != 1 {
        return TargetKind::Lib;
    }
    let k = &raw_target_kind[0];
    if crate::text::text_is(k, "bench") {
        TargetKind::Bench
    } else if crate::text::text_is(k, "bin") {
        TargetKind::Bin
    } else if crate::text::text_is(k, "custom-build") {
        TargetKind::CustomBuild
    } else if crate::text::text_is(k, "example") {
        TargetKind::ExampleBin
    } else if crate::text::text_is(k, "test") {
        TargetKind::Test
    } else {
        TargetKind::Lib
    }
}

/// The keys in order of their first appearance, each once.
pub open spec fn first_keys(s: Seq<u64>) -> Seq<u64>
    decreases s.len(),
{
    if s.len() == 0 {
        Seq::empty()
    } else {
        let r = first_keys(s.drop_last());
        if r.contains(s.last()) {
            r
        } else {
            r.push(s.last())
        }
    }
}

/// The paths of the build targets.
pub open spec fn target_paths(targets: Seq<(u64, TargetKind)>) -> Seq<u64> {
    targets.map_values(|t: (u64, TargetKind)| t.0)
}

/// The kinds of the build targets whose entry point is `path`, in order.
pub open spec fn kinds_at(targets: Seq<(u64, TargetKind)>, path: u64) -> Seq<TargetKind>
    decreases targets.len(),
{
    if targets.len() == 0 {
        Seq::empty()
    } else {
        let r = kinds_at(targets.drop_last(), path);
        if targets.last().0 == path {
            r.push(targets.last().1)
        } else {
            r
        }
    }
}

/// The entry point files of the targets at each of `paths`, path by path.
pub open spec fn code_files(targets: Seq<(u64, TargetKind)>, paths: Seq<u64>) -> Seq<RsFile>
    decreases paths.len(),
{
    if paths.len() == 0 {
        Seq::empty()
    } else {
        code_files(targets, paths.drop_last()) + kinds_at(targets, paths.last()).map_values(
            |k: TargetKind| spec_rs_code_file(k, paths.last()),
        )
    }
}

/// The files of a directory that are no build target's entry point.
pub open spec fn other_files(targets: Seq<(u64, TargetKind)>, files: Seq<u64>) -> Seq<RsFile>
    decreases files.len(),
{
    if files.len() == 0 {
        Seq::empty()
    } else {
        let r = other_files(targets, files.drop_last());
        if target_paths(targets).contains(files.last()) {
            r
        } else {
            r.push(RsFile::Other(files.last()))
        }
    }
}

/// The source files of a package: the files of its directory that are no
/// target's entry point, then, path by path in the order in which the
/// targets first name them, the entry point of each target.
pub open spec fn package_rs_files(targets: Seq<(u64, TargetKind)>, files: Seq<u64>) -> Seq<RsFile> {
    other_files(targets, files) + code_files(targets, first_keys(target_paths(targets)))
}

proof fn lemma_first_keys_contains(s: Seq<u64>, k: u64)
    ensures
        first_keys(s).contains(k) <==> s.contains(k),
    decreases s.len(),
{
    if s.len() > 0 {
        let d = s.drop_last();
        let r = first_keys(d);
        lemma_first_keys_contains(d, k);
        lemma_first_keys_contains(d, s.last());
        if d.contains(k) {
            let i = choose|i: int| 0 <= i < d.len() && d[i] == k;
            assert(s[i] == k);
        }
        if s.contains(k) && k != s.last() {
            let i = choose|i: int| 0 <= i < s.len() && s[i] == k;
            assert(d[i] == k);
        }
        assert(s[s.len() - 1] == s.last());
        if !r.contains(s.last()) {
            let p = r.push(s.last());
            assert(p[r.len() as int] == s.last());
            if r.contains(k) {
                let i = choose|i: int| 0 <= i < r.len() && r[i] == k;
                assert(p[i] == k);
            }
            if p.contains(k) && k != s.last() {
                let i = choose|i: int| 0 <= i < p.len() && p[i] == k;
                assert(r[i] == k);
            }
        }
    }
}

/// The source files of a package, from its build targets (the path of
/// each entry point, with the target's kind) and the `.rs` files of its
/// directory.
pub fn find_rs_files_in_package(targets: &Vec<(u64, TargetKind)>, dir_files: &Vec<u64>) -> (r: Vec<RsFile>)
    ensures
        r@ == package_rs_files(targets@, dir_files@),
{
    let ghost t = targets@;
    // The paths of the targets, in order of first appearance.
    let mut keys: Vec<u64> = Vec::new();
    let mut i: usize = 0;
    while i < targets.len()
        invariant
            t == targets@,
            i <= targets.len(),
            keys@ == first_keys(target_paths(t.take(i as int))),
        decreases targets.len() - i,
    {
        let path = targets[i].0;
        proof {
            assert(target_paths(t.take(i as int + 1)).drop_last() =~= target_paths(t.take(i as int)));
        }
        if !crate::graph::contains_u64(&keys, path) {
            keys.push(path);
        }
        i = i + 1;
    }
    proof {
        assert(t.take(t.len() as int) =~= t);
    }
    let mut out: Vec<RsFile> = Vec::new();
    let mut f: usize = 0;
    while f < dir_files.len()
        invariant
            t == targets@,
            keys@ == first_keys(target_paths(t)),
            f <= dir_files.len(),
            out@ == other_files(t, dir_files@.take(f as int)),
        decreases dir_files.len() - f,
    {
        let file = dir_files[f];
        proof {
            assert(dir_files@.take(f as int + 1).drop_last() =~= dir_files@.take(f as int));
            lemma_first_keys_contains(target_paths(t), file);
        }
        if !crate::graph::contains_u64(&keys, file) {
            out.push(RsFile::Other(file));
        }
        f = f + 1;
    }
    proof {
        assert(dir_files@.take(dir_files@.len() as int) =~= dir_files@);
    }
    let ghost others = out@;
    let mut k: usize = 0;
    while k < keys.len()
        invariant
            t == targets@,
            others == other_files(t, dir_files@),
            k <= keys.len(),
            out@ == others + code_files(t, keys@.take(k as int)),
        decreases keys.len() - k,
    {
        let path = keys[k];
        let ghost base = out@;
        let mut j: usize = 0;
        while j < targets.len()
            invariant
                t == targets@,
                j <= targets.len(),
                out@ == base + kinds_at(t.take(j as int), path).map_values(
                    |kd: TargetKind| spec_rs_code_file(kd, path),
                ),
            decreases targets.len() - j,
        {
            proof {
                assert(t.take(j as int + 1).drop_last() =~= t.take(j as int));
            }
            if targets[j].0 == path {
                let code = into_rs_code_file(&targets[j].1, path);
                out.push(code);
                proof {
                    assert(kinds_at(t.take(j as int + 1), path).map_values(
                        |kd: TargetKind| spec_rs_code_file(kd, path),
                    ) =~= kinds_at(t.take(j as int), path).map_values(
                        |kd: TargetKind| spec_rs_code_file(kd, path),
                    ).push(code));
                }
            }
            j = j + 1;
        }
        proof {
            assert(t.take(t.len() as int) =~= t);
            assert(keys@.take(k as int + 1).drop_last() =~= keys@.take(k as int));
            assert(out@ =~= others + code_files(t, keys@.take(k as int + 1)));
        }
        k = k + 1;
    }
    proof {
        assert(keys@.take(keys@.len() as int) =~= keys@);
    }
    out
}


// ---------------------------------------------------------------------------
// Scanning packages

/// Which files a scan reads.
#[derive(Clone, Copy, Debug, PartialEq, Eq, Structural)]
pub enum ScanMode {
    /// An optimization to allow skipping everything except the entry
    /// points. This is only useful for the "--forbid-only" mode since that
    /// mode only depends on entry point .rs files.
    EntryPointsOnly,
    /// The default scan mode, scan every .rs file.
    Full,
}

/// Whether a scan in the given mode reads the file.
pub fn scan_mode_includes(mode: ScanMode, is_entry_point: bool) -> (r: bool)
    ensures
        r == (is_entry_point || mode == ScanMode::Full),
{
    match (is_entry_point, mode) {
        (false, ScanMode::EntryPointsOnly) => false,
        _ => true,
    }
}

/// The output lines of a scan, each as its pieces of styled text, and how
/// many warnings it raised.
pub struct ScanResult {
    pub scan_output_lines: Vec<Vec<StyledText>>,
    pub warning_count: u64,
}

/// The scan raised warnings.
#[derive(Clone, Copy, Debug, PartialEq, Eq, Structural)]
pub struct FoundWarningsError {
    pub warning_count: u64,
}

/// The metrics of every scanned package.
#[derive(Debug)]
pub struct GeigerContext {
    pub package_id_to_metrics: HashMap<u64, PackageMetrics>,
}

impl GeigerContext {
    /// A context without any package.
    pub fn new() -> (c: GeigerContext)
        ensures
            c.package_id_to_metrics@ == Map::<u64, PackageMetrics>::empty(),
    {
        GeigerContext { package_id_to_metrics: HashMap::new() }
    }
}

impl PackageMetrics {
    /// Metrics without any file.
    pub fn new() -> (p: PackageMetrics)
        ensures
            p.rs_path_to_metrics@ == Map::<u64, RsFileMetricsWrapper>::empty(),
    {
        PackageMetrics { rs_path_to_metrics: HashMap::new() }
    }
}

/// Records the metrics of one scanned file of a package, replacing earlier
/// metrics of the same file.
pub fn update_package_id_to_metrics_with_rs_file_metrics(
    is_entry_point: bool,
    package_id: u64,
    package_id_to_metrics: &mut HashMap<u64, PackageMetrics>,
    path_buf: u64,
    rs_file_metrics: RsFileMetrics,
)
    ensures
        final(package_id_to_metrics)@.dom() == old(package_id_to_metrics)@.dom().insert(package_id),
        forall|p: u64|
            p != package_id && #[trigger] old(package_id_to_metrics)@.contains_key(p)
                ==> final(package_id_to_metrics)@[p] == old(package_id_to_metrics)@[p],
        final(package_id_to_metrics)@[package_id].rs_path_to_metrics@ == (if old(
            package_id_to_metrics,
        )@.contains_key(package_id) {
            old(package_id_to_metrics)@[package_id].rs_path_to_metrics@
        } else {
            Map::empty()
        }).insert(
            path_buf,
            RsFileMetricsWrapper { metrics: rs_file_metrics, is_crate_entry_point: is_entry_point },
        ),
{
    let mut package_metrics = match package_id_to_metrics.remove(&package_id) {
        Some(m) => m,
        None => PackageMetrics::new(),
    };
    let wrapper = RsFileMetricsWrapper {
        metrics: rs_file_metrics,
        is_crate_entry_point: is_entry_point,
    };
    package_metrics.rs_path_to_metrics.insert(path_buf, wrapper);
    package_id_to_metrics.insert(package_id, package_metrics);
    proof {
        assert(final(package_id_to_metrics)@.dom() =~= old(package_id_to_metrics)@.dom().insert(package_id));
    }
}

/// The elements of a set of keys, each once, in some order.
fn keys_of(set: &HashSet<u64>) -> (v: Vec<u64>)
    ensures
        v@.to_set() == set@,
        v@.no_duplicates(),
{
    let mut v: Vec<u64> = Vec::new();
    let ghost s = spec_hash_keys_iter(set).remaining();
    for x in it: set.iter()
        invariant
            s == spec_hash_keys_iter(set).remaining(),
            it.seq() == s,
            s.unref().to_set() == set@,
            s.no_duplicates(),
            v@ == s.unref().take(it.index()),
    {
        proof {
            assert(s.unref().take(it.index() + 1) =~= s.unref().take(it.index()).push(*x));
        }
        v.push(*x);
    }
    proof {
        assert(s.unref().take(s.len() as int) =~= s.unref());
        assert(s.unref().no_duplicates()) by {
            assert forall|i: int, j: int| 0 <= i < s.len() && 0 <= j < s.len() && i != j implies s.unref()[i] != s.unref()[j] by {
                assert(s[i] != s[j]);
            }
        }
    }
    v
}

/// The keys of the files that some package has metrics for.
pub open spec fn scanned_keys(ctx: Map<u64, PackageMetrics>) -> Set<u64> {
    Set::new(
        |k: u64|
            exists|p: u64| #[trigger]
                ctx.contains_key(p) && ctx[p].rs_path_to_metrics@.contains_key(k),
    )
}

/// The files used by the build that no package has metrics for, each once.
pub fn list_files_used_but_not_scanned(
    geiger_context: &GeigerContext,
    rs_files_used: &HashSet<u64>,
) -> (r: Vec<u64>)
    ensures
        r@.no_duplicates(),
        r@.to_set() == rs_files_used@.difference(scanned_keys(geiger_context.package_id_to_metrics@)),
{
    let ghost ctx = geiger_context.package_id_to_metrics@;
    let used = keys_of(rs_files_used);
    let mut r: Vec<u64> = Vec::new();
    let mut i: usize = 0;
    while i < used.len()
        invariant
            i <= used@.len(),
            used@.no_duplicates(),
            used@.to_set() == rs_files_used@,
            ctx == geiger_context.package_id_to_metrics@,
            r@.no_duplicates(),
            r@.to_set() == used@.take(i as int).to_set().difference(scanned_keys(ctx)),
            forall|j: int| 0 <= j < r@.len() ==> used@.take(i as int).contains(#[trigger] r@[j]),
        decreases used@.len() - i,
    {
        let k = used[i];
        let scanned = is_scanned(geiger_context, k);
        let ghost r0 = r@;
        proof {
            assert(used@.take(i as int + 1) =~= used@.take(i as int).push(k));
            used@.take(i as int).lemma_push_to_set_commute(k);
            assert(!used@.take(i as int).contains(k));
        }
        if !scanned {
            proof {
                assert forall|j: int| 0 <= j < r@.len() implies r@[j] != k by {
                    assert(used@.take(i as int).contains(r@[j]));
                }
            }
            r.push(k);
            proof {
                r0.lemma_push_to_set_commute(k);
            }
        }
        proof {
            assert forall|j: int| 0 <= j < r@.len() implies used@.take(i as int + 1).contains(#[trigger] r@[j]) by {
                if j < r0.len() {
                    assert(used@.take(i as int).contains(r0[j]));
                    let t = choose|t: int| 0 <= t < i && used@.take(i as int)[t] == r0[j];
                    assert(used@.take(i as int + 1)[t] == r@[j]);
                } else {
                    assert(used@.take(i as int + 1)[i as int] == k);
                }
            }
            assert(r@.to_set() =~= used@.take(i as int + 1).to_set().difference(scanned_keys(ctx)));
        }
        i = i + 1;
    }
    proof {
        assert(used@.take(used@.len() as int) =~= used@);
    }
    r
}

/// Whether some package has metrics for the file.
fn is_scanned(geiger_context: &GeigerContext, k: u64) -> (r: bool)
    ensures
        r == scanned_keys(geiger_context.package_id_to_metrics@).contains(k),
{
    let ghost ctx = geiger_context.package_id_to_metrics@;
    let ghost s = spec_hash_map_iter(&geiger_context.package_id_to_metrics).remaining();
    for entry in it: geiger_context.package_id_to_metrics.iter()
        invariant
            ctx == geiger_context.package_id_to_metrics@,
            s == spec_hash_map_iter(&geiger_context.package_id_to_metrics).remaining(),
            it.seq() == s,
            forall|j: int|
                0 <= j < it.index() ==> !(#[trigger] s[j]).1.rs_path_to_metrics@.contains_key(k),
    {
        let (p, pm) = entry;
        if pm.rs_path_to_metrics.contains_key(&k) {
            proof {
                assert(ctx.contains_key(*p) && ctx[*p] == *pm);
            }
            return true;
        }
    }
    proof {
        assert forall|p: u64| #[trigger] ctx.contains_key(p) implies !ctx[p].rs_path_to_metrics@.contains_key(k) by {
            assert(s.contains((&p, &ctx[p])));
            let j = choose|j: int| 0 <= j < s.len() && s[j] == (&p, &ctx[p]);
            assert(!s[j].1.rs_path_to_metrics@.contains_key(k));
        }
    }
    false
}

} // verus!
