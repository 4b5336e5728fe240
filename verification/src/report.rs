//! The data of the unsafety report: counters, counter blocks and the
//! per-package information.

use vstd::prelude::*;

verus! {

/// Statistics about the use of `unsafe`.
#[derive(Clone, Copy, Debug, PartialEq, Eq, Structural)]
pub struct Count {
    /// Number of safe items
    pub safe: u64,
    /// Number of unsafe items
    pub unsafe_: u64,
}

/// The sum of two counts, field by field, as mathematical integers.
pub open spec fn count_sum(a: Count, b: Count) -> (int, int) {
    (a.safe + b.safe, a.unsafe_ + b.unsafe_)
}

/// Two counts can be added without overflowing a `u64`.
pub open spec fn count_addable(a: Count, b: Count) -> bool {
    a.safe + b.safe <= u64::MAX && a.unsafe_ + b.unsafe_ <= u64::MAX
}

impl Count {
    /// The count with both counters at zero.
    pub fn new() -> (c: Count)
        ensures
            c.safe == 0 && c.unsafe_ == 0,
    {
        Count { safe: 0, unsafe_: 0 }
    }

    /// Increments the safe or unsafe counter by 1
    pub fn count(&mut self, is_unsafe: bool)
        requires
            is_unsafe ==> old(self).unsafe_ < u64::MAX,
            !is_unsafe ==> old(self).safe < u64::MAX,
        ensures
            is_unsafe ==> final(self).unsafe_ == old(self).unsafe_ + 1 && final(self).safe
                == old(self).safe,
            !is_unsafe ==> final(self).safe == old(self).safe + 1 && final(self).unsafe_
                == old(self).unsafe_,
    {
        if is_unsafe {
            self.unsafe_ = self.unsafe_ + 1;
        } else {
            self.safe = self.safe + 1;
        }
    }

    /// Field-by-field sum of two counts.
    pub fn add(self, other: Count) -> (r: Count)
        requires
            count_addable(self, other),
        ensures
            r.safe == self.safe + other.safe,
            r.unsafe_ == self.unsafe_ + other.unsafe_,
    {
        Count { safe: self.safe + other.safe, unsafe_: self.unsafe_ + other.unsafe_ }
    }

    /// Adds `rhs` to this count, field by field.
    pub fn add_assign(&mut self, rhs: Count)
        requires
            count_addable(*old(self), rhs),
        ensures
            final(self).safe == old(self).safe + rhs.safe,
            final(self).unsafe_ == old(self).unsafe_ + rhs.unsafe_,
    {
        *self = self.add(rhs);
    }
}

impl Default for Count {
    fn default() -> (c: Count)
        ensures
            c.safe == 0 && c.unsafe_ == 0,
    {
        Count::new()
    }
}


/// Unsafe usage metrics collection.
#[derive(Clone, Copy, Debug, PartialEq, Eq, Structural)]
pub struct CounterBlock {
    pub functions: Count,
    pub exprs: Count,
    pub item_impls: Count,
    pub item_traits: Count,
    pub methods: Count,
}

/// The field-by-field sum of two counter blocks, as a specification.
pub open spec fn block_sum(a: CounterBlock, b: CounterBlock) -> CounterBlock {
    CounterBlock {
        functions: Count {
            safe: (a.functions.safe + b.functions.safe) as u64,
            unsafe_: (a.functions.unsafe_ + b.functions.unsafe_) as u64,
        },
        exprs: Count {
            safe: (a.exprs.safe + b.exprs.safe) as u64,
            unsafe_: (a.exprs.unsafe_ + b.exprs.unsafe_) as u64,
        },
        item_impls: Count {
            safe: (a.item_impls.safe + b.item_impls.safe) as u64,
            unsafe_: (a.item_impls.unsafe_ + b.item_impls.unsafe_) as u64,
        },
        item_traits: Count {
            safe: (a.item_traits.safe + b.item_traits.safe) as u64,
            unsafe_: (a.item_traits.unsafe_ + b.item_traits.unsafe_) as u64,
        },
        methods: Count {
            safe: (a.methods.safe + b.methods.safe) as u64,
            unsafe_: (a.methods.unsafe_ + b.methods.unsafe_) as u64,
        },
    }
}

/// Two counter blocks can be added without any counter overflowing.
pub open spec fn block_addable(a: CounterBlock, b: CounterBlock) -> bool {
    &&& count_addable(a.functions, b.functions)
    &&& count_addable(a.exprs, b.exprs)
    &&& count_addable(a.item_impls, b.item_impls)
    &&& count_addable(a.item_traits, b.item_traits)
    &&& count_addable(a.methods, b.methods)
}

/// The counter block with every counter at zero.
pub open spec fn zero_block() -> CounterBlock {
    CounterBlock {
        functions: Count { safe: 0, unsafe_: 0 },
        exprs: Count { safe: 0, unsafe_: 0 },
        item_impls: Count { safe: 0, unsafe_: 0 },
        item_traits: Count { safe: 0, unsafe_: 0 },
        methods: Count { safe: 0, unsafe_: 0 },
    }
}

/// Some unsafe counter of the block is non-zero.
pub open spec fn block_has_unsafe(b: CounterBlock) -> bool {
    b.functions.unsafe_ > 0 || b.exprs.unsafe_ > 0 || b.item_impls.unsafe_ > 0
        || b.item_traits.unsafe_ > 0 || b.methods.unsafe_ > 0
}

impl CounterBlock {
    /// The counter block with every counter at zero.
    pub fn new() -> (b: CounterBlock)
        ensures
            b == zero_block(),
    {
        CounterBlock {
            functions: Count::new(),
            exprs: Count::new(),
            item_impls: Count::new(),
            item_traits: Count::new(),
            methods: Count::new(),
        }
    }

    /// Whether any kind of item was counted as unsafe.
    pub fn has_unsafe(&self) -> (r: bool)
        ensures
            r == block_has_unsafe(*self),
    {
        self.functions.unsafe_ > 0 || self.exprs.unsafe_ > 0 || self.item_impls.unsafe_ > 0
            || self.item_traits.unsafe_ > 0 || self.methods.unsafe_ > 0
    }

    /// Field-by-field sum of two counter blocks.
    pub fn add(self, other: CounterBlock) -> (r: CounterBlock)
        requires
            block_addable(self, other),
        ensures
            r == block_sum(self, other),
    {
        CounterBlock {
            functions: self.functions.add(other.functions),
            exprs: self.exprs.add(other.exprs),
            item_impls: self.item_impls.add(other.item_impls),
            item_traits: self.item_traits.add(other.item_traits),
            methods: self.methods.add(other.methods),
        }
    }

    /// Adds `rhs` to this block, field by field.
    pub fn add_assign(&mut self, rhs: CounterBlock)
        requires
            block_addable(*old(self), rhs),
        ensures
            *final(self) == block_sum(*old(self), rhs),
    {
        *self = self.add(rhs);
    }
}

impl Default for CounterBlock {
    fn default() -> (b: CounterBlock)
        ensures
            b == zero_block(),
    {
        CounterBlock::new()
    }
}

/// Adding counter blocks does not depend on the order of the operands.
pub proof fn lemma_block_sum_commutative(a: CounterBlock, b: CounterBlock)
    ensures
        block_addable(a, b) == block_addable(b, a),
        block_sum(a, b) == block_sum(b, a),
{
}

/// Adding counter blocks does not depend on how the operands are grouped.
pub proof fn lemma_block_sum_associative(a: CounterBlock, b: CounterBlock, c: CounterBlock)
    requires
        block_addable(a, b),
        block_addable(block_sum(a, b), c),
    ensures
        block_addable(b, c),
        block_addable(a, block_sum(b, c)),
        block_sum(block_sum(a, b), c) == block_sum(a, block_sum(b, c)),
{
}

/// The zero block is neutral for addition.
pub proof fn lemma_block_sum_zero(a: CounterBlock)
    ensures
        block_addable(a, zero_block()),
        block_sum(a, zero_block()) == a,
{
}

/// A sum of blocks has unsafe usage exactly when one of its operands has.
pub proof fn lemma_has_unsafe_of_sum(a: CounterBlock, b: CounterBlock)
    requires
        block_addable(a, b),
    ensures
        block_has_unsafe(block_sum(a, b)) == (block_has_unsafe(a) || block_has_unsafe(b)),
{
}


/// Unsafety usage in a package
#[derive(Clone, Copy, Debug, PartialEq, Eq, Structural)]
pub struct UnsafeInfo {
    /// Unsafe usage statistics for code used by the project
    pub used: CounterBlock,
    /// Unsafe usage statistics for code not used by the project
    pub unused: CounterBlock,
    /// Whether this package forbids the use of `unsafe`
    pub forbids_unsafe: bool,
}

impl Default for UnsafeInfo {
    fn default() -> (u: UnsafeInfo)
        ensures
            u.used == zero_block(),
            u.unused == zero_block(),
            !u.forbids_unsafe,
    {
        UnsafeInfo { used: CounterBlock::new(), unused: CounterBlock::new(), forbids_unsafe: false }
    }
}


/// Kind of dependency for a package
#[derive(Clone, Copy, Debug, PartialEq, Eq, Hash, Structural)]
pub enum DependencyKind {
    /// Dependency in the `[dependencies]` section of `Cargo.toml`
    Normal,
    /// Dependency in the `[dev-dependencies]` section of `Cargo.toml`
    Development,
    /// Dependency in the `[build-dependencies]` section of `Cargo.toml`
    Build,
}


/// A package and its dependencies, by package key.
#[derive(Clone, Debug, PartialEq, Eq)]
pub struct PackageInfo {
    pub id: u64,
    pub dependencies: Vec<u64>,
    pub dev_dependencies: Vec<u64>,
    pub build_dependencies: Vec<u64>,
}

impl PackageInfo {
    /// A package without dependencies.
    pub fn new(id: u64) -> (p: PackageInfo)
        ensures
            p.id == id,
            p.dependencies@ == Seq::<u64>::empty(),
            p.dev_dependencies@ == Seq::<u64>::empty(),
            p.build_dependencies@ == Seq::<u64>::empty(),
    {
        PackageInfo {
            id,
            dependencies: Vec::new(),
            dev_dependencies: Vec::new(),
            build_dependencies: Vec::new(),
        }
    }

    /// Adds a dependency to the list of its kind.
    pub fn push_dependency(&mut self, dep: u64, kind: DependencyKind)
        ensures
            final(self).id == old(self).id,
            final(self).dependencies@ == if kind == DependencyKind::Normal {
                old(self).dependencies@.push(dep)
            } else {
                old(self).dependencies@
            },
            final(self).dev_dependencies@ == if kind == DependencyKind::Development {
                old(self).dev_dependencies@.push(dep)
            } else {
                old(self).dev_dependencies@
            },
            final(self).build_dependencies@ == if kind == DependencyKind::Build {
                old(self).build_dependencies@.push(dep)
            } else {
                old(self).build_dependencies@
            },
    {
        match kind {
            DependencyKind::Normal => self.dependencies.push(dep),
            DependencyKind::Development => self.dev_dependencies.push(dep),
            DependencyKind::Build => self.build_dependencies.push(dep),
        }
    }
}

/// Entry of the report of the scan for packages that forbid `unsafe`.
#[derive(Clone, Debug, PartialEq, Eq)]
pub struct QuickReportEntry {
    pub package: PackageInfo,
    /// Whether this package forbids the use of `unsafe`
    pub forbids_unsafe: bool,
}

/// Report of the scan for packages that forbid `unsafe`.
#[derive(Clone, Debug, Default, PartialEq, Eq)]
pub struct QuickSafetyReport {
    /// Packages that were scanned successfully
    pub packages: Vec<QuickReportEntry>,
    /// Packages that were not scanned successfully
    pub packages_without_metrics: Vec<u64>,
}

/// Entry of the report of the scan for the use of `unsafe`.
#[derive(Clone, Debug, PartialEq, Eq)]
pub struct ReportEntry {
    pub package: PackageInfo,
    /// Unsafety scan results
    pub unsafety: UnsafeInfo,
}

/// Report of the scan for the use of `unsafe`.
#[derive(Clone, Debug, Default, PartialEq, Eq)]
pub struct SafetyReport {
    pub packages: Vec<ReportEntry>,
    pub packages_without_metrics: Vec<u64>,
    /// The keys of the files used by the build that were never scanned.
    pub used_but_not_scanned_files: Vec<u64>,
}

} // verus!
