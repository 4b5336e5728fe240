//! Counting of `unsafe` usage in one parsed Rust source file.
//!
//! The source file is given as a syntax tree that holds, for every node that
//! the count depends on, the facts that the count reads: whether an item is
//! declared `unsafe`, which attributes it carries, and which nodes are nested
//! in it, in the order in which a syntax walk visits them.

use vstd::prelude::*;
use crate::report::{zero_block, Count, CounterBlock};
use crate::text::text_is;

verus! {

/// Whether code inside tests is counted.
#[derive(Clone, Copy, Debug, PartialEq, Eq, Structural)]
pub enum IncludeTests {
    Yes,
    No,
}

/// Scan result for a single `.rs` file.
#[derive(Clone, Copy, Debug, PartialEq, Eq, Structural)]
pub struct RsFileMetrics {
    /// Metrics storage.
    pub counters: CounterBlock,
    /// This file is decorated with `#![forbid(unsafe_code)]`
    pub forbids_unsafe: bool,
}

impl RsFileMetrics {
    /// Metrics with every counter at zero and no `forbid(unsafe_code)`.
    pub fn new() -> (m: RsFileMetrics)
        ensures
            m.counters == zero_block(),
            !m.forbids_unsafe,
    {
        RsFileMetrics { counters: CounterBlock::new(), forbids_unsafe: false }
    }
}

impl Default for RsFileMetrics {
    fn default() -> (m: RsFileMetrics)
        ensures
            m.counters == zero_block(),
            !m.forbids_unsafe,
    {
        RsFileMetrics::new()
    }
}

/// One item of the parenthesised list of an attribute, such as `unsafe_code`
/// in `#![forbid(unsafe_code)]`, as far as the attribute parser reached.
#[derive(Clone, Debug, PartialEq, Eq)]
pub struct NestedMetaInfo {
    /// The item's path when it is a single identifier.
    pub ident: Option<String>,
    /// The path is followed by `= value`.
    pub has_value: bool,
}

/// What the count reads of an attribute.
#[derive(Clone, Debug, PartialEq, Eq)]
pub struct AttributeInfo {
    /// An inner attribute, written `#![...]`.
    pub inner: bool,
    /// The attribute's path when it is a single identifier.
    pub ident: Option<String>,
    /// The nested items of a parenthesised list, in order, up to the first
    /// one after which the list could not be parsed further.
    pub nested: Vec<NestedMetaInfo>,
}

/// The kind of an expression node.
#[derive(Clone, Copy, Debug, PartialEq, Eq, Structural)]
pub enum ExprKind {
    /// A literal, such as `1` or `"abc"`.
    Lit,
    /// A path, such as `x` or `std::mem::swap`.
    Path,
    /// An `unsafe { ... }` block.
    Unsafe,
    /// Any other expression.
    Other,
}

/// A node of the syntax tree that the count reacts to. Nodes of any other
/// kind are transparent: the nodes nested in them are listed as children of
/// the nearest enclosing node of one of these kinds.
#[derive(Debug)]
pub enum SynNode {
    /// An expression.
    Expr { kind: ExprKind, children: Vec<SynNode> },
    /// The block of an `unsafe { ... }` expression.
    ExprUnsafe { children: Vec<SynNode> },
    /// A free-standing function.
    ItemFn { attrs: Vec<AttributeInfo>, is_unsafe: bool, children: Vec<SynNode> },
    /// A module.
    ItemMod { attrs: Vec<AttributeInfo>, children: Vec<SynNode> },
    /// An `impl` block.
    ItemImpl { is_unsafe: bool, children: Vec<SynNode> },
    /// A trait definition.
    ItemTrait { is_unsafe: bool, children: Vec<SynNode> },
    /// A function inside an `impl` block.
    ImplItemFn { is_unsafe: bool, children: Vec<SynNode> },
}

/// A parsed source file: its attributes, and the nodes nested in it.
#[derive(Debug)]
pub struct SyntaxFile {
    pub attrs: Vec<AttributeInfo>,
    pub children: Vec<SynNode>,
}

// ---------------------------------------------------------------------------
// Attributes

/// `ident` is the single identifier `name`.
pub open spec fn ident_is(ident: Option<String>, name: Seq<char>) -> bool {
    match ident {
        Some(s) => s@ == name,
        None => false,
    }
}

/// The attribute is `#![forbid(.., unsafe_code, ..)]`.
pub open spec fn attr_forbids_unsafe(a: AttributeInfo) -> bool {
    &&& a.inner
    &&& ident_is(a.ident, "forbid"@)
    &&& exists|j: int|
        0 <= j < a.nested@.len() && ident_is(#[trigger] a.nested@[j].ident, "unsafe_code"@)
            && !a.nested@[j].has_value
}

/// The file is decorated with `#![forbid(unsafe_code)]`.
pub open spec fn spec_file_forbids_unsafe(attrs: Seq<AttributeInfo>) -> bool {
    exists|i: int| 0 <= i < attrs.len() && attr_forbids_unsafe(#[trigger] attrs[i])
}

/// The function carries `#[test]`.
pub open spec fn spec_is_test_fn(attrs: Seq<AttributeInfo>) -> bool {
    exists|i: int| 0 <= i < attrs.len() && ident_is(#[trigger] attrs[i].ident, "test"@)
}

/// The function carries `#[no_mangle]` or `#[export_name = ..]`.
pub open spec fn spec_has_unsafe_attributes(attrs: Seq<AttributeInfo>) -> bool {
    exists|i: int|
        0 <= i < attrs.len() && (ident_is(#[trigger] attrs[i].ident, "no_mangle"@) || ident_is(
            attrs[i].ident,
            "export_name"@,
        ))
}

/// The attribute is `#[cfg(.., test, ..)]`.
pub open spec fn attr_is_cfg_test(a: AttributeInfo) -> bool {
    &&& ident_is(a.ident, "cfg"@)
    &&& exists|j: int| 0 <= j < a.nested@.len() && ident_is(#[trigger] a.nested@[j].ident, "test"@)
}

/// The module carries `#[cfg(test)]`.
pub open spec fn spec_is_test_mod(attrs: Seq<AttributeInfo>) -> bool {
    exists|i: int| 0 <= i < attrs.len() && attr_is_cfg_test(#[trigger] attrs[i])
}

fn ident_is_exec(ident: &Option<String>, name: &str) -> (r: bool)
    ensures
        r == ident_is(*ident, name@),
{
    match ident {
        Some(s) => text_is(s, name),
        None => false,
    }
}

fn attr_forbids_unsafe_exec(a: &AttributeInfo) -> (r: bool)
    ensures
        r == attr_forbids_unsafe(*a),
{
    if !a.inner || !ident_is_exec(&a.ident, "forbid") {
        return false;
    }
    let mut j: usize = 0;
    while j < a.nested.len()
        invariant
            j <= a.nested@.len(),
            a.inner,
            ident_is(a.ident, "forbid"@),
            forall|k: int|
                0 <= k < j ==> !(ident_is(#[trigger] a.nested@[k].ident, "unsafe_code"@)
                    && !a.nested@[k].has_value),
        decreases a.nested@.len() - j,
    {
        if ident_is_exec(&a.nested[j].ident, "unsafe_code") && !a.nested[j].has_value {
            assert(ident_is(a.nested@[j as int].ident, "unsafe_code"@));
            return true;
        }
        j = j + 1;
    }
    false
}

/// Whether the file is decorated with `#![forbid(unsafe_code)]`.
pub fn file_forbids_unsafe(attrs: &Vec<AttributeInfo>) -> (r: bool)
    ensures
        r == spec_file_forbids_unsafe(attrs@),
{
    let mut i: usize = 0;
    while i < attrs.len()
        invariant
            i <= attrs@.len(),
            forall|k: int| 0 <= k < i ==> !attr_forbids_unsafe(#[trigger] attrs@[k]),
        decreases attrs@.len() - i,
    {
        if attr_forbids_unsafe_exec(&attrs[i]) {
            return true;
        }
        i = i + 1;
    }
    false
}

/// An inner `forbid` attribute forbids unsafe code in the file as soon as
/// any item of its list, at whatever position, is `unsafe_code` without a
/// value.
pub proof fn law_forbid_list_any_position(attrs: Seq<AttributeInfo>, i: int, j: int)
    requires
        0 <= i < attrs.len(),
        attrs[i].inner,
        ident_is(attrs[i].ident, "forbid"@),
        0 <= j < attrs[i].nested@.len(),
        ident_is(attrs[i].nested@[j].ident, "unsafe_code"@),
        !attrs[i].nested@[j].has_value,
    ensures
        spec_file_forbids_unsafe(attrs),
{
    assert(attr_forbids_unsafe(attrs[i]));
}

/// A file forbids unsafe code only through such an item: where no inner
/// `forbid` attribute lists `unsafe_code` without a value, it does not.
pub proof fn law_forbid_needs_unsafe_code(attrs: Seq<AttributeInfo>)
    requires
        forall|i: int, j: int|
            0 <= i < attrs.len() && 0 <= j < attrs[i].nested@.len() && attrs[i].inner
                && ident_is(attrs[i].ident, "forbid"@) ==> !(ident_is(
                #[trigger] attrs[i].nested@[j].ident,
                "unsafe_code"@,
            ) && !attrs[i].nested@[j].has_value),
    ensures
        !spec_file_forbids_unsafe(attrs),
{
    if spec_file_forbids_unsafe(attrs) {
        let i = choose|i: int| 0 <= i < attrs.len() && attr_forbids_unsafe(#[trigger] attrs[i]);
        let j = choose|j: int|
            0 <= j < attrs[i].nested@.len() && ident_is(#[trigger] attrs[i].nested@[j].ident, "unsafe_code"@)
                && !attrs[i].nested@[j].has_value;
        assert(false);
    }
}

/// Whether an attribute forbids unsafe code does not depend on the order of
/// its list: two attributes of the same kind whose lists hold the same items
/// decide alike.
pub proof fn law_forbid_list_order_free(a: AttributeInfo, b: AttributeInfo)
    requires
        a.inner == b.inner,
        a.ident == b.ident,
        a.nested@.to_multiset() == b.nested@.to_multiset(),
    ensures
        spec_file_forbids_unsafe(seq![a]) == spec_file_forbids_unsafe(seq![b]),
{
    broadcast use vstd::seq_lib::group_to_multiset_ensures;
    lemma_forbid_item_moves(a, b);
    lemma_forbid_item_moves(b, a);
    assert(seq![a][0] == a);
    assert(seq![b][0] == b);
    if spec_file_forbids_unsafe(seq![a]) {
        let i = choose|i: int| 0 <= i < 1 && attr_forbids_unsafe(#[trigger] seq![a][i]);
        assert(i == 0);
    }
    if spec_file_forbids_unsafe(seq![b]) {
        let i = choose|i: int| 0 <= i < 1 && attr_forbids_unsafe(#[trigger] seq![b][i]);
        assert(i == 0);
    }
}

proof fn lemma_forbid_item_moves(a: AttributeInfo, b: AttributeInfo)
    requires
        a.inner == b.inner,
        a.ident == b.ident,
        a.nested@.to_multiset() == b.nested@.to_multiset(),
    ensures
        attr_forbids_unsafe(a) ==> attr_forbids_unsafe(b),
{
    broadcast use vstd::seq_lib::group_to_multiset_ensures;
    if attr_forbids_unsafe(a) {
        let j = choose|j: int|
            0 <= j < a.nested@.len() && ident_is(#[trigger] a.nested@[j].ident, "unsafe_code"@)
                && !a.nested@[j].has_value;
        let x = a.nested@[j];
        assert(a.nested@.contains(x));
        assert(a.nested@.to_multiset().count(x) > 0);
        assert(b.nested@.contains(x));
        let k = choose|k: int| 0 <= k < b.nested@.len() && b.nested@[k] == x;
        assert(ident_is(b.nested@[k].ident, "unsafe_code"@));
    }
}

/// Whether the function carries `#[test]`.
pub fn is_test_fn(attrs: &Vec<AttributeInfo>) -> (r: bool)
    ensures
        r == spec_is_test_fn(attrs@),
{
    let mut i: usize = 0;
    while i < attrs.len()
        invariant
            i <= attrs@.len(),
            forall|k: int| 0 <= k < i ==> !ident_is(#[trigger] attrs@[k].ident, "test"@),
        decreases attrs@.len() - i,
    {
        if ident_is_exec(&attrs[i].ident, "test") {
            return true;
        }
        i = i + 1;
    }
    false
}

/// Whether the function carries `#[no_mangle]` or `#[export_name = ..]`.
pub fn has_unsafe_attributes(attrs: &Vec<AttributeInfo>) -> (r: bool)
    ensures
        r == spec_has_unsafe_attributes(attrs@),
{
    let mut i: usize = 0;
    while i < attrs.len()
        invariant
            i <= attrs@.len(),
            forall|k: int|
                0 <= k < i ==> !(ident_is(#[trigger] attrs@[k].ident, "no_mangle"@) || ident_is(
                    attrs@[k].ident,
                    "export_name"@,
                )),
        decreases attrs@.len() - i,
    {
        if ident_is_exec(&attrs[i].ident, "no_mangle") || ident_is_exec(
            &attrs[i].ident,
            "export_name",
        ) {
            return true;
        }
        i = i + 1;
    }
    false
}

fn attr_is_cfg_test_exec(a: &AttributeInfo) -> (r: bool)
    ensures
        r == attr_is_cfg_test(*a),
{
    if !ident_is_exec(&a.ident, "cfg") {
        return false;
    }
    let mut j: usize = 0;
    while j < a.nested.len()
        invariant
            j <= a.nested@.len(),
            ident_is(a.ident, "cfg"@),
            forall|k: int| 0 <= k < j ==> !ident_is(#[trigger] a.nested@[k].ident, "test"@),
        decreases a.nested@.len() - j,
    {
        if ident_is_exec(&a.nested[j].ident, "test") {
            assert(ident_is(a.nested@[j as int].ident, "test"@));
            return true;
        }
        j = j + 1;
    }
    false
}

/// Whether the module carries `#[cfg(test)]`. Other `cfg` expressions in
/// which `test` appears nested deeper, such as `cfg(not(test))`, do not count.
pub fn is_test_mod(attrs: &Vec<AttributeInfo>) -> (r: bool)
    ensures
        r == spec_is_test_mod(attrs@),
{
    let mut i: usize = 0;
    while i < attrs.len()
        invariant
            i <= attrs@.len(),
            forall|k: int| 0 <= k < i ==> !attr_is_cfg_test(#[trigger] attrs@[k]),
        decreases attrs@.len() - i,
    {
        if attr_is_cfg_test_exec(&attrs[i]) {
            return true;
        }
        i = i + 1;
    }
    false
}


// ---------------------------------------------------------------------------
// The walk

/// A counter after counting one more safe or unsafe item.
pub open spec fn count_one(c: Count, is_unsafe: bool) -> Count {
    if is_unsafe {
        Count { safe: c.safe, unsafe_: (c.unsafe_ + 1) as u64 }
    } else {
        Count { safe: (c.safe + 1) as u64, unsafe_: c.unsafe_ }
    }
}

/// The state of a walk: the counters so far, and how many unsafe scopes
/// enclose the current node.
pub open spec fn walk_node(inc: IncludeTests, st: (CounterBlock, nat), n: SynNode) -> (
    CounterBlock,
    nat,
)
    decreases n, 2int,
{
    let (b, scopes) = st;
    match n {
        SynNode::Expr { kind, children } => {
            let b1 = match kind {
                ExprKind::Lit | ExprKind::Path | ExprKind::Unsafe => b,
                ExprKind::Other => CounterBlock { exprs: count_one(b.exprs, scopes > 0), ..b },
            };
            walk_seq(inc, (b1, scopes), children@)
        },
        SynNode::ExprUnsafe { children } => {
            let r = walk_seq(inc, (b, scopes + 1), children@);
            (r.0, (r.1 - 1) as nat)
        },
        SynNode::ItemFn { attrs, is_unsafe, children } => {
            if inc == IncludeTests::No && spec_is_test_fn(attrs@) {
                st
            } else {
                let unsafe_fn = is_unsafe || spec_has_unsafe_attributes(attrs@);
                let s1: nat = if unsafe_fn {
                    scopes + 1
                } else {
                    scopes
                };
                let b1 = CounterBlock { functions: count_one(b.functions, unsafe_fn), ..b };
                let r = walk_seq(inc, (b1, s1), children@);
                if unsafe_fn {
                    (r.0, (r.1 - 1) as nat)
                } else {
                    r
                }
            }
        },
        SynNode::ItemMod { attrs, children } => {
            if inc == IncludeTests::No && spec_is_test_mod(attrs@) {
                st
            } else {
                walk_seq(inc, st, children@)
            }
        },
        SynNode::ItemImpl { is_unsafe, children } => {
            let b1 = CounterBlock { item_impls: count_one(b.item_impls, is_unsafe), ..b };
            walk_seq(inc, (b1, scopes), children@)
        },
        SynNode::ItemTrait { is_unsafe, children } => {
            let b1 = CounterBlock { item_traits: count_one(b.item_traits, is_unsafe), ..b };
            walk_seq(inc, (b1, scopes), children@)
        },
        SynNode::ImplItemFn { is_unsafe, children } => {
            let s1: nat = if is_unsafe {
                scopes + 1
            } else {
                scopes
            };
            let b1 = CounterBlock { methods: count_one(b.methods, is_unsafe), ..b };
            let r = walk_seq(inc, (b1, s1), children@);
            if is_unsafe {
                (r.0, (r.1 - 1) as nat)
            } else {
                r
            }
        },
    }
}

/// The walk over a sequence of sibling nodes, first to last.
pub open spec fn walk_seq(inc: IncludeTests, st: (CounterBlock, nat), ns: Seq<SynNode>) -> (
    CounterBlock,
    nat,
)
    decreases ns, 1int,
{
    if ns.len() == 0 {
        st
    } else {
        walk_node(inc, walk_seq(inc, st, ns.drop_last()), ns.last())
    }
}

/// A bound on how much a walk over the node can raise the counters and the
/// depth of unsafe scopes.
pub open spec fn node_size(n: SynNode) -> nat
    decreases n, 2int,
{
    match n {
        SynNode::Expr { children, .. } => 2 + seq_size(children@),
        SynNode::ExprUnsafe { children } => 2 + seq_size(children@),
        SynNode::ItemFn { children, .. } => 2 + seq_size(children@),
        SynNode::ItemMod { children, .. } => 2 + seq_size(children@),
        SynNode::ItemImpl { children, .. } => 2 + seq_size(children@),
        SynNode::ItemTrait { children, .. } => 2 + seq_size(children@),
        SynNode::ImplItemFn { children, .. } => 2 + seq_size(children@),
    }
}

/// The sum of the sizes of a sequence of nodes.
pub open spec fn seq_size(ns: Seq<SynNode>) -> nat
    decreases ns, 1int,
{
    if ns.len() == 0 {
        0
    } else {
        seq_size(ns.drop_last()) + node_size(ns.last())
    }
}

/// The sum of all counters of a block.
pub open spec fn block_total(b: CounterBlock) -> int {
    b.functions.safe + b.functions.unsafe_ + b.exprs.safe + b.exprs.unsafe_ + b.item_impls.safe
        + b.item_impls.unsafe_ + b.item_traits.safe + b.item_traits.unsafe_ + b.methods.safe
        + b.methods.unsafe_
}

/// The weight of a walk state: all counters plus the scope depth.
pub open spec fn walk_weight(st: (CounterBlock, nat)) -> int {
    block_total(st.0) + st.1
}

/// A walk never leaves a scope that it did not enter, and raises the
/// weight of its state by at most the size of what it walks.
pub proof fn lemma_walk_node_bounds(inc: IncludeTests, st: (CounterBlock, nat), n: SynNode)
    requires
        walk_weight(st) + node_size(n) <= u64::MAX,
    ensures
        walk_node(inc, st, n).1 >= st.1,
        walk_weight(walk_node(inc, st, n)) <= walk_weight(st) + node_size(n),
    decreases n, 2int,
{
    match n {
        SynNode::Expr { kind, children } => {
            let b1 = match kind {
                ExprKind::Lit | ExprKind::Path | ExprKind::Unsafe => st.0,
                ExprKind::Other => CounterBlock { exprs: count_one(st.0.exprs, st.1 > 0), ..st.0 },
            };
            lemma_walk_seq_bounds(inc, (b1, st.1), children@);
        },
        SynNode::ExprUnsafe { children } => {
            lemma_walk_seq_bounds(inc, (st.0, st.1 + 1), children@);
        },
        SynNode::ItemFn { attrs, is_unsafe, children } => {
            if inc == IncludeTests::No && spec_is_test_fn(attrs@) {
            } else {
                let unsafe_fn = is_unsafe || spec_has_unsafe_attributes(attrs@);
                let s1: nat = if unsafe_fn {
                    st.1 + 1
                } else {
                    st.1
                };
                let b1 = CounterBlock { functions: count_one(st.0.functions, unsafe_fn), ..st.0 };
                lemma_walk_seq_bounds(inc, (b1, s1), children@);
            }
        },
        SynNode::ItemMod { attrs, children } => {
            if inc == IncludeTests::No && spec_is_test_mod(attrs@) {
            } else {
                lemma_walk_seq_bounds(inc, st, children@);
            }
        },
        SynNode::ItemImpl { is_unsafe, children } => {
            let b1 = CounterBlock { item_impls: count_one(st.0.item_impls, is_unsafe), ..st.0 };
            lemma_walk_seq_bounds(inc, (b1, st.1), children@);
        },
        SynNode::ItemTrait { is_unsafe, children } => {
            let b1 = CounterBlock { item_traits: count_one(st.0.item_traits, is_unsafe), ..st.0 };
            lemma_walk_seq_bounds(inc, (b1, st.1), children@);
        },
        SynNode::ImplItemFn { is_unsafe, children } => {
            let s1: nat = if is_unsafe {
                st.1 + 1
            } else {
                st.1
            };
            let b1 = CounterBlock { methods: count_one(st.0.methods, is_unsafe), ..st.0 };
            lemma_walk_seq_bounds(inc, (b1, s1), children@);
        },
    }
}

/// The bounds of `lemma_walk_node_bounds`, for a sequence of siblings.
pub proof fn lemma_walk_seq_bounds(inc: IncludeTests, st: (CounterBlock, nat), ns: Seq<SynNode>)
    requires
        walk_weight(st) + seq_size(ns) <= u64::MAX,
    ensures
        walk_seq(inc, st, ns).1 >= st.1,
        walk_weight(walk_seq(inc, st, ns)) <= walk_weight(st) + seq_size(ns),
    decreases ns, 1int,
{
    if ns.len() > 0 {
        lemma_walk_seq_bounds(inc, st, ns.drop_last());
        lemma_walk_node_bounds(inc, walk_seq(inc, st, ns.drop_last()), ns.last());
    }
}


// ---------------------------------------------------------------------------
// The visitor

/// Walks a syntax tree and counts safe and unsafe items.
pub struct GeigerSynVisitor {
    /// Count unsafe usage inside tests
    include_tests: IncludeTests,
    /// The resulting data from a single file scan.
    pub metrics: RsFileMetrics,
    /// The number of nested unsafe scopes that the visitor is currently in.
    /// Unsafe scopes can be nested, and the visitor needs to know when it
    /// leaves the outermost one and gets back into a safe scope.
    unsafe_scopes: u32,
}

impl GeigerSynVisitor {
    /// Whether this visitor counts code inside tests.
    pub closed spec fn mode(&self) -> IncludeTests {
        self.include_tests
    }

    /// The metrics that this visitor has gathered so far.
    pub closed spec fn current_metrics(&self) -> RsFileMetrics {
        self.metrics
    }

    /// The counters and the depth of unsafe scopes of this visitor.
    pub closed spec fn state(&self) -> (CounterBlock, nat) {
        (self.metrics.counters, self.unsafe_scopes as nat)
    }

    /// A visitor with all counters at zero, outside of any unsafe scope.
    pub fn new(include_tests: IncludeTests) -> (v: GeigerSynVisitor)
        ensures
            v.mode() == include_tests,
            v.state() == (zero_block(), 0nat),
            v.current_metrics().counters == zero_block(),
            !v.current_metrics().forbids_unsafe,
    {
        GeigerSynVisitor { include_tests, metrics: RsFileMetrics::new(), unsafe_scopes: 0 }
    }

    /// The results of the walk so far.
    pub fn metrics(&self) -> (m: RsFileMetrics)
        ensures
            m == self.current_metrics(),
    {
        self.metrics
    }

    /// Enters one more unsafe scope.
    pub fn enter_unsafe_scope(&mut self)
        requires
            old(self).state().1 < u32::MAX,
        ensures
            final(self).mode() == old(self).mode(),
            final(self).current_metrics() == old(self).current_metrics(),
            final(self).state() == (old(self).state().0, old(self).state().1 + 1),
    {
        self.unsafe_scopes = self.unsafe_scopes + 1;
    }

    /// Leaves the innermost unsafe scope.
    pub fn exit_unsafe_scope(&mut self)
        requires
            old(self).state().1 > 0,
        ensures
            final(self).mode() == old(self).mode(),
            final(self).current_metrics() == old(self).current_metrics(),
            final(self).state() == (old(self).state().0, (old(self).state().1 - 1) as nat),
    {
        self.unsafe_scopes = self.unsafe_scopes - 1;
    }

    /// Visits the nodes of `children` in order.
    fn visit_children(&mut self, children: &Vec<SynNode>)
        requires
            walk_weight(old(self).state()) + seq_size(children@) <= u32::MAX,
        ensures
            final(self).mode() == old(self).mode(),
            final(self).current_metrics().forbids_unsafe == old(self).current_metrics().forbids_unsafe,
            final(self).state() == walk_seq(old(self).mode(), old(self).state(), children@),
        decreases children@, 0int,
    {
        let ghost st0 = self.state();
        let mut i: usize = 0;
        while i < children.len()
            invariant
                i <= children@.len(),
                self.mode() == old(self).mode(),
                self.metrics.forbids_unsafe == old(self).current_metrics().forbids_unsafe,
                st0 == old(self).state(),
                walk_weight(st0) + seq_size(children@) <= u32::MAX,
                self.state() == walk_seq(self.mode(), st0, children@.take(i as int)),
            decreases children@.len() - i,
        {
            proof {
                let t = children@.take(i as int + 1);
                assert(t.drop_last() =~= children@.take(i as int));
                assert(t.last() == children@[i as int]);
                lemma_seq_size_prefix(children@, i as int);
                lemma_walk_seq_bounds(self.mode(), st0, children@.take(i as int));
            }
            self.visit_node(&children[i]);
            i = i + 1;
        }
        proof {
            assert(children@.take(children@.len() as int) =~= children@);
        }
    }

    /// Visits one node.
    fn visit_node(&mut self, n: &SynNode)
        requires
            walk_weight(old(self).state()) + node_size(*n) <= u32::MAX,
        ensures
            final(self).mode() == old(self).mode(),
            final(self).current_metrics().forbids_unsafe == old(self).current_metrics().forbids_unsafe,
            final(self).state() == walk_node(old(self).mode(), old(self).state(), *n),
        decreases *n, 2int,
    {
        match n {
            SynNode::Expr { kind, children } => self.visit_expr(*kind, children),
            SynNode::ExprUnsafe { children } => self.visit_expr_unsafe(children),
            SynNode::ItemFn { attrs, is_unsafe, children } => self.visit_item_fn(
                attrs,
                *is_unsafe,
                children,
            ),
            SynNode::ItemMod { attrs, children } => self.visit_item_mod(attrs, children),
            SynNode::ItemImpl { is_unsafe, children } => self.visit_item_impl(*is_unsafe, children),
            SynNode::ItemTrait { is_unsafe, children } => self.visit_item_trait(
                *is_unsafe,
                children,
            ),
            SynNode::ImplItemFn { is_unsafe, children } => self.visit_impl_item_fn(
                *is_unsafe,
                children,
            ),
        }
    }

    /// Counts an expression, as safe or unsafe after the enclosing scopes,
    /// unless it is a literal, a path or an unsafe block, then visits the
    /// nodes nested in it.
    fn visit_expr(&mut self, kind: ExprKind, children: &Vec<SynNode>)
        requires
            walk_weight(old(self).state()) + 2 + seq_size(children@) <= u32::MAX,
        ensures
            final(self).mode() == old(self).mode(),
            final(self).current_metrics().forbids_unsafe == old(self).current_metrics().forbids_unsafe,
            final(self).state() == walk_node(
                old(self).mode(),
                old(self).state(),
                SynNode::Expr { kind, children: *children },
            ),
        decreases children@, 1int,
    {
        match kind {
            ExprKind::Lit | ExprKind::Path | ExprKind::Unsafe => {},
            ExprKind::Other => {
                let in_unsafe = self.unsafe_scopes > 0;
                self.metrics.counters.exprs.count(in_unsafe);
            },
        }
        self.visit_children(children);
    }

    /// Visits the block of an `unsafe { ... }` expression inside one more
    /// unsafe scope.
    fn visit_expr_unsafe(&mut self, children: &Vec<SynNode>)
        requires
            walk_weight(old(self).state()) + 2 + seq_size(children@) <= u32::MAX,
        ensures
            final(self).mode() == old(self).mode(),
            final(self).current_metrics().forbids_unsafe == old(self).current_metrics().forbids_unsafe,
            final(self).state() == walk_node(
                old(self).mode(),
                old(self).state(),
                SynNode::ExprUnsafe { children: *children },
            ),
        decreases children@, 1int,
    {
        let ghost st0 = self.state();
        self.enter_unsafe_scope();
        self.visit_children(children);
        proof {
            lemma_walk_seq_bounds(self.mode(), (st0.0, st0.1 + 1), children@);
        }
        self.exit_unsafe_scope();
    }

    /// Free-standing functions: skipped when they are tests and tests are
    /// not counted; otherwise counted as unsafe when declared `unsafe` or
    /// exported under a fixed symbol name.
    fn visit_item_fn(
        &mut self,
        attrs: &Vec<AttributeInfo>,
        is_unsafe: bool,
        children: &Vec<SynNode>,
    )
        requires
            walk_weight(old(self).state()) + 2 + seq_size(children@) <= u32::MAX,
        ensures
            final(self).mode() == old(self).mode(),
            final(self).current_metrics().forbids_unsafe == old(self).current_metrics().forbids_unsafe,
            final(self).state() == walk_node(
                old(self).mode(),
                old(self).state(),
                SynNode::ItemFn { attrs: *attrs, is_unsafe, children: *children },
            ),
        decreases children@, 1int,
    {
        if self.include_tests == IncludeTests::No && is_test_fn(attrs) {
            return ;
        }
        let ghost st0 = self.state();
        let unsafe_fn = is_unsafe || has_unsafe_attributes(attrs);
        if unsafe_fn {
            self.enter_unsafe_scope();
        }
        self.metrics.counters.functions.count(unsafe_fn);
        let ghost st1 = self.state();
        self.visit_children(children);
        proof {
            lemma_walk_seq_bounds(self.mode(), st1, children@);
        }
        if unsafe_fn {
            self.exit_unsafe_scope();
        }
    }

    /// Modules: skipped when they are test modules and tests are not counted.
    fn visit_item_mod(&mut self, attrs: &Vec<AttributeInfo>, children: &Vec<SynNode>)
        requires
            walk_weight(old(self).state()) + 2 + seq_size(children@) <= u32::MAX,
        ensures
            final(self).mode() == old(self).mode(),
            final(self).current_metrics().forbids_unsafe == old(self).current_metrics().forbids_unsafe,
            final(self).state() == walk_node(
                old(self).mode(),
                old(self).state(),
                SynNode::ItemMod { attrs: *attrs, children: *children },
            ),
        decreases children@, 1int,
    {
        if self.include_tests == IncludeTests::No && is_test_mod(attrs) {
            return ;
        }
        self.visit_children(children);
    }

    /// `impl` blocks, counted as unsafe for `unsafe impl`.
    fn visit_item_impl(&mut self, is_unsafe: bool, children: &Vec<SynNode>)
        requires
            walk_weight(old(self).state()) + 2 + seq_size(children@) <= u32::MAX,
        ensures
            final(self).mode() == old(self).mode(),
            final(self).current_metrics().forbids_unsafe == old(self).current_metrics().forbids_unsafe,
            final(self).state() == walk_node(
                old(self).mode(),
                old(self).state(),
                SynNode::ItemImpl { is_unsafe, children: *children },
            ),
        decreases children@, 1int,
    {
        self.metrics.counters.item_impls.count(is_unsafe);
        self.visit_children(children);
    }

    /// Trait definitions, counted as unsafe for `unsafe trait`.
    fn visit_item_trait(&mut self, is_unsafe: bool, children: &Vec<SynNode>)
        requires
            walk_weight(old(self).state()) + 2 + seq_size(children@) <= u32::MAX,
        ensures
            final(self).mode() == old(self).mode(),
            final(self).current_metrics().forbids_unsafe == old(self).current_metrics().forbids_unsafe,
            final(self).state() == walk_node(
                old(self).mode(),
                old(self).state(),
                SynNode::ItemTrait { is_unsafe, children: *children },
            ),
        decreases children@, 1int,
    {
        self.metrics.counters.item_traits.count(is_unsafe);
        self.visit_children(children);
    }

    /// Methods in `impl` blocks, counted as unsafe for `unsafe fn`.
    fn visit_impl_item_fn(&mut self, is_unsafe: bool, children: &Vec<SynNode>)
        requires
            walk_weight(old(self).state()) + 2 + seq_size(children@) <= u32::MAX,
        ensures
            final(self).mode() == old(self).mode(),
            final(self).current_metrics().forbids_unsafe == old(self).current_metrics().forbids_unsafe,
            final(self).state() == walk_node(
                old(self).mode(),
                old(self).state(),
                SynNode::ImplItemFn { is_unsafe, children: *children },
            ),
        decreases children@, 1int,
    {
        let ghost st0 = self.state();
        if is_unsafe {
            self.enter_unsafe_scope();
        }
        self.metrics.counters.methods.count(is_unsafe);
        let ghost st1 = self.state();
        self.visit_children(children);
        proof {
            lemma_walk_seq_bounds(self.mode(), st1, children@);
        }
        if is_unsafe {
            self.exit_unsafe_scope();
        }
    }

    /// Visits a whole file: records whether it forbids unsafe code, then
    /// visits everything nested in it, leaving every unsafe scope that it
    /// enters.
    pub fn visit_file(&mut self, file: &SyntaxFile)
        requires
            walk_weight(old(self).state()) + seq_size(file.children@) <= u32::MAX,
        ensures
            final(self).mode() == old(self).mode(),
            final(self).current_metrics().forbids_unsafe == spec_file_forbids_unsafe(file.attrs@),
            final(self).state() == walk_seq(old(self).mode(), old(self).state(), file.children@),
            final(self).state().1 == old(self).state().1,
    {
        self.metrics.forbids_unsafe = file_forbids_unsafe(&file.attrs);
        self.visit_children(&file.children);
        proof {
            lemma_walk_seq_depth(old(self).mode(), old(self).state(), file.children@);
        }
    }
}

/// The size of a prefix grows by the size of the next node.
pub proof fn lemma_seq_size_prefix(ns: Seq<SynNode>, i: int)
    requires
        0 <= i < ns.len(),
    ensures
        seq_size(ns.take(i + 1)) == seq_size(ns.take(i)) + node_size(ns[i]),
        seq_size(ns.take(i + 1)) <= seq_size(ns),
    decreases ns.len(),
{
    assert(ns.take(i + 1).drop_last() =~= ns.take(i));
    if i + 1 < ns.len() {
        lemma_seq_size_prefix(ns.drop_last(), i);
        assert(ns.drop_last().take(i + 1) =~= ns.take(i + 1));
    } else {
        assert(ns.take(i + 1) =~= ns);
    }
}

/// The metrics of a file: the counters after walking everything nested in
/// it from a zero state, and whether it forbids unsafe code.
pub open spec fn spec_find_unsafe(file: SyntaxFile, include_tests: IncludeTests) -> RsFileMetrics {
    RsFileMetrics {
        counters: walk_seq(include_tests, (zero_block(), 0nat), file.children@).0,
        forbids_unsafe: spec_file_forbids_unsafe(file.attrs@),
    }
}

/// Scans a parsed source file for `unsafe` usage.
pub fn find_unsafe_in_syntax(file: &SyntaxFile, include_tests: IncludeTests) -> (m: RsFileMetrics)
    requires
        seq_size(file.children@) <= u32::MAX,
    ensures
        m == spec_find_unsafe(*file, include_tests),
{
    let mut vis = GeigerSynVisitor::new(include_tests);
    proof {
        assert(walk_weight(vis.state()) == 0);
    }
    vis.visit_file(file);
    vis.metrics
}


// ---------------------------------------------------------------------------
// Laws of the count

/// The node, and everything nested in it, is free of `unsafe`: no unsafe
/// block, no item declared `unsafe`, and no function exported under a fixed
/// symbol name.
pub open spec fn node_unsafe_free(n: SynNode) -> bool
    decreases n, 2int,
{
    match n {
        SynNode::Expr { kind, children } => kind != ExprKind::Unsafe && seq_unsafe_free(children@),
        SynNode::ExprUnsafe { .. } => false,
        SynNode::ItemFn { attrs, is_unsafe, children } => !is_unsafe
            && !spec_has_unsafe_attributes(attrs@) && seq_unsafe_free(children@),
        SynNode::ItemMod { children, .. } => seq_unsafe_free(children@),
        SynNode::ItemImpl { is_unsafe, children } => !is_unsafe && seq_unsafe_free(children@),
        SynNode::ItemTrait { is_unsafe, children } => !is_unsafe && seq_unsafe_free(children@),
        SynNode::ImplItemFn { is_unsafe, children } => !is_unsafe && seq_unsafe_free(
            children@,
        ),
    }
}

/// Every node of the sequence is free of `unsafe`.
pub open spec fn seq_unsafe_free(ns: Seq<SynNode>) -> bool
    decreases ns, 1int,
{
    if ns.len() == 0 {
        true
    } else {
        seq_unsafe_free(ns.drop_last()) && node_unsafe_free(ns.last())
    }
}

/// No unsafe counter is raised, and the walk stays outside unsafe scopes.
pub open spec fn state_safe(st: (CounterBlock, nat)) -> bool {
    &&& st.1 == 0
    &&& !crate::report::block_has_unsafe(st.0)
}

proof fn lemma_walk_node_safe(inc: IncludeTests, st: (CounterBlock, nat), n: SynNode)
    requires
        state_safe(st),
        node_unsafe_free(n),
    ensures
        state_safe(walk_node(inc, st, n)),
    decreases n, 2int,
{
    match n {
        SynNode::Expr { kind, children } => {
            let b1 = match kind {
                ExprKind::Lit | ExprKind::Path | ExprKind::Unsafe => st.0,
                ExprKind::Other => CounterBlock { exprs: count_one(st.0.exprs, st.1 > 0), ..st.0 },
            };
            lemma_walk_seq_safe(inc, (b1, st.1), children@);
        },
        SynNode::ExprUnsafe { .. } => {},
        SynNode::ItemFn { attrs, is_unsafe, children } => {
            if !(inc == IncludeTests::No && spec_is_test_fn(attrs@)) {
                let b1 = CounterBlock { functions: count_one(st.0.functions, false), ..st.0 };
                lemma_walk_seq_safe(inc, (b1, st.1), children@);
            }
        },
        SynNode::ItemMod { attrs, children } => {
            if !(inc == IncludeTests::No && spec_is_test_mod(attrs@)) {
                lemma_walk_seq_safe(inc, st, children@);
            }
        },
        SynNode::ItemImpl { is_unsafe, children } => {
            let b1 = CounterBlock { item_impls: count_one(st.0.item_impls, false), ..st.0 };
            lemma_walk_seq_safe(inc, (b1, st.1), children@);
        },
        SynNode::ItemTrait { is_unsafe, children } => {
            let b1 = CounterBlock { item_traits: count_one(st.0.item_traits, false), ..st.0 };
            lemma_walk_seq_safe(inc, (b1, st.1), children@);
        },
        SynNode::ImplItemFn { is_unsafe, children } => {
            let b1 = CounterBlock { methods: count_one(st.0.methods, false), ..st.0 };
            lemma_walk_seq_safe(inc, (b1, st.1), children@);
        },
    }
}

proof fn lemma_walk_seq_safe(inc: IncludeTests, st: (CounterBlock, nat), ns: Seq<SynNode>)
    requires
        state_safe(st),
        seq_unsafe_free(ns),
    ensures
        state_safe(walk_seq(inc, st, ns)),
    decreases ns, 1int,
{
    if ns.len() > 0 {
        lemma_walk_seq_safe(inc, st, ns.drop_last());
        lemma_walk_node_safe(inc, walk_seq(inc, st, ns.drop_last()), ns.last());
    }
}

/// A file that contains no `unsafe` block, no `unsafe` item and no function
/// exported under a fixed symbol name reports no unsafe usage, whether
/// tests are counted or not.
pub proof fn law_unsafe_free_file_has_no_unsafe(file: SyntaxFile, include_tests: IncludeTests)
    requires
        seq_unsafe_free(file.children@),
    ensures
        !crate::report::block_has_unsafe(spec_find_unsafe(file, include_tests).counters),
{
    lemma_walk_seq_safe(include_tests, (zero_block(), 0nat), file.children@);
}

/// Whether a file forbids unsafe code does not depend on whether tests are
/// counted.
pub proof fn law_forbids_unsafe_independent_of_tests(file: SyntaxFile)
    ensures
        spec_find_unsafe(file, IncludeTests::Yes).forbids_unsafe == spec_find_unsafe(
            file,
            IncludeTests::No,
        ).forbids_unsafe,
{
}

/// Every counter of `a`, safe and unsafe apart, is at least the one of `b`.
pub open spec fn counts_ge(a: CounterBlock, b: CounterBlock) -> bool {
    &&& a.functions.safe >= b.functions.safe
    &&& a.functions.unsafe_ >= b.functions.unsafe_
    &&& a.exprs.safe >= b.exprs.safe
    &&& a.exprs.unsafe_ >= b.exprs.unsafe_
    &&& a.item_impls.safe >= b.item_impls.safe
    &&& a.item_impls.unsafe_ >= b.item_impls.unsafe_
    &&& a.item_traits.safe >= b.item_traits.safe
    &&& a.item_traits.unsafe_ >= b.item_traits.unsafe_
    &&& a.methods.safe >= b.methods.safe
    &&& a.methods.unsafe_ >= b.methods.unsafe_
}

/// Walking a node leaves the depth of unsafe scopes as it found it: every
/// scope that the walk enters, it leaves.
pub proof fn law_walk_restores_depth(inc: IncludeTests, st: (CounterBlock, nat), n: SynNode)
    ensures
        walk_node(inc, st, n).1 == st.1,
    decreases n, 2int,
{
    match n {
        SynNode::Expr { kind, children } => {
            let b1 = match kind {
                ExprKind::Lit | ExprKind::Path | ExprKind::Unsafe => st.0,
                ExprKind::Other => CounterBlock { exprs: count_one(st.0.exprs, st.1 > 0), ..st.0 },
            };
            lemma_walk_seq_depth(inc, (b1, st.1), children@);
        },
        SynNode::ExprUnsafe { children } => {
            lemma_walk_seq_depth(inc, (st.0, st.1 + 1), children@);
        },
        SynNode::ItemFn { attrs, is_unsafe, children } => {
            if !(inc == IncludeTests::No && spec_is_test_fn(attrs@)) {
                let unsafe_fn = is_unsafe || spec_has_unsafe_attributes(attrs@);
                let s1: nat = if unsafe_fn {
                    st.1 + 1
                } else {
                    st.1
                };
                let b1 = CounterBlock { functions: count_one(st.0.functions, unsafe_fn), ..st.0 };
                lemma_walk_seq_depth(inc, (b1, s1), children@);
            }
        },
        SynNode::ItemMod { attrs, children } => {
            if !(inc == IncludeTests::No && spec_is_test_mod(attrs@)) {
                lemma_walk_seq_depth(inc, st, children@);
            }
        },
        SynNode::ItemImpl { is_unsafe, children } => {
            let b1 = CounterBlock { item_impls: count_one(st.0.item_impls, is_unsafe), ..st.0 };
            lemma_walk_seq_depth(inc, (b1, st.1), children@);
        },
        SynNode::ItemTrait { is_unsafe, children } => {
            let b1 = CounterBlock { item_traits: count_one(st.0.item_traits, is_unsafe), ..st.0 };
            lemma_walk_seq_depth(inc, (b1, st.1), children@);
        },
        SynNode::ImplItemFn { is_unsafe, children } => {
            let s1: nat = if is_unsafe {
                st.1 + 1
            } else {
                st.1
            };
            let b1 = CounterBlock { methods: count_one(st.0.methods, is_unsafe), ..st.0 };
            lemma_walk_seq_depth(inc, (b1, s1), children@);
        },
    }
}

/// Walking a sequence of siblings leaves the depth of unsafe scopes as it
/// found it.
proof fn lemma_walk_seq_depth(inc: IncludeTests, st: (CounterBlock, nat), ns: Seq<SynNode>)
    ensures
        walk_seq(inc, st, ns).1 == st.1,
    decreases ns, 1int,
{
    if ns.len() > 0 {
        lemma_walk_seq_depth(inc, st, ns.drop_last());
        law_walk_restores_depth(inc, walk_seq(inc, st, ns.drop_last()), ns.last());
    }
}

proof fn lemma_walk_node_tests(sy: (CounterBlock, nat), sn: (CounterBlock, nat), n: SynNode)
    requires
        counts_ge(sy.0, sn.0),
        sy.1 == sn.1,
        walk_weight(sy) + node_size(n) <= u64::MAX,
        walk_weight(sn) + node_size(n) <= u64::MAX,
    ensures
        counts_ge(walk_node(IncludeTests::Yes, sy, n).0, walk_node(IncludeTests::No, sn, n).0),
    decreases n, 2int,
{
    match n {
        SynNode::Expr { kind, children } => {
            let by = match kind {
                ExprKind::Lit | ExprKind::Path | ExprKind::Unsafe => sy.0,
                ExprKind::Other => CounterBlock { exprs: count_one(sy.0.exprs, sy.1 > 0), ..sy.0 },
            };
            let bn = match kind {
                ExprKind::Lit | ExprKind::Path | ExprKind::Unsafe => sn.0,
                ExprKind::Other => CounterBlock { exprs: count_one(sn.0.exprs, sn.1 > 0), ..sn.0 },
            };
            lemma_walk_seq_tests((by, sy.1), (bn, sn.1), children@);
        },
        SynNode::ExprUnsafe { children } => {
            lemma_walk_seq_tests((sy.0, sy.1 + 1), (sn.0, sn.1 + 1), children@);
        },
        SynNode::ItemFn { attrs, is_unsafe, children } => {
            let unsafe_fn = is_unsafe || spec_has_unsafe_attributes(attrs@);
            let s1: nat = if unsafe_fn {
                sy.1 + 1
            } else {
                sy.1
            };
            let by = CounterBlock { functions: count_one(sy.0.functions, unsafe_fn), ..sy.0 };
            lemma_walk_seq_bounds(IncludeTests::Yes, (by, s1), children@);
            if spec_is_test_fn(attrs@) {
                lemma_walk_seq_monotone(IncludeTests::Yes, (by, s1), children@);
                lemma_walk_seq_depth(IncludeTests::Yes, (by, s1), children@);
            } else {
                let t1: nat = if unsafe_fn {
                    sn.1 + 1
                } else {
                    sn.1
                };
                let bn = CounterBlock { functions: count_one(sn.0.functions, unsafe_fn), ..sn.0 };
                lemma_walk_seq_tests((by, s1), (bn, t1), children@);
            }
        },
        SynNode::ItemMod { attrs, children } => {
            if spec_is_test_mod(attrs@) {
                lemma_walk_seq_monotone(IncludeTests::Yes, sy, children@);
            } else {
                lemma_walk_seq_tests(sy, sn, children@);
            }
        },
        SynNode::ItemImpl { is_unsafe, children } => {
            let by = CounterBlock { item_impls: count_one(sy.0.item_impls, is_unsafe), ..sy.0 };
            let bn = CounterBlock { item_impls: count_one(sn.0.item_impls, is_unsafe), ..sn.0 };
            lemma_walk_seq_tests((by, sy.1), (bn, sn.1), children@);
        },
        SynNode::ItemTrait { is_unsafe, children } => {
            let by = CounterBlock { item_traits: count_one(sy.0.item_traits, is_unsafe), ..sy.0 };
            let bn = CounterBlock { item_traits: count_one(sn.0.item_traits, is_unsafe), ..sn.0 };
            lemma_walk_seq_tests((by, sy.1), (bn, sn.1), children@);
        },
        SynNode::ImplItemFn { is_unsafe, children } => {
            let s1: nat = if is_unsafe {
                sy.1 + 1
            } else {
                sy.1
            };
            let t1: nat = if is_unsafe {
                sn.1 + 1
            } else {
                sn.1
            };
            let by = CounterBlock { methods: count_one(sy.0.methods, is_unsafe), ..sy.0 };
            let bn = CounterBlock { methods: count_one(sn.0.methods, is_unsafe), ..sn.0 };
            lemma_walk_seq_tests((by, s1), (bn, t1), children@);
        },
    }
}

proof fn lemma_walk_seq_tests(sy: (CounterBlock, nat), sn: (CounterBlock, nat), ns: Seq<SynNode>)
    requires
        counts_ge(sy.0, sn.0),
        sy.1 == sn.1,
        walk_weight(sy) + seq_size(ns) <= u64::MAX,
        walk_weight(sn) + seq_size(ns) <= u64::MAX,
    ensures
        counts_ge(walk_seq(IncludeTests::Yes, sy, ns).0, walk_seq(IncludeTests::No, sn, ns).0),
    decreases ns, 1int,
{
    if ns.len() > 0 {
        lemma_walk_seq_tests(sy, sn, ns.drop_last());
        lemma_walk_seq_bounds(IncludeTests::Yes, sy, ns.drop_last());
        lemma_walk_seq_bounds(IncludeTests::No, sn, ns.drop_last());
        lemma_walk_seq_depth(IncludeTests::Yes, sy, ns.drop_last());
        lemma_walk_seq_depth(IncludeTests::No, sn, ns.drop_last());
        lemma_walk_node_tests(
            walk_seq(IncludeTests::Yes, sy, ns.drop_last()),
            walk_seq(IncludeTests::No, sn, ns.drop_last()),
            ns.last(),
        );
    }
}

/// A walk never lowers a kind total.
proof fn lemma_walk_node_monotone(inc: IncludeTests, st: (CounterBlock, nat), n: SynNode)
    requires
        walk_weight(st) + node_size(n) <= u64::MAX,
    ensures
        counts_ge(walk_node(inc, st, n).0, st.0),
    decreases n, 2int,
{
    match n {
        SynNode::Expr { kind, children } => {
            let b1 = match kind {
                ExprKind::Lit | ExprKind::Path | ExprKind::Unsafe => st.0,
                ExprKind::Other => CounterBlock { exprs: count_one(st.0.exprs, st.1 > 0), ..st.0 },
            };
            lemma_walk_seq_monotone(inc, (b1, st.1), children@);
        },
        SynNode::ExprUnsafe { children } => {
            lemma_walk_seq_monotone(inc, (st.0, st.1 + 1), children@);
        },
        SynNode::ItemFn { attrs, is_unsafe, children } => {
            if !(inc == IncludeTests::No && spec_is_test_fn(attrs@)) {
                let unsafe_fn = is_unsafe || spec_has_unsafe_attributes(attrs@);
                let s1: nat = if unsafe_fn {
                    st.1 + 1
                } else {
                    st.1
                };
                let b1 = CounterBlock { functions: count_one(st.0.functions, unsafe_fn), ..st.0 };
                lemma_walk_seq_monotone(inc, (b1, s1), children@);
            }
        },
        SynNode::ItemMod { attrs, children } => {
            if !(inc == IncludeTests::No && spec_is_test_mod(attrs@)) {
                lemma_walk_seq_monotone(inc, st, children@);
            }
        },
        SynNode::ItemImpl { is_unsafe, children } => {
            let b1 = CounterBlock { item_impls: count_one(st.0.item_impls, is_unsafe), ..st.0 };
            lemma_walk_seq_monotone(inc, (b1, st.1), children@);
        },
        SynNode::ItemTrait { is_unsafe, children } => {
            let b1 = CounterBlock { item_traits: count_one(st.0.item_traits, is_unsafe), ..st.0 };
            lemma_walk_seq_monotone(inc, (b1, st.1), children@);
        },
        SynNode::ImplItemFn { is_unsafe, children } => {
            let s1: nat = if is_unsafe {
                st.1 + 1
            } else {
                st.1
            };
            let b1 = CounterBlock { methods: count_one(st.0.methods, is_unsafe), ..st.0 };
            lemma_walk_seq_monotone(inc, (b1, s1), children@);
        },
    }
}

proof fn lemma_walk_seq_monotone(inc: IncludeTests, st: (CounterBlock, nat), ns: Seq<SynNode>)
    requires
        walk_weight(st) + seq_size(ns) <= u64::MAX,
    ensures
        counts_ge(walk_seq(inc, st, ns).0, st.0),
    decreases ns, 1int,
{
    if ns.len() > 0 {
        lemma_walk_seq_monotone(inc, st, ns.drop_last());
        lemma_walk_seq_bounds(inc, st, ns.drop_last());
        lemma_walk_node_monotone(inc, walk_seq(inc, st, ns.drop_last()), ns.last());
    }
}

/// Counting code inside tests only adds counts: no counter of functions,
/// expressions, impls, traits or methods, safe or unsafe, is lower than
/// without tests.
pub proof fn law_including_tests_counts_no_fewer_items(file: SyntaxFile)
    requires
        seq_size(file.children@) <= u32::MAX,
    ensures
        counts_ge(
            spec_find_unsafe(file, IncludeTests::Yes).counters,
            spec_find_unsafe(file, IncludeTests::No).counters,
        ),
{
    lemma_walk_seq_tests((zero_block(), 0nat), (zero_block(), 0nat), file.children@);
}

/// The kinds of item that the count tells apart as safe or unsafe.
pub enum ItemKind {
    Function,
    Impl,
    Trait,
    Method,
}

/// The counter of a block that counts items of a kind.
pub open spec fn kind_count(b: CounterBlock, k: ItemKind) -> Count {
    match k {
        ItemKind::Function => b.functions,
        ItemKind::Impl => b.item_impls,
        ItemKind::Trait => b.item_traits,
        ItemKind::Method => b.methods,
    }
}

/// The unsafe or the safe half of a counter.
pub open spec fn count_of(c: Count, is_unsafe: bool) -> int {
    if is_unsafe {
        c.unsafe_ as int
    } else {
        c.safe as int
    }
}

/// How many items of kind `k` the node holds, itself included, that are
/// declared unsafe (`is_unsafe`) or not: a function counts as unsafe when
/// it is declared `unsafe` or exported under a fixed symbol name. Without
/// tests, test functions and test modules hold none.
pub open spec fn item_census(inc: IncludeTests, n: SynNode, k: ItemKind, is_unsafe: bool) -> nat
    decreases n, 2int,
{
    match n {
        SynNode::Expr { children, .. } => census_seq(inc, children@, k, is_unsafe),
        SynNode::ExprUnsafe { children } => census_seq(inc, children@, k, is_unsafe),
        SynNode::ItemFn { attrs, is_unsafe: declared, children } => {
            if inc == IncludeTests::No && spec_is_test_fn(attrs@) {
                0
            } else {
                let marked = declared || spec_has_unsafe_attributes(attrs@);
                (if k == ItemKind::Function && marked == is_unsafe {
                    1nat
                } else {
                    0nat
                }) + census_seq(inc, children@, k, is_unsafe)
            }
        },
        SynNode::ItemMod { attrs, children } => {
            if inc == IncludeTests::No && spec_is_test_mod(attrs@) {
                0
            } else {
                census_seq(inc, children@, k, is_unsafe)
            }
        },
        SynNode::ItemImpl { is_unsafe: declared, children } => (if k == ItemKind::Impl && declared
            == is_unsafe {
            1nat
        } else {
            0nat
        }) + census_seq(inc, children@, k, is_unsafe),
        SynNode::ItemTrait { is_unsafe: declared, children } => (if k == ItemKind::Trait
            && declared == is_unsafe {
            1nat
        } else {
            0nat
        }) + census_seq(inc, children@, k, is_unsafe),
        SynNode::ImplItemFn { is_unsafe: declared, children } => (if k == ItemKind::Method
            && declared == is_unsafe {
            1nat
        } else {
            0nat
        }) + census_seq(inc, children@, k, is_unsafe),
    }
}

/// The census of a sequence of sibling nodes.
pub open spec fn census_seq(inc: IncludeTests, ns: Seq<SynNode>, k: ItemKind, is_unsafe: bool) -> nat
    decreases ns, 1int,
{
    if ns.len() == 0 {
        0
    } else {
        census_seq(inc, ns.drop_last(), k, is_unsafe) + item_census(inc, ns.last(), k, is_unsafe)
    }
}

proof fn lemma_walk_node_census(
    inc: IncludeTests,
    st: (CounterBlock, nat),
    n: SynNode,
    k: ItemKind,
    u: bool,
)
    requires
        walk_weight(st) + node_size(n) <= u64::MAX,
    ensures
        count_of(kind_count(walk_node(inc, st, n).0, k), u) == count_of(kind_count(st.0, k), u)
            + item_census(inc, n, k, u),
    decreases n, 2int,
{
    match n {
        SynNode::Expr { kind, children } => {
            let b1 = match kind {
                ExprKind::Lit | ExprKind::Path | ExprKind::Unsafe => st.0,
                ExprKind::Other => CounterBlock { exprs: count_one(st.0.exprs, st.1 > 0), ..st.0 },
            };
            lemma_walk_seq_census(inc, (b1, st.1), children@, k, u);
        },
        SynNode::ExprUnsafe { children } => {
            lemma_walk_seq_census(inc, (st.0, st.1 + 1), children@, k, u);
        },
        SynNode::ItemFn { attrs, is_unsafe, children } => {
            if !(inc == IncludeTests::No && spec_is_test_fn(attrs@)) {
                let unsafe_fn = is_unsafe || spec_has_unsafe_attributes(attrs@);
                let s1: nat = if unsafe_fn {
                    st.1 + 1
                } else {
                    st.1
                };
                let b1 = CounterBlock { functions: count_one(st.0.functions, unsafe_fn), ..st.0 };
                lemma_walk_seq_census(inc, (b1, s1), children@, k, u);
            }
        },
        SynNode::ItemMod { attrs, children } => {
            if !(inc == IncludeTests::No && spec_is_test_mod(attrs@)) {
                lemma_walk_seq_census(inc, st, children@, k, u);
            }
        },
        SynNode::ItemImpl { is_unsafe, children } => {
            let b1 = CounterBlock { item_impls: count_one(st.0.item_impls, is_unsafe), ..st.0 };
            lemma_walk_seq_census(inc, (b1, st.1), children@, k, u);
        },
        SynNode::ItemTrait { is_unsafe, children } => {
            let b1 = CounterBlock { item_traits: count_one(st.0.item_traits, is_unsafe), ..st.0 };
            lemma_walk_seq_census(inc, (b1, st.1), children@, k, u);
        },
        SynNode::ImplItemFn { is_unsafe, children } => {
            let s1: nat = if is_unsafe {
                st.1 + 1
            } else {
                st.1
            };
            let b1 = CounterBlock { methods: count_one(st.0.methods, is_unsafe), ..st.0 };
            lemma_walk_seq_census(inc, (b1, s1), children@, k, u);
        },
    }
}

proof fn lemma_walk_seq_census(
    inc: IncludeTests,
    st: (CounterBlock, nat),
    ns: Seq<SynNode>,
    k: ItemKind,
    u: bool,
)
    requires
        walk_weight(st) + seq_size(ns) <= u64::MAX,
    ensures
        count_of(kind_count(walk_seq(inc, st, ns).0, k), u) == count_of(kind_count(st.0, k), u)
            + census_seq(inc, ns, k, u),
    decreases ns, 1int,
{
    if ns.len() > 0 {
        lemma_walk_seq_census(inc, st, ns.drop_last(), k, u);
        lemma_walk_seq_bounds(inc, st, ns.drop_last());
        lemma_walk_node_census(inc, walk_seq(inc, st, ns.drop_last()), ns.last(), k, u);
    }
}

/// Each function, impl, trait and method that the scan reaches is counted
/// once, as unsafe exactly when it is declared `unsafe` (a function also
/// when it is exported under a fixed symbol name) and as safe otherwise:
/// every such counter of a file's metrics is the number of those items in
/// the file.
pub proof fn law_items_counted_by_declaration(
    file: SyntaxFile,
    include_tests: IncludeTests,
    k: ItemKind,
    is_unsafe: bool,
)
    requires
        seq_size(file.children@) <= u64::MAX,
    ensures
        count_of(kind_count(spec_find_unsafe(file, include_tests).counters, k), is_unsafe)
            == census_seq(include_tests, file.children@, k, is_unsafe),
{
    lemma_walk_seq_census(include_tests, (zero_block(), 0nat), file.children@, k, is_unsafe);
}

/// How many expressions the node holds, itself included, other than
/// literals, paths and `unsafe` blocks, that stand inside an unsafe scope
/// (`is_unsafe`) or outside one. `inside` tells whether the node itself
/// stands inside one; an `unsafe` block, a function declared `unsafe` or
/// exported under a fixed symbol name, and a method declared `unsafe` open
/// one for what they hold. Without tests, test functions and test modules
/// hold none.
pub open spec fn expr_census(inc: IncludeTests, n: SynNode, inside: bool, is_unsafe: bool) -> nat
    decreases n, 2int,
{
    match n {
        SynNode::Expr { kind, children } => (if kind == ExprKind::Other && inside == is_unsafe {
            1nat
        } else {
            0nat
        }) + expr_census_seq(inc, children@, inside, is_unsafe),
        SynNode::ExprUnsafe { children } => expr_census_seq(inc, children@, true, is_unsafe),
        SynNode::ItemFn { attrs, is_unsafe: declared, children } => {
            if inc == IncludeTests::No && spec_is_test_fn(attrs@) {
                0
            } else {
                expr_census_seq(
                    inc,
                    children@,
                    inside || declared || spec_has_unsafe_attributes(attrs@),
                    is_unsafe,
                )
            }
        },
        SynNode::ItemMod { attrs, children } => {
            if inc == IncludeTests::No && spec_is_test_mod(attrs@) {
                0
            } else {
                expr_census_seq(inc, children@, inside, is_unsafe)
            }
        },
        SynNode::ItemImpl { children, .. } => expr_census_seq(inc, children@, inside, is_unsafe),
        SynNode::ItemTrait { children, .. } => expr_census_seq(inc, children@, inside, is_unsafe),
        SynNode::ImplItemFn { is_unsafe: declared, children } => expr_census_seq(
            inc,
            children@,
            inside || declared,
            is_unsafe,
        ),
    }
}

/// The expression census of a sequence of sibling nodes.
pub open spec fn expr_census_seq(inc: IncludeTests, ns: Seq<SynNode>, inside: bool, is_unsafe: bool) -> nat
    decreases ns, 1int,
{
    if ns.len() == 0 {
        0
    } else {
        expr_census_seq(inc, ns.drop_last(), inside, is_unsafe) + expr_census(
            inc,
            ns.last(),
            inside,
            is_unsafe,
        )
    }
}

proof fn lemma_walk_node_exprs(inc: IncludeTests, st: (CounterBlock, nat), n: SynNode, u: bool)
    requires
        walk_weight(st) + node_size(n) <= u64::MAX,
    ensures
        count_of(walk_node(inc, st, n).0.exprs, u) == count_of(st.0.exprs, u) + expr_census(
            inc,
            n,
            st.1 > 0,
            u,
        ),
    decreases n, 2int,
{
    match n {
        SynNode::Expr { kind, children } => {
            let b1 = match kind {
                ExprKind::Lit | ExprKind::Path | ExprKind::Unsafe => st.0,
                ExprKind::Other => CounterBlock { exprs: count_one(st.0.exprs, st.1 > 0), ..st.0 },
            };
            lemma_walk_seq_exprs(inc, (b1, st.1), children@, u);
        },
        SynNode::ExprUnsafe { children } => {
            lemma_walk_seq_exprs(inc, (st.0, st.1 + 1), children@, u);
        },
        SynNode::ItemFn { attrs, is_unsafe, children } => {
            if !(inc == IncludeTests::No && spec_is_test_fn(attrs@)) {
                let unsafe_fn = is_unsafe || spec_has_unsafe_attributes(attrs@);
                let s1: nat = if unsafe_fn {
                    st.1 + 1
                } else {
                    st.1
                };
                let b1 = CounterBlock { functions: count_one(st.0.functions, unsafe_fn), ..st.0 };
                lemma_walk_seq_exprs(inc, (b1, s1), children@, u);
            }
        },
        SynNode::ItemMod { attrs, children } => {
            if !(inc == IncludeTests::No && spec_is_test_mod(attrs@)) {
                lemma_walk_seq_exprs(inc, st, children@, u);
            }
        },
        SynNode::ItemImpl { is_unsafe, children } => {
            let b1 = CounterBlock { item_impls: count_one(st.0.item_impls, is_unsafe), ..st.0 };
            lemma_walk_seq_exprs(inc, (b1, st.1), children@, u);
        },
        SynNode::ItemTrait { is_unsafe, children } => {
            let b1 = CounterBlock { item_traits: count_one(st.0.item_traits, is_unsafe), ..st.0 };
            lemma_walk_seq_exprs(inc, (b1, st.1), children@, u);
        },
        SynNode::ImplItemFn { is_unsafe, children } => {
            let s1: nat = if is_unsafe {
                st.1 + 1
            } else {
                st.1
            };
            let b1 = CounterBlock { methods: count_one(st.0.methods, is_unsafe), ..st.0 };
            lemma_walk_seq_exprs(inc, (b1, s1), children@, u);
        },
    }
}

proof fn lemma_walk_seq_exprs(inc: IncludeTests, st: (CounterBlock, nat), ns: Seq<SynNode>, u: bool)
    requires
        walk_weight(st) + seq_size(ns) <= u64::MAX,
    ensures
        count_of(walk_seq(inc, st, ns).0.exprs, u) == count_of(st.0.exprs, u) + expr_census_seq(
            inc,
            ns,
            st.1 > 0,
            u,
        ),
    decreases ns, 1int,
{
    if ns.len() > 0 {
        lemma_walk_seq_exprs(inc, st, ns.drop_last(), u);
        lemma_walk_seq_bounds(inc, st, ns.drop_last());
        lemma_walk_seq_depth(inc, st, ns.drop_last());
        lemma_walk_node_exprs(inc, walk_seq(inc, st, ns.drop_last()), ns.last(), u);
    }
}

/// Each expression that the scan reaches, other than a literal, a path or
/// an `unsafe` block itself, is counted once: as unsafe when it stands
/// inside an `unsafe` block, a function that is unsafe or a method declared
/// `unsafe`, and as safe otherwise.
pub proof fn law_exprs_counted_by_scope(file: SyntaxFile, include_tests: IncludeTests, is_unsafe: bool)
    requires
        seq_size(file.children@) <= u64::MAX,
    ensures
        count_of(spec_find_unsafe(file, include_tests).counters.exprs, is_unsafe) == expr_census_seq(
            include_tests,
            file.children@,
            false,
            is_unsafe,
        ),
{
    lemma_walk_seq_exprs(include_tests, (zero_block(), 0nat), file.children@, is_unsafe);
}

} // verus!
