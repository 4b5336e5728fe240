use cargo_geiger::geiger::{
    file_forbids_unsafe, find_unsafe_in_syntax, has_unsafe_attributes, is_test_fn, is_test_mod,
    AttributeInfo, ExprKind, GeigerSynVisitor, IncludeTests, NestedMetaInfo, RsFileMetrics,
    SynNode, SyntaxFile,
};
use cargo_geiger::report::{Count, CounterBlock};

fn attr(name: &str) -> AttributeInfo {
    AttributeInfo { inner: false, ident: Some(name.to_string()), nested: vec![] }
}

fn attr_with(name: &str, nested: &str, inner: bool) -> AttributeInfo {
    AttributeInfo {
        inner,
        ident: Some(name.to_string()),
        nested: vec![NestedMetaInfo { ident: Some(nested.to_string()), has_value: false }],
    }
}

fn path() -> SynNode {
    SynNode::Expr { kind: ExprKind::Path, children: vec![] }
}

fn lit() -> SynNode {
    SynNode::Expr { kind: ExprKind::Lit, children: vec![] }
}

/// `f()`: a call of a path.
fn call() -> SynNode {
    SynNode::Expr { kind: ExprKind::Other, children: vec![path()] }
}

/// `unsafe { .. }`
fn unsafe_block(children: Vec<SynNode>) -> SynNode {
    SynNode::Expr { kind: ExprKind::Unsafe, children: vec![SynNode::ExprUnsafe { children }] }
}

fn item_fn(attrs: Vec<AttributeInfo>, is_unsafe: bool, children: Vec<SynNode>) -> SynNode {
    SynNode::ItemFn { attrs, is_unsafe, children }
}

fn counters(fs: u64, fu: u64, es: u64, eu: u64) -> CounterBlock {
    CounterBlock {
        functions: Count { safe: fs, unsafe_: fu },
        exprs: Count { safe: es, unsafe_: eu },
        item_impls: Count { safe: 0, unsafe_: 0 },
        item_traits: Count { safe: 0, unsafe_: 0 },
        methods: Count { safe: 0, unsafe_: 0 },
    }
}

#[test]
fn forbids_unsafe() {
    let file = SyntaxFile { attrs: vec![attr_with("forbid", "unsafe_code", true)], children: vec![] };
    let actual = find_unsafe_in_syntax(&file, IncludeTests::No);
    assert_eq!(actual, RsFileMetrics { counters: counters(0, 0, 0, 0), forbids_unsafe: true });
}

#[test]
fn outer_forbid_attribute_does_not_forbid_the_file() {
    assert!(!file_forbids_unsafe(&vec![attr_with("forbid", "unsafe_code", false)]));
    assert!(file_forbids_unsafe(&vec![attr("doc"), attr_with("forbid", "unsafe_code", true)]));
}

#[test]
fn counters_functions() {
    // fn f() { f(); } twice, unsafe fn, #[no_mangle] fn, #[export_name] unsafe fn
    let file = SyntaxFile {
        attrs: vec![],
        children: vec![
            item_fn(vec![], false, vec![call()]),
            item_fn(vec![], false, vec![call()]),
            item_fn(vec![], true, vec![call()]),
            item_fn(vec![attr("no_mangle")], false, vec![call()]),
            item_fn(vec![attr("export_name")], true, vec![call()]),
        ],
    };
    let actual = find_unsafe_in_syntax(&file, IncludeTests::No);
    assert_eq!(actual, RsFileMetrics { counters: counters(2, 3, 2, 3), forbids_unsafe: false });
}

fn exprs_file() -> SyntaxFile {
    SyntaxFile {
        attrs: vec![],
        children: vec![
            // f(); x.f(); let x = *y; println!(..); let x = 1;
            item_fn(
                vec![],
                false,
                vec![
                    call(),
                    SynNode::Expr { kind: ExprKind::Other, children: vec![path()] },
                    SynNode::Expr { kind: ExprKind::Other, children: vec![path()] },
                    lit(),
                ],
            ),
            // fn f() { unsafe { let x = f(); } }
            item_fn(vec![], false, vec![unsafe_block(vec![call()])]),
            // unsafe fn f() { let x = f(); }
            item_fn(vec![], true, vec![call()]),
            // #[cfg(test)] mod tests { fn f() { f(); } }
            SynNode::ItemMod {
                attrs: vec![attr_with("cfg", "test", false)],
                children: vec![item_fn(vec![], false, vec![call()])],
            },
            // #[test] fn f() { f(); }
            item_fn(vec![attr("test")], false, vec![call()]),
        ],
    }
}

#[test]
fn counters_exprs() {
    let actual = find_unsafe_in_syntax(&exprs_file(), IncludeTests::No);
    assert_eq!(actual, RsFileMetrics { counters: counters(2, 1, 3, 2), forbids_unsafe: false });
}

#[test]
fn counters_exprs_include_tests() {
    let file = SyntaxFile {
        attrs: vec![],
        children: vec![
            item_fn(vec![], false, vec![call()]),
            item_fn(vec![], true, vec![call()]),
            SynNode::ItemMod {
                attrs: vec![attr_with("cfg", "test", false)],
                children: vec![
                    item_fn(vec![], true, vec![call()]),
                    item_fn(vec![], false, vec![call(), unsafe_block(vec![call()])]),
                ],
            },
            item_fn(vec![attr("test")], false, vec![call(), unsafe_block(vec![call()])]),
        ],
    };
    let actual = find_unsafe_in_syntax(&file, IncludeTests::Yes);
    assert_eq!(actual, RsFileMetrics { counters: counters(3, 2, 3, 4), forbids_unsafe: false });
}

#[test]
fn including_tests_counts_no_fewer_items() {
    let without = find_unsafe_in_syntax(&exprs_file(), IncludeTests::No);
    let with = find_unsafe_in_syntax(&exprs_file(), IncludeTests::Yes);
    assert_eq!(with.counters.functions, Count { safe: 4, unsafe_: 1 });
    assert_eq!(with.counters.exprs, Count { safe: 5, unsafe_: 2 });
    assert!(with.counters.functions.safe >= without.counters.functions.safe);
    assert!(with.counters.exprs.safe >= without.counters.exprs.safe);
}

#[test]
fn impls_traits_and_methods_are_counted() {
    let file = SyntaxFile {
        attrs: vec![],
        children: vec![
            SynNode::ItemImpl {
                is_unsafe: true,
                children: vec![
                    SynNode::ImplItemFn { is_unsafe: true, children: vec![call()] },
                    SynNode::ImplItemFn { is_unsafe: false, children: vec![call()] },
                ],
            },
            SynNode::ItemTrait { is_unsafe: false, children: vec![] },
        ],
    };
    let actual = find_unsafe_in_syntax(&file, IncludeTests::No);
    assert_eq!(actual.counters.item_impls, Count { safe: 0, unsafe_: 1 });
    assert_eq!(actual.counters.item_traits, Count { safe: 1, unsafe_: 0 });
    assert_eq!(actual.counters.methods, Count { safe: 1, unsafe_: 1 });
    assert_eq!(actual.counters.exprs, Count { safe: 1, unsafe_: 1 });
}

#[test]
fn unsafe_free_file_has_no_unsafe_counts() {
    let file = SyntaxFile {
        attrs: vec![],
        children: vec![item_fn(vec![], false, vec![call(), lit()])],
    };
    let actual = find_unsafe_in_syntax(&file, IncludeTests::Yes);
    assert!(!actual.counters.has_unsafe());
    assert_eq!(actual.counters, counters(1, 0, 1, 0));
}

#[test]
fn attribute_predicates() {
    assert!(is_test_fn(&vec![attr("inline"), attr("test")]));
    assert!(!is_test_fn(&vec![attr("inline")]));
    assert!(is_test_mod(&vec![attr_with("cfg", "test", false)]));
    assert!(!is_test_mod(&vec![attr_with("cfg", "unix", false)]));
    assert!(has_unsafe_attributes(&vec![attr("no_mangle")]));
    assert!(has_unsafe_attributes(&vec![attr("export_name")]));
    assert!(!has_unsafe_attributes(&vec![attr("inline")]));
}

#[test]
fn unsafe_scopes_are_entered_and_left() {
    let mut visitor = GeigerSynVisitor::new(IncludeTests::No);
    visitor.enter_unsafe_scope();
    visitor.exit_unsafe_scope();
    let file = SyntaxFile { attrs: vec![], children: vec![item_fn(vec![], false, vec![call()])] };
    visitor.visit_file(&file);
    assert_eq!(visitor.metrics().counters, counters(1, 0, 1, 0));
}

#[test]
fn exported_function_scope_ends_with_the_function() {
    // #[no_mangle] pub fn h() { f(); } pub fn k() { f(); }
    let file = SyntaxFile {
        attrs: vec![],
        children: vec![
            item_fn(vec![attr("no_mangle")], false, vec![call()]),
            item_fn(vec![], false, vec![call()]),
        ],
    };
    let actual = find_unsafe_in_syntax(&file, IncludeTests::No);
    assert_eq!(actual, RsFileMetrics { counters: counters(1, 1, 1, 1), forbids_unsafe: false });
}

#[test]
fn including_tests_never_lowers_a_safe_count() {
    // #[test] #[no_mangle] fn t() { f(); } fn k() { f(); }
    let file = SyntaxFile {
        attrs: vec![],
        children: vec![
            item_fn(vec![attr("test"), attr("no_mangle")], false, vec![call()]),
            item_fn(vec![], false, vec![call()]),
        ],
    };
    let without = find_unsafe_in_syntax(&file, IncludeTests::No);
    let with = find_unsafe_in_syntax(&file, IncludeTests::Yes);
    assert_eq!(without.counters, counters(1, 0, 1, 0));
    assert_eq!(with.counters, counters(1, 1, 1, 1));
}
