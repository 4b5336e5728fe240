//! The order of paths: component by component, as `Path::cmp` compares
//! them. A path's components are its root, a leading `.`, `..` and its
//! other names; empty names (from repeated or trailing separators) and `.`
//! elsewhere are not components. Kinds of components come in the order
//! root, `.`, `..`, name; names compare by their characters.

use vstd::prelude::*;
use crate::text::chars_of;

verus! {

/// Text `a` comes before text `b`: at the first difference its character
/// has the lower code, or it is a proper prefix of `b`.
pub open spec fn text_less(a: Seq<char>, b: Seq<char>) -> bool
    decreases a.len(),
{
    if a.len() == 0 {
        b.len() > 0
    } else if b.len() == 0 {
        false
    } else if a[0] != b[0] {
        (a[0] as int) < (b[0] as int)
    } else {
        text_less(a.drop_first(), b.drop_first())
    }
}

proof fn lemma_text_less_irreflexive(a: Seq<char>)
    ensures
        !text_less(a, a),
    decreases a.len(),
{
    if a.len() > 0 {
        lemma_text_less_irreflexive(a.drop_first());
    }
}

proof fn lemma_text_less_transitive(a: Seq<char>, b: Seq<char>, c: Seq<char>)
    requires
        text_less(a, b),
        text_less(b, c),
    ensures
        text_less(a, c),
    decreases a.len(),
{
    if a.len() > 0 && b.len() > 0 && c.len() > 0 && a[0] == b[0] && b[0] == c[0] {
        lemma_text_less_transitive(a.drop_first(), b.drop_first(), c.drop_first());
    }
}

proof fn lemma_text_less_total(a: Seq<char>, b: Seq<char>)
    ensures
        a == b || text_less(a, b) || text_less(b, a),
    decreases a.len(),
{
    if a.len() == 0 && b.len() == 0 {
        assert(a =~= b);
    } else if a.len() > 0 && b.len() > 0 && a[0] == b[0] {
        lemma_text_less_total(a.drop_first(), b.drop_first());
        if a.drop_first() == b.drop_first() {
            assert(a =~= seq![a[0]] + a.drop_first());
            assert(b =~= seq![b[0]] + b.drop_first());
        }
    }
}

/// The kind of a component: 0 for the root, 1 for a leading `.`, 2 for
/// `..`, 3 for a name; and its text, empty for all kinds but names.
pub type Component = (u8, Seq<char>);

/// Component `x` comes before component `y`: a lower kind, or two names of
/// which the first comes first.
pub open spec fn component_less(x: Component, y: Component) -> bool {
    x.0 < y.0 || (x.0 == y.0 && text_less(x.1, y.1))
}

/// Component sequence `a` comes before `b`: at the first difference its
/// component comes first, or it is a proper prefix of `b`.
pub open spec fn components_less(a: Seq<Component>, b: Seq<Component>) -> bool
    decreases a.len(),
{
    if a.len() == 0 {
        b.len() > 0
    } else if b.len() == 0 {
        false
    } else if a[0] != b[0] {
        component_less(a[0], b[0])
    } else {
        components_less(a.drop_first(), b.drop_first())
    }
}

proof fn lemma_components_less_irreflexive(a: Seq<Component>)
    ensures
        !components_less(a, a),
    decreases a.len(),
{
    if a.len() > 0 {
        lemma_components_less_irreflexive(a.drop_first());
    }
}

proof fn lemma_component_less_transitive(x: Component, y: Component, z: Component)
    requires
        component_less(x, y),
        component_less(y, z),
    ensures
        component_less(x, z),
{
    if x.0 == y.0 && y.0 == z.0 {
        lemma_text_less_transitive(x.1, y.1, z.1);
    }
}

proof fn lemma_component_less_total(x: Component, y: Component)
    ensures
        x == y || component_less(x, y) || component_less(y, x),
{
    lemma_text_less_total(x.1, y.1);
}

proof fn lemma_components_less_transitive(a: Seq<Component>, b: Seq<Component>, c: Seq<Component>)
    requires
        components_less(a, b),
        components_less(b, c),
    ensures
        components_less(a, c),
    decreases a.len(),
{
    if a.len() > 0 && b.len() > 0 && c.len() > 0 {
        if a[0] == b[0] && b[0] == c[0] {
            lemma_components_less_transitive(a.drop_first(), b.drop_first(), c.drop_first());
        } else if a[0] != b[0] && b[0] != c[0] {
            lemma_component_less_transitive(a[0], b[0], c[0]);
            if a[0] == c[0] {
                lemma_text_less_irreflexive(a[0].1);
            }
        }
    }
}

proof fn lemma_components_less_total(a: Seq<Component>, b: Seq<Component>)
    ensures
        a == b || components_less(a, b) || components_less(b, a),
    decreases a.len(),
{
    if a.len() == 0 && b.len() == 0 {
        assert(a =~= b);
    } else if a.len() > 0 && b.len() > 0 {
        if a[0] == b[0] {
            lemma_components_less_total(a.drop_first(), b.drop_first());
            if a.drop_first() == b.drop_first() {
                assert(a =~= seq![a[0]] + a.drop_first());
                assert(b =~= seq![b[0]] + b.drop_first());
            }
        } else {
            lemma_component_less_total(a[0], b[0]);
        }
    }
}

/// The end of the name that starts at `i`: the next `/`, or the end.
pub open spec fn name_end(p: Seq<char>, i: int) -> int
    decreases p.len() - i,
{
    if i >= p.len() || i < 0 {
        p.len() as int
    } else if p[i] == '/' {
        i
    } else {
        name_end(p, i + 1)
    }
}

pub proof fn lemma_name_end(p: Seq<char>, i: int)
    requires
        0 <= i <= p.len(),
    ensures
        i <= name_end(p, i) <= p.len(),
        name_end(p, i) < p.len() ==> p[name_end(p, i)] == '/',
    decreases p.len() - i,
{
    if i < p.len() && p[i] != '/' {
        lemma_name_end(p, i + 1);
    }
}

/// The components of the names from position `i` on: an empty name or `.`
/// is none, `..` is the parent component, any other name is a name.
pub open spec fn components_from(p: Seq<char>, i: int) -> Seq<Component>
    decreases p.len() + 1 - i,
{
    if i < 0 || i >= p.len() {
        Seq::empty()
    } else {
        let e = name_end(p, i);
        proof {
            lemma_name_end(p, i);
        }
        let name = p.subrange(i, e);
        let rest = components_from(p, e + 1);
        if name.len() == 0 || name == seq!['.'] {
            rest
        } else if name == seq!['.', '.'] {
            seq![(2u8, Seq::<char>::empty())] + rest
        } else {
            seq![(3u8, name)] + rest
        }
    }
}

/// The component that the start of a path gives: the root for a leading
/// `/`, the current directory for a leading `.` that is a whole name.
pub open spec fn leading_component(p: Seq<char>) -> Seq<Component> {
    if p.len() > 0 && p[0] == '/' {
        seq![(0u8, Seq::<char>::empty())]
    } else if p.len() > 0 && p[0] == '.' && (p.len() == 1 || p[1] == '/') {
        seq![(1u8, Seq::<char>::empty())]
    } else {
        Seq::empty()
    }
}

/// The components of a path.
pub open spec fn path_components(p: Seq<char>) -> Seq<Component> {
    leading_component(p) + components_from(p, 0)
}

/// Path `a` comes before path `b`, component by component.
pub open spec fn path_less(a: Seq<char>, b: Seq<char>) -> bool {
    components_less(path_components(a), path_components(b))
}

/// Paths `a` and `b` have the same components.
pub open spec fn same_path(a: Seq<char>, b: Seq<char>) -> bool {
    path_components(a) == path_components(b)
}

pub proof fn lemma_path_less_irreflexive(a: Seq<char>)
    ensures
        !path_less(a, a),
{
    lemma_components_less_irreflexive(path_components(a));
}

pub proof fn lemma_path_less_transitive(a: Seq<char>, b: Seq<char>, c: Seq<char>)
    requires
        path_less(a, b),
        path_less(b, c),
    ensures
        path_less(a, c),
{
    lemma_components_less_transitive(path_components(a), path_components(b), path_components(c));
}

pub proof fn lemma_path_less_total(a: Seq<char>, b: Seq<char>)
    ensures
        same_path(a, b) || path_less(a, b) || path_less(b, a),
{
    lemma_components_less_total(path_components(a), path_components(b));
}

pub proof fn lemma_path_less_not_same(a: Seq<char>, b: Seq<char>)
    requires
        same_path(a, b),
    ensures
        !path_less(a, b),
{
    lemma_components_less_irreflexive(path_components(a));
}

/// The components with their texts as sequences.
pub open spec fn components_view(v: Seq<(u8, Vec<char>)>) -> Seq<Component> {
    v.map_values(|c: (u8, Vec<char>)| (c.0, c.1@))
}

/// The characters of `s` from `i` to `e`.
fn chars_between(s: &Vec<char>, i: usize, e: usize) -> (r: Vec<char>)
    requires
        i <= e <= s.len(),
    ensures
        r@ == s@.subrange(i as int, e as int),
{
    let mut r: Vec<char> = Vec::new();
    let mut j = i;
    while j < e
        invariant
            i <= j <= e <= s.len(),
            r@ == s@.subrange(i as int, j as int),
        decreases e - j,
    {
        r.push(s[j]);
        j = j + 1;
        proof {
            assert(r@ =~= s@.subrange(i as int, j as int));
        }
    }
    r
}

/// The components of a path.
pub fn components_of(path: &str) -> (r: Vec<(u8, Vec<char>)>)
    ensures
        components_view(r@) == path_components(path@),
{
    let s = chars_of(path);
    let n = s.len();
    let mut out: Vec<(u8, Vec<char>)> = Vec::new();
    if n > 0 && s[0] == '/' {
        out.push((0u8, Vec::new()));
    } else if n > 0 && s[0] == '.' && (n == 1 || s[1] == '/') {
        out.push((1u8, Vec::new()));
    }
    proof {
        assert(components_view(out@) =~= leading_component(s@));
    }
    let ghost lead = components_view(out@);
    let mut i: usize = 0;
    while i < n
        invariant
            s@ == path@,
            n == s.len(),
            i <= n,
            lead == leading_component(s@),
            lead + components_from(s@, 0) == components_view(out@) + components_from(s@, i as int),
        decreases n - i,
    {
        let mut e = i;
        while e < n && s[e] != '/'
            invariant
                i <= e <= n,
                n == s.len(),
                name_end(s@, e as int) == name_end(s@, i as int),
            decreases n - e,
        {
            e = e + 1;
        }
        proof {
            lemma_name_end(s@, i as int);
        }
        let name = chars_between(&s, i, e);
        let ghost before = components_view(out@);
        let ghost rest = components_from(s@, e + 1);
        if name.len() == 0 || (name.len() == 1 && name[0] == '.') {
            proof {
                if name.len() == 1 {
                    assert(name@ =~= seq!['.']);
                }
            }
        } else if name.len() == 2 && name[0] == '.' && name[1] == '.' {
            out.push((2u8, Vec::new()));
            proof {
                assert(name@ =~= seq!['.', '.']);
                assert(components_view(out@) =~= before + seq![(2u8, Seq::<char>::empty())]);
            }
        } else {
            let ghost text = name@;
            out.push((3u8, name));
            proof {
                if text == seq!['.'] {
                    assert(text[0] == '.');
                }
                if text == seq!['.', '.'] {
                    assert(text[0] == '.' && text[1] == '.');
                }
                assert(components_view(out@) =~= before + seq![(3u8, text)]);
            }
        }
        proof {
            assert(components_view(out@) + rest =~= before + components_from(s@, i as int));
        }
        if e >= n {
            i = n;
        } else {
            i = e + 1;
        }
    }
    proof {
        assert(components_view(out@) + components_from(s@, i as int) =~= components_view(out@));
    }
    out
}

/// Whether text `a` comes before text `b`.
fn text_lt(a: &Vec<char>, b: &Vec<char>) -> (r: bool)
    ensures
        r == text_less(a@, b@),
{
    let mut i: usize = 0;
    assert(a@.skip(0) =~= a@ && b@.skip(0) =~= b@);
    while i < a.len() && i < b.len() && a[i] == b[i]
        invariant
            i <= a.len(),
            i <= b.len(),
            text_less(a@, b@) == text_less(a@.skip(i as int), b@.skip(i as int)),
        decreases a.len() - i,
    {
        proof {
            assert(a@.skip(i as int).drop_first() =~= a@.skip(i + 1));
            assert(b@.skip(i as int).drop_first() =~= b@.skip(i + 1));
        }
        i = i + 1;
    }
    proof {
        if i < a.len() {
            assert(a@.skip(i as int)[0] == a@[i as int]);
        }
        if i < b.len() {
            assert(b@.skip(i as int)[0] == b@[i as int]);
        }
    }
    if i >= a.len() {
        i < b.len()
    } else if i >= b.len() {
        false
    } else {
        a[i] < b[i]
    }
}

/// Whether two texts are equal.
fn text_eq(a: &Vec<char>, b: &Vec<char>) -> (r: bool)
    ensures
        r == (a@ == b@),
{
    if a.len() != b.len() {
        return false;
    }
    let mut i: usize = 0;
    while i < a.len()
        invariant
            a.len() == b.len(),
            i <= a.len(),
            forall|j: int| 0 <= j < i ==> a@[j] == b@[j],
        decreases a.len() - i,
    {
        if a[i] != b[i] {
            return false;
        }
        i = i + 1;
    }
    assert(a@ =~= b@);
    true
}

/// Whether the component sequences `a` and `b` compare as `less` says:
/// `a` before `b` when `less`, and equal otherwise.
fn components_compare(a: &Vec<(u8, Vec<char>)>, b: &Vec<(u8, Vec<char>)>, less: bool) -> (r: bool)
    ensures
        less ==> r == components_less(components_view(a@), components_view(b@)),
        !less ==> r == (components_view(a@) == components_view(b@)),
{
    let ghost va = components_view(a@);
    let ghost vb = components_view(b@);
    let mut i: usize = 0;
    assert(va.skip(0) =~= va && vb.skip(0) =~= vb);
    while i < a.len() && i < b.len()
        invariant
            va == components_view(a@),
            vb == components_view(b@),
            i <= a.len(),
            i <= b.len(),
            forall|j: int| 0 <= j < i ==> va[j] == vb[j],
            components_less(va, vb) == components_less(va.skip(i as int), vb.skip(i as int)),
        decreases a.len() - i,
    {
        let x = &a[i];
        let y = &b[i];
        assert(va.skip(i as int)[0] == va[i as int] && va[i as int] == (x.0, x.1@));
        assert(vb.skip(i as int)[0] == vb[i as int] && vb[i as int] == (y.0, y.1@));
        let same = x.0 == y.0 && text_eq(&x.1, &y.1);
        if !same {
            if !less {
                return false;
            }
            return x.0 < y.0 || (x.0 == y.0 && text_lt(&x.1, &y.1));
        }
        proof {
            assert(va.skip(i as int).drop_first() =~= va.skip(i + 1));
            assert(vb.skip(i as int).drop_first() =~= vb.skip(i + 1));
        }
        i = i + 1;
    }
    if less {
        i >= a.len() && i < b.len()
    } else {
        proof {
            if a.len() == b.len() {
                assert(va =~= vb);
            }
        }
        a.len() == b.len()
    }
}

/// Whether path `a` comes before path `b`, component by component, where
/// `ca` and `cb` are their components.
pub fn components_less_exec(ca: &Vec<(u8, Vec<char>)>, cb: &Vec<(u8, Vec<char>)>) -> (r: bool)
    ensures
        r == components_less(components_view(ca@), components_view(cb@)),
{
    components_compare(ca, cb, true)
}

/// Whether two paths have the same components, where `ca` and `cb` are
/// their components.
pub fn components_equal(ca: &Vec<(u8, Vec<char>)>, cb: &Vec<(u8, Vec<char>)>) -> (r: bool)
    ensures
        r == (components_view(ca@) == components_view(cb@)),
{
    components_compare(ca, cb, false)
}

} // verus!
