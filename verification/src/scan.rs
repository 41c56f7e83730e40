//! Turning the files found beneath a dropped folder into the list to convert.
//!
//! The walk itself reads the file system and is done by the caller; this
//! chooses among the regular files it found and puts them in order.

use vstd::prelude::*;
use vstd::relations::sorted_by;
use vstd::seq_lib::*;

use crate::paths::{
    component_eq, components, is_supported_raw, is_within, supported_raw, parse, starts_with, view_comps,
    Comp, Component,
};
use crate::text::chars_of;

verus! {

/// Lexicographic order on text, by code point; a prefix comes first.
pub open spec fn chars_le(a: Seq<char>, b: Seq<char>) -> bool
    decreases a.len(),
{
    if a.len() == 0 {
        true
    } else if b.len() == 0 {
        false
    } else if a[0] != b[0] {
        a[0] < b[0]
    } else {
        chars_le(a.drop_first(), b.drop_first())
    }
}

/// The order of component kinds: root, current directory, parent, name.
pub open spec fn comp_rank(c: Comp) -> int {
    match c {
        Comp::Root => 0,
        Comp::Cur => 1,
        Comp::Parent => 2,
        Comp::Normal(_) => 3,
    }
}

/// The order of components: by kind, then names by their text.
pub open spec fn comp_le(a: Comp, b: Comp) -> bool {
    if comp_rank(a) != comp_rank(b) {
        comp_rank(a) < comp_rank(b)
    } else {
        match (a, b) {
            (Comp::Normal(x), Comp::Normal(y)) => chars_le(x, y),
            _ => true,
        }
    }
}

/// The order of paths, as `Path`'s `Ord` compares them: lexicographically by
/// component, a prefix first.
pub open spec fn comps_le(a: Seq<Comp>, b: Seq<Comp>) -> bool
    decreases a.len(),
{
    if a.len() == 0 {
        true
    } else if b.len() == 0 {
        false
    } else if a[0] != b[0] {
        comp_le(a[0], b[0])
    } else {
        comps_le(a.drop_first(), b.drop_first())
    }
}

/// Whether path `p` comes no later than path `q`.
pub open spec fn path_le(p: Seq<char>, q: Seq<char>) -> bool {
    comps_le(components(p), components(q))
}

proof fn lemma_chars_le_total(a: Seq<char>, b: Seq<char>)
    ensures
        chars_le(a, b) || chars_le(b, a),
        chars_le(a, b) && chars_le(b, a) ==> a == b,
    decreases a.len(),
{
    if a.len() > 0 && b.len() > 0 && a[0] == b[0] {
        lemma_chars_le_total(a.drop_first(), b.drop_first());
        if chars_le(a, b) && chars_le(b, a) {
            assert(a =~= seq![a[0]] + a.drop_first());
            assert(b =~= seq![b[0]] + b.drop_first());
        }
    }
}

proof fn lemma_chars_le_trans(a: Seq<char>, b: Seq<char>, c: Seq<char>)
    requires
        chars_le(a, b),
        chars_le(b, c),
    ensures
        chars_le(a, c),
    decreases a.len(),
{
    if a.len() > 0 && b.len() > 0 && c.len() > 0 && a[0] == b[0] && b[0] == c[0] {
        lemma_chars_le_trans(a.drop_first(), b.drop_first(), c.drop_first());
    }
}

proof fn lemma_comp_le_total(a: Comp, b: Comp)
    ensures
        comp_le(a, b) || comp_le(b, a),
        a != b ==> !(comp_le(a, b) && comp_le(b, a)),
{
    match (a, b) {
        (Comp::Normal(x), Comp::Normal(y)) => lemma_chars_le_total(x, y),
        _ => {},
    }
}

proof fn lemma_comp_le_trans(a: Comp, b: Comp, c: Comp)
    requires
        comp_le(a, b),
        comp_le(b, c),
    ensures
        comp_le(a, c),
{
    match (a, b, c) {
        (Comp::Normal(x), Comp::Normal(y), Comp::Normal(z)) => lemma_chars_le_trans(x, y, z),
        _ => {},
    }
}

/// Any two paths are ordered one way or the other.
pub proof fn lemma_comps_le_total(a: Seq<Comp>, b: Seq<Comp>)
    ensures
        comps_le(a, b) || comps_le(b, a),
    decreases a.len(),
{
    if a.len() > 0 && b.len() > 0 {
        if a[0] != b[0] {
            lemma_comp_le_total(a[0], b[0]);
        } else {
            lemma_comps_le_total(a.drop_first(), b.drop_first());
        }
    }
}

/// The order of paths is transitive.
pub proof fn lemma_comps_le_trans(a: Seq<Comp>, b: Seq<Comp>, c: Seq<Comp>)
    requires
        comps_le(a, b),
        comps_le(b, c),
    ensures
        comps_le(a, c),
    decreases a.len(),
{
    if a.len() > 0 && b.len() > 0 && c.len() > 0 {
        if a[0] == b[0] && b[0] == c[0] {
            lemma_comps_le_trans(a.drop_first(), b.drop_first(), c.drop_first());
        } else if a[0] == b[0] {
            // a[0] == b[0] != c[0]
        } else if b[0] == c[0] {
            // a[0] != b[0] == c[0]
        } else {
            lemma_comp_le_trans(a[0], b[0], c[0]);
            if a[0] == c[0] {
                lemma_comp_le_total(a[0], b[0]);
            }
        }
    }
}

fn chars_le_exec(a: &Vec<char>, b: &Vec<char>) -> (r: bool)
    ensures
        r == chars_le(a@, b@),
{
    let mut i: usize = 0;
    assert(a@.skip(0) =~= a@);
    assert(b@.skip(0) =~= b@);
    loop
        invariant
            i <= a@.len(),
            i <= b@.len(),
            chars_le(a@, b@) == chars_le(a@.skip(i as int), b@.skip(i as int)),
        decreases a@.len() - i,
    {
        if i == a.len() {
            return true;
        }
        if i == b.len() {
            return false;
        }
        if a[i] != b[i] {
            return a[i] < b[i];
        }
        assert(a@.skip(i as int).drop_first() =~= a@.skip(i + 1));
        assert(b@.skip(i as int).drop_first() =~= b@.skip(i + 1));
        i = i + 1;
    }
}

fn comp_rank_exec(c: &Component) -> (r: u8)
    ensures
        r as int == comp_rank(c@),
{
    match c {
        Component::RootDir => 0,
        Component::CurDir => 1,
        Component::ParentDir => 2,
        Component::Normal(_) => 3,
    }
}

fn comp_le_exec(a: &Component, b: &Component) -> (r: bool)
    ensures
        r == comp_le(a@, b@),
{
    let ra = comp_rank_exec(a);
    let rb = comp_rank_exec(b);
    if ra != rb {
        return ra < rb;
    }
    match a {
        Component::Normal(x) => match b {
            Component::Normal(y) => {
                let cx = chars_of(x.as_str());
                let cy = chars_of(y.as_str());
                chars_le_exec(&cx, &cy)
            },
            _ => true,
        },
        _ => true,
    }
}

fn comps_le_exec(a: &Vec<Component>, b: &Vec<Component>) -> (r: bool)
    ensures
        r == comps_le(view_comps(a@), view_comps(b@)),
{
    let ghost va = view_comps(a@);
    let ghost vb = view_comps(b@);
    let mut i: usize = 0;
    assert(va.skip(0) =~= va);
    assert(vb.skip(0) =~= vb);
    loop
        invariant
            va == view_comps(a@),
            vb == view_comps(b@),
            i <= a@.len(),
            i <= b@.len(),
            comps_le(va, vb) == comps_le(va.skip(i as int), vb.skip(i as int)),
        decreases a@.len() - i,
    {
        if i == a.len() {
            return true;
        }
        if i == b.len() {
            return false;
        }
        assert(va.skip(i as int)[0] == a@[i as int]@);
        assert(vb.skip(i as int)[0] == b@[i as int]@);
        if !component_eq(&a[i], &b[i]) {
            return comp_le_exec(&a[i], &b[i]);
        }
        assert(va.skip(i as int).drop_first() =~= va.skip(i + 1));
        assert(vb.skip(i as int).drop_first() =~= vb.skip(i + 1));
        i = i + 1;
    }
}

/// Whether a found file is converted: a supported raw file outside the output
/// root.
pub open spec fn keeps(path: Seq<char>, out_root: Seq<char>) -> bool {
    supported_raw(components(path)) && !starts_with(components(path), components(out_root))
}

/// The texts of a list of paths.
pub open spec fn views(v: Seq<String>) -> Seq<Seq<char>> {
    Seq::new(v.len(), |i: int| v[i]@)
}

/// Whether paths are in order.
pub open spec fn in_path_order(s: Seq<Seq<char>>) -> bool {
    forall|i: int, j: int| 0 <= i < j < s.len() ==> path_le(#[trigger] s[i], #[trigger] s[j])
}

/// The files worth converting among `found`, the regular files a walk of a
/// dropped folder produced: every supported raw file not inside `out_root`, each
/// as often as it was found, sorted so a batch runs in a predictable order.
pub fn select_raw_files(found: &Vec<String>, out_root: &str) -> (r: Vec<String>)
    ensures
        in_path_order(views(r@)),
        views(r@).to_multiset() == views(found@).filter(|p: Seq<char>| keeps(p, out_root@)).to_multiset(),
{
    broadcast use group_to_multiset_ensures;

    let ghost keep = |p: Seq<char>| keeps(p, out_root@);
    let n = found.len();
    let mut r: Vec<String> = Vec::new();
    let mut keys: Vec<Vec<Component>> = Vec::new();
    let mut i: usize = 0;
    assert(views(found@).take(0).filter(keep) =~= Seq::<Seq<char>>::empty()) by {
        reveal_with_fuel(Seq::filter, 1);
    }
    while i < n
        invariant
            n == found@.len(),
            i <= n,
            keep == (|p: Seq<char>| keeps(p, out_root@)),
            keys@.len() == r@.len(),
            forall|k: int| 0 <= k < r@.len() ==> view_comps(#[trigger] keys@[k]@) == components(r@[k]@),
            in_path_order(views(r@)),
            views(r@).to_multiset() == views(found@).take(i as int).filter(keep).to_multiset(),
        decreases n - i,
    {
        let ghost before = views(r@);
        let ghost x = found@[i as int]@;
        assert(views(found@).take(i + 1).drop_last() =~= views(found@).take(i as int));
        assert(views(found@).take(i + 1).last() == x);
        assert(views(found@).take(i + 1).filter(keep) == if keep(x) {
            views(found@).take(i as int).filter(keep).push(x)
        } else {
            views(found@).take(i as int).filter(keep)
        }) by {
            reveal_with_fuel(Seq::filter, 1);
        }
        let p = &found[i];
        assert(keep(x) == keeps(x, out_root@));
        let ghost prev_filter = views(found@).take(i as int).filter(keep);
        if is_supported_raw(p.as_str()) && !is_within(p.as_str(), out_root) {
            let c = parse(p.as_str());
            let mut j: usize = 0;
            while j < r.len() && comps_le_exec(&keys[j], &c)
                invariant
                    j <= r@.len(),
                    keys@.len() == r@.len(),
                    forall|k: int| 0 <= k < j ==> comps_le(view_comps(#[trigger] keys@[k]@), view_comps(c@)),
                decreases r@.len() - j,
            {
                j = j + 1;
            }
            proof {
                let cv = view_comps(c@);
                assert(cv == components(x));
                if j < r@.len() {
                    lemma_comps_le_total(view_comps(keys@[j as int]@), cv);
                }
                assert forall|k: int| #![trigger before[k]] 0 <= k < before.len() implies (k < j ==> path_le(before[k], x))
                    && (k >= j ==> path_le(x, before[k])) by {
                    assert(view_comps(keys@[k]@) == components(r@[k]@));
                    assert(before[k] == r@[k]@);
                    if k < j {
                        assert(comps_le(view_comps(keys@[k]@), cv));
                    } else if k == j {
                        assert(view_comps(keys@[j as int]@) == components(before[j as int]));
                    } else {
                        assert(view_comps(keys@[j as int]@) == components(before[j as int]));
                        assert(path_le(before[j as int], before[k]));
                        lemma_comps_le_trans(cv, components(before[j as int]), components(before[k]));
                    }
                }
            }
            let ghost keys_before = keys@;
            r.insert(j, p.clone());
            keys.insert(j, c);
            proof {
                let after = views(r@);
                assert(after =~= before.insert(j as int, x));
                assert forall|a: int, b: int| 0 <= a < b < after.len() implies path_le(
                    #[trigger] after[a],
                    #[trigger] after[b],
                ) by {
                    assert(0 <= j <= before.len());
                    if a < j && b < j {
                        assert(after[a] == before[a] && after[b] == before[b]);
                        assert(path_le(before[a], before[b]));
                    } else if a < j && b == j {
                        assert(after[a] == before[a]);
                        assert(after[b] == x);
                        assert(path_le(before[a], x));
                    } else if a < j && b > j {
                        assert(after[a] == before[a] && after[b] == before[b - 1]);
                        assert(path_le(before[a], before[b - 1]));
                    } else if a == j {
                        assert(after[a] == x);
                        assert(after[b] == before[b - 1]);
                        assert(path_le(x, before[b - 1]));
                    } else {
                        assert(after[a] == before[a - 1] && after[b] == before[b - 1]);
                        assert(path_le(before[a - 1], before[b - 1]));
                    }
                }
                assert forall|k: int| 0 <= k < r@.len() implies view_comps(#[trigger] keys@[k]@)
                    == components(r@[k]@) by {
                    if k < j {
                    } else if k == j {
                    } else {
                        assert(keys@[k] == keys_before[k - 1]);
                    }
                }
                to_multiset_insert(before, j as int, x);
                to_multiset_build(prev_filter, x);
                assert(after.to_multiset() == before.to_multiset().insert(x));
                assert(prev_filter.push(x).to_multiset() == prev_filter.to_multiset().insert(x));
            }
        } else {
            assert(!keep(x));
        }
        i = i + 1;
    }
    assert(views(found@).take(n as int) =~= views(found@));
    r
}

} // verus!
