//! Deciding where a converted DNG is written.
//!
//! This is the only logic in the app that can quietly corrupt an archive by
//! writing to the wrong place, so it is kept free of GUI and I/O concerns.
//!
//! Paths are Unix paths held as text. Their meaning is their sequence of
//! components, read as `std::path::Path::components` reads them: a leading
//! `/` is the root, a leading `.` alone or before a `/` is the current
//! directory, empty pieces and other `.` pieces are dropped, `..` is the parent
//! directory and any other piece is a name. Results are written in canonical
//! form: components joined by single separators.

use vstd::prelude::*;

use crate::text::{ascii_lower, chars_of, concat3, eq_ignore_ascii_case, str_eq_ignore_ascii_case};

verus! {

/// One component of a path.
pub enum Comp {
    Root,
    Cur,
    Parent,
    Normal(Seq<char>),
}

// ---- reading a path -----------------------------------------------------
/// The index of the first `/` in `s`, or its length when there is none.
pub open spec fn first_slash(s: Seq<char>) -> nat
    decreases s.len(),
{
    if s.len() == 0 {
        0
    } else if s[0] == '/' {
        0
    } else {
        1 + first_slash(s.drop_first())
    }
}

proof fn lemma_first_slash(s: Seq<char>)
    ensures
        first_slash(s) <= s.len(),
        forall|j: int| 0 <= j < first_slash(s) ==> s[j] != '/',
        first_slash(s) < s.len() ==> s[first_slash(s) as int] == '/',
    decreases s.len(),
{
    if s.len() > 0 && s[0] != '/' {
        lemma_first_slash(s.drop_first());
        assert forall|j: int| 0 <= j < first_slash(s) implies s[j] != '/' by {
            if j > 0 {
                assert(s[j] == s.drop_first()[j - 1]);
            }
        }
    }
}

proof fn lemma_first_slash_at(s: Seq<char>, k: int)
    requires
        0 <= k <= s.len(),
        forall|j: int| 0 <= j < k ==> s[j] != '/',
        k == s.len() || s[k] == '/',
    ensures
        first_slash(s) == k,
    decreases s.len(),
{
    if s.len() > 0 && k > 0 {
        let t = s.drop_first();
        assert forall|j: int| 0 <= j < k - 1 implies t[j] != '/' by {
            assert(t[j] == s[j + 1]);
        }
        if k - 1 < t.len() {
            assert(t[k - 1] == s[k]);
        }
        lemma_first_slash_at(t, k - 1);
    }
}

/// The pieces of `s` between separators, empty ones included.
pub open spec fn pieces(s: Seq<char>) -> Seq<Seq<char>>
    decreases s.len(),
{
    let k = first_slash(s);
    if k >= s.len() {
        seq![s]
    } else {
        seq![s.subrange(0, k as int)] + pieces(s.subrange(k as int + 1, s.len() as int))
    }
}

/// What one piece contributes: nothing for an empty piece or `.`, the parent
/// for `..`, a name otherwise.
pub open spec fn piece_comps(p: Seq<char>) -> Seq<Comp> {
    if p.len() == 0 || p == seq!['.'] {
        seq![]
    } else if p == seq!['.', '.'] {
        seq![Comp::Parent]
    } else {
        seq![Comp::Normal(p)]
    }
}

/// The components the pieces contribute, in order.
pub open spec fn body(ps: Seq<Seq<char>>) -> Seq<Comp>
    decreases ps.len(),
{
    if ps.len() == 0 {
        seq![]
    } else {
        piece_comps(ps[0]) + body(ps.drop_first())
    }
}

/// The components of the path written as `s`.
pub open spec fn components(s: Seq<char>) -> Seq<Comp> {
    if s.len() > 0 && s[0] == '/' {
        seq![Comp::Root] + body(pieces(s.drop_first()))
    } else if s.len() > 0 && s[0] == '.' && (s.len() == 1 || s[1] == '/') {
        seq![Comp::Cur] + body(pieces(s.drop_first()))
    } else {
        body(pieces(s))
    }
}

/// A name component: not empty, not `.` or `..`, and free of separators.
pub open spec fn valid_name(n: Seq<char>) -> bool {
    &&& n.len() > 0
    &&& n != seq!['.']
    &&& n != seq!['.', '.']
    &&& forall|i: int| 0 <= i < n.len() ==> #[trigger] n[i] != '/'
}

/// A component that may stand anywhere but first: `..` or a name.
pub open spec fn is_body_comp(c: Comp) -> bool {
    match c {
        Comp::Parent => true,
        Comp::Normal(n) => valid_name(n),
        _ => false,
    }
}

/// Components as a path can have them: the root or the current directory only
/// first, every other component `..` or a valid name.
pub open spec fn well_formed(cs: Seq<Comp>) -> bool {
    forall|i: int|
        0 <= i < cs.len() ==> is_body_comp(#[trigger] cs[i]) || (i == 0 && (cs[i] is Root
            || cs[i] is Cur))
}

/// All components are `..` or valid names.
pub open spec fn all_body(cs: Seq<Comp>) -> bool {
    forall|i: int| 0 <= i < cs.len() ==> is_body_comp(#[trigger] cs[i])
}

proof fn lemma_body_cons(p: Seq<char>, rest: Seq<Seq<char>>)
    ensures
        body(seq![p] + rest) == piece_comps(p) + body(rest),
{
    assert((seq![p] + rest).drop_first() =~= rest);
    assert((seq![p] + rest)[0] == p);
}

proof fn lemma_pieces_no_slash(s: Seq<char>)
    ensures
        forall|k: int, j: int|
            0 <= k < pieces(s).len() && 0 <= j < pieces(s)[k].len() ==> #[trigger] pieces(s)[k][j]
                != '/',
    decreases s.len(),
{
    lemma_first_slash(s);
    let k0 = first_slash(s);
    if k0 < s.len() {
        let rest = s.subrange(k0 as int + 1, s.len() as int);
        lemma_pieces_no_slash(rest);
        let head = s.subrange(0, k0 as int);
        assert forall|k: int, j: int|
            0 <= k < pieces(s).len() && 0 <= j < pieces(s)[k].len() implies #[trigger] pieces(
            s,
        )[k][j] != '/' by {
            if k == 0 {
                assert(pieces(s)[0] == head);
                assert(head[j] == s[j]);
            } else {
                assert(pieces(s)[k] == pieces(rest)[k - 1]);
            }
        }
    }
}

proof fn lemma_body_all_body(ps: Seq<Seq<char>>)
    requires
        forall|k: int, j: int|
            0 <= k < ps.len() && 0 <= j < ps[k].len() ==> #[trigger] ps[k][j] != '/',
    ensures
        all_body(body(ps)),
    decreases ps.len(),
{
    if ps.len() > 0 {
        let rest = ps.drop_first();
        assert forall|k: int, j: int|
            0 <= k < rest.len() && 0 <= j < rest[k].len() implies #[trigger] rest[k][j] != '/' by {
            assert(rest[k] == ps[k + 1]);
        }
        lemma_body_all_body(rest);
        let p = ps[0];
        let pc = piece_comps(p);
        assert forall|i: int| 0 <= i < pc.len() implies is_body_comp(#[trigger] pc[i]) by {
            if !(p.len() == 0 || p == seq!['.']) && !(p == seq!['.', '.']) {
                assert forall|j: int| 0 <= j < p.len() implies #[trigger] p[j] != '/' by {
                    assert(ps[0][j] != '/');
                }
            }
        }
        let b = body(ps);
        assert forall|i: int| 0 <= i < b.len() implies is_body_comp(#[trigger] b[i]) by {
            if i < pc.len() {
                assert(b[i] == pc[i]);
            } else {
                assert(b[i] == body(rest)[i - pc.len()]);
            }
        }
    }
}

/// Every path's components are well formed.
pub proof fn lemma_components_well_formed(s: Seq<char>)
    ensures
        well_formed(components(s)),
{
    if s.len() > 0 && (s[0] == '/' || (s[0] == '.' && (s.len() == 1 || s[1] == '/'))) {
        lemma_pieces_no_slash(s.drop_first());
        lemma_body_all_body(pieces(s.drop_first()));
        let b = body(pieces(s.drop_first()));
        let c = components(s);
        assert forall|i: int| 0 <= i < c.len() implies is_body_comp(#[trigger] c[i]) || (i == 0 && (
        c[i] is Root || c[i] is Cur)) by {
            if i > 0 {
                assert(c[i] == b[i - 1]);
            }
        }
    } else {
        lemma_pieces_no_slash(s);
        lemma_body_all_body(pieces(s));
    }
}

// ---- writing a path -----------------------------------------------------
/// The text of one component.
pub open spec fn comp_text(c: Comp) -> Seq<char> {
    match c {
        Comp::Root => seq!['/'],
        Comp::Cur => seq!['.'],
        Comp::Parent => seq!['.', '.'],
        Comp::Normal(n) => n,
    }
}

/// The texts of `cs` joined by single separators.
pub open spec fn join_texts(cs: Seq<Comp>) -> Seq<char>
    decreases cs.len(),
{
    if cs.len() == 0 {
        seq![]
    } else if cs.len() == 1 {
        comp_text(cs[0])
    } else {
        comp_text(cs[0]) + seq!['/'] + join_texts(cs.drop_first())
    }
}

/// The canonical text of a path with components `cs`.
pub open spec fn render(cs: Seq<Comp>) -> Seq<char> {
    if cs.len() > 0 && cs[0] is Root {
        seq!['/'] + join_texts(cs.drop_first())
    } else {
        join_texts(cs)
    }
}

proof fn lemma_join_texts_push(xs: Seq<Comp>, y: Comp)
    requires
        xs.len() >= 1,
    ensures
        join_texts(xs.push(y)) == join_texts(xs) + seq!['/'] + comp_text(y),
    decreases xs.len(),
{
    let ys = xs.push(y);
    assert(ys[0] == xs[0]);
    if xs.len() == 1 {
        assert(ys.drop_first() =~= seq![y]);
        assert(join_texts(seq![y]) == comp_text(y));
        assert(join_texts(ys) == comp_text(xs[0]) + seq!['/'] + comp_text(y));
    } else {
        assert(ys.drop_first() =~= xs.drop_first().push(y));
        lemma_join_texts_push(xs.drop_first(), y);
        let a = comp_text(xs[0]);
        let m = join_texts(xs.drop_first());
        assert(join_texts(ys) == a + seq!['/'] + (m + seq!['/'] + comp_text(y)));
        assert(join_texts(xs) == a + seq!['/'] + m);
        assert(a + seq!['/'] + (m + seq!['/'] + comp_text(y)) =~= (a + seq!['/'] + m) + seq!['/']
            + comp_text(y));
    }
}

proof fn lemma_body_pieces_join(cs: Seq<Comp>)
    requires
        all_body(cs),
    ensures
        body(pieces(join_texts(cs))) == cs,
    decreases cs.len(),
{
    let s = join_texts(cs);
    if cs.len() == 0 {
        lemma_first_slash_at(s, 0);
        assert(pieces(s) == seq![s]);
        lemma_body_cons(s, seq![]);
        assert(body(seq![s]) =~= seq![]);
    } else {
        let t = comp_text(cs[0]);
        assert(is_body_comp(cs[0]));
        assert(forall|j: int| 0 <= j < t.len() ==> #[trigger] t[j] != '/');
        assert(piece_comps(t) == seq![cs[0]]) by {
            if cs[0] is Parent {
                assert(t == seq!['.', '.']);
            } else {
                assert(t.len() > 0);
            }
        }
        if cs.len() == 1 {
            lemma_first_slash_at(s, s.len() as int);
            assert(pieces(s) == seq![s]);
            lemma_body_cons(s, seq![]);
            assert(body(seq![s]) =~= piece_comps(s));
            assert(cs =~= seq![cs[0]]);
        } else {
            let rest = cs.drop_first();
            assert(all_body(rest)) by {
                assert forall|i: int| 0 <= i < rest.len() implies is_body_comp(#[trigger] rest[i]) by {
                    assert(rest[i] == cs[i + 1]);
                }
            }
            lemma_body_pieces_join(rest);
            let j = join_texts(rest);
            assert(s == t + seq!['/'] + j);
            assert forall|i: int| 0 <= i < t.len() implies s[i] != '/' by {
                assert(s[i] == t[i]);
            }
            assert(s[t.len() as int] == '/');
            lemma_first_slash_at(s, t.len() as int);
            assert(s.subrange(0, t.len() as int) =~= t);
            assert(s.subrange(t.len() as int + 1, s.len() as int) =~= j);
            assert(pieces(s) == seq![t] + pieces(j));
            lemma_body_cons(t, pieces(j));
            assert(cs =~= seq![cs[0]] + rest);
        }
    }
}

/// Reading back the canonical text of well-formed components gives them back.
pub proof fn lemma_render_roundtrip(cs: Seq<Comp>)
    requires
        well_formed(cs),
    ensures
        components(render(cs)) == cs,
{
    let s = render(cs);
    if cs.len() == 0 {
        lemma_body_pieces_join(cs);
    } else if cs[0] is Root {
        let rest = cs.drop_first();
        assert(all_body(rest)) by {
            assert forall|i: int| 0 <= i < rest.len() implies is_body_comp(#[trigger] rest[i]) by {
                assert(rest[i] == cs[i + 1]);
                assert(is_body_comp(cs[i + 1]) || i + 1 == 0);
            }
        }
        lemma_body_pieces_join(rest);
        assert(s.drop_first() =~= join_texts(rest));
        assert(cs =~= seq![Comp::Root] + rest);
    } else if cs[0] is Cur {
        let rest = cs.drop_first();
        assert(all_body(rest)) by {
            assert forall|i: int| 0 <= i < rest.len() implies is_body_comp(#[trigger] rest[i]) by {
                assert(rest[i] == cs[i + 1]);
                assert(is_body_comp(cs[i + 1]) || i + 1 == 0);
            }
        }
        if cs.len() == 1 {
            assert(s == seq!['.']);
            assert(s.drop_first() =~= Seq::<char>::empty());
            lemma_body_pieces_join(rest);
            assert(rest =~= Seq::<Comp>::empty());
            assert(cs =~= seq![Comp::Cur]);
        } else {
            let j = join_texts(rest);
            assert(s == seq!['.'] + seq!['/'] + j);
            let d = s.drop_first();
            assert(d =~= seq!['/'] + j);
            lemma_first_slash_at(d, 0);
            assert(d.subrange(0, 0) =~= Seq::<char>::empty());
            assert(d.subrange(1, d.len() as int) =~= j);
            assert(pieces(d) == seq![Seq::<char>::empty()] + pieces(j));
            lemma_body_cons(Seq::<char>::empty(), pieces(j));
            lemma_body_pieces_join(rest);
            assert(cs =~= seq![Comp::Cur] + rest);
        }
    } else {
        assert(all_body(cs)) by {
            assert forall|i: int| 0 <= i < cs.len() implies is_body_comp(#[trigger] cs[i]) by {
                assert(is_body_comp(cs[i]) || (i == 0 && (cs[i] is Root || cs[i] is Cur)));
            }
        }
        lemma_body_pieces_join(cs);
        let t = comp_text(cs[0]);
        assert(is_body_comp(cs[0]));
        if cs.len() > 1 {
            assert(s == t + seq!['/'] + join_texts(cs.drop_first()));
        }
        assert(s[0] == t[0]);
        if t[0] == '.' {
            if s.len() == 1 {
                assert(t.len() == 1);
                assert(t =~= seq!['.']);
            } else if t.len() == 1 {
                assert(t =~= seq!['.']);
            } else {
                assert(s[1] == t[1]);
                assert(t[1] != '/');
            }
        }
    }
}

// ---- components in executable code ------------------------------------------
/// One component of a path, as held by the library.
pub enum Component {
    RootDir,
    CurDir,
    ParentDir,
    Normal(String),
}

impl View for Component {
    type V = Comp;

    open spec fn view(&self) -> Comp {
        match self {
            Component::RootDir => Comp::Root,
            Component::CurDir => Comp::Cur,
            Component::ParentDir => Comp::Parent,
            Component::Normal(n) => Comp::Normal(n@),
        }
    }
}

/// What a vector of components holds.
pub open spec fn view_comps(v: Seq<Component>) -> Seq<Comp> {
    Seq::new(v.len(), |i: int| v[i]@)
}

fn copy_component(c: &Component) -> (r: Component)
    ensures
        r@ == c@,
{
    match c {
        Component::RootDir => Component::RootDir,
        Component::CurDir => Component::CurDir,
        Component::ParentDir => Component::ParentDir,
        Component::Normal(n) => Component::Normal(n.clone()),
    }
}

pub(crate) fn component_eq(a: &Component, b: &Component) -> (r: bool)
    ensures
        r == (a@ == b@),
{
    let ka = component_kind(a);
    let kb = component_kind(b);
    if ka != kb {
        return false;
    }
    match a {
        Component::Normal(x) => match b {
            Component::Normal(y) => x.eq(y),
            _ => false,
        },
        _ => true,
    }
}

fn component_kind(c: &Component) -> (k: u8)
    ensures
        k == 0 <==> c@ is Root,
        k == 1 <==> c@ is Cur,
        k == 2 <==> c@ is Parent,
        k == 3 <==> c@ is Normal,
{
    match c {
        Component::RootDir => 0,
        Component::CurDir => 1,
        Component::ParentDir => 2,
        Component::Normal(_) => 3,
    }
}

fn piece_component(chars: &Vec<char>, s: &str, from: usize, to: usize) -> (r: Option<Component>)
    requires
        from <= to <= chars@.len(),
        chars@ == s@,
    ensures
        piece_comps(s@.subrange(from as int, to as int)) == match r {
            Some(c) => seq![c@],
            None => Seq::<Comp>::empty(),
        },
{
    let ghost p = s@.subrange(from as int, to as int);
    if to == from {
        None
    } else if to - from == 1 && chars[from] == '.' {
        assert(p =~= seq!['.']);
        None
    } else if to - from == 2 && chars[from] == '.' && chars[from + 1] == '.' {
        assert(p =~= seq!['.', '.']);
        Some(Component::ParentDir)
    } else {
        assert(p.len() > 0);
        assert(p != seq!['.']) by {
            if p =~= seq!['.'] {
                assert(p[0] == chars@[from as int]);
            }
        }
        assert(p != seq!['.', '.']) by {
            if p =~= seq!['.', '.'] {
                assert(p[0] == chars@[from as int]);
                assert(p[1] == chars@[from + 1]);
            }
        }
        let piece = s.substring_char(from, to);
        Some(Component::Normal(String::from_str(piece)))
    }
}

fn push_piece(out: &mut Vec<Component>, c: Option<Component>)
    ensures
        view_comps(final(out)@) == view_comps(old(out)@) + match c {
            Some(x) => seq![x@],
            None => Seq::<Comp>::empty(),
        },
{
    match c {
        Some(x) => {
            let ghost xv = x@;
            out.push(x);
            assert(view_comps(out@) =~= view_comps(old(out)@) + seq![xv]);
        },
        None => {
            assert(view_comps(out@) =~= view_comps(old(out)@) + Seq::<Comp>::empty());
        },
    }
}

/// The components of the path written as `s`.
pub fn parse(s: &str) -> (v: Vec<Component>)
    ensures
        view_comps(v@) == components(s@),
{
    let chars = chars_of(s);
    let n = chars.len();
    let mut out: Vec<Component> = Vec::new();
    let mut start: usize = 0;
    if n > 0 && chars[0] == '/' {
        out.push(Component::RootDir);
        start = 1;
        assert(view_comps(out@) =~= seq![Comp::Root]);
        assert(s@.drop_first() =~= s@.subrange(1, n as int));
    } else if n > 0 && chars[0] == '.' && (n == 1 || chars[1] == '/') {
        out.push(Component::CurDir);
        start = 1;
        assert(view_comps(out@) =~= seq![Comp::Cur]);
        assert(s@.drop_first() =~= s@.subrange(1, n as int));
    } else {
        assert(view_comps(out@) =~= Seq::<Comp>::empty());
        assert(s@.subrange(0, n as int) =~= s@);
    }
    let mut i: usize = start;
    while i < n
        invariant
            n == chars@.len(),
            chars@ == s@,
            start <= i <= n,
            forall|j: int| start <= j < i ==> chars@[j] != '/',
            components(s@) == view_comps(out@) + body(pieces(s@.subrange(start as int, n as int))),
        decreases n - i,
    {
        if chars[i] == '/' {
            let ghost sub = s@.subrange(start as int, n as int);
            let ghost k = i - start;
            proof {
                assert forall|j: int| 0 <= j < k implies sub[j] != '/' by {
                    assert(sub[j] == chars@[start + j]);
                }
                assert(sub[k] == chars@[i as int]);
                lemma_first_slash_at(sub, k);
                assert(sub.subrange(0, k) =~= s@.subrange(start as int, i as int));
                assert(sub.subrange(k + 1, sub.len() as int) =~= s@.subrange(i + 1, n as int));
                assert(pieces(sub) == seq![s@.subrange(start as int, i as int)] + pieces(
                    s@.subrange(i + 1, n as int),
                ));
                lemma_body_cons(s@.subrange(start as int, i as int), pieces(s@.subrange(i + 1, n as int)));
            }
            let c = piece_component(&chars, s, start, i);
            push_piece(&mut out, c);
            start = i + 1;
        }
        i = i + 1;
    }
    let ghost sub = s@.subrange(start as int, n as int);
    proof {
        assert forall|j: int| 0 <= j < sub.len() implies sub[j] != '/' by {
            assert(sub[j] == chars@[start + j]);
        }
        lemma_first_slash_at(sub, sub.len() as int);
        assert(pieces(sub) == seq![sub]);
        lemma_body_cons(sub, seq![]);
        assert(body(seq![sub]) =~= piece_comps(sub));
    }
    let c = piece_component(&chars, s, start, n);
    push_piece(&mut out, c);
    out
}

fn component_text(c: &Component) -> (r: &str)
    ensures
        r@ == comp_text(c@),
{
    match c {
        Component::RootDir => {
            proof { reveal_strlit("/"); }
            "/"
        },
        Component::CurDir => {
            proof { reveal_strlit("."); }
            "."
        },
        Component::ParentDir => {
            proof { reveal_strlit(".."); }
            ".."
        },
        Component::Normal(n) => n.as_str(),
    }
}

/// The canonical text of the path with components `v`.
pub fn render_exec(v: &Vec<Component>) -> (s: String)
    ensures
        s@ == render(view_comps(v@)),
{
    let ghost cs = view_comps(v@);
    let n = v.len();
    let mut out = String::new();
    let mut first: usize = 0;
    if n > 0 {
        match &v[0] {
            Component::RootDir => {
                out = String::from_str("/");
                proof { reveal_strlit("/"); }
                first = 1;
            },
            _ => {},
        }
    }
    let ghost prefix = out@;
    assert(prefix == if cs.len() > 0 && cs[0] is Root { seq!['/'] } else { Seq::<char>::empty() });
    let mut i: usize = first;
    while i < n
        invariant
            n == v@.len(),
            cs == view_comps(v@),
            first <= i <= n,
            first <= 1,
            first == 1 <==> (cs.len() > 0 && cs[0] is Root),
            prefix == if first == 1 { seq!['/'] } else { Seq::<char>::empty() },
            out@ == prefix + join_texts(cs.subrange(first as int, i as int)),
        decreases n - i,
    {
        let ghost before = cs.subrange(first as int, i as int);
        let ghost after = cs.subrange(first as int, i + 1);
        assert(after =~= before.push(cs[i as int]));
        if i > first {
            out.append("/");
            proof {
                reveal_strlit("/");
                lemma_join_texts_push(before, cs[i as int]);
            }
        } else {
            assert(after =~= seq![cs[i as int]]);
        }
        let t = component_text(&v[i]);
        out.append(t);
        i = i + 1;
    }
    proof {
        if first == 1 {
            assert(cs.subrange(1, n as int) =~= cs.drop_first());
        } else {
            assert(cs.subrange(0, n as int) =~= cs);
        }
    }
    out
}

// ---- operations on components ----------------------------------------------
/// The last component, when it is a name.
pub open spec fn file_name(cs: Seq<Comp>) -> Option<Seq<char>> {
    if cs.len() > 0 {
        match cs.last() {
            Comp::Normal(n) => Some(n),
            _ => None,
        }
    } else {
        None
    }
}

/// Everything but the last component, unless the path is empty or only the root.
pub open spec fn parent(cs: Seq<Comp>) -> Option<Seq<Comp>> {
    if cs.len() > 0 && !(cs.last() is Root) {
        Some(cs.drop_last())
    } else {
        None
    }
}

/// Whether `prefix` is a leading run of whole components of `cs`.
pub open spec fn starts_with(cs: Seq<Comp>, prefix: Seq<Comp>) -> bool {
    &&& prefix.len() <= cs.len()
    &&& forall|i: int| 0 <= i < prefix.len() ==> #[trigger] cs[i] == prefix[i]
}

/// What remains of `cs` after `prefix`, when `cs` starts with it.
pub open spec fn strip_prefix(cs: Seq<Comp>, prefix: Seq<Comp>) -> Option<Seq<Comp>> {
    if starts_with(cs, prefix) {
        Some(cs.subrange(prefix.len() as int, cs.len() as int))
    } else {
        None
    }
}

/// `cs` without a leading current-directory component.
pub open spec fn strip_cur(cs: Seq<Comp>) -> Seq<Comp> {
    if cs.len() > 0 && cs[0] is Cur {
        cs.drop_first()
    } else {
        cs
    }
}

/// `b` appended to `a`, as `Path::join` does: an absolute `b` replaces `a`.
pub open spec fn join(a: Seq<Comp>, b: Seq<Comp>) -> Seq<Comp> {
    if b.len() > 0 && b[0] is Root {
        b
    } else if a.len() == 0 {
        b
    } else {
        a + strip_cur(b)
    }
}

/// The index of the last `.` in `n`, or -1 when there is none.
pub open spec fn last_dot(n: Seq<char>) -> int
    decreases n.len(),
{
    if n.len() == 0 {
        -1
    } else if n.last() == '.' {
        n.len() - 1
    } else {
        last_dot(n.drop_last())
    }
}

proof fn lemma_last_dot(n: Seq<char>)
    ensures
        -1 <= last_dot(n) < n.len(),
        last_dot(n) >= 0 ==> n[last_dot(n)] == '.',
        forall|j: int| last_dot(n) < j < n.len() ==> n[j] != '.',
    decreases n.len(),
{
    if n.len() > 0 && n.last() != '.' {
        lemma_last_dot(n.drop_last());
        assert forall|j: int| last_dot(n) < j < n.len() implies n[j] != '.' by {
            if j < n.len() - 1 {
                assert(n[j] == n.drop_last()[j]);
            }
        }
    }
}

/// A name without its extension, as `Path::file_stem` gives it: a name whose
/// only dot leads it has no extension.
pub open spec fn stem(n: Seq<char>) -> Seq<char> {
    if n == seq!['.', '.'] {
        n
    } else if last_dot(n) <= 0 {
        n
    } else {
        n.subrange(0, last_dot(n))
    }
}

/// The extension of a name, as `Path::extension` gives it.
pub open spec fn extension(n: Seq<char>) -> Option<Seq<char>> {
    if n == seq!['.', '.'] {
        None
    } else if last_dot(n) <= 0 {
        None
    } else {
        Some(n.subrange(last_dot(n) + 1, n.len() as int))
    }
}

/// The path with the extension of its last name replaced by `ext`, as
/// `Path::with_extension` does with a non-empty `ext`; unchanged when the path
/// does not end in a name.
pub open spec fn with_extension(cs: Seq<Comp>, ext: Seq<char>) -> Seq<Comp> {
    match file_name(cs) {
        Some(n) => cs.drop_last().push(Comp::Normal(stem(n) + seq!['.'] + ext)),
        None => cs,
    }
}

pub open spec fn dng() -> Seq<char> {
    seq!['d', 'n', 'g']
}

pub open spec fn converted_dng() -> Seq<char> {
    seq!['c', 'o', 'n', 'v', 'e', 'r', 't', 'e', 'd', '.', 'd', 'n', 'g']
}

pub open spec fn output_dng() -> Seq<char> {
    seq!['o', 'u', 't', 'p', 'u', 't', '.', 'd', 'n', 'g']
}

pub open spec fn part_suffix() -> Seq<char> {
    seq!['.', 'p', 'a', 'r', 't']
}

fn copy_range(v: &Vec<Component>, from: usize, to: usize) -> (r: Vec<Component>)
    requires
        from <= to <= v@.len(),
    ensures
        view_comps(r@) == view_comps(v@).subrange(from as int, to as int),
{
    let mut out: Vec<Component> = Vec::new();
    let mut i: usize = from;
    while i < to
        invariant
            from <= i <= to <= v@.len(),
            out@.len() == i - from,
            forall|j: int| 0 <= j < out@.len() ==> #[trigger] out@[j]@ == v@[from + j]@,
        decreases to - i,
    {
        let c = copy_component(&v[i]);
        out.push(c);
        i = i + 1;
    }
    assert(view_comps(out@) =~= view_comps(v@).subrange(from as int, to as int));
    out
}

fn append_copies(out: &mut Vec<Component>, v: &Vec<Component>, from: usize)
    requires
        from <= v@.len(),
    ensures
        view_comps(final(out)@) == view_comps(old(out)@) + view_comps(v@).subrange(
            from as int,
            v@.len() as int,
        ),
{
    let n = v.len();
    let ghost start = old(out)@;
    let mut i: usize = from;
    while i < n
        invariant
            from <= i <= n == v@.len(),
            out@.len() == start.len() + (i - from),
            forall|j: int| 0 <= j < start.len() ==> #[trigger] out@[j]@ == start[j]@,
            forall|j: int|
                start.len() <= j < out@.len() ==> #[trigger] out@[j]@ == v@[from + j
                    - start.len()]@,
        decreases n - i,
    {
        let c = copy_component(&v[i]);
        out.push(c);
        i = i + 1;
    }
    assert(view_comps(out@) =~= view_comps(start) + view_comps(v@).subrange(
        from as int,
        v@.len() as int,
    ));
}

fn file_name_of(v: &Vec<Component>) -> (r: Option<String>)
    ensures
        match r {
            Some(n) => file_name(view_comps(v@)) == Some(n@),
            None => file_name(view_comps(v@)) is None,
        },
{
    let n = v.len();
    if n == 0 {
        return None;
    }
    match &v[n - 1] {
        Component::Normal(name) => Some(name.clone()),
        _ => None,
    }
}

fn parent_of(v: &Vec<Component>) -> (r: Option<Vec<Component>>)
    ensures
        match r {
            Some(p) => parent(view_comps(v@)) == Some(view_comps(p@)),
            None => parent(view_comps(v@)) is None,
        },
{
    let n = v.len();
    if n == 0 {
        return None;
    }
    match &v[n - 1] {
        Component::RootDir => None,
        _ => {
            let p = copy_range(v, 0, n - 1);
            assert(view_comps(v@).drop_last() =~= view_comps(v@).subrange(0, n - 1));
            Some(p)
        },
    }
}

fn starts_with_exec(v: &Vec<Component>, prefix: &Vec<Component>) -> (r: bool)
    ensures
        r == starts_with(view_comps(v@), view_comps(prefix@)),
{
    let n = prefix.len();
    if n > v.len() {
        return false;
    }
    let mut i: usize = 0;
    while i < n
        invariant
            n == prefix@.len(),
            n <= v@.len(),
            i <= n,
            forall|j: int| 0 <= j < i ==> #[trigger] v@[j]@ == prefix@[j]@,
        decreases n - i,
    {
        if !component_eq(&v[i], &prefix[i]) {
            assert(view_comps(v@)[i as int] != view_comps(prefix@)[i as int]);
            return false;
        }
        i = i + 1;
    }
    assert forall|j: int| 0 <= j < n implies #[trigger] view_comps(v@)[j] == view_comps(
        prefix@,
    )[j] by {
        assert(v@[j]@ == prefix@[j]@);
    }
    true
}

fn join_exec(a: &Vec<Component>, b: &Vec<Component>) -> (r: Vec<Component>)
    ensures
        view_comps(r@) == join(view_comps(a@), view_comps(b@)),
{
    let nb = b.len();
    if nb > 0 {
        match &b[0] {
            Component::RootDir => {
                let r = copy_range(b, 0, nb);
                assert(view_comps(b@).subrange(0, nb as int) =~= view_comps(b@));
                return r;
            },
            _ => {},
        }
    }
    if a.len() == 0 {
        let r = copy_range(b, 0, nb);
        assert(view_comps(b@).subrange(0, nb as int) =~= view_comps(b@));
        return r;
    }
    let skip: usize = if nb > 0 {
        match &b[0] {
            Component::CurDir => 1,
            _ => 0,
        }
    } else {
        0
    };
    let mut r = copy_range(a, 0, a.len());
    assert(view_comps(a@).subrange(0, a@.len() as int) =~= view_comps(a@));
    append_copies(&mut r, b, skip);
    proof {
        let vb = view_comps(b@);
        if skip == 1 {
            assert(vb.subrange(1, nb as int) =~= vb.drop_first());
        } else {
            assert(vb.subrange(0, nb as int) =~= vb);
        }
    }
    r
}

fn last_dot_exec(chars: &Vec<char>) -> (r: Option<usize>)
    ensures
        match r {
            Some(k) => last_dot(chars@) == k as int,
            None => last_dot(chars@) == -1,
        },
{
    let mut j: usize = chars.len();
    assert(chars@.subrange(0, j as int) =~= chars@);
    while j > 0
        invariant
            j <= chars@.len(),
            last_dot(chars@) == last_dot(chars@.subrange(0, j as int)),
        decreases j,
    {
        if chars[j - 1] == '.' {
            return Some(j - 1);
        }
        assert(chars@.subrange(0, j as int).drop_last() =~= chars@.subrange(0, j - 1));
        j = j - 1;
    }
    None
}

fn is_dot_dot(chars: &Vec<char>) -> (r: bool)
    ensures
        r == (chars@ == seq!['.', '.']),
{
    if chars.len() == 2 && chars[0] == '.' && chars[1] == '.' {
        assert(chars@ =~= seq!['.', '.']);
        true
    } else {
        false
    }
}

/// The stem of a name.
fn stem_string(name: &str) -> (r: String)
    ensures
        r@ == stem(name@),
{
    let chars = chars_of(name);
    if is_dot_dot(&chars) {
        return String::from_str(name);
    }
    proof {
        lemma_last_dot(name@);
    }
    match last_dot_exec(&chars) {
        Some(k) => {
            if k == 0 {
                String::from_str(name)
            } else {
                String::from_str(name.substring_char(0, k))
            }
        },
        None => String::from_str(name),
    }
}

/// The extension of a name.
fn extension_string(name: &str) -> (r: Option<String>)
    ensures
        match r {
            Some(e) => extension(name@) == Some(e@),
            None => extension(name@) is None,
        },
{
    let chars = chars_of(name);
    if is_dot_dot(&chars) {
        return None;
    }
    proof {
        lemma_last_dot(name@);
    }
    match last_dot_exec(&chars) {
        Some(k) => {
            if k == 0 {
                None
            } else {
                assert(chars@ == name@);
                assert(k < chars@.len());
                Some(String::from_str(name.substring_char(k + 1, chars.len())))
            }
        },
        None => None,
    }
}

fn with_extension_exec(path: Vec<Component>, ext: &str) -> (r: Vec<Component>)
    ensures
        view_comps(r@) == with_extension(view_comps(path@), ext@),
{
    let mut v = path;
    match file_name_of(&v) {
        Some(name) => {
            let ghost before = view_comps(v@);
            let st = stem_string(name.as_str());
            let new_name = concat3(st.as_str(), ".", ext);
            proof {
                reveal_strlit(".");
            }
            let ghost nv = new_name@;
            assert(nv == stem(name@) + seq!['.'] + ext@);
            v.pop();
            assert(view_comps(v@) =~= before.drop_last());
            v.push(Component::Normal(new_name));
            assert(view_comps(v@) =~= before.drop_last().push(Comp::Normal(nv)));
            v
        },
        None => v,
    }
}

// ---- the public operations ----------------------------------------------------
/// How a batch of files entered the queue.
///
/// A dropped *folder* mirrors its subtree beneath the output root; individually
/// chosen *files* land flat at the output root.
#[derive(Debug, Clone, PartialEq, Eq)]
pub enum AddSource {
    /// Files picked one by one. No structure to preserve.
    Files,
    /// A folder was added; `base` is the directory that relative paths are
    /// computed against.
    Folder { base: String },
}

/// How a file entered the queue, with the folder base as text.
pub enum AddSourceView {
    Files,
    Folder(Seq<char>),
}

impl View for AddSource {
    type V = AddSourceView;

    open spec fn view(&self) -> AddSourceView {
        match self {
            AddSource::Files => AddSourceView::Files,
            AddSource::Folder { base } => AddSourceView::Folder(base@),
        }
    }
}

/// The components relative paths are computed against, for a folder add.
pub open spec fn base_of(add: AddSourceView) -> Option<Seq<Comp>> {
    match add {
        AddSourceView::Files => None,
        AddSourceView::Folder(base) => Some(components(base)),
    }
}

/// Whether every component is a name: no root, `.` or `..`.
pub open spec fn all_names(cs: Seq<Comp>) -> bool {
    forall|i: int| 0 <= i < cs.len() ==> #[trigger] cs[i] is Normal
}

/// The part of `src` mirrored beneath the output root for a folder add: its
/// path relative to the base, when that is a non-empty run of names. A source
/// outside its base, equal to it, or reaching out of it with `..` has none.
pub open spec fn mirrored(src: Seq<Comp>, base: Option<Seq<Comp>>) -> Option<Seq<Comp>> {
    match base {
        Some(b) => match strip_prefix(src, b) {
            Some(r) => if r.len() > 0 && all_names(r) {
                Some(r)
            } else {
                None
            },
            None => None,
        },
        None => None,
    }
}

/// Where `src` is written beneath `out`: its path relative to the base of a
/// folder add, or else its bare file name, with the extension `dng`; a source
/// without a file name degrades to `converted.dng`.
pub open spec fn output_comps(src: Seq<Comp>, base: Option<Seq<Comp>>, out: Seq<Comp>) -> Seq<
    Comp,
> {
    let rel = mirrored(src, base);
    match rel {
        Some(r) => with_extension(join(out, r), dng()),
        None => match file_name(src) {
            Some(n) => with_extension(join(out, seq![Comp::Normal(n)]), dng()),
            None => join(out, seq![Comp::Normal(converted_dng())]),
        },
    }
}

/// The base of a dropped folder: its parent, or the folder itself when it has
/// none.
pub open spec fn folder_base(dropped: Seq<Comp>) -> Seq<Comp> {
    match parent(dropped) {
        Some(p) => p,
        None => dropped,
    }
}

/// The hidden name of the temporary file for a target with this file name.
pub open spec fn part_name(name: Option<Seq<char>>) -> Seq<char> {
    let n = match name {
        Some(n) => n,
        None => output_dng(),
    };
    seq!['.'] + n + part_suffix()
}

/// The temporary file beside `target`: `.NAME.part` in the target's directory.
pub open spec fn part_comps(target: Seq<Comp>) -> Seq<Comp> {
    let hidden = seq![Comp::Normal(part_name(file_name(target)))];
    match parent(target) {
        Some(dir) => join(dir, hidden),
        None => hidden,
    }
}

/// Whether a path names a Nikon raw file, by its extension `nef` or `nrw` in
/// any ASCII case.
pub open spec fn nikon_raw(cs: Seq<Comp>) -> bool {
    match file_name(cs) {
        Some(n) => match extension(n) {
            Some(e) => eq_ignore_ascii_case(e, seq!['n', 'e', 'f']) || eq_ignore_ascii_case(
                e,
                seq!['n', 'r', 'w'],
            ),
            None => false,
        },
        None => false,
    }
}

fn all_names_exec(v: &Vec<Component>) -> (r: bool)
    ensures
        r == all_names(view_comps(v@)),
{
    let mut i: usize = 0;
    while i < v.len()
        invariant
            i <= v@.len(),
            forall|j: int| 0 <= j < i ==> #[trigger] view_comps(v@)[j] is Normal,
        decreases v@.len() - i,
    {
        match &v[i] {
            Component::Normal(_) => {},
            _ => {
                assert(!(view_comps(v@)[i as int] is Normal));
                return false;
            },
        }
        i = i + 1;
    }
    true
}

/// Work out where `source` should be written beneath `out_root`.
pub fn output_path(source: &str, add: &AddSource, out_root: &str) -> (r: String)
    ensures
        r@ == render(output_comps(components(source@), base_of(add@), components(out_root@))),
{
    let src = parse(source);
    let out = parse(out_root);
    let ghost sc = components(source@);
    let ghost oc = components(out_root@);
    let ghost spec_rel = mirrored(sc, base_of(add@));
    let rel: Option<Vec<Component>> = match add {
        AddSource::Folder { base } => {
            let b = parse(base.as_str());
            if starts_with_exec(&src, &b) {
                let r = copy_range(&src, b.len(), src.len());
                if r.len() > 0 && all_names_exec(&r) {
                    Some(r)
                } else {
                    None
                }
            } else {
                None
            }
        },
        AddSource::Files => None,
    };
    assert(match rel {
        Some(r) => spec_rel == Some(view_comps(r@)),
        None => spec_rel is None,
    });
    let result = match rel {
        Some(r) => {
            let j = join_exec(&out, &r);
            proof { reveal_strlit("dng"); }
            assert("dng"@ =~= dng());
            with_extension_exec(j, "dng")
        },
        None => match file_name_of(&src) {
            Some(name) => {
                let mut one: Vec<Component> = Vec::new();
                let ghost nv = name@;
                one.push(Component::Normal(name));
                assert(view_comps(one@) =~= seq![Comp::Normal(nv)]);
                let j = join_exec(&out, &one);
                proof { reveal_strlit("dng"); }
                assert("dng"@ =~= dng());
                with_extension_exec(j, "dng")
            },
            None => {
                let mut one: Vec<Component> = Vec::new();
                proof { reveal_strlit("converted.dng"); }
                assert("converted.dng"@ =~= converted_dng());
                one.push(Component::Normal(String::from_str("converted.dng")));
                assert(view_comps(one@) =~= seq![Comp::Normal(converted_dng())]);
                join_exec(&out, &one)
            },
        },
    };
    assert(view_comps(result@) == output_comps(sc, base_of(add@), oc));
    render_exec(&result)
}

/// The base a dropped folder's contents are made relative to.
///
/// Dropping `~/Pictures/2026` should yield `<out>/2026/...`, so the folder's own
/// name must survive: the base is its *parent*, not the folder itself.
pub fn base_for_folder(dropped: &str) -> (r: String)
    ensures
        r@ == render(folder_base(components(dropped@))),
{
    let d = parse(dropped);
    match parent_of(&d) {
        Some(p) => render_exec(&p),
        None => render_exec(&d),
    }
}

/// Whether a path is a Nikon raw file (NEF or NRW), judged by extension.
pub fn is_nikon_raw(path: &str) -> (r: bool)
    ensures
        r == nikon_raw(components(path@)),
{
    let p = parse(path);
    match file_name_of(&p) {
        Some(name) => match extension_string(name.as_str()) {
            Some(ext) => {
                proof {
                    reveal_strlit("nef");
                    reveal_strlit("nrw");
                }
                let nef = str_eq_ignore_ascii_case(ext.as_str(), "nef");
                let nrw = str_eq_ignore_ascii_case(ext.as_str(), "nrw");
                assert("nef"@ =~= seq!['n', 'e', 'f']);
                assert("nrw"@ =~= seq!['n', 'r', 'w']);
                nef || nrw
            },
            None => false,
        },
        None => false,
    }
}

/// The file extensions the raw decoder supports, upper-case, as
/// `rawler::decoders::supported_extensions` lists them.
pub open spec fn raw_extensions() -> Seq<Seq<char>> {
    seq![
        "ARI"@, "ARW"@, "CR2"@, "CR3"@, "CRM"@, "CRW"@, "DCR"@, "DCS"@, "DNG"@, "ERF"@, "IIQ"@,
        "KDC"@, "MEF"@, "MOS"@, "MRW"@, "NEF"@, "NRW"@, "ORF"@, "ORI"@, "PEF"@, "RAF"@, "RAW"@,
        "RW2"@, "RWL"@, "SRW"@, "3FR"@, "FFF"@, "X3F"@, "QTK"@,
    ]
}

/// Whether an extension names a raw format the decoder supports, in any ASCII
/// case, other than DNG, which is what a conversion writes.
pub open spec fn raw_extension(e: Seq<char>) -> bool {
    &&& exists|i: int| 0 <= i < raw_extensions().len() && eq_ignore_ascii_case(e, #[trigger] raw_extensions()[i])
    &&& !eq_ignore_ascii_case(e, "DNG"@)
}

/// Whether a path names a raw file that can be converted, by its extension.
pub open spec fn supported_raw(cs: Seq<Comp>) -> bool {
    match file_name(cs) {
        Some(n) => match extension(n) {
            Some(e) => raw_extension(e),
            None => false,
        },
        None => false,
    }
}

/// Calls `rawler::decoders::supported_extensions`, which returns a fixed list
/// of the upper-case extensions of the formats the decoder reads.
#[verifier::external_body]
fn decoder_extensions() -> (v: Vec<&'static str>)
    ensures
        v@.len() == raw_extensions().len(),
        forall|i: int| 0 <= i < v@.len() ==> #[trigger] v@[i]@ == raw_extensions()[i],
{
    rawler::decoders::supported_extensions().to_vec()
}

/// Whether a path is a raw file we can convert, judged by extension: any
/// format the decoder supports, in any ASCII case, except DNG.
pub fn is_supported_raw(path: &str) -> (r: bool)
    ensures
        r == supported_raw(components(path@)),
{
    let p = parse(path);
    let name = match file_name_of(&p) {
        Some(n) => n,
        None => return false,
    };
    let ext = match extension_string(name.as_str()) {
        Some(e) => e,
        None => return false,
    };
    proof {
        reveal_strlit("DNG");
    }
    if str_eq_ignore_ascii_case(ext.as_str(), "DNG") {
        return false;
    }
    assert(supported_raw(components(path@)) == raw_extension(ext@));
    let known = decoder_extensions();
    let mut i: usize = 0;
    while i < known.len()
        invariant
            supported_raw(components(path@)) == raw_extension(ext@),
            !eq_ignore_ascii_case(ext@, "DNG"@),
            i <= known@.len(),
            known@.len() == raw_extensions().len(),
            forall|j: int| 0 <= j < known@.len() ==> #[trigger] known@[j]@ == raw_extensions()[j],
            forall|j: int| 0 <= j < i ==> !eq_ignore_ascii_case(ext@, #[trigger] raw_extensions()[j]),
        decreases known@.len() - i,
    {
        if str_eq_ignore_ascii_case(ext.as_str(), known[i]) {
            assert(eq_ignore_ascii_case(ext@, raw_extensions()[i as int]));
            return true;
        }
        i = i + 1;
    }
    false
}

/// The temporary file a conversion writes to before being renamed into place.
///
/// Writing `.NAME.part` and renaming on success means a crash, a cancel or a
/// full disk can never leave a truncated `.dng` that later passes for a good one.
pub fn part_path(final_path: &str) -> (r: String)
    ensures
        r@ == render(part_comps(components(final_path@))),
{
    let t = parse(final_path);
    let name = match file_name_of(&t) {
        Some(n) => n,
        None => String::from_str("output.dng"),
    };
    let hidden = concat3(".", name.as_str(), ".part");
    proof {
        reveal_strlit(".");
        reveal_strlit(".part");
        reveal_strlit("output.dng");
        assert(".part"@ =~= part_suffix());
        assert("output.dng"@ =~= output_dng());
        assert("."@ =~= seq!['.']);
        assert(hidden@ == part_name(file_name(view_comps(t@))));
    }
    let ghost hv = hidden@;
    let mut one: Vec<Component> = Vec::new();
    one.push(Component::Normal(hidden));
    assert(view_comps(one@) =~= seq![Comp::Normal(hv)]);
    let result = match parent_of(&t) {
        Some(dir) => join_exec(&dir, &one),
        None => one,
    };
    assert(view_comps(result@) == part_comps(components(final_path@)));
    render_exec(&result)
}

/// The directory a path lies in, as `Path::parent` gives it: none for an
/// empty path or the root alone.
pub fn parent_path(path: &str) -> (r: Option<String>)
    ensures
        match r {
            Some(d) => parent(components(path@)) matches Some(p) && d@ == render(p),
            None => parent(components(path@)) is None,
        },
{
    let p = parse(path);
    match parent_of(&p) {
        Some(d) => Some(render_exec(&d)),
        None => None,
    }
}

/// Whether `path` lies inside `root`, used to keep the output root out of source
/// folder walks so it can safely live inside the pictures tree.
///
/// Whole components are compared, so `DNG-old` is not inside `DNG`.
pub fn is_within(path: &str, root: &str) -> (r: bool)
    ensures
        r == starts_with(components(path@), components(root@)),
{
    let p = parse(path);
    let q = parse(root);
    starts_with_exec(&p, &q)
}

/// The name shown for a queued file: its file name, or `(unnamed)`.
pub fn display_name(source: &str) -> (r: String)
    ensures
        r@ == match file_name(components(source@)) {
            Some(n) => n,
            None => "(unnamed)"@,
        },
{
    let p = parse(source);
    match file_name_of(&p) {
        Some(n) => n,
        None => String::from_str("(unnamed)"),
    }
}

/// The add source a stored base text stands for: an empty base means the file
/// was chosen on its own.
pub open spec fn add_source_from_base(base: Seq<char>) -> AddSourceView {
    if base.len() == 0 {
        AddSourceView::Files
    } else {
        AddSourceView::Folder(base)
    }
}

/// The base text stored for an add source.
pub open spec fn base_text_of(add: AddSourceView) -> Seq<char> {
    match add {
        AddSourceView::Files => Seq::empty(),
        AddSourceView::Folder(base) => base,
    }
}

impl AddSource {
    /// How a row's path was derived, from the base text it stores, so the
    /// target can be recomputed when the output root changes.
    pub fn from_base(base: &str) -> (r: AddSource)
        ensures
            r@ == add_source_from_base(base@),
    {
        if base.unicode_len() == 0 {
            AddSource::Files
        } else {
            AddSource::Folder { base: String::from_str(base) }
        }
    }

    /// The base text a row stores: the folder base, or empty for files chosen
    /// on their own.
    pub fn base_text(&self) -> (r: String)
        ensures
            r@ == base_text_of(self@),
    {
        match self {
            AddSource::Files => String::new(),
            AddSource::Folder { base } => base.clone(),
        }
    }
}

// ---- laws -------------------------------------------------------------------
proof fn lemma_wf_append(o: Seq<Comp>, tail: Seq<Comp>)
    requires
        well_formed(o),
        all_body(tail),
    ensures
        well_formed(o + tail),
        starts_with(o + tail, o),
        components(render(o + tail)) == o + tail,
{
    let x = o + tail;
    assert forall|i: int| 0 <= i < x.len() implies is_body_comp(#[trigger] x[i]) || (i == 0 && (
    x[i] is Root || x[i] is Cur)) by {
        if i < o.len() {
            assert(x[i] == o[i]);
        } else {
            assert(x[i] == tail[i - o.len()]);
        }
    }
    assert forall|i: int| 0 <= i < o.len() implies #[trigger] x[i] == o[i] by {}
    lemma_render_roundtrip(x);
}

proof fn lemma_with_dng_valid(n: Seq<char>)
    requires
        valid_name(n),
    ensures
        valid_name(stem(n) + seq!['.'] + dng()),
{
    lemma_last_dot(n);
    let st = stem(n);
    let m = st + seq!['.'] + dng();
    assert forall|i: int| 0 <= i < st.len() implies #[trigger] st[i] != '/' by {
        if !(n == seq!['.', '.']) && last_dot(n) > 0 {
            assert(st[i] == n[i]);
        }
    }
    assert forall|i: int| 0 <= i < m.len() implies #[trigger] m[i] != '/' by {
        if i < st.len() {
            assert(m[i] == st[i]);
        }
    }
    assert(m.len() >= 4);
}

proof fn lemma_prefix_well_formed(cs: Seq<Comp>, k: int)
    requires
        well_formed(cs),
        0 <= k <= cs.len(),
    ensures
        well_formed(cs.subrange(0, k)),
{
    let p = cs.subrange(0, k);
    assert forall|i: int| 0 <= i < p.len() implies is_body_comp(#[trigger] p[i]) || (i == 0 && (
    p[i] is Root || p[i] is Cur)) by {
        assert(p[i] == cs[i]);
    }
}

proof fn lemma_last_name_valid(cs: Seq<Comp>)
    requires
        well_formed(cs),
        file_name(cs) is Some,
    ensures
        valid_name(file_name(cs)->0),
{
    let i = cs.len() - 1;
    assert(is_body_comp(cs[i]) || (i == 0 && (cs[i] is Root || cs[i] is Cur)));
}

/// A source is always written beneath the output root and never escapes it:
/// what follows the root is a non-empty run of names, with no `..`, `.` or
/// root among them.
pub proof fn law_output_stays_within_root(source: Seq<char>, add: AddSourceView, out_root: Seq<char>)
    ensures
        ({
            let o = components(out_root);
            let x = components(render(output_comps(components(source), base_of(add), o)));
            &&& starts_with(x, o)
            &&& x.len() > o.len()
            &&& forall|i: int| o.len() <= i < x.len() ==> #[trigger] x[i] is Normal
        }),
{
    let o = components(out_root);
    let tail = output_tail(source, add, out_root);
    assert forall|i: int| o.len() <= i < (o + tail).len() implies #[trigger] (o + tail)[i] is Normal by {
        assert((o + tail)[i] == tail[i - o.len()]);
    }
}

/// Files found beneath a dropped folder keep the folder's own name beneath the
/// output root: the source's path from that folder on is mirrored there, with
/// the extension `dng`.
pub proof fn law_dropped_folder_keeps_its_name(
    dropped: Seq<char>,
    source: Seq<char>,
    out_root: Seq<char>,
)
    requires
        file_name(components(dropped)) is Some,
        starts_with(components(source), components(dropped)),
        components(source).len() > components(dropped).len(),
        forall|i: int|
            components(dropped).len() <= i < components(source).len() ==> #[trigger] components(
                source,
            )[i] is Normal,
    ensures
        ({
            let d = components(dropped);
            let s = components(source);
            let o = components(out_root);
            let x = output_comps(s, Some(components(render(folder_base(d)))), o);
            &&& x == with_extension(o + s.subrange(d.len() - 1, s.len() as int), dng())
            &&& x[o.len() as int] == d.last()
        }),
{
    let d = components(dropped);
    let s = components(source);
    let o = components(out_root);
    lemma_components_well_formed(dropped);
    lemma_components_well_formed(source);
    let base = d.drop_last();
    assert(folder_base(d) == base);
    lemma_prefix_well_formed(d, d.len() - 1);
    assert(d.subrange(0, d.len() - 1) =~= base);
    lemma_render_roundtrip(base);
    assert(starts_with(s, base)) by {
        assert forall|i: int| 0 <= i < base.len() implies #[trigger] s[i] == base[i] by {
            assert(s[i] == d[i]);
        }
    }
    let r = s.subrange(d.len() - 1, s.len() as int);
    assert(strip_prefix(s, base) == Some(r));
    assert forall|i: int| 0 <= i < r.len() implies #[trigger] r[i] is Normal by {
        assert(r[i] == s[d.len() - 1 + i]);
        if i == 0 {
            assert(s[d.len() - 1] == d.last());
        }
    }
    assert(mirrored(s, Some(base)) == Some(r));
    assert(r[0] == s[d.len() - 1]);
    assert(r[0] == d.last());
    assert(r.len() >= 2);
    assert(join(o, r) =~= o + r);
    let j = o + r;
    assert(j[o.len() as int] == r[0]);
    match file_name(j) {
        Some(n) => {
            let x = j.drop_last().push(Comp::Normal(stem(n) + seq!['.'] + dng()));
            assert(x[o.len() as int] == j[o.len() as int]);
        },
        None => {},
    }
}

/// The temporary file of a target that ends in a file name sits in the
/// target's own directory, under the hidden name `.NAME.part`.
pub proof fn law_part_file_sits_beside_its_target(target: Seq<char>)
    requires
        file_name(components(target)) is Some,
    ensures
        ({
            let t = components(target);
            let p = components(render(part_comps(t)));
            &&& parent(p) == parent(t)
            &&& file_name(p) == Some(part_name(file_name(t)))
        }),
{
    let t = components(target);
    lemma_components_well_formed(target);
    lemma_last_name_valid(t);
    let n = file_name(t)->0;
    let h = part_name(Some(n));
    assert forall|i: int| 0 <= i < h.len() implies #[trigger] h[i] != '/' by {
        if 1 <= i < 1 + n.len() {
            assert(h[i] == n[i - 1]);
        }
    }
    assert(valid_name(h));
    let dir = t.drop_last();
    lemma_prefix_well_formed(t, t.len() - 1);
    assert(t.subrange(0, t.len() - 1) =~= dir);
    let one = seq![Comp::Normal(h)];
    assert(join(dir, one) =~= dir + one);
    assert(all_body(one));
    lemma_wf_append(dir, one);
    assert((dir + one).drop_last() =~= dir);
}

/// The temporary file is never the target itself.
pub proof fn law_part_file_is_not_its_target(target: Seq<char>)
    ensures
        components(render(part_comps(components(target)))) != components(target),
{
    let t = components(target);
    lemma_components_well_formed(target);
    let h = part_name(file_name(t));
    let nm = match file_name(t) {
        Some(n) => n,
        None => output_dng(),
    };
    if file_name(t) is Some {
        lemma_last_name_valid(t);
    }
    assert forall|i: int| 0 <= i < h.len() implies #[trigger] h[i] != '/' by {
        if 1 <= i < 1 + nm.len() {
            assert(h[i] == nm[i - 1]);
        }
    }
    assert(valid_name(h));
    let one = seq![Comp::Normal(h)];
    assert(all_body(one));
    let x = part_comps(t);
    match parent(t) {
        Some(dir) => {
            lemma_prefix_well_formed(t, t.len() - 1);
            assert(t.subrange(0, t.len() - 1) =~= dir);
            assert(join(dir, one) =~= dir + one);
            lemma_wf_append(dir, one);
        },
        None => {
            lemma_wf_append(Seq::empty(), one);
            assert(Seq::<Comp>::empty() + one =~= one);
        },
    }
    assert(x.last() == Comp::Normal(h));
    if x == t {
        match file_name(t) {
            Some(n) => {
                assert(h.len() == n.len() + 6);
            },
            None => {},
        }
    }
}

/// Every path lies within itself.
pub proof fn law_within_is_reflexive(path: Seq<char>)
    ensures
        starts_with(components(path), components(path)),
{
}

/// A path within a folder that lies within a root lies within that root.
pub proof fn law_within_is_transitive(a: Seq<char>, b: Seq<char>, c: Seq<char>)
    requires
        starts_with(components(a), components(b)),
        starts_with(components(b), components(c)),
    ensures
        starts_with(components(a), components(c)),
{
    let ca = components(a);
    let cb = components(b);
    let cc = components(c);
    assert forall|i: int| 0 <= i < cc.len() implies #[trigger] ca[i] == cc[i] by {
        assert(ca[i] == cb[i]);
        assert(cb[i] == cc[i]);
    }
}

/// The base text a row stores gives back how the row was added, for files and
/// for a folder with a non-empty base.
pub proof fn law_add_source_roundtrip(add: AddSourceView)
    requires
        add matches AddSourceView::Folder(base) ==> base.len() > 0,
    ensures
        add_source_from_base(base_text_of(add)) == add,
{
}

/// A name ending in `.dng` has no extension but `dng`.
proof fn lemma_dng_extension(st: Seq<char>)
    ensures
        extension(st + seq!['.'] + dng()) matches Some(e) ==> e == dng(),
{
    let m = st + seq!['.'] + dng();
    let m1 = m.drop_last();
    let m2 = m1.drop_last();
    let m3 = m2.drop_last();
    assert(m1 =~= st + seq!['.', 'd', 'n']);
    assert(m2 =~= st + seq!['.', 'd']);
    assert(m3 =~= st + seq!['.']);
    assert(m.last() == 'g' && m1.last() == 'n' && m2.last() == 'd' && m3.last() == '.');
    assert(last_dot(m3) == st.len());
    assert(last_dot(m2) == last_dot(m3));
    assert(last_dot(m1) == last_dot(m2));
    assert(last_dot(m) == last_dot(m1));
    if extension(m) is Some {
        assert(m.subrange(st.len() as int + 1, m.len() as int) =~= dng());
    }
}

/// No name ending in `dng` is taken for a raw file: neither `nef` nor `nrw`.
proof fn lemma_dng_is_not_raw(e: Seq<char>)
    requires
        e == dng(),
    ensures
        !eq_ignore_ascii_case(e, seq!['n', 'e', 'f']),
        !eq_ignore_ascii_case(e, seq!['n', 'r', 'w']),
{
    assert(ascii_lower(e[0]) != ascii_lower('n'));
}

/// What follows the output root in a target: a non-empty run of valid names,
/// the last of which ends in `.dng`.
proof fn output_tail(source: Seq<char>, add: AddSourceView, out_root: Seq<char>) -> (tail: Seq<Comp>)
    ensures
        output_comps(components(source), base_of(add), components(out_root)) == components(
            out_root,
        ) + tail,
        all_body(tail),
        all_names(tail),
        tail.len() > 0,
        components(render(components(out_root) + tail)) == components(out_root) + tail,
        tail.last() matches Comp::Normal(m) && exists|st: Seq<char>|
            m == #[trigger] (st + seq!['.'] + dng()),
{
    let sc = components(source);
    let oc = components(out_root);
    lemma_components_well_formed(source);
    lemma_components_well_formed(out_root);
    let tail: Seq<Comp> = match mirrored(sc, base_of(add)) {
        Some(r) => {
            let bc = base_of(add)->0;
            assert(r == sc.subrange(bc.len() as int, sc.len() as int));
            assert forall|i: int| 0 <= i < r.len() implies valid_name(r[i]->Normal_0) by {
                assert(r[i] == sc[bc.len() + i]);
                assert(is_body_comp(sc[bc.len() + i]) || bc.len() + i == 0);
            }
            assert(join(oc, r) =~= oc + r);
            let n = r.last()->Normal_0;
            assert(file_name(oc + r) == Some(n));
            lemma_with_dng_valid(n);
            let t = r.drop_last().push(Comp::Normal(stem(n) + seq!['.'] + dng()));
            assert((oc + r).drop_last().push(Comp::Normal(stem(n) + seq!['.'] + dng())) =~= oc + t);
            assert forall|i: int| 0 <= i < t.len() implies #[trigger] t[i] is Normal by {
                if i < r.len() - 1 {
                    assert(t[i] == r[i]);
                }
            }
            t
        },
        None => match file_name(sc) {
            Some(n) => {
                lemma_last_name_valid(sc);
                lemma_with_dng_valid(n);
                let one = seq![Comp::Normal(n)];
                assert(join(oc, one) =~= oc + one);
                let t = seq![Comp::Normal(stem(n) + seq!['.'] + dng())];
                assert((oc + one).drop_last().push(Comp::Normal(stem(n) + seq!['.'] + dng())) =~= oc
                    + t);
                t
            },
            None => {
                let t = seq![Comp::Normal(converted_dng())];
                assert(join(oc, t) =~= oc + t);
                assert(valid_name(converted_dng()));
                let st = seq!['c', 'o', 'n', 'v', 'e', 'r', 't', 'e', 'd'];
                assert(converted_dng() =~= st + seq!['.'] + dng());
                t
            },
        },
    };
    assert(all_body(tail));
    lemma_wf_append(oc, tail);
    tail
}

/// What a conversion writes is never itself taken for a raw file to convert,
/// so a DNG is never accepted as input: the target always ends in `.dng`.
pub proof fn law_target_is_never_a_raw_file(source: Seq<char>, add: AddSourceView, out_root: Seq<char>)
    ensures
        ({
            let x = components(render(output_comps(components(source), base_of(add), components(out_root))));
            &&& !supported_raw(x)
            &&& !nikon_raw(x)
        }),
{
    let oc = components(out_root);
    let tail = output_tail(source, add, out_root);
    let x = oc + tail;
    let m = tail.last()->Normal_0;
    let st = choose|st: Seq<char>| m == #[trigger] (st + seq!['.'] + dng());
    assert(x.last() == tail.last());
    assert(file_name(x) == Some(m));
    lemma_dng_extension(st);
    match extension(m) {
        Some(e) => {
            lemma_dng_is_not_raw(e);
            reveal_strlit("DNG");
            assert(ascii_lower(e[0]) == ascii_lower("DNG"@[0]));
            assert(ascii_lower(e[1]) == ascii_lower("DNG"@[1]));
            assert(ascii_lower(e[2]) == ascii_lower("DNG"@[2]));
            assert(eq_ignore_ascii_case(e, "DNG"@));
        },
        None => {},
    }
}

proof fn lemma_ignore_case_trans(a: Seq<char>, b: Seq<char>, c: Seq<char>)
    requires
        eq_ignore_ascii_case(a, b),
    ensures
        eq_ignore_ascii_case(a, c) == eq_ignore_ascii_case(b, c),
{
    if eq_ignore_ascii_case(a, c) {
        assert forall|i: int| 0 <= i < b.len() implies #[trigger] ascii_lower(b[i]) == ascii_lower(c[i]) by {
            assert(ascii_lower(a[i]) == ascii_lower(b[i]));
            assert(ascii_lower(a[i]) == ascii_lower(c[i]));
        }
    }
    if eq_ignore_ascii_case(b, c) {
        assert forall|i: int| 0 <= i < a.len() implies #[trigger] ascii_lower(a[i]) == ascii_lower(c[i]) by {
            assert(ascii_lower(a[i]) == ascii_lower(b[i]));
            assert(ascii_lower(b[i]) == ascii_lower(c[i]));
        }
    }
}

/// Whether a path is taken for a raw file depends on its extension only up to
/// ASCII case: two paths whose file names have extensions that differ only in
/// case are both taken, or both not.
pub proof fn law_extension_case_does_not_matter(p: Seq<char>, q: Seq<char>)
    requires
        file_name(components(p)) matches Some(a) && extension(a) matches Some(e1)
            && file_name(components(q)) matches Some(b) && extension(b) matches Some(e2)
            && eq_ignore_ascii_case(e1, e2),
    ensures
        nikon_raw(components(p)) == nikon_raw(components(q)),
        supported_raw(components(p)) == supported_raw(components(q)),
{
    let e1 = extension(file_name(components(p))->0)->0;
    let e2 = extension(file_name(components(q))->0)->0;
    lemma_ignore_case_trans(e1, e2, seq!['n', 'e', 'f']);
    lemma_ignore_case_trans(e1, e2, seq!['n', 'r', 'w']);
    lemma_ignore_case_trans(e1, e2, "DNG"@);
    assert forall|i: int| 0 <= i < raw_extensions().len() implies eq_ignore_ascii_case(
        e1,
        #[trigger] raw_extensions()[i],
    ) == eq_ignore_ascii_case(e2, raw_extensions()[i]) by {
        lemma_ignore_case_trans(e1, e2, raw_extensions()[i]);
    }
    if raw_extension(e1) {
        let i = choose|i: int| 0 <= i < raw_extensions().len() && eq_ignore_ascii_case(e1, #[trigger] raw_extensions()[i]);
        assert(eq_ignore_ascii_case(e2, raw_extensions()[i]));
    }
    if raw_extension(e2) {
        let i = choose|i: int| 0 <= i < raw_extensions().len() && eq_ignore_ascii_case(e2, #[trigger] raw_extensions()[i]);
        assert(eq_ignore_ascii_case(e1, raw_extensions()[i]));
    }
}

// ---- what a conversion may touch ------------------------------------------
/// Whether converting to `t` would touch the source `s`: the target, a
/// directory above it or its temporary file is the source itself.
pub open spec fn source_in_the_way(s: Seq<Comp>, t: Seq<Comp>) -> bool {
    starts_with(t, s) || s == part_comps(t)
}

/// The directories of target `t` below the first `missing` levels that did
/// not exist, innermost first: the target's directory, then its parent, and so
/// on, at most as many as the directory has components.
pub open spec fn created_dirs(t: Seq<Comp>, missing: nat) -> Seq<Seq<char>> {
    match parent(t) {
        Some(d) => Seq::new(
            if missing <= d.len() {
                missing
            } else {
                d.len()
            },
            |k: int| render(d.subrange(0, d.len() - k)),
        ),
        None => Seq::empty(),
    }
}

/// The temporary file of a target reads back as the components it was made
/// from.
#[verifier::spinoff_prover]
pub proof fn lemma_part_comps_roundtrip(t: Seq<Comp>)
    requires
        well_formed(t),
    ensures
        components(render(part_comps(t))) == part_comps(t),
{
    let h = part_name(file_name(t));
    let nm = match file_name(t) {
        Some(n) => n,
        None => output_dng(),
    };
    if file_name(t) is Some {
        lemma_last_name_valid(t);
    }
    assert(h == seq!['.'] + nm + part_suffix());
    assert(h.len() == nm.len() + 6);
    assert forall|i: int| 0 <= i < h.len() implies #[trigger] h[i] != '/' by {
        if i == 0 {
            assert(h[i] == '.');
        } else if i < 1 + nm.len() {
            assert(h[i] == nm[i - 1]);
        } else {
            assert(h[i] == part_suffix()[i - 1 - nm.len()]);
        }
    }
    assert(h != seq!['.'] && h != seq!['.', '.']);
    assert(valid_name(h));
    let one = seq![Comp::Normal(h)];
    assert(all_body(one));
    match parent(t) {
        Some(dir) => {
            lemma_prefix_well_formed(t, t.len() - 1);
            assert(t.subrange(0, t.len() - 1) =~= dir);
            assert(join(dir, one) =~= dir + one);
            lemma_wf_append(dir, one);
        },
        None => {
            lemma_wf_append(Seq::empty(), one);
            assert(Seq::<Comp>::empty() + one =~= one);
        },
    }
}

/// A prefix of a path's components reads back as itself.
pub proof fn lemma_prefix_roundtrip(t: Seq<Comp>, k: int)
    requires
        well_formed(t),
        0 <= k <= t.len(),
    ensures
        components(render(t.subrange(0, k))) == t.subrange(0, k),
{
    lemma_prefix_well_formed(t, k);
    lemma_render_roundtrip(t.subrange(0, k));
}

/// Whether converting `source` to `target` would touch the source.
pub fn source_in_the_way_exec(source: &str, target: &str) -> (r: bool)
    ensures
        r == source_in_the_way(components(source@), components(target@)),
{
    let s = parse(source);
    let t = parse(target);
    if starts_with_exec(&t, &s) {
        return true;
    }
    let pc = parse(part_path(target).as_str());
    proof {
        lemma_components_well_formed(target@);
        lemma_part_comps_roundtrip(components(target@));
    }
    if s.len() != pc.len() {
        return false;
    }
    let same = starts_with_exec(&s, &pc);
    if same {
        assert(view_comps(s@) =~= view_comps(pc@));
    }
    same
}

/// The directories a conversion to `target` created when `missing` levels of
/// its directory did not exist, innermost first.
pub fn created_dir_paths(target: &str, missing: usize) -> (r: Vec<String>)
    ensures
        r@.len() == created_dirs(components(target@), missing as nat).len(),
        forall|k: int| 0 <= k < r@.len() ==> #[trigger] r@[k]@ == created_dirs(components(target@), missing as nat)[k],
{
    let t = parse(target);
    let mut out: Vec<String> = Vec::new();
    match parent_of(&t) {
        Some(d) => {
            let n = if missing <= d.len() {
                missing
            } else {
                d.len()
            };
            let mut k: usize = 0;
            while k < n
                invariant
                    n <= d@.len(),
                    k <= n,
                    parent(view_comps(t@)) == Some(view_comps(d@)),
                    n == (if missing <= d@.len() { missing as int } else { d@.len() as int }),
                    out@.len() == k,
                    forall|j: int| 0 <= j < k ==> #[trigger] out@[j]@ == render(
                        view_comps(d@).subrange(0, d@.len() - j),
                    ),
                decreases n - k,
            {
                let prefix = copy_range(&d, 0, d.len() - k);
                out.push(render_exec(&prefix));
                k = k + 1;
            }
        },
        None => {},
    }
    out
}

/// A path is taken for a raw file exactly when its file name has an extension
/// that equals one of the decoder's extensions letter for letter, up to ASCII
/// case, and that is not `dng` in any case: same length, and every character
/// the same once lower-cased.
pub proof fn law_raw_file_means_a_decoder_extension(p: Seq<char>)
    ensures
        supported_raw(components(p)) <==> (file_name(components(p)) matches Some(n) && extension(n)
            matches Some(e) && (exists|i: int|
            #![trigger raw_extensions()[i]]
            0 <= i < raw_extensions().len() && e.len() == raw_extensions()[i].len() && forall|k: int|
                0 <= k < e.len() ==> #[trigger] ascii_lower(e[k]) == ascii_lower(
                    raw_extensions()[i][k],
                )) && !(e.len() == 3 && ascii_lower(e[0]) == ascii_lower('D') && ascii_lower(e[1])
            == ascii_lower('N') && ascii_lower(e[2]) == ascii_lower('G'))),
{
    reveal_strlit("DNG");
    match file_name(components(p)) {
        Some(n) => match extension(n) {
            Some(e) => {
                assert("DNG"@ =~= seq!['D', 'N', 'G']);
                if e.len() == 3 {
                    assert(eq_ignore_ascii_case(e, "DNG"@) <==> (ascii_lower(e[0]) == ascii_lower('D')
                        && ascii_lower(e[1]) == ascii_lower('N') && ascii_lower(e[2]) == ascii_lower(
                        'G',
                    )));
                }
                assert forall|i: int| 0 <= i < raw_extensions().len() implies eq_ignore_ascii_case(
                    e,
                    #[trigger] raw_extensions()[i],
                ) == (e.len() == raw_extensions()[i].len() && forall|k: int|
                    0 <= k < e.len() ==> #[trigger] ascii_lower(e[k]) == ascii_lower(
                        raw_extensions()[i][k],
                    )) by {}
            },
            None => {},
        },
        None => {},
    }
}

} // verus!
