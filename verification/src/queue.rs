//! What the queue admits and how the window labels it.

use vstd::prelude::*;

use crate::paths::{
    component_eq, components, parse, render, render_exec, starts_with, strip_prefix, view_comps,
    Comp, Component,
};
use crate::text::{decimal, decimal_string};

verus! {

/// The paths among `candidates` that join a queue already holding the paths
/// of `seen`, in order: each is admitted unless a path with the same components
/// is queued or was admitted before it.
pub open spec fn admitted(seen: Seq<Seq<Comp>>, candidates: Seq<Seq<char>>) -> Seq<int>
    decreases candidates.len(),
{
    if candidates.len() == 0 {
        seq![]
    } else {
        let c = components(candidates[0]);
        let rest = admitted(
            if seen.contains(c) {
                seen
            } else {
                seen.push(c)
            },
            candidates.drop_first(),
        ).map_values(|k: int| k + 1);
        if seen.contains(c) {
            rest
        } else {
            seq![0int] + rest
        }
    }
}

/// The texts of a list of paths.
pub open spec fn path_views(v: Seq<String>) -> Seq<Seq<char>> {
    Seq::new(v.len(), |i: int| v[i]@)
}

/// The components of a list of paths.
pub open spec fn path_components(v: Seq<Seq<char>>) -> Seq<Seq<Comp>> {
    Seq::new(v.len(), |i: int| components(v[i]))
}

fn comps_equal(a: &Vec<Component>, b: &Vec<Component>) -> (r: bool)
    ensures
        r == (view_comps(a@) == view_comps(b@)),
{
    if a.len() != b.len() {
        assert(view_comps(a@).len() != view_comps(b@).len());
        return false;
    }
    let n = a.len();
    let mut i: usize = 0;
    while i < n
        invariant
            n == a@.len(),
            n == b@.len(),
            i <= n,
            forall|j: int| 0 <= j < i ==> #[trigger] a@[j]@ == b@[j]@,
        decreases n - i,
    {
        if !component_eq(&a[i], &b[i]) {
            assert(view_comps(a@)[i as int] != view_comps(b@)[i as int]);
            return false;
        }
        i = i + 1;
    }
    assert(view_comps(a@) =~= view_comps(b@));
    true
}

fn contains_comps(seen: &Vec<Vec<Component>>, c: &Vec<Component>) -> (r: bool)
    ensures
        r == Seq::new(seen@.len(), |i: int| view_comps(seen@[i]@)).contains(view_comps(c@)),
{
    let ghost s = Seq::new(seen@.len(), |i: int| view_comps(seen@[i]@));
    let n = seen.len();
    let mut i: usize = 0;
    while i < n
        invariant
            n == seen@.len(),
            s == Seq::new(seen@.len(), |i: int| view_comps(seen@[i]@)),
            i <= n,
            forall|j: int| 0 <= j < i ==> #[trigger] s[j] != view_comps(c@),
        decreases n - i,
    {
        if comps_equal(&seen[i], c) {
            assert(s[i as int] == view_comps(c@));
            return true;
        }
        i = i + 1;
    }
    false
}

/// Which of `candidates` join a queue that already holds `queued`: the indices
/// of the admitted candidates, in order. A candidate is left out when a path
/// with the same components is already queued or was admitted before it.
pub fn queue_additions(queued: &Vec<String>, candidates: &Vec<String>) -> (r: Vec<usize>)
    ensures
        r@.map_values(|k: usize| k as int) == admitted(
            path_components(path_views(queued@)),
            path_views(candidates@),
        ),
{
    let mut seen: Vec<Vec<Component>> = Vec::new();
    let mut q: usize = 0;
    while q < queued.len()
        invariant
            q <= queued@.len(),
            seen@.len() == q,
            forall|j: int| 0 <= j < q ==> #[trigger] view_comps(seen@[j]@) == components(queued@[j]@),
        decreases queued@.len() - q,
    {
        seen.push(parse(queued[q].as_str()));
        q = q + 1;
    }
    let ghost cands = path_views(candidates@);
    let ghost seen0 = path_components(path_views(queued@));
    assert(Seq::new(seen@.len(), |i: int| view_comps(seen@[i]@)) =~= seen0);
    let mut out: Vec<usize> = Vec::new();
    let n = candidates.len();
    let mut i: usize = 0;
    assert(cands.skip(0) =~= cands);
    while i < n
        invariant
            n == candidates@.len(),
            cands == path_views(candidates@),
            i <= n,
            forall|k: int| 0 <= k < out@.len() ==> #[trigger] out@[k] < i,
            admitted(seen0, cands) == out@.map_values(|k: usize| k as int) + admitted(
                Seq::new(seen@.len(), |j: int| view_comps(seen@[j]@)),
                cands.skip(i as int),
            ).map_values(|k: int| k + i),
        decreases n - i,
    {
        let ghost sv = Seq::new(seen@.len(), |j: int| view_comps(seen@[j]@));
        let ghost tail = cands.skip(i as int);
        let c = parse(candidates[i].as_str());
        assert(tail[0] == candidates@[i as int]@);
        assert(tail.drop_first() =~= cands.skip(i + 1));
        let ghost next_seen = if sv.contains(view_comps(c@)) {
            sv
        } else {
            sv.push(view_comps(c@))
        };
        let ghost rest = admitted(next_seen, cands.skip(i + 1));
        let ghost shifted = rest.map_values(|k: int| k + 1);
        if contains_comps(&seen, &c) {
            proof {
                assert(admitted(sv, tail) == shifted);
                assert(shifted.map_values(|k: int| k + i) =~= rest.map_values(|k: int| k + (i + 1)));
            }
        } else {
            let ghost before = out@;
            out.push(i);
            seen.push(c);
            proof {
                assert(Seq::new(seen@.len(), |j: int| view_comps(seen@[j]@)) =~= next_seen);
                assert(admitted(sv, tail) == seq![0int] + shifted);
                assert((seq![0int] + shifted).map_values(|k: int| k + i) =~= seq![i as int] + rest.map_values(
                    |k: int| k + (i + 1),
                ));
                assert(out@.map_values(|k: usize| k as int) =~= before.map_values(|k: usize| k as int).push(
                    i as int,
                ));
            }
        }
        i = i + 1;
    }
    proof {
        let sv = Seq::new(seen@.len(), |j: int| view_comps(seen@[j]@));
        assert(cands.skip(n as int) =~= Seq::<Seq<char>>::empty());
        assert(admitted(sv, cands.skip(n as int)) =~= Seq::<int>::empty());
        assert(out@.map_values(|k: usize| k as int) + Seq::<int>::empty().map_values(|k: int| k + n)
            =~= out@.map_values(|k: usize| k as int));
    }
    out
}

/// The label of the output button's path: beneath `home` it is written from
/// `~/` on, elsewhere as it is.
pub open spec fn shortened(path: Seq<char>, home: Seq<char>) -> Seq<char> {
    match strip_prefix(components(path), components(home)) {
        Some(rest) => "~/"@ + render(rest),
        None => path,
    }
}

/// `/home/jens/Pictures/DNG` becomes `~/Pictures/DNG`, for a readable button
/// label.
pub fn shorten_home(path: &str, home: &str) -> (r: String)
    ensures
        r@ == shortened(path@, home@),
{
    let p = parse(path);
    let h = parse(home);
    let ghost pv = view_comps(p@);
    let ghost hv = view_comps(h@);
    let mut within = true;
    if h.len() > p.len() {
        within = false;
    } else {
        let mut i: usize = 0;
        while i < h.len()
            invariant
                h@.len() <= p@.len(),
                i <= h@.len(),
                within ==> forall|j: int| 0 <= j < i ==> #[trigger] p@[j]@ == h@[j]@,
                !within ==> !starts_with(pv, hv),
                pv == view_comps(p@),
                hv == view_comps(h@),
            decreases h@.len() - i,
        {
            if !component_eq(&p[i], &h[i]) {
                assert(pv[i as int] != hv[i as int]);
                within = false;
            }
            i = i + 1;
        }
    }
    if within {
        assert forall|j: int| 0 <= j < hv.len() implies #[trigger] pv[j] == hv[j] by {
            assert(p@[j]@ == h@[j]@);
        }
        let mut rest: Vec<Component> = Vec::new();
        let mut k: usize = h.len();
        while k < p.len()
            invariant
                h@.len() <= k <= p@.len(),
                rest@.len() == k - h@.len(),
                forall|j: int| 0 <= j < rest@.len() ==> #[trigger] rest@[j]@ == p@[h@.len() + j]@,
            decreases p@.len() - k,
        {
            let c = match &p[k] {
                Component::RootDir => Component::RootDir,
                Component::CurDir => Component::CurDir,
                Component::ParentDir => Component::ParentDir,
                Component::Normal(n) => Component::Normal(n.clone()),
            };
            rest.push(c);
            k = k + 1;
        }
        assert(view_comps(rest@) =~= pv.subrange(hv.len() as int, pv.len() as int));
        let text = render_exec(&rest);
        let mut out = String::from_str("~/");
        out.append(text.as_str());
        out
    } else {
        String::from_str(path)
    }
}

/// The label of the convert button: `Convert`, followed by how many files are
/// queued when there are any.
pub fn convert_button_label(queued: u32) -> (r: String)
    ensures
        r@ == if queued == 0 {
            "Convert"@
        } else {
            "Convert "@ + decimal(queued as nat)
        },
{
    if queued == 0 {
        String::from_str("Convert")
    } else {
        let mut s = String::from_str("Convert ");
        let n = decimal_string(queued as u64);
        s.append(n.as_str());
        s
    }
}

/// The total of `sizes`.
pub open spec fn total_bytes(sizes: Seq<u64>) -> int
    decreases sizes.len(),
{
    if sizes.len() == 0 {
        0
    } else {
        total_bytes(sizes.drop_last()) + sizes.last()
    }
}

proof fn lemma_total_grows(sizes: Seq<u64>, i: int)
    requires
        0 <= i <= sizes.len(),
    ensures
        total_bytes(sizes.subrange(0, i)) <= total_bytes(sizes),
    decreases sizes.len() - i,
{
    if i < sizes.len() {
        lemma_total_grows(sizes, i + 1);
        assert(sizes.subrange(0, i + 1).drop_last() =~= sizes.subrange(0, i));
    } else {
        assert(sizes.subrange(0, i) =~= sizes);
    }
}

/// Whether a batch fits on the output's file system before it starts: the
/// output is estimated at three quarters of the input, so there must be room
/// for three quarters of the total size of the queued files.
pub fn has_room_for(sizes: &Vec<u64>, free_bytes: u64) -> (r: bool)
    ensures
        r == (3 * total_bytes(sizes@) <= 4 * free_bytes),
{
    let limit: u128 = 4 * (free_bytes as u128);
    let mut total: u128 = 0;
    let mut i: usize = 0;
    while i < sizes.len()
        invariant
            i <= sizes@.len(),
            limit == 4 * free_bytes,
            total == total_bytes(sizes@.subrange(0, i as int)),
            3 * total <= limit,
        decreases sizes@.len() - i,
    {
        assert(sizes@.subrange(0, i + 1).drop_last() =~= sizes@.subrange(0, i as int));
        total = total + sizes[i] as u128;
        i = i + 1;
        if 3 * total > limit {
            proof {
                lemma_total_grows(sizes@, i as int);
            }
            return false;
        }
    }
    assert(sizes@.subrange(0, i as int) =~= sizes@);
    true
}

/// No file is queued twice: each admitted candidate is one of the candidates,
/// none has the components of a queued path, no two admitted candidates share
/// components, and they are admitted in the order given.
pub proof fn law_no_file_is_queued_twice(seen: Seq<Seq<Comp>>, candidates: Seq<Seq<char>>)
    ensures
        forall|i: int|
            0 <= i < admitted(seen, candidates).len() ==> {
                let k = #[trigger] admitted(seen, candidates)[i];
                &&& 0 <= k < candidates.len()
                &&& !seen.contains(components(candidates[k]))
            },
        forall|i: int, j: int|
            0 <= i < j < admitted(seen, candidates).len() ==> {
                &&& #[trigger] admitted(seen, candidates)[i] < #[trigger] admitted(seen, candidates)[j]
                &&& components(candidates[admitted(seen, candidates)[i]]) != components(
                    candidates[admitted(seen, candidates)[j]],
                )
            },
    decreases candidates.len(),
{
    if candidates.len() > 0 {
        let c = components(candidates[0]);
        let next = if seen.contains(c) {
            seen
        } else {
            seen.push(c)
        };
        let tail = candidates.drop_first();
        law_no_file_is_queued_twice(next, tail);
        let inner = admitted(next, tail);
        let rest = inner.map_values(|k: int| k + 1);
        let all = admitted(seen, candidates);
        assert forall|i: int| 0 <= i < inner.len() implies {
            &&& 0 <= #[trigger] inner[i] < tail.len()
            &&& !seen.contains(components(candidates[inner[i] + 1]))
            &&& components(candidates[inner[i] + 1]) != c || seen.contains(c)
        } by {
            let k = inner[i];
            assert(tail[k] == candidates[k + 1]);
            if !seen.contains(c) {
                assert(next == seen.push(c));
                if seen.contains(components(candidates[k + 1])) {
                    let w = choose|w: int| 0 <= w < seen.len() && seen[w] == components(candidates[k + 1]);
                    assert(next[w] == seen[w]);
                }
                assert(next[seen.len() as int] == c);
            }
        }
        if seen.contains(c) {
            assert(all == rest);
        } else {
            assert(all == seq![0int] + rest);
            assert forall|i: int| 0 <= i < all.len() implies {
                let k = #[trigger] all[i];
                &&& 0 <= k < candidates.len()
                &&& !seen.contains(components(candidates[k]))
            } by {
                if i > 0 {
                    assert(all[i] == inner[i - 1] + 1);
                }
            }
            assert forall|i: int, j: int| 0 <= i < j < all.len() implies {
                &&& #[trigger] all[i] < #[trigger] all[j]
                &&& components(candidates[all[i]]) != components(candidates[all[j]])
            } by {
                assert(all[j] == inner[j - 1] + 1);
                if i > 0 {
                    assert(all[i] == inner[i - 1] + 1);
                    assert(tail[inner[i - 1]] == candidates[all[i]]);
                    assert(tail[inner[j - 1]] == candidates[all[j]]);
                } else {
                    assert(all[i] == 0);
                }
            }
        }
        if seen.contains(c) {
            assert forall|i: int, j: int| 0 <= i < j < all.len() implies {
                &&& #[trigger] all[i] < #[trigger] all[j]
                &&& components(candidates[all[i]]) != components(candidates[all[j]])
            } by {
                assert(all[i] == inner[i] + 1);
                assert(all[j] == inner[j] + 1);
                assert(tail[inner[i]] == candidates[all[i]]);
                assert(tail[inner[j]] == candidates[all[j]]);
            }
            assert forall|i: int| 0 <= i < all.len() implies {
                let k = #[trigger] all[i];
                &&& 0 <= k < candidates.len()
                &&& !seen.contains(components(candidates[k]))
            } by {
                assert(all[i] == inner[i] + 1);
            }
        }
    }
}

/// Every file that is new is admitted: a candidate whose components differ
/// from every queued path and from every candidate before it joins the queue.
/// With `law_no_file_is_queued_twice`, the admitted candidates are exactly
/// the first occurrences of paths not yet queued.
pub proof fn law_every_new_file_is_admitted(
    seen: Seq<Seq<Comp>>,
    candidates: Seq<Seq<char>>,
    k: int,
)
    requires
        0 <= k < candidates.len(),
        !seen.contains(components(candidates[k])),
        forall|j: int| 0 <= j < k ==> components(#[trigger] candidates[j]) != components(
            candidates[k],
        ),
    ensures
        admitted(seen, candidates).contains(k),
    decreases candidates.len(),
{
    let c = components(candidates[0]);
    let next = if seen.contains(c) {
        seen
    } else {
        seen.push(c)
    };
    let tail = candidates.drop_first();
    let inner = admitted(next, tail);
    let all = admitted(seen, candidates);
    if k == 0 {
        assert(all == seq![0int] + inner.map_values(|x: int| x + 1));
        assert(all[0] == 0);
    } else {
        assert(tail[k - 1] == candidates[k]);
        assert(!next.contains(components(tail[k - 1]))) by {
            if next.contains(components(tail[k - 1])) {
                let w = choose|w: int| 0 <= w < next.len() && next[w] == components(tail[k - 1]);
                if !seen.contains(c) && w == seen.len() {
                    assert(components(candidates[0]) == components(candidates[k]));
                } else {
                    assert(next[w] == seen[w]);
                }
            }
        }
        assert forall|j: int| 0 <= j < k - 1 implies components(#[trigger] tail[j]) != components(
            tail[k - 1],
        ) by {
            assert(tail[j] == candidates[j + 1]);
        }
        law_every_new_file_is_admitted(next, tail, k - 1);
        let m = choose|m: int| 0 <= m < inner.len() && inner[m] == k - 1;
        let shifted = inner.map_values(|x: int| x + 1);
        assert(shifted[m] == k);
        if seen.contains(c) {
            assert(all == shifted);
            assert(all[m] == k);
        } else {
            assert(all == seq![0int] + shifted);
            assert(all[m + 1] == k);
        }
    }
}

/// Room is judged on the whole batch: adding a file never makes room appear,
/// more free space never takes it away, and an empty batch always fits.
pub proof fn law_room_grows_with_space_and_shrinks_with_files(
    sizes: Seq<u64>,
    extra: u64,
    free: u64,
    more_free: u64,
)
    requires
        free <= more_free,
    ensures
        total_bytes(sizes.push(extra)) == total_bytes(sizes) + extra,
        3 * total_bytes(sizes.push(extra)) <= 4 * free ==> 3 * total_bytes(sizes) <= 4 * free,
        3 * total_bytes(sizes) <= 4 * free ==> 3 * total_bytes(sizes) <= 4 * more_free,
        total_bytes(Seq::<u64>::empty()) == 0,
        total_bytes(sizes) >= 0,
    decreases sizes.len(),
{
    assert(sizes.push(extra).drop_last() =~= sizes);
    if sizes.len() > 0 {
        law_room_grows_with_space_and_shrinks_with_files(sizes.drop_last(), sizes.last(), free, more_free);
    }
}

} // verus!
