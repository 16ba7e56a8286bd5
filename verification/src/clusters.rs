//! Clusters of edge-touching cells in a list of cells.
//!
//! A cluster is a maximal group of listed cells that can be walked through one edge step at
//! a time without leaving the list. Clusters are reported in list order of their first cell.

use vstd::prelude::*;
use vstd::set_lib::*;
use crate::grid::adjacent;

verus! {

/// A listed cell as a pair of numbers.
pub open spec fn at(c: (i32, i32)) -> (int, int) {
    (c.0 as int, c.1 as int)
}

/// Listed cells `a` and `b` (by position in the list) share an edge.
pub open spec fn touching(cells: Seq<(i32, i32)>, a: int, b: int) -> bool {
    0 <= a < cells.len() && 0 <= b < cells.len() && adjacent(at(cells[a]), at(cells[b]))
}

/// `p` steps through positions of the list, each step to a cell sharing an edge with the one
/// before.
pub open spec fn is_chain(cells: Seq<(i32, i32)>, p: Seq<int>) -> bool {
    &&& p.len() >= 1
    &&& 0 <= p[0] < cells.len()
    &&& forall|k: int| #![trigger p[k]] 1 <= k < p.len() ==> touching(cells, p[k - 1], p[k])
}

/// Listed cells `a` and `b` lie in one cluster.
pub open spec fn linked(cells: Seq<(i32, i32)>, a: int, b: int) -> bool {
    exists|p: Seq<int>| #[trigger] is_chain(cells, p) && p[0] == a && p.last() == b
}

/// Position `r` holds the first listed cell of its cluster.
pub open spec fn leads(cells: Seq<(i32, i32)>, r: int) -> bool {
    &&& 0 <= r < cells.len()
    &&& forall|j: int| 0 <= j < r ==> !#[trigger] linked(cells, j, r)
}

/// `grp` is one whole cluster, led by its first entry and without repeats.
pub open spec fn is_cluster(cells: Seq<(i32, i32)>, grp: Seq<usize>) -> bool {
    &&& grp.len() >= 1
    &&& leads(cells, grp[0] as int)
    &&& grp.no_duplicates()
    &&& forall|i: int| 0 <= i < grp.len() ==> linked(cells, grp[0] as int, #[trigger] grp[i] as int)
    &&& forall|k: int|
        0 <= k < cells.len() && #[trigger] linked(cells, grp[0] as int, k) ==> grp.contains(
            k as usize,
        )
}

/// `groups` are all the clusters of `cells`, ordered by their first cells.
pub open spec fn is_clustering(cells: Seq<(i32, i32)>, groups: Seq<Seq<usize>>) -> bool {
    &&& forall|g: int| 0 <= g < groups.len() ==> is_cluster(cells, #[trigger] groups[g])
    &&& forall|g1: int, g2: int|
        0 <= g1 < g2 < groups.len() ==> (#[trigger] groups[g1])[0] < (#[trigger] groups[g2])[0]
    &&& forall|r: int| #[trigger] leads(cells, r) ==> exists|g: int| 0 <= g < groups.len() && (#[trigger] groups[g])[0] == r
}

/// The cells of a group of positions.
pub open spec fn cells_of(cells: Seq<(i32, i32)>, grp: Seq<usize>) -> Seq<(i32, i32)> {
    grp.map_values(|i: usize| cells[i as int])
}

/// Some position before `i` is linked to `k`.
spec fn covered(cells: Seq<(i32, i32)>, i: int, k: int) -> bool {
    exists|j: int| 0 <= j < i && #[trigger] linked(cells, j, k)
}

/// No marked position touches an unmarked one.
spec fn closed(cells: Seq<(i32, i32)>, m: Seq<bool>) -> bool {
    forall|a: int, b: int| #[trigger] touching(cells, a, b) && m[a] ==> m[b]
}

proof fn lemma_linked_self(cells: Seq<(i32, i32)>, a: int)
    requires
        0 <= a < cells.len(),
    ensures
        linked(cells, a, a),
{
    let p = seq![a];
    assert(is_chain(cells, p));
}

proof fn lemma_linked_step(cells: Seq<(i32, i32)>, a: int, b: int, c: int)
    requires
        linked(cells, a, b),
        touching(cells, b, c),
    ensures
        linked(cells, a, c),
{
    let p = choose|p: Seq<int>| #[trigger] is_chain(cells, p) && p[0] == a && p.last() == b;
    let q = p.push(c);
    assert forall|k: int| 1 <= k < q.len() implies touching(cells, q[k - 1], #[trigger] q[k]) by {
        if k < p.len() {
            assert(q[k] == p[k] && q[k - 1] == p[k - 1]);
        }
    }
    assert(is_chain(cells, q));
}

pub proof fn lemma_linked_inside(cells: Seq<(i32, i32)>, a: int, b: int)
    requires
        linked(cells, a, b),
    ensures
        0 <= a < cells.len(),
        0 <= b < cells.len(),
{
    let p = choose|p: Seq<int>| #[trigger] is_chain(cells, p) && p[0] == a && p.last() == b;
    if p.len() > 1 {
        assert(touching(cells, p[p.len() - 2], p[p.len() - 1]));
    }
}

/// A closed marking holds the end of every chain whose start it holds.
proof fn lemma_closed_forward(cells: Seq<(i32, i32)>, m: Seq<bool>, p: Seq<int>)
    requires
        closed(cells, m),
        is_chain(cells, p),
        m[p[0]],
    ensures
        m[p.last()],
    decreases p.len(),
{
    if p.len() > 1 {
        let q = p.drop_last();
        assert forall|k: int| 1 <= k < q.len() implies touching(cells, q[k - 1], #[trigger] q[k]) by {
            assert(q[k] == p[k] && q[k - 1] == p[k - 1]);
        }
        assert(is_chain(cells, q));
        lemma_closed_forward(cells, m, q);
        assert(touching(cells, p[p.len() - 2], p[p.len() - 1]));
    }
}

/// A closed marking holds the start of every chain whose end it holds.
proof fn lemma_closed_backward(cells: Seq<(i32, i32)>, m: Seq<bool>, p: Seq<int>)
    requires
        closed(cells, m),
        is_chain(cells, p),
        m[p.last()],
    ensures
        m[p[0]],
    decreases p.len(),
{
    if p.len() > 1 {
        let q = p.drop_last();
        assert forall|k: int| 1 <= k < q.len() implies touching(cells, q[k - 1], #[trigger] q[k]) by {
            assert(q[k] == p[k] && q[k - 1] == p[k - 1]);
        }
        assert(is_chain(cells, q));
        assert(touching(cells, p[p.len() - 2], p[p.len() - 1]));
        assert(touching(cells, p[p.len() - 1], p[p.len() - 2]));
        lemma_closed_backward(cells, m, q);
    }
}

/// A closed marking holds every position linked to a marked one.
proof fn lemma_closed_linked(cells: Seq<(i32, i32)>, m: Seq<bool>, a: int, b: int)
    requires
        closed(cells, m),
        linked(cells, a, b),
    ensures
        m[a] <==> m[b],
{
    let p = choose|p: Seq<int>| #[trigger] is_chain(cells, p) && p[0] == a && p.last() == b;
    if m[a] {
        lemma_closed_forward(cells, m, p);
    }
    if m[b] {
        lemma_closed_backward(cells, m, p);
    }
}

/// Distinct positions below `n` number at most `n`.
proof fn lemma_few_distinct(s: Seq<usize>, n: int)
    requires
        0 <= n,
        s.no_duplicates(),
        forall|i: int| 0 <= i < s.len() ==> (#[trigger] s[i]) < n,
    ensures
        s.len() <= n,
{
    let t = Seq::new(s.len(), |i: int| s[i] as int);
    assert(t.no_duplicates()) by {
        assert forall|i: int, j: int| 0 <= i < t.len() && 0 <= j < t.len() && i != j implies t[i]
            != t[j] by {
            assert(s[i] != s[j]);
        }
    }
    t.unique_seq_to_set();
    lemma_int_range(0, n);
    assert(t.to_set().subset_of(set_int_range(0, n)));
    lemma_len_subset(t.to_set(), set_int_range(0, n));
}

/// Do two cells share an edge?
pub fn touches(a: (i32, i32), b: (i32, i32)) -> (r: bool)
    ensures
        r == adjacent(at(a), at(b)),
{
    let dx: i64 = a.0 as i64 - b.0 as i64;
    let dy: i64 = a.1 as i64 - b.1 as i64;
    (dx == 0 && (dy == 1 || dy == -1)) || (dy == 0 && (dx == 1 || dx == -1))
}

/// Marks, from `start`, every position linked to it, and returns them, `start` first.
fn flood(cells: &Vec<(i32, i32)>, used: &mut Vec<bool>, start: usize) -> (grp: Vec<usize>)
    requires
        old(used)@.len() == cells@.len(),
        start < cells@.len(),
        !old(used)@[start as int],
        closed(cells@, old(used)@),
    ensures
        final(used)@.len() == cells@.len(),
        closed(cells@, final(used)@),
        forall|k: int|
            0 <= k < cells@.len() ==> (#[trigger] final(used)@[k] <==> (old(used)@[k] || linked(
                cells@,
                start as int,
                k,
            ))),
        grp@.len() >= 1,
        grp@[0] == start,
        grp@.no_duplicates(),
        forall|i: int| 0 <= i < grp@.len() ==> linked(cells@, start as int, #[trigger] grp@[i] as int),
        forall|k: int|
            0 <= k < cells@.len() && #[trigger] linked(cells@, start as int, k) ==> grp@.contains(
                k as usize,
            ),
{
    let n = cells.len();
    let ghost before = used@;
    used.set(start, true);
    let mut grp: Vec<usize> = Vec::new();
    grp.push(start);
    let mut stack: Vec<usize> = Vec::new();
    stack.push(start);
    proof {
        lemma_linked_self(cells@, start as int);
        assert(grp@[0] == start && stack@[0] == start);
        assert forall|a: int, b: int|
            #[trigger] touching(cells@, a, b) && used@[a] && !stack@.contains(a as usize) implies used@[b] by {
            if a == start as int {
                assert(stack@.contains(start));
            }
        }
    }
    while stack.len() > 0
        invariant
            n == cells@.len(),
            used@.len() == n,
            before.len() == n,
            start < n,
            !before[start as int],
            closed(cells@, before),
            grp@.len() >= 1,
            grp@[0] == start,
            grp@.no_duplicates(),
            stack@.no_duplicates(),
            forall|i: int|
                0 <= i < grp@.len() ==> (#[trigger] grp@[i]) < n && used@[grp@[i] as int]
                    && !before[grp@[i] as int] && linked(cells@, start as int, grp@[i] as int),
            forall|k: int| 0 <= k < n && before[k] ==> #[trigger] used@[k],
            forall|k: int| 0 <= k < n && #[trigger] used@[k] ==> before[k] || grp@.contains(k as usize),
            forall|i: int| 0 <= i < stack@.len() ==> grp@.contains(#[trigger] stack@[i]),
            forall|a: int, b: int|
                #[trigger] touching(cells@, a, b) && used@[a] && !stack@.contains(a as usize)
                    ==> used@[b],
        decreases 2 * (n - grp@.len()) + stack@.len(),
    {
        proof {
            lemma_few_distinct(grp@, n as int);
        }
        let ghost s_before = stack@;
        let j = stack.pop().unwrap();
        let ghost popped = stack@;
        let ghost g_start = grp@.len();
        assert(!popped.contains(j)) by {
            if popped.contains(j) {
                let i = choose|i: int| 0 <= i < popped.len() && popped[i] == j;
                assert(s_before[i] == s_before[s_before.len() - 1]);
            }
        }
        assert(grp@.contains(j)) by {
            assert(s_before[s_before.len() - 1] == j);
        }
        assert(forall|i: int| 0 <= i < stack@.len() ==> grp@.contains(#[trigger] stack@[i])) by {
            assert forall|i: int| 0 <= i < stack@.len() implies grp@.contains(#[trigger] stack@[i]) by {
                assert(stack@[i] == s_before[i]);
            }
        }
        assert forall|a: int, b: int|
            #[trigger] touching(cells@, a, b) && used@[a] && !stack@.contains(a as usize) && a != j
                implies used@[b] by {
            if s_before.contains(a as usize) {
                let m = choose|m: int| 0 <= m < s_before.len() && s_before[m] == a as usize;
                if m < popped.len() {
                    assert(stack@[m] == a as usize);
                }
            }
        }
        let mut k: usize = 0;
        while k < n
            invariant
                n == cells@.len(),
                used@.len() == n,
                before.len() == n,
                start < n,
                !before[start as int],
                closed(cells@, before),
                j < n,
                used@[j as int],
                linked(cells@, start as int, j as int),
                !stack@.contains(j),
                0 <= k <= n,
                grp@.len() >= 1,
                grp@[0] == start,
                grp@.no_duplicates(),
                stack@.no_duplicates(),
                grp@.len() + popped.len() == g_start + stack@.len(),
                stack@.len() >= popped.len(),
                forall|i: int|
                    0 <= i < grp@.len() ==> (#[trigger] grp@[i]) < n && used@[grp@[i] as int]
                        && !before[grp@[i] as int] && linked(cells@, start as int, grp@[i] as int),
                forall|k2: int| 0 <= k2 < n && before[k2] ==> #[trigger] used@[k2],
                forall|k2: int|
                    0 <= k2 < n && #[trigger] used@[k2] ==> before[k2] || grp@.contains(k2 as usize),
                forall|i: int| 0 <= i < stack@.len() ==> grp@.contains(#[trigger] stack@[i]),
                forall|a: int, b: int|
                    #[trigger] touching(cells@, a, b) && used@[a] && !stack@.contains(a as usize)
                        && a != j ==> used@[b],
                forall|b: int| 0 <= b < k && #[trigger] touching(cells@, j as int, b) ==> used@[b],
            decreases n - k,
        {
            if !used[k] && touches(cells[j], cells[k]) {
                let ghost g0 = grp@;
                let ghost s0 = stack@;
                proof {
                    lemma_linked_step(cells@, start as int, j as int, k as int);
                    assert(!g0.contains(k)) by {
                        if g0.contains(k) {
                            let i = choose|i: int| 0 <= i < g0.len() && g0[i] == k;
                        }
                    }
                    assert(!s0.contains(k)) by {
                        if s0.contains(k) {
                            let i = choose|i: int| 0 <= i < s0.len() && s0[i] == k;
                            assert(g0.contains(s0[i]));
                        }
                    }
                }
                used.set(k, true);
                stack.push(k);
                grp.push(k);
                proof {
                    assert forall|i: int| 0 <= i < stack@.len() implies grp@.contains(
                        #[trigger] stack@[i],
                    ) by {
                        if i < s0.len() {
                            assert(stack@[i] == s0[i]);
                            assert(g0.contains(s0[i]));
                            let m = choose|m: int| 0 <= m < g0.len() && g0[m] == s0[i];
                            assert(grp@[m] == s0[i]);
                        } else {
                            assert(grp@[grp@.len() - 1] == k);
                        }
                    }
                    assert forall|k2: int|
                        0 <= k2 < n && #[trigger] used@[k2] implies before[k2] || grp@.contains(
                        k2 as usize,
                    ) by {
                        if k2 != k {
                            if g0.contains(k2 as usize) {
                                let m = choose|m: int| 0 <= m < g0.len() && g0[m] == k2 as usize;
                                assert(grp@[m] == k2 as usize);
                            }
                        } else {
                            assert(grp@[grp@.len() - 1] == k);
                        }
                    }
                    assert forall|a: int, b: int|
                        #[trigger] touching(cells@, a, b) && used@[a] && !stack@.contains(a as usize)
                            && a != j implies used@[b] by {
                        if a != k {
                            assert(!s0.contains(a as usize)) by {
                                if s0.contains(a as usize) {
                                    let m = choose|m: int| 0 <= m < s0.len() && s0[m] == a as usize;
                                    assert(stack@[m] == a as usize);
                                }
                            }
                        } else {
                            assert(stack@[stack@.len() - 1] == k);
                        }
                    }
                }
            }
            k = k + 1;
        }
        proof {
            lemma_few_distinct(grp@, n as int);
            assert forall|a: int, b: int|
                #[trigger] touching(cells@, a, b) && used@[a] && !stack@.contains(a as usize) implies used@[b] by {
                if a == j {
                    assert(touching(cells@, j as int, b));
                }
            }
        }
    }
    proof {
        assert(closed(cells@, used@)) by {
            assert forall|a: int, b: int| #[trigger] touching(cells@, a, b) && used@[a] implies used@[b] by {
                assert(!stack@.contains(a as usize));
            }
        }
        assert forall|k: int|
            0 <= k < n implies (#[trigger] used@[k] <==> (before[k] || linked(
            cells@,
            start as int,
            k,
        ))) by {
            if used@[k] && !before[k] {
                let i = choose|i: int| 0 <= i < grp@.len() && grp@[i] == k as usize;
                assert(linked(cells@, start as int, grp@[i] as int));
            }
            if linked(cells@, start as int, k) {
                lemma_closed_linked(cells@, used@, start as int, k);
            }
        }
        assert forall|k: int|
            0 <= k < n && #[trigger] linked(cells@, start as int, k) implies grp@.contains(
            k as usize,
        ) by {
            lemma_closed_linked(cells@, used@, start as int, k);
            lemma_closed_linked(cells@, before, start as int, k);
        }
    }
    grp
}

/// The clusters of `cells`, each as positions in the list, first cell first; clusters come
/// in the list order of their first cells.
pub fn clusters(cells: &Vec<(i32, i32)>) -> (groups: Vec<Vec<usize>>)
    ensures
        is_clustering(cells@, groups@.map_values(|v: Vec<usize>| v@)),
{
    let n = cells.len();
    let mut used: Vec<bool> = Vec::new();
    let mut z: usize = 0;
    while z < n
        invariant
            z <= n,
            used@.len() == z,
            forall|k: int| 0 <= k < z ==> !#[trigger] used@[k],
        decreases n - z,
    {
        used.push(false);
        z = z + 1;
    }
    let mut out: Vec<Vec<usize>> = Vec::new();
    let mut i: usize = 0;
    while i < n
        invariant
            n == cells@.len(),
            i <= n,
            used@.len() == n,
            closed(cells@, used@),
            forall|k: int| 0 <= k < n ==> (#[trigger] used@[k] <==> covered(cells@, i as int, k)),
            forall|g: int| 0 <= g < out@.len() ==> is_cluster(cells@, (#[trigger] out@[g])@),
            forall|g: int| 0 <= g < out@.len() ==> (#[trigger] out@[g])@[0] < i,
            forall|g1: int, g2: int|
                0 <= g1 < g2 < out@.len() ==> (#[trigger] out@[g1])@[0] < (#[trigger] out@[g2])@[0],
            forall|r: int|
                0 <= r < i && #[trigger] leads(cells@, r) ==> exists|g: int|
                    0 <= g < out@.len() && (#[trigger] out@[g])@[0] == r,
        decreases n - i,
    {
        if !used[i] {
            assert(leads(cells@, i as int)) by {
                assert forall|j: int| 0 <= j < i implies !#[trigger] linked(cells@, j, i as int) by {
                    if linked(cells@, j, i as int) {
                        assert(covered(cells@, i as int, i as int));
                    }
                }
            }
            let ghost u0 = used@;
            let grp = flood(cells, &mut used, i);
            let ghost o0 = out@;
            out.push(grp);
            proof {
                assert(out@[out@.len() - 1]@ == grp@);
                assert(is_cluster(cells@, grp@));
                assert forall|g: int| 0 <= g < out@.len() implies is_cluster(
                    cells@,
                    (#[trigger] out@[g])@,
                ) by {
                    if g < o0.len() {
                        assert(out@[g] == o0[g]);
                    }
                }
                assert forall|k: int|
                    0 <= k < n implies (#[trigger] used@[k] <==> covered(cells@, i + 1, k)) by {
                    if used@[k] {
                        if u0[k] {
                            let j = choose|j: int| 0 <= j < i && #[trigger] linked(cells@, j, k);
                        } else {
                            assert(linked(cells@, i as int, k));
                        }
                    }
                    if covered(cells@, i + 1, k) {
                        let j = choose|j: int| 0 <= j < i + 1 && #[trigger] linked(cells@, j, k);
                        if j < i {
                            assert(covered(cells@, i as int, k));
                        }
                    }
                }
                assert forall|r: int|
                    0 <= r < i + 1 && #[trigger] leads(cells@, r) implies exists|g: int|
                        0 <= g < out@.len() && (#[trigger] out@[g])@[0] == r by {
                    if r < i {
                        let g = choose|g: int| 0 <= g < o0.len() && (#[trigger] o0[g])@[0] == r;
                        assert(out@[g] == o0[g]);
                    } else {
                        assert(out@[out@.len() - 1]@[0] == r);
                    }
                }
            }
        } else {
            proof {
                let j0 = choose|j: int| 0 <= j < i && #[trigger] linked(cells@, j, i as int);
                assert(!leads(cells@, i as int));
                assert forall|k: int|
                    0 <= k < n implies (#[trigger] used@[k] <==> covered(cells@, i + 1, k)) by {
                    if covered(cells@, i + 1, k) {
                        let j = choose|j: int| 0 <= j < i + 1 && #[trigger] linked(cells@, j, k);
                        if j < i {
                            assert(covered(cells@, i as int, k));
                        } else {
                            lemma_closed_linked(cells@, used@, i as int, k);
                        }
                    }
                    if used@[k] {
                        let j = choose|j: int| 0 <= j < i && #[trigger] linked(cells@, j, k);
                        assert(covered(cells@, i + 1, k));
                    }
                }
            }
        }
        i = i + 1;
    }
    proof {
        let vs = out@.map_values(|v: Vec<usize>| v@);
        assert forall|g: int| 0 <= g < vs.len() implies is_cluster(cells@, #[trigger] vs[g]) by {
            assert(vs[g] == out@[g]@);
        }
        assert forall|g1: int, g2: int| 0 <= g1 < g2 < vs.len() implies (#[trigger] vs[g1])[0] < (
        #[trigger] vs[g2])[0] by {
            assert(vs[g1] == out@[g1]@);
            assert(vs[g2] == out@[g2]@);
        }
        assert forall|r: int| #[trigger] leads(cells@, r) implies exists|g: int|
            0 <= g < vs.len() && (#[trigger] vs[g])[0] == r by {
            let g = choose|g: int| 0 <= g < out@.len() && (#[trigger] out@[g])@[0] == r;
            assert(vs[g] == out@[g]@);
        }
    }
    out
}

/// The clusters of `cells`, each as the cells themselves, first cell first; clusters come in
/// the list order of their first cells.
pub fn cell_clusters(cells: &Vec<(i32, i32)>) -> (r: Vec<Vec<(i32, i32)>>)
    ensures
        exists|groups: Seq<Seq<usize>>|
            {
                &&& is_clustering(cells@, groups)
                &&& r@.len() == groups.len()
                &&& forall|g: int| 0 <= g < groups.len() ==> (#[trigger] r@[g])@ == cells_of(cells@, groups[g])
            },
{
    let groups = clusters(cells);
    let ghost gs = groups@.map_values(|v: Vec<usize>| v@);
    let mut out: Vec<Vec<(i32, i32)>> = Vec::new();
    let mut g: usize = 0;
    while g < groups.len()
        invariant
            is_clustering(cells@, gs),
            gs == groups@.map_values(|v: Vec<usize>| v@),
            g <= groups@.len(),
            out@.len() == g,
            forall|m: int| 0 <= m < g ==> (#[trigger] out@[m])@ == cells_of(cells@, gs[m]),
        decreases groups@.len() - g,
    {
        let grp = &groups[g];
        assert(grp@ == gs[g as int]);
        assert(is_cluster(cells@, gs[g as int]));
        let mut v: Vec<(i32, i32)> = Vec::new();
        let mut m: usize = 0;
        while m < grp.len()
            invariant
                is_cluster(cells@, grp@),
                m <= grp@.len(),
                v@ == cells_of(cells@, grp@.take(m as int)),
            decreases grp@.len() - m,
        {
            proof {
                lemma_linked_inside(cells@, grp@[0] as int, grp@[m as int] as int);
                assert(cells_of(cells@, grp@.take(m + 1)) == cells_of(cells@, grp@.take(m as int)).push(
                    cells@[grp@[m as int] as int],
                )) by {
                    assert(grp@.take(m + 1) == grp@.take(m as int).push(grp@[m as int]));
                }
            }
            v.push(cells[grp[m]]);
            m = m + 1;
        }
        assert(grp@.take(grp@.len() as int) == grp@);
        let ghost o0 = out@;
        out.push(v);
        proof {
            assert forall|m: int| 0 <= m < g + 1 implies (#[trigger] out@[m])@ == cells_of(cells@, gs[m]) by {
                if m < g {
                    assert(out@[m] == o0[m]);
                }
            }
        }
        g = g + 1;
    }
    out
}

} // verus!
