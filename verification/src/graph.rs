//! Connected components of undirected graphs.

use vstd::prelude::*;

verus! {

/// Each element is related to the next one.
pub open spec fn is_path<T>(rel: spec_fn(T, T) -> bool, p: Seq<T>) -> bool {
    p.len() > 0 && forall|k: int| 0 <= k < p.len() - 1 ==> rel(#[trigger] p[k], p[k + 1])
}

/// A path leads from `a` to `b`.
pub open spec fn leads<T>(rel: spec_fn(T, T) -> bool, p: Seq<T>, a: T, b: T) -> bool {
    is_path(rel, p) && p[0] == a && p.last() == b
}

/// Some path leads from `a` to `b`.
pub open spec fn connected<T>(rel: spec_fn(T, T) -> bool, a: T, b: T) -> bool {
    exists|p: Seq<T>| leads(rel, p, a, b)
}

/// The relation is symmetric.
pub open spec fn symmetric<T>(rel: spec_fn(T, T) -> bool) -> bool {
    forall|a: T, b: T| #[trigger] rel(a, b) ==> rel(b, a)
}

/// The groups are the connected components of the elements that are related
/// to anything.
pub open spec fn are_components<T>(rel: spec_fn(T, T) -> bool, groups: Seq<Seq<T>>) -> bool {
    &&& forall|g: int| 0 <= g < groups.len() ==> (#[trigger] groups[g]).len() > 0 && groups[g].no_duplicates()
    &&& forall|g: int, a: T, b: T|
        0 <= g < groups.len() && #[trigger] groups[g].contains(a) ==> (#[trigger] groups[g].contains(b)
            <==> connected(rel, a, b))
    &&& forall|g: int, x: T|
        0 <= g < groups.len() && #[trigger] groups[g].contains(x) ==> exists|y: T| #[trigger] rel(x, y)
    &&& forall|x: T, y: T| #[trigger]
        rel(x, y) ==> exists|g: int| 0 <= g < groups.len() && #[trigger] groups[g].contains(x)
    &&& forall|g: int, h: int, x: T|
        0 <= g < h < groups.len() && #[trigger] groups[g].contains(x) ==> !#[trigger] groups[h].contains(x)
}

/// Everything is connected to itself.
pub proof fn lemma_connected_self<T>(rel: spec_fn(T, T) -> bool, a: T)
    ensures
        connected(rel, a, a),
{
    assert(leads(rel, seq![a], a, a));
}

/// A path goes on by one step.
pub proof fn lemma_connected_step<T>(rel: spec_fn(T, T) -> bool, a: T, b: T, c: T)
    requires
        connected(rel, a, b),
        rel(b, c),
    ensures
        connected(rel, a, c),
{
    let p = choose|p: Seq<T>| leads(rel, p, a, b);
    let q = p.push(c);
    assert forall|k: int| 0 <= k < q.len() - 1 implies rel(#[trigger] q[k], q[k + 1]) by {
        if k < p.len() - 1 {
            assert(rel(p[k], p[k + 1]));
        }
    }
    assert(leads(rel, q, a, c));
}

/// Paths join.
pub proof fn lemma_connected_transitive<T>(rel: spec_fn(T, T) -> bool, a: T, b: T, c: T)
    requires
        connected(rel, a, b),
        connected(rel, b, c),
    ensures
        connected(rel, a, c),
{
    let p = choose|p: Seq<T>| leads(rel, p, b, c);
    lemma_path_on(rel, a, p, p.len() as int - 1);
}

proof fn lemma_path_on<T>(rel: spec_fn(T, T) -> bool, a: T, p: Seq<T>, i: int)
    requires
        is_path(rel, p),
        connected(rel, a, p[0]),
        0 <= i < p.len(),
    ensures
        connected(rel, a, p[i]),
    decreases i,
{
    if i > 0 {
        lemma_path_on(rel, a, p, i - 1);
        assert(rel(p[i - 1], p[i - 1 + 1]));
        lemma_connected_step(rel, a, p[i - 1], p[i]);
    }
}

/// In a symmetric relation paths can be walked back.
pub proof fn lemma_connected_symmetric<T>(rel: spec_fn(T, T) -> bool, a: T, b: T)
    requires
        symmetric(rel),
        connected(rel, a, b),
    ensures
        connected(rel, b, a),
{
    let p = choose|p: Seq<T>| leads(rel, p, a, b);
    let q = p.reverse();
    assert forall|k: int| 0 <= k < q.len() - 1 implies rel(#[trigger] q[k], q[k + 1]) by {
        let j = p.len() - 2 - k;
        assert(rel(p[j], p[j + 1]));
    }
    assert(leads(rel, q, b, a));
}

/// A path does not leave a set that is closed under the relation.
pub proof fn lemma_closed<T>(rel: spec_fn(T, T) -> bool, inside: spec_fn(T) -> bool, a: T, b: T)
    requires
        inside(a),
        connected(rel, a, b),
        forall|x: T, y: T| inside(x) && #[trigger] rel(x, y) ==> inside(y),
    ensures
        inside(b),
{
    let p = choose|p: Seq<T>| leads(rel, p, a, b);
    lemma_stays(rel, inside, p, p.len() as int - 1);
}

proof fn lemma_stays<T>(rel: spec_fn(T, T) -> bool, inside: spec_fn(T) -> bool, p: Seq<T>, i: int)
    requires
        is_path(rel, p),
        inside(p[0]),
        forall|x: T, y: T| inside(x) && #[trigger] rel(x, y) ==> inside(y),
        0 <= i < p.len(),
    ensures
        inside(p[i]),
    decreases i,
{
    if i > 0 {
        lemma_stays(rel, inside, p, i - 1);
        assert(rel(p[i - 1], p[i - 1 + 1]));
    }
}

// ---------------------------------------------------------------------
// The algorithm
// ---------------------------------------------------------------------

/// The relation that an adjacency list describes.
pub open spec fn links(adj: Seq<Vec<usize>>) -> spec_fn(int, int) -> bool {
    |i: int, j: int| 0 <= i < adj.len() && 0 <= j < adj.len() && adj[i]@.contains(j as usize)
}

/// Every neighbour is an element, and the relation is symmetric.
pub open spec fn is_graph(adj: Seq<Vec<usize>>) -> bool {
    &&& forall|i: int, k: int| 0 <= i < adj.len() && 0 <= k < adj[i]@.len() ==> #[trigger] adj[i]@[k] < adj.len()
    &&& symmetric(links(adj))
}

/// Groups of machine integers as groups of mathematical ones.
pub open spec fn int_groups(groups: Seq<Vec<usize>>) -> Seq<Seq<int>> {
    groups.map_values(|g: Vec<usize>| g@.map_values(|i: usize| i as int))
}

proof fn lemma_few(s: Seq<usize>, n: nat)
    requires
        s.no_duplicates(),
        forall|i: int| 0 <= i < s.len() ==> #[trigger] s[i] < n,
    ensures
        s.len() <= n,
{
    let t = s.map_values(|i: usize| i as int);
    assert(t.no_duplicates());
    t.unique_seq_to_set();
    vstd::set_lib::lemma_int_range(0, n as int);
    assert(t.to_set().subset_of(vstd::set_lib::set_int_range(0, n as int))) by {
        assert forall|x: int| t.to_set().contains(x) implies 0 <= x < n by {
            let i = choose|i: int| 0 <= i < t.len() && t[i] == x;
            assert(s[i] < n);
        }
    }
    vstd::set_lib::lemma_len_subset(t.to_set(), vstd::set_lib::set_int_range(0, n as int));
}

/// The component of `start`, whose members are marked in `visited`.
fn component(adj: &Vec<Vec<usize>>, start: usize, visited: &mut Vec<bool>) -> (group: Vec<usize>)
    requires
        is_graph(adj@),
        start < adj@.len(),
        old(visited)@.len() == adj@.len(),
        !old(visited)@[start as int],
        forall|i: int, j: int|
            0 <= i < adj@.len() && old(visited)@[i] && #[trigger] links(adj@)(i, j) ==> old(visited)@[j],
    ensures
        final(visited)@.len() == adj@.len(),
        group@.no_duplicates(),
        group@.contains(start),
        forall|i: int|
            0 <= i < adj@.len() ==> #[trigger] final(visited)@[i] == (old(visited)@[i] || group@.contains(
                i as usize,
            )),
        forall|x: usize| #[trigger]
            group@.contains(x) <==> x < adj@.len() && connected(links(adj@), start as int, x as int),
        forall|x: usize| #[trigger] group@.contains(x) ==> !old(visited)@[x as int],
        forall|i: int, j: int|
            0 <= i < adj@.len() && final(visited)@[i] && #[trigger] links(adj@)(i, j) ==> final(visited)@[j],
{
    let ghost rel = links(adj@);
    let ghost before = visited@;
    let n: usize = adj.len();
    let mut queue: Vec<usize> = Vec::new();
    queue.push(start);
    let mut group: Vec<usize> = Vec::new();
    proof {
        lemma_connected_self(rel, start as int);
        assert(queue@[0] == start);
    }
    while queue.len() > 0
        invariant
            rel == links(adj@),
            is_graph(adj@),
            n == adj@.len(),
            before.len() == n,
            visited@.len() == n,
            start < n,
            !before[start as int],
            forall|i: int, j: int| 0 <= i < n && before[i] && #[trigger] rel(i, j) ==> before[j],
            group@.no_duplicates(),
            forall|k: int| 0 <= k < group@.len() ==> #[trigger] group@[k] < n,
            forall|k: int| 0 <= k < group@.len() ==> connected(rel, start as int, #[trigger] group@[k] as int),
            forall|k: int| 0 <= k < group@.len() ==> !before[#[trigger] group@[k] as int],
            forall|i: int| 0 <= i < n ==> #[trigger] visited@[i] == (before[i] || group@.contains(i as usize)),
            forall|k: int| 0 <= k < queue@.len() ==> #[trigger] queue@[k] < n,
            forall|k: int| 0 <= k < queue@.len() ==> connected(rel, start as int, #[trigger] queue@[k] as int),
            group@.contains(start) || queue@.contains(start),
            forall|x: usize, j: int|
                group@.contains(x) && #[trigger] rel(x as int, j) ==> visited@[j] || queue@.contains(j as usize),
        decreases n - group@.len(), queue@.len(),
    {
        let ghost queue_before = queue@;
        let ghost group_before = group@;
        let ghost visited_before = visited@;
        let v: usize = queue.pop().unwrap();
        proof {
            assert(v == queue_before[queue_before.len() - 1]);
            assert forall|x: usize| queue_before.contains(x) implies x == v || queue@.contains(x) by {
                let k = choose|k: int| 0 <= k < queue_before.len() && queue_before[k] == x;
                if k < queue@.len() {
                    assert(queue@[k] == x);
                }
            }
        }
        if visited[v] {
            proof {
                if v == start {
                    assert(visited@[start as int]);
                    assert(group@.contains(start));
                }
            }
        } else {
            visited.set(v, true);
            group.push(v);
            proof {
                assert(!group_before.contains(v)) by {
                    assert(visited_before[v as int] == (before[v as int] || group_before.contains(v)));
                }
                assert forall|x: usize| group@.contains(x) <==> x == v || group_before.contains(x) by {
                    if group@.contains(x) {
                        let k = choose|k: int| 0 <= k < group@.len() && group@[k] == x;
                        if k < group_before.len() {
                            assert(group_before[k] == x);
                        }
                    }
                    if x == v {
                        assert(group@[group_before.len() as int] == v);
                    }
                    if group_before.contains(x) {
                        let k = choose|k: int| 0 <= k < group_before.len() && group_before[k] == x;
                        assert(group@[k] == x);
                    }
                }
                assert(group@.no_duplicates());
                assert forall|k: int| 0 <= k < group@.len() implies connected(
                    rel,
                    start as int,
                    #[trigger] group@[k] as int,
                ) by {
                    if k < group_before.len() {
                        assert(group@[k] == group_before[k]);
                    }
                }
                assert forall|k: int| 0 <= k < group@.len() implies !before[#[trigger] group@[k] as int] by {
                    if k < group_before.len() {
                        assert(group@[k] == group_before[k]);
                    } else {
                        assert(!visited_before[v as int]);
                    }
                }
                lemma_few(group@, n as nat);
            }
            let mut k: usize = 0;
            while k < adj[v].len()
                invariant
                    rel == links(adj@),
                    is_graph(adj@),
                    n == adj@.len(),
                    visited@.len() == n,
                    start < n,
                    v < n,
                    k <= adj@[v as int]@.len(),
                    connected(rel, start as int, v as int),
                    group@.contains(v),
                    forall|i: int| 0 <= i < queue@.len() ==> #[trigger] queue@[i] < n,
                    forall|i: int|
                        0 <= i < queue@.len() ==> connected(rel, start as int, #[trigger] queue@[i] as int),
                    group@.contains(start) || queue@.contains(start),
                    forall|x: usize, j: int|
                        x != v && group@.contains(x) && #[trigger] rel(x as int, j) ==> visited@[j]
                            || queue@.contains(j as usize),
                    forall|i: int|
                        0 <= i < k ==> visited@[#[trigger] adj@[v as int]@[i] as int] || queue@.contains(
                            adj@[v as int]@[i],
                        ),
                decreases adj@[v as int]@.len() - k,
            {
                let m: usize = adj[v][k];
                let ghost q = queue@;
                proof {
                    assert(m < n);
                    assert(adj@[v as int]@.contains(m));
                    assert(rel(v as int, m as int));
                    lemma_connected_step(rel, start as int, v as int, m as int);
                }
                if !visited[m] {
                    queue.push(m);
                    proof {
                        assert(queue@[q.len() as int] == m);
                        assert forall|x: usize| q.contains(x) implies queue@.contains(x) by {
                            let i = choose|i: int| 0 <= i < q.len() && q[i] == x;
                            assert(queue@[i] == x);
                        }
                    }
                }
                k = k + 1;
            }
            proof {
                assert forall|x: usize, j: int| group@.contains(x) && #[trigger] rel(x as int, j) implies visited@[j]
                    || queue@.contains(j as usize) by {
                    if x == v {
                        let i = choose|i: int| 0 <= i < adj@[v as int]@.len() && adj@[v as int]@[i] == j as usize;
                        assert(adj@[v as int]@[i] as int == j);
                    }
                }
            }
        }
    }
    proof {
        assert forall|i: int, j: int| 0 <= i < n && visited@[i] && #[trigger] rel(i, j) implies visited@[j] by {
            if !before[i] {
                assert(group@.contains(i as usize));
            }
        }
        assert forall|x: usize| #[trigger] group@.contains(x) implies x < n && connected(
            rel,
            start as int,
            x as int,
        ) && !before[x as int] by {
            let k = choose|k: int| 0 <= k < group@.len() && group@[k] == x;
        }
        let inside = |i: int| 0 <= i < n && group@.contains(i as usize);
        assert forall|x: int, y: int| inside(x) && #[trigger] rel(x, y) implies inside(y) by {
            assert(group@.contains(x as usize));
            assert(visited@[y]);
            if before[y] {
                assert(rel(y, x));
                assert(before[x]);
            }
        }
        assert forall|x: usize| x < n && connected(rel, start as int, x as int) implies #[trigger] group@.contains(
            x,
        ) by {
            lemma_closed(rel, inside, start as int, x as int);
        }
    }
    group
}

/// The connected components of the elements that have neighbours.
pub fn components(adj: &Vec<Vec<usize>>) -> (r: Vec<Vec<usize>>)
    requires
        is_graph(adj@),
    ensures
        are_components(links(adj@), int_groups(r@)),
        forall|g: int, k: int| 0 <= g < r@.len() && 0 <= k < r@[g]@.len() ==> #[trigger] r@[g]@[k] < adj@.len(),
{
    let ghost rel = links(adj@);
    let n: usize = adj.len();
    let mut visited: Vec<bool> = Vec::new();
    let mut i: usize = 0;
    while i < n
        invariant
            i <= n,
            visited@.len() == i,
            forall|k: int| 0 <= k < i ==> !#[trigger] visited@[k],
        decreases n - i,
    {
        visited.push(false);
        i = i + 1;
    }
    let mut groups: Vec<Vec<usize>> = Vec::new();
    let mut start: usize = 0;
    while start < n
        invariant
            rel == links(adj@),
            is_graph(adj@),
            n == adj@.len(),
            start <= n,
            visited@.len() == n,
            forall|i: int, j: int| 0 <= i < n && visited@[i] && #[trigger] rel(i, j) ==> visited@[j],
            forall|i: int| 0 <= i < start && adj@[i]@.len() > 0 ==> #[trigger] visited@[i],
            forall|i: int| #![trigger visited@[i]]
                0 <= i < n && visited@[i] ==> exists|g: int|
                    0 <= g < groups@.len() && #[trigger] groups@[g]@.contains(i as usize),
            forall|g: int| 0 <= g < groups@.len() ==> (#[trigger] groups@[g])@.len() > 0
                && groups@[g]@.no_duplicates(),
            forall|g: int, k: int| 0 <= g < groups@.len() && 0 <= k < groups@[g]@.len() ==> #[trigger] groups@[g]@[k]
                < n,
            forall|g: int, a: usize, b: usize|
                0 <= g < groups@.len() && #[trigger] groups@[g]@.contains(a) && b < n ==> (#[trigger]
                groups@[g]@.contains(b) <==> connected(rel, a as int, b as int)),
            forall|g: int, a: usize|
                0 <= g < groups@.len() && #[trigger] groups@[g]@.contains(a) ==> visited@[a as int]
                    && adj@[a as int]@.len() > 0,
            forall|g: int, h: int, x: usize|
                0 <= g < h < groups@.len() && #[trigger] groups@[g]@.contains(x)
                    ==> !#[trigger] groups@[h]@.contains(x),
        decreases n - start,
    {
        if !visited[start] && adj[start].len() > 0 {
            let ghost seen = visited@;
            let ghost old_groups = groups@;
            let group = component(adj, start, &mut visited);
            let ghost gs = group@;
            proof {
                assert forall|k: int| 0 <= k < gs.len() implies #[trigger] gs[k] < n by {
                    assert(gs.contains(gs[k]));
                }
                assert forall|a: usize, b: usize| gs.contains(a) && b < n implies (gs.contains(b) <==> connected(
                    rel,
                    a as int,
                    b as int,
                )) by {
                    lemma_connected_symmetric(rel, start as int, a as int);
                    if gs.contains(b) {
                        lemma_connected_transitive(rel, a as int, start as int, b as int);
                    }
                    if connected(rel, a as int, b as int) {
                        lemma_connected_transitive(rel, start as int, a as int, b as int);
                    }
                }
                assert forall|a: usize| gs.contains(a) implies adj@[a as int]@.len() > 0 by {
                    if a != start {
                        lemma_has_neighbor(adj@, start as int, a as int);
                    }
                }
            }
            groups.push(group);
            proof {
                let last = old_groups.len() as int;
                assert(groups@[last]@ == gs);
                assert forall|i: int| #![trigger visited@[i]] 0 <= i < n && visited@[i] implies exists|g: int|
                    0 <= g < groups@.len() && #[trigger] groups@[g]@.contains(i as usize) by {
                    if seen[i] {
                        let g = choose|g: int| 0 <= g < old_groups.len() && #[trigger] old_groups[g]@.contains(i as usize);
                        assert(groups@[g]@.contains(i as usize));
                    } else {
                        assert(groups@[last]@.contains(i as usize));
                    }
                }
                assert forall|g: int, h: int, x: usize|
                    0 <= g < h < groups@.len() && #[trigger] groups@[g]@.contains(x) implies !#[trigger] groups@[h]@.contains(
                    x,
                ) by {
                    assert(old_groups[g]@.contains(x));
                    if h == last {
                        assert(seen[x as int]);
                    } else {
                        assert(groups@[h]@ == old_groups[h]@);
                    }
                }
                assert forall|g: int, a: usize, b: usize|
                    0 <= g < groups@.len() && #[trigger] groups@[g]@.contains(a) && b < n implies (#[trigger]
                groups@[g]@.contains(b) <==> connected(rel, a as int, b as int)) by {
                    if g < last {
                        assert(old_groups[g]@.contains(a));
                        assert(groups@[g]@.contains(b) == old_groups[g]@.contains(b));
                    }
                }
                assert forall|g: int, a: usize|
                    0 <= g < groups@.len() && #[trigger] groups@[g]@.contains(a) implies visited@[a as int]
                    && adj@[a as int]@.len() > 0 by {
                    if g < last {
                        assert(old_groups[g]@.contains(a));
                        assert(seen[a as int]);
                    }
                }
            }
        }
        start = start + 1;
    }
    proof {
        assert forall|i: int| #![trigger adj@[i]] 0 <= i < n && adj@[i]@.len() > 0 implies exists|g: int|
            0 <= g < groups@.len() && #[trigger] groups@[g]@.contains(i as usize) by {
            assert(visited@[i]);
        }
        lemma_int_components(adj@, groups@);
    }
    groups
}

proof fn lemma_has_neighbor(adj: Seq<Vec<usize>>, start: int, a: int)
    requires
        is_graph(adj),
        connected(links(adj), start, a),
        0 <= a < adj.len(),
        a != start,
    ensures
        adj[a]@.len() > 0,
{
    let rel = links(adj);
    let p = choose|p: Seq<int>| leads(rel, p, start, a);
    let k = p.len() - 2;
    assert(p.len() > 1);
    assert(rel(p[k], p[k + 1]));
    assert(rel(a, p[k]));
}

proof fn lemma_int_components(adj: Seq<Vec<usize>>, groups: Seq<Vec<usize>>)
    requires
        adj.len() <= usize::MAX,
        is_graph(adj),
        forall|i: int| #![trigger adj[i]]
            0 <= i < adj.len() && adj[i]@.len() > 0 ==> exists|g: int|
                0 <= g < groups.len() && #[trigger] groups[g]@.contains(i as usize),
        forall|g: int| 0 <= g < groups.len() ==> (#[trigger] groups[g])@.len() > 0 && groups[g]@.no_duplicates(),
        forall|g: int, k: int| 0 <= g < groups.len() && 0 <= k < groups[g]@.len() ==> #[trigger] groups[g]@[k]
            < adj.len(),
        forall|g: int, a: usize, b: usize|
            0 <= g < groups.len() && #[trigger] groups[g]@.contains(a) && b < adj.len() ==> (#[trigger]
            groups[g]@.contains(b) <==> connected(links(adj), a as int, b as int)),
        forall|g: int, a: usize|
            0 <= g < groups.len() && #[trigger] groups[g]@.contains(a) ==> adj[a as int]@.len() > 0,
        forall|g: int, h: int, x: usize|
            0 <= g < h < groups.len() && #[trigger] groups[g]@.contains(x) ==> !#[trigger] groups[h]@.contains(x),
    ensures
        are_components(links(adj), int_groups(groups)),
{
    let rel = links(adj);
    let gs = int_groups(groups);
    assert forall|g: int, x: int| 0 <= g < gs.len() && #[trigger] gs[g].contains(x) implies 0 <= x < adj.len()
        && groups[g]@.contains(x as usize) by {
        let k = choose|k: int| 0 <= k < gs[g].len() && gs[g][k] == x;
        assert(groups[g]@[k] == x as usize);
    }
    assert forall|g: int, x: usize| 0 <= g < gs.len() && #[trigger] groups[g]@.contains(x) implies gs[g].contains(
        x as int,
    ) by {
        let k = choose|k: int| 0 <= k < groups[g]@.len() && groups[g]@[k] == x;
        assert(gs[g][k] == x as int);
    }
    assert forall|g: int| 0 <= g < gs.len() implies (#[trigger] gs[g]).len() > 0 && gs[g].no_duplicates() by {
        assert(groups[g]@.len() > 0 && groups[g]@.no_duplicates());
    }
    assert forall|g: int, a: int, b: int|
        0 <= g < gs.len() && #[trigger] gs[g].contains(a) implies (#[trigger] gs[g].contains(b) <==> connected(
        rel,
        a,
        b,
    )) by {
        if connected(rel, a, b) && !(0 <= b < adj.len()) {
            lemma_closed(rel, |i: int| 0 <= i < adj.len(), a, b);
        }
        if 0 <= b < adj.len() {
            assert(groups[g]@.contains(a as usize));
            assert(groups[g]@.contains(b as usize) <==> connected(rel, a, b));
        }
    }
    assert forall|g: int, x: int| 0 <= g < gs.len() && #[trigger] gs[g].contains(x) implies exists|y: int| #[trigger] rel(
        x,
        y,
    ) by {
        assert(groups[g]@.contains(x as usize));
        let y = adj[x]@[0];
        assert(adj[x]@.contains(y));
        assert(rel(x, y as int));
    }
    assert forall|x: int, y: int| #[trigger] rel(x, y) implies exists|g: int|
        0 <= g < gs.len() && #[trigger] gs[g].contains(x) by {
        let k = choose|k: int| 0 <= k < adj[x]@.len() && adj[x]@[k] == y as usize;
        let g = choose|g: int| 0 <= g < groups.len() && #[trigger] groups[g]@.contains(x as usize);
        assert(gs[g].contains(x));
    }
    assert forall|g: int, h: int, x: int|
        0 <= g < h < gs.len() && #[trigger] gs[g].contains(x) implies !#[trigger] gs[h].contains(x) by {
        assert(groups[g]@.contains(x as usize));
    }
}

/// Components of indices give the components of what the indices stand for.
pub proof fn lemma_components_image<T>(
    by_index: spec_fn(int, int) -> bool,
    gs: Seq<Seq<int>>,
    rel: spec_fn(T, T) -> bool,
    groups: Seq<Seq<T>>,
    nodes: Seq<T>,
)
    requires
        are_components(by_index, gs),
        nodes.no_duplicates(),
        forall|i: int, j: int| #[trigger]
            by_index(i, j) <==> 0 <= i < nodes.len() && 0 <= j < nodes.len() && rel(nodes[i], nodes[j]),
        forall|x: T, y: T| #[trigger] rel(x, y) ==> nodes.contains(x) && nodes.contains(y),
        groups.len() == gs.len(),
        forall|g: int| 0 <= g < groups.len() ==> (#[trigger] groups[g]).len() > 0 && groups[g].no_duplicates(),
        forall|g: int, i: int|
            0 <= g < groups.len() && #[trigger] gs[g].contains(i) ==> 0 <= i < nodes.len() && groups[g].contains(
                nodes[i],
            ),
        forall|g: int, x: T|
            0 <= g < groups.len() && #[trigger] groups[g].contains(x) ==> exists|i: int|
                0 <= i < nodes.len() && #[trigger] gs[g].contains(i) && nodes[i] == x,
    ensures
        are_components(rel, groups),
{
    assert forall|g: int, a: T, b: T|
        0 <= g < groups.len() && #[trigger] groups[g].contains(a) implies (#[trigger] groups[g].contains(b)
        <==> connected(rel, a, b)) by {
        let i = choose|i: int| 0 <= i < nodes.len() && #[trigger] gs[g].contains(i) && nodes[i] == a;
        if groups[g].contains(b) {
            let j = choose|j: int| 0 <= j < nodes.len() && #[trigger] gs[g].contains(j) && nodes[j] == b;
            assert(connected(by_index, i, j));
            let inside = |k: int| 0 <= k < nodes.len() && connected(rel, a, nodes[k]);
            lemma_connected_self(rel, a);
            assert forall|x: int, y: int| inside(x) && #[trigger] by_index(x, y) implies inside(y) by {
                lemma_connected_step(rel, a, nodes[x], nodes[y]);
            }
            lemma_closed(by_index, inside, i, j);
        }
        if connected(rel, a, b) {
            let inside = |y: T| exists|k: int|
                0 <= k < nodes.len() && nodes[k] == y && #[trigger] connected(by_index, i, k);
            lemma_connected_self(by_index, i);
            assert(inside(a));
            assert forall|x: T, y: T| inside(x) && #[trigger] rel(x, y) implies inside(y) by {
                let k = choose|k: int|
                    0 <= k < nodes.len() && nodes[k] == x && #[trigger] connected(by_index, i, k);
                let m = choose|m: int| 0 <= m < nodes.len() && nodes[m] == y;
                assert(by_index(k, m));
                lemma_connected_step(by_index, i, k, m);
            }
            lemma_closed(rel, inside, a, b);
            let k = choose|k: int| 0 <= k < nodes.len() && nodes[k] == b && #[trigger] connected(by_index, i, k);
            assert(gs[g].contains(k));
        }
    }
    assert forall|g: int, x: T| 0 <= g < groups.len() && #[trigger] groups[g].contains(x) implies exists|y: T|
        #[trigger] rel(x, y) by {
        let i = choose|i: int| 0 <= i < nodes.len() && #[trigger] gs[g].contains(i) && nodes[i] == x;
        let j = choose|j: int| #[trigger] by_index(i, j);
        assert(rel(x, nodes[j]));
    }
    assert forall|x: T, y: T| #[trigger] rel(x, y) implies exists|g: int|
        0 <= g < groups.len() && #[trigger] groups[g].contains(x) by {
        let i = choose|i: int| 0 <= i < nodes.len() && nodes[i] == x;
        let j = choose|j: int| 0 <= j < nodes.len() && nodes[j] == y;
        assert(by_index(i, j));
        let g = choose|g: int| 0 <= g < gs.len() && #[trigger] gs[g].contains(i);
        assert(groups[g].contains(x));
    }
    assert forall|g: int, h: int, x: T|
        0 <= g < h < groups.len() && #[trigger] groups[g].contains(x) implies !#[trigger] groups[h].contains(x) by {
        let i = choose|i: int| 0 <= i < nodes.len() && #[trigger] gs[g].contains(i) && nodes[i] == x;
        if groups[h].contains(x) {
            let j = choose|j: int| 0 <= j < nodes.len() && #[trigger] gs[h].contains(j) && nodes[j] == x;
            assert(i == j);
        }
    }
}

} // verus!
