//! Reachability in a directed graph given by its adjacency matrix.
use vstd::prelude::*;

verus! {

/// The entries of a matrix, row by row.
pub open spec fn rows(v: Seq<Vec<bool>>) -> Seq<Seq<bool>> {
    Seq::new(v.len(), |i: int| v[i]@)
}

/// A square matrix of `n` rows of `n` entries.
pub open spec fn is_square(m: Seq<Seq<bool>>, n: nat) -> bool {
    m.len() == n && forall|x: int| 0 <= x < n ==> (#[trigger] m[x]).len() == n
}

/// The step `i` of the walk `p` is an edge of `adj`.
pub open spec fn step(adj: Seq<Seq<bool>>, p: Seq<int>, i: int) -> bool {
    adj[p[i]][p[i + 1]]
}

/// `p` is a walk of at least one edge of `adj`.
pub open spec fn is_walk(adj: Seq<Seq<bool>>, p: Seq<int>) -> bool {
    &&& p.len() >= 2
    &&& forall|i: int| 0 <= i < p.len() ==> 0 <= #[trigger] p[i] < adj.len()
    &&& forall|i: int| 0 <= i < p.len() - 1 ==> #[trigger] step(adj, p, i)
}

/// Every node that the walk `p` passes through, its ends aside, is below `m`.
pub open spec fn inner_below(p: Seq<int>, m: int) -> bool {
    forall|i: int| 0 < i < p.len() - 1 ==> #[trigger] p[i] < m
}

/// `y` can be reached from `x` by following one edge of `adj` or more.
pub open spec fn reachable(adj: Seq<Seq<bool>>, x: int, y: int) -> bool {
    exists|p: Seq<int>| #[trigger] is_walk(adj, p) && p[0] == x && p.last() == y
}

/// Two walks joined where the first ends and the second begins.
pub proof fn lemma_walk_join(adj: Seq<Seq<bool>>, p: Seq<int>, q: Seq<int>)
    requires
        is_walk(adj, p),
        is_walk(adj, q),
        p.last() == q[0],
    ensures
        is_walk(adj, p + q.drop_first()),
        (p + q.drop_first())[0] == p[0],
        (p + q.drop_first()).last() == q.last(),
        forall|m: int| inner_below(p, m) && inner_below(q, m) && p.last() < m ==> inner_below(p + q.drop_first(), m),
{
    let r = p + q.drop_first();
    assert forall|i: int| 0 <= i < r.len() - 1 implies #[trigger] step(adj, r, i) by {
        if i < p.len() - 1 {
            assert(step(adj, p, i));
        } else if i == p.len() - 1 {
            assert(step(adj, q, 0));
        } else {
            assert(step(adj, q, i - p.len() + 1));
        }
    }
    assert forall|i: int| 0 <= i < r.len() implies 0 <= #[trigger] r[i] < adj.len() by {
        if i < p.len() {
            assert(r[i] == p[i]);
        } else {
            assert(r[i] == q[i - p.len() + 1]);
        }
    }
    assert forall|m: int| inner_below(p, m) && inner_below(q, m) && p.last() < m implies inner_below(r, m) by {
        assert forall|i: int| 0 < i < r.len() - 1 implies #[trigger] r[i] < m by {
            if i < p.len() - 1 {
                assert(r[i] == p[i]);
            } else if i == p.len() - 1 {
                assert(r[i] == p.last());
            } else {
                assert(r[i] == q[i - p.len() + 1]);
            }
        }
    }
}

/// Reachability is transitive.
pub proof fn lemma_reachable_transitive(adj: Seq<Seq<bool>>, x: int, y: int, z: int)
    requires
        reachable(adj, x, y),
        reachable(adj, y, z),
    ensures
        reachable(adj, x, z),
{
    let p = choose|p: Seq<int>| #[trigger] is_walk(adj, p) && p[0] == x && p.last() == y;
    let q = choose|q: Seq<int>| #[trigger] is_walk(adj, q) && q[0] == y && q.last() == z;
    lemma_walk_join(adj, p, q);
}

/// An edge is a walk.
pub proof fn lemma_edge_reachable(adj: Seq<Seq<bool>>, x: int, y: int)
    requires
        0 <= x < adj.len(),
        0 <= y < adj.len(),
        adj[x][y],
    ensures
        reachable(adj, x, y),
{
    let p = seq![x, y];
    assert(step(adj, p, 0));
    assert(is_walk(adj, p));
}

/// The part of a walk from its start to its node `i`, and from there to its end.
proof fn lemma_walk_split(adj: Seq<Seq<bool>>, p: Seq<int>, i: int)
    requires
        is_walk(adj, p),
        0 < i < p.len() - 1,
    ensures
        is_walk(adj, p.subrange(0, i + 1)),
        is_walk(adj, p.subrange(i, p.len() as int)),
        p.subrange(0, i + 1).last() == p[i],
        p.subrange(i, p.len() as int)[0] == p[i],
        p.subrange(i, p.len() as int).last() == p.last(),
{
    let a = p.subrange(0, i + 1);
    let b = p.subrange(i, p.len() as int);
    assert forall|k: int| 0 <= k < a.len() - 1 implies #[trigger] step(adj, a, k) by {
        assert(step(adj, p, k));
    }
    assert forall|k: int| 0 <= k < b.len() - 1 implies #[trigger] step(adj, b, k) by {
        assert(step(adj, p, k + i));
    }
    assert forall|k: int| 0 <= k < a.len() implies 0 <= #[trigger] a[k] < adj.len() by {
        assert(a[k] == p[k]);
    }
    assert forall|k: int| 0 <= k < b.len() implies 0 <= #[trigger] b[k] < adj.len() by {
        assert(b[k] == p[k + i]);
    }
}

/// The first inner node of a walk at or above `m`, where there is one.
proof fn lemma_first_at_least(p: Seq<int>, m: int, k: int) -> (i: int)
    requires
        1 <= k <= p.len() - 1,
        forall|j: int| 0 < j < k ==> #[trigger] p[j] < m,
        !inner_below(p, m),
    ensures
        0 < i < p.len() - 1,
        p[i] >= m,
        forall|j: int| 0 < j < i ==> #[trigger] p[j] < m,
    decreases p.len() - k,
{
    if k < p.len() - 1 && p[k] >= m {
        k
    } else if k < p.len() - 1 {
        lemma_first_at_least(p, m, k + 1)
    } else {
        assert(inner_below(p, m));
        0
    }
}

/// The last inner node of a walk at or above `m`, where there is one.
proof fn lemma_last_at_least(p: Seq<int>, m: int, k: int) -> (i: int)
    requires
        0 <= k <= p.len() - 2,
        forall|j: int| k < j < p.len() - 1 ==> #[trigger] p[j] < m,
        !inner_below(p, m),
    ensures
        0 < i < p.len() - 1,
        p[i] >= m,
        forall|j: int| i < j < p.len() - 1 ==> #[trigger] p[j] < m,
    decreases k,
{
    if k > 0 && p[k] >= m {
        k
    } else if k > 0 {
        lemma_last_at_least(p, m, k - 1)
    } else {
        assert(inner_below(p, m));
        0
    }
}

/// Closes a square matrix under paths: afterwards an entry is set exactly
/// where the matrix it started as has a walk between the two nodes.
pub fn close_reach(reach: &mut Vec<Vec<bool>>, n: usize)
    requires
        is_square(rows(old(reach)@), n as nat),
    ensures
        is_square(rows(final(reach)@), n as nat),
        forall|x: int, y: int|
            0 <= x < n && 0 <= y < n ==> (#[trigger] final(reach)@[x]@[y] <==> reachable(
                rows(old(reach)@),
                x,
                y,
            )),
{
    let ghost adj = rows(reach@);
    proof {
        assert forall|x: int| 0 <= x < n implies (#[trigger] reach@[x])@.len() == n by {
            assert(adj[x] == reach@[x]@);
        }
        assert forall|x: int, y: int| 0 <= x < n && 0 <= y < n && #[trigger] reach@[x]@[y] implies reachable(
            adj,
            x,
            y,
        ) by {
            assert(adj[x][y] == reach@[x]@[y]);
            lemma_edge_reachable(adj, x, y);
        }
        assert forall|p: Seq<int>| #[trigger] is_walk(adj, p) && inner_below(p, 0) implies reach@[p[0]]@[p.last()] by {
            if p.len() > 2 {
                assert(p[1] < 0);
                assert(0 <= p[1] < adj.len());
            }
            assert(step(adj, p, 0));
            assert(p.last() == p[1]);
        }
    }
    let mut m: usize = 0;
    while m < n
        invariant
            m <= n,
            adj.len() == n,
            is_square(adj, n as nat),
            reach@.len() == n,
            forall|x: int| 0 <= x < n ==> (#[trigger] reach@[x])@.len() == n,
            forall|x: int, y: int| 0 <= x < n && 0 <= y < n && #[trigger] reach@[x]@[y] ==> reachable(adj, x, y),
            forall|p: Seq<int>| #[trigger] is_walk(adj, p) && inner_below(p, m as int) ==> reach@[p[0]]@[p.last()],
        decreases n - m,
    {
        let ghost r0 = rows(reach@);
        proof {
            assert forall|p: Seq<int>| #[trigger] is_walk(adj, p) && inner_below(p, m as int) implies r0[p[0]][p.last()] by {
                assert(reach@[p[0]]@[p.last()]);
            }
            assert forall|x: int, y: int| 0 <= x < n && 0 <= y < n && r0[x][y] implies reachable(adj, x, y) by {
                assert(reach@[x]@[y]);
            }
        }
        let mut a: usize = 0;
        while a < n
            invariant
                m < n,
                a <= n,
                adj.len() == n,
                is_square(adj, n as nat),
                is_square(r0, n as nat),
                reach@.len() == n,
                forall|x: int| 0 <= x < n ==> (#[trigger] reach@[x])@.len() == n,
                forall|x: int, y: int| 0 <= x < n && 0 <= y < n && #[trigger] reach@[x]@[y] ==> reachable(adj, x, y),
                forall|x: int, y: int| 0 <= x < n && 0 <= y < n && r0[x][y] ==> #[trigger] reach@[x]@[y],
                forall|y: int| 0 <= y < n ==> #[trigger] reach@[m as int]@[y] == r0[m as int][y],
                forall|x: int| 0 <= x < n ==> #[trigger] reach@[x]@[m as int] == r0[x][m as int],
                forall|x: int, y: int|
                    0 <= x < a && 0 <= y < n && r0[x][m as int] && r0[m as int][y] ==> #[trigger] reach@[x]@[y],
            decreases n - a,
        {
            if reach[a][m] {
                let mut b: usize = 0;
                while b < n
                    invariant
                        m < n,
                        a < n,
                        b <= n,
                        adj.len() == n,
                        is_square(adj, n as nat),
                        is_square(r0, n as nat),
                        r0[a as int][m as int],
                        reach@.len() == n,
                        forall|x: int| 0 <= x < n ==> (#[trigger] reach@[x])@.len() == n,
                        forall|x: int, y: int|
                            0 <= x < n && 0 <= y < n && #[trigger] reach@[x]@[y] ==> reachable(adj, x, y),
                        forall|x: int, y: int| 0 <= x < n && 0 <= y < n && r0[x][y] ==> #[trigger] reach@[x]@[y],
                        forall|y: int| 0 <= y < n ==> #[trigger] reach@[m as int]@[y] == r0[m as int][y],
                        forall|x: int| 0 <= x < n ==> #[trigger] reach@[x]@[m as int] == r0[x][m as int],
                        forall|x: int, y: int|
                            0 <= x < a && 0 <= y < n && r0[x][m as int] && r0[m as int][y] ==> #[trigger] reach@[x]@[y],
                        forall|y: int| 0 <= y < b && r0[m as int][y] ==> #[trigger] reach@[a as int]@[y],
                    decreases n - b,
                {
                    if reach[m][b] && !reach[a][b] {
                        let ghost before = reach@;
                        proof {
                            assert(reach@[a as int]@[m as int]);
                            assert(reach@[m as int]@[b as int]);
                            assert(reachable(adj, a as int, m as int));
                            assert(reachable(adj, m as int, b as int));
                            lemma_reachable_transitive(adj, a as int, m as int, b as int);
                        }
                        let mut row = reach.remove(a);
                        row.set(b, true);
                        reach.insert(a, row);
                        proof {
                            assert forall|x: int, y: int| 0 <= x < n && 0 <= y < n implies #[trigger] reach@[x]@[y]
                                == if x == a && y == b {
                                true
                            } else {
                                before[x]@[y]
                            } by {
                                if x < a {
                                    assert(reach@[x] == before[x]);
                                } else if x > a {
                                    assert(reach@[x] == before[x]);
                                }
                            }
                        }
                    }
                    b = b + 1;
                }
            } else {
                proof {
                    assert(!r0[a as int][m as int]);
                }
            }
            a = a + 1;
        }
        proof {
            assert forall|p: Seq<int>| #[trigger] is_walk(adj, p) && inner_below(p, m + 1) implies reach@[p[0]]@[p.last()] by {
                if inner_below(p, m as int) {
                    assert(r0[p[0]][p.last()]);
                } else {
                    let i = lemma_first_at_least(p, m as int, 1);
                    let j = lemma_last_at_least(p, m as int, p.len() - 2);
                    assert(p[i] == m);
                    assert(p[j] == m);
                    lemma_walk_split(adj, p, i);
                    lemma_walk_split(adj, p, j);
                    let left = p.subrange(0, i + 1);
                    let right = p.subrange(j, p.len() as int);
                    assert(inner_below(left, m as int)) by {
                        assert forall|k: int| 0 < k < left.len() - 1 implies #[trigger] left[k] < m by {
                            assert(left[k] == p[k]);
                        }
                    }
                    assert(inner_below(right, m as int)) by {
                        assert forall|k: int| 0 < k < right.len() - 1 implies #[trigger] right[k] < m by {
                            assert(right[k] == p[k + j]);
                        }
                    }
                    assert(r0[p[0]][m as int]);
                    assert(r0[m as int][p.last()]);
                }
            }
        }
        m = m + 1;
    }
    proof {
        assert forall|x: int, y: int| 0 <= x < n && 0 <= y < n && reachable(adj, x, y) implies #[trigger] reach@[x]@[y] by {
            let p = choose|p: Seq<int>| #[trigger] is_walk(adj, p) && p[0] == x && p.last() == y;
            assert forall|i: int| 0 < i < p.len() - 1 implies #[trigger] p[i] < n by {
                assert(0 <= p[i] < adj.len());
            }
            assert(inner_below(p, n as int));
        }
        assert(is_square(rows(reach@), n as nat)) by {
            assert forall|x: int| 0 <= x < n implies (#[trigger] rows(reach@)[x]).len() == n by {
                assert(rows(reach@)[x] == reach@[x]@);
            }
        }
    }
}

/// The matrix is closed under composition: what is reached from a reached
/// node is reached.
pub open spec fn transitive(r: Seq<Seq<bool>>, n: nat) -> bool {
    forall|x: int, y: int, z: int| 0 <= x < n && 0 <= y < n && 0 <= z < n && r[x][y] && r[y][z] ==> r[x][z]
}

/// `c` is in the group of `a`: not out yet (`e`), and `a` itself or reached
/// from `a` and reaching it.
pub open spec fn in_group_of(r: Seq<Seq<bool>>, e: Seq<bool>, a: int, c: int) -> bool {
    !e[c] && (c == a || (r[a][c] && r[c][a]))
}

/// The group of `a` is ready: whatever its members reach is out or in it.
pub open spec fn group_ready(r: Seq<Seq<bool>>, e: Seq<bool>, a: int, n: nat) -> bool {
    forall|m: int, c: int|
        0 <= m < n && 0 <= c < n && in_group_of(r, e, a, m) && #[trigger] r[m][c] && !e[c] ==> in_group_of(r, e, a, c)
}

/// How many of the first `k` entries are set.
pub open spec fn count_true(e: Seq<bool>, k: nat) -> nat
    decreases k,
{
    if k == 0 || k > e.len() {
        0
    } else {
        count_true(e, (k - 1) as nat) + if e[k - 1] {
            1nat
        } else {
            0nat
        }
    }
}

/// Whether `c` is not out yet and is `a` or reached from `a`.
pub open spec fn pending_from(r: Seq<Seq<bool>>, e: Seq<bool>, a: int, c: int) -> bool {
    !e[c] && (c == a || r[a][c])
}

/// How many of the first `k` nodes are not out yet and are `a` or reached from `a`.
pub open spec fn pending_count(r: Seq<Seq<bool>>, e: Seq<bool>, a: int, k: nat) -> nat
    decreases k,
{
    if k == 0 {
        0
    } else {
        pending_count(r, e, a, (k - 1) as nat) + if pending_from(r, e, a, k - 1) {
            1nat
        } else {
            0nat
        }
    }
}

proof fn lemma_pending_less(r: Seq<Seq<bool>>, e: Seq<bool>, x: int, y: int, k: nat, c0: int)
    requires
        forall|c: int| 0 <= c < k && pending_from(r, e, x, c) ==> pending_from(r, e, y, c),
        0 <= c0 < k,
        pending_from(r, e, y, c0),
        !pending_from(r, e, x, c0),
    ensures
        pending_count(r, e, x, k) < pending_count(r, e, y, k),
    decreases k,
{
    lemma_pending_le(r, e, x, y, (k - 1) as nat);
    if c0 < k - 1 {
        lemma_pending_less(r, e, x, y, (k - 1) as nat, c0);
    }
}

proof fn lemma_pending_le(r: Seq<Seq<bool>>, e: Seq<bool>, x: int, y: int, k: nat)
    requires
        forall|c: int| 0 <= c < k && pending_from(r, e, x, c) ==> pending_from(r, e, y, c),
    ensures
        pending_count(r, e, x, k) <= pending_count(r, e, y, k),
    decreases k,
{
    if k > 0 {
        lemma_pending_le(r, e, x, y, (k - 1) as nat);
    }
}

/// Among the nodes not out yet, one has a ready group, where the matrix is
/// closed under composition: follow what is reached but does not reach back,
/// and the count of what is reached goes down until a group is ready.
pub proof fn lemma_some_group_ready(r: Seq<Seq<bool>>, e: Seq<bool>, n: nat, a: int)
    requires
        is_square(r, n),
        e.len() == n,
        0 <= a < n,
        !e[a],
        transitive(r, n),
    ensures
        exists|b: int| 0 <= b < n && !e[b] && group_ready(r, e, b, n),
    decreases pending_count(r, e, a, n),
{
    if !group_ready(r, e, a, n) {
        let (m, c) = choose|m: int, c: int|
            0 <= m < n && 0 <= c < n && in_group_of(r, e, a, m) && #[trigger] r[m][c] && !e[c] && !in_group_of(
                r,
                e,
                a,
                c,
            );
        if m != a {
            assert(r[a][m] && r[m][c]);
            assert(r[a][c]);
        }
        assert(r[a][c]);
        assert(c != a);
        assert(!r[c][a]);
        assert forall|d: int| 0 <= d < n && pending_from(r, e, c, d) implies pending_from(r, e, a, d) by {
            if d != c {
                assert(r[c][d]);
                assert(r[a][c] && r[c][d]);
                assert(r[a][d]);
            }
        }
        assert(pending_from(r, e, a, a));
        assert(!pending_from(r, e, c, a));
        lemma_pending_less(r, e, c, a, n, a);
        lemma_some_group_ready(r, e, n, c);
    }
}

/// Setting more entries, one of them newly, raises the count.
pub proof fn lemma_count_grows(e0: Seq<bool>, e1: Seq<bool>, k: nat, j: int)
    requires
        e0.len() == e1.len(),
        k <= e0.len(),
        forall|c: int| 0 <= c < k && e0[c] ==> e1[c],
        0 <= j < k,
        !e0[j],
        e1[j],
    ensures
        count_true(e1, k) >= count_true(e0, k) + 1,
    decreases k,
{
    lemma_count_mono(e0, e1, (k - 1) as nat);
    if j < k - 1 {
        lemma_count_grows(e0, e1, (k - 1) as nat, j);
    }
}

proof fn lemma_count_mono(e0: Seq<bool>, e1: Seq<bool>, k: nat)
    requires
        e0.len() == e1.len(),
        k <= e0.len(),
        forall|c: int| 0 <= c < k && e0[c] ==> e1[c],
    ensures
        count_true(e1, k) >= count_true(e0, k),
    decreases k,
{
    if k > 0 {
        lemma_count_mono(e0, e1, (k - 1) as nat);
    }
}

/// A count of `n` entries set out of `n`: all are set.
pub proof fn lemma_count_all(e: Seq<bool>, k: nat)
    requires
        k <= e.len(),
        count_true(e, k) >= k,
    ensures
        forall|c: int| 0 <= c < k ==> e[c],
    decreases k,
{
    if k > 0 {
        lemma_count_at_most(e, (k - 1) as nat);
        lemma_count_all(e, (k - 1) as nat);
    }
}

proof fn lemma_count_at_most(e: Seq<bool>, k: nat)
    requires
        k <= e.len(),
    ensures
        count_true(e, k) <= k,
    decreases k,
{
    if k > 0 {
        lemma_count_at_most(e, (k - 1) as nat);
    }
}

} // verus!
