//! Directed-cycle detection over an index-based edge list.
//!
//! Finalization numbers the graph's nodes `0..n` and turns every connection
//! into an edge `(consumer, producer)`.  The checker repeatedly marks nodes
//! all of whose dependencies are marked, assigning each a rank; either every
//! node gets a rank (the ranks then witness acyclicity, and later drive the
//! evaluator's termination) or the unmarked remainder proves a cycle.

use vstd::prelude::*;

verus! {

/// Whether the edge list holds an edge from `a` to `b`.
pub open spec fn has_edge(es: Seq<(usize, usize)>, a: int, b: int) -> bool {
    exists|k: int| 0 <= k < es.len() && es[k].0 == a && es[k].1 == b
}

/// Whether `p` is a walk along edges of `es`.
pub open spec fn is_walk(es: Seq<(usize, usize)>, p: Seq<int>) -> bool {
    forall|k: int| #![trigger p[k]] 0 <= k < p.len() - 1 ==> has_edge(es, p[k], p[k + 1])
}

/// Whether `p` witnesses a directed cycle: a walk of at least one edge that
/// returns to its starting vertex.
pub open spec fn is_cycle(es: Seq<(usize, usize)>, p: Seq<int>) -> bool {
    &&& p.len() >= 2
    &&& p[0] == p[p.len() - 1]
    &&& is_walk(es, p)
}

/// Whether the edge list has a directed cycle.
pub open spec fn has_cycle(es: Seq<(usize, usize)>) -> bool {
    exists|p: Seq<int>| is_cycle(es, p)
}

/// Every edge steps down in rank (from consumer to producer).
pub open spec fn rank_descends(es: Seq<(usize, usize)>, rank: Seq<u64>) -> bool {
    forall|k: int|
        0 <= k < es.len() ==> es[k].0 < rank.len() && es[k].1 < rank.len()
            && rank[es[k].1 as int] < rank[es[k].0 as int]
}

/// Along a walk, the rank of the last vertex is strictly below the rank of
/// the first, provided every edge steps down in rank.
proof fn lemma_walk_rank(es: Seq<(usize, usize)>, rank: Seq<u64>, p: Seq<int>)
    requires
        rank_descends(es, rank),
        p.len() >= 2,
        is_walk(es, p),
    ensures
        0 <= p[0] < rank.len(),
        0 <= p[p.len() - 1] < rank.len(),
        rank[p[p.len() - 1]] < rank[p[0]],
    decreases p.len(),
{
    assert(has_edge(es, p[0], p[1]));
    let k = choose|k: int| 0 <= k < es.len() && es[k].0 == p[0] && es[k].1 == p[1];
    if p.len() == 2 {
    } else {
        let q = p.drop_first();
        assert forall|j: int| 0 <= j < q.len() - 1 implies #[trigger] has_edge(es, q[j], q[j + 1]) by {
            assert(has_edge(es, p[j + 1], p[j + 2]));
        }
        lemma_walk_rank(es, rank, q);
        assert(q[q.len() - 1] == p[p.len() - 1]);
    }
}

/// Ranks that step down along every edge rule out any directed cycle.
pub proof fn lemma_rank_no_cycle(es: Seq<(usize, usize)>, rank: Seq<u64>)
    requires
        rank_descends(es, rank),
    ensures
        !has_cycle(es),
{
    if has_cycle(es) {
        let p = choose|p: Seq<int>| is_cycle(es, p);
        lemma_walk_rank(es, rank, p);
    }
}

/// Every edge's endpoints lie below `n`.
pub open spec fn edges_bounded(es: Seq<(usize, usize)>, n: int) -> bool {
    forall|k: int| 0 <= k < es.len() ==> es[k].0 < n && es[k].1 < n
}

/// A state where every unmarked vertex still depends on an unmarked vertex.
pub open spec fn stuck(es: Seq<(usize, usize)>, done: Seq<bool>) -> bool {
    forall|u: int|
        0 <= u < done.len() && !done[u] ==> exists|k: int|
            0 <= k < es.len() && es[k].0 == u && !done[es[k].1 as int]
}

/// Extends a walk through unmarked vertices of a stuck state until it has
/// `target` vertices.
proof fn lemma_extend_walk(es: Seq<(usize, usize)>, done: Seq<bool>, p: Seq<int>, target: nat) -> (q: Seq<int>)
    requires
        stuck(es, done),
        edges_bounded(es, done.len() as int),
        1 <= p.len() <= target,
        is_walk(es, p),
        forall|i: int| 0 <= i < p.len() ==> 0 <= p[i] < done.len() && !done[p[i]],
    ensures
        q.len() == target,
        is_walk(es, q),
        forall|i: int| 0 <= i < q.len() ==> 0 <= q[i] < done.len() && !done[q[i]],
    decreases target - p.len(),
{
    if p.len() == target {
        p
    } else {
        let u = p[p.len() - 1];
        let k = choose|k: int| 0 <= k < es.len() && es[k].0 == u && !done[es[k].1 as int];
        let v = es[k].1 as int;
        let p2 = p.push(v);
        assert forall|j: int| 0 <= j < p2.len() - 1 implies #[trigger] has_edge(es, p2[j], p2[j + 1]) by {
            if j < p.len() - 1 {
                assert(has_edge(es, p[j], p[j + 1]));
            } else {
                assert(p2[j] == u && p2[j + 1] == v);
            }
        }
        lemma_extend_walk(es, done, p2, target)
    }
}

/// In a stuck state with an unmarked vertex, the edges have a directed
/// cycle: a long enough walk through the finitely many unmarked vertices
/// must revisit one.
pub proof fn lemma_stuck_cycle(es: Seq<(usize, usize)>, done: Seq<bool>, u0: int)
    requires
        stuck(es, done),
        edges_bounded(es, done.len() as int),
        0 <= u0 < done.len(),
        !done[u0],
    ensures
        has_cycle(es),
{
    let n = done.len() as int;
    let q = lemma_extend_walk(es, done, seq![u0], (n + 1) as nat);
    if q.no_duplicates() {
        q.unique_seq_to_set();
        assert(q.to_set().subset_of(vstd::set_lib::set_int_range(0, n)));
        vstd::set_lib::lemma_int_range(0, n);
        vstd::set_lib::lemma_len_subset(q.to_set(), vstd::set_lib::set_int_range(0, n));
        assert(false);
    }
    let (i, j) = choose|i: int, j: int| 0 <= i < q.len() && 0 <= j < q.len() && i != j && q[i]
        == q[j];
    let (a, b) = if i < j {
        (i, j)
    } else {
        (j, i)
    };
    let c = q.subrange(a, b + 1);
    assert(c[0] == c[c.len() - 1]);
    assert forall|k: int| 0 <= k < c.len() - 1 implies #[trigger] has_edge(es, c[k], c[k + 1]) by {
        assert(has_edge(es, q[a + k], q[a + k + 1]));
    }
    assert(is_cycle(es, c));
}

/// How many entries of `s` are still false.
pub open spec fn count_false(s: Seq<bool>) -> nat
    decreases s.len(),
{
    if s.len() == 0 {
        0
    } else {
        (if s[0] {
            0nat
        } else {
            1nat
        }) + count_false(s.drop_first())
    }
}

/// Appending an entry adds one unmarked entry when it is false.
proof fn lemma_count_false_push(s: Seq<bool>, b: bool)
    ensures
        count_false(s.push(b)) == count_false(s) + (if b {
            0nat
        } else {
            1nat
        }),
    decreases s.len(),
{
    if s.len() == 0 {
        assert(s.push(b)[0] == b);
        assert(s.push(b).drop_first() =~= Seq::<bool>::empty());
        assert(count_false(s.push(b).drop_first()) == 0);
        assert(count_false(s) == 0);
    } else {
        assert(s.push(b)[0] == s[0]);
        assert(s.push(b).drop_first() =~= s.drop_first().push(b));
        lemma_count_false_push(s.drop_first(), b);
        assert(count_false(s.push(b)) == (if s[0] {
            0nat
        } else {
            1nat
        }) + count_false(s.drop_first().push(b)));
    }
}

/// Marking one unmarked entry lowers the count of unmarked entries by one.
proof fn lemma_count_false_update(s: Seq<bool>, i: int)
    requires
        0 <= i < s.len(),
        !s[i],
    ensures
        count_false(s.update(i, true)) + 1 == count_false(s),
    decreases s.len(),
{
    if i == 0 {
        assert(s.update(0, true).drop_first() =~= s.drop_first());
    } else {
        assert(s.update(i, true).drop_first() =~= s.drop_first().update(i - 1, true));
        lemma_count_false_update(s.drop_first(), i - 1);
    }
}

/// A sequence marked everywhere has no unmarked entries.
proof fn lemma_count_false_all(s: Seq<bool>)
    requires
        forall|i: int| 0 <= i < s.len() ==> s[i],
    ensures
        count_false(s) == 0,
    decreases s.len(),
{
    if s.len() > 0 {
        assert forall|i: int| 0 <= i < s.drop_first().len() implies s.drop_first()[i] by {
            assert(s[i + 1]);
        }
        lemma_count_false_all(s.drop_first());
    }
}

/// A sequence without unmarked entries is marked everywhere.
proof fn lemma_count_false_zero(s: Seq<bool>)
    requires
        count_false(s) == 0,
    ensures
        forall|i: int| 0 <= i < s.len() ==> s[i],
    decreases s.len(),
{
    if s.len() > 0 {
        lemma_count_false_zero(s.drop_first());
        assert forall|i: int| 0 <= i < s.len() implies s[i] by {
            if i > 0 {
                assert(s.drop_first()[i - 1]);
            }
        }
    }
}

/// Tries to rank the vertices `0..n` so that every edge steps down in rank.
/// Returns the ranks if the edges are acyclic, and nothing if they have a
/// directed cycle.
pub fn find_ranks(n: usize, es: &Vec<(usize, usize)>) -> (r: Option<Vec<u64>>)
    requires
        forall|k: int| 0 <= k < es@.len() ==> es@[k].0 < n && es@[k].1 < n,
    ensures
        match r {
            Some(rank) => rank@.len() == n && rank_descends(es@, rank@) && !has_cycle(es@),
            None => has_cycle(es@),
        },
{
    let mut done: Vec<bool> = Vec::new();
    let mut rank: Vec<u64> = Vec::new();
    let mut filled: usize = 0;
    while filled < n
        invariant
            done@.len() == filled,
            rank@.len() == filled,
            filled <= n,
            count_false(done@) == filled,
            forall|i: int| 0 <= i < filled ==> !done@[i],
        decreases n - filled,
    {
        proof {
            lemma_count_false_push(done@, false);
        }
        done.push(false);
        rank.push(0);
        filled = filled + 1;
    }
    let mut t: u64 = 0;
    let mut progress = true;
    while progress
        invariant
            done@.len() == n,
            rank@.len() == n,
            forall|k: int| 0 <= k < es@.len() ==> es@[k].0 < n && es@[k].1 < n,
            t as int == n - count_false(done@),
            forall|v: int| 0 <= v < n && done@[v] ==> rank@[v] < t,
            forall|k: int|
                0 <= k < es@.len() && done@[es@[k].0 as int] ==> done@[es@[k].1 as int]
                    && rank@[es@[k].1 as int] < rank@[es@[k].0 as int],
            !progress ==> stuck(es@, done@),
        decreases count_false(done@) + (if progress {
            1int
        } else {
            0int
        }),
    {
        progress = false;
        let ghost sweep_entry = done@;
        let mut u: usize = 0;
        while u < n
            invariant
                done@.len() == n,
                rank@.len() == n,
                u <= n,
                forall|k: int| 0 <= k < es@.len() ==> es@[k].0 < n && es@[k].1 < n,
                t as int == n - count_false(done@),
                forall|v: int| 0 <= v < n && done@[v] ==> rank@[v] < t,
                forall|k: int|
                    0 <= k < es@.len() && done@[es@[k].0 as int] ==> done@[es@[k].1 as int]
                        && rank@[es@[k].1 as int] < rank@[es@[k].0 as int],
                !progress ==> done@ == sweep_entry,
                !progress ==> forall|v: int|
                    0 <= v < u && !done@[v] ==> exists|k: int|
                        0 <= k < es@.len() && es@[k].0 == v && !done@[es@[k].1 as int],
                count_false(done@) <= count_false(sweep_entry),
                progress ==> count_false(done@) < count_false(sweep_entry),
            decreases n - u,
        {
            if !done[u] {
                // Is every dependency of `u` already marked?
                let mut ok = true;
                let mut k: usize = 0;
                while k < es.len()
                    invariant
                        done@.len() == n,
                        forall|j: int| 0 <= j < es@.len() ==> es@[j].0 < n && es@[j].1 < n,
                        k <= es@.len(),
                        ok ==> forall|j: int|
                            0 <= j < k && es@[j].0 == u as int ==> done@[es@[j].1 as int],
                        !ok ==> exists|j: int|
                            0 <= j < es@.len() && es@[j].0 == u as int && !done@[es@[j].1 as int],
                    decreases es@.len() - k,
                {
                    let (src, dst) = (es[k].0, es[k].1);
                    if src == u && !done[dst] {
                        ok = false;
                    }
                    k = k + 1;
                }
                if ok {
                    proof {
                        lemma_count_false_update(done@, u as int);
                    }
                    done[u] = true;
                    rank[u] = t;
                    t = t + 1;
                    progress = true;
                }
            }
            u = u + 1;
        }
    }
    if t == n as u64 {
        proof {
            lemma_count_false_zero(done@);
            assert(rank_descends(es@, rank@));
            lemma_rank_no_cycle(es@, rank@);
        }
        Some(rank)
    } else {
        proof {
            if forall|v: int| 0 <= v < n ==> done@[v] {
                lemma_count_false_all(done@);
            }
            let u0 = choose|v: int| 0 <= v < n && !done@[v];
            lemma_stuck_cycle(es@, done@, u0);
        }
        None
    }
}

} // verus!
