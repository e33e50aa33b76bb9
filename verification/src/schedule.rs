//! The registry of ECS systems and the order in which they run: by stage, then
//! by phase, then by the `before` / `after` constraints within a phase.

use vstd::prelude::*;
use vstd::set_lib::{set_int_range, lemma_int_range, lemma_len_subset, lemma_subset_equality};
use crate::ecs::{Stage, SystemPhase, EntityId, stage_rank, phase_rank};
use crate::text::{str_chars, chars_eq};

verus! {

/// A registered system: where it runs, its ordering constraints, and the
/// handle the caller runs it by.
pub struct SystemDescriptor<F> {
    pub name: &'static str,
    pub stage: Stage,
    pub phase: SystemPhase,
    pub before: Vec<&'static str>,
    pub after: Vec<&'static str>,
    pub run: F,
}

impl<F> SystemDescriptor<F> {
    /// The (stage, phase) bucket of a system as one number; buckets run in
    /// increasing order.
    pub open spec fn order_key(&self) -> int {
        stage_rank(self.stage) * 64 + phase_rank(self.phase)
    }

    fn key(&self) -> (k: u16)
        ensures
            k == self.order_key(),
    {
        let s = self.stage.code() as u16;
        let p = self.phase.code() as u16;
        s * 64 + p
    }
}

proof fn lemma_order_key_range<F>(s: SystemDescriptor<F>)
    ensures
        0 <= s.order_key() < 65536,
{
}

/// Every index below `n` occurs at most once in `o`, and nothing else does.
pub open spec fn distinct_below(o: Seq<usize>, n: int) -> bool {
    &&& forall|i: int| 0 <= i < o.len() ==> (o[i] as int) < n
    &&& forall|i: int, j: int| 0 <= i < j < o.len() ==> o[i] != o[j]
}

/// `o` lists each index below `n` exactly once.
pub open spec fn is_permutation(o: Seq<usize>, n: int) -> bool {
    &&& o.len() == n
    &&& distinct_below(o, n)
}

/// The keys of the systems that `o` lists never decrease along `o`.
pub open spec fn keys_sorted(o: Seq<usize>, keys: Seq<u16>) -> bool {
    forall|i: int, j: int| 0 <= i <= j < o.len() ==> keys[o[i] as int] <= keys[o[j] as int]
}

/// A sequence of distinct indices below `m` is no longer than `m`, and as long
/// as `m` when it lists every index below `m`.
proof fn lemma_distinct_len(s: Seq<usize>, m: int)
    requires
        0 <= m <= usize::MAX + 1,
        distinct_below(s, m),
    ensures
        s.len() <= m,
        (forall|x: usize| (x as int) < m ==> s.contains(x)) ==> s.len() == m,
        s.len() == m ==> forall|x: usize| (x as int) < m ==> s.contains(x),
{
    let t = s.map_values(|x: usize| x as int);
    assert(t.no_duplicates()) by {
        assert forall|i: int, j: int| 0 <= i < t.len() && 0 <= j < t.len() && i != j implies t[i]
            != t[j] by {
            if i < j {
                assert(s[i] != s[j]);
            } else {
                assert(s[j] != s[i]);
            }
        }
    }
    t.unique_seq_to_set();
    lemma_int_range(0, m);
    assert(t.to_set().subset_of(set_int_range(0, m)));
    lemma_len_subset(t.to_set(), set_int_range(0, m));
    if forall|x: usize| (x as int) < m ==> s.contains(x) {
        assert forall|y: int| set_int_range(0, m).contains(y) implies t.to_set().contains(y) by {
            let x = y as usize;
            assert(x as int == y);
            assert(s.contains(x));
            let i = choose|i: int| 0 <= i < s.len() && s[i] == x;
            assert(t[i] == y);
        }
        assert(t.to_set() =~= set_int_range(0, m));
    }
    if s.len() == m {
        lemma_subset_equality(t.to_set(), set_int_range(0, m));
        assert forall|x: usize| (x as int) < m implies s.contains(x) by {
            assert(set_int_range(0, m).contains(x as int));
            assert(t.to_set().contains(x as int));
            let i = choose|i: int| 0 <= i < t.len() && t[i] == x as int;
            assert(s[i] == x);
        }
    }
}

/// The positions in `o` of the systems that run in `stage`, in order.
pub open spec fn stage_positions<F>(o: Seq<usize>, sys: Seq<SystemDescriptor<F>>, stage: Stage) -> Seq<usize>
    decreases o.len(),
{
    if o.len() == 0 {
        Seq::empty()
    } else {
        let rest = stage_positions(o.drop_last(), sys, stage);
        if sys[o.last() as int].stage == stage {
            rest.push(o.last())
        } else {
            rest
        }
    }
}

/// The last position below `k` in `bucket` of a system named `name`.
pub open spec fn last_named_below<F>(bucket: Seq<usize>, sys: Seq<SystemDescriptor<F>>, name: Seq<char>, k: int) -> Option<int>
    decreases k,
{
    if k <= 0 {
        None
    } else if sys[bucket[k - 1] as int].name@ == name {
        Some(k - 1)
    } else {
        last_named_below(bucket, sys, name, k - 1)
    }
}

/// The last position in `bucket` of a system named `name`.
pub open spec fn last_named<F>(bucket: Seq<usize>, sys: Seq<SystemDescriptor<F>>, name: Seq<char>) -> Option<int> {
    last_named_below(bucket, sys, name, bucket.len() as int)
}

/// One of the first `lim` `after` entries of the system at position `q`
/// names the system at position `p`.
pub open spec fn after_edge<F>(bucket: Seq<usize>, sys: Seq<SystemDescriptor<F>>, p: int, q: int, lim: int) -> bool {
    exists|a: int|
        0 <= a < lim && a < sys[bucket[q] as int].after@.len() && #[trigger] last_named(
            bucket,
            sys,
            sys[bucket[q] as int].after@[a]@,
        ) == Some(p)
}

/// One of the first `lim` `before` entries of the system at position `p`
/// names the system at position `q`.
pub open spec fn before_edge<F>(bucket: Seq<usize>, sys: Seq<SystemDescriptor<F>>, p: int, q: int, lim: int) -> bool {
    exists|b: int|
        0 <= b < lim && b < sys[bucket[p] as int].before@.len() && #[trigger] last_named(
            bucket,
            sys,
            sys[bucket[p] as int].before@[b]@,
        ) == Some(q)
}

/// Within `bucket`, the system at position `p` must run before the one at
/// position `q`: `q` runs after a name that resolves to `p`, or `p` runs
/// before a name that resolves to `q` (a name resolves to the last system
/// of the bucket that has it).
pub open spec fn bucket_edge<F>(bucket: Seq<usize>, sys: Seq<SystemDescriptor<F>>, p: int, q: int) -> bool {
    ||| after_edge(bucket, sys, p, q, sys[bucket[q] as int].after@.len() as int)
    ||| before_edge(bucket, sys, p, q, sys[bucket[p] as int].before@.len() as int)
}

/// The edges recorded once the systems at positions below `u` are done, and
/// of the system at `u` its first `ua` `after` and first `ub` `before`
/// entries.
pub open spec fn built_edge<F>(
    bucket: Seq<usize>,
    sys: Seq<SystemDescriptor<F>>,
    p: int,
    q: int,
    u: int,
    ua: int,
    ub: int,
) -> bool {
    ||| q < u && after_edge(bucket, sys, p, q, sys[bucket[q] as int].after@.len() as int)
    ||| p < u && before_edge(bucket, sys, p, q, sys[bucket[p] as int].before@.len() as int)
    ||| q == u && after_edge(bucket, sys, p, u, ua)
    ||| p == u && before_edge(bucket, sys, u, q, ub)
}

/// An order of the positions of a bucket as Kahn's algorithm gives it: the
/// first `m` positions each follow every position that must run before
/// them; each later one has such a position among the later ones (it waits
/// on a cycle).
pub open spec fn kahn_split<F>(pos: Seq<usize>, bucket: Seq<usize>, sys: Seq<SystemDescriptor<F>>, m: int) -> bool {
    &&& 0 <= m <= pos.len()
    &&& forall|j: int, x: int|
        0 <= j < m && 0 <= x < bucket.len() && #[trigger] bucket_edge(bucket, sys, x, pos[j] as int) ==> exists|i: int|
            0 <= i < j && pos[i] as int == x
    &&& forall|j: int| #![trigger pos[j]] m <= j < pos.len() ==> waits_in_tail(pos, bucket, sys, m, pos[j] as int)
}

/// Some position outside the first `m` of `pos` must run before `v`.
pub open spec fn waits_in_tail<F>(pos: Seq<usize>, bucket: Seq<usize>, sys: Seq<SystemDescriptor<F>>, m: int, v: int) -> bool {
    exists|x: int|
        0 <= x < bucket.len() && #[trigger] bucket_edge(bucket, sys, x, v) && forall|i: int| 0 <= i < m ==> pos[i] as int != x
}

/// Some position below `n` outside `done` has `v` in its adjacency list.
pub open spec fn has_pending_pred(aj: Seq<Seq<usize>>, done: Seq<usize>, v: usize, n: int) -> bool {
    exists|x: int| 0 <= x < n && aj[x].contains(v) && !done.contains(x as usize)
}

/// The adjacency lists as sequences.
pub open spec fn adj_view(adj: Seq<Vec<usize>>) -> Seq<Seq<usize>> {
    adj.map_values(|v: Vec<usize>| v@)
}

/// How many positions below `k` outside `done` have `y` in their adjacency
/// list.
pub open spec fn pending_preds(adj: Seq<Seq<usize>>, y: usize, k: int, done: Seq<usize>) -> nat
    decreases k,
{
    if k <= 0 {
        0
    } else {
        pending_preds(adj, y, k - 1, done) + (if adj[k - 1].contains(y) && !done.contains((k - 1) as usize) {
            1nat
        } else {
            0nat
        })
    }
}

proof fn lemma_pending_bound(adj: Seq<Seq<usize>>, y: usize, k: int, done: Seq<usize>)
    requires
        0 <= k,
    ensures
        pending_preds(adj, y, k, done) <= k,
    decreases k,
{
    if k > 0 {
        lemma_pending_bound(adj, y, k - 1, done);
    }
}

proof fn lemma_pending_zero(adj: Seq<Seq<usize>>, y: usize, k: int, done: Seq<usize>, x: int)
    requires
        0 <= x < k,
        k <= usize::MAX + 1,
        pending_preds(adj, y, k, done) == 0,
        adj[x].contains(y),
    ensures
        done.contains(x as usize),
    decreases k,
{
    if x < k - 1 {
        lemma_pending_zero(adj, y, k - 1, done, x);
    }
}

proof fn lemma_pending_positive(adj: Seq<Seq<usize>>, y: usize, k: int, done: Seq<usize>)
    requires
        0 <= k <= usize::MAX + 1,
        pending_preds(adj, y, k, done) > 0,
    ensures
        exists|x: int| 0 <= x < k && adj[x].contains(y) && !done.contains(x as usize),
    decreases k,
{
    if pending_preds(adj, y, k - 1, done) > 0 {
        lemma_pending_positive(adj, y, k - 1, done);
        let x = choose|x: int| 0 <= x < k - 1 && adj[x].contains(y) && !done.contains(x as usize);
        assert(0 <= x < k && adj[x].contains(y) && !done.contains(x as usize));
    } else {
        assert(adj[k - 1].contains(y) && !done.contains((k - 1) as usize));
    }
}

proof fn lemma_pending_done_push(adj: Seq<Seq<usize>>, y: usize, k: int, done: Seq<usize>, u: usize)
    requires
        0 <= k <= usize::MAX + 1,
    ensures
        pending_preds(adj, y, k, done.push(u)) + (if (u as int) < k && adj[u as int].contains(y) && !done.contains(u) {
            1int
        } else {
            0int
        }) == pending_preds(adj, y, k, done),
    decreases k,
{
    if k > 0 {
        lemma_pending_done_push(adj, y, k - 1, done, u);
        let x = (k - 1) as usize;
        assert(done.push(u).contains(x) <==> (done.contains(x) || x == u)) by {
            if done.push(u).contains(x) {
                let i = choose|i: int| 0 <= i < done.push(u).len() && done.push(u)[i] == x;
                if i < done.len() {
                    assert(done[i] == x);
                }
            }
            if done.contains(x) {
                let i = choose|i: int| 0 <= i < done.len() && done[i] == x;
                assert(done.push(u)[i] == x);
            }
            if x == u {
                assert(done.push(u)[done.len() as int] == x);
            }
        }
    }
}

proof fn lemma_pending_add_edge(adj: Seq<Seq<usize>>, x0: int, y0: usize, y: usize, k: int, done: Seq<usize>)
    requires
        0 <= x0 < adj.len(),
        !adj[x0].contains(y0),
        0 <= k <= adj.len(),
        k <= usize::MAX + 1,
        !done.contains(x0 as usize),
    ensures
        pending_preds(adj.update(x0, adj[x0].push(y0)), y, k, done) == pending_preds(adj, y, k, done) + (if x0 < k
            && y == y0 {
            1int
        } else {
            0int
        }),
    decreases k,
{
    let adj2 = adj.update(x0, adj[x0].push(y0));
    if k > 0 {
        lemma_pending_add_edge(adj, x0, y0, y, k - 1, done);
        if k - 1 == x0 {
            assert(adj2[x0] == adj[x0].push(y0));
            assert(adj2[x0].contains(y) <==> (adj[x0].contains(y) || y == y0)) by {
                if adj2[x0].contains(y) {
                    let i = choose|i: int| 0 <= i < adj2[x0].len() && adj2[x0][i] == y;
                    if i < adj[x0].len() {
                        assert(adj[x0][i] == y);
                    }
                }
                if adj[x0].contains(y) {
                    let i = choose|i: int| 0 <= i < adj[x0].len() && adj[x0][i] == y;
                    assert(adj2[x0][i] == y);
                }
                if y == y0 {
                    assert(adj2[x0][adj[x0].len() as int] == y);
                }
            }
        } else {
            assert(adj2[k - 1] == adj[k - 1]);
        }
    }
}

proof fn lemma_pending_empty(adj: Seq<Seq<usize>>, y: usize, k: int, done: Seq<usize>)
    requires
        forall|x: int| 0 <= x < k ==> adj[x].len() == 0,
    ensures
        pending_preds(adj, y, k, done) == 0,
    decreases k,
{
    if k > 0 {
        lemma_pending_empty(adj, y, k - 1, done);
        assert(!adj[k - 1].contains(y));
    }
}

proof fn lemma_after_edge_step<F>(bk: Seq<usize>, sy: Seq<SystemDescriptor<F>>, p: int, q: int, lim: int)
    requires
        0 <= lim,
    ensures
        after_edge(bk, sy, p, q, lim + 1) <==> (after_edge(bk, sy, p, q, lim) || (lim < sy[bk[q] as int].after@.len()
            && last_named(bk, sy, sy[bk[q] as int].after@[lim]@) == Some(p))),
{
    if after_edge(bk, sy, p, q, lim + 1) {
        let a = choose|a: int|
            0 <= a < lim + 1 && a < sy[bk[q] as int].after@.len() && #[trigger] last_named(
                bk,
                sy,
                sy[bk[q] as int].after@[a]@,
            ) == Some(p);
        if a < lim {
            assert(after_edge(bk, sy, p, q, lim));
        }
    }
    if after_edge(bk, sy, p, q, lim) {
        let a = choose|a: int|
            0 <= a < lim && a < sy[bk[q] as int].after@.len() && #[trigger] last_named(
                bk,
                sy,
                sy[bk[q] as int].after@[a]@,
            ) == Some(p);
        assert(after_edge(bk, sy, p, q, lim + 1));
    }
    if lim < sy[bk[q] as int].after@.len() && last_named(bk, sy, sy[bk[q] as int].after@[lim]@) == Some(p) {
        assert(after_edge(bk, sy, p, q, lim + 1));
    }
}

proof fn lemma_before_edge_step<F>(bk: Seq<usize>, sy: Seq<SystemDescriptor<F>>, p: int, q: int, lim: int)
    requires
        0 <= lim,
    ensures
        before_edge(bk, sy, p, q, lim + 1) <==> (before_edge(bk, sy, p, q, lim) || (lim < sy[bk[p] as int].before@.len()
            && last_named(bk, sy, sy[bk[p] as int].before@[lim]@) == Some(q))),
{
    if before_edge(bk, sy, p, q, lim + 1) {
        let b = choose|b: int|
            0 <= b < lim + 1 && b < sy[bk[p] as int].before@.len() && #[trigger] last_named(
                bk,
                sy,
                sy[bk[p] as int].before@[b]@,
            ) == Some(q);
        if b < lim {
            assert(before_edge(bk, sy, p, q, lim));
        }
    }
    if before_edge(bk, sy, p, q, lim) {
        let b = choose|b: int|
            0 <= b < lim && b < sy[bk[p] as int].before@.len() && #[trigger] last_named(
                bk,
                sy,
                sy[bk[p] as int].before@[b]@,
            ) == Some(q);
        assert(before_edge(bk, sy, p, q, lim + 1));
    }
    if lim < sy[bk[p] as int].before@.len() && last_named(bk, sy, sy[bk[p] as int].before@[lim]@) == Some(q) {
        assert(before_edge(bk, sy, p, q, lim + 1));
    }
}

/// Whether `x` occurs in `v`.
fn vec_has(v: &Vec<usize>, x: usize) -> (r: bool)
    ensures
        r == v@.contains(x),
{
    let mut i: usize = 0;
    while i < v.len()
        invariant
            i <= v@.len(),
            forall|j: int| 0 <= j < i ==> v@[j] != x,
        decreases v@.len() - i,
    {
        if v[i] == x {
            assert(v@[i as int] == x);
            return true;
        }
        i = i + 1;
    }
    false
}

/// Adjacency lists over `n` positions, each without repeats, with in-degrees
/// counting the lists that hold each position.
pub open spec fn graph_ok(adj: Seq<Vec<usize>>, deg: Seq<usize>, n: int) -> bool {
    &&& adj.len() == n
    &&& deg.len() == n
    &&& forall|a: int, k: int| 0 <= a < n && 0 <= k < adj[a]@.len() ==> (#[trigger] adj[a]@[k] as int) < n
    &&& forall|a: int, i: int, j: int|
        0 <= a < n && 0 <= i < j < adj[a]@.len() ==> #[trigger] adj[a]@[i] != #[trigger] adj[a]@[j]
    &&& forall|y: int| 0 <= y < n ==> #[trigger] deg[y] == pending_preds(adj_view(adj), y as usize, n, Seq::empty())
}

/// The adjacency lists hold exactly the edges recorded so far.
pub open spec fn edges_are<F>(adj: Seq<Vec<usize>>, bk: Seq<usize>, sy: Seq<SystemDescriptor<F>>, u: int, ua: int, ub: int) -> bool {
    forall|p: int, q: int|
        0 <= p < bk.len() && 0 <= q < bk.len() ==> (adj[p]@.contains(q as usize) <==> #[trigger] built_edge(
            bk,
            sy,
            p,
            q,
            u,
            ua,
            ub,
        ))
}

/// Adds the edge `x -> y` unless it is there.
fn add_edge(adj: &mut Vec<Vec<usize>>, in_degree: &mut Vec<usize>, x: usize, y: usize, n: usize)
    requires
        graph_ok(old(adj)@, old(in_degree)@, n as int),
        x < n,
        y < n,
    ensures
        graph_ok(final(adj)@, final(in_degree)@, n as int),
        forall|p: int, q: usize|
            0 <= p < n ==> (#[trigger] final(adj)@[p]@.contains(q) <==> (old(adj)@[p]@.contains(q) || (p == x && q == y))),
{
    let ghost before = adj@;
    if !vec_has(&adj[x], y) {
        proof {
            lemma_pending_bound(adj_view(adj@).update(x as int, adj_view(adj@)[x as int].push(y)), y, n as int, Seq::empty());
            lemma_pending_add_edge(adj_view(adj@), x as int, y, y, n as int, Seq::empty());
            assert(adj_view(adj@)[x as int] == adj@[x as int]@);
        }
        adj[x].push(y);
        in_degree[y] = in_degree[y] + 1;
        proof {
            assert(adj_view(adj@) =~= adj_view(before).update(x as int, adj_view(before)[x as int].push(y)));
            assert forall|yy: int| 0 <= yy < n implies #[trigger] in_degree@[yy] == pending_preds(
                adj_view(adj@),
                yy as usize,
                n as int,
                Seq::empty(),
            ) by {
                lemma_pending_add_edge(adj_view(before), x as int, y, yy as usize, n as int, Seq::empty());
            }
            assert forall|a: int, k: int| 0 <= a < n && 0 <= k < adj@[a]@.len() implies (#[trigger] adj@[a]@[k] as int) < n by {
                if a == x && k < before[a]@.len() {
                    assert(adj@[a]@[k] == before[a]@[k]);
                }
            }
            assert forall|a: int, i: int, j: int|
                0 <= a < n && 0 <= i < j < adj@[a]@.len() implies #[trigger] adj@[a]@[i] != #[trigger] adj@[a]@[j] by {
                if a == x {
                    assert(adj@[a]@[i] == before[a]@[i]);
                    if j < before[a]@.len() {
                        assert(adj@[a]@[j] == before[a]@[j]);
                    } else {
                        assert(before[a]@.contains(before[a]@[i]));
                    }
                }
            }
            assert forall|p: int, q: usize|
                0 <= p < n implies (#[trigger] adj@[p]@.contains(q) <==> (before[p]@.contains(q) || (p == x && q == y))) by {
                if p == x {
                    assert(adj@[p]@ == before[p]@.push(y));
                    if adj@[p]@.contains(q) {
                        let i = choose|i: int| 0 <= i < adj@[p]@.len() && adj@[p]@[i] == q;
                        if i < before[p]@.len() {
                            assert(before[p]@[i] == q);
                        }
                    }
                    if before[p]@.contains(q) {
                        let i = choose|i: int| 0 <= i < before[p]@.len() && before[p]@[i] == q;
                        assert(adj@[p]@[i] == q);
                    }
                    if q == y {
                        assert(adj@[p]@[before[p]@.len() as int] == y);
                    }
                } else {
                    assert(adj@[p] == before[p]);
                }
            }
        }
    }
}

/// The positions no edge points to, in increasing order.
fn initial_queue(adj: &Vec<Vec<usize>>, in_degree: &Vec<usize>, n: usize) -> (queue: Vec<usize>)
    requires
        graph_ok(adj@, in_degree@, n as int),
    ensures
        distinct_below(queue@, n as int),
        queue@.len() <= n,
        forall|v: usize| v < n ==> (in_degree@[v as int] == 0 <==> queue@.contains(v)),
        forall|j: int, x: int| 0 <= j < queue@.len() && 0 <= x < n ==> !#[trigger] adj_view(adj@)[x].contains(queue@[j]),
{
    let ghost aj = adj_view(adj@);
    let mut queue: Vec<usize> = Vec::new();
    let mut idx: usize = 0;
    while idx < n
        invariant
            idx <= n,
            graph_ok(adj@, in_degree@, n as int),
            aj == adj_view(adj@),
            distinct_below(queue@, idx as int),
            forall|v: usize| v < idx ==> (in_degree@[v as int] == 0 <==> queue@.contains(v)),
            forall|j: int, x: int| 0 <= j < queue@.len() && 0 <= x < n ==> !#[trigger] aj[x].contains(queue@[j]),
        decreases n - idx,
    {
        let ghost before = queue@;
        if in_degree[idx] == 0 {
            queue.push(idx);
            proof {
                assert forall|j: int, x: int| 0 <= j < queue@.len() && 0 <= x < n implies !#[trigger] aj[x].contains(queue@[j]) by {
                    if j == before.len() {
                        if aj[x].contains(idx) {
                            lemma_pending_zero(aj, idx, n as int, Seq::empty(), x);
                        }
                    } else {
                        assert(queue@[j] == before[j]);
                    }
                }
            }
        }
        proof {
            assert forall|v: usize| v < idx + 1 implies (in_degree@[v as int] == 0 <==> queue@.contains(v)) by {
                if v < idx {
                    if queue@.contains(v) {
                        let q = choose|q: int| 0 <= q < queue@.len() && queue@[q] == v;
                        if q < before.len() {
                            assert(before[q] == v);
                        }
                    }
                    if before.contains(v) {
                        let q = choose|q: int| 0 <= q < before.len() && before[q] == v;
                        assert(queue@[q] == v);
                    }
                } else if in_degree@[v as int] == 0 {
                    assert(queue@[before.len() as int] == v);
                } else {
                    assert(queue@ == before);
                }
            }
        }
        idx = idx + 1;
    }
    proof {
        lemma_distinct_len(queue@, n as int);
    }
    queue
}

/// Takes the successors of `u` off the in-degrees, queueing each one whose
/// in-degree reaches zero.
fn release_successors(adj: &Vec<Vec<usize>>, in_degree: &mut Vec<usize>, queue: &mut Vec<usize>, u: usize, head: usize, n: usize)
    requires
        u < n,
        n == adj@.len(),
        old(in_degree)@.len() == n,
        forall|a: int, k: int| 0 <= a < n && 0 <= k < adj@[a]@.len() ==> (#[trigger] adj@[a]@[k] as int) < n,
        forall|a: int, i: int, j: int|
            0 <= a < n && 0 <= i < j < adj@[a]@.len() ==> #[trigger] adj@[a]@[i] != #[trigger] adj@[a]@[j],
        distinct_below(old(queue)@, n as int),
        old(queue)@.len() <= n,
        1 <= head <= old(queue)@.len(),
        old(queue)@[head - 1] == u,
        forall|y: int| 0 <= y < n ==> #[trigger] old(in_degree)@[y] == pending_preds(
            adj_view(adj@),
            y as usize,
            n as int,
            old(queue)@.take(head - 1),
        ),
        forall|v: usize| v < n ==> (old(in_degree)@[v as int] == 0 <==> old(queue)@.contains(v)),
        forall|j: int, x: int|
            0 <= j < old(queue)@.len() && 0 <= x < n && #[trigger] adj_view(adj@)[x].contains(old(queue)@[j]) ==> exists|i: int|
                0 <= i < j && old(queue)@[i] as int == x,
    ensures
        final(in_degree)@.len() == n,
        distinct_below(final(queue)@, n as int),
        final(queue)@.len() <= n,
        head <= final(queue)@.len(),
        final(queue)@.take(head as int) == old(queue)@.take(head as int),
        forall|y: int| 0 <= y < n ==> #[trigger] final(in_degree)@[y] == pending_preds(
            adj_view(adj@),
            y as usize,
            n as int,
            final(queue)@.take(head as int),
        ),
        forall|v: usize| v < n ==> (final(in_degree)@[v as int] == 0 <==> final(queue)@.contains(v)),
        forall|j: int, x: int|
            0 <= j < final(queue)@.len() && 0 <= x < n && #[trigger] adj_view(adj@)[x].contains(final(queue)@[j]) ==> exists|i: int|
                0 <= i < j && final(queue)@[i] as int == x,
{
    let ghost aj = adj_view(adj@);
    let ghost done0 = queue@.take(head - 1);
    let ghost done = queue@.take(head as int);
    let ghost row = aj[u as int];
    proof {
        assert(done =~= done0.push(u));
        assert(row == adj@[u as int]@);
        assert(!done0.contains(u)) by {
            if done0.contains(u) {
                let i = choose|i: int| 0 <= i < done0.len() && done0[i] == u;
                assert(queue@[i] == queue@[head - 1]);
            }
        }
        assert forall|y: int| 0 <= y < n implies #[trigger] in_degree@[y] == pending_preds(aj, y as usize, n as int, done)
            + (if row.subrange(0, row.len() as int).contains(y as usize) { 1int } else { 0int }) by {
            lemma_pending_done_push(aj, y as usize, n as int, done0, u);
            assert(row.subrange(0, row.len() as int) =~= row);
        }
    }
    let mut k: usize = 0;
    while k < adj[u].len()
        invariant
            u < n,
            n == adj@.len(),
            aj == adj_view(adj@),
            row == adj@[u as int]@,
            in_degree@.len() == n,
            forall|a: int, k: int| 0 <= a < n && 0 <= k < adj@[a]@.len() ==> (#[trigger] adj@[a]@[k] as int) < n,
            forall|a: int, i: int, j: int|
                0 <= a < n && 0 <= i < j < adj@[a]@.len() ==> #[trigger] adj@[a]@[i] != #[trigger] adj@[a]@[j],
            distinct_below(queue@, n as int),
            queue@.len() <= n,
            1 <= head <= queue@.len(),
            k <= row.len(),
            done == queue@.take(head as int),
            forall|y: int| 0 <= y < n ==> #[trigger] in_degree@[y] == pending_preds(aj, y as usize, n as int, done)
                + (if row.subrange(k as int, row.len() as int).contains(y as usize) { 1int } else { 0int }),
            forall|v: usize| v < n ==> (in_degree@[v as int] == 0 <==> queue@.contains(v)),
            forall|j: int, x: int|
                0 <= j < queue@.len() && 0 <= x < n && #[trigger] aj[x].contains(queue@[j]) ==> exists|i: int|
                    0 <= i < j && queue@[i] as int == x,
        decreases row.len() - k,
    {
        let v = adj[u][k];
        let ghost rest = row.subrange(k as int, row.len() as int);
        let ghost rest2 = row.subrange(k as int + 1, row.len() as int);
        proof {
            assert(rest[0] == v);
            assert(rest.contains(v));
            assert(!rest2.contains(v)) by {
                if rest2.contains(v) {
                    let i = choose|i: int| 0 <= i < rest2.len() && rest2[i] == v;
                    assert(adj@[u as int]@[k as int + 1 + i] == adj@[u as int]@[k as int]);
                }
            }
            assert forall|y: usize| y != v implies (rest.contains(y) <==> rest2.contains(y)) by {
                if rest.contains(y) {
                    let i = choose|i: int| 0 <= i < rest.len() && rest[i] == y;
                    assert(i != 0);
                    assert(rest2[i - 1] == y);
                }
                if rest2.contains(y) {
                    let i = choose|i: int| 0 <= i < rest2.len() && rest2[i] == y;
                    assert(rest[i + 1] == y);
                }
            }
            assert(in_degree@[v as int] == pending_preds(aj, v, n as int, done) + 1);
        }
        in_degree.set(v, in_degree[v] - 1);
        if in_degree[v] == 0 {
            let ghost before = queue@;
            assert(!before.contains(v));
            queue.push(v);
            proof {
                assert(queue@.take(head as int) =~= before.take(head as int));
                assert forall|a: int, c: int| 0 <= a < c < queue@.len() implies queue@[a] != queue@[c] by {
                    if c == before.len() {
                        assert(before.contains(before[a]));
                    }
                }
                assert forall|w: usize| w < n implies (in_degree@[w as int] == 0 <==> queue@.contains(w)) by {
                    if w != v {
                        if queue@.contains(w) {
                            let q = choose|q: int| 0 <= q < queue@.len() && queue@[q] == w;
                            assert(before[q] == w);
                        }
                        if before.contains(w) {
                            let q = choose|q: int| 0 <= q < before.len() && before[q] == w;
                            assert(queue@[q] == w);
                        }
                    } else {
                        assert(queue@[before.len() as int] == v);
                    }
                }
                assert forall|j: int, x: int|
                    0 <= j < queue@.len() && 0 <= x < n && #[trigger] aj[x].contains(queue@[j]) implies exists|i: int|
                        0 <= i < j && queue@[i] as int == x by {
                    if j == before.len() {
                        assert(pending_preds(aj, v, n as int, done) == 0);
                        lemma_pending_zero(aj, v, n as int, done, x);
                        let i = choose|i: int| 0 <= i < done.len() && done[i] == x as usize;
                        assert(queue@[i] == x as usize);
                    } else {
                        assert(queue@[j] == before[j]);
                        let i = choose|i: int| 0 <= i < j && before[i] as int == x;
                        assert(queue@[i] as int == x);
                    }
                }
                lemma_distinct_len(queue@, n as int);
            }
        }
        k = k + 1;
    }
    proof {
        assert forall|y: int| 0 <= y < n implies #[trigger] in_degree@[y] == pending_preds(aj, y as usize, n as int, queue@.take(head as int)) by {
            assert(row.subrange(k as int, row.len() as int).len() == 0);
        }
    }
}

/// Runs the queue: each queued position releases its successors.
fn drain_queue(adj: &Vec<Vec<usize>>, in_degree: &mut Vec<usize>, queue: &mut Vec<usize>, n: usize)
    requires
        graph_ok(adj@, old(in_degree)@, n as int),
        distinct_below(old(queue)@, n as int),
        old(queue)@.len() <= n,
        forall|v: usize| v < n ==> (old(in_degree)@[v as int] == 0 <==> old(queue)@.contains(v)),
        forall|j: int, x: int| 0 <= j < old(queue)@.len() && 0 <= x < n ==> !#[trigger] adj_view(adj@)[x].contains(old(queue)@[j]),
    ensures
        final(in_degree)@.len() == n,
        distinct_below(final(queue)@, n as int),
        final(queue)@.len() <= n,
        forall|y: int| 0 <= y < n ==> #[trigger] final(in_degree)@[y] == pending_preds(
            adj_view(adj@),
            y as usize,
            n as int,
            final(queue)@,
        ),
        forall|v: usize| v < n ==> (final(in_degree)@[v as int] == 0 <==> final(queue)@.contains(v)),
        forall|j: int, x: int|
            0 <= j < final(queue)@.len() && 0 <= x < n && #[trigger] adj_view(adj@)[x].contains(final(queue)@[j]) ==> exists|i: int|
                0 <= i < j && final(queue)@[i] as int == x,
{
    let ghost aj = adj_view(adj@);
    let mut head: usize = 0;
    proof {
        assert(queue@.take(0) =~= Seq::<usize>::empty());
    }
    while head < queue.len()
        invariant
            n == adj@.len(),
            aj == adj_view(adj@),
            in_degree@.len() == n,
            forall|a: int, k: int| 0 <= a < n && 0 <= k < adj@[a]@.len() ==> (#[trigger] adj@[a]@[k] as int) < n,
            forall|a: int, i: int, j: int|
                0 <= a < n && 0 <= i < j < adj@[a]@.len() ==> #[trigger] adj@[a]@[i] != #[trigger] adj@[a]@[j],
            distinct_below(queue@, n as int),
            queue@.len() <= n,
            head <= queue@.len(),
            forall|y: int| 0 <= y < n ==> #[trigger] in_degree@[y] == pending_preds(aj, y as usize, n as int, queue@.take(head as int)),
            forall|v: usize| v < n ==> (in_degree@[v as int] == 0 <==> queue@.contains(v)),
            forall|j: int, x: int|
                0 <= j < queue@.len() && 0 <= x < n && #[trigger] aj[x].contains(queue@[j]) ==> exists|i: int|
                    0 <= i < j && queue@[i] as int == x,
        decreases n - head,
    {
        let u = queue[head];
        head = head + 1;
        release_successors(adj, in_degree, queue, u, head, n);
    }
    proof {
        assert(queue@.take(head as int) =~= queue@);
    }
}

/// Appends, in increasing order, the positions still waiting on an edge.
fn append_waiting(in_degree: &Vec<usize>, queue: &mut Vec<usize>, n: usize, Ghost(aj): Ghost<Seq<Seq<usize>>>)
    requires
        in_degree@.len() == n,
        distinct_below(old(queue)@, n as int),
        forall|y: int| 0 <= y < n ==> #[trigger] in_degree@[y] == pending_preds(aj, y as usize, n as int, old(queue)@),
        forall|v: usize| v < n ==> (in_degree@[v as int] == 0 <==> old(queue)@.contains(v)),
    ensures
        is_permutation(final(queue)@, n as int),
        final(queue)@.len() >= old(queue)@.len(),
        final(queue)@.take(old(queue)@.len() as int) == old(queue)@,
        forall|j: int|
            old(queue)@.len() <= j < final(queue)@.len() ==> has_pending_pred(aj, old(queue)@, #[trigger] final(queue)@[j], n as int),
{
    let ghost emitted = queue@;
    let mut idx: usize = 0;
    while idx < n
        invariant
            idx <= n,
            in_degree@.len() == n,
            distinct_below(emitted, n as int),
            forall|y: int| 0 <= y < n ==> #[trigger] in_degree@[y] == pending_preds(aj, y as usize, n as int, emitted),
            forall|v: usize| v < n ==> (in_degree@[v as int] == 0 <==> emitted.contains(v)),
            queue@.len() >= emitted.len(),
            queue@.take(emitted.len() as int) == emitted,
            forall|q: int| emitted.len() <= q < queue@.len() ==> (#[trigger] queue@[q] as int) < idx && in_degree@[queue@[q] as int] > 0,
            forall|a: int, c: int| emitted.len() <= a < c < queue@.len() ==> queue@[a] < queue@[c],
            forall|v: usize| v < idx && in_degree@[v as int] > 0 ==> queue@.contains(v),
        decreases n - idx,
    {
        if in_degree[idx] > 0 {
            let ghost before = queue@;
            queue.push(idx);
            assert(queue@.take(emitted.len() as int) =~= before.take(emitted.len() as int));
            assert forall|v: usize| v < idx + 1 && in_degree@[v as int] > 0 implies queue@.contains(v) by {
                if v < idx {
                    assert(before.contains(v));
                    let q = choose|q: int| 0 <= q < before.len() && before[q] == v;
                    assert(queue@[q] == v);
                } else {
                    assert(queue@[before.len() as int] == v);
                }
            }
        }
        idx = idx + 1;
    }
    proof {
        assert forall|a: int, c: int| 0 <= a < c < queue@.len() implies queue@[a] != queue@[c] by {
            if c < emitted.len() {
                assert(queue@[a] == emitted[a]);
                assert(queue@[c] == emitted[c]);
            } else if a < emitted.len() {
                assert(queue@[a] == emitted[a]);
                assert(emitted.contains(queue@[a]));
            }
        }
        assert forall|q: int| 0 <= q < queue@.len() implies (queue@[q] as int) < n by {
            if q < emitted.len() {
                assert(queue@[q] == emitted[q]);
            }
        }
        assert forall|v: usize| (v as int) < n implies queue@.contains(v) by {
            if in_degree@[v as int] == 0 {
                let q = choose|q: int| 0 <= q < emitted.len() && emitted[q] == v;
                assert(queue@[q] == v);
            }
        }
        lemma_distinct_len(queue@, n as int);
        assert forall|j: int|
            emitted.len() <= j < queue@.len() implies has_pending_pred(aj, emitted, #[trigger] queue@[j], n as int) by {
            let v = queue@[j];
            assert(in_degree@[v as int] > 0);
            lemma_pending_positive(aj, v, n as int, emitted);
        }
    }
}

/// System `s` must run before system `t`: they share a bucket, and `t`
/// runs after `s`'s name or `s` runs before `t`'s name.
pub open spec fn must_precede<F>(sys: Seq<SystemDescriptor<F>>, s: int, t: int) -> bool {
    &&& sys[s].order_key() == sys[t].order_key()
    &&& ((exists|a: int| 0 <= a < sys[t].after@.len() && (#[trigger] sys[t].after@[a])@ == sys[s].name@) || (exists|b: int|
        0 <= b < sys[s].before@.len() && (#[trigger] sys[s].before@[b])@ == sys[t].name@))
}

/// No two systems of one bucket share a name.
pub open spec fn bucket_names_distinct<F>(sys: Seq<SystemDescriptor<F>>) -> bool {
    forall|s: int, t: int|
        0 <= s < sys.len() && 0 <= t < sys.len() && s != t && sys[s].order_key() == sys[t].order_key() ==> #[trigger] sys[s].name@
            != #[trigger] sys[t].name@
}

/// Some system of `held` must run before `t`.
#[verifier::opaque]
pub open spec fn waits_on_held<F>(sys: Seq<SystemDescriptor<F>>, held: Set<int>, t: int) -> bool {
    exists|s: int| held.contains(s) && #[trigger] must_precede(sys, s, t)
}

/// Every system in `held` waits on another system in `held`.
pub open spec fn held_waits<F>(sys: Seq<SystemDescriptor<F>>, held: Set<int>) -> bool {
    forall|t: int| #[trigger] held.contains(t) ==> 0 <= t < sys.len() && waits_on_held(sys, held, t)
}

/// System `s` occurs in `o` before position `j`.
pub open spec fn occurs_before(o: Seq<usize>, j: int, s: int) -> bool {
    exists|i: int| 0 <= i < j && o[i] as int == s
}

/// The order `o` honours the constraints of every system it lists outside
/// `held` (when names are unique within buckets); every system in `held`
/// is listed and waits on another system in `held`.
pub open spec fn honours<F>(o: Seq<usize>, sys: Seq<SystemDescriptor<F>>, held: Set<int>) -> bool {
    &&& held_waits(sys, held)
    &&& forall|t: int| #[trigger] held.contains(t) ==> o.contains(t as usize)
    &&& bucket_names_distinct(sys) ==> forall|j: int, s: int|
        0 <= j < o.len() && !held.contains(o[j] as int) && 0 <= s < sys.len() && #[trigger] must_precede(sys, s, o[j] as int)
            ==> occurs_before(o, j, s)
}

proof fn lemma_last_named_props<F>(bk: Seq<usize>, sy: Seq<SystemDescriptor<F>>, name: Seq<char>, k: int)
    requires
        0 <= k <= bk.len(),
    ensures
        last_named_below(bk, sy, name, k) matches Some(p) ==> 0 <= p < k && sy[bk[p] as int].name@ == name,
        last_named_below(bk, sy, name, k) is None ==> forall|p: int| 0 <= p < k ==> sy[bk[p] as int].name@ != name,
    decreases k,
{
    if k > 0 {
        lemma_last_named_props(bk, sy, name, k - 1);
    }
}

proof fn lemma_last_named_unique<F>(bk: Seq<usize>, sy: Seq<SystemDescriptor<F>>, name: Seq<char>, k: int, p: int)
    requires
        0 <= p < k <= bk.len(),
        sy[bk[p] as int].name@ == name,
        forall|q: int| 0 <= q < k && q != p ==> sy[bk[q] as int].name@ != name,
    ensures
        last_named_below(bk, sy, name, k) == Some(p),
    decreases k,
{
    if k - 1 != p {
        lemma_last_named_unique(bk, sy, name, k - 1, p);
    }
}

/// An edge of a bucket whose systems share a key is a constraint between
/// its systems.
proof fn lemma_bucket_edge_precedes<F>(bk: Seq<usize>, sy: Seq<SystemDescriptor<F>>, p: int, q: int)
    requires
        0 <= p < bk.len(),
        0 <= q < bk.len(),
        sy[bk[p] as int].order_key() == sy[bk[q] as int].order_key(),
        bucket_edge(bk, sy, p, q),
    ensures
        must_precede(sy, bk[p] as int, bk[q] as int),
{
    let t = bk[q] as int;
    let s = bk[p] as int;
    if after_edge(bk, sy, p, q, sy[t].after@.len() as int) {
        let a = choose|a: int|
            0 <= a < sy[t].after@.len() && a < sy[t].after@.len() && #[trigger] last_named(bk, sy, sy[t].after@[a]@) == Some(p);
        lemma_last_named_props(bk, sy, sy[t].after@[a]@, bk.len() as int);
        assert(sy[t].after@[a]@ == sy[s].name@);
    } else {
        let b = choose|b: int|
            0 <= b < sy[s].before@.len() && b < sy[s].before@.len() && #[trigger] last_named(bk, sy, sy[s].before@[b]@) == Some(q);
        lemma_last_named_props(bk, sy, sy[s].before@[b]@, bk.len() as int);
        assert(sy[s].before@[b]@ == sy[t].name@);
    }
}

/// With unique names, a constraint between two systems of a bucket is an
/// edge of the bucket.
proof fn lemma_precedes_bucket_edge<F>(bk: Seq<usize>, sy: Seq<SystemDescriptor<F>>, p: int, q: int)
    requires
        0 <= p < bk.len(),
        0 <= q < bk.len(),
        distinct_below(bk, sy.len() as int),
        forall|k: int| 0 <= k < bk.len() ==> #[trigger] sy[bk[k] as int].order_key() == sy[bk[p] as int].order_key(),
        bucket_names_distinct(sy),
        must_precede(sy, bk[p] as int, bk[q] as int),
    ensures
        bucket_edge(bk, sy, p, q),
{
    let t = bk[q] as int;
    let s = bk[p] as int;
    let name = sy[s].name@;
    assert forall|r: int| 0 <= r < bk.len() && r != p implies sy[bk[r] as int].name@ != name by {
        assert(sy[bk[r] as int].order_key() == sy[bk[p] as int].order_key());
        if r < p {
            assert(bk[r] != bk[p]);
        } else {
            assert(bk[p] != bk[r]);
        }
        assert(sy[bk[r] as int].name@ != sy[bk[p] as int].name@);
    }
    lemma_last_named_unique(bk, sy, name, bk.len() as int, p);
    if exists|a: int| 0 <= a < sy[t].after@.len() && (#[trigger] sy[t].after@[a])@ == sy[s].name@ {
        let a = choose|a: int| 0 <= a < sy[t].after@.len() && (#[trigger] sy[t].after@[a])@ == sy[s].name@;
        assert(last_named(bk, sy, sy[t].after@[a]@) == Some(p));
        assert(after_edge(bk, sy, p, q, sy[t].after@.len() as int));
    } else {
        let b = choose|b: int| 0 <= b < sy[s].before@.len() && (#[trigger] sy[s].before@[b])@ == sy[t].name@;
        let tname = sy[t].name@;
        assert forall|r: int| 0 <= r < bk.len() && r != q implies sy[bk[r] as int].name@ != tname by {
            assert(sy[bk[r] as int].order_key() == sy[bk[p] as int].order_key());
            assert(sy[bk[q] as int].order_key() == sy[bk[p] as int].order_key());
            if r < q {
                assert(bk[r] != bk[q]);
            } else {
                assert(bk[q] != bk[r]);
            }
            assert(sy[bk[r] as int].name@ != sy[bk[q] as int].name@);
        }
        lemma_last_named_unique(bk, sy, tname, bk.len() as int, q);
        assert(last_named(bk, sy, sy[s].before@[b]@) == Some(q));
        assert(before_edge(bk, sy, p, q, sy[s].before@.len() as int));
    }
}

/// Within a sorted order, a maximal run of one key holds every system of
/// that key.
proof fn lemma_run_complete(sorted: Seq<usize>, keys: Seq<u16>, i: int, j: int, x: int)
    requires
        keys.len() <= usize::MAX,
        is_permutation(sorted, keys.len() as int),
        keys_sorted(sorted, keys),
        0 <= i < j <= sorted.len(),
        forall|t: int| i <= t < j ==> keys[#[trigger] sorted[t] as int] == keys[sorted[i] as int],
        i == 0 || keys[sorted[i - 1] as int] != keys[sorted[i] as int],
        j == sorted.len() || keys[sorted[j] as int] != keys[sorted[i] as int],
        0 <= x < keys.len(),
        keys[x] == keys[sorted[i] as int],
    ensures
        exists|w: int| i <= w < j && sorted[w] as int == x,
{
    lemma_distinct_len(sorted, keys.len() as int);
    assert(sorted.contains(x as usize));
    let w = choose|w: int| 0 <= w < sorted.len() && sorted[w] == x as usize;
    if w < i {
        assert(keys[sorted[w] as int] <= keys[sorted[i - 1] as int]);
        assert(keys[sorted[i - 1] as int] <= keys[sorted[i] as int]);
    } else if w >= j {
        assert(keys[sorted[j] as int] <= keys[sorted[w] as int]);
        assert(keys[sorted[j - 1] as int] <= keys[sorted[j] as int]);
    }
}

/// Appending the Kahn order of the next bucket keeps the run order
/// honouring the constraints, with the bucket's waiting systems held.
proof fn lemma_append_bucket<F>(
    sy: Seq<SystemDescriptor<F>>,
    keys: Seq<u16>,
    prev: Seq<usize>,
    sorted: Seq<usize>,
    i: int,
    j: int,
    pos: Seq<usize>,
    m: int,
    held: Set<int>,
) -> (held2: Set<int>)
    requires
        keys.len() == sy.len(),
        sy.len() <= usize::MAX,
        forall|x: int| 0 <= x < sy.len() ==> #[trigger] keys[x] as int == sy[x].order_key(),
        is_permutation(sorted, sy.len() as int),
        keys_sorted(sorted, keys),
        0 <= i < j <= sorted.len(),
        forall|t: int| i <= t < j ==> keys[#[trigger] sorted[t] as int] == keys[sorted[i] as int],
        i == 0 || keys[sorted[i - 1] as int] != keys[sorted[i] as int],
        j == sorted.len() || keys[sorted[j] as int] != keys[sorted[i] as int],
        forall|k: int| 0 <= k < prev.len() ==> sorted.take(i).contains(#[trigger] prev[k]),
        honours(prev, sy, held),
        is_permutation(pos, j - i),
        kahn_split(pos, sorted.subrange(i, j), sy, m),
    ensures
        honours(prev + pos.map_values(|p: usize| sorted.subrange(i, j)[p as int]), sy, held2),
{
    let bk = sorted.subrange(i, j);
    let b = pos.map_values(|p: usize| bk[p as int]);
    let o2 = prev + b;
    let tail = Set::new(|t: int| exists|k: int| m <= k < pos.len() && bk[pos[k] as int] as int == t);
    let held2 = held.union(tail);
    let n = sy.len() as int;
    lemma_distinct_len(sorted, n);
    lemma_distinct_len(pos, j - i);
    assert(distinct_below(bk, n)) by {
        assert forall|a: int, c: int| 0 <= a < c < bk.len() implies bk[a] != bk[c] by {
            assert(bk[a] == sorted[i + a]);
            assert(bk[c] == sorted[i + c]);
        }
    }
    assert forall|k: int| 0 <= k < bk.len() implies #[trigger] sy[bk[k] as int].order_key() == sy[bk[0] as int].order_key() by {
        assert(bk[k] == sorted[i + k]);
        assert(keys[sorted[i + k] as int] == keys[sorted[i] as int]);
    }
    // The systems of the bucket are not among the earlier ones.
    assert forall|k: int, q: int| 0 <= k < prev.len() && 0 <= q < bk.len() implies #[trigger] prev[k] != #[trigger] bk[q] by {
        assert(sorted.take(i).contains(prev[k]));
        let w = choose|w: int| 0 <= w < sorted.take(i).len() && sorted.take(i)[w] == prev[k];
        assert(bk[q] == sorted[i + q]);
        assert(sorted[w] != sorted[i + q]);
    }
    assert forall|t: int| #[trigger] held2.contains(t) implies 0 <= t < n && o2.contains(t as usize) && waits_on_held(sy, held2, t) by {
        reveal(waits_on_held);
        if held.contains(t) {
            let w = choose|w: int| 0 <= w < prev.len() && prev[w] == t as usize;
            assert(o2[w] == prev[w]);
            let s = choose|s: int| held.contains(s) && #[trigger] must_precede(sy, s, t);
            assert(held2.contains(s));
        } else {
            let k = choose|k: int| m <= k < pos.len() && bk[pos[k] as int] as int == t;
            assert(o2[prev.len() + k] == b[k]);
            assert(waits_in_tail(pos, bk, sy, m, pos[k] as int));
            let x = choose|x: int|
                0 <= x < bk.len() && #[trigger] bucket_edge(bk, sy, x, pos[k] as int) && forall|i2: int|
                    0 <= i2 < m ==> pos[i2] as int != x;
            assert(pos.contains(x as usize));
            let k2 = choose|k2: int| 0 <= k2 < pos.len() && pos[k2] == x as usize;
            assert(k2 >= m);
            assert(tail.contains(bk[x] as int));
            lemma_bucket_edge_precedes(bk, sy, x, pos[k] as int);
            assert(held2.contains(bk[x] as int));
        }
    }
    if bucket_names_distinct(sy) {
        assert forall|j2: int, s: int|
            0 <= j2 < o2.len() && !held2.contains(o2[j2] as int) && 0 <= s < sy.len() && #[trigger] must_precede(
                sy,
                s,
                o2[j2] as int,
            ) implies occurs_before(o2, j2, s) by {
            if j2 < prev.len() {
                assert(o2[j2] == prev[j2]);
                assert(occurs_before(prev, j2, s));
                let i2 = choose|i2: int| 0 <= i2 < j2 && prev[i2] as int == s;
                assert(o2[i2] == prev[i2]);
            } else {
                let k = j2 - prev.len();
                let t = bk[pos[k] as int] as int;
                assert(o2[j2] == b[k]);
                if k >= m {
                    assert(tail.contains(t));
                }
                assert(k < m);
                assert(keys[s] == keys[t]);
                assert(bk[pos[k] as int] == sorted[i + pos[k]]);
                lemma_run_complete(sorted, keys, i, j, s);
                let w = choose|w: int| i <= w < j && sorted[w] as int == s;
                let p = w - i;
                assert(bk[p] == sorted[w]);
                lemma_precedes_bucket_edge(bk, sy, p, pos[k] as int);
                let i2 = choose|i2: int| 0 <= i2 < k && pos[i2] as int == p;
                assert(o2[prev.len() + i2] == b[i2]);
            }
        }
    }
    held2
}

proof fn lemma_min_rank(held: Set<int>, rank: spec_fn(int) -> int, k: int, t0: int)
    requires
        held.contains(t0),
        0 <= t0 < k,
    ensures
        exists|t: int|
            0 <= t < k && held.contains(t) && forall|s: int| 0 <= s < k && #[trigger] held.contains(s) ==> rank(t) <= rank(s),
    decreases k,
{
    if exists|t1: int| 0 <= t1 < k - 1 && held.contains(t1) {
        let t1 = choose|t1: int| 0 <= t1 < k - 1 && held.contains(t1);
        lemma_min_rank(held, rank, k - 1, t1);
        let t = choose|t: int|
            0 <= t < k - 1 && held.contains(t) && forall|s: int| 0 <= s < k - 1 && #[trigger] held.contains(s) ==> rank(t) <= rank(s);
        if held.contains(k - 1) && rank(k - 1) < rank(t) {
            assert forall|s: int| 0 <= s < k && #[trigger] held.contains(s) implies rank(k - 1) <= rank(s) by {
                if s < k - 1 {
                    assert(rank(t) <= rank(s));
                }
            }
        } else {
            assert forall|s: int| 0 <= s < k && #[trigger] held.contains(s) implies rank(t) <= rank(s) by {
                if s < k - 1 {
                    assert(rank(t) <= rank(s));
                }
            }
        }
    } else {
        assert(t0 == k - 1);
        assert forall|s: int| 0 <= s < k && #[trigger] held.contains(s) implies rank(t0) <= rank(s) by {
            if s < k - 1 {
                assert(false);
            }
        }
    }
}

/// When the constraints admit a ranking, no system waits on a cycle.
proof fn lemma_ranked_holds_nothing<F>(sys: Seq<SystemDescriptor<F>>, held: Set<int>, rank: spec_fn(int) -> int)
    requires
        held_waits(sys, held),
        forall|s: int, t: int|
            0 <= s < sys.len() && 0 <= t < sys.len() && #[trigger] must_precede(sys, s, t) ==> rank(s) < rank(t),
    ensures
        forall|t: int| !held.contains(t),
{
    let n = sys.len() as int;
    if exists|t0: int| held.contains(t0) {
        let t0 = choose|t0: int| held.contains(t0);
        lemma_min_rank(held, rank, n, t0);
        let t = choose|t: int|
            0 <= t < n && held.contains(t) && forall|s: int| 0 <= s < n && #[trigger] held.contains(s) ==> rank(t) <= rank(s);
        assert(waits_on_held(sys, held, t));
        reveal(waits_on_held);
        let s = choose|s: int| held.contains(s) && #[trigger] must_precede(sys, s, t);
        assert(rank(s) < rank(t));
    }
}

/// With nothing held and unique names within buckets, each system of the
/// order follows every system it must follow.
proof fn lemma_honoured_in_order<F>(o: Seq<usize>, sys: Seq<SystemDescriptor<F>>, held: Set<int>)
    requires
        honours(o, sys, held),
        forall|t: int| !held.contains(t),
        bucket_names_distinct(sys),
        is_permutation(o, sys.len() as int),
        sys.len() <= usize::MAX,
    ensures
        forall|s: int, t: int|
            0 <= s < sys.len() && 0 <= t < sys.len() && #[trigger] must_precede(sys, s, t) ==> exists|i: int, j: int|
                0 <= i < j < o.len() && o[i] as int == s && o[j] as int == t,
{
    let n = sys.len() as int;
    lemma_distinct_len(o, n);
    assert forall|s: int, t: int| 0 <= s < n && 0 <= t < n && #[trigger] must_precede(sys, s, t) implies exists|i: int, j: int|
        0 <= i < j < o.len() && o[i] as int == s && o[j] as int == t by {
        assert(o.contains(t as usize));
        let j = choose|j: int| 0 <= j < o.len() && o[j] == t as usize;
        assert(!held.contains(o[j] as int));
        assert(occurs_before(o, j, s));
        let i = choose|i: int| 0 <= i < j && o[i] as int == s;
    }
}

proof fn lemma_stage_positions_from_order<F>(o: Seq<usize>, sys: Seq<SystemDescriptor<F>>, stage: Stage)
    ensures
        forall|a: int|
            0 <= a < stage_positions(o, sys, stage).len() ==> exists|i: int|
                0 <= i < o.len() && o[i] == #[trigger] stage_positions(o, sys, stage)[a] && sys[o[i] as int].stage == stage
                    && forall|b: int|
                    a < b < stage_positions(o, sys, stage).len() ==> exists|j: int|
                        i < j < o.len() && o[j] == #[trigger] stage_positions(o, sys, stage)[b],
    decreases o.len(),
{
    if o.len() > 0 {
        let ol = o.drop_last();
        lemma_stage_positions_from_order(ol, sys, stage);
        let rest = stage_positions(ol, sys, stage);
        let sp = stage_positions(o, sys, stage);
        assert forall|a: int|
            0 <= a < sp.len() implies exists|i: int|
                0 <= i < o.len() && o[i] == #[trigger] sp[a] && sys[o[i] as int].stage == stage && forall|b: int|
                    a < b < sp.len() ==> exists|j: int| i < j < o.len() && o[j] == #[trigger] sp[b] by {
            if a < rest.len() {
                assert(sp[a] == rest[a]);
                let i = choose|i: int|
                    0 <= i < ol.len() && ol[i] == #[trigger] rest[a] && sys[ol[i] as int].stage == stage && forall|b: int|
                        a < b < rest.len() ==> exists|j: int| i < j < ol.len() && ol[j] == #[trigger] rest[b];
                assert(o[i] == ol[i]);
                assert forall|b: int| a < b < sp.len() implies exists|j: int| i < j < o.len() && o[j] == #[trigger] sp[b] by {
                    if b < rest.len() {
                        assert(sp[b] == rest[b]);
                        let j = choose|j: int| i < j < ol.len() && ol[j] == #[trigger] rest[b];
                        assert(o[j] == ol[j]);
                    } else {
                        assert(sp[b] == o.last());
                        assert(o[o.len() - 1] == sp[b]);
                    }
                }
            } else {
                assert(sp[a] == o.last());
                assert(o[o.len() - 1] == sp[a]);
            }
        }
    }
}

/// Sorts `order` by the keys of the systems it lists, keeping systems with
/// equal keys in their relative order.
fn stable_sort_by_key(order: &mut Vec<usize>, keys: &Vec<u16>)
    requires
        distinct_below(old(order)@, keys@.len() as int),
    ensures
        final(order)@.len() == old(order)@.len(),
        distinct_below(final(order)@, keys@.len() as int),
        forall|x: usize| old(order)@.contains(x) ==> final(order)@.contains(x),
        keys_sorted(final(order)@, keys@),
{
    let n = order.len();
    let ghost n_keys = keys@.len() as int;
    let ghost orig = order@;
    let mut i: usize = 0;
    while i < n
        invariant
            n == order@.len(),
            n == orig.len(),
            i <= n,
            distinct_below(order@, n_keys),
            n_keys == keys@.len(),
            forall|x: usize| orig.contains(x) ==> order@.contains(x),
            keys_sorted(order@.take(i as int), keys@),
        decreases n - i,
    {
        let mut j: usize = i;
        assert forall|a: int, b: int| 0 <= a <= b < j implies keys@[order@[a] as int]
            <= keys@[order@[b] as int] by {
            assert(order@.take(i as int)[a] == order@[a]);
            assert(order@.take(i as int)[b] == order@[b]);
        }
        while j > 0 && keys[order[j - 1]] > keys[order[j]]
            invariant
                n == order@.len(),
                i < n,
                j <= i,
                distinct_below(order@, n_keys),
                n_keys == keys@.len(),
                forall|x: usize| orig.contains(x) ==> order@.contains(x),
                forall|a: int, b: int| 0 <= a <= b < j ==> keys@[order@[a] as int] <= keys@[order@[b] as int],
                forall|a: int, b: int| j < a <= b <= i ==> keys@[order@[a] as int] <= keys@[order@[b] as int],
                forall|a: int, b: int| 0 <= a < j && j < b <= i ==> keys@[order@[a] as int] <= keys@[order@[b] as int],
                forall|b: int| j < b <= i ==> keys@[order@[j as int] as int] < keys@[order@[b] as int],
            decreases j,
        {
            let ghost before = order@;
            let a = order[j - 1];
            let b = order[j];
            order[j - 1] = b;
            order[j] = a;
            proof {
                assert(order@ =~= before.update(j - 1, b).update(j as int, a));
                assert forall|x: usize| orig.contains(x) implies order@.contains(x) by {
                    let k = choose|k: int| 0 <= k < before.len() && before[k] == x;
                    if k == j - 1 {
                        assert(order@[j as int] == x);
                    } else if k == j {
                        assert(order@[j - 1] == x);
                    } else {
                        assert(order@[k] == x);
                    }
                }
            }
            j = j - 1;
        }
        proof {
            assert forall|a: int, b: int| #![trigger order@[a], order@[b]] 0 <= a <= b < i + 1 implies
                keys@[order@[a] as int] <= keys@[order@[b] as int] by {
                if a < j && j < b {
                    assert(keys@[order@[a] as int] <= keys@[order@[j - 1] as int]);
                }
            }
            assert(keys_sorted(order@.take(i + 1), keys@));
        }
        i = i + 1;
    }
    assert(order@.take(n as int) =~= order@);
}

/// Registry of ECS systems ordered by stage, phase and the dependencies
/// between systems of the same phase.
pub struct SystemRegistry<F> {
    systems: Vec<SystemDescriptor<F>>,
    order: Vec<usize>,
}

proof fn lemma_sp_member<F>(o: Seq<usize>, sys: Seq<SystemDescriptor<F>>, stage: Stage, i: int)
    requires
        0 <= i < o.len(),
        sys[o[i] as int].stage == stage,
    ensures
        exists|a: int| 0 <= a < stage_positions(o, sys, stage).len() && #[trigger] stage_positions(o, sys, stage)[a] == o[i],
    decreases o.len(),
{
    let ol = o.drop_last();
    let rest = stage_positions(ol, sys, stage);
    if i == o.len() - 1 {
        assert(stage_positions(o, sys, stage)[rest.len() as int] == o[i]);
    } else {
        assert(ol[i] == o[i]);
        lemma_sp_member(ol, sys, stage, i);
        let a = choose|a: int| 0 <= a < rest.len() && #[trigger] rest[a] == ol[i];
        assert(stage_positions(o, sys, stage)[a] == o[i]);
    }
}

proof fn lemma_sp_pair<F>(o: Seq<usize>, sys: Seq<SystemDescriptor<F>>, stage: Stage, i: int, j: int)
    requires
        0 <= i < j < o.len(),
        sys[o[i] as int].stage == stage,
        sys[o[j] as int].stage == stage,
    ensures
        exists|a: int, b: int|
            0 <= a < b < stage_positions(o, sys, stage).len() && #[trigger] stage_positions(o, sys, stage)[a] == o[i]
                && #[trigger] stage_positions(o, sys, stage)[b] == o[j],
    decreases o.len(),
{
    let ol = o.drop_last();
    let rest = stage_positions(ol, sys, stage);
    let sp = stage_positions(o, sys, stage);
    assert(ol[i] == o[i]);
    if j == o.len() - 1 {
        lemma_sp_member(ol, sys, stage, i);
        let a = choose|a: int| 0 <= a < rest.len() && #[trigger] rest[a] == ol[i];
        assert(sp[a] == o[i]);
        assert(sp[rest.len() as int] == o[j]);
    } else {
        assert(ol[j] == o[j]);
        lemma_sp_pair(ol, sys, stage, i, j);
        let (a, b) = choose|a: int, b: int|
            0 <= a < b < rest.len() && #[trigger] rest[a] == ol[i] && #[trigger] rest[b] == ol[j];
        assert(sp[a] == o[i]);
        assert(sp[b] == o[j]);
    }
}

impl<F> SystemRegistry<F> {
    /// The systems, in the order they were registered.
    pub closed spec fn registered(&self) -> Seq<SystemDescriptor<F>> {
        self.systems@
    }

    /// The run order, as indices into `registered()`.
    pub closed spec fn run_order(&self) -> Seq<usize> {
        self.order@
    }

    /// The bucket keys of the registered systems.
    pub open spec fn keys(&self) -> Seq<u16> {
        self.registered().map_values(|s: SystemDescriptor<F>| s.order_key() as u16)
    }

    /// The run order lists every registered system once, by bucket, and
    /// honours the constraints of every system that does not wait on a
    /// cycle.
    pub open spec fn wf(&self) -> bool {
        &&& is_permutation(self.run_order(), self.registered().len() as int)
        &&& keys_sorted(self.run_order(), self.keys())
        &&& exists|held: Set<int>| honours(self.run_order(), self.registered(), held)
        &&& self.registered().len() <= usize::MAX
    }

    /// When names are unique within each bucket and the constraints admit a
    /// ranking (they form no cycle), every system runs after each system it
    /// must follow.
    pub proof fn lemma_run_order_respects_constraints(&self, rank: spec_fn(int) -> int)
        requires
            self.wf(),
            bucket_names_distinct(self.registered()),
            forall|s: int, t: int|
                0 <= s < self.registered().len() && 0 <= t < self.registered().len() && #[trigger] must_precede(
                    self.registered(),
                    s,
                    t,
                ) ==> rank(s) < rank(t),
        ensures
            forall|s: int, t: int|
                0 <= s < self.registered().len() && 0 <= t < self.registered().len() && #[trigger] must_precede(
                    self.registered(),
                    s,
                    t,
                ) ==> exists|i: int, j: int|
                    0 <= i < j < self.run_order().len() && self.run_order()[i] as int == s && self.run_order()[j] as int
                        == t,
    {
        let sys = self.registered();
        let o = self.run_order();
        let n = sys.len() as int;
        let held = choose|held: Set<int>| honours(o, sys, held);
        lemma_ranked_holds_nothing(sys, held, rank);
        lemma_honoured_in_order(o, sys, held);
    }

    /// The systems of a stage run in phase order: Validate, Modify,
    /// Execute, React, Monitor.
    pub proof fn lemma_stage_runs_in_phase_order(&self, stage: Stage)
        requires
            self.wf(),
        ensures
            forall|a: int, b: int|
                0 <= a < b < stage_positions(self.run_order(), self.registered(), stage).len() ==> phase_rank(
                    self.registered()[#[trigger] stage_positions(self.run_order(), self.registered(), stage)[a] as int].phase,
                ) <= phase_rank(
                    self.registered()[#[trigger] stage_positions(self.run_order(), self.registered(), stage)[b] as int].phase,
                ),
    {
        let o = self.run_order();
        let sys = self.registered();
        let sp = stage_positions(o, sys, stage);
        lemma_stage_positions_from_order(o, sys, stage);
        assert forall|a: int, b: int| 0 <= a < b < sp.len() implies phase_rank(sys[#[trigger] sp[a] as int].phase)
            <= phase_rank(sys[#[trigger] sp[b] as int].phase) by {
            let i = choose|i: int|
                0 <= i < o.len() && o[i] == #[trigger] sp[a] && sys[o[i] as int].stage == stage && forall|b2: int|
                    a < b2 < sp.len() ==> exists|j: int| i < j < o.len() && o[j] == #[trigger] sp[b2];
            let j = choose|j: int| i < j < o.len() && o[j] == #[trigger] sp[b];
            let j2 = choose|j2: int|
                0 <= j2 < o.len() && o[j2] == #[trigger] sp[b] && sys[o[j2] as int].stage == stage && forall|b2: int|
                    b < b2 < sp.len() ==> exists|jj: int| j2 < jj < o.len() && o[jj] == #[trigger] sp[b2];
            assert(self.keys()[o[i] as int] <= self.keys()[o[j] as int]);
            lemma_order_key_range(sys[o[i] as int]);
            lemma_order_key_range(sys[o[j] as int]);
            assert(sys[o[j] as int].stage == stage);
        }
    }

    /// The systems `run_stage` gives for a stage are those of the stage,
    /// each exactly once, in phase order; and when names are unique within
    /// each bucket and the constraints form no cycle (they admit a ranking),
    /// every system comes after each system it must follow.
    pub proof fn lemma_stage_run_order(&self, stage: Stage, rank: spec_fn(int) -> int)
        requires
            self.wf(),
            bucket_names_distinct(self.registered()),
            forall|s: int, t: int|
                0 <= s < self.registered().len() && 0 <= t < self.registered().len() && #[trigger] must_precede(
                    self.registered(),
                    s,
                    t,
                ) ==> rank(s) < rank(t),
        ensures
            forall|s: int|
                0 <= s < self.registered().len() && self.registered()[s].stage == stage ==> exists|a: int|
                    0 <= a < stage_positions(self.run_order(), self.registered(), stage).len()
                        && #[trigger] stage_positions(self.run_order(), self.registered(), stage)[a] as int == s,
            forall|a: int|
                0 <= a < stage_positions(self.run_order(), self.registered(), stage).len() ==> (
                #[trigger] stage_positions(self.run_order(), self.registered(), stage)[a] as int) < self.registered().len()
                    && self.registered()[stage_positions(self.run_order(), self.registered(), stage)[a] as int].stage
                    == stage,
            forall|a: int, b: int|
                0 <= a < b < stage_positions(self.run_order(), self.registered(), stage).len() ==> #[trigger] stage_positions(
                    self.run_order(),
                    self.registered(),
                    stage,
                )[a] != #[trigger] stage_positions(self.run_order(), self.registered(), stage)[b],
            forall|a: int, b: int|
                0 <= a < b < stage_positions(self.run_order(), self.registered(), stage).len() ==> phase_rank(
                    self.registered()[#[trigger] stage_positions(self.run_order(), self.registered(), stage)[a] as int].phase,
                ) <= phase_rank(
                    self.registered()[#[trigger] stage_positions(self.run_order(), self.registered(), stage)[b] as int].phase,
                ),
            forall|s: int, t: int|
                0 <= s < self.registered().len() && 0 <= t < self.registered().len() && self.registered()[s].stage
                    == stage && #[trigger] must_precede(self.registered(), s, t) ==> exists|a: int, b: int|
                    0 <= a < b < stage_positions(self.run_order(), self.registered(), stage).len()
                        && stage_positions(self.run_order(), self.registered(), stage)[a] as int == s
                        && stage_positions(self.run_order(), self.registered(), stage)[b] as int == t,
    {
        let o = self.run_order();
        let sys = self.registered();
        let n = sys.len() as int;
        let sp = stage_positions(o, sys, stage);
        self.lemma_stage_runs_in_phase_order(stage);
        self.lemma_run_order_respects_constraints(rank);
        lemma_stage_positions_from_order(o, sys, stage);
        lemma_distinct_len(o, n);
        assert forall|s: int| 0 <= s < n && sys[s].stage == stage implies exists|a: int|
            0 <= a < sp.len() && #[trigger] sp[a] as int == s by {
            assert(o.contains(s as usize));
            let i = choose|i: int| 0 <= i < o.len() && o[i] == s as usize;
            lemma_sp_member(o, sys, stage, i);
        }
        assert forall|a: int, b: int| 0 <= a < b < sp.len() implies #[trigger] sp[a] != #[trigger] sp[b] by {
            let i = choose|i: int|
                0 <= i < o.len() && o[i] == #[trigger] sp[a] && sys[o[i] as int].stage == stage && forall|b2: int|
                    a < b2 < sp.len() ==> exists|j: int| i < j < o.len() && o[j] == #[trigger] sp[b2];
            let j = choose|j: int| i < j < o.len() && o[j] == #[trigger] sp[b];
        }
        assert forall|s: int, t: int|
            0 <= s < n && 0 <= t < n && sys[s].stage == stage && #[trigger] must_precede(sys, s, t) implies exists|
            a: int,
            b: int,
        | 0 <= a < b < sp.len() && sp[a] as int == s && sp[b] as int == t by {
            let (i, j) = choose|i: int, j: int| 0 <= i < j < o.len() && o[i] as int == s && o[j] as int == t;
            assert(sys[t].stage == stage) by {
                lemma_order_key_range(sys[s]);
                assert(stage_rank(sys[s].stage) == stage_rank(sys[t].stage));
            }
            lemma_sp_pair(o, sys, stage, i, j);
        }
    }

    /// Creates an empty registry.
    pub fn new() -> (r: Self)
        ensures
            r.wf(),
            r.registered().len() == 0,
    {
        let r = SystemRegistry { systems: Vec::new(), order: Vec::new() };
        assert(honours(r.run_order(), r.registered(), Set::empty()));
        r
    }

    /// Registers a system and rebuilds the run order.
    pub fn register(&mut self, system: SystemDescriptor<F>)
        requires
            old(self).wf(),
        ensures
            final(self).wf(),
            final(self).registered() == old(self).registered().push(system),
    {
        let n = self.systems.len();
        self.systems.push(system);
        self.order.push(n);
        proof {
            assert forall|i: int, j: int| 0 <= i < j < self.order@.len() implies self.order@[i]
                != self.order@[j] by {
                if j == n {
                    assert((self.order@[i] as int) < n);
                }
            }
        }
        self.sort_systems();
    }

    /// Sorts the run order by (stage, phase) bucket, then orders each bucket by
    /// its `before` / `after` constraints.
    fn sort_systems(&mut self)
        requires
            is_permutation(old(self).order@, old(self).systems@.len() as int),
        ensures
            final(self).systems@ == old(self).systems@,
            final(self).wf(),
    {
        let _count = self.systems.len();
        let keys = self.keys_exec();
        let mut sorted: Vec<usize> = Vec::new();
        std::mem::swap(&mut sorted, &mut self.order);
        stable_sort_by_key(&mut sorted, &keys);
        let resolved = self.resolve_buckets(&sorted, &keys);
        self.order = resolved;
    }

    /// Orders each run of equal keys in `sorted` by the constraints between
    /// its systems.
    fn resolve_buckets(&self, sorted: &Vec<usize>, keys: &Vec<u16>) -> (r: Vec<usize>)
        requires
            sorted@.len() == self.systems@.len(),
            distinct_below(sorted@, self.systems@.len() as int),
            keys_sorted(sorted@, keys@),
            keys@ == self.keys(),
        ensures
            is_permutation(r@, self.systems@.len() as int),
            keys_sorted(r@, keys@),
            exists|held: Set<int>| honours(r@, self.systems@, held),
    {
        let n = sorted.len();
        let ghost nn = n as int;
        let mut resolved: Vec<usize> = Vec::new();
        let mut i: usize = 0;
        let ghost mut held: Set<int> = Set::empty();
        proof {
            assert forall|x: int| 0 <= x < n implies #[trigger] keys@[x] as int == self.systems@[x].order_key() by {
                lemma_order_key_range(self.systems@[x]);
            }
        }
        while i < n
            invariant
                forall|x: int| 0 <= x < n ==> #[trigger] keys@[x] as int == self.systems@[x].order_key(),
                i == 0 || i == n || keys@[sorted@[i - 1] as int] != keys@[sorted@[i as int] as int],
                honours(resolved@, self.systems@, held),
                n == sorted@.len(),
                nn == n,
                n == self.systems@.len(),
                keys@ == self.keys(),
                keys@.len() == n,
                distinct_below(sorted@, nn),
                keys_sorted(sorted@, keys@),
                i <= n,
                resolved@.len() == i,
                distinct_below(resolved@, nn),
                forall|k: int| 0 <= k < resolved@.len() ==> sorted@.take(i as int).contains(#[trigger] resolved@[k]),
                keys_sorted(resolved@, keys@),
                i < n ==> forall|k: int| 0 <= k < resolved@.len() ==> keys@[#[trigger] resolved@[k] as int] <= keys@[sorted@[i as int] as int],
            decreases n - i,
        {
            let key = keys[sorted[i]];
            let mut j: usize = i;
            while j < n && keys[sorted[j]] == key
                invariant
                    n == sorted@.len(),
                    keys@.len() == n,
                    distinct_below(sorted@, nn),
                    nn == n,
                    i < n,
                    i <= j <= n,
                    key == keys@[sorted@[i as int] as int],
                    forall|t: int| i <= t < j ==> keys@[#[trigger] sorted@[t] as int] == key,
                decreases n - j,
            {
                j = j + 1;
            }
            let mut bucket: Vec<usize> = Vec::new();
            let mut t: usize = i;
            while t < j
                invariant
                    n == sorted@.len(),
                    i <= t <= j <= n,
                    bucket@ == sorted@.subrange(i as int, t as int),
                decreases j - t,
            {
                bucket.push(sorted[t]);
                assert(bucket@ =~= sorted@.subrange(i as int, t as int + 1));
                t = t + 1;
            }
            proof {
                assert forall|a: int, b: int| 0 <= a < b < bucket@.len() implies bucket@[a] != bucket@[b] by {
                    assert(bucket@[a] == sorted@[i + a]);
                    assert(bucket@[b] == sorted@[i + b]);
                }
            }
            let b = self.topological_sort_bucket(&bucket);
            let ghost prev = resolved@;
            let ghost bj = j as int;
            let mut t: usize = 0;
            while t < b.len()
                invariant
                    n == sorted@.len(),
                    i < j <= n,
                    b@.len() == bucket@.len(),
                    bucket@ == sorted@.subrange(i as int, j as int),
                    forall|k: int| 0 <= k < b@.len() ==> bucket@.contains(#[trigger] b@[k]),
                    forall|a: int, c: int| 0 <= a < c < b@.len() ==> b@[a] != b@[c],
                    t <= b@.len(),
                    resolved@ == prev + b@.take(t as int),
                decreases b@.len() - t,
            {
                resolved.push(b[t]);
                assert(resolved@ =~= prev + b@.take(t as int + 1));
                t = t + 1;
            }
            proof {
                assert(b@.take(b@.len() as int) =~= b@);
                let (pos, m) = choose|pos: Seq<usize>, m: int|
                    is_permutation(pos, bucket@.len() as int) && kahn_split(pos, bucket@, self.systems@, m) && b@
                        == pos.map_values(|p: usize| bucket@[p as int]);
                assert(resolved@ =~= prev + pos.map_values(|p: usize| sorted@.subrange(i as int, bj)[p as int]));
                held = lemma_append_bucket(self.systems@, keys@, prev, sorted@, i as int, bj, pos, m, held);
                assert forall|k: int| 0 <= k < b@.len() implies i <= sorted@.index_of(b@[k]) < j
                    && sorted@[sorted@.index_of(b@[k])] == b@[k] by {
                    let x = b@[k];
                    assert(bucket@.contains(x));
                    let q = choose|q: int| 0 <= q < bucket@.len() && bucket@[q] == x;
                    assert(sorted@[i + q] == x);
                    assert(sorted@.contains(x));
                    let w = sorted@.index_of(x);
                    if w != i + q {
                        if w < i + q {
                            assert(sorted@[w] != sorted@[i + q]);
                        } else {
                            assert(sorted@[i + q] != sorted@[w]);
                        }
                    }
                }
                assert forall|k: int| 0 <= k < resolved@.len() implies sorted@.take(j as int).contains(
                    #[trigger] resolved@[k]) by {
                    if k < prev.len() {
                        assert(sorted@.take(i as int).contains(prev[k]));
                        let q = choose|q: int| 0 <= q < i && sorted@.take(i as int)[q] == prev[k];
                        assert(sorted@.take(j as int)[q] == prev[k]);
                    } else {
                        let x = b@[k - prev.len()];
                        let w = sorted@.index_of(x);
                        assert(sorted@.take(j as int)[w] == x);
                    }
                }
                assert forall|a: int, c: int| 0 <= a < c < resolved@.len() implies resolved@[a]
                    != resolved@[c] by {
                    if a < prev.len() && c >= prev.len() {
                        let x = b@[c - prev.len()];
                        let w = sorted@.index_of(x);
                        assert(sorted@.take(i as int).contains(prev[a]));
                        let q = choose|q: int| 0 <= q < i && sorted@.take(i as int)[q] == prev[a];
                        assert(sorted@[q] != sorted@[w]);
                    } else if a >= prev.len() {
                        assert(b@[a - prev.len()] != b@[c - prev.len()]);
                    }
                }
                assert forall|k: int| 0 <= k < resolved@.len() implies (#[trigger] resolved@[k] as int) < nn by {
                    assert(sorted@.take(j as int).contains(resolved@[k]));
                }
                assert forall|k: int| prev.len() <= k < resolved@.len() implies keys@[
                    #[trigger] resolved@[k] as int] == key by {
                    let x = b@[k - prev.len()];
                    let w = sorted@.index_of(x);
                    assert(keys@[sorted@[w] as int] == key);
                }
                assert forall|a: int, c: int| 0 <= a <= c < resolved@.len() implies keys@[resolved@[a] as int]
                    <= keys@[resolved@[c] as int] by {
                    if c < prev.len() {
                        assert(keys@[prev[a] as int] <= keys@[prev[c] as int]);
                    } else if a < prev.len() {
                        assert(keys@[resolved@[a] as int] <= keys@[sorted@[i as int] as int]);
                    }
                }
                if j < n {
                    assert forall|k: int| 0 <= k < resolved@.len() implies keys@[#[trigger] resolved@[k] as int]
                        <= keys@[sorted@[j as int] as int] by {
                        assert(keys@[sorted@[i as int] as int] <= keys@[sorted@[j as int] as int]);
                        if k < prev.len() {
                            assert(keys@[resolved@[k] as int] <= keys@[sorted@[i as int] as int]);
                        }
                    }
                }
            }
            i = j;
        }
        resolved
    }

    /// The last position in `bucket` of a system named `name`.
    fn bucket_position(&self, bucket: &Vec<usize>, name: &str) -> (r: Option<usize>)
        requires
            forall|p: int| 0 <= p < bucket@.len() ==> (#[trigger] bucket@[p] as int) < self.systems@.len(),
        ensures
            match r {
                Some(p) => p < bucket@.len() && last_named(bucket@, self.systems@, name@) == Some(p as int),
                None => last_named(bucket@, self.systems@, name@) is None,
            },
    {
        let target = str_chars(name);
        let mut p: usize = bucket.len();
        while p > 0
            invariant
                p <= bucket@.len(),
                target@ == name@,
                forall|q: int| 0 <= q < bucket@.len() ==> (#[trigger] bucket@[q] as int) < self.systems@.len(),
                last_named(bucket@, self.systems@, name@) == last_named_below(bucket@, self.systems@, name@, p as int),
            decreases p,
        {
            let cand = str_chars(self.systems[bucket[p - 1]].name);
            if chars_eq(&cand, &target) {
                return Some(p - 1);
            }
            p = p - 1;
        }
        None
    }

    /// Orders the systems of one bucket by their `before` / `after`
    /// constraints (Kahn's algorithm); systems left on a cycle follow in
    /// bucket order.
    fn topological_sort_bucket(&self, bucket: &Vec<usize>) -> (r: Vec<usize>)
        requires
            distinct_below(bucket@, self.systems@.len() as int),
        ensures
            r@.len() == bucket@.len(),
            forall|k: int| 0 <= k < r@.len() ==> bucket@.contains(#[trigger] r@[k]),
            forall|a: int, c: int| 0 <= a < c < r@.len() ==> r@[a] != r@[c],
            exists|pos: Seq<usize>, m: int|
                is_permutation(pos, bucket@.len() as int) && kahn_split(pos, bucket@, self.systems@, m) && r@
                    == pos.map_values(|p: usize| bucket@[p as int]),
    {
        let pos = self.kahn_positions(bucket);
        let mut r: Vec<usize> = Vec::new();
        let mut k: usize = 0;
        while k < pos.len()
            invariant
                is_permutation(pos@, bucket@.len() as int),
                k <= pos@.len(),
                r@ == pos@.take(k as int).map_values(|p: usize| bucket@[p as int]),
            decreases pos@.len() - k,
        {
            r.push(bucket[pos[k]]);
            assert(r@ =~= pos@.take(k as int + 1).map_values(|p: usize| bucket@[p as int]));
            k = k + 1;
        }
        proof {
            assert(pos@.take(k as int) =~= pos@);
            let m = choose|m: int| kahn_split(pos@, bucket@, self.systems@, m);
            assert(is_permutation(pos@, bucket@.len() as int) && kahn_split(pos@, bucket@, self.systems@, m) && r@
                == pos@.map_values(|p: usize| bucket@[p as int]));
            assert forall|k: int| 0 <= k < r@.len() implies bucket@.contains(#[trigger] r@[k]) by {
                assert(bucket@[pos@[k] as int] == r@[k]);
            }
            assert forall|a: int, c: int| 0 <= a < c < r@.len() implies r@[a] != r@[c] by {
                assert(pos@[a] != pos@[c]);
                if pos@[a] < pos@[c] {
                    assert(bucket@[pos@[a] as int] != bucket@[pos@[c] as int]);
                } else {
                    assert(bucket@[pos@[c] as int] != bucket@[pos@[a] as int]);
                }
            }
        }
        r
    }

    /// Records the constraints of the `after` entries of the system at
    /// position `u` of the bucket.
    fn add_after_edges(&self, bucket: &Vec<usize>, u: usize, adj: &mut Vec<Vec<usize>>, in_degree: &mut Vec<usize>)
        requires
            distinct_below(bucket@, self.systems@.len() as int),
            u < bucket@.len(),
            graph_ok(old(adj)@, old(in_degree)@, bucket@.len() as int),
            edges_are(old(adj)@, bucket@, self.systems@, u as int, 0, 0),
        ensures
            graph_ok(final(adj)@, final(in_degree)@, bucket@.len() as int),
            edges_are(
                final(adj)@,
                bucket@,
                self.systems@,
                u as int,
                self.systems@[bucket@[u as int] as int].after@.len() as int,
                0,
            ),
    {
        let ghost bk = bucket@;
        let ghost sy = self.systems@;
        let n = bucket.len();
        let sys = &self.systems[bucket[u]];
        let mut a: usize = 0;
        while a < sys.after.len()
            invariant
                n == bucket@.len(),
                bk == bucket@,
                sy == self.systems@,
                *sys == sy[bk[u as int] as int],
                distinct_below(bucket@, self.systems@.len() as int),
                u < n,
                a <= sys.after@.len(),
                graph_ok(adj@, in_degree@, n as int),
                edges_are(adj@, bk, sy, u as int, a as int, 0),
            decreases sys.after@.len() - a,
        {
            let found = self.bucket_position(bucket, sys.after[a]);
            let ghost before = adj@;
            match found {
                Some(v) => {
                    add_edge(adj, in_degree, v, u, n);
                },
                None => {},
            }
            proof {
                let a1 = a as int + 1;
                assert forall|p: int, q: int| 0 <= p < n && 0 <= q < n implies (adj@[p]@.contains(q as usize)
                    <==> #[trigger] built_edge(bk, sy, p, q, u as int, a1, 0)) by {
                    lemma_after_edge_step(bk, sy, p, q, a as int);
                    assert(before[p]@.contains(q as usize) <==> built_edge(bk, sy, p, q, u as int, a as int, 0));
                }
            }
            a = a + 1;
        }
    }

    /// Records the constraints of the `before` entries of the system at
    /// position `u` of the bucket.
    fn add_before_edges(&self, bucket: &Vec<usize>, u: usize, adj: &mut Vec<Vec<usize>>, in_degree: &mut Vec<usize>)
        requires
            distinct_below(bucket@, self.systems@.len() as int),
            u < bucket@.len(),
            graph_ok(old(adj)@, old(in_degree)@, bucket@.len() as int),
            edges_are(
                old(adj)@,
                bucket@,
                self.systems@,
                u as int,
                self.systems@[bucket@[u as int] as int].after@.len() as int,
                0,
            ),
        ensures
            graph_ok(final(adj)@, final(in_degree)@, bucket@.len() as int),
            edges_are(final(adj)@, bucket@, self.systems@, u as int + 1, 0, 0),
    {
        let ghost bk = bucket@;
        let ghost sy = self.systems@;
        let n = bucket.len();
        let sys = &self.systems[bucket[u]];
        let ghost la = sys.after@.len() as int;
        let mut b: usize = 0;
        while b < sys.before.len()
            invariant
                n == bucket@.len(),
                bk == bucket@,
                sy == self.systems@,
                *sys == sy[bk[u as int] as int],
                la == sys.after@.len(),
                distinct_below(bucket@, self.systems@.len() as int),
                u < n,
                b <= sys.before@.len(),
                graph_ok(adj@, in_degree@, n as int),
                edges_are(adj@, bk, sy, u as int, la, b as int),
            decreases sys.before@.len() - b,
        {
            let found = self.bucket_position(bucket, sys.before[b]);
            let ghost before = adj@;
            match found {
                Some(v) => {
                    add_edge(adj, in_degree, u, v, n);
                },
                None => {},
            }
            proof {
                let b1 = b as int + 1;
                assert forall|p: int, q: int| 0 <= p < n && 0 <= q < n implies (adj@[p]@.contains(q as usize)
                    <==> #[trigger] built_edge(bk, sy, p, q, u as int, la, b1)) by {
                    lemma_before_edge_step(bk, sy, p, q, b as int);
                    assert(before[p]@.contains(q as usize) <==> built_edge(bk, sy, p, q, u as int, la, b as int));
                }
            }
            b = b + 1;
        }
        proof {
            assert forall|p: int, q: int| 0 <= p < n && 0 <= q < n implies (adj@[p]@.contains(q as usize)
                <==> #[trigger] built_edge(bk, sy, p, q, u as int + 1, 0, 0)) by {
                assert(adj@[p]@.contains(q as usize) <==> built_edge(bk, sy, p, q, u as int, la, b as int));
            }
        }
    }

    /// The constraint graph of a bucket: adjacency lists and in-degrees.
    fn build_graph(&self, bucket: &Vec<usize>) -> (r: (Vec<Vec<usize>>, Vec<usize>))
        requires
            distinct_below(bucket@, self.systems@.len() as int),
        ensures
            graph_ok(r.0@, r.1@, bucket@.len() as int),
            forall|p: int, q: int|
                0 <= p < bucket@.len() && 0 <= q < bucket@.len() ==> (r.0@[p]@.contains(q as usize) <==> #[trigger] bucket_edge(
                    bucket@,
                    self.systems@,
                    p,
                    q,
                )),
    {
        let n = bucket.len();
        let ghost bk = bucket@;
        let ghost sy = self.systems@;
        let mut in_degree: Vec<usize> = Vec::new();
        let mut adj: Vec<Vec<usize>> = Vec::new();
        let mut x: usize = 0;
        while x < n
            invariant
                x <= n,
                in_degree@.len() == x,
                adj@.len() == x,
                forall|a: int| 0 <= a < x ==> (#[trigger] adj@[a])@.len() == 0,
                forall|a: int| 0 <= a < x ==> in_degree@[a] == 0,
            decreases n - x,
        {
            in_degree.push(0);
            adj.push(Vec::new());
            x = x + 1;
        }
        proof {
            assert forall|y: int| 0 <= y < n implies #[trigger] in_degree@[y] == pending_preds(
                adj_view(adj@),
                y as usize,
                n as int,
                Seq::empty(),
            ) by {
                lemma_pending_empty(adj_view(adj@), y as usize, n as int, Seq::empty());
            }
            assert forall|p: int, q: int| 0 <= p < n && 0 <= q < n implies (adj@[p]@.contains(q as usize)
                <==> #[trigger] built_edge(bk, sy, p, q, 0, 0, 0)) by {
                assert(adj@[p]@.len() == 0);
            }
        }
        let mut u: usize = 0;
        while u < n
            invariant
                n == bucket@.len(),
                bk == bucket@,
                sy == self.systems@,
                distinct_below(bucket@, self.systems@.len() as int),
                u <= n,
                graph_ok(adj@, in_degree@, n as int),
                edges_are(adj@, bk, sy, u as int, 0, 0),
            decreases n - u,
        {
            self.add_after_edges(bucket, u, &mut adj, &mut in_degree);
            self.add_before_edges(bucket, u, &mut adj, &mut in_degree);
            u = u + 1;
        }
        proof {
            assert forall|p: int, q: int| 0 <= p < n && 0 <= q < n implies (adj@[p]@.contains(q as usize)
                <==> #[trigger] bucket_edge(bk, sy, p, q)) by {
                assert(adj@[p]@.contains(q as usize) <==> built_edge(bk, sy, p, q, n as int, 0, 0));
            }
        }
        (adj, in_degree)
    }

    /// Kahn's algorithm over the positions of a bucket. Each constraint
    /// between two positions is recorded once.
    fn kahn_positions(&self, bucket: &Vec<usize>) -> (pos: Vec<usize>)
        requires
            distinct_below(bucket@, self.systems@.len() as int),
        ensures
            is_permutation(pos@, bucket@.len() as int),
            exists|m: int| kahn_split(pos@, bucket@, self.systems@, m),
    {
        let n = bucket.len();
        let ghost bk = bucket@;
        let ghost sy = self.systems@;
        let (adj, mut in_degree) = self.build_graph(bucket);
        let ghost aj = adj_view(adj@);
        let mut queue = initial_queue(&adj, &in_degree, n);
        drain_queue(&adj, &mut in_degree, &mut queue, n);
        let ghost emitted = queue@;
        append_waiting(&in_degree, &mut queue, n, Ghost(aj));
        proof {
            let m = emitted.len() as int;
            assert forall|j: int, x: int|
                0 <= j < m && 0 <= x < bk.len() && #[trigger] bucket_edge(bk, sy, x, queue@[j] as int) implies exists|i: int|
                    0 <= i < j && queue@[i] as int == x by {
                assert(queue@[j] == emitted[j]);
                assert(aj[x] == adj@[x]@);
                assert(aj[x].contains(emitted[j]));
                let i = choose|i: int| 0 <= i < j && emitted[i] as int == x;
                assert(queue@[i] == emitted[i]);
            }
            assert forall|j: int| #![trigger queue@[j]] m <= j < queue@.len() implies waits_in_tail(queue@, bk, sy, m, queue@[j] as int) by {
                let v = queue@[j];
                assert(has_pending_pred(aj, emitted, v, n as int));
                let x = choose|x: int| 0 <= x < n && aj[x].contains(v) && !emitted.contains(x as usize);
                assert(aj[x] == adj@[x]@);
                assert(bucket_edge(bk, sy, x, v as int));
                assert forall|i: int| 0 <= i < m implies queue@[i] as int != x by {
                    assert(queue@[i] == emitted[i]);
                    if queue@[i] as int == x {
                        assert(emitted.contains(x as usize));
                    }
                }
            }
            assert(kahn_split(queue@, bk, sy, m));
        }
        queue
    }

    fn keys_exec(&self) -> (k: Vec<u16>)
        ensures
            k@ == self.keys(),
    {
        let mut k: Vec<u16> = Vec::new();
        let mut i: usize = 0;
        while i < self.systems.len()
            invariant
                i <= self.systems@.len(),
                k@ == self.keys().take(i as int),
            decreases self.systems@.len() - i,
        {
            let key = self.systems[i].key();
            k.push(key);
            assert(k@ =~= self.keys().take(i as int + 1));
            i = i + 1;
        }
        assert(self.keys().take(i as int) =~= self.keys());
        k
    }

    /// The systems that run in `stage`, in run order; the caller runs each
    /// handle in turn.
    pub fn run_stage(&self, stage: Stage) -> (r: Vec<&F>)
        requires
            self.wf(),
        ensures
            r@ == stage_positions(self.run_order(), self.registered(), stage).map_values(
                |i: usize| &self.registered()[i as int].run,
            ),
    {
        let mut r: Vec<&F> = Vec::new();
        let mut k: usize = 0;
        while k < self.order.len()
            invariant
                self.wf(),
                k <= self.order@.len(),
                r@ == stage_positions(self.order@.take(k as int), self.systems@, stage).map_values(
                    |i: usize| &self.systems@[i as int].run,
                ),
            decreases self.order@.len() - k,
        {
            let idx = self.order[k];
            assert(self.order@.take(k as int + 1).drop_last() =~= self.order@.take(k as int));
            if self.systems[idx].stage == stage {
                r.push(&self.systems[idx].run);
                assert(r@ =~= stage_positions(self.order@.take(k as int + 1), self.systems@, stage).map_values(
                    |i: usize| &self.systems@[i as int].run,
                ));
            }
            k = k + 1;
        }
        assert(self.order@.take(k as int) =~= self.order@);
        r
    }
}

} // verus!
