//! Shortest unit-cost distances and reachability, computed by rounds of
//! relaxation. After `n` rounds the relaxation is at its fixpoint, so these
//! definitions also serve as the specification the executable code is held to.
use vstd::prelude::*;

use crate::graph::CodeGraph;
use crate::graph::MAX_NODES;

verus! {

/// Stands for "unreachable" in distance vectors; larger than any real
/// distance, which is below `MAX_NODES`.
pub const INF_DIST: i64 = 1_000_000_000;

/// Nodes with an n-times-n reachability table must fit its indexing on every
/// architecture.
pub const MAX_CLOSURE_NODES: usize = 65_535;

/// The smaller of two values.
pub open spec fn min_int(a: int, b: int) -> int {
    if a <= b {
        a
    } else {
        b
    }
}

/// Row-major indexing of an n-times-n table stays in range.
pub proof fn lemma_rowcol_index(n: int, u: int, v: int)
    requires
        0 <= u < n,
        0 <= v < n,
    ensures
        0 <= u * n + v < n * n,
        n <= 65535 ==> n * n <= 4294836225,
{
    assert(0 <= u * n + v < n * n) by (nonlinear_arith)
        requires
            0 <= u < n,
            0 <= v < n,
    ;
    if n <= 65535 {
        assert(n * n <= 4294836225int) by (nonlinear_arith)
            requires
                0 <= n <= 65535,
        ;
    }
}

/// Advancing one row adds one row's worth of cells.
pub proof fn lemma_row_advance(n: int, u: int)
    requires
        0 <= u < n,
    ensures
        (u + 1) * n == u * n + n,
        u * n + n <= n * n,
        0 <= u * n,
{
    assert((u + 1) * n == u * n + n && u * n + n <= n * n && 0 <= u * n) by (nonlinear_arith)
        requires
            0 <= u < n,
    ;
}

/// Distances before any relaxation: the source at zero, all else unreached.
pub open spec fn dist_init(n: int, src: int) -> Seq<i64> {
    Seq::new(n as nat, |v: int| if v == src {
        0i64
    } else {
        INF_DIST
    })
}

/// One step through an edge: the source's distance plus one, saturated at
/// `INF_DIST`.
pub open spec fn dist_step(prev: Seq<i64>, e: crate::graph::Edge) -> int {
    if prev[e.source as int] + 1 < INF_DIST {
        prev[e.source as int] + 1
    } else {
        INF_DIST as int
    }
}

/// Best distance to `v` through any of the first `k` edges, given the
/// previous round's distances.
pub open spec fn dist_relax_upto(g: CodeGraph, prev: Seq<i64>, v: int, k: int) -> int
    decreases k,
{
    if k <= 0 {
        INF_DIST as int
    } else {
        let rest = dist_relax_upto(g, prev, v, k - 1);
        let e = g.edges@[k - 1];
        if e.target == v {
            min_int(rest, dist_step(prev, e))
        } else {
            rest
        }
    }
}

/// One full relaxation round.
pub open spec fn dist_next(g: CodeGraph, prev: Seq<i64>) -> Seq<i64> {
    Seq::new(
        g.n() as nat,
        |v: int| min_int(prev[v] as int, dist_relax_upto(g, prev, v, g.m())) as i64,
    )
}

/// Distances from `src` after `rounds` relaxation rounds. With `rounds` at
/// the node count this is the unit-cost shortest distance.
pub open spec fn dists_spec(g: CodeGraph, src: int, rounds: nat) -> Seq<i64>
    decreases rounds,
{
    if rounds == 0 {
        dist_init(g.n(), src)
    } else {
        dist_next(g, dists_spec(g, src, (rounds - 1) as nat))
    }
}

/// Distance vectors keep one entry per node, each in `[0, INF_DIST]`.
pub proof fn lemma_dists_bounds(g: CodeGraph, src: int, rounds: nat)
    requires
        g.wf(),
    ensures
        dists_spec(g, src, rounds).len() == g.n(),
        forall|v: int|
            0 <= v < g.n() ==> 0 <= #[trigger] dists_spec(g, src, rounds)[v] <= INF_DIST,
    decreases rounds,
{
    if rounds != 0 {
        lemma_dists_bounds(g, src, (rounds - 1) as nat);
        assert forall|v: int|
            0 <= v < g.n() implies 0 <= #[trigger] dists_spec(g, src, rounds)[v]
            <= INF_DIST by {
            lemma_relax_bounds(g, dists_spec(g, src, (rounds - 1) as nat), v, g.m());
        }
    }
}

/// The relaxation minimum stays within `[0, INF_DIST]` when the previous
/// round did.
pub proof fn lemma_relax_bounds(g: CodeGraph, prev: Seq<i64>, v: int, k: int)
    requires
        0 <= k <= g.m(),
        prev.len() == g.n(),
        g.wf(),
        forall|j: int| 0 <= j < g.n() ==> 0 <= #[trigger] prev[j] <= INF_DIST,
    ensures
        0 <= dist_relax_upto(g, prev, v, k) <= INF_DIST,
    decreases k,
{
    if k > 0 {
        lemma_relax_bounds(g, prev, v, k - 1);
    }
}

impl CodeGraph {
    /// Unit-cost shortest distances from `src` to every node, by running the
    /// node count's worth of relaxation rounds; `INF_DIST` marks an
    /// unreachable node.
    pub fn unit_distances(&self, src: usize) -> (r: Vec<i64>)
        requires
            self.wf(),
            self.fits(),
            src < self.n(),
        ensures
            r@ == dists_spec(*self, src as int, self.n() as nat),
            r@.len() == self.n(),
            forall|v: int| 0 <= v < self.n() ==> 0 <= #[trigger] r@[v] <= INF_DIST,
    {
        let n = self.nodes.len();
        let m = self.edges.len();
        let mut dist: Vec<i64> = Vec::new();
        let mut v: usize = 0;
        while v < n
            invariant
                v <= n,
                n == self.n(),
                dist@.len() == v,
                forall|j: int| 0 <= j < v ==> dist@[j] == dist_init(n as int, src as int)[j],
            decreases n - v,
        {
            if v == src {
                dist.push(0);
            } else {
                dist.push(INF_DIST);
            }
            v = v + 1;
        }
        proof {
            assert(dist@ =~= dist_init(n as int, src as int));
        }

        let mut round: usize = 0;
        while round < n
            invariant
                round <= n,
                n == self.n(),
                m == self.m(),
                self.wf(),
                self.fits(),
                src < n,
                dist@ == dists_spec(*self, src as int, round as nat),
                dist@.len() == n,
                forall|j: int| 0 <= j < n ==> 0 <= #[trigger] dist@[j] <= INF_DIST,
            decreases n - round,
        {
            let ghost prev = dist@;
            let mut next: Vec<i64> = Vec::new();
            let mut v: usize = 0;
            while v < n
                invariant
                    v <= n,
                    n == self.n(),
                    m == self.m(),
                    self.wf(),
                    self.fits(),
                    dist@ == prev,
                    dist@.len() == n,
                    forall|j: int| 0 <= j < n ==> 0 <= #[trigger] dist@[j] <= INF_DIST,
                    next@.len() == v,
                    forall|j: int| 0 <= j < v ==> next@[j] == dist_next(*self, prev)[j],
                decreases n - v,
            {
                let mut best: i64 = INF_DIST;
                let mut k: usize = 0;
                while k < m
                    invariant
                        k <= m,
                        v < n,
                        n == self.n(),
                        m == self.m(),
                        self.wf(),
                        self.fits(),
                        dist@ == prev,
                        dist@.len() == n,
                        forall|j: int| 0 <= j < n ==> 0 <= #[trigger] dist@[j] <= INF_DIST,
                        best == dist_relax_upto(*self, prev, v as int, k as int),
                        0 <= best <= INF_DIST,
                    decreases m - k,
                {
                    if self.edges[k].target == v {
                        let s = self.edges[k].source;
                        let ds = dist[s];
                        let cand = if ds + 1 < INF_DIST {
                            ds + 1
                        } else {
                            INF_DIST
                        };
                        if cand < best {
                            best = cand;
                        }
                    }
                    k = k + 1;
                }
                let cur = dist[v];
                let nv = if cur <= best {
                    cur
                } else {
                    best
                };
                next.push(nv);
                v = v + 1;
            }
            proof {
                assert(next@ =~= dist_next(*self, prev));
                lemma_dists_bounds(*self, src as int, (round + 1) as nat);
            }
            dist = next;
            round = round + 1;
        }
        dist
    }
}

/// Whether `v` can be reached from `u` along at most `k` edges (at least
/// one). This is the specification that the reachability table is held to.
pub open spec fn reach_within(g: CodeGraph, u: int, v: int, k: int) -> bool
    decreases k,
{
    k > 0 && exists|j: int|
        0 <= j < g.m() && (#[trigger] g.edges@[j]).source == u && (g.edges@[j].target == v
            || reach_within(g, g.edges@[j].target as int, v, k - 1))
}

/// Whether, among the first `k` edges, one leaves `u` and either lands on
/// `v` or lands on a node already marked as reaching `v` in `tab`.
pub open spec fn reach_cell_upto(
    g: CodeGraph,
    tab: Seq<bool>,
    n: int,
    u: int,
    v: int,
    k: int,
) -> bool
    decreases k,
{
    if k <= 0 {
        false
    } else {
        reach_cell_upto(g, tab, n, u, v, k - 1) || {
            let e = g.edges@[k - 1];
            e.source == u && (e.target == v || tab[e.target * n + v])
        }
    }
}

/// A reachability table: flat row-major n-times-n booleans.
pub open spec fn reach_table_ok(g: CodeGraph, tab: Seq<bool>, rounds: nat) -> bool {
    tab.len() == g.n() * g.n() && forall|u: int, v: int|
        0 <= u < g.n() && 0 <= v < g.n() ==> #[trigger] tab[u * g.n() + v] == reach_within(
            g,
            u,
            v,
            rounds as int,
        )
}

/// A step found in a prefix is found in every longer prefix.
proof fn lemma_reach_cell_monotone(
    g: CodeGraph,
    tab: Seq<bool>,
    n: int,
    u: int,
    v: int,
    k: int,
    k2: int,
)
    requires
        0 <= k <= k2,
        reach_cell_upto(g, tab, n, u, v, k),
    ensures
        reach_cell_upto(g, tab, n, u, v, k2),
    decreases k2,
{
    if k2 > k {
        lemma_reach_cell_monotone(g, tab, n, u, v, k, k2 - 1);
    }
}

/// The prefix scan of a row equals one unfolding of `reach_within`.
pub proof fn lemma_reach_cell_full(g: CodeGraph, tab: Seq<bool>, rounds: nat, u: int, v: int)
    requires
        g.wf(),
        reach_table_ok(g, tab, rounds),
        0 <= u < g.n(),
        0 <= v < g.n(),
    ensures
        reach_cell_upto(g, tab, g.n(), u, v, g.m()) == reach_within(g, u, v, rounds as int + 1),
{
    lemma_reach_cell_partial(g, tab, rounds, u, v, g.m());
    if reach_within(g, u, v, rounds as int + 1) {
        let j = choose|j: int|
            0 <= j < g.m() && (#[trigger] g.edges@[j]).source == u && (g.edges@[j].target == v
                || reach_within(g, g.edges@[j].target as int, v, rounds as int));
        lemma_reach_cell_witness(g, tab, rounds, u, v, j);
        lemma_reach_cell_monotone(g, tab, g.n(), u, v, j + 1, g.m());
    }
}

/// If a prefix scan finds a step, the unfolded reachability holds.
proof fn lemma_reach_cell_partial(
    g: CodeGraph,
    tab: Seq<bool>,
    rounds: nat,
    u: int,
    v: int,
    k: int,
)
    requires
        g.wf(),
        reach_table_ok(g, tab, rounds),
        0 <= u < g.n(),
        0 <= v < g.n(),
        0 <= k <= g.m(),
    ensures
        reach_cell_upto(g, tab, g.n(), u, v, k) ==> reach_within(g, u, v, rounds as int + 1),
    decreases k,
{
    if k > 0 {
        lemma_reach_cell_partial(g, tab, rounds, u, v, k - 1);
        if !reach_cell_upto(g, tab, g.n(), u, v, k - 1) && reach_cell_upto(g, tab, g.n(), u, v, k) {
            let e = g.edges@[k - 1];
            assert(e.source == u && (e.target == v || tab[e.target * g.n() + v]));
        }
    }
}

/// A witness edge found in the unfolded form is seen by the prefix scan.
proof fn lemma_reach_cell_witness(
    g: CodeGraph,
    tab: Seq<bool>,
    rounds: nat,
    u: int,
    v: int,
    j: int,
)
    requires
        g.wf(),
        reach_table_ok(g, tab, rounds),
        0 <= u < g.n(),
        0 <= v < g.n(),
        0 <= j < g.m(),
        g.edges@[j].source == u,
        g.edges@[j].target == v || reach_within(g, g.edges@[j].target as int, v, rounds as int),
    ensures
        reach_cell_upto(g, tab, g.n(), u, v, j + 1),
{
    let e = g.edges@[j];
    if e.target != v {
        assert(tab[e.target * g.n() + v] == reach_within(g, e.target as int, v, rounds as int));
    }
    assert(e.source == u && (e.target == v || tab[e.target * g.n() + v]));
}

impl CodeGraph {
    /// The full reachability table: entry `u * n + v` says whether `v` can be
    /// reached from `u` along at least one and at most `n` edges. Running
    /// the node count's worth of rounds reaches the fixpoint, so this is
    /// reachability outright.
    pub fn reach_table(&self) -> (r: Vec<bool>)
        requires
            self.wf(),
            self.fits(),
            self.n() <= MAX_CLOSURE_NODES,
        ensures
            reach_table_ok(*self, r@, self.n() as nat),
    {
        let n = self.nodes.len();
        let m = self.edges.len();
        let mut tab: Vec<bool> = Vec::new();
        proof {
            assert((n as int) * (n as int) <= 4294836225int) by (nonlinear_arith)
                requires
                    0 <= n <= 65535,
            ;
        }
        let total = n * n;
        let mut i: usize = 0;
        while i < total
            invariant
                i <= total,
                total == self.n() * self.n(),
                tab@.len() == i,
                forall|j: int| 0 <= j < i ==> !(#[trigger] tab@[j]),
            decreases total - i,
        {
            tab.push(false);
            i = i + 1;
        }
        proof {
            assert forall|u: int, v: int|
                0 <= u < self.n() && 0 <= v < self.n() implies #[trigger] tab@[u * self.n() + v]
                == reach_within(*self, u, v, 0) by {
                lemma_rowcol_index(self.n(), u, v);
            }
        }

        let mut round: usize = 0;
        while round < n
            invariant
                round <= n,
                n == self.n(),
                m == self.m(),
                n <= MAX_CLOSURE_NODES,
                self.wf(),
                self.fits(),
                reach_table_ok(*self, tab@, round as nat),
            decreases n - round,
        {
            let ghost prev = tab@;
            let mut next: Vec<bool> = Vec::new();
            let mut u: usize = 0;
            while u < n
                invariant
                    u <= n,
                    n == self.n(),
                    m == self.m(),
                    n <= MAX_CLOSURE_NODES,
                    self.wf(),
                    self.fits(),
                    tab@ == prev,
                    reach_table_ok(*self, prev, round as nat),
                    next@.len() == u * n,
                    forall|a: int, b: int|
                        0 <= a < u && 0 <= b < n ==> #[trigger] next@[a * n + b] == reach_within(
                            *self,
                            a,
                            b,
                            round + 1,
                        ),
                decreases n - u,
            {
                let mut v: usize = 0;
                proof {
                    lemma_row_advance(n as int, u as int);
                }
                while v < n
                    invariant
                        v <= n,
                        u < n,
                        n == self.n(),
                        m == self.m(),
                        n <= MAX_CLOSURE_NODES,
                        self.wf(),
                        self.fits(),
                        tab@ == prev,
                        reach_table_ok(*self, prev, round as nat),
                        next@.len() == u * n + v,
                        u * n + n <= n * n,
                        forall|a: int, b: int|
                            0 <= a < u && 0 <= b < n ==> #[trigger] next@[a * n + b]
                                == reach_within(*self, a, b, round + 1),
                        forall|b: int|
                            0 <= b < v ==> #[trigger] next@[u * n + b] == reach_within(
                                *self,
                                u as int,
                                b,
                                round + 1,
                            ),
                    decreases n - v,
                {
                    let mut found = false;
                    let mut k: usize = 0;
                    while k < m
                        invariant
                            k <= m,
                            u < n,
                            v < n,
                            n == self.n(),
                            m == self.m(),
                            n <= MAX_CLOSURE_NODES,
                            self.wf(),
                            self.fits(),
                            tab@ == prev,
                            reach_table_ok(*self, prev, round as nat),
                            found == reach_cell_upto(
                                *self,
                                prev,
                                n as int,
                                u as int,
                                v as int,
                                k as int,
                            ),
                        decreases m - k,
                    {
                        if !found && self.edges[k].source == u {
                            let t = self.edges[k].target;
                            if t == v {
                                found = true;
                            } else {
                                proof {
                                    lemma_rowcol_index(n as int, t as int, v as int);
                                    assert(t * n + v < n * n <= 4294836225);
                                }
                                if tab[t * n + v] {
                                    found = true;
                                }
                            }
                        }
                        k = k + 1;
                    }
                    proof {
                        lemma_reach_cell_full(
                            *self,
                            prev,
                            round as nat,
                            u as int,
                            v as int,
                        );
                    }
                    next.push(found);
                    v = v + 1;
                    proof {
                        assert forall|a: int, b: int|
                            0 <= a < u && 0 <= b < n implies #[trigger] next@[a * n + b]
                            == reach_within(*self, a, b, round + 1) by {
                            assert(0 <= a * n + b < u as int * (n as int)) by (nonlinear_arith)
                                requires
                                    0 <= a < u,
                                    0 <= b < n as int,
                            ;
                        }
                        assert forall|b: int|
                            0 <= b < v implies #[trigger] next@[u as int * n + b] == reach_within(
                            *self,
                            u as int,
                            b,
                            round + 1,
                        ) by {
                            assert(0 <= u as int * (n as int)) by (nonlinear_arith)
                                requires
                                    0 <= u as int,
                                    0 <= n as int,
                            ;
                        }
                    }
                }
                proof {
                    lemma_row_advance(n as int, u as int);
                }
                u = u + 1;
            }
            proof {
                assert forall|a: int, b: int|
                    0 <= a < n && 0 <= b < n implies #[trigger] next@[a * n + b] == reach_within(
                    *self,
                    a,
                    b,
                    round + 1,
                ) by {
                    lemma_rowcol_index(n as int, a, b);
                }
            }
            tab = next;
            round = round + 1;
        }
        tab
    }
}


/// One step backward through an edge: the target's distance plus one,
/// saturated at `INF_DIST`.
pub open spec fn rdist_step(prev: Seq<i64>, e: crate::graph::Edge) -> int {
    if prev[e.target as int] + 1 < INF_DIST {
        prev[e.target as int] + 1
    } else {
        INF_DIST as int
    }
}

/// Best reverse distance from `v` through any of the first `k` edges.
pub open spec fn rdist_relax_upto(g: CodeGraph, prev: Seq<i64>, v: int, k: int) -> int
    decreases k,
{
    if k <= 0 {
        INF_DIST as int
    } else {
        let rest = rdist_relax_upto(g, prev, v, k - 1);
        let e = g.edges@[k - 1];
        if e.source == v {
            min_int(rest, rdist_step(prev, e))
        } else {
            rest
        }
    }
}

/// One full reverse relaxation round.
pub open spec fn rdist_next(g: CodeGraph, prev: Seq<i64>) -> Seq<i64> {
    Seq::new(
        g.n() as nat,
        |v: int| min_int(prev[v] as int, rdist_relax_upto(g, prev, v, g.m())) as i64,
    )
}

/// Shortest path lengths INTO `dst`: entry `u` is the unit-cost length of
/// the shortest directed path from `u` to `dst`, after `rounds` rounds.
pub open spec fn rdists_spec(g: CodeGraph, dst: int, rounds: nat) -> Seq<i64>
    decreases rounds,
{
    if rounds == 0 {
        dist_init(g.n(), dst)
    } else {
        rdist_next(g, rdists_spec(g, dst, (rounds - 1) as nat))
    }
}

/// Reverse distance vectors keep one bounded entry per node.
pub proof fn lemma_rdists_bounds(g: CodeGraph, dst: int, rounds: nat)
    requires
        g.wf(),
    ensures
        rdists_spec(g, dst, rounds).len() == g.n(),
        forall|v: int|
            0 <= v < g.n() ==> 0 <= #[trigger] rdists_spec(g, dst, rounds)[v] <= INF_DIST,
    decreases rounds,
{
    if rounds != 0 {
        lemma_rdists_bounds(g, dst, (rounds - 1) as nat);
        assert forall|v: int|
            0 <= v < g.n() implies 0 <= #[trigger] rdists_spec(g, dst, rounds)[v]
            <= INF_DIST by {
            lemma_rrelax_bounds(g, rdists_spec(g, dst, (rounds - 1) as nat), v, g.m());
        }
    }
}

proof fn lemma_rrelax_bounds(g: CodeGraph, prev: Seq<i64>, v: int, k: int)
    requires
        0 <= k <= g.m(),
        prev.len() == g.n(),
        g.wf(),
        forall|j: int| 0 <= j < g.n() ==> 0 <= #[trigger] prev[j] <= INF_DIST,
    ensures
        0 <= rdist_relax_upto(g, prev, v, k) <= INF_DIST,
    decreases k,
{
    if k > 0 {
        lemma_rrelax_bounds(g, prev, v, k - 1);
    }
}

impl CodeGraph {
    /// Unit-cost shortest distances from every node INTO `dst`, following
    /// edges forward; `INF_DIST` marks a node that cannot reach `dst`.
    #[verifier::loop_isolation(false)]
    pub fn unit_distances_rev(&self, dst: usize) -> (r: Vec<i64>)
        requires
            self.wf(),
            self.fits(),
            dst < self.n(),
        ensures
            r@ == rdists_spec(*self, dst as int, self.n() as nat),
            r@.len() == self.n(),
            forall|v: int| 0 <= v < self.n() ==> 0 <= #[trigger] r@[v] <= INF_DIST,
    {
        let n = self.nodes.len();
        let m = self.edges.len();
        let mut dist: Vec<i64> = Vec::new();
        let mut v: usize = 0;
        while v < n
            invariant
                v <= n,
                dist@.len() == v,
                forall|j: int| 0 <= j < v ==> dist@[j] == dist_init(n as int, dst as int)[j],
            decreases n - v,
        {
            if v == dst {
                dist.push(0);
            } else {
                dist.push(INF_DIST);
            }
            v = v + 1;
        }
        proof {
            assert(dist@ =~= dist_init(n as int, dst as int));
        }

        let mut round: usize = 0;
        while round < n
            invariant
                round <= n,
                dist@ == rdists_spec(*self, dst as int, round as nat),
                dist@.len() == n,
                forall|j: int| 0 <= j < n ==> 0 <= #[trigger] dist@[j] <= INF_DIST,
            decreases n - round,
        {
            let ghost prev = dist@;
            let mut next: Vec<i64> = Vec::new();
            let mut v: usize = 0;
            while v < n
                invariant
                    v <= n,
                    dist@ == prev,
                    dist@.len() == n,
                    forall|j: int| 0 <= j < n ==> 0 <= #[trigger] dist@[j] <= INF_DIST,
                    next@.len() == v,
                    forall|j: int| 0 <= j < v ==> next@[j] == rdist_next(*self, prev)[j],
                decreases n - v,
            {
                let mut best: i64 = INF_DIST;
                let mut k: usize = 0;
                while k < m
                    invariant
                        k <= m,
                        v < n,
                        dist@ == prev,
                        best == rdist_relax_upto(*self, prev, v as int, k as int),
                        0 <= best <= INF_DIST,
                    decreases m - k,
                {
                    if self.edges[k].source == v {
                        let t = self.edges[k].target;
                        let dt = dist[t];
                        let cand = if dt + 1 < INF_DIST {
                            dt + 1
                        } else {
                            INF_DIST
                        };
                        if cand < best {
                            best = cand;
                        }
                    }
                    k = k + 1;
                }
                let cur = dist[v];
                let nv = if cur <= best {
                    cur
                } else {
                    best
                };
                next.push(nv);
                v = v + 1;
            }
            proof {
                assert(next@ =~= rdist_next(*self, prev));
                lemma_rdists_bounds(*self, dst as int, (round + 1) as nat);
            }
            dist = next;
            round = round + 1;
        }
        dist
    }
}

} // verus!
