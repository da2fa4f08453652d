//! The link graph: a directed multigraph over relative article URLs, kept in a
//! petgraph `Graph` whose node indices are tied to URLs by a lookup table.
use petgraph::graph::{Graph, NodeIndex};
use petgraph::Directed;
use vstd::prelude::*;

verus! {

#[verifier::external_type_specification]
#[verifier::external_body]
#[verifier::reject_recursive_types(N)]
#[verifier::reject_recursive_types(E)]
#[verifier::reject_recursive_types(Ty)]
#[verifier::reject_recursive_types(Ix)]
pub struct ExGraph<N, E, Ty, Ix>(Graph<N, E, Ty, Ix>);

#[verifier::external_type_specification]
#[verifier::external_body]
pub struct ExDirected(Directed);

/// The petgraph graph that holds the adjacency: nodes and edges carry no data,
/// node indices are `usize`.
pub type LinkStore = Graph<(), (), Directed, usize>;

/// The edges of a store, as pairs of node indices, in insertion order.
pub uninterp spec fn store_edges(g: Graph<(), (), Directed, usize>) -> Seq<(int, int)>;

/// The number of nodes of a store.
pub uninterp spec fn store_node_count(g: Graph<(), (), Directed, usize>) -> nat;

/// Relies on petgraph's `Graph::with_capacity`: a graph with no nodes and no edges.
#[verifier::external_body]
fn store_new() -> (g: LinkStore)
    ensures
        store_node_count(g) == 0,
        store_edges(g) == Seq::<(int, int)>::empty(),
{
    Graph::with_capacity(0, 0)
}

/// Relies on petgraph's `Graph::add_node`: the new node's index is the former
/// node count; edges are untouched (no panic with `usize` indices).
#[verifier::external_body]
fn store_add_node(g: &mut LinkStore) -> (r: usize)
    requires
        store_node_count(*old(g)) < usize::MAX,
    ensures
        r == store_node_count(*old(g)),
        store_node_count(*final(g)) == store_node_count(*old(g)) + 1,
        store_edges(*final(g)) == store_edges(*old(g)),
{
    g.add_node(()).index()
}

/// Relies on petgraph's `Graph::add_edge`: one more edge `a -> b` at the end,
/// parallel edges allowed; it panics only on a missing endpoint.
#[verifier::external_body]
fn store_add_edge(g: &mut LinkStore, a: usize, b: usize)
    requires
        a < store_node_count(*old(g)),
        b < store_node_count(*old(g)),
    ensures
        store_node_count(*final(g)) == store_node_count(*old(g)),
        store_edges(*final(g)) == store_edges(*old(g)).push((a as int, b as int)),
{
    g.add_edge(NodeIndex::new(a), NodeIndex::new(b), ());
}

/// Relies on petgraph's `Graph::edge_count`: the number of edges.
#[verifier::external_body]
fn store_edge_count(g: &LinkStore) -> (r: usize)
    ensures
        r == store_edges(*g).len(),
{
    g.edge_count()
}

/// Relies on petgraph's `algo::astar` with unit edge costs and a zero estimate,
/// which is admissible: a path it returns is a shortest one from `s` to `t`,
/// and it returns `None` only when `t` cannot be reached from `s`.
#[verifier::external_body]
fn store_shortest_path(g: &LinkStore, s: usize, t: usize) -> (r: Option<Vec<usize>>)
    requires
        s < store_node_count(*g),
        t < store_node_count(*g),
    ensures
        match r {
            Some(p) => {
                &&& is_path(store_edges(*g), index_seq(p@), s as int, t as int)
                &&& forall|q: Seq<int>|
                    is_path(store_edges(*g), q, s as int, t as int) ==> p@.len() <= q.len()
            },
            None => forall|q: Seq<int>| !is_path(store_edges(*g), q, s as int, t as int),
        },
{
    let goal = NodeIndex::new(t);
    petgraph::algo::astar(g, NodeIndex::new(s), |n| n == goal, |_| 1usize, |_| 0usize).map(
        |(_, path)| path.iter().map(|n| n.index()).collect(),
    )
}

pub open spec fn index_seq(p: Seq<usize>) -> Seq<int> {
    p.map_values(|i: usize| i as int)
}

/// `p` is a walk from `s` to `t` (both included) along edges of `es`.
pub open spec fn is_path<A>(es: Seq<(A, A)>, p: Seq<A>, s: A, t: A) -> bool {
    &&& p.len() > 0
    &&& p[0] == s
    &&& p[p.len() - 1] == t
    &&& forall|i: int| 0 <= i < p.len() - 1 ==> #[trigger] es.contains((p[i], p[i + 1]))
}

/// Every URL that stands at either end of an edge.
pub open spec fn endpoints(es: Seq<(Seq<char>, Seq<char>)>) -> Set<Seq<char>> {
    Set::new(|u: Seq<char>| exists|k: int| 0 <= k < es.len() && (es[k].0 == u || es[k].1 == u))
}

pub open spec fn url_seq(v: Seq<String>) -> Seq<Seq<char>> {
    v.map_values(|u: String| u@)
}

/// Why a shortest path could not be given.
#[derive(Debug, Clone, Copy, PartialEq, Eq, Structural)]
pub enum PathError {
    MissingStart,
    MissingTarget,
    NoPath,
}

/// Directed multigraph of relative article URLs.
pub struct LinksGraph {
    urls: Vec<String>,
    store: LinkStore,
}

impl LinksGraph {
    /// The nodes, in order of creation.
    pub closed spec fn nodes(&self) -> Seq<Seq<char>> {
        url_seq(self.urls@)
    }

    /// The edges, in order of insertion.
    pub closed spec fn edges(&self) -> Seq<(Seq<char>, Seq<char>)> {
        store_edges(self.store).map_values(
            |e: (int, int)| (self.urls@[e.0]@, self.urls@[e.1]@),
        )
    }

    closed spec fn wf_core(&self) -> bool {
        &&& store_node_count(self.store) == self.urls.len()
        &&& forall|k: int|
            0 <= k < store_edges(self.store).len() ==> 0 <= #[trigger] store_edges(self.store)[k].0
                < self.urls.len() && 0 <= store_edges(self.store)[k].1 < self.urls.len()
        &&& self.nodes().no_duplicates()
    }

    /// Well-formed: one node per URL, edges between existing nodes, and every
    /// node stands at an end of some edge.
    pub closed spec fn wf(&self) -> bool {
        &&& self.wf_core()
        &&& self.nodes().to_set() == endpoints(self.edges())
    }

    pub fn new() -> (g: LinksGraph)
        ensures
            g.wf(),
            g.nodes() == Seq::<Seq<char>>::empty(),
            g.edges() == Seq::<(Seq<char>, Seq<char>)>::empty(),
    {
        let g = LinksGraph { urls: Vec::new(), store: store_new() };
        assert(g.nodes().to_set() =~= endpoints(g.edges()));
        assert(g.nodes() =~= Seq::<Seq<char>>::empty());
        assert(g.edges() =~= Seq::<(Seq<char>, Seq<char>)>::empty());
        g
    }

    /// The number of nodes.
    pub fn node_count(&self) -> (r: usize)
        requires
            self.wf(),
        ensures
            r == self.nodes().len(),
    {
        self.urls.len()
    }

    /// The number of edges, parallel ones included.
    pub fn edge_count(&self) -> (r: usize)
        ensures
            r == self.edges().len(),
    {
        store_edge_count(&self.store)
    }

    fn node_idx(&self, node: &String) -> (r: Option<usize>)
        requires
            self.wf_core(),
        ensures
            match r {
                Some(i) => i < self.urls.len() && self.urls@[i as int]@ == node@,
                None => !self.nodes().contains(node@),
            },
    {
        let mut i: usize = 0;
        while i < self.urls.len()
            invariant
                i <= self.urls.len(),
                forall|j: int| 0 <= j < i ==> self.urls@[j]@ != node@,
            decreases self.urls.len() - i,
        {
            if self.urls[i] == *node {
                return Some(i);
            }
            i = i + 1;
        }
        proof {
            if self.nodes().contains(node@) {
                let j = choose|j: int| 0 <= j < self.nodes().len() && self.nodes()[j] == node@;
                assert(self.urls@[j]@ == node@);
            }
        }
        None
    }

    /// Whether `node` is a node of the graph.
    pub fn node_exists(&self, node: &String) -> (r: bool)
        requires
            self.wf(),
        ensures
            r == self.nodes().contains(node@),
    {
        match self.node_idx(node) {
            Some(i) => {
                assert(self.nodes()[i as int] == node@);
                true
            },
            None => false,
        }
    }

    fn maybe_create_node(&mut self, node: &String) -> (r: usize)
        requires
            old(self).wf_core(),
            old(self).urls.len() < usize::MAX,
        ensures
            final(self).wf_core(),
            r < final(self).urls.len(),
            final(self).urls@[r as int]@ == node@,
            final(self).edges() == old(self).edges(),
            final(self).urls.len() <= old(self).urls.len() + 1,
            old(self).nodes().is_prefix_of(final(self).nodes()),
            store_edges(final(self).store) == store_edges(old(self).store),
            old(self).nodes().contains(node@) ==> final(self).nodes() == old(self).nodes(),
            !old(self).nodes().contains(node@) ==> final(self).nodes() == old(self).nodes().push(
                node@,
            ),
    {
        if let Some(i) = self.node_idx(node) {
            proof {
                assert(self.nodes()[i as int] == node@);
            }
            return i;
        }
        let ghost before = *self;
        let idx = store_add_node(&mut self.store);
        self.urls.push(node.clone());
        proof {
            assert(self.nodes() =~= before.nodes().push(node@));
            assert(self.edges() =~= before.edges());
            assert(self.nodes().no_duplicates()) by {
                assert forall|a: int, b: int|
                    0 <= a < b < self.nodes().len() implies self.nodes()[a] != self.nodes()[b] by {
                    if b == before.nodes().len() {
                        assert(before.nodes().contains(before.nodes()[a]));
                    }
                }
            }
        }
        idx
    }

    /// Adds the edge `a -> b`, creating either node where it is missing.
    /// Parallel edges are kept.
    pub fn add_edge(&mut self, a: &String, b: &String)
        requires
            old(self).wf(),
            old(self).nodes().len() + 2 <= usize::MAX,
        ensures
            final(self).wf(),
            final(self).edges() == old(self).edges().push((a@, b@)),
            old(self).nodes().is_prefix_of(final(self).nodes()),
            final(self).nodes().len() <= old(self).nodes().len() + 2,
            final(self).nodes().to_set() == old(self).nodes().to_set().insert(a@).insert(b@),
    {
        let ghost before = *self;
        let ia = self.maybe_create_node(a);
        let ghost mid = *self;
        let ib = self.maybe_create_node(b);
        let ghost mid2 = *self;
        proof {
            assert(mid2.nodes()[ia as int] == mid.nodes()[ia as int]);
        }
        store_add_edge(&mut self.store, ia, ib);
        proof {
            assert(self.nodes()[ia as int] == a@);
            assert(self.edges() =~= before.edges().push((a@, b@)));
            assert(self.nodes() == mid2.nodes());
            assert(mid.nodes().to_set() =~= before.nodes().to_set().insert(a@)) by {
                if !before.nodes().contains(a@) {
                    assert(mid.nodes() == before.nodes().push(a@));
                    before.nodes().lemma_push_to_set_commute(a@);
                }
            }
            assert(mid2.nodes().to_set() =~= mid.nodes().to_set().insert(b@)) by {
                if !mid.nodes().contains(b@) {
                    assert(mid2.nodes() == mid.nodes().push(b@));
                    mid.nodes().lemma_push_to_set_commute(b@);
                }
            }
            lemma_endpoints_push(before.edges(), (a@, b@));
            assert(before.nodes().is_prefix_of(mid.nodes()));
            assert(mid.nodes().is_prefix_of(mid2.nodes()));
            assert(before.nodes().is_prefix_of(self.nodes()));
        }
    }

    spec fn idx_of(&self, u: Seq<char>) -> int {
        choose|j: int| 0 <= j < self.urls.len() && self.urls@[j]@ == u
    }

    proof fn lemma_index_path_in_range(&self, ip: Seq<int>, si: int, ti: int)
        requires
            self.wf_core(),
            0 <= si < self.urls.len(),
            is_path(store_edges(self.store), ip, si, ti),
        ensures
            forall|i: int| 0 <= i < ip.len() ==> 0 <= #[trigger] ip[i] < self.urls.len(),
    {
        let es = store_edges(self.store);
        assert forall|i: int| 0 <= i < ip.len() implies 0 <= #[trigger] ip[i] < self.urls.len() by {
            if i > 0 {
                assert(es.contains((ip[i - 1], ip[i - 1 + 1])));
                let k = choose|k: int| 0 <= k < es.len() && es[k] == (ip[i - 1], ip[i - 1 + 1]);
                assert(es[k].0 == ip[i - 1]);
                assert(es[k].1 == ip[i]);
            }
        }
    }

    /// A walk over node indices is a walk over the URLs at those indices.
    proof fn lemma_index_path_to_urls(&self, ip: Seq<int>, si: int, ti: int)
        requires
            self.wf_core(),
            0 <= si < self.urls.len(),
            0 <= ti < self.urls.len(),
            is_path(store_edges(self.store), ip, si, ti),
        ensures
            forall|i: int| 0 <= i < ip.len() ==> 0 <= #[trigger] ip[i] < self.urls.len(),
            is_path(
                self.edges(),
                ip.map_values(|j: int| self.urls@[j]@),
                self.urls@[si]@,
                self.urls@[ti]@,
            ),
    {
        self.lemma_index_path_in_range(ip, si, ti);
        let es = store_edges(self.store);
        let up = ip.map_values(|j: int| self.urls@[j]@);
        assert forall|i: int| 0 <= i < up.len() - 1 implies #[trigger] self.edges().contains(
            (up[i], up[i + 1]),
        ) by {
            assert(es.contains((ip[i], ip[i + 1])));
            let k = choose|k: int| 0 <= k < es.len() && es[k] == (ip[i], ip[i + 1]);
            assert(self.edges()[k] == (up[i], up[i + 1]));
        }
    }

    /// A walk over URLs is a walk over their node indices, of the same length.
    proof fn lemma_url_path_to_index(&self, q: Seq<Seq<char>>, si: int, ti: int)
        requires
            self.wf_core(),
            0 <= si < self.urls.len(),
            0 <= ti < self.urls.len(),
            is_path(self.edges(), q, self.urls@[si]@, self.urls@[ti]@),
        ensures
            is_path(store_edges(self.store), q.map_values(|u: Seq<char>| self.idx_of(u)), si, ti),
    {
        let es = store_edges(self.store);
        let ip = q.map_values(|u: Seq<char>| self.idx_of(u));
        assert(self.nodes()[si] == self.urls@[si]@);
        assert(self.nodes()[ti] == self.urls@[ti]@);
        assert(self.urls@[self.idx_of(q[0])]@ == q[0]);
        assert(self.nodes()[self.idx_of(q[0])] == self.nodes()[si]);
        assert(self.urls@[self.idx_of(q[q.len() - 1])]@ == q[q.len() - 1]);
        assert(self.nodes()[self.idx_of(q[q.len() - 1])] == self.nodes()[ti]);
        assert forall|i: int| 0 <= i < ip.len() - 1 implies #[trigger] es.contains(
            (ip[i], ip[i + 1]),
        ) by {
            assert(self.edges().contains((q[i], q[i + 1])));
            let k = choose|k: int|
                0 <= k < self.edges().len() && self.edges()[k] == (q[i], q[i + 1]);
            let (a, b) = es[k];
            assert(self.urls@[a]@ == q[i]);
            assert(self.urls@[self.idx_of(q[i])]@ == q[i]);
            assert(self.nodes()[a] == self.nodes()[self.idx_of(q[i])]);
            assert(self.urls@[self.idx_of(q[i + 1])]@ == q[i + 1]);
            assert(self.nodes()[b] == self.nodes()[self.idx_of(q[i + 1])]);
            assert(es[k] == (ip[i], ip[i + 1]));
        }
    }

    /// A shortest walk from `start` to `target`, both included, over the
    /// edges recorded so far.
    pub fn shortest_path_to_target(&self, start: String, target: String) -> (r: Result<
        Vec<String>,
        PathError,
    >)
        requires
            self.wf(),
        ensures
            !self.nodes().contains(start@) ==> r == Err::<Vec<String>, PathError>(
                PathError::MissingStart,
            ),
            self.nodes().contains(start@) && !self.nodes().contains(target@) ==> r == Err::<
                Vec<String>,
                PathError,
            >(PathError::MissingTarget),
            self.nodes().contains(start@) && self.nodes().contains(target@) ==> match r {
                Ok(p) => {
                    &&& is_path(self.edges(), url_seq(p@), start@, target@)
                    &&& forall|q: Seq<Seq<char>>|
                        is_path(self.edges(), q, start@, target@) ==> p@.len() <= q.len()
                },
                Err(e) => {
                    &&& e == PathError::NoPath
                    &&& forall|q: Seq<Seq<char>>| !is_path(self.edges(), q, start@, target@)
                },
            },
    {
        let si = match self.node_idx(&start) {
            Some(i) => i,
            None => {
                return Err(PathError::MissingStart);
            },
        };
        let ti = match self.node_idx(&target) {
            Some(i) => i,
            None => {
                proof {
                    assert(self.nodes()[si as int] == start@);
                }
                return Err(PathError::MissingTarget);
            },
        };
        proof {
            assert(self.nodes()[si as int] == start@);
            assert(self.nodes()[ti as int] == target@);
        }
        match store_shortest_path(&self.store, si, ti) {
            None => {
                proof {
                    assert forall|q: Seq<Seq<char>>| !is_path(self.edges(), q, start@, target@) by {
                        if is_path(self.edges(), q, start@, target@) {
                            self.lemma_url_path_to_index(q, si as int, ti as int);
                        }
                    }
                }
                Err(PathError::NoPath)
            },
            Some(p) => {
                let ghost ip = index_seq(p@);
                proof {
                    self.lemma_index_path_to_urls(ip, si as int, ti as int);
                }
                let mut out: Vec<String> = Vec::new();
                let mut i: usize = 0;
                while i < p.len()
                    invariant
                        i <= p.len(),
                        ip == index_seq(p@),
                        forall|j: int| 0 <= j < ip.len() ==> 0 <= #[trigger] ip[j] < self.urls.len(),
                        out@.len() == i,
                        forall|j: int|
                            0 <= j < i ==> #[trigger] out@[j]@ == self.urls@[ip[j]]@,
                    decreases p.len() - i,
                {
                    assert(ip[i as int] == p@[i as int] as int);
                    out.push(self.urls[p[i]].clone());
                    i = i + 1;
                }
                proof {
                    assert(url_seq(out@) =~= ip.map_values(|j: int| self.urls@[j]@));
                    assert forall|q: Seq<Seq<char>>|
                        is_path(self.edges(), q, start@, target@) implies out@.len() <= q.len() by {
                        self.lemma_url_path_to_index(q, si as int, ti as int);
                    }
                }
                Ok(out)
            },
        }
    }
}

/// Node uniqueness: in a graph built by `add_edge` calls, there is exactly one
/// node per distinct URL that any recorded edge starts or ends at.
pub proof fn lemma_one_node_per_url(g: &LinksGraph)
    requires
        g.wf(),
    ensures
        g.nodes().to_set() == endpoints(g.edges()),
        g.nodes().len() == endpoints(g.edges()).len(),
{
    assert(g.wf_core());
    assert(g.nodes().no_duplicates());
    g.nodes().unique_seq_to_set();
}

proof fn lemma_endpoints_push(es: Seq<(Seq<char>, Seq<char>)>, e: (Seq<char>, Seq<char>))
    ensures
        endpoints(es.push(e)) == endpoints(es).insert(e.0).insert(e.1),
{
    let n = es.push(e);
    assert forall|u: Seq<char>| endpoints(n).contains(u) implies endpoints(es).insert(e.0).insert(
        e.1,
    ).contains(u) by {
        let k = choose|k: int| 0 <= k < n.len() && (n[k].0 == u || n[k].1 == u);
        if k < es.len() {
            assert(es[k] == n[k]);
        }
    }
    assert forall|u: Seq<char>| endpoints(es).insert(e.0).insert(e.1).contains(u) implies endpoints(
        n,
    ).contains(u) by {
        if endpoints(es).contains(u) {
            let k = choose|k: int| 0 <= k < es.len() && (es[k].0 == u || es[k].1 == u);
            assert(n[k] == es[k]);
        } else {
            assert(n[es.len() as int] == e);
        }
    }
    assert(endpoints(es.push(e)) =~= endpoints(es).insert(e.0).insert(e.1));
}

} // verus!
