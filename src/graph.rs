//! The undirected graph that a decomposition describes.
use vstd::prelude::*;

verus! {

/// What a graph is, as plain values: the node names, the edge names, and the two endpoints of
/// each edge.
pub struct GraphView {
    pub node_names: Seq<Seq<char>>,
    pub edge_names: Seq<Seq<char>>,
    pub endpoints: Seq<(usize, usize)>,
}

impl GraphView {
    pub open spec fn node_count(self) -> nat {
        self.node_names.len()
    }

    pub open spec fn edge_count(self) -> nat {
        self.endpoints.len()
    }

    /// Whether `n` is one of the endpoints of edge `e`.
    pub open spec fn is_endpoint(self, e: int, n: int) -> bool {
        self.endpoints[e].0 == n || self.endpoints[e].1 == n
    }

    /// The first node named `name`.
    #[verifier::opaque]
    pub open spec fn first_node_named(self, name: Seq<char>) -> Option<usize> {
        if exists|j: int| 0 <= j < self.node_names.len() && self.node_names[j] == name {
            Some(
                choose|j: usize|
                    j < self.node_names.len() && self.node_names[j as int] == name && forall|k: int|
                        0 <= k < j ==> self.node_names[k] != name,
            )
        } else {
            None
        }
    }

    /// The first edge named `name`.
    #[verifier::opaque]
    pub open spec fn first_edge_named(self, name: Seq<char>) -> Option<usize> {
        if exists|j: int| 0 <= j < self.edge_names.len() && self.edge_names[j] == name {
            Some(
                choose|j: usize|
                    j < self.edge_names.len() && self.edge_names[j as int] == name && forall|k: int|
                        0 <= k < j ==> self.edge_names[k] != name,
            )
        } else {
            None
        }
    }

    /// The edge with the smallest index between `u` and `v`, in either direction.
    #[verifier::opaque]
    pub open spec fn smallest_edge_between(self, u: int, v: int) -> Option<usize> {
        if exists|e: int| 0 <= e < self.endpoints.len() && self.is_endpoint(e, u) && self.is_endpoint(e, v) {
            Some(
                choose|e: usize|
                    e < self.endpoints.len() && self.is_endpoint(e as int, u) && self.is_endpoint(
                        e as int,
                        v,
                    ) && forall|f: int|
                        0 <= f < e ==> !(self.is_endpoint(f, u) && self.is_endpoint(f, v)),
            )
        } else {
            None
        }
    }

    /// Every index fits below the reserved value, every edge has a name, and every edge joins
    /// two distinct nodes of the graph.
    pub open spec fn valid(self) -> bool {
        &&& self.node_names.len() < usize::MAX
        &&& self.endpoints.len() < usize::MAX
        &&& self.edge_names.len() == self.endpoints.len()
        &&& forall|e: int|
            0 <= e < self.endpoints.len() ==> {
                &&& (#[trigger] self.endpoints[e]).0 < self.node_names.len()
                &&& self.endpoints[e].1 < self.node_names.len()
                &&& self.endpoints[e].0 != self.endpoints[e].1
            }
    }
}

/// An undirected graph without self-loops, fixed after construction, with named nodes and
/// edges.
pub struct StaticGraph {
    node_names: Vec<String>,
    edge_names: Vec<String>,
    endpoints: Vec<(usize, usize)>,
    incident: Vec<Vec<usize>>,
}

/// Why a graph could not be constructed.
#[derive(Clone, Copy, PartialEq, Eq, Structural, Debug)]
pub enum GraphError {
    /// The number of edge names differs from the number of edges.
    EdgeNameCountMismatch,
    /// An edge names a node that does not exist.
    EndpointOutOfRange,
    /// An edge joins a node to itself.
    SelfLoop,
    /// There are too many nodes or edges for the index space.
    TooLarge,
}

impl View for StaticGraph {
    type V = GraphView;

    closed spec fn view(&self) -> GraphView {
        GraphView {
            node_names: self.node_names@.map_values(|s: String| s@),
            edge_names: self.edge_names@.map_values(|s: String| s@),
            endpoints: self.endpoints@,
        }
    }
}

impl StaticGraph {
    /// The incidence lists hold, for each node, exactly the edges that touch it.
    pub closed spec fn incidence_ok(&self) -> bool {
        &&& self.incident@.len() == self.node_names@.len()
        &&& forall|n: int, i: int|
            0 <= n < self.incident@.len() && 0 <= i < self.incident@[n]@.len() ==> {
                &&& (#[trigger] self.incident@[n]@[i]) < self.endpoints@.len()
            }
        &&& forall|n: int, e: int|
            0 <= n < self.incident@.len() && 0 <= e < self.endpoints@.len() ==> (
            #[trigger] self.incident@[n]@.contains(e as usize) <==> self@.is_endpoint(e, n))
    }

    pub open spec fn wf(&self) -> bool {
        self@.valid() && self.incidence_ok()
    }

    /// Builds a graph from its node names, its edge names and its edges.
    pub fn new(node_names: Vec<String>, edge_names: Vec<String>, endpoints: Vec<(usize, usize)>) -> (r:
        Result<StaticGraph, GraphError>)
        ensures
            r is Ok <==> {
                &&& node_names@.len() < usize::MAX
                &&& endpoints@.len() < usize::MAX
                &&& edge_names@.len() == endpoints@.len()
                &&& forall|e: int|
                    0 <= e < endpoints@.len() ==> {
                        &&& (#[trigger] endpoints@[e]).0 < node_names@.len()
                        &&& endpoints@[e].1 < node_names@.len()
                        &&& endpoints@[e].0 != endpoints@[e].1
                    }
            },
            r matches Ok(g) ==> {
                &&& g.wf()
                &&& g@.node_names == node_names@.map_values(|s: String| s@)
                &&& g@.edge_names == edge_names@.map_values(|s: String| s@)
                &&& g@.endpoints == endpoints@
            },
    {
        if node_names.len() == usize::MAX || endpoints.len() == usize::MAX {
            return Err(GraphError::TooLarge);
        }
        if edge_names.len() != endpoints.len() {
            return Err(GraphError::EdgeNameCountMismatch);
        }
        let n: usize = node_names.len();
        let m: usize = endpoints.len();
        let mut e: usize = 0;
        while e < m
            invariant
                0 <= e <= m,
                m == endpoints@.len(),
                n == node_names@.len(),
                forall|f: int|
                    0 <= f < e ==> {
                        &&& (#[trigger] endpoints@[f]).0 < n
                        &&& endpoints@[f].1 < n
                        &&& endpoints@[f].0 != endpoints@[f].1
                    },
            decreases m - e,
        {
            let (a, b) = endpoints[e];
            if a >= n || b >= n {
                return Err(GraphError::EndpointOutOfRange);
            }
            if a == b {
                return Err(GraphError::SelfLoop);
            }
            e = e + 1;
        }
        let mut incident: Vec<Vec<usize>> = Vec::new();
        let mut k: usize = 0;
        while k < n
            invariant
                0 <= k <= n,
                incident@.len() == k,
                forall|j: int| 0 <= j < k ==> (#[trigger] incident@[j])@.len() == 0,
            decreases n - k,
        {
            incident.push(Vec::new());
            k = k + 1;
        }
        let mut e: usize = 0;
        while e < m
            invariant
                0 <= e <= m,
                m == endpoints@.len(),
                n == node_names@.len(),
                incident@.len() == n,
                forall|f: int|
                    0 <= f < m ==> {
                        &&& (#[trigger] endpoints@[f]).0 < n
                        &&& endpoints@[f].1 < n
                        &&& endpoints@[f].0 != endpoints@[f].1
                    },
                forall|x: int, i: int|
                    0 <= x < n && 0 <= i < incident@[x]@.len() ==> (#[trigger] incident@[x]@[i])
                        < e,
                forall|x: int, f: int|
                    0 <= x < n && 0 <= f < m ==> (#[trigger] incident@[x]@.contains(f as usize)
                        <==> (f < e && (endpoints@[f].0 == x || endpoints@[f].1 == x))),
            decreases m - e,
        {
            let (a, b) = endpoints[e];
            let ghost before = incident@;
            incident[a].push(e);
            incident[b].push(e);
            assert forall|x: int, i: int|
                0 <= x < n && 0 <= i < incident@[x]@.len() implies (#[trigger] incident@[x]@[i])
                < e + 1 by {
                if x != a && x != b {
                    assert(incident@[x] == before[x]);
                } else if i < before[x]@.len() {
                    if x == a {
                        assert(incident@[x]@[i] == before[x]@[i]);
                    } else {
                        assert(incident@[x]@[i] == before[x]@[i]);
                    }
                }
            }
            assert forall|x: int, f: int|
                0 <= x < n && 0 <= f < m implies (#[trigger] incident@[x]@.contains(f as usize)
                <==> (f < e + 1 && (endpoints@[f].0 == x || endpoints@[f].1 == x))) by {
                if x != a && x != b {
                    assert(incident@[x] == before[x]);
                } else if x == a {
                    assert(incident@[x]@ == before[x]@.push(e));
                    if incident@[x]@.contains(f as usize) && f != e {
                        let j = choose|j: int| 0 <= j < incident@[x]@.len() && incident@[x]@[j] == f as usize;
                        assert(before[x]@[j] == f as usize);
                    }
                    if f < e && before[x]@.contains(f as usize) {
                        let j = choose|j: int| 0 <= j < before[x]@.len() && before[x]@[j] == f as usize;
                        assert(incident@[x]@[j] == f as usize);
                    }
                    if f == e {
                        assert(incident@[x]@[before[x]@.len() as int] == e);
                    }
                } else {
                    assert(incident@[x]@ == before[x]@.push(e));
                    if incident@[x]@.contains(f as usize) && f != e {
                        let j = choose|j: int| 0 <= j < incident@[x]@.len() && incident@[x]@[j] == f as usize;
                        assert(before[x]@[j] == f as usize);
                    }
                    if f < e && before[x]@.contains(f as usize) {
                        let j = choose|j: int| 0 <= j < before[x]@.len() && before[x]@[j] == f as usize;
                        assert(incident@[x]@[j] == f as usize);
                    }
                    if f == e {
                        assert(incident@[x]@[before[x]@.len() as int] == e);
                    }
                }
            }
            e = e + 1;
        }
        Ok(StaticGraph { node_names, edge_names, endpoints, incident })
    }

    /// Whether the graph obeys [`GraphView::valid`]; a graph built by [`new`](Self::new) does.
    pub fn is_valid(&self) -> (r: bool)
        ensures
            r == self@.valid(),
    {
        if self.node_names.len() == usize::MAX || self.endpoints.len() == usize::MAX
            || self.edge_names.len() != self.endpoints.len() {
            return false;
        }
        let n = self.node_names.len();
        let mut e: usize = 0;
        while e < self.endpoints.len()
            invariant
                0 <= e <= self.endpoints@.len(),
                n == self@.node_count(),
                forall|f: int|
                    0 <= f < e ==> {
                        &&& (#[trigger] self@.endpoints[f]).0 < n
                        &&& self@.endpoints[f].1 < n
                        &&& self@.endpoints[f].0 != self@.endpoints[f].1
                    },
            decreases self.endpoints@.len() - e,
        {
            let (a, b) = self.endpoints[e];
            if a >= n || b >= n || a == b {
                return false;
            }
            e = e + 1;
        }
        true
    }

    /// Whether the graph is well formed: valid, with incidence lists that hold, for each node,
    /// exactly the edges that touch it. A graph built by [`new`](Self::new) is.
    pub fn is_well_formed(&self) -> (r: bool)
        ensures
            r == self.wf(),
    {
        if !self.is_valid() || self.incident.len() != self.node_names.len() {
            return false;
        }
        let n = self.node_names.len();
        let m = self.endpoints.len();
        let mut x: usize = 0;
        while x < n
            invariant
                0 <= x <= n,
                n == self.node_names@.len(),
                m == self.endpoints@.len(),
                self.incident@.len() == n,
                self@.valid(),
                forall|y: int, i: int|
                    0 <= y < x && 0 <= i < self.incident@[y]@.len() ==> {
                        &&& (#[trigger] self.incident@[y]@[i]) < m
                        &&& self@.is_endpoint(self.incident@[y]@[i] as int, y)
                    },
            decreases n - x,
        {
            let list = &self.incident[x];
            let mut i: usize = 0;
            while i < list.len()
                invariant
                    0 <= i <= list@.len(),
                    0 <= x < n,
                    n == self.node_names@.len(),
                    m == self.endpoints@.len(),
                    self.incident@.len() == n,
                    list@ == self.incident@[x as int]@,
                    forall|j: int|
                        0 <= j < i ==> {
                            &&& (#[trigger] list@[j]) < m
                            &&& self@.is_endpoint(list@[j] as int, x as int)
                        },
                decreases list@.len() - i,
            {
                let e = list[i];
                if e >= m {
                    return false;
                }
                let (a, b) = self.endpoints[e];
                if a != x && b != x {
                    proof {
                        assert(list@[i as int] == e);
                        assert(self.incident@[x as int]@.contains((e as int) as usize));
                        assert(self@.endpoints[e as int] == (a, b));
                        assert(!self@.is_endpoint(e as int, x as int));
                    }
                    return false;
                }
                i = i + 1;
            }
            x = x + 1;
        }
        let mut e: usize = 0;
        while e < m
            invariant
                0 <= e <= m,
                n == self.node_names@.len(),
                m == self.endpoints@.len(),
                self.incident@.len() == n,
                self@.valid(),
                forall|y: int, i: int|
                    0 <= y < n && 0 <= i < self.incident@[y]@.len() ==> {
                        &&& (#[trigger] self.incident@[y]@[i]) < m
                        &&& self@.is_endpoint(self.incident@[y]@[i] as int, y)
                    },
                forall|f: int|
                    0 <= f < e ==> {
                        &&& self.incident@[(#[trigger] self@.endpoints[f]).0 as int]@.contains(f as usize)
                        &&& self.incident@[self@.endpoints[f].1 as int]@.contains(f as usize)
                    },
            decreases m - e,
        {
            let (a, b) = self.endpoints[e];
            assert(self@.endpoints[e as int] == (a, b));
            if !list_contains(&self.incident[a], e) || !list_contains(&self.incident[b], e) {
                proof {
                    assert(self@.is_endpoint(e as int, a as int));
                    assert(self@.is_endpoint(e as int, b as int));
                    assert(a < n && b < n);
                    assert(!self.incident@[a as int]@.contains((e as int) as usize) || !self.incident@[b as int]@.contains((e as int) as usize));
                }
                return false;
            }
            e = e + 1;
        }
        proof {
            assert forall|y: int, f: int|
                0 <= y < n && 0 <= f < m implies (#[trigger] self.incident@[y]@.contains(f as usize)
                <==> self@.is_endpoint(f, y)) by {
                if self.incident@[y]@.contains(f as usize) {
                    let i = choose|i: int| 0 <= i < self.incident@[y]@.len() && self.incident@[y]@[i] == f as usize;
                    assert(self@.is_endpoint(self.incident@[y]@[i] as int, y));
                }
                if self@.is_endpoint(f, y) {
                    assert(self@.endpoints[f] == self@.endpoints[f]);
                }
            }
        }
        true
    }

    pub fn node_count(&self) -> (r: usize)
        ensures
            r == self@.node_count(),
    {
        self.node_names.len()
    }

    pub fn edge_count(&self) -> (r: usize)
        ensures
            r == self@.edge_count(),
    {
        self.endpoints.len()
    }

    /// The name of node `node`.
    pub fn node_name(&self, node: usize) -> (r: String)
        requires
            node < self@.node_count(),
        ensures
            r@ == self@.node_names[node as int],
    {
        self.node_names[node].clone()
    }

    /// The name of edge `edge`.
    pub fn edge_name(&self, edge: usize) -> (r: String)
        requires
            edge < self@.edge_names.len(),
        ensures
            r@ == self@.edge_names[edge as int],
    {
        self.edge_names[edge].clone()
    }

    /// The two endpoints of edge `edge`.
    pub fn edge_endpoints(&self, edge: usize) -> (r: (usize, usize))
        requires
            edge < self@.edge_count(),
        ensures
            r == self@.endpoints[edge as int],
    {
        self.endpoints[edge]
    }

    /// The edges that touch node `node`, each once.
    pub fn incident_edges(&self, node: usize) -> (r: &Vec<usize>)
        requires
            self.wf(),
            node < self@.node_count(),
        ensures
            forall|i: int| 0 <= i < r@.len() ==> (#[trigger] r@[i]) < self@.edge_count(),
            forall|e: int|
                0 <= e < self@.edge_count() ==> (#[trigger] r@.contains(e as usize)
                    <==> self@.is_endpoint(e, node as int)),
    {
        &self.incident[node]
    }

    /// The first node whose name is `name`.
    pub fn node_index_from_name(&self, name: &str) -> (r: Option<usize>)
        ensures
            r == self@.first_node_named(name@),
            match r {
                Some(n) => n < self@.node_count() && self@.node_names[n as int] == name@ && forall|
                    j: int,
                | 0 <= j < n ==> self@.node_names[j] != name@,
                None => forall|j: int| 0 <= j < self@.node_count() ==> self@.node_names[j] != name@,
            },
    {
        reveal(GraphView::first_node_named);
        let wanted = String::from_str(name);
        let mut i: usize = 0;
        while i < self.node_names.len()
            invariant
                0 <= i <= self.node_names@.len(),
                wanted@ == name@,
                forall|j: int| 0 <= j < i ==> self@.node_names[j] != name@,
            decreases self.node_names@.len() - i,
        {
            if self.node_names[i] == wanted {
                proof {
                    reveal(GraphView::first_node_named);
                    assert(self@.node_names[i as int] == name@);
                    let j = choose|j: usize|
                        j < self@.node_names.len() && self@.node_names[j as int] == name@ && forall|k: int|
                            0 <= k < j ==> self@.node_names[k] != name@;
                    if j < i {
                        assert(self@.node_names[j as int] != name@);
                    }
                    if i < j {
                        assert(self@.node_names[i as int] != name@);
                    }
                }
                return Some(i);
            }
            i = i + 1;
        }
        proof {
            reveal(GraphView::first_node_named);
        }
        None
    }

    /// The first edge whose name is `name`.
    pub fn edge_index_from_name(&self, name: &str) -> (r: Option<usize>)
        ensures
            r == self@.first_edge_named(name@),
            match r {
                Some(e) => e < self@.edge_names.len() && self@.edge_names[e as int] == name@ && forall|
                    j: int,
                | 0 <= j < e ==> self@.edge_names[j] != name@,
                None => forall|j: int| 0 <= j < self@.edge_names.len() ==> self@.edge_names[j] != name@,
            },
    {
        reveal(GraphView::first_edge_named);
        let wanted = String::from_str(name);
        let mut i: usize = 0;
        while i < self.edge_names.len()
            invariant
                0 <= i <= self.edge_names@.len(),
                wanted@ == name@,
                forall|j: int| 0 <= j < i ==> self@.edge_names[j] != name@,
            decreases self.edge_names@.len() - i,
        {
            if self.edge_names[i] == wanted {
                proof {
                    reveal(GraphView::first_edge_named);
                    assert(self@.edge_names[i as int] == name@);
                    let j = choose|j: usize|
                        j < self@.edge_names.len() && self@.edge_names[j as int] == name@ && forall|k: int|
                            0 <= k < j ==> self@.edge_names[k] != name@;
                    if j < i {
                        assert(self@.edge_names[j as int] != name@);
                    }
                    if i < j {
                        assert(self@.edge_names[i as int] != name@);
                    }
                }
                return Some(i);
            }
            i = i + 1;
        }
        proof {
            reveal(GraphView::first_edge_named);
        }
        None
    }

    /// The edge with the smallest index between `u` and `v`, in either direction, if there is one.
    pub fn edge_between(&self, u: usize, v: usize) -> (r: Option<usize>)
        requires
            self.wf(),
            u < self@.node_count(),
        ensures
            r == self@.smallest_edge_between(u as int, v as int),
            match r {
                Some(e) => e < self@.edge_count() && self@.is_endpoint(e as int, u as int)
                    && self@.is_endpoint(e as int, v as int),
                None => forall|e: int|
                    0 <= e < self@.edge_count() ==> !(self@.is_endpoint(e, u as int)
                        && self@.is_endpoint(e, v as int)),
            },
    {
        let edges = self.incident_edges(u);
        let mut best: Option<usize> = None;
        let mut i: usize = 0;
        while i < edges.len()
            invariant
                self.wf(),
                u < self@.node_count(),
                0 <= i <= edges@.len(),
                forall|j: int| 0 <= j < edges@.len() ==> (#[trigger] edges@[j]) < self@.edge_count(),
                forall|e: int|
                    0 <= e < self@.edge_count() ==> (#[trigger] edges@.contains(e as usize)
                        <==> self@.is_endpoint(e, u as int)),
                match best {
                    Some(b) => {
                        &&& b < self@.edge_count()
                        &&& self@.is_endpoint(b as int, u as int)
                        &&& self@.is_endpoint(b as int, v as int)
                        &&& forall|j: int|
                            0 <= j < i && self@.is_endpoint(#[trigger] edges@[j] as int, v as int) ==> b
                                <= edges@[j]
                        &&& exists|j: int| 0 <= j < i && edges@[j] == b
                    },
                    None => forall|j: int|
                        0 <= j < i ==> !self@.is_endpoint(#[trigger] edges@[j] as int, v as int),
                },
            decreases edges@.len() - i,
        {
            let e = edges[i];
            let (a, b) = self.edge_endpoints(e);
            let ghost old_best = best;
            if a == v || b == v {
                match best {
                    Some(x) => {
                        if e < x {
                            best = Some(e);
                        }
                    },
                    None => {
                        best = Some(e);
                    },
                }
            }
            proof {
                let g = self@;
                assert(edges@[i as int] == e);
                assert(g.is_endpoint(e as int, v as int) == (a == v || b == v));
                assert(edges@.contains((e as int) as usize));
                assert(g.is_endpoint(e as int, u as int));
                if let Some(bb) = best {
                    assert forall|j: int|
                        0 <= j < i + 1 && g.is_endpoint(#[trigger] edges@[j] as int, v as int) implies bb
                            <= edges@[j] by {
                        if j < i {
                            if let Some(ob) = old_best {
                                assert(ob <= edges@[j]);
                            }
                        }
                    }
                    if bb == e {
                        assert(edges@[i as int] == bb);
                    } else {
                        let ob = old_best.unwrap();
                        let j0 = choose|j: int| 0 <= j < i && edges@[j] == ob;
                        assert(edges@[j0] == bb);
                    }
                }
            }
            i = i + 1;
        }
        proof {
            reveal(GraphView::smallest_edge_between);
            let g = self@;
            match best {
                Some(x) => {
                    let j0 = choose|j: int| 0 <= j < edges@.len() && edges@[j] == x;
                    assert(edges@.contains(x));
                    assert forall|f: int| 0 <= f < x implies !(g.is_endpoint(f, u as int) && g.is_endpoint(f, v as int)) by {
                        if g.is_endpoint(f, u as int) && g.is_endpoint(f, v as int) {
                            assert(edges@.contains(f as usize));
                            let j = choose|j: int| 0 <= j < edges@.len() && edges@[j] == f as usize;
                            assert(x <= edges@[j]);
                        }
                    }
                    assert(exists|e: int| 0 <= e < g.endpoints.len() && g.is_endpoint(e, u as int) && g.is_endpoint(e, v as int)) by {
                        assert(g.is_endpoint(x as int, u as int));
                    }
                    let c = choose|e: usize|
                        e < g.endpoints.len() && g.is_endpoint(e as int, u as int) && g.is_endpoint(
                            e as int,
                            v as int,
                        ) && forall|f: int|
                            0 <= f < e ==> !(g.is_endpoint(f, u as int) && g.is_endpoint(f, v as int));
                    if c < x {
                        assert(!(g.is_endpoint(c as int, u as int) && g.is_endpoint(c as int, v as int)));
                    }
                    if x < c {
                        assert(!(g.is_endpoint(x as int, u as int) && g.is_endpoint(x as int, v as int)));
                    }
                },
                None => {
                    assert forall|e: int|
                        0 <= e < g.edge_count() implies !(g.is_endpoint(e, u as int)
                            && g.is_endpoint(e, v as int)) by {
                        if g.is_endpoint(e, u as int) {
                            assert(edges@.contains(e as usize));
                            let j = choose|j: int| 0 <= j < edges@.len() && edges@[j] == e as usize;
                            assert(!g.is_endpoint(edges@[j] as int, v as int));
                        }
                    }
                },
            }
        }
        best
    }
}

/// Whether `list` holds `x`.
fn list_contains(list: &Vec<usize>, x: usize) -> (r: bool)
    ensures
        r == list@.contains(x),
{
    let mut i: usize = 0;
    while i < list.len()
        invariant
            0 <= i <= list@.len(),
            forall|j: int| 0 <= j < i ==> list@[j] != x,
        decreases list@.len() - i,
    {
        if list[i] == x {
            assert(list@[i as int] == x);
            return true;
        }
        i = i + 1;
    }
    false
}

/// Something that carries a node name.
pub trait NamedNodeData {
    fn name(&self) -> &String;
}

/// Something that carries an edge name.
pub trait NamedEdgeData {
    fn name(&self) -> &String;
}

} // verus!
