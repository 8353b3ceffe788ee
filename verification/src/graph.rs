use vstd::prelude::*;
use vstd::pervasive::VecAdditionalExecFns;

verus! {

/// Node identity for graph keys: an equivalence on values, decidable in
/// executable code, with a clone that stays in the same class.
pub trait NodeKey: Sized {
    /// The equivalence that makes two values the same node.
    spec fn keq(&self, other: &Self) -> bool;

    proof fn keq_refl(&self)
        ensures
            self.keq(self),
    ;

    proof fn keq_sym(&self, other: &Self)
        ensures
            self.keq(other) == other.keq(self),
    ;

    proof fn keq_trans(&self, b: &Self, c: &Self)
        requires
            self.keq(b),
            b.keq(c),
        ensures
            self.keq(c),
    ;

    /// Decide the equivalence.
    fn key_eq(&self, other: &Self) -> (r: bool)
        ensures
            r == self.keq(other),
    ;

    /// Clone within the equivalence class.
    fn key_clone(&self) -> (r: Self)
        ensures
            self.keq(&r),
            r.keq(self),
    ;
}

/// The structured outcome of a failed graph operation. Duplicates and
/// missing endpoints are expected, recoverable conditions, never panics.
#[derive(Debug, Clone, Copy, PartialEq, Eq, Structural)]
pub enum GraphError {
    DuplicateNode,
    DuplicateEdge,
    EndpointMissing,
    NodeMissing,
}

/// A write-once directed graph: deduplicated nodes with stable insertion
/// indices starting at 0, and deduplicated directed edges kept per start
/// node in insertion order.
#[derive(Debug)]
pub struct Graph<T> {
    nodes: Vec<T>,
    adj: Vec<Vec<usize>>,
}

impl<T: NodeKey> Graph<T> {
    /// The nodes, in insertion order; a node's position is its index.
    pub closed spec fn nodes_seq(&self) -> Seq<T> {
        self.nodes@
    }

    /// Per node index, the indices its edges point to, in insertion order.
    pub closed spec fn adj_seq(&self) -> Seq<Seq<int>> {
        self.adj@.map_values(|v: Vec<usize>| v@.map_values(|u: usize| u as int))
    }

    /// Some node equivalent to `n` is in the graph.
    pub open spec fn contains_node(&self, n: T) -> bool {
        exists|i: int| 0 <= i < self.nodes_seq().len() && (#[trigger] self.nodes_seq()[i]).keq(&n)
    }

    /// The index of the node equivalent to `n`.
    pub open spec fn index_of(&self, n: T) -> int {
        choose|i: int| 0 <= i < self.nodes_seq().len() && (#[trigger] self.nodes_seq()[i]).keq(&n)
    }

    /// An edge from `a` to `b` is in the graph.
    pub open spec fn has_edge(&self, a: T, b: T) -> bool {
        &&& self.contains_node(a)
        &&& self.contains_node(b)
        &&& self.adj_seq()[self.index_of(a)].contains(self.index_of(b))
    }

    /// Well-formed: one edge list per node, no two equivalent nodes, every
    /// edge target a valid index, no duplicate targets per start node.
    pub open spec fn wf(&self) -> bool {
        &&& self.adj_seq().len() == self.nodes_seq().len()
        &&& forall|i: int, j: int| 0 <= i < j < self.nodes_seq().len() ==> !(
        #[trigger] self.nodes_seq()[i].keq(&self.nodes_seq()[j]))
        &&& forall|i: int, k: int| 0 <= i < self.adj_seq().len() && 0 <= k
            < self.adj_seq()[i].len() ==> 0 <= #[trigger] self.adj_seq()[i][k]
            < self.nodes_seq().len()
        &&& forall|i: int, k1: int, k2: int|
            #![trigger self.adj_seq()[i][k1], self.adj_seq()[i][k2]]
            0 <= i < self.adj_seq().len() && 0 <= k1 < k2 < self.adj_seq()[i].len()
                ==> self.adj_seq()[i][k1] != self.adj_seq()[i][k2]
    }

    /// With well-formedness, an index holding a node equivalent to `n` is
    /// the one index of `n`.
    pub proof fn lemma_index_unique(&self, n: T, i: int)
        requires
            self.wf(),
            0 <= i < self.nodes_seq().len(),
            self.nodes_seq()[i].keq(&n),
        ensures
            self.index_of(n) == i,
    {
        assert(self.contains_node(n));
        let j = self.index_of(n);
        assert(0 <= j < self.nodes_seq().len() && self.nodes_seq()[j].keq(&n));
        if i != j {
            self.nodes_seq()[j].keq_sym(&n);
            self.nodes_seq()[i].keq_trans(&n, &self.nodes_seq()[j]);
            if i < j {
                assert(!self.nodes_seq()[i].keq(&self.nodes_seq()[j]));
            } else {
                self.nodes_seq()[i].keq_sym(&self.nodes_seq()[j]);
                assert(!self.nodes_seq()[j].keq(&self.nodes_seq()[i]));
            }
            assert(false);
        }
    }

    pub fn new() -> (r: Self)
        ensures
            r.wf(),
            r.nodes_seq() == Seq::<T>::empty(),
            r.adj_seq() == Seq::<Seq<int>>::empty(),
    {
        let r = Graph { nodes: Vec::new(), adj: Vec::new() };
        proof {
            assert(r.adj_seq() =~= Seq::<Seq<int>>::empty());
        }
        r
    }

    /// The index holding a node equivalent to `n`, if any.
    #[verifier::loop_isolation(false)]
    fn find_index(&self, n: &T) -> (r: Option<usize>)
        ensures
            match r {
                Some(i) => i < self.nodes_seq().len() && self.nodes_seq()[i as int].keq(n)
                    && self.contains_node(*n),
                None => !self.contains_node(*n),
            },
    {
        let mut i: usize = 0;
        while i < self.nodes.len()
            invariant
                0 <= i <= self.nodes_seq().len(),
                forall|j: int| 0 <= j < i ==> !(#[trigger] self.nodes_seq()[j]).keq(n),
            decreases self.nodes.len() - i,
        {
            if self.nodes[i].key_eq(n) {
                return Some(i);
            }
            i = i + 1;
        }
        None
    }

    /// Whether a node equal to `node` has been inserted.
    pub fn is_node_in_graph(&self, node: &T) -> (r: bool)
        ensures
            r == self.contains_node(*node),
    {
        match self.find_index(node) {
            Some(_) => true,
            None => false,
        }
    }

    /// Insert a node. Inserting a value equivalent to a present node is a
    /// no-op reported as a duplicate; otherwise a value equal to the node is
    /// appended and receives the next index.
    #[verifier::loop_isolation(false)]
    pub fn add_node(&mut self, node: &T) -> (r: Result<(), GraphError>)
        requires
            old(self).wf(),
        ensures
            final(self).wf(),
            match r {
                Err(e) => e == GraphError::DuplicateNode && old(self).contains_node(*node)
                    && *final(self) == *old(self),
                Ok(()) => {
                    &&& !old(self).contains_node(*node)
                    &&& final(self).nodes_seq().len() == old(self).nodes_seq().len() + 1
                    &&& final(self).nodes_seq().drop_last() == old(self).nodes_seq()
                    &&& final(self).nodes_seq().last().keq(node)
                    &&& node.keq(&final(self).nodes_seq().last())
                    &&& final(self).adj_seq() == old(self).adj_seq().push(Seq::<int>::empty())
                },
            },
    {
        if self.is_node_in_graph(node) {
            return Err(GraphError::DuplicateNode);
        }
        let n = node.key_clone();
        self.nodes.push(n);
        self.adj.push(Vec::new());
        proof {
            let pre = old(self).nodes_seq();
            let post = self.nodes_seq();
            assert(post.drop_last() =~= pre);
            assert(self.adj_seq() =~~= old(self).adj_seq().push(Seq::<int>::empty()));
            assert forall|i: int, j: int| 0 <= i < j < post.len() implies !(
            #[trigger] post[i].keq(&post[j])) by {
                if j < pre.len() {
                    assert(!old(self).nodes_seq()[i].keq(&old(self).nodes_seq()[j]));
                } else {
                    assert(post[j].keq(node));
                    if post[i].keq(&post[j]) {
                        post[i].keq_trans(&post[j], node);
                        assert(old(self).nodes_seq()[i].keq(node));
                        assert(old(self).contains_node(*node));
                        assert(false);
                    }
                }
            }
        }
        Ok(())
    }

    /// Insert a directed edge. Both endpoints must already be nodes; the
    /// same ordered pair is accepted only once; a failure changes nothing.
    #[verifier::loop_isolation(false)]
    pub fn add_edge(&mut self, start: &T, end: &T) -> (r: Result<(), GraphError>)
        requires
            old(self).wf(),
        ensures
            final(self).wf(),
            final(self).nodes_seq() == old(self).nodes_seq(),
            match r {
                Err(GraphError::EndpointMissing) => (!old(self).contains_node(*start) || !old(
                    self,
                ).contains_node(*end)) && *final(self) == *old(self),
                Err(GraphError::DuplicateEdge) => old(self).has_edge(*start, *end) && *final(self)
                    == *old(self),
                Err(_) => false,
                Ok(()) => {
                    &&& old(self).contains_node(*start)
                    &&& old(self).contains_node(*end)
                    &&& !old(self).has_edge(*start, *end)
                    &&& final(self).adj_seq() == old(self).adj_seq().update(
                        old(self).index_of(*start),
                        old(self).adj_seq()[old(self).index_of(*start)].push(
                            old(self).index_of(*end),
                        ),
                    )
                },
            },
    {
        let si = match self.find_index(start) {
            None => {
                return Err(GraphError::EndpointMissing);
            },
            Some(i) => i,
        };
        let ei = match self.find_index(end) {
            None => {
                return Err(GraphError::EndpointMissing);
            },
            Some(i) => i,
        };
        proof {
            self.lemma_index_unique(*start, si as int);
            self.lemma_index_unique(*end, ei as int);
        }
        let edge_list = &self.adj[si];
        let mut k: usize = 0;
        while k < edge_list.len()
            invariant
                0 <= k <= edge_list.len(),
                si < self.adj@.len(),
                edge_list == &self.adj[si as int],
                forall|m: int| 0 <= m < k ==> self.adj_seq()[si as int][m] != ei as int,
            decreases edge_list.len() - k,
        {
            if edge_list[k] == ei {
                proof {
                    assert(self.adj_seq()[si as int][k as int] == ei as int);
                    assert(self.adj_seq()[si as int].contains(ei as int));
                }
                return Err(GraphError::DuplicateEdge);
            }
            k = k + 1;
        }
        proof {
            assert(!self.adj_seq()[si as int].contains(ei as int));
        }
        let mut new_list: Vec<usize> = Vec::new();
        let mut m: usize = 0;
        let n_edges = self.adj[si].len();
        while m < n_edges
            invariant
                0 <= m <= n_edges,
                si < self.adj@.len(),
                n_edges == self.adj@[si as int]@.len(),
                new_list@ == self.adj@[si as int]@.take(m as int),
            decreases n_edges - m,
        {
            let x = self.adj[si][m];
            new_list.push(x);
            proof {
                assert(self.adj@[si as int]@.take(m as int + 1) =~= self.adj@[si as int]@.take(
                    m as int,
                ).push(self.adj@[si as int]@[m as int]));
            }
            m = m + 1;
        }
        proof {
            assert(self.adj@[si as int]@.take(n_edges as int) =~= self.adj@[si as int]@);
        }
        new_list.push(ei);
        self.adj.set(si, new_list);
        proof {
            assert(self.adj_seq() =~~= old(self).adj_seq().update(
                si as int,
                old(self).adj_seq()[si as int].push(ei as int),
            ));
            let post = self.adj_seq();
            let pre = old(self).adj_seq();
            assert forall|i: int, k1: int, k2: int|
                #![trigger post[i][k1], post[i][k2]]
                0 <= i < post.len() && 0 <= k1 < k2 < post[i].len() implies post[i][k1]
                != post[i][k2] by {
                if i == si as int {
                    if k2 == pre[i].len() {
                        assert(post[i][k1] == pre[i][k1]);
                        assert(post[i][k2] == ei as int);
                        assert(pre[i].contains(pre[i][k1]) == true) by {
                            assert(0 <= k1 < pre[i].len() && pre[i][k1] == pre[i][k1]);
                        }
                    } else {
                        assert(post[i][k1] == pre[i][k1]);
                        assert(post[i][k2] == pre[i][k2]);
                    }
                } else {
                    assert(post[i] == pre[i]);
                }
            }
        }
        Ok(())
    }

    /// Whether the graph holds an edge from `start` to `end`.
    #[verifier::loop_isolation(false)]
    pub fn does_edge_exist(&self, start: &T, end: &T) -> (r: bool)
        requires
            self.wf(),
        ensures
            r == self.has_edge(*start, *end),
    {
        let si = match self.find_index(start) {
            None => {
                return false;
            },
            Some(i) => i,
        };
        let ei = match self.find_index(end) {
            None => {
                return false;
            },
            Some(i) => i,
        };
        proof {
            self.lemma_index_unique(*start, si as int);
            self.lemma_index_unique(*end, ei as int);
        }
        let edge_list = &self.adj[si];
        let mut k: usize = 0;
        while k < edge_list.len()
            invariant
                0 <= k <= edge_list.len(),
                si < self.adj@.len(),
                edge_list == &self.adj[si as int],
                forall|m: int| 0 <= m < k ==> self.adj_seq()[si as int][m] != ei as int,
            decreases edge_list.len() - k,
        {
            if edge_list[k] == ei {
                proof {
                    assert(self.adj_seq()[si as int][k as int] == ei as int);
                    assert(self.adj_seq()[si as int].contains(ei as int));
                }
                return true;
            }
            k = k + 1;
        }
        proof {
            assert(!self.adj_seq()[si as int].contains(ei as int));
        }
        false
    }

    /// The targets of the node's edges, in edge-insertion order; empty when
    /// the node has no outgoing edges.
    #[verifier::loop_isolation(false)]
    pub fn get_edges(&self, node: &T) -> (r: Result<Vec<T>, GraphError>)
        requires
            self.wf(),
        ensures
            match r {
                Err(GraphError::NodeMissing) => !self.contains_node(*node),
                Err(_) => false,
                Ok(v) => {
                    &&& self.contains_node(*node)
                    &&& v@.len() == self.adj_seq()[self.index_of(*node)].len()
                    &&& forall|k: int| 0 <= k < v@.len() ==> self.nodes_seq()[self.adj_seq()[
                        self.index_of(*node)][k]].keq(&#[trigger] v@[k]) && v@[k].keq(
                        &self.nodes_seq()[self.adj_seq()[self.index_of(*node)][k]],
                    )
                },
            },
    {
        let si = match self.find_index(node) {
            None => {
                return Err(GraphError::NodeMissing);
            },
            Some(i) => i,
        };
        proof {
            self.lemma_index_unique(*node, si as int);
        }
        let mut out: Vec<T> = Vec::new();
        let n_edges = self.adj[si].len();
        let mut k: usize = 0;
        while k < n_edges
            invariant
                0 <= k <= n_edges,
                self.wf(),
                si < self.adj@.len(),
                si < self.nodes_seq().len(),
                n_edges == self.adj_seq()[si as int].len(),
                out@.len() == k,
                forall|m: int| 0 <= m < k ==> self.nodes_seq()[self.adj_seq()[si as int][m]].keq(
                    &#[trigger] out@[m],
                ) && out@[m].keq(&self.nodes_seq()[self.adj_seq()[si as int][m]]),
            decreases n_edges - k,
        {
            proof {
                assert(0 <= self.adj_seq()[si as int][k as int] < self.nodes_seq().len());
            }
            let target = self.adj[si][k];
            let t = self.nodes[target].key_clone();
            out.push(t);
            k = k + 1;
        }
        Ok(out)
    }

    /// The law of insertion: a node set just extended by an insertion
    /// contains the inserted node, and its size grew by exactly one; on a
    /// duplicate insertion `add_node` reports the duplicate and leaves the
    /// graph, and so the size of `get_nodes`'s result, unchanged.
    pub proof fn lemma_inserted_node_present(pre: Graph<T>, post: Graph<T>, n: T)
        requires
            post.nodes_seq().len() == pre.nodes_seq().len() + 1,
            post.nodes_seq().drop_last() == pre.nodes_seq(),
            post.nodes_seq().last().keq(&n),
        ensures
            post.contains_node(n),
    {
        let last = post.nodes_seq().len() - 1;
        assert(post.nodes_seq()[last].keq(&n));
    }

    /// All nodes, in insertion order.
    pub fn get_nodes(&self) -> (r: &Vec<T>)
        ensures
            r@ == self.nodes_seq(),
    {
        &self.nodes
    }
}

} // verus!
