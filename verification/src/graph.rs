//! The construction-time rule graph: a mutable, id-keyed weighted directed
//! graph of nodes, built incrementally by the parser and tolerant of forward
//! references.
//!
//! Nodes live in an arena and edges refer to their targets by id, never by
//! owning links, so cycles are free to express. Ids for rule and control
//! nodes grow upward from a small base while ids for literal content grow
//! downward from the top of the `u32` range; the two spaces never meet.

use vstd::prelude::*;
use crate::fixed::{cdf_spec, cumulative_distribution, WEIGHT_MAX};

verus! {

/// The id of the implicit global start node.
pub const START_ID: u32 = 0;

/// The id of the shared global end node.
pub const END_ID: u32 = 3;

#[derive(Debug, Clone, Copy, PartialEq, Eq, Structural)]
pub enum NodeType {
    /// The implicit global entry node, wired to every rule header.
    START,
    /// A rule's entry node.
    HEADER,
    /// An internal sequencing node between terms.
    JUMP,
    /// An end node: return point or successful stop.
    END,
    /// A leaf emitting literal text.
    CH,
    /// A leaf emitting sampled class text.
    RX,
    /// A call into another rule, by id.
    POINTER,
    /// Not yet resolved.
    IDK,
}

/// One outgoing edge: a raw fixed-point weight and the target node's id.
#[derive(Debug, Clone, Copy)]
pub struct SyntaxEdge {
    pub probability: u64,
    pub node: u32,
}

/// One graph node. `pointer` is only meaningful for POINTER nodes, where it
/// holds the called rule's id. `cumulative_frequency` is filled by
/// normalization and has one entry per outgoing edge.
#[derive(Debug, Clone)]
pub struct SyntaxNode {
    pub options: Vec<SyntaxEdge>,
    pub cumulative_frequency: Vec<u64>,
    pub id: u32,
    pub typ: NodeType,
    pub pointer: u32,
}

/// The mathematical shape of one node.
pub struct NodeModel {
    pub id: u32,
    pub typ: NodeType,
    pub pointer: u32,
    /// (weight, target id) per outgoing edge, in order.
    pub edges: Seq<(u64, u32)>,
    pub cf: Seq<u64>,
}

impl View for SyntaxNode {
    type V = NodeModel;

    open spec fn view(&self) -> NodeModel {
        NodeModel {
            id: self.id,
            typ: self.typ,
            pointer: self.pointer,
            edges: Seq::new(
                self.options@.len(),
                |k: int| (self.options@[k].probability, self.options@[k].node),
            ),
            cf: self.cumulative_frequency@,
        }
    }
}

impl SyntaxNode {
    /// Appends an outgoing edge with the given raw weight.
    pub fn add_edge(&mut self, node: u32, probability: u64)
        ensures
            final(self)@ == (NodeModel {
                edges: old(self)@.edges.push((probability, node)),
                ..old(self)@
            }),
    {
        self.options.push(SyntaxEdge { probability, node });
        proof {
            assert(final(self)@.edges =~= old(self)@.edges.push((probability, node)));
        }
    }
}

/// The raw weights of a node's outgoing edges, in order.
pub open spec fn weights_of(n: NodeModel) -> Seq<u64> {
    Seq::new(n.edges.len(), |k: int| n.edges[k].0)
}

/// The arena index of the node with the given id, searching from `i` on.
pub open spec fn find_idx_from(s: Seq<NodeModel>, id: u32, i: int) -> Option<int>
    decreases s.len() - i when 0 <= i <= s.len()
{
    if i >= s.len() {
        None
    } else if s[i].id == id {
        Some(i)
    } else {
        find_idx_from(s, id, i + 1)
    }
}

/// The arena index of the node with the given id, if it exists.
pub open spec fn find_idx(s: Seq<NodeModel>, id: u32) -> Option<int> {
    find_idx_from(s, id, 0)
}

/// Whether a node with the given id exists.
pub open spec fn has_node(s: Seq<NodeModel>, id: u32) -> bool {
    find_idx(s, id) is Some
}

/// The node with the given id.
pub open spec fn node_of(s: Seq<NodeModel>, id: u32) -> NodeModel {
    s[find_idx(s, id)->Some_0]
}

/// A found index is valid and holds the id searched for.
pub proof fn lemma_find_idx_from_sound(s: Seq<NodeModel>, id: u32, i: int)
    requires
        0 <= i <= s.len(),
    ensures
        match find_idx_from(s, id, i) {
            Some(j) => i <= j < s.len() && s[j].id == id,
            None => forall|j: int| i <= j < s.len() ==> s[j].id != id,
        },
    decreases s.len() - i,
{
    if i < s.len() && s[i].id != id {
        lemma_find_idx_from_sound(s, id, i + 1);
    }
}

/// Pushing a node with a fresh id does not change where existing ids are
/// found, and the fresh id is found at the new slot.
pub proof fn lemma_find_idx_push(s: Seq<NodeModel>, n: NodeModel, id: u32, i: int)
    requires
        0 <= i <= s.len(),
    ensures
        n.id != id ==> find_idx_from(s.push(n), id, i) == find_idx_from(s, id, i),
        n.id == id && (find_idx_from(s, id, i) is Some) ==> find_idx_from(s.push(n), id, i)
            == find_idx_from(s, id, i),
        n.id == id && (find_idx_from(s, id, i) is None) ==> find_idx_from(s.push(n), id, i)
            == Some(s.len() as int),
    decreases s.len() - i,
{
    if i < s.len() {
        if s[i].id != id {
            lemma_find_idx_push(s, n, id, i + 1);
        } else {
            assert(s.push(n)[i] == s[i]);
        }
    } else {
        assert(find_idx_from(s, id, i) is None);
        assert(s.push(n)[s.len() as int] == n);
        assert(find_idx_from(s.push(n), id, s.len() as int + 1) is None);
    }
}

/// Updating a node in place without changing its id does not change where
/// any id is found.
pub proof fn lemma_find_idx_update(s: Seq<NodeModel>, j: int, n: NodeModel, id: u32, i: int)
    requires
        0 <= i <= s.len(),
        0 <= j < s.len(),
        n.id == s[j].id,
    ensures
        find_idx_from(s.update(j, n), id, i) == find_idx_from(s, id, i),
    decreases s.len() - i,
{
    if i < s.len() {
        if s[i].id != id {
            lemma_find_idx_update(s, j, n, id, i + 1);
        }
    }
}

/// The construction-time graph: the node arena.
#[derive(Debug)]
pub struct SyntaxGraph {
    nodes: Vec<SyntaxNode>,
}

impl View for SyntaxGraph {
    type V = Seq<NodeModel>;

    closed spec fn view(&self) -> Seq<NodeModel> {
        Seq::new(self.nodes@.len(), |i: int| self.nodes@[i]@)
    }
}

/// Every edge weight in the graph stays within the saturation cap, so
/// normalization sums always fit their integer types.
pub open spec fn weights_capped(s: Seq<NodeModel>) -> bool {
    forall|i: int, k: int|
        0 <= i < s.len() && 0 <= k < s[i].edges.len() ==> (#[trigger] s[i].edges[k]).0 <= WEIGHT_MAX
}

/// The graph only ever grows: nodes are created on demand and never
/// deleted, a node's id and type are fixed at creation, and edges are only
/// appended, never removed or reweighted.
pub open spec fn graph_extends(a: Seq<NodeModel>, b: Seq<NodeModel>) -> bool {
    &&& a.len() <= b.len()
    &&& forall|i: int|
        0 <= i < a.len() ==> {
            &&& (#[trigger] b[i]).id == a[i].id
            &&& b[i].typ == a[i].typ
            &&& a[i].edges.len() <= b[i].edges.len()
            &&& (forall|k: int| 0 <= k < a[i].edges.len() ==> (#[trigger] b[i].edges[k]) == a[i].edges[k])
        }
}

/// Growth composes.
pub broadcast proof fn lemma_graph_extends_trans(a: Seq<NodeModel>, b: Seq<NodeModel>, c: Seq<
    NodeModel,
>)
    requires
        #[trigger] graph_extends(a, b),
        #[trigger] graph_extends(b, c),
    ensures
        graph_extends(a, c),
{
}

impl SyntaxGraph {
    pub fn new() -> (r: SyntaxGraph)
        ensures
            r@ =~= Seq::<NodeModel>::empty(),
    {
        SyntaxGraph { nodes: Vec::new() }
    }

    /// Hands the node arena over to the freeze step.
    pub fn into_nodes(self) -> (r: Vec<SyntaxNode>)
        ensures
            Seq::new(r@.len(), |i: int| r@[i]@) == self@,
    {
        let r = self.nodes;
        proof {
            assert(Seq::new(r@.len(), |i: int| r@[i]@) =~= self@);
        }
        r
    }

    /// How many nodes the arena holds.
    pub fn node_count(&self) -> (r: usize)
        ensures
            r == self@.len(),
    {
        self.nodes.len()
    }

    /// A read-only borrow of the node at an arena index.
    pub fn node_at(&self, idx: usize) -> (r: &SyntaxNode)
        requires
            idx < self@.len(),
        ensures
            r@ == self@[idx as int],
    {
        &self.nodes[idx]
    }

    /// The arena index of the node with the given id, if it exists.
    pub fn find(&self, id: u32) -> (r: Option<usize>)
        ensures
            match r {
                Some(i) => find_idx(self@, id) == Some(i as int),
                None => !has_node(self@, id),
            },
    {
        let n = self.nodes.len();
        let mut i: usize = 0;
        while i < n
            invariant
                i <= n,
                n == self@.len(),
                self@.len() == self.nodes@.len(),
                find_idx(self@, id) == find_idx_from(self@, id, i as int),
            decreases n - i,
        {
            if self.nodes[i].id == id {
                return Some(i);
            }
            i = i + 1;
        }
        None
    }

    /// Finds the node with the given id, creating it with the given type and
    /// no edges when it does not exist yet; returns its arena index. Never
    /// fails.
    pub fn force_get_node(&mut self, id: u32, typ: NodeType) -> (idx: usize)
        ensures
            has_node(old(self)@, id) ==> final(self)@ == old(self)@ && Some(idx as int) == find_idx(
                old(self)@,
                id,
            ),
            !has_node(old(self)@, id) ==> final(self)@ == old(self)@.push(
                NodeModel {
                    id,
                    typ,
                    pointer: 0,
                    edges: Seq::empty(),
                    cf: Seq::empty(),
                },
            ) && idx == old(self)@.len(),
            has_node(final(self)@, id),
            find_idx(final(self)@, id) == Some(idx as int),
            idx < final(self)@.len(),
            final(self)@[idx as int].id == id,
            old(self)@.len() <= final(self)@.len(),
            weights_capped(old(self)@) ==> weights_capped(final(self)@),
            graph_extends(old(self)@, final(self)@),
    {
        proof {
            lemma_find_idx_from_sound(self@, id, 0);
        }
        match self.find(id) {
            Some(i) => i,
            None => {
                let i = self.nodes.len();
                let node = SyntaxNode {
                    id,
                    typ,
                    options: Vec::new(),
                    cumulative_frequency: Vec::new(),
                    pointer: 0,
                };
                let ghost old_view = self@;
                let ghost model = node@;
                self.nodes.push(node);
                proof {
                    assert(self@ =~= old_view.push(model));
                    assert(model.edges =~= Seq::<(u64, u32)>::empty());
                    assert(model.cf =~= Seq::<u64>::empty());
                    assert(model == NodeModel {
                        id,
                        typ,
                        pointer: 0,
                        edges: Seq::<(u64, u32)>::empty(),
                        cf: Seq::<u64>::empty(),
                    });
                    lemma_find_idx_push(old_view, model, id, 0);
                }
                i
            },
        }
    }

    /// Appends an edge from the node at arena index `from` to the node with
    /// id `to`, carrying the given raw weight.
    pub fn add_edge(&mut self, from: usize, to: u32, probability: u64)
        requires
            from < old(self)@.len(),
        ensures
            final(self)@ == old(self)@.update(
                from as int,
                NodeModel {
                    edges: old(self)@[from as int].edges.push((probability, to)),
                    ..old(self)@[from as int]
                },
            ),
            final(self)@.len() == old(self)@.len(),
            weights_capped(old(self)@) && probability <= WEIGHT_MAX ==> weights_capped(
                final(self)@,
            ),
            graph_extends(old(self)@, final(self)@),
    {
        let ghost old_view = self@;
        let node = &mut self.nodes[from];
        node.add_edge(to, probability);
        proof {
            assert(final(self)@ =~= old_view.update(
                from as int,
                NodeModel {
                    edges: old_view[from as int].edges.push((probability, to)),
                    ..old_view[from as int]
                },
            ));
        }
    }

    /// Sets the called-rule id of the node at arena index `idx`.
    pub fn set_pointer(&mut self, idx: usize, pointer: u32)
        requires
            idx < old(self)@.len(),
        ensures
            final(self)@ == old(self)@.update(
                idx as int,
                NodeModel { pointer, ..old(self)@[idx as int] },
            ),
            final(self)@.len() == old(self)@.len(),
            weights_capped(old(self)@) ==> weights_capped(final(self)@),
            graph_extends(old(self)@, final(self)@),
    {
        let node = &mut self.nodes[idx];
        node.pointer = pointer;
        proof {
            assert(final(self)@ =~= old(self)@.update(
                idx as int,
                NodeModel { pointer, ..old(self)@[idx as int] },
            ));
        }
    }

    /// The graph after normalization: every node keeps its identity and
    /// edges, and its cumulative-frequency vector becomes the normalized
    /// prefix sums of its raw weights.
    pub open spec fn normalized(s: Seq<NodeModel>) -> Seq<NodeModel> {
        Seq::new(s.len(), |i: int| NodeModel { cf: cdf_spec(weights_of(s[i])), ..s[i] })
    }

    /// Converts every node's raw edge weights into a cumulative-frequency
    /// vector. Idempotent given unchanged edge weights.
    pub fn normalize(&mut self)
        requires
            weights_capped(old(self)@),
        ensures
            final(self)@ == Self::normalized(old(self)@),
            graph_extends(old(self)@, final(self)@),
    {
        let n = self.nodes.len();
        let ghost s0 = self@;
        let mut i: usize = 0;
        while i < n
            invariant
                i <= n,
                n == self@.len(),
                self@.len() == s0.len(),
                weights_capped(s0),
                forall|j: int| i <= j < s0.len() ==> self@[j] == s0[j],
                forall|j: int|
                    0 <= j < i ==> self@[j] == (NodeModel {
                        cf: cdf_spec(weights_of(s0[j])),
                        ..s0[j]
                    }),
            decreases n - i,
        {
            let m = self.nodes[i].options.len();
            let mut ws: Vec<u64> = Vec::new();
            let mut k: usize = 0;
            while k < m
                invariant
                    k <= m,
                    i < self@.len(),
                    self@.len() == s0.len(),
                    m == self@[i as int].edges.len(),
                    weights_capped(s0),
                    self@[i as int] == s0[i as int],
                    ws@.len() == k,
                    forall|j: int| 0 <= j < k ==> ws@[j] == weights_of(self@[i as int])[j],
                decreases m - k,
            {
                ws.push(self.nodes[i].options[k].probability);
                k = k + 1;
            }
            proof {
                assert(ws@ =~= weights_of(s0[i as int]));
            }
            let cdf = cumulative_distribution(&ws);
            let ghost before = self@;
            let node = &mut self.nodes[i];
            node.cumulative_frequency = cdf;
            proof {
                assert(self@ =~= before.update(
                    i as int,
                    NodeModel { cf: cdf_spec(weights_of(s0[i as int])), ..s0[i as int] },
                ));
            }
            i = i + 1;
        }
        proof {
            assert(self@ =~= Self::normalized(s0));
            assert(graph_extends(s0, self@));
        }
    }
}

} // verus!
