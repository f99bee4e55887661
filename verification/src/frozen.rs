//! The frozen automaton and the walker that executes it.
//!
//! Freezing consumes the mutable construction-time graph together with the
//! parser's name table, content table and class sampler, checks that every
//! cross-node reference resolves, and produces an immutable structure: no
//! edge, weight or node changes afterwards, so the automaton is safe to share
//! across arbitrarily many concurrent walks.
//!
//! A walk is pinned by the spec function [`walk_fuel`]: starting from the
//! named rule's id with an empty call stack, each step either emits text
//! (Char and Regex leaves), performs a call or a return (Pointer and End),
//! or moves along a randomly selected edge. The walk stops when the token
//! budget is reached, when an End is met with an empty call stack, or at a
//! node with no outgoing edges. The walker carries an enormous step bound
//! (`2^64 - 1` loop steps, far beyond anything reachable) so that even a
//! grammar that loops without emitting gives the walker a defined result.
//! Since the outcome is a function of the automaton, the start rule, the
//! budget and the seed alone, generation with equal seeds is byte-identical.

use vstd::prelude::*;
use crate::chars::string_from_chars;
use crate::escape::{unescape, unescape_chars};
use crate::fixed::{cdf_spec, pick_index, lemma_pick_from_bounds, lemma_cdf_wellformed};
use crate::graph::{
    find_idx, find_idx_from, has_node, lemma_find_idx_from_sound, node_of, weights_of, NodeModel,
    NodeType, SyntaxGraph, SyntaxNode,
};
use crate::prng::{PRNG, draw_of, xorshift_step};
use crate::regex::{has_pattern, sample_of, Regexer};

verus! {

/// The number of walker loop steps after which a walk returns its buffer:
/// one step per loop iteration, `2^64 - 1` in all, unreachable in practice.
pub const STEP_CAP: u64 = 18446744073709551615;

/// Why a generation call failed.
#[derive(Debug, Clone, Copy, PartialEq, Eq, Structural)]
pub enum GenError {
    /// The requested start rule is not a name of this automaton.
    UnknownStart,
    /// A node id resolved nowhere: a defect the freeze step rules out.
    MissingNode,
}

/// A defect detected while freezing: never produced by well-formed parser
/// output, checked defensively all the same.
#[derive(Debug, Clone, Copy, PartialEq, Eq, Structural)]
pub enum CompileDefect {
    /// An edge, pointer or rule name refers to a node id that does not
    /// exist, or a pointer's target is not a rule header.
    DanglingReference,
}

/// The mathematical shape of a frozen automaton.
pub struct FrozenModel {
    pub nodes: Seq<NodeModel>,
    /// rule name -> header node id
    pub names: Seq<(Seq<char>, u32)>,
    /// leaf node id -> raw literal or class text
    pub prints: Seq<(u32, Seq<char>)>,
    /// the class patterns the sampler has compiled
    pub classes: Seq<Seq<char>>,
}

/// The first name-table index holding `key`, searching from `i` on.
pub open spec fn name_idx_from(names: Seq<(Seq<char>, u32)>, key: Seq<char>, i: int) -> Option<int>
    decreases names.len() - i when 0 <= i <= names.len()
{
    if i >= names.len() {
        None
    } else if names[i].0 == key {
        Some(i)
    } else {
        name_idx_from(names, key, i + 1)
    }
}

/// The id a rule name stands for, if the name is declared.
pub open spec fn name_id(names: Seq<(Seq<char>, u32)>, key: Seq<char>) -> Option<u32> {
    match name_idx_from(names, key, 0) {
        Some(i) => Some(names[i].1),
        None => None,
    }
}

/// The first content-table index holding `id`, searching from `i` on.
pub open spec fn print_idx_from(prints: Seq<(u32, Seq<char>)>, id: u32, i: int) -> Option<int>
    decreases prints.len() - i when 0 <= i <= prints.len()
{
    if i >= prints.len() {
        None
    } else if prints[i].0 == id {
        Some(i)
    } else {
        print_idx_from(prints, id, i + 1)
    }
}

/// The raw text a leaf node emits, if any is recorded for its id.
pub open spec fn print_of(prints: Seq<(u32, Seq<char>)>, id: u32) -> Option<Seq<char>> {
    match print_idx_from(prints, id, 0) {
        Some(i) => Some(prints[i].1),
        None => None,
    }
}

/// A found name-table index is valid and holds the key searched for.
pub proof fn lemma_name_idx_from_sound(names: Seq<(Seq<char>, u32)>, key: Seq<char>, i: int)
    requires
        0 <= i <= names.len(),
    ensures
        match name_idx_from(names, key, i) {
            Some(j) => i <= j < names.len() && names[j].0 == key,
            None => forall|j: int| i <= j < names.len() ==> names[j].0 != key,
        },
    decreases names.len() - i,
{
    if i < names.len() && names[i].0 != key {
        lemma_name_idx_from_sound(names, key, i + 1);
    }
}

/// Every node's cumulative-frequency vector is exactly the normalization of
/// its raw edge weights.
pub open spec fn nodes_normalized(s: Seq<NodeModel>) -> bool {
    forall|i: int| 0 <= i < s.len() ==> (#[trigger] s[i]).cf == cdf_spec(weights_of(s[i]))
}

/// Every cross-node reference resolves: edge targets, pointer targets and
/// rule-name ids all name existing nodes.
pub open spec fn nodes_closed(m: FrozenModel) -> bool {
    &&& forall|i: int, k: int|
        0 <= i < m.nodes.len() && 0 <= k < m.nodes[i].edges.len() ==> has_node(
            m.nodes,
            (#[trigger] m.nodes[i].edges[k]).1,
        )
    &&& forall|i: int|
        0 <= i < m.nodes.len() && (#[trigger] m.nodes[i]).typ == NodeType::POINTER ==> has_node(
            m.nodes,
            m.nodes[i].pointer,
        ) && node_of(m.nodes, m.nodes[i].pointer).typ == NodeType::HEADER
    &&& forall|k: int|
        0 <= k < m.names.len() ==> has_node(m.nodes, (#[trigger] m.names[k]).1)
}

/// The model a freeze of these parts produces.
pub open spec fn model_of(
    nodes: Seq<NodeModel>,
    names_raw: Seq<(String, u32)>,
    prints_raw: Seq<(u32, String)>,
    classes: Seq<Seq<char>>,
) -> FrozenModel {
    FrozenModel {
        nodes,
        names: Seq::new(names_raw.len(), |i: int| (names_raw[i].0@, names_raw[i].1)),
        prints: Seq::new(prints_raw.len(), |i: int| (prints_raw[i].0, prints_raw[i].1@)),
        classes,
    }
}

/// What one emission step produces: the new output, token count and
/// generator state after visiting a Char or Regex node (anything else
/// changes nothing).
pub open spec fn emit_step(m: FrozenModel, node: NodeModel, out: Seq<char>, count: int, n: u64) -> (
    Seq<char>,
    int,
    u64,
) {
    if node.typ == NodeType::CH {
        match print_of(m.prints, node.id) {
            Some(text) => (out + unescape(text), count + 1, n),
            None => (out, count, n),
        }
    } else if node.typ == NodeType::RX {
        match print_of(m.prints, node.id) {
            Some(pat) => {
                let s = sample_of(pat, has_pattern(m.classes, pat), n);
                (out + s.0, count + 1, s.1)
            },
            None => (out, count, n),
        }
    } else {
        (out, count, n)
    }
}

/// The outcome of a walk.
pub enum WalkStatus {
    /// The walk stopped and produced this output: token budget reached, an
    /// End with an empty call stack, a dead end, or the step bound.
    Finished(Seq<char>),
    /// A node id resolved nowhere.
    Fault,
}

/// One walk of the automaton, one recursive step per walker loop iteration:
/// from the current node, the call stack, the token count, the output so
/// far and the generator state, with `fuel` loop steps left.
pub open spec fn walk_fuel(
    m: FrozenModel,
    cur: u32,
    stack: Seq<u32>,
    count: int,
    budget: int,
    out: Seq<char>,
    n: u64,
    fuel: nat,
) -> WalkStatus
    decreases fuel,
{
    if fuel == 0 {
        WalkStatus::Finished(out)
    } else if !has_node(m.nodes, cur) {
        WalkStatus::Fault
    } else if count >= budget {
        WalkStatus::Finished(out)
    } else {
        let node = node_of(m.nodes, cur);
        if node.typ == NodeType::POINTER {
            if node.edges.len() > 0 {
                walk_fuel(
                    m,
                    node.pointer,
                    stack.push(node.edges[0].1),
                    count,
                    budget,
                    out,
                    n,
                    (fuel - 1) as nat,
                )
            } else {
                walk_fuel(m, cur, stack, count, budget, out, n, (fuel - 1) as nat)
            }
        } else if node.typ == NodeType::END {
            if stack.len() == 0 {
                WalkStatus::Finished(out)
            } else {
                walk_fuel(
                    m,
                    stack.last(),
                    stack.drop_last(),
                    count,
                    budget,
                    out,
                    n,
                    (fuel - 1) as nat,
                )
            }
        } else {
            let e = emit_step(m, node, out, count, n);
            if node.edges.len() == 0 {
                WalkStatus::Finished(e.0)
            } else {
                let n2 = xorshift_step(e.2);
                let x = draw_of(n2);
                let idx = pick_index(node.cf, x);
                walk_fuel(m, node.edges[idx].1, stack, e.1, budget, e.0, n2, (fuel - 1) as nat)
            }
        }
    }
}

/// The frozen automaton: the node arena, the rule-name table, the leaf
/// content table, and the compiled class sampler. It has no mutating
/// method: nothing changes after the freeze.
#[derive(Debug)]
pub struct FrozenSyntaxGraph {
    nodes: Vec<SyntaxNode>,
    name_map: Vec<(String, u32)>,
    print_map: Vec<(u32, String)>,
    regexer: Regexer,
}

impl View for FrozenSyntaxGraph {
    type V = FrozenModel;

    closed spec fn view(&self) -> FrozenModel {
        FrozenModel {
            nodes: Seq::new(self.nodes@.len(), |i: int| self.nodes@[i]@),
            names: Seq::new(
                self.name_map@.len(),
                |i: int| (self.name_map@[i].0@, self.name_map@[i].1),
            ),
            prints: Seq::new(
                self.print_map@.len(),
                |i: int| (self.print_map@[i].0, self.print_map@[i].1@),
            ),
            classes: self.regexer@,
        }
    }
}

impl FrozenSyntaxGraph {
    /// A frozen automaton is well-formed: normalized, closed, and its class
    /// sampler's cache is pinned to its patterns.
    pub closed spec fn wf(self) -> bool {
        &&& nodes_normalized(self@.nodes)
        &&& nodes_closed(self@)
        &&& self.regexer.wf()
    }

    /// An automaton with no nodes, no names and no content: every walk on it
    /// fails with an unknown start rule.
    pub fn empty() -> (r: FrozenSyntaxGraph)
        ensures
            r.wf(),
            r@.names =~= Seq::<(Seq<char>, u32)>::empty(),
    {
        let r = FrozenSyntaxGraph {
            nodes: Vec::new(),
            name_map: Vec::new(),
            print_map: Vec::new(),
            regexer: Regexer::new(),
        };
        proof {
            assert(r@.nodes =~= Seq::<NodeModel>::empty());
            assert(r@.names =~= Seq::<(Seq<char>, u32)>::empty());
        }
        r
    }

    /// Consumes the normalized construction-time graph and the parser's
    /// tables; succeeds exactly when every cross-node reference resolves.
    pub fn freeze(
        graph: SyntaxGraph,
        name_map: Vec<(String, u32)>,
        print_map: Vec<(u32, String)>,
        regexer: Regexer,
    ) -> (r: Result<FrozenSyntaxGraph, CompileDefect>)
        requires
            nodes_normalized(graph@),
            regexer.wf(),
        ensures
            (r is Ok) <==> nodes_closed(model_of(graph@, name_map@, print_map@, regexer@)),
            (r is Ok) ==> {
                &&& r->Ok_0.wf()
                &&& r->Ok_0@ == model_of(graph@, name_map@, print_map@, regexer@)
            },
            (r is Err) ==> r->Err_0 == CompileDefect::DanglingReference,
    {
        let ghost m = model_of(graph@, name_map@, print_map@, regexer@);
        let n = graph.node_count();
        let mut i: usize = 0;
        while i < n
            invariant
                i <= n,
                n == graph@.len(),
                m == model_of(graph@, name_map@, print_map@, regexer@),
                m.nodes == graph@,
                forall|j: int, k: int|
                    0 <= j < i && 0 <= k < graph@[j].edges.len() ==> has_node(
                        graph@,
                        (#[trigger] graph@[j].edges[k]).1,
                    ),
                forall|j: int|
                    0 <= j < i && (#[trigger] graph@[j]).typ == NodeType::POINTER ==> has_node(
                        graph@,
                        graph@[j].pointer,
                    ) && node_of(graph@, graph@[j].pointer).typ == NodeType::HEADER,
            decreases n - i,
        {
            let node = graph.node_at(i);
            let en = node.options.len();
            let ghost edges = graph@[i as int].edges;
            let mut k: usize = 0;
            while k < en
                invariant
                    k <= en,
                    i < graph@.len(),
                    m == model_of(graph@, name_map@, print_map@, regexer@),
                    m.nodes == graph@,
                    en == edges.len(),
                    edges == graph@[i as int].edges,
                    node@ == graph@[i as int],
                    node.options@.len() == en,
                    forall|q: int| 0 <= q < en ==> node.options@[q].node == edges[q].1,
                    forall|q: int| 0 <= q < k ==> has_node(graph@, (#[trigger] edges[q]).1),
                decreases en - k,
            {
                if graph.find(node.options[k].node).is_none() {
                    proof {
                        assert(!has_node(m.nodes, m.nodes[i as int].edges[k as int].1));
                        assert(!nodes_closed(m));
                    }
                    return Err(CompileDefect::DanglingReference);
                }
                k = k + 1;
            }
            let is_pointer = match node.typ {
                NodeType::POINTER => true,
                _ => false,
            };
            if is_pointer {
                match graph.find(node.pointer) {
                    None => {
                        proof {
                            assert(m.nodes[i as int].typ == NodeType::POINTER);
                            assert(!has_node(m.nodes, m.nodes[i as int].pointer));
                            assert(!nodes_closed(m));
                        }
                        return Err(CompileDefect::DanglingReference);
                    },
                    Some(ti) => {
                        proof {
                            lemma_find_idx_from_sound(graph@, node.pointer, 0);
                            assert(node_of(graph@, m.nodes[i as int].pointer)
                                == graph@[ti as int]);
                        }
                        let target_is_header = match graph.node_at(ti).typ {
                            NodeType::HEADER => true,
                            _ => false,
                        };
                        if !target_is_header {
                            proof {
                                assert(m.nodes[i as int].typ == NodeType::POINTER);
                                assert(node_of(m.nodes, m.nodes[i as int].pointer).typ
                                    != NodeType::HEADER);
                                assert(!nodes_closed(m));
                            }
                            return Err(CompileDefect::DanglingReference);
                        }
                    },
                }
            }
            i = i + 1;
        }
        let nn = name_map.len();
        let mut k: usize = 0;
        while k < nn
            invariant
                k <= nn,
                nn == name_map@.len(),
                m == model_of(graph@, name_map@, print_map@, regexer@),
                m.names.len() == nn,
                m.names == Seq::new(
                    name_map@.len(),
                    |i: int| (name_map@[i].0@, name_map@[i].1),
                ),
                m.nodes == graph@,
                forall|q: int| 0 <= q < k ==> has_node(m.nodes, (#[trigger] m.names[q]).1),
            decreases nn - k,
        {
            if graph.find(name_map[k].1).is_none() {
                proof {
                    assert(m.names[k as int].1 == name_map@[k as int].1);
                    assert(!has_node(m.nodes, m.names[k as int].1));
                    assert(!nodes_closed(m));
                }
                return Err(CompileDefect::DanglingReference);
            }
            k = k + 1;
        }
        proof {
            assert(nodes_closed(m));
        }
        let r = FrozenSyntaxGraph { nodes: graph.into_nodes(), name_map, print_map, regexer };
        proof {
            assert(r@.nodes =~= m.nodes);
            assert(r@.names =~= m.names);
            assert(r@.prints =~= m.prints);
            assert(r@ == m);
        }
        Ok(r)
    }


    /// How many nodes the automaton holds.
    pub fn node_count(&self) -> (r: usize)
        ensures
            r == self@.nodes.len(),
    {
        self.nodes.len()
    }

    /// A read-only borrow of the node at an arena index.
    pub fn node_at(&self, idx: usize) -> (r: &SyntaxNode)
        requires
            idx < self@.nodes.len(),
        ensures
            r@ == self@.nodes[idx as int],
    {
        &self.nodes[idx]
    }

    /// How many rule names the automaton holds.
    pub fn name_count(&self) -> (r: usize)
        ensures
            r == self@.names.len(),
    {
        self.name_map.len()
    }

    /// A read-only borrow of one rule-name record.
    pub fn name_at(&self, idx: usize) -> (r: &(String, u32))
        requires
            idx < self@.names.len(),
        ensures
            (r.0@, r.1) == self@.names[idx as int],
    {
        &self.name_map[idx]
    }

    /// How many leaf content records the automaton holds.
    pub fn print_count(&self) -> (r: usize)
        ensures
            r == self@.prints.len(),
    {
        self.print_map.len()
    }

    /// A read-only borrow of one leaf content record.
    pub fn print_at(&self, idx: usize) -> (r: &(u32, String))
        requires
            idx < self@.prints.len(),
        ensures
            (r.0, r.1@) == self@.prints[idx as int],
    {
        &self.print_map[idx]
    }

    /// The arena index of the node with the given id, if it exists.
    fn find_node(&self, id: u32) -> (r: Option<usize>)
        ensures
            match r {
                Some(i) => find_idx(self@.nodes, id) == Some(i as int),
                None => !has_node(self@.nodes, id),
            },
    {
        let n = self.nodes.len();
        let mut i: usize = 0;
        while i < n
            invariant
                i <= n,
                n == self@.nodes.len(),
                self@.nodes.len() == self.nodes@.len(),
                find_idx(self@.nodes, id) == find_idx_from(self@.nodes, id, i as int),
            decreases n - i,
        {
            if self.nodes[i].id == id {
                return Some(i);
            }
            i = i + 1;
        }
        None
    }

    /// The content-table index of the given node id, if any.
    fn find_print(&self, id: u32) -> (r: Option<usize>)
        ensures
            match r {
                Some(i) => i < self.print_map@.len() && print_idx_from(self@.prints, id, 0)
                    == Some(i as int),
                None => print_of(self@.prints, id) is None,
            },
    {
        let n = self.print_map.len();
        let mut i: usize = 0;
        while i < n
            invariant
                i <= n,
                n == self@.prints.len(),
                self@.prints.len() == self.print_map@.len(),
                print_idx_from(self@.prints, id, 0) == print_idx_from(self@.prints, id, i as int),
            decreases n - i,
        {
            if self.print_map[i].0 == id {
                return Some(i);
            }
            i = i + 1;
        }
        None
    }

    /// The header id a rule name stands for, if the name is declared.
    fn lookup_name(&self, name: &String) -> (r: Option<u32>)
        ensures
            r == name_id(self@.names, name@),
    {
        let n = self.name_map.len();
        let mut i: usize = 0;
        while i < n
            invariant
                i <= n,
                n == self@.names.len(),
                self@.names.len() == self.name_map@.len(),
                name_idx_from(self@.names, name@, 0) == name_idx_from(
                    self@.names,
                    name@,
                    i as int,
                ),
            decreases n - i,
        {
            if self.name_map[i].0 == *name {
                return Some(self.name_map[i].1);
            }
            i = i + 1;
        }
        None
    }

    /// Executes the automaton from the named rule with the given random
    /// source and token budget. The output is exactly the [`walk_fuel`]
    /// outcome of the start id, which depends on nothing but the automaton,
    /// the name, the budget and the generator's seed; an unknown name is the
    /// only error a well-formed automaton can produce.
    pub fn walk_graph(&self, prng: PRNG, start: String, tokens: usize) -> (r: Result<
        String,
        GenError,
    >)
        requires
            self.wf(),
        ensures
            (match name_id(self@.names, start@) {
                Some(id) => {
                    &&& (r is Ok)
                    &&& WalkStatus::Finished(r->Ok_0@) == walk_fuel(
                        self@,
                        id,
                        Seq::empty(),
                        0,
                        tokens as int,
                        Seq::empty(),
                        prng.state(),
                        STEP_CAP as nat,
                    )
                },
                None => r == Err::<String, GenError>(GenError::UnknownStart),
            }),
    {
        let mut prng = prng;
        let start_id = match self.lookup_name(&start) {
            Some(id) => id,
            None => {
                return Err(GenError::UnknownStart);
            },
        };
        let ghost m = self@;
        let ghost n0 = prng.state();
        let mut out: Vec<char> = Vec::new();
        let mut graph_stack: Vec<u32> = Vec::new();
        let mut current_id: u32 = start_id;
        let mut printed_tokens: usize = 0;
        let mut fuel: u64 = STEP_CAP;
        proof {
            lemma_name_idx_from_sound(m.names, start@, 0);
        }
        loop
            invariant_except_break
                walk_fuel(
                    m,
                    start_id,
                    Seq::empty(),
                    0,
                    tokens as int,
                    Seq::empty(),
                    n0,
                    STEP_CAP as nat,
                ) == walk_fuel(
                    m,
                    current_id,
                    graph_stack@,
                    printed_tokens as int,
                    tokens as int,
                    out@,
                    prng.state(),
                    fuel as nat,
                ),
            invariant
                self.wf(),
                m == self@,
                printed_tokens <= tokens,
                has_node(m.nodes, current_id),
                forall|k: int| 0 <= k < graph_stack@.len() ==> has_node(
                    m.nodes,
                    #[trigger] graph_stack@[k],
                ),
            ensures
                WalkStatus::Finished(out@) == walk_fuel(
                    m,
                    start_id,
                    Seq::empty(),
                    0,
                    tokens as int,
                    Seq::empty(),
                    n0,
                    STEP_CAP as nat,
                ),
            decreases fuel,
        {
            let ghost pre_state = (current_id, graph_stack@, printed_tokens as int, out@,
            prng.state(), fuel as nat);
            if fuel == 0 {
                proof {
                    assert(walk_fuel(
                        m,
                        current_id,
                        graph_stack@,
                        printed_tokens as int,
                        tokens as int,
                        out@,
                        prng.state(),
                        0,
                    ) == WalkStatus::Finished(out@));
                }
                break;
            }
            fuel = fuel - 1;
            let ni = match self.find_node(current_id) {
                Some(ni) => ni,
                None => {
                    // unreachable: the loop invariant keeps the current id
                    // inside the closed automaton
                    proof {
                        assert(false);
                    }
                    return Err(GenError::MissingNode);
                },
            };
            proof {
                lemma_find_idx_from_sound(m.nodes, current_id, 0);
                assert(self.nodes@[ni as int]@ == node_of(m.nodes, current_id));
            }
            if printed_tokens >= tokens {
                proof {
                    assert(walk_fuel(
                        m,
                        pre_state.0,
                        pre_state.1,
                        pre_state.2,
                        tokens as int,
                        pre_state.3,
                        pre_state.4,
                        pre_state.5,
                    ) == WalkStatus::Finished(out@));
                }
                break;
            }
            let node_typ = self.nodes[ni].typ;
            let ghost node = node_of(m.nodes, current_id);
            match node_typ {
                NodeType::POINTER => {
                    if self.nodes[ni].options.len() > 0 {
                        let ret = self.nodes[ni].options[0].node;
                        graph_stack.push(ret);
                        current_id = self.nodes[ni].pointer;
                        proof {
                            assert(node.edges[0].1 == ret);
                            assert(graph_stack@ =~= pre_state.1.push(ret));
                        }
                    }
                    // with no outgoing edge the pointer spins in place, by
                    // construction unreachable
                },
                NodeType::END => {
                    if graph_stack.len() == 0 {
                        proof {
                            assert(walk_fuel(
                                m,
                                pre_state.0,
                                pre_state.1,
                                pre_state.2,
                                tokens as int,
                                pre_state.3,
                                pre_state.4,
                                pre_state.5,
                            ) == WalkStatus::Finished(out@));
                        }
                        break;
                    } else {
                        let popped = match graph_stack.pop() {
                            Some(p) => p,
                            None => {
                                // unreachable: the stack was just checked to
                                // be non-empty
                                proof {
                                    assert(false);
                                }
                                return Err(GenError::MissingNode);
                            },
                        };
                        proof {
                            assert(popped == pre_state.1.last());
                            assert(graph_stack@ =~= pre_state.1.drop_last());
                        }
                        current_id = popped;
                    }
                },
                _ => {
                    // emission for leaves, then edge selection
                    match node_typ {
                        NodeType::CH => {
                            match self.find_print(current_id) {
                                Some(pi) => {
                                    let mut chunk = unescape_chars(
                                        self.print_map[pi].1.as_str(),
                                    );
                                    proof {
                                        assert(print_of(m.prints, current_id) == Some(
                                            self.print_map@[pi as int].1@,
                                        ));
                                    }
                                    out.append(&mut chunk);
                                    printed_tokens = printed_tokens + 1;
                                },
                                None => {},
                            }
                        },
                        NodeType::RX => {
                            match self.find_print(current_id) {
                                Some(pi) => {
                                    let pat = self.print_map[pi].1.clone();
                                    proof {
                                        assert(print_of(m.prints, current_id) == Some(
                                            self.print_map@[pi as int].1@,
                                        ));
                                        assert(m.classes == self.regexer@);
                                    }
                                    let mut chunk = self.regexer.generate_chars(
                                        pat.as_str(),
                                        &mut prng,
                                    );
                                    out.append(&mut chunk);
                                    printed_tokens = printed_tokens + 1;
                                },
                                None => {},
                            }
                        },
                        _ => {},
                    }
                    proof {
                        let e = emit_step(m, node, pre_state.3, pre_state.2, pre_state.4);
                        assert(out@ == e.0 && printed_tokens as int == e.1 && prng.state()
                            == e.2);
                    }
                    if self.nodes[ni].options.len() == 0 {
                        proof {
                            assert(node.edges.len() == 0);
                            assert(walk_fuel(
                                m,
                                pre_state.0,
                                pre_state.1,
                                pre_state.2,
                                tokens as int,
                                pre_state.3,
                                pre_state.4,
                                pre_state.5,
                            ) == WalkStatus::Finished(out@));
                        }
                        break;
                    }
                    let x = prng.random();
                    proof {
                        assert(node.cf == cdf_spec(weights_of(node)));
                        assert(node.cf.len() == node.edges.len());
                        lemma_pick_from_bounds(node.cf, x, 0);
                    }
                    let idx = crate::fixed::closest_index(
                        &self.nodes[ni].cumulative_frequency,
                        x,
                    );
                    current_id = self.nodes[ni].options[idx].node;
                    proof {
                        assert(current_id == node.edges[pick_index(node.cf, x) as int].1);
                    }
                },
            }
        }
        Ok(string_from_chars(&out))
    }
}

/// Every node of a well-formed frozen automaton that has outgoing edges
/// carries a cumulative-frequency vector with one entry per edge,
/// non-decreasing, bounded by the fixed-point unit, and ending at exactly
/// `SCALE` — probability 1.0, with no rounding slack at all. A node with no
/// outgoing edges is terminal and no selection is performed on it.
pub proof fn lemma_cumulative_frequencies_wellformed(m: FrozenModel)
    requires
        nodes_normalized(m.nodes),
    ensures
        forall|i: int|
            0 <= i < m.nodes.len() ==> {
                let cf = (#[trigger] m.nodes[i]).cf;
                &&& cf.len() == m.nodes[i].edges.len()
                &&& (forall|a: int, b: int| 0 <= a <= b < cf.len() ==> cf[a] <= cf[b])
                &&& (forall|a: int| 0 <= a < cf.len() ==> cf[a] <= crate::fixed::SCALE)
                &&& (cf.len() > 0 ==> cf[cf.len() - 1] == crate::fixed::SCALE)
            },
{
    assert forall|i: int| 0 <= i < m.nodes.len() implies {
        let cf = (#[trigger] m.nodes[i]).cf;
        &&& cf.len() == m.nodes[i].edges.len()
        &&& (forall|a: int, b: int| 0 <= a <= b < cf.len() ==> cf[a] <= cf[b])
        &&& (forall|a: int| 0 <= a < cf.len() ==> cf[a] <= crate::fixed::SCALE)
        &&& (cf.len() > 0 ==> cf[cf.len() - 1] == crate::fixed::SCALE)
    } by {
        lemma_cdf_wellformed(weights_of(m.nodes[i]));
    }
}

impl FrozenSyntaxGraph {
    /// [`lemma_cumulative_frequencies_wellformed`], for any automaton the
    /// freeze step accepted.
    pub proof fn lemma_distributions_wellformed(self)
        requires
            self.wf(),
        ensures
            forall|i: int|
                0 <= i < self@.nodes.len() ==> {
                    let cf = (#[trigger] self@.nodes[i]).cf;
                    &&& cf.len() == self@.nodes[i].edges.len()
                    &&& (forall|a: int, b: int| 0 <= a <= b < cf.len() ==> cf[a] <= cf[b])
                    &&& (forall|a: int| 0 <= a < cf.len() ==> cf[a] <= crate::fixed::SCALE)
                    &&& (cf.len() > 0 ==> cf[cf.len() - 1] == crate::fixed::SCALE)
                },
    {
        lemma_cumulative_frequencies_wellformed(self@);
    }
}

/// Generation is deterministic: two walks of the same automaton from the
/// same start id with the same budget and the same seed produce the same
/// output, byte for byte.
pub proof fn lemma_walk_deterministic(
    m: FrozenModel,
    id: u32,
    budget: int,
    n: u64,
    s1: Seq<char>,
    s2: Seq<char>,
)
    requires
        WalkStatus::Finished(s1) == walk_fuel(
            m,
            id,
            Seq::empty(),
            0,
            budget,
            Seq::empty(),
            n,
            STEP_CAP as nat,
        ),
        WalkStatus::Finished(s2) == walk_fuel(
            m,
            id,
            Seq::empty(),
            0,
            budget,
            Seq::empty(),
            n,
            STEP_CAP as nat,
        ),
    ensures
        s1 == s2,
{
}

} // verus!
