//! Rooted trees of identifiers, stored in a `petgraph` graph.
//!
//! Node 0 is the root. Every other node is attached below an existing node
//! when it is created, so a node's parent always has a smaller index than
//! the node itself and the graph is a tree by construction.

use vstd::prelude::*;

verus! {

/// `petgraph`'s adjacency-list graph, opaque to the verifier.
#[verifier::external_type_specification]
#[verifier::external_body]
#[verifier::reject_recursive_types(N)]
#[verifier::reject_recursive_types(E)]
#[verifier::reject_recursive_types(Ty)]
#[verifier::reject_recursive_types(Ix)]
pub struct ExGraph<N, E, Ty, Ix>(petgraph::graph::Graph<N, E, Ty, Ix>);

/// `petgraph`'s marker for directed edges.
#[verifier::external_type_specification]
#[verifier::external_body]
pub struct ExDirected(petgraph::Directed);

/// The node weights of a graph, in index order.
pub uninterp spec fn graph_weights(
    g: petgraph::graph::Graph<String, (), petgraph::Directed, u32>,
) -> Seq<Seq<char>>;

/// The edges of a graph as (source, target) pairs, in the order they were added.
pub uninterp spec fn graph_edges(
    g: petgraph::graph::Graph<String, (), petgraph::Directed, u32>,
) -> Seq<(usize, usize)>;

/// The order in which `petgraph`'s depth-first search emits the nodes of a
/// graph with `count` nodes and the given edges when it starts at `start`.
pub uninterp spec fn dfs_order(count: nat, edges: Seq<(usize, usize)>, start: usize) -> Seq<usize>;

/// The text that `petgraph` prints for a graph in Graphviz dot format, with
/// node labels and without edge labels.
pub uninterp spec fn dot_text(weights: Seq<Seq<char>>, edges: Seq<(usize, usize)>) -> Seq<char>;

/// Whether the node at position `k` of `order` is reached by an edge from a
/// node at an earlier position.
pub open spec fn discovered_from_earlier(edges: Seq<(usize, usize)>, order: Seq<usize>, k: int) -> bool {
    exists|j: int, e: int|
        0 <= j < k && 0 <= e < edges.len() && #[trigger] edges[e] == (#[trigger] order[j], order[k])
}

/// What holds of every depth-first traversal: it begins at `start`, names
/// only existing nodes, names none twice, follows every edge that leaves a
/// node it names, and comes to every node but the first along an edge from
/// a node it named before.
pub open spec fn is_traversal(
    count: nat,
    edges: Seq<(usize, usize)>,
    start: usize,
    order: Seq<usize>,
) -> bool {
    &&& order.len() > 0
    &&& order[0] == start
    &&& forall|k: int| 0 <= k < order.len() ==> (#[trigger] order[k]) < count
    &&& forall|j: int, k: int| 0 <= j < k < order.len() ==> order[j] != order[k]
    &&& forall|k: int, e: int|
        0 <= k < order.len() && 0 <= e < edges.len() && (#[trigger] edges[e]).0 == (
        #[trigger] order[k]) ==> order.contains(edges[e].1)
    &&& forall|k: int| 0 < k < order.len() ==> #[trigger] discovered_from_earlier(edges, order, k)
}

/// Whether every node of `order` but the first stands behind its parent.
pub open spec fn parents_first(edges: Seq<(usize, usize)>, order: Seq<usize>) -> bool {
    forall|k: int|
        0 < k < order.len() ==> exists|j: int|
            0 <= j < k && parent_of(edges, #[trigger] order[k]) == Some(order[j])
}

/// The source of the most recently added edge that ends in `target`.
pub open spec fn last_source_into(edges: Seq<(usize, usize)>, target: usize) -> Option<usize>
    decreases edges.len(),
{
    if edges.len() == 0 {
        None
    } else if edges.last().1 == target {
        Some(edges.last().0)
    } else {
        last_source_into(edges.drop_last(), target)
    }
}

/// Calls `petgraph::graph::Graph::new`: the new graph has no nodes and no edges.
#[verifier::external_body]
pub(crate) fn graph_new() -> (g: petgraph::graph::Graph<String, (), petgraph::Directed, u32>)
    ensures
        graph_weights(g) == Seq::<Seq<char>>::empty(),
        graph_edges(g) == Seq::<(usize, usize)>::empty(),
{
    petgraph::graph::Graph::new()
}

/// Calls `petgraph::graph::Graph::add_node`: the weight is appended under the
/// next free index, which is returned, and the edges stay as they were. The
/// graph must be below the node limit of its 32-bit index type, where
/// `add_node` panics.
#[verifier::external_body]
pub(crate) fn graph_add_node(
    g: &mut petgraph::graph::Graph<String, (), petgraph::Directed, u32>,
    weight: String,
) -> (index: usize)
    requires
        graph_weights(*old(g)).len() < u32::MAX,
    ensures
        index == graph_weights(*old(g)).len(),
        graph_weights(*final(g)) == graph_weights(*old(g)).push(weight@),
        graph_edges(*final(g)) == graph_edges(*old(g)),
{
    g.add_node(weight).index()
}

/// Calls `petgraph::graph::Graph::add_edge`: the edge is appended to the
/// edges and the nodes stay as they were. Both ends must exist and the graph
/// must be below the edge limit of its 32-bit index type; `add_edge` panics
/// otherwise.
#[verifier::external_body]
pub(crate) fn graph_add_edge(
    g: &mut petgraph::graph::Graph<String, (), petgraph::Directed, u32>,
    from: usize,
    to: usize,
)
    requires
        from < graph_weights(*old(g)).len(),
        to < graph_weights(*old(g)).len(),
        graph_weights(*old(g)).len() <= u32::MAX,
        graph_edges(*old(g)).len() < u32::MAX,
    ensures
        graph_weights(*final(g)) == graph_weights(*old(g)),
        graph_edges(*final(g)) == graph_edges(*old(g)).push((from, to)),
{
    g.add_edge(petgraph::graph::NodeIndex::new(from), petgraph::graph::NodeIndex::new(to), ());
}

/// Calls `petgraph::graph::Graph::node_count`.
#[verifier::external_body]
pub(crate) fn graph_node_count(
    g: &petgraph::graph::Graph<String, (), petgraph::Directed, u32>,
) -> (n: usize)
    ensures
        n == graph_weights(*g).len(),
{
    g.node_count()
}

/// Indexes a `petgraph` graph by node: the weight stored under `index`.
#[verifier::external_body]
pub(crate) fn graph_weight(
    g: &petgraph::graph::Graph<String, (), petgraph::Directed, u32>,
    index: usize,
) -> (weight: &String)
    requires
        index < graph_weights(*g).len(),
        graph_weights(*g).len() <= u32::MAX,
    ensures
        weight@ == graph_weights(*g)[index as int],
{
    &g[petgraph::graph::NodeIndex::new(index)]
}

/// Takes the first item of `petgraph::graph::Graph::neighbors_directed` for
/// incoming edges. `petgraph` lists neighbours from the most recently added
/// edge backwards, so this is the source of the last edge into `index`.
#[verifier::external_body]
pub(crate) fn graph_first_parent(
    g: &petgraph::graph::Graph<String, (), petgraph::Directed, u32>,
    index: usize,
) -> (parent: Option<usize>)
    requires
        index < graph_weights(*g).len(),
        graph_weights(*g).len() <= u32::MAX,
    ensures
        parent == last_source_into(graph_edges(*g), index),
{
    let mut incoming = g.neighbors_directed(
        petgraph::graph::NodeIndex::new(index),
        petgraph::Direction::Incoming,
    );
    match incoming.next() {
        Some(node) => Some(node.index()),
        None => None,
    }
}

/// Runs `petgraph::visit::Dfs` from `start` until it is exhausted and
/// collects the nodes in the order in which they come out.
#[verifier::external_body]
pub(crate) fn graph_dfs(
    g: &petgraph::graph::Graph<String, (), petgraph::Directed, u32>,
    start: usize,
) -> (order: Vec<usize>)
    requires
        start < graph_weights(*g).len(),
        graph_weights(*g).len() <= u32::MAX,
    ensures
        order@ == dfs_order(graph_weights(*g).len(), graph_edges(*g), start),
        is_traversal(graph_weights(*g).len(), graph_edges(*g), start, order@),
{
    let mut dfs = petgraph::visit::Dfs::new(g, petgraph::graph::NodeIndex::new(start));
    let mut order = Vec::new();
    while let Some(node) = dfs.next(g) {
        order.push(node.index());
    }
    order
}

/// Calls `clone` on a `petgraph` graph: the copy has the same weights and
/// the same edges, in the same order.
#[verifier::external_body]
pub(crate) fn graph_clone(
    g: &petgraph::graph::Graph<String, (), petgraph::Directed, u32>,
) -> (copy: petgraph::graph::Graph<String, (), petgraph::Directed, u32>)
    ensures
        graph_weights(copy) == graph_weights(*g),
        graph_edges(copy) == graph_edges(*g),
{
    g.clone()
}

/// Formats the graph with `petgraph::dot::Dot`, node labels on and edge
/// labels off.
#[verifier::external_body]
pub(crate) fn graph_dot(
    g: &petgraph::graph::Graph<String, (), petgraph::Directed, u32>,
) -> (text: String)
    ensures
        text@ == dot_text(graph_weights(*g), graph_edges(*g)),
{
    format!("{:?}", petgraph::dot::Dot::with_config(g, &[petgraph::dot::Config::EdgeNoLabel]))
}

/// The mathematical content of a graph: what each node holds and which
/// edges connect them, both in order of creation.
pub struct GraphView<I> {
    pub nodes: Seq<I>,
    pub edges: Seq<(usize, usize)>,
}

impl<I> GraphView<I> {
    /// The same graph with every identifier replaced by its image under `f`.
    pub open spec fn rename<J>(self, f: spec_fn(I) -> J) -> GraphView<J> {
        GraphView { nodes: self.nodes.map_values(f), edges: self.edges }
    }

    /// Whether `p` holds of every identifier in the graph.
    pub open spec fn refs_hold(self, p: spec_fn(I) -> bool) -> bool {
        forall|i: int| 0 <= i < self.nodes.len() ==> p(#[trigger] self.nodes[i])
    }
}

/// Whether `edges` make `count` nodes a tree rooted at node 0 in which
/// node `k + 1` was attached by edge `k` below an earlier node.
pub open spec fn is_tree(count: nat, edges: Seq<(usize, usize)>) -> bool {
    if count == 0 {
        edges.len() == 0
    } else {
        &&& edges.len() == count - 1
        &&& forall|k: int|
            0 <= k < edges.len() ==> (#[trigger] edges[k]).0 <= k && edges[k].1 == k + 1
    }
}

/// The parent of `node` in a tree, if it has one.
pub open spec fn parent_of(edges: Seq<(usize, usize)>, node: usize) -> Option<usize> {
    if 0 < node <= edges.len() {
        Some(edges[node - 1].0)
    } else {
        None
    }
}

/// The nodes on the way from the root down to `node`, both included.
pub open spec fn path_from_root(edges: Seq<(usize, usize)>, node: usize) -> Seq<usize>
    decreases node,
{
    if 0 < node <= edges.len() && edges[node - 1].0 < node {
        path_from_root(edges, edges[node - 1].0).push(node)
    } else {
        seq![node]
    }
}

/// Every node on the path to an existing node exists, and the path ends in
/// the node it leads to.
pub proof fn lemma_path_stays_above(edges: Seq<(usize, usize)>, node: usize)
    ensures
        path_from_root(edges, node).len() > 0,
        path_from_root(edges, node).last() == node,
        forall|j: int|
            0 <= j < path_from_root(edges, node).len() ==> (#[trigger] path_from_root(
                edges,
                node,
            )[j]) <= node,
    decreases node,
{
    if 0 < node <= edges.len() && edges[node - 1].0 < node {
        lemma_path_stays_above(edges, edges[node - 1].0);
    }
}

/// Paths compose along the tree: the path to the root is the root alone,
/// and the path to any other node is the path to its parent followed by
/// the node. A product of local transforms along the path to a node is
/// therefore the product along the path to its parent times the node's own.
pub proof fn lemma_path_extends_parent_path(count: nat, edges: Seq<(usize, usize)>, node: usize)
    requires
        is_tree(count, edges),
        node < count,
    ensures
        node == 0 ==> path_from_root(edges, node) == seq![node],
        node > 0 ==> parent_of(edges, node) is Some && path_from_root(edges, node)
            == path_from_root(edges, parent_of(edges, node).unwrap()).push(node),
{
}

/// In a tree the most recently added edge into a node is the one that
/// attached it, so the first parent that `petgraph` reports is the parent.
pub proof fn lemma_tree_parent(count: nat, edges: Seq<(usize, usize)>, node: usize)
    requires
        is_tree(count, edges),
    ensures
        last_source_into(edges, node) == parent_of(edges, node),
    decreases edges.len(),
{
    if edges.len() > 0 {
        let init = edges.drop_last();
        assert(is_tree((count - 1) as nat, init)) by {
            assert forall|k: int| 0 <= k < init.len() implies (#[trigger] init[k]).0 <= k
                && init[k].1 == k + 1 by {
                assert(init[k] == edges[k]);
            }
        }
        lemma_tree_parent((count - 1) as nat, init, node);
        if edges.last().1 != node {
            if 0 < node <= init.len() {
                assert(init[node - 1] == edges[node - 1]);
            }
        }
    }
}

/// A depth-first traversal of a tree from its root names every node
/// exactly once.
pub proof fn lemma_tree_traversal_is_complete(
    count: nat,
    edges: Seq<(usize, usize)>,
    order: Seq<usize>,
)
    requires
        is_tree(count, edges),
        is_traversal(count, edges, 0, order),
    ensures
        order.len() == count,
        order.no_duplicates(),
        forall|node: usize| node < count ==> order.contains(node),
        parents_first(edges, order),
{
    assert forall|node: usize| node < count implies order.contains(node) by {
        lemma_tree_traversal_reaches(count, edges, order, node);
    }
    assert forall|k: int| 0 < k < order.len() implies exists|j: int|
        0 <= j < k && parent_of(edges, #[trigger] order[k]) == Some(order[j]) by {
        assert(discovered_from_earlier(edges, order, k));
        let (j, e) = choose|j: int, e: int|
            0 <= j < k && 0 <= e < edges.len() && #[trigger] edges[e] == (#[trigger] order[j], order[k]);
        assert(edges[e].1 == e + 1);
        assert(parent_of(edges, order[k]) == Some(order[j]));
    }
    order.unique_seq_to_set();
    let all = Set::new(|node: usize| node < count);
    assert(order.to_set() =~= all);
    assert(count <= usize::MAX + 1) by {
        if count >= 2 {
            assert(edges[count - 2].1 == count - 1);
        }
    }
    lemma_index_set_size(count);
}

proof fn lemma_tree_traversal_reaches(
    count: nat,
    edges: Seq<(usize, usize)>,
    order: Seq<usize>,
    node: usize,
)
    requires
        is_tree(count, edges),
        is_traversal(count, edges, 0, order),
        node < count,
    ensures
        order.contains(node),
    decreases node,
{
    if node == 0 {
        assert(order[0] == node);
    } else {
        let e = node - 1;
        let parent = edges[e].0;
        lemma_tree_traversal_reaches(count, edges, order, parent);
        let k = choose|k: int| 0 <= k < order.len() && order[k] == parent;
        assert(edges[e].0 == order[k]);
    }
}

proof fn lemma_index_set_size(count: nat)
    requires
        count <= usize::MAX + 1,
    ensures
        Set::new(|node: usize| node < count).finite(),
        Set::new(|node: usize| node < count).len() == count,
    decreases count,
{
    let all = Set::new(|node: usize| node < count);
    if count == 0 {
        assert(all =~= Set::<usize>::empty());
    } else {
        let fewer = Set::new(|node: usize| node < count - 1);
        lemma_index_set_size((count - 1) as nat);
        assert(all =~= fewer.insert((count - 1) as usize));
    }
}

/// Whether `links` name, for each of `count` nodes, the node it hangs
/// below: none for the root, an earlier node for every other node.
pub open spec fn links_form_tree(count: nat, links: Seq<Option<usize>>) -> bool {
    &&& links.len() == count
    &&& count <= u32::MAX
    &&& forall|k: int|
        0 <= k < links.len() ==> match #[trigger] links[k] {
            Some(parent) => parent < k,
            None => k == 0,
        }
}

/// The edges of the tree that `links` describe: node `k + 1` hangs below
/// the node that its link names.
pub open spec fn edges_of_links(links: Seq<Option<usize>>) -> Seq<(usize, usize)> {
    Seq::new(
        if links.len() > 0 {
            (links.len() - 1) as nat
        } else {
            0
        },
        |e: int| (links[e + 1].unwrap(), (e + 1) as usize),
    )
}

/// The texts of a sequence of strings.
pub open spec fn texts(ids: Seq<String>) -> Seq<Seq<char>> {
    ids.map_values(|id: String| id@)
}

/// A rooted tree whose nodes hold identifiers.
#[derive(Debug)]
pub struct EntityGraph {
    graph: petgraph::graph::Graph<String, (), petgraph::Directed, u32>,
}

impl View for EntityGraph {
    type V = GraphView<Seq<char>>;

    closed spec fn view(&self) -> GraphView<Seq<char>> {
        GraphView { nodes: graph_weights(self.graph), edges: graph_edges(self.graph) }
    }
}

impl Clone for EntityGraph {
    fn clone(&self) -> (copy: EntityGraph)
        ensures
            copy@ == self@,
    {
        proof {
            use_type_invariant(&*self);
        }
        EntityGraph { graph: graph_clone(&self.graph) }
    }
}

impl EntityGraph {
    /// The representation invariant: the graph is a tree in the sense of
    /// `is_tree` and fits the 32-bit indices of its storage. It holds of
    /// every graph that a program holds.
    #[verifier::type_invariant]
    pub open spec fn wf(&self) -> bool {
        &&& is_tree(self@.nodes.len(), self@.edges)
        &&& self@.nodes.len() <= u32::MAX
    }

    /// Whether another node can be added.
    pub open spec fn has_room(&self) -> bool {
        self@.nodes.len() < u32::MAX
    }

    /// A graph without nodes.
    pub fn new() -> (g: EntityGraph)
        ensures
            g@.nodes.len() == 0,
            g@.edges.len() == 0,
    {
        EntityGraph { graph: graph_new() }
    }

    /// A graph that holds its root and nothing else.
    pub fn with_root(id: String) -> (g: EntityGraph)
        ensures
            g@.nodes == seq![id@],
            g@.edges.len() == 0,
    {
        let mut graph = graph_new();
        let _ = graph_add_node(&mut graph, id);
        EntityGraph { graph }
    }

    /// The number of nodes, the root included.
    pub fn node_count(&self) -> (n: usize)
        ensures
            n == self@.nodes.len(),
    {
        graph_node_count(&self.graph)
    }

    /// The identifier held by node `index`.
    pub fn id(&self, index: usize) -> (id: &String)
        requires
            index < self@.nodes.len(),
        ensures
            id@ == self@.nodes[index as int],
    {
        proof {
            use_type_invariant(&*self);
        }
        graph_weight(&self.graph, index)
    }

    /// Adds a node that holds `id` below `parent` and returns its index.
    pub fn add_child(&mut self, parent: usize, id: String) -> (index: usize)
        requires
            old(self).has_room(),
            parent < old(self)@.nodes.len(),
        ensures
            index == old(self)@.nodes.len(),
            final(self)@.nodes == old(self)@.nodes.push(id@),
            final(self)@.edges == old(self)@.edges.push((parent, index)),
    {
        proof {
            use_type_invariant(&*self);
        }
        let mut graph = graph_new();
        core::mem::swap(&mut graph, &mut self.graph);
        let index = graph_add_node(&mut graph, id);
        if parent != index {
            graph_add_edge(&mut graph, parent, index);
        }
        self.graph = graph;
        index
    }

    /// Adds a node that holds `id` directly below the root and returns its
    /// index. A graph without nodes first receives a root that holds the
    /// empty identifier.
    pub fn add_root_node(&mut self, id: String) -> (index: usize)
        requires
            old(self)@.nodes.len() + 1 < u32::MAX,
        ensures
            old(self)@.nodes.len() == 0 ==> index == 1 && final(self)@.nodes == seq![
                Seq::<char>::empty(),
                id@,
            ],
            old(self)@.nodes.len() > 0 ==> index == old(self)@.nodes.len() && final(self)@.nodes
                == old(self)@.nodes.push(id@),
            final(self)@.edges == old(self)@.edges.push((0usize, index)),
    {
        proof {
            use_type_invariant(&*self);
        }
        if graph_node_count(&self.graph) == 0 {
            *self = EntityGraph::with_root(String::new());
        }
        self.add_child(0, id)
    }

    /// The parent of node `index`; the root has none.
    pub fn parent(&self, index: usize) -> (parent: Option<usize>)
        requires
            index < self@.nodes.len(),
        ensures
            parent == parent_of(self@.edges, index),
            parent matches Some(p) ==> p < index,
    {
        proof {
            use_type_invariant(&*self);
            lemma_tree_parent(self@.nodes.len(), self@.edges, index);
        }
        graph_first_parent(&self.graph, index)
    }

    /// The nodes from the root down to `index`, both included.
    pub fn path_from_root(&self, index: usize) -> (path: Vec<usize>)
        requires
            index < self@.nodes.len(),
        ensures
            path@ == path_from_root(self@.edges, index),
        decreases index,
    {
        match self.parent(index) {
            Some(parent) => {
                let mut path = self.path_from_root(parent);
                path.push(index);
                path
            },
            None => {
                let mut path = Vec::new();
                path.push(index);
                path
            },
        }
    }

    /// The nodes in depth-first order from the root: every node once, a
    /// parent before its children. A graph without nodes gives an empty
    /// order. Among the children of one node, the one attached first is
    /// walked first.
    pub fn walk_dfs(&self) -> (order: Vec<usize>)
        ensures
            self@.nodes.len() == 0 ==> order@.len() == 0,
            self@.nodes.len() > 0 ==> order@ == dfs_order(self@.nodes.len(), self@.edges, 0),
            order@.len() == self@.nodes.len(),
            order@.no_duplicates(),
            forall|k: int| 0 <= k < order@.len() ==> (#[trigger] order@[k]) < self@.nodes.len(),
            forall|node: usize| node < self@.nodes.len() ==> order@.contains(node),
            order@.len() > 0 ==> order@[0] == 0,
            parents_first(self@.edges, order@),
    {
        proof {
            use_type_invariant(&*self);
        }
        if graph_node_count(&self.graph) == 0 {
            return Vec::new();
        }
        let order = graph_dfs(&self.graph, 0);
        proof {
            lemma_tree_traversal_is_complete(self@.nodes.len(), self@.edges, order@);
        }
        order
    }

    /// The identifiers of all nodes, in index order.
    pub fn ids(&self) -> (ids: Vec<String>)
        ensures
            texts(ids@) == self@.nodes,
    {
        let count = self.node_count();
        let mut ids: Vec<String> = Vec::new();
        let mut k: usize = 0;
        while k < count
            invariant
                count == self@.nodes.len(),
                k <= count,
                ids@.len() == k,
                forall|j: int| 0 <= j < k ==> (#[trigger] ids@[j])@ == self@.nodes[j],
            decreases count - k,
        {
            ids.push(self.id(k).clone());
            k += 1;
        }
        assert(texts(ids@) =~= self@.nodes);
        ids
    }

    /// For each node the node it hangs below, in index order. Together with
    /// `ids` this is the whole graph as plain values.
    pub fn links(&self) -> (links: Vec<Option<usize>>)
        ensures
            links_form_tree(self@.nodes.len(), links@),
            edges_of_links(links@) == self@.edges,
    {
        proof {
            use_type_invariant(&*self);
        }
        let count = self.node_count();
        let mut links: Vec<Option<usize>> = Vec::new();
        let mut k: usize = 0;
        while k < count
            invariant
                self.wf(),
                count == self@.nodes.len(),
                k <= count,
                links@.len() == k,
                forall|j: int| 0 <= j < k ==> (#[trigger] links@[j]) == parent_of(self@.edges, j as usize),
            decreases count - k,
        {
            links.push(self.parent(k));
            k += 1;
        }
        assert(edges_of_links(links@) =~= self@.edges);
        links
    }

    /// The tree with the given identifiers and links, if the links describe
    /// one.
    pub fn from_links(ids: &Vec<String>, links: &Vec<Option<usize>>) -> (graph: Option<EntityGraph>)
        ensures
            match graph {
                Some(g) => {
                    &&& ids@.len() == links@.len()
                    &&& links_form_tree(links@.len(), links@)
                    &&& g@.nodes == texts(ids@)
                    &&& g@.edges == edges_of_links(links@)
                },
                None => ids@.len() != links@.len() || !links_form_tree(links@.len(), links@),
            },
    {
        if ids.len() != links.len() || ids.len() > u32::MAX as usize {
            return None;
        }
        let mut graph = EntityGraph::new();
        let mut k: usize = 0;
        while k < ids.len()
            invariant
                ids@.len() == links@.len(),
                ids@.len() <= u32::MAX,
                k <= ids@.len(),
                graph@.nodes == texts(ids@.take(k as int)),
                graph@.edges == edges_of_links(links@.take(k as int)),
                forall|j: int|
                    0 <= j < k ==> match #[trigger] links@[j] {
                        Some(parent) => parent < j,
                        None => j == 0,
                    },
            decreases ids@.len() - k,
        {
            let ghost before = graph@;
            match links[k] {
                Some(parent) => {
                    if parent >= k {
                        return None;
                    }
                    let _ = graph.add_child(parent, ids[k].clone());
                },
                None => {
                    if k != 0 {
                        return None;
                    }
                    graph = EntityGraph::with_root(ids[k].clone());
                },
            }
            k += 1;
            assert(graph@.nodes =~= texts(ids@.take(k as int)));
            assert(graph@.edges =~= edges_of_links(links@.take(k as int)));
        }
        assert(ids@.take(k as int) =~= ids@);
        assert(links@.take(k as int) =~= links@);
        Some(graph)
    }

    /// The graph in Graphviz dot format.
    pub fn to_dot(&self) -> (text: String)
        ensures
            text@ == dot_text(self@.nodes, self@.edges),
    {
        graph_dot(&self.graph)
    }
}

/// A tree survives being taken apart into plain values and put together
/// again: from the identifiers and links of a graph, `from_links` builds
/// a graph with the same nodes and the same edges.
pub proof fn lemma_links_round_trip(
    graph: EntityGraph,
    ids: Vec<String>,
    links: Vec<Option<usize>>,
    rebuilt: Option<EntityGraph>,
)
    requires
        texts(ids@) == graph@.nodes,
        links_form_tree(graph@.nodes.len(), links@),
        edges_of_links(links@) == graph@.edges,
        match rebuilt {
            Some(g) => {
                &&& g@.nodes == texts(ids@)
                &&& g@.edges == edges_of_links(links@)
            },
            None => ids@.len() != links@.len() || !links_form_tree(links@.len(), links@),
        },
    ensures
        rebuilt is Some,
        rebuilt.unwrap()@ == graph@,
{
    assert(texts(ids@).len() == ids@.len());
}

} // verus!
