//! The scene: a tree of placed nodes with their attachments, the stores of
//! the resources they refer to, and the flattening of all mesh geometry
//! into buffers ready for upload.

use vstd::prelude::*;
use crate::graph::{
    dfs_order, dot_text, edges_of_links, links_form_tree, parent_of, parents_first, path_from_root,
    EntityGraph,
};
use crate::ident::fresh_id;
use crate::resource::{
    Animation, Camera, Image, Light, Material, Mesh, MeshView, Orientation, PerspectiveCamera,
    PrimitiveDrawCommand, PrimitiveView, Projection, Sampler, Skin, Texture, Transform,
    Vertex,
};
use crate::scalar::{Quat, Scalar, Vec2, Vec3};
use crate::store::IdMap;

verus! {

/// What can be attached to a node.
#[derive(Clone, Debug, PartialEq, Eq)]
pub enum NodeComponent {
    Camera(Camera),
    /// The identifier of a mesh in the scene's mesh store.
    Mesh(String),
    Light(Light),
}

/// What an attachment is to the proofs.
pub enum ComponentView {
    Camera(Camera),
    Mesh(Seq<char>),
    Light(Light),
}

impl View for NodeComponent {
    type V = ComponentView;

    open spec fn view(&self) -> ComponentView {
        match self {
            NodeComponent::Camera(c) => ComponentView::Camera(*c),
            NodeComponent::Mesh(id) => ComponentView::Mesh(id@),
            NodeComponent::Light(l) => ComponentView::Light(*l),
        }
    }
}

/// A placed entity of the scene: a transform relative to its parent and
/// what is attached to it.
#[derive(Clone, Debug, PartialEq, Eq)]
pub struct Node {
    pub id: String,
    pub label: String,
    pub transform: Transform,
    pub components: Vec<NodeComponent>,
}

/// What a node is to the proofs.
pub struct NodeView {
    pub id: Seq<char>,
    pub label: Seq<char>,
    pub transform: Transform,
    pub components: Seq<ComponentView>,
}

impl View for Node {
    type V = NodeView;

    open spec fn view(&self) -> NodeView {
        NodeView {
            id: self.id@,
            label: self.label@,
            transform: self.transform,
            components: self.components@.map_values(|c: NodeComponent| c@),
        }
    }
}

impl NodeView {
    /// A node without name, placement or attachments.
    pub open spec fn blank() -> NodeView {
        NodeView {
            id: Seq::empty(),
            label: Seq::empty(),
            transform: Transform::spec_identity(),
            components: Seq::empty(),
        }
    }

    /// Whether a camera is attached.
    pub open spec fn has_camera(self) -> bool {
        exists|j: int| 0 <= j < self.components.len() && #[trigger] self.components[j] is Camera
    }
}

impl Default for Node {
    fn default() -> (n: Node)
        ensures
            n@ == NodeView::blank(),
    {
        let n = Node {
            id: String::new(),
            label: String::new(),
            transform: Transform::default(),
            components: Vec::new(),
        };
        assert(n@.components =~= Seq::empty());
        n
    }
}

/// The rooted tree of a scene's nodes. Node 0 is the root.
#[derive(Debug)]
pub struct SceneGraph {
    tree: EntityGraph,
    nodes: Vec<Node>,
}

/// What a scene graph is to the proofs: its nodes, and the edges of its tree
/// in the order in which the nodes were attached.
pub struct SceneGraphView {
    pub nodes: Seq<NodeView>,
    pub edges: Seq<(usize, usize)>,
}

impl View for SceneGraph {
    type V = SceneGraphView;

    closed spec fn view(&self) -> SceneGraphView {
        SceneGraphView { nodes: self.nodes@.map_values(|n: Node| n@), edges: self.tree@.edges }
    }
}

impl Clone for SceneGraph {
    fn clone(&self) -> (copy: SceneGraph)
        ensures
            copy@.edges == self@.edges,
            copy@.nodes.len() == self@.nodes.len(),
    {
        proof {
            use_type_invariant(&*self);
        }
        SceneGraph { tree: self.tree.clone(), nodes: self.nodes.clone() }
    }
}

impl SceneGraph {
    /// The representation invariant: the tree has one node for each stored
    /// node. It holds of every graph that a program holds.
    #[verifier::type_invariant]
    pub closed spec fn wf(&self) -> bool {
        self.tree@.nodes.len() == self.nodes@.len()
    }

    /// The identifiers under which the nodes were added, as the underlying
    /// tree holds them.
    pub closed spec fn keys(&self) -> Seq<Seq<char>> {
        self.tree@.nodes
    }

    /// The nodes themselves, in index order.
    pub closed spec fn node_seq(&self) -> Seq<Node> {
        self.nodes@
    }

    /// A graph without nodes.
    pub fn new() -> (g: SceneGraph)
        ensures
            g@.nodes.len() == 0,
            g@.edges.len() == 0,
    {
        SceneGraph { tree: EntityGraph::new(), nodes: Vec::new() }
    }

    /// A graph that holds `root` and nothing else.
    pub fn with_root(root: Node) -> (g: SceneGraph)
        ensures
            g@.nodes == seq![root@],
            g@.edges.len() == 0,
    {
        let tree = EntityGraph::with_root(root.id.clone());
        let mut nodes = Vec::new();
        nodes.push(root);
        let g = SceneGraph { tree, nodes };
        assert(g@.nodes =~= seq![root@]);
        g
    }

    /// The number of nodes, the root included.
    pub fn node_count(&self) -> (n: usize)
        ensures
            n == self@.nodes.len(),
    {
        proof {
            use_type_invariant(&*self);
        }
        self.nodes.len()
    }

    /// The node at `index`.
    pub fn node(&self, index: usize) -> (node: &Node)
        requires
            index < self@.nodes.len(),
        ensures
            node@ == self@.nodes[index as int],
            *node == self.node_seq()[index as int],
    {
        proof {
            use_type_invariant(&*self);
        }
        &self.nodes[index]
    }

    /// The node at `index`, for changing it in place. The tree keeps its
    /// shape whatever the caller writes.
    pub fn node_mut(&mut self, index: usize) -> (node: &mut Node)
        requires
            index < old(self)@.nodes.len(),
        ensures
            *node == old(self).node_seq()[index as int],
            final(self).node_seq() == old(self).node_seq().update(index as int, *final(node)),
            final(self)@.nodes == old(self)@.nodes.update(index as int, final(node)@),
            final(self)@.edges == old(self)@.edges,
            final(self).keys() == old(self).keys(),
    {
        proof {
            use_type_invariant(&*self);
        }
        let node = &mut self.nodes[index];
        proof {
            assert(old(self)@.nodes.update(index as int, final(node)@) =~= old(self).node_seq().update(
                index as int,
                *final(node),
            ).map_values(|n: Node| n@));
        }
        node
    }

    /// Adds `node` below `parent` and returns its index.
    pub fn add_child(&mut self, parent: usize, node: Node) -> (index: usize)
        requires
            old(self)@.nodes.len() < u32::MAX,
            parent < old(self)@.nodes.len(),
        ensures
            index == old(self)@.nodes.len(),
            final(self)@.nodes == old(self)@.nodes.push(node@),
            final(self)@.edges == old(self)@.edges.push((parent, index)),
            final(self).keys() == old(self).keys().push(node.id@),
    {
        proof {
            use_type_invariant(&*self);
        }
        let mut whole = SceneGraph::new();
        core::mem::swap(&mut whole, self);
        let SceneGraph { mut tree, mut nodes } = whole;
        let index = tree.add_child(parent, node.id.clone());
        nodes.push(node);
        *self = SceneGraph { tree, nodes };
        assert(self@.nodes =~= old(self)@.nodes.push(node@));
        index
    }

    /// Adds `node` directly below the root and returns its index. A graph
    /// without nodes first receives a blank root.
    pub fn add_root_node(&mut self, node: Node) -> (index: usize)
        requires
            old(self)@.nodes.len() + 1 < u32::MAX,
        ensures
            old(self)@.nodes.len() == 0 ==> index == 1 && final(self)@.nodes == seq![
                NodeView::blank(),
                node@,
            ],
            old(self)@.nodes.len() > 0 ==> index == old(self)@.nodes.len() && final(self)@.nodes
                == old(self)@.nodes.push(node@),
            final(self)@.edges == old(self)@.edges.push((0usize, index)),
    {
        proof {
            use_type_invariant(&*self);
            use_type_invariant(&self.tree);
        }
        if self.nodes.len() == 0 {
            *self = SceneGraph::with_root(Node::default());
            assert(self@.nodes =~= seq![NodeView::blank()]);
        }
        let ghost before = self@.nodes;
        let index = self.add_child(0, node);
        assert(before.push(node@) =~= self@.nodes);
        assert(old(self)@.nodes.len() == 0 ==> self@.nodes =~= seq![NodeView::blank(), node@]);
        index
    }

    /// The parent of node `index`; the root has none.
    pub fn parent(&self, index: usize) -> (parent: Option<usize>)
        requires
            index < self@.nodes.len(),
        ensures
            parent == parent_of(self@.edges, index),
            parent matches Some(p) ==> p < index,
    {
        proof {
            use_type_invariant(&*self);
        }
        self.tree.parent(index)
    }

    /// The nodes from the root down to `index`, both included. A node's
    /// place in the world is the product of the local transforms along this
    /// path, taken in this order.
    pub fn path_from_root(&self, index: usize) -> (path: Vec<usize>)
        requires
            index < self@.nodes.len(),
        ensures
            path@ == path_from_root(self@.edges, index),
    {
        proof {
            use_type_invariant(&*self);
        }
        self.tree.path_from_root(index)
    }

    /// The local transforms from the root's down to that of node `index`.
    pub fn transform_chain(&self, index: usize) -> (chain: Vec<Transform>)
        requires
            index < self@.nodes.len(),
        ensures
            chain@ == path_from_root(self@.edges, index).map_values(
                |i: usize| self@.nodes[i as int].transform,
            ),
    {
        proof {
            use_type_invariant(&*self);
        }
        let path = self.tree.path_from_root(index);
        proof {
            crate::graph::lemma_path_stays_above(self@.edges, index);
        }
        let mut chain: Vec<Transform> = Vec::new();
        let mut k: usize = 0;
        while k < path.len()
            invariant
                k <= path@.len(),
                forall|j: int| 0 <= j < path@.len() ==> (#[trigger] path@[j]) < self@.nodes.len(),
                chain@ == path@.take(k as int).map_values(
                    |i: usize| self@.nodes[i as int].transform,
                ),
            decreases path@.len() - k,
        {
            chain.push(self.nodes[path[k]].transform);
            k += 1;
            assert(chain@ =~= path@.take(k as int).map_values(
                |i: usize| self@.nodes[i as int].transform,
            ));
        }
        assert(path@.take(k as int) =~= path@);
        chain
    }

    /// The nodes in depth-first order from the root: every node once, a
    /// parent before its children, siblings in the order they were added. A
    /// graph without nodes gives an empty order.
    pub fn walk_dfs(&self) -> (order: Vec<usize>)
        ensures
            self@.nodes.len() == 0 ==> order@.len() == 0,
            self@.nodes.len() > 0 ==> order@ == dfs_order(self@.nodes.len(), self@.edges, 0),
            order@.len() == self@.nodes.len(),
            order@.no_duplicates(),
            forall|k: int| 0 <= k < order@.len() ==> (#[trigger] order@[k]) < self@.nodes.len(),
            forall|node: usize| node < self@.nodes.len() ==> order@.contains(node),
            order@.len() > 0 ==> order@[0] == 0,
            parents_first(self@.edges, order@),
    {
        proof {
            use_type_invariant(&*self);
        }
        self.tree.walk_dfs()
    }

    /// For each node the node it hangs below, in index order. Together with
    /// the nodes themselves this is the whole graph as plain values.
    pub fn links(&self) -> (links: Vec<Option<usize>>)
        ensures
            links_form_tree(self@.nodes.len(), links@),
            edges_of_links(links@) == self@.edges,
    {
        proof {
            use_type_invariant(&*self);
        }
        self.tree.links()
    }

    /// The tree of the given nodes and links, if the links describe one.
    pub fn from_links(nodes: Vec<Node>, links: &Vec<Option<usize>>) -> (graph: Option<SceneGraph>)
        ensures
            match graph {
                Some(g) => {
                    &&& nodes@.len() == links@.len()
                    &&& links_form_tree(links@.len(), links@)
                    &&& g.node_seq() == nodes@
                    &&& g@.nodes == nodes@.map_values(|n: Node| n@)
                    &&& g@.edges == edges_of_links(links@)
                },
                None => nodes@.len() != links@.len() || !links_form_tree(links@.len(), links@),
            },
    {
        let mut ids: Vec<String> = Vec::new();
        let mut k: usize = 0;
        while k < nodes.len()
            invariant
                k <= nodes@.len(),
                ids@.len() == k,
            decreases nodes@.len() - k,
        {
            ids.push(nodes[k].id.clone());
            k += 1;
        }
        match EntityGraph::from_links(&ids, links) {
            Some(tree) => Some(SceneGraph { tree, nodes }),
            None => None,
        }
    }

    /// The tree in Graphviz dot format, each node labelled with the
    /// identifier it was added under.
    pub fn to_dot(&self) -> (text: String)
        ensures
            text@ == dot_text(self.keys(), self@.edges),
    {
        proof {
            use_type_invariant(&*self);
        }
        self.tree.to_dot()
    }
}

/// The flattened geometry of a scene: one vertex buffer, one index buffer,
/// and for each mesh the places of its primitives in the two.
pub struct FlatGeometry {
    pub vertices: Seq<Vertex>,
    pub indices: Seq<u16>,
    pub commands: Map<Seq<char>, Seq<PrimitiveDrawCommand>>,
}

/// The buffers after some primitives of one mesh were appended, and the
/// draw commands of those primitives.
pub struct MeshRun {
    pub vertices: Seq<Vertex>,
    pub indices: Seq<u16>,
    pub commands: Seq<PrimitiveDrawCommand>,
}

/// Indices cut down to their low 16 bits.
pub open spec fn narrowed(indices: Seq<u32>) -> Seq<u16> {
    indices.map_values(|i: u32| (i % 0x1_0000) as u16)
}

/// The meshes of a store, each by its view.
pub open spec fn mesh_views(meshes: Map<Seq<char>, Mesh>) -> Map<Seq<char>, MeshView<Seq<char>>> {
    meshes.map_values(|m: Mesh| m@)
}

/// The draw commands of a store, each list by its view.
pub open spec fn command_views(
    commands: Map<Seq<char>, Vec<PrimitiveDrawCommand>>,
) -> Map<Seq<char>, Seq<PrimitiveDrawCommand>> {
    commands.map_values(|c: Vec<PrimitiveDrawCommand>| c@)
}

/// Appends the first `n` of `primitives` to the buffers, one after the
/// other. Each primitive's command records where the buffers ended before
/// it and how much it added.
pub open spec fn append_primitives(
    vertices: Seq<Vertex>,
    indices: Seq<u16>,
    primitives: Seq<PrimitiveView<Seq<char>>>,
    n: nat,
) -> MeshRun
    decreases n,
{
    if n == 0 {
        MeshRun { vertices, indices, commands: Seq::empty() }
    } else {
        let before = append_primitives(vertices, indices, primitives, (n - 1) as nat);
        let p = primitives[n - 1];
        MeshRun {
            vertices: before.vertices + p.vertices,
            indices: before.indices + narrowed(p.indices),
            commands: before.commands.push(
                PrimitiveDrawCommand {
                    vertex_offset: before.vertices.len() as usize,
                    index_offset: before.indices.len() as usize,
                    vertices: p.vertices.len() as usize,
                    indices: p.indices.len() as usize,
                },
            ),
        }
    }
}

/// Appends a whole mesh and files its commands under `id`, replacing any
/// commands filed there before.
pub open spec fn add_mesh(g: FlatGeometry, id: Seq<char>, mesh: MeshView<Seq<char>>) -> FlatGeometry {
    let run = append_primitives(g.vertices, g.indices, mesh.primitives, mesh.primitives.len());
    FlatGeometry {
        vertices: run.vertices,
        indices: run.indices,
        commands: g.commands.insert(id, run.commands),
    }
}

/// Appends the mesh that a component names, if it names one and the store
/// holds it. Any other component adds nothing.
pub open spec fn add_component(
    g: FlatGeometry,
    component: ComponentView,
    meshes: Map<Seq<char>, MeshView<Seq<char>>>,
) -> FlatGeometry {
    match component {
        ComponentView::Mesh(id) => if meshes.dom().contains(id) {
            add_mesh(g, id, meshes[id])
        } else {
            g
        },
        _ => g,
    }
}

/// Appends what the first `n` of `components` name, in order.
pub open spec fn add_components(
    g: FlatGeometry,
    components: Seq<ComponentView>,
    meshes: Map<Seq<char>, MeshView<Seq<char>>>,
    n: nat,
) -> FlatGeometry
    decreases n,
{
    if n == 0 {
        g
    } else {
        add_component(
            add_components(g, components, meshes, (n - 1) as nat),
            components[n - 1],
            meshes,
        )
    }
}

/// Appends what the first `n` nodes of `order` carry, node by node. An
/// entry of `order` that names no node adds nothing.
pub open spec fn add_nodes(
    g: FlatGeometry,
    order: Seq<usize>,
    nodes: Seq<NodeView>,
    meshes: Map<Seq<char>, MeshView<Seq<char>>>,
    n: nat,
) -> FlatGeometry
    decreases n,
{
    if n == 0 {
        g
    } else {
        let before = add_nodes(g, order, nodes, meshes, (n - 1) as nat);
        let i = order[n - 1];
        if i < nodes.len() {
            add_components(before, nodes[i as int].components, meshes, nodes[i as int].components.len())
        } else {
            before
        }
    }
}

/// The geometry of the nodes named by `order`, visited in that order,
/// starting from empty buffers.
pub open spec fn flattened(
    order: Seq<usize>,
    nodes: Seq<NodeView>,
    meshes: Map<Seq<char>, MeshView<Seq<char>>>,
) -> FlatGeometry {
    add_nodes(
        FlatGeometry { vertices: Seq::empty(), indices: Seq::empty(), commands: Map::empty() },
        order,
        nodes,
        meshes,
        order.len(),
    )
}

/// The order in which a tree's nodes are visited: depth first from the
/// root, or not at all when there are no nodes.
pub open spec fn visit_order(g: SceneGraphView) -> Seq<usize> {
    if g.nodes.len() == 0 {
        Seq::empty()
    } else {
        dfs_order(g.nodes.len(), g.edges, 0)
    }
}

fn append_vertices(buffer: &mut Vec<Vertex>, vertices: &Vec<Vertex>)
    ensures
        final(buffer)@ == old(buffer)@ + vertices@,
{
    let mut j: usize = 0;
    while j < vertices.len()
        invariant
            j <= vertices@.len(),
            buffer@ == old(buffer)@ + vertices@.take(j as int),
        decreases vertices@.len() - j,
    {
        buffer.push(vertices[j]);
        j += 1;
        assert(buffer@ =~= old(buffer)@ + vertices@.take(j as int));
    }
    assert(vertices@.take(j as int) =~= vertices@);
}

fn append_indices(buffer: &mut Vec<u16>, indices: &Vec<u32>)
    ensures
        final(buffer)@ == old(buffer)@ + narrowed(indices@),
{
    let mut j: usize = 0;
    while j < indices.len()
        invariant
            j <= indices@.len(),
            buffer@ == old(buffer)@ + narrowed(indices@.take(j as int)),
        decreases indices@.len() - j,
    {
        let narrow: u16 = (indices[j] % 0x1_0000) as u16;
        buffer.push(narrow);
        j += 1;
        assert(buffer@ =~= old(buffer)@ + narrowed(indices@.take(j as int)));
    }
    assert(indices@.take(j as int) =~= indices@);
}

fn append_mesh(vertices: &mut Vec<Vertex>, indices: &mut Vec<u16>, mesh: &Mesh) -> (commands: Vec<
    PrimitiveDrawCommand,
>)
    ensures
        ({
            let run = append_primitives(
                old(vertices)@,
                old(indices)@,
                mesh@.primitives,
                mesh@.primitives.len(),
            );
            &&& final(vertices)@ == run.vertices
            &&& final(indices)@ == run.indices
            &&& commands@ == run.commands
        }),
{
    let mut commands: Vec<PrimitiveDrawCommand> = Vec::new();
    let mut n: usize = 0;
    while n < mesh.primitives.len()
        invariant
            n <= mesh.primitives@.len(),
            mesh@.primitives.len() == mesh.primitives@.len(),
            ({
                let run = append_primitives(
                    old(vertices)@,
                    old(indices)@,
                    mesh@.primitives,
                    n as nat,
                );
                &&& vertices@ == run.vertices
                &&& indices@ == run.indices
                &&& commands@ == run.commands
            }),
        decreases mesh.primitives@.len() - n,
    {
        let primitive = &mesh.primitives[n];
        assert(mesh@.primitives[n as int] == primitive@);
        let command = PrimitiveDrawCommand {
            vertex_offset: vertices.len(),
            index_offset: indices.len(),
            vertices: primitive.vertices.len(),
            indices: primitive.indices.len(),
        };
        append_vertices(vertices, &primitive.vertices);
        append_indices(indices, &primitive.indices);
        commands.push(command);
        n += 1;
    }
    commands
}

/// The maps of a scene's resources and the tree of its nodes.
#[derive(Clone, Debug)]
pub struct Scene {
    pub graph: SceneGraph,
    pub images: IdMap<Image>,
    pub samplers: IdMap<Sampler>,
    pub textures: IdMap<Texture>,
    pub materials: IdMap<Material>,
    pub meshes: IdMap<Mesh>,
    pub animations: IdMap<Animation>,
    pub skins: IdMap<Skin>,
}

impl Default for Scene {
    fn default() -> (s: Scene)
        ensures
            s.graph@.nodes.len() == 0,
            s.meshes@ == Map::<Seq<char>, Mesh>::empty(),
    {
        Scene {
            graph: SceneGraph::new(),
            images: IdMap::new(),
            samplers: IdMap::new(),
            textures: IdMap::new(),
            materials: IdMap::new(),
            meshes: IdMap::new(),
            animations: IdMap::new(),
            skins: IdMap::new(),
        }
    }
}

impl Scene {
    /// Whether a camera is attached to any node.
    pub fn has_camera(&self) -> (found: bool)
        ensures
            found == exists|i: int|
                0 <= i < self.graph@.nodes.len() && (#[trigger] self.graph@.nodes[i]).has_camera(),
    {
        let order = self.graph.walk_dfs();
        let mut k: usize = 0;
        while k < order.len()
            invariant
                k <= order@.len(),
                forall|j: int| 0 <= j < order@.len() ==> (#[trigger] order@[j]) < self.graph@.nodes.len(),
                forall|j: int| 0 <= j < k ==> !(#[trigger] self.graph@.nodes[order@[j] as int]).has_camera(),
                forall|node: usize| node < self.graph@.nodes.len() ==> order@.contains(node),
            decreases order@.len() - k,
        {
            let node = self.graph.node(order[k]);
            let mut j: usize = 0;
            while j < node.components.len()
                invariant
                    j <= node.components@.len(),
                    node@.components.len() == node.components@.len(),
                    k < order@.len(),
                    order@[k as int] < self.graph@.nodes.len(),
                    node@ == self.graph@.nodes[order@[k as int] as int],
                    forall|c: int| 0 <= c < j ==> !(#[trigger] node@.components[c] is Camera),
                decreases node.components@.len() - j,
            {
                match &node.components[j] {
                    NodeComponent::Camera(_) => {
                        assert(node@.components[j as int] is Camera);
                        assert(self.graph@.nodes[order@[k as int] as int].has_camera());
                        return true;
                    },
                    _ => {},
                }
                assert(!(node@.components[j as int] is Camera));
                j += 1;
            }
            k += 1;
        }
        assert forall|i: int| 0 <= i < self.graph@.nodes.len() implies !(
        #[trigger] self.graph@.nodes[i]).has_camera() by {
            assert(order@.contains(i as usize));
            let j = choose|j: int| 0 <= j < order@.len() && order@[j] == i as usize;
            assert(!self.graph@.nodes[order@[j] as int].has_camera());
        }
        false
    }

    /// Adds `node` directly below the root of the scene's tree and returns
    /// its index. A tree without nodes first receives a blank root.
    pub fn add_root_node(&mut self, node: Node) -> (index: usize)
        requires
            old(self).graph@.nodes.len() + 1 < u32::MAX,
        ensures
            old(self).graph@.nodes.len() == 0 ==> index == 1 && final(self).graph@.nodes == seq![
                NodeView::blank(),
                node@,
            ],
            old(self).graph@.nodes.len() > 0 ==> index == old(self).graph@.nodes.len()
                && final(self).graph@.nodes == old(self).graph@.nodes.push(node@),
            final(self).graph@.edges == old(self).graph@.edges.push((0usize, index)),
            final(self).meshes == old(self).meshes,
            final(self).images == old(self).images,
            final(self).samplers == old(self).samplers,
            final(self).textures == old(self).textures,
            final(self).materials == old(self).materials,
            final(self).animations == old(self).animations,
            final(self).skins == old(self).skins,
    {
        self.graph.add_root_node(node)
    }

    /// The nodes in the order in which every traversal of the scene visits
    /// them: depth first from the root, every node once. A scene without
    /// nodes gives an empty order.
    pub fn walk_dfs(&self) -> (order: Vec<usize>)
        ensures
            order@ == visit_order(self.graph@),
            order@.len() == self.graph@.nodes.len(),
            order@.no_duplicates(),
            forall|k: int| 0 <= k < order@.len() ==> (#[trigger] order@[k]) < self.graph@.nodes.len(),
            forall|node: usize| node < self.graph@.nodes.len() ==> order@.contains(node),
            order@.len() > 0 ==> order@[0] == 0,
            parents_first(self.graph@.edges, order@),
    {
        self.graph.walk_dfs()
    }

    fn flatten_node(
        &self,
        node: &Node,
        vertices: &mut Vec<Vertex>,
        indices: &mut Vec<u16>,
        commands: &mut IdMap<Vec<PrimitiveDrawCommand>>,
    )
        ensures
            ({
                let before = FlatGeometry {
                    vertices: old(vertices)@,
                    indices: old(indices)@,
                    commands: command_views(old(commands)@),
                };
                let after = FlatGeometry {
                    vertices: final(vertices)@,
                    indices: final(indices)@,
                    commands: command_views(final(commands)@),
                };
                after == add_components(
                    before,
                    node@.components,
                    mesh_views(self.meshes@),
                    node@.components.len(),
                )
            }),
    {
        let ghost before = FlatGeometry {
            vertices: vertices@,
            indices: indices@,
            commands: command_views(commands@),
        };
        let mut j: usize = 0;
        while j < node.components.len()
            invariant
                j <= node.components@.len(),
                node@.components.len() == node.components@.len(),
                (FlatGeometry {
                    vertices: vertices@,
                    indices: indices@,
                    commands: command_views(commands@),
                }) == add_components(before, node@.components, mesh_views(self.meshes@), j as nat),
            decreases node.components@.len() - j,
        {
            let ghost current = FlatGeometry {
                vertices: vertices@,
                indices: indices@,
                commands: command_views(commands@),
            };
            assert(node@.components[j as int] == node.components@[j as int]@);
            match &node.components[j] {
                NodeComponent::Mesh(mesh_id) => {
                    match self.meshes.get(mesh_id) {
                        Some(mesh) => {
                            let ghost filed = commands@;
                            let list = append_mesh(vertices, indices, mesh);
                            let _ = commands.insert(mesh_id.clone(), list);
                            assert(command_views(commands@) =~= command_views(filed).insert(
                                mesh_id@,
                                list@,
                            ));
                        },
                        None => {},
                    }
                },
                _ => {},
            }
            j += 1;
        }
    }

    /// Flattens the geometry of the nodes named by `order`, visited in that
    /// order. For each mesh attached to a visited node, primitive by
    /// primitive, the vertices go to the end of the vertex buffer and the
    /// indices, cut down to 16 bits, to the end of the index buffer. The
    /// commands of a mesh that is attached more than once are those of its
    /// last visit. An attachment that names no stored mesh, and an entry of
    /// `order` that names no node, add nothing.
    pub fn flatten_in_order(&self, order: &Vec<usize>) -> (flat: (
        Vec<Vertex>,
        Vec<u16>,
        IdMap<Vec<PrimitiveDrawCommand>>,
    ))
        ensures
            (FlatGeometry {
                vertices: flat.0@,
                indices: flat.1@,
                commands: command_views(flat.2@),
            }) == flattened(order@, self.graph@.nodes, mesh_views(self.meshes@)),
            commands_locate(
                flattened(order@, self.graph@.nodes, mesh_views(self.meshes@)),
                mesh_views(self.meshes@),
            ),
    {
        let mut vertices: Vec<Vertex> = Vec::new();
        let mut indices: Vec<u16> = Vec::new();
        let mut commands: IdMap<Vec<PrimitiveDrawCommand>> = IdMap::new();
        let ghost start = FlatGeometry {
            vertices: Seq::empty(),
            indices: Seq::empty(),
            commands: Map::empty(),
        };
        assert(command_views(commands@) =~= Map::empty());
        let count = self.graph.node_count();
        let mut k: usize = 0;
        while k < order.len()
            invariant
                count == self.graph@.nodes.len(),
                k <= order@.len(),
                (FlatGeometry {
                    vertices: vertices@,
                    indices: indices@,
                    commands: command_views(commands@),
                }) == add_nodes(start, order@, self.graph@.nodes, mesh_views(self.meshes@), k as nat),
            decreases order@.len() - k,
        {
            let i = order[k];
            if i < count {
                self.flatten_node(self.graph.node(i), &mut vertices, &mut indices, &mut commands);
            }
            k += 1;
        }
        proof {
            let flat = flattened(order@, self.graph@.nodes, mesh_views(self.meshes@));
            assert(flat.vertices == vertices@ && flat.indices == indices@);
            assert(vertices@.len() == vertices.len() && indices@.len() == indices.len());
            lemma_flattened_commands_locate(
                order@,
                self.graph@.nodes,
                mesh_views(self.meshes@),
            );
        }
        (vertices, indices, commands)
    }

    /// Flattens the geometry of the whole scene in one depth-first walk from
    /// the root: `flatten_in_order` on the order that `walk_dfs` returns.
    pub fn flatten_geometry(&self) -> (flat: (
        Vec<Vertex>,
        Vec<u16>,
        IdMap<Vec<PrimitiveDrawCommand>>,
    ))
        ensures
            (FlatGeometry {
                vertices: flat.0@,
                indices: flat.1@,
                commands: command_views(flat.2@),
            }) == flattened(
                visit_order(self.graph@),
                self.graph@.nodes,
                mesh_views(self.meshes@),
            ),
            commands_locate(
                flattened(visit_order(self.graph@), self.graph@.nodes, mesh_views(self.meshes@)),
                mesh_views(self.meshes@),
            ),
    {
        let order = self.walk_dfs();
        self.flatten_in_order(&order)
    }
}

/// The camera that a scene gets when it brings none: a node labelled
/// `Main Camera`, four units along the z axis, with an unbounded
/// perspective of 90 degrees and the given aspect ratio, orbiting the
/// origin at radius 5 with a pitch of 45 degrees.
pub open spec fn main_camera(aspect_ratio: Scalar) -> Camera {
    Camera {
        projection: Projection::Perspective(
            PerspectiveCamera {
                aspect_ratio: Some(aspect_ratio),
                y_fov_rad: Scalar { bits: 0x3FC9_0FDB },
                z_far: None,
                z_near: Scalar { bits: 0x3C23_D70A },
            },
        ),
        orientation: Orientation {
            min_radius: Scalar::spec_one(),
            max_radius: Scalar { bits: 0x42C8_0000 },
            radius: Scalar { bits: 0x40A0_0000 },
            offset: Vec3::spec_splat(Scalar::spec_zero()),
            sensitivity: Vec2::spec_splat(Scalar::spec_one()),
            direction: Vec2 { x: Scalar::spec_zero(), y: Scalar { bits: 0x3F49_0FDB } },
        },
    }
}

/// A node that carries `main_camera(aspect_ratio)` under a fresh
/// identifier.
pub fn create_camera_node(aspect_ratio: Scalar) -> (node: Node)
    ensures
        node@.id.len() == 36,
        node@.label == "Main Camera"@,
        node@.transform == (Transform {
            translation: Vec3 {
                x: Scalar::spec_zero(),
                y: Scalar::spec_zero(),
                z: Scalar { bits: 0x4080_0000 },
            },
            ..Transform::spec_identity()
        }),
        node@.components == seq![ComponentView::Camera(main_camera(aspect_ratio))],
{
    let camera = Camera {
        projection: Projection::Perspective(
            PerspectiveCamera {
                aspect_ratio: Some(aspect_ratio),
                y_fov_rad: Scalar { bits: 0x3FC9_0FDB },
                z_far: None,
                z_near: Scalar { bits: 0x3C23_D70A },
            },
        ),
        orientation: Orientation {
            min_radius: Scalar::one(),
            max_radius: Scalar { bits: 0x42C8_0000 },
            radius: Scalar { bits: 0x40A0_0000 },
            offset: Vec3::splat(Scalar::zero()),
            sensitivity: Vec2::splat(Scalar::one()),
            direction: Vec2 { x: Scalar::zero(), y: Scalar { bits: 0x3F49_0FDB } },
        },
    };
    let mut components: Vec<NodeComponent> = Vec::new();
    components.push(NodeComponent::Camera(camera));
    let node = Node {
        id: fresh_id(),
        label: "Main Camera".to_owned(),
        transform: Transform {
            translation: Vec3 { x: Scalar::zero(), y: Scalar::zero(), z: Scalar { bits: 0x4080_0000 } },
            rotation: Quat::identity(),
            scale: Vec3::splat(Scalar::one()),
        },
        components,
    };
    assert(node@.components =~= seq![ComponentView::Camera(main_camera(aspect_ratio))]);
    node
}

/// Whether command `c` marks, in the two buffers, exactly the vertices of
/// primitive `p` and its indices cut down to 16 bits.
pub open spec fn locates(
    vertices: Seq<Vertex>,
    indices: Seq<u16>,
    c: PrimitiveDrawCommand,
    p: PrimitiveView<Seq<char>>,
) -> bool {
    &&& c.vertex_offset + c.vertices <= vertices.len()
    &&& c.index_offset + c.indices <= indices.len()
    &&& vertices.subrange(c.vertex_offset as int, c.vertex_offset + c.vertices) == p.vertices
    &&& indices.subrange(c.index_offset as int, c.index_offset + c.indices) == narrowed(p.indices)
}

/// Whether there is one command for each primitive, in order, and each
/// locates its primitive.
pub open spec fn all_locate(
    vertices: Seq<Vertex>,
    indices: Seq<u16>,
    commands: Seq<PrimitiveDrawCommand>,
    primitives: Seq<PrimitiveView<Seq<char>>>,
) -> bool {
    &&& commands.len() == primitives.len()
    &&& forall|k: int|
        0 <= k < commands.len() ==> locates(
            vertices,
            indices,
            #[trigger] commands[k],
            primitives[k],
        )
}

/// Whether the commands filed under each mesh identifier locate the
/// primitives of the stored mesh of that identifier.
pub open spec fn commands_locate(
    g: FlatGeometry,
    meshes: Map<Seq<char>, MeshView<Seq<char>>>,
) -> bool {
    forall|id: Seq<char>| #[trigger]
        g.commands.dom().contains(id) ==> meshes.dom().contains(id) && all_locate(
            g.vertices,
            g.indices,
            g.commands[id],
            meshes[id].primitives,
        )
}

/// Whether both buffers are short enough for their lengths to be written
/// into a command.
pub open spec fn fits(vertices: Seq<Vertex>, indices: Seq<u16>) -> bool {
    vertices.len() <= usize::MAX && indices.len() <= usize::MAX
}

proof fn lemma_locates_in_longer(
    vertices: Seq<Vertex>,
    indices: Seq<u16>,
    more_vertices: Seq<Vertex>,
    more_indices: Seq<u16>,
    c: PrimitiveDrawCommand,
    p: PrimitiveView<Seq<char>>,
)
    requires
        locates(vertices, indices, c, p),
        vertices.is_prefix_of(more_vertices),
        indices.is_prefix_of(more_indices),
    ensures
        locates(more_vertices, more_indices, c, p),
{
    assert(more_vertices.subrange(c.vertex_offset as int, c.vertex_offset + c.vertices)
        =~= vertices.subrange(c.vertex_offset as int, c.vertex_offset + c.vertices));
    assert(more_indices.subrange(c.index_offset as int, c.index_offset + c.indices)
        =~= indices.subrange(c.index_offset as int, c.index_offset + c.indices));
}

proof fn lemma_append_primitives_grows(
    vertices: Seq<Vertex>,
    indices: Seq<u16>,
    primitives: Seq<PrimitiveView<Seq<char>>>,
    n: nat,
)
    ensures
        vertices.is_prefix_of(append_primitives(vertices, indices, primitives, n).vertices),
        indices.is_prefix_of(append_primitives(vertices, indices, primitives, n).indices),
        append_primitives(vertices, indices, primitives, n).commands.len() == n,
    decreases n,
{
    if n > 0 {
        lemma_append_primitives_grows(vertices, indices, primitives, (n - 1) as nat);
    }
}

proof fn lemma_append_primitives_locates(
    vertices: Seq<Vertex>,
    indices: Seq<u16>,
    primitives: Seq<PrimitiveView<Seq<char>>>,
    n: nat,
)
    requires
        n <= primitives.len(),
        fits(
            append_primitives(vertices, indices, primitives, n).vertices,
            append_primitives(vertices, indices, primitives, n).indices,
        ),
    ensures
        all_locate(
            append_primitives(vertices, indices, primitives, n).vertices,
            append_primitives(vertices, indices, primitives, n).indices,
            append_primitives(vertices, indices, primitives, n).commands,
            primitives.take(n as int),
        ),
    decreases n,
{
    let run = append_primitives(vertices, indices, primitives, n);
    if n > 0 {
        let before = append_primitives(vertices, indices, primitives, (n - 1) as nat);
        let p = primitives[n - 1];
        lemma_append_primitives_grows(vertices, indices, primitives, (n - 1) as nat);
        lemma_append_primitives_locates(vertices, indices, primitives, (n - 1) as nat);
        assert forall|k: int| 0 <= k < run.commands.len() implies locates(
            run.vertices,
            run.indices,
            #[trigger] run.commands[k],
            primitives.take(n as int)[k],
        ) by {
            if k < n - 1 {
                assert(run.commands[k] == before.commands[k]);
                assert(primitives.take(n - 1)[k] == primitives.take(n as int)[k]);
                lemma_locates_in_longer(
                    before.vertices,
                    before.indices,
                    run.vertices,
                    run.indices,
                    before.commands[k],
                    primitives.take(n - 1)[k],
                );
            } else {
                let c = run.commands[k];
                assert(run.vertices.subrange(c.vertex_offset as int, c.vertex_offset + c.vertices)
                    =~= p.vertices);
                assert(run.indices.subrange(c.index_offset as int, c.index_offset + c.indices)
                    =~= narrowed(p.indices));
            }
        }
    }
}

proof fn lemma_add_component_grows(
    g: FlatGeometry,
    component: ComponentView,
    meshes: Map<Seq<char>, MeshView<Seq<char>>>,
)
    ensures
        g.vertices.is_prefix_of(add_component(g, component, meshes).vertices),
        g.indices.is_prefix_of(add_component(g, component, meshes).indices),
{
    if let ComponentView::Mesh(id) = component {
        if meshes.dom().contains(id) {
            lemma_append_primitives_grows(
                g.vertices,
                g.indices,
                meshes[id].primitives,
                meshes[id].primitives.len(),
            );
        }
    }
}

proof fn lemma_add_component_locates(
    g: FlatGeometry,
    component: ComponentView,
    meshes: Map<Seq<char>, MeshView<Seq<char>>>,
)
    requires
        commands_locate(g, meshes),
        fits(add_component(g, component, meshes).vertices, add_component(g, component, meshes).indices),
    ensures
        commands_locate(add_component(g, component, meshes), meshes),
{
    let after = add_component(g, component, meshes);
    lemma_add_component_grows(g, component, meshes);
    if let ComponentView::Mesh(mesh_id) = component {
        if meshes.dom().contains(mesh_id) {
            let primitives = meshes[mesh_id].primitives;
            lemma_append_primitives_locates(g.vertices, g.indices, primitives, primitives.len());
            assert(primitives.take(primitives.len() as int) =~= primitives);
        }
    }
    assert forall|id: Seq<char>| #[trigger] after.commands.dom().contains(id) implies meshes.dom().contains(
        id,
    ) && all_locate(after.vertices, after.indices, after.commands[id], meshes[id].primitives) by {
        if g.commands.dom().contains(id) && after.commands[id] == g.commands[id] {
            assert(all_locate(g.vertices, g.indices, g.commands[id], meshes[id].primitives));
            assert forall|k: int| 0 <= k < g.commands[id].len() implies locates(
                after.vertices,
                after.indices,
                #[trigger] g.commands[id][k],
                meshes[id].primitives[k],
            ) by {
                lemma_locates_in_longer(
                    g.vertices,
                    g.indices,
                    after.vertices,
                    after.indices,
                    g.commands[id][k],
                    meshes[id].primitives[k],
                );
            }
        }
    }
}

proof fn lemma_add_components_grows(
    g: FlatGeometry,
    components: Seq<ComponentView>,
    meshes: Map<Seq<char>, MeshView<Seq<char>>>,
    n: nat,
)
    ensures
        g.vertices.is_prefix_of(add_components(g, components, meshes, n).vertices),
        g.indices.is_prefix_of(add_components(g, components, meshes, n).indices),
    decreases n,
{
    if n > 0 {
        let before = add_components(g, components, meshes, (n - 1) as nat);
        lemma_add_components_grows(g, components, meshes, (n - 1) as nat);
        lemma_add_component_grows(before, components[n - 1], meshes);
    }
}

proof fn lemma_add_components_locates(
    g: FlatGeometry,
    components: Seq<ComponentView>,
    meshes: Map<Seq<char>, MeshView<Seq<char>>>,
    n: nat,
)
    requires
        commands_locate(g, meshes),
        fits(
            add_components(g, components, meshes, n).vertices,
            add_components(g, components, meshes, n).indices,
        ),
    ensures
        commands_locate(add_components(g, components, meshes, n), meshes),
    decreases n,
{
    if n > 0 {
        let before = add_components(g, components, meshes, (n - 1) as nat);
        lemma_add_component_grows(before, components[n - 1], meshes);
        lemma_add_components_locates(g, components, meshes, (n - 1) as nat);
        lemma_add_component_locates(before, components[n - 1], meshes);
    }
}

proof fn lemma_add_nodes_locates(
    g: FlatGeometry,
    order: Seq<usize>,
    nodes: Seq<NodeView>,
    meshes: Map<Seq<char>, MeshView<Seq<char>>>,
    n: nat,
)
    requires
        commands_locate(g, meshes),
        fits(
            add_nodes(g, order, nodes, meshes, n).vertices,
            add_nodes(g, order, nodes, meshes, n).indices,
        ),
    ensures
        commands_locate(add_nodes(g, order, nodes, meshes, n), meshes),
    decreases n,
{
    if n > 0 {
        let before = add_nodes(g, order, nodes, meshes, (n - 1) as nat);
        let i = order[n - 1];
        if i < nodes.len() {
            let components = nodes[i as int].components;
            lemma_add_components_grows(before, components, meshes, components.len());
        }
        lemma_add_nodes_locates(g, order, nodes, meshes, (n - 1) as nat);
        if i < nodes.len() {
            let components = nodes[i as int].components;
            lemma_add_components_locates(before, components, meshes, components.len());
        }
    }
}

/// Offsets are right: in flattened geometry whose buffers fit their
/// lengths into a machine word, the commands filed under a mesh are one
/// per primitive of that mesh, and each marks in the vertex buffer exactly
/// the primitive's vertices and in the index buffer exactly its indices cut
/// down to 16 bits.
pub proof fn lemma_flattened_commands_locate(
    order: Seq<usize>,
    nodes: Seq<NodeView>,
    meshes: Map<Seq<char>, MeshView<Seq<char>>>,
)
    requires
        fits(flattened(order, nodes, meshes).vertices, flattened(order, nodes, meshes).indices),
    ensures
        commands_locate(flattened(order, nodes, meshes), meshes),
{
    let start = FlatGeometry { vertices: Seq::empty(), indices: Seq::empty(), commands: Map::empty() };
    lemma_add_nodes_locates(start, order, nodes, meshes, order.len());
}

} // verus!
