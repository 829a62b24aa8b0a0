use serenity::resource::{
    Camera, Mesh, Orientation, OrthographicCamera, PerspectiveCamera, Primitive,
    PrimitiveDrawCommand, PrimitiveMode, Projection, Transform, Vertex,
};
use serenity::scalar::{Quat, Scalar, Vec2, Vec3};
use serenity::scene::{create_camera_node, Node, NodeComponent, Scene, SceneGraph};

fn s(x: f32) -> Scalar {
    Scalar::from_bits(x.to_bits())
}

fn v3(x: f32, y: f32, z: f32) -> Vec3 {
    Vec3 { x: s(x), y: s(y), z: s(z) }
}

fn named(id: &str) -> Node {
    Node { id: id.to_string(), label: id.to_string(), ..Node::default() }
}

fn with_mesh(id: &str, mesh: &str) -> Node {
    Node { components: vec![NodeComponent::Mesh(mesh.to_string())], ..named(id) }
}

fn mesh_of(sizes: &[(usize, usize)], seed: f32) -> Mesh {
    let primitives = sizes
        .iter()
        .enumerate()
        .map(|(p, &(vertices, indices))| Primitive {
            mode: PrimitiveMode::Triangles,
            material: "default".to_string(),
            vertices: (0..vertices)
                .map(|i| Vertex::at(v3(seed, p as f32, i as f32)))
                .collect(),
            indices: (0..indices).map(|i| (i % vertices.max(1)) as u32).collect(),
        })
        .collect();
    Mesh { primitives }
}

fn matrix(t: &Transform) -> nalgebra_glm::Mat4 {
    let f = |x: Scalar| f32::from_bits(x.bits);
    nalgebra_glm::translation(&nalgebra_glm::vec3(
        f(t.translation.x),
        f(t.translation.y),
        f(t.translation.z),
    )) * nalgebra_glm::quat_to_mat4(&nalgebra_glm::quat(
        f(t.rotation.x),
        f(t.rotation.y),
        f(t.rotation.z),
        f(t.rotation.w),
    )) * nalgebra_glm::scaling(&nalgebra_glm::vec3(f(t.scale.x), f(t.scale.y), f(t.scale.z)))
}

fn rotation(angle: f32, axis: (f32, f32, f32)) -> Quat {
    let q = nalgebra_glm::quat_angle_axis(angle, &nalgebra_glm::vec3(axis.0, axis.1, axis.2));
    Quat { x: s(q.coords.x), y: s(q.coords.y), z: s(q.coords.z), w: s(q.coords.w) }
}

#[test]
fn default_node_is_blank() {
    let node = Node::default();
    assert_eq!(node.id, "");
    assert_eq!(node.label, "");
    assert_eq!(node.transform, Transform::default());
    assert!(node.components.is_empty());
}

#[test]
fn default_transform_is_the_identity() {
    let t = Transform::default();
    assert_eq!(t.translation, v3(0.0, 0.0, 0.0));
    assert_eq!(t.rotation, Quat::identity());
    assert_eq!(t.scale, v3(1.0, 1.0, 1.0));
    assert_eq!(matrix(&t), nalgebra_glm::Mat4::identity());
}

#[test]
fn walk_dfs_of_an_empty_scene_visits_nothing() {
    let scene = Scene::default();
    assert_eq!(scene.graph.node_count(), 0);
    assert!(scene.walk_dfs().is_empty());
    assert!(scene.graph.walk_dfs().is_empty());
}

#[test]
fn flatten_of_an_empty_scene_is_empty() {
    let scene = Scene::default();
    let (vertices, indices, commands) = scene.flatten_geometry();
    assert!(vertices.is_empty());
    assert!(indices.is_empty());
    assert!(commands.is_empty());
    assert!(!scene.has_camera());
}

#[test]
fn add_root_node_creates_the_root_of_an_empty_scene() {
    let mut scene = Scene::default();
    let index = scene.add_root_node(named("a"));
    assert_eq!(index, 1);
    assert_eq!(scene.graph.node_count(), 2);
    assert_eq!(*scene.graph.node(0), Node::default());
    assert_eq!(scene.graph.node(1).id, "a");
    assert_eq!(scene.graph.parent(1), Some(0));
    assert_eq!(scene.graph.parent(0), None);
}

#[test]
fn add_root_node_appends_below_the_root() {
    let mut scene = Scene::default();
    let a = scene.add_root_node(named("a"));
    let b = scene.add_root_node(named("b"));
    let c = scene.add_root_node(named("c"));
    assert_eq!((a, b, c), (1, 2, 3));
    assert_eq!(scene.graph.parent(b), Some(0));
    assert_eq!(scene.graph.parent(c), Some(0));
    assert_eq!(scene.walk_dfs(), vec![0, 1, 2, 3]);
}

#[test]
fn walk_dfs_goes_deep_before_wide() {
    let mut graph = SceneGraph::with_root(named("root"));
    let a = graph.add_child(0, named("a"));
    let b = graph.add_child(0, named("b"));
    let a1 = graph.add_child(a, named("a1"));
    let a2 = graph.add_child(a, named("a2"));
    let b1 = graph.add_child(b, named("b1"));
    assert_eq!(graph.walk_dfs(), vec![0, a, a1, a2, b, b1]);
    assert_eq!(graph.node_count(), 6);
}

#[test]
fn node_mut_changes_a_node_in_place() {
    let mut graph = SceneGraph::with_root(named("root"));
    let a = graph.add_child(0, named("a"));
    graph.node_mut(a).transform.translation = v3(1.0, 2.0, 3.0);
    graph.node_mut(a).label = "renamed".to_string();
    assert_eq!(graph.node(a).transform.translation, v3(1.0, 2.0, 3.0));
    assert_eq!(graph.node(a).label, "renamed");
    assert_eq!(graph.node(0).label, "root");
    assert_eq!(graph.parent(a), Some(0));
}

#[test]
fn global_transform_of_a_chain_is_the_product_of_the_locals() {
    let ta = Transform {
        translation: v3(1.0, 2.0, 3.0),
        rotation: rotation(0.7, (0.0, 1.0, 0.0)),
        scale: v3(2.0, 2.0, 2.0),
    };
    let tb = Transform {
        translation: v3(-4.0, 0.5, 0.0),
        rotation: rotation(-1.1, (1.0, 0.0, 0.0)),
        scale: v3(1.0, 3.0, 0.5),
    };
    let mut graph = SceneGraph::with_root(Node::default());
    let a = graph.add_child(0, Node { transform: ta, ..named("a") });
    let b = graph.add_child(a, Node { transform: tb, ..named("b") });
    assert_eq!(graph.path_from_root(b), vec![0, a, b]);
    let chain = graph.transform_chain(b);
    assert_eq!(chain, vec![Transform::default(), ta, tb]);
    let global = chain
        .iter()
        .fold(nalgebra_glm::Mat4::identity(), |acc, t| acc * matrix(t));
    let expected = matrix(&ta) * matrix(&tb);
    for r in 0..4 {
        for c in 0..4 {
            assert!((global[(r, c)] - expected[(r, c)]).abs() < 1e-5);
        }
    }
}

#[test]
fn transform_chain_of_the_root_is_its_own_transform() {
    let root = Node { transform: Transform { translation: v3(5.0, 0.0, 0.0), ..Transform::default() }, ..named("root") };
    let graph = SceneGraph::with_root(root);
    assert_eq!(graph.transform_chain(0), vec![graph.node(0).transform]);
}

#[test]
fn has_camera_finds_a_camera_anywhere_in_the_tree() {
    let mut scene = Scene::default();
    let a = scene.add_root_node(with_mesh("a", "m"));
    assert!(!scene.has_camera());
    let camera = Camera {
        projection: Projection::Orthographic(OrthographicCamera {
            x_mag: s(1.0),
            y_mag: s(1.0),
            z_far: s(10.0),
            z_near: s(0.1),
        }),
        orientation: Orientation::default(),
    };
    let deep = Node {
        components: vec![NodeComponent::Mesh("m".to_string()), NodeComponent::Camera(camera)],
        ..named("deep")
    };
    scene.graph.add_child(a, deep);
    assert!(scene.has_camera());
}

#[test]
fn flatten_offsets_follow_the_order_of_the_walk() {
    let mut scene = Scene::default();
    let m1 = mesh_of(&[(3, 3)], 1.0);
    let m2 = mesh_of(&[(4, 6)], 2.0);
    scene.meshes.insert("M1".to_string(), m1.clone());
    scene.meshes.insert("M2".to_string(), m2.clone());
    scene.add_root_node(with_mesh("first", "M1"));
    scene.add_root_node(with_mesh("second", "M2"));
    let (vertices, indices, commands) = scene.flatten_geometry();
    assert_eq!(vertices.len(), 7);
    assert_eq!(indices.len(), 9);
    assert_eq!(commands.len(), 2);
    assert_eq!(
        commands.get(&"M1".to_string()),
        Some(&vec![PrimitiveDrawCommand { vertex_offset: 0, index_offset: 0, vertices: 3, indices: 3 }])
    );
    assert_eq!(
        commands.get(&"M2".to_string()),
        Some(&vec![PrimitiveDrawCommand { vertex_offset: 3, index_offset: 3, vertices: 4, indices: 6 }])
    );
    assert_eq!(&vertices[0..3], &m1.primitives[0].vertices[..]);
    assert_eq!(&vertices[3..7], &m2.primitives[0].vertices[..]);
    assert_eq!(indices, vec![0, 1, 2, 0, 1, 2, 3, 0, 1]);
}

#[test]
fn flatten_lists_one_command_per_primitive() {
    let mut scene = Scene::default();
    scene.meshes.insert("M".to_string(), mesh_of(&[(2, 3), (5, 1), (0, 0)], 1.0));
    scene.add_root_node(with_mesh("n", "M"));
    let (vertices, indices, commands) = scene.flatten_geometry();
    assert_eq!(vertices.len(), 7);
    assert_eq!(indices.len(), 4);
    assert_eq!(
        commands.get(&"M".to_string()),
        Some(&vec![
            PrimitiveDrawCommand { vertex_offset: 0, index_offset: 0, vertices: 2, indices: 3 },
            PrimitiveDrawCommand { vertex_offset: 2, index_offset: 3, vertices: 5, indices: 1 },
            PrimitiveDrawCommand { vertex_offset: 7, index_offset: 4, vertices: 0, indices: 0 },
        ])
    );
}

#[test]
fn flatten_keeps_the_commands_of_the_last_visit_of_a_shared_mesh() {
    let mut scene = Scene::default();
    scene.meshes.insert("M".to_string(), mesh_of(&[(3, 3)], 1.0));
    scene.add_root_node(with_mesh("first", "M"));
    scene.add_root_node(with_mesh("second", "M"));
    let (vertices, indices, commands) = scene.flatten_geometry();
    assert_eq!(vertices.len(), 6);
    assert_eq!(indices.len(), 6);
    assert_eq!(commands.len(), 1);
    assert_eq!(
        commands.get(&"M".to_string()),
        Some(&vec![PrimitiveDrawCommand { vertex_offset: 3, index_offset: 3, vertices: 3, indices: 3 }])
    );
}

#[test]
fn flatten_cuts_indices_down_to_sixteen_bits() {
    let mut scene = Scene::default();
    let mut mesh = mesh_of(&[(1, 0)], 1.0);
    mesh.primitives[0].indices = vec![0, 65535, 65536, 65541, u32::MAX];
    scene.meshes.insert("M".to_string(), mesh);
    scene.add_root_node(with_mesh("n", "M"));
    let (_, indices, _) = scene.flatten_geometry();
    assert_eq!(indices, vec![0, 65535, 0, 5, 65535]);
}

#[test]
fn flatten_passes_over_a_mesh_that_is_not_stored() {
    let mut scene = Scene::default();
    scene.meshes.insert("M".to_string(), mesh_of(&[(3, 3)], 1.0));
    scene.add_root_node(with_mesh("ghost", "missing"));
    scene.add_root_node(with_mesh("real", "M"));
    let (vertices, indices, commands) = scene.flatten_geometry();
    assert_eq!(vertices.len(), 3);
    assert_eq!(indices.len(), 3);
    assert_eq!(commands.len(), 1);
    assert!(commands.get(&"missing".to_string()).is_none());
}

#[test]
fn flatten_visits_children_between_siblings() {
    let mut scene = Scene::default();
    scene.meshes.insert("A".to_string(), mesh_of(&[(1, 1)], 1.0));
    scene.meshes.insert("B".to_string(), mesh_of(&[(2, 2)], 2.0));
    scene.meshes.insert("C".to_string(), mesh_of(&[(3, 3)], 3.0));
    let a = scene.add_root_node(with_mesh("a", "A"));
    scene.add_root_node(with_mesh("b", "B"));
    scene.graph.add_child(a, with_mesh("c", "C"));
    let (_, _, commands) = scene.flatten_geometry();
    assert_eq!(commands.get(&"A".to_string()).unwrap()[0].vertex_offset, 0);
    assert_eq!(commands.get(&"C".to_string()).unwrap()[0].vertex_offset, 1);
    assert_eq!(commands.get(&"B".to_string()).unwrap()[0].vertex_offset, 4);
}

#[test]
fn flatten_in_order_follows_the_order_it_is_given() {
    let mut scene = Scene::default();
    scene.meshes.insert("A".to_string(), mesh_of(&[(1, 1)], 1.0));
    scene.meshes.insert("B".to_string(), mesh_of(&[(2, 2)], 2.0));
    let a = scene.add_root_node(with_mesh("a", "A"));
    let b = scene.add_root_node(with_mesh("b", "B"));
    let (vertices, _, commands) = scene.flatten_in_order(&vec![b, 99, a]);
    assert_eq!(vertices.len(), 3);
    assert_eq!(commands.get(&"B".to_string()).unwrap()[0].vertex_offset, 0);
    assert_eq!(commands.get(&"A".to_string()).unwrap()[0].vertex_offset, 2);
    let (vertices, indices, commands) = scene.flatten_in_order(&vec![]);
    assert!(vertices.is_empty() && indices.is_empty() && commands.is_empty());
}

#[test]
fn create_camera_node_places_the_main_camera() {
    let node = create_camera_node(s(1.5));
    assert_eq!(node.id.len(), 36);
    assert_eq!(node.label, "Main Camera");
    assert_eq!(node.transform.translation, v3(0.0, 0.0, 4.0));
    assert_eq!(node.transform.rotation, Quat::identity());
    assert_eq!(node.transform.scale, v3(1.0, 1.0, 1.0));
    assert_eq!(
        node.components,
        vec![NodeComponent::Camera(Camera {
            projection: Projection::Perspective(PerspectiveCamera {
                aspect_ratio: Some(s(1.5)),
                y_fov_rad: s(90_f32.to_radians()),
                z_far: None,
                z_near: s(0.01),
            }),
            orientation: Orientation {
                min_radius: s(1.0),
                max_radius: s(100.0),
                radius: s(5.0),
                offset: v3(0.0, 0.0, 0.0),
                sensitivity: Vec2 { x: s(1.0), y: s(1.0) },
                direction: Vec2 { x: s(0_f32.to_radians()), y: s(45_f32.to_radians()) },
            },
        })]
    );
}

#[test]
fn create_camera_node_draws_a_new_identifier_each_time() {
    assert_ne!(create_camera_node(s(1.0)).id, create_camera_node(s(1.0)).id);
}

#[test]
fn scene_graph_to_dot_names_the_identifiers() {
    let mut graph = SceneGraph::with_root(named("root"));
    graph.add_child(0, named("child"));
    let text = graph.to_dot();
    assert!(text.contains("root") && text.contains("child") && text.contains("0 -> 1"));
}

#[test]
fn set_radius_keeps_the_radius_within_its_bounds() {
    let mut o = Orientation { min_radius: s(1.0), max_radius: s(100.0), radius: s(5.0), ..Orientation::default() };
    o.set_radius(s(5.0 - 2.0));
    assert_eq!(o.radius, s(3.0));
    o.set_radius(s(3.0 - 10.0));
    assert_eq!(o.radius, s(1.0));
    o.set_radius(s(1.0 + 1000.0));
    assert_eq!(o.radius, s(100.0));
    assert_eq!(o.min_radius, s(1.0));
    assert_eq!(o.max_radius, s(100.0));
}

#[test]
fn set_direction_keeps_the_pitch_off_the_poles() {
    let mut o = Orientation::default();
    o.set_direction(s(0.3), s(0.0));
    assert_eq!(o.direction, Vec2 { x: s(0.3), y: s(10.0_f32.to_radians()) });
    o.set_direction(s(-7.0), s(4.0));
    assert_eq!(o.direction, Vec2 { x: s(-7.0), y: s(170.0_f32.to_radians()) });
    o.set_direction(s(1.0), s(1.0));
    assert_eq!(o.direction, Vec2 { x: s(1.0), y: s(1.0) });
    assert_eq!(Orientation::min_pitch(), s(10.0_f32.to_radians()));
    assert_eq!(Orientation::max_pitch(), s(170.0_f32.to_radians()));
}

#[test]
fn a_scene_graph_survives_being_taken_apart_and_rebuilt() {
    let mut graph = SceneGraph::with_root(named("root"));
    let a = graph.add_child(0, with_mesh("a", "M"));
    graph.add_child(a, named("b"));
    let nodes: Vec<Node> = (0..graph.node_count()).map(|i| graph.node(i).clone()).collect();
    let links = graph.links();
    assert_eq!(links, vec![None, Some(0), Some(1)]);
    let rebuilt = SceneGraph::from_links(nodes.clone(), &links).expect("links of a tree");
    assert_eq!(rebuilt.node_count(), 3);
    for (i, node) in nodes.iter().enumerate() {
        assert_eq!(rebuilt.node(i), node);
        assert_eq!(rebuilt.parent(i), graph.parent(i));
    }
    assert!(SceneGraph::from_links(nodes, &vec![None, Some(0)]).is_none());
}

#[test]
fn a_clone_of_a_scene_graph_is_the_same_tree() {
    let mut graph = SceneGraph::with_root(named("root"));
    let a = graph.add_child(0, with_mesh("a", "M"));
    graph.add_child(a, named("b"));
    let mut copy = graph.clone();
    assert_eq!(copy.node_count(), 3);
    assert_eq!(copy.links(), graph.links());
    for i in 0..3 {
        assert_eq!(copy.node(i), graph.node(i));
    }
    copy.node_mut(a).label = "changed".to_string();
    assert_eq!(graph.node(a).label, "a");
}
