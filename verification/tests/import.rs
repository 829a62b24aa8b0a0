use serenity::gltf::{
    import_gltf_resources, import_with_ids, AnimationSource, Asset, ChannelSource, IdTable,
    ImageSource, ImportError, MagFilter, MaterialSource, MeshSource, MinFilter, NodeSource,
    PixelFormat, PrimitiveSource, SceneSource, SkinSource, TextureSource,
};
use serenity::resource::{
    Camera, Filter, Image, ImageFormat, Interpolation, Light, LightKind, Orientation,
    OrthographicCamera, PrimitiveMode, Projection, Resource, Sampler, Scene, Transform,
    TransformationSet, Vertex, WrappingMode,
};
use serenity::scalar::{Mat4, Scalar, Vec2, Vec3, Vec4};

fn s(x: f32) -> Scalar {
    Scalar::from_bits(x.to_bits())
}

fn v2(x: f32, y: f32) -> Vec2 {
    Vec2 { x: s(x), y: s(y) }
}

fn v3(x: f32, y: f32, z: f32) -> Vec3 {
    Vec3 { x: s(x), y: s(y), z: s(z) }
}

fn v4(x: f32, y: f32, z: f32, w: f32) -> Vec4 {
    Vec4 { x: s(x), y: s(y), z: s(z), w: s(w) }
}

fn times(values: &[f32]) -> Vec<Scalar> {
    values.iter().map(|&x| s(x)).collect()
}

fn triangle() -> PrimitiveSource {
    PrimitiveSource {
        mode: PrimitiveMode::Triangles,
        material: None,
        positions: Some(vec![v3(0.0, 0.0, 0.0), v3(1.0, 0.0, 0.0), v3(0.0, 1.0, 0.0)]),
        normals: None,
        uv_0: None,
        uv_1: None,
        joints_0: None,
        weights_0: None,
        colors_0: None,
        indices: None,
    }
}

fn plain_node() -> NodeSource {
    NodeSource { transform: Transform::default(), mesh: None, camera: None, light: None, children: vec![] }
}

fn parent_of(children: &[usize]) -> NodeSource {
    NodeSource { children: children.to_vec(), ..plain_node() }
}

fn channel(target: usize, inputs: &[f32]) -> ChannelSource {
    ChannelSource {
        target,
        inputs: times(inputs),
        outputs: TransformationSet::Translations(inputs.iter().map(|&t| v3(t, 0.0, 0.0)).collect()),
    }
}

fn numbered(prefix: &str, count: usize) -> Vec<String> {
    (0..count).map(|i| format!("{prefix}{i}")).collect()
}

fn table(prefix: &str, asset: &Asset) -> IdTable {
    IdTable {
        samplers: numbered(&format!("{prefix}sampler"), asset.samplers.len()),
        images: numbered(&format!("{prefix}image"), asset.images.len()),
        textures: numbered(&format!("{prefix}texture"), asset.textures.len()),
        materials: numbered(&format!("{prefix}material"), asset.materials.len()),
        cameras: numbered(&format!("{prefix}camera"), asset.cameras.len()),
        meshes: numbered(&format!("{prefix}mesh"), asset.meshes.len()),
        lights: numbered(&format!("{prefix}light"), asset.lights.len()),
        nodes: numbered(&format!("{prefix}node"), asset.nodes.len()),
        skins: numbered(&format!("{prefix}skin"), asset.skins.len()),
        animations: numbered(&format!("{prefix}animation"), asset.animations.len()),
        scenes: numbered(&format!("{prefix}scene"), asset.scenes.len()),
    }
}

fn import(asset: &Asset) -> Scene {
    import_with_ids(asset, &table("", asset)).expect("the asset imports")
}

fn failure(asset: &Asset) -> ImportError {
    let with_ids = import_with_ids(asset, &table("", asset)).expect_err("the asset is refused");
    let fresh = import_gltf_resources(asset).expect_err("the asset is refused");
    assert_eq!(with_ids, fresh);
    with_ids
}

fn get<'a>(scene: &'a Scene, id: &str) -> &'a Resource {
    scene.resources.get(&id.to_string()).expect("the identifier is stored")
}

fn references(resource: &Resource) -> Vec<String> {
    match resource {
        Resource::Animation(a) => a.channels.iter().map(|c| c.target.clone()).collect(),
        Resource::Material(m) => vec![m.base_color_texture.clone()],
        Resource::Mesh(m) => m.primitives.iter().map(|p| p.material.clone()).collect(),
        Resource::Node(n) => n.resources.clone(),
        Resource::SceneGraph(g) => (0..g.node_count()).map(|i| g.id(i).clone()).collect(),
        Resource::Skin(k) => k.joints.iter().map(|j| j.target.clone()).collect(),
        Resource::Texture(t) => vec![t.image.clone(), t.sampler.clone()],
        Resource::Camera(_) | Resource::Image(_) | Resource::Light(_) | Resource::Sampler(_) => vec![],
    }
}

fn full_asset() -> Asset {
    let mut asset = Asset::new();
    asset.samplers = vec![
        Sampler::default(),
        Sampler { min_filter: Filter::Linear, mag_filter: Filter::Linear, wrap_s: WrappingMode::ClampToEdge, wrap_t: WrappingMode::MirroredRepeat },
    ];
    asset.images = vec![Image { pixels: vec![1, 2, 3, 4], format: ImageFormat::R8G8B8A8, width: 1, height: 1 }];
    asset.textures = vec![
        TextureSource { sampler: Some(1), image: 0 },
        TextureSource { sampler: None, image: 0 },
    ];
    asset.materials = vec![
        MaterialSource { base_color_factor: v4(1.0, 0.5, 0.25, 1.0), base_color_texture: Some(1) },
        MaterialSource { base_color_factor: v4(0.0, 0.0, 0.0, 1.0), base_color_texture: None },
    ];
    asset.cameras = vec![Camera {
        projection: Projection::Orthographic(OrthographicCamera { x_mag: s(1.0), y_mag: s(2.0), z_far: s(10.0), z_near: s(0.1) }),
        orientation: Orientation::default(),
    }];
    asset.meshes = vec![MeshSource {
        primitives: vec![
            PrimitiveSource { material: Some(0), indices: Some(vec![0, 1, 2]), ..triangle() },
            PrimitiveSource { mode: PrimitiveMode::Lines, ..triangle() },
        ],
    }];
    asset.lights = vec![Light { intensity: s(3.0), range: s(0.0), color: v3(1.0, 1.0, 1.0), kind: LightKind::Point }];
    asset.nodes = vec![
        NodeSource { mesh: Some(0), camera: Some(0), light: Some(0), children: vec![1, 2], ..plain_node() },
        NodeSource { light: Some(0), children: vec![3], ..plain_node() },
        NodeSource { camera: Some(0), ..plain_node() },
        NodeSource { mesh: Some(0), ..plain_node() },
        plain_node(),
    ];
    asset.skins = vec![SkinSource { joints: vec![1, 3], inverse_bind_matrices: vec![] }];
    asset.animations = vec![AnimationSource { channels: vec![channel(1, &[0.0, 1.0, 2.0]), channel(3, &[0.0, 0.5])] }];
    asset.scenes = vec![SceneSource { nodes: vec![0, 4] }, SceneSource { nodes: vec![4] }];
    asset
}

#[test]
fn an_empty_asset_imports_to_an_empty_store() {
    let scene = import_gltf_resources(&Asset::new()).unwrap();
    assert!(scene.resources.is_empty());
    assert_eq!(scene.active_graph_id, "");
}

#[test]
fn every_element_is_stored_under_its_identifier() {
    let asset = full_asset();
    let scene = import(&asset);
    assert_eq!(scene.resources.len(), 2 + 1 + 2 + 2 + 1 + 1 + 1 + 5 + 1 + 1 + 2);
    assert!(matches!(get(&scene, "sampler1"), Resource::Sampler(s) if *s == asset.samplers[1]));
    assert!(matches!(get(&scene, "image0"), Resource::Image(i) if *i == asset.images[0]));
    assert!(matches!(get(&scene, "camera0"), Resource::Camera(c) if *c == asset.cameras[0]));
    assert!(matches!(get(&scene, "light0"), Resource::Light(l) if *l == asset.lights[0]));
    assert!(matches!(get(&scene, "texture0"), Resource::Texture(_)));
    assert!(matches!(get(&scene, "material0"), Resource::Material(_)));
    assert!(matches!(get(&scene, "mesh0"), Resource::Mesh(_)));
    assert!(matches!(get(&scene, "node4"), Resource::Node(_)));
    assert!(matches!(get(&scene, "skin0"), Resource::Skin(_)));
    assert!(matches!(get(&scene, "animation0"), Resource::Animation(_)));
    assert!(matches!(get(&scene, "scene1"), Resource::SceneGraph(_)));
    assert_eq!(scene.active_graph_id, "scene0");
}

#[test]
fn a_texture_names_its_image_and_its_sampler() {
    let scene = import(&full_asset());
    let Resource::Texture(texture) = get(&scene, "texture0") else { panic!("a texture") };
    assert_eq!(texture.image, "image0");
    assert_eq!(texture.sampler, "sampler1");
}

#[test]
fn a_texture_without_sampler_gets_the_first_sampler() {
    let scene = import(&full_asset());
    let Resource::Texture(texture) = get(&scene, "texture1") else { panic!("a texture") };
    assert_eq!(texture.sampler, "sampler0");
}

#[test]
fn a_texture_without_sampler_gets_the_default_where_there_is_no_sampler() {
    let mut asset = Asset::new();
    asset.images = vec![Image { pixels: vec![], format: ImageFormat::R8, width: 0, height: 0 }];
    asset.textures = vec![TextureSource { sampler: None, image: 0 }];
    let scene = import(&asset);
    let Resource::Texture(texture) = get(&scene, "texture0") else { panic!("a texture") };
    assert_eq!(texture.sampler, "default");
    assert_eq!(texture.image, "image0");
}

#[test]
fn a_material_names_its_base_colour_texture() {
    let scene = import(&full_asset());
    let Resource::Material(material) = get(&scene, "material0") else { panic!("a material") };
    assert_eq!(material.base_color_texture, "texture1");
    assert_eq!(material.base_color_factor, v4(1.0, 0.5, 0.25, 1.0));
}

#[test]
fn a_material_without_texture_gets_the_first_texture() {
    let scene = import(&full_asset());
    let Resource::Material(material) = get(&scene, "material1") else { panic!("a material") };
    assert_eq!(material.base_color_texture, "texture0");
}

#[test]
fn a_material_without_texture_gets_the_default_where_there_is_no_texture() {
    let mut asset = Asset::new();
    asset.materials = vec![MaterialSource { base_color_factor: v4(1.0, 1.0, 1.0, 1.0), base_color_texture: None }];
    let scene = import(&asset);
    let Resource::Material(material) = get(&scene, "material0") else { panic!("a material") };
    assert_eq!(material.base_color_texture, "default");
}

#[test]
fn a_primitive_names_its_material_or_the_default() {
    let scene = import(&full_asset());
    let Resource::Mesh(mesh) = get(&scene, "mesh0") else { panic!("a mesh") };
    assert_eq!(mesh.primitives.len(), 2);
    assert_eq!(mesh.primitives[0].material, "material0");
    assert_eq!(mesh.primitives[0].indices, vec![0, 1, 2]);
    assert_eq!(mesh.primitives[0].mode, PrimitiveMode::Triangles);
    assert_eq!(mesh.primitives[1].material, "default");
    assert_eq!(mesh.primitives[1].indices, Vec::<u32>::new());
    assert_eq!(mesh.primitives[1].mode, PrimitiveMode::Lines);
}

#[test]
fn positions_alone_give_vertices_with_default_attributes() {
    let mut asset = Asset::new();
    asset.meshes = vec![MeshSource { primitives: vec![triangle()] }];
    let scene = import(&asset);
    let Resource::Mesh(mesh) = get(&scene, "mesh0") else { panic!("a mesh") };
    let vertices = &mesh.primitives[0].vertices;
    assert_eq!(vertices.len(), 3);
    let positions = [v3(0.0, 0.0, 0.0), v3(1.0, 0.0, 0.0), v3(0.0, 1.0, 0.0)];
    for (vertex, position) in vertices.iter().zip(positions) {
        assert_eq!(vertex.position, position);
        assert_eq!(vertex.normal, v3(0.0, 0.0, 0.0));
        assert_eq!(vertex.uv_0, v2(0.0, 0.0));
        assert_eq!(vertex.uv_1, v2(0.0, 0.0));
        assert_eq!(vertex.joint_0, v4(0.0, 0.0, 0.0, 0.0));
        assert_eq!(vertex.weight_0, v4(1.0, 0.0, 0.0, 0.0));
        assert_eq!(vertex.color_0, v3(1.0, 1.0, 1.0));
        assert_eq!(*vertex, Vertex::at(position));
    }
}

#[test]
fn default_vertex_sits_at_the_origin_with_default_attributes() {
    assert_eq!(Vertex::default(), Vertex::at(v3(0.0, 0.0, 0.0)));
    assert_eq!(Vertex::default().weight_0, v4(1.0, 0.0, 0.0, 0.0));
    assert_eq!(Vertex::default().color_0, v3(1.0, 1.0, 1.0));
}

#[test]
fn attributes_that_are_present_are_zipped_by_position() {
    let mut asset = Asset::new();
    asset.meshes = vec![MeshSource {
        primitives: vec![PrimitiveSource {
            normals: Some(vec![v3(0.0, 0.0, 1.0), v3(0.0, 1.0, 0.0), v3(1.0, 0.0, 0.0)]),
            uv_0: Some(vec![v2(0.0, 0.0), v2(0.5, 0.5), v2(1.0, 1.0)]),
            uv_1: Some(vec![v2(0.1, 0.0), v2(0.2, 0.0), v2(0.3, 0.0)]),
            joints_0: Some(vec![v4(1.0, 2.0, 3.0, 4.0); 3]),
            weights_0: Some(vec![v4(0.25, 0.25, 0.25, 0.25); 3]),
            colors_0: Some(vec![v3(1.0, 0.0, 0.0), v3(0.0, 1.0, 0.0), v3(0.0, 0.0, 1.0)]),
            ..triangle()
        }],
    }];
    let scene = import(&asset);
    let Resource::Mesh(mesh) = get(&scene, "mesh0") else { panic!("a mesh") };
    assert_eq!(
        mesh.primitives[0].vertices[1],
        Vertex {
            position: v3(1.0, 0.0, 0.0),
            normal: v3(0.0, 1.0, 0.0),
            uv_0: v2(0.5, 0.5),
            uv_1: v2(0.2, 0.0),
            joint_0: v4(1.0, 2.0, 3.0, 4.0),
            weight_0: v4(0.25, 0.25, 0.25, 0.25),
            color_0: v3(0.0, 1.0, 0.0),
        }
    );
    assert_eq!(mesh.primitives[0].vertices[2].color_0, v3(0.0, 0.0, 1.0));
    assert_eq!(mesh.primitives[0].vertices[0].uv_1, v2(0.1, 0.0));
}

#[test]
fn a_node_lists_mesh_camera_and_light_in_this_order() {
    let scene = import(&full_asset());
    let Resource::Node(node) = get(&scene, "node0") else { panic!("a node") };
    assert_eq!(node.resources, vec!["mesh0", "camera0", "light0"]);
    let Resource::Node(node) = get(&scene, "node1") else { panic!("a node") };
    assert_eq!(node.resources, vec!["light0"]);
    let Resource::Node(node) = get(&scene, "node2") else { panic!("a node") };
    assert_eq!(node.resources, vec!["camera0"]);
    let Resource::Node(node) = get(&scene, "node4") else { panic!("a node") };
    assert!(node.resources.is_empty());
    assert_eq!(node.transform, Transform::default());
}

#[test]
fn a_joint_without_matrix_gets_the_identity() {
    let mut asset = full_asset();
    let first = Mat4 { c3: v4(1.0, 2.0, 3.0, 1.0), ..Mat4::identity() };
    asset.skins[0].inverse_bind_matrices = vec![first];
    let scene = import(&asset);
    let Resource::Skin(skin) = get(&scene, "skin0") else { panic!("a skin") };
    assert_eq!(skin.joints.len(), 2);
    assert_eq!(skin.joints[0].target, "node1");
    assert_eq!(skin.joints[0].inverse_bind_matrix, first);
    assert_eq!(skin.joints[1].target, "node3");
    assert_eq!(skin.joints[1].inverse_bind_matrix, Mat4::identity());
}

#[test]
fn max_animation_time_is_the_latest_keyframe_of_any_channel() {
    let scene = import(&full_asset());
    let Resource::Animation(animation) = get(&scene, "animation0") else { panic!("an animation") };
    assert_eq!(f32::from_bits(animation.max_animation_time.bits), 2.0);
    assert_eq!(animation.time, s(0.0));
    assert_eq!(animation.channels.len(), 2);
    assert_eq!(animation.channels[0].target, "node1");
    assert_eq!(animation.channels[1].target, "node3");
    assert_eq!(animation.channels[1].inputs, times(&[0.0, 0.5]));
    assert_eq!(animation.channels[1].interpolation, Interpolation::Linear);
    assert_eq!(
        animation.channels[1].transformations,
        TransformationSet::Translations(vec![v3(0.0, 0.0, 0.0), v3(0.5, 0.0, 0.0)])
    );
}

#[test]
fn max_animation_time_without_channels_is_zero() {
    let mut asset = Asset::new();
    asset.animations = vec![AnimationSource { channels: vec![] }];
    let scene = import(&asset);
    let Resource::Animation(animation) = get(&scene, "animation0") else { panic!("an animation") };
    assert_eq!(animation.max_animation_time.bits, 0.0_f32.to_bits());
}

#[test]
fn max_animation_time_ignores_nans_and_negative_times() {
    let mut asset = Asset::new();
    asset.nodes = vec![plain_node()];
    asset.animations = vec![
        AnimationSource { channels: vec![channel(0, &[-3.0, f32::NAN, -0.0])] },
        AnimationSource { channels: vec![channel(0, &[f32::NAN, 0.25]), channel(0, &[]), channel(0, &[0.125])] },
    ];
    let scene = import(&asset);
    let Resource::Animation(first) = get(&scene, "animation0") else { panic!("an animation") };
    assert_eq!(first.max_animation_time.bits, 0.0_f32.to_bits());
    let Resource::Animation(second) = get(&scene, "animation1") else { panic!("an animation") };
    assert_eq!(second.max_animation_time, s(0.25));
}

#[test]
fn max_animation_time_agrees_with_a_fold_of_the_hardware_maximum() {
    let inputs: [&[f32]; 3] = [&[0.0, 0.1, 7.5, 3.0], &[f32::INFINITY], &[1.0e-30, 2.0]];
    for upto in 0..=inputs.len() {
        let mut asset = Asset::new();
        asset.nodes = vec![plain_node()];
        asset.animations = vec![AnimationSource {
            channels: inputs[..upto].iter().map(|i| channel(0, i)).collect(),
        }];
        let scene = import(&asset);
        let Resource::Animation(animation) = get(&scene, "animation0") else { panic!("an animation") };
        let expected = inputs[..upto].iter().flat_map(|i| i.iter().copied()).fold(0.0, f32::max);
        assert_eq!(f32::from_bits(animation.max_animation_time.bits), expected);
    }
}

#[test]
fn a_scene_graph_hangs_the_scene_roots_below_a_root_of_its_own() {
    let scene = import(&full_asset());
    let Resource::SceneGraph(graph) = get(&scene, "scene0") else { panic!("a graph") };
    let ids: Vec<&str> = (0..graph.node_count()).map(|i| graph.id(i).as_str()).collect();
    assert_eq!(ids, vec!["scene0", "node0", "node1", "node3", "node2", "node4"]);
    let parents: Vec<Option<usize>> = (0..graph.node_count()).map(|i| graph.parent(i)).collect();
    assert_eq!(parents, vec![None, Some(0), Some(1), Some(2), Some(1), Some(0)]);
    assert_eq!(graph.walk_dfs(), vec![0, 1, 2, 3, 4, 5]);
    let Resource::SceneGraph(other) = get(&scene, "scene1") else { panic!("a graph") };
    assert_eq!(other.node_count(), 2);
    assert_eq!(other.id(0), "scene1");
    assert_eq!(other.id(1), "node4");
}

#[test]
fn a_scene_without_nodes_is_a_lone_root() {
    let mut asset = Asset::new();
    asset.scenes = vec![SceneSource { nodes: vec![] }];
    let scene = import(&asset);
    let Resource::SceneGraph(graph) = get(&scene, "scene0") else { panic!("a graph") };
    assert_eq!(graph.node_count(), 1);
    assert_eq!(graph.id(0), "scene0");
}

#[test]
fn every_reference_of_an_import_resolves() {
    let scene = import_gltf_resources(&full_asset()).unwrap();
    let store = &scene.resources;
    assert_eq!(store.len(), 19);
    assert!(store.contains_key(&scene.active_graph_id));
    assert!(matches!(store.get(&scene.active_graph_id), Some(Resource::SceneGraph(_))));
    for i in 0..store.len() {
        assert_eq!(store.key_at(i).len(), 36);
        for id in references(store.value_at(i)) {
            assert!(id == "default" || store.contains_key(&id), "{id} resolves");
        }
    }
}

#[test]
fn two_imports_differ_by_a_renaming_only() {
    let asset = full_asset();
    let (a, b) = (table("a-", &asset), table("b-", &asset));
    let first = import_with_ids(&asset, &a).unwrap();
    let second = import_with_ids(&asset, &b).unwrap();
    assert_eq!(first.resources.len(), second.resources.len());
    assert_eq!(first.active_graph_id.replacen("a-", "b-", 1), second.active_graph_id);
    for i in 0..first.resources.len() {
        let key = first.resources.key_at(i).replacen("a-", "b-", 1);
        let ours = first.resources.value_at(i);
        let theirs = second.resources.get(&key).expect("the renamed key is stored");
        assert_eq!(std::mem::discriminant(ours), std::mem::discriminant(theirs));
        let renamed: Vec<String> = references(ours).iter().map(|id| id.replacen("a-", "b-", 1)).collect();
        assert_eq!(renamed, references(theirs));
        match (ours, theirs) {
            (Resource::Mesh(x), Resource::Mesh(y)) => {
                for (p, q) in x.primitives.iter().zip(&y.primitives) {
                    assert_eq!((&p.vertices, &p.indices, p.mode), (&q.vertices, &q.indices, q.mode));
                }
            }
            (Resource::Animation(x), Resource::Animation(y)) => {
                assert_eq!(x.max_animation_time, y.max_animation_time);
            }
            (Resource::SceneGraph(x), Resource::SceneGraph(y)) => {
                assert_eq!(x.walk_dfs(), y.walk_dfs());
                for n in 0..x.node_count() {
                    assert_eq!(x.parent(n), y.parent(n));
                }
            }
            _ => {}
        }
    }
}

#[test]
fn the_same_identifiers_give_the_same_store() {
    let asset = full_asset();
    let ids = table("", &asset);
    let first = import_with_ids(&asset, &ids).unwrap();
    let second = import_with_ids(&asset, &ids).unwrap();
    assert_eq!(format!("{first:?}"), format!("{second:?}"));
}

#[test]
fn of_two_elements_under_one_identifier_the_later_stays() {
    let asset = full_asset();
    let mut ids = table("", &asset);
    ids.nodes[4] = "sampler0".to_string();
    let scene = import_with_ids(&asset, &ids).unwrap();
    assert_eq!(scene.resources.len(), 18);
    assert!(matches!(get(&scene, "sampler0"), Resource::Node(_)));
}

#[test]
fn generated_tables_cover_the_asset() {
    let asset = full_asset();
    let ids = IdTable::generate(&asset);
    assert!(ids.is_for(&asset));
    assert_eq!(ids.nodes.len(), 5);
    assert!(!ids.is_for(&Asset::new()));
    let mut all: Vec<&String> = ids.nodes.iter().chain(&ids.samplers).chain(&ids.scenes).collect();
    all.sort();
    all.dedup();
    assert_eq!(all.len(), 9);
}

#[test]
fn a_table_of_the_wrong_size_leaves_references_dangling() {
    let asset = full_asset();
    let mut ids = table("", &asset);
    ids.lights.pop();
    assert_eq!(import_with_ids(&asset, &ids).unwrap_err(), ImportError::DanglingReference);
    ids.lights.push("x".to_string());
    ids.lights.push("y".to_string());
    assert_eq!(import_with_ids(&asset, &ids).unwrap_err(), ImportError::DanglingReference);
}

#[test]
fn a_position_that_names_nothing_is_a_dangling_reference() {
    let edits: Vec<fn(&mut Asset)> = vec![
        |a| a.textures[0].sampler = Some(2),
        |a| a.textures[1].image = 1,
        |a| a.materials[0].base_color_texture = Some(2),
        |a| a.meshes[0].primitives[1].material = Some(2),
        |a| a.nodes[4].mesh = Some(1),
        |a| a.nodes[4].camera = Some(1),
        |a| a.nodes[4].light = Some(1),
        |a| a.nodes[3].children = vec![5],
        |a| a.skins[0].joints = vec![0, 5],
        |a| a.animations[0].channels[1].target = 5,
        |a| a.scenes[1].nodes = vec![4, 5],
    ];
    for edit in edits {
        let mut asset = full_asset();
        edit(&mut asset);
        assert_eq!(failure(&asset), ImportError::DanglingReference);
    }
}

#[test]
fn a_primitive_without_positions_is_refused() {
    let mut asset = full_asset();
    asset.meshes[0].primitives[1].positions = None;
    assert_eq!(failure(&asset), ImportError::MissingRequiredAttribute);
}

#[test]
fn an_attribute_of_another_length_than_the_positions_is_refused() {
    let edits: Vec<fn(&mut PrimitiveSource)> = vec![
        |p| p.normals = Some(vec![Vec3::splat(Scalar::zero()); 2]),
        |p| p.uv_0 = Some(vec![Vec2::splat(Scalar::zero()); 4]),
        |p| p.uv_1 = Some(vec![]),
        |p| p.joints_0 = Some(vec![Vec4::splat(Scalar::zero()); 2]),
        |p| p.weights_0 = Some(vec![Vec4::splat(Scalar::zero()); 1]),
        |p| p.colors_0 = Some(vec![Vec3::splat(Scalar::zero()); 5]),
    ];
    for edit in edits {
        let mut asset = full_asset();
        edit(&mut asset.meshes[0].primitives[0]);
        assert_eq!(failure(&asset), ImportError::AttributeLengthMismatch);
    }
}

#[test]
fn a_hierarchy_with_a_cycle_is_malformed() {
    let mut asset = Asset::new();
    asset.nodes = vec![parent_of(&[1]), parent_of(&[2]), parent_of(&[0])];
    asset.scenes = vec![SceneSource { nodes: vec![0] }];
    assert_eq!(failure(&asset), ImportError::MalformedAsset);
    asset.nodes = vec![parent_of(&[0])];
    assert_eq!(failure(&asset), ImportError::MalformedAsset);
}

#[test]
fn a_cycle_that_no_scene_reaches_does_no_harm() {
    let mut asset = Asset::new();
    asset.nodes = vec![parent_of(&[1]), parent_of(&[0]), plain_node()];
    asset.scenes = vec![SceneSource { nodes: vec![2] }];
    let scene = import(&asset);
    let Resource::SceneGraph(graph) = get(&scene, "scene0") else { panic!("a graph") };
    assert_eq!(graph.node_count(), 2);
}

#[test]
fn a_chain_as_deep_as_there_are_nodes_imports() {
    let mut asset = Asset::new();
    asset.nodes = vec![parent_of(&[1]), parent_of(&[2]), parent_of(&[3]), plain_node()];
    asset.scenes = vec![SceneSource { nodes: vec![0] }];
    let scene = import(&asset);
    let Resource::SceneGraph(graph) = get(&scene, "scene0") else { panic!("a graph") };
    assert_eq!(graph.path_from_root(4), vec![0, 1, 2, 3, 4]);
}

#[test]
fn a_node_below_two_parents_is_attached_twice() {
    let mut asset = Asset::new();
    asset.nodes = vec![parent_of(&[2]), parent_of(&[2]), plain_node()];
    asset.scenes = vec![SceneSource { nodes: vec![0, 1] }];
    let scene = import(&asset);
    let Resource::SceneGraph(graph) = get(&scene, "scene0") else { panic!("a graph") };
    let ids: Vec<&str> = (0..graph.node_count()).map(|i| graph.id(i).as_str()).collect();
    assert_eq!(ids, vec!["scene0", "node0", "node2", "node1", "node2"]);
}

#[test]
fn of_several_faults_the_dangling_reference_is_reported_first() {
    let mut asset = full_asset();
    asset.nodes[3].children = vec![0];
    assert_eq!(failure(&asset), ImportError::MalformedAsset);
    asset.meshes[0].primitives[0].normals = Some(vec![]);
    assert_eq!(failure(&asset), ImportError::AttributeLengthMismatch);
    asset.meshes[0].primitives[1].positions = None;
    assert_eq!(failure(&asset), ImportError::MissingRequiredAttribute);
    asset.textures[0].image = 7;
    assert_eq!(failure(&asset), ImportError::DanglingReference);
}

#[test]
fn validate_reports_what_can_be_seen_before_building() {
    assert_eq!(full_asset().validate(), None);
    let mut asset = full_asset();
    asset.nodes[3].children = vec![0];
    assert_eq!(asset.validate(), None);
    asset.meshes[0].primitives[1].positions = None;
    assert_eq!(asset.validate(), Some(ImportError::MissingRequiredAttribute));
}

#[test]
fn minification_filters_are_linear_or_nearest() {
    assert_eq!(Filter::from(MinFilter::Linear), Filter::Linear);
    assert_eq!(Filter::from(MinFilter::LinearMipmapLinear), Filter::Linear);
    assert_eq!(Filter::from(MinFilter::LinearMipmapNearest), Filter::Linear);
    assert_eq!(Filter::from(MinFilter::Nearest), Filter::Nearest);
    assert_eq!(Filter::from(MinFilter::NearestMipmapLinear), Filter::Nearest);
    assert_eq!(Filter::from(MinFilter::NearestMipmapNearest), Filter::Nearest);
}

#[test]
fn magnification_filters_keep_their_kind() {
    assert_eq!(Filter::from(MagFilter::Linear), Filter::Linear);
    assert_eq!(Filter::from(MagFilter::Nearest), Filter::Nearest);
}

#[test]
fn image_formats_keep_channels_and_width() {
    let pairs = [
        (PixelFormat::R8, ImageFormat::R8),
        (PixelFormat::R8G8, ImageFormat::R8G8),
        (PixelFormat::R8G8B8, ImageFormat::R8G8B8),
        (PixelFormat::R8G8B8A8, ImageFormat::R8G8B8A8),
        (PixelFormat::R16, ImageFormat::R16),
        (PixelFormat::R16G16, ImageFormat::R16G16),
        (PixelFormat::R16G16B16, ImageFormat::R16G16B16),
        (PixelFormat::R16G16B16A16, ImageFormat::R16G16B16A16),
        (PixelFormat::R32G32B32Float, ImageFormat::R32G32B32),
        (PixelFormat::R32G32B32A32Float, ImageFormat::R32G32B32A32),
    ];
    for (source, expected) in pairs {
        assert_eq!(ImageFormat::from(source), expected);
    }
}

#[test]
fn a_sampler_takes_nearest_where_the_source_is_silent() {
    assert_eq!(
        Sampler::from_source(None, None, WrappingMode::Repeat, WrappingMode::Repeat),
        Sampler::default()
    );
    assert_eq!(
        Sampler::from_source(
            Some(MinFilter::LinearMipmapLinear),
            Some(MagFilter::Linear),
            WrappingMode::ClampToEdge,
            WrappingMode::MirroredRepeat
        ),
        Sampler {
            min_filter: Filter::Linear,
            mag_filter: Filter::Linear,
            wrap_s: WrappingMode::ClampToEdge,
            wrap_t: WrappingMode::MirroredRepeat
        }
    );
    assert_eq!(
        Sampler::from_source(Some(MinFilter::NearestMipmapLinear), None, WrappingMode::Repeat, WrappingMode::ClampToEdge),
        Sampler { wrap_t: WrappingMode::ClampToEdge, ..Sampler::default() }
    );
}

#[test]
fn an_image_keeps_its_pixels_and_size() {
    let image = Image::from(ImageSource {
        pixels: vec![9, 8, 7],
        format: PixelFormat::R8G8B8,
        width: 1,
        height: 1,
    });
    assert_eq!(image, Image { pixels: vec![9, 8, 7], format: ImageFormat::R8G8B8, width: 1, height: 1 });
}

#[test]
fn a_camera_starts_with_a_zero_orientation() {
    let projection = Projection::Orthographic(OrthographicCamera { x_mag: s(1.0), y_mag: s(1.0), z_far: s(2.0), z_near: s(1.0) });
    assert_eq!(Camera::from_source(projection), Camera { projection, orientation: Orientation::default() });
}

#[test]
fn a_light_without_range_has_range_zero() {
    let kind = LightKind::Spot { inner_cone_angle: s(0.1), outer_cone_angle: s(0.2) };
    assert_eq!(
        Light::from_source(v3(1.0, 0.5, 0.0), s(2.0), None, kind),
        Light { intensity: s(2.0), range: s(0.0), color: v3(1.0, 0.5, 0.0), kind }
    );
    assert_eq!(Light::from_source(v3(0.0, 0.0, 0.0), s(1.0), Some(s(7.0)), LightKind::Point).range, s(7.0));
}

#[test]
fn a_transform_is_built_from_its_parts() {
    let t = Transform::from(([s(1.0), s(2.0), s(3.0)], [s(0.0), s(0.0), s(0.0), s(1.0)], [s(4.0), s(5.0), s(6.0)]));
    assert_eq!(t.translation, v3(1.0, 2.0, 3.0));
    assert_eq!(t.rotation, serenity::scalar::Quat::identity());
    assert_eq!(t.scale, v3(4.0, 5.0, 6.0));
}

#[test]
fn build_vertices_fills_what_the_source_leaves_open() {
    let vertices = triangle().build_vertices().expect("positions are there");
    assert_eq!(
        vertices,
        vec![
            Vertex::at(v3(0.0, 0.0, 0.0)),
            Vertex::at(v3(1.0, 0.0, 0.0)),
            Vertex::at(v3(0.0, 1.0, 0.0)),
        ]
    );
    let coloured = PrimitiveSource {
        colors_0: Some(vec![v3(0.5, 0.5, 0.5); 3]),
        ..triangle()
    };
    let vertices = coloured.build_vertices().unwrap();
    assert_eq!(vertices[2].color_0, v3(0.5, 0.5, 0.5));
    assert_eq!(vertices[2].weight_0, v4(1.0, 0.0, 0.0, 0.0));
}

#[test]
fn build_vertices_refuses_what_cannot_be_zipped() {
    let without = PrimitiveSource { positions: None, normals: Some(vec![]), ..triangle() };
    assert_eq!(without.build_vertices(), Err(ImportError::MissingRequiredAttribute));
    let short = PrimitiveSource { normals: Some(vec![v3(0.0, 0.0, 1.0)]), ..triangle() };
    assert_eq!(short.build_vertices(), Err(ImportError::AttributeLengthMismatch));
    let empty = PrimitiveSource { positions: Some(vec![]), ..triangle() };
    assert_eq!(empty.build_vertices(), Ok(vec![]));
}

#[test]
fn latest_time_is_the_largest_keyframe_time() {
    let animation = AnimationSource { channels: vec![channel(0, &[0.0, 1.0, 2.0]), channel(0, &[0.0, 0.5])] };
    assert_eq!(f32::from_bits(animation.latest_time().bits), 2.0);
    assert_eq!(AnimationSource { channels: vec![] }.latest_time().bits, 0.0_f32.to_bits());
    assert_eq!(AnimationSource { channels: vec![channel(0, &[])] }.latest_time(), s(0.0));
}
