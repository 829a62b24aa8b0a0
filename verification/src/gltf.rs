//! Import of glTF assets into the resource model.
//!
//! An asset arrives as an `Asset`: the parsed document with its buffers
//! already decoded, everything in it referring to everything else by
//! position. Import gives each element an identifier and turns every
//! position into the identifier of what it points at.

use vstd::prelude::*;
use crate::graph::{EntityGraph, GraphView};
use crate::ident::fresh_ids;
use crate::integrity::{
    lemma_import_references_resolve, lemma_import_stores_every_identifier, references_resolve,
};
use crate::resource::{
    contents, Animation, AnimationView, Camera, Channel, ChannelView, Filter, Image, ImageFormat,
    Interpolation, Joint, JointView, Light, LightKind, Material, MaterialView, Mesh, MeshView, Node,
    NodeView, Orientation, Primitive, PrimitiveMode, PrimitiveView, Projection, Resource,
    ResourceMap, ResourceView, Sampler, Scene, Skin, SkinView, Texture, TextureView,
    TransformationSet, Transform, Vertex, WrappingMode,
};
use crate::scalar::{
    greatest, is_maximum_of, lemma_greatest_is_maximum, lemma_greatest_push, Mat4, Scalar, Vec2,
    Vec3, Vec4,
};
use crate::store::{insert_all, lemma_insert_all_concat, lemma_insert_all_step, IdMap};

verus! {

/// The minification filters of glTF.
#[derive(Clone, Copy, Debug, PartialEq, Eq, Structural)]
pub enum MinFilter {
    Nearest,
    Linear,
    NearestMipmapNearest,
    LinearMipmapNearest,
    NearestMipmapLinear,
    LinearMipmapLinear,
}

/// The magnification filters of glTF.
#[derive(Clone, Copy, Debug, PartialEq, Eq, Structural)]
pub enum MagFilter {
    Nearest,
    Linear,
}

/// The pixel formats in which decoded images arrive.
#[derive(Clone, Copy, Debug, PartialEq, Eq, Structural)]
pub enum PixelFormat {
    R8,
    R8G8,
    R8G8B8,
    R8G8B8A8,
    R16,
    R16G16,
    R16G16B16,
    R16G16B16A16,
    /// Red, green, blue, 32 bits each, in floating point.
    R32G32B32Float,
    /// Red, green, blue, alpha, 32 bits each, in floating point.
    R32G32B32A32Float,
}

/// A decoded image of the source.
#[derive(Clone, Debug, PartialEq, Eq)]
pub struct ImageSource {
    pub pixels: Vec<u8>,
    pub format: PixelFormat,
    pub width: u32,
    pub height: u32,
}

impl From<MinFilter> for Filter {
    fn from(filter: MinFilter) -> (f: Filter) {
        match filter {
            MinFilter::Linear
            | MinFilter::LinearMipmapLinear
            | MinFilter::LinearMipmapNearest => Filter::Linear,
            MinFilter::Nearest
            | MinFilter::NearestMipmapLinear
            | MinFilter::NearestMipmapNearest => Filter::Nearest,
        }
    }
}

impl vstd::std_specs::convert::FromSpecImpl<MinFilter> for Filter {
    open spec fn obeys_from_spec() -> bool {
        true
    }

    /// Mipmapping is not modelled: a filter is linear or nearest by how it
    /// samples within one level.
    open spec fn from_spec(filter: MinFilter) -> Filter {
        match filter {
            MinFilter::Linear
            | MinFilter::LinearMipmapLinear
            | MinFilter::LinearMipmapNearest => Filter::Linear,
            MinFilter::Nearest
            | MinFilter::NearestMipmapLinear
            | MinFilter::NearestMipmapNearest => Filter::Nearest,
        }
    }
}

impl From<MagFilter> for Filter {
    fn from(filter: MagFilter) -> (f: Filter) {
        match filter {
            MagFilter::Linear => Filter::Linear,
            MagFilter::Nearest => Filter::Nearest,
        }
    }
}

impl vstd::std_specs::convert::FromSpecImpl<MagFilter> for Filter {
    open spec fn obeys_from_spec() -> bool {
        true
    }

    open spec fn from_spec(filter: MagFilter) -> Filter {
        match filter {
            MagFilter::Linear => Filter::Linear,
            MagFilter::Nearest => Filter::Nearest,
        }
    }
}

impl From<PixelFormat> for ImageFormat {
    fn from(value: PixelFormat) -> (f: ImageFormat) {
        match value {
            PixelFormat::R8 => ImageFormat::R8,
            PixelFormat::R8G8 => ImageFormat::R8G8,
            PixelFormat::R8G8B8 => ImageFormat::R8G8B8,
            PixelFormat::R8G8B8A8 => ImageFormat::R8G8B8A8,
            PixelFormat::R16 => ImageFormat::R16,
            PixelFormat::R16G16 => ImageFormat::R16G16,
            PixelFormat::R16G16B16 => ImageFormat::R16G16B16,
            PixelFormat::R16G16B16A16 => ImageFormat::R16G16B16A16,
            PixelFormat::R32G32B32Float => ImageFormat::R32G32B32,
            PixelFormat::R32G32B32A32Float => ImageFormat::R32G32B32A32,
        }
    }
}

impl vstd::std_specs::convert::FromSpecImpl<PixelFormat> for ImageFormat {
    open spec fn obeys_from_spec() -> bool {
        true
    }

    /// Each format keeps its channels and their width. The two 32-bit
    /// formats land on the 32-bit formats without the `F` mark.
    open spec fn from_spec(value: PixelFormat) -> ImageFormat {
        match value {
            PixelFormat::R8 => ImageFormat::R8,
            PixelFormat::R8G8 => ImageFormat::R8G8,
            PixelFormat::R8G8B8 => ImageFormat::R8G8B8,
            PixelFormat::R8G8B8A8 => ImageFormat::R8G8B8A8,
            PixelFormat::R16 => ImageFormat::R16,
            PixelFormat::R16G16 => ImageFormat::R16G16,
            PixelFormat::R16G16B16 => ImageFormat::R16G16B16,
            PixelFormat::R16G16B16A16 => ImageFormat::R16G16B16A16,
            PixelFormat::R32G32B32Float => ImageFormat::R32G32B32,
            PixelFormat::R32G32B32A32Float => ImageFormat::R32G32B32A32,
        }
    }
}

impl From<ImageSource> for Image {
    fn from(data: ImageSource) -> (image: Image) {
        Image {
            pixels: data.pixels,
            format: ImageFormat::from(data.format),
            width: data.width,
            height: data.height,
        }
    }
}

impl vstd::std_specs::convert::FromSpecImpl<ImageSource> for Image {
    open spec fn obeys_from_spec() -> bool {
        true
    }

    /// The same pixels and size, the format converted.
    open spec fn from_spec(data: ImageSource) -> Image {
        Image {
            pixels: data.pixels,
            format: <ImageFormat as vstd::std_specs::convert::FromSpec<PixelFormat>>::from_spec(
                data.format,
            ),
            width: data.width,
            height: data.height,
        }
    }
}

impl Sampler {
    /// The sampler that a glTF sampler describes. A filter that the source
    /// leaves open is nearest.
    pub open spec fn spec_from_source(
        min_filter: Option<MinFilter>,
        mag_filter: Option<MagFilter>,
        wrap_s: WrappingMode,
        wrap_t: WrappingMode,
    ) -> Sampler {
        Sampler {
            min_filter: match min_filter {
                Some(filter) => <Filter as vstd::std_specs::convert::FromSpec<
                    MinFilter,
                >>::from_spec(filter),
                None => Filter::Nearest,
            },
            mag_filter: match mag_filter {
                Some(filter) => <Filter as vstd::std_specs::convert::FromSpec<
                    MagFilter,
                >>::from_spec(filter),
                None => Filter::Nearest,
            },
            wrap_s,
            wrap_t,
        }
    }

    /// The sampler that a glTF sampler describes.
    #[verifier::when_used_as_spec(spec_from_source)]
    pub fn from_source(
        min_filter: Option<MinFilter>,
        mag_filter: Option<MagFilter>,
        wrap_s: WrappingMode,
        wrap_t: WrappingMode,
    ) -> (s: Sampler)
        ensures
            s == Sampler::spec_from_source(min_filter, mag_filter, wrap_s, wrap_t),
    {
        let min_filter = match min_filter {
            Some(filter) => Filter::from(filter),
            None => Filter::default(),
        };
        let mag_filter = match mag_filter {
            Some(filter) => Filter::from(filter),
            None => Filter::default(),
        };
        Sampler { min_filter, mag_filter, wrap_s, wrap_t }
    }
}

impl Camera {
    /// A camera with the given projection and an orientation that is zero
    /// throughout.
    pub fn from_source(projection: Projection) -> (camera: Camera)
        ensures
            camera == (Camera { projection, orientation: Orientation::spec_default() }),
    {
        Camera { projection, orientation: Orientation::default() }
    }
}

impl Light {
    /// The light that a glTF punctual light describes. A light without a
    /// range has range zero.
    pub fn from_source(color: Vec3, intensity: Scalar, range: Option<Scalar>, kind: LightKind) -> (light:
        Light)
        ensures
            light == (Light {
                color,
                intensity,
                range: match range {
                    Some(r) => r,
                    None => Scalar::spec_zero(),
                },
                kind,
            }),
    {
        Light {
            color,
            intensity,
            range: match range {
                Some(r) => r,
                None => Scalar::zero(),
            },
            kind,
        }
    }
}

/// Why an import failed.
#[derive(Clone, Copy, Debug, PartialEq, Eq, Structural)]
pub enum ImportError {
    /// The node hierarchy is not a forest: following children from a scene
    /// root leads deeper than there are nodes, or to more nodes than a graph
    /// can index.
    MalformedAsset,
    /// A primitive has no vertex positions.
    MissingRequiredAttribute,
    /// An optional vertex attribute has another length than the positions.
    AttributeLengthMismatch,
    /// A position that should name an element of the asset names none.
    DanglingReference,
}

/// A texture of the source: positions of its sampler and its image.
#[derive(Clone, Copy, Debug, PartialEq, Eq)]
pub struct TextureSource {
    pub sampler: Option<usize>,
    pub image: usize,
}

/// A material of the source.
#[derive(Clone, Copy, Debug, PartialEq, Eq)]
pub struct MaterialSource {
    pub base_color_factor: Vec4,
    pub base_color_texture: Option<usize>,
}

/// A primitive of the source: its attribute arrays as far as it has them.
#[derive(Clone, Debug, PartialEq, Eq)]
pub struct PrimitiveSource {
    pub mode: PrimitiveMode,
    pub material: Option<usize>,
    pub positions: Option<Vec<Vec3>>,
    pub normals: Option<Vec<Vec3>>,
    pub uv_0: Option<Vec<Vec2>>,
    pub uv_1: Option<Vec<Vec2>>,
    pub joints_0: Option<Vec<Vec4>>,
    pub weights_0: Option<Vec<Vec4>>,
    pub colors_0: Option<Vec<Vec3>>,
    pub indices: Option<Vec<u32>>,
}

/// A mesh of the source.
#[derive(Clone, Debug, PartialEq, Eq)]
pub struct MeshSource {
    pub primitives: Vec<PrimitiveSource>,
}

/// A node of the source: its placement, what is attached to it, and its
/// children, all by position.
#[derive(Clone, Debug, PartialEq, Eq)]
pub struct NodeSource {
    pub transform: Transform,
    pub mesh: Option<usize>,
    pub camera: Option<usize>,
    pub light: Option<usize>,
    pub children: Vec<usize>,
}

/// A skin of the source: its joint nodes, and as many inverse bind matrices
/// as the source supplies, in joint order.
#[derive(Clone, Debug, PartialEq, Eq)]
pub struct SkinSource {
    pub joints: Vec<usize>,
    pub inverse_bind_matrices: Vec<Mat4>,
}

/// An animation channel of the source: the position of the node it moves,
/// the keyframe times, and the values at those times.
#[derive(Clone, Debug, PartialEq, Eq)]
pub struct ChannelSource {
    pub target: usize,
    pub inputs: Vec<Scalar>,
    pub outputs: TransformationSet,
}

/// An animation of the source.
#[derive(Clone, Debug, PartialEq, Eq)]
pub struct AnimationSource {
    pub channels: Vec<ChannelSource>,
}

/// A scene of the source: the positions of its root nodes.
#[derive(Clone, Debug, PartialEq, Eq)]
pub struct SceneSource {
    pub nodes: Vec<usize>,
}

/// A parsed glTF asset.
#[derive(Clone, Debug, PartialEq, Eq)]
pub struct Asset {
    pub samplers: Vec<Sampler>,
    pub images: Vec<Image>,
    pub textures: Vec<TextureSource>,
    pub materials: Vec<MaterialSource>,
    pub cameras: Vec<Camera>,
    pub meshes: Vec<MeshSource>,
    pub lights: Vec<Light>,
    pub nodes: Vec<NodeSource>,
    pub skins: Vec<SkinSource>,
    pub animations: Vec<AnimationSource>,
    pub scenes: Vec<SceneSource>,
}

/// What an identifier of an imported resource stands for: an element of the
/// asset, named by kind and position, or the default that stands in where
/// the asset names nothing.
pub enum Slot {
    Sampler(usize),
    Image(usize),
    Texture(usize),
    Material(usize),
    Camera(usize),
    Mesh(usize),
    Light(usize),
    Node(usize),
    Skin(usize),
    Animation(usize),
    Scene(usize),
    Default,
}

/// The attribute at position `i`, or `default` where the source has no such
/// attribute.
pub open spec fn attribute_or<T>(attribute: Option<Vec<T>>, i: int, default: T) -> T {
    match attribute {
        Some(values) => values@[i],
        None => default,
    }
}

/// Whether an optional attribute, if present, has `count` values.
pub open spec fn has_length<T>(attribute: Option<Vec<T>>, count: nat) -> bool {
    match attribute {
        Some(values) => values@.len() == count,
        None => true,
    }
}

impl PrimitiveSource {
    /// The number of vertices: the number of positions.
    pub open spec fn vertex_count(&self) -> nat {
        match self.positions {
            Some(positions) => positions@.len(),
            None => 0,
        }
    }

    /// Whether every optional vertex attribute that is present has one value
    /// per vertex.
    pub open spec fn lengths_agree(&self) -> bool {
        &&& has_length(self.normals, self.vertex_count())
        &&& has_length(self.uv_0, self.vertex_count())
        &&& has_length(self.uv_1, self.vertex_count())
        &&& has_length(self.joints_0, self.vertex_count())
        &&& has_length(self.weights_0, self.vertex_count())
        &&& has_length(self.colors_0, self.vertex_count())
    }

    /// Vertex `i`: the values at `i` of the attributes that are present, and
    /// the defaults of `Vertex::at` for the others.
    pub open spec fn vertex(&self, i: int) -> Vertex {
        let d = Vertex::spec_at(attribute_or(self.positions, i, Vec3::spec_splat(Scalar::spec_zero())));
        Vertex {
            position: d.position,
            normal: attribute_or(self.normals, i, d.normal),
            uv_0: attribute_or(self.uv_0, i, d.uv_0),
            uv_1: attribute_or(self.uv_1, i, d.uv_1),
            joint_0: attribute_or(self.joints_0, i, d.joint_0),
            weight_0: attribute_or(self.weights_0, i, d.weight_0),
            color_0: attribute_or(self.colors_0, i, d.color_0),
        }
    }

    /// All vertices, in the order of the positions.
    pub open spec fn vertices(&self) -> Seq<Vertex> {
        Seq::new(self.vertex_count(), |i: int| self.vertex(i))
    }

    /// The primitive with its material named by slot. A primitive without
    /// material gets the default.
    pub open spec fn shape(&self) -> PrimitiveView<Slot> {
        PrimitiveView {
            mode: self.mode,
            material: match self.material {
                Some(i) => Slot::Material(i),
                None => Slot::Default,
            },
            vertices: self.vertices(),
            indices: match self.indices {
                Some(indices) => indices@,
                None => Seq::empty(),
            },
        }
    }
}

/// Default fill: a primitive that brings positions and nothing else gets,
/// for each position, the vertex at that position with no normal, both
/// texture coordinates at the origin, joint 0 at full weight, and white as
/// its colour.
pub proof fn lemma_positions_alone_give_defaults(primitive: PrimitiveSource)
    requires
        primitive.positions is Some,
        primitive.normals is None,
        primitive.uv_0 is None,
        primitive.uv_1 is None,
        primitive.joints_0 is None,
        primitive.weights_0 is None,
        primitive.colors_0 is None,
    ensures
        primitive.lengths_agree(),
        primitive.vertices().len() == primitive.positions.unwrap()@.len(),
        forall|i: int|
            0 <= i < primitive.vertices().len() ==> #[trigger] primitive.vertices()[i] == (Vertex {
                position: primitive.positions.unwrap()@[i],
                normal: Vec3::spec_splat(Scalar::spec_zero()),
                uv_0: Vec2::spec_splat(Scalar::spec_zero()),
                uv_1: Vec2::spec_splat(Scalar::spec_zero()),
                joint_0: Vec4::spec_splat(Scalar::spec_zero()),
                weight_0: Vec4 {
                    x: Scalar::spec_one(),
                    y: Scalar::spec_zero(),
                    z: Scalar::spec_zero(),
                    w: Scalar::spec_zero(),
                },
                color_0: Vec3::spec_splat(Scalar::spec_one()),
            }),
{
}

impl MeshSource {
    /// The mesh with the materials of its primitives named by slot.
    pub open spec fn shape(&self) -> MeshView<Slot> {
        MeshView { primitives: Seq::new(self.primitives@.len(), |i: int| self.primitives@[i].shape()) }
    }
}

impl NodeSource {
    /// The node with its attachments named by slot: mesh, camera, light, in
    /// this order, each if there is one.
    pub open spec fn shape(&self) -> NodeView<Slot> {
        let mesh = match self.mesh {
            Some(i) => seq![Slot::Mesh(i)],
            None => Seq::empty(),
        };
        let camera = match self.camera {
            Some(i) => seq![Slot::Camera(i)],
            None => Seq::empty(),
        };
        let light = match self.light {
            Some(i) => seq![Slot::Light(i)],
            None => Seq::empty(),
        };
        NodeView { transform: self.transform, resources: mesh + camera + light }
    }
}

impl SkinSource {
    /// The skin with its joints' nodes named by slot. A joint beyond the
    /// matrices that the source supplies gets the identity.
    pub open spec fn shape(&self) -> SkinView<Slot> {
        SkinView {
            joints: Seq::new(
                self.joints@.len(),
                |j: int|
                    JointView {
                        target: Slot::Node(self.joints@[j]),
                        inverse_bind_matrix: if j < self.inverse_bind_matrices@.len() {
                            self.inverse_bind_matrices@[j]
                        } else {
                            Mat4::spec_identity()
                        },
                    },
            ),
        }
    }
}

impl ChannelSource {
    /// The channel with its node named by slot. Every channel interpolates
    /// linearly.
    pub open spec fn shape(&self) -> ChannelView<Slot> {
        ChannelView {
            target: Slot::Node(self.target),
            inputs: self.inputs@,
            transformations: self.outputs@,
            interpolation: Interpolation::Linear,
        }
    }
}

impl AnimationSource {
    /// The channels, each by its shape.
    pub open spec fn channel_shapes(&self) -> Seq<ChannelView<Slot>> {
        Seq::new(self.channels@.len(), |i: int| self.channels@[i].shape())
    }

    /// The animation at time zero, with the latest keyframe time of all its
    /// channels as its length.
    pub open spec fn shape(&self) -> AnimationView<Slot> {
        let unmeasured = AnimationView {
            time: Scalar::spec_zero(),
            channels: self.channel_shapes(),
            max_animation_time: Scalar::spec_zero(),
        };
        AnimationView {
            max_animation_time: greatest(unmeasured.times(unmeasured.channels.len())),
            ..unmeasured
        }
    }
}

/// Attaches source node `node` and everything below it under graph node
/// `parent`. `fuel` bounds the depth still allowed. The result is `None`
/// where the depth runs out, where `node` names no node, or where the graph
/// is full.
pub open spec fn attach(
    nodes: Seq<NodeSource>,
    g: GraphView<Slot>,
    parent: usize,
    node: usize,
    fuel: nat,
) -> Option<GraphView<Slot>>
    decreases fuel, 0nat, 0nat,
{
    if fuel == 0 || node >= nodes.len() || g.nodes.len() >= u32::MAX {
        None
    } else {
        let index = g.nodes.len() as usize;
        let grown = GraphView {
            nodes: g.nodes.push(Slot::Node(node)),
            edges: g.edges.push((parent, index)),
        };
        attach_all(
            nodes,
            grown,
            index,
            nodes[node as int].children@,
            nodes[node as int].children@.len(),
            (fuel - 1) as nat,
        )
    }
}

/// Attaches the first `n` of `children` under `parent`, one after the
/// other, each with everything below it.
pub open spec fn attach_all(
    nodes: Seq<NodeSource>,
    g: GraphView<Slot>,
    parent: usize,
    children: Seq<usize>,
    n: nat,
    fuel: nat,
) -> Option<GraphView<Slot>>
    decreases fuel, 1nat, n,
{
    if n == 0 {
        Some(g)
    } else {
        match attach_all(nodes, g, parent, children, (n - 1) as nat, fuel) {
            Some(before) => attach(nodes, before, parent, children[n - 1], fuel),
            None => None,
        }
    }
}

impl Asset {
    /// An asset without content.
    pub fn new() -> (asset: Asset)
        ensures
            asset.samplers@.len() == 0,
            asset.images@.len() == 0,
            asset.textures@.len() == 0,
            asset.materials@.len() == 0,
            asset.cameras@.len() == 0,
            asset.meshes@.len() == 0,
            asset.lights@.len() == 0,
            asset.nodes@.len() == 0,
            asset.skins@.len() == 0,
            asset.animations@.len() == 0,
            asset.scenes@.len() == 0,
    {
        Asset {
            samplers: Vec::new(),
            images: Vec::new(),
            textures: Vec::new(),
            materials: Vec::new(),
            cameras: Vec::new(),
            meshes: Vec::new(),
            lights: Vec::new(),
            nodes: Vec::new(),
            skins: Vec::new(),
            animations: Vec::new(),
            scenes: Vec::new(),
        }
    }

    /// The sampler a texture is read through: the one it names, else the
    /// asset's first, else the default.
    pub open spec fn sampler_or_first(&self, sampler: Option<usize>) -> Slot {
        match sampler {
            Some(i) => Slot::Sampler(i),
            None => if self.samplers@.len() > 0 {
                Slot::Sampler(0)
            } else {
                Slot::Default
            },
        }
    }

    /// The base colour texture of a material: the one it names, else the
    /// asset's first, else the default.
    pub open spec fn texture_or_first(&self, texture: Option<usize>) -> Slot {
        match texture {
            Some(i) => Slot::Texture(i),
            None => if self.textures@.len() > 0 {
                Slot::Texture(0)
            } else {
                Slot::Default
            },
        }
    }

    /// Texture `k` with its image and sampler named by slot.
    pub open spec fn texture_shape(&self, k: int) -> TextureView<Slot> {
        TextureView {
            image: Slot::Image(self.textures@[k].image),
            sampler: self.sampler_or_first(self.textures@[k].sampler),
        }
    }

    /// Material `k` with its texture named by slot.
    pub open spec fn material_shape(&self, k: int) -> MaterialView<Slot> {
        MaterialView {
            base_color_factor: self.materials@[k].base_color_factor,
            base_color_texture: self.texture_or_first(self.materials@[k].base_color_texture),
        }
    }

    /// The graph of scene `k`: a root that stands for the scene itself, and
    /// below it the scene's root nodes with everything below them, in
    /// depth-first order. `None` where the hierarchy is no forest.
    pub open spec fn scene_shape(&self, k: int) -> Option<GraphView<Slot>> {
        attach_all(
            self.nodes@,
            GraphView { nodes: seq![Slot::Scene(k as usize)], edges: Seq::empty() },
            0,
            self.scenes@[k].nodes@,
            self.scenes@[k].nodes@.len(),
            self.nodes@.len(),
        )
    }

    /// The entries of the samplers, in the order of the asset.
    pub open spec fn sampler_entries(&self) -> Seq<(Slot, ResourceView<Slot>)> {
        Seq::new(
            self.samplers@.len(),
            |k: int| (Slot::Sampler(k as usize), ResourceView::Sampler(self.samplers@[k])),
        )
    }

    /// The entries of the images, in the order of the asset.
    pub open spec fn image_entries(&self) -> Seq<(Slot, ResourceView<Slot>)> {
        Seq::new(
            self.images@.len(),
            |k: int| (Slot::Image(k as usize), ResourceView::Image(self.images@[k]@)),
        )
    }

    /// The entries of the textures, in the order of the asset.
    pub open spec fn texture_entries(&self) -> Seq<(Slot, ResourceView<Slot>)> {
        Seq::new(
            self.textures@.len(),
            |k: int| (Slot::Texture(k as usize), ResourceView::Texture(self.texture_shape(k))),
        )
    }

    /// The entries of the materials, in the order of the asset.
    pub open spec fn material_entries(&self) -> Seq<(Slot, ResourceView<Slot>)> {
        Seq::new(
            self.materials@.len(),
            |k: int| (Slot::Material(k as usize), ResourceView::Material(self.material_shape(k))),
        )
    }

    /// The entries of the cameras, in the order of the asset.
    pub open spec fn camera_entries(&self) -> Seq<(Slot, ResourceView<Slot>)> {
        Seq::new(
            self.cameras@.len(),
            |k: int| (Slot::Camera(k as usize), ResourceView::Camera(self.cameras@[k])),
        )
    }

    /// The entries of the meshes, in the order of the asset.
    pub open spec fn mesh_entries(&self) -> Seq<(Slot, ResourceView<Slot>)> {
        Seq::new(
            self.meshes@.len(),
            |k: int| (Slot::Mesh(k as usize), ResourceView::Mesh(self.meshes@[k].shape())),
        )
    }

    /// The entries of the lights, in the order of the asset.
    pub open spec fn light_entries(&self) -> Seq<(Slot, ResourceView<Slot>)> {
        Seq::new(
            self.lights@.len(),
            |k: int| (Slot::Light(k as usize), ResourceView::Light(self.lights@[k])),
        )
    }

    /// The entries of the nodes, in the order of the asset.
    pub open spec fn node_entries(&self) -> Seq<(Slot, ResourceView<Slot>)> {
        Seq::new(
            self.nodes@.len(),
            |k: int| (Slot::Node(k as usize), ResourceView::Node(self.nodes@[k].shape())),
        )
    }

    /// The entries of the skins, in the order of the asset.
    pub open spec fn skin_entries(&self) -> Seq<(Slot, ResourceView<Slot>)> {
        Seq::new(
            self.skins@.len(),
            |k: int| (Slot::Skin(k as usize), ResourceView::Skin(self.skins@[k].shape())),
        )
    }

    /// The entries of the animations, in the order of the asset.
    pub open spec fn animation_entries(&self) -> Seq<(Slot, ResourceView<Slot>)> {
        Seq::new(
            self.animations@.len(),
            |k: int|
                (Slot::Animation(k as usize), ResourceView::Animation(self.animations@[k].shape())),
        )
    }

    /// The entries of the scenes, in the order of the asset.
    pub open spec fn scene_entries(&self) -> Seq<(Slot, ResourceView<Slot>)> {
        Seq::new(
            self.scenes@.len(),
            |k: int|
                (Slot::Scene(k as usize), ResourceView::SceneGraph(self.scene_shape(k).unwrap())),
        )
    }

    /// Everything an import stores, in the order in which it stores it:
    /// samplers and images before textures, textures before materials,
    /// materials before meshes, nodes before skins, animations and scenes.
    /// Each entry pairs the slot a resource is stored for with the resource,
    /// which names what it refers to by slot.
    pub open spec fn entries(&self) -> Seq<(Slot, ResourceView<Slot>)> {
        self.sampler_entries() + self.image_entries() + self.texture_entries()
            + self.material_entries() + self.camera_entries() + self.mesh_entries()
            + self.light_entries() + self.node_entries() + self.skin_entries()
            + self.animation_entries() + self.scene_entries()
    }
}

/// Whether a position, if there is one, lies below `count`.
pub open spec fn in_range(index: Option<usize>, count: nat) -> bool {
    match index {
        Some(i) => i < count,
        None => true,
    }
}

/// Whether every position in `indices` lies below `count`.
pub open spec fn all_below(indices: Seq<usize>, count: nat) -> bool {
    forall|i: int| 0 <= i < indices.len() ==> (#[trigger] indices[i]) < count
}

fn check_in_range(index: Option<usize>, count: usize) -> (ok: bool)
    ensures
        ok == in_range(index, count as nat),
{
    match index {
        Some(i) => i < count,
        None => true,
    }
}

fn check_all_below(indices: &Vec<usize>, count: usize) -> (ok: bool)
    ensures
        ok == all_below(indices@, count as nat),
{
    let mut i: usize = 0;
    while i < indices.len()
        invariant
            i <= indices@.len(),
            forall|j: int| 0 <= j < i ==> (#[trigger] indices@[j]) < count,
        decreases indices@.len() - i,
    {
        if indices[i] >= count {
            return false;
        }
        i += 1;
    }
    true
}

fn check_length<T>(attribute: &Option<Vec<T>>, count: usize) -> (ok: bool)
    ensures
        ok == has_length(*attribute, count as nat),
{
    match attribute {
        Some(values) => values.len() == count,
        None => true,
    }
}

impl PrimitiveSource {
    fn check_lengths(&self) -> (ok: bool)
        requires
            self.positions is Some,
        ensures
            ok == self.lengths_agree(),
    {
        let count = match &self.positions {
            Some(positions) => positions.len(),
            None => 0,
        };
        check_length(&self.normals, count) && check_length(&self.uv_0, count) && check_length(
            &self.uv_1,
            count,
        ) && check_length(&self.joints_0, count) && check_length(&self.weights_0, count)
            && check_length(&self.colors_0, count)
    }
}

impl MeshSource {
    /// Whether every material that a primitive names lies below `count`.
    pub open spec fn materials_below(&self, count: nat) -> bool {
        forall|p: int|
            0 <= p < self.primitives@.len() ==> in_range(
                (#[trigger] self.primitives@[p]).material,
                count,
            )
    }

    /// Whether every primitive has positions.
    pub open spec fn has_positions(&self) -> bool {
        forall|p: int|
            0 <= p < self.primitives@.len() ==> (#[trigger] self.primitives@[p]).positions is Some
    }

    /// Whether every primitive's optional attributes have one value per
    /// vertex.
    pub open spec fn lengths_agree(&self) -> bool {
        forall|p: int|
            0 <= p < self.primitives@.len() ==> (#[trigger] self.primitives@[p]).lengths_agree()
    }

    fn check_materials(&self, count: usize) -> (ok: bool)
        ensures
            ok == self.materials_below(count as nat),
    {
        let mut p: usize = 0;
        while p < self.primitives.len()
            invariant
                p <= self.primitives@.len(),
                forall|q: int|
                    0 <= q < p ==> in_range((#[trigger] self.primitives@[q]).material, count as nat),
            decreases self.primitives@.len() - p,
        {
            if !check_in_range(self.primitives[p].material, count) {
                return false;
            }
            p += 1;
        }
        true
    }

    fn check_positions(&self) -> (ok: bool)
        ensures
            ok == self.has_positions(),
    {
        let mut p: usize = 0;
        while p < self.primitives.len()
            invariant
                p <= self.primitives@.len(),
                forall|q: int| 0 <= q < p ==> (#[trigger] self.primitives@[q]).positions is Some,
            decreases self.primitives@.len() - p,
        {
            if self.primitives[p].positions.is_none() {
                return false;
            }
            p += 1;
        }
        true
    }

    fn check_lengths(&self) -> (ok: bool)
        requires
            self.has_positions(),
        ensures
            ok == self.lengths_agree(),
    {
        let mut p: usize = 0;
        while p < self.primitives.len()
            invariant
                self.has_positions(),
                p <= self.primitives@.len(),
                forall|q: int| 0 <= q < p ==> (#[trigger] self.primitives@[q]).lengths_agree(),
            decreases self.primitives@.len() - p,
        {
            if !self.primitives[p].check_lengths() {
                return false;
            }
            p += 1;
        }
        true
    }
}

impl AnimationSource {
    /// Whether every channel's node lies below `count`.
    pub open spec fn targets_below(&self, count: nat) -> bool {
        forall|c: int| 0 <= c < self.channels@.len() ==> (#[trigger] self.channels@[c]).target < count
    }

    fn check_targets(&self, count: usize) -> (ok: bool)
        ensures
            ok == self.targets_below(count as nat),
    {
        let mut c: usize = 0;
        while c < self.channels.len()
            invariant
                c <= self.channels@.len(),
                forall|d: int| 0 <= d < c ==> (#[trigger] self.channels@[d]).target < count,
            decreases self.channels@.len() - c,
        {
            if self.channels[c].target >= count {
                return false;
            }
            c += 1;
        }
        true
    }
}

impl Asset {
    /// Whether texture `k` names an image and, if any, a sampler of the
    /// asset.
    pub open spec fn texture_resolves(&self, k: int) -> bool {
        &&& in_range(self.textures@[k].sampler, self.samplers@.len())
        &&& self.textures@[k].image < self.images@.len()
    }

    /// Whether material `k` names, if any, a texture of the asset.
    pub open spec fn material_resolves(&self, k: int) -> bool {
        in_range(self.materials@[k].base_color_texture, self.textures@.len())
    }

    /// Whether every primitive of mesh `k` names, if any, a material of the
    /// asset.
    pub open spec fn mesh_resolves(&self, k: int) -> bool {
        self.meshes@[k].materials_below(self.materials@.len())
    }

    /// Whether node `k` names only a mesh, a camera, a light and children of
    /// the asset.
    pub open spec fn node_resolves(&self, k: int) -> bool {
        &&& in_range(self.nodes@[k].mesh, self.meshes@.len())
        &&& in_range(self.nodes@[k].camera, self.cameras@.len())
        &&& in_range(self.nodes@[k].light, self.lights@.len())
        &&& all_below(self.nodes@[k].children@, self.nodes@.len())
    }

    /// Whether every joint of skin `k` names a node of the asset.
    pub open spec fn skin_resolves(&self, k: int) -> bool {
        all_below(self.skins@[k].joints@, self.nodes@.len())
    }

    /// Whether every channel of animation `k` names a node of the asset.
    pub open spec fn animation_resolves(&self, k: int) -> bool {
        self.animations@[k].targets_below(self.nodes@.len())
    }

    /// Whether every root of scene `k` names a node of the asset.
    pub open spec fn scene_resolves(&self, k: int) -> bool {
        all_below(self.scenes@[k].nodes@, self.nodes@.len())
    }

    /// Whether every position in the asset names an element of the asset.
    pub open spec fn resolves(&self) -> bool {
        &&& forall|k: int| 0 <= k < self.textures@.len() ==> #[trigger] self.texture_resolves(k)
        &&& forall|k: int| 0 <= k < self.materials@.len() ==> #[trigger] self.material_resolves(k)
        &&& forall|k: int| 0 <= k < self.meshes@.len() ==> #[trigger] self.mesh_resolves(k)
        &&& forall|k: int| 0 <= k < self.nodes@.len() ==> #[trigger] self.node_resolves(k)
        &&& forall|k: int| 0 <= k < self.skins@.len() ==> #[trigger] self.skin_resolves(k)
        &&& forall|k: int| 0 <= k < self.animations@.len() ==> #[trigger] self.animation_resolves(k)
        &&& forall|k: int| 0 <= k < self.scenes@.len() ==> #[trigger] self.scene_resolves(k)
    }

    /// Whether every primitive of every mesh has positions.
    pub open spec fn has_positions(&self) -> bool {
        forall|k: int| 0 <= k < self.meshes@.len() ==> (#[trigger] self.meshes@[k]).has_positions()
    }

    /// Whether the optional attributes of every primitive have one value per
    /// vertex.
    pub open spec fn lengths_agree(&self) -> bool {
        forall|k: int| 0 <= k < self.meshes@.len() ==> (#[trigger] self.meshes@[k]).lengths_agree()
    }

    /// Whether the nodes below every scene form a forest that a graph can
    /// hold.
    pub open spec fn is_forest(&self) -> bool {
        forall|k: int| 0 <= k < self.scenes@.len() ==> (#[trigger] self.scene_shape(k)) is Some
    }

    /// Why the asset cannot be imported, if it cannot. Of several reasons
    /// the first in this order is given: a dangling reference, a primitive
    /// without positions, an attribute of the wrong length, a hierarchy that
    /// is no forest.
    pub open spec fn failure(&self) -> Option<ImportError> {
        if !self.resolves() {
            Some(ImportError::DanglingReference)
        } else if !self.has_positions() {
            Some(ImportError::MissingRequiredAttribute)
        } else if !self.lengths_agree() {
            Some(ImportError::AttributeLengthMismatch)
        } else if !self.is_forest() {
            Some(ImportError::MalformedAsset)
        } else {
            None
        }
    }

    fn check_textures(&self) -> (ok: bool)
        ensures
            ok == forall|k: int| 0 <= k < self.textures@.len() ==> #[trigger] self.texture_resolves(k),
    {
        let mut k: usize = 0;
        while k < self.textures.len()
            invariant
                k <= self.textures@.len(),
                forall|j: int| 0 <= j < k ==> #[trigger] self.texture_resolves(j),
            decreases self.textures@.len() - k,
        {
            let texture = &self.textures[k];
            if !check_in_range(texture.sampler, self.samplers.len()) || texture.image
                >= self.images.len() {
                assert(!self.texture_resolves(k as int));
                return false;
            }
            k += 1;
        }
        true
    }

    fn check_materials(&self) -> (ok: bool)
        ensures
            ok == forall|k: int|
                0 <= k < self.materials@.len() ==> #[trigger] self.material_resolves(k),
    {
        let mut k: usize = 0;
        while k < self.materials.len()
            invariant
                k <= self.materials@.len(),
                forall|j: int| 0 <= j < k ==> #[trigger] self.material_resolves(j),
            decreases self.materials@.len() - k,
        {
            if !check_in_range(self.materials[k].base_color_texture, self.textures.len()) {
                assert(!self.material_resolves(k as int));
                return false;
            }
            k += 1;
        }
        true
    }

    fn check_meshes(&self) -> (ok: bool)
        ensures
            ok == forall|k: int| 0 <= k < self.meshes@.len() ==> #[trigger] self.mesh_resolves(k),
    {
        let mut k: usize = 0;
        while k < self.meshes.len()
            invariant
                k <= self.meshes@.len(),
                forall|j: int| 0 <= j < k ==> #[trigger] self.mesh_resolves(j),
            decreases self.meshes@.len() - k,
        {
            if !self.meshes[k].check_materials(self.materials.len()) {
                assert(!self.mesh_resolves(k as int));
                return false;
            }
            k += 1;
        }
        true
    }

    fn check_nodes(&self) -> (ok: bool)
        ensures
            ok == forall|k: int| 0 <= k < self.nodes@.len() ==> #[trigger] self.node_resolves(k),
    {
        let mut k: usize = 0;
        while k < self.nodes.len()
            invariant
                k <= self.nodes@.len(),
                forall|j: int| 0 <= j < k ==> #[trigger] self.node_resolves(j),
            decreases self.nodes@.len() - k,
        {
            let node = &self.nodes[k];
            if !check_in_range(node.mesh, self.meshes.len()) || !check_in_range(
                node.camera,
                self.cameras.len(),
            ) || !check_in_range(node.light, self.lights.len()) || !check_all_below(
                &node.children,
                self.nodes.len(),
            ) {
                assert(!self.node_resolves(k as int));
                return false;
            }
            k += 1;
        }
        true
    }

    fn check_skins(&self) -> (ok: bool)
        ensures
            ok == forall|k: int| 0 <= k < self.skins@.len() ==> #[trigger] self.skin_resolves(k),
    {
        let mut k: usize = 0;
        while k < self.skins.len()
            invariant
                k <= self.skins@.len(),
                forall|j: int| 0 <= j < k ==> #[trigger] self.skin_resolves(j),
            decreases self.skins@.len() - k,
        {
            if !check_all_below(&self.skins[k].joints, self.nodes.len()) {
                assert(!self.skin_resolves(k as int));
                return false;
            }
            k += 1;
        }
        true
    }

    fn check_animations(&self) -> (ok: bool)
        ensures
            ok == forall|k: int|
                0 <= k < self.animations@.len() ==> #[trigger] self.animation_resolves(k),
    {
        let mut k: usize = 0;
        while k < self.animations.len()
            invariant
                k <= self.animations@.len(),
                forall|j: int| 0 <= j < k ==> #[trigger] self.animation_resolves(j),
            decreases self.animations@.len() - k,
        {
            if !self.animations[k].check_targets(self.nodes.len()) {
                assert(!self.animation_resolves(k as int));
                return false;
            }
            k += 1;
        }
        true
    }

    fn check_scenes(&self) -> (ok: bool)
        ensures
            ok == forall|k: int| 0 <= k < self.scenes@.len() ==> #[trigger] self.scene_resolves(k),
    {
        let mut k: usize = 0;
        while k < self.scenes.len()
            invariant
                k <= self.scenes@.len(),
                forall|j: int| 0 <= j < k ==> #[trigger] self.scene_resolves(j),
            decreases self.scenes@.len() - k,
        {
            if !check_all_below(&self.scenes[k].nodes, self.nodes.len()) {
                assert(!self.scene_resolves(k as int));
                return false;
            }
            k += 1;
        }
        true
    }

    fn check_positions(&self) -> (ok: bool)
        ensures
            ok == self.has_positions(),
    {
        let mut k: usize = 0;
        while k < self.meshes.len()
            invariant
                k <= self.meshes@.len(),
                forall|j: int| 0 <= j < k ==> (#[trigger] self.meshes@[j]).has_positions(),
            decreases self.meshes@.len() - k,
        {
            if !self.meshes[k].check_positions() {
                return false;
            }
            k += 1;
        }
        true
    }

    fn check_lengths(&self) -> (ok: bool)
        requires
            self.has_positions(),
        ensures
            ok == self.lengths_agree(),
    {
        let mut k: usize = 0;
        while k < self.meshes.len()
            invariant
                self.has_positions(),
                k <= self.meshes@.len(),
                forall|j: int| 0 <= j < k ==> (#[trigger] self.meshes@[j]).lengths_agree(),
            decreases self.meshes@.len() - k,
        {
            if !self.meshes[k].check_lengths() {
                return false;
            }
            k += 1;
        }
        true
    }

    /// Checks what can be checked before anything is built. `None` means
    /// that the asset can be imported unless its hierarchy is no forest.
    pub fn validate(&self) -> (problem: Option<ImportError>)
        ensures
            match problem {
                Some(error) => self.failure() == Some(error) && error != ImportError::MalformedAsset,
                None => self.resolves() && self.has_positions() && self.lengths_agree(),
            },
    {
        if !(self.check_textures() && self.check_materials() && self.check_meshes()
            && self.check_nodes() && self.check_skins() && self.check_animations()
            && self.check_scenes()) {
            return Some(ImportError::DanglingReference);
        }
        if !self.check_positions() {
            return Some(ImportError::MissingRequiredAttribute);
        }
        if !self.check_lengths() {
            return Some(ImportError::AttributeLengthMismatch);
        }
        None
    }
}

/// The identifiers of an import: one for each element of the asset, kind
/// by kind, in the order of the asset.
#[derive(Clone, Debug, PartialEq, Eq)]
pub struct IdTable {
    pub samplers: Vec<String>,
    pub images: Vec<String>,
    pub textures: Vec<String>,
    pub materials: Vec<String>,
    pub cameras: Vec<String>,
    pub meshes: Vec<String>,
    pub lights: Vec<String>,
    pub nodes: Vec<String>,
    pub skins: Vec<String>,
    pub animations: Vec<String>,
    pub scenes: Vec<String>,
}

impl IdTable {
    /// Whether the table has exactly one identifier for each element of
    /// `asset`.
    pub open spec fn covers(&self, asset: &Asset) -> bool {
        &&& self.samplers@.len() == asset.samplers@.len()
        &&& self.images@.len() == asset.images@.len()
        &&& self.textures@.len() == asset.textures@.len()
        &&& self.materials@.len() == asset.materials@.len()
        &&& self.cameras@.len() == asset.cameras@.len()
        &&& self.meshes@.len() == asset.meshes@.len()
        &&& self.lights@.len() == asset.lights@.len()
        &&& self.nodes@.len() == asset.nodes@.len()
        &&& self.skins@.len() == asset.skins@.len()
        &&& self.animations@.len() == asset.animations@.len()
        &&& self.scenes@.len() == asset.scenes@.len()
    }

    /// The identifier that stands for `slot`. The default is named
    /// `default`.
    pub open spec fn name(&self, slot: Slot) -> Seq<char> {
        match slot {
            Slot::Sampler(i) => self.samplers@[i as int]@,
            Slot::Image(i) => self.images@[i as int]@,
            Slot::Texture(i) => self.textures@[i as int]@,
            Slot::Material(i) => self.materials@[i as int]@,
            Slot::Camera(i) => self.cameras@[i as int]@,
            Slot::Mesh(i) => self.meshes@[i as int]@,
            Slot::Light(i) => self.lights@[i as int]@,
            Slot::Node(i) => self.nodes@[i as int]@,
            Slot::Skin(i) => self.skins@[i as int]@,
            Slot::Animation(i) => self.animations@[i as int]@,
            Slot::Scene(i) => self.scenes@[i as int]@,
            Slot::Default => "default"@,
        }
    }

    /// Whether every identifier of the table has the 36 characters of a
    /// UUID in text.
    pub open spec fn all_uuids(&self) -> bool {
        forall|slot: Slot| slot != Slot::Default && #[trigger] self.lists(slot) ==> self.name(slot).len() == 36
    }

    /// Whether the table has an identifier for `slot`.
    pub open spec fn lists(&self, slot: Slot) -> bool {
        match slot {
            Slot::Sampler(i) => i < self.samplers@.len(),
            Slot::Image(i) => i < self.images@.len(),
            Slot::Texture(i) => i < self.textures@.len(),
            Slot::Material(i) => i < self.materials@.len(),
            Slot::Camera(i) => i < self.cameras@.len(),
            Slot::Mesh(i) => i < self.meshes@.len(),
            Slot::Light(i) => i < self.lights@.len(),
            Slot::Node(i) => i < self.nodes@.len(),
            Slot::Skin(i) => i < self.skins@.len(),
            Slot::Animation(i) => i < self.animations@.len(),
            Slot::Scene(i) => i < self.scenes@.len(),
            Slot::Default => true,
        }
    }

    /// A table of fresh identifiers for `asset`.
    pub fn generate(asset: &Asset) -> (ids: IdTable)
        ensures
            ids.covers(asset),
            ids.all_uuids(),
    {
        IdTable {
            samplers: fresh_ids(asset.samplers.len()),
            images: fresh_ids(asset.images.len()),
            textures: fresh_ids(asset.textures.len()),
            materials: fresh_ids(asset.materials.len()),
            cameras: fresh_ids(asset.cameras.len()),
            meshes: fresh_ids(asset.meshes.len()),
            lights: fresh_ids(asset.lights.len()),
            nodes: fresh_ids(asset.nodes.len()),
            skins: fresh_ids(asset.skins.len()),
            animations: fresh_ids(asset.animations.len()),
            scenes: fresh_ids(asset.scenes.len()),
        }
    }

    /// Whether the table has exactly one identifier for each element of
    /// `asset`.
    pub fn is_for(&self, asset: &Asset) -> (ok: bool)
        ensures
            ok == self.covers(asset),
    {
        self.samplers.len() == asset.samplers.len() && self.images.len() == asset.images.len()
            && self.textures.len() == asset.textures.len() && self.materials.len()
            == asset.materials.len() && self.cameras.len() == asset.cameras.len()
            && self.meshes.len() == asset.meshes.len() && self.lights.len() == asset.lights.len()
            && self.nodes.len() == asset.nodes.len() && self.skins.len() == asset.skins.len()
            && self.animations.len() == asset.animations.len() && self.scenes.len()
            == asset.scenes.len()
    }
}

/// The naming of slots that a table stands for.
pub open spec fn naming(ids: &IdTable) -> spec_fn(Slot) -> Seq<char> {
    |slot: Slot| ids.name(slot)
}

/// Entries with every slot, as key and inside the resources, replaced by
/// its identifier.
pub open spec fn named(entries: Seq<(Slot, ResourceView<Slot>)>, ids: &IdTable) -> Seq<
    (Seq<char>, ResourceView<Seq<char>>),
> {
    Seq::new(
        entries.len(),
        |n: int| (ids.name(entries[n].0), entries[n].1.rename(naming(ids))),
    )
}

/// Naming a concatenation is concatenating what was named.
proof fn lemma_named_concat(
    a: Seq<(Slot, ResourceView<Slot>)>,
    b: Seq<(Slot, ResourceView<Slot>)>,
    ids: &IdTable,
)
    ensures
        named(a + b, ids) == named(a, ids) + named(b, ids),
{
    assert(named(a + b, ids) =~= named(a, ids) + named(b, ids));
}

/// What an import of `asset` under the identifiers `ids` stores.
pub open spec fn imported(asset: &Asset, ids: &IdTable) -> Map<Seq<char>, ResourceView<Seq<char>>> {
    insert_all(Map::empty(), named(asset.entries(), ids))
}

/// The identifier of the graph to show after an import: that of the
/// asset's first scene, or the empty identifier where it has no scene.
pub open spec fn active_graph(asset: &Asset, ids: &IdTable) -> Seq<char> {
    if asset.scenes@.len() > 0 {
        ids.name(Slot::Scene(0))
    } else {
        Seq::empty()
    }
}

/// Why an import of `asset` under `ids` fails, if it does: a table that
/// leaves an element without identifier leaves references dangling; apart
/// from that the asset alone decides.
pub open spec fn import_failure(asset: &Asset, ids: &IdTable) -> Option<ImportError> {
    if !ids.covers(asset) {
        Some(ImportError::DanglingReference)
    } else {
        asset.failure()
    }
}

fn file(store: &mut ResourceMap, id: &String, resource: Resource)
    ensures
        contents(final(store)) == contents(old(store)).insert(id@, resource@),
{
    let _ = store.insert(id.clone(), resource);
    assert(contents(store) =~= contents(old(store)).insert(id@, resource@));
}

fn copied<T: Copy>(values: &Vec<T>) -> (copy: Vec<T>)
    ensures
        copy@ == values@,
{
    let mut copy: Vec<T> = Vec::new();
    let mut i: usize = 0;
    while i < values.len()
        invariant
            i <= values@.len(),
            copy@ == values@.take(i as int),
        decreases values@.len() - i,
    {
        copy.push(values[i]);
        i += 1;
        assert(copy@ =~= values@.take(i as int));
    }
    assert(values@.take(i as int) =~= values@);
    copy
}

fn pick<T: Copy>(attribute: &Option<Vec<T>>, i: usize, default: T) -> (value: T)
    requires
        attribute matches Some(values) ==> i < values@.len(),
    ensures
        value == attribute_or(*attribute, i as int, default),
{
    match attribute {
        Some(values) => values[i],
        None => default,
    }
}

fn first_or_default(ids: &Vec<String>) -> (id: String)
    ensures
        id@ == if ids@.len() > 0 {
            ids@[0]@
        } else {
            "default"@
        },
{
    if ids.len() > 0 {
        ids[0].clone()
    } else {
        "default".to_owned()
    }
}

impl PrimitiveSource {
    /// The vertices of the primitive: for each position the values of the
    /// attributes that the source brings, and defaults for the others.
    /// A primitive without positions has no vertices to build, and one
    /// whose attributes differ in length from its positions is refused.
    pub fn build_vertices(&self) -> (result: Result<Vec<Vertex>, ImportError>)
        ensures
            match result {
                Ok(vertices) => {
                    &&& self.positions is Some
                    &&& self.lengths_agree()
                    &&& vertices@ == self.vertices()
                },
                Err(ImportError::MissingRequiredAttribute) => self.positions is None,
                Err(ImportError::AttributeLengthMismatch) => {
                    &&& self.positions is Some
                    &&& !self.lengths_agree()
                },
                Err(_) => false,
            },
    {
        if self.positions.is_none() {
            return Err(ImportError::MissingRequiredAttribute);
        }
        if !self.check_lengths() {
            return Err(ImportError::AttributeLengthMismatch);
        }
        Ok(self.assemble())
    }

    fn assemble(&self) -> (vertices: Vec<Vertex>)
        requires
            self.positions is Some,
            self.lengths_agree(),
        ensures
            vertices@ == self.vertices(),
    {
        let mut vertices: Vec<Vertex> = Vec::new();
        match &self.positions {
            Some(positions) => {
                let mut i: usize = 0;
                while i < positions.len()
                    invariant
                        self.positions == Some(*positions),
                        self.lengths_agree(),
                        i <= positions@.len(),
                        vertices@ == Seq::new(i as nat, |j: int| self.vertex(j)),
                    decreases positions@.len() - i,
                {
                    let d = Vertex::at(positions[i]);
                    let vertex = Vertex {
                        position: d.position,
                        normal: pick(&self.normals, i, d.normal),
                        uv_0: pick(&self.uv_0, i, d.uv_0),
                        uv_1: pick(&self.uv_1, i, d.uv_1),
                        joint_0: pick(&self.joints_0, i, d.joint_0),
                        weight_0: pick(&self.weights_0, i, d.weight_0),
                        color_0: pick(&self.colors_0, i, d.color_0),
                    };
                    assert(vertex == self.vertex(i as int));
                    vertices.push(vertex);
                    i += 1;
                    assert(vertices@ =~= Seq::new(i as nat, |j: int| self.vertex(j)));
                }
            },
            None => {},
        }
        vertices
    }

    fn import(&self, ids: &IdTable) -> (primitive: Primitive)
        requires
            self.positions is Some,
            self.lengths_agree(),
            in_range(self.material, ids.materials@.len()),
        ensures
            primitive@ == self.shape().rename(naming(ids)),
    {
        let material = match self.material {
            Some(i) => ids.materials[i].clone(),
            None => "default".to_owned(),
        };
        let indices = match &self.indices {
            Some(indices) => copied(indices),
            None => Vec::new(),
        };
        Primitive { mode: self.mode, material, vertices: self.assemble(), indices }
    }
}

impl MeshSource {
    fn import(&self, ids: &IdTable) -> (mesh: Mesh)
        requires
            self.has_positions(),
            self.lengths_agree(),
            self.materials_below(ids.materials@.len()),
        ensures
            mesh@ == self.shape().rename(naming(ids)),
    {
        let mut primitives: Vec<Primitive> = Vec::new();
        let mut p: usize = 0;
        while p < self.primitives.len()
            invariant
                self.has_positions(),
                self.lengths_agree(),
                self.materials_below(ids.materials@.len()),
                p <= self.primitives@.len(),
                primitives@.len() == p,
                forall|q: int|
                    0 <= q < p ==> (#[trigger] primitives@[q])@ == self.primitives@[q].shape().rename(
                        naming(ids),
                    ),
            decreases self.primitives@.len() - p,
        {
            primitives.push(self.primitives[p].import(ids));
            p += 1;
        }
        let mesh = Mesh { primitives };
        assert(mesh@.primitives =~= self.shape().rename(naming(ids)).primitives);
        mesh
    }
}

impl NodeSource {
    fn import(&self, ids: &IdTable) -> (node: Node)
        requires
            in_range(self.mesh, ids.meshes@.len()),
            in_range(self.camera, ids.cameras@.len()),
            in_range(self.light, ids.lights@.len()),
        ensures
            node@ == self.shape().rename(naming(ids)),
    {
        let mut resources: Vec<String> = Vec::new();
        if let Some(i) = self.mesh {
            resources.push(ids.meshes[i].clone());
        }
        if let Some(i) = self.camera {
            resources.push(ids.cameras[i].clone());
        }
        if let Some(i) = self.light {
            resources.push(ids.lights[i].clone());
        }
        let node = Node { transform: self.transform, resources };
        assert(node@.resources =~= self.shape().rename(naming(ids)).resources);
        node
    }
}

impl SkinSource {
    fn import(&self, ids: &IdTable) -> (skin: Skin)
        requires
            all_below(self.joints@, ids.nodes@.len()),
        ensures
            skin@ == self.shape().rename(naming(ids)),
    {
        let mut joints: Vec<Joint> = Vec::new();
        let mut j: usize = 0;
        while j < self.joints.len()
            invariant
                all_below(self.joints@, ids.nodes@.len()),
                j <= self.joints@.len(),
                joints@.len() == j,
                forall|q: int|
                    0 <= q < j ==> (#[trigger] joints@[q])@ == self.shape().joints[q].rename(
                        naming(ids),
                    ),
            decreases self.joints@.len() - j,
        {
            let inverse_bind_matrix = if j < self.inverse_bind_matrices.len() {
                self.inverse_bind_matrices[j]
            } else {
                Mat4::identity()
            };
            joints.push(Joint { target: ids.nodes[self.joints[j]].clone(), inverse_bind_matrix });
            j += 1;
        }
        let skin = Skin { joints };
        assert(skin@.joints =~= self.shape().rename(naming(ids)).joints);
        skin
    }
}

fn copied_outputs(outputs: &TransformationSet) -> (copy: TransformationSet)
    ensures
        copy@ == outputs@,
{
    match outputs {
        TransformationSet::Translations(values) => TransformationSet::Translations(copied(values)),
        TransformationSet::Rotations(values) => TransformationSet::Rotations(copied(values)),
        TransformationSet::Scales(values) => TransformationSet::Scales(copied(values)),
        TransformationSet::MorphTargetWeights(values) => TransformationSet::MorphTargetWeights(
            copied(values),
        ),
    }
}

impl ChannelSource {
    fn import(&self, ids: &IdTable) -> (channel: Channel)
        requires
            self.target < ids.nodes@.len(),
        ensures
            channel@ == self.shape().rename(naming(ids)),
    {
        Channel {
            target: ids.nodes[self.target].clone(),
            inputs: copied(&self.inputs),
            transformations: copied_outputs(&self.outputs),
            interpolation: Interpolation::default(),
        }
    }
}

/// The keyframe times of an animation depend on its channels alone.
proof fn lemma_times_of_channels(a: AnimationView<Slot>, b: AnimationView<Slot>, n: nat)
    requires
        a.channels == b.channels,
    ensures
        a.times(n) == b.times(n),
    decreases n,
{
    if n > 0 {
        lemma_times_of_channels(a, b, (n - 1) as nat);
    }
}

impl AnimationSource {
    /// The time of the latest keyframe of any channel: the largest of zero
    /// and all keyframe times, NaNs left aside.
    pub fn latest_time(&self) -> (latest: Scalar)
        ensures
            latest == self.shape().max_animation_time,
            self.shape().max_time_is_latest(),
            is_maximum_of(self.shape().times(self.channels@.len()), latest),
    {
        proof {
            let unmeasured = AnimationView {
                time: Scalar::spec_zero(),
                channels: self.channel_shapes(),
                max_animation_time: Scalar::spec_zero(),
            };
            lemma_times_of_channels(self.shape(), unmeasured, self.channels@.len());
            lemma_greatest_is_maximum(self.shape().times(self.channels@.len()));
        }
        let ghost view = AnimationView {
            time: Scalar::spec_zero(),
            channels: self.channel_shapes(),
            max_animation_time: Scalar::spec_zero(),
        };
        let mut latest = Scalar::zero();
        let mut c: usize = 0;
        while c < self.channels.len()
            invariant
                c <= self.channels@.len(),
                view.channels == self.channel_shapes(),
                latest == greatest(view.times(c as nat)),
            decreases self.channels@.len() - c,
        {
            let inputs = &self.channels[c].inputs;
            assert(view.channels[c as int].inputs == inputs@);
            let mut i: usize = 0;
            while i < inputs.len()
                invariant
                    i <= inputs@.len(),
                    latest == greatest(view.times(c as nat) + inputs@.take(i as int)),
                decreases inputs@.len() - i,
            {
                proof {
                    lemma_greatest_push(view.times(c as nat) + inputs@.take(i as int), inputs@[i as int]);
                    assert((view.times(c as nat) + inputs@.take(i as int)).push(inputs@[i as int])
                        =~= view.times(c as nat) + inputs@.take(i + 1));
                }
                latest = latest.max(inputs[i]);
                i += 1;
            }
            assert(inputs@.take(i as int) =~= inputs@);
            c += 1;
        }
        latest
    }

    fn import(&self, ids: &IdTable) -> (animation: Animation)
        requires
            self.targets_below(ids.nodes@.len()),
        ensures
            animation@ == self.shape().rename(naming(ids)),
    {
        let mut channels: Vec<Channel> = Vec::new();
        let mut c: usize = 0;
        while c < self.channels.len()
            invariant
                self.targets_below(ids.nodes@.len()),
                c <= self.channels@.len(),
                channels@.len() == c,
                forall|q: int|
                    0 <= q < c ==> (#[trigger] channels@[q])@ == self.channels@[q].shape().rename(
                        naming(ids),
                    ),
            decreases self.channels@.len() - c,
        {
            channels.push(self.channels[c].import(ids));
            c += 1;
        }
        let animation = Animation {
            time: Scalar::zero(),
            channels,
            max_animation_time: self.latest_time(),
        };
        assert(animation@.channels =~= self.shape().rename(naming(ids)).channels);
        animation
    }
}

fn import_samplers(asset: &Asset, ids: &IdTable, store: &mut ResourceMap)
    requires
        ids.covers(asset),
        asset.resolves(),
        asset.has_positions(),
        asset.lengths_agree(),
    ensures
        contents(final(store)) == insert_all(
            contents(old(store)),
            named(asset.sampler_entries(), ids),
        ),
{
    let ghost start = contents(store);
    let ghost entries = named(asset.sampler_entries(), ids);
    let mut k: usize = 0;
    while k < asset.samplers.len()
        invariant
            ids.covers(asset),
            asset.resolves(),
            asset.has_positions(),
            asset.lengths_agree(),
            entries == named(asset.sampler_entries(), ids),
            k <= asset.samplers@.len(),
            contents(store) == insert_all(start, entries.take(k as int)),
        decreases asset.samplers@.len() - k,
    {
        let resource = Resource::Sampler(asset.samplers[k]);
        proof {
            assert(entries[k as int].1 == resource@);
            lemma_insert_all_step(start, entries, k as int);
        }
        file(store, &ids.samplers[k], resource);
        k += 1;
    }
    assert(entries.take(k as int) =~= entries);
}

fn import_images(asset: &Asset, ids: &IdTable, store: &mut ResourceMap)
    requires
        ids.covers(asset),
        asset.resolves(),
        asset.has_positions(),
        asset.lengths_agree(),
    ensures
        contents(final(store)) == insert_all(
            contents(old(store)),
            named(asset.image_entries(), ids),
        ),
{
    let ghost start = contents(store);
    let ghost entries = named(asset.image_entries(), ids);
    let mut k: usize = 0;
    while k < asset.images.len()
        invariant
            ids.covers(asset),
            asset.resolves(),
            asset.has_positions(),
            asset.lengths_agree(),
            entries == named(asset.image_entries(), ids),
            k <= asset.images@.len(),
            contents(store) == insert_all(start, entries.take(k as int)),
        decreases asset.images@.len() - k,
    {
        let source = &asset.images[k];
        let resource = Resource::Image(
            Image {
                pixels: copied(&source.pixels),
                format: source.format,
                width: source.width,
                height: source.height,
            },
        );
        proof {
            assert(entries[k as int].1 == resource@);
            lemma_insert_all_step(start, entries, k as int);
        }
        file(store, &ids.images[k], resource);
        k += 1;
    }
    assert(entries.take(k as int) =~= entries);
}

fn import_textures(asset: &Asset, ids: &IdTable, store: &mut ResourceMap)
    requires
        ids.covers(asset),
        asset.resolves(),
        asset.has_positions(),
        asset.lengths_agree(),
    ensures
        contents(final(store)) == insert_all(
            contents(old(store)),
            named(asset.texture_entries(), ids),
        ),
{
    let ghost start = contents(store);
    let ghost entries = named(asset.texture_entries(), ids);
    let mut k: usize = 0;
    while k < asset.textures.len()
        invariant
            ids.covers(asset),
            asset.resolves(),
            asset.has_positions(),
            asset.lengths_agree(),
            entries == named(asset.texture_entries(), ids),
            k <= asset.textures@.len(),
            contents(store) == insert_all(start, entries.take(k as int)),
        decreases asset.textures@.len() - k,
    {
        assert(asset.texture_resolves(k as int));
        let source = &asset.textures[k];
        let texture = Texture {
            image: ids.images[source.image].clone(),
            sampler: match source.sampler {
                Some(i) => ids.samplers[i].clone(),
                None => first_or_default(&ids.samplers),
            },
        };
        let resource = Resource::Texture(texture);
        proof {
            assert(texture@ == asset.texture_shape(k as int).rename(naming(ids)));
            assert(entries[k as int].1 == resource@);
            lemma_insert_all_step(start, entries, k as int);
        }
        file(store, &ids.textures[k], resource);
        k += 1;
    }
    assert(entries.take(k as int) =~= entries);
}

fn import_materials(asset: &Asset, ids: &IdTable, store: &mut ResourceMap)
    requires
        ids.covers(asset),
        asset.resolves(),
        asset.has_positions(),
        asset.lengths_agree(),
    ensures
        contents(final(store)) == insert_all(
            contents(old(store)),
            named(asset.material_entries(), ids),
        ),
{
    let ghost start = contents(store);
    let ghost entries = named(asset.material_entries(), ids);
    let mut k: usize = 0;
    while k < asset.materials.len()
        invariant
            ids.covers(asset),
            asset.resolves(),
            asset.has_positions(),
            asset.lengths_agree(),
            entries == named(asset.material_entries(), ids),
            k <= asset.materials@.len(),
            contents(store) == insert_all(start, entries.take(k as int)),
        decreases asset.materials@.len() - k,
    {
        assert(asset.material_resolves(k as int));
        let source = &asset.materials[k];
        let material = Material {
            base_color_factor: source.base_color_factor,
            base_color_texture: match source.base_color_texture {
                Some(i) => ids.textures[i].clone(),
                None => first_or_default(&ids.textures),
            },
        };
        let resource = Resource::Material(material);
        proof {
            assert(material@ == asset.material_shape(k as int).rename(naming(ids)));
            assert(entries[k as int].1 == resource@);
            lemma_insert_all_step(start, entries, k as int);
        }
        file(store, &ids.materials[k], resource);
        k += 1;
    }
    assert(entries.take(k as int) =~= entries);
}

fn import_cameras(asset: &Asset, ids: &IdTable, store: &mut ResourceMap)
    requires
        ids.covers(asset),
        asset.resolves(),
        asset.has_positions(),
        asset.lengths_agree(),
    ensures
        contents(final(store)) == insert_all(
            contents(old(store)),
            named(asset.camera_entries(), ids),
        ),
{
    let ghost start = contents(store);
    let ghost entries = named(asset.camera_entries(), ids);
    let mut k: usize = 0;
    while k < asset.cameras.len()
        invariant
            ids.covers(asset),
            asset.resolves(),
            asset.has_positions(),
            asset.lengths_agree(),
            entries == named(asset.camera_entries(), ids),
            k <= asset.cameras@.len(),
            contents(store) == insert_all(start, entries.take(k as int)),
        decreases asset.cameras@.len() - k,
    {
        let resource = Resource::Camera(asset.cameras[k]);
        proof {
            assert(entries[k as int].1 == resource@);
            lemma_insert_all_step(start, entries, k as int);
        }
        file(store, &ids.cameras[k], resource);
        k += 1;
    }
    assert(entries.take(k as int) =~= entries);
}

fn import_meshes(asset: &Asset, ids: &IdTable, store: &mut ResourceMap)
    requires
        ids.covers(asset),
        asset.resolves(),
        asset.has_positions(),
        asset.lengths_agree(),
    ensures
        contents(final(store)) == insert_all(
            contents(old(store)),
            named(asset.mesh_entries(), ids),
        ),
{
    let ghost start = contents(store);
    let ghost entries = named(asset.mesh_entries(), ids);
    let mut k: usize = 0;
    while k < asset.meshes.len()
        invariant
            ids.covers(asset),
            asset.resolves(),
            asset.has_positions(),
            asset.lengths_agree(),
            entries == named(asset.mesh_entries(), ids),
            k <= asset.meshes@.len(),
            contents(store) == insert_all(start, entries.take(k as int)),
        decreases asset.meshes@.len() - k,
    {
        assert(asset.mesh_resolves(k as int));
        let resource = Resource::Mesh(asset.meshes[k].import(ids));
        proof {
            assert(entries[k as int].1 == resource@);
            lemma_insert_all_step(start, entries, k as int);
        }
        file(store, &ids.meshes[k], resource);
        k += 1;
    }
    assert(entries.take(k as int) =~= entries);
}

fn import_lights(asset: &Asset, ids: &IdTable, store: &mut ResourceMap)
    requires
        ids.covers(asset),
        asset.resolves(),
        asset.has_positions(),
        asset.lengths_agree(),
    ensures
        contents(final(store)) == insert_all(
            contents(old(store)),
            named(asset.light_entries(), ids),
        ),
{
    let ghost start = contents(store);
    let ghost entries = named(asset.light_entries(), ids);
    let mut k: usize = 0;
    while k < asset.lights.len()
        invariant
            ids.covers(asset),
            asset.resolves(),
            asset.has_positions(),
            asset.lengths_agree(),
            entries == named(asset.light_entries(), ids),
            k <= asset.lights@.len(),
            contents(store) == insert_all(start, entries.take(k as int)),
        decreases asset.lights@.len() - k,
    {
        let resource = Resource::Light(asset.lights[k]);
        proof {
            assert(entries[k as int].1 == resource@);
            lemma_insert_all_step(start, entries, k as int);
        }
        file(store, &ids.lights[k], resource);
        k += 1;
    }
    assert(entries.take(k as int) =~= entries);
}

fn import_nodes(asset: &Asset, ids: &IdTable, store: &mut ResourceMap)
    requires
        ids.covers(asset),
        asset.resolves(),
        asset.has_positions(),
        asset.lengths_agree(),
    ensures
        contents(final(store)) == insert_all(
            contents(old(store)),
            named(asset.node_entries(), ids),
        ),
{
    let ghost start = contents(store);
    let ghost entries = named(asset.node_entries(), ids);
    let mut k: usize = 0;
    while k < asset.nodes.len()
        invariant
            ids.covers(asset),
            asset.resolves(),
            asset.has_positions(),
            asset.lengths_agree(),
            entries == named(asset.node_entries(), ids),
            k <= asset.nodes@.len(),
            contents(store) == insert_all(start, entries.take(k as int)),
        decreases asset.nodes@.len() - k,
    {
        assert(asset.node_resolves(k as int));
        let resource = Resource::Node(asset.nodes[k].import(ids));
        proof {
            assert(entries[k as int].1 == resource@);
            lemma_insert_all_step(start, entries, k as int);
        }
        file(store, &ids.nodes[k], resource);
        k += 1;
    }
    assert(entries.take(k as int) =~= entries);
}

fn import_skins(asset: &Asset, ids: &IdTable, store: &mut ResourceMap)
    requires
        ids.covers(asset),
        asset.resolves(),
        asset.has_positions(),
        asset.lengths_agree(),
    ensures
        contents(final(store)) == insert_all(
            contents(old(store)),
            named(asset.skin_entries(), ids),
        ),
{
    let ghost start = contents(store);
    let ghost entries = named(asset.skin_entries(), ids);
    let mut k: usize = 0;
    while k < asset.skins.len()
        invariant
            ids.covers(asset),
            asset.resolves(),
            asset.has_positions(),
            asset.lengths_agree(),
            entries == named(asset.skin_entries(), ids),
            k <= asset.skins@.len(),
            contents(store) == insert_all(start, entries.take(k as int)),
        decreases asset.skins@.len() - k,
    {
        assert(asset.skin_resolves(k as int));
        let resource = Resource::Skin(asset.skins[k].import(ids));
        proof {
            assert(entries[k as int].1 == resource@);
            lemma_insert_all_step(start, entries, k as int);
        }
        file(store, &ids.skins[k], resource);
        k += 1;
    }
    assert(entries.take(k as int) =~= entries);
}

fn import_animations(asset: &Asset, ids: &IdTable, store: &mut ResourceMap)
    requires
        ids.covers(asset),
        asset.resolves(),
        asset.has_positions(),
        asset.lengths_agree(),
    ensures
        contents(final(store)) == insert_all(
            contents(old(store)),
            named(asset.animation_entries(), ids),
        ),
{
    let ghost start = contents(store);
    let ghost entries = named(asset.animation_entries(), ids);
    let mut k: usize = 0;
    while k < asset.animations.len()
        invariant
            ids.covers(asset),
            asset.resolves(),
            asset.has_positions(),
            asset.lengths_agree(),
            entries == named(asset.animation_entries(), ids),
            k <= asset.animations@.len(),
            contents(store) == insert_all(start, entries.take(k as int)),
        decreases asset.animations@.len() - k,
    {
        assert(asset.animation_resolves(k as int));
        let resource = Resource::Animation(asset.animations[k].import(ids));
        proof {
            assert(entries[k as int].1 == resource@);
            lemma_insert_all_step(start, entries, k as int);
        }
        file(store, &ids.animations[k], resource);
        k += 1;
    }
    assert(entries.take(k as int) =~= entries);
}

/// Once attaching fails, attaching more fails too.
proof fn lemma_attach_all_stays_failed(
    nodes: Seq<NodeSource>,
    g: GraphView<Slot>,
    parent: usize,
    children: Seq<usize>,
    m: nat,
    n: nat,
    fuel: nat,
)
    requires
        m <= n,
        attach_all(nodes, g, parent, children, m, fuel) is None,
    ensures
        attach_all(nodes, g, parent, children, n, fuel) is None,
    decreases n,
{
    if m < n {
        lemma_attach_all_stays_failed(nodes, g, parent, children, m, (n - 1) as nat, fuel);
    }
}

fn attach_node(
    graph: &mut EntityGraph,
    asset: &Asset,
    ids: &IdTable,
    parent: usize,
    node: usize,
    fuel: usize,
    Ghost(shape): Ghost<GraphView<Slot>>,
) -> (attached: bool)
    requires
        old(graph)@ == shape.rename(naming(ids)),
        parent < old(graph)@.nodes.len(),
        ids.covers(asset),
        asset.resolves(),
        node < asset.nodes@.len(),
    ensures
        final(graph)@.nodes.len() >= old(graph)@.nodes.len(),
        match attach(asset.nodes@, shape, parent, node, fuel as nat) {
            Some(grown) => attached && final(graph)@ == grown.rename(naming(ids)),
            None => !attached,
        },
    decreases fuel,
{
    if fuel == 0 || graph.node_count() >= u32::MAX as usize {
        return false;
    }
    let index = graph.add_child(parent, ids.nodes[node].clone());
    let ghost below = GraphView {
        nodes: shape.nodes.push(Slot::Node(node)),
        edges: shape.edges.push((parent, index)),
    };
    assert(graph@.nodes =~= below.rename(naming(ids)).nodes);
    assert(asset.node_resolves(node as int));
    let children = &asset.nodes[node].children;
    let ghost mut current = below;
    let mut n: usize = 0;
    while n < children.len()
        invariant
            ids.covers(asset),
            asset.resolves(),
            fuel > 0,
            index < graph@.nodes.len(),
            graph@.nodes.len() >= old(graph)@.nodes.len(),
            all_below(children@, asset.nodes@.len()),
            n <= children@.len(),
            attach(asset.nodes@, shape, parent, node, fuel as nat) == attach_all(
                asset.nodes@,
                below,
                index,
                children@,
                children@.len(),
                (fuel - 1) as nat,
            ),
            attach_all(asset.nodes@, below, index, children@, n as nat, (fuel - 1) as nat) == Some(
                current,
            ),
            graph@ == current.rename(naming(ids)),
        decreases children@.len() - n,
    {
        let attached = attach_node(graph, asset, ids, index, children[n], fuel - 1, Ghost(current));
        if !attached {
            proof {
                assert(attach(asset.nodes@, current, index, children@[n as int], (fuel - 1) as nat)
                    is None);
                assert(attach_all(
                    asset.nodes@,
                    below,
                    index,
                    children@,
                    (n + 1) as nat,
                    (fuel - 1) as nat,
                ) is None);
                lemma_attach_all_stays_failed(
                    asset.nodes@,
                    below,
                    index,
                    children@,
                    (n + 1) as nat,
                    children@.len(),
                    (fuel - 1) as nat,
                );
            }
            return false;
        }
        proof {
            current = attach(asset.nodes@, current, index, children@[n as int], (fuel - 1) as nat).unwrap();
        }
        n += 1;
    }
    true
}

fn import_scene_graph(asset: &Asset, ids: &IdTable, k: usize) -> (graph: Option<EntityGraph>)
    requires
        ids.covers(asset),
        asset.resolves(),
        k < asset.scenes@.len(),
    ensures
        match asset.scene_shape(k as int) {
            Some(shape) => graph matches Some(g) && g@ == shape.rename(naming(ids)),
            None => graph is None,
        },
{
    let mut graph = EntityGraph::with_root(ids.scenes[k].clone());
    let ghost root = GraphView { nodes: seq![Slot::Scene(k)], edges: Seq::empty() };
    assert(graph@.nodes =~= root.rename(naming(ids)).nodes);
    assert(graph@.edges =~= root.rename(naming(ids)).edges);
    assert(asset.scene_resolves(k as int));
    let roots = &asset.scenes[k].nodes;
    let fuel = asset.nodes.len();
    let ghost mut current = root;
    let mut n: usize = 0;
    while n < roots.len()
        invariant
            ids.covers(asset),
            asset.resolves(),
            fuel == asset.nodes@.len(),
            0 < graph@.nodes.len(),
            all_below(roots@, asset.nodes@.len()),
            n <= roots@.len(),
            asset.scene_shape(k as int) == attach_all(
                asset.nodes@,
                root,
                0,
                roots@,
                roots@.len(),
                fuel as nat,
            ),
            attach_all(asset.nodes@, root, 0, roots@, n as nat, fuel as nat) == Some(current),
            graph@ == current.rename(naming(ids)),
        decreases roots@.len() - n,
    {
        let attached = attach_node(&mut graph, asset, ids, 0, roots[n], fuel, Ghost(current));
        if !attached {
            proof {
                assert(attach(asset.nodes@, current, 0, roots@[n as int], fuel as nat) is None);
                assert(attach_all(asset.nodes@, root, 0, roots@, (n + 1) as nat, fuel as nat)
                    is None);
                lemma_attach_all_stays_failed(
                    asset.nodes@,
                    root,
                    0,
                    roots@,
                    (n + 1) as nat,
                    roots@.len(),
                    fuel as nat,
                );
            }
            return None;
        }
        proof {
            current = attach(asset.nodes@, current, 0, roots@[n as int], fuel as nat).unwrap();
        }
        n += 1;
    }
    Some(graph)
}

fn import_scenes(asset: &Asset, ids: &IdTable, store: &mut ResourceMap) -> (imported: bool)
    requires
        ids.covers(asset),
        asset.resolves(),
    ensures
        imported == asset.is_forest(),
        imported ==> contents(final(store)) == insert_all(
            contents(old(store)),
            named(asset.scene_entries(), ids),
        ),
{
    let ghost start = contents(store);
    let ghost entries = named(asset.scene_entries(), ids);
    let mut k: usize = 0;
    while k < asset.scenes.len()
        invariant
            ids.covers(asset),
            asset.resolves(),
            entries == named(asset.scene_entries(), ids),
            k <= asset.scenes@.len(),
            forall|j: int| 0 <= j < k ==> (#[trigger] asset.scene_shape(j)) is Some,
            contents(store) == insert_all(start, entries.take(k as int)),
        decreases asset.scenes@.len() - k,
    {
        match import_scene_graph(asset, ids, k) {
            Some(graph) => {
                let resource = Resource::SceneGraph(graph);
                proof {
                    assert(entries[k as int].1 == resource@);
                    lemma_insert_all_step(start, entries, k as int);
                }
                file(store, &ids.scenes[k], resource);
            },
            None => {
                assert(asset.scene_shape(k as int) is None);
                return false;
            },
        }
        k += 1;
    }
    assert(entries.take(k as int) =~= entries);
    true
}

/// What an import stores kind by kind, each kind into what the kinds before
/// it left, is what it stores in all.
proof fn lemma_imported_kind_by_kind(asset: &Asset, ids: &IdTable)
    ensures
        imported(asset, ids) == insert_all(
            insert_all(
                insert_all(
                    insert_all(
                        insert_all(
                            insert_all(
                                insert_all(
                                    insert_all(
                                        insert_all(
                                            insert_all(
                                                insert_all(
                                                    Map::empty(),
                                                    named(asset.sampler_entries(), ids),
                                                ),
                                                named(asset.image_entries(), ids),
                                            ),
                                            named(asset.texture_entries(), ids),
                                        ),
                                        named(asset.material_entries(), ids),
                                    ),
                                    named(asset.camera_entries(), ids),
                                ),
                                named(asset.mesh_entries(), ids),
                            ),
                            named(asset.light_entries(), ids),
                        ),
                        named(asset.node_entries(), ids),
                    ),
                    named(asset.skin_entries(), ids),
                ),
                named(asset.animation_entries(), ids),
            ),
            named(asset.scene_entries(), ids),
        ),
{
    let empty = Map::<Seq<char>, ResourceView<Seq<char>>>::empty();
    let e1 = asset.sampler_entries();
    let e2 = e1 + asset.image_entries();
    let e3 = e2 + asset.texture_entries();
    let e4 = e3 + asset.material_entries();
    let e5 = e4 + asset.camera_entries();
    let e6 = e5 + asset.mesh_entries();
    let e7 = e6 + asset.light_entries();
    let e8 = e7 + asset.node_entries();
    let e9 = e8 + asset.skin_entries();
    let e10 = e9 + asset.animation_entries();
    lemma_named_concat(e1, asset.image_entries(), ids);
    lemma_insert_all_concat(empty, named(e1, ids), named(asset.image_entries(), ids));
    lemma_named_concat(e2, asset.texture_entries(), ids);
    lemma_insert_all_concat(empty, named(e2, ids), named(asset.texture_entries(), ids));
    lemma_named_concat(e3, asset.material_entries(), ids);
    lemma_insert_all_concat(empty, named(e3, ids), named(asset.material_entries(), ids));
    lemma_named_concat(e4, asset.camera_entries(), ids);
    lemma_insert_all_concat(empty, named(e4, ids), named(asset.camera_entries(), ids));
    lemma_named_concat(e5, asset.mesh_entries(), ids);
    lemma_insert_all_concat(empty, named(e5, ids), named(asset.mesh_entries(), ids));
    lemma_named_concat(e6, asset.light_entries(), ids);
    lemma_insert_all_concat(empty, named(e6, ids), named(asset.light_entries(), ids));
    lemma_named_concat(e7, asset.node_entries(), ids);
    lemma_insert_all_concat(empty, named(e7, ids), named(asset.node_entries(), ids));
    lemma_named_concat(e8, asset.skin_entries(), ids);
    lemma_insert_all_concat(empty, named(e8, ids), named(asset.skin_entries(), ids));
    lemma_named_concat(e9, asset.animation_entries(), ids);
    lemma_insert_all_concat(empty, named(e9, ids), named(asset.animation_entries(), ids));
    lemma_named_concat(e10, asset.scene_entries(), ids);
    lemma_insert_all_concat(empty, named(e10, ids), named(asset.scene_entries(), ids));
}

fn import_all(asset: &Asset, ids: &IdTable) -> (store: Option<ResourceMap>)
    requires
        ids.covers(asset),
        asset.resolves(),
        asset.has_positions(),
        asset.lengths_agree(),
    ensures
        match store {
            Some(store) => asset.is_forest() && contents(&store) == imported(asset, ids),
            None => !asset.is_forest(),
        },
{
    let mut store: ResourceMap = IdMap::new();
    assert(contents(&store) =~= Map::empty());
    import_samplers(asset, ids, &mut store);
    import_images(asset, ids, &mut store);
    import_textures(asset, ids, &mut store);
    import_materials(asset, ids, &mut store);
    import_cameras(asset, ids, &mut store);
    import_meshes(asset, ids, &mut store);
    import_lights(asset, ids, &mut store);
    import_nodes(asset, ids, &mut store);
    import_skins(asset, ids, &mut store);
    import_animations(asset, ids, &mut store);
    if !import_scenes(asset, ids, &mut store) {
        return None;
    }
    proof {
        lemma_imported_kind_by_kind(asset, ids);
    }
    Some(store)
}

/// Imports `asset` under the identifiers of `ids`.
///
/// Every element of the asset is stored under its identifier, kind by
/// kind, and every position inside an element becomes the identifier of
/// what it points at. Where two elements share an identifier the one
/// stored later stays. Nothing is returned of an import that fails.
pub fn import_with_ids(asset: &Asset, ids: &IdTable) -> (result: Result<Scene, ImportError>)
    ensures
        match result {
            Ok(scene) => {
                &&& import_failure(asset, ids) is None
                &&& contents(&scene.resources) == imported(asset, ids)
                &&& scene.active_graph_id@ == active_graph(asset, ids)
                &&& references_resolve(contents(&scene.resources))
                &&& asset.scenes@.len() > 0 ==> contents(&scene.resources).dom().contains(
                    scene.active_graph_id@,
                )
            },
            Err(error) => import_failure(asset, ids) == Some(error),
        },
{
    if !ids.is_for(asset) {
        return Err(ImportError::DanglingReference);
    }
    if let Some(error) = asset.validate() {
        return Err(error);
    }
    match import_all(asset, ids) {
        Some(resources) => {
            proof {
                lemma_import_references_resolve(asset, ids);
                lemma_import_stores_every_identifier(asset, ids);
            }
            let active_graph_id = if asset.scenes.len() > 0 {
                ids.scenes[0].clone()
            } else {
                String::new()
            };
            Ok(Scene { active_graph_id, resources })
        },
        None => Err(ImportError::MalformedAsset),
    }
}

/// Imports `asset` under fresh identifiers.
///
/// Whether the import succeeds depends on the asset alone. What it stores
/// is what `import_with_ids` stores under some table of identifiers for
/// the asset.
pub fn import_gltf_resources(asset: &Asset) -> (result: Result<Scene, ImportError>)
    ensures
        match result {
            Ok(scene) => {
                &&& asset.failure() is None
                &&& exists|ids: IdTable|
                    #![trigger ids.covers(asset)]
                    {
                        &&& ids.covers(asset)
                        &&& ids.all_uuids()
                        &&& contents(&scene.resources) == imported(asset, &ids)
                        &&& scene.active_graph_id@ == active_graph(asset, &ids)
                    }
                &&& references_resolve(contents(&scene.resources))
                &&& asset.scenes@.len() > 0 ==> contents(&scene.resources).dom().contains(
                    scene.active_graph_id@,
                )
            },
            Err(error) => asset.failure() == Some(error),
        },
{
    let ids = IdTable::generate(asset);
    import_with_ids(asset, &ids)
}

} // verus!
