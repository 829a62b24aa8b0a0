//! The resource model: the records that describe a scene, and the store
//! that holds them by identifier.
//!
//! Records refer to each other by identifier only. Every record that holds
//! an identifier has a view that is generic in the identifier type, so the
//! same shape can be written over strings, as stored, or over any other
//! naming of the same resources.

use vstd::prelude::*;
use crate::graph::{EntityGraph, GraphView};
use crate::scalar::{Mat4, Quat, Scalar, Vec2, Vec3, Vec4};
use crate::store::IdMap;

verus! {

/// The identifier of a resource.
pub type ResourceId = String;

/// The identifier of an entity of a scene graph.
pub type EntityId = String;

/// The store: resources by identifier.
pub type ResourceMap = IdMap<Resource>;

/// How a texture is filtered when it is sampled.
#[derive(Clone, Copy, Debug, PartialEq, Eq, Structural)]
pub enum Filter {
    Nearest,
    Linear,
}

impl Default for Filter {
    fn default() -> (f: Filter)
        ensures
            f == Filter::Nearest,
    {
        Filter::Nearest
    }
}

/// What a sampler does with coordinates outside the unit square.
#[derive(Clone, Copy, Debug, PartialEq, Eq, Structural)]
pub enum WrappingMode {
    ClampToEdge,
    MirroredRepeat,
    Repeat,
}

impl Default for WrappingMode {
    fn default() -> (w: WrappingMode)
        ensures
            w == WrappingMode::Repeat,
    {
        WrappingMode::Repeat
    }
}

/// How a texture is read: the two filters and the two wrapping modes.
#[derive(Clone, Copy, Debug, PartialEq, Eq, Structural)]
pub struct Sampler {
    pub min_filter: Filter,
    pub mag_filter: Filter,
    pub wrap_s: WrappingMode,
    pub wrap_t: WrappingMode,
}

impl Sampler {
    /// Nearest filtering both ways, repeating both ways.
    pub open spec fn spec_default() -> Sampler {
        Sampler {
            min_filter: Filter::Nearest,
            mag_filter: Filter::Nearest,
            wrap_s: WrappingMode::Repeat,
            wrap_t: WrappingMode::Repeat,
        }
    }
}

impl Default for Sampler {
    fn default() -> (s: Sampler)
        ensures
            s == Sampler::spec_default(),
    {
        Sampler {
            min_filter: Filter::Nearest,
            mag_filter: Filter::Nearest,
            wrap_s: WrappingMode::Repeat,
            wrap_t: WrappingMode::Repeat,
        }
    }
}

/// The layout of an image's pixels.
#[derive(Clone, Copy, Debug, PartialEq, Eq, Hash, Structural)]
pub enum ImageFormat {
    R8,
    R8G8,
    R8G8B8,
    R8G8B8A8,
    B8G8R8,
    B8G8R8A8,
    R16,
    R16G16,
    R16G16B16,
    R16G16B16A16,
    R16F,
    R16G16F,
    R16G16B16F,
    R16G16B16A16F,
    R32,
    R32G32,
    R32G32B32,
    R32G32B32A32,
    R32F,
    R32G32F,
    R32G32B32F,
    R32G32B32A32F,
}

/// Decoded pixels with their format and size.
#[derive(Clone, Debug, PartialEq, Eq)]
pub struct Image {
    pub pixels: Vec<u8>,
    pub format: ImageFormat,
    pub width: u32,
    pub height: u32,
}

/// What an image is to the proofs.
pub struct ImageView {
    pub pixels: Seq<u8>,
    pub format: ImageFormat,
    pub width: u32,
    pub height: u32,
}

impl View for Image {
    type V = ImageView;

    open spec fn view(&self) -> ImageView {
        ImageView {
            pixels: self.pixels@,
            format: self.format,
            width: self.width,
            height: self.height,
        }
    }
}

/// A texture names the image it shows and the sampler it is read through.
#[derive(Clone, Debug, PartialEq, Eq)]
pub struct Texture {
    pub image: String,
    pub sampler: String,
}

/// What a texture is to the proofs. Identifiers are of type `I`.
pub struct TextureView<I> {
    pub image: I,
    pub sampler: I,
}

impl<I> TextureView<I> {
    /// The same texture with every identifier replaced by its image under `f`.
    pub open spec fn rename<J>(self, f: spec_fn(I) -> J) -> TextureView<J> {
        TextureView { image: f(self.image), sampler: f(self.sampler) }
    }

    /// Whether `p` holds of every identifier in the texture.
    pub open spec fn refs_hold(self, p: spec_fn(I) -> bool) -> bool {
        p(self.image) && p(self.sampler)
    }
}

impl View for Texture {
    type V = TextureView<Seq<char>>;

    open spec fn view(&self) -> TextureView<Seq<char>> {
        TextureView { image: self.image@, sampler: self.sampler@ }
    }
}

/// A base colour and the texture that modulates it.
#[derive(Clone, Debug, PartialEq, Eq)]
pub struct Material {
    pub base_color_factor: Vec4,
    pub base_color_texture: String,
}

/// What a material is to the proofs. Identifiers are of type `I`.
pub struct MaterialView<I> {
    pub base_color_factor: Vec4,
    pub base_color_texture: I,
}

impl<I> MaterialView<I> {
    /// The same material with every identifier replaced by its image under `f`.
    pub open spec fn rename<J>(self, f: spec_fn(I) -> J) -> MaterialView<J> {
        MaterialView {
            base_color_factor: self.base_color_factor,
            base_color_texture: f(self.base_color_texture),
        }
    }

    /// Whether `p` holds of every identifier in the material.
    pub open spec fn refs_hold(self, p: spec_fn(I) -> bool) -> bool {
        p(self.base_color_texture)
    }
}

impl View for Material {
    type V = MaterialView<Seq<char>>;

    open spec fn view(&self) -> MaterialView<Seq<char>> {
        MaterialView {
            base_color_factor: self.base_color_factor,
            base_color_texture: self.base_color_texture@,
        }
    }
}

/// How the alpha of a material is used.
#[derive(Clone, Copy, Debug, PartialEq, Eq, Structural)]
pub enum AlphaMode {
    Opaque,
    Mask,
    Blend,
}

impl Default for AlphaMode {
    fn default() -> (m: AlphaMode)
        ensures
            m == AlphaMode::Opaque,
    {
        AlphaMode::Opaque
    }
}

/// How the vertices of a primitive are assembled into shapes.
#[derive(Clone, Copy, Debug, PartialEq, Eq, Structural)]
pub enum PrimitiveMode {
    Points,
    Lines,
    LineLoop,
    LineStrip,
    Triangles,
    TriangleStrip,
    TriangleFan,
}

impl Default for PrimitiveMode {
    fn default() -> (m: PrimitiveMode)
        ensures
            m == PrimitiveMode::Triangles,
    {
        PrimitiveMode::Triangles
    }
}

/// One vertex, in the layout the renderer uploads.
#[derive(Clone, Copy, Debug, PartialEq, Eq, Structural)]
pub struct Vertex {
    pub position: Vec3,
    pub normal: Vec3,
    pub uv_0: Vec2,
    pub uv_1: Vec2,
    pub joint_0: Vec4,
    pub weight_0: Vec4,
    pub color_0: Vec3,
}

impl Vertex {
    /// The vertex at `position` with every other attribute at its default:
    /// no normal, both texture coordinates at the origin, bound to joint 0
    /// with full weight, coloured white.
    pub open spec fn spec_at(position: Vec3) -> Vertex {
        Vertex {
            position,
            normal: Vec3::spec_splat(Scalar::spec_zero()),
            uv_0: Vec2::spec_splat(Scalar::spec_zero()),
            uv_1: Vec2::spec_splat(Scalar::spec_zero()),
            joint_0: Vec4::spec_splat(Scalar::spec_zero()),
            weight_0: Vec4::spec_unit_x(),
            color_0: Vec3::spec_splat(Scalar::spec_one()),
        }
    }

    /// The vertex at `position` with default attributes.
    #[verifier::when_used_as_spec(spec_at)]
    pub fn at(position: Vec3) -> (v: Vertex)
        ensures
            v == Vertex::spec_at(position),
    {
        Vertex {
            position,
            normal: Vec3::splat(Scalar::zero()),
            uv_0: Vec2::splat(Scalar::zero()),
            uv_1: Vec2::splat(Scalar::zero()),
            joint_0: Vec4::splat(Scalar::zero()),
            weight_0: Vec4::unit_x(),
            color_0: Vec3::splat(Scalar::one()),
        }
    }
}

impl Default for Vertex {
    fn default() -> (v: Vertex)
        ensures
            v == Vertex::spec_at(Vec3::spec_splat(Scalar::spec_zero())),
    {
        Vertex::at(Vec3::splat(Scalar::zero()))
    }
}

/// One indexed block of vertices, drawn in one mode with one material.
#[derive(Clone, Debug, PartialEq, Eq)]
pub struct Primitive {
    pub mode: PrimitiveMode,
    pub material: String,
    pub vertices: Vec<Vertex>,
    pub indices: Vec<u32>,
}

/// What a primitive is to the proofs. Identifiers are of type `I`.
pub struct PrimitiveView<I> {
    pub mode: PrimitiveMode,
    pub material: I,
    pub vertices: Seq<Vertex>,
    pub indices: Seq<u32>,
}

impl<I> PrimitiveView<I> {
    /// The same primitive with every identifier replaced by its image under `f`.
    pub open spec fn rename<J>(self, f: spec_fn(I) -> J) -> PrimitiveView<J> {
        PrimitiveView {
            mode: self.mode,
            material: f(self.material),
            vertices: self.vertices,
            indices: self.indices,
        }
    }

    /// Whether `p` holds of every identifier in the primitive.
    pub open spec fn refs_hold(self, p: spec_fn(I) -> bool) -> bool {
        p(self.material)
    }
}

impl View for Primitive {
    type V = PrimitiveView<Seq<char>>;

    open spec fn view(&self) -> PrimitiveView<Seq<char>> {
        PrimitiveView {
            mode: self.mode,
            material: self.material@,
            vertices: self.vertices@,
            indices: self.indices@,
        }
    }
}

impl Default for Primitive {
    fn default() -> (p: Primitive)
        ensures
            p.mode == PrimitiveMode::Triangles,
            p.material@.len() == 0,
            p.vertices@.len() == 0,
            p.indices@.len() == 0,
    {
        Primitive {
            mode: PrimitiveMode::Triangles,
            material: String::new(),
            vertices: Vec::new(),
            indices: Vec::new(),
        }
    }
}

/// Primitives in the order in which they are drawn.
#[derive(Clone, Debug, PartialEq, Eq)]
pub struct Mesh {
    pub primitives: Vec<Primitive>,
}

/// What a mesh is to the proofs. Identifiers are of type `I`.
pub struct MeshView<I> {
    pub primitives: Seq<PrimitiveView<I>>,
}

impl<I> MeshView<I> {
    /// The same mesh with every identifier replaced by its image under `f`.
    pub open spec fn rename<J>(self, f: spec_fn(I) -> J) -> MeshView<J> {
        MeshView {
            primitives: Seq::new(self.primitives.len(), |i: int| self.primitives[i].rename(f)),
        }
    }

    /// Whether `p` holds of every identifier in the mesh.
    pub open spec fn refs_hold(self, p: spec_fn(I) -> bool) -> bool {
        forall|i: int| 0 <= i < self.primitives.len() ==> (#[trigger] self.primitives[i]).refs_hold(p)
    }
}

impl View for Mesh {
    type V = MeshView<Seq<char>>;

    open spec fn view(&self) -> MeshView<Seq<char>> {
        MeshView { primitives: self.primitives@.map_values(|p: Primitive| p@) }
    }
}

impl Default for Mesh {
    fn default() -> (m: Mesh)
        ensures
            m.primitives@.len() == 0,
    {
        Mesh { primitives: Vec::new() }
    }
}

/// Where one primitive lies in the flattened buffers.
#[derive(Clone, Copy, Debug, PartialEq, Eq, Structural)]
pub struct PrimitiveDrawCommand {
    pub vertex_offset: usize,
    pub index_offset: usize,
    pub vertices: usize,
    pub indices: usize,
}

impl Default for PrimitiveDrawCommand {
    fn default() -> (c: PrimitiveDrawCommand)
        ensures
            c == (PrimitiveDrawCommand { vertex_offset: 0, index_offset: 0, vertices: 0, indices: 0 }),
    {
        PrimitiveDrawCommand { vertex_offset: 0, index_offset: 0, vertices: 0, indices: 0 }
    }
}

/// Translation, rotation and scale; as a matrix they compose as
/// translation * rotation * scale.
#[derive(Clone, Copy, Debug, PartialEq, Eq, Structural)]
pub struct Transform {
    pub translation: Vec3,
    pub rotation: Quat,
    pub scale: Vec3,
}

impl Transform {
    /// No translation, no rotation, unit scale.
    pub open spec fn spec_identity() -> Transform {
        Transform {
            translation: Vec3::spec_splat(Scalar::spec_zero()),
            rotation: Quat::spec_identity(),
            scale: Vec3::spec_splat(Scalar::spec_one()),
        }
    }

    /// The transform whose parts are the given component arrays, the
    /// rotation with its vector part first.
    pub open spec fn spec_from_parts(parts: ([Scalar; 3], [Scalar; 4], [Scalar; 3])) -> Transform {
        Transform {
            translation: Vec3 { x: parts.0[0], y: parts.0[1], z: parts.0[2] },
            rotation: Quat { x: parts.1[0], y: parts.1[1], z: parts.1[2], w: parts.1[3] },
            scale: Vec3 { x: parts.2[0], y: parts.2[1], z: parts.2[2] },
        }
    }
}

impl Default for Transform {
    fn default() -> (t: Transform)
        ensures
            t == Transform::spec_identity(),
    {
        Transform {
            translation: Vec3::splat(Scalar::zero()),
            rotation: Quat::identity(),
            scale: Vec3::splat(Scalar::one()),
        }
    }
}

impl From<([Scalar; 3], [Scalar; 4], [Scalar; 3])> for Transform {
    fn from(parts: ([Scalar; 3], [Scalar; 4], [Scalar; 3])) -> (t: Transform) {
        let (translation, rotation, scale) = parts;
        Transform {
            translation: Vec3 { x: translation[0], y: translation[1], z: translation[2] },
            rotation: Quat { x: rotation[0], y: rotation[1], z: rotation[2], w: rotation[3] },
            scale: Vec3 { x: scale[0], y: scale[1], z: scale[2] },
        }
    }
}

impl vstd::std_specs::convert::FromSpecImpl<([Scalar; 3], [Scalar; 4], [Scalar; 3])> for Transform {
    open spec fn obeys_from_spec() -> bool {
        true
    }

    open spec fn from_spec(parts: ([Scalar; 3], [Scalar; 4], [Scalar; 3])) -> Transform {
        Transform::spec_from_parts(parts)
    }
}

/// A placed entity of the resource model: a transform and the identifiers
/// of what is attached to it.
#[derive(Clone, Debug, PartialEq, Eq)]
pub struct Node {
    pub transform: Transform,
    pub resources: Vec<ResourceId>,
}

/// What a node is to the proofs. Identifiers are of type `I`.
pub struct NodeView<I> {
    pub transform: Transform,
    pub resources: Seq<I>,
}

impl<I> NodeView<I> {
    /// The same node with every identifier replaced by its image under `f`.
    pub open spec fn rename<J>(self, f: spec_fn(I) -> J) -> NodeView<J> {
        NodeView { transform: self.transform, resources: self.resources.map_values(f) }
    }

    /// Whether `p` holds of every identifier in the node.
    pub open spec fn refs_hold(self, p: spec_fn(I) -> bool) -> bool {
        forall|i: int| 0 <= i < self.resources.len() ==> p(#[trigger] self.resources[i])
    }
}

impl View for Node {
    type V = NodeView<Seq<char>>;

    open spec fn view(&self) -> NodeView<Seq<char>> {
        NodeView {
            transform: self.transform,
            resources: self.resources@.map_values(|id: String| id@),
        }
    }
}

/// The shape in which a light emits.
#[derive(Clone, Copy, Debug, PartialEq, Eq)]
pub enum LightKind {
    Directional,
    Point,
    Spot { inner_cone_angle: Scalar, outer_cone_angle: Scalar },
}

impl Default for LightKind {
    fn default() -> (k: LightKind)
        ensures
            k == LightKind::Directional,
    {
        LightKind::Directional
    }
}

/// A punctual light.
#[derive(Clone, Copy, Debug, PartialEq, Eq)]
pub struct Light {
    pub intensity: Scalar,
    pub range: Scalar,
    pub color: Vec3,
    pub kind: LightKind,
}

impl Default for Light {
    fn default() -> (l: Light)
        ensures
            l == (Light {
                intensity: Scalar::spec_zero(),
                range: Scalar::spec_zero(),
                color: Vec3::spec_splat(Scalar::spec_zero()),
                kind: LightKind::Directional,
            }),
    {
        Light {
            intensity: Scalar::zero(),
            range: Scalar::zero(),
            color: Vec3::splat(Scalar::zero()),
            kind: LightKind::Directional,
        }
    }
}

/// A perspective projection. Without `z_far` it reaches to infinity; without
/// `aspect_ratio` it takes that of the viewport.
#[derive(Clone, Copy, Debug, PartialEq, Eq)]
pub struct PerspectiveCamera {
    pub aspect_ratio: Option<Scalar>,
    pub y_fov_rad: Scalar,
    pub z_far: Option<Scalar>,
    pub z_near: Scalar,
}

/// An orthographic projection.
#[derive(Clone, Copy, Debug, PartialEq, Eq, Structural)]
pub struct OrthographicCamera {
    pub x_mag: Scalar,
    pub y_mag: Scalar,
    pub z_far: Scalar,
    pub z_near: Scalar,
}

/// How a camera projects.
#[derive(Clone, Copy, Debug, PartialEq, Eq)]
pub enum Projection {
    Perspective(PerspectiveCamera),
    Orthographic(OrthographicCamera),
}

/// The state of an orbiting camera: it circles `offset` at distance
/// `radius`, looking along `direction` (yaw, pitch).
#[derive(Clone, Copy, Debug, PartialEq, Eq, Structural)]
pub struct Orientation {
    pub min_radius: Scalar,
    pub max_radius: Scalar,
    pub radius: Scalar,
    pub offset: Vec3,
    pub sensitivity: Vec2,
    pub direction: Vec2,
}

impl Orientation {
    /// Every field positive zero.
    pub open spec fn spec_default() -> Orientation {
        let z = Scalar::spec_zero();
        Orientation {
            min_radius: z,
            max_radius: z,
            radius: z,
            offset: Vec3::spec_splat(z),
            sensitivity: Vec2::spec_splat(z),
            direction: Vec2::spec_splat(z),
        }
    }

    /// The smallest pitch the camera takes: ten degrees, in radians.
    pub open spec fn spec_min_pitch() -> Scalar {
        Scalar { bits: 0x3E32_B8C2 }
    }

    /// The largest pitch the camera takes: 170 degrees, in radians.
    pub open spec fn spec_max_pitch() -> Scalar {
        Scalar { bits: 0x403D_E44E }
    }

    /// The smallest pitch the camera takes.
    #[verifier::when_used_as_spec(spec_min_pitch)]
    pub fn min_pitch() -> (s: Scalar)
        ensures
            s == Orientation::spec_min_pitch(),
    {
        Scalar { bits: 0x3E32_B8C2 }
    }

    /// The largest pitch the camera takes.
    #[verifier::when_used_as_spec(spec_max_pitch)]
    pub fn max_pitch() -> (s: Scalar)
        ensures
            s == Orientation::spec_max_pitch(),
    {
        Scalar { bits: 0x403D_E44E }
    }

    /// Moves the camera to distance `radius` from its target, kept within
    /// `[min_radius, max_radius]`.
    pub fn set_radius(&mut self, radius: Scalar)
        ensures
            *final(self) == (Orientation {
                radius: radius.clamped(old(self).min_radius, old(self).max_radius),
                ..*old(self)
            }),
    {
        self.radius = radius.clamp(self.min_radius, self.max_radius);
    }

    /// Points the camera along the given yaw and pitch, the pitch kept
    /// between ten and 170 degrees so that the camera never looks straight
    /// up or down.
    pub fn set_direction(&mut self, yaw: Scalar, pitch: Scalar)
        ensures
            *final(self) == (Orientation {
                direction: Vec2 {
                    x: yaw,
                    y: pitch.clamped(Orientation::spec_min_pitch(), Orientation::spec_max_pitch()),
                },
                ..*old(self)
            }),
    {
        self.direction = Vec2 {
            x: yaw,
            y: pitch.clamp(Orientation::min_pitch(), Orientation::max_pitch()),
        };
    }
}

impl Default for Orientation {
    fn default() -> (o: Orientation)
        ensures
            o == Orientation::spec_default(),
    {
        let z = Scalar::zero();
        Orientation {
            min_radius: z,
            max_radius: z,
            radius: z,
            offset: Vec3::splat(z),
            sensitivity: Vec2::splat(z),
            direction: Vec2::splat(z),
        }
    }
}

/// A projection and the state of the orbit that carries it.
#[derive(Clone, Copy, Debug, PartialEq, Eq)]
pub struct Camera {
    pub projection: Projection,
    pub orientation: Orientation,
}

/// A joint of a skin: the node that moves it and the matrix that takes
/// mesh space to the joint's rest space.
#[derive(Clone, Debug, PartialEq, Eq)]
pub struct Joint {
    pub target: String,
    pub inverse_bind_matrix: Mat4,
}

/// What a joint is to the proofs. Identifiers are of type `I`.
pub struct JointView<I> {
    pub target: I,
    pub inverse_bind_matrix: Mat4,
}

impl<I> JointView<I> {
    /// The same joint with every identifier replaced by its image under `f`.
    pub open spec fn rename<J>(self, f: spec_fn(I) -> J) -> JointView<J> {
        JointView { target: f(self.target), inverse_bind_matrix: self.inverse_bind_matrix }
    }

    /// Whether `p` holds of every identifier in the joint.
    pub open spec fn refs_hold(self, p: spec_fn(I) -> bool) -> bool {
        p(self.target)
    }
}

impl View for Joint {
    type V = JointView<Seq<char>>;

    open spec fn view(&self) -> JointView<Seq<char>> {
        JointView { target: self.target@, inverse_bind_matrix: self.inverse_bind_matrix }
    }
}

/// Joints in the order in which vertices refer to them.
#[derive(Clone, Debug, PartialEq, Eq)]
pub struct Skin {
    pub joints: Vec<Joint>,
}

/// What a skin is to the proofs. Identifiers are of type `I`.
pub struct SkinView<I> {
    pub joints: Seq<JointView<I>>,
}

impl<I> SkinView<I> {
    /// The same skin with every identifier replaced by its image under `f`.
    pub open spec fn rename<J>(self, f: spec_fn(I) -> J) -> SkinView<J> {
        SkinView { joints: Seq::new(self.joints.len(), |i: int| self.joints[i].rename(f)) }
    }

    /// Whether `p` holds of every identifier in the skin.
    pub open spec fn refs_hold(self, p: spec_fn(I) -> bool) -> bool {
        forall|i: int| 0 <= i < self.joints.len() ==> (#[trigger] self.joints[i]).refs_hold(p)
    }
}

impl View for Skin {
    type V = SkinView<Seq<char>>;

    open spec fn view(&self) -> SkinView<Seq<char>> {
        SkinView { joints: self.joints@.map_values(|j: Joint| j@) }
    }
}

impl Default for Skin {
    fn default() -> (s: Skin)
        ensures
            s.joints@.len() == 0,
    {
        Skin { joints: Vec::new() }
    }
}

/// How values between two keyframes are found.
#[derive(Clone, Copy, Debug, PartialEq, Eq, Structural)]
pub enum Interpolation {
    Linear,
    Step,
    CubicSpline,
}

impl Default for Interpolation {
    fn default() -> (i: Interpolation)
        ensures
            i == Interpolation::Linear,
    {
        Interpolation::Linear
    }
}

/// The keyframe values of a channel, one variant per animated property.
#[derive(Clone, Debug, PartialEq, Eq)]
pub enum TransformationSet {
    Translations(Vec<Vec3>),
    Rotations(Vec<Vec4>),
    Scales(Vec<Vec3>),
    MorphTargetWeights(Vec<Scalar>),
}

/// What a set of keyframe values is to the proofs.
pub enum TransformationView {
    Translations(Seq<Vec3>),
    Rotations(Seq<Vec4>),
    Scales(Seq<Vec3>),
    MorphTargetWeights(Seq<Scalar>),
}

impl View for TransformationSet {
    type V = TransformationView;

    open spec fn view(&self) -> TransformationView {
        match self {
            TransformationSet::Translations(v) => TransformationView::Translations(v@),
            TransformationSet::Rotations(v) => TransformationView::Rotations(v@),
            TransformationSet::Scales(v) => TransformationView::Scales(v@),
            TransformationSet::MorphTargetWeights(v) => TransformationView::MorphTargetWeights(v@),
        }
    }
}

/// One animated property of one node: keyframe times and the values at
/// those times.
#[derive(Clone, Debug, PartialEq, Eq)]
pub struct Channel {
    pub target: String,
    pub inputs: Vec<Scalar>,
    pub transformations: TransformationSet,
    pub interpolation: Interpolation,
}

/// What a channel is to the proofs. Identifiers are of type `I`.
pub struct ChannelView<I> {
    pub target: I,
    pub inputs: Seq<Scalar>,
    pub transformations: TransformationView,
    pub interpolation: Interpolation,
}

impl<I> ChannelView<I> {
    /// The same channel with every identifier replaced by its image under `f`.
    pub open spec fn rename<J>(self, f: spec_fn(I) -> J) -> ChannelView<J> {
        ChannelView {
            target: f(self.target),
            inputs: self.inputs,
            transformations: self.transformations,
            interpolation: self.interpolation,
        }
    }

    /// Whether `p` holds of every identifier in the channel.
    pub open spec fn refs_hold(self, p: spec_fn(I) -> bool) -> bool {
        p(self.target)
    }
}

impl View for Channel {
    type V = ChannelView<Seq<char>>;

    open spec fn view(&self) -> ChannelView<Seq<char>> {
        ChannelView {
            target: self.target@,
            inputs: self.inputs@,
            transformations: self.transformations@,
            interpolation: self.interpolation,
        }
    }
}

/// Channels that play together, the playback cursor `time`, and the time of
/// the latest keyframe.
#[derive(Clone, Debug, PartialEq, Eq)]
pub struct Animation {
    pub time: Scalar,
    pub channels: Vec<Channel>,
    pub max_animation_time: Scalar,
}

/// What an animation is to the proofs. Identifiers are of type `I`.
pub struct AnimationView<I> {
    pub time: Scalar,
    pub channels: Seq<ChannelView<I>>,
    pub max_animation_time: Scalar,
}

impl<I> AnimationView<I> {
    /// The same animation with every identifier replaced by its image under `f`.
    pub open spec fn rename<J>(self, f: spec_fn(I) -> J) -> AnimationView<J> {
        AnimationView {
            time: self.time,
            channels: Seq::new(self.channels.len(), |i: int| self.channels[i].rename(f)),
            max_animation_time: self.max_animation_time,
        }
    }

    /// Whether `p` holds of every identifier in the animation.
    pub open spec fn refs_hold(self, p: spec_fn(I) -> bool) -> bool {
        forall|i: int| 0 <= i < self.channels.len() ==> (#[trigger] self.channels[i]).refs_hold(p)
    }

    /// The keyframe times of the first `n` channels, one channel after the
    /// other.
    pub open spec fn times(self, n: nat) -> Seq<Scalar>
        decreases n,
    {
        if n == 0 {
            Seq::empty()
        } else {
            self.times((n - 1) as nat) + self.channels[n - 1].inputs
        }
    }

    /// Whether `max_animation_time` is the latest keyframe time of all
    /// channels, or zero where there is none.
    pub open spec fn max_time_is_latest(self) -> bool {
        self.max_animation_time == crate::scalar::greatest(self.times(self.channels.len()))
    }
}

impl View for Animation {
    type V = AnimationView<Seq<char>>;

    open spec fn view(&self) -> AnimationView<Seq<char>> {
        AnimationView {
            time: self.time,
            channels: self.channels@.map_values(|c: Channel| c@),
            max_animation_time: self.max_animation_time,
        }
    }
}

impl Default for Animation {
    fn default() -> (a: Animation)
        ensures
            a.time == Scalar::spec_zero(),
            a.channels@.len() == 0,
            a.max_animation_time == Scalar::spec_zero(),
    {
        Animation { time: Scalar::zero(), channels: Vec::new(), max_animation_time: Scalar::zero() }
    }
}

/// Anything the store can hold.
#[derive(Clone, Debug)]
pub enum Resource {
    Animation(Animation),
    Camera(Camera),
    Material(Material),
    Mesh(Mesh),
    Node(Node),
    Image(Image),
    Light(Light),
    Sampler(Sampler),
    SceneGraph(EntityGraph),
    Skin(Skin),
    Texture(Texture),
}

/// What a resource is to the proofs. Identifiers are of type `I`.
pub enum ResourceView<I> {
    Animation(AnimationView<I>),
    Camera(Camera),
    Material(MaterialView<I>),
    Mesh(MeshView<I>),
    Node(NodeView<I>),
    Image(ImageView),
    Light(Light),
    Sampler(Sampler),
    SceneGraph(GraphView<I>),
    Skin(SkinView<I>),
    Texture(TextureView<I>),
}

impl<I> ResourceView<I> {
    /// The same resource with every identifier in it replaced by its image
    /// under `f`.
    pub open spec fn rename<J>(self, f: spec_fn(I) -> J) -> ResourceView<J> {
        match self {
            ResourceView::Animation(a) => ResourceView::Animation(a.rename(f)),
            ResourceView::Camera(c) => ResourceView::Camera(c),
            ResourceView::Material(m) => ResourceView::Material(m.rename(f)),
            ResourceView::Mesh(m) => ResourceView::Mesh(m.rename(f)),
            ResourceView::Node(n) => ResourceView::Node(n.rename(f)),
            ResourceView::Image(i) => ResourceView::Image(i),
            ResourceView::Light(l) => ResourceView::Light(l),
            ResourceView::Sampler(s) => ResourceView::Sampler(s),
            ResourceView::SceneGraph(g) => ResourceView::SceneGraph(g.rename(f)),
            ResourceView::Skin(s) => ResourceView::Skin(s.rename(f)),
            ResourceView::Texture(t) => ResourceView::Texture(t.rename(f)),
        }
    }

    /// Whether `p` holds of every identifier in the resource.
    pub open spec fn refs_hold(self, p: spec_fn(I) -> bool) -> bool {
        match self {
            ResourceView::Animation(a) => a.refs_hold(p),
            ResourceView::Camera(_) => true,
            ResourceView::Material(m) => m.refs_hold(p),
            ResourceView::Mesh(m) => m.refs_hold(p),
            ResourceView::Node(n) => n.refs_hold(p),
            ResourceView::Image(_) => true,
            ResourceView::Light(_) => true,
            ResourceView::Sampler(_) => true,
            ResourceView::SceneGraph(g) => g.refs_hold(p),
            ResourceView::Skin(s) => s.refs_hold(p),
            ResourceView::Texture(t) => t.refs_hold(p),
        }
    }

    /// What holds of every identifier after renaming is what holds of its
    /// image before.
    pub proof fn lemma_renamed_refs<J>(self, f: spec_fn(I) -> J, p: spec_fn(J) -> bool)
        ensures
            self.rename(f).refs_hold(p) == self.refs_hold(|i: I| p(f(i))),
    {
        let q = |i: I| p(f(i));
        match self {
            ResourceView::Animation(a) => {
                let r = a.rename(f);
                if a.refs_hold(q) {
                    assert forall|i: int| 0 <= i < r.channels.len() implies (
                    #[trigger] r.channels[i]).refs_hold(p) by {
                        assert(a.channels[i].refs_hold(q));
                    }
                }
                if r.refs_hold(p) {
                    assert forall|i: int| 0 <= i < a.channels.len() implies (
                    #[trigger] a.channels[i]).refs_hold(q) by {
                        assert(r.channels[i].refs_hold(p));
                    }
                }
            },
            ResourceView::Mesh(m) => {
                let r = m.rename(f);
                if m.refs_hold(q) {
                    assert forall|i: int| 0 <= i < r.primitives.len() implies (
                    #[trigger] r.primitives[i]).refs_hold(p) by {
                        assert(m.primitives[i].refs_hold(q));
                    }
                }
                if r.refs_hold(p) {
                    assert forall|i: int| 0 <= i < m.primitives.len() implies (
                    #[trigger] m.primitives[i]).refs_hold(q) by {
                        assert(r.primitives[i].refs_hold(p));
                    }
                }
            },
            ResourceView::Skin(s) => {
                let r = s.rename(f);
                if s.refs_hold(q) {
                    assert forall|i: int| 0 <= i < r.joints.len() implies (
                    #[trigger] r.joints[i]).refs_hold(p) by {
                        assert(s.joints[i].refs_hold(q));
                    }
                }
                if r.refs_hold(p) {
                    assert forall|i: int| 0 <= i < s.joints.len() implies (
                    #[trigger] s.joints[i]).refs_hold(q) by {
                        assert(r.joints[i].refs_hold(p));
                    }
                }
            },
            ResourceView::Node(n) => {
                let r = n.rename(f);
                if n.refs_hold(q) {
                    assert forall|i: int| 0 <= i < r.resources.len() implies p(
                        #[trigger] r.resources[i],
                    ) by {
                        assert(q(n.resources[i]));
                    }
                }
                if r.refs_hold(p) {
                    assert forall|i: int| 0 <= i < n.resources.len() implies q(
                        #[trigger] n.resources[i],
                    ) by {
                        assert(p(r.resources[i]));
                    }
                }
            },
            ResourceView::SceneGraph(g) => {
                let r = g.rename(f);
                if g.refs_hold(q) {
                    assert forall|i: int| 0 <= i < r.nodes.len() implies p(#[trigger] r.nodes[i]) by {
                        assert(q(g.nodes[i]));
                    }
                }
                if r.refs_hold(p) {
                    assert forall|i: int| 0 <= i < g.nodes.len() implies q(#[trigger] g.nodes[i]) by {
                        assert(p(r.nodes[i]));
                    }
                }
            },
            _ => {},
        }
    }
}

impl View for Resource {
    type V = ResourceView<Seq<char>>;

    open spec fn view(&self) -> ResourceView<Seq<char>> {
        match self {
            Resource::Animation(a) => ResourceView::Animation(a@),
            Resource::Camera(c) => ResourceView::Camera(*c),
            Resource::Material(m) => ResourceView::Material(m@),
            Resource::Mesh(m) => ResourceView::Mesh(m@),
            Resource::Node(n) => ResourceView::Node(n@),
            Resource::Image(i) => ResourceView::Image(i@),
            Resource::Light(l) => ResourceView::Light(*l),
            Resource::Sampler(s) => ResourceView::Sampler(*s),
            Resource::SceneGraph(g) => ResourceView::SceneGraph(g@),
            Resource::Skin(s) => ResourceView::Skin(s@),
            Resource::Texture(t) => ResourceView::Texture(t@),
        }
    }
}

/// What a store holds, each resource by its view.
pub open spec fn contents(store: &ResourceMap) -> Map<Seq<char>, ResourceView<Seq<char>>> {
    store@.map_values(|r: Resource| r@)
}

/// A store of resources and the identifier of the scene graph to show.
#[derive(Clone, Debug)]
pub struct Scene {
    pub active_graph_id: String,
    pub resources: ResourceMap,
}

impl Default for Scene {
    fn default() -> (s: Scene)
        ensures
            s.active_graph_id@.len() == 0,
            s.resources@ == Map::<Seq<char>, Resource>::empty(),
    {
        Scene { active_graph_id: String::new(), resources: IdMap::new() }
    }
}

} // verus!
