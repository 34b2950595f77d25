//! Binary glTF: the container, and the scene that its accessors describe.

use crate::reader::{
    le_value, lemma_byte_array_decodes, lemma_pow256_values, lemma_value_bound, piece,
    signed_value, unsigned_value, ReadError, Reader, LITTLE_ENDIAN,
};
use crate::display::Rgb;
use crate::material::{
    average_color, counted, decode_image, Material, MaterialGenericColor,
    MaterialGenericTexture, MaterialModel,
};
use crate::mesh::{all_in_range, triangles_in_range, Mesh, MeshModel, Position};
use crate::scene::Scene;
use crate::strings::{chars_contain, chars_of, lowercased, occurs, str_eq, to_lowercase};
use crate::uv::{Number, Uv};
use vstd::prelude::*;

verus! {

/// Why a file could not be loaded.
#[derive(Debug, Clone, Copy, PartialEq, Eq, Structural)]
pub enum GltfError {
    /// The data ends before what it announces.
    UnexpectedEof,
    /// The file does not start with the letters `glTF`.
    NotGltf,
    /// The container is of another version than 2.
    UnsupportedVersion,
    /// The container has no JSON chunk, or no BIN chunk.
    MissingChunk,
    /// An index names something that the file does not have.
    BadIndex,
    /// A buffer view reaches beyond its buffer.
    OutOfBounds,
    /// An accessor has a component type that is not known.
    UnsupportedComponentType,
    /// An accessor has a type that is not known.
    UnsupportedAccessorType,
    /// An accessor holds values of another shape than its use asks for.
    BadValue,
    /// The corners of the triangles do not come in threes.
    IncompleteTriangle,
    /// A mesh has no positions.
    MissingPosition,
    /// A mesh has texture coordinates, but not one for each vertex.
    TexcoordCount,
    /// A triangle names a vertex that its mesh does not have.
    OutOfRange,
    /// There are meshes, but no material for them.
    MissingMaterial,
    /// A texture has no pixel that counts towards its colour.
    BlankTexture,
    /// A texture's image could not be decoded.
    Image,
}

/// What a chunk of the container holds.
#[derive(Debug, Clone, Copy, PartialEq, Eq, Structural)]
pub enum ChunkKind {
    Json,
    Bin,
}

/// A chunk of the container.
#[derive(Debug)]
pub struct Chunk {
    pub kind: ChunkKind,
    pub data: Vec<u8>,
}

impl View for Chunk {
    type V = (ChunkKind, Seq<u8>);

    open spec fn view(&self) -> (ChunkKind, Seq<u8>) {
        (self.kind, self.data@)
    }
}

/// The letters `glTF`, with which a container starts.
pub open spec fn magic() -> Seq<u8> {
    seq![0x67u8, 0x6Cu8, 0x54u8, 0x46u8]
}

/// The kind of chunk that a tag of four bytes stands for: `JSON`, or `BIN`
/// followed by a zero byte.
pub open spec fn chunk_kind(tag: Seq<u8>) -> Option<ChunkKind> {
    if tag == seq![0x4Au8, 0x53u8, 0x4Fu8, 0x4Eu8] {
        Some(ChunkKind::Json)
    } else if tag == seq![0x42u8, 0x49u8, 0x4Eu8, 0x00u8] {
        Some(ChunkKind::Bin)
    } else {
        None
    }
}

/// `tail` with `head` before it, where `tail` is there at all.
pub open spec fn prepend<T>(head: Seq<T>, tail: Result<Seq<T>, GltfError>) -> Result<
    Seq<T>,
    GltfError,
> {
    match tail {
        Ok(rest) => Ok(head + rest),
        Err(e) => Err(e),
    }
}

/// The chunks that start at `pos` and after it, up to the place `limit`. Each
/// has a length of four bytes, a tag of four bytes, and its data; chunks of
/// another kind than JSON and BIN are passed over.
pub open spec fn chunks_from(file: Seq<u8>, pos: int, limit: int) -> Result<
    Seq<(ChunkKind, Seq<u8>)>,
    GltfError,
>
    decreases file.len() - pos,
{
    if pos >= limit {
        Ok(Seq::empty())
    } else if pos < 0 || pos + 8 > file.len() {
        Err(GltfError::UnexpectedEof)
    } else {
        let length = le_value(file.subrange(pos, pos + 4)) as int;
        let tag = file.subrange(pos + 4, pos + 8);
        let end = pos + 8 + length;
        if end > file.len() {
            Err(GltfError::UnexpectedEof)
        } else {
            prepend(
                match chunk_kind(tag) {
                    Some(kind) => seq![(kind, file.subrange(pos + 8, end))],
                    None => Seq::empty(),
                },
                chunks_from(file, end, limit),
            )
        }
    }
}

/// The chunks of a container: after the letters `glTF`, the version 2 and the
/// length of the whole, each in four bytes, the chunks follow up to that length.
pub open spec fn glb_chunks(file: Seq<u8>) -> Result<Seq<(ChunkKind, Seq<u8>)>, GltfError> {
    if file.len() < 4 {
        Err(GltfError::UnexpectedEof)
    } else if file.subrange(0, 4) != magic() {
        Err(GltfError::NotGltf)
    } else if file.len() < 8 {
        Err(GltfError::UnexpectedEof)
    } else if le_value(file.subrange(4, 8)) != 2 {
        Err(GltfError::UnsupportedVersion)
    } else if file.len() < 12 {
        Err(GltfError::UnexpectedEof)
    } else {
        chunks_from(file, 12, le_value(file.subrange(8, 12)) as int)
    }
}

/// The views of `chunks`.
pub open spec fn chunk_views(chunks: Seq<Chunk>) -> Seq<(ChunkKind, Seq<u8>)> {
    chunks.map_values(|chunk: Chunk| chunk@)
}

/// Tells whether four bytes are the letters `glTF`.
fn is_magic(bytes: &[u8; 4]) -> (yes: bool)
    ensures
        yes == (bytes@ == magic()),
{
    let yes = bytes[0] == 0x67 && bytes[1] == 0x6C && bytes[2] == 0x54 && bytes[3] == 0x46;
    proof {
        if yes {
            assert(bytes@ =~= magic());
        } else {
            assert(magic()[0] == 0x67 && magic()[1] == 0x6C && magic()[2] == 0x54 && magic()[3]
                == 0x46);
        }
    }
    yes
}

/// The kind of chunk that a tag stands for.
fn kind_of_tag(tag: &[u8; 4]) -> (kind: Option<ChunkKind>)
    ensures
        kind == chunk_kind(tag@),
{
    let ghost json = seq![0x4Au8, 0x53u8, 0x4Fu8, 0x4Eu8];
    let ghost bin = seq![0x42u8, 0x49u8, 0x4Eu8, 0x00u8];
    if tag[0] == 0x4A && tag[1] == 0x53 && tag[2] == 0x4F && tag[3] == 0x4E {
        assert(tag@ =~= json);
        Some(ChunkKind::Json)
    } else if tag[0] == 0x42 && tag[1] == 0x49 && tag[2] == 0x4E && tag[3] == 0x00 {
        assert(tag@ =~= bin);
        assert(json[0] != tag@[0]);
        Some(ChunkKind::Bin)
    } else {
        assert(json[0] == 0x4A && json[1] == 0x53 && json[2] == 0x4F && json[3] == 0x4E);
        assert(bin[0] == 0x42 && bin[1] == 0x49 && bin[2] == 0x4E && bin[3] == 0x00);
        None
    }
}

/// The error of the library for an error of a reader.
fn eof(e: ReadError) -> (error: GltfError)
    ensures
        error == GltfError::UnexpectedEof,
{
    GltfError::UnexpectedEof
}

/// The JSON and BIN chunks of a container, in the order of the file.
pub fn parse_chunks(file: &[u8]) -> (r: Result<Vec<Chunk>, GltfError>)
    ensures
        match r {
            Ok(chunks) => glb_chunks(file@) == Ok::<_, GltfError>(chunk_views(chunks@)),
            Err(e) => glb_chunks(file@) == Err::<Seq<(ChunkKind, Seq<u8>)>, _>(e),
        },
{
    let mut reader = Reader::new_le(file);
    let magic = match reader.read_prim::<[u8; 4]>() {
        Ok(magic) => magic,
        Err(e) => {
            return Err(eof(e));
        },
    };
    proof {
        lemma_byte_array_decodes(file@.take(4), false, magic);
        assert(file@.take(4) == file@.subrange(0, 4));
    }
    if !is_magic(&magic) {
        return Err(GltfError::NotGltf);
    }
    let version = match reader.read_prim::<u32>() {
        Ok(version) => version,
        Err(e) => {
            return Err(eof(e));
        },
    };
    assert(file@.skip(4).take(4) == file@.subrange(4, 8));
    if version != 2 {
        return Err(GltfError::UnsupportedVersion);
    }
    let length = match reader.read_prim::<u32>() {
        Ok(length) => length,
        Err(e) => {
            return Err(eof(e));
        },
    };
    assert(file@.skip(4).skip(4).take(4) == file@.subrange(8, 12));
    assert(file@.skip(4).skip(4).skip(4) == file@.skip(12));
    let mut chunks: Vec<Chunk> = Vec::new();
    let ghost limit = length as int;
    assert(chunk_views(chunks@) + Seq::<(ChunkKind, Seq<u8>)>::empty() == chunk_views(chunks@));
    loop
        invariant
            limit == length,
            reader@.consumed().len() <= file@.len(),
            reader@.remaining() == file@.skip(reader@.consumed().len() as int),
            glb_chunks(file@) == prepend(
                chunk_views(chunks@),
                chunks_from(file@, reader@.consumed().len() as int, limit),
            ),
        decreases file@.len() - reader@.consumed().len(),
    {
        let pos = reader.position();
        if pos >= length as usize {
            assert(chunk_views(chunks@) + Seq::<(ChunkKind, Seq<u8>)>::empty() == chunk_views(
                chunks@,
            ));
            return Ok(chunks);
        }
        let ghost rest = file@.skip(pos as int);
        let chunk_length = match reader.read_prim::<u32>() {
            Ok(chunk_length) => chunk_length,
            Err(e) => {
                return Err(eof(e));
            },
        };
        assert(rest.take(4) == file@.subrange(pos as int, pos + 4));
        let tag = match reader.read_prim::<[u8; 4]>() {
            Ok(tag) => tag,
            Err(e) => {
                return Err(eof(e));
            },
        };
        proof {
            lemma_byte_array_decodes(rest.skip(4).take(4), false, tag);
            assert(rest.skip(4).take(4) == file@.subrange(pos + 4, pos + 8));
            assert(rest.skip(4).skip(4) == file@.skip(pos + 8));
        }
        let data = match reader.read_buf(chunk_length as usize) {
            Ok(data) => data,
            Err(e) => {
                return Err(eof(e));
            },
        };
        proof {
            let end = pos + 8 + chunk_length;
            assert(file@.skip(pos + 8).take(chunk_length as int) == file@.subrange(pos + 8, end));
            assert(file@.skip(pos + 8).skip(chunk_length as int) == file@.skip(end));
        }
        let ghost before = chunk_views(chunks@);
        let ghost tail = chunks_from(file@, pos + 8 + chunk_length, limit);
        match kind_of_tag(&tag) {
            Some(kind) => {
                chunks.push(Chunk { kind, data });
                proof {
                    assert(chunk_views(chunks@) == before.push((kind, data@)));
                    if let Ok(more) = tail {
                        assert(before + (seq![(kind, data@)] + more) == before.push((kind, data@))
                            + more);
                    }
                }
            },
            None => {
                proof {
                    if let Ok(more) = tail {
                        assert(Seq::<(ChunkKind, Seq<u8>)>::empty() + more == more);
                    }
                }
            },
        }
    }
}

/// The index of the last chunk of the given kind, or nothing where there is none.
pub fn last_chunk(chunks: &Vec<Chunk>, kind: ChunkKind) -> (found: Option<usize>)
    ensures
        match found {
            Some(i) => {
                &&& i < chunks@.len()
                &&& chunks@[i as int].kind == kind
                &&& forall|j: int| i < j < chunks@.len() ==> chunks@[j].kind != kind
            },
            None => forall|j: int| 0 <= j < chunks@.len() ==> chunks@[j].kind != kind,
        },
{
    let mut i: usize = chunks.len();
    while i > 0
        invariant
            i <= chunks.len(),
            forall|j: int| i <= j < chunks@.len() ==> chunks@[j].kind != kind,
        decreases i,
    {
        i -= 1;
        if chunks[i].kind == kind {
            return Some(i);
        }
    }
    None
}

/// Whether some chunk is of the given kind.
pub open spec fn has_chunk(chunks: Seq<Chunk>, kind: ChunkKind) -> bool {
    exists|j: int| 0 <= j < chunks.len() && (#[trigger] chunks[j]).kind == kind
}

/// The places of the chunks that a scene is loaded from: the last JSON chunk
/// and the last BIN chunk. A container that lacks either has no scene.
pub fn find_chunks(chunks: &Vec<Chunk>) -> (r: Result<(usize, usize), GltfError>)
    ensures
        match r {
            Ok((json, bin)) => {
                &&& json < chunks@.len()
                &&& chunks@[json as int].kind == ChunkKind::Json
                &&& forall|j: int| json < j < chunks@.len() ==> chunks@[j].kind != ChunkKind::Json
                &&& bin < chunks@.len()
                &&& chunks@[bin as int].kind == ChunkKind::Bin
                &&& forall|j: int| bin < j < chunks@.len() ==> chunks@[j].kind != ChunkKind::Bin
            },
            Err(e) => {
                &&& e == GltfError::MissingChunk
                &&& !(has_chunk(chunks@, ChunkKind::Json) && has_chunk(chunks@, ChunkKind::Bin))
            },
        },
{
    match last_chunk(chunks, ChunkKind::Json) {
        Some(json) => match last_chunk(chunks, ChunkKind::Bin) {
            Some(bin) => Ok((json, bin)),
            None => Err(GltfError::MissingChunk),
        },
        None => Err(GltfError::MissingChunk),
    }
}

/// A scene of the file: the nodes at its root.
#[derive(Debug)]
pub struct JsonScene {
    pub nodes: Vec<usize>,
}

/// A node: its name and the mesh that it shows.
#[derive(Debug)]
pub struct JsonNode {
    pub name: String,
    pub mesh: usize,
}

/// A part of a mesh: the accessors of its positions, of its first set of
/// texture coordinates, where it has one, and of the corners of its triangles.
#[derive(Debug)]
pub struct JsonMeshPrimitive {
    pub position: Option<usize>,
    pub texcoord_0: Option<usize>,
    pub indices: usize,
}

#[derive(Debug)]
pub struct JsonMesh {
    pub primitives: Vec<JsonMeshPrimitive>,
}

/// A material: the texture that it glows with, where it has one.
#[derive(Debug)]
pub struct JsonMaterial {
    pub emissive_texture: Option<usize>,
}

/// A texture: the image that it shows.
#[derive(Debug)]
pub struct JsonTexture {
    pub source: usize,
}

/// An image: the buffer view that holds its file.
#[derive(Debug)]
pub struct JsonImage {
    pub buffer_view: usize,
}

/// An accessor: `count` values of the type `kind`, made of components of the
/// type `component_type`, in a buffer view.
#[derive(Debug)]
pub struct JsonAccessor {
    pub buffer_view: usize,
    pub component_type: usize,
    pub count: usize,
    pub kind: String,
}

/// A buffer view: `byte_length` bytes of a buffer, from `byte_offset` on.
#[derive(Debug)]
pub struct JsonBufferView {
    pub buffer: usize,
    pub byte_length: usize,
    pub byte_offset: usize,
}

/// What the JSON chunk of a container says, as far as a scene is built from it.
#[derive(Debug)]
pub struct JsonRoot {
    pub scene: usize,
    pub scenes: Vec<JsonScene>,
    pub nodes: Vec<JsonNode>,
    pub meshes: Vec<JsonMesh>,
    pub materials: Vec<JsonMaterial>,
    pub textures: Vec<JsonTexture>,
    pub images: Vec<JsonImage>,
    pub accessors: Vec<JsonAccessor>,
    pub buffer_views: Vec<JsonBufferView>,
}

/// The type of the values of an accessor.
#[derive(Debug, Clone, Copy, PartialEq, Eq, Structural)]
pub enum AccessorKind {
    Scalar,
    Vec2,
    Vec3,
    Vec4,
    Mat2,
    Mat3,
    Mat4,
}

impl AccessorKind {
    /// The number of components that make up one value.
    pub open spec fn arity(self) -> nat {
        match self {
            AccessorKind::Scalar => 1,
            AccessorKind::Vec2 => 2,
            AccessorKind::Vec3 => 3,
            AccessorKind::Vec4 => 4,
            AccessorKind::Mat2 => 4,
            AccessorKind::Mat3 => 9,
            AccessorKind::Mat4 => 16,
        }
    }

    /// Whether the values are vectors.
    pub open spec fn is_vector(self) -> bool {
        self == AccessorKind::Vec2 || self == AccessorKind::Vec3 || self == AccessorKind::Vec4
    }

    /// The number of components that make up one value.
    pub fn components(self) -> (n: usize)
        ensures
            n == self.arity(),
    {
        match self {
            AccessorKind::Scalar => 1,
            AccessorKind::Vec2 => 2,
            AccessorKind::Vec3 => 3,
            AccessorKind::Vec4 => 4,
            AccessorKind::Mat2 => 4,
            AccessorKind::Mat3 => 9,
            AccessorKind::Mat4 => 16,
        }
    }
}

/// The type that a name stands for.
pub open spec fn accessor_kind(name: Seq<char>) -> Option<AccessorKind> {
    if name == "SCALAR"@ {
        Some(AccessorKind::Scalar)
    } else if name == "VEC2"@ {
        Some(AccessorKind::Vec2)
    } else if name == "VEC3"@ {
        Some(AccessorKind::Vec3)
    } else if name == "VEC4"@ {
        Some(AccessorKind::Vec4)
    } else if name == "MAT2"@ {
        Some(AccessorKind::Mat2)
    } else if name == "MAT3"@ {
        Some(AccessorKind::Mat3)
    } else if name == "MAT4"@ {
        Some(AccessorKind::Mat4)
    } else {
        None
    }
}

/// The type that a name stands for.
pub fn parse_kind(name: &str) -> (kind: Option<AccessorKind>)
    ensures
        kind == accessor_kind(name@),
{
    if str_eq(name, "SCALAR") {
        Some(AccessorKind::Scalar)
    } else if str_eq(name, "VEC2") {
        Some(AccessorKind::Vec2)
    } else if str_eq(name, "VEC3") {
        Some(AccessorKind::Vec3)
    } else if str_eq(name, "VEC4") {
        Some(AccessorKind::Vec4)
    } else if str_eq(name, "MAT2") {
        Some(AccessorKind::Mat2)
    } else if str_eq(name, "MAT3") {
        Some(AccessorKind::Mat3)
    } else if str_eq(name, "MAT4") {
        Some(AccessorKind::Mat4)
    } else {
        None
    }
}

/// The number of bytes of a component of the given type: 5120 and 5121 are
/// signed and unsigned bytes, 5122 and 5123 signed and unsigned numbers of two
/// bytes, 5125 is an unsigned number and 5126 a float of four bytes.
pub open spec fn component_width(component_type: usize) -> Option<nat> {
    if component_type == 5120 || component_type == 5121 {
        Some(1)
    } else if component_type == 5122 || component_type == 5123 {
        Some(2)
    } else if component_type == 5125 || component_type == 5126 {
        Some(4)
    } else {
        None
    }
}

/// The number that the bytes of a component of the given type stand for,
/// lowest byte first.
pub open spec fn component_value(component_type: usize, bytes: Seq<u8>) -> Number {
    if component_type == 5120 || component_type == 5122 {
        Number::Int(signed_value(bytes, false) as i64)
    } else if component_type == 5126 {
        Number::Float(unsigned_value(bytes, false) as u32)
    } else {
        Number::Int(unsigned_value(bytes, false) as i64)
    }
}

/// The number of bytes of a component of the given type.
pub fn width_of(component_type: usize) -> (width: Option<usize>)
    ensures
        match width {
            Some(w) => component_width(component_type) == Some(w as nat),
            None => component_width(component_type) is None,
        },
{
    if component_type == 5120 || component_type == 5121 {
        Some(1)
    } else if component_type == 5122 || component_type == 5123 {
        Some(2)
    } else if component_type == 5125 || component_type == 5126 {
        Some(4)
    } else {
        None
    }
}

/// Reads one component of the given type.
fn read_component(reader: &mut Reader<LITTLE_ENDIAN>, component_type: usize) -> (r: Result<
    Number,
    ReadError,
>)
    requires
        component_width(component_type) is Some,
    ensures
        match r {
            Ok(number) => {
                let w = component_width(component_type)->0;
                &&& w <= old(reader)@.remaining().len()
                &&& number == component_value(component_type, old(reader)@.remaining().take(w as int))
                &&& final(reader)@.remaining() == old(reader)@.remaining().skip(w as int)
            },
            Err(e) => component_width(component_type)->0 > old(reader)@.remaining().len(),
        },
{
    proof {
        lemma_pow256_values();
        let w = component_width(component_type)->0;
        if w <= reader@.remaining().len() {
            lemma_value_bound(reader@.remaining().take(w as int), false);
        }
    }
    if component_type == 5120 {
        match reader.read_prim::<i8>() {
            Ok(v) => Ok(Number::Int(v as i64)),
            Err(e) => Err(e),
        }
    } else if component_type == 5121 {
        match reader.read_prim::<u8>() {
            Ok(v) => Ok(Number::Int(v as i64)),
            Err(e) => Err(e),
        }
    } else if component_type == 5122 {
        match reader.read_prim::<i16>() {
            Ok(v) => Ok(Number::Int(v as i64)),
            Err(e) => Err(e),
        }
    } else if component_type == 5123 {
        match reader.read_prim::<u16>() {
            Ok(v) => Ok(Number::Int(v as i64)),
            Err(e) => Err(e),
        }
    } else if component_type == 5125 {
        match reader.read_prim::<u32>() {
            Ok(v) => Ok(Number::Int(v as i64)),
            Err(e) => Err(e),
        }
    } else {
        match reader.read_prim::<u32>() {
            Ok(v) => Ok(Number::Float(v)),
            Err(e) => Err(e),
        }
    }
}

/// The first `n` components of the given type that `bytes` hold, one after the other.
pub open spec fn components(bytes: Seq<u8>, component_type: usize, n: nat) -> Seq<Number> {
    Seq::new(
        n,
        |j: int|
            component_value(
                component_type,
                piece(bytes, component_width(component_type)->0, j),
            ),
    )
}

/// The values of an accessor: their type, their number, and their components
/// in one row.
#[derive(Debug)]
pub struct AccessorData {
    pub kind: Option<AccessorKind>,
    pub count: usize,
    pub numbers: Vec<Number>,
}

/// The values of an accessor, as a mathematical value.
pub struct Values {
    pub kind: Option<AccessorKind>,
    pub count: nat,
    pub numbers: Seq<Number>,
}

impl View for AccessorData {
    type V = Values;

    open spec fn view(&self) -> Values {
        Values { kind: self.kind, count: self.count as nat, numbers: self.numbers@ }
    }
}

/// The `count` values that `bytes` hold, of the type that `name` stands for
/// and with components of the given type, packed without gaps. Where there is
/// no value to decode, neither type is looked at.
pub open spec fn decode_values(
    bytes: Seq<u8>,
    name: Seq<char>,
    component_type: usize,
    count: nat,
) -> Result<Values, GltfError> {
    if count == 0 {
        Ok(Values { kind: accessor_kind(name), count, numbers: Seq::empty() })
    } else {
        match accessor_kind(name) {
            None => Err(GltfError::UnsupportedAccessorType),
            Some(kind) => match component_width(component_type) {
                None => Err(GltfError::UnsupportedComponentType),
                Some(width) => if count * kind.arity() * width > bytes.len() {
                    Err(GltfError::UnexpectedEof)
                } else {
                    Ok(
                        Values {
                            kind: Some(kind),
                            count,
                            numbers: components(bytes, component_type, count * kind.arity()),
                        },
                    )
                },
            },
        }
    }
}

/// Decodes the values that `bytes` hold.
pub fn read_values(bytes: &[u8], name: &str, component_type: usize, count: usize) -> (r: Result<
    AccessorData,
    GltfError,
>)
    ensures
        match r {
            Ok(data) => decode_values(bytes@, name@, component_type, count as nat) == Ok::<
                _,
                GltfError,
            >(data@),
            Err(e) => decode_values(bytes@, name@, component_type, count as nat) == Err::<
                Values,
                _,
            >(e),
        },
{
    let kind = parse_kind(name);
    if count == 0 {
        return Ok(AccessorData { kind, count, numbers: Vec::new() });
    }
    let kind = match kind {
        Some(kind) => kind,
        None => {
            return Err(GltfError::UnsupportedAccessorType);
        },
    };
    let width = match width_of(component_type) {
        Some(width) => width,
        None => {
            return Err(GltfError::UnsupportedComponentType);
        },
    };
    let arity = kind.components();
    assert(count * arity * width == (count * arity) * width);
    assert(count * arity <= usize::MAX * 16) by (nonlinear_arith)
        requires
            0 <= count <= usize::MAX,
            0 <= arity <= 16,
    ;
    assert(count * arity * width <= usize::MAX * 16 * 4) by (nonlinear_arith)
        requires
            0 <= count * arity <= usize::MAX * 16,
            0 <= width <= 4,
    ;
    let needed: u128 = count as u128 * arity as u128 * width as u128;
    if needed > bytes.len() as u128 {
        return Err(GltfError::UnexpectedEof);
    }
    assert(count * arity <= count * arity * width) by (nonlinear_arith)
        requires
            width >= 1,
            count * arity >= 0,
    ;
    let total: usize = count * arity;
    let mut reader = Reader::new_le(bytes);
    let mut numbers: Vec<Number> = Vec::new();
    let mut j: usize = 0;
    assert(0 * width == 0) by (nonlinear_arith);
    assert(bytes@.skip(0) == bytes@);
    while j < total
        invariant
            j <= total,
            component_width(component_type) == Some(width as nat),
            total * width <= bytes@.len(),
            reader@.remaining() == bytes@.skip(j * width),
            numbers@ == components(bytes@, component_type, j as nat),
        decreases total - j,
    {
        assert((j + 1) * width <= total * width) by (nonlinear_arith)
            requires
                j < total,
                width >= 0,
        ;
        assert((j + 1) * width == j * width + width) by (nonlinear_arith);
        assert(j * width >= 0) by (nonlinear_arith);
        match read_component(&mut reader, component_type) {
            Ok(number) => {
                numbers.push(number);
                proof {
                    assert(bytes@.skip(j * width).take(width as int) == piece(
                        bytes@,
                        width as nat,
                        j as int,
                    ));
                    assert(bytes@.skip(j * width).skip(width as int) == bytes@.skip((j + 1) * width));
                    assert(numbers@ =~= components(bytes@, component_type, (j + 1) as nat));
                }
            },
            Err(e) => {
                return Err(GltfError::UnexpectedEof);
            },
        }
        j += 1;
    }
    Ok(AccessorData { kind: Some(kind), count, numbers })
}

impl Values {
    /// Whether the components are as many as the values need.
    pub open spec fn wf(self) -> bool {
        self.count > 0 ==> self.kind is Some && self.numbers.len() == self.count
            * self.kind->0.arity()
    }
}

/// The bytes of a buffer view, and `extra` bytes after them.
pub open spec fn view_bytes(root: JsonRoot, buffers: Seq<Vec<u8>>, index: usize, extra: nat) -> Result<
    Seq<u8>,
    GltfError,
> {
    if index >= root.buffer_views@.len() {
        Err(GltfError::BadIndex)
    } else {
        let view = root.buffer_views@[index as int];
        if view.buffer >= buffers.len() {
            Err(GltfError::BadIndex)
        } else {
            let buffer = buffers[view.buffer as int]@;
            let end = view.byte_offset + view.byte_length + extra;
            if end > buffer.len() {
                Err(GltfError::OutOfBounds)
            } else {
                Ok(buffer.subrange(view.byte_offset as int, end))
            }
        }
    }
}

/// The bytes of a buffer view, and `extra` bytes after them.
fn view_slice<'a>(root: &JsonRoot, buffers: &'a Vec<Vec<u8>>, index: usize, extra: usize) -> (r:
    Result<&'a [u8], GltfError>)
    ensures
        match r {
            Ok(bytes) => view_bytes(*root, buffers@, index, extra as nat) == Ok::<_, GltfError>(
                bytes@,
            ),
            Err(e) => view_bytes(*root, buffers@, index, extra as nat) == Err::<Seq<u8>, _>(e),
        },
{
    if index >= root.buffer_views.len() {
        return Err(GltfError::BadIndex);
    }
    let view = &root.buffer_views[index];
    if view.buffer >= buffers.len() {
        return Err(GltfError::BadIndex);
    }
    let buffer = &buffers[view.buffer];
    let end: u128 = view.byte_offset as u128 + view.byte_length as u128 + extra as u128;
    if end > buffer.len() as u128 {
        return Err(GltfError::OutOfBounds);
    }
    Ok(vstd::slice::slice_subrange(buffer.as_slice(), view.byte_offset, end as usize))
}

/// The bytes of an image: those of its buffer view and the one byte after them.
pub fn read_view<'a>(root: &JsonRoot, buffers: &'a Vec<Vec<u8>>, index: usize) -> (r: Result<
    &'a [u8],
    GltfError,
>)
    ensures
        match r {
            Ok(bytes) => view_bytes(*root, buffers@, index, 1) == Ok::<_, GltfError>(bytes@),
            Err(e) => view_bytes(*root, buffers@, index, 1) == Err::<Seq<u8>, _>(e),
        },
{
    view_slice(root, buffers, index, 1)
}

/// The values of an accessor: those that the bytes of its buffer view hold.
pub open spec fn accessor_values(root: JsonRoot, buffers: Seq<Vec<u8>>, index: usize) -> Result<
    Values,
    GltfError,
> {
    if index >= root.accessors@.len() {
        Err(GltfError::BadIndex)
    } else {
        let accessor = root.accessors@[index as int];
        match view_bytes(root, buffers, accessor.buffer_view, 0) {
            Err(e) => Err(e),
            Ok(bytes) => decode_values(
                bytes,
                accessor.kind@,
                accessor.component_type,
                accessor.count as nat,
            ),
        }
    }
}

/// `decode_values` gives as many components as the values need.
pub proof fn lemma_decode_values_wf(
    bytes: Seq<u8>,
    name: Seq<char>,
    component_type: usize,
    count: nat,
)
    ensures
        decode_values(bytes, name, component_type, count) matches Ok(values) ==> values.wf()
            && values.count == count,
{
}

/// The values of an accessor.
pub fn read_accessor(root: &JsonRoot, buffers: &Vec<Vec<u8>>, index: usize) -> (r: Result<
    AccessorData,
    GltfError,
>)
    ensures
        match r {
            Ok(data) => accessor_values(*root, buffers@, index) == Ok::<_, GltfError>(data@)
                && data@.wf(),
            Err(e) => accessor_values(*root, buffers@, index) == Err::<Values, _>(e),
        },
{
    if index >= root.accessors.len() {
        return Err(GltfError::BadIndex);
    }
    let accessor = &root.accessors[index];
    let bytes = match view_slice(root, buffers, accessor.buffer_view, 0) {
        Ok(bytes) => bytes,
        Err(e) => {
            return Err(e);
        },
    };
    proof {
        lemma_decode_values_wf(
            bytes@,
            accessor.kind@,
            accessor.component_type,
            accessor.count as nat,
        );
    }
    read_values(bytes, accessor.kind.as_str(), accessor.component_type, accessor.count)
}

/// The `i`-th of the positions that `values` hold.
pub open spec fn position_at(values: Values, i: int) -> Position {
    let n = values.kind->0.arity();
    Position { x: values.numbers[i * n], y: values.numbers[i * n + 1], z: values.numbers[i * n + 2] }
}

/// The positions that `values` hold: the first three components of each
/// vector. Values of another shape are no positions, nor are values whose
/// components are not as many as they need.
pub open spec fn positions_of(values: Values) -> Result<Seq<Position>, GltfError> {
    if values.count == 0 {
        Ok(Seq::empty())
    } else if values.wf() && (values.kind == Some(AccessorKind::Vec3) || values.kind == Some(
        AccessorKind::Vec4,
    )) {
        Ok(Seq::new(values.count, |i: int| position_at(values, i)))
    } else {
        Err(GltfError::BadValue)
    }
}

/// The `i`-th of the texture coordinates that `values` hold.
pub open spec fn texcoord_at(values: Values, i: int) -> Uv {
    let n = values.kind->0.arity();
    Uv { u: values.numbers[i * n], v: values.numbers[i * n + 1] }
}

/// The texture coordinates that `values` hold: the first two components of
/// each vector. Values of another shape are no texture coordinates, nor are
/// values whose components are not as many as they need.
pub open spec fn texcoords_of(values: Values) -> Result<Seq<Uv>, GltfError> {
    if values.count == 0 {
        Ok(Seq::empty())
    } else if values.wf() && (values.kind matches Some(kind) && kind.is_vector()) {
        Ok(Seq::new(values.count, |i: int| texcoord_at(values, i)))
    } else {
        Err(GltfError::BadValue)
    }
}

/// The index that a number stands for: a whole number that is not negative.
pub open spec fn index_of(number: Number) -> Option<usize> {
    match number {
        Number::Int(i) => if 0 <= i <= usize::MAX {
            Some(i as usize)
        } else {
            None
        },
        _ => None,
    }
}

/// The indices that `values` hold. Values that are no scalars, a scalar that
/// is no index, or components that are not as many as the values need make
/// the whole fail.
pub open spec fn corners_of(values: Values) -> Result<Seq<usize>, GltfError> {
    if values.count == 0 {
        Ok(Seq::empty())
    } else if !values.wf() || values.kind != Some(AccessorKind::Scalar) {
        Err(GltfError::BadValue)
    } else if exists|j: int| 0 <= j < values.count && index_of(#[trigger] values.numbers[j]) is None {
        Err(GltfError::BadValue)
    } else {
        Ok(Seq::new(values.count, |j: int| index_of(values.numbers[j])->0))
    }
}

/// The triangles that a row of corners makes: each three in a row are one.
pub open spec fn triangles_of(corners: Seq<usize>) -> Result<Seq<(usize, usize, usize)>, GltfError> {
    if corners.len() % 3 != 0 {
        Err(GltfError::IncompleteTriangle)
    } else {
        Ok(
            Seq::new(
                corners.len() / 3,
                |t: int| (corners[3 * t], corners[3 * t + 1], corners[3 * t + 2]),
            ),
        )
    }
}

/// Tells whether the components are as many as `count` values of `n` each need.
fn has_components(data: &AccessorData, n: usize) -> (yes: bool)
    requires
        n <= 16,
    ensures
        yes == (data.numbers@.len() == data.count * n),
{
    assert(data.count * n <= usize::MAX * 16) by (nonlinear_arith)
        requires
            0 <= data.count <= usize::MAX,
            0 <= n <= 16,
    ;
    data.numbers.len() as u128 == data.count as u128 * n as u128
}

/// The positions that the values of an accessor hold.
pub fn positions(data: &AccessorData) -> (r: Result<Vec<Position>, GltfError>)
    ensures
        match r {
            Ok(list) => positions_of(data@) == Ok::<_, GltfError>(list@),
            Err(e) => positions_of(data@) == Err::<Seq<Position>, _>(e),
        },
{
    let mut list: Vec<Position> = Vec::new();
    if data.count == 0 {
        return Ok(list);
    }
    let n: usize = match data.kind {
        Some(AccessorKind::Vec3) => 3,
        Some(AccessorKind::Vec4) => 4,
        _ => {
            return Err(GltfError::BadValue);
        },
    };
    if !has_components(data, n) {
        return Err(GltfError::BadValue);
    }
    let mut i: usize = 0;
    while i < data.count
        invariant
            i <= data.count,
            n == data@.kind->0.arity(),
            n >= 3,
            data.numbers.len() == data.count * n,
            list@ == Seq::new(i as nat, |k: int| position_at(data@, k)),
        decreases data.count - i,
    {
        assert((i + 1) * n <= data.count * n) by (nonlinear_arith)
            requires
                i < data.count,
                n >= 0,
        ;
        assert((i + 1) * n == i * n + n) by (nonlinear_arith);
        assert(i * n >= 0) by (nonlinear_arith);
        list.push(
            Position::new(data.numbers[i * n], data.numbers[i * n + 1], data.numbers[i * n + 2]),
        );
        i += 1;
        assert(list@ =~= Seq::new(i as nat, |k: int| position_at(data@, k)));
    }
    Ok(list)
}

/// The texture coordinates that the values of an accessor hold.
pub fn texcoords(data: &AccessorData) -> (r: Result<Vec<Uv>, GltfError>)
    ensures
        match r {
            Ok(list) => texcoords_of(data@) == Ok::<_, GltfError>(list@),
            Err(e) => texcoords_of(data@) == Err::<Seq<Uv>, _>(e),
        },
{
    let mut list: Vec<Uv> = Vec::new();
    if data.count == 0 {
        return Ok(list);
    }
    let n: usize = match data.kind {
        Some(AccessorKind::Vec2) => 2,
        Some(AccessorKind::Vec3) => 3,
        Some(AccessorKind::Vec4) => 4,
        _ => {
            return Err(GltfError::BadValue);
        },
    };
    if !has_components(data, n) {
        return Err(GltfError::BadValue);
    }
    let mut i: usize = 0;
    while i < data.count
        invariant
            i <= data.count,
            n == data@.kind->0.arity(),
            n >= 2,
            data.numbers.len() == data.count * n,
            list@ == Seq::new(i as nat, |k: int| texcoord_at(data@, k)),
        decreases data.count - i,
    {
        assert((i + 1) * n <= data.count * n) by (nonlinear_arith)
            requires
                i < data.count,
                n >= 0,
        ;
        assert((i + 1) * n == i * n + n) by (nonlinear_arith);
        assert(i * n >= 0) by (nonlinear_arith);
        list.push(Uv::new(data.numbers[i * n], data.numbers[i * n + 1]));
        i += 1;
        assert(list@ =~= Seq::new(i as nat, |k: int| texcoord_at(data@, k)));
    }
    Ok(list)
}

/// The index that a number stands for.
pub fn to_index(number: Number) -> (index: Option<usize>)
    ensures
        index == index_of(number),
{
    match number {
        Number::Int(i) => if i >= 0 && i as u64 <= usize::MAX as u64 {
            Some(i as usize)
        } else {
            None
        },
        _ => None,
    }
}

/// The indices that the values of an accessor hold.
pub fn corners(data: &AccessorData) -> (r: Result<Vec<usize>, GltfError>)
    ensures
        match r {
            Ok(list) => corners_of(data@) == Ok::<_, GltfError>(list@),
            Err(e) => corners_of(data@) == Err::<Seq<usize>, _>(e),
        },
{
    let mut list: Vec<usize> = Vec::new();
    if data.count == 0 {
        return Ok(list);
    }
    match data.kind {
        Some(AccessorKind::Scalar) => {},
        _ => {
            return Err(GltfError::BadValue);
        },
    }
    if !has_components(data, 1) {
        return Err(GltfError::BadValue);
    }
    assert(data.numbers@.len() == data.count) by (nonlinear_arith)
        requires
            data.numbers@.len() == data.count * 1,
    ;
    let mut j: usize = 0;
    while j < data.count
        invariant
            j <= data.count,
            data.numbers@.len() == data.count,
            forall|k: int| 0 <= k < j ==> index_of(#[trigger] data.numbers@[k]) is Some,
            list@ == Seq::new(j as nat, |k: int| index_of(data.numbers@[k])->0),
        decreases data.count - j,
    {
        match to_index(data.numbers[j]) {
            Some(index) => {
                list.push(index);
            },
            None => {
                return Err(GltfError::BadValue);
            },
        }
        j += 1;
        assert(list@ =~= Seq::new(j as nat, |k: int| index_of(data.numbers@[k])->0));
    }
    Ok(list)
}

/// The triangles that a row of corners makes.
pub fn triangles(corners: &Vec<usize>) -> (r: Result<Vec<(usize, usize, usize)>, GltfError>)
    ensures
        match r {
            Ok(list) => triangles_of(corners@) == Ok::<_, GltfError>(list@),
            Err(e) => triangles_of(corners@) == Err::<Seq<(usize, usize, usize)>, _>(e),
        },
{
    if corners.len() % 3 != 0 {
        return Err(GltfError::IncompleteTriangle);
    }
    let count = corners.len() / 3;
    let mut list: Vec<(usize, usize, usize)> = Vec::new();
    let mut t: usize = 0;
    while t < count
        invariant
            t <= count,
            corners.len() == 3 * count,
            list@ == Seq::new(
                t as nat,
                |k: int| (corners@[3 * k], corners@[3 * k + 1], corners@[3 * k + 2]),
            ),
        decreases count - t,
    {
        list.push((corners[3 * t], corners[3 * t + 1], corners[3 * t + 2]));
        t += 1;
        assert(list@ =~= Seq::new(
            t as nat,
            |k: int| (corners@[3 * k], corners@[3 * k + 1], corners@[3 * k + 2]),
        ));
    }
    Ok(list)
}

/// The part of a mesh that each accessor of a primitive gives, one after the
/// other: positions, texture coordinates where there are any, and triangles.
pub open spec fn primitive_positions(
    root: JsonRoot,
    buffers: Seq<Vec<u8>>,
    primitive: JsonMeshPrimitive,
) -> Result<Seq<Position>, GltfError> {
    match primitive.position {
        None => Err(GltfError::MissingPosition),
        Some(accessor) => match accessor_values(root, buffers, accessor) {
            Err(e) => Err(e),
            Ok(values) => positions_of(values),
        },
    }
}

pub open spec fn primitive_texcoords(
    root: JsonRoot,
    buffers: Seq<Vec<u8>>,
    primitive: JsonMeshPrimitive,
) -> Result<Option<Seq<Uv>>, GltfError> {
    match primitive.texcoord_0 {
        None => Ok(None),
        Some(accessor) => match accessor_values(root, buffers, accessor) {
            Err(e) => Err(e),
            Ok(values) => match texcoords_of(values) {
                Err(e) => Err(e),
                Ok(list) => Ok(Some(list)),
            },
        },
    }
}

pub open spec fn primitive_triangles(
    root: JsonRoot,
    buffers: Seq<Vec<u8>>,
    primitive: JsonMeshPrimitive,
) -> Result<Seq<(usize, usize, usize)>, GltfError> {
    match accessor_values(root, buffers, primitive.indices) {
        Err(e) => Err(e),
        Ok(values) => match corners_of(values) {
            Err(e) => Err(e),
            Ok(corners) => triangles_of(corners),
        },
    }
}

/// The mesh of a primitive. Its material is the first of the scene. Without
/// texture coordinates, every vertex has the coordinate zero. What fails
/// first, in the order positions, texture coordinates, triangles, is the
/// error. Texture coordinates that are not one for each vertex, and then a
/// triangle that names a vertex which is not there, are errors too.
pub open spec fn primitive_mesh(
    root: JsonRoot,
    buffers: Seq<Vec<u8>>,
    primitive: JsonMeshPrimitive,
) -> Result<MeshModel, GltfError> {
    match primitive_positions(root, buffers, primitive) {
        Err(e) => Err(e),
        Ok(position) => match primitive_texcoords(root, buffers, primitive) {
            Err(e) => Err(e),
            Ok(texcoord) => match primitive_triangles(root, buffers, primitive) {
                Err(e) => Err(e),
                Ok(indices) => if texcoord matches Some(given) && given.len() != position.len() {
                    Err(GltfError::TexcoordCount)
                } else if !triangles_in_range(indices, position.len() as int) {
                    Err(GltfError::OutOfRange)
                } else {
                    Ok(
                        MeshModel {
                            material_index: 0,
                            position,
                            texcoord: match texcoord {
                                Some(given) => given,
                                None => Seq::new(position.len(), |i: int| Uv::zero()),
                            },
                            indices,
                        },
                    )
                },
            },
        },
    }
}

/// The mesh of a primitive.
pub fn load_primitive(root: &JsonRoot, buffers: &Vec<Vec<u8>>, primitive: &JsonMeshPrimitive) -> (r:
    Result<Mesh, GltfError>)
    ensures
        match r {
            Ok(mesh) => primitive_mesh(*root, buffers@, *primitive) == Ok::<_, GltfError>(mesh@)
                && mesh.well_formed() && mesh.material_index == 0,
            Err(e) => primitive_mesh(*root, buffers@, *primitive) == Err::<MeshModel, _>(e),
        },
{
    let position_accessor = match primitive.position {
        Some(accessor) => accessor,
        None => {
            return Err(GltfError::MissingPosition);
        },
    };
    let position = match read_accessor(root, buffers, position_accessor) {
        Ok(data) => match positions(&data) {
            Ok(position) => position,
            Err(e) => {
                return Err(e);
            },
        },
        Err(e) => {
            return Err(e);
        },
    };
    let texcoord = match primitive.texcoord_0 {
        None => None,
        Some(accessor) => match read_accessor(root, buffers, accessor) {
            Ok(data) => match texcoords(&data) {
                Ok(texcoord) => Some(texcoord),
                Err(e) => {
                    return Err(e);
                },
            },
            Err(e) => {
                return Err(e);
            },
        },
    };
    let indices = match read_accessor(root, buffers, primitive.indices) {
        Ok(data) => match corners(&data) {
            Ok(corners) => match triangles(&corners) {
                Ok(indices) => indices,
                Err(e) => {
                    return Err(e);
                },
            },
            Err(e) => {
                return Err(e);
            },
        },
        Err(e) => {
            return Err(e);
        },
    };
    if let Some(given) = &texcoord {
        if given.len() != position.len() {
            return Err(GltfError::TexcoordCount);
        }
    }
    if !all_in_range(&indices, position.len()) {
        return Err(GltfError::OutOfRange);
    }
    Ok(Mesh::new(0, position, texcoord, indices))
}

/// The views of `meshes`.
pub open spec fn mesh_views(meshes: Seq<Mesh>) -> Seq<MeshModel> {
    meshes.map_values(|mesh: Mesh| mesh@)
}

/// The meshes of the first `n` of `primitives`, in their order. The first
/// primitive that fails fails the whole.
pub open spec fn primitives_meshes(
    root: JsonRoot,
    buffers: Seq<Vec<u8>>,
    primitives: Seq<JsonMeshPrimitive>,
    n: int,
) -> Result<Seq<MeshModel>, GltfError>
    decreases n,
{
    if n <= 0 {
        Ok(Seq::empty())
    } else {
        match primitives_meshes(root, buffers, primitives, n - 1) {
            Err(e) => Err(e),
            Ok(before) => match primitive_mesh(root, buffers, primitives[n - 1]) {
                Err(e) => Err(e),
                Ok(mesh) => Ok(before.push(mesh)),
            },
        }
    }
}

/// The first primitive that fails fails every longer row of primitives alike.
pub proof fn lemma_primitives_fail(
    root: JsonRoot,
    buffers: Seq<Vec<u8>>,
    primitives: Seq<JsonMeshPrimitive>,
    i: int,
    n: int,
)
    requires
        0 <= i < n,
        primitives_meshes(root, buffers, primitives, i) is Ok,
        primitive_mesh(root, buffers, primitives[i]) is Err,
    ensures
        primitives_meshes(root, buffers, primitives, n) == Err::<Seq<MeshModel>, _>(
            primitive_mesh(root, buffers, primitives[i])->Err_0,
        ),
    decreases n,
{
    if n > i + 1 {
        lemma_primitives_fail(root, buffers, primitives, i, n - 1);
    }
}

/// Whether a node is left out of the scene: its name, in lower case, holds `skybox`.
pub open spec fn is_skybox(name: Seq<char>) -> bool {
    occurs(lowercased(name), "skybox"@)
}

/// The meshes that a node adds to the scene: none for a skybox, otherwise
/// those of the primitives of its mesh.
pub open spec fn node_meshes(root: JsonRoot, buffers: Seq<Vec<u8>>, node: usize) -> Result<
    Seq<MeshModel>,
    GltfError,
> {
    if node >= root.nodes@.len() {
        Err(GltfError::BadIndex)
    } else if is_skybox(root.nodes@[node as int].name@) {
        Ok(Seq::empty())
    } else if root.nodes@[node as int].mesh >= root.meshes@.len() {
        Err(GltfError::BadIndex)
    } else {
        let primitives = root.meshes@[root.nodes@[node as int].mesh as int].primitives@;
        primitives_meshes(root, buffers, primitives, primitives.len() as int)
    }
}

/// The meshes that the first `n` of `nodes` add to the scene, in their order.
pub open spec fn nodes_meshes(root: JsonRoot, buffers: Seq<Vec<u8>>, nodes: Seq<usize>, n: int) -> Result<
    Seq<MeshModel>,
    GltfError,
>
    decreases n,
{
    if n <= 0 {
        Ok(Seq::empty())
    } else {
        match nodes_meshes(root, buffers, nodes, n - 1) {
            Err(e) => Err(e),
            Ok(before) => match node_meshes(root, buffers, nodes[n - 1]) {
                Err(e) => Err(e),
                Ok(meshes) => Ok(before + meshes),
            },
        }
    }
}

/// The first node that fails fails every longer row of nodes alike.
pub proof fn lemma_nodes_fail(
    root: JsonRoot,
    buffers: Seq<Vec<u8>>,
    nodes: Seq<usize>,
    i: int,
    n: int,
)
    requires
        0 <= i < n,
        nodes_meshes(root, buffers, nodes, i) is Ok,
        node_meshes(root, buffers, nodes[i]) is Err,
    ensures
        nodes_meshes(root, buffers, nodes, n) == Err::<Seq<MeshModel>, _>(
            node_meshes(root, buffers, nodes[i])->Err_0,
        ),
    decreases n,
{
    if n > i + 1 {
        lemma_nodes_fail(root, buffers, nodes, i, n - 1);
    }
}

/// The meshes of the scene that the file names as its own.
pub open spec fn scene_meshes(root: JsonRoot, buffers: Seq<Vec<u8>>) -> Result<
    Seq<MeshModel>,
    GltfError,
> {
    if root.scene >= root.scenes@.len() {
        Err(GltfError::BadIndex)
    } else {
        let nodes = root.scenes@[root.scene as int].nodes@;
        nodes_meshes(root, buffers, nodes, nodes.len() as int)
    }
}

/// Tells whether a node is left out of the scene.
pub fn name_is_skybox(name: &str) -> (yes: bool)
    ensures
        yes == is_skybox(name@),
{
    let lower = to_lowercase(name);
    let hay = chars_of(lower.as_str());
    let needle = chars_of("skybox");
    chars_contain(&hay, &needle)
}

/// Whether every one of `meshes` can be drawn and names the first material.
pub open spec fn meshes_ready(meshes: Seq<Mesh>) -> bool {
    forall|i: int|
        0 <= i < meshes.len() ==> (#[trigger] meshes[i]).well_formed() && meshes[i].material_index
            == 0
}

/// Adds the meshes of a node to `meshes`.
#[verifier::loop_isolation(false)]
fn load_node(root: &JsonRoot, buffers: &Vec<Vec<u8>>, node: usize, meshes: &mut Vec<Mesh>) -> (r:
    Result<(), GltfError>)
    requires
        meshes_ready(old(meshes)@),
    ensures
        match r {
            Ok(()) => node_meshes(*root, buffers@, node) matches Ok(added) && mesh_views(
                final(meshes)@,
            ) == mesh_views(old(meshes)@) + added && meshes_ready(final(meshes)@),
            Err(e) => node_meshes(*root, buffers@, node) == Err::<Seq<MeshModel>, _>(e),
        },
{
    if node >= root.nodes.len() {
        return Err(GltfError::BadIndex);
    }
    let entry = &root.nodes[node];
    if name_is_skybox(entry.name.as_str()) {
        assert(mesh_views(meshes@) + Seq::<MeshModel>::empty() == mesh_views(meshes@));
        return Ok(());
    }
    if entry.mesh >= root.meshes.len() {
        return Err(GltfError::BadIndex);
    }
    let primitives = &root.meshes[entry.mesh].primitives;
    let mut i: usize = 0;
    assert(mesh_views(meshes@) + Seq::<MeshModel>::empty() == mesh_views(meshes@));
    while i < primitives.len()
        invariant
            i <= primitives.len(),
            primitives_meshes(*root, buffers@, primitives@, i as int) matches Ok(added)
                && mesh_views(meshes@) == mesh_views(old(meshes)@) + added,
            meshes_ready(meshes@),
        decreases primitives.len() - i,
    {
        let ghost before = mesh_views(meshes@);
        let ghost added = primitives_meshes(*root, buffers@, primitives@, i as int)->Ok_0;
        match load_primitive(root, buffers, &primitives[i]) {
            Ok(mesh) => {
                meshes.push(mesh);
                proof {
                    assert(mesh_views(meshes@) == before.push(mesh@));
                    assert(before.push(mesh@) == mesh_views(old(meshes)@) + added.push(mesh@));
                }
            },
            Err(e) => {
                proof {
                    lemma_primitives_fail(
                        *root,
                        buffers@,
                        primitives@,
                        i as int,
                        primitives@.len() as int,
                    );
                }
                return Err(e);
            },
        }
        i += 1;
    }
    Ok(())
}

/// The bytes that the texture of a material is decoded from: those of the
/// image of its texture, with the one byte after them. A material without
/// texture has none.
pub open spec fn texture_source(root: JsonRoot, buffers: Seq<Vec<u8>>, material: JsonMaterial) -> Result<
    Option<Seq<u8>>,
    GltfError,
> {
    match material.emissive_texture {
        None => Ok(None),
        Some(texture) => if texture >= root.textures@.len() {
            Err(GltfError::BadIndex)
        } else if root.textures@[texture as int].source >= root.images@.len() {
            Err(GltfError::BadIndex)
        } else {
            let image = root.images@[root.textures@[texture as int].source as int];
            match view_bytes(root, buffers, image.buffer_view, 1) {
                Err(e) => Err(e),
                Ok(bytes) => Ok(Some(bytes)),
            }
        },
    }
}

/// The bytes that the texture of a material is decoded from.
pub fn texture_bytes<'a>(root: &JsonRoot, buffers: &'a Vec<Vec<u8>>, material: &JsonMaterial) -> (r:
    Result<Option<&'a [u8]>, GltfError>)
    ensures
        match r {
            Ok(Some(bytes)) => texture_source(*root, buffers@, *material) == Ok::<_, GltfError>(
                Some(bytes@),
            ),
            Ok(None) => texture_source(*root, buffers@, *material) == Ok::<
                Option<Seq<u8>>,
                GltfError,
            >(None),
            Err(e) => texture_source(*root, buffers@, *material) == Err::<Option<Seq<u8>>, _>(e),
        },
{
    let texture = match material.emissive_texture {
        Some(texture) => texture,
        None => {
            return Ok(None);
        },
    };
    if texture >= root.textures.len() {
        return Err(GltfError::BadIndex);
    }
    let source = root.textures[texture].source;
    if source >= root.images.len() {
        return Err(GltfError::BadIndex);
    }
    match read_view(root, buffers, root.images[source].buffer_view) {
        Ok(bytes) => Ok(Some(bytes)),
        Err(e) => Err(e),
    }
}

/// What becomes of a decoded image, or of the failure to decode it.
pub fn texture_of<E>(decoded: Result<crate::material::RgbaImage, E>) -> (r: Result<
    Material,
    GltfError,
>)
    ensures
        match decoded {
            Err(_) => r == Err::<Material, _>(GltfError::Image),
            Ok(image) => if counted(image.pixels@) == 0 {
                r == Err::<Material, _>(GltfError::BlankTexture)
            } else {
                r matches Ok(material) && material@ == (MaterialModel::Texture {
                    pixels: image.pixels@,
                }) && material.color() == average_color(image.pixels@)
            },
        },
{
    match decoded {
        Err(_) => Err(GltfError::Image),
        Ok(image) => match MaterialGenericTexture::try_new(image) {
            Some(texture) => Ok(Material::Texture(texture)),
            None => Err(GltfError::BlankTexture),
        },
    }
}

/// Whether `material` can be what is loaded from the given source. Without
/// texture, it is white. With one, it is a texture in which some pixel
/// counts, and which shows the average of its pixels; what the pixels are is
/// up to the decoder.
pub open spec fn loaded_from(source: Result<Option<Seq<u8>>, GltfError>, material: Material) -> bool {
    match source {
        Err(_) => false,
        Ok(None) => material@ == MaterialModel::Color(Rgb(255, 255, 255)),
        Ok(Some(_)) => material@ matches MaterialModel::Texture { pixels } && counted(pixels) > 0
            && material.color() == average_color(pixels),
    }
}

/// Whether loading from the given source can fail with `error`. An error of
/// the source is the error. A source without texture does not fail. An image
/// may fail to decode, or hold no pixel that counts.
pub open spec fn fails_from(source: Result<Option<Seq<u8>>, GltfError>, error: GltfError) -> bool {
    match source {
        Err(e) => error == e,
        Ok(None) => false,
        Ok(Some(_)) => error == GltfError::Image || error == GltfError::BlankTexture,
    }
}

/// The material that an entry of the file describes. The decoder is handed
/// the bytes of `texture_source`, and what it returns goes to `texture_of`.
pub fn load_material(root: &JsonRoot, buffers: &Vec<Vec<u8>>, material: &JsonMaterial) -> (r: Result<
    Material,
    GltfError,
>)
    ensures
        match r {
            Ok(loaded) => loaded_from(texture_source(*root, buffers@, *material), loaded),
            Err(e) => fails_from(texture_source(*root, buffers@, *material), e),
        },
{
    match texture_bytes(root, buffers, material) {
        Err(e) => Err(e),
        Ok(None) => Ok(Material::Color(MaterialGenericColor::new(Rgb(255, 255, 255)))),
        Ok(Some(bytes)) => texture_of(decode_image(bytes)),
    }
}

/// Whether `materials` can be what is loaded from the first entries of the
/// file, one from each and in their order.
pub open spec fn materials_loaded(root: JsonRoot, buffers: Seq<Vec<u8>>, materials: Seq<Material>) -> bool {
    &&& materials.len() <= root.materials@.len()
    &&& forall|j: int|
        0 <= j < materials.len() ==> loaded_from(
            texture_source(root, buffers, root.materials@[j]),
            #[trigger] materials[j],
        )
}

/// Whether loading the materials of the file can fail with `error`: some
/// entry can fail with it, and no entry before that one has an error of its source.
pub open spec fn materials_fail(root: JsonRoot, buffers: Seq<Vec<u8>>, error: GltfError) -> bool {
    exists|j: int|
        0 <= j < root.materials@.len() && fails_from(
            #[trigger] texture_source(root, buffers, root.materials@[j]),
            error,
        ) && forall|i: int|
            0 <= i < j ==> (#[trigger] texture_source(root, buffers, root.materials@[i])) is Ok
}

/// The scene that a file describes: the meshes of the nodes of its scene, and
/// all its materials. Every mesh of it can be drawn and finds its material.
/// Where the meshes fail, their error is returned; otherwise that of the first
/// material that fails; otherwise, where there are meshes and no material,
/// that no material is there.
#[verifier::loop_isolation(false)]
pub fn load_scene(root: &JsonRoot, buffers: &Vec<Vec<u8>>) -> (r: Result<Scene, GltfError>)
    ensures
        match r {
            Ok(scene) => {
                &&& scene_meshes(*root, buffers@) == Ok::<_, GltfError>(mesh_views(scene.meshes@))
                &&& scene.materials@.len() == root.materials@.len()
                &&& materials_loaded(*root, buffers@, scene.materials@)
                &&& scene.valid()
            },
            Err(e) => {
                ||| scene_meshes(*root, buffers@) == Err::<Seq<MeshModel>, _>(e)
                ||| (scene_meshes(*root, buffers@) is Ok && materials_fail(*root, buffers@, e))
                ||| (e == GltfError::MissingMaterial && root.materials@.len() == 0 && (scene_meshes(
                    *root,
                    buffers@,
                ) matches Ok(meshes) && meshes.len() > 0))
            },
        },
{
    let mut scene = Scene::new();
    if root.scene >= root.scenes.len() {
        return Err(GltfError::BadIndex);
    }
    let nodes = &root.scenes[root.scene].nodes;
    let mut meshes: Vec<Mesh> = Vec::new();
    let mut i: usize = 0;
    assert(mesh_views(meshes@) == Seq::<MeshModel>::empty());
    while i < nodes.len()
        invariant
            i <= nodes.len(),
            nodes_meshes(*root, buffers@, nodes@, i as int) == Ok::<_, GltfError>(
                mesh_views(meshes@),
            ),
            meshes_ready(meshes@),
        decreases nodes.len() - i,
    {
        match load_node(root, buffers, nodes[i], &mut meshes) {
            Ok(()) => {},
            Err(e) => {
                proof {
                    lemma_nodes_fail(*root, buffers@, nodes@, i as int, nodes@.len() as int);
                }
                return Err(e);
            },
        }
        i += 1;
    }
    let mut materials: Vec<Material> = Vec::new();
    let mut j: usize = 0;
    while j < root.materials.len()
        invariant
            j <= root.materials.len(),
            materials@.len() == j,
            materials_loaded(*root, buffers@, materials@),
        decreases root.materials.len() - j,
    {
        match load_material(root, buffers, &root.materials[j]) {
            Ok(material) => {
                materials.push(material);
            },
            Err(e) => {
                proof {
                    assert forall|k: int| 0 <= k < j implies (#[trigger] texture_source(
                        *root,
                        buffers@,
                        root.materials@[k],
                    )) is Ok by {
                        assert(loaded_from(
                            texture_source(*root, buffers@, root.materials@[k]),
                            materials@[k],
                        ));
                    }
                    assert(fails_from(
                        texture_source(*root, buffers@, root.materials@[j as int]),
                        e,
                    ));
                }
                return Err(e);
            },
        }
        j += 1;
    }
    if meshes.len() > 0 && materials.len() == 0 {
        return Err(GltfError::MissingMaterial);
    }
    scene.meshes = meshes;
    scene.materials = materials;
    Ok(scene)
}

} // verus!
