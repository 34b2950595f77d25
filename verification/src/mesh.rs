//! Triangle meshes as model files give them.

use crate::uv::{Number, Uv};
use vstd::prelude::*;

verus! {

/// The place of a vertex.
#[derive(Debug, Clone, Copy, PartialEq, Eq, Structural)]
pub struct Position {
    pub x: Number,
    pub y: Number,
    pub z: Number,
}

impl Position {
    pub fn new(x: Number, y: Number, z: Number) -> (position: Self)
        ensures
            position == (Position { x, y, z }),
    {
        Self { x, y, z }
    }
}

/// A mesh: vertices, one texture coordinate for each, triangles that name
/// their three vertices by index, and the index of a material.
#[derive(Debug)]
pub struct Mesh {
    pub material_index: usize,
    pub position: Vec<Position>,
    pub texcoord: Vec<Uv>,
    pub indices: Vec<(usize, usize, usize)>,
}

/// Whether the three corners of a triangle are among `count` vertices.
pub open spec fn triangle_in_range(triangle: (usize, usize, usize), count: int) -> bool {
    triangle.0 < count && triangle.1 < count && triangle.2 < count
}

/// Whether every one of `triangles` has its corners among `count` vertices.
pub open spec fn triangles_in_range(triangles: Seq<(usize, usize, usize)>, count: int) -> bool {
    forall|i: int| 0 <= i < triangles.len() ==> triangle_in_range(#[trigger] triangles[i], count)
}

/// Tells whether every one of `triangles` has its corners among `count` vertices.
pub fn all_in_range(triangles: &Vec<(usize, usize, usize)>, count: usize) -> (ok: bool)
    ensures
        ok == triangles_in_range(triangles@, count as int),
{
    let mut i: usize = 0;
    while i < triangles.len()
        invariant
            i <= triangles.len(),
            forall|j: int| 0 <= j < i ==> triangle_in_range(#[trigger] triangles@[j], count as int),
        decreases triangles.len() - i,
    {
        let triangle = triangles[i];
        if triangle.0 >= count || triangle.1 >= count || triangle.2 >= count {
            return false;
        }
        i += 1;
    }
    true
}

impl Mesh {
    /// Whether every triangle names vertices that the mesh has.
    pub open spec fn well_indexed(self) -> bool {
        triangles_in_range(self.indices@, self.position@.len() as int)
    }

    /// Whether the mesh can be drawn: every triangle names vertices that the
    /// mesh has, and every vertex has its texture coordinate.
    pub open spec fn well_formed(self) -> bool {
        self.well_indexed() && self.texcoord@.len() == self.position@.len()
    }

    /// A mesh of the given parts. Without texture coordinates, every vertex
    /// gets the coordinate zero.
    pub fn new(
        material_index: usize,
        position: Vec<Position>,
        texcoord: Option<Vec<Uv>>,
        indices: Vec<(usize, usize, usize)>,
    ) -> (mesh: Self)
        ensures
            mesh.material_index == material_index,
            mesh.position@ == position@,
            mesh.indices@ == indices@,
            mesh.texcoord@ == match texcoord {
                Some(given) => given@,
                None => Seq::new(position@.len(), |i: int| Uv::zero()),
            },
    {
        let texcoord = match texcoord {
            Some(given) => given,
            None => {
                let mut blank: Vec<Uv> = Vec::new();
                let mut i: usize = 0;
                while i < position.len()
                    invariant
                        i <= position.len(),
                        blank@ == Seq::new(i as nat, |i: int| Uv::zero()),
                    decreases position.len() - i,
                {
                    blank.push(Uv::new(Number::Float(0), Number::Float(0)));
                    i += 1;
                    assert(blank@ =~= Seq::new(i as nat, |i: int| Uv::zero()));
                }
                blank
            },
        };
        Self { material_index, texcoord, position, indices }
    }

    /// Tells whether every triangle names vertices that the mesh has.
    pub fn is_well_indexed(&self) -> (ok: bool)
        ensures
            ok == self.well_indexed(),
    {
        all_in_range(&self.indices, self.position.len())
    }

    /// Tells whether the mesh can be drawn.
    pub fn is_well_formed(&self) -> (ok: bool)
        ensures
            ok == self.well_formed(),
    {
        self.is_well_indexed() && self.texcoord.len() == self.position.len()
    }
}

/// A mesh as a mathematical value.
pub struct MeshModel {
    pub material_index: usize,
    pub position: Seq<Position>,
    pub texcoord: Seq<Uv>,
    pub indices: Seq<(usize, usize, usize)>,
}

impl View for Mesh {
    type V = MeshModel;

    open spec fn view(&self) -> MeshModel {
        MeshModel {
            material_index: self.material_index,
            position: self.position@,
            texcoord: self.texcoord@,
            indices: self.indices@,
        }
    }
}

} // verus!
