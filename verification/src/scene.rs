//! A scene: meshes and the materials that they refer to.

use crate::material::Material;
use crate::mesh::Mesh;
use vstd::prelude::*;

verus! {

#[derive(Debug)]
pub struct Scene {
    pub meshes: Vec<Mesh>,
    pub materials: Vec<Material>,
}

impl Scene {
    /// Whether every mesh can be drawn and names a material that exists.
    pub open spec fn valid(self) -> bool {
        forall|i: int|
            0 <= i < self.meshes@.len() ==> {
                &&& (#[trigger] self.meshes@[i]).well_formed()
                &&& self.meshes@[i].material_index < self.materials@.len()
            }
    }

    /// A scene without meshes and without materials.
    pub fn new() -> (scene: Self)
        ensures
            scene.meshes@.len() == 0,
            scene.materials@.len() == 0,
    {
        Self { meshes: Vec::new(), materials: Vec::new() }
    }

    /// Tells whether every mesh can be drawn and names a material that exists.
    pub fn is_valid(&self) -> (ok: bool)
        ensures
            ok == self.valid(),
    {
        let mut i: usize = 0;
        while i < self.meshes.len()
            invariant
                i <= self.meshes.len(),
                forall|j: int|
                    0 <= j < i ==> {
                        &&& (#[trigger] self.meshes@[j]).well_formed()
                        &&& self.meshes@[j].material_index < self.materials@.len()
                    },
            decreases self.meshes.len() - i,
        {
            let mesh = &self.meshes[i];
            if !mesh.is_well_formed() || mesh.material_index >= self.materials.len() {
                return false;
            }
            i += 1;
        }
        true
    }
}

} // verus!
