use term3d::display::Rgb;
use term3d::material::{Material, MaterialGenericColor};
use term3d::mesh::{Mesh, Position};
use term3d::plane::contains;
use term3d::plane::PlaneSide::{Backside, Frontside, Onside};
use term3d::scene::Scene;
use term3d::uv::{Number, Uv};

fn corner(n: i64) -> Position {
    Position::new(Number::Int(n), Number::Int(0), Number::Int(0))
}

#[test]
fn mesh_without_texture_coordinates_gets_zeros() {
    let mesh = Mesh::new(7, vec![corner(0), corner(1), corner(2)], None, vec![(0, 1, 2)]);
    assert_eq!(mesh.material_index, 7);
    assert_eq!(mesh.position, vec![corner(0), corner(1), corner(2)]);
    assert_eq!(mesh.indices, vec![(0, 1, 2)]);
    let zero = Uv::new(Number::Float(0), Number::Float(0));
    assert_eq!(mesh.texcoord, vec![zero, zero, zero]);
    assert_eq!(f32::from_bits(0), 0.0);
}

#[test]
fn mesh_keeps_the_texture_coordinates_it_is_given() {
    let uv = Uv::new(Number::Float(1), Number::Int(2));
    let mesh = Mesh::new(0, vec![corner(0)], Some(vec![uv, uv]), vec![]);
    assert_eq!(mesh.texcoord, vec![uv, uv]);
}

#[test]
fn mesh_knows_whether_its_triangles_name_vertices() {
    let good = Mesh::new(0, vec![corner(0), corner(1), corner(2)], None, vec![(0, 1, 2), (2, 2, 2)]);
    assert!(good.is_well_indexed());
    let bad = Mesh::new(0, vec![corner(0), corner(1), corner(2)], None, vec![(0, 1, 2), (0, 3, 1)]);
    assert!(!bad.is_well_indexed());
    assert!(Mesh::new(0, vec![], None, vec![]).is_well_indexed());
    assert!(!Mesh::new(0, vec![], None, vec![(0, 0, 0)]).is_well_indexed());
}

#[test]
fn mesh_can_be_drawn_with_a_texture_coordinate_for_each_vertex() {
    let uv = Uv::new(Number::Float(1), Number::Int(2));
    assert!(Mesh::new(0, vec![corner(0)], None, vec![(0, 0, 0)]).is_well_formed());
    assert!(Mesh::new(0, vec![corner(0)], Some(vec![uv]), vec![]).is_well_formed());
    assert!(!Mesh::new(0, vec![corner(0)], Some(vec![uv, uv]), vec![]).is_well_formed());
    assert!(!Mesh::new(0, vec![corner(0)], Some(vec![]), vec![]).is_well_formed());
    assert!(!Mesh::new(0, vec![corner(0)], None, vec![(0, 1, 0)]).is_well_formed());
}

#[test]
fn scene_is_valid_when_meshes_find_their_material() {
    let mut scene = Scene::new();
    assert!(scene.meshes.is_empty());
    assert!(scene.materials.is_empty());
    assert!(scene.is_valid());
    scene.meshes.push(Mesh::new(0, vec![corner(0)], None, vec![(0, 0, 0)]));
    assert!(!scene.is_valid());
    scene.materials.push(Material::Color(MaterialGenericColor::new(Rgb(255, 255, 255))));
    assert!(scene.is_valid());
    scene.meshes.push(Mesh::new(1, vec![corner(0)], None, vec![]));
    assert!(!scene.is_valid());
    scene.meshes.pop();
    scene.meshes.push(Mesh::new(0, vec![corner(0)], Some(vec![]), vec![]));
    assert!(!scene.is_valid());
}

#[test]
fn a_point_in_front_of_a_plane_is_outside() {
    assert!(contains(&[]));
    assert!(contains(&[Backside, Onside, Backside, Backside, Onside, Backside]));
    assert!(!contains(&[Backside, Onside, Backside, Backside, Onside, Frontside]));
    assert!(!contains(&[Frontside]));
}
