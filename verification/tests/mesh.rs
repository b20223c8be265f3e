use mesh_subdivision::mesh::indices_in_bounds;
use mesh_subdivision::{Mesh, MeshError, PrimitiveType};

fn bits(values: &[f32]) -> Vec<u32> {
    values.iter().map(|x| x.to_bits()).collect()
}

fn floats(values: &[u32]) -> Vec<f32> {
    values.iter().map(|x| f32::from_bits(*x)).collect()
}

#[test]
fn new_mesh_is_empty() {
    let mesh = Mesh::new();
    assert!(mesh.get_vertices().is_empty());
    assert!(mesh.get_indices().is_empty());
}

#[test]
fn from_buffers_keeps_the_buffers() {
    let positions = bits(&[0.0, 0.0, 0.0, 1.0, 0.0, 0.0, 0.0, 1.0, 0.0]);
    let indices: Vec<u16> = vec![0, 1, 2];
    let mesh = Mesh::from_buffers(positions.clone(), indices.clone()).unwrap();
    assert_eq!(mesh.get_vertices(), &positions);
    assert_eq!(mesh.get_indices(), indices);
    assert_eq!(
        floats(mesh.get_vertices()),
        vec![0.0, 0.0, 0.0, 1.0, 0.0, 0.0, 0.0, 1.0, 0.0]
    );
}

#[test]
fn from_buffers_accepts_vertices_without_triangles() {
    let mesh = Mesh::from_buffers(bits(&[1.0, 2.0, 3.0]), Vec::new()).unwrap();
    assert_eq!(mesh.get_vertices().len(), 3);
    assert!(mesh.get_indices().is_empty());
}

#[test]
fn from_buffers_accepts_empty_buffers() {
    let mesh = Mesh::from_buffers(Vec::new(), Vec::new()).unwrap();
    assert!(mesh.get_vertices().is_empty());
    assert!(mesh.get_indices().is_empty());
}

#[test]
fn from_buffers_rejects_ragged_positions() {
    let made = Mesh::from_buffers(bits(&[0.0, 0.0, 0.0, 1.0]), vec![0, 0, 0]);
    assert_eq!(made.err(), Some(MeshError::RaggedPositions));
}

#[test]
fn from_buffers_rejects_ragged_indices() {
    let made = Mesh::from_buffers(bits(&[0.0, 0.0, 0.0]), vec![0, 0]);
    assert_eq!(made.err(), Some(MeshError::RaggedIndices));
}

#[test]
fn from_buffers_rejects_an_index_without_a_vertex() {
    let positions = bits(&[0.0, 0.0, 0.0, 1.0, 0.0, 0.0, 0.0, 1.0, 0.0]);
    let made = Mesh::from_buffers(positions, vec![0, 1, 3]);
    assert_eq!(made.err(), Some(MeshError::IndexOutOfBounds));
}

#[test]
fn from_buffers_rejects_any_index_into_no_vertices() {
    let made = Mesh::from_buffers(Vec::new(), vec![0, 0, 0]);
    assert_eq!(made.err(), Some(MeshError::IndexOutOfBounds));
}

#[test]
fn from_buffers_reports_the_positions_first() {
    let made = Mesh::from_buffers(bits(&[0.0, 0.0]), vec![7, 7]);
    assert_eq!(made.err(), Some(MeshError::RaggedPositions));
}

#[test]
fn from_buffers_reports_the_length_of_the_indices_before_their_values() {
    let made = Mesh::from_buffers(bits(&[0.0, 0.0, 0.0]), vec![9, 9, 9, 9]);
    assert_eq!(made.err(), Some(MeshError::RaggedIndices));
}

#[test]
fn indices_in_bounds_holds_of_no_indices() {
    assert!(indices_in_bounds(&Vec::new(), 0));
}

#[test]
fn indices_in_bounds_compares_with_the_vertex_count() {
    let indices: Vec<u16> = vec![0, 4, 2, 3];
    assert!(indices_in_bounds(&indices, 5));
    assert!(!indices_in_bounds(&indices, 4));
    assert!(!indices_in_bounds(&indices, 0));
}

#[test]
fn indices_in_bounds_finds_a_fault_at_either_end() {
    assert!(!indices_in_bounds(&vec![9, 0, 0], 3));
    assert!(!indices_in_bounds(&vec![0, 0, 9], 3));
    assert!(indices_in_bounds(&vec![65535], 65536));
    assert!(!indices_in_bounds(&vec![65535], 65535));
}

#[test]
fn get_indices_hands_out_a_copy() {
    let mesh = Mesh::from_primitive(PrimitiveType::Tetrahedron);
    let mut copy = mesh.get_indices();
    copy[0] = 3;
    copy.push(0);
    assert_eq!(mesh.get_indices(), vec![0, 1, 2, 0, 3, 1, 0, 2, 3, 1, 3, 2]);
}

#[test]
fn primitive_type_is_copied_and_compared() {
    let kind = PrimitiveType::Octahedron;
    let same = kind;
    assert_eq!(kind, same);
    assert_ne!(kind, PrimitiveType::Cube);
}
