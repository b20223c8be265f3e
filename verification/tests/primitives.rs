use mesh_subdivision::primitives::{
    create_cube, create_octahedron, create_tetrahedron, MINUS_ONE, ONE, ZERO,
};
use mesh_subdivision::{Mesh, PrimitiveType};

fn points(mesh: &Mesh) -> Vec<[f32; 3]> {
    let values: Vec<f32> = mesh.get_vertices().iter().map(|x| f32::from_bits(*x)).collect();
    values.chunks(3).map(|p| [p[0], p[1], p[2]]).collect()
}

fn triangles(mesh: &Mesh) -> Vec<[u16; 3]> {
    mesh.get_indices().chunks(3).map(|t| [t[0], t[1], t[2]]).collect()
}

fn directed_edges(mesh: &Mesh) -> Vec<(u16, u16)> {
    let mut edges = Vec::new();
    for t in triangles(mesh) {
        edges.push((t[0], t[1]));
        edges.push((t[1], t[2]));
        edges.push((t[2], t[0]));
    }
    edges
}

fn count(edges: &[(u16, u16)], edge: (u16, u16)) -> usize {
    edges.iter().filter(|e| **e == edge).count()
}

fn undirected_edge_count(mesh: &Mesh) -> usize {
    let mut keys: Vec<(u16, u16)> =
        directed_edges(mesh).iter().map(|&(a, b)| (a.min(b), a.max(b))).collect();
    keys.sort();
    keys.dedup();
    keys.len()
}

fn is_closed_surface(mesh: &Mesh) -> bool {
    let edges = directed_edges(mesh);
    edges.iter().all(|&(a, b)| a != b && count(&edges, (a, b)) == 1 && count(&edges, (b, a)) == 1)
}

fn euler_characteristic(mesh: &Mesh) -> i64 {
    points(mesh).len() as i64 - undirected_edge_count(mesh) as i64 + triangles(mesh).len() as i64
}

fn centre(mesh: &Mesh) -> [f32; 3] {
    let all = points(mesh);
    let mut sum = [0.0f32; 3];
    for p in &all {
        for k in 0..3 {
            sum[k] += p[k];
        }
    }
    [sum[0] / all.len() as f32, sum[1] / all.len() as f32, sum[2] / all.len() as f32]
}

fn faces_outward(mesh: &Mesh) -> bool {
    let all = points(mesh);
    let c = centre(mesh);
    triangles(mesh).iter().all(|t| {
        let a = all[t[0] as usize];
        let b = all[t[1] as usize];
        let d = all[t[2] as usize];
        let u = [b[0] - a[0], b[1] - a[1], b[2] - a[2]];
        let v = [d[0] - a[0], d[1] - a[1], d[2] - a[2]];
        let normal = [
            u[1] * v[2] - u[2] * v[1],
            u[2] * v[0] - u[0] * v[2],
            u[0] * v[1] - u[1] * v[0],
        ];
        let out = [a[0] - c[0], a[1] - c[1], a[2] - c[2]];
        normal[0] * out[0] + normal[1] * out[1] + normal[2] * out[2] > 0.0
    })
}

fn squared_length(mesh: &Mesh, a: u16, b: u16) -> f32 {
    let all = points(mesh);
    let p = all[a as usize];
    let q = all[b as usize];
    (p[0] - q[0]).powi(2) + (p[1] - q[1]).powi(2) + (p[2] - q[2]).powi(2)
}

fn indices_in_range(mesh: &Mesh) -> bool {
    let n = mesh.get_vertices().len() / 3;
    mesh.get_indices().iter().all(|i| (*i as usize) < n)
}

#[test]
fn coordinate_constants_are_the_bit_patterns_of_their_numbers() {
    assert_eq!(ZERO, 0.0f32.to_bits());
    assert_eq!(ONE, 1.0f32.to_bits());
    assert_eq!(MINUS_ONE, (-1.0f32).to_bits());
}

#[test]
fn every_primitive_is_well_formed() {
    for kind in [PrimitiveType::Cube, PrimitiveType::Tetrahedron, PrimitiveType::Octahedron] {
        let mesh = Mesh::from_primitive(kind);
        assert_eq!(mesh.get_vertices().len() % 3, 0);
        assert_eq!(mesh.get_indices().len() % 3, 0);
        assert!(indices_in_range(&mesh));
    }
}

#[test]
fn from_primitive_gives_what_the_constructors_give() {
    let cube = Mesh::from_primitive(PrimitiveType::Cube);
    assert_eq!(cube.get_vertices(), create_cube().get_vertices());
    assert_eq!(cube.get_indices(), create_cube().get_indices());
    let tetrahedron = Mesh::from_primitive(PrimitiveType::Tetrahedron);
    assert_eq!(tetrahedron.get_vertices(), create_tetrahedron().get_vertices());
    assert_eq!(tetrahedron.get_indices(), create_tetrahedron().get_indices());
    let octahedron = Mesh::from_primitive(PrimitiveType::Octahedron);
    assert_eq!(octahedron.get_vertices(), create_octahedron().get_vertices());
    assert_eq!(octahedron.get_indices(), create_octahedron().get_indices());
}

#[test]
fn cube_has_its_table() {
    let cube = create_cube();
    assert_eq!(
        points(&cube),
        vec![
            [-1.0, -1.0, 1.0],
            [1.0, -1.0, 1.0],
            [1.0, 1.0, 1.0],
            [-1.0, 1.0, 1.0],
            [-1.0, -1.0, -1.0],
            [1.0, -1.0, -1.0],
            [1.0, 1.0, -1.0],
            [-1.0, 1.0, -1.0],
        ]
    );
    assert_eq!(
        cube.get_indices(),
        vec![
            0, 1, 2, 0, 2, 3, 1, 5, 6, 1, 6, 2, 5, 4, 7, 5, 7, 6, 4, 0, 3, 4, 3, 7, 3, 2, 6, 3,
            6, 7, 4, 5, 1, 4, 1, 0
        ]
    );
}

#[test]
fn cube_is_a_closed_surface_of_twelve_triangles() {
    let cube = create_cube();
    assert_eq!(points(&cube).len(), 8);
    assert_eq!(triangles(&cube).len(), 12);
    assert_eq!(undirected_edge_count(&cube), 18);
    assert!(is_closed_surface(&cube));
    assert_eq!(euler_characteristic(&cube), 2);
    assert!(faces_outward(&cube));
}

#[test]
fn cube_corners_are_at_plus_and_minus_one() {
    let cube = create_cube();
    let corners = points(&cube);
    for p in &corners {
        assert!(p.iter().all(|x| *x == 1.0 || *x == -1.0));
    }
    for i in 0..corners.len() {
        for j in 0..i {
            assert_ne!(corners[i], corners[j]);
        }
    }
    assert_eq!(centre(&cube), [0.0, 0.0, 0.0]);
}

#[test]
fn tetrahedron_has_its_table() {
    let tetrahedron = create_tetrahedron();
    assert_eq!(
        points(&tetrahedron),
        vec![[1.0, 1.0, 1.0], [1.0, -1.0, -1.0], [-1.0, 1.0, -1.0], [-1.0, -1.0, 1.0]]
    );
    assert_eq!(tetrahedron.get_indices(), vec![0, 1, 2, 0, 3, 1, 0, 2, 3, 1, 3, 2]);
}

#[test]
fn tetrahedron_is_a_closed_surface_of_four_triangles() {
    let tetrahedron = create_tetrahedron();
    assert_eq!(points(&tetrahedron).len(), 4);
    assert_eq!(triangles(&tetrahedron).len(), 4);
    assert_eq!(undirected_edge_count(&tetrahedron), 6);
    assert!(is_closed_surface(&tetrahedron));
    assert_eq!(euler_characteristic(&tetrahedron), 2);
    assert!(faces_outward(&tetrahedron));
}

#[test]
fn tetrahedron_is_regular() {
    let tetrahedron = create_tetrahedron();
    for a in 0..4u16 {
        for b in 0..a {
            assert_eq!(squared_length(&tetrahedron, a, b), 8.0);
        }
    }
}

#[test]
fn octahedron_has_its_table() {
    let octahedron = create_octahedron();
    assert_eq!(
        points(&octahedron),
        vec![
            [0.0, 0.0, 1.0],
            [1.0, 0.0, 0.0],
            [0.0, 0.0, -1.0],
            [-1.0, 0.0, 0.0],
            [0.0, 1.0, 0.0],
            [0.0, -1.0, 0.0],
        ]
    );
    assert_eq!(
        octahedron.get_indices(),
        vec![0, 1, 4, 0, 4, 3, 0, 3, 5, 0, 5, 1, 2, 4, 1, 2, 1, 5, 2, 5, 3, 2, 3, 4]
    );
}

#[test]
fn octahedron_is_a_closed_surface_of_eight_triangles() {
    let octahedron = create_octahedron();
    assert_eq!(points(&octahedron).len(), 6);
    assert_eq!(triangles(&octahedron).len(), 8);
    assert_eq!(undirected_edge_count(&octahedron), 12);
    assert!(is_closed_surface(&octahedron));
    assert_eq!(euler_characteristic(&octahedron), 2);
    assert!(faces_outward(&octahedron));
}

#[test]
fn octahedron_vertices_are_at_distance_one() {
    let octahedron = create_octahedron();
    for p in points(&octahedron) {
        assert_eq!(p[0] * p[0] + p[1] * p[1] + p[2] * p[2], 1.0);
    }
    for t in triangles(&octahedron) {
        assert_eq!(squared_length(&octahedron, t[0], t[1]), 2.0);
        assert_eq!(squared_length(&octahedron, t[1], t[2]), 2.0);
        assert_eq!(squared_length(&octahedron, t[2], t[0]), 2.0);
    }
}
