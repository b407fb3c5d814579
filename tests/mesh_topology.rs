use raytracer_rs::mesh::{fan_triangulate, split_faces, validate_faces, vertex_faces};
use raytracer_rs::{MeshTopology, RTError, ShadingMode};

#[test]
fn split_faces_cuts_runs() {
    let faces = split_faces(&vec![3, 4], &vec![0, 1, 2, 2, 1, 3, 4]).unwrap();
    assert_eq!(faces, vec![vec![0, 1, 2], vec![2, 1, 3, 4]]);
    assert!(matches!(split_faces(&vec![3, 4], &vec![0, 1, 2]), Err(RTError::InvalidGeo(_))));
    assert!(matches!(split_faces(&vec![3], &vec![0, 1, 2, 3]), Err(RTError::InvalidGeo(_))));
    assert_eq!(split_faces(&vec![], &vec![]).unwrap(), Vec::<Vec<usize>>::new());
}

#[test]
fn fan_of_pentagon() {
    let tris = fan_triangulate(&vec![vec![4, 3, 2, 1, 0]]);
    let got: Vec<(usize, usize, usize)> = tris.iter().map(|t| (t.v0, t.v1, t.v2)).collect();
    assert_eq!(got, vec![(4, 3, 2), (4, 2, 1), (4, 1, 0)]);
    assert!(tris.iter().all(|t| t.face == 0));
}

#[test]
fn validate_faces_reports_each_defect() {
    assert!(validate_faces(&vec![vec![0, 1, 2]], 3).is_ok());
    assert!(matches!(validate_faces(&vec![vec![0, 1]], 2), Err(RTError::InvalidGeo(_))));
    assert!(matches!(validate_faces(&vec![vec![0, 1, 3]], 3), Err(RTError::InvalidGeo(_))));
    assert!(matches!(validate_faces(&vec![vec![0, 1, 2]], 4), Err(RTError::InvalidGeo(_))));
}

#[test]
fn vertex_faces_counts_each_corner() {
    let adj = vertex_faces(&vec![vec![0, 1, 2], vec![2, 1, 3], vec![0, 0, 3]], 4);
    assert_eq!(adj, vec![vec![0, 2, 2], vec![0, 1], vec![0, 1], vec![1, 2]]);
}

#[test]
fn topology_rejects_unused_vertex() {
    assert!(MeshTopology::new(vec![vec![0, 1, 2]], 3).is_ok());
    assert!(matches!(MeshTopology::new(vec![vec![0, 1, 2]], 5), Err(RTError::InvalidGeo(_))));
    assert_ne!(ShadingMode::Flat, ShadingMode::Smooth);
}
