use raytracer_rs::geo::Geo;
use raytracer_rs::RTError;

const QUAD_AND_TRIANGLE: &str = "2\n4 3\n0 1 2 3 0 2 4\n0 0 0 1 0 0 1 1 0 0 1 0 2 2 0\n0 0 1 0 0 1 0 0 1 0 0 1 0 0 1\n0 0 1 0 1 1 0 1 0.5 0.5\n";

#[test]
fn geo_text_fields_are_read_in_order() {
    let g = Geo::from_str(QUAD_AND_TRIANGLE).unwrap();
    assert_eq!(g.num_faces, 2);
    assert_eq!(g.faces, vec![4, 3]);
    assert_eq!(g.vertex_index, vec![0, 1, 2, 3, 0, 2, 4]);
    assert_eq!(g.vertices.len(), 15);
    assert_eq!(g.vertices[3], "1");
    assert_eq!(g.tex_coords.len(), 10);
    assert_eq!(g.tex_coords[8], "0.5");
}

#[test]
fn geo_text_accepts_crlf_trimmed_count_and_plus_sign() {
    let text = " 1 \r\n+3\r\n0 1 2\r\n0 0 0 1 0 0 0 1 0\r\nn\r\n0 0 1 0 0 1";
    let g = Geo::from_str(text).unwrap();
    assert_eq!(g.num_faces, 1);
    assert_eq!(g.faces, vec![3]);
    assert_eq!(g.vertex_index, vec![0, 1, 2]);
    assert_eq!(g.vertices[8], "0");
    assert_eq!(g.tex_coords.len(), 6);
}

#[test]
fn geo_text_missing_line_is_invalid_geo() {
    let r = Geo::from_str("1\n3\n0 1 2\n0 0 0 1 0 0 0 1 0\n");
    assert!(matches!(r, Err(RTError::InvalidGeo(_))));
    assert!(matches!(Geo::from_str(""), Err(RTError::InvalidGeo(_))));
}

#[test]
fn geo_text_bad_integer_is_parse_int() {
    assert!(matches!(Geo::from_str("x\n"), Err(RTError::ParseInt(_))));
    let r = Geo::from_str("1\n3\n0 1  2\n0 0 0 1 0 0 0 1 0\nn\n0 0 1 0 0 1\n");
    assert!(matches!(r, Err(RTError::ParseInt(_))));
    let r = Geo::from_str("1\n-3\n0 1 2\n0 0 0 1 0 0 0 1 0\nn\n0 0 1 0 0 1\n");
    assert!(matches!(r, Err(RTError::ParseInt(_))));
}

#[test]
fn geo_text_partial_triple_is_error() {
    let r = Geo::from_str("1\n3\n0 1 2\n0 0 0 1 0 0 0 1\nn\n0 0 1 0 0 1\n");
    assert!(matches!(r, Err(RTError::Error(_))));
    let r = Geo::from_str("1\n3\n0 1 2\n0 0 0 1 0 0 0 1 0\nn\n0 0 1 0 0\n");
    assert!(matches!(r, Err(RTError::Error(_))));
}

#[test]
fn geo_topology_fans_faces() {
    let g = Geo::from_str(QUAD_AND_TRIANGLE).unwrap();
    let t = g.topology().unwrap();
    assert_eq!(t.num_vertices(), 5);
    assert_eq!(t.num_faces(), 2);
    assert_eq!(t.num_triangles(), 3);
    let tri = t.triangle_vertices(1).unwrap();
    assert_eq!((tri.v0, tri.v1, tri.v2, tri.face), (0, 2, 3, 0));
    let tri = t.triangle_vertices(2).unwrap();
    assert_eq!((tri.v0, tri.v1, tri.v2, tri.face), (0, 2, 4, 1));
    assert!(t.triangle_vertices(3).is_none());
    assert_eq!(t.faces_of(2), &vec![0, 1]);
    assert_eq!(t.faces_of(4), &vec![1]);
}

#[test]
fn geo_topology_rejects_count_mismatches() {
    let wrong_count = "3\n4 3\n0 1 2 3 0 2 4\n0 0 0 1 0 0 1 1 0 0 1 0 2 2 0\nn\n0 0 1 0 1 1 0 1 0.5 0.5\n";
    let g = Geo::from_str(wrong_count).unwrap();
    assert!(matches!(g.topology(), Err(RTError::InvalidGeo(_))));
    let short_corners = "2\n4 3\n0 1 2 3 0 2\n0 0 0 1 0 0 1 1 0 0 1 0 2 2 0\nn\n0 0 1 0 1 1 0 1 0.5 0.5\n";
    let g = Geo::from_str(short_corners).unwrap();
    assert!(matches!(g.topology(), Err(RTError::InvalidGeo(_))));
    let few_tex = "2\n4 3\n0 1 2 3 0 2 4\n0 0 0 1 0 0 1 1 0 0 1 0 2 2 0\nn\n0 0 1 0 1 1 0 1\n";
    let g = Geo::from_str(few_tex).unwrap();
    assert!(matches!(g.topology(), Err(RTError::InvalidGeo(_))));
    let unused_vertex = "1\n3\n0 1 2\n0 0 0 1 0 0 0 1 0 5 5 5\nn\n0 0 1 0 0 1 1 1\n";
    let g = Geo::from_str(unused_vertex).unwrap();
    assert!(matches!(g.topology(), Err(RTError::InvalidGeo(_))));
}
