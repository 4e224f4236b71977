use rust3d::mesh::{parse_line, Corners, Line, Mesh, MeshError, Step};
use rust3d::scan::Span;

fn span(start: usize, end: usize) -> Span {
    Span { start, end }
}

fn text<'a>(line: &'a str, span: Span) -> &'a str {
    &line[span.start..span.end]
}

fn vertex_texts(line: &str) -> Option<(String, String, String)> {
    match parse_line(line.as_bytes()) {
        Line::Vertex { x, y, z } => Some((
            text(line, x).to_string(),
            text(line, y).to_string(),
            text(line, z).to_string(),
        )),
        _ => None,
    }
}

fn texts(x: &str, y: &str, z: &str) -> Option<(String, String, String)> {
    Some((x.to_string(), y.to_string(), z.to_string()))
}

#[test]
fn vertex_line_gives_the_places_of_its_coordinates() {
    assert_eq!(
        parse_line(b"v 1.0 2.5 -3"),
        Line::Vertex { x: span(2, 5), y: span(6, 9), z: span(10, 12) }
    );
}

#[test]
fn vertex_line_with_many_blanks() {
    assert_eq!(vertex_texts("  v\t0.25   -1.5e3\t 7  "), texts("0.25", "-1.5e3", "7"));
}

#[test]
fn vertex_line_with_whole_numbers_and_floats() {
    let line = "v 0.123456 -12 +4.5E-2";
    assert_eq!(vertex_texts(line), texts("0.123456", "-12", "+4.5E-2"));
    let (x, y, z) = vertex_texts(line).unwrap();
    assert_eq!(x.parse::<f64>().unwrap(), 0.123456);
    assert_eq!(y.parse::<f64>().unwrap(), -12.0);
    assert_eq!(z.parse::<f64>().unwrap(), 0.045);
}

#[test]
fn vertex_line_with_a_bare_point() {
    assert_eq!(vertex_texts("v 1. 2.e1 3.5"), texts("1.", "2.e1", "3.5"));
}

#[test]
fn vertex_line_with_named_numbers() {
    assert_eq!(vertex_texts("v inf -inf NaN"), texts("inf", "-inf", "NaN"));
}

#[test]
fn vertex_line_with_a_sign_right_behind_the_keyword() {
    assert_eq!(vertex_texts("v-1 -2 -3"), texts("-1", "-2", "-3"));
}

#[test]
fn vertex_line_with_numbers_told_apart_by_signs() {
    assert_eq!(vertex_texts("v 1-2+3"), texts("1", "-2", "+3"));
}

#[test]
fn vertex_line_needs_three_numbers() {
    assert_eq!(parse_line(b"v 1 2"), Line::Other);
    assert_eq!(parse_line(b"v 1 2 3 4"), Line::Other);
    assert_eq!(parse_line(b"v"), Line::Other);
}

#[test]
fn vertex_line_needs_digits_before_the_point() {
    assert_eq!(parse_line(b"v .5 1 2"), Line::Other);
}

#[test]
fn vertex_line_with_an_exponent_mark_and_no_exponent_says_nothing() {
    assert_eq!(parse_line(b"v 1e 2 3"), Line::Other);
    assert_eq!(parse_line(b"v 1.5e+ 2 3"), Line::Other);
}

#[test]
fn vertex_line_with_a_name_that_runs_on_says_nothing() {
    assert_eq!(parse_line(b"v infx 2 3"), Line::Other);
    assert_eq!(parse_line(b"v 1 NaNa 3"), Line::Other);
    assert_eq!(parse_line(b"v +inf 2 3"), Line::Other);
}

#[test]
fn keyword_has_to_stand_alone() {
    assert_eq!(parse_line(b"vt 0.5 0.5 0.0"), Line::Other);
    assert_eq!(parse_line(b"vn 0 1 0"), Line::Other);
    assert_eq!(parse_line(b"v1 2 3"), Line::Other);
    assert_eq!(parse_line(b"v_ 1 2 3"), Line::Other);
    assert_eq!(parse_line(b"f1/1 2/2 3/3"), Line::Other);
    assert_eq!(parse_line(b"V 1 2 3"), Line::Other);
}

#[test]
fn triangle_line_gives_its_three_vertices() {
    assert_eq!(parse_line(b"f 1/1 2/2 3/3"), Line::Triangle { a: 1, b: 2, c: 3 });
}

#[test]
fn triangle_line_drops_the_texture_numbers() {
    assert_eq!(parse_line(b"f 10/7 20/8 30/9"), Line::Triangle { a: 10, b: 20, c: 30 });
}

#[test]
fn quad_line_gives_its_four_vertices() {
    assert_eq!(parse_line(b"f 1/4 2/3 3/2 4/1"), Line::Quad { a: 1, b: 2, c: 3, d: 4 });
}

#[test]
fn face_line_with_blanks_everywhere() {
    assert_eq!(parse_line(b"  f  1 / 1\t2 /2   3/ 3  "), Line::Triangle { a: 1, b: 2, c: 3 });
}

#[test]
fn face_line_with_plus_signs() {
    assert_eq!(parse_line(b"f +1/+1 +2/+2 +3/+3"), Line::Triangle { a: 1, b: 2, c: 3 });
    assert_eq!(parse_line(b"f+1/1+2/2+3/3+4/4"), Line::Quad { a: 1, b: 2, c: 3, d: 4 });
}

#[test]
fn face_line_with_leading_zeros() {
    assert_eq!(parse_line(b"f 001/1 02/2 3/0003"), Line::Triangle { a: 1, b: 2, c: 3 });
}

#[test]
fn face_line_of_two_or_five_corners_says_nothing() {
    assert_eq!(parse_line(b"f 1/1 2/2"), Line::Other);
    assert_eq!(parse_line(b"f 1/1 2/2 3/3 4/4 5/5"), Line::Other);
}

#[test]
fn face_line_without_texture_numbers_says_nothing() {
    assert_eq!(parse_line(b"f 1 2 3"), Line::Other);
    assert_eq!(parse_line(b"f 1/ 2/ 3/"), Line::Other);
    assert_eq!(parse_line(b"f 1//1 2//2 3//3"), Line::Other);
}

#[test]
fn face_line_with_normals() {
    assert_eq!(parse_line(b"f 1/1/1 2/2/2 3/3/3"), Line::Triangle { a: 1, b: 2, c: 3 });
    assert_eq!(
        parse_line(b"f 4/9/7 3/9/7 2/9/7 1/9/7"),
        Line::Quad { a: 4, b: 3, c: 2, d: 1 }
    );
}

#[test]
fn face_line_with_normals_at_some_corners() {
    assert_eq!(parse_line(b"f 1/1 2/2/2 3/3"), Line::Triangle { a: 1, b: 2, c: 3 });
    assert_eq!(parse_line(b"f 1 / 1 / 1 2/2 3/3 /3"), Line::Triangle { a: 1, b: 2, c: 3 });
}

#[test]
fn face_line_with_a_slash_and_no_normal_says_nothing() {
    assert_eq!(parse_line(b"f 1/1/ 2/2 3/3"), Line::Other);
    assert_eq!(parse_line(b"f 1/1 2/2 3/3/"), Line::Other);
    assert_eq!(parse_line(b"f 1/1/1/1 2/2 3/3"), Line::Other);
}

#[test]
fn face_line_with_a_normal_too_large_says_nothing() {
    assert_eq!(
        parse_line(b"f 1/1/99999999999999999999999999 2/2 3/3"),
        Line::Other
    );
}

#[test]
fn face_line_with_a_negative_number_says_nothing() {
    assert_eq!(parse_line(b"f -1/1 2/2 3/3"), Line::Other);
}

#[test]
fn face_line_with_a_number_too_large_says_nothing() {
    assert_eq!(
        parse_line(b"f 99999999999999999999999999/1 2/2 3/3"),
        Line::Other
    );
    assert_eq!(
        parse_line(b"f 1/99999999999999999999999999 2/2 3/3"),
        Line::Other
    );
}

#[test]
fn face_line_with_the_largest_number() {
    let line = format!("f {}/1 2/2 3/3", usize::MAX);
    assert_eq!(parse_line(line.as_bytes()), Line::Triangle { a: usize::MAX, b: 2, c: 3 });
}

#[test]
fn face_line_one_above_the_largest_number_says_nothing() {
    let line = format!("f {}/1 2/2 3/3", (usize::MAX as u128) + 1);
    assert_eq!(parse_line(line.as_bytes()), Line::Other);
}

#[test]
fn other_lines_say_nothing() {
    assert_eq!(parse_line(b""), Line::Other);
    assert_eq!(parse_line(b"   "), Line::Other);
    assert_eq!(parse_line(b"# a comment"), Line::Other);
    assert_eq!(parse_line(b"g body"), Line::Other);
    assert_eq!(parse_line(b"usemtl skin"), Line::Other);
    assert_eq!(parse_line(b"f"), Line::Other);
}

#[test]
fn line_with_bytes_beyond_ascii_says_nothing() {
    assert_eq!(parse_line("v 1 2 3 \u{00e9}".as_bytes()), Line::Other);
    assert_eq!(parse_line("v\u{00a0}1 2 3".as_bytes()), Line::Other);
    assert_eq!(parse_line(&[0x66, 0x20, 0xff]), Line::Other);
}

#[test]
fn new_mesh_is_empty() {
    let mesh = Mesh::new();
    assert_eq!(mesh.vertex_count(), 0);
    assert!(mesh.triangles().is_empty());
}

#[test]
fn mesh_counts_its_vertices() {
    let mut mesh = Mesh::new();
    assert_eq!(
        mesh.read_line(b"v 1 2 3"),
        Ok(Step::Vertex { x: span(2, 3), y: span(4, 5), z: span(6, 7) })
    );
    assert_eq!(mesh.vertex_count(), 1);
    assert!(mesh.read_line(b"v 4 5 6").is_ok());
    assert_eq!(mesh.vertex_count(), 2);
    assert!(mesh.triangles().is_empty());
}

#[test]
fn mesh_skips_other_lines() {
    let mut mesh = Mesh::new();
    assert_eq!(mesh.read_line(b"# nothing"), Ok(Step::Skipped));
    assert_eq!(mesh.read_line(b"vt 0 0"), Ok(Step::Skipped));
    assert_eq!(mesh.vertex_count(), 0);
    assert!(mesh.triangles().is_empty());
}

fn mesh_of_vertices(count: usize) -> Mesh {
    let mut mesh = Mesh::new();
    for _ in 0..count {
        assert!(mesh.read_line(b"v 0 0 0").is_ok());
    }
    mesh
}

#[test]
fn mesh_of_given_vertices_has_no_face() {
    let mesh = Mesh::of_vertices(7);
    assert_eq!(mesh.vertex_count(), 7);
    assert!(mesh.triangles().is_empty());
}

#[test]
fn mesh_counts_on_from_given_vertices() {
    let mut mesh = Mesh::of_vertices(7);
    assert!(mesh.read_line(b"v 1 2 3").is_ok());
    assert_eq!(mesh.vertex_count(), 8);
    assert_eq!(mesh.read_line(b"f 8/1 7/1 1/1"), Ok(Step::Faces { count: 1 }));
    assert_eq!(mesh.triangles(), &vec![Corners { a: 7, b: 6, c: 0 }]);
}

#[test]
fn mesh_refuses_more_vertices_than_can_be_counted() {
    let mut mesh = Mesh::of_vertices(usize::MAX);
    assert_eq!(mesh.read_line(b"v 1 2 3"), Err(MeshError::TooManyVertices));
    assert_eq!(mesh.vertex_count(), usize::MAX);
    assert_eq!(mesh.read_line(b"# nothing"), Ok(Step::Skipped));
    let line = format!("f {}/1 1/1 2/1", usize::MAX);
    assert_eq!(mesh.read_line(line.as_bytes()), Ok(Step::Faces { count: 1 }));
    assert_eq!(mesh.triangles(), &vec![Corners { a: usize::MAX - 1, b: 0, c: 1 }]);
}

#[test]
fn mesh_takes_the_last_vertex_before_the_limit() {
    let mut mesh = Mesh::of_vertices(usize::MAX - 1);
    assert!(mesh.read_line(b"v 1 2 3").is_ok());
    assert_eq!(mesh.vertex_count(), usize::MAX);
}

#[test]
fn mesh_takes_a_triangle_with_corners_counted_from_zero() {
    let mut mesh = mesh_of_vertices(3);
    assert_eq!(mesh.read_line(b"f 1/1 2/1 3/1"), Ok(Step::Faces { count: 1 }));
    assert_eq!(mesh.triangles(), &vec![Corners { a: 0, b: 1, c: 2 }]);
}

#[test]
fn mesh_cuts_a_quad_from_its_first_corner_to_its_third() {
    let mut mesh = mesh_of_vertices(4);
    assert_eq!(mesh.read_line(b"f 1/1 2/1 3/1 4/1"), Ok(Step::Faces { count: 2 }));
    assert_eq!(
        mesh.triangles(),
        &vec![Corners { a: 0, b: 1, c: 2 }, Corners { a: 0, b: 2, c: 3 }]
    );
}

#[test]
fn mesh_keeps_its_faces_in_the_order_of_their_lines() {
    let mut mesh = mesh_of_vertices(5);
    assert!(mesh.read_line(b"f 5/1 4/1 3/1").is_ok());
    assert!(mesh.read_line(b"f 4/1 3/1 2/1 1/1").is_ok());
    assert!(mesh.read_line(b"f 1/1 1/1 1/1").is_ok());
    assert_eq!(
        mesh.triangles(),
        &vec![
            Corners { a: 4, b: 3, c: 2 },
            Corners { a: 3, b: 2, c: 1 },
            Corners { a: 3, b: 1, c: 0 },
            Corners { a: 0, b: 0, c: 0 },
        ]
    );
}

#[test]
fn mesh_refuses_a_vertex_that_is_not_given_yet() {
    let mut mesh = mesh_of_vertices(3);
    assert_eq!(mesh.read_line(b"f 1/1 2/1 4/1"), Err(MeshError::UnknownVertex));
    assert_eq!(mesh.read_line(b"f 1/1 2/1 3/1 4/1"), Err(MeshError::UnknownVertex));
    assert!(mesh.triangles().is_empty());
    assert_eq!(mesh.vertex_count(), 3);
    assert!(mesh.read_line(b"v 1 1 1").is_ok());
    assert_eq!(mesh.read_line(b"f 1/1 2/1 4/1"), Ok(Step::Faces { count: 1 }));
}

#[test]
fn mesh_refuses_the_vertex_zero() {
    let mut mesh = mesh_of_vertices(3);
    assert_eq!(mesh.read_line(b"f 0/1 2/1 3/1"), Err(MeshError::UnknownVertex));
    assert_eq!(mesh.read_line(b"f 1/1 2/1 3/1 0/1"), Err(MeshError::UnknownVertex));
    assert!(mesh.triangles().is_empty());
}

#[test]
fn mesh_does_not_check_texture_numbers() {
    let mut mesh = mesh_of_vertices(3);
    assert_eq!(mesh.read_line(b"f 1/0 2/99 3/7"), Ok(Step::Faces { count: 1 }));
}

#[test]
fn mesh_of_a_box_side() {
    let lines: Vec<&str> = vec![
        "# one side of a box",
        "v -1.0 -1.0 1.0",
        "v 1.0 -1.0 1.0",
        "v 1.0 1.0 1.0",
        "v -1.0 1.0 1.0",
        "vt 0.0 0.0",
        "f 1/1 2/1 3/1 4/1",
    ];
    let mut mesh = Mesh::new();
    let mut vertices: Vec<(f64, f64, f64)> = Vec::new();
    for line in lines.iter() {
        match mesh.read_line(line.as_bytes()) {
            Ok(Step::Vertex { x, y, z }) => vertices.push((
                text(line, x).parse().unwrap(),
                text(line, y).parse().unwrap(),
                text(line, z).parse().unwrap(),
            )),
            Ok(_) => {}
            Err(e) => panic!("{:?}", e),
        }
    }
    assert_eq!(mesh.vertex_count(), vertices.len());
    assert_eq!(vertices[3], (-1.0, 1.0, 1.0));
    assert_eq!(mesh.triangles().len(), 2);
    for t in mesh.triangles().iter() {
        assert!(t.a < vertices.len() && t.b < vertices.len() && t.c < vertices.len());
    }
}
