use term3d::loaders::obj::{
    load_mesh, parse_index, parse_line, read_lines, split_words, ObjError, ObjErrorKind, ObjLine,
};
use term3d::mesh::Position;
use term3d::uv::{Number, Uv};

fn text_of(file: &str, number: Number) -> &str {
    match number {
        Number::Text { start, end } => &file[start..end],
        _ => panic!("no text"),
    }
}

#[test]
fn whole_numbers_are_read_as_the_standard_library_reads_them() {
    for word in ["0", "7", "+7", "007", "18446744073709551615", "18446744073709551616", "", "+",
        "-1", "1a", " 1", "++1", "99999999999999999999999", "000000000000000000000000001"]
    {
        let bytes = word.as_bytes();
        assert_eq!(parse_index(bytes, 0, bytes.len()), word.parse::<usize>().ok(), "{}", word);
    }
    assert_eq!(parse_index(b"x12y", 1, 3), Some(12));
}

#[test]
fn words_are_split_at_spaces() {
    assert_eq!(split_words(b"  v 1.0   2\t3 ", 0, 14), vec![(2, 3), (4, 7), (10, 13)]);
    assert_eq!(split_words(b"abc", 0, 3), vec![(0, 3)]);
    assert_eq!(split_words(b"abc def", 1, 6), vec![(1, 3), (4, 6)]);
    assert_eq!(split_words(b"   ", 0, 3), vec![]);
    assert_eq!(split_words(b"", 0, 0), vec![]);
}

fn line(file: &str) -> Result<ObjLine, ObjErrorKind> {
    let bytes = file.as_bytes();
    parse_line(bytes, &split_words(bytes, 0, bytes.len()))
}

#[test]
fn lines_say_vertices_faces_or_nothing() {
    let vertex = |a, b, c, d, e, f| {
        Ok(ObjLine::Vertex(Position::new(
            Number::Text { start: a, end: b },
            Number::Text { start: c, end: d },
            Number::Text { start: e, end: f },
        )))
    };
    assert_eq!(line("v 1 2.5 -3"), vertex(2, 3, 4, 7, 8, 10));
    assert_eq!(line("v 1 2 3 1.0"), vertex(2, 3, 4, 5, 6, 7));
    assert_eq!(line("v 1 2"), Ok(ObjLine::Other));
    assert_eq!(line("v 1 2 3 4 5"), Ok(ObjLine::Other));
    assert_eq!(line("vn 1 2 3"), Ok(ObjLine::Other));
    assert_eq!(line("# f 1 2"), Ok(ObjLine::Other));
    assert_eq!(line(""), Ok(ObjLine::Other));
    assert_eq!(line("f 1 2 3"), Ok(ObjLine::Face(0, 1, 2)));
    assert_eq!(line("f 4/1/1 5//2 6/3"), Ok(ObjLine::Face(3, 4, 5)));
    assert_eq!(line("f 1 2"), Err(ObjErrorKind::NotTriangle));
    assert_eq!(line("f"), Err(ObjErrorKind::NotTriangle));
    assert_eq!(line("f 1 2 3 4"), Err(ObjErrorKind::NotTriangle));
    assert_eq!(line("f 1 2 x 4"), Err(ObjErrorKind::BadIndex));
    assert_eq!(line("f 1 /2 3"), Err(ObjErrorKind::BadIndex));
    assert_eq!(line("f 1 -2 3"), Err(ObjErrorKind::BadIndex));
    assert_eq!(line("f 1 0 3"), Err(ObjErrorKind::ZeroIndex));
}

#[test]
fn a_file_gives_its_vertices_and_triangles() {
    let file = "# a square\r\nv 0 0 0\r\nv 1.5 0 0\nv 1 1e0 0 1\n\nv 0 1 0\nvt 0 0\nf 1 2 3\nf 1/1 3/2 4/3";
    let mesh = load_mesh(file.as_bytes()).unwrap();
    assert_eq!(mesh.material_index, 0);
    assert_eq!(mesh.position.len(), 4);
    assert_eq!(text_of(file, mesh.position[1].x), "1.5");
    assert_eq!(text_of(file, mesh.position[1].z), "0");
    assert_eq!(text_of(file, mesh.position[2].y), "1e0");
    assert_eq!(text_of(file, mesh.position[3].y), "1");
    assert_eq!(mesh.indices, vec![(0, 1, 2), (0, 2, 3)]);
    let zero = Uv::new(Number::Float(0), Number::Float(0));
    assert_eq!(mesh.texcoord, vec![zero, zero, zero, zero]);
    for position in &mesh.position {
        for number in [position.x, position.y, position.z] {
            assert!(text_of(file, number).parse::<f32>().is_ok());
        }
    }
}

#[test]
fn an_empty_file_is_an_empty_mesh() {
    let mesh = load_mesh(b"").unwrap();
    assert!(mesh.position.is_empty());
    assert!(mesh.indices.is_empty());
    let mesh = load_mesh(b"\n\n\n").unwrap();
    assert!(mesh.position.is_empty());
}

#[test]
fn the_first_wrong_line_is_the_error() {
    let file = "v 0 0 0\nf 1 1 1\nf 1 2\nf 1 x 1\n";
    assert_eq!(
        load_mesh(file.as_bytes()).unwrap_err(),
        ObjError { line: 2, kind: ObjErrorKind::NotTriangle }
    );
    assert_eq!(
        load_mesh(b"f 0 1 2").unwrap_err(),
        ObjError { line: 0, kind: ObjErrorKind::ZeroIndex }
    );
    assert_eq!(
        load_mesh(b"f 9 9 9\nf 0 1 2").unwrap_err(),
        ObjError { line: 1, kind: ObjErrorKind::ZeroIndex }
    );
    assert_eq!(
        load_mesh(b"\n\nf 1 2 3.0").unwrap_err(),
        ObjError { line: 2, kind: ObjErrorKind::BadIndex }
    );
}

#[test]
fn a_carriage_return_belongs_to_the_last_line_without_line_feed() {
    assert_eq!(
        load_mesh(b"f 1 2 3\r").unwrap_err(),
        ObjError { line: 0, kind: ObjErrorKind::BadIndex }
    );
    assert_eq!(load_mesh(b"v 0 0 0\r\nf 1 1 1\r\n").unwrap().indices, vec![(0, 0, 0)]);
    let file = "v 1 2 3\r";
    let mesh = load_mesh(file.as_bytes()).unwrap();
    assert_eq!(text_of(file, mesh.position[0].z), "3\r");
}

#[test]
fn a_face_names_vertices_of_the_file() {
    assert_eq!(
        load_mesh(b"f 1 2 3").unwrap_err(),
        ObjError { line: 0, kind: ObjErrorKind::OutOfRange }
    );
    assert_eq!(
        load_mesh(b"v 0 0 0\nv 1 0 0\n\nf 1 2 1\nf 1 2 3\nf 4 4 4\nv 0 1 0\n").unwrap_err(),
        ObjError { line: 5, kind: ObjErrorKind::OutOfRange }
    );
    let mesh = load_mesh(b"f 1 2 3\nv 0 0 0\nv 1 0 0\nv 0 1 0").unwrap();
    assert_eq!(mesh.indices, vec![(0, 1, 2)]);
    assert_eq!(mesh.position.len(), 3);
    assert_eq!(mesh.texcoord.len(), 3);
    assert!(mesh.is_well_formed());
}

#[test]
fn lines_are_read_before_faces_are_held_against_vertices() {
    let data = read_lines(b"f 1 2 3\n# none\nf 4 5 6\nv 1 2 3").unwrap();
    assert_eq!(data.faces, vec![(0, 1, 2), (3, 4, 5)]);
    assert_eq!(data.face_lines, vec![0, 2]);
    assert_eq!(data.vertices.len(), 1);
    assert_eq!(
        read_lines(b"v 1 2 3\nf 1 1").unwrap_err(),
        ObjError { line: 1, kind: ObjErrorKind::NotTriangle }
    );
}
