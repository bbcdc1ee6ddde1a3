use raytracer::obj::{parse_obj, FaceCorner, ObjDocument, ObjError, ObjRecord, Triangle};
use raytracer::text::IntError;

fn parse(text: &str) -> ObjDocument {
    let lines: Vec<String> = text.lines().map(String::from).collect();
    parse_obj(&lines)
}

fn number(chars: &[char]) -> Result<f64, String> {
    let s: String = chars.iter().collect();
    s.parse::<f64>().map_err(|e| e.to_string())
}

fn points(doc: &ObjDocument, normals: bool) -> Result<Vec<(f64, f64, f64)>, String> {
    let mut out = Vec::new();
    for record in &doc.records {
        match (record, normals) {
            (ObjRecord::Vertex(x, y, z), false) | (ObjRecord::Normal(x, y, z), true) => {
                out.push((number(x)?, number(y)?, number(z)?));
            }
            _ => {}
        }
    }
    Ok(out)
}

fn triangles(doc: &ObjDocument) -> Vec<Triangle> {
    doc.records
        .iter()
        .filter_map(|r| match r {
            ObjRecord::Face(t) => Some(*t),
            _ => None,
        })
        .collect()
}

fn corner(vertex: usize) -> FaceCorner {
    FaceCorner { vertex, normal: None }
}

fn name(doc: &ObjDocument, group: usize) -> String {
    doc.group_names[group].iter().collect()
}

const VERTICES: &str = "\
v -1 1 0
v -1.0000 0.5000 0.0000
v 1 0 0
v 1 1 0
";

#[test]
fn ignoring_unrecognised_lines() {
    let p = parse(
        "\
There was a young lady named Bright
who traveled much faster than light.
She set out one day
in a relative way,",
    );

    assert!(p.error.is_none());
    assert_eq!(p.ignored, 4);
}

#[test]
fn parsing_vertices() {
    let p = parse(VERTICES);

    let v = points(&p, false).unwrap();

    assert_eq!(v.len(), 4);

    assert_eq!(v[0], (-1.0, 1.0, 0.0));
    assert_eq!(v[1], (-1.0, 0.5, 0.0));
    assert_eq!(v[2], (1.0, 0.0, 0.0));
    assert_eq!(v[3], (1.0, 1.0, 0.0));
}

#[test]
fn parsing_invalid_vertices() {
    let p = parse("v 1 2 3 4");

    assert!(matches!(p.error, Some(ObjError::VertexItems(5))));

    let p = parse("v 1 a 3");

    assert!(p.error.is_none());
    assert_eq!(points(&p, false).unwrap_err(), "invalid float literal");
}

#[test]
fn parsing_faces() {
    let p = parse(&format!("{VERTICES}\nf 1 2 3\nf 1 3 4\n"));

    assert!(p.error.is_none());
    let c = triangles(&p);

    assert_eq!(c.len(), 2);
    assert_eq!(c[0], Triangle { group: 0, a: corner(0), b: corner(1), c: corner(2) });
    assert_eq!(c[1], Triangle { group: 0, a: corner(0), b: corner(2), c: corner(3) });
    assert_eq!(p.group_order, vec![0]);
}

#[test]
fn parsing_invalid_faces_without_panicking() {
    let p = parse(&format!("{VERTICES}\nf 1 2"));

    assert!(matches!(p.error, Some(ObjError::FaceItems(3))));

    let p = parse("f 1 x 3");
    assert!(matches!(p.error, Some(ObjError::FaceIndex(IntError::InvalidDigit))));

    let p = parse("f 0 1 2");
    assert!(matches!(p.error, Some(ObjError::IndexUnderflow)));
}

#[test]
fn triangulating_polygons() {
    let p = parse(&format!("{VERTICES}v 0 2 0\n\nf 1 2 3 4 5\n"));

    assert!(p.error.is_none());
    let c = triangles(&p);

    assert_eq!(c.len(), 3);
    assert_eq!(c[0], Triangle { group: 0, a: corner(0), b: corner(1), c: corner(2) });
    assert_eq!(c[1], Triangle { group: 0, a: corner(0), b: corner(2), c: corner(3) });
    assert_eq!(c[2], Triangle { group: 0, a: corner(0), b: corner(3), c: corner(4) });
}

#[test]
fn triangles_in_groups() {
    let p = parse(&format!("{VERTICES}\ng SecondGroup\nf 1 3 4\ng FirstGroup\nf 1 2 3\n"));

    assert!(p.error.is_none());
    let c = triangles(&p);
    assert_eq!(c.len(), 2);

    // Groups come out sorted by name; the empty default group is left out.
    assert_eq!(p.group_order.len(), 2);
    assert_eq!(name(&p, p.group_order[0]), "FirstGroup");
    assert_eq!(name(&p, p.group_order[1]), "SecondGroup");

    let first: Vec<&Triangle> = c.iter().filter(|t| t.group == p.group_order[0]).collect();
    assert_eq!(first.len(), 1);
    assert_eq!(first[0].b, corner(1));
}

#[test]
fn invalid_groups() {
    let p = parse("g FirstGroup\ng SecondGroup\ng FirstGroup\n");

    match p.error {
        Some(ObjError::GroupRepeated(name)) => {
            assert_eq!(name.iter().collect::<String>(), "FirstGroup");
        }
        other => panic!("unexpected {other:?}"),
    }
    assert!(p.group_order.is_empty());
}

#[test]
fn parse_vertex_normal() {
    let p = parse("vn 0 0 1\nvn 0.707 0 0.707\nvn 1 2 -3\n");

    let n = points(&p, true).unwrap();

    assert_eq!(n.len(), 3);
    assert_eq!(n[0], (0.0, 0.0, 1.0));
    assert_eq!(n[1], (0.707, 0.0, 0.707));
    assert_eq!(n[2], (1.0, 2.0, -3.0));
}

#[test]
fn parsing_invalid_normals() {
    let p = parse("vn 1 2 3 4 5");

    assert!(matches!(p.error, Some(ObjError::NormalItems(6))));

    let p = parse("vn 1 2 b");

    assert_eq!(points(&p, true).unwrap_err(), "invalid float literal");
}

#[test]
fn parsing_face_normals() {
    let p = parse(
        "\
v 0 1 0
v -1 0 0
v 1 0 0

vn -1 0 0
vn 1 0 0
vn 0 1 0

f 1//3 2//1 3//2
f 1/0/3 2/102/1 3/14/2
",
    );

    assert!(p.error.is_none());
    let c = triangles(&p);

    assert_eq!(c.len(), 2);

    let t = Triangle {
        group: 0,
        a: FaceCorner { vertex: 0, normal: Some(2) },
        b: FaceCorner { vertex: 1, normal: Some(0) },
        c: FaceCorner { vertex: 2, normal: Some(1) },
    };

    assert_eq!(c[0], t);
    assert_eq!(c[1], t);
}

#[test]
fn parsing_invalid_face_normals_without_panicking() {
    let p = parse("f 1//1 2 3//1");

    assert!(matches!(p.error, Some(ObjError::InconsistentNormals)));

    let p = parse("f 1//1 2///3 3//1");

    match p.error {
        Some(ObjError::FaceFormat(item)) => {
            assert_eq!(item.iter().collect::<String>(), "2///3");
        }
        other => panic!("unexpected {other:?}"),
    }
}

#[test]
fn reading_stops_at_the_first_error() {
    let p = parse("v 1 2\nf 1 2 3\ngibberish\n");
    assert!(matches!(p.error, Some(ObjError::VertexItems(3))));
    assert_eq!(p.records.len(), 0);
    assert_eq!(p.ignored, 0);
}

#[test]
fn triangles_before_an_error_in_a_face_are_kept() {
    let p = parse("f 1//1 2//1 3//1 4");
    assert!(matches!(p.error, Some(ObjError::InconsistentNormals)));
    assert_eq!(triangles(&p).len(), 1);
}

#[test]
fn whitespace_around_lines_is_ignored() {
    let p = parse("   v 1 2 3   \n\tvn 4 5 6\t\n  g   spaced name  \nf 1 1 1");
    assert!(p.error.is_none());
    assert_eq!(points(&p, false).unwrap(), vec![(1.0, 2.0, 3.0)]);
    assert_eq!(points(&p, true).unwrap(), vec![(4.0, 5.0, 6.0)]);
    assert_eq!(name(&p, 1), "spaced name");
    assert_eq!(triangles(&p)[0].group, 1);
}

#[test]
fn repeating_the_default_group_is_refused() {
    let p = parse("g default");
    assert!(matches!(p.error, Some(ObjError::GroupRepeated(_))));
}

#[test]
fn face_indices_follow_usize_parsing() {
    let p = parse("f +1 2 3");
    assert!(p.error.is_none());
    assert_eq!(triangles(&p)[0].a, corner(0));

    let p = parse("f 1 99999999999999999999999 3");
    assert!(matches!(p.error, Some(ObjError::FaceIndex(IntError::PosOverflow))));

    let p = parse("f 1 -2 3");
    assert!(matches!(p.error, Some(ObjError::FaceIndex(IntError::InvalidDigit))));

    let p = parse("f 1 /2/3 3");
    assert!(matches!(p.error, Some(ObjError::FaceIndex(IntError::Empty))));
}
