use mev_graphics_tutorial::obj_loader::model::ObjModel;
use mev_graphics_tutorial::obj_loader::syntax::{is_float_literal, parse_u16};
use mev_graphics_tutorial::obj_loader::ObjFile;

fn chars(s: &str) -> Vec<char> {
    s.chars().collect()
}

fn texts(entry: &Vec<Vec<char>>) -> Vec<String> {
    entry.iter().map(|w| w.iter().collect()).collect()
}

const TRIANGLE: &str = "# a triangle\nv 0 0 0\nv 1.5 0 0\nv 0 1 -2e1\nvt 0 0\nvt 1 0\nvt 0 1\nvn 0 0 1\nf 1/1/1 2/2/1 3/3/1\n";

const QUAD: &str = "v 0 0 0\r\nv 1 0 0\r\nv 1 1 0\r\nv 0 1 0\r\nvt 0 0\r\nvn 0 0 1\r\nf 1/1/1 2/1/1 3/1/1 4/1/1\r\n";

#[test]
fn file_reads_numbers_as_text() {
    let file = ObjFile::load_from_string(TRIANGLE).unwrap();
    assert_eq!(file.vs.len(), 3);
    assert_eq!(texts(&file.vs[1]), vec!["1.5", "0", "0"]);
    assert_eq!(texts(&file.vs[2]), vec!["0", "1", "-2e1"]);
    assert_eq!(file.vts.len(), 3);
    assert_eq!(texts(&file.vns[0]), vec!["0", "0", "1"]);
    assert_eq!(file.v_indices, vec![[1, 2, 3]]);
    assert_eq!(file.vt_indices, vec![[1, 2, 3]]);
    assert_eq!(file.vn_indices, vec![[1, 1, 1]]);
}

#[test]
fn file_splits_quads_into_two_triangles() {
    let file = ObjFile::load_from_string(QUAD).unwrap();
    assert_eq!(file.v_indices, vec![[1, 2, 3], [1, 3, 4]]);
    assert_eq!(file.vt_indices, vec![[1, 1, 1], [1, 1, 1]]);
}

#[test]
fn file_ignores_unknown_lines_blank_lines_and_extra_words() {
    let file = ObjFile::load_from_string("o thing\n\n   \ns off\nv 1 2 3 4\nf 1/1/1 1/1/1 1/1/1 1/1/1 9/9/9\nusemtl x").unwrap();
    assert_eq!(file.vs.len(), 1);
    assert_eq!(texts(&file.vs[0]), vec!["1", "2", "3"]);
    assert_eq!(file.v_indices.len(), 2);
}

#[test]
fn file_of_empty_text_is_empty() {
    let file = ObjFile::load_from_string("").unwrap();
    assert!(file.vs.is_empty() && file.v_indices.is_empty());
}

fn err(source: &str) -> &'static str {
    match ObjFile::load_from_string(source) {
        Ok(_) => panic!("expected an error"),
        Err(e) => e,
    }
}

#[test]
fn file_errors_on_short_records() {
    assert_eq!(err("v"), "Broken vertex line spotted, expected 3 coords but got none");
    assert_eq!(err("v 1"), "Broken vertex line spotted, expected 3 coords but got only one");
    assert_eq!(err("v 1 2"), "Broken vertex line spotted, expected 3 coords but got only two");
    assert_eq!(err("vt"), "Broken texture coord line spotted, expected 2 coords but got none");
    assert_eq!(err("vt 1"), "Broken texture coord line spotted, expected 2 coords but got only one");
    assert_eq!(err("vn"), "Broken normal spotted, expected 3 coords but got none");
    assert_eq!(err("vn 1"), "Broken normal spotted, expected 3 coords but got only one");
    assert_eq!(err("vn 1 2"), "Broken normal spotted, expected 3 coords but got only two");
}

#[test]
fn file_errors_on_bad_numbers() {
    assert_eq!(err("v 1 x 2"), "Expected vertex component to be a floating point number");
    assert_eq!(err("vt 0.5 1e"), "Expected texture coordinate to be a floating point number");
    assert_eq!(err("vn 1 2 --3"), "Expected normal component to be a floating point number");
    // A bad number before a missing one decides the error.
    assert_eq!(err("v x"), "Expected vertex component to be a floating point number");
}

#[test]
fn file_errors_on_short_faces() {
    assert_eq!(err("f"), "Broken face line spotted, expected 3 or 4 index triplets but got none");
    assert_eq!(err("f 1/1/1"), "Broken face line spotted, expected 3 or 4 index triplets but got only one");
    assert_eq!(
        err("f 1/1/1 2/2/2"),
        "Broken face line spotted, expected 3 or 4 index triplets but got only two"
    );
    // Missing corners are found before malformed ones.
    assert_eq!(err("f x y"), "Broken face line spotted, expected 3 or 4 index triplets but got only two");
}

#[test]
fn file_errors_on_bad_corners() {
    assert_eq!(err("f 1 2/2/2 3/3/3"), "Broken index triplet spotted, expected 2 indices but got only one");
    assert_eq!(err("f 1/1 2/2/2 3/3/3"), "Broken index triplet spotted, expected 3 indices but got only two");
    assert_eq!(err("f a/1/1 2/2/2 3/3/3"), "Expected vertex index to be a number");
    assert_eq!(err("f 1//1 2/2/2 3/3/3"), "Expected uv index to be a number");
    assert_eq!(err("f 1/1/-1 2/2/2 3/3/3"), "Expected normal index to be a number");
    assert_eq!(err("f 1/1/1 2/2/2 3/3/65536"), "Expected normal index to be a number");
    assert_eq!(err("f 1/1/1 2/2/2 3/3/3 4/4"), "Broken index triplet spotted, expected 3 indices but got only two");
}

#[test]
fn file_reports_the_first_bad_line() {
    assert_eq!(err("v 1 2\nf 1"), "Broken vertex line spotted, expected 3 coords but got only two");
    assert_eq!(err("f 1\nv 1 2"), "Broken face line spotted, expected 3 or 4 index triplets but got only one");
}

#[test]
fn float_literals() {
    for ok in ["0", "1.5", "-2e1", "+.5", "5.", "1E-3", "inf", "-Infinity", "NaN", "+nan", "007"] {
        assert!(is_float_literal(&chars(ok)), "{}", ok);
        assert!(ok.parse::<f32>().is_ok(), "{}", ok);
    }
    for bad in ["", ".", "1e", "e5", "--1", "1.2.3", "0x10", "in", "infinit", "1_0", " 1", "1e+"] {
        assert!(!is_float_literal(&chars(bad)), "{}", bad);
        assert!(bad.parse::<f32>().is_err(), "{}", bad);
    }
}

#[test]
fn u16_literals() {
    for s in ["0", "65535", "+7", "0010", "", "+", "-0", "65536", "1a", "99999999999"] {
        assert_eq!(parse_u16(&chars(s)), s.parse::<u16>().ok(), "{}", s);
    }
}

#[test]
fn model_numbers_distinct_corners() {
    let model = ObjModel::load_from_string(QUAD).unwrap();
    assert_eq!(model.indices(), &[[0, 1, 2], [0, 2, 3]]);
    assert_eq!(model.vs().len(), 4);
    assert_eq!(texts(&model.vs()[2]), vec!["1", "1", "0"]);
    assert_eq!(texts(&model.vts()[3]), vec!["0", "0"]);
    assert_eq!(texts(&model.vns()[0]), vec!["0", "0", "1"]);
}

#[test]
fn model_splits_a_position_with_two_texture_coordinates() {
    let source = "v 0 0 0\nv 1 0 0\nv 0 1 0\nvt 0 0\nvt 1 1\nvn 0 0 1\nf 1/1/1 2/1/1 3/1/1\nf 1/2/1 3/1/1 2/1/1\n";
    let model = ObjModel::load_from_string(source).unwrap();
    assert_eq!(model.indices(), &[[0, 1, 2], [3, 2, 1]]);
    assert_eq!(model.vs().len(), 4);
    assert_eq!(texts(&model.vs()[3]), vec!["0", "0", "0"]);
    assert_eq!(texts(&model.vts()[3]), vec!["1", "1"]);
}

#[test]
fn model_errors_on_indices_past_the_tables() {
    let check = |source: &str, expected: &str| match ObjModel::load_from_string(source) {
        Ok(_) => panic!("expected an error"),
        Err(e) => assert_eq!(e, expected),
    };
    check("v 0 0 0\nvt 0 0\nvn 0 0 1\nf 1/1/1 2/1/1 1/1/1", "Vertex index out of bounds");
    check("v 0 0 0\nvt 0 0\nvn 0 0 1\nf 1/1/1 1/2/1 1/1/1", "Texture coord index out of bounds");
    check("v 0 0 0\nvt 0 0\nvn 0 0 1\nf 1/1/1 1/1/1 1/1/2", "Normal index out of bounds");
    // Vertex indices are checked before texture coordinates.
    check("v 0 0 0\nvt 0 0\nvn 0 0 1\nf 1/5/1 1/1/1 2/1/1", "Vertex index out of bounds");
    check("v 1", "Broken vertex line spotted, expected 3 coords but got only one");
}

#[test]
fn model_errors_on_index_zero() {
    let check = |source: &str, expected: &str| match ObjModel::load_from_string(source) {
        Ok(_) => panic!("expected an error"),
        Err(e) => assert_eq!(e, expected),
    };
    check("v 0 0 0\nvt 0 0\nvn 0 0 1\nf 0/1/1 1/1/1 1/1/1", "Vertex index out of bounds");
    check("v 0 0 0\nvt 0 0\nvn 0 0 1\nf 1/1/1 1/0/1 1/1/1", "Texture coord index out of bounds");
    check("v 0 0 0\nvt 0 0\nvn 0 0 1\nf 1/1/1 1/1/1 1/1/0", "Normal index out of bounds");
}

#[test]
fn model_of_file_without_faces_is_empty() {
    let model = ObjModel::load_from_string("v 1 2 3").unwrap();
    assert!(model.indices().is_empty());
    assert!(model.vs().is_empty());
}

#[test]
fn refused_text_stays_refused_whatever_follows() {
    let first = err("v 1 2 3\nvt 1\nv 4 5 6");
    assert_eq!(first, "Broken texture coord line spotted, expected 2 coords but got only one");
    assert_eq!(err("v 1 2 3\nvt 1\nv 4 5 6\nf 1/1/1 1/1/1 1/1/1"), first);
    assert_eq!(err("v 1 2 3\nvt 1\nv 4 5 6\nvn x"), first);
    assert_eq!(err("vt 1\n"), err("vt 1"));
}

#[test]
fn model_indices_name_its_vertices() {
    let source = "v 0 0 0\nv 1 0 0\nv 0 1 0\nvt 0 0\nvt 1 1\nvn 0 0 1\n\
                  f 1/1/1 2/1/1 3/2/1\nf 3/2/1 2/1/1 1/2/1 2/2/1";
    let model = ObjModel::load_from_string(source).unwrap();
    assert_eq!(model.indices().len(), 3);
    assert_eq!(model.vs().len(), model.vts().len());
    assert_eq!(model.vs().len(), model.vns().len());
    for tri in model.indices() {
        for &i in tri {
            assert!((i as usize) < model.vs().len());
        }
    }
}
