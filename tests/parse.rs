use obj_parser::error::{Error, ErrorKind, NumericKind};
use obj_parser::obj::{coordinate_tokens, lex_line, parse_corner, parse_obj, Corner, Vertex};

fn readings(input: &str) -> Vec<Option<u32>> {
    coordinate_tokens(input)
        .iter()
        .map(|t| t.parse::<f32>().ok().map(f32::to_bits))
        .collect()
}

fn parse(input: &str) -> Result<Vec<f32>, Error> {
    let coords = readings(input);
    parse_obj(input, &coords).map(|o| o.as_slice().iter().map(|b| f32::from_bits(*b)).collect())
}

fn floats(v: &[f32]) -> Vec<f32> {
    v.to_vec()
}

const TRIANGLE: &str = "v 0 0 0\nv 1 0 0\nv 0 1 0\nvn 0 0 1\nf 1/1/1 2/1/1 3/1/1\n";

#[test]
fn lib_parse_vertex() {
    let input = "v -1.0 -1.0 -1.0";
    let toks = coordinate_tokens(input);
    assert_eq!(toks, vec!["-1.0".to_string(), "-1.0".to_string(), "-1.0".to_string()]);
    let with_face = "v -1.0 -1.0 -1.0\nvn 0 0 1\nf 1//1 1//1 1//1";
    let out = parse(with_face).unwrap();
    assert_eq!(&out[0..3], &[-1.0, -1.0, -1.0]);
}

#[test]
fn parsers_parse_vertex() {
    let out = parse("v -1.0 -1.0 -1.0").unwrap();
    assert!(out.is_empty());
    assert_eq!(readings("v -1.0 -1.0 -1.0"), vec![Some((-1.0f32).to_bits()); 3]);
}

const CUBE: &str = "v -1.0 -1.0 -1.0
v 1.0 -1.0 -1.0
v 1.0 1.0 -1.0
v -1.0 1.0 -1.0
v -1.0 -1.0 1.0
v 1.0 -1.0 1.0
v 1.0 1.0 1.0
v -1.0 1.0 1.0
vt 0.0 0.0
vn 0.0 0.0 -1.0
vn 0.0 0.0 1.0
vn 0.0 -1.0 0.0
vn 0.0 1.0 0.0
vn -1.0 0.0 0.0
vn 1.0 0.0 0.0
s off
f 1/1/1 4/1/1 3/1/1 2/1/1
f 5/1/2 6/1/2 7/1/2 8/1/2
f 1/1/3 2/1/3 6/1/3 5/1/3
f 4/1/4 8/1/4 7/1/4 3/1/4
f 1/1/5 5/1/5 8/1/5 4/1/5
f 2/1/6 3/1/6 7/1/6 6/1/6
";

#[test]
fn lib_parse_cube() {
    let out = parse(CUBE).unwrap();
    assert_eq!(out.len(), 6 * 6 * 6);
}

#[test]
fn parsers_parse_cube() {
    let out = parse(CUBE).unwrap();
    // first face, first corner: vertex 1 with normal 1
    assert_eq!(&out[0..6], &[-1.0, -1.0, -1.0, 0.0, 0.0, -1.0]);
    // second corner of the first face is its third corner, vertex 3
    assert_eq!(&out[6..9], &[1.0, 1.0, -1.0]);
}

#[test]
fn ignored_lines_give_empty_buffer() {
    let out = parse("\n\nvt 0.5 0.5\n# a comment\ng group\nusemtl m\n\n").unwrap();
    assert!(out.is_empty());
    assert!(parse("").unwrap().is_empty());
}

#[test]
fn whitespace_only_line_is_invalid_format() {
    let e = parse("v 0 0 0\n   \n").unwrap_err();
    assert_eq!(e.kind, ErrorKind::InvalidFormat);
    assert_eq!(e.index, 1);
    assert_eq!(e.line, "   ");
}

#[test]
fn vertices_keep_input_order() {
    let input = "v 1 1 1\nv 2 2 2\nv 3 3 3\nvn 7 7 7\nvn 8 8 8\nf 3//2 2//1 1//2\n";
    let out = parse(input).unwrap();
    // emitted order: corner 0, corner 2, corner 1
    assert_eq!(
        out,
        floats(&[3.0, 3.0, 3.0, 8.0, 8.0, 8.0, 1.0, 1.0, 1.0, 8.0, 8.0, 8.0, 2.0, 2.0, 2.0, 7.0, 7.0, 7.0])
    );
}

#[test]
fn triangle_emits_18_and_quad_emits_36() {
    assert_eq!(parse(TRIANGLE).unwrap().len(), 18);
    let quad = "v 0 0 0\nv 1 0 0\nv 1 1 0\nv 0 1 0\nvn 0 0 1\nf 1//1 2//1 3//1 4//1\n";
    assert_eq!(parse(quad).unwrap().len(), 36);
}

#[test]
fn quad_is_emitted_as_0_2_1_3_2_0() {
    let quad = "v 1 0 0\nv 2 0 0\nv 3 0 0\nv 4 0 0\nvn 0 0 1\nf 1//1 2//1 3//1 4//1\n";
    let out = parse(quad).unwrap();
    let xs: Vec<f32> = out.chunks(6).map(|c| c[0]).collect();
    assert_eq!(xs, vec![1.0, 3.0, 2.0, 4.0, 3.0, 1.0]);
}

#[test]
fn round_trip_ordering() {
    let out = parse(TRIANGLE).unwrap();
    assert_eq!(
        out,
        floats(&[
            0.0, 0.0, 0.0, 0.0, 0.0, 1.0, //
            0.0, 1.0, 0.0, 0.0, 0.0, 1.0, //
            1.0, 0.0, 0.0, 0.0, 0.0, 1.0,
        ])
    );
}

#[test]
fn two_vertex_args_is_invalid_format() {
    let e = parse("v 0 0 0\nv 1.0 2.0\n").unwrap_err();
    assert_eq!(e.kind, ErrorKind::InvalidFormat);
    assert_eq!(e.index, 1);
    assert_eq!(e.line, "v 1.0 2.0");
}

#[test]
fn non_numeric_vertex_is_float_error() {
    let e = parse("v a b c").unwrap_err();
    assert_eq!(e.kind, ErrorKind::NumericParse(NumericKind::Float));
    assert_eq!(e.index, 0);
    assert_eq!(e.line, "v a b c");
    let e = parse("vn 0 0 zero").unwrap_err();
    assert_eq!(e.kind, ErrorKind::NumericParse(NumericKind::Float));
}

#[test]
fn two_corner_face_is_invalid_format() {
    let e = parse("f 1/1/1 2/1/1").unwrap_err();
    assert_eq!(e.kind, ErrorKind::InvalidFormat);
    let e = parse("f 1 2 3 4 5").unwrap_err();
    assert_eq!(e.kind, ErrorKind::InvalidFormat);
}

#[test]
fn face_past_vertex_pool_is_out_of_range() {
    let input = "v 0 0 0\nv 1 0 0\nv 0 1 0\nvn 0 0 1\nf 5/1/1 1/1/1 2/1/1\n";
    let e = parse(input).unwrap_err();
    assert_eq!(e.kind, ErrorKind::IndexOutOfRange);
    assert_eq!(e.index, 4);
    assert_eq!(e.line, "f 5/1/1 1/1/1 2/1/1");
}

#[test]
fn zero_or_missing_index_is_out_of_range() {
    let base = "v 0 0 0\nv 1 0 0\nv 0 1 0\nvn 0 0 1\n";
    for face in ["f 0/1/1 1/1/1 2/1/1", "f 1/1 2/1 3/1", "f 1 2 3", "f /1/1 2/1/1 3/1/1", "f 1//2 2//1 3//1"] {
        let e = parse(&format!("{}{}", base, face)).unwrap_err();
        assert_eq!(e.kind, ErrorKind::IndexOutOfRange, "{}", face);
    }
}

#[test]
fn forward_reference_is_out_of_range() {
    let e = parse("vn 0 0 1\nf 1//1 2//1 3//1\nv 0 0 0\nv 1 0 0\nv 0 1 0\n").unwrap_err();
    assert_eq!(e.kind, ErrorKind::IndexOutOfRange);
    assert_eq!(e.index, 1);
}

#[test]
fn bad_index_is_int_error() {
    let base = "v 0 0 0\nvn 0 0 1\n";
    for face in ["f x/1/1 1/1/1 1/1/1", "f 1/-1/1 1//1 1//1", "f 99999999999999999999//1 1//1 1//1", "f +//1 1//1 1//1", "f 1//1/q 1//1 1//1"] {
        let e = parse(&format!("{}{}", base, face)).unwrap_err();
        assert_eq!(e.kind, ErrorKind::NumericParse(NumericKind::Int), "{}", face);
        assert_eq!(e.index, 2);
    }
}

#[test]
fn int_error_comes_before_index_error() {
    let e = parse("f 9//9 9//9 x//9").unwrap_err();
    assert_eq!(e.kind, ErrorKind::NumericParse(NumericKind::Int));
}

#[test]
fn first_error_wins() {
    let e = parse("v 1 2\nv a b c\n").unwrap_err();
    assert_eq!(e.kind, ErrorKind::InvalidFormat);
    assert_eq!(e.index, 0);
}

#[test]
fn plus_sign_and_extra_fields_are_accepted() {
    let input = "v 0 0 0\nvn 0 0 1\nf +1//+1 1//1/7 1/1/1\n";
    assert_eq!(parse(input).unwrap().len(), 18);
}

#[test]
fn crlf_and_unicode_space_are_trimmed() {
    let input = "v 0 0 0\r\nvn 0 0 1\r\n\u{a0}f 1//1 1//1 1//1\u{2003}\r\n";
    assert_eq!(parse(input).unwrap().len(), 18);
}

#[test]
fn directives_are_case_sensitive() {
    assert!(parse("V 1 2\nF 1 2\nVN x").unwrap().is_empty());
}

#[test]
fn reparse_is_bit_identical() {
    let a = parse_obj(CUBE, &readings(CUBE)).unwrap();
    let b = parse_obj(CUBE, &readings(CUBE)).unwrap();
    assert_eq!(a.as_slice(), b.as_slice());
    assert_eq!(a.as_slice().len(), 216);
}

#[test]
fn lex_line_splits_directive_and_args() {
    let (d, args) = lex_line(3, "f  1/2/3\t4//6 7").unwrap();
    assert_eq!(d, "f");
    assert_eq!(args, vec!["1/2/3".to_string(), "4//6".to_string(), "7".to_string()]);
    let e = lex_line(3, " \t ").unwrap_err();
    assert_eq!(e.kind, ErrorKind::InvalidFormat);
    assert_eq!(e.index, 3);
    assert_eq!(e.line, " \t ");
}

#[test]
fn coordinate_tokens_skip_malformed_lines() {
    let input = "v 1 2\nvn 4 5 6\nf 1 2 3\nv 7 8 9\n";
    assert_eq!(coordinate_tokens(input), vec!["4", "5", "6", "7", "8", "9"]);
}

#[test]
fn corner_fields() {
    let c = parse_corner(&"12//3".chars().collect()).unwrap();
    assert_eq!(c, Corner { position: Some(12), texcoord: None, normal: Some(3) });
    let c = parse_corner(&"4".chars().collect()).unwrap();
    assert_eq!(c, Corner { position: Some(4), texcoord: None, normal: None });
    assert!(parse_corner(&"4/a/1".chars().collect()).is_none());
}

#[test]
fn vertex_and_error_accessors() {
    let v = Vertex::new([1, 2, 3], [4, 5, 6]);
    assert_eq!(v.position(), &[1, 2, 3]);
    assert_eq!(v.normal(), &[4, 5, 6]);
    let e = Error::new(ErrorKind::IndexOutOfRange, 9, "f 1 2 3".to_string());
    assert_eq!(e.kind, ErrorKind::IndexOutOfRange);
    assert_eq!(e.index, 9);
    let e = Error::invalid(2, "x".to_string());
    assert_eq!(e.kind, ErrorKind::InvalidFormat);
    assert_eq!(e.line, "x");
}
