use obj_translator::error::Error;
use obj_translator::line::plan_line;
use obj_translator::line::starts_vertex;
use obj_translator::line::vertex_line;
use obj_translator::line::LinePlan;
use obj_translator::line::Triple;

fn triple(x: &str, y: &str, z: &str) -> Triple {
    Triple { x: x.as_bytes().to_vec(), y: y.as_bytes().to_vec(), z: z.as_bytes().to_vec() }
}

fn number(text: &[u8]) -> Option<f64> {
    std::str::from_utf8(text).ok()?.parse::<f64>().ok()
}

/// Shifts the three fields by the offset, as a caller of the library does.
fn shift(fields: &Triple, offset: (f64, f64, f64)) -> Option<Triple> {
    let x = number(&fields.x)? + offset.0;
    let y = number(&fields.y)? + offset.1;
    let z = number(&fields.z)? + offset.2;
    Some(Triple {
        x: format!("{}", x).into_bytes(),
        y: format!("{}", y).into_bytes(),
        z: format!("{}", z).into_bytes(),
    })
}

/// Translates one line: the output line, or the failure.
fn translate(line: &str, offset: (f64, f64, f64)) -> Result<String, Error> {
    match plan_line(line.as_bytes())? {
        LinePlan::Copy => Ok(line.to_string()),
        LinePlan::Shift(fields) => match shift(&fields, offset) {
            Some(shifted) => Ok(String::from_utf8(vertex_line(&shifted)).unwrap()),
            None => Err(Error::MalformedVertexLine),
        },
    }
}

#[test]
fn a_vertex_line_has_the_marker_as_its_first_word() {
    assert!(starts_vertex(b"v 1 2 3"));
    assert!(starts_vertex(b"v "));
    assert!(starts_vertex(b"v"));
    assert!(starts_vertex(b"v\t1 2 3"));
    assert!(starts_vertex(b"v\r"));
    assert!(starts_vertex(b" v 1 2 3"));
    assert!(starts_vertex(b"\t  v\x0c1 2 3"));
    assert!(!starts_vertex(b""));
    assert!(!starts_vertex(b"   "));
    assert!(!starts_vertex(b"vn 0 1 0"));
    assert!(!starts_vertex(b"vt 0.5 0.5"));
    assert!(!starts_vertex(b"v1 2 3"));
    assert!(!starts_vertex(b"vv 1 2 3"));
    assert!(!starts_vertex(b"V 1 2 3"));
    assert!(!starts_vertex(b"g v 1 2 3"));
    assert!(!starts_vertex(b"v\x0b1 2 3"));
}

#[test]
fn the_marker_is_found_as_split_ascii_whitespace_finds_it() {
    let samples = [
        "v 1 2 3", "v", " v", "v\t1", "", " ", "vn 1", "v1", "x v", "\r\nv\r\n", "v\u{a0}1", "\u{a0}v 1",
    ];
    for s in samples {
        let expected = s.split_ascii_whitespace().next() == Some("v");
        assert_eq!(starts_vertex(s.as_bytes()), expected, "{:?}", s);
    }
}

#[test]
fn other_lines_are_copied() {
    let lines = [
        "",
        " ",
        "\t\r",
        "# a comment",
        "# v 1 2 3",
        "vn 0.0 1.0 0.0",
        "vt 0.25 0.75",
        "vp 1 2",
        "f 1/1/1 2/2/2 3/3/3",
        "mtllib scene.mtl",
        "usemtl stone",
        "o caf\u{e9}",
        "v1.0 2.0 3.0",
        "vv 1.0 2.0 3.0",
        "V 1.0 2.0 3.0",
        "g v 1 2 3",
    ];
    for line in lines {
        assert_eq!(plan_line(line.as_bytes()), Ok(LinePlan::Copy), "{:?}", line);
        assert_eq!(translate(line, (1.0, 2.0, 3.0)), Ok(line.to_string()), "{:?}", line);
    }
}

#[test]
fn any_whitespace_may_follow_the_marker() {
    assert_eq!(plan_line(b"v\t1.0 2.0 3.0"), Ok(LinePlan::Shift(triple("1.0", "2.0", "3.0"))));
    assert_eq!(plan_line(b"v\r1.0\t2.0\x0c3.0"), Ok(LinePlan::Shift(triple("1.0", "2.0", "3.0"))));
    assert_eq!(translate("v\t1.0 2.0 3.0", (1.0, 2.0, 3.0)), Ok("v 2 4 6".to_string()));
}

#[test]
fn whitespace_may_stand_before_the_marker() {
    assert_eq!(plan_line(b" v 1.0 2.0 3.0"), Ok(LinePlan::Shift(triple("1.0", "2.0", "3.0"))));
    assert_eq!(plan_line(b"\t\tv 7 8 9"), Ok(LinePlan::Shift(triple("7", "8", "9"))));
    assert_eq!(translate("  v 1 2 3", (1.0, 2.0, 3.0)), Ok("v 2 4 6".to_string()));
}

#[test]
fn the_marker_alone_is_malformed() {
    assert_eq!(plan_line(b"v"), Err(Error::MalformedVertexLine));
    assert_eq!(plan_line(b" v"), Err(Error::MalformedVertexLine));
    assert_eq!(plan_line(b"v\t"), Err(Error::MalformedVertexLine));
    assert_eq!(plan_line(b"v\t1.0 2.0"), Err(Error::MalformedVertexLine));
    assert_eq!(translate("v\t1.0 2.0", (1.0, 2.0, 3.0)), Err(Error::MalformedVertexLine));
}

#[test]
fn a_vertex_line_yields_its_three_fields() {
    assert_eq!(plan_line(b"v 1.0 2.0 3.0"), Ok(LinePlan::Shift(triple("1.0", "2.0", "3.0"))));
    assert_eq!(plan_line(b"v   -1e3\t+2.5  .75 "), Ok(LinePlan::Shift(triple("-1e3", "+2.5", ".75"))));
}

#[test]
fn fields_after_the_third_are_left_out() {
    assert_eq!(
        plan_line(b"v 1.0 2.0 3.0 1.0 0.5 0.5"),
        Ok(LinePlan::Shift(triple("1.0", "2.0", "3.0")))
    );
}

#[test]
fn fields_are_taken_as_text() {
    assert_eq!(plan_line(b"v a b c"), Ok(LinePlan::Shift(triple("a", "b", "c"))));
}

#[test]
fn a_vertex_line_with_two_fields_is_malformed() {
    assert_eq!(plan_line(b"v 1.0 2.0"), Err(Error::MalformedVertexLine));
    assert_eq!(translate("v 1.0 2.0", (1.0, 2.0, 3.0)), Err(Error::MalformedVertexLine));
}

#[test]
fn a_vertex_line_with_fewer_fields_is_malformed() {
    assert_eq!(plan_line(b"v "), Err(Error::MalformedVertexLine));
    assert_eq!(plan_line(b"v    "), Err(Error::MalformedVertexLine));
    assert_eq!(plan_line(b"v 1.0"), Err(Error::MalformedVertexLine));
}

#[test]
fn a_field_that_is_no_number_is_malformed() {
    assert_eq!(translate("v 1.0 two 3.0", (1.0, 2.0, 3.0)), Err(Error::MalformedVertexLine));
}

#[test]
fn a_vertex_line_is_written_with_single_blanks() {
    assert_eq!(vertex_line(&triple("1", "2", "3")), b"v 1 2 3".to_vec());
    assert_eq!(vertex_line(&triple("-0.5", "1e21", "NaN")), b"v -0.5 1e21 NaN".to_vec());
    assert_eq!(vertex_line(&triple("", "", "")), b"v   ".to_vec());
}

#[test]
fn a_written_vertex_line_reads_back() {
    let t = triple("498522.128782858", "-389880.045102646", "548.188");
    assert_eq!(plan_line(&vertex_line(&t)), Ok(LinePlan::Shift(t)));
}

#[test]
fn translation_of_the_sample_vertex() {
    let offset = (498521.128782858, 389878.045102646, 545.188000000);
    let out = translate("v 1.0 2.0 3.0", offset).unwrap();
    assert_eq!(out, "v 498522.128782858 389880.045102646 548.188");
    let fields: Vec<&str> = out.split(' ').collect();
    assert_eq!(fields.len(), 4);
    assert_eq!(fields[0], "v");
    assert_eq!(fields[1].parse::<f64>().unwrap(), 1.0 + offset.0);
    assert_eq!(fields[2].parse::<f64>().unwrap(), 2.0 + offset.1);
    assert_eq!(fields[3].parse::<f64>().unwrap(), 3.0 + offset.2);
}

#[test]
fn translation_keeps_the_field_order() {
    assert_eq!(translate("v 10 20 30", (1.0, 2.0, 3.0)), Ok("v 11 22 33".to_string()));
    assert_eq!(translate("v 0.5 0.25 0.125", (1.0, 2.0, 3.0)), Ok("v 1.5 2.25 3.125".to_string()));
}

#[test]
fn translation_and_back_returns_the_vertex() {
    let offset = (498521.128782858, 389878.045102646, 545.188000000);
    let start = (1.0_f64, 2.0_f64, 3.0_f64);
    let there = translate("v 1.0 2.0 3.0", offset).unwrap();
    let back = translate(&there, (-offset.0, -offset.1, -offset.2)).unwrap();
    let fields: Vec<f64> = back.split(' ').skip(1).map(|f| f.parse::<f64>().unwrap()).collect();
    assert_eq!(fields.len(), 3);
    let wanted = [start.0, start.1, start.2];
    let scale = [offset.0, offset.1, offset.2];
    for i in 0..3 {
        let tolerance = 1e-9 * scale[i].abs().max(wanted[i].abs());
        assert!((fields[i] - wanted[i]).abs() <= tolerance, "{} against {}", fields[i], wanted[i]);
    }
}
