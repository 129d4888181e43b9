use obj_translator::text::is_space_byte;
use obj_translator::text::split_on;
use obj_translator::text::split_words;

fn strings(parts: &[Vec<u8>]) -> Vec<String> {
    parts.iter().map(|p| String::from_utf8(p.clone()).unwrap()).collect()
}

#[test]
fn whitespace_is_the_five_ascii_bytes() {
    for b in 0u8..=255 {
        let expected = b == b' ' || b == b'\t' || b == b'\n' || b == 0x0c || b == b'\r';
        assert_eq!(is_space_byte(b), expected, "byte {}", b);
        assert_eq!(is_space_byte(b), b.is_ascii_whitespace(), "byte {}", b);
    }
}

#[test]
fn vertical_tab_is_no_whitespace() {
    assert!(!is_space_byte(0x0b));
    assert_eq!(strings(&split_words(b"a\x0bb")), vec!["a\u{b}b"]);
}

#[test]
fn words_of_a_vertex_line() {
    assert_eq!(strings(&split_words(b"v 1.0 2.0 3.0")), vec!["v", "1.0", "2.0", "3.0"]);
}

#[test]
fn words_ignore_runs_of_whitespace() {
    assert_eq!(strings(&split_words(b"  v\t\t1.0 \r 2.0\x0c3.0 \n")), vec!["v", "1.0", "2.0", "3.0"]);
}

#[test]
fn words_of_nothing() {
    assert!(split_words(b"").is_empty());
    assert!(split_words(b" \t \r\n").is_empty());
}

#[test]
fn words_of_one_word() {
    assert_eq!(strings(&split_words(b"mtllib")), vec!["mtllib"]);
    assert_eq!(strings(&split_words(b" x")), vec!["x"]);
    assert_eq!(strings(&split_words(b"x ")), vec!["x"]);
}

#[test]
fn words_agree_with_split_ascii_whitespace() {
    let samples = [
        "v 1 2 3",
        "",
        " ",
        "f 1/2/3 4/5/6  7/8/9",
        "\tvn 0.0\t1.0 0.0\r",
        "o caf\u{e9} \u{4e2d}\u{6587}  name",
        "a\u{a0}b c",
    ];
    for s in samples {
        let expected: Vec<String> = s.split_ascii_whitespace().map(|w| w.to_string()).collect();
        assert_eq!(strings(&split_words(s.as_bytes())), expected, "{:?}", s);
    }
}

#[test]
fn pieces_of_a_triple() {
    assert_eq!(strings(&split_on(b"1.5,2.5,3.5", b',')), vec!["1.5", "2.5", "3.5"]);
}

#[test]
fn pieces_keep_empty_parts() {
    assert_eq!(strings(&split_on(b"", b',')), vec![""]);
    assert_eq!(strings(&split_on(b",", b',')), vec!["", ""]);
    assert_eq!(strings(&split_on(b"a,,b,", b',')), vec!["a", "", "b", ""]);
    assert_eq!(strings(&split_on(b",a", b',')), vec!["", "a"]);
}

#[test]
fn pieces_are_not_trimmed() {
    assert_eq!(strings(&split_on(b" 1 , 2", b',')), vec![" 1 ", " 2"]);
}

#[test]
fn pieces_agree_with_split() {
    let samples = ["1,2,3", "", ",", ",,", "abc", "a,b,", "x, y ,z", "\u{e9},\u{4e2d}"];
    for s in samples {
        let expected: Vec<String> = s.split(",").map(|w| w.to_string()).collect();
        assert_eq!(strings(&split_on(s.as_bytes(), b',')), expected, "{:?}", s);
    }
}

#[test]
fn pieces_by_another_separator() {
    assert_eq!(strings(&split_on(b"a;b,c;d", b';')), vec!["a", "b,c", "d"]);
}
