use steeldb::datatypes::{DataType, FloatText, Kind};
use steeldb::numeric::{float_text, push_i32, push_nat, read_i32};
use steeldb::text::{
    chars_without, contains_char, span_is, split_spans, to_chars, to_text, Span,
};

fn whole(v: &Vec<char>) -> Span {
    Span { start: 0, end: v.len() }
}

fn parse(s: &str) -> Option<i32> {
    let v: Vec<char> = s.chars().collect();
    read_i32(&v, whole(&v))
}

fn is_float(s: &str) -> bool {
    let v: Vec<char> = s.chars().collect();
    float_text(&v, whole(&v))
}

const SAMPLES: [&str; 64] = [
    "", " ", "0", "7", "42", "-0", "+0", "+5", "-5", "007", "-007", "2147483647", "2147483648",
    "-2147483648", "-2147483649", "99999999999999999999999", "-99999999999999999999999",
    "00000000000000000000000000000012", "+", "-", "+-1", "--1", "1-", "1 ", " 1", "1_000", "0x10",
    "1.0", "1.", ".5", ".", "-.5", "+.5e3", "1e5", "1E5", "1e+5", "1e-5", "1e", "e5", "1e5.0",
    "1.5.2", "inf", "-inf", "+INF", "Infinity", "infinit", "infinityy", "nan", "NaN", "-nan", "na",
    "1f", "3.2", "4", "1e400", "1e-400", "0.0000001", "١٢٣", "1\n", "\n", "a", "i", "௧", "1,5",
];

#[test]
fn integers_are_read_as_the_standard_library_reads_them() {
    for s in SAMPLES {
        assert_eq!(parse(s), s.parse::<i32>().ok(), "{:?}", s);
    }
}

#[test]
fn float_text_is_what_the_standard_library_reads_as_a_float() {
    for s in SAMPLES {
        assert_eq!(is_float(s), s.parse::<f32>().is_ok(), "{:?}", s);
        assert_eq!(FloatText::new(s).is_some(), s.parse::<f32>().is_ok(), "{:?}", s);
    }
}

#[test]
fn integers_are_read_exactly() {
    assert_eq!(parse("60000"), Some(60000));
    assert_eq!(parse("-2147483648"), Some(i32::MIN));
    assert_eq!(parse("2147483647"), Some(i32::MAX));
    assert_eq!(parse("+12"), Some(12));
    assert_eq!(parse("2147483648"), None);
    assert_eq!(parse("12a"), None);
    let v: Vec<char> = "ab123cd".chars().collect();
    assert_eq!(read_i32(&v, Span { start: 2, end: 5 }), Some(123));
    assert_eq!(read_i32(&v, Span { start: 2, end: 2 }), None);
}

#[test]
fn integers_are_written_as_the_standard_library_writes_them() {
    for n in [0, 1, 9, 10, 11, 99, 100, 60000, -1, -10, i32::MAX, i32::MIN, i32::MIN + 1] {
        let mut out = String::from("x");
        push_i32(&mut out, n);
        assert_eq!(out, format!("x{}", n));
        assert_eq!(parse(&out[1..]), Some(n));
    }
    for n in [0u64, 5, 10, 123456789, u64::MAX] {
        let mut out = String::new();
        push_nat(&mut out, n);
        assert_eq!(out, format!("{}", n));
    }
}

#[test]
fn floats_written_by_the_standard_library_are_float_text() {
    for f in [
        0.0f32,
        -0.0,
        4.0,
        3.2,
        5.0,
        1e-7,
        1e20,
        f32::MAX,
        f32::MIN,
        f32::MIN_POSITIVE,
        f32::EPSILON,
        f32::INFINITY,
        f32::NEG_INFINITY,
        f32::NAN,
    ] {
        let text = format!("{}", f);
        let held = FloatText::new(&text).unwrap();
        assert_eq!(held.as_str(), text);
        let back = held.as_str().parse::<f32>().unwrap();
        assert!(back == f || (back.is_nan() && f.is_nan()));
        assert_eq!(held.duplicate().as_str(), text);
    }
}

#[test]
fn float_text_inside_a_longer_text() {
    let v: Vec<char> = "x-1.5e3y".chars().collect();
    assert!(float_text(&v, Span { start: 1, end: 7 }));
    assert!(!float_text(&v, Span { start: 0, end: 7 }));
    assert!(!float_text(&v, Span { start: 1, end: 8 }));
    assert!(!float_text(&v, Span { start: 3, end: 3 }));
    assert_eq!(FloatText::from_chars(&v, Span { start: 2, end: 5 }).unwrap().as_str(), "1.5");
}

#[test]
fn type_names() {
    assert_eq!(DataType::String("a".to_string()).name(), "String");
    assert_eq!(DataType::Integer32(1).name(), "i32");
    assert_eq!(DataType::Float32(FloatText::new("1").unwrap()).name(), "f32");
    assert_eq!(Kind::Text.name(), "String");
    assert_eq!(Kind::Integer32.name(), "i32");
    assert_eq!(Kind::Float32.name(), "f32");
    assert_eq!(DataType::Integer32(1).kind(), Kind::Integer32);
}

#[test]
fn type_tags() {
    let tag = |s: &str| {
        let v: Vec<char> = s.chars().collect();
        Kind::from_tag(&v, whole(&v))
    };
    assert_eq!(tag("i32"), Some(Kind::Integer32));
    assert_eq!(tag("f32"), Some(Kind::Float32));
    assert_eq!(tag("String"), Some(Kind::Text));
    assert_eq!(tag(""), None);
    assert_eq!(tag("u32"), None);
    assert_eq!(tag("i64"), None);
    assert_eq!(tag("I32"), None);
    assert_eq!(tag("string"), None);
    assert_eq!(tag("i32 "), None);
    for kind in [Kind::Text, Kind::Integer32, Kind::Float32] {
        assert_eq!(tag(&kind.name()), Some(kind));
    }
}

#[test]
fn values_are_copied_and_written_as_lines() {
    for value in [
        DataType::String("John Man".to_string()),
        DataType::Integer32(-17),
        DataType::Float32(FloatText::new("3.2").unwrap()),
    ] {
        let copy = value.duplicate();
        let mut a = String::new();
        let mut b = String::from("> ");
        value.push_line(&mut a);
        copy.push_line(&mut b);
        assert_eq!(format!("> {}", a), b);
    }
    let mut out = String::new();
    DataType::Integer32(-17).push_line(&mut out);
    DataType::Float32(FloatText::new("3.2").unwrap()).push_line(&mut out);
    DataType::String("é!".to_string()).push_line(&mut out);
    assert_eq!(out, "-173.2é!");
}

#[test]
fn texts_are_cut_at_every_separator() {
    let cut = |s: &str, sep: char| -> Vec<String> {
        let v = to_chars(s);
        split_spans(&v, 0, v.len(), sep).iter().map(|span| to_text(&v, *span)).collect()
    };
    for s in ["", "a", ";", "a;b", ";a;", "a;;b", ";;", "Field name: a; Type: i32", "é;ü"] {
        let expected: Vec<String> = s.split(';').map(|p| p.to_string()).collect();
        assert_eq!(cut(s, ';'), expected, "{:?}", s);
    }
    let v = to_chars("ab:cd:ef");
    let inner: Vec<String> =
        split_spans(&v, 1, 7, ':').iter().map(|span| to_text(&v, *span)).collect();
    assert_eq!(inner, vec!["b", "cd", "e"]);
}

#[test]
fn characters_are_found_and_taken_out() {
    assert!(contains_char("a\nb", '\n'));
    assert!(!contains_char("ab", '\n'));
    assert!(!contains_char("", 'a'));
    let v = to_chars(" a b  c ");
    assert_eq!(v, vec![' ', 'a', ' ', 'b', ' ', ' ', 'c', ' ']);
    assert_eq!(chars_without(&v, whole(&v), ' '), vec!['a', 'b', 'c']);
    assert_eq!(chars_without(&v, Span { start: 3, end: 7 }, ' '), vec!['b', 'c']);
    assert!(span_is(&v, Span { start: 1, end: 4 }, &vec!['a', ' ', 'b']));
    assert!(!span_is(&v, Span { start: 1, end: 4 }, &vec!['a', ' ']));
    assert!(!span_is(&v, Span { start: 1, end: 4 }, &vec!['a', ' ', 'c']));
}
