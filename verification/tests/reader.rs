use steeldb::datatypes::{DataType, Kind};
use steeldb::file_io::{ColumnarReader, ColumnarWriter, FileFormat, MetaFault, ReadError};
use steeldb::table::Column;

const HEADER: &str = "TABLE COLUMNAR FORMAT HEADER\n";

fn names(list: &[&str]) -> Vec<String> {
    list.iter().map(|s| s.to_string()).collect()
}

fn read(text: &str, select: &[&str]) -> Result<Vec<Column>, ReadError> {
    ColumnarReader::new().read(text.as_bytes(), &names(select))
}

fn lines(column: &Column) -> Vec<String> {
    column
        .values
        .iter()
        .map(|v| {
            let mut s = String::new();
            v.push_line(&mut s);
            s
        })
        .collect()
}

const THREE: &str = "TABLE COLUMNAR FORMAT HEADER\n\
                     Field name: final_grade; Type: f32; Number of elements: 3\n\
                     4.0\n\
                     3.2\n\
                     5\n\
                     Field name: name; Type: String; Number of elements: 3\n\
                     John Man\n\
                     Lenon\n\
                     Mary\n\
                     Field name: annual_salary; Type: i32; Number of elements: 3\n\
                     60000\n\
                     200000\n\
                     3012000\n";

#[test]
fn reads_the_documented_file() {
    let columns = read(THREE, &["final_grade", "name", "annual_salary"]).unwrap();
    assert_eq!(columns.len(), 3);
    assert_eq!(columns[0].name, "final_grade");
    assert_eq!(columns[0].kind, Kind::Float32);
    assert_eq!(lines(&columns[0]), vec!["4.0", "3.2", "5"]);
    assert_eq!(columns[1].name, "name");
    assert_eq!(columns[1].kind, Kind::Text);
    assert_eq!(lines(&columns[1]), vec!["John Man", "Lenon", "Mary"]);
    assert_eq!(columns[2].name, "annual_salary");
    assert_eq!(columns[2].kind, Kind::Integer32);
    assert!(matches!(columns[2].values[2], DataType::Integer32(3012000)));
}

#[test]
fn reads_only_what_is_asked_for() {
    let columns = read(THREE, &["annual_salary", "missing"]).unwrap();
    assert_eq!(columns.len(), 1);
    assert_eq!(columns[0].name, "annual_salary");
    assert!(read(THREE, &[]).unwrap().is_empty());
}

#[test]
fn values_of_columns_not_asked_for_are_never_read() {
    let text = format!(
        "{}Field name: a; Type: i32; Number of elements: 2\nnot a number\nneither\n\
         Field name: b; Type: i32; Number of elements: 2\n5\n6\n",
        HEADER
    );
    let columns = read(&text, &["b"]).unwrap();
    assert_eq!(columns.len(), 1);
    assert_eq!(lines(&columns[0]), vec!["5", "6"]);
    match read(&text, &["a", "b"]) {
        Err(ReadError::FieldParseError { line, field }) => {
            assert_eq!(line, 2);
            assert_eq!(field, "a");
        }
        other => panic!("unexpected {:?}", other),
    }
}

#[test]
fn a_file_may_end_without_a_line_feed_after_its_last_value() {
    let text = format!("{}Field name: a; Type: i32; Number of elements: 2\n1\n2", HEADER);
    assert_eq!(lines(&read(&text, &["a"]).unwrap()[0]), vec!["1", "2"]);
}

#[test]
fn reading_stops_at_an_empty_line() {
    let text = format!(
        "{}Field name: a; Type: i32; Number of elements: 1\n1\n\nField name: b; Type: i32\n",
        HEADER
    );
    let columns = read(&text, &["a", "b"]).unwrap();
    assert_eq!(columns.len(), 1);
}

#[test]
fn a_file_with_the_header_alone_has_no_columns() {
    assert!(read(HEADER, &["a"]).unwrap().is_empty());
    assert!(read("TABLE COLUMNAR FORMAT HEADER\n\n", &[]).unwrap().is_empty());
}

#[test]
fn a_file_without_the_header_is_malformed() {
    for text in [
        "",
        "\n",
        "TABLE COLUMNAR FORMAT HEADER",
        "TABLE COLUMNAR FORMAT HEADER \n",
        "table columnar format header\n",
        "Field name: a; Type: i32; Number of elements: 0\n",
        " TABLE COLUMNAR FORMAT HEADER\n",
    ] {
        assert!(matches!(read(text, &[]), Err(ReadError::MalformedFile)), "{:?}", text);
    }
}

#[test]
fn bytes_that_are_no_text_are_an_io_error() {
    let mut bytes = HEADER.as_bytes().to_vec();
    bytes.push(0xff);
    match ColumnarReader::new().read(&bytes, &Vec::new()) {
        Err(ReadError::StdIoError(text)) => assert_eq!(text, "stream did not contain valid UTF-8"),
        other => panic!("unexpected {:?}", other),
    }
}

#[test]
fn a_block_longer_than_the_file_is_an_invalid_size() {
    let text = format!("{}Field name: a; Type: String; Number of elements: 3\nx\ny\n", HEADER);
    assert!(matches!(read(&text, &["a"]), Err(ReadError::InvalidFileSize)));
    assert!(matches!(read(&text, &[]), Err(ReadError::InvalidFileSize)));
    let text = format!("{}Field name: a; Type: String; Number of elements: 1", HEADER);
    assert!(matches!(read(&text, &["a"]), Err(ReadError::InvalidFileSize)));
}

#[test]
fn what_follows_the_last_line_feed_is_a_line_only_if_it_is_not_empty() {
    let text = format!("{}Field name: a; Type: String; Number of elements: 1\n", HEADER);
    assert!(matches!(read(&text, &["a"]), Err(ReadError::InvalidFileSize)));
    let text = format!("{}Field name: a; Type: String; Number of elements: 1\n\n", HEADER);
    assert_eq!(lines(&read(&text, &["a"]).unwrap()[0]), vec![""]);
    let text = format!("{}Field name: a; Type: String; Number of elements: 2\nx\n\n", HEADER);
    assert_eq!(lines(&read(&text, &["a"]).unwrap()[0]), vec!["x", ""]);
    let text = format!("{}Field name: a; Type: String; Number of elements: 2\nx\ny", HEADER);
    assert_eq!(lines(&read(&text, &["a"]).unwrap()[0]), vec!["x", "y"]);
}

#[test]
fn an_empty_text_is_written_and_read_back_at_the_end_of_a_file() {
    let columns = vec![Column {
        name: "note".to_string(),
        kind: Kind::Text,
        values: vec![DataType::String("".to_string()), DataType::String("".to_string())],
    }];
    let bytes = ColumnarWriter::new().write(&columns).unwrap();
    let back = ColumnarReader::new().read(&bytes, &names(&["note"])).unwrap();
    assert_eq!(lines(&back[0]), vec!["", ""]);
}

#[test]
fn a_negative_count_is_an_invalid_size() {
    let text = format!("{}Field name: a; Type: String; Number of elements: -1\nx\n", HEADER);
    assert!(matches!(read(&text, &["a"]), Err(ReadError::InvalidFileSize)));
}

#[test]
fn a_count_of_zero_gives_a_column_without_values() {
    let text = format!("{}Field name: a; Type: i32; Number of elements: 0\n", HEADER);
    let columns = read(&text, &["a"]).unwrap();
    assert_eq!(columns.len(), 1);
    assert_eq!(columns[0].kind, Kind::Integer32);
    assert!(columns[0].values.is_empty());
}

#[test]
fn a_value_that_is_not_of_its_type_is_a_parse_error() {
    let text = format!(
        "{}Field name: n; Type: i32; Number of elements: 3\n1\n2.5\nx\n",
        HEADER
    );
    match read(&text, &["n"]) {
        Err(ReadError::FieldParseError { line, field }) => {
            assert_eq!(line, 3);
            assert_eq!(field, "n");
        }
        other => panic!("unexpected {:?}", other),
    }
    let text = format!("{}Field name: g; Type: f32; Number of elements: 2\n1.5\n1,5\n", HEADER);
    match read(&text, &["g"]) {
        Err(ReadError::FieldParseError { line, field }) => {
            assert_eq!(line, 3);
            assert_eq!(field, "g");
        }
        other => panic!("unexpected {:?}", other),
    }
}

#[test]
fn an_unknown_type_is_refused() {
    let line = "Field name: a; Type: u64; Number of elements: 1";
    match ColumnarReader::read_metadata(line, 2) {
        Err(ReadError::InvalidFieldMeta { line: number, text, fault }) => {
            assert_eq!(number, 2);
            assert_eq!(text, line);
            assert_eq!(fault, MetaFault::UnknownType);
        }
        other => panic!("unexpected {:?}", other),
    }
    let text = format!("{}{}\n12\n", HEADER, line);
    for select in [&["a"][..], &["b"][..], &[][..]] {
        match read(&text, select) {
            Err(ReadError::InvalidFieldMeta { line: number, text, fault }) => {
                assert_eq!(number, 1);
                assert_eq!(text, line);
                assert_eq!(fault, MetaFault::UnknownType);
            }
            other => panic!("unexpected {:?}", other),
        }
    }
    for tag in ["", "string", "I32", "i64", "f 64", "i32,"] {
        let line = format!("Field name: a; Type: {}; Number of elements: 1", tag);
        assert!(matches!(
            ColumnarReader::read_metadata(&line, 0),
            Err(ReadError::InvalidFieldMeta { fault: MetaFault::UnknownType, .. })
        ));
    }
}

#[test]
fn spaces_in_the_type_and_the_count_do_not_count() {
    let r = ColumnarReader::read_metadata("x: a;y: i 3 2;z:  1 2 ", 9).unwrap();
    assert_eq!(r, ("a".to_string(), "i32".to_string(), 12));
    let r = ColumnarReader::read_metadata(":;: S t r i n g ;:0", 0).unwrap();
    assert_eq!(r, ("".to_string(), "String".to_string(), 0));
    let r = ColumnarReader::read_metadata(":;:f32;:0", 0).unwrap();
    assert_eq!(r, ("".to_string(), "f32".to_string(), 0));
}

#[test]
fn a_name_keeps_its_spaces() {
    let r = ColumnarReader::read_metadata(
        "Field name: first name; Type: String; Number of elements: 0",
        1,
    )
    .unwrap();
    assert_eq!(r, ("first name".to_string(), "String".to_string(), 0));
    let name = |line: &str| ColumnarReader::read_metadata(line, 1).unwrap().0;
    assert_eq!(name("x:  my name ;y: i32;z: 1"), " my name ");
    assert_eq!(name("x:name;y: i32;z: 1"), "name");
    assert_eq!(name("x: ;y: i32;z: 1"), "");
    assert_eq!(name("x:  ;y: i32;z: 1"), " ");
    assert_eq!(name("x:;y: i32;z: 1"), "");
}

#[test]
fn metadata_faults_are_told_apart() {
    let fault = |line: &str| match ColumnarReader::read_metadata(line, 3) {
        Err(ReadError::InvalidFieldMeta { line: number, text, fault }) => {
            assert_eq!(number, 3);
            assert_eq!(text, line);
            fault
        }
        other => panic!("unexpected {:?}", other),
    };
    assert_eq!(fault(""), MetaFault::Segments(1));
    assert_eq!(fault("a: b"), MetaFault::Segments(1));
    assert_eq!(fault("a: b; c: d; e: 1;"), MetaFault::Segments(4));
    assert_eq!(fault("a: b; c: d; e 1"), MetaFault::ElementCount);
    assert_eq!(fault("a: b; c: d; e: 1: 2"), MetaFault::ElementCount);
    assert_eq!(fault("a: b; c d; e: 1"), MetaFault::Type);
    assert_eq!(fault("a: b; c: i32: x; e: 1"), MetaFault::Type);
    assert_eq!(fault("a: b; c: d; e: 1"), MetaFault::UnknownType);
    assert_eq!(fault("a b; c: d; e: 1"), MetaFault::UnknownType);
    assert_eq!(fault("a b; c: i32; e: 1"), MetaFault::Name);
    assert_eq!(fault("a: b: c; c: f32; e: 1"), MetaFault::Name);
    assert_eq!(fault("a b; c d; e: 1"), MetaFault::Type);
}

#[test]
fn a_count_that_is_no_number_is_found_before_other_faults() {
    for line in ["a b; c d; e: x", "a: b; c: d; e: ", "a: b; c: d; e: 2147483648", "a: b; c: d; e: 1.0"] {
        match ColumnarReader::read_metadata(line, 5) {
            Err(ReadError::FieldParseError { line: number, field }) => {
                assert_eq!(number, 5);
                assert_eq!(field, "number of elements");
            }
            other => panic!("unexpected {:?}", other),
        }
    }
}

#[test]
fn corrupt_metadata_inside_a_file_names_its_line() {
    let text = format!(
        "{}Field name: a; Type: i32; Number of elements: 2\n1\n2\nField name: b; Type: i32\n7\n",
        HEADER
    );
    match read(&text, &[]) {
        Err(ReadError::InvalidFieldMeta { line, text, fault }) => {
            assert_eq!(line, 4);
            assert_eq!(text, "Field name: b; Type: i32");
            assert_eq!(fault, MetaFault::Segments(2));
        }
        other => panic!("unexpected {:?}", other),
    }
    let text = format!("{}Field name: a; Type: i32; Number of elements: two\n", HEADER);
    match read(&text, &[]) {
        Err(ReadError::FieldParseError { line, field }) => {
            assert_eq!(line, 1);
            assert_eq!(field, "number of elements");
        }
        other => panic!("unexpected {:?}", other),
    }
}

#[test]
fn a_column_read_twice_is_the_one_read_last() {
    let text = format!(
        "{}Field name: a; Type: i32; Number of elements: 2\n1\n2\n\
         Field name: b; Type: i32; Number of elements: 2\n3\n4\n\
         Field name: a; Type: String; Number of elements: 2\nx\ny\n",
        HEADER
    );
    let columns = read(&text, &["a", "b"]).unwrap();
    assert_eq!(columns.len(), 2);
    assert_eq!(columns[0].name, "a");
    assert_eq!(columns[0].kind, Kind::Text);
    assert_eq!(lines(&columns[0]), vec!["x", "y"]);
    assert_eq!(columns[1].name, "b");
}

#[test]
fn fields_of_different_lengths_cannot_be_read_together() {
    let text = format!(
        "{}Field name: a; Type: i32; Number of elements: 2\n1\n2\n\
         Field name: b; Type: i32; Number of elements: 1\n3\n",
        HEADER
    );
    for select in [&["a", "b"][..], &["b", "a"][..]] {
        assert!(matches!(read(&text, select), Err(ReadError::InvalidFileSize)), "{:?}", select);
    }
}

#[test]
fn a_field_is_read_whatever_the_length_of_those_not_asked_for() {
    let text = format!(
        "{}Field name: a; Type: i32; Number of elements: 2\n1\n2\n\
         Field name: b; Type: i32; Number of elements: 1\n3\n\
         Field name: c; Type: i32; Number of elements: 2\n4\n5\n",
        HEADER
    );
    assert_eq!(lines(&read(&text, &["a"]).unwrap()[0]), vec!["1", "2"]);
    assert_eq!(lines(&read(&text, &["b"]).unwrap()[0]), vec!["3"]);
    let both = read(&text, &["c", "a"]).unwrap();
    assert_eq!(both.len(), 2);
    assert_eq!(lines(&both[0]), vec!["1", "2"]);
    assert_eq!(lines(&both[1]), vec!["4", "5"]);
    assert!(read(&text, &[]).unwrap().is_empty());
    assert!(matches!(read(&text, &["b", "c"]), Err(ReadError::InvalidFileSize)));
}

#[test]
fn a_field_not_asked_for_is_stepped_over_with_its_own_count() {
    let text = "TABLE COLUMNAR FORMAT HEADER\n\
                Field name: salary; Type: i32; Number of elements: 2\n\
                abc\n\
                xyz\n\
                Field name: name; Type: String; Number of elements: 1\n\
                John\n";
    let columns = read(text, &["name"]).unwrap();
    assert_eq!(columns.len(), 1);
    assert_eq!(columns[0].name, "name");
    assert_eq!(columns[0].kind, Kind::Text);
    assert!(matches!(&columns[0].values[..], [DataType::String(s)] if s == "John"));
    let valid = text.replace("abc", "60000").replace("xyz", "30000");
    let columns = read(&valid, &["name"]).unwrap();
    assert_eq!(lines(&columns[0]), vec!["John"]);
    let columns = read(&valid, &["salary"]).unwrap();
    assert_eq!(lines(&columns[0]), vec!["60000", "30000"]);
}

#[test]
fn a_field_read_again_must_agree_with_the_fields_read_so_far() {
    let text = format!(
        "{}Field name: a; Type: i32; Number of elements: 1\n1\n\
         Field name: a; Type: i32; Number of elements: 2\n2\n3\n",
        HEADER
    );
    assert!(matches!(read(&text, &["a"]), Err(ReadError::InvalidFileSize)));
    assert!(read(&text, &["b"]).unwrap().is_empty());
}

#[test]
fn read_errors_read_as_text() {
    assert_eq!(ReadError::MalformedFile.message(), "MalformedFile");
    assert_eq!(ReadError::InvalidFileSize.message(), "InvalidFileSize");
    let meta = |fault| ReadError::InvalidFieldMeta { line: 12, text: "raw".to_string(), fault };
    assert_eq!(
        meta(MetaFault::Segments(5)).message(),
        "InvalidFieldMeta { line: 12, text: \"raw\", fault: Segments(5) }"
    );
    assert_eq!(
        meta(MetaFault::ElementCount).message(),
        "InvalidFieldMeta { line: 12, text: \"raw\", fault: ElementCount }"
    );
    assert_eq!(
        meta(MetaFault::Type).message(),
        "InvalidFieldMeta { line: 12, text: \"raw\", fault: Type }"
    );
    assert_eq!(
        meta(MetaFault::UnknownType).message(),
        "InvalidFieldMeta { line: 12, text: \"raw\", fault: UnknownType }"
    );
    assert_eq!(
        meta(MetaFault::Name).message(),
        "InvalidFieldMeta { line: 12, text: \"raw\", fault: Name }"
    );
    assert_eq!(
        ReadError::FieldParseError { line: 0, field: "salary".to_string() }.message(),
        "FieldParseError { line: 0, field: \"salary\" }"
    );
    assert_eq!(
        ReadError::StdIoError("disk on fire".to_string()).message(),
        "StdIoError(\"disk on fire\")"
    );
}

#[test]
fn a_read_error_reads_as_it_is_printed_for_debugging() {
    let errors = [
        ReadError::MalformedFile,
        ReadError::InvalidFileSize,
        ReadError::InvalidFieldMeta {
            line: 0,
            text: "a \"b\"; c".to_string(),
            fault: MetaFault::Segments(2),
        },
        ReadError::InvalidFieldMeta {
            line: usize::MAX,
            text: String::new(),
            fault: MetaFault::Segments(usize::MAX),
        },
        ReadError::InvalidFieldMeta { line: 7, text: "x".to_string(), fault: MetaFault::ElementCount },
        ReadError::InvalidFieldMeta { line: 7, text: "x".to_string(), fault: MetaFault::Type },
        ReadError::InvalidFieldMeta { line: 7, text: "x".to_string(), fault: MetaFault::UnknownType },
        ReadError::InvalidFieldMeta { line: 7, text: "x".to_string(), fault: MetaFault::Name },
        ReadError::FieldParseError { line: 41, field: "first\tname".to_string() },
        ReadError::StdIoError("stream did not contain valid UTF-8".to_string()),
    ];
    for error in errors {
        assert_eq!(error.message(), format!("{:?}", error));
    }
}

#[test]
fn a_read_error_is_built_around_the_text_it_is_given() {
    assert_eq!(ReadError::MalformedFile.message_with("x"), "MalformedFile");
    assert_eq!(ReadError::InvalidFileSize.message_with("x"), "InvalidFileSize");
    assert_eq!(
        ReadError::InvalidFieldMeta { line: 3, text: "raw".to_string(), fault: MetaFault::Name }
            .message_with("<t>"),
        "InvalidFieldMeta { line: 3, text: <t>, fault: Name }"
    );
    assert_eq!(
        ReadError::FieldParseError { line: 4, field: "a".to_string() }.message_with("<t>"),
        "FieldParseError { line: 4, field: <t> }"
    );
    assert_eq!(ReadError::StdIoError("a".to_string()).message_with("<t>"), "StdIoError(<t>)");
}

#[test]
fn append_gives_no_bytes() {
    let columns = vec![Column { name: "a".to_string(), kind: Kind::Integer32, values: Vec::new() }];
    assert_eq!(ColumnarWriter::new().append(&columns).unwrap(), Vec::<u8>::new());
    assert_eq!(ColumnarWriter::new().append(&Vec::new()).unwrap(), Vec::<u8>::new());
    assert_eq!(FileFormat::SimpleColumnar, FileFormat::SimpleColumnar);
}

#[test]
fn names_with_spaces_come_back() {
    let columns = vec![
        Column {
            name: "first name".to_string(),
            kind: Kind::Integer32,
            values: vec![DataType::Integer32(1)],
        },
        Column {
            name: " padded  ".to_string(),
            kind: Kind::Integer32,
            values: vec![DataType::Integer32(2)],
        },
        Column { name: " ".to_string(), kind: Kind::Integer32, values: vec![DataType::Integer32(3)] },
    ];
    let bytes = ColumnarWriter::new().write(&columns).unwrap();
    let select = names(&["first name", " padded  ", " ", "firstname", "padded"]);
    let back = ColumnarReader::new().read(&bytes, &select).unwrap();
    assert_eq!(back.len(), 3);
    assert_eq!(back[0].name, "first name");
    assert_eq!(back[1].name, " padded  ");
    assert_eq!(back[2].name, " ");
    assert_eq!(lines(&back[1]), vec!["2"]);
}

#[test]
fn names_with_a_semicolon_or_a_colon_do_not_come_back() {
    for name in ["a;b", "a:b"] {
        let columns = vec![Column {
            name: name.to_string(),
            kind: Kind::Integer32,
            values: vec![DataType::Integer32(1)],
        }];
        let bytes = ColumnarWriter::new().write(&columns).unwrap();
        let back = ColumnarReader::new().read(&bytes, &names(&[name]));
        assert!(matches!(back, Err(ReadError::InvalidFieldMeta { line: 1, .. })), "{:?}", name);
    }
}
