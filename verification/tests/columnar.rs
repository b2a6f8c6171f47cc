use steeldb::datatypes::{DataType, FloatText, Kind};
use steeldb::file_io::{ColumnarReader, ColumnarWriter, MetaFault, ReadError, WriteError};
use steeldb::table::Column;

fn text(s: &str) -> DataType {
    DataType::String(s.to_string())
}

fn float(s: &str) -> DataType {
    DataType::Float32(FloatText::new(s).unwrap())
}

fn names(list: &[&str]) -> Vec<String> {
    list.iter().map(|s| s.to_string()).collect()
}

fn people() -> Vec<Column> {
    vec![
        Column {
            name: "name".to_string(),
            kind: Kind::Text,
            values: vec![text("John"), text("Mary")],
        },
        Column {
            name: "salary".to_string(),
            kind: Kind::Integer32,
            values: vec![DataType::Integer32(60000), DataType::Integer32(30000)],
        },
    ]
}

fn strings(column: &Column) -> Vec<String> {
    column
        .values
        .iter()
        .map(|v| match v {
            DataType::String(s) => s.clone(),
            DataType::Integer32(n) => format!("{}", n),
            DataType::Float32(t) => t.as_str().to_string(),
        })
        .collect()
}

#[test]
fn writes_the_documented_layout() {
    let bytes = ColumnarWriter::new().write(&people()).unwrap();
    let expected = "TABLE COLUMNAR FORMAT HEADER\n\
                    Field name: name; Type: String; Number of elements: 2\n\
                    John\n\
                    Mary\n\
                    Field name: salary; Type: i32; Number of elements: 2\n\
                    60000\n\
                    30000\n";
    assert_eq!(String::from_utf8(bytes).unwrap(), expected);
}

#[test]
fn header_is_twenty_nine_bytes() {
    let bytes = ColumnarWriter::new().write(&people()).unwrap();
    assert_eq!(&bytes[..29], b"TABLE COLUMNAR FORMAT HEADER\n");
}

#[test]
fn reads_one_column_of_two() {
    let bytes = ColumnarWriter::new().write(&people()).unwrap();
    let columns = ColumnarReader::new().read(&bytes, &names(&["name"])).unwrap();
    assert_eq!(columns.len(), 1);
    assert_eq!(columns[0].name, "name");
    assert_eq!(columns[0].kind, Kind::Text);
    assert_eq!(strings(&columns[0]), vec!["John", "Mary"]);
}

#[test]
fn round_trip_keeps_every_value() {
    let columns = vec![
        Column {
            name: "final_grade".to_string(),
            kind: Kind::Float32,
            values: vec![float("4"), float("3.2"), float("-1e9"), float("NaN")],
        },
        Column {
            name: "name".to_string(),
            kind: Kind::Text,
            values: vec![text("John Man"), text(""), text("a;b: c"), text("Mary")],
        },
        Column {
            name: "annual_salary".to_string(),
            kind: Kind::Integer32,
            values: vec![
                DataType::Integer32(0),
                DataType::Integer32(-1),
                DataType::Integer32(i32::MAX),
                DataType::Integer32(i32::MIN),
            ],
        },
    ];
    let bytes = ColumnarWriter::new().write(&columns).unwrap();
    let back = ColumnarReader::new()
        .read(&bytes, &names(&["final_grade", "name", "annual_salary"]))
        .unwrap();
    assert_eq!(back.len(), 3);
    for (a, b) in columns.iter().zip(back.iter()) {
        assert_eq!(a.name, b.name);
        assert_eq!(a.kind, b.kind);
        assert_eq!(strings(a), strings(b));
    }
}

#[test]
fn round_trip_keeps_text_beyond_ascii() {
    let columns = vec![
        Column {
            name: "prénom".to_string(),
            kind: Kind::Text,
            values: vec![text("Zoë"), text("日本語"), text("a\tb\r")],
        },
        Column {
            name: "π".to_string(),
            kind: Kind::Float32,
            values: vec![float("3.14159"), float("+inf"), float(".5e-3")],
        },
    ];
    let bytes = ColumnarWriter::new().write(&columns).unwrap();
    let back = ColumnarReader::new().read(&bytes, &names(&["π", "prénom"])).unwrap();
    assert_eq!(back.len(), 2);
    assert_eq!(back[0].name, "prénom");
    assert_eq!(strings(&back[0]), vec!["Zoë", "日本語", "a\tb\r"]);
    assert_eq!(back[1].name, "π");
    assert_eq!(strings(&back[1]), vec!["3.14159", "+inf", ".5e-3"]);
}

#[test]
fn projection_has_exactly_the_columns_asked_for() {
    let bytes = ColumnarWriter::new().write(&people()).unwrap();
    for select in [&["salary"][..], &["name"][..], &["salary", "name"][..], &[][..]] {
        let columns = ColumnarReader::new().read(&bytes, &names(select)).unwrap();
        let mut got: Vec<&str> = columns.iter().map(|c| c.name.as_str()).collect();
        let mut want: Vec<&str> = select.to_vec();
        got.sort();
        want.sort();
        assert_eq!(got, want);
    }
}

#[test]
fn empty_schema_is_an_error() {
    let r = ColumnarWriter::new().write(&Vec::new());
    assert!(matches!(r, Err(WriteError::EmptySchema)));
}

#[test]
fn line_feed_in_text_is_an_error() {
    let columns = vec![
        Column {
            name: "a".to_string(),
            kind: Kind::Text,
            values: vec![text("fine"), text("too"), text("")],
        },
        Column {
            name: "b".to_string(),
            kind: Kind::Text,
            values: vec![text("one"), text("two\nlines"), text("three\n")],
        },
    ];
    match ColumnarWriter::new().write(&columns) {
        Err(WriteError::LineBreakInText { field, row }) => {
            assert_eq!(field, "b");
            assert_eq!(row, 1);
        }
        other => panic!("unexpected {:?}", other),
    }
}

#[test]
fn columns_of_different_lengths_are_an_error() {
    let columns = vec![
        Column { name: "a".to_string(), kind: Kind::Text, values: vec![text("x"), text("y")] },
        Column { name: "b".to_string(), kind: Kind::Text, values: vec![text("1"), text("2")] },
        Column { name: "c".to_string(), kind: Kind::Text, values: vec![text("a\nb")] },
        Column { name: "d".to_string(), kind: Kind::Text, values: Vec::new() },
    ];
    match ColumnarWriter::new().write(&columns) {
        Err(WriteError::UnequalColumns { field }) => assert_eq!(field, "c"),
        other => panic!("unexpected {:?}", other),
    }
}

#[test]
fn write_errors_read_as_text() {
    assert_eq!(WriteError::EmptySchema.message(), "EmptySchema");
    assert_eq!(
        WriteError::UnequalColumns { field: "c".to_string() }.message(),
        "UnequalColumns { field: \"c\" }"
    );
    assert_eq!(
        WriteError::LineBreakInText { field: "note".to_string(), row: 12 }.message(),
        "LineBreakInText { field: \"note\", row: 12 }"
    );
}

#[test]
fn a_write_error_reads_as_it_is_printed_for_debugging() {
    let errors = [
        WriteError::EmptySchema,
        WriteError::UnequalColumns { field: "my \"c\"".to_string() },
        WriteError::LineBreakInText { field: "a\\b".to_string(), row: 0 },
        WriteError::LineBreakInText { field: String::new(), row: usize::MAX },
    ];
    for error in errors {
        assert_eq!(error.message(), format!("{:?}", error));
    }
}

#[test]
fn a_write_error_is_built_around_the_text_it_is_given() {
    assert_eq!(WriteError::EmptySchema.message_with("x"), "EmptySchema");
    assert_eq!(
        WriteError::UnequalColumns { field: "c".to_string() }.message_with("<d>"),
        "UnequalColumns { field: <d> }"
    );
    assert_eq!(
        WriteError::LineBreakInText { field: "c".to_string(), row: 3 }.message_with("<d>"),
        "LineBreakInText { field: <d>, row: 3 }"
    );
}

#[test]
fn a_table_without_rows_is_written_and_read_back() {
    let columns = vec![
        Column { name: "a".to_string(), kind: Kind::Integer32, values: Vec::new() },
        Column { name: "b".to_string(), kind: Kind::Float32, values: Vec::new() },
    ];
    let bytes = ColumnarWriter::new().write(&columns).unwrap();
    assert_eq!(
        String::from_utf8(bytes.clone()).unwrap(),
        "TABLE COLUMNAR FORMAT HEADER\n\
         Field name: a; Type: i32; Number of elements: 0\n\
         Field name: b; Type: f32; Number of elements: 0\n"
    );
    let back = ColumnarReader::new().read(&bytes, &names(&["b", "a"])).unwrap();
    assert_eq!(back.len(), 2);
    assert_eq!(back[0].name, "a");
    assert_eq!(back[1].kind, Kind::Float32);
    assert!(back[0].values.is_empty() && back[1].values.is_empty());
}

#[test]
fn metadata_line_is_read() {
    let r = ColumnarReader::read_metadata(
        "Field name: final_grade; Type: f32; Number of elements: 3",
        1,
    )
    .unwrap();
    assert_eq!(r, ("final_grade".to_string(), "f32".to_string(), 3));
}

#[test]
fn metadata_with_two_segments_is_rejected() {
    match ColumnarReader::read_metadata("Field name: a; Type: i32", 4) {
        Err(ReadError::InvalidFieldMeta { line, text, fault }) => {
            assert_eq!(line, 4);
            assert_eq!(text, "Field name: a; Type: i32");
            assert_eq!(fault, MetaFault::Segments(2));
        }
        other => panic!("unexpected {:?}", other),
    }
}

#[test]
fn metadata_with_four_segments_is_rejected() {
    match ColumnarReader::read_metadata("a: b; c: d; e: 1; f: g", 7) {
        Err(ReadError::InvalidFieldMeta { line, fault, .. }) => {
            assert_eq!(line, 7);
            assert_eq!(fault, MetaFault::Segments(4));
        }
        other => panic!("unexpected {:?}", other),
    }
}

#[test]
fn metadata_with_a_count_that_is_no_number_is_rejected() {
    match ColumnarReader::read_metadata("Field name: a; Type: i32; Number of elements: many", 2) {
        Err(ReadError::FieldParseError { line, field }) => {
            assert_eq!(line, 2);
            assert_eq!(field, "number of elements");
        }
        other => panic!("unexpected {:?}", other),
    }
}
