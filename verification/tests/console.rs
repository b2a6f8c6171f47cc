use steeldb::console_printer::ConsolePrinter;
use steeldb::datatypes::{DataType, FloatText, Kind};
use steeldb::file_io::FileFormat;
use steeldb::repl::{command_error_text, contains_text, parse_error_text, Repl, ReplStep};
use steeldb::steeldb::ExecutionResult;
use steeldb::storage::Storage;
use steeldb::table::{Column, SaveMode, Table};

fn people(select: &[&str]) -> Table {
    Table {
        name: "people".to_string(),
        columns: vec![
            Column {
                name: "name".to_string(),
                kind: Kind::Text,
                values: vec![
                    DataType::String("John".to_string()),
                    DataType::String("Bartholomew".to_string()),
                    DataType::String("Mary-Annette".to_string()),
                ],
            },
            Column {
                name: "pay".to_string(),
                kind: Kind::Integer32,
                values: vec![DataType::Integer32(60000), DataType::Integer32(7)],
            },
            Column {
                name: "grade".to_string(),
                kind: Kind::Float32,
                values: vec![
                    DataType::Float32(FloatText::new("4").unwrap()),
                    DataType::Float32(FloatText::new("3.25").unwrap()),
                    DataType::Float32(FloatText::new("5").unwrap()),
                ],
            },
        ],
        select_columns: select.iter().map(|s| s.to_string()).collect(),
    }
}

#[test]
fn banner_and_help() {
    let console = ConsolePrinter::new(4);
    assert_eq!(
        console.banner(),
        "------------------------------------------------\n\
         |                                               |\n\
         |   SteelDB                                     |\n\
         |   version: 0.1.0                              |\n\
         |                                               |\n\
         ------------------------------------------------\n\
         \n"
    );
    assert_eq!(
        console.help(),
        "Type 'exit;' to leave this shell\nCurrent supported commands: [select]\n\n"
    );
}

#[test]
fn separator_line_has_twice_the_padding_for_each_column() {
    let console = ConsolePrinter::new(4);
    assert_eq!(console.separator_line(2, 7), format!("|{}|\n", "-".repeat(23)));
    assert_eq!(console.separator_line(0, 0), "||\n");
    assert_eq!(ConsolePrinter::new(-1).separator_line(3, 10), "|----|\n");
    assert_eq!(ConsolePrinter::new(-2).separator_line(3, 10), "||\n");
}

#[test]
fn head_of_a_table() {
    let console = ConsolePrinter::new(4);
    let names = vec!["name".to_string(), "pay".to_string()];
    let (head, widths) = console.table_fields(&names);
    assert_eq!(head, "|    name   |    pay    |\n");
    assert_eq!(widths, vec![11, 10]);
    let (head, widths) = console.table_fields(&Vec::new());
    assert_eq!(head, "||\n");
    assert!(widths.is_empty());
    let (head, widths) = ConsolePrinter::new(0).table_fields(&names);
    assert_eq!(head, "|name|pay |\n");
    assert_eq!(widths, vec![4, 3]);
    let (head, widths) = ConsolePrinter::new(1).table_fields(&vec!["é".to_string()]);
    assert_eq!(head, "| é |\n");
    assert_eq!(widths, vec![3]);
}

#[test]
fn rows_of_a_table() {
    let console = ConsolePrinter::new(4);
    let table = people(&["name", "pay"]);
    let rows = console.table_columns(&table, 3, &vec![11, 10]);
    assert_eq!(
        rows,
        "|   John    |  60000    |\n\
         |Bartholomew|    7      |\n\
         |Mary-Annette |           |\n"
    );
    assert_eq!(console.table_columns(&table, 0, &vec![11, 10]), "");
    assert_eq!(console.table_columns(&table, 1, &vec![-1, 6]), "|John|60000  |\n");
    assert_eq!(console.table_columns(&table, 4, &vec![0, 0]).lines().last().unwrap(), "|| |");
}

#[test]
fn a_table_as_it_is_drawn() {
    let console = ConsolePrinter::new(4);
    let table = people(&["grade", "name"]);
    let line = format!("|{}|\n", "-".repeat(25));
    let expected = format!(
        "{line}|    grade   |    name    |\n{line}\
         |     4      |   John     |\n\
         |    3.25    |Bartholomew |\n\
         |     5      |Mary-Annette  |\n{line}"
    );
    assert_eq!(console.table(&table), expected);
    assert_eq!(console.try_table(&table).unwrap(), expected);
}

#[test]
fn a_table_without_columns_has_no_rows() {
    let console = ConsolePrinter::new(4);
    let table = Table::new();
    assert_eq!(console.try_table(&table).unwrap(), "||\n||\n||\n||\n");
    let mut table = people(&[]);
    table.columns[0].values.truncate(1);
    assert_eq!(console.try_table(&table).unwrap(), "||\n||\n||\n||\n||\n");
}

#[test]
fn a_table_that_lacks_a_selected_column_cannot_be_drawn() {
    let console = ConsolePrinter::new(4);
    assert!(console.try_table(&people(&["name", "durp"])).is_none());
}

#[test]
fn words_are_found_inside_texts() {
    let chars = |s: &str| -> Vec<char> { s.chars().collect() };
    assert!(contains_text(&chars("please exit;"), &chars("exit")));
    assert!(contains_text(&chars("exit"), &chars("exit")));
    assert!(contains_text(&chars("xexit"), &chars("exit")));
    assert!(contains_text(&chars("abc"), &chars("")));
    assert!(contains_text(&chars(""), &chars("")));
    assert!(!contains_text(&chars("exi t"), &chars("exit")));
    assert!(!contains_text(&chars("exi"), &chars("exit")));
    assert!(!contains_text(&chars(""), &chars("exit")));
}

fn execute(step: ReplStep) -> String {
    match step {
        ReplStep::Execute(query) => query,
        other => panic!("unexpected {:?}", other),
    }
}

#[test]
fn a_line_with_a_semicolon_is_a_query_in_lower_case() {
    let mut repl = Repl::new();
    assert_eq!(repl.prompt(), ">> ");
    assert_eq!(execute(repl.feed("SELECT Name;\n".to_string())), "select name;\n");
    assert_eq!(repl.prompt(), ">> ");
    assert_eq!(execute(repl.feed("select B;".to_string())), "select b;");
}

#[test]
fn lines_without_a_semicolon_are_joined_by_spaces() {
    let mut repl = Repl::new();
    assert!(matches!(repl.feed("select\n".to_string()), ReplStep::Continue));
    assert_eq!(repl.prompt(), "| ");
    assert!(matches!(repl.feed("  a,\n".to_string()), ReplStep::Continue));
    assert_eq!(repl.prompt(), "| ");
    assert_eq!(execute(repl.feed("B;\n".to_string())), "select\n   a,\n b;\n");
    assert_eq!(repl.prompt(), ">> ");
    assert_eq!(execute(repl.feed("c;".to_string())), "c;");
}

#[test]
fn exit_needs_a_semicolon_on_its_line() {
    let mut repl = Repl::new();
    assert!(matches!(repl.feed("exit\n".to_string()), ReplStep::Continue));
    assert!(matches!(repl.feed("now exit;\n".to_string()), ReplStep::Exit));
    let mut repl = Repl::new();
    assert!(matches!(repl.feed("exit;".to_string()), ReplStep::Exit));
    let mut repl = Repl::new();
    assert_eq!(execute(repl.feed("EXIT;".to_string())), "exit;");
}

#[test]
fn the_shell_greets_with_banner_and_help() {
    let repl = Repl::new();
    let console = ConsolePrinter::new(4);
    assert_eq!(repl.greeting(), format!("{}{}", console.banner(), console.help()));
}

#[test]
fn the_shell_carries_out_a_query_and_reports() {
    let mut storage = Storage::new(".steeldb/data");
    let mut table = people(&[]);
    table.name = "test_table".to_string();
    table.columns[0].values.truncate(2);
    table.columns[2].values.truncate(2);
    table.save(SaveMode::Overwrite, FileFormat::SimpleColumnar, &mut storage).unwrap();
    let mut repl = Repl::new();
    let query = execute(repl.feed("Select PAY;\n".to_string()));
    let result = repl.execute(query, &storage);
    let line = format!("|{}|\n", "-".repeat(11));
    assert_eq!(
        repl.report(&result),
        format!("{line}|    pay    |\n{line}|  60000    |\n|    7      |\n{line}")
    );
    let result = repl.execute("select durp;".to_string(), &storage);
    assert_eq!(
        repl.report(&result),
        "\n\n<------------------ COMMAND FAILED ------------------>\n\
         \"ColumnNotFound(\\\"durp\\\")\"\n\n\
         <---------------------------------------------------->\n\n"
    );
    let result = repl.execute("drop it;".to_string(), &storage);
    assert_eq!(
        repl.report(&result),
        "\n\n<------------------- PARSE ERROR ------------------->\n\
         \"Failed to parse, error: UnrecognizedToken\"\n\n\
         Please check your input\n\
         <--------------------------------------------------->\n\n"
    );
    assert_eq!(repl.report(&ExecutionResult::VoidOK), "OK!\n");
    assert_eq!(
        repl.report(&ExecutionResult::TableResult(people(&["nothing"]))),
        "The table cannot be drawn\n"
    );
}

#[test]
fn the_reason_of_a_failure_is_shown_between_quotes() {
    let repl = Repl::new();
    assert_eq!(
        repl.report(&ExecutionResult::CommandError("TableNotFound".to_string())),
        "\n\n<------------------ COMMAND FAILED ------------------>\n\
         \"TableNotFound\"\n\n\
         <---------------------------------------------------->\n\n"
    );
    assert_eq!(
        repl.report(&ExecutionResult::ParseError("a\nb".to_string())),
        "\n\n<------------------- PARSE ERROR ------------------->\n\
         \"a\\nb\"\n\n\
         Please check your input\n\
         <--------------------------------------------------->\n\n"
    );
    for text in ["", "plain", "say \"hi\"", "back\\slash", "tab\there"] {
        assert_eq!(
            repl.report(&ExecutionResult::CommandError(text.to_string())),
            command_error_text(&format!("{:?}", text))
        );
        assert_eq!(
            repl.report(&ExecutionResult::ParseError(text.to_string())),
            parse_error_text(&format!("{:?}", text))
        );
    }
}

#[test]
fn the_blocks_of_a_failure_stand_around_what_is_shown() {
    assert_eq!(
        parse_error_text("why"),
        "\n\n<------------------- PARSE ERROR ------------------->\nwhy\n\n\
         Please check your input\n\
         <--------------------------------------------------->\n\n"
    );
    assert_eq!(
        command_error_text("why"),
        "\n\n<------------------ COMMAND FAILED ------------------>\nwhy\n\n\
         <---------------------------------------------------->\n\n"
    );
    assert_eq!(
        command_error_text(""),
        "\n\n<------------------ COMMAND FAILED ------------------>\n\n\n\
         <---------------------------------------------------->\n\n"
    );
}
