use steeldb::command::Command;
use steeldb::parser::{parse, parse_select, ParseError};

#[test]
fn test_select_parser_single_column() {
    let result = parse_select("select churros;".to_string());
    assert!(result.is_ok());
    let v = vec!["churros".to_string()];
    assert_eq!(v, result.unwrap());
}

#[test]
fn test_select_parser_multiple_columns() {
    let result = parse_select("select brigadeiro, churros;".to_string()).unwrap();
    let v = vec!["brigadeiro".to_string(), "churros".to_string()];
    assert_eq!(v, result);
}

#[test]
fn test_select_support_star() {
    let result = parse_select("select *;".to_string());
    assert!(result.is_ok());
    assert_eq!(result.unwrap(), vec!["*".to_string()]);
}

#[test]
fn test_parse_select() {
    let result = parse_select("select brigadeiro, churros;".to_string()).unwrap();
    let v = vec!["brigadeiro".to_string(), "churros".to_string()];
    assert_eq!(v, result);
}

fn columns(input: &str) -> Vec<String> {
    parse_select(input.to_string()).unwrap()
}

fn error(input: &str) -> String {
    match parse_select(input.to_string()) {
        Err(ParseError::Error(text)) => text,
        Ok(names) => panic!("unexpected {:?}", names),
    }
}

#[test]
fn white_space_between_tokens_does_not_count() {
    assert_eq!(columns("  select   a ,\n\tb_2 ;  \n"), vec!["a", "b_2"]);
    assert_eq!(columns("select a,b;"), vec!["a", "b"]);
    assert_eq!(columns("select \u{a0}a\u{2003};"), vec!["a"]);
}

#[test]
fn a_literal_is_as_long_as_it_can_be() {
    assert_eq!(columns("select selecta;"), vec!["selecta"]);
    assert_eq!(columns("select select;"), vec!["select"]);
    assert_eq!(columns("select a*_09z;"), vec!["a*_09z"]);
}

#[test]
fn characters_outside_the_alphabet_are_invalid_tokens() {
    assert_eq!(error("select Name;"), "Failed to parse, error: InvalidToken");
    assert_eq!(error("select a.b;"), "Failed to parse, error: InvalidToken");
    assert_eq!(error("select a; #"), "Failed to parse, error: InvalidToken");
}

#[test]
fn tokens_out_of_order_are_unrecognized() {
    for input in [
        "select",
        "select ;",
        "select a b;",
        "select a,;",
        "select ,a;",
        "select a,,b;",
        "select a;;",
        "select a; b",
        "selecta;",
        "select\ta;",
        "a;",
        ";",
        ",",
        "select select a;",
        "select a; select b;",
    ] {
        assert_eq!(error(input), "Failed to parse, error: UnrecognizedToken", "{:?}", input);
    }
}

#[test]
fn a_query_that_ends_too_early_is_told_so() {
    for input in ["", "   ", "\n", "select ", "select a", "select a ", "select a,", "select a, b", "select a,b \n"] {
        assert_eq!(error(input), "Failed to parse, error: UnrecognizedEof", "{:?}", input);
    }
}

#[test]
fn the_first_fault_of_a_query_is_the_one_told() {
    assert_eq!(error("a $"), "Failed to parse, error: UnrecognizedToken");
    assert_eq!(error("$ a"), "Failed to parse, error: InvalidToken");
    assert_eq!(error("select a b $;"), "Failed to parse, error: UnrecognizedToken");
    assert_eq!(error("select a, $ b"), "Failed to parse, error: InvalidToken");
    assert_eq!(error("select a $"), "Failed to parse, error: InvalidToken");
    assert_eq!(error("select a; b $"), "Failed to parse, error: UnrecognizedToken");
    assert_eq!(error("select a;$"), "Failed to parse, error: InvalidToken");
    assert_eq!(error("Select a"), "Failed to parse, error: InvalidToken");
    assert_eq!(error("select A"), "Failed to parse, error: InvalidToken");
}

#[test]
fn a_query_becomes_one_command_on_the_default_table() {
    let commands = parse("select name, annual_salary;".to_string()).unwrap();
    assert_eq!(commands.len(), 1);
    match &commands[0] {
        Command::SelectFrom(columns, table) => {
            assert_eq!(columns, &vec!["name".to_string(), "annual_salary".to_string()]);
            assert_eq!(table, "test_table");
        }
        other => panic!("unexpected {:?}", other),
    }
}

#[test]
fn a_query_that_cannot_be_read_becomes_no_command() {
    match parse("insert x;".to_string()) {
        Err(ParseError::Error(text)) => assert_eq!(text, "Failed to parse, error: UnrecognizedToken"),
        Ok(commands) => panic!("unexpected {:?}", commands),
    }
}
