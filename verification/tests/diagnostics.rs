use cell_lang::diagnostics::build_error;
use cell_lang::lexer::Error;
use cell_lang::positioned::Position;

#[test]
fn end_of_input_errors_print_the_message_alone() {
    let err = Error {
        msg: "Expected Semicolon found EOF".to_string(),
        start: Position::end(),
        end: Position::end(),
    };
    let text = build_error("1 + 2", err);
    assert_eq!(text, "Expected Semicolon found EOF");
}

#[test]
fn formatted_errors_excerpt_the_offending_line() {
    let src = "!a = 5;\n!b = nope;";
    let err = cell_lang::load_program(src.to_string()).unwrap_err();
    assert_eq!(err.msg, "No value for constant nope");
    assert_eq!(err.start.line, 2);
    let text = build_error(src, err);
    assert!(text.contains("No value for constant nope"));
    assert!(text.contains("main.cell:2:"));
    assert!(text.contains("!b = nope;"));
    assert!(text.contains("^"));
}

#[test]
fn caret_width_matches_the_span() {
    let err = Error {
        msg: "probe".to_string(),
        start: Position { line: 1, col: 2, end: false },
        end: Position { line: 1, col: 4, end: false },
    };
    let text = build_error("abcdef", err);
    // Columns 2 through 4 cover three characters.
    assert!(text.contains("^^^"));
    assert!(!text.contains("^^^^"));
    assert!(text.contains("abcdef"));
}

#[test]
fn pipeline_reports_its_first_fault() {
    let err = cell_lang::load_program("\"unterminated".to_string()).unwrap_err();
    assert_eq!(err.msg, "EOF found unexpectedly");
    let err2 = cell_lang::load_program("1 +".to_string()).unwrap_err();
    assert_eq!(err2.msg, "Expected expression but got EOF");
}
