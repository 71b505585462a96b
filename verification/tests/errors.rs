use calcr::errors::{CalcrError, ErrorKind};
use calcr::input::{DefaultInputHandler, InputCmd};
use calcr::lexer::lex_equation;

fn error(span: Option<(usize, usize)>) -> CalcrError {
    CalcrError { kind: ErrorKind::DomainError, desc: "It went wrong".to_string(), span }
}

#[test]
fn description() {
    let e = error(None);
    assert_eq!(e.description(), "It went wrong");
    assert_eq!(e.to_string(), "It went wrong");
}

#[test]
fn highlight_under_a_prompt() {
    let input = "1 + foo".to_string();
    assert_eq!(error(Some((4, 7))).location_highlight(&input, false), "       ^~~\n");
    assert_eq!(error(Some((0, 1))).location_highlight(&input, false), "   ^\n");
}

#[test]
fn highlight_with_the_input() {
    let input = "1 + foo".to_string();
    assert_eq!(
        error(Some((4, 7))).location_highlight(&input, true),
        "  1 + foo\n      ^~~\n"
    );
}

#[test]
fn highlight_without_a_span_marks_everything() {
    let input = "1+2".to_string();
    assert_eq!(error(None).location_highlight(&input, true), "  1+2\n  ^~~\n");
    assert_eq!(error(None).location_highlight(&"".to_string(), true), "  \n  ^\n");
}

#[test]
fn highlight_of_an_empty_span() {
    let input = "2+".to_string();
    assert_eq!(error(Some((2, 2))).location_highlight(&input, false), "     ^\n");
}

#[test]
fn highlight_counts_columns() {
    // The first character is two columns wide, the accent none.
    let input = "日e\u{301}x".to_string();
    assert_eq!(error(Some((0, 1))).location_highlight(&input, false), "   ^~\n");
    assert_eq!(error(Some((1, 3))).location_highlight(&input, false), "    ^\n");
    assert_eq!(error(Some((0, 4))).location_highlight(&input, false), "   ^~~~\n");
}

#[test]
fn highlight_past_the_input() {
    let input = "ab".to_string();
    assert_eq!(error(Some((1, 9))).location_highlight(&input, false), "    ^\n");
    assert_eq!(error(Some((5, 9))).location_highlight(&input, false), "        ^\n");
}

#[test]
fn highlight_of_a_lexer_error() {
    let input = "12 + ?3".to_string();
    let e = lex_equation(&input).unwrap_err();
    assert_eq!(e.location_highlight(&input, true), "  12 + ?3\n       ^\n");
}

#[test]
fn lines_become_commands() {
    let handler = DefaultInputHandler::new();
    assert_eq!(handler.interpret("quit".to_string()), InputCmd::Quit);
    assert_eq!(handler.interpret("exit\n".to_string()), InputCmd::Quit);
    assert_eq!(handler.interpret("  quit \t\n".to_string()), InputCmd::Quit);
    assert_eq!(handler.interpret("1+2\n".to_string()), InputCmd::Equation("1+2\n".to_string()));
    assert_eq!(handler.interpret("quit now".to_string()), InputCmd::Equation("quit now".to_string()));
    assert_eq!(handler.interpret("".to_string()), InputCmd::Equation("".to_string()));
    assert_eq!(handler.interpret("QUIT".to_string()), InputCmd::Equation("QUIT".to_string()));
}
