use kya::errors::{format_error, Error, LexerError};
use kya::socket::SocketError;

fn strip(s: &str) -> String {
    // removes the terminal's escape sequences, which depend on the environment
    let mut out = String::new();
    let mut chars = s.chars().peekable();
    while let Some(c) = chars.next() {
        if c == '\u{1b}' {
            for d in chars.by_ref() {
                if d == 'm' {
                    break;
                }
            }
        } else {
            out.push(c);
        }
    }
    out
}

#[test]
fn test_format_error_text() {
    assert_eq!(strip(&format_error("Parser Error", "bad")), "Parser Error: bad");
}

#[test]
fn test_error_messages() {
    let e = Error::LexerError(LexerError::new("Invalid symbol: @".to_string(), 3, 7));
    assert_eq!(e.message_text(), "Invalid symbol at line 3, column 7: Invalid symbol: @");
    assert_eq!(strip(&Error::UndefinedVariable("x".to_string()).message_text()), "Undefined Variable: x");
    assert_eq!(strip(&Error::RuntimeError("boom".to_string()).message_text()), "Runtime Error: boom");
    assert_eq!(strip(&Error::SyntaxError("s".to_string()).message_text()), "Syntax Error: s");
    assert_eq!(SocketError::ReadError("x".to_string()).message_text(), "Socket Error");
}

#[test]
fn test_lexer_error_new_keeps_fields() {
    let e = LexerError::new("m".to_string(), 1, 2);
    assert_eq!(e.message, "m");
    assert_eq!(e.line, 1);
    assert_eq!(e.column, 2);
}

#[test]
fn test_format_error_colors_when_forced() {
    colored::control::set_override(true);
    assert_eq!(format_error("Parser Error", "bad"), "\u{1b}[1;35mParser Error\u{1b}[0m: \u{1b}[35mbad\u{1b}[0m");
    assert_eq!(
        Error::NotImplemented("n".to_string()).message_text(),
        "\u{1b}[1;35mNot Implemented\u{1b}[0m: \u{1b}[1;31mn\u{1b}[0m"
    );
    colored::control::set_override(false);
    assert_eq!(format_error("Value Error", "v"), "Value Error: v");
}
