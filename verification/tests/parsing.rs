use comma::build_command;
use comma::error_types::ParseError;
use comma::parse_command;
use comma::tokenize;

#[test]
fn parsing_works() {
    let result =
        parse_command("   hello    world \\'this is\\' a \"quoted \\\"string\\\"\"    ").unwrap();
    assert_eq!(
        result,
        vec![
            String::from("hello"),
            String::from("world"),
            String::from("'this"),
            String::from("is'"),
            String::from("a"),
            String::from("quoted \"string\"")
        ]
    );
}

#[test]
fn fail_mismatch() {
    assert_eq!(parse_command("Hello 'world "), None);
}

#[test]
fn unicode() {
    // This contains a CJK IDEOGRAPH EXTENSION G character, which is invisible.
    let result = parse_command("\u{df} \u{2106c}").unwrap();
    assert_eq!(
        result,
        vec![String::from("\u{df}"), String::from("\u{2106c}")]
    );
}

#[test]
fn empty_and_blank_inputs() {
    assert_eq!(tokenize(""), Ok(vec![]));
    assert_eq!(tokenize("   "), Ok(vec![]));
}

#[test]
fn whitespace_collapse() {
    assert_eq!(tokenize("a   b"), tokenize("a b"));
    assert_eq!(tokenize("a   b").unwrap(), vec![String::from("a"), String::from("b")]);
}

#[test]
fn no_spurious_empty_tokens() {
    assert_eq!(tokenize("  a  "), tokenize("a"));
    assert_eq!(tokenize("  a  ").unwrap(), vec![String::from("a")]);
}

#[test]
fn quote_transparency_to_boundaries() {
    assert_eq!(tokenize("a\"b c\"d").unwrap(), vec![String::from("ab cd")]);
    assert_eq!(tokenize("a'b c'd").unwrap(), vec![String::from("ab cd")]);
}

#[test]
fn escape_verbatim_rule() {
    assert_eq!(tokenize("\\a").unwrap(), vec![String::from("a")]);
    assert_eq!(tokenize("\\\\").unwrap(), vec![String::from("\\")]);
    assert_eq!(tokenize("\\n").unwrap(), vec![String::from("\n")]);
    assert_eq!(tokenize("\\r").unwrap(), vec![String::from("\r")]);
    assert_eq!(tokenize("\\t").unwrap(), vec![String::from("\t")]);
    assert_eq!(tokenize("a\\ b").unwrap(), vec![String::from("a b")]);
}

#[test]
fn mismatched_quote_types_do_not_close() {
    assert_eq!(tokenize("\"it's\"").unwrap(), vec![String::from("it's")]);
    assert_eq!(tokenize("'a\"b'").unwrap(), vec![String::from("a\"b")]);
}

#[test]
fn failure_scenarios() {
    assert_eq!(tokenize("\"unterminated"), Err(ParseError::UnterminatedQuote));
    assert_eq!(tokenize("trailing\\"), Err(ParseError::UnterminatedEscape));
}

#[test]
fn quotes_alone_make_an_empty_token() {
    assert_eq!(tokenize("\"\"").unwrap(), vec![String::from("")]);
}

#[test]
fn empty_command() {
    assert!(build_command(tokenize("   ").unwrap()).is_err());
    let command = build_command(tokenize("run a b").unwrap()).unwrap();
    assert_eq!(command.name, String::from("run"));
    assert_eq!(command.arguments, vec![String::from("a"), String::from("b")]);
}

#[test]
fn retokenize_is_idempotent_on_plain_tokens() {
    let first = tokenize("foo bar baz").unwrap();
    let rejoined = first.join(" ");
    assert_eq!(tokenize(&rejoined).unwrap(), first);
}
