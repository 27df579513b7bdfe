use termcolor_output::format::parse_format_string;
use termcolor_output::parse::{classify_format_arg, is_format_control, parse_input, parse_tokens};
use termcolor_output::token::{Delim, Spacing, SpanRef, Token};
use termcolor_output::types::{ControlSeq, ErrorKind, FormatPart, InputItem};

fn ident(s: &str, at: usize) -> Token {
    Token::Ident { text: s.to_string(), span: SpanRef::Input(at) }
}

fn punct(c: char, at: usize) -> Token {
    Token::Punct { ch: c, spacing: Spacing::Alone, span: SpanRef::Input(at) }
}

fn lit(s: &str, at: usize) -> Token {
    Token::Literal { text: s.to_string(), span: SpanRef::Input(at) }
}

fn group(inner: Vec<Token>, at: usize) -> Token {
    Token::Group { delim: Delim::Parenthesis, stream: inner, span: SpanRef::Input(at) }
}

fn parts_of(source: &str) -> Vec<(bool, String)> {
    let items = parse_format_string(vec![lit(source, 0)]).unwrap();
    assert_eq!(items.span, SpanRef::Input(0));
    items
        .parts
        .into_iter()
        .map(|p| match p {
            FormatPart::Text(t) => (false, t),
            FormatPart::Input(s) => (true, s),
        })
        .collect()
}

fn format_error(tokens: Vec<Token>) -> (SpanRef, SpanRef, ErrorKind) {
    let e = parse_format_string(tokens).unwrap_err();
    (e.start, e.end, e.kind)
}

#[test]
fn format_control_names() {
    assert!(is_format_control("bold"));
    assert!(is_format_control("underline"));
    assert!(is_format_control("intense"));
    assert!(is_format_control("fg"));
    assert!(is_format_control("bg"));
    assert!(!is_format_control("reset"));
    assert!(!is_format_control("fgx"));
    assert!(!is_format_control(""));
}

#[test]
fn format_text_and_placeholders() {
    assert_eq!(
        parts_of("\"Text: {}\\nText (escaped): {:?}\""),
        vec![
            (false, "Text: ".to_string()),
            (true, "{}".to_string()),
            (false, "\\nText (escaped): ".to_string()),
            (true, "{:?}".to_string()),
        ]
    );
}

#[test]
fn format_escaped_braces_are_text() {
    assert_eq!(parts_of("\"or even {{this}}\""), vec![(false, "or even {this}".to_string())]);
    assert_eq!(
        parts_of("\"{}{:#?}{{\""),
        vec![(true, "{}".to_string()), (true, "{:#?}".to_string()), (false, "{".to_string())]
    );
}

#[test]
fn format_empty_and_plain() {
    assert_eq!(parts_of("\"\""), vec![]);
    assert_eq!(parts_of("\"plain\""), vec![(false, "plain".to_string())]);
}

#[test]
fn format_unterminated_placeholder_runs_to_end() {
    assert_eq!(parts_of("\"a{:?\""), vec![(false, "a".to_string()), (true, "{:?".to_string())]);
}

#[test]
fn format_quotes_trimmed_from_both_ends() {
    assert_eq!(parts_of("\"x\\\"\""), vec![(false, "x\\".to_string())]);
}

#[test]
fn format_roundtrip_concrete() {
    let source = "a{{b}}{}c{:?}";
    let parts = parts_of(&format!("\"{}\"", source));
    let mut back = String::new();
    for (is_input, s) in parts {
        if is_input {
            back.push_str(&s);
        } else {
            back.push_str(&s.replace('{', "{{").replace('}', "}}"));
        }
    }
    assert_eq!(back, source);
}

#[test]
fn format_errors() {
    assert_eq!(format_error(vec![lit("\"a}b\"", 3)]), (SpanRef::Input(3), SpanRef::Input(3), ErrorKind::UnmatchedClose));
    assert_eq!(format_error(vec![lit("\"abc}\"", 3)]), (SpanRef::Input(3), SpanRef::Input(3), ErrorKind::UnexpectedEnd));
    assert_eq!(format_error(vec![lit("\"abc{\"", 3)]), (SpanRef::Input(3), SpanRef::Input(3), ErrorKind::UnexpectedEnd));
    assert_eq!(format_error(vec![]), (SpanRef::CallSite, SpanRef::CallSite, ErrorKind::EmptyFormat));
    assert_eq!(
        format_error(vec![lit("\"a\"", 1), ident("b", 2)]),
        (SpanRef::Input(2), SpanRef::Input(2), ErrorKind::ExtraToken)
    );
    assert_eq!(format_error(vec![ident("not_a_string", 4)]), (SpanRef::Input(4), SpanRef::Input(4), ErrorKind::NotALiteralString));
    assert_eq!(format_error(vec![lit("0u32", 4)]), (SpanRef::Input(4), SpanRef::Input(4), ErrorKind::NotALiteralString));
    assert_eq!(format_error(vec![lit("b\"x\"", 4)]), (SpanRef::Input(4), SpanRef::Input(4), ErrorKind::NotALiteralString));
}

#[test]
fn error_messages() {
    assert_eq!(ErrorKind::NoArguments.message(), "colored! macro can't be called without arguments");
    assert_eq!(ErrorKind::NotEnoughInputs.message(), "Not enough input parameters for this format string");
    assert_eq!(ErrorKind::TooManyInputs.message(), "Too many input parameters for this format string");
    assert_eq!(
        ErrorKind::UnmatchedClose.message(),
        "Unmatched '}' in format string; did you forget to escape it as '}}'?"
    );
}

#[test]
fn tokens_split_at_commas() {
    let args = parse_tokens(vec![
        punct('&', 0),
        ident("mut", 1),
        ident("w", 2),
        punct(',', 3),
        lit("\"x\"", 4),
        punct(',', 5),
        ident("a", 6),
        punct(',', 7),
    ])
    .unwrap();
    assert_eq!(args.len(), 3);
    assert_eq!(args[0].len(), 3);
    assert!(matches!(&args[0][0], Token::Punct { ch: '&', .. }));
    assert_eq!(args[1].len(), 1);
    assert_eq!(args[2].len(), 1);
}

#[test]
fn tokens_empty_input() {
    assert_eq!(parse_tokens(vec![]).unwrap().len(), 0);
}

#[test]
fn tokens_comma_without_argument() {
    let e = parse_tokens(vec![punct(',', 0), ident("x", 1)]).unwrap_err();
    assert_eq!((e.start, e.end, e.kind), (SpanRef::Input(0), SpanRef::Input(0), ErrorKind::UnexpectedComma));
    let e = parse_tokens(vec![ident("x", 0), punct(',', 1), punct(',', 2)]).unwrap_err();
    assert_eq!((e.start, e.kind), (SpanRef::Input(2), ErrorKind::UnexpectedComma));
}

#[test]
fn classify_commands() {
    match classify_format_arg(vec![ident("bold", 0), punct('!', 1), group(vec![ident("true", 2)], 3)]).unwrap() {
        InputItem::Ctrl(ControlSeq::Bold(inner)) => assert_eq!(inner.len(), 1),
        other => panic!("{:?}", other),
    }
    match classify_format_arg(vec![ident("fg", 0), punct('!', 1), group(vec![], 3)]).unwrap() {
        InputItem::Ctrl(ControlSeq::Foreground(inner)) => assert_eq!(inner.len(), 0),
        other => panic!("{:?}", other),
    }
    assert!(matches!(
        classify_format_arg(vec![ident("reset", 0), punct('!', 1), group(vec![ident("x", 2)], 3)]).unwrap(),
        InputItem::Ctrl(ControlSeq::Reset)
    ));
    assert!(matches!(
        classify_format_arg(vec![ident("intense", 0), punct('!', 1), group(vec![], 3)]).unwrap(),
        InputItem::Ctrl(ControlSeq::Intense(_))
    ));
}

#[test]
fn classify_expressions() {
    match classify_format_arg(vec![ident("vec", 0), punct('!', 1), group(vec![lit("1u8", 2)], 3)]).unwrap() {
        InputItem::Raw(t) => assert_eq!(t.len(), 3),
        other => panic!("{:?}", other),
    }
    assert!(matches!(classify_format_arg(vec![ident("bold", 0)]).unwrap(), InputItem::Raw(_)));
    assert!(matches!(
        classify_format_arg(vec![ident("bold", 0), punct('.', 1), group(vec![], 2)]).unwrap(),
        InputItem::Raw(_)
    ));
    let e = classify_format_arg(vec![]).unwrap_err();
    assert_eq!(e.kind, ErrorKind::EmptyArgument);
    assert!(e.kind.message().starts_with("Empty token stream in 'classify'; this is supposed to be unreachable. Please report this case"));
}

#[test]
fn input_needs_writer_and_format() {
    let e = parse_input(vec![]).unwrap_err();
    assert_eq!((e.start, e.end, e.kind), (SpanRef::CallSite, SpanRef::CallSite, ErrorKind::NoArguments));
    let e = parse_input(vec![lit("\"test\"", 0)]).unwrap_err();
    assert_eq!((e.start, e.end, e.kind), (SpanRef::Input(0), SpanRef::Input(0), ErrorKind::WriterIsString));
    let e = parse_input(vec![ident("not_a_writer", 0), ident("x", 1)]).unwrap_err();
    assert_eq!((e.start, e.end, e.kind), (SpanRef::Input(0), SpanRef::Input(1), ErrorKind::MissingFormatString));
    let e = parse_input(vec![ident("w", 0), punct(',', 1), ident("not_a_string", 2)]).unwrap_err();
    assert_eq!((e.start, e.kind), (SpanRef::Input(2), ErrorKind::NotALiteralString));
}

#[test]
fn input_parsed() {
    let mi = parse_input(vec![
        ident("w", 0),
        punct(',', 1),
        lit("\"{}{}\"", 2),
        punct(',', 3),
        ident("bold", 4),
        punct('!', 5),
        group(vec![ident("true", 6)], 7),
        punct(',', 8),
        ident("x", 9),
    ])
    .unwrap();
    assert_eq!(mi.writer.len(), 1);
    assert_eq!(mi.format.span, SpanRef::Input(2));
    assert_eq!(mi.format.parts.len(), 2);
    assert_eq!(mi.rest.len(), 2);
    assert!(matches!(mi.rest[0], InputItem::Ctrl(ControlSeq::Bold(_))));
    assert!(matches!(mi.rest[1], InputItem::Raw(_)));
}

#[test]
fn format_text_runs_are_one_part() {
    assert_eq!(parts_of("\"a{{b}}c\""), vec![(false, "a{b}c".to_string())]);
    let parts = parts_of("\"x{{{}}}y\"");
    assert_eq!(parts, vec![(false, "x{".to_string()), (true, "{}".to_string()), (false, "}y".to_string())]);
}

fn invisible(inner: Vec<Token>, at: usize) -> Token {
    Token::Group { delim: Delim::Invisible, stream: inner, span: SpanRef::Input(at) }
}

#[test]
fn invisible_groups_print_as_their_contents() {
    let e = parse_input(vec![invisible(vec![lit("\"test\"", 1)], 0)]).unwrap_err();
    assert_eq!((e.start, e.end, e.kind), (SpanRef::Input(0), SpanRef::Input(0), ErrorKind::WriterIsString));
    let e = parse_input(vec![Token::Group { delim: Delim::Parenthesis, stream: vec![lit("\"test\"", 1)], span: SpanRef::Input(0) }]).unwrap_err();
    assert_eq!(e.kind, ErrorKind::MissingFormatString);
    assert!(matches!(
        classify_format_arg(vec![invisible(vec![ident("bold", 1)], 0), punct('!', 2), group(vec![ident("true", 3)], 4)]).unwrap(),
        InputItem::Ctrl(ControlSeq::Bold(_))
    ));
    assert!(matches!(
        classify_format_arg(vec![invisible(vec![ident("bold", 1), ident("x", 2)], 0), punct('!', 3), group(vec![], 4)]).unwrap(),
        InputItem::Raw(_)
    ));
}
