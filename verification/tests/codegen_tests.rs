use termcolor_output::codegen::{closure_wrapper, control, guard, macro_wrapper, output, raw, report_error, spec_init};
use termcolor_output::expand::colored_generate;
use termcolor_output::formatter::FormatterKind;
use termcolor_output::token::{Delim, Spacing, SpanRef, Token};
use termcolor_output::types::{CompileError, ControlSeq, ErrorKind, OutputItem};
use termcolor_output::write_fn::{args_to_stream, args_to_types, func, Arg};

fn ident(s: &str, at: usize) -> Token {
    Token::Ident { text: s.to_string(), span: SpanRef::Input(at) }
}

fn punct(c: char, at: usize) -> Token {
    Token::Punct { ch: c, spacing: Spacing::Alone, span: SpanRef::Input(at) }
}

fn lit(s: &str, at: usize) -> Token {
    Token::Literal { text: s.to_string(), span: SpanRef::Input(at) }
}

fn group(inner: Vec<Token>, at: usize) -> Token {
    Token::Group { delim: Delim::Parenthesis, stream: inner, span: SpanRef::Input(at) }
}

/// Renders tokens as source text, one space between tokens (none after a joint punctuation).
fn render(tokens: &[Token]) -> String {
    let mut out = String::new();
    for t in tokens {
        match t {
            Token::Ident { text, .. } | Token::Literal { text, .. } => {
                out.push_str(text);
                out.push(' ');
            }
            Token::Punct { ch, spacing, .. } => {
                out.push(*ch);
                if *spacing == Spacing::Alone {
                    out.push(' ');
                }
            }
            Token::Group { delim, stream, .. } => {
                let (o, c) = match delim {
                    Delim::Parenthesis => ("(", ")"),
                    Delim::Brace => ("{", "}"),
                    Delim::Bracket => ("[", "]"),
                    Delim::Invisible => ("", ""),
                };
                out.push_str(o);
                out.push(' ');
                out.push_str(&render(stream));
                out.push_str(c);
                out.push(' ');
            }
        }
    }
    out
}

#[test]
fn guard_binds_writer() {
    let code = guard(vec![ident("w", 0)]);
    assert_eq!(render(&code), "let __writer__ : & mut _ = $ crate :: guard ( & mut w ) ; ");
}

#[test]
fn spec_init_creates_style() {
    assert_eq!(render(&spec_init()), "let mut __spec__ = termcolor :: ColorSpec :: new ( ) ; ");
}

#[test]
fn control_sets_one_attribute() {
    let code = control(ControlSeq::Bold(vec![ident("true", 0)]));
    assert_eq!(render(&code), "__spec__ . set_bold ( true ) ; __writer__ . set_color ( & __spec__ ) ? ; ");
    let code = control(ControlSeq::Foreground(vec![ident("None", 0)]));
    assert_eq!(render(&code), "__spec__ . set_fg ( None ) ; __writer__ . set_color ( & __spec__ ) ? ; ");
    let code = control(ControlSeq::Reset);
    assert_eq!(render(&code), "__spec__ . clear ( ) ; __writer__ . set_color ( & __spec__ ) ? ; ");
}

#[test]
fn raw_writes_with_format() {
    let code = raw(("Text: {}, {:?}".to_string(), vec![vec![lit("\"a\"", 0)], vec![ident("b", 1)]])).unwrap();
    assert_eq!(render(&code), "write ! ( __writer__ , \"Text: {}, {:?}\" , \"a\" , b ) ? ; ");
    let code = output(OutputItem::Raw(("x".to_string(), vec![]))).unwrap();
    assert_eq!(render(&code), "write ! ( __writer__ , \"x\" ) ? ; ");
}

#[test]
fn error_report_points_at_start() {
    let code = report_error(CompileError { start: SpanRef::Input(7), end: SpanRef::Input(9), kind: ErrorKind::NotEnoughInputs });
    assert_eq!(render(&code), "compile_error ! ( \"Not enough input parameters for this format string\" ) ");
    assert!(matches!(&code[0], Token::Ident { span: SpanRef::Input(7), .. }));
    match &code[2] {
        Token::Group { stream, .. } => assert!(matches!(&stream[0], Token::Literal { span: SpanRef::Input(7), .. })),
        _ => panic!(),
    }
}

#[test]
fn wrappers() {
    assert_eq!(render(&macro_wrapper(vec![ident("x", 0)])), "macro_rules ! colored_impl { ( ) => { x } } ");
    assert_eq!(
        render(&closure_wrapper(vec![ident("x", 0)])),
        "{ use std :: io :: Write as _ ; use termcolor :: WriteColor as _ ; ( || -> std :: io :: Result < ( ) > { x Ok ( ( ) ) } ) ( ) } "
    );
}

#[test]
fn generate_control_only() {
    let mut input = vec![ident("w", 0), punct(',', 1), lit("\"{}{}\"", 2), punct(',', 3)];
    input.extend(vec![ident("bold", 4), punct('!', 5), group(vec![ident("true", 6)], 7), punct(',', 8)]);
    input.extend(vec![ident("reset", 9), punct('!', 10), group(vec![], 11)]);
    let code = render(&colored_generate(input));
    assert_eq!(
        code,
        "macro_rules ! colored_impl { ( ) => { { use std :: io :: Write as _ ; use termcolor :: WriteColor as _ ; ( || -> std :: io :: Result < ( ) > { \
let __writer__ : & mut _ = $ crate :: guard ( & mut w ) ; \
let mut __spec__ = termcolor :: ColorSpec :: new ( ) ; \
__spec__ . set_bold ( true ) ; __writer__ . set_color ( & __spec__ ) ? ; \
__spec__ . clear ( ) ; __writer__ . set_color ( & __spec__ ) ? ; \
Ok ( ( ) ) } ) ( ) } } } "
    );
}

#[test]
fn generate_raw_and_text() {
    let input = vec![ident("w", 0), punct(',', 1), lit("\"Text: {} and {:?}!\"", 2), punct(',', 3), lit("\"a\"", 4), punct(',', 5), ident("b", 6)];
    let code = render(&colored_generate(input));
    assert!(code.contains("write ! ( __writer__ , \"Text: {} and {:?}!\" , \"a\" , b ) ? ;"));
}

#[test]
fn generate_reports_errors() {
    let input = vec![ident("not_a_writer", 0), punct(',', 1), ident("x", 2)];
    let code = colored_generate(input);
    let text = render(&code);
    assert!(text.contains("compile_error ! ( \"The second argument must be a literal string\" )"));
    let input = vec![ident("w", 0), punct(',', 1), lit("\"\"", 2), punct(',', 3), ident("a", 4), punct(',', 5), ident("b", 6)];
    let text = render(&colored_generate(input));
    assert!(text.contains("compile_error ! ( \"Too many input parameters for this format string\" )"));
    let text = render(&colored_generate(vec![]));
    assert!(text.contains("compile_error ! ( \"colored! macro can't be called without arguments\" )"));
}

#[test]
fn writing_function_signature() {
    let args: Vec<Arg> = (0..12)
        .map(|i| Arg {
            kind: match i % 3 {
                0 => Some(FormatterKind::Debug),
                1 => Some(FormatterKind::Display),
                _ => None,
            },
            expr: vec![],
        })
        .collect();
    let types = render(&args_to_types(&args));
    assert!(types.starts_with("T0 : Debug T1 : Display T2 T3 : Debug "));
    assert!(types.ends_with("T10 : Display T11 "));
    let stream = render(&args_to_stream(&args[..2]));
    assert_eq!(stream, "_arg0 : T0 _arg1 : T1 ");
    let unknown = vec![Arg { kind: Some(FormatterKind::Unknown("b".to_string())), expr: vec![] }];
    assert_eq!(render(&args_to_types(&unknown)), "T0 ");
    let f = func(unknown, vec![ident("body", 0)]);
    assert_eq!(render(&f), "fn write < T0 > ( _arg0 : T0 ) { body } ");
}

#[test]
fn generate_keeps_escaped_braces() {
    let input = vec![ident("w", 0), punct(',', 1), lit("\"{{}}\"", 2)];
    let text = render(&colored_generate(input));
    assert!(text.contains("write ! ( __writer__ , \"{{}}\" ) ? ;"));
    let input = vec![ident("w", 0), punct(',', 1), lit("\"{{name}} {}\"", 2), punct(',', 3), ident("x", 4)];
    let text = render(&colored_generate(input));
    assert!(text.contains("write ! ( __writer__ , \"{{name}} {}\" , x ) ? ;"));
}
