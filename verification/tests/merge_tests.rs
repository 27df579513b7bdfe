use termcolor_output::format::parse_format_string;
use termcolor_output::merge::{merge_items, pull_format};
use termcolor_output::token::{Delim, Spacing, SpanRef, Token};
use termcolor_output::types::{ControlSeq, ErrorKind, FormatItems, FormatPart, InputItem, OutputItem};

fn ident(s: &str, at: usize) -> Token {
    Token::Ident { text: s.to_string(), span: SpanRef::Input(at) }
}

fn text(s: &str) -> FormatPart {
    FormatPart::Text(s.to_string())
}

fn input(s: &str) -> FormatPart {
    FormatPart::Input(s.to_string())
}

fn raw(name: &str, at: usize) -> InputItem {
    InputItem::Raw(vec![ident(name, at)])
}

fn items(parts: Vec<FormatPart>) -> FormatItems {
    FormatItems { span: SpanRef::Input(99), parts }
}

fn describe(out: &[OutputItem]) -> Vec<String> {
    out.iter()
        .map(|o| match o {
            OutputItem::Raw((f, items)) => format!("raw {} x{}", f, items.len()),
            OutputItem::Ctrl(ControlSeq::Reset) => "reset".to_string(),
            OutputItem::Ctrl(ControlSeq::Bold(_)) => "bold".to_string(),
            OutputItem::Ctrl(_) => "ctrl".to_string(),
        })
        .collect()
}

#[test]
fn merge_groups_expressions_between_commands() {
    let out = merge_items(
        items(vec![text("a "), input("{}"), text(" b "), input("{:?}"), input("{}"), text(" c "), input("{}"), text("!")]),
        vec![raw("x", 1), raw("y", 2), InputItem::Ctrl(ControlSeq::Bold(vec![])), raw("z", 3)],
    )
    .unwrap();
    assert_eq!(describe(&out), vec!["raw a {} b {:?} x2", "bold", "raw  c {}! x1"]);
}

#[test]
fn merge_control_only() {
    let out = merge_items(
        items(vec![input("{}"), input("{}")]),
        vec![InputItem::Ctrl(ControlSeq::Bold(vec![])), InputItem::Ctrl(ControlSeq::Reset)],
    )
    .unwrap();
    assert_eq!(describe(&out), vec!["bold", "reset"]);
}

#[test]
fn merge_text_before_command_is_written() {
    let out = merge_items(items(vec![text("before "), input("{}"), text("after")]), vec![InputItem::Ctrl(ControlSeq::Reset)]).unwrap();
    assert_eq!(describe(&out), vec!["raw before  x0", "reset", "raw after x0"]);
}

#[test]
fn merge_not_enough_inputs() {
    let e = merge_items(
        items(vec![text("Before first - "), input("{}"), text(", then - "), input("{:?}"), text(", or even {this}: "), input("{:b}"), text("!")]),
        vec![],
    )
    .unwrap_err();
    assert_eq!((e.start, e.end, e.kind), (SpanRef::Input(99), SpanRef::Input(99), ErrorKind::NotEnoughInputs));
}

#[test]
fn merge_too_many_inputs() {
    let e = merge_items(items(vec![]), vec![InputItem::Raw(vec![ident("Some", 5), ident("x", 6)]), raw("v", 8)]).unwrap_err();
    assert_eq!((e.start, e.end, e.kind), (SpanRef::Input(5), SpanRef::Input(6), ErrorKind::TooManyInputs));
    let e = merge_items(items(vec![input("{}")]), vec![raw("a", 1), InputItem::Ctrl(ControlSeq::Reset)]).unwrap_err();
    assert_eq!((e.start, e.end, e.kind), (SpanRef::CallSite, SpanRef::CallSite, ErrorKind::TooManyInputs));
}

#[test]
fn merge_counts_placeholders() {
    for n in 0..4usize {
        let parts: Vec<FormatPart> = (0..2).map(|_| input("{}")).collect();
        let args: Vec<InputItem> = (0..n).map(|i| raw("a", i)).collect();
        assert_eq!(merge_items(items(parts), args).is_ok(), n == 2);
    }
}

#[test]
fn merge_empty() {
    assert!(merge_items(items(vec![]), vec![]).unwrap().is_empty());
    let out = merge_items(items(vec![text("only text")]), vec![]).unwrap();
    assert_eq!(describe(&out), vec!["raw only text x0"]);
}

#[test]
fn pull_format_takes_text_up_to_placeholder() {
    let mut parts = vec![text("a"), text("b"), input("{:?}"), text("c")];
    let mut cur = String::from(">");
    let got = pull_format(&mut parts, &mut cur, SpanRef::CallSite, SpanRef::CallSite).unwrap();
    assert_eq!(got, "{:?}");
    assert_eq!(cur, ">ab");
    assert_eq!(parts.len(), 1);
    assert!(matches!(&parts[0], FormatPart::Text(t) if t == "c"));
    let e = pull_format(&mut parts, &mut cur, SpanRef::Input(1), SpanRef::Input(2)).unwrap_err();
    assert_eq!((e.start, e.end, e.kind), (SpanRef::Input(1), SpanRef::Input(2), ErrorKind::TooManyInputs));
    assert_eq!(cur, ">abc");
    assert!(parts.is_empty());
}

#[test]
fn merge_keeps_tokens_of_group_arguments() {
    let arg = vec![Token::Group { delim: Delim::Parenthesis, stream: vec![ident("a", 1)], span: SpanRef::Input(0) }, Token::Punct { ch: '.', spacing: Spacing::Alone, span: SpanRef::Input(2) }];
    let out = merge_items(items(vec![input("{}")]), vec![InputItem::Raw(arg)]).unwrap();
    match &out[0] {
        OutputItem::Raw((f, items)) => {
            assert_eq!(f, "{}");
            assert_eq!(items[0].len(), 2);
        }
        _ => panic!(),
    }
}

#[test]
fn merge_keeps_argument_order() {
    let out = merge_items(
        items(vec![input("{}"), text("-"), input("{}"), input("{}"), input("{:?}")]),
        vec![raw("x", 1), raw("y", 2), InputItem::Ctrl(ControlSeq::Bold(vec![])), raw("z", 3)],
    )
    .unwrap();
    let mut seen = Vec::new();
    for o in &out {
        match o {
            OutputItem::Raw((_, items)) => {
                for it in items {
                    match &it[0] {
                        Token::Ident { text, .. } => seen.push(text.clone()),
                        _ => panic!(),
                    }
                }
            }
            OutputItem::Ctrl(_) => seen.push("style".to_string()),
        }
    }
    assert_eq!(seen, vec!["x", "y", "style", "z"]);
}

#[test]
fn merge_writes_text_braces_doubled() {
    let out = merge_items(
        items(vec![text("or even {this}: "), input("{:b}"), text("!}")]),
        vec![raw("x", 1)],
    )
    .unwrap();
    assert_eq!(describe(&out), vec!["raw or even {{this}}: {:b}!}} x1"]);
    let out = merge_items(items(vec![text("{"), input("{}"), text("}")]), vec![InputItem::Ctrl(ControlSeq::Reset)]).unwrap();
    assert_eq!(describe(&out), vec!["raw {{ x0", "reset", "raw }} x0"]);
}

#[test]
fn merge_writes_read_back_as_format_strings() {
    let parts = vec![text("a {"), input("{}"), text("} b"), input("{:?}"), text("}}"), input("{}"), text("{c}")];
    let out = merge_items(items(parts), vec![raw("x", 1), InputItem::Ctrl(ControlSeq::Reset), raw("y", 2)]).unwrap();
    let mut placeholders = Vec::new();
    let mut all_text = String::new();
    for o in out {
        if let OutputItem::Raw((f, exprs)) = o {
            let lit = Token::Literal { text: format!("\"{}\"", f), span: SpanRef::CallSite };
            let back = parse_format_string(vec![lit]).unwrap();
            let mut count = 0;
            for p in back.parts {
                match p {
                    FormatPart::Input(x) => {
                        count += 1;
                        placeholders.push(x);
                    }
                    FormatPart::Text(t) => all_text.push_str(&t),
                }
            }
            assert_eq!(count, exprs.len());
        }
    }
    assert_eq!(placeholders, vec!["{}", "{}"]);
    assert_eq!(all_text, "a {} b}}{c}");
}
