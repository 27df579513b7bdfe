use vstd::prelude::*;

use crate::format::{parse_format_string, spec_parse_format_string};
use crate::text::str_eq;
use crate::token::{span_of, Delim, SpanRef, Token};
use crate::types::{
    input_views, part_views, streams, CompileError, ControlSeq, ControlView, ErrorKind,
    InputItem, InputModel, InputView, MacroInput,
};

verus! {

/// Whether `s` names one of the styling commands that take an argument.
pub open spec fn spec_is_format_control(s: Seq<char>) -> bool {
    s == "bold"@ || s == "underline"@ || s == "intense"@ || s == "fg"@ || s == "bg"@
}

/// Whether `s` names one of the styling commands `bold`, `underline`, `intense`, `fg`, `bg`.
pub fn is_format_control(s: &str) -> (res: bool)
    ensures
        res == spec_is_format_control(s@),
{
    str_eq(s, "bold") || str_eq(s, "underline") || str_eq(s, "intense") || str_eq(s, "fg")
        || str_eq(s, "bg")
}

/// Whether `t` is the punctuation `,`.
pub open spec fn is_comma(t: Token) -> bool {
    t matches Token::Punct { ch, .. } && ch == ','
}

/// The index of the first comma in `s` at or after `i`, or `s.len()` if there is none.
pub open spec fn comma_from(s: Seq<Token>, i: int) -> int
    decreases s.len() - i,
{
    if i < 0 || i >= s.len() {
        s.len() as int
    } else if is_comma(s[i]) {
        i
    } else {
        comma_from(s, i + 1)
    }
}

/// `front` followed by the items of `rest`, or the error of `rest`.
pub open spec fn then_args(
    front: Seq<Seq<Token>>,
    rest: Result<Seq<Seq<Token>>, CompileError>,
) -> Result<Seq<Seq<Token>>, CompileError> {
    match rest {
        Ok(args) => Ok(front + args),
        Err(e) => Err(e),
    }
}

/// The comma-separated arguments in `s` from position `i` on. A comma with no
/// token before it (since the start or the previous comma) is an error at that
/// comma; one trailing comma is allowed.
pub open spec fn split_args(s: Seq<Token>, i: int) -> Result<Seq<Seq<Token>>, CompileError>
    decreases s.len() - i,
{
    if i < 0 || i >= s.len() {
        Ok(Seq::empty())
    } else {
        let c = comma_from(s, i);
        if c >= s.len() {
            Ok(seq![s.subrange(i, s.len() as int)])
        } else if c <= i {
            Err(CompileError { start: span_of(s[i]), end: span_of(s[i]), kind: ErrorKind::UnexpectedComma })
        } else {
            then_args(seq![s.subrange(i, c)], split_args(s, c + 1))
        }
    }
}

/// The macro's arguments, split at the commas between them.
pub open spec fn spec_parse_tokens(s: Seq<Token>) -> Result<Seq<Seq<Token>>, CompileError> {
    split_args(s, 0)
}

proof fn lemma_comma_from(s: Seq<Token>, i: int, j: int)
    requires
        0 <= i <= j <= s.len(),
        forall|k: int| i <= k < j ==> !is_comma(s[k]),
    ensures
        comma_from(s, i) == comma_from(s, j),
    decreases j - i,
{
    if i < j {
        lemma_comma_from(s, i + 1, j);
    }
}

proof fn lemma_then_args_assoc(
    a: Seq<Seq<Token>>,
    b: Seq<Seq<Token>>,
    r: Result<Seq<Seq<Token>>, CompileError>,
)
    ensures
        then_args(a, then_args(b, r)) == then_args(a + b, r),
{
    if let Ok(q) = r {
        assert(a + (b + q) == (a + b) + q);
    }
}

/// Splits the macro's input at its top-level commas.
pub fn parse_tokens(input: Vec<Token>) -> (res: Result<Vec<Vec<Token>>, CompileError>)
    ensures
        match res {
            Ok(args) => spec_parse_tokens(input@) == Ok::<Seq<Seq<Token>>, CompileError>(streams(args@)),
            Err(e) => spec_parse_tokens(input@) == Err::<Seq<Seq<Token>>, CompileError>(e),
        },
{
    let ghost s = input@;
    let mut rest = input;
    let n = rest.len();
    let mut args: Vec<Vec<Token>> = Vec::new();
    let mut cur: Vec<Token> = Vec::new();
    let ghost mut start: int = 0;
    let mut i: usize = 0;
    while i < n
        invariant
            n == s.len(),
            s == input@,
            0 <= start <= i <= n,
            rest@ == s.subrange(i as int, n as int),
            cur@ == s.subrange(start, i as int),
            forall|k: int| start <= k < i ==> !is_comma(s[k]),
            spec_parse_tokens(s) == then_args(streams(args@), split_args(s, start)),
        decreases n - i,
    {
        assert(rest@[0] == s[i as int]);
        let tok = rest.remove(0);
        assert(rest@ == s.subrange(i + 1, n as int));
        let comma = match &tok {
            Token::Punct { ch, .. } => *ch == ',',
            _ => false,
        };
        if comma {
            proof {
                lemma_comma_from(s, start, i as int);
            }
            if cur.len() == 0 {
                let sp = tok.span();
                return Err(CompileError { start: sp, end: sp, kind: ErrorKind::UnexpectedComma });
            }
            let ghost before = streams(args@);
            let ghost seg = cur@;
            args.push(cur);
            assert(streams(args@) == before + seq![seg]);
            proof {
                lemma_then_args_assoc(before, seq![seg], split_args(s, i + 1));
            }
            cur = Vec::new();
            proof {
                start = i + 1;
            }
        } else {
            cur.push(tok);
        }
        i = i + 1;
        assert(cur@ == s.subrange(start, i as int));
    }
    proof {
        lemma_comma_from(s, start, n as int);
    }
    if cur.len() > 0 {
        let ghost before = streams(args@);
        let ghost seg = cur@;
        args.push(cur);
        assert(streams(args@) == before + seq![seg]);
    } else {
        assert(streams(args@) + Seq::<Seq<Token>>::empty() == streams(args@));
    }
    Ok(args)
}

/// The styling command that `name!(inner)` stands for, if `name` names one.
pub open spec fn control_named(name: Seq<char>, inner: Seq<Token>) -> Option<ControlView> {
    if name == "reset"@ {
        Some(ControlView::Reset)
    } else if name == "fg"@ {
        Some(ControlView::Foreground(inner))
    } else if name == "bg"@ {
        Some(ControlView::Background(inner))
    } else if name == "bold"@ {
        Some(ControlView::Bold(inner))
    } else if name == "underline"@ {
        Some(ControlView::Underline(inner))
    } else if name == "intense"@ {
        Some(ControlView::Intense(inner))
    } else {
        None
    }
}

/// Whether `t` is the punctuation `!`.
pub open spec fn is_bang(t: Token) -> bool {
    t matches Token::Punct { ch, .. } && ch == '!'
}

/// The name that a token prints as, if it prints as a single identifier: an
/// identifier, or a group with invisible delimiters around one such token.
pub open spec fn printed_name(t: Token) -> Option<Seq<char>>
    decreases t,
{
    match t {
        Token::Ident { text, .. } => Some(text@),
        Token::Group { delim, stream, .. } => if delim == Delim::Invisible && stream@.len() == 1 {
            printed_name(stream@[0])
        } else {
            None
        },
        _ => None,
    }
}

/// The name that a token prints as, if it prints as a single identifier.
pub fn token_name(t: &Token) -> (res: Option<&str>)
    ensures
        res matches Some(n) ==> printed_name(*t) == Some(n@),
        res is None ==> printed_name(*t) is None,
    decreases t,
{
    match t {
        Token::Ident { text, .. } => Some(text.as_str()),
        Token::Group { delim, stream, .. } => {
            if *delim == Delim::Invisible && stream.len() == 1 {
                token_name(&stream[0])
            } else {
                None
            }
        },
        _ => None,
    }
}

/// The styling command that the tokens `s` start with: a token printing as the
/// name of one, `!`, and a group holding its argument.
pub open spec fn leading_control(s: Seq<Token>) -> Option<ControlView> {
    if s.len() >= 3 && is_bang(s[1]) {
        match (printed_name(s[0]), s[2]) {
            (Some(name), Token::Group { stream, .. }) => control_named(name, stream@),
            _ => None,
        }
    } else {
        None
    }
}

/// What an argument after the format string is: a styling command if it
/// starts with one, else an expression to format. An empty argument is an error.
pub open spec fn spec_classify(s: Seq<Token>) -> Result<InputView, CompileError> {
    if s.len() == 0 {
        Err(CompileError { start: SpanRef::CallSite, end: SpanRef::CallSite, kind: ErrorKind::EmptyArgument })
    } else {
        match leading_control(s) {
            Some(c) => Ok(InputView::Ctrl(c)),
            None => Ok(InputView::Raw(s)),
        }
    }
}

/// The names of the styling commands are all different.
pub proof fn lemma_command_names()
    ensures
        "reset"@ != "fg"@,
        "reset"@ != "bg"@,
        "reset"@ != "bold"@,
        "reset"@ != "underline"@,
        "reset"@ != "intense"@,
        "fg"@ != "bg"@,
        "fg"@ != "bold"@,
        "fg"@ != "underline"@,
        "fg"@ != "intense"@,
        "bg"@ != "bold"@,
        "bg"@ != "underline"@,
        "bg"@ != "intense"@,
        "bold"@ != "underline"@,
        "bold"@ != "intense"@,
        "underline"@ != "intense"@,
{
    reveal_strlit("reset");
    reveal_strlit("fg");
    reveal_strlit("bg");
    reveal_strlit("bold");
    reveal_strlit("underline");
    reveal_strlit("intense");
    assert("reset"@.len() == 5);
    assert("fg"@.len() == 2);
    assert("bg"@.len() == 2);
    assert("bold"@.len() == 4);
    assert("underline"@.len() == 9);
    assert("intense"@.len() == 7);
    assert("fg"@[0] != "bg"@[0]);
}

enum Command {
    Reset,
    Fg,
    Bg,
    Bold,
    Underline,
    Intense,
}

fn command_named(name: &str) -> (res: Option<Command>)
    ensures
        res is None <==> control_named(name@, Seq::empty()) is None,
        res matches Some(Command::Reset) <==> name@ == "reset"@,
        res matches Some(Command::Fg) <==> name@ == "fg"@,
        res matches Some(Command::Bg) <==> name@ == "bg"@,
        res matches Some(Command::Bold) <==> name@ == "bold"@,
        res matches Some(Command::Underline) <==> name@ == "underline"@,
        res matches Some(Command::Intense) <==> name@ == "intense"@,
{
    proof {
        lemma_command_names();
    }
    if str_eq(name, "reset") {
        Some(Command::Reset)
    } else if is_format_control(name) {
        if str_eq(name, "fg") {
            Some(Command::Fg)
        } else if str_eq(name, "bg") {
            Some(Command::Bg)
        } else if str_eq(name, "bold") {
            Some(Command::Bold)
        } else if str_eq(name, "underline") {
            Some(Command::Underline)
        } else {
            Some(Command::Intense)
        }
    } else {
        None
    }
}

/// Tells a styling command such as `bold!(true)` from an expression to format.
pub fn classify_format_arg(input: Vec<Token>) -> (res: Result<InputItem, CompileError>)
    ensures
        match res {
            Ok(item) => spec_classify(input@) == Ok::<InputView, CompileError>(item@),
            Err(e) => spec_classify(input@) == Err::<InputView, CompileError>(e),
        },
{
    if input.len() == 0 {
        return Err(CompileError { start: SpanRef::CallSite, end: SpanRef::CallSite, kind: ErrorKind::EmptyArgument });
    }
    if input.len() >= 3 {
        let bang = match &input[1] {
            Token::Punct { ch, .. } => *ch == '!',
            _ => false,
        };
        let grouped = match &input[2] {
            Token::Group { .. } => true,
            _ => false,
        };
        let command = match token_name(&input[0]) {
            Some(name) => command_named(name),
            None => None,
        };
        if bang && grouped {
            if let Some(cmd) = command {
                let ghost s = input@;
                let mut input = input;
                let group = input.remove(2);
                match group {
                    Token::Group { stream, .. } => {
                        let c = match cmd {
                            Command::Reset => ControlSeq::Reset,
                            Command::Fg => ControlSeq::Foreground(stream),
                            Command::Bg => ControlSeq::Background(stream),
                            Command::Bold => ControlSeq::Bold(stream),
                            Command::Underline => ControlSeq::Underline(stream),
                            Command::Intense => ControlSeq::Intense(stream),
                        };
                        return Ok(InputItem::Ctrl(c));
                    },
                    _ => {
                        proof {
                            assert(false);
                        }
                        return Ok(InputItem::Raw(input));
                    },
                }
            }
        }
    }
    Ok(InputItem::Raw(input))
}

/// Whether a token prints starting with `"`: a string literal, or a group with
/// invisible delimiters whose first token does.
pub open spec fn prints_as_string(t: Token) -> bool
    decreases t,
{
    match t {
        Token::Literal { text, .. } => text@.len() > 0 && text@[0] == '"',
        Token::Group { delim, stream, .. } => delim == Delim::Invisible && stream@.len() > 0 && prints_as_string(
            stream@[0],
        ),
        _ => false,
    }
}

/// Whether a token prints starting with `"`.
pub fn token_prints_as_string(t: &Token) -> (res: bool)
    ensures
        res == prints_as_string(*t),
    decreases t,
{
    match t {
        Token::Literal { text, .. } => {
            let st = text.as_str();
            st.unicode_len() > 0 && st.get_char(0) == '"'
        },
        Token::Group { delim, stream, .. } => *delim == Delim::Invisible && stream.len() > 0
            && token_prints_as_string(&stream[0]),
        _ => false,
    }
}

/// Whether the tokens print starting with `"`, as a string literal does.
pub open spec fn writer_is_string(w: Seq<Token>) -> bool {
    w.len() > 0 && prints_as_string(w[0])
}

/// The kinds of the arguments `args`, or the first error among them.
pub open spec fn classify_all(args: Seq<Seq<Token>>) -> Result<Seq<InputView>, CompileError>
    decreases args.len(),
{
    if args.len() == 0 {
        Ok(Seq::empty())
    } else {
        match spec_classify(args[0]) {
            Err(e) => Err(e),
            Ok(v) => match classify_all(args.subrange(1, args.len() as int)) {
                Err(e) => Err(e),
                Ok(rest) => Ok(seq![v] + rest),
            },
        }
    }
}

/// What reading the whole macro input gives: the writer, the format string and
/// the remaining arguments, or the first error found.
pub open spec fn spec_parse_input(s: Seq<Token>) -> Result<InputModel, CompileError> {
    match spec_parse_tokens(s) {
        Err(e) => Err(e),
        Ok(args) => if args.len() == 0 {
            Err(CompileError { start: SpanRef::CallSite, end: SpanRef::CallSite, kind: ErrorKind::NoArguments })
        } else if args.len() == 1 {
            let w = args[0];
            Err(CompileError {
                start: span_of(w[0]),
                end: span_of(w[w.len() - 1]),
                kind: if writer_is_string(w) { ErrorKind::WriterIsString } else { ErrorKind::MissingFormatString },
            })
        } else {
            match spec_parse_format_string(args[1]) {
                Err(e) => Err(e),
                Ok((span, parts)) => match classify_all(args.subrange(2, args.len() as int)) {
                    Err(e) => Err(e),
                    Ok(rest) => Ok(InputModel { writer: args[0], span, parts, rest }),
                },
            }
        },
    }
}

/// Every argument that the split gives holds at least one token.
pub proof fn lemma_args_nonempty(s: Seq<Token>, i: int)
    ensures
        split_args(s, i) matches Ok(args) ==> forall|k: int| 0 <= k < args.len() ==> #[trigger] args[k].len() > 0,
    decreases s.len() - i,
{
    if 0 <= i < s.len() {
        let c = comma_from(s, i);
        if c < s.len() && c > i {
            lemma_args_nonempty(s, c + 1);
            if let Ok(rest) = split_args(s, c + 1) {
                let args = seq![s.subrange(i, c)] + rest;
                assert forall|k: int| 0 <= k < args.len() implies #[trigger] args[k].len() > 0 by {
                    if k > 0 {
                        assert(args[k] == rest[k - 1]);
                    }
                }
            }
        }
    }
}

/// Reads the macro's input: a writer, a format string literal, and the
/// arguments that it formats or the styling commands between them.
pub fn parse_input(input: Vec<Token>) -> (res: Result<MacroInput, CompileError>)
    ensures
        match res {
            Ok(mi) => spec_parse_input(input@) == Ok::<InputModel, CompileError>(mi@),
            Err(e) => spec_parse_input(input@) == Err::<InputModel, CompileError>(e),
        },
{
    let ghost s = input@;
    let mut items = match parse_tokens(input) {
        Ok(a) => a,
        Err(e) => return Err(e),
    };
    let ghost args = streams(items@);
    proof {
        lemma_args_nonempty(s, 0);
    }
    if items.len() == 0 {
        return Err(CompileError { start: SpanRef::CallSite, end: SpanRef::CallSite, kind: ErrorKind::NoArguments });
    }
    assert(items@[0]@ == args[0]);
    let writer = items.remove(0);
    if items.len() == 0 {
        let first = writer[0].span();
        let last = writer[writer.len() - 1].span();
        let is_string = token_prints_as_string(&writer[0]);
        let kind = if is_string { ErrorKind::WriterIsString } else { ErrorKind::MissingFormatString };
        return Err(CompileError { start: first, end: last, kind });
    }
    assert(items@[0]@ == args[1]);
    let format_tokens = items.remove(0);
    let format = match parse_format_string(format_tokens) {
        Ok(f) => f,
        Err(e) => return Err(e),
    };
    let n = items.len();
    let mut rest: Vec<InputItem> = Vec::new();
    let mut i: usize = 0;
    assert(streams(items@) == args.subrange(2, args.len() as int));
    assert(spec_parse_input(s) == match classify_all(args.subrange(2, args.len() as int)) {
        Err(e) => Err(e),
        Ok(r) => Ok::<InputModel, CompileError>(InputModel { writer: writer@, span: format.span, parts: part_views(format.parts@), rest: r }),
    });
    while i < n
        invariant
            s == input@,
            spec_parse_input(s) == match classify_all(args.subrange(2, args.len() as int)) {
                Err(e) => Err(e),
                Ok(r) => Ok::<InputModel, CompileError>(InputModel { writer: writer@, span: format.span, parts: part_views(format.parts@), rest: r }),
            },
            n + 2 == args.len(),
            i <= n,
            streams(items@) == args.subrange(i + 2, args.len() as int),
            classify_all(args.subrange(2, args.len() as int)) == match classify_all(args.subrange(i + 2, args.len() as int)) {
                Err(e) => Err(e),
                Ok(tail) => Ok::<Seq<InputView>, CompileError>(input_views(rest@) + tail),
            },
        decreases n - i,
    {
        let ghost tail = args.subrange(i + 2, args.len() as int);
        assert(items@[0]@ == tail[0]);
        let arg = items.remove(0);
        assert(tail.subrange(1, tail.len() as int) == args.subrange(i + 3, args.len() as int));
        assert(streams(items@) == args.subrange(i + 3, args.len() as int));
        let item = match classify_format_arg(arg) {
            Ok(it) => it,
            Err(e) => return Err(e),
        };
        let ghost before = input_views(rest@);
        rest.push(item);
        assert(input_views(rest@) == before.push(item@));
        proof {
            if let Ok(t) = classify_all(args.subrange(i + 3, args.len() as int)) {
                assert(before + (seq![item@] + t) == input_views(rest@) + t);
            }
        }
        i = i + 1;
    }
    assert(args.subrange(n + 2, args.len() as int) == Seq::<Seq<Token>>::empty());
    assert(input_views(rest@) + Seq::<InputView>::empty() == input_views(rest@));
    Ok(MacroInput { writer, format, rest })
}

} // verus!
