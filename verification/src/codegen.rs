use vstd::prelude::*;

use crate::text::{owned, push_char};
use crate::token::{
    extend, m_group, m_ident, m_punct, models, token_model, Delim, Spacing,
    SpanRef, Token, TokenModel,
};
use crate::types::{spec_message, streams, CompileError, ControlSeq, ControlView, OutputItem, OutputView, RawOutput};

verus! {

/// An empty group at the call site.
fn empty_group(out: &mut Vec<Token>, delim: Delim)
    ensures
        models(final(out)@) == models(old(out)@).push(m_group(delim, Seq::empty())),
{
    let v: Vec<Token> = Vec::new();
    assert(models(v@) =~= Seq::<TokenModel>::empty());
    push_group(out, delim, v);
}

fn push_ident(out: &mut Vec<Token>, text: &str)
    ensures
        models(final(out)@) == models(old(out)@).push(m_ident(text@)),
{
    out.push(Token::ident(text));
    assert(models(out@) =~= models(old(out)@).push(m_ident(text@)));
}

fn push_punct(out: &mut Vec<Token>, ch: char, spacing: Spacing)
    ensures
        models(final(out)@) == models(old(out)@).push(m_punct(ch, spacing)),
{
    out.push(Token::punct(ch, spacing));
    assert(models(out@) =~= models(old(out)@).push(m_punct(ch, spacing)));
}

fn push_group(out: &mut Vec<Token>, delim: Delim, stream: Vec<Token>)
    ensures
        models(final(out)@) == models(old(out)@).push(m_group(delim, models(stream@))),
{
    let ghost inner = models(stream@);
    out.push(Token::group(delim, stream));
    assert(models(out@) =~= models(old(out)@).push(m_group(delim, inner)));
}


/// `macro_rules! colored_impl { () => { body } }`
pub open spec fn spec_macro_wrapper(body: Seq<TokenModel>) -> Seq<TokenModel> {
    seq![
        m_ident("macro_rules"@),
        m_punct('!', Spacing::Alone),
        m_ident("colored_impl"@),
        m_group(
            Delim::Brace,
            seq![
                m_group(Delim::Parenthesis, Seq::empty()),
                m_punct('=', Spacing::Joint),
                m_punct('>', Spacing::Alone),
                m_group(Delim::Brace, body),
            ],
        ),
    ]
}

/// Wraps the generated code into a macro with no arguments, `colored_impl!()`.
pub fn macro_wrapper(body: Vec<Token>) -> (res: Vec<Token>)
    ensures
        models(res@) == spec_macro_wrapper(models(body@)),
{
    let ghost b = models(body@);
    let mut arms: Vec<Token> = Vec::new();
    empty_group(&mut arms, Delim::Parenthesis);
    push_punct(&mut arms, '=', Spacing::Joint);
    push_punct(&mut arms, '>', Spacing::Alone);
    push_group(&mut arms, Delim::Brace, body);
    assert(models(arms@) =~= seq![
        m_group(Delim::Parenthesis, Seq::empty()),
        m_punct('=', Spacing::Joint),
        m_punct('>', Spacing::Alone),
        m_group(Delim::Brace, b),
    ]);
    let mut res: Vec<Token> = Vec::new();
    push_ident(&mut res, "macro_rules");
    push_punct(&mut res, '!', Spacing::Alone);
    push_ident(&mut res, "colored_impl");
    push_group(&mut res, Delim::Brace, arms);
    assert(models(res@) =~= spec_macro_wrapper(b));
    res
}

/// The text of a string literal holding `s`, quotes included.
pub open spec fn quoted(s: Seq<char>) -> Seq<char> {
    seq!['"'] + s + seq!['"']
}

/// `compile_error!("message")`, pointing at where the error starts.
pub open spec fn spec_report_error(e: CompileError) -> Seq<TokenModel> {
    seq![
        TokenModel::Ident("compile_error"@, e.start),
        m_punct('!', Spacing::Alone),
        m_group(Delim::Parenthesis, seq![TokenModel::Literal(quoted(spec_message(e.kind)), e.start)]),
    ]
}

/// The characters of `s` between two double quotes.
fn quote(s: &str) -> (res: String)
    ensures
        res@ == quoted(s@),
{
    let mut res = String::new();
    push_char(&mut res, '"');
    res.append(s);
    push_char(&mut res, '"');
    assert(res@ == quoted(s@));
    res
}

/// Reports an error to the macro's user, at the place where it starts.
pub fn report_error(error: CompileError) -> (res: Vec<Token>)
    ensures
        models(res@) == spec_report_error(error),
{
    let lit = Token::Literal { text: quote(error.kind.message()), span: error.start };
    let ghost lm = token_model(lit);
    let mut inner: Vec<Token> = Vec::new();
    inner.push(lit);
    assert(models(inner@) =~= seq![lm]);
    let name = Token::Ident { text: owned("compile_error"), span: error.start };
    let ghost nm = token_model(name);
    let mut res: Vec<Token> = Vec::new();
    res.push(name);
    assert(models(res@) =~= seq![nm]);
    push_punct(&mut res, '!', Spacing::Alone);
    push_group(&mut res, Delim::Parenthesis, inner);
    assert(models(res@) =~= spec_report_error(error));
    res
}

/// `let __writer__: &mut _ = $crate::guard(&mut writer);`
pub open spec fn spec_guard(writer: Seq<TokenModel>) -> Seq<TokenModel> {
    seq![
        m_ident("let"@),
        m_ident("__writer__"@),
        m_punct(':', Spacing::Alone),
        m_punct('&', Spacing::Alone),
        m_ident("mut"@),
        m_ident("_"@),
        m_punct('=', Spacing::Alone),
        m_punct('$', Spacing::Alone),
        m_ident("crate"@),
        m_punct(':', Spacing::Joint),
        m_punct(':', Spacing::Alone),
        m_ident("guard"@),
        m_group(Delim::Parenthesis, seq![m_punct('&', Spacing::Alone), m_ident("mut"@)] + writer),
        m_punct(';', Spacing::Alone),
    ]
}

/// Binds the writer, checked to be a colored writer, to `__writer__`.
pub fn guard(writer: Vec<Token>) -> (res: Vec<Token>)
    ensures
        models(res@) == spec_guard(models(writer@)),
{
    let mut arg: Vec<Token> = Vec::new();
    push_punct(&mut arg, '&', Spacing::Alone);
    push_ident(&mut arg, "mut");
    let ghost w = models(writer@);
    extend(&mut arg, writer);
    assert(models(arg@) =~= seq![m_punct('&', Spacing::Alone), m_ident("mut"@)] + w);
    let mut res: Vec<Token> = Vec::new();
    push_ident(&mut res, "let");
    push_ident(&mut res, "__writer__");
    push_punct(&mut res, ':', Spacing::Alone);
    push_punct(&mut res, '&', Spacing::Alone);
    push_ident(&mut res, "mut");
    push_ident(&mut res, "_");
    push_punct(&mut res, '=', Spacing::Alone);
    push_punct(&mut res, '$', Spacing::Alone);
    push_ident(&mut res, "crate");
    push_punct(&mut res, ':', Spacing::Joint);
    push_punct(&mut res, ':', Spacing::Alone);
    push_ident(&mut res, "guard");
    push_group(&mut res, Delim::Parenthesis, arg);
    push_punct(&mut res, ';', Spacing::Alone);
    assert(models(res@) =~= spec_guard(models(writer@)));
    res
}

/// `let mut __spec__ = termcolor::ColorSpec::new();`
pub open spec fn spec_spec_init() -> Seq<TokenModel> {
    seq![
        m_ident("let"@),
        m_ident("mut"@),
        m_ident("__spec__"@),
        m_punct('=', Spacing::Alone),
        m_ident("termcolor"@),
        m_punct(':', Spacing::Joint),
        m_punct(':', Spacing::Alone),
        m_ident("ColorSpec"@),
        m_punct(':', Spacing::Joint),
        m_punct(':', Spacing::Alone),
        m_ident("new"@),
        m_group(Delim::Parenthesis, Seq::empty()),
        m_punct(';', Spacing::Alone),
    ]
}

/// Creates the style, `__spec__`, that the styling commands change.
pub fn spec_init() -> (res: Vec<Token>)
    ensures
        models(res@) == spec_spec_init(),
{
    let mut res: Vec<Token> = Vec::new();
    push_ident(&mut res, "let");
    push_ident(&mut res, "mut");
    push_ident(&mut res, "__spec__");
    push_punct(&mut res, '=', Spacing::Alone);
    push_ident(&mut res, "termcolor");
    push_punct(&mut res, ':', Spacing::Joint);
    push_punct(&mut res, ':', Spacing::Alone);
    push_ident(&mut res, "ColorSpec");
    push_punct(&mut res, ':', Spacing::Joint);
    push_punct(&mut res, ':', Spacing::Alone);
    push_ident(&mut res, "new");
    empty_group(&mut res, Delim::Parenthesis);
    push_punct(&mut res, ';', Spacing::Alone);
    assert(models(res@) =~= spec_spec_init());
    res
}

/// The change of style that a styling command makes: `clear()` for `reset!()`,
/// else `set_fg(..)`, `set_bg(..)`, `set_bold(..)`, `set_underline(..)` or
/// `set_intense(..)` with the command's argument.
pub open spec fn spec_change(seq: ControlView) -> Seq<TokenModel> {
    let (name, inner) = match seq {
        ControlView::Reset => ("clear"@, Seq::<Token>::empty()),
        ControlView::Foreground(t) => ("set_fg"@, t),
        ControlView::Background(t) => ("set_bg"@, t),
        ControlView::Bold(t) => ("set_bold"@, t),
        ControlView::Underline(t) => ("set_underline"@, t),
        ControlView::Intense(t) => ("set_intense"@, t),
    };
    seq![m_ident(name), m_group(Delim::Parenthesis, models(inner)), m_punct(';', Spacing::Alone)]
}

/// `__spec__.<change>; __writer__.set_color(&__spec__)?;`
pub open spec fn spec_control(seq: ControlView) -> Seq<TokenModel> {
    seq![m_ident("__spec__"@), m_punct('.', Spacing::Alone)] + spec_change(seq) + seq![
        m_ident("__writer__"@),
        m_punct('.', Spacing::Alone),
        m_ident("set_color"@),
        m_group(Delim::Parenthesis, seq![m_punct('&', Spacing::Alone), m_ident("__spec__"@)]),
        m_punct('?', Spacing::Alone),
        m_punct(';', Spacing::Alone),
    ]
}

/// Changes the style as the command says and applies it to the writer.
pub fn control(seq: ControlSeq) -> (res: Vec<Token>)
    ensures
        models(res@) == spec_control(seq@),
{
    let ghost sv = seq@;
    let mut res: Vec<Token> = Vec::new();
    push_ident(&mut res, "__spec__");
    push_punct(&mut res, '.', Spacing::Alone);
    let ghost head = models(res@);
    let (name, inner): (&str, Vec<Token>) = match seq {
        ControlSeq::Reset => ("clear", Vec::new()),
        ControlSeq::Foreground(t) => ("set_fg", t),
        ControlSeq::Background(t) => ("set_bg", t),
        ControlSeq::Bold(t) => ("set_bold", t),
        ControlSeq::Underline(t) => ("set_underline", t),
        ControlSeq::Intense(t) => ("set_intense", t),
    };
    push_ident(&mut res, name);
    push_group(&mut res, Delim::Parenthesis, inner);
    push_punct(&mut res, ';', Spacing::Alone);
    assert(models(res@) =~= head + spec_change(sv));
    let ghost mid = models(res@);
    let mut arg: Vec<Token> = Vec::new();
    push_punct(&mut arg, '&', Spacing::Alone);
    push_ident(&mut arg, "__spec__");
    assert(models(arg@) =~= seq![m_punct('&', Spacing::Alone), m_ident("__spec__"@)]);
    push_ident(&mut res, "__writer__");
    push_punct(&mut res, '.', Spacing::Alone);
    push_ident(&mut res, "set_color");
    push_group(&mut res, Delim::Parenthesis, arg);
    push_punct(&mut res, '?', Spacing::Alone);
    push_punct(&mut res, ';', Spacing::Alone);
    assert(models(res@) =~= spec_control(sv));
    res
}

/// `, expr` for each of the expressions, in order.
pub open spec fn comma_args(items: Seq<Seq<Token>>) -> Seq<TokenModel>
    decreases items.len(),
{
    if items.len() == 0 {
        Seq::empty()
    } else {
        comma_args(items.subrange(0, items.len() - 1)) + seq![m_punct(',', Spacing::Alone)] + models(
            items[items.len() - 1],
        )
    }
}

/// `write!(__writer__, "format", expr, ..)?;`
pub open spec fn spec_raw(fmt: Seq<char>, items: Seq<Seq<Token>>) -> Seq<TokenModel> {
    seq![
        m_ident("write"@),
        m_punct('!', Spacing::Alone),
        m_group(
            Delim::Parenthesis,
            seq![
                m_ident("__writer__"@),
                m_punct(',', Spacing::Alone),
                TokenModel::Literal(quoted(fmt), SpanRef::CallSite),
            ] + comma_args(items),
        ),
        m_punct('?', Spacing::Alone),
        m_punct(';', Spacing::Alone),
    ]
}

/// Writes the expressions with their format string to the writer.
pub fn raw(entry: RawOutput) -> (res: Result<Vec<Token>, CompileError>)
    ensures
        res matches Ok(t) && models(t@) == spec_raw(entry.0@, streams(entry.1@)),
{
    let (fmt, items) = entry;
    let ghost all = streams(items@);
    let mut args: Vec<Token> = Vec::new();
    push_ident(&mut args, "__writer__");
    push_punct(&mut args, ',', Spacing::Alone);
    let ghost head = models(args@);
    args.push(Token::Literal { text: quote(fmt.as_str()), span: SpanRef::CallSite });
    let ghost lit = TokenModel::Literal(quoted(fmt@), SpanRef::CallSite);
    assert(models(args@) =~= head.push(lit));
    let ghost start = models(args@);
    let mut rest = items;
    let n = rest.len();
    let mut i: usize = 0;
    assert(all.subrange(0, n as int) == all);
    assert(all.subrange(0, 0) == Seq::<Seq<Token>>::empty());
    while i < n
        invariant
            n == all.len(),
            i <= n,
            streams(rest@) == all.subrange(i as int, n as int),
            models(args@) == start + comma_args(all.subrange(0, i as int)),
        decreases n - i,
    {
        let ghost before = streams(rest@);
        assert(before.len() == n - i);
        assert(before[0] == rest@[0]@);
        let item = rest.remove(0);
        assert(streams(rest@) =~= before.subrange(1, before.len() as int));
        assert(streams(rest@) == all.subrange(i + 1, n as int));
        push_punct(&mut args, ',', Spacing::Alone);
        extend(&mut args, item);
        proof {
            let pre = all.subrange(0, i + 1);
            assert(pre.subrange(0, pre.len() - 1) == all.subrange(0, i as int));
            assert(models(args@) =~= start + comma_args(pre));
        }
        i = i + 1;
    }
    assert(all.subrange(0, n as int) == all);
    assert(start =~= seq![
        m_ident("__writer__"@),
        m_punct(',', Spacing::Alone),
        TokenModel::Literal(quoted(fmt@), SpanRef::CallSite),
    ]);
    assert(models(args@) == seq![
        m_ident("__writer__"@),
        m_punct(',', Spacing::Alone),
        TokenModel::Literal(quoted(fmt@), SpanRef::CallSite),
    ] + comma_args(all));
    let mut res: Vec<Token> = Vec::new();
    push_ident(&mut res, "write");
    push_punct(&mut res, '!', Spacing::Alone);
    push_group(&mut res, Delim::Parenthesis, args);
    push_punct(&mut res, '?', Spacing::Alone);
    push_punct(&mut res, ';', Spacing::Alone);
    assert(models(res@) =~= spec_raw(fmt@, all));
    Ok(res)
}

/// The code for one step of the output.
pub open spec fn spec_output(entry: OutputView) -> Seq<TokenModel> {
    match entry {
        OutputView::Ctrl(c) => spec_control(c),
        OutputView::Raw(fmt, items) => spec_raw(fmt, items),
    }
}

/// The code for one step: a write, or a change of style.
pub fn output(entry: OutputItem) -> (res: Result<Vec<Token>, CompileError>)
    ensures
        res matches Ok(t) && models(t@) == spec_output(entry@),
{
    match entry {
        OutputItem::Ctrl(seq) => Ok(control(seq)),
        OutputItem::Raw(entry) => raw(entry),
    }
}

/// `std::io::Result<()>`
pub open spec fn spec_io_result() -> Seq<TokenModel> {
    seq![
        m_ident("std"@),
        m_punct(':', Spacing::Joint),
        m_punct(':', Spacing::Alone),
        m_ident("io"@),
        m_punct(':', Spacing::Joint),
        m_punct(':', Spacing::Alone),
        m_ident("Result"@),
        m_punct('<', Spacing::Alone),
        m_group(Delim::Parenthesis, Seq::empty()),
        m_punct('>', Spacing::Alone),
    ]
}

/// `{ use std::io::Write as _; use termcolor::WriteColor as _;
///    (|| -> std::io::Result<()> { body Ok(()) })() }`
pub open spec fn spec_closure_wrapper(body: Seq<TokenModel>) -> Seq<TokenModel> {
    seq![
        m_group(
            Delim::Brace,
            seq![
                m_ident("use"@),
                m_ident("std"@),
                m_punct(':', Spacing::Joint),
                m_punct(':', Spacing::Alone),
                m_ident("io"@),
                m_punct(':', Spacing::Joint),
                m_punct(':', Spacing::Alone),
                m_ident("Write"@),
                m_ident("as"@),
                m_ident("_"@),
                m_punct(';', Spacing::Alone),
                m_ident("use"@),
                m_ident("termcolor"@),
                m_punct(':', Spacing::Joint),
                m_punct(':', Spacing::Alone),
                m_ident("WriteColor"@),
                m_ident("as"@),
                m_ident("_"@),
                m_punct(';', Spacing::Alone),
                m_group(
                    Delim::Parenthesis,
                    seq![
                        m_punct('|', Spacing::Joint),
                        m_punct('|', Spacing::Alone),
                        m_punct('-', Spacing::Joint),
                        m_punct('>', Spacing::Alone),
                    ] + spec_io_result() + seq![
                        m_group(
                            Delim::Brace,
                            body + seq![
                                m_ident("Ok"@),
                                m_group(Delim::Parenthesis, seq![m_group(Delim::Parenthesis, Seq::empty())]),
                            ],
                        ),
                    ],
                ),
                m_group(Delim::Parenthesis, Seq::empty()),
            ],
        ),
    ]
}

fn push_path_sep(out: &mut Vec<Token>)
    ensures
        models(final(out)@) == models(old(out)@) + seq![m_punct(':', Spacing::Joint), m_punct(':', Spacing::Alone)],
{
    push_punct(out, ':', Spacing::Joint);
    push_punct(out, ':', Spacing::Alone);
    assert(models(out@) =~= models(old(out)@) + seq![m_punct(':', Spacing::Joint), m_punct(':', Spacing::Alone)]);
}

/// Puts the body in a closure that is called at once, so that every I/O error
/// that `?` meets in it leaves the closure and is what the macro yields, with
/// the traits that the body calls in scope.
pub fn closure_wrapper(body: Vec<Token>) -> (res: Vec<Token>)
    ensures
        models(res@) == spec_closure_wrapper(models(body@)),
{
    let ghost b = models(body@);
    let mut inner = body;
    push_ident(&mut inner, "Ok");
    let mut unit: Vec<Token> = Vec::new();
    empty_group(&mut unit, Delim::Parenthesis);
    assert(models(unit@) =~= seq![m_group(Delim::Parenthesis, Seq::empty())]);
    push_group(&mut inner, Delim::Parenthesis, unit);
    let ghost inner_m = models(inner@);
    assert(inner_m =~= b + seq![
        m_ident("Ok"@),
        m_group(Delim::Parenthesis, seq![m_group(Delim::Parenthesis, Seq::empty())]),
    ]);

    let mut closure: Vec<Token> = Vec::new();
    push_punct(&mut closure, '|', Spacing::Joint);
    push_punct(&mut closure, '|', Spacing::Alone);
    push_punct(&mut closure, '-', Spacing::Joint);
    push_punct(&mut closure, '>', Spacing::Alone);
    push_ident(&mut closure, "std");
    push_path_sep(&mut closure);
    push_ident(&mut closure, "io");
    push_path_sep(&mut closure);
    push_ident(&mut closure, "Result");
    push_punct(&mut closure, '<', Spacing::Alone);
    empty_group(&mut closure, Delim::Parenthesis);
    push_punct(&mut closure, '>', Spacing::Alone);
    push_group(&mut closure, Delim::Brace, inner);
    let ghost closure_m = models(closure@);
    assert(closure_m =~= seq![
        m_punct('|', Spacing::Joint),
        m_punct('|', Spacing::Alone),
        m_punct('-', Spacing::Joint),
        m_punct('>', Spacing::Alone),
    ] + spec_io_result() + seq![m_group(Delim::Brace, inner_m)]);

    let mut block: Vec<Token> = Vec::new();
    push_ident(&mut block, "use");
    push_ident(&mut block, "std");
    push_path_sep(&mut block);
    push_ident(&mut block, "io");
    push_path_sep(&mut block);
    push_ident(&mut block, "Write");
    push_ident(&mut block, "as");
    push_ident(&mut block, "_");
    push_punct(&mut block, ';', Spacing::Alone);
    push_ident(&mut block, "use");
    push_ident(&mut block, "termcolor");
    push_path_sep(&mut block);
    push_ident(&mut block, "WriteColor");
    push_ident(&mut block, "as");
    push_ident(&mut block, "_");
    push_punct(&mut block, ';', Spacing::Alone);
    push_group(&mut block, Delim::Parenthesis, closure);
    empty_group(&mut block, Delim::Parenthesis);
    assert(models(block@) =~= seq![
        m_ident("use"@),
        m_ident("std"@),
        m_punct(':', Spacing::Joint),
        m_punct(':', Spacing::Alone),
        m_ident("io"@),
        m_punct(':', Spacing::Joint),
        m_punct(':', Spacing::Alone),
        m_ident("Write"@),
        m_ident("as"@),
        m_ident("_"@),
        m_punct(';', Spacing::Alone),
        m_ident("use"@),
        m_ident("termcolor"@),
        m_punct(':', Spacing::Joint),
        m_punct(':', Spacing::Alone),
        m_ident("WriteColor"@),
        m_ident("as"@),
        m_ident("_"@),
        m_punct(';', Spacing::Alone),
        m_group(Delim::Parenthesis, closure_m),
        m_group(Delim::Parenthesis, Seq::empty()),
    ]);
    let mut res: Vec<Token> = Vec::new();
    push_group(&mut res, Delim::Brace, block);
    assert(models(res@) =~= spec_closure_wrapper(b));
    res
}

} // verus!
