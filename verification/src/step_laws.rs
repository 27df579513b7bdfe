use vstd::prelude::*;
use vstd::seq_lib::lemma_flatten_concat;

use crate::codegen::{comma_args, spec_control, spec_guard, spec_output, spec_raw, spec_spec_init};
use crate::expand::{spec_body, spec_outputs};
use crate::format::spec_parse_format_string;
use crate::merge::spec_merge;
use crate::parse::{classify_all, is_bang, lemma_args_nonempty, spec_classify, spec_parse_input, spec_parse_tokens};
use crate::token::{m_group, m_ident, m_punct, models, Delim, Spacing, Token, TokenModel};
use crate::types::{spec_message, CompileError, ControlView, InputView, OutputView};

verus! {

/// Each argument after the format string is classified on its own: the
/// arguments read are exactly the classifications of the comma-separated
/// pieces after the writer and the format string, one for one, in order.
pub proof fn law_arguments_classified_each(s: Seq<Token>)
    requires
        spec_parse_input(s) is Ok,
    ensures
        spec_parse_tokens(s) is Ok,
        spec_parse_tokens(s)->Ok_0.len() >= 2,
        spec_parse_input(s)->Ok_0.writer == spec_parse_tokens(s)->Ok_0[0],
        spec_parse_format_string(spec_parse_tokens(s)->Ok_0[1]) == Ok::<(crate::token::SpanRef, Seq<crate::types::PartView>), crate::types::CompileError>(
            (spec_parse_input(s)->Ok_0.span, spec_parse_input(s)->Ok_0.parts),
        ),
        spec_parse_input(s)->Ok_0.rest.len() == spec_parse_tokens(s)->Ok_0.len() - 2,
        forall|k: int|
            0 <= k < spec_parse_input(s)->Ok_0.rest.len() ==> spec_classify(#[trigger] spec_parse_tokens(s)->Ok_0[k + 2])
                == Ok::<InputView, crate::types::CompileError>(spec_parse_input(s)->Ok_0.rest[k]),
{
    let args = spec_parse_tokens(s)->Ok_0;
    let tail = args.subrange(2, args.len() as int);
    lemma_classify_all(tail);
    assert forall|k: int| 0 <= k < spec_parse_input(s)->Ok_0.rest.len() implies spec_classify(
        #[trigger] args[k + 2],
    ) == Ok::<InputView, crate::types::CompileError>(spec_parse_input(s)->Ok_0.rest[k]) by {
        assert(tail[k] == args[k + 2]);
    }
}

proof fn lemma_classify_all(a: Seq<Seq<Token>>)
    ensures
        classify_all(a) is Ok ==> classify_all(a)->Ok_0.len() == a.len() && forall|k: int|
            0 <= k < a.len() ==> spec_classify(#[trigger] a[k]) == Ok::<InputView, crate::types::CompileError>(
                classify_all(a)->Ok_0[k],
            ),
    decreases a.len(),
{
    if a.len() > 0 {
        let r = a.subrange(1, a.len() as int);
        lemma_classify_all(r);
        if classify_all(a) is Ok {
            let v = spec_classify(a[0])->Ok_0;
            let rest = classify_all(r)->Ok_0;
            assert(classify_all(a)->Ok_0 == seq![v] + rest);
            assert forall|k: int| 0 <= k < a.len() implies spec_classify(#[trigger] a[k])
                == Ok::<InputView, crate::types::CompileError>(classify_all(a)->Ok_0[k]) by {
                if k > 0 {
                    assert(a[k] == r[k - 1]);
                }
            }
        }
    }
}

/// No argument after the format string makes reading fail: reading the
/// macro input succeeds exactly when the input splits at its commas into at
/// least a writer and a format string, and the format string reads.
pub proof fn law_arguments_never_refused(s: Seq<Token>)
    ensures
        spec_parse_input(s) is Ok <==> (spec_parse_tokens(s) is Ok && spec_parse_tokens(s)->Ok_0.len() >= 2
            && spec_parse_format_string(spec_parse_tokens(s)->Ok_0[1]) is Ok),
{
    lemma_args_nonempty(s, 0);
    if spec_parse_tokens(s) is Ok && spec_parse_tokens(s)->Ok_0.len() >= 2 {
        let args = spec_parse_tokens(s)->Ok_0;
        let tail = args.subrange(2, args.len() as int);
        assert forall|k: int| 0 <= k < tail.len() implies #[trigger] tail[k].len() > 0 by {
            assert(tail[k] == args[k + 2]);
        }
        lemma_classify_nonempty(tail);
    }
}

proof fn lemma_classify_nonempty(a: Seq<Seq<Token>>)
    requires
        forall|k: int| 0 <= k < a.len() ==> #[trigger] a[k].len() > 0,
    ensures
        classify_all(a) is Ok,
    decreases a.len(),
{
    if a.len() > 0 {
        let r = a.subrange(1, a.len() as int);
        assert forall|k: int| 0 <= k < r.len() implies #[trigger] r[k].len() > 0 by {
            assert(r[k] == a[k + 1]);
        }
        assert(a[0].len() > 0);
        lemma_classify_nonempty(r);
    }
}

/// The name a styling command is written with.
pub open spec fn command_name(c: ControlView) -> Seq<char> {
    match c {
        ControlView::Foreground(_) => "fg"@,
        ControlView::Background(_) => "bg"@,
        ControlView::Bold(_) => "bold"@,
        ControlView::Underline(_) => "underline"@,
        ControlView::Intense(_) => "intense"@,
        ControlView::Reset => "reset"@,
    }
}

/// The tokens a styling command hands to its setter.
pub open spec fn command_arg(c: ControlView) -> Seq<Token> {
    match c {
        ControlView::Foreground(t) => t,
        ControlView::Background(t) => t,
        ControlView::Bold(t) => t,
        ControlView::Underline(t) => t,
        ControlView::Intense(t) => t,
        ControlView::Reset => Seq::empty(),
    }
}

/// Whether `n` is the name of a styling command.
pub open spec fn is_command_name(n: Seq<char>) -> bool {
    n == "reset"@ || n == "fg"@ || n == "bg"@ || n == "bold"@ || n == "underline"@ || n == "intense"@
}

/// A styling command is classified by the name it is written with: `name!(inner)`
/// with `name` one of `fg`, `bg`, `bold`, `underline`, `intense`, `reset` is the
/// command of that name, taking `inner` (which `reset!` ignores); any other
/// name leaves the argument an expression.
pub proof fn law_command_by_its_name(s: Seq<Token>, text: String, span: crate::token::SpanRef)
    requires
        s.len() >= 3,
        s[0] == (Token::Ident { text, span }),
        is_bang(s[1]),
        s[2] is Group,
    ensures
        is_command_name(text@) ==> (spec_classify(s) matches Ok(InputView::Ctrl(c)) && command_name(c) == text@
            && (c !is Reset ==> command_arg(c) == s[2]->stream@)),
        !is_command_name(text@) ==> spec_classify(s) == Ok::<InputView, crate::types::CompileError>(InputView::Raw(s)),
{
    crate::parse::lemma_command_names();
}

/// The text of the setter that a styling command calls: `clear` for `reset!`,
/// `set_` and the command's name for the others.
pub open spec fn setter_name(c: ControlView) -> Seq<char> {
    if c is Reset {
        "clear"@
    } else {
        "set_"@ + command_name(c)
    }
}

/// `__writer__.set_color(&__spec__)?;`
pub open spec fn apply_style() -> Seq<TokenModel> {
    seq![
        m_ident("__writer__"@),
        m_punct('.', Spacing::Alone),
        m_ident("set_color"@),
        m_group(Delim::Parenthesis, seq![m_punct('&', Spacing::Alone), m_ident("__spec__"@)]),
        m_punct('?', Spacing::Alone),
        m_punct(';', Spacing::Alone),
    ]
}

/// Every styling command changes the style by its own setter, with the
/// argument the caller wrote, and then applies the style to the writer: the
/// code is `__spec__.<setter>(<arg>);` followed by `__writer__.set_color(&__spec__)?;`,
/// for all six kinds alike.
pub proof fn law_control_sets_then_applies(c: ControlView)
    ensures
        spec_control(c) == seq![m_ident("__spec__"@), m_punct('.', Spacing::Alone)] + seq![
            m_ident(setter_name(c)),
            m_group(Delim::Parenthesis, models(command_arg(c))),
            m_punct(';', Spacing::Alone),
        ] + apply_style(),
{
    reveal_strlit("set_");
    reveal_strlit("fg");
    reveal_strlit("bg");
    reveal_strlit("bold");
    reveal_strlit("underline");
    reveal_strlit("intense");
    reveal_strlit("set_fg");
    reveal_strlit("set_bg");
    reveal_strlit("set_bold");
    reveal_strlit("set_underline");
    reveal_strlit("set_intense");
    assert("set_"@.len() == 4);
    assert("fg"@.len() == 2);
    assert("bg"@.len() == 2);
    assert("bold"@.len() == 4);
    assert("underline"@.len() == 9);
    assert("intense"@.len() == 7);
    assert("set_fg"@.len() == 6);
    assert("set_bg"@.len() == 6);
    assert("set_bold"@.len() == 8);
    assert("set_underline"@.len() == 13);
    assert("set_intense"@.len() == 11);
    assert("set_"@ + "fg"@ =~= "set_fg"@);
    assert("set_"@ + "bg"@ =~= "set_bg"@);
    assert("set_"@ + "bold"@ =~= "set_bold"@);
    assert("set_"@ + "underline"@ =~= "set_underline"@);
    assert("set_"@ + "intense"@ =~= "set_intense"@);
    assert(spec_control(c) =~= seq![m_ident("__spec__"@), m_punct('.', Spacing::Alone)] + seq![
        m_ident(setter_name(c)),
        m_group(Delim::Parenthesis, models(command_arg(c))),
        m_punct(';', Spacing::Alone),
    ] + apply_style());
}

/// The number of tokens of the code for the steps, one after the other.
pub open spec fn code_len(outs: Seq<OutputView>) -> nat
    decreases outs.len(),
{
    if outs.len() == 0 {
        0
    } else {
        spec_output(outs[0]).len() + code_len(outs.subrange(1, outs.len() as int))
    }
}

proof fn lemma_code_len_concat(a: Seq<OutputView>, b: Seq<OutputView>)
    ensures
        code_len(a + b) == code_len(a) + code_len(b),
    decreases a.len(),
{
    if a.len() == 0 {
        assert(a + b == b);
    } else {
        lemma_code_len_concat(a.subrange(1, a.len() as int), b);
        assert((a + b).subrange(1, (a + b).len() as int) == a.subrange(1, a.len() as int) + b);
        assert((a + b)[0] == a[0]);
    }
}

proof fn lemma_outputs_concat(a: Seq<OutputView>, b: Seq<OutputView>)
    ensures
        spec_outputs(a + b) == spec_outputs(a) + spec_outputs(b),
{
    let f = |o: OutputView| spec_output(o);
    assert((a + b).map_values(f) =~= a.map_values(f) + b.map_values(f));
    lemma_flatten_concat(a.map_values(f), b.map_values(f));
}

proof fn lemma_outputs_one(o: OutputView)
    ensures
        spec_outputs(seq![o]) == spec_output(o),
        code_len(seq![o]) == spec_output(o).len(),
{
    let f = |o: OutputView| spec_output(o);
    assert(seq![o].map_values(f) =~= seq![spec_output(o)]);
    seq![spec_output(o)].lemma_flatten_singleton();
    assert(seq![o].subrange(1, 1) =~= Seq::<OutputView>::empty());
    assert(code_len(Seq::<OutputView>::empty()) == 0);
}

proof fn lemma_outputs_len(outs: Seq<OutputView>)
    ensures
        spec_outputs(outs).len() == code_len(outs),
    decreases outs.len(),
{
    if outs.len() == 0 {
        let f = |o: OutputView| spec_output(o);
        assert(outs.map_values(f) =~= Seq::<Seq<TokenModel>>::empty());
    } else {
        let r = outs.subrange(1, outs.len() as int);
        lemma_outputs_len(r);
        assert(outs == seq![outs[0]] + r);
        lemma_outputs_concat(seq![outs[0]], r);
        lemma_outputs_one(outs[0]);
    }
}

/// The generated body is the writer's binding, the creation of the style, and
/// then the code of every step of the pairing, each in its place and in order,
/// with nothing left out and nothing after the last one.
pub proof fn law_body_has_every_step(input: Seq<Token>)
    requires
        spec_parse_input(input) is Ok,
        spec_merge(
            spec_parse_input(input)->Ok_0.span,
            spec_parse_input(input)->Ok_0.parts,
            spec_parse_input(input)->Ok_0.rest,
        ) is Ok,
    ensures
        ({
            let mi = spec_parse_input(input)->Ok_0;
            let outs = spec_merge(mi.span, mi.parts, mi.rest)->Ok_0;
            let start = spec_guard(models(mi.writer)) + spec_spec_init();
            let body = spec_body(input);
            &&& body.len() == start.len() + code_len(outs)
            &&& body.subrange(0, start.len() as int) == start
            &&& forall|k: int|
                0 <= k < outs.len() ==> body.subrange(
                    (start.len() + code_len(outs.subrange(0, k))) as int,
                    (start.len() + code_len(outs.subrange(0, k + 1))) as int,
                ) == spec_output(#[trigger] outs[k])
        }),
{
    let mi = spec_parse_input(input)->Ok_0;
    let outs = spec_merge(mi.span, mi.parts, mi.rest)->Ok_0;
    let start = spec_guard(models(mi.writer)) + spec_spec_init();
    let body = spec_body(input);
    assert(body == start + spec_outputs(outs));
    lemma_outputs_len(outs);
    assert forall|k: int| 0 <= k < outs.len() implies body.subrange(
        (start.len() + code_len(outs.subrange(0, k))) as int,
        (start.len() + code_len(outs.subrange(0, k + 1))) as int,
    ) == spec_output(#[trigger] outs[k]) by {
        let a = outs.subrange(0, k);
        let b = outs.subrange(k + 1, outs.len() as int);
        assert(outs.subrange(0, k + 1) == a + seq![outs[k]]);
        assert(outs == a + seq![outs[k]] + b);
        lemma_code_len_concat(a, seq![outs[k]]);
        lemma_outputs_one(outs[k]);
        lemma_outputs_concat(a + seq![outs[k]], b);
        lemma_outputs_concat(a, seq![outs[k]]);
        lemma_outputs_len(a);
        let lo = (start.len() + code_len(a)) as int;
        let hi = lo + spec_output(outs[k]).len() as int;
        assert(body == start + spec_outputs(a) + spec_output(outs[k]) + spec_outputs(b));
        assert(body.subrange(lo, hi) =~= spec_output(outs[k]));
    }
    assert(body.subrange(0, start.len() as int) =~= start);
}

/// A refused input is answered with one `compile_error!` and nothing else:
/// when reading the input fails, or pairing its placeholders with its
/// arguments does, the body is `compile_error!("<message>")`, the message
/// being that of the first error found, at the place where that error starts.
pub proof fn law_refused_input_answered(input: Seq<Token>)
    ensures
        ({
            let first = match spec_parse_input(input) {
                Err(e) => Some(e),
                Ok(mi) => match spec_merge(mi.span, mi.parts, mi.rest) {
                    Err(e) => Some(e),
                    Ok(_) => None::<CompileError>,
                },
            };
            first matches Some(e) ==> spec_body(input) == seq![
                TokenModel::Ident("compile_error"@, e.start),
                TokenModel::Punct('!', Spacing::Alone, crate::token::SpanRef::CallSite),
                TokenModel::Group(
                    Delim::Parenthesis,
                    seq![TokenModel::Literal(seq!['"'] + spec_message(e.kind) + seq!['"'], e.start)],
                    crate::token::SpanRef::CallSite,
                ),
            ]
        }),
{
}

/// The code that one expression adds to a `write!`: a comma, then the expression.
pub open spec fn passed(e: Seq<Token>) -> Seq<TokenModel> {
    seq![m_punct(',', Spacing::Alone)] + models(e)
}

proof fn lemma_comma_args(items: Seq<Seq<Token>>)
    ensures
        comma_args(items) == items.map_values(|e: Seq<Token>| passed(e)).flatten(),
    decreases items.len(),
{
    let f = |e: Seq<Token>| passed(e);
    if items.len() == 0 {
        assert(items.map_values(f) =~= Seq::<Seq<TokenModel>>::empty());
    } else {
        let init = items.subrange(0, items.len() - 1);
        lemma_comma_args(init);
        assert(items.map_values(f) =~= init.map_values(f).push(passed(items[items.len() - 1])));
        init.map_values(f).lemma_flatten_push(passed(items[items.len() - 1]));
        assert(comma_args(items) =~= init.map_values(f).flatten() + passed(items[items.len() - 1]));
    }
}

/// A write passes the writer, its format string as a literal, and then every
/// one of its expressions after a comma, each once and in order:
/// `write!(__writer__, "<format>", e1, .., en)?;`.
pub proof fn law_write_passes_every_expression(fmt: Seq<char>, items: Seq<Seq<Token>>)
    ensures
        spec_raw(fmt, items) == seq![
            m_ident("write"@),
            m_punct('!', Spacing::Alone),
            m_group(
                Delim::Parenthesis,
                seq![
                    m_ident("__writer__"@),
                    m_punct(',', Spacing::Alone),
                    TokenModel::Literal(seq!['"'] + fmt + seq!['"'], crate::token::SpanRef::CallSite),
                ] + items.map_values(|e: Seq<Token>| passed(e)).flatten(),
            ),
            m_punct('?', Spacing::Alone),
            m_punct(';', Spacing::Alone),
        ],
{
    lemma_comma_args(items);
}

} // verus!
