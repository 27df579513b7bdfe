use vstd::prelude::*;
use vstd::seq_lib::lemma_flatten_concat;

use crate::format::{close_from, lemma_close_from, scan, spec_format_parts, text_part};
use crate::parse::{comma_from, is_comma, spec_parse_tokens, split_args};
use crate::merge::{escape, lemma_escape_empty, lemma_escape_push, flush_raw, kept_items, merge_rest, slots, spec_merge, too_many};
use crate::codegen::spec_control;
use crate::token::{m_ident, SpanRef, Token};
use crate::types::{CompileError, ControlView, ErrorKind, InputView, OutputView, PartView};

verus! {

/// How a part is written in a format string.
pub open spec fn render_part(p: PartView) -> Seq<char> {
    match p {
        PartView::Text(t) => escape(t),
        PartView::Input(x) => x,
    }
}

/// How parts are written in a format string, one after the other.
pub open spec fn render(parts: Seq<PartView>) -> Seq<char> {
    parts.map_values(|p: PartView| render_part(p)).flatten()
}

pub proof fn lemma_render_concat(a: Seq<PartView>, b: Seq<PartView>)
    ensures
        render(a + b) == render(a) + render(b),
{
    let f = |p: PartView| render_part(p);
    assert((a + b).map_values(f) =~= a.map_values(f) + b.map_values(f));
    lemma_flatten_concat(a.map_values(f), b.map_values(f));
}

pub proof fn lemma_render_one(p: PartView)
    ensures
        render(seq![p]) == render_part(p),
{
    let f = |p: PartView| render_part(p);
    assert(seq![p].map_values(f) =~= seq![render_part(p)]);
    seq![render_part(p)].lemma_flatten_singleton();
}

/// Nothing is written for no parts.
pub proof fn lemma_render_empty()
    ensures
        render(Seq::empty()) == Seq::<char>::empty(),
{
    let g = |p: PartView| render_part(p);
    assert(Seq::<PartView>::empty().map_values(g) =~= Seq::<Seq<char>>::empty());
}

proof fn lemma_render_text_part(acc: Seq<char>)
    ensures
        render(text_part(acc)) == escape(acc),
{
    if acc.len() == 0 {
        assert(acc == Seq::<char>::empty());
        lemma_escape_empty();
        lemma_render_empty();
    } else {
        lemma_render_one(PartView::Text(acc));
    }
}

proof fn lemma_render_front(acc: Seq<char>, x: Seq<char>, q: Seq<PartView>)
    ensures
        render(text_part(acc).push(PartView::Input(x)) + q) == escape(acc) + x + render(q),
{
    lemma_render_concat(text_part(acc).push(PartView::Input(x)), q);
    assert(text_part(acc).push(PartView::Input(x)) == text_part(acc) + seq![PartView::Input(x)]);
    lemma_render_concat(text_part(acc), seq![PartView::Input(x)]);
    lemma_render_text_part(acc);
    lemma_render_one(PartView::Input(x));
}

proof fn lemma_scan_render(s: Seq<char>, i: int, acc: Seq<char>)
    requires
        0 <= i <= s.len(),
        scan(s, i, acc) is Ok,
    ensures
        render(scan(s, i, acc)->Ok_0) == escape(acc) + s.subrange(i, s.len() as int),
    decreases s.len() - i,
{
    let n = s.len() as int;
    if i >= n {
        lemma_render_text_part(acc);
    } else if s[i] == '{' {
        if s[i + 1] == '{' {
            lemma_scan_render(s, i + 2, acc.push('{'));
            lemma_escape_push(acc, '{');
            assert(s.subrange(i, n) == seq!['{', '{'] + s.subrange(i + 2, n));
        } else if s[i + 1] == '}' {
            lemma_scan_render(s, i + 2, Seq::empty());
            let q = scan(s, i + 2, Seq::empty())->Ok_0;
            lemma_render_front(acc, seq!['{', '}'], q);
            lemma_escape_empty();
            assert(s.subrange(i, n) == seq!['{', '}'] + s.subrange(i + 2, n));
        } else {
            lemma_close_from(s, i + 2);
            let j = close_from(s, i + 2);
            lemma_escape_empty();
            if j < n {
                lemma_scan_render(s, j + 1, Seq::empty());
                let q = scan(s, j + 1, Seq::empty())->Ok_0;
                lemma_render_front(acc, s.subrange(i, j + 1), q);
                assert(s.subrange(i, n) == s.subrange(i, j + 1) + s.subrange(j + 1, n));
            } else {
                lemma_render_front(acc, s.subrange(i, n), Seq::empty());
                lemma_render_empty();
                assert(text_part(acc).push(PartView::Input(s.subrange(i, n))) + Seq::<PartView>::empty()
                    == text_part(acc).push(PartView::Input(s.subrange(i, n))));
            }
        }
    } else if s[i] == '}' {
        lemma_scan_render(s, i + 2, acc.push('}'));
        lemma_escape_push(acc, '}');
        assert(s.subrange(i, n) == seq!['}', '}'] + s.subrange(i + 2, n));
    } else {
        lemma_scan_render(s, i + 1, acc.push(s[i]));
        lemma_escape_push(acc, s[i]);
        assert(s.subrange(i, n) == seq![s[i]] + s.subrange(i + 1, n));
    }
}

/// Reading a format string loses nothing: writing its parts back, with the
/// braces of the text doubled again, gives the format string that was read.
pub proof fn law_format_roundtrip(s: Seq<char>)
    requires
        spec_format_parts(s) is Ok,
    ensures
        render(spec_format_parts(s)->Ok_0) == s,
{
    lemma_scan_render(s, 0, Seq::empty());
    lemma_escape_empty();
    assert(s.subrange(0, s.len() as int) == s);
}

/// The number of placeholders among the parts.
pub open spec fn count_inputs(parts: Seq<PartView>) -> nat
    decreases parts.len(),
{
    if parts.len() == 0 {
        0
    } else {
        (if parts[0] is Input { 1nat } else { 0nat }) + count_inputs(parts.subrange(1, parts.len() as int))
    }
}

pub proof fn lemma_slots_count(parts: Seq<PartView>)
    ensures
        slots(parts).0.len() == count_inputs(parts),
    decreases parts.len(),
{
    if parts.len() > 0 {
        lemma_slots_count(parts.subrange(1, parts.len() as int));
    }
}

proof fn lemma_merge_rest_count(
    span: SpanRef,
    sl: Seq<(Seq<char>, Seq<char>)>,
    tail: Seq<char>,
    inputs: Seq<InputView>,
    fmt: Seq<char>,
    items: Seq<Seq<Token>>,
)
    ensures
        merge_rest(span, sl, tail, inputs, fmt, items) is Ok <==> inputs.len() == sl.len(),
        inputs.len() > sl.len() ==> merge_rest(span, sl, tail, inputs, fmt, items) == Err::<Seq<OutputView>, CompileError>(too_many(inputs[sl.len() as int])),
        inputs.len() < sl.len() ==> merge_rest(span, sl, tail, inputs, fmt, items) == Err::<Seq<OutputView>, CompileError>(
            CompileError { start: span, end: span, kind: ErrorKind::NotEnoughInputs },
        ),
    decreases inputs.len(),
{
    if inputs.len() > 0 && sl.len() > 0 {
        let rest_sl = sl.subrange(1, sl.len() as int);
        let rest_in = inputs.subrange(1, inputs.len() as int);
        match inputs[0] {
            InputView::Ctrl(c) => {
                let f = fmt + escape(sl[0].0);
                lemma_merge_rest_count(span, rest_sl, tail, rest_in, Seq::empty(), kept_items(f, items));
            },
            InputView::Raw(x) => {
                lemma_merge_rest_count(span, rest_sl, tail, rest_in, fmt + escape(sl[0].0) + sl[0].1, items.push(x));
            },
        }
    }
}

/// The arguments after the format string must match its placeholders one for
/// one: pairing succeeds exactly when there are as many arguments as
/// placeholders; with more, the error is at the first argument left over; with
/// fewer, it is "not enough input parameters" at the format string.
pub proof fn law_placeholder_count(span: SpanRef, parts: Seq<PartView>, inputs: Seq<InputView>)
    ensures
        spec_merge(span, parts, inputs) is Ok <==> inputs.len() == count_inputs(parts),
        inputs.len() > count_inputs(parts) ==> spec_merge(span, parts, inputs)
            == Err::<Seq<OutputView>, CompileError>(too_many(inputs[count_inputs(parts) as int])),
        inputs.len() < count_inputs(parts) ==> spec_merge(span, parts, inputs) == Err::<Seq<OutputView>, CompileError>(
            CompileError { start: span, end: span, kind: ErrorKind::NotEnoughInputs },
        ),
{
    lemma_slots_count(parts);
    lemma_merge_rest_count(span, slots(parts).0, slots(parts).1, inputs, Seq::empty(), Seq::empty());
}

/// One thing that the generated code does, in order: format an expression, or change the style.
pub enum Event {
    Expr(Seq<Token>),
    Style(ControlView),
}

/// What an argument asks the generated code to do.
pub open spec fn input_event(i: InputView) -> Event {
    match i {
        InputView::Raw(x) => Event::Expr(x),
        InputView::Ctrl(c) => Event::Style(c),
    }
}

/// What one step of the output does.
pub open spec fn output_events(o: OutputView) -> Seq<Event> {
    match o {
        OutputView::Raw(_, items) => items.map_values(|x: Seq<Token>| Event::Expr(x)),
        OutputView::Ctrl(c) => seq![Event::Style(c)],
    }
}

/// What the steps of the output do, one after the other.
pub open spec fn all_events(out: Seq<OutputView>) -> Seq<Event> {
    out.map_values(|o: OutputView| output_events(o)).flatten()
}

/// What the arguments ask for, one after the other.
pub open spec fn input_events(inputs: Seq<InputView>) -> Seq<Event> {
    inputs.map_values(|i: InputView| input_event(i))
}

/// The expressions as events.
pub open spec fn expr_events(items: Seq<Seq<Token>>) -> Seq<Event> {
    items.map_values(|x: Seq<Token>| Event::Expr(x))
}

/// Every placeholder among the parts is written with at least one character.
pub open spec fn placeholders_nonempty(parts: Seq<PartView>) -> bool {
    forall|k: int| 0 <= k < parts.len() ==> (#[trigger] parts[k] matches PartView::Input(x) ==> x.len() > 0)
}

proof fn lemma_slots_nonempty(parts: Seq<PartView>)
    requires
        placeholders_nonempty(parts),
    ensures
        forall|k: int| 0 <= k < slots(parts).0.len() ==> (#[trigger] slots(parts).0[k]).1.len() > 0,
    decreases parts.len(),
{
    if parts.len() > 0 {
        let rest = parts.subrange(1, parts.len() as int);
        assert(placeholders_nonempty(rest)) by {
            assert forall|k: int| 0 <= k < rest.len() implies (#[trigger] rest[k] matches PartView::Input(x) ==> x.len() > 0) by {
                assert(rest[k] == parts[k + 1]);
            }
        }
        lemma_slots_nonempty(rest);
        let sl = slots(rest).0;
        match parts[0] {
            PartView::Text(t) => {
                if sl.len() > 0 {
                    let sl2 = sl.update(0, (t + sl[0].0, sl[0].1));
                    assert forall|k: int| 0 <= k < sl2.len() implies (#[trigger] sl2[k]).1.len() > 0 by {
                        if k > 0 {
                            assert(sl2[k] == sl[k]);
                        }
                    }
                }
            },
            PartView::Input(x) => {
                assert(parts[0] matches PartView::Input(x) ==> x.len() > 0);
                let sl2 = seq![(Seq::<char>::empty(), x)] + sl;
                assert forall|k: int| 0 <= k < sl2.len() implies (#[trigger] sl2[k]).1.len() > 0 by {
                    if k > 0 {
                        assert(sl2[k] == sl[k - 1]);
                    }
                }
            },
        }
    }
}

proof fn lemma_all_events_concat(a: Seq<OutputView>, b: Seq<OutputView>)
    ensures
        all_events(a + b) == all_events(a) + all_events(b),
{
    let f = |o: OutputView| output_events(o);
    assert((a + b).map_values(f) =~= a.map_values(f) + b.map_values(f));
    lemma_flatten_concat(a.map_values(f), b.map_values(f));
}

proof fn lemma_all_events_one(o: OutputView)
    ensures
        all_events(seq![o]) == output_events(o),
{
    let f = |o: OutputView| output_events(o);
    assert(seq![o].map_values(f) =~= seq![output_events(o)]);
    seq![output_events(o)].lemma_flatten_singleton();
}

proof fn lemma_all_events_empty()
    ensures
        all_events(Seq::empty()) == Seq::<Event>::empty(),
{
    let f = |o: OutputView| output_events(o);
    assert(Seq::<OutputView>::empty().map_values(f) =~= Seq::<Seq<Event>>::empty());
}

proof fn lemma_flush_events(fmt: Seq<char>, items: Seq<Seq<Token>>)
    requires
        items.len() > 0 ==> fmt.len() > 0,
    ensures
        all_events(flush_raw(fmt, items)) == expr_events(items),
{
    if fmt.len() > 0 {
        lemma_all_events_one(OutputView::Raw(fmt, items));
    } else {
        lemma_all_events_empty();
        assert(expr_events(items) =~= Seq::<Event>::empty());
    }
}

proof fn lemma_merge_rest_events(
    span: SpanRef,
    sl: Seq<(Seq<char>, Seq<char>)>,
    tail: Seq<char>,
    inputs: Seq<InputView>,
    fmt: Seq<char>,
    items: Seq<Seq<Token>>,
)
    requires
        forall|k: int| 0 <= k < sl.len() ==> (#[trigger] sl[k]).1.len() > 0,
        items.len() > 0 ==> fmt.len() > 0,
        merge_rest(span, sl, tail, inputs, fmt, items) is Ok,
    ensures
        all_events(merge_rest(span, sl, tail, inputs, fmt, items)->Ok_0) == expr_events(items) + input_events(inputs),
    decreases inputs.len(),
{
    if inputs.len() == 0 {
        lemma_flush_events(fmt + escape(tail), items);
        assert(input_events(inputs) =~= Seq::<Event>::empty());
        assert(expr_events(items) + Seq::<Event>::empty() == expr_events(items));
    } else {
        let rest_sl = sl.subrange(1, sl.len() as int);
        let rest_in = inputs.subrange(1, inputs.len() as int);
        assert(sl[0].1.len() > 0);
        assert forall|k: int| 0 <= k < rest_sl.len() implies (#[trigger] rest_sl[k]).1.len() > 0 by {
            assert(rest_sl[k] == sl[k + 1]);
        }
        assert(input_events(inputs) =~= seq![input_event(inputs[0])] + input_events(rest_in));
        match inputs[0] {
            InputView::Ctrl(c) => {
                let f = fmt + escape(sl[0].0);
                let kept = kept_items(f, items);
                assert(kept =~= Seq::<Seq<Token>>::empty());
                lemma_merge_rest_events(span, rest_sl, tail, rest_in, Seq::empty(), kept);
                let out2 = merge_rest(span, rest_sl, tail, rest_in, Seq::empty(), kept)->Ok_0;
                let front = flush_raw(f, items).push(OutputView::Ctrl(c));
                lemma_all_events_concat(front, out2);
                assert(front == flush_raw(f, items) + seq![OutputView::Ctrl(c)]);
                lemma_all_events_concat(flush_raw(f, items), seq![OutputView::Ctrl(c)]);
                lemma_all_events_one(OutputView::Ctrl(c));
                lemma_flush_events(f, items);
                assert(expr_events(kept) =~= Seq::<Event>::empty());
                assert(all_events(front + out2) =~= expr_events(items) + input_events(inputs));
            },
            InputView::Raw(x) => {
                let fmt2 = fmt + escape(sl[0].0) + sl[0].1;
                lemma_merge_rest_events(span, rest_sl, tail, rest_in, fmt2, items.push(x));
                assert(expr_events(items.push(x)) =~= expr_events(items).push(Event::Expr(x)));
                assert(expr_events(items.push(x)) + input_events(rest_in) =~= expr_events(items) + input_events(inputs));
            },
        }
    }
}

/// Pairing keeps the arguments as they were written: read in order, the
/// expressions that the writes format and the styling commands between them
/// are exactly the arguments after the format string, in the same order.
pub proof fn law_merge_keeps_arguments(span: SpanRef, parts: Seq<PartView>, inputs: Seq<InputView>)
    requires
        placeholders_nonempty(parts),
        spec_merge(span, parts, inputs) is Ok,
    ensures
        all_events(spec_merge(span, parts, inputs)->Ok_0) == input_events(inputs),
{
    lemma_slots_nonempty(parts);
    lemma_merge_rest_events(span, slots(parts).0, slots(parts).1, inputs, Seq::empty(), Seq::empty());
    assert(expr_events(Seq::empty()) =~= Seq::<Event>::empty());
    assert(Seq::<Event>::empty() + input_events(inputs) == input_events(inputs));
}

/// The parts are as reading gives them: every text holds something, every
/// placeholder starts with `{`, and no two texts stand side by side.
pub open spec fn parts_canonical(p: Seq<PartView>) -> bool {
    &&& forall|k: int| 0 <= k < p.len() ==> (#[trigger] p[k] matches PartView::Text(t) ==> t.len() > 0)
    &&& forall|k: int| 0 <= k < p.len() ==> (#[trigger] p[k] matches PartView::Input(x) ==> x.len() > 0 && x[0] == '{')
    &&& forall|k: int| 0 <= k < p.len() - 1 ==> !(#[trigger] p[k] is Text && p[k + 1] is Text)
}

proof fn lemma_canonical_concat(a: Seq<PartView>, b: Seq<PartView>)
    requires
        parts_canonical(a),
        parts_canonical(b),
        a.len() > 0 ==> a[a.len() - 1] is Input,
    ensures
        parts_canonical(a + b),
{
    let c = a + b;
    assert forall|k: int| 0 <= k < c.len() implies (#[trigger] c[k] matches PartView::Text(t) ==> t.len() > 0) by {
        if k >= a.len() {
            assert(c[k] == b[k - a.len()]);
        }
    }
    assert forall|k: int| 0 <= k < c.len() implies (#[trigger] c[k] matches PartView::Input(x) ==> x.len() > 0 && x[0] == '{') by {
        if k >= a.len() {
            assert(c[k] == b[k - a.len()]);
        }
    }
    assert forall|k: int| 0 <= k < c.len() - 1 implies !(#[trigger] c[k] is Text && c[k + 1] is Text) by {
        if k >= a.len() {
            assert(c[k] == b[k - a.len()]);
            assert(c[k + 1] == b[k + 1 - a.len()]);
        } else if k + 1 < a.len() {
            assert(c[k] == a[k]);
            assert(c[k + 1] == a[k + 1]);
        }
    }
}

proof fn lemma_front_canonical(acc: Seq<char>, x: Seq<char>)
    requires
        x.len() > 0,
        x[0] == '{',
    ensures
        parts_canonical(text_part(acc).push(PartView::Input(x))),
        text_part(acc).push(PartView::Input(x)).last() is Input,
{
}

proof fn lemma_scan_canonical(s: Seq<char>, i: int, acc: Seq<char>)
    requires
        0 <= i <= s.len(),
        scan(s, i, acc) is Ok,
    ensures
        parts_canonical(scan(s, i, acc)->Ok_0),
    decreases s.len() - i,
{
    let n = s.len() as int;
    if i >= n {
    } else if s[i] == '{' {
        if s[i + 1] == '{' {
            lemma_scan_canonical(s, i + 2, acc.push('{'));
        } else if s[i + 1] == '}' {
            lemma_scan_canonical(s, i + 2, Seq::empty());
            lemma_front_canonical(acc, seq!['{', '}']);
            lemma_canonical_concat(
                text_part(acc).push(PartView::Input(seq!['{', '}'])),
                scan(s, i + 2, Seq::empty())->Ok_0,
            );
        } else {
            lemma_close_from(s, i + 2);
            let j = close_from(s, i + 2);
            if j < n {
                lemma_scan_canonical(s, j + 1, Seq::empty());
                lemma_front_canonical(acc, s.subrange(i, j + 1));
                lemma_canonical_concat(
                    text_part(acc).push(PartView::Input(s.subrange(i, j + 1))),
                    scan(s, j + 1, Seq::empty())->Ok_0,
                );
            } else {
                lemma_front_canonical(acc, s.subrange(i, n));
            }
        }
    } else if s[i] == '}' {
        lemma_scan_canonical(s, i + 2, acc.push('}'));
    } else {
        lemma_scan_canonical(s, i + 1, acc.push(s[i]));
    }
}

/// What reading a format string gives is in canonical form: no empty text,
/// every placeholder starting with `{`, and no two texts side by side (a run
/// of text is one part).
pub proof fn law_format_canonical(s: Seq<char>)
    requires
        spec_format_parts(s) is Ok,
    ensures
        parts_canonical(spec_format_parts(s)->Ok_0),
        placeholders_nonempty(spec_format_parts(s)->Ok_0),
{
    lemma_scan_canonical(s, 0, Seq::empty());
}

/// The tokens of `s` that are not commas, in order.
pub open spec fn strip_commas(s: Seq<Token>) -> Seq<Token>
    decreases s.len(),
{
    if s.len() == 0 {
        Seq::empty()
    } else {
        (if is_comma(s[0]) { Seq::empty() } else { seq![s[0]] }) + strip_commas(s.subrange(1, s.len() as int))
    }
}

proof fn lemma_strip_concat(a: Seq<Token>, b: Seq<Token>)
    ensures
        strip_commas(a + b) == strip_commas(a) + strip_commas(b),
    decreases a.len(),
{
    if a.len() == 0 {
        assert(a + b == b);
    } else {
        lemma_strip_concat(a.subrange(1, a.len() as int), b);
        assert((a + b).subrange(1, (a + b).len() as int) == a.subrange(1, a.len() as int) + b);
        assert((a + b)[0] == a[0]);
    }
}

proof fn lemma_strip_plain(a: Seq<Token>)
    requires
        forall|k: int| 0 <= k < a.len() ==> !is_comma(#[trigger] a[k]),
    ensures
        strip_commas(a) == a,
    decreases a.len(),
{
    if a.len() > 0 {
        lemma_strip_plain(a.subrange(1, a.len() as int));
        assert(!is_comma(a[0]));
        assert(seq![a[0]] + a.subrange(1, a.len() as int) == a);
    }
}

proof fn lemma_comma_from_bounds(s: Seq<Token>, i: int)
    requires
        0 <= i <= s.len(),
    ensures
        i <= comma_from(s, i) <= s.len(),
        comma_from(s, i) < s.len() ==> is_comma(s[comma_from(s, i)]),
        forall|k: int| i <= k < comma_from(s, i) ==> !is_comma(#[trigger] s[k]),
    decreases s.len() - i,
{
    if i < s.len() && !is_comma(s[i]) {
        lemma_comma_from_bounds(s, i + 1);
    }
}

/// Every argument holds at least one token and no comma.
pub open spec fn args_plain(args: Seq<Seq<Token>>) -> bool {
    forall|k: int| 0 <= k < args.len() ==> (#[trigger] args[k]).len() > 0 && (forall|m: int|
        0 <= m < args[k].len() ==> !is_comma(#[trigger] args[k][m]))
}

proof fn lemma_split_args(s: Seq<Token>, i: int)
    requires
        0 <= i <= s.len(),
        split_args(s, i) is Ok,
    ensures
        args_plain(split_args(s, i)->Ok_0),
        split_args(s, i)->Ok_0.flatten() == strip_commas(s.subrange(i, s.len() as int)),
    decreases s.len() - i,
{
    let n = s.len() as int;
    if i >= n {
        assert(s.subrange(i, n) =~= Seq::<Token>::empty());
    } else {
        lemma_comma_from_bounds(s, i);
        let c = comma_from(s, i);
        if c >= n {
            let seg = s.subrange(i, n);
            lemma_strip_plain(seg);
            seq![seg].lemma_flatten_singleton();
        } else {
            lemma_split_args(s, c + 1);
            let seg = s.subrange(i, c);
            let rest = split_args(s, c + 1)->Ok_0;
            assert(split_args(s, i)->Ok_0 == seq![seg] + rest);
            lemma_strip_plain(seg);
            lemma_flatten_concat(seq![seg], rest);
            seq![seg].lemma_flatten_singleton();
            assert(s.subrange(i, n) == seg + (seq![s[c]] + s.subrange(c + 1, n)));
            lemma_strip_concat(seg, seq![s[c]] + s.subrange(c + 1, n));
            lemma_strip_concat(seq![s[c]], s.subrange(c + 1, n));
            assert(strip_commas(seq![s[c]]) == Seq::<Token>::empty()) by {
                let one = seq![s[c]];
                assert(one[0] == s[c]);
                assert(one.subrange(1, 1) =~= Seq::<Token>::empty());
                assert(strip_commas(Seq::<Token>::empty()) == Seq::<Token>::empty());
                assert(Seq::<Token>::empty() + Seq::<Token>::empty() =~= Seq::<Token>::empty());
            }
            let all = seq![seg] + rest;
            assert forall|k: int| 0 <= k < all.len() implies (#[trigger] all[k]).len() > 0 && (forall|m: int|
                0 <= m < all[k].len() ==> !is_comma(#[trigger] all[k][m])) by {
                if k > 0 {
                    assert(all[k] == rest[k - 1]);
                }
            }
        }
    }
}

/// The arguments are the comma-separated pieces of the input: each holds at
/// least one token and no comma, and together, in order, they are the input's
/// tokens without its commas.
pub proof fn law_arguments_split_at_commas(s: Seq<Token>)
    requires
        spec_parse_tokens(s) is Ok,
    ensures
        args_plain(spec_parse_tokens(s)->Ok_0),
        spec_parse_tokens(s)->Ok_0.flatten() == strip_commas(s),
{
    lemma_split_args(s, 0);
    assert(s.subrange(0, s.len() as int) == s);
}

/// Only `reset!()` clears the style: every other command calls a setter of one
/// attribute (`set_fg`, `set_bg`, `set_bold`, `set_underline`, `set_intense`),
/// so what earlier commands set stays set.
pub proof fn law_only_reset_clears(c: ControlView)
    ensures
        spec_control(c)[2] == m_ident("clear"@) <==> c is Reset,
        !(c is Reset) ==> spec_control(c)[2] == m_ident(match c {
            ControlView::Foreground(_) => "set_fg"@,
            ControlView::Background(_) => "set_bg"@,
            ControlView::Bold(_) => "set_bold"@,
            ControlView::Underline(_) => "set_underline"@,
            _ => "set_intense"@,
        }),
{
    reveal_strlit("clear");
    reveal_strlit("set_fg");
    reveal_strlit("set_bg");
    reveal_strlit("set_bold");
    reveal_strlit("set_underline");
    reveal_strlit("set_intense");
    assert("clear"@.len() == 5);
    assert("set_fg"@.len() == 6);
    assert("set_bg"@.len() == 6);
    assert("set_bold"@.len() == 8);
    assert("set_underline"@.len() == 13);
    assert("set_intense"@.len() == 11);
    assert("clear"@[0] != "set_fg"@[0]);
}

} // verus!
