use vstd::prelude::*;
use vstd::string::*;

use crate::text::{chars_of, push_char};
use crate::token::{span_of, SpanRef, Token};
use crate::types::{
    input_views, output_views, part_views, streams, CompileError, ErrorKind, FormatItems,
    FormatPart, InputItem, InputView, OutputItem, OutputView, PartView,
};

verus! {

/// How a character of text is written in a format string: braces doubled.
pub open spec fn escape_char(c: char) -> Seq<char> {
    if c == '{' {
        seq!['{', '{']
    } else if c == '}' {
        seq!['}', '}']
    } else {
        seq![c]
    }
}

/// How text is written in a format string.
pub open spec fn escape(t: Seq<char>) -> Seq<char> {
    t.map_values(|c: char| escape_char(c)).flatten()
}

/// Writing one more character adds its written form.
pub proof fn lemma_escape_push(t: Seq<char>, c: char)
    ensures
        escape(t.push(c)) == escape(t) + escape_char(c),
{
    let f = |c: char| escape_char(c);
    assert(t.push(c).map_values(f) =~= t.map_values(f).push(escape_char(c)));
    t.map_values(f).lemma_flatten_push(escape_char(c));
}

/// Nothing is written for no text.
pub proof fn lemma_escape_empty()
    ensures
        escape(Seq::empty()) == Seq::<char>::empty(),
{
    let f = |c: char| escape_char(c);
    assert(Seq::<char>::empty().map_values(f) =~= Seq::<Seq<char>>::empty());
}

/// Text written as a format string writes it: every brace doubled.
pub fn escape_text(t: &String) -> (res: String)
    ensures
        res@ == escape(t@),
{
    let chars = chars_of(t);
    let mut res = String::new();
    let mut i: usize = 0;
    proof {
        lemma_escape_empty();
        assert(t@.subrange(0, 0) == Seq::<char>::empty());
    }
    while i < chars.len()
        invariant
            chars@ == t@,
            i <= chars.len(),
            res@ == escape(t@.subrange(0, i as int)),
        decreases chars.len() - i,
    {
        let c = chars[i];
        push_char(&mut res, c);
        if c == '{' || c == '}' {
            push_char(&mut res, c);
        }
        proof {
            lemma_escape_push(t@.subrange(0, i as int), c);
            assert(t@.subrange(0, i + 1) == t@.subrange(0, i as int).push(c));
            assert(res@ == escape(t@.subrange(0, i + 1)));
        }
        i = i + 1;
    }
    assert(t@.subrange(0, chars.len() as int) == t@);
    res
}

/// The placeholders of a parsed format string, each with the text that stands
/// before it (since the previous placeholder), and the text after the last one.
pub open spec fn slots(parts: Seq<PartView>) -> (Seq<(Seq<char>, Seq<char>)>, Seq<char>)
    decreases parts.len(),
{
    if parts.len() == 0 {
        (Seq::empty(), Seq::empty())
    } else {
        let (sl, tail) = slots(parts.subrange(1, parts.len() as int));
        match parts[0] {
            PartView::Text(t) => if sl.len() > 0 {
                (sl.update(0, (t + sl[0].0, sl[0].1)), tail)
            } else {
                (sl, t + tail)
            },
            PartView::Input(x) => (seq![(Seq::<char>::empty(), x)] + sl, tail),
        }
    }
}

/// The write that a format string and its expressions stand for, if the format string is not empty.
pub open spec fn flush_raw(fmt: Seq<char>, items: Seq<Seq<Token>>) -> Seq<OutputView> {
    if fmt.len() > 0 {
        seq![OutputView::Raw(fmt, items)]
    } else {
        Seq::empty()
    }
}

/// The expressions still pending after a flush of `fmt`.
pub open spec fn kept_items(fmt: Seq<char>, items: Seq<Seq<Token>>) -> Seq<Seq<Token>> {
    if fmt.len() > 0 {
        Seq::empty()
    } else {
        items
    }
}

/// `front` followed by the items of `rest`, or the error of `rest`.
pub open spec fn then_out(
    front: Seq<OutputView>,
    rest: Result<Seq<OutputView>, CompileError>,
) -> Result<Seq<OutputView>, CompileError> {
    match rest {
        Ok(out) => Ok(front + out),
        Err(e) => Err(e),
    }
}

/// The first and last places of an argument's tokens.
pub open spec fn span_range(x: Seq<Token>) -> (SpanRef, SpanRef) {
    if x.len() == 0 {
        (SpanRef::CallSite, SpanRef::CallSite)
    } else {
        (span_of(x[0]), span_of(x[x.len() - 1]))
    }
}

/// The error for an argument that no placeholder is left for.
pub open spec fn too_many(arg: InputView) -> CompileError {
    match arg {
        InputView::Raw(x) => CompileError { start: span_range(x).0, end: span_range(x).1, kind: ErrorKind::TooManyInputs },
        InputView::Ctrl(_) => CompileError { start: SpanRef::CallSite, end: SpanRef::CallSite, kind: ErrorKind::TooManyInputs },
    }
}

/// Pairs the arguments `inputs` with the placeholders `sl`, given the format
/// text `fmt` and expressions `items` gathered so far: each expression adds the
/// text before its placeholder (its braces doubled again, as a format string
/// writes them) and the placeholder itself to the pending write;
/// each styling command ends the pending write (if its text is not empty) and
/// takes its placeholder's place; the text after the last placeholder ends the last write.
pub open spec fn merge_rest(
    format_span: SpanRef,
    sl: Seq<(Seq<char>, Seq<char>)>,
    tail: Seq<char>,
    inputs: Seq<InputView>,
    fmt: Seq<char>,
    items: Seq<Seq<Token>>,
) -> Result<Seq<OutputView>, CompileError>
    decreases inputs.len(),
{
    if inputs.len() == 0 {
        if sl.len() > 0 {
            Err(CompileError { start: format_span, end: format_span, kind: ErrorKind::NotEnoughInputs })
        } else {
            Ok(flush_raw(fmt + escape(tail), items))
        }
    } else if sl.len() == 0 {
        Err(too_many(inputs[0]))
    } else {
        let rest_sl = sl.subrange(1, sl.len() as int);
        let rest_in = inputs.subrange(1, inputs.len() as int);
        match inputs[0] {
            InputView::Ctrl(c) => {
                let f = fmt + escape(sl[0].0);
                then_out(
                    flush_raw(f, items).push(OutputView::Ctrl(c)),
                    merge_rest(format_span, rest_sl, tail, rest_in, Seq::empty(), kept_items(f, items)),
                )
            },
            InputView::Raw(x) => merge_rest(
                format_span,
                rest_sl,
                tail,
                rest_in,
                fmt + escape(sl[0].0) + sl[0].1,
                items.push(x),
            ),
        }
    }
}

/// What pairing the parsed format string `parts` with the arguments `inputs` gives.
pub open spec fn spec_merge(
    format_span: SpanRef,
    parts: Seq<PartView>,
    inputs: Seq<InputView>,
) -> Result<Seq<OutputView>, CompileError> {
    merge_rest(format_span, slots(parts).0, slots(parts).1, inputs, Seq::empty(), Seq::empty())
}

/// Moves the pending write, if its format text is not empty, to `output`.
fn flush(format: &mut String, items: &mut Vec<Vec<Token>>, output: &mut Vec<OutputItem>)
    ensures
        output_views(final(output)@) == output_views(old(output)@) + flush_raw(old(format)@, streams(old(items)@)),
        old(format)@.len() > 0 ==> final(format)@.len() == 0 && final(items)@.len() == 0,
        old(format)@.len() == 0 ==> final(format)@ == old(format)@ && final(items)@ == old(items)@,
{
    let ghost before = output_views(output@);
    if format.unicode_len() > 0 {
        let mut f = String::new();
        std::mem::swap(&mut f, format);
        let mut it: Vec<Vec<Token>> = Vec::new();
        std::mem::swap(&mut it, items);
        output.push(OutputItem::Raw((f, it)));
        assert(output_views(output@) == before + flush_raw(old(format)@, streams(old(items)@)));
    } else {
        assert(output_views(output@) == before + flush_raw(old(format)@, streams(old(items)@)));
    }
}

/// The slots of a part list that starts with one part, from the slots of the rest.
proof fn lemma_slots_step(parts: Seq<PartView>)
    requires
        parts.len() > 0,
    ensures
        slots(parts) == ({
            let (sl, tail) = slots(parts.subrange(1, parts.len() as int));
            match parts[0] {
                PartView::Text(t) => if sl.len() > 0 {
                    (sl.update(0, (t + sl[0].0, sl[0].1)), tail)
                } else {
                    (sl, t + tail)
                },
                PartView::Input(x) => (seq![(Seq::<char>::empty(), x)] + sl, tail),
            }
        }),
{
}

/// The index of the first placeholder among `parts` at or after `i`, or `parts.len()` if there is none.
pub open spec fn first_input_from(parts: Seq<PartView>, i: int) -> int
    decreases parts.len() - i,
{
    if i < 0 || i >= parts.len() {
        parts.len() as int
    } else if parts[i] is Input {
        i
    } else {
        first_input_from(parts, i + 1)
    }
}

/// The index of the first placeholder among `parts`, or `parts.len()` if there is none.
pub open spec fn first_input(parts: Seq<PartView>) -> int {
    first_input_from(parts, 0)
}

proof fn lemma_first_input(parts: Seq<PartView>, i: int, r: int)
    requires
        0 <= i <= r < parts.len(),
        parts[r] is Input,
        forall|k: int| i <= k < r ==> parts[k] is Text,
    ensures
        first_input_from(parts, i) == r,
    decreases r - i,
{
    if i < r {
        lemma_first_input(parts, i + 1, r);
    }
}

/// Takes parts from the front of `format` up to and including the next
/// placeholder, adding their text to `cur_format` and returning the
/// placeholder; with no placeholder left, all the text is added and the
/// result is an error at `start`..`end`.
pub fn pull_format(
    format: &mut Vec<FormatPart>,
    cur_format: &mut String,
    start: SpanRef,
    end: SpanRef,
) -> (res: Result<String, CompileError>)
    ensures
        ({
            let (sl, tail) = slots(part_views(old(format)@));
            if sl.len() > 0 {
                &&& res matches Ok(x) && x@ == sl[0].1
                &&& final(cur_format)@ == old(cur_format)@ + sl[0].0
                &&& slots(part_views(final(format)@)) == (sl.subrange(1, sl.len() as int), tail)
                &&& part_views(final(format)@) == part_views(old(format)@).subrange(
                    first_input(part_views(old(format)@)) + 1,
                    old(format)@.len() as int,
                )
            } else {
                &&& res == Err::<String, CompileError>(CompileError { start, end, kind: ErrorKind::TooManyInputs })
                &&& final(cur_format)@ == old(cur_format)@ + tail
                &&& final(format)@.len() == 0
            }
        }),
{
    let ghost orig = slots(part_views(format@));
    let ghost pv0 = part_views(format@);
    let ghost n0 = pv0.len() as int;
    let ghost mut acc: Seq<char> = Seq::empty();
    let ghost mut r: int = 0;
    loop
        invariant
            orig == slots(part_views(old(format)@)),
            pv0 == part_views(old(format)@),
            n0 == pv0.len(),
            0 <= r <= n0,
            part_views(format@) == pv0.subrange(r, n0),
            forall|k: int| 0 <= k < r ==> pv0[k] is Text,
            cur_format@ == old(cur_format)@ + acc,
            ({
                let (sl, tail) = slots(part_views(format@));
                if sl.len() > 0 {
                    orig == (sl.update(0, (acc + sl[0].0, sl[0].1)), tail)
                } else {
                    orig == (sl, acc + tail)
                }
            }),
        decreases format@.len(),
    {
        if format.len() == 0 {
            assert(slots(part_views(format@)) == (Seq::<(Seq<char>, Seq<char>)>::empty(), Seq::<char>::empty()));
            assert(acc + Seq::<char>::empty() == acc);
            return Err(CompileError { start, end, kind: ErrorKind::TooManyInputs });
        }
        let ghost pv = part_views(format@);
        proof {
            lemma_slots_step(pv);
            assert(pv.subrange(1, pv.len() as int) == part_views(format@.subrange(1, format@.len() as int)));
        }
        let part = format.remove(0);
        assert(part_views(format@) == pv.subrange(1, pv.len() as int));
        match part {
            FormatPart::Input(s) => {
                proof {
                    assert(pv0[r] == pv[0]);
                    lemma_first_input(pv0, 0, r);
                    assert(part_views(format@) == pv0.subrange(r + 1, n0));
                }
                let ghost (sl, tail) = slots(part_views(format@));
                assert((seq![(Seq::<char>::empty(), s@)] + sl).subrange(1, sl.len() + 1 as int) == sl);
                assert(acc + Seq::<char>::empty() == acc);
                return Ok(s);
            },
            FormatPart::Text(s) => {
                let ghost (sl, tail) = slots(part_views(format@));
                cur_format.append(s.as_str());
                proof {
                    if sl.len() > 0 {
                        assert(acc + (s@ + sl[0].0) == (acc + s@) + sl[0].0);
                        assert(sl.update(0, ((acc + s@) + sl[0].0, sl[0].1)) == sl.update(0, (s@ + sl[0].0, sl[0].1)).update(0, (acc + (s@ + sl[0].0), sl[0].1)));
                    } else {
                        assert(acc + (s@ + tail) == (acc + s@) + tail);
                    }
                    assert(old(cur_format)@ + acc + s@ == old(cur_format)@ + (acc + s@));
                    acc = acc + s@;
                    assert(pv0[r] == pv[0]);
                    assert(part_views(format@) == pv0.subrange(r + 1, n0));
                    r = r + 1;
                }
            },
        }
    }
}

proof fn lemma_then_out_assoc(
    a: Seq<OutputView>,
    b: Seq<OutputView>,
    r: Result<Seq<OutputView>, CompileError>,
)
    ensures
        then_out(a, then_out(b, r)) == then_out(a + b, r),
{
    if let Ok(q) = r {
        assert(a + (b + q) == (a + b) + q);
    }
}

/// Pairs the placeholders of the format string with the arguments: each run
/// of expressions becomes one write, with the format text that belongs to it
/// (the braces of its text doubled again, so that `write!` reads them as
/// braces), and each styling command stands between the writes, in the order written.
pub fn merge_items(format: FormatItems, input: Vec<InputItem>) -> (res: Result<Vec<OutputItem>, CompileError>)
    ensures
        match res {
            Ok(out) => spec_merge(format.span, part_views(format.parts@), input_views(input@))
                == Ok::<Seq<OutputView>, CompileError>(output_views(out@)),
            Err(e) => spec_merge(format.span, part_views(format.parts@), input_views(input@))
                == Err::<Seq<OutputView>, CompileError>(e),
        },
{
    let ghost goal = spec_merge(format.span, part_views(format.parts@), input_views(input@));
    let format_span = format.span;
    let mut parts = format.parts;
    let mut rest = input;
    let mut output: Vec<OutputItem> = Vec::new();
    let mut cur_format = String::new();
    let mut cur_items: Vec<Vec<Token>> = Vec::new();
    assert(streams(cur_items@) == Seq::<Seq<Token>>::empty());
    assert(then_out(output_views(output@), goal) == goal) by {
        if let Ok(q) = goal {
            assert(output_views(output@) + q =~= q);
        }
    }
    while rest.len() > 0
        invariant
            goal == spec_merge(format.span, part_views(format.parts@), input_views(input@)),
            goal == then_out(
                output_views(output@),
                merge_rest(
                    format_span,
                    slots(part_views(parts@)).0,
                    slots(part_views(parts@)).1,
                    input_views(rest@),
                    cur_format@,
                    streams(cur_items@),
                ),
            ),
        decreases rest.len(),
    {
        let ghost iv = input_views(rest@);
        let ghost (sl, tail) = slots(part_views(parts@));
        let ghost fmt = cur_format@;
        let ghost items = streams(cur_items@);
        let ghost out0 = output_views(output@);
        let item = rest.remove(0);
        assert(input_views(rest@) == iv.subrange(1, iv.len() as int));
        assert(item@ == iv[0]);
        match item {
            InputItem::Ctrl(ctrl) => {
                let mut text = String::new();
                match pull_format(&mut parts, &mut text, SpanRef::CallSite, SpanRef::CallSite) {
                    Err(e) => {
                        return Err(e);
                    },
                    Ok(_) => {},
                }
                cur_format.append(escape_text(&text).as_str());
                let ghost f = cur_format@;
                flush(&mut cur_format, &mut cur_items, &mut output);
                let ghost cv = ctrl@;
                let ghost mid = output_views(output@);
                output.push(OutputItem::Ctrl(ctrl));
                assert(output_views(output@) == mid.push(OutputView::Ctrl(cv)));
                assert(output_views(output@) == out0 + flush_raw(f, items).push(OutputView::Ctrl(cv)));
                assert(cur_format@.len() == 0);
                assert(cur_format@ == Seq::<char>::empty());
                assert(streams(cur_items@) == kept_items(f, items));
                proof {
                    lemma_then_out_assoc(
                        out0,
                        flush_raw(f, items).push(OutputView::Ctrl(cv)),
                        merge_rest(format_span, sl.subrange(1, sl.len() as int), tail, iv.subrange(1, iv.len() as int), Seq::empty(), kept_items(f, items)),
                    );
                }
            },
            InputItem::Raw(raw) => {
                let ghost x = raw@;
                let (start, end) = if raw.len() == 0 {
                    (SpanRef::CallSite, SpanRef::CallSite)
                } else {
                    (raw[0].span(), raw[raw.len() - 1].span())
                };
                let mut text = String::new();
                match pull_format(&mut parts, &mut text, start, end) {
                    Err(e) => {
                        return Err(e);
                    },
                    Ok(p) => {
                        cur_format.append(escape_text(&text).as_str());
                        cur_format.append(p.as_str());
                        cur_items.push(raw);
                        assert(streams(cur_items@) == items.push(x));
                    },
                }
            },
        }
    }
    let mut text = String::new();
    match pull_format(&mut parts, &mut text, SpanRef::CallSite, SpanRef::CallSite) {
        Ok(_) => Err(CompileError { start: format_span, end: format_span, kind: ErrorKind::NotEnoughInputs }),
        Err(_) => {
            cur_format.append(escape_text(&text).as_str());
            flush(&mut cur_format, &mut cur_items, &mut output);
            Ok(output)
        },
    }
}

} // verus!
