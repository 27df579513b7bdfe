use vstd::prelude::*;
use vstd::seq_lib::lemma_flatten_concat;

use crate::format::{close_from, lemma_close_from, scan, spec_format_parts, text_part, then_parts};
use crate::laws::{lemma_render_concat, lemma_render_empty, lemma_render_one, render, render_part};
use crate::merge::{escape, escape_char, flush_raw, kept_items, lemma_escape_empty, merge_rest, slots, spec_merge};
use crate::token::{SpanRef, Token};
use crate::laws::{law_format_canonical, law_placeholder_count, lemma_slots_count, parts_canonical};
use crate::types::{ControlView, InputView, OutputView, PartView};

verus! {

/// A placeholder that ends where it should: `{}`, or `{`, a character that is
/// not a brace, and what follows up to the first `}`.
pub open spec fn closed_placeholder(x: Seq<char>) -> bool {
    x == seq!['{', '}'] || (x.len() >= 3 && x[0] == '{' && x[1] != '{' && x[1] != '}' && x[x.len() - 1]
        == '}' && forall|k: int| 1 <= k < x.len() - 1 ==> x[k] != '}')
}

/// A placeholder that runs to the end of the format string with no `}`.
pub open spec fn open_placeholder(x: Seq<char>) -> bool {
    x.len() >= 2 && x[0] == '{' && x[1] != '{' && forall|k: int| 1 <= k < x.len() ==> x[k] != '}'
}

/// Parts of which every placeholder is closed, except one that only empty text follows.
pub open spec fn blank_after_open(q: Seq<PartView>) -> bool {
    forall|k: int|
        0 <= k < q.len() ==> (#[trigger] q[k] matches PartView::Input(x) ==> closed_placeholder(x) || (
        open_placeholder(x) && forall|m: int| k < m < q.len() ==> q[m] == PartView::Text(Seq::empty())))
}

/// The placeholders among the parts, in order.
pub open spec fn placeholders_of(p: Seq<PartView>) -> Seq<Seq<char>>
    decreases p.len(),
{
    if p.len() == 0 {
        Seq::empty()
    } else {
        (match p[0] {
            PartView::Input(x) => seq![x],
            PartView::Text(_) => Seq::empty(),
        }) + placeholders_of(p.subrange(1, p.len() as int))
    }
}

/// The text among the parts, run together.
pub open spec fn text_of(p: Seq<PartView>) -> Seq<char>
    decreases p.len(),
{
    if p.len() == 0 {
        Seq::empty()
    } else {
        (match p[0] {
            PartView::Input(_) => Seq::empty(),
            PartView::Text(t) => t,
        }) + text_of(p.subrange(1, p.len() as int))
    }
}

pub proof fn lemma_parts_concat(a: Seq<PartView>, b: Seq<PartView>)
    ensures
        placeholders_of(a + b) == placeholders_of(a) + placeholders_of(b),
        text_of(a + b) == text_of(a) + text_of(b),
    decreases a.len(),
{
    if a.len() == 0 {
        assert(a + b == b);
    } else {
        lemma_parts_concat(a.subrange(1, a.len() as int), b);
        assert((a + b).subrange(1, (a + b).len() as int) == a.subrange(1, a.len() as int) + b);
        assert((a + b)[0] == a[0]);
    }
}

pub proof fn lemma_parts_one(p: PartView)
    ensures
        placeholders_of(seq![p]) == (match p {
            PartView::Input(x) => seq![x],
            PartView::Text(_) => Seq::<Seq<char>>::empty(),
        }),
        text_of(seq![p]) == (match p {
            PartView::Input(_) => Seq::<char>::empty(),
            PartView::Text(t) => t,
        }),
{
    assert(seq![p].subrange(1, 1) =~= Seq::<PartView>::empty());
    let e = Seq::<PartView>::empty();
    assert(placeholders_of(e) == Seq::<Seq<char>>::empty());
    assert(text_of(e) == Seq::<char>::empty());
    match p {
        PartView::Input(x) => {
            assert(seq![x] + Seq::<Seq<char>>::empty() =~= seq![x]);
            assert(Seq::<char>::empty() + Seq::<char>::empty() =~= Seq::<char>::empty());
        },
        PartView::Text(t) => {
            assert(Seq::<Seq<char>>::empty() + Seq::<Seq<char>>::empty() =~= Seq::<Seq<char>>::empty());
            assert(t + Seq::<char>::empty() =~= t);
        },
    }
}

proof fn lemma_text_part(acc: Seq<char>)
    ensures
        placeholders_of(text_part(acc)) == Seq::<Seq<char>>::empty(),
        text_of(text_part(acc)) == acc,
{
    if acc.len() > 0 {
        lemma_parts_one(PartView::Text(acc));
    }
}

proof fn lemma_escape_concat(a: Seq<char>, b: Seq<char>)
    ensures
        escape(a + b) == escape(a) + escape(b),
{
    let f = |c: char| escape_char(c);
    assert((a + b).map_values(f) =~= a.map_values(f) + b.map_values(f));
    lemma_flatten_concat(a.map_values(f), b.map_values(f));
}

proof fn lemma_escape_one(c: char)
    ensures
        escape(seq![c]) == escape_char(c),
{
    let f = |c: char| escape_char(c);
    assert(seq![c].map_values(f) =~= seq![escape_char(c)]);
    seq![escape_char(c)].lemma_flatten_singleton();
}

/// Reading doubled braces and other text adds the text to the pending text.
proof fn lemma_scan_text(s: Seq<char>, i: int, acc: Seq<char>, t: Seq<char>)
    requires
        0 <= i,
        i + escape(t).len() <= s.len(),
        s.subrange(i, i + escape(t).len()) == escape(t),
    ensures
        scan(s, i, acc) == scan(s, i + escape(t).len(), acc + t),
    decreases t.len(),
{
    if t.len() == 0 {
        lemma_escape_empty();
        assert(t == Seq::<char>::empty());
        assert(acc + t == acc);
    } else {
        let c = t[0];
        let r = t.subrange(1, t.len() as int);
        assert(t == seq![c] + r);
        lemma_escape_concat(seq![c], r);
        lemma_escape_one(c);
        let e = escape_char(c);
        assert(s.subrange(i, i + e.len()) == e) by {
            assert(s.subrange(i, i + e.len()) == s.subrange(i, i + escape(t).len()).subrange(0, e.len() as int));
        }
        assert(s.subrange(i + e.len(), i + e.len() + escape(r).len()) == escape(r)) by {
            assert(s.subrange(i + e.len(), i + e.len() + escape(r).len()) == s.subrange(i, i + escape(t).len()).subrange(e.len() as int, escape(t).len() as int));
        }
        lemma_scan_text(s, i + e.len(), acc.push(c), r);
        assert(acc.push(c) + r == acc + t);
        if c == '{' {
            assert(s[i] == e[0] && s[i + 1] == e[1]);
        } else if c == '}' {
            assert(s[i] == e[0] && s[i + 1] == e[1]);
        } else {
            assert(s[i] == e[0]);
        }
    }
}

proof fn lemma_close_at(s: Seq<char>, a: int, b: int)
    requires
        0 <= a <= b <= s.len(),
        forall|k: int| a <= k < b ==> s[k] != '}',
        b < s.len() ==> s[b] == '}',
    ensures
        close_from(s, a) == b,
    decreases b - a,
{
    if a < b {
        lemma_close_at(s, a + 1, b);
    }
}

/// Reading a closed placeholder ends the pending text and gives the placeholder.
proof fn lemma_scan_closed(s: Seq<char>, i: int, acc: Seq<char>, x: Seq<char>)
    requires
        0 <= i,
        i + x.len() <= s.len(),
        s.subrange(i, i + x.len()) == x,
        closed_placeholder(x),
    ensures
        scan(s, i, acc) == then_parts(text_part(acc).push(PartView::Input(x)), scan(s, i + x.len(), Seq::empty())),
{
    assert(s[i] == x[0] && s[i + 1] == x[1]);
    if x == seq!['{', '}'] {
    } else {
        let j = i + x.len() - 1;
        assert forall|k: int| i + 2 <= k < j implies s[k] != '}' by {
            assert(s[k] == x[k - i]);
        }
        assert(s[j] == x[x.len() - 1]);
        lemma_close_at(s, i + 2, j);
        assert(s.subrange(i, j + 1) == x);
    }
}

/// Reading a placeholder that runs to the end gives it as the last part.
proof fn lemma_scan_open(s: Seq<char>, i: int, acc: Seq<char>, x: Seq<char>)
    requires
        0 <= i,
        i + x.len() == s.len(),
        s.subrange(i, s.len() as int) == x,
        open_placeholder(x),
    ensures
        scan(s, i, acc) == Ok::<Seq<PartView>, crate::types::ErrorKind>(text_part(acc).push(PartView::Input(x))),
{
    assert(s[i] == x[0] && s[i + 1] == x[1]);
    assert forall|k: int| i + 2 <= k < s.len() implies s[k] != '}' by {
        assert(s[k] == x[k - i]);
    }
    lemma_close_at(s, i + 2, s.len() as int);
}

proof fn lemma_blank(q: Seq<PartView>)
    requires
        forall|m: int| 0 <= m < q.len() ==> q[m] == PartView::Text(Seq::empty()),
    ensures
        render(q) == Seq::<char>::empty(),
        placeholders_of(q) == Seq::<Seq<char>>::empty(),
        text_of(q) == Seq::<char>::empty(),
    decreases q.len(),
{
    if q.len() == 0 {
        assert(q == Seq::<PartView>::empty());
        lemma_render_empty();
    } else {
        let r = q.subrange(1, q.len() as int);
        lemma_blank(r);
        assert(q == seq![q[0]] + r);
        lemma_render_concat(seq![q[0]], r);
        lemma_render_one(q[0]);
        lemma_escape_empty();
    }
}

/// Reading text and placeholders written out as a format string gives back
/// their placeholders, in order, and their text.
pub proof fn lemma_scan_readback(s: Seq<char>, i: int, acc: Seq<char>, q: Seq<PartView>)
    requires
        0 <= i <= s.len(),
        s.subrange(i, s.len() as int) == render(q),
        blank_after_open(q),
    ensures
        scan(s, i, acc) is Ok,
        placeholders_of(scan(s, i, acc)->Ok_0) == placeholders_of(q),
        text_of(scan(s, i, acc)->Ok_0) == acc + text_of(q),
    decreases q.len(),
{
    if q.len() == 0 {
        assert(q == Seq::<PartView>::empty());
        lemma_render_empty();
        assert(s.subrange(i, s.len() as int).len() == 0);
        lemma_text_part(acc);
        assert(acc + Seq::<char>::empty() == acc);
    } else {
        let r = q.subrange(1, q.len() as int);
        assert(q == seq![q[0]] + r);
        lemma_render_concat(seq![q[0]], r);
        lemma_render_one(q[0]);
        lemma_parts_concat(seq![q[0]], r);
        lemma_parts_one(q[0]);
        let head = render_part(q[0]);
        let n = s.len() as int;
        assert(render(q).len() == head.len() + render(r).len());
        assert(i + head.len() <= n);
        assert(s.subrange(i, i + head.len()) == head) by {
            assert(s.subrange(i, i + head.len()) =~= s.subrange(i, n).subrange(0, head.len() as int));
        }
        assert(s.subrange(i + head.len(), n) == render(r)) by {
            assert(s.subrange(i + head.len(), n) =~= s.subrange(i, n).subrange(head.len() as int, (n - i)));
        }
        assert(blank_after_open(r)) by {
            assert forall|k: int| 0 <= k < r.len() implies (#[trigger] r[k] matches PartView::Input(x)
                ==> closed_placeholder(x) || (open_placeholder(x) && forall|m: int| k < m < r.len() ==> r[m]
                == PartView::Text(Seq::empty()))) by {
                assert(r[k] == q[k + 1]);
                assert forall|m: int| k < m < r.len() implies r[m] == q[m + 1] by {}
            }
        }
        match q[0] {
            PartView::Text(t) => {
                lemma_scan_text(s, i, acc, t);
                lemma_scan_readback(s, i + head.len(), acc + t, r);
                assert(acc + t + text_of(r) == acc + (t + text_of(r)));
                assert(Seq::<Seq<char>>::empty() + placeholders_of(r) == placeholders_of(r));
            },
            PartView::Input(x) => {
                assert(q[0] matches PartView::Input(x) ==> closed_placeholder(x) || (open_placeholder(x)
                    && forall|m: int| 0 < m < q.len() ==> q[m] == PartView::Text(Seq::empty())));
                lemma_text_part(acc);
                let front = text_part(acc).push(PartView::Input(x));
                assert(front == text_part(acc) + seq![PartView::Input(x)]);
                lemma_parts_concat(text_part(acc), seq![PartView::Input(x)]);
                lemma_parts_one(PartView::Input(x));
                if closed_placeholder(x) {
                    lemma_scan_closed(s, i, acc, x);
                    lemma_scan_readback(s, i + x.len(), Seq::empty(), r);
                    let rest = scan(s, i + x.len(), Seq::empty())->Ok_0;
                    lemma_parts_concat(front, rest);
                    assert(Seq::<char>::empty() + text_of(r) == text_of(r));
                    assert(acc + Seq::<char>::empty() == acc);
                    assert(Seq::<char>::empty() + text_of(r) == text_of(r));
                } else {
                    assert forall|m: int| 0 <= m < r.len() implies r[m] == PartView::Text(Seq::empty()) by {
                        assert(r[m] == q[m + 1]);
                    }
                    lemma_blank(r);
                    assert(s.subrange(i, n) == x);
                    lemma_scan_open(s, i, acc, x);
                    assert(acc + Seq::<char>::empty() == acc);
                }
            },
        }
    }
}

/// The placeholders that the writes' format strings hold when read back, in order.
pub open spec fn write_placeholders(out: Seq<OutputView>) -> Seq<Seq<char>>
    decreases out.len(),
{
    if out.len() == 0 {
        Seq::empty()
    } else {
        (match out[0] {
            OutputView::Raw(f, _) => match spec_format_parts(f) {
                Ok(p) => placeholders_of(p),
                Err(_) => Seq::empty(),
            },
            OutputView::Ctrl(_) => Seq::empty(),
        }) + write_placeholders(out.subrange(1, out.len() as int))
    }
}

/// The text that the writes' format strings hold when read back, run together.
pub open spec fn write_text(out: Seq<OutputView>) -> Seq<char>
    decreases out.len(),
{
    if out.len() == 0 {
        Seq::empty()
    } else {
        (match out[0] {
            OutputView::Raw(f, _) => match spec_format_parts(f) {
                Ok(p) => text_of(p),
                Err(_) => Seq::empty(),
            },
            OutputView::Ctrl(_) => Seq::empty(),
        }) + write_text(out.subrange(1, out.len() as int))
    }
}

/// Every write's format string reads back without error, with one placeholder
/// for each of its expressions.
pub open spec fn writes_readable(out: Seq<OutputView>) -> bool {
    forall|k: int|
        0 <= k < out.len() ==> (#[trigger] out[k] matches OutputView::Raw(f, items) ==> spec_format_parts(f) is Ok
            && placeholders_of(spec_format_parts(f)->Ok_0).len() == items.len())
}

/// The placeholders of the slots that expressions fill, in order.
pub open spec fn expr_placeholders(sl: Seq<(Seq<char>, Seq<char>)>, inputs: Seq<InputView>) -> Seq<Seq<char>>
    decreases inputs.len(),
{
    if inputs.len() == 0 || sl.len() == 0 {
        Seq::empty()
    } else {
        (if inputs[0] is Raw { seq![sl[0].1] } else { Seq::empty() }) + expr_placeholders(
            sl.subrange(1, sl.len() as int),
            inputs.subrange(1, inputs.len() as int),
        )
    }
}

/// The text of the slots and after them, run together.
pub open spec fn slot_text(sl: Seq<(Seq<char>, Seq<char>)>, tail: Seq<char>) -> Seq<char>
    decreases sl.len(),
{
    if sl.len() == 0 {
        tail
    } else {
        sl[0].0 + slot_text(sl.subrange(1, sl.len() as int), tail)
    }
}

/// Every placeholder of the slots is closed, except perhaps the last, with no text after it.
pub open spec fn slots_readable(sl: Seq<(Seq<char>, Seq<char>)>, tail: Seq<char>) -> bool {
    forall|k: int|
        0 <= k < sl.len() ==> closed_placeholder(#[trigger] sl[k].1) || (open_placeholder(sl[k].1) && k == sl.len()
            - 1 && tail.len() == 0)
}

proof fn lemma_writes_concat(a: Seq<OutputView>, b: Seq<OutputView>)
    ensures
        write_placeholders(a + b) == write_placeholders(a) + write_placeholders(b),
        write_text(a + b) == write_text(a) + write_text(b),
        writes_readable(a) && writes_readable(b) ==> writes_readable(a + b),
    decreases a.len(),
{
    if a.len() == 0 {
        assert(a + b == b);
    } else {
        lemma_writes_concat(a.subrange(1, a.len() as int), b);
        assert((a + b).subrange(1, (a + b).len() as int) == a.subrange(1, a.len() as int) + b);
        assert((a + b)[0] == a[0]);
    }
    if writes_readable(a) && writes_readable(b) {
        let c = a + b;
        assert forall|k: int| 0 <= k < c.len() implies (#[trigger] c[k] matches OutputView::Raw(f, items)
            ==> spec_format_parts(f) is Ok && placeholders_of(spec_format_parts(f)->Ok_0).len() == items.len()) by {
            if k < a.len() {
                assert(c[k] == a[k]);
            } else {
                assert(c[k] == b[k - a.len()]);
            }
        }
    }
}

proof fn lemma_writes_one(o: OutputView)
    ensures
        write_placeholders(seq![o]) == write_placeholders(Seq::empty()) + (match o {
            OutputView::Raw(f, _) => match spec_format_parts(f) {
                Ok(p) => placeholders_of(p),
                Err(_) => Seq::empty(),
            },
            OutputView::Ctrl(_) => Seq::empty(),
        }),
        write_text(seq![o]) == write_text(Seq::empty()) + (match o {
            OutputView::Raw(f, _) => match spec_format_parts(f) {
                Ok(p) => text_of(p),
                Err(_) => Seq::empty(),
            },
            OutputView::Ctrl(_) => Seq::empty(),
        }),
{
    assert(seq![o].subrange(1, 1) =~= Seq::<OutputView>::empty());
    let e = Seq::<OutputView>::empty();
    assert(write_placeholders(e) == Seq::<Seq<char>>::empty());
    assert(write_text(e) == Seq::<char>::empty());
    assert(write_placeholders(seq![o]) =~= write_placeholders(e) + (match o {
        OutputView::Raw(f, _) => match spec_format_parts(f) {
            Ok(p) => placeholders_of(p),
            Err(_) => Seq::empty(),
        },
        OutputView::Ctrl(_) => Seq::empty(),
    }));
    assert(write_text(seq![o]) =~= write_text(e) + (match o {
        OutputView::Raw(f, _) => match spec_format_parts(f) {
            Ok(p) => text_of(p),
            Err(_) => Seq::empty(),
        },
        OutputView::Ctrl(_) => Seq::empty(),
    }));
}

/// The write of pending parts `q`: it reads back to `q`'s placeholders and text,
/// and nothing is written only when `q` holds neither.
proof fn lemma_flush_readback(q: Seq<PartView>, items: Seq<Seq<Token>>)
    requires
        blank_after_open(q),
        placeholders_of(q).len() == items.len(),
    ensures
        writes_readable(flush_raw(render(q), items)),
        write_placeholders(flush_raw(render(q), items)) == placeholders_of(q),
        write_text(flush_raw(render(q), items)) == text_of(q),
        render(q).len() == 0 ==> placeholders_of(q).len() == 0 && text_of(q).len() == 0,
{
    let f = render(q);
    assert(f.subrange(0, f.len() as int) == f);
    lemma_scan_readback(f, 0, Seq::empty(), q);
    assert(Seq::<char>::empty() + text_of(q) == text_of(q));
    let e = Seq::<OutputView>::empty();
    assert(write_placeholders(e) == Seq::<Seq<char>>::empty());
    assert(write_text(e) == Seq::<char>::empty());
    if f.len() > 0 {
        let o = OutputView::Raw(f, items);
        lemma_writes_one(o);
        assert(flush_raw(f, items) == seq![o]);
        assert(Seq::<Seq<char>>::empty() + placeholders_of(q) == placeholders_of(q));
        assert(Seq::<char>::empty() + text_of(q) == text_of(q));
        assert(writes_readable(seq![o])) by {
            assert forall|k: int| 0 <= k < 1 implies (#[trigger] seq![o][k] matches OutputView::Raw(f2, it2)
                ==> spec_format_parts(f2) is Ok && placeholders_of(spec_format_parts(f2)->Ok_0).len() == it2.len()) by {
                assert(seq![o][k] == o);
            }
        }
    } else {
        assert(scan(f, 0, Seq::empty()) == Ok::<Seq<PartView>, crate::types::ErrorKind>(text_part(Seq::empty())));
        assert(text_part(Seq::<char>::empty()) == Seq::<PartView>::empty());
        assert(placeholders_of(Seq::<PartView>::empty()) == Seq::<Seq<char>>::empty());
        assert(text_of(Seq::<PartView>::empty()) == Seq::<char>::empty());
    }
}

proof fn lemma_push_text(q: Seq<PartView>, t: Seq<char>)
    requires
        blank_after_open(q),
        (forall|k: int| 0 <= k < q.len() ==> (#[trigger] q[k] matches PartView::Input(x) ==> closed_placeholder(x)))
            || t.len() == 0,
    ensures
        blank_after_open(q.push(PartView::Text(t))),
        render(q.push(PartView::Text(t))) == render(q) + escape(t),
        placeholders_of(q.push(PartView::Text(t))) == placeholders_of(q),
        text_of(q.push(PartView::Text(t))) == text_of(q) + t,
{
    let q2 = q.push(PartView::Text(t));
    assert(q2 == q + seq![PartView::Text(t)]);
    lemma_render_concat(q, seq![PartView::Text(t)]);
    lemma_render_one(PartView::Text(t));
    lemma_parts_concat(q, seq![PartView::Text(t)]);
    lemma_parts_one(PartView::Text(t));
    assert(placeholders_of(q) + Seq::<Seq<char>>::empty() == placeholders_of(q));
    assert forall|k: int| 0 <= k < q2.len() implies (#[trigger] q2[k] matches PartView::Input(x)
        ==> closed_placeholder(x) || (open_placeholder(x) && forall|m: int| k < m < q2.len() ==> q2[m]
        == PartView::Text(Seq::empty()))) by {
        if k < q.len() {
            assert(q2[k] == q[k]);
            if let PartView::Input(x) = q[k] {
                if !closed_placeholder(x) {
                    assert(t.len() == 0);
                    assert forall|m: int| k < m < q2.len() implies q2[m] == PartView::Text(Seq::empty()) by {
                        if m < q.len() {
                            assert(q2[m] == q[m]);
                        } else {
                            assert(t =~= Seq::<char>::empty());
                        }
                    }
                }
            }
        }
    }
}

proof fn lemma_push_input(q: Seq<PartView>, x: Seq<char>)
    requires
        blank_after_open(q),
        forall|k: int| 0 <= k < q.len() ==> (#[trigger] q[k] matches PartView::Input(y) ==> closed_placeholder(y)),
        closed_placeholder(x) || open_placeholder(x),
    ensures
        blank_after_open(q.push(PartView::Input(x))),
        render(q.push(PartView::Input(x))) == render(q) + x,
        placeholders_of(q.push(PartView::Input(x))) == placeholders_of(q).push(x),
        text_of(q.push(PartView::Input(x))) == text_of(q),
{
    let q2 = q.push(PartView::Input(x));
    assert(q2 == q + seq![PartView::Input(x)]);
    lemma_render_concat(q, seq![PartView::Input(x)]);
    lemma_render_one(PartView::Input(x));
    lemma_parts_concat(q, seq![PartView::Input(x)]);
    lemma_parts_one(PartView::Input(x));
    assert(text_of(q) + Seq::<char>::empty() == text_of(q));
    assert forall|k: int| 0 <= k < q2.len() implies (#[trigger] q2[k] matches PartView::Input(y)
        ==> closed_placeholder(y) || (open_placeholder(y) && forall|m: int| k < m < q2.len() ==> q2[m]
        == PartView::Text(Seq::empty()))) by {
        if k < q.len() {
            assert(q2[k] == q[k]);
        }
    }
}

proof fn lemma_pending_empty()
    ensures
        render(Seq::empty()) == Seq::<char>::empty(),
        blank_after_open(Seq::empty()),
        placeholders_of(Seq::empty()) == Seq::<Seq<char>>::empty(),
        text_of(Seq::empty()) == Seq::<char>::empty(),
{
    lemma_render_empty();
}

proof fn lemma_merge_readback(
    span: SpanRef,
    sl: Seq<(Seq<char>, Seq<char>)>,
    tail: Seq<char>,
    inputs: Seq<InputView>,
    q: Seq<PartView>,
    items: Seq<Seq<Token>>,
)
    requires
        slots_readable(sl, tail),
        blank_after_open(q),
        (forall|k: int| 0 <= k < q.len() ==> (#[trigger] q[k] matches PartView::Input(y) ==> closed_placeholder(y)))
            || (sl.len() == 0 && tail.len() == 0),
        placeholders_of(q).len() == items.len(),
        merge_rest(span, sl, tail, inputs, render(q), items) is Ok,
    ensures
        writes_readable(merge_rest(span, sl, tail, inputs, render(q), items)->Ok_0),
        write_placeholders(merge_rest(span, sl, tail, inputs, render(q), items)->Ok_0) == placeholders_of(q)
            + expr_placeholders(sl, inputs),
        write_text(merge_rest(span, sl, tail, inputs, render(q), items)->Ok_0) == text_of(q) + slot_text(sl, tail),
    decreases inputs.len(),
{
    if inputs.len() == 0 {
        lemma_push_text(q, tail);
        let q2 = q.push(PartView::Text(tail));
        lemma_flush_readback(q2, items);
        assert(placeholders_of(q) + Seq::<Seq<char>>::empty() == placeholders_of(q));
    } else {
        let rest_sl = sl.subrange(1, sl.len() as int);
        let rest_in = inputs.subrange(1, inputs.len() as int);
        assert(slots_readable(rest_sl, tail)) by {
            assert forall|k: int| 0 <= k < rest_sl.len() implies closed_placeholder(#[trigger] rest_sl[k].1) || (
            open_placeholder(rest_sl[k].1) && k == rest_sl.len() - 1 && tail.len() == 0) by {
                assert(rest_sl[k] == sl[k + 1]);
            }
        }
        lemma_pending_empty();
        let t = sl[0].0;
        let x = sl[0].1;
        assert(closed_placeholder(sl[0].1) || (open_placeholder(sl[0].1) && 0 == sl.len() - 1 && tail.len() == 0));
        lemma_push_text(q, t);
        let q1 = q.push(PartView::Text(t));
        match inputs[0] {
            InputView::Ctrl(c) => {
                let f = render(q1);
                lemma_flush_readback(q1, items);
                let kept = kept_items(f, items);
                assert(kept =~= Seq::<Seq<Token>>::empty());
                lemma_merge_readback(span, rest_sl, tail, rest_in, Seq::empty(), kept);
                let out2 = merge_rest(span, rest_sl, tail, rest_in, Seq::empty(), kept)->Ok_0;
                let o = OutputView::Ctrl(c);
                lemma_writes_one(o);
                assert(writes_readable(seq![o])) by {
                    assert forall|k: int| 0 <= k < 1 implies (#[trigger] seq![o][k] matches OutputView::Raw(f2, it2)
                        ==> spec_format_parts(f2) is Ok && placeholders_of(spec_format_parts(f2)->Ok_0).len()
                        == it2.len()) by {
                        assert(seq![o][k] == o);
                    }
                }
                let front = flush_raw(f, items).push(o);
                assert(front == flush_raw(f, items) + seq![o]);
                lemma_writes_concat(flush_raw(f, items), seq![o]);
                lemma_writes_concat(front, out2);
                assert(render(q1) == render(q) + escape(sl[0].0));
                assert(expr_placeholders(sl, inputs) == Seq::<Seq<char>>::empty() + expr_placeholders(rest_sl, rest_in));
                assert(slot_text(sl, tail) == t + slot_text(rest_sl, tail));
                assert(write_placeholders(front + out2) =~= placeholders_of(q) + expr_placeholders(sl, inputs));
                assert(write_text(front + out2) =~= text_of(q) + slot_text(sl, tail));
            },
            InputView::Raw(e) => {
                lemma_push_input(q1, x);
                let q2 = q1.push(PartView::Input(x));
                assert((forall|k: int| 0 <= k < q2.len() ==> (#[trigger] q2[k] matches PartView::Input(y)
                    ==> closed_placeholder(y))) || (rest_sl.len() == 0 && tail.len() == 0)) by {
                    if closed_placeholder(x) {
                        assert forall|k: int| 0 <= k < q2.len() implies (#[trigger] q2[k] matches PartView::Input(y)
                            ==> closed_placeholder(y)) by {
                            if k < q1.len() {
                                assert(q2[k] == q1[k]);
                                if k < q.len() {
                                    assert(q1[k] == q[k]);
                                }
                            }
                        }
                    }
                }
                assert(render(q2) == render(q) + escape(sl[0].0) + sl[0].1);
                lemma_merge_readback(span, rest_sl, tail, rest_in, q2, items.push(e));
                assert(expr_placeholders(sl, inputs) == seq![x] + expr_placeholders(rest_sl, rest_in));
                assert(slot_text(sl, tail) == t + slot_text(rest_sl, tail));
                assert(placeholders_of(q2) + expr_placeholders(rest_sl, rest_in) =~= placeholders_of(q)
                    + expr_placeholders(sl, inputs));
                assert(text_of(q2) + slot_text(rest_sl, tail) =~= text_of(q) + slot_text(sl, tail));
            },
        }
    }
}

/// Every placeholder is closed, except perhaps one that is the very last part.
pub open spec fn readable_parts(p: Seq<PartView>) -> bool {
    forall|k: int|
        0 <= k < p.len() ==> (#[trigger] p[k] matches PartView::Input(x) ==> closed_placeholder(x) || (
        open_placeholder(x) && k == p.len() - 1))
}

/// The placeholders that expressions fill, in order: the `k`-th placeholder is
/// kept when the `k`-th argument is an expression, and left out when it is a styling command.
pub open spec fn kept_placeholders(ph: Seq<Seq<char>>, inputs: Seq<InputView>) -> Seq<Seq<char>>
    decreases inputs.len(),
{
    if inputs.len() == 0 || ph.len() == 0 {
        Seq::empty()
    } else {
        (if inputs[0] is Raw { seq![ph[0]] } else { Seq::empty() }) + kept_placeholders(
            ph.subrange(1, ph.len() as int),
            inputs.subrange(1, inputs.len() as int),
        )
    }
}

/// The placeholders of the slots.
pub open spec fn slot_placeholders(sl: Seq<(Seq<char>, Seq<char>)>) -> Seq<Seq<char>> {
    sl.map_values(|s: (Seq<char>, Seq<char>)| s.1)
}

proof fn lemma_expr_kept(sl: Seq<(Seq<char>, Seq<char>)>, inputs: Seq<InputView>)
    ensures
        expr_placeholders(sl, inputs) == kept_placeholders(slot_placeholders(sl), inputs),
    decreases inputs.len(),
{
    if inputs.len() > 0 && sl.len() > 0 {
        let r = sl.subrange(1, sl.len() as int);
        lemma_expr_kept(r, inputs.subrange(1, inputs.len() as int));
        assert(slot_placeholders(sl).subrange(1, sl.len() as int) =~= slot_placeholders(r));
    }
}

proof fn lemma_slots_readback(p: Seq<PartView>)
    requires
        readable_parts(p),
    ensures
        slots_readable(slots(p).0, slots(p).1),
        slot_placeholders(slots(p).0) == placeholders_of(p),
        slot_text(slots(p).0, slots(p).1) == text_of(p),
    decreases p.len(),
{
    if p.len() == 0 {
        assert(slot_placeholders(Seq::<(Seq<char>, Seq<char>)>::empty()) =~= Seq::<Seq<char>>::empty());
    } else {
        let r = p.subrange(1, p.len() as int);
        assert(readable_parts(r)) by {
            assert forall|k: int| 0 <= k < r.len() implies (#[trigger] r[k] matches PartView::Input(x)
                ==> closed_placeholder(x) || (open_placeholder(x) && k == r.len() - 1)) by {
                assert(r[k] == p[k + 1]);
            }
        }
        lemma_slots_readback(r);
        let (sl, tail) = slots(r);
        assert(p[0] matches PartView::Input(x) ==> closed_placeholder(x) || (open_placeholder(x) && 0 == p.len() - 1));
        match p[0] {
            PartView::Text(t) => {
                if sl.len() > 0 {
                    let sl2 = sl.update(0, (t + sl[0].0, sl[0].1));
                    assert(slots_readable(sl2, tail)) by {
                        assert forall|k: int| 0 <= k < sl2.len() implies closed_placeholder(#[trigger] sl2[k].1) || (
                        open_placeholder(sl2[k].1) && k == sl2.len() - 1 && tail.len() == 0) by {
                            assert(sl2[k].1 == sl[k].1);
                        }
                    }
                    assert(slot_placeholders(sl2) =~= slot_placeholders(sl));
                    assert(sl2.subrange(1, sl2.len() as int) == sl.subrange(1, sl.len() as int));
                    assert(slot_text(sl, tail) == sl[0].0 + slot_text(sl.subrange(1, sl.len() as int), tail));
                    assert(slot_text(sl2, tail) =~= t + slot_text(sl, tail));
                } else {
                    assert(slot_text(sl, t + tail) == t + tail);
                }
                assert(placeholders_of(p) == Seq::<Seq<char>>::empty() + placeholders_of(r));
                assert(Seq::<Seq<char>>::empty() + placeholders_of(r) == placeholders_of(r));
            },
            PartView::Input(x) => {
                let sl2 = seq![(Seq::<char>::empty(), x)] + sl;
                if !closed_placeholder(x) {
                    assert(r.len() == 0);
                    assert(sl.len() == 0 && tail.len() == 0);
                }
                assert(slots_readable(sl2, tail)) by {
                    assert forall|k: int| 0 <= k < sl2.len() implies closed_placeholder(#[trigger] sl2[k].1) || (
                    open_placeholder(sl2[k].1) && k == sl2.len() - 1 && tail.len() == 0) by {
                        if k > 0 {
                            assert(sl2[k] == sl[k - 1]);
                        }
                    }
                }
                assert(slot_placeholders(sl2) =~= seq![x] + slot_placeholders(sl));
                assert(sl2.subrange(1, sl2.len() as int) == sl);
                assert(slot_text(sl2, tail) =~= Seq::<char>::empty() + slot_text(sl, tail));
                assert(text_of(p) == Seq::<char>::empty() + text_of(r));
            },
        }
    }
}

/// The writes that pairing gives are format strings in their own right: each
/// reads back, with the braces of its text doubled, into exactly as many
/// placeholders as it has expressions; together, in order, they hold the
/// caller's placeholders that belong to expressions (those that styling
/// commands take are left out) and all of the caller's text.
pub proof fn law_writes_read_back(span: SpanRef, parts: Seq<PartView>, inputs: Seq<InputView>)
    requires
        readable_parts(parts),
        spec_merge(span, parts, inputs) is Ok,
    ensures
        writes_readable(spec_merge(span, parts, inputs)->Ok_0),
        write_placeholders(spec_merge(span, parts, inputs)->Ok_0) == kept_placeholders(placeholders_of(parts), inputs),
        write_text(spec_merge(span, parts, inputs)->Ok_0) == text_of(parts),
{
    lemma_slots_readback(parts);
    lemma_pending_empty();
    lemma_expr_kept(slots(parts).0, inputs);
    lemma_merge_readback(span, slots(parts).0, slots(parts).1, inputs, Seq::empty(), Seq::empty());
    assert(Seq::<Seq<char>>::empty() + kept_placeholders(placeholders_of(parts), inputs) == kept_placeholders(
        placeholders_of(parts),
        inputs,
    ));
    assert(Seq::<char>::empty() + text_of(parts) == text_of(parts));
}

proof fn lemma_readable_concat(a: Seq<PartView>, b: Seq<PartView>)
    requires
        forall|k: int| 0 <= k < a.len() ==> (#[trigger] a[k] matches PartView::Input(x) ==> closed_placeholder(x)),
        readable_parts(b),
    ensures
        readable_parts(a + b),
{
    let c = a + b;
    assert forall|k: int| 0 <= k < c.len() implies (#[trigger] c[k] matches PartView::Input(x) ==> closed_placeholder(x)
        || (open_placeholder(x) && k == c.len() - 1)) by {
        if k < a.len() {
            assert(c[k] == a[k]);
        } else {
            assert(c[k] == b[k - a.len()]);
        }
    }
}

proof fn lemma_scan_readable(s: Seq<char>, i: int, acc: Seq<char>)
    requires
        0 <= i <= s.len(),
        scan(s, i, acc) is Ok,
    ensures
        readable_parts(scan(s, i, acc)->Ok_0),
    decreases s.len() - i,
{
    let n = s.len() as int;
    if i >= n {
    } else if s[i] == '{' {
        if s[i + 1] == '{' {
            lemma_scan_readable(s, i + 2, acc.push('{'));
        } else if s[i + 1] == '}' {
            lemma_scan_readable(s, i + 2, Seq::empty());
            lemma_readable_concat(
                text_part(acc).push(PartView::Input(seq!['{', '}'])),
                scan(s, i + 2, Seq::empty())->Ok_0,
            );
        } else {
            lemma_close_from(s, i + 2);
            let j = close_from(s, i + 2);
            if j < n {
                let x = s.subrange(i, j + 1);
                assert(closed_placeholder(x)) by {
                    assert forall|k: int| 1 <= k < x.len() - 1 implies x[k] != '}' by {
                        assert(x[k] == s[i + k]);
                    }
                }
                lemma_scan_readable(s, j + 1, Seq::empty());
                lemma_readable_concat(text_part(acc).push(PartView::Input(x)), scan(s, j + 1, Seq::empty())->Ok_0);
            } else {
                let x = s.subrange(i, n);
                assert(open_placeholder(x)) by {
                    assert forall|k: int| 1 <= k < x.len() implies x[k] != '}' by {
                        assert(x[k] == s[i + k]);
                    }
                }
            }
        }
    } else if s[i] == '}' {
        lemma_scan_readable(s, i + 2, acc.push('}'));
    } else {
        lemma_scan_readable(s, i + 1, acc.push(s[i]));
    }
}

/// Every placeholder that reading a format string gives is closed, except one
/// that runs to the end of the string, which is then the last part.
pub proof fn law_format_readable(s: Seq<char>)
    requires
        spec_format_parts(s) is Ok,
    ensures
        readable_parts(spec_format_parts(s)->Ok_0),
{
    lemma_scan_readable(s, 0, Seq::empty());
}

/// From the caller's format string `s` to the writes: every write that pairing
/// gives reads back, as a format string, into one placeholder per expression,
/// and together they hold the placeholders of `s` that expressions fill, in
/// order, and all the text of `s` (its `{{` and `}}` read as braces).
pub proof fn law_format_to_writes(s: Seq<char>, span: SpanRef, inputs: Seq<InputView>)
    requires
        spec_format_parts(s) is Ok,
        spec_merge(span, spec_format_parts(s)->Ok_0, inputs) is Ok,
    ensures
        writes_readable(spec_merge(span, spec_format_parts(s)->Ok_0, inputs)->Ok_0),
        write_placeholders(spec_merge(span, spec_format_parts(s)->Ok_0, inputs)->Ok_0) == kept_placeholders(
            placeholders_of(spec_format_parts(s)->Ok_0),
            inputs,
        ),
        write_text(spec_merge(span, spec_format_parts(s)->Ok_0, inputs)->Ok_0) == text_of(
            spec_format_parts(s)->Ok_0,
        ),
{
    law_format_readable(s);
    law_writes_read_back(span, spec_format_parts(s)->Ok_0, inputs);
}

/// What reading the written form of `q` gives, with text `acc` already pending:
/// runs of text joined into one part, no empty text, placeholders as they are.
pub open spec fn read_parts(acc: Seq<char>, q: Seq<PartView>) -> Seq<PartView>
    decreases q.len(),
{
    if q.len() == 0 {
        text_part(acc)
    } else {
        match q[0] {
            PartView::Text(t) => read_parts(acc + t, q.subrange(1, q.len() as int)),
            PartView::Input(x) => text_part(acc).push(PartView::Input(x)) + read_parts(
                Seq::empty(),
                q.subrange(1, q.len() as int),
            ),
        }
    }
}

proof fn lemma_read_blank(acc: Seq<char>, q: Seq<PartView>)
    requires
        forall|m: int| 0 <= m < q.len() ==> q[m] == PartView::Text(Seq::empty()),
    ensures
        read_parts(acc, q) == text_part(acc),
    decreases q.len(),
{
    if q.len() > 0 {
        let r = q.subrange(1, q.len() as int);
        assert forall|m: int| 0 <= m < r.len() implies r[m] == PartView::Text(Seq::empty()) by {
            assert(r[m] == q[m + 1]);
        }
        assert(q[0] == PartView::Text(Seq::empty()));
        assert(acc + Seq::<char>::empty() == acc);
        lemma_read_blank(acc, r);
    }
}

/// Reading the written form of parts gives them back, runs of text joined.
pub proof fn lemma_scan_exact(s: Seq<char>, i: int, acc: Seq<char>, q: Seq<PartView>)
    requires
        0 <= i <= s.len(),
        s.subrange(i, s.len() as int) == render(q),
        blank_after_open(q),
    ensures
        scan(s, i, acc) == Ok::<Seq<PartView>, crate::types::ErrorKind>(read_parts(acc, q)),
    decreases q.len(),
{
    if q.len() == 0 {
        lemma_render_empty();
        assert(s.subrange(i, s.len() as int).len() == 0);
    } else {
        let r = q.subrange(1, q.len() as int);
        assert(q == seq![q[0]] + r);
        lemma_render_concat(seq![q[0]], r);
        lemma_render_one(q[0]);
        let head = render_part(q[0]);
        let n = s.len() as int;
        assert(render(q).len() == head.len() + render(r).len());
        assert(i + head.len() <= n);
        assert(s.subrange(i, i + head.len()) == head) by {
            assert(s.subrange(i, i + head.len()) =~= s.subrange(i, n).subrange(0, head.len() as int));
        }
        assert(s.subrange(i + head.len(), n) == render(r)) by {
            assert(s.subrange(i + head.len(), n) =~= s.subrange(i, n).subrange(head.len() as int, (n - i)));
        }
        assert(blank_after_open(r)) by {
            assert forall|k: int| 0 <= k < r.len() implies (#[trigger] r[k] matches PartView::Input(x)
                ==> closed_placeholder(x) || (open_placeholder(x) && forall|m: int| k < m < r.len() ==> r[m]
                == PartView::Text(Seq::empty()))) by {
                assert(r[k] == q[k + 1]);
                assert forall|m: int| k < m < r.len() implies r[m] == q[m + 1] by {}
            }
        }
        match q[0] {
            PartView::Text(t) => {
                lemma_scan_text(s, i, acc, t);
                lemma_scan_exact(s, i + head.len(), acc + t, r);
            },
            PartView::Input(x) => {
                assert(q[0] matches PartView::Input(x) ==> closed_placeholder(x) || (open_placeholder(x)
                    && forall|m: int| 0 < m < q.len() ==> q[m] == PartView::Text(Seq::empty())));
                if closed_placeholder(x) {
                    lemma_scan_closed(s, i, acc, x);
                    lemma_scan_exact(s, i + x.len(), Seq::empty(), r);
                } else {
                    assert forall|m: int| 0 <= m < r.len() implies r[m] == PartView::Text(Seq::empty()) by {
                        assert(r[m] == q[m + 1]);
                    }
                    lemma_blank(r);
                    lemma_read_blank(Seq::empty(), r);
                    assert(text_part(Seq::<char>::empty()) =~= Seq::<PartView>::empty());
                    assert(s.subrange(i, n) == x);
                    lemma_scan_open(s, i, acc, x);
                    assert(text_part(acc).push(PartView::Input(x)) + Seq::<PartView>::empty()
                        == text_part(acc).push(PartView::Input(x)));
                }
            },
        }
    }
}

/// Reading parts that end with a placeholder, then more parts: the two readings side by side.
proof fn lemma_read_append(acc: Seq<char>, q: Seq<PartView>, r: Seq<PartView>)
    requires
        q.len() > 0,
        q[q.len() - 1] is Input,
    ensures
        read_parts(acc, q + r) == read_parts(acc, q) + read_parts(Seq::empty(), r),
    decreases q.len(),
{
    let q1 = q.subrange(1, q.len() as int);
    assert((q + r).subrange(1, (q + r).len() as int) == q1 + r);
    assert((q + r)[0] == q[0]);
    if q.len() == 1 {
        assert(q1 + r == r);
        assert(q1 == Seq::<PartView>::empty());
        assert(text_part(Seq::<char>::empty()) =~= Seq::<PartView>::empty());
        match q[0] {
            PartView::Input(x) => {
                assert(text_part(acc).push(PartView::Input(x)) + Seq::<PartView>::empty()
                    == text_part(acc).push(PartView::Input(x)));
            },
            PartView::Text(_) => {},
        }
    } else {
        match q[0] {
            PartView::Text(t) => {
                lemma_read_append(acc + t, q1, r);
            },
            PartView::Input(x) => {
                lemma_read_append(Seq::empty(), q1, r);
                let f = text_part(acc).push(PartView::Input(x));
                assert(f + (read_parts(Seq::empty(), q1) + read_parts(Seq::empty(), r)) == (f + read_parts(
                    Seq::empty(),
                    q1,
                )) + read_parts(Seq::empty(), r));
            },
        }
    }
}

proof fn lemma_read_text(t: Seq<char>)
    ensures
        read_parts(Seq::empty(), seq![PartView::Text(t)]) == text_part(t),
{
    let q = seq![PartView::Text(t)];
    assert(q.subrange(1, 1) =~= Seq::<PartView>::empty());
    assert(Seq::<char>::empty() + t =~= t);
    assert(q[0] == PartView::Text(t));
    assert(read_parts(Seq::empty(), q) == read_parts(Seq::<char>::empty() + t, q.subrange(1, 1)));
    assert(read_parts(t, Seq::<PartView>::empty()) == text_part(t));
}

proof fn lemma_read_text_input(t: Seq<char>, x: Seq<char>)
    ensures
        read_parts(Seq::empty(), seq![PartView::Text(t), PartView::Input(x)]) == text_part(t).push(PartView::Input(x)),
{
    let q = seq![PartView::Text(t), PartView::Input(x)];
    let q1 = q.subrange(1, 2);
    assert(q1 =~= seq![PartView::Input(x)]);
    assert(q1.subrange(1, 1) =~= Seq::<PartView>::empty());
    assert(Seq::<char>::empty() + t =~= t);
    assert(q[0] == PartView::Text(t));
    assert(q1[0] == PartView::Input(x));
    assert(read_parts(Seq::empty(), q) == read_parts(Seq::<char>::empty() + t, q1));
    assert(read_parts(t, q1) == text_part(t).push(PartView::Input(x)) + read_parts(Seq::empty(), q1.subrange(1, 1)));
    assert(read_parts(Seq::empty(), Seq::<PartView>::empty()) == text_part(Seq::<char>::empty()));
    assert(text_part(Seq::<char>::empty()) =~= Seq::<PartView>::empty());
    assert(text_part(t).push(PartView::Input(x)) + Seq::<PartView>::empty() == text_part(t).push(PartView::Input(x)));
}

/// One thing that the writes and style changes do, in order: write a part of
/// a format string, or change the style.
pub enum WriteEvent {
    Part(PartView),
    Style(ControlView),
}

/// Parts as events.
pub open spec fn part_events(p: Seq<PartView>) -> Seq<WriteEvent> {
    p.map_values(|x: PartView| WriteEvent::Part(x))
}

/// What the output does, in order: the parts that each write's format string
/// reads back into, and each style change.
pub open spec fn write_events(out: Seq<OutputView>) -> Seq<WriteEvent>
    decreases out.len(),
{
    if out.len() == 0 {
        Seq::empty()
    } else {
        (match out[0] {
            OutputView::Raw(f, _) => match spec_format_parts(f) {
                Ok(p) => part_events(p),
                Err(_) => Seq::empty(),
            },
            OutputView::Ctrl(c) => seq![WriteEvent::Style(c)],
        }) + write_events(out.subrange(1, out.len() as int))
    }
}

/// What the caller asked for, in order: the parts of the format string, with
/// each placeholder that a styling command takes replaced by that style change.
pub open spec fn marked(parts: Seq<PartView>, inputs: Seq<InputView>) -> Seq<WriteEvent>
    decreases parts.len(),
{
    if parts.len() == 0 {
        Seq::empty()
    } else {
        let rest = parts.subrange(1, parts.len() as int);
        match parts[0] {
            PartView::Text(t) => seq![WriteEvent::Part(PartView::Text(t))] + marked(rest, inputs),
            PartView::Input(x) => if inputs.len() == 0 {
                seq![WriteEvent::Part(PartView::Input(x))] + marked(rest, inputs)
            } else {
                (match inputs[0] {
                    InputView::Ctrl(c) => seq![WriteEvent::Style(c)],
                    InputView::Raw(_) => seq![WriteEvent::Part(PartView::Input(x))],
                }) + marked(rest, inputs.subrange(1, inputs.len() as int))
            },
        }
    }
}

/// Text as an event, if there is any.
pub open spec fn text_event(t: Seq<char>) -> Seq<WriteEvent> {
    if t.len() > 0 {
        seq![WriteEvent::Part(PartView::Text(t))]
    } else {
        Seq::empty()
    }
}

/// The same as `marked`, over the slots of the parts.
pub open spec fn marked_slots(
    sl: Seq<(Seq<char>, Seq<char>)>,
    tail: Seq<char>,
    inputs: Seq<InputView>,
) -> Seq<WriteEvent>
    decreases inputs.len(),
{
    if inputs.len() == 0 {
        text_event(tail)
    } else if sl.len() == 0 {
        Seq::empty()
    } else {
        text_event(sl[0].0) + (match inputs[0] {
            InputView::Ctrl(c) => seq![WriteEvent::Style(c)],
            InputView::Raw(_) => seq![WriteEvent::Part(PartView::Input(sl[0].1))],
        }) + marked_slots(sl.subrange(1, sl.len() as int), tail, inputs.subrange(1, inputs.len() as int))
    }
}

proof fn lemma_part_events_concat(a: Seq<PartView>, b: Seq<PartView>)
    ensures
        part_events(a + b) == part_events(a) + part_events(b),
{
    assert(part_events(a + b) =~= part_events(a) + part_events(b));
}

proof fn lemma_events_concat(a: Seq<OutputView>, b: Seq<OutputView>)
    ensures
        write_events(a + b) == write_events(a) + write_events(b),
    decreases a.len(),
{
    if a.len() == 0 {
        assert(a + b == b);
    } else {
        lemma_events_concat(a.subrange(1, a.len() as int), b);
        assert((a + b).subrange(1, (a + b).len() as int) == a.subrange(1, a.len() as int) + b);
        assert((a + b)[0] == a[0]);
    }
}

proof fn lemma_events_one(o: OutputView)
    ensures
        write_events(seq![o]) == (match o {
            OutputView::Raw(f, _) => match spec_format_parts(f) {
                Ok(p) => part_events(p),
                Err(_) => Seq::empty(),
            },
            OutputView::Ctrl(c) => seq![WriteEvent::Style(c)],
        }),
{
    assert(seq![o].subrange(1, 1) =~= Seq::<OutputView>::empty());
    let e = Seq::<OutputView>::empty();
    assert(write_events(e) == Seq::<WriteEvent>::empty());
    assert(write_events(seq![o]) =~= (match o {
        OutputView::Raw(f, _) => match spec_format_parts(f) {
            Ok(p) => part_events(p),
            Err(_) => Seq::empty(),
        },
        OutputView::Ctrl(c) => seq![WriteEvent::Style(c)],
    }));
}

/// The write of pending parts `q`, as events: what `q` reads back into.
proof fn lemma_flush_events(q: Seq<PartView>, items: Seq<Seq<Token>>)
    requires
        blank_after_open(q),
    ensures
        write_events(flush_raw(render(q), items)) == part_events(read_parts(Seq::empty(), q)),
{
    let f = render(q);
    assert(f.subrange(0, f.len() as int) == f);
    lemma_scan_exact(f, 0, Seq::empty(), q);
    if f.len() > 0 {
        lemma_events_one(OutputView::Raw(f, items));
        assert(flush_raw(f, items) == seq![OutputView::Raw(f, items)]);
    } else {
        assert(scan(f, 0, Seq::empty()) == Ok::<Seq<PartView>, crate::types::ErrorKind>(text_part(Seq::empty())));
        assert(text_part(Seq::<char>::empty()) == Seq::<PartView>::empty());
        assert(part_events(Seq::<PartView>::empty()) =~= Seq::<WriteEvent>::empty());
        assert(write_events(Seq::<OutputView>::empty()) == Seq::<WriteEvent>::empty());
    }
}

/// The pending parts end with a placeholder, or there are none.
pub open spec fn ends_open_for_text(q: Seq<PartView>) -> bool {
    q.len() == 0 || q[q.len() - 1] is Input
}

proof fn lemma_read_pending_then(q: Seq<PartView>, r: Seq<PartView>)
    requires
        ends_open_for_text(q),
    ensures
        read_parts(Seq::empty(), q + r) == read_parts(Seq::empty(), q) + read_parts(Seq::empty(), r),
{
    if q.len() == 0 {
        assert(q + r == r);
        assert(text_part(Seq::<char>::empty()) =~= Seq::<PartView>::empty());
        assert(Seq::<PartView>::empty() + read_parts(Seq::empty(), r) == read_parts(Seq::empty(), r));
    } else {
        lemma_read_append(Seq::empty(), q, r);
    }
}

proof fn lemma_merge_events(
    span: SpanRef,
    sl: Seq<(Seq<char>, Seq<char>)>,
    tail: Seq<char>,
    inputs: Seq<InputView>,
    q: Seq<PartView>,
    items: Seq<Seq<Token>>,
)
    requires
        slots_readable(sl, tail),
        blank_after_open(q),
        ends_open_for_text(q),
        (forall|k: int| 0 <= k < q.len() ==> (#[trigger] q[k] matches PartView::Input(y) ==> closed_placeholder(y)))
            || (sl.len() == 0 && tail.len() == 0),
        placeholders_of(q).len() == items.len(),
        merge_rest(span, sl, tail, inputs, render(q), items) is Ok,
    ensures
        write_events(merge_rest(span, sl, tail, inputs, render(q), items)->Ok_0) == part_events(
            read_parts(Seq::empty(), q),
        ) + marked_slots(sl, tail, inputs),
    decreases inputs.len(),
{
    if inputs.len() == 0 {
        lemma_push_text(q, tail);
        let q2 = q.push(PartView::Text(tail));
        lemma_flush_events(q2, items);
        assert(q2 == q + seq![PartView::Text(tail)]);
        lemma_read_pending_then(q, seq![PartView::Text(tail)]);
        lemma_read_text(tail);
        lemma_part_events_concat(read_parts(Seq::empty(), q), text_part(tail));
        assert(part_events(text_part(tail)) =~= text_event(tail));
    } else {
        let rest_sl = sl.subrange(1, sl.len() as int);
        let rest_in = inputs.subrange(1, inputs.len() as int);
        assert(slots_readable(rest_sl, tail)) by {
            assert forall|k: int| 0 <= k < rest_sl.len() implies closed_placeholder(#[trigger] rest_sl[k].1) || (
            open_placeholder(rest_sl[k].1) && k == rest_sl.len() - 1 && tail.len() == 0) by {
                assert(rest_sl[k] == sl[k + 1]);
            }
        }
        lemma_pending_empty();
        let t = sl[0].0;
        let x = sl[0].1;
        assert(closed_placeholder(sl[0].1) || (open_placeholder(sl[0].1) && 0 == sl.len() - 1 && tail.len() == 0));
        lemma_push_text(q, t);
        let q1 = q.push(PartView::Text(t));
        assert(q1 == q + seq![PartView::Text(t)]);
        lemma_read_pending_then(q, seq![PartView::Text(t)]);
        lemma_read_text(t);
        lemma_part_events_concat(read_parts(Seq::empty(), q), text_part(t));
        assert(part_events(text_part(t)) =~= text_event(t));
        match inputs[0] {
            InputView::Ctrl(c) => {
                let f = render(q1);
                lemma_flush_events(q1, items);
                lemma_flush_readback(q1, items);
                let kept = kept_items(f, items);
                assert(kept =~= Seq::<Seq<Token>>::empty());
                assert(ends_open_for_text(Seq::<PartView>::empty()));
                lemma_merge_events(span, rest_sl, tail, rest_in, Seq::empty(), kept);
                assert(read_parts(Seq::empty(), Seq::<PartView>::empty()) == Seq::<PartView>::empty()) by {
                    assert(text_part(Seq::<char>::empty()) =~= Seq::<PartView>::empty());
                }
                assert(part_events(Seq::<PartView>::empty()) =~= Seq::<WriteEvent>::empty());
                let out2 = merge_rest(span, rest_sl, tail, rest_in, Seq::empty(), kept)->Ok_0;
                let o = OutputView::Ctrl(c);
                lemma_events_one(o);
                let front = flush_raw(f, items).push(o);
                assert(front == flush_raw(f, items) + seq![o]);
                lemma_events_concat(flush_raw(f, items), seq![o]);
                lemma_events_concat(front, out2);
                assert(write_events(front + out2) =~= part_events(read_parts(Seq::empty(), q)) + marked_slots(
                    sl,
                    tail,
                    inputs,
                ));
            },
            InputView::Raw(e) => {
                lemma_push_input(q1, x);
                let q2 = q1.push(PartView::Input(x));
                assert((forall|k: int| 0 <= k < q2.len() ==> (#[trigger] q2[k] matches PartView::Input(y)
                    ==> closed_placeholder(y))) || (rest_sl.len() == 0 && tail.len() == 0)) by {
                    if closed_placeholder(x) {
                        assert forall|k: int| 0 <= k < q2.len() implies (#[trigger] q2[k] matches PartView::Input(y)
                            ==> closed_placeholder(y)) by {
                            if k < q1.len() {
                                assert(q2[k] == q1[k]);
                                if k < q.len() {
                                    assert(q1[k] == q[k]);
                                }
                            }
                        }
                    }
                }
                assert(render(q2) == render(q) + escape(sl[0].0) + sl[0].1);
                assert(ends_open_for_text(q2));
                lemma_merge_events(span, rest_sl, tail, rest_in, q2, items.push(e));
                assert(q2 == q + seq![PartView::Text(t), PartView::Input(x)]);
                lemma_read_pending_then(q, seq![PartView::Text(t), PartView::Input(x)]);
                lemma_read_text_input(t, x);
                lemma_part_events_concat(read_parts(Seq::empty(), q), text_part(t).push(PartView::Input(x)));
                assert(part_events(text_part(t).push(PartView::Input(x))) =~= text_event(t) + seq![
                    WriteEvent::Part(PartView::Input(x)),
                ]);
                assert(part_events(read_parts(Seq::empty(), q2)) + marked_slots(rest_sl, tail, rest_in)
                    =~= part_events(read_parts(Seq::empty(), q)) + marked_slots(sl, tail, inputs));
            },
        }
    }
}

/// Over canonical parts, `marked` and `marked_slots` say the same.
proof fn lemma_marked_slots(parts: Seq<PartView>, inputs: Seq<InputView>)
    requires
        parts_canonical(parts),
        inputs.len() == slots(parts).0.len(),
    ensures
        marked(parts, inputs) == marked_slots(slots(parts).0, slots(parts).1, inputs),
    decreases parts.len(),
{
    if parts.len() > 0 {
        let rest = parts.subrange(1, parts.len() as int);
        assert(parts_canonical(rest)) by {
            assert forall|k: int| 0 <= k < rest.len() implies (#[trigger] rest[k] matches PartView::Text(t)
                ==> t.len() > 0) by {
                assert(rest[k] == parts[k + 1]);
            }
            assert forall|k: int| 0 <= k < rest.len() implies (#[trigger] rest[k] matches PartView::Input(x)
                ==> x.len() > 0 && x[0] == '{') by {
                assert(rest[k] == parts[k + 1]);
            }
            assert forall|k: int| 0 <= k < rest.len() - 1 implies !(#[trigger] rest[k] is Text
                && rest[k + 1] is Text) by {
                assert(rest[k] == parts[k + 1]);
                assert(rest[k + 1] == parts[k + 2]);
            }
        }
        let (sl, tail) = slots(rest);
        assert(text_event(Seq::<char>::empty()) =~= Seq::<WriteEvent>::empty());
        match parts[0] {
            PartView::Input(x) => {
                let sl2 = seq![(Seq::<char>::empty(), x)] + sl;
                assert(sl2.subrange(1, sl2.len() as int) == sl);
                assert(sl2[0] == (Seq::<char>::empty(), x));
                lemma_marked_slots(rest, inputs.subrange(1, inputs.len() as int));
            },
            PartView::Text(t) => {
                assert(t.len() > 0);
                if rest.len() == 0 {
                    assert(inputs.len() == 0);
                    assert(t + Seq::<char>::empty() == t);
                    assert(marked(rest, inputs) == Seq::<WriteEvent>::empty());
                    assert(marked(parts, inputs) =~= seq![WriteEvent::Part(PartView::Text(t))]);
                } else {
                    assert(!(parts[0] is Text && parts[1] is Text));
                    assert(rest[0] == parts[1]);
                    let rest2 = rest.subrange(1, rest.len() as int);
                    match rest[0] {
                        PartView::Input(x) => {
                            let (sl3, tail3) = slots(rest2);
                            assert(sl == seq![(Seq::<char>::empty(), x)] + sl3);
                            assert(tail == tail3);
                            let sl2 = sl.update(0, (t + sl[0].0, sl[0].1));
                            assert(sl[0] == (Seq::<char>::empty(), x));
                            assert(t + Seq::<char>::empty() == t);
                            assert(sl2[0] == (t, x));
                            assert(sl2.subrange(1, sl2.len() as int) =~= sl3);
                            assert(sl.subrange(1, sl.len() as int) =~= sl3);
                            lemma_marked_slots(rest, inputs);
                            assert(marked(parts, inputs) == seq![WriteEvent::Part(PartView::Text(t))] + marked(rest, inputs));
                            assert(marked_slots(sl2, tail, inputs) =~= seq![WriteEvent::Part(PartView::Text(t))]
                                + marked_slots(sl, tail, inputs));
                        },
                        PartView::Text(_) => {},
                    }
                }
            },
        }
    }
}

/// Styling commands take the place of their placeholders, and nothing moves
/// across them: read back in order, the writes and style changes are the
/// caller's format string part by part, text where it stood, each
/// placeholder of an expression where it stood, and each placeholder of a
/// styling command replaced by that style change. Text before a command's
/// placeholder is written before the style changes; text after it, after.
pub proof fn law_styles_keep_text_in_place(span: SpanRef, parts: Seq<PartView>, inputs: Seq<InputView>)
    requires
        parts_canonical(parts),
        readable_parts(parts),
        spec_merge(span, parts, inputs) is Ok,
    ensures
        write_events(spec_merge(span, parts, inputs)->Ok_0) == marked(parts, inputs),
{
    law_placeholder_count(span, parts, inputs);
    lemma_slots_count(parts);
    lemma_slots_readback(parts);
    lemma_pending_empty();
    let q = Seq::<PartView>::empty();
    assert(ends_open_for_text(q));
    lemma_merge_events(span, slots(parts).0, slots(parts).1, inputs, q, Seq::empty());
    assert(read_parts(Seq::empty(), q) == Seq::<PartView>::empty()) by {
        assert(text_part(Seq::<char>::empty()) =~= Seq::<PartView>::empty());
    }
    assert(part_events(q) =~= Seq::<WriteEvent>::empty());
    lemma_marked_slots(parts, inputs);
    assert(Seq::<WriteEvent>::empty() + marked(parts, inputs) == marked(parts, inputs));
}

/// The same from the caller's format string: the writes and style changes
/// that pairing gives follow the string's parts in order, with each styling
/// command's placeholder replaced by its style change.
pub proof fn law_format_styles_in_place(s: Seq<char>, span: SpanRef, inputs: Seq<InputView>)
    requires
        spec_format_parts(s) is Ok,
        spec_merge(span, spec_format_parts(s)->Ok_0, inputs) is Ok,
    ensures
        write_events(spec_merge(span, spec_format_parts(s)->Ok_0, inputs)->Ok_0) == marked(
            spec_format_parts(s)->Ok_0,
            inputs,
        ),
{
    law_format_readable(s);
    law_format_canonical(s);
    law_styles_keep_text_in_place(span, spec_format_parts(s)->Ok_0, inputs);
}

/// What follows the first `n` of canonical parts is canonical.
proof fn lemma_canonical_suffix(q: Seq<PartView>, n: int)
    requires
        parts_canonical(q),
        0 <= n <= q.len(),
    ensures
        parts_canonical(q.subrange(n, q.len() as int)),
{
    let r = q.subrange(n, q.len() as int);
    assert forall|k: int| 0 <= k < r.len() implies (#[trigger] r[k] matches PartView::Text(t) ==> t.len() > 0) by {
        assert(r[k] == q[k + n]);
    }
    assert forall|k: int| 0 <= k < r.len() implies (#[trigger] r[k] matches PartView::Input(x)
        ==> x.len() > 0 && x[0] == '{') by {
        assert(r[k] == q[k + n]);
    }
    assert forall|k: int| 0 <= k < r.len() - 1 implies !(#[trigger] r[k] is Text && r[k + 1] is Text) by {
        assert(r[k] == q[k + n]);
        assert(r[k + 1] == q[k + n + 1]);
    }
}

/// Canonical parts read back as themselves.
proof fn lemma_read_canonical(q: Seq<PartView>)
    requires
        parts_canonical(q),
    ensures
        read_parts(Seq::empty(), q) == q,
    decreases q.len(),
{
    assert(text_part(Seq::<char>::empty()) =~= Seq::<PartView>::empty());
    if q.len() > 0 {
        let r = q.subrange(1, q.len() as int);
        lemma_canonical_suffix(q, 1);
        match q[0] {
            PartView::Input(x) => {
                lemma_read_canonical(r);
                assert(q == seq![PartView::Input(x)] + r);
                assert(Seq::<PartView>::empty().push(PartView::Input(x)) =~= seq![PartView::Input(x)]);
            },
            PartView::Text(t) => {
                assert(t.len() > 0);
                assert(Seq::<char>::empty() + t =~= t);
                assert(read_parts(Seq::empty(), q) == read_parts(Seq::<char>::empty() + t, r));
                assert(read_parts(Seq::empty(), q) == read_parts(t, r));
                if r.len() == 0 {
                    assert(read_parts(t, r) == text_part(t));
                    assert(q =~= seq![PartView::Text(t)]);
                } else {
                    assert(!(q[0] is Text && q[1] is Text));
                    assert(r[0] == q[1]);
                    let r2 = r.subrange(1, r.len() as int);
                    lemma_canonical_suffix(q, 2);
                    assert(r2 == q.subrange(2, q.len() as int));
                    lemma_read_canonical(r2);
                    match r[0] {
                        PartView::Input(x) => {
                            assert(read_parts(t, r) == text_part(t).push(PartView::Input(x)) + read_parts(
                                Seq::empty(),
                                r2,
                            ));
                            assert(q =~= seq![PartView::Text(t), PartView::Input(x)] + r2);
                            assert(text_part(t).push(PartView::Input(x)) =~= seq![PartView::Text(t), PartView::Input(x)]);
                        },
                        PartView::Text(_) => {},
                    }
                }
            },
        }
    }
}

/// Writing parts out as a format string and reading it gives them back: for
/// parts in canonical form whose placeholders are closed but for perhaps the
/// last, the written form reads, and into exactly those parts. With
/// `law_format_roundtrip`, reading accepts exactly the written forms of such parts.
pub proof fn law_render_then_read(q: Seq<PartView>)
    requires
        parts_canonical(q),
        readable_parts(q),
    ensures
        spec_format_parts(render(q)) == Ok::<Seq<PartView>, crate::types::ErrorKind>(q),
{
    assert(blank_after_open(q)) by {
        assert forall|k: int| 0 <= k < q.len() implies (#[trigger] q[k] matches PartView::Input(x)
            ==> closed_placeholder(x) || (open_placeholder(x) && forall|m: int| k < m < q.len() ==> q[m]
            == PartView::Text(Seq::empty()))) by {}
    }
    let f = render(q);
    assert(f.subrange(0, f.len() as int) == f);
    lemma_scan_exact(f, 0, Seq::empty(), q);
    lemma_read_canonical(q);
}

} // verus!
