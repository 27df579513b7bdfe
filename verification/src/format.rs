use vstd::prelude::*;

use crate::text::{chars_of, string_of};
use crate::token::{span_of, SpanRef, Token};
use crate::types::{part_views, CompileError, ErrorKind, FormatItems, FormatPart, PartView};

verus! {

/// The index of the first `}` in `s` at or after `i`, or `s.len()` if there is none.
pub open spec fn close_from(s: Seq<char>, i: int) -> int
    decreases s.len() - i,
{
    if i < 0 || i >= s.len() {
        s.len() as int
    } else if s[i] == '}' {
        i
    } else {
        close_from(s, i + 1)
    }
}

/// The pending text, as a part list: nothing if it is empty.
pub open spec fn text_part(acc: Seq<char>) -> Seq<PartView> {
    if acc.len() == 0 {
        Seq::empty()
    } else {
        seq![PartView::Text(acc)]
    }
}

/// `front` followed by the parts of `rest`, or the error of `rest`.
pub open spec fn then_parts(
    front: Seq<PartView>,
    rest: Result<Seq<PartView>, ErrorKind>,
) -> Result<Seq<PartView>, ErrorKind> {
    match rest {
        Ok(parts) => Ok(front + parts),
        Err(e) => Err(e),
    }
}

/// The parts of the format string `s` from position `i` on, where `acc` is text
/// already read that no placeholder has ended yet.
///
/// `{{` and `}}` stand for one brace of text; `{}` is a placeholder; `{` followed
/// by anything else opens a placeholder that runs to the next `}` (or to the end
/// of the string, if none follows); a `{` or `}` at the very end, and a `}` that
/// is not doubled, are errors.
pub open spec fn scan(s: Seq<char>, i: int, acc: Seq<char>) -> Result<Seq<PartView>, ErrorKind>
    decreases s.len() - i,
{
    if i < 0 || i >= s.len() {
        Ok(text_part(acc))
    } else if s[i] == '{' {
        if i + 1 >= s.len() {
            Err(ErrorKind::UnexpectedEnd)
        } else if s[i + 1] == '{' {
            scan(s, i + 2, acc.push('{'))
        } else if s[i + 1] == '}' {
            then_parts(text_part(acc).push(PartView::Input(seq!['{', '}'])), scan(s, i + 2, Seq::empty()))
        } else {
            let j = close_from(s, i + 2);
            proof {
                lemma_close_from(s, i + 2);
            }
            if j < s.len() {
                then_parts(
                    text_part(acc).push(PartView::Input(s.subrange(i, j + 1))),
                    scan(s, j + 1, Seq::empty()),
                )
            } else {
                Ok(text_part(acc).push(PartView::Input(s.subrange(i, s.len() as int))))
            }
        }
    } else if s[i] == '}' {
        if i + 1 >= s.len() {
            Err(ErrorKind::UnexpectedEnd)
        } else if s[i + 1] == '}' {
            scan(s, i + 2, acc.push('}'))
        } else {
            Err(ErrorKind::UnmatchedClose)
        }
    } else {
        scan(s, i + 1, acc.push(s[i]))
    }
}

/// The parts of the whole format string `s`.
pub open spec fn spec_format_parts(s: Seq<char>) -> Result<Seq<PartView>, ErrorKind> {
    scan(s, 0, Seq::empty())
}

/// `close_from` finds the first `}`: none stands between `i` and it.
pub proof fn lemma_close_from(s: Seq<char>, i: int)
    requires
        0 <= i,
    ensures
        i <= close_from(s, i) <= s.len() || (i > s.len() && close_from(s, i) == s.len()),
        close_from(s, i) < s.len() ==> s[close_from(s, i)] == '}',
        forall|k: int| i <= k < close_from(s, i) ==> s[k] != '}',
    decreases s.len() - i,
{
    if i < s.len() && s[i] != '}' {
        lemma_close_from(s, i + 1);
    }
}

proof fn lemma_then_assoc(
    a: Seq<PartView>,
    b: Seq<PartView>,
    r: Result<Seq<PartView>, ErrorKind>,
)
    ensures
        then_parts(a, then_parts(b, r)) == then_parts(a + b, r),
{
    if let Ok(q) = r {
        assert(a + (b + q) == (a + b) + q);
    }
}

fn push_text(parts: &mut Vec<FormatPart>, cur: &Vec<char>)
    ensures
        part_views(final(parts)@) == part_views(old(parts)@) + text_part(cur@),
{
    let ghost before = part_views(parts@);
    if cur.len() > 0 {
        parts.push(FormatPart::Text(string_of(cur)));
    }
    assert(part_views(parts@) == before + text_part(cur@));
}

/// Splits a format string into text and placeholders, as `write!` reads it.
pub fn scan_format(s: &Vec<char>) -> (res: Result<Vec<FormatPart>, ErrorKind>)
    ensures
        match res {
            Ok(parts) => spec_format_parts(s@) == Ok::<Seq<PartView>, ErrorKind>(part_views(parts@)),
            Err(e) => spec_format_parts(s@) == Err::<Seq<PartView>, ErrorKind>(e),
        },
{
    let n = s.len();
    let mut parts: Vec<FormatPart> = Vec::new();
    let mut cur: Vec<char> = Vec::new();
    let mut i: usize = 0;
    while i < n
        invariant
            n == s@.len(),
            i <= n,
            spec_format_parts(s@) == then_parts(part_views(parts@), scan(s@, i as int, cur@)),
        decreases n - i,
    {
        let ch = s[i];
        if ch == '{' {
            if i + 1 >= n {
                return Err(ErrorKind::UnexpectedEnd);
            }
            let next = s[i + 1];
            if next == '{' {
                cur.push('{');
                i = i + 2;
            } else if next == '}' {
                let ghost before0 = part_views(parts@);
                push_text(&mut parts, &cur);
                proof {
                    lemma_then_assoc(before0, text_part(cur@).push(PartView::Input(seq!['{', '}'])), scan(s@, i + 2, Seq::empty()));
                    assert(before0 + text_part(cur@).push(PartView::Input(seq!['{', '}'])) == part_views(parts@).push(PartView::Input(seq!['{', '}'])));
                }
                let mut brace: Vec<char> = Vec::new();
                brace.push('{');
                brace.push('}');
                assert(brace@ == seq!['{', '}']);
                let ghost before = part_views(parts@);
                parts.push(FormatPart::Input(string_of(&brace)));
                assert(part_views(parts@) == before.push(PartView::Input(seq!['{', '}'])));
                cur = Vec::new();
                i = i + 2;
            } else {
                let ghost before = part_views(parts@);
                push_text(&mut parts, &cur);
                proof {
                    lemma_close_from(s@, i + 2);
                }
                let mut spec: Vec<char> = Vec::new();
                spec.push('{');
                spec.push(next);
                let mut j: usize = i + 2;
                while j < n && s[j] != '}'
                    invariant
                        n == s@.len(),
                        i + 2 <= j <= n,
                        spec@ == s@.subrange(i as int, j as int),
                        close_from(s@, i + 2) == close_from(s@, j as int),
                    decreases n - j,
                {
                    spec.push(s[j]);
                    j = j + 1;
                    assert(spec@ == s@.subrange(i as int, j as int));
                }
                if j < n {
                    spec.push('}');
                    assert(spec@ == s@.subrange(i as int, j + 1));
                    let ghost mid = part_views(parts@);
                    parts.push(FormatPart::Input(string_of(&spec)));
                    assert(part_views(parts@) == mid.push(PartView::Input(spec@)));
                    proof {
                        lemma_then_assoc(before, text_part(cur@).push(PartView::Input(spec@)), scan(s@, j + 1, Seq::empty()));
                        assert(before + text_part(cur@).push(PartView::Input(spec@)) == part_views(parts@));
                    }
                    cur = Vec::new();
                    i = j + 1;
                } else {
                    assert(spec@ == s@.subrange(i as int, n as int));
                    let ghost mid = part_views(parts@);
                    parts.push(FormatPart::Input(string_of(&spec)));
                    assert(part_views(parts@) == mid.push(PartView::Input(spec@)));
                    assert(before + text_part(cur@).push(PartView::Input(spec@)) == part_views(parts@));
                    return Ok(parts);
                }
            }
        } else if ch == '}' {
            if i + 1 >= n {
                return Err(ErrorKind::UnexpectedEnd);
            }
            if s[i + 1] == '}' {
                cur.push('}');
                i = i + 2;
            } else {
                return Err(ErrorKind::UnmatchedClose);
            }
        } else {
            cur.push(ch);
            i = i + 1;
        }
    }
    push_text(&mut parts, &cur);
    Ok(parts)
}

/// `s` without the `"` characters at its start.
pub open spec fn trim_front_quotes(s: Seq<char>) -> Seq<char>
    decreases s.len(),
{
    if s.len() > 0 && s[0] == '"' {
        trim_front_quotes(s.subrange(1, s.len() as int))
    } else {
        s
    }
}

/// `s` without the `"` characters at its end.
pub open spec fn trim_back_quotes(s: Seq<char>) -> Seq<char>
    decreases s.len(),
{
    if s.len() > 0 && s[s.len() - 1] == '"' {
        trim_back_quotes(s.subrange(0, s.len() - 1))
    } else {
        s
    }
}

/// `s` with every `"` removed from both of its ends.
pub open spec fn trim_quotes(s: Seq<char>) -> Seq<char> {
    trim_back_quotes(trim_front_quotes(s))
}

proof fn lemma_trim_front(s: Seq<char>, lo: int)
    requires
        0 <= lo <= s.len(),
        forall|k: int| 0 <= k < lo ==> s[k] == '"',
    ensures
        trim_front_quotes(s) == trim_front_quotes(s.subrange(lo, s.len() as int)),
    decreases lo,
{
    if lo > 0 {
        let t = s.subrange(1, s.len() as int);
        lemma_trim_front(t, lo - 1);
        assert(t.subrange(lo - 1, t.len() as int) == s.subrange(lo, s.len() as int));
    } else {
        assert(s.subrange(0, s.len() as int) == s);
    }
}

proof fn lemma_trim_back(s: Seq<char>, hi: int)
    requires
        0 <= hi <= s.len(),
        forall|k: int| hi <= k < s.len() ==> s[k] == '"',
    ensures
        trim_back_quotes(s) == trim_back_quotes(s.subrange(0, hi)),
    decreases s.len() - hi,
{
    if hi < s.len() {
        let t = s.subrange(0, s.len() - 1);
        lemma_trim_back(t, hi);
        assert(t.subrange(0, hi) == s.subrange(0, hi));
    } else {
        assert(s.subrange(0, s.len() as int) == s);
    }
}

/// The characters of `s` with every `"` removed from both ends, as `str::trim_matches('"')` gives them.
pub fn trim_quote_chars(s: &Vec<char>) -> (res: Vec<char>)
    ensures
        res@ == trim_quotes(s@),
{
    let n = s.len();
    let mut lo: usize = 0;
    while lo < n && s[lo] == '"'
        invariant
            n == s@.len(),
            lo <= n,
            forall|k: int| 0 <= k < lo ==> s@[k] == '"',
        decreases n - lo,
    {
        lo = lo + 1;
    }
    proof {
        lemma_trim_front(s@, lo as int);
    }
    let ghost front = s@.subrange(lo as int, n as int);
    assert(trim_front_quotes(front) == front);
    let mut hi: usize = n;
    while hi > lo && s[hi - 1] == '"'
        invariant
            n == s@.len(),
            lo <= hi <= n,
            forall|k: int| hi <= k < n ==> s@[k] == '"',
        decreases hi,
    {
        hi = hi - 1;
    }
    proof {
        lemma_trim_back(front, hi - lo);
        assert(front.subrange(0, hi - lo) == s@.subrange(lo as int, hi as int));
        let mid = s@.subrange(lo as int, hi as int);
        assert(trim_back_quotes(mid) == mid);
    }
    let mut res: Vec<char> = Vec::new();
    let mut i: usize = lo;
    while i < hi
        invariant
            n == s@.len(),
            lo <= i <= hi <= n,
            res@ == s@.subrange(lo as int, i as int),
        decreases hi - i,
    {
        res.push(s[i]);
        i = i + 1;
        assert(res@ == s@.subrange(lo as int, i as int));
    }
    res
}

/// What reading the format-string argument gives: its place and its parts, or the error.
pub open spec fn spec_parse_format_string(input: Seq<Token>) -> Result<(SpanRef, Seq<PartView>), CompileError> {
    if input.len() == 0 {
        Err(CompileError { start: SpanRef::CallSite, end: SpanRef::CallSite, kind: ErrorKind::EmptyFormat })
    } else if input.len() >= 2 {
        Err(CompileError { start: span_of(input[1]), end: span_of(input[1]), kind: ErrorKind::ExtraToken })
    } else {
        let span = span_of(input[0]);
        match input[0] {
            Token::Literal { text, .. } => {
                if text@.len() > 0 && text@[0] == '"' {
                    match spec_format_parts(trim_quotes(text@)) {
                        Ok(parts) => Ok((span, parts)),
                        Err(kind) => Err(CompileError { start: span, end: span, kind }),
                    }
                } else {
                    Err(CompileError { start: span, end: span, kind: ErrorKind::NotALiteralString })
                }
            },
            _ => Err(CompileError { start: span, end: span, kind: ErrorKind::NotALiteralString }),
        }
    }
}

proof fn lemma_front_piece(s: Seq<char>)
    ensures
        trim_front_quotes(s).len() <= s.len(),
        trim_front_quotes(s) == s.subrange(s.len() - trim_front_quotes(s).len(), s.len() as int),
        forall|k: int| 0 <= k < s.len() - trim_front_quotes(s).len() ==> s[k] == '"',
        trim_front_quotes(s).len() > 0 ==> trim_front_quotes(s)[0] != '"',
    decreases s.len(),
{
    if s.len() > 0 && s[0] == '"' {
        let t = s.subrange(1, s.len() as int);
        lemma_front_piece(t);
        assert forall|k: int| 0 <= k < s.len() - trim_front_quotes(s).len() implies s[k] == '"' by {
            if k > 0 {
                assert(s[k] == t[k - 1]);
            }
        }
        assert(t.subrange(t.len() - trim_front_quotes(t).len(), t.len() as int) =~= s.subrange(
            s.len() - trim_front_quotes(s).len(),
            s.len() as int,
        ));
    } else {
        assert(s.subrange(0, s.len() as int) == s);
    }
}

proof fn lemma_back_piece(s: Seq<char>)
    ensures
        trim_back_quotes(s).len() <= s.len(),
        trim_back_quotes(s) == s.subrange(0, trim_back_quotes(s).len() as int),
        forall|k: int| trim_back_quotes(s).len() <= k < s.len() ==> s[k] == '"',
        trim_back_quotes(s).len() > 0 ==> trim_back_quotes(s).last() != '"',
        trim_back_quotes(s).len() > 0 ==> trim_back_quotes(s)[0] == s[0],
    decreases s.len(),
{
    if s.len() > 0 && s[s.len() - 1] == '"' {
        let t = s.subrange(0, s.len() - 1);
        lemma_back_piece(t);
        assert forall|k: int| trim_back_quotes(s).len() <= k < s.len() implies s[k] == '"' by {
            if k < s.len() - 1 {
                assert(s[k] == t[k]);
            }
        }
        assert(t.subrange(0, trim_back_quotes(t).len() as int) =~= s.subrange(0, trim_back_quotes(s).len() as int));
    } else {
        assert(s.subrange(0, s.len() as int) == s);
    }
}

/// Trimming takes off the `"` characters at both ends of `s`, and nothing
/// else: what is left is a piece of `s` that neither starts nor ends with `"`,
/// and all that stands before and after it in `s` is `"`.
pub proof fn law_trim_takes_only_quotes(s: Seq<char>)
    ensures
        exists|lo: int, hi: int|
            0 <= lo <= hi <= s.len() && trim_quotes(s) == s.subrange(lo, hi) && (forall|k: int|
                0 <= k < lo ==> s[k] == '"') && (forall|k: int| hi <= k < s.len() ==> s[k] == '"'),
        trim_quotes(s).len() > 0 ==> trim_quotes(s)[0] != '"' && trim_quotes(s).last() != '"',
{
    lemma_front_piece(s);
    let f = trim_front_quotes(s);
    lemma_back_piece(f);
    let b = trim_back_quotes(f);
    let lo = s.len() - f.len();
    let hi = lo + b.len();
    assert(b == s.subrange(lo, hi)) by {
        assert(s.subrange(lo, hi) =~= f.subrange(0, b.len() as int));
    }
    assert forall|k: int| hi <= k < s.len() implies s[k] == '"' by {
        assert(s[k] == f[k - lo]);
    }
    assert(0 <= lo <= hi <= s.len() && trim_quotes(s) == s.subrange(lo, hi) && (forall|k: int|
        0 <= k < lo ==> s[k] == '"') && (forall|k: int| hi <= k < s.len() ==> s[k] == '"'));
}

/// Reads the format-string argument: exactly one string literal, whose text
/// between the quotes is split into text and placeholders.
pub fn parse_format_string(input: Vec<Token>) -> (res: Result<FormatItems, CompileError>)
    ensures
        match res {
            Ok(items) => spec_parse_format_string(input@) == Ok::<(SpanRef, Seq<PartView>), CompileError>(
                (items.span, part_views(items.parts@)),
            ),
            Err(e) => spec_parse_format_string(input@) == Err::<(SpanRef, Seq<PartView>), CompileError>(e),
        },
{
    if input.len() == 0 {
        return Err(CompileError { start: SpanRef::CallSite, end: SpanRef::CallSite, kind: ErrorKind::EmptyFormat });
    }
    if input.len() >= 2 {
        let sp = input[1].span();
        return Err(CompileError { start: sp, end: sp, kind: ErrorKind::ExtraToken });
    }
    let span = input[0].span();
    match &input[0] {
        Token::Literal { text, .. } => {
            let chars = chars_of(text);
            if chars.len() > 0 && chars[0] == '"' {
                let inner = trim_quote_chars(&chars);
                match scan_format(&inner) {
                    Ok(parts) => Ok(FormatItems { span, parts }),
                    Err(kind) => Err(CompileError { start: span, end: span, kind }),
                }
            } else {
                Err(CompileError { start: span, end: span, kind: ErrorKind::NotALiteralString })
            }
        },
        _ => Err(CompileError { start: span, end: span, kind: ErrorKind::NotALiteralString }),
    }
}

} // verus!
