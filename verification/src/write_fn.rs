use vstd::prelude::*;

use crate::formatter::FormatterKind;
use crate::text::string_of;
use crate::token::{extend, m_group, m_ident, m_punct, models, token_model, Delim, Spacing, SpanRef, Token, TokenModel};

verus! {

/// One argument of the generated writing function: the trait its value must
/// have, if known, and the expression that gives it.
#[derive(Debug)]
pub struct Arg {
    pub kind: Option<FormatterKind>,
    pub expr: Vec<Token>,
}

/// The decimal digit `d`.
pub open spec fn digit(d: int) -> char {
    seq!['0', '1', '2', '3', '4', '5', '6', '7', '8', '9'][d]
}

/// The decimal digits of `n`, most significant first, with no leading zero.
pub open spec fn decimal(n: nat) -> Seq<char>
    decreases n,
{
    if n < 10 {
        seq![digit(n as int)]
    } else {
        decimal(n / 10).push(digit((n % 10) as int))
    }
}

/// The number that decimal digits stand for, most significant first.
pub open spec fn digits_value(ds: Seq<char>) -> int
    decreases ds.len(),
{
    if ds.len() == 0 {
        0
    } else {
        digits_value(ds.drop_last()) * 10 + (ds.last() as int - '0' as int)
    }
}

/// The decimal digits of `n` are digits, start with `0` only for zero, and
/// stand for `n`: they are the usual way of writing `n`, and no other number
/// is written the same.
pub proof fn law_decimal_reads_back(n: nat)
    ensures
        decimal(n).len() > 0,
        forall|k: int| 0 <= k < decimal(n).len() ==> '0' <= #[trigger] decimal(n)[k] <= '9',
        decimal(n)[0] == '0' ==> n == 0,
        digits_value(decimal(n)) == n,
    decreases n,
{
    let ds = seq!['0', '1', '2', '3', '4', '5', '6', '7', '8', '9'];
    assert(forall|d: int| 0 <= d < 10 ==> ('0' <= #[trigger] ds[d] <= '9' && ds[d] as int - '0' as int == d)) by {
        assert forall|d: int| 0 <= d < 10 implies ('0' <= #[trigger] ds[d] <= '9' && ds[d] as int - '0' as int == d) by {
            if d == 0 {} else if d == 1 {} else if d == 2 {} else if d == 3 {} else if d == 4 {}
            else if d == 5 {} else if d == 6 {} else if d == 7 {} else if d == 8 {} else {}
        }
    }
    if n < 10 {
        let s = decimal(n);
        assert(s == seq![digit(n as int)]);
        assert(s.drop_last() =~= Seq::<char>::empty());
        assert(ds[n as int] == digit(n as int));
        assert(digits_value(Seq::<char>::empty()) == 0);
        assert(digits_value(s) == digits_value(s.drop_last()) * 10 + (s.last() as int - '0' as int));
    } else {
        let m = n / 10;
        let r = (n % 10) as int;
        law_decimal_reads_back(m);
        let s = decimal(n);
        assert(s == decimal(m).push(digit(r)));
        assert(s.drop_last() == decimal(m));
        assert(s.last() == digit(r));
        assert(ds[r] == digit(r));
        assert(s[0] == decimal(m)[0]);
        assert(m > 0);
        assert(n == 10 * m + r) by {
            vstd::arithmetic::div_mod::lemma_fundamental_div_mod(n as int, 10);
        }
        assert(m * 10 == 10 * m) by (nonlinear_arith);
        assert(digits_value(s) == digits_value(s.drop_last()) * 10 + (s.last() as int - '0' as int));
        assert forall|k: int| 0 <= k < s.len() implies '0' <= #[trigger] s[k] <= '9' by {
            if k < s.len() - 1 {
                assert(s[k] == decimal(m)[k]);
            }
        }
    }
}

fn digit_char(d: usize) -> (res: char)
    requires
        d < 10,
    ensures
        res == digit(d as int),
{
    match d {
        0 => '0',
        1 => '1',
        2 => '2',
        3 => '3',
        4 => '4',
        5 => '5',
        6 => '6',
        7 => '7',
        8 => '8',
        _ => '9',
    }
}

/// `prefix` followed by the decimal digits of `n`.
fn numbered(prefix: &str, n: usize) -> (res: Vec<char>)
    ensures
        res@ == prefix@ + decimal(n as nat),
    decreases n,
{
    if n < 10 {
        let mut v: Vec<char> = Vec::new();
        let p = prefix;
        let len = p.unicode_len();
        let mut i: usize = 0;
        while i < len
            invariant
                len == p@.len(),
                i <= len,
                v@ == p@.subrange(0, i as int),
            decreases len - i,
        {
            v.push(p.get_char(i));
            i = i + 1;
            assert(v@ == p@.subrange(0, i as int));
        }
        assert(p@.subrange(0, len as int) == p@);
        v.push(digit_char(n));
        v
    } else {
        let mut v = numbered(prefix, n / 10);
        v.push(digit_char(n % 10));
        assert(v@ == prefix@ + decimal(n as nat));
        v
    }
}

fn numbered_ident(prefix: &str, n: usize) -> (res: Token)
    ensures
        token_model(res) == m_ident(prefix@ + decimal(n as nat)),
{
    let chars = numbered(prefix, n);
    Token::Ident { text: string_of(&chars), span: SpanRef::CallSite }
}

/// `: Debug` or `: Display` where the kind asks for one, else nothing.
pub open spec fn type_bound(kind: Option<FormatterKind>) -> Seq<TokenModel> {
    match kind {
        Some(FormatterKind::Debug) => seq![m_punct(':', Spacing::Alone), m_ident("Debug"@)],
        Some(FormatterKind::Display) => seq![m_punct(':', Spacing::Alone), m_ident("Display"@)],
        _ => Seq::empty(),
    }
}

/// The type parameter of the `i`-th argument: `Ti` and its bound.
pub open spec fn type_param(i: int, kind: Option<FormatterKind>) -> Seq<TokenModel> {
    seq![m_ident("T"@ + decimal(i as nat))] + type_bound(kind)
}

/// The type parameters `T0 T1 ..` of the arguments, each with its bound, one after the other.
pub open spec fn spec_args_to_types(args: Seq<Arg>) -> Seq<TokenModel> {
    Seq::new(args.len(), |i: int| type_param(i, args[i].kind)).flatten()
}

/// The parameter `_argi: Ti` of the `i`-th argument.
pub open spec fn value_param(i: int) -> Seq<TokenModel> {
    seq![m_ident("_arg"@ + decimal(i as nat)), m_punct(':', Spacing::Alone), m_ident("T"@ + decimal(i as nat))]
}

/// The parameters `_arg0: T0 _arg1: T1 ..`, one for each of `n` arguments.
pub open spec fn spec_args_to_stream(n: nat) -> Seq<TokenModel> {
    Seq::new(n, |i: int| value_param(i)).flatten()
}

/// The type parameters of the writing function, one for each argument.
pub fn args_to_types(args: &[Arg]) -> (res: Vec<Token>)
    ensures
        models(res@) == spec_args_to_types(args@),
{
    let mut res: Vec<Token> = Vec::new();
    let mut i: usize = 0;
    while i < args.len()
        invariant
            i <= args@.len(),
            models(res@) == Seq::new(i as nat, |k: int| type_param(k, args@[k].kind)).flatten(),
        decreases args@.len() - i,
    {
        let ghost pre = models(res@);
        let mut ty: Vec<Token> = Vec::new();
        ty.push(numbered_ident("T", i));
        match &args[i].kind {
            Some(FormatterKind::Debug) => {
                ty.push(Token::punct(':', Spacing::Alone));
                ty.push(Token::ident("Debug"));
            },
            Some(FormatterKind::Display) => {
                ty.push(Token::punct(':', Spacing::Alone));
                ty.push(Token::ident("Display"));
            },
            _ => {},
        }
        assert(models(ty@) =~= type_param(i as int, args@[i as int].kind));
        extend(&mut res, ty);
        proof {
            let f = |k: int| type_param(k, args@[k].kind);
            assert(Seq::new((i + 1) as nat, f) =~= Seq::new(i as nat, f).push(type_param(i as int, args@[i as int].kind)));
            Seq::new(i as nat, f).lemma_flatten_push(type_param(i as int, args@[i as int].kind));
        }
        i = i + 1;
    }
    res
}

/// The value parameters of the writing function, one for each argument.
pub fn args_to_stream(args: &[Arg]) -> (res: Vec<Token>)
    ensures
        models(res@) == spec_args_to_stream(args@.len()),
{
    let mut res: Vec<Token> = Vec::new();
    let mut i: usize = 0;
    while i < args.len()
        invariant
            i <= args@.len(),
            models(res@) == spec_args_to_stream(i as nat),
        decreases args@.len() - i,
    {
        let mut p: Vec<Token> = Vec::new();
        p.push(numbered_ident("_arg", i));
        p.push(Token::punct(':', Spacing::Alone));
        p.push(numbered_ident("T", i));
        assert(models(p@) =~= value_param(i as int));
        extend(&mut res, p);
        proof {
            let f = |k: int| value_param(k);
            assert(Seq::new((i + 1) as nat, f) =~= Seq::new(i as nat, f).push(value_param(i as int)));
            Seq::new(i as nat, f).lemma_flatten_push(value_param(i as int));
        }
        i = i + 1;
    }
    res
}

/// `fn write<types>(params) { body }`
pub open spec fn spec_func(args: Seq<Arg>, body: Seq<TokenModel>) -> Seq<TokenModel> {
    seq![m_ident("fn"@), m_ident("write"@), m_punct('<', Spacing::Alone)] + spec_args_to_types(args) + seq![
        m_punct('>', Spacing::Alone),
        m_group(Delim::Parenthesis, spec_args_to_stream(args.len())),
        m_group(Delim::Brace, body),
    ]
}

/// A function `write` generic over the type of each argument, taking one
/// value of each, with the given body.
pub fn func(args: Vec<Arg>, body: Vec<Token>) -> (res: Vec<Token>)
    ensures
        models(res@) == spec_func(args@, models(body@)),
{
    let ghost b = models(body@);
    let mut res: Vec<Token> = Vec::new();
    res.push(Token::ident("fn"));
    res.push(Token::ident("write"));
    res.push(Token::punct('<', Spacing::Alone));
    let ghost head = models(res@);
    assert(head =~= seq![m_ident("fn"@), m_ident("write"@), m_punct('<', Spacing::Alone)]);
    extend(&mut res, args_to_types(args.as_slice()));
    let ghost mid = models(res@);
    res.push(Token::punct('>', Spacing::Alone));
    res.push(Token::group(Delim::Parenthesis, args_to_stream(args.as_slice())));
    res.push(Token::group(Delim::Brace, body));
    assert(models(res@) =~= spec_func(args@, b));
    res
}

} // verus!
