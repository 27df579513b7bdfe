use vstd::prelude::*;

use crate::text::owned;

verus! {

/// Where a token points in the caller's source: at the macro's call site, or at
/// the place of the `n`-th token of the macro's input (the caller keeps that table).
#[derive(Clone, Copy, Debug, PartialEq, Eq, Structural)]
pub enum SpanRef {
    CallSite,
    Input(usize),
}

/// The delimiter of a token group.
#[derive(Clone, Copy, Debug, PartialEq, Eq, Structural)]
pub enum Delim {
    Parenthesis,
    Brace,
    Bracket,
    Invisible,
}

/// Whether a punctuation character is joined to the next one (`::`, `=>`).
#[derive(Clone, Copy, Debug, PartialEq, Eq, Structural)]
pub enum Spacing {
    Alone,
    Joint,
}

/// A token tree, as the macro receives and emits it.
#[derive(Debug)]
pub enum Token {
    Ident { text: String, span: SpanRef },
    Punct { ch: char, spacing: Spacing, span: SpanRef },
    Literal { text: String, span: SpanRef },
    Group { delim: Delim, stream: Vec<Token>, span: SpanRef },
}

/// The place a token points at.
pub open spec fn span_of(t: Token) -> SpanRef {
    match t {
        Token::Ident { span, .. } => span,
        Token::Punct { span, .. } => span,
        Token::Literal { span, .. } => span,
        Token::Group { span, .. } => span,
    }
}

impl Token {
    /// The place this token points at.
    pub fn span(&self) -> (res: SpanRef)
        ensures
            res == span_of(*self),
    {
        match self {
            Token::Ident { span, .. } => *span,
            Token::Punct { span, .. } => *span,
            Token::Literal { span, .. } => *span,
            Token::Group { span, .. } => *span,
        }
    }
}

/// The mathematical value of a token tree: its texts as character sequences.
pub enum TokenModel {
    Ident(Seq<char>, SpanRef),
    Punct(char, Spacing, SpanRef),
    Literal(Seq<char>, SpanRef),
    Group(Delim, Seq<TokenModel>, SpanRef),
}

pub open spec fn token_model(t: Token) -> TokenModel
    decreases t,
{
    match t {
        Token::Ident { text, span } => TokenModel::Ident(text@, span),
        Token::Punct { ch, spacing, span } => TokenModel::Punct(ch, spacing, span),
        Token::Literal { text, span } => TokenModel::Literal(text@, span),
        Token::Group { delim, stream, span } => TokenModel::Group(delim, models(stream@), span),
    }
}

pub open spec fn models(s: Seq<Token>) -> Seq<TokenModel>
    decreases s,
{
    Seq::new(s.len(), |i: int| if 0 <= i < s.len() { token_model(s[i]) } else { TokenModel::Punct(' ', Spacing::Alone, SpanRef::CallSite) })
}

/// An identifier written by the macro itself.
pub open spec fn m_ident(s: Seq<char>) -> TokenModel {
    TokenModel::Ident(s, SpanRef::CallSite)
}

/// A punctuation character written by the macro itself.
pub open spec fn m_punct(c: char, spacing: Spacing) -> TokenModel {
    TokenModel::Punct(c, spacing, SpanRef::CallSite)
}

/// A group written by the macro itself around `inner`.
pub open spec fn m_group(delim: Delim, inner: Seq<TokenModel>) -> TokenModel {
    TokenModel::Group(delim, inner, SpanRef::CallSite)
}

/// The model of a sequence is the sequence of the models.
pub proof fn lemma_models_concat(a: Seq<Token>, b: Seq<Token>)
    ensures
        models(a + b) == models(a) + models(b),
{
    assert(models(a + b) =~= models(a) + models(b));
}

impl Token {
    /// An identifier at the call site.
    pub fn ident(text: &str) -> (res: Token)
        ensures
            token_model(res) == m_ident(text@),
    {
        Token::Ident { text: owned(text), span: SpanRef::CallSite }
    }

    /// A punctuation character at the call site.
    pub fn punct(ch: char, spacing: Spacing) -> (res: Token)
        ensures
            token_model(res) == m_punct(ch, spacing),
    {
        Token::Punct { ch, spacing, span: SpanRef::CallSite }
    }

    /// A group at the call site around the given tokens.
    pub fn group(delim: Delim, stream: Vec<Token>) -> (res: Token)
        ensures
            token_model(res) == m_group(delim, models(stream@)),
    {
        Token::Group { delim, stream, span: SpanRef::CallSite }
    }
}

/// Appends `more` to `out`.
pub fn extend(out: &mut Vec<Token>, more: Vec<Token>)
    ensures
        final(out)@ == old(out)@ + more@,
        models(final(out)@) == models(old(out)@) + models(more@),
{
    let ghost added = more@;
    let mut rest = more;
    out.append(&mut rest);
    proof {
        lemma_models_concat(old(out)@, added);
    }
}

} // verus!
