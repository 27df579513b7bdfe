use vstd::prelude::*;

use crate::token::{SpanRef, Token};

verus! {

/// One piece of a parsed format string: plain text, with `{{` and `}}`
/// already unescaped, or a placeholder such as `{}` or `{:?}`, braces included.
#[derive(Debug)]
pub enum FormatPart {
    Text(String),
    Input(String),
}

/// The value of a [`FormatPart`].
pub enum PartView {
    Text(Seq<char>),
    Input(Seq<char>),
}

impl View for FormatPart {
    type V = PartView;

    open spec fn view(&self) -> PartView {
        match self {
            FormatPart::Text(s) => PartView::Text(s@),
            FormatPart::Input(s) => PartView::Input(s@),
        }
    }
}

/// The values of a sequence of format parts.
pub open spec fn part_views(parts: Seq<FormatPart>) -> Seq<PartView> {
    Seq::new(parts.len(), |i: int| parts[i]@)
}

/// A parsed format string, with the place where the caller wrote it.
#[derive(Debug)]
pub struct FormatItems {
    pub span: SpanRef,
    pub parts: Vec<FormatPart>,
}

/// A styling command written as `reset!()`, `fg!(..)`, `bg!(..)`, `bold!(..)`,
/// `underline!(..)` or `intense!(..)`, with the tokens between its brackets.
#[derive(Debug)]
pub enum ControlSeq {
    Foreground(Vec<Token>),
    Background(Vec<Token>),
    Bold(Vec<Token>),
    Underline(Vec<Token>),
    Intense(Vec<Token>),
    Reset,
}

/// The value of a [`ControlSeq`]: the tokens between its brackets as a sequence.
pub enum ControlView {
    Foreground(Seq<Token>),
    Background(Seq<Token>),
    Bold(Seq<Token>),
    Underline(Seq<Token>),
    Intense(Seq<Token>),
    Reset,
}

impl View for ControlSeq {
    type V = ControlView;

    open spec fn view(&self) -> ControlView {
        match self {
            ControlSeq::Foreground(t) => ControlView::Foreground(t@),
            ControlSeq::Background(t) => ControlView::Background(t@),
            ControlSeq::Bold(t) => ControlView::Bold(t@),
            ControlSeq::Underline(t) => ControlView::Underline(t@),
            ControlSeq::Intense(t) => ControlView::Intense(t@),
            ControlSeq::Reset => ControlView::Reset,
        }
    }
}

/// An argument after the format string: an expression to format, or a styling command.
#[derive(Debug)]
pub enum InputItem {
    Raw(Vec<Token>),
    Ctrl(ControlSeq),
}

/// The value of an [`InputItem`].
pub enum InputView {
    Raw(Seq<Token>),
    Ctrl(ControlView),
}

impl View for InputItem {
    type V = InputView;

    open spec fn view(&self) -> InputView {
        match self {
            InputItem::Raw(t) => InputView::Raw(t@),
            InputItem::Ctrl(c) => InputView::Ctrl(c@),
        }
    }
}

/// The values of a sequence of arguments.
pub open spec fn input_views(items: Seq<InputItem>) -> Seq<InputView> {
    Seq::new(items.len(), |i: int| items[i]@)
}

/// The token sequences of a sequence of token vectors.
pub open spec fn streams(v: Seq<Vec<Token>>) -> Seq<Seq<Token>> {
    Seq::new(v.len(), |i: int| v[i]@)
}

/// The arguments of the macro: the writer's tokens, the parsed format string and the rest.
#[derive(Debug)]
pub struct MacroInput {
    pub writer: Vec<Token>,
    pub format: FormatItems,
    pub rest: Vec<InputItem>,
}

/// The value of a [`MacroInput`].
pub struct InputModel {
    pub writer: Seq<Token>,
    pub span: SpanRef,
    pub parts: Seq<PartView>,
    pub rest: Seq<InputView>,
}

impl View for MacroInput {
    type V = InputModel;

    open spec fn view(&self) -> InputModel {
        InputModel {
            writer: self.writer@,
            span: self.format.span,
            parts: part_views(self.format.parts@),
            rest: input_views(self.rest@),
        }
    }
}

/// A format string together with the expressions that it formats, in order.
pub type RawOutput = (String, Vec<Vec<Token>>);

/// One step of the generated code: a formatted write, or a change of style.
#[derive(Debug)]
pub enum OutputItem {
    Raw(RawOutput),
    Ctrl(ControlSeq),
}

/// The value of an [`OutputItem`]: the format string as characters.
pub enum OutputView {
    Raw(Seq<char>, Seq<Seq<Token>>),
    Ctrl(ControlView),
}

impl View for OutputItem {
    type V = OutputView;

    open spec fn view(&self) -> OutputView {
        match self {
            OutputItem::Raw((f, items)) => OutputView::Raw(f@, streams(items@)),
            OutputItem::Ctrl(c) => OutputView::Ctrl(c@),
        }
    }
}

/// The values of a sequence of output items.
pub open spec fn output_views(items: Seq<OutputItem>) -> Seq<OutputView> {
    Seq::new(items.len(), |i: int| items[i]@)
}

/// What went wrong while reading the macro's arguments.
#[derive(Clone, Copy, Debug, PartialEq, Eq, Structural)]
pub enum ErrorKind {
    NoArguments,
    WriterIsString,
    MissingFormatString,
    UnexpectedComma,
    EmptyArgument,
    EmptyFormat,
    ExtraToken,
    NotALiteralString,
    UnexpectedEnd,
    UnmatchedClose,
    NotEnoughInputs,
    TooManyInputs,
}

/// An error to report at the tokens from `start` to `end`.
#[derive(Clone, Copy, Debug, PartialEq, Eq, Structural)]
pub struct CompileError {
    pub start: SpanRef,
    pub end: SpanRef,
    pub kind: ErrorKind,
}

/// The message shown to the macro's user for each kind of error.
pub open spec fn spec_message(kind: ErrorKind) -> Seq<char> {
    match kind {
        ErrorKind::NoArguments => "colored! macro can't be called without arguments"@,
        ErrorKind::WriterIsString => "The first argument to colored! macro can't be a string. Did you forget to provide the Writer?"@,
        ErrorKind::MissingFormatString => "colored! macro requires at least two arguments - writer and format string"@,
        ErrorKind::UnexpectedComma => "Unexpected ',', expected expression"@,
        ErrorKind::EmptyArgument => "Empty token stream in 'classify'; this is supposed to be unreachable. Please report this case to the issues of the termcolor_output repository"@,
        ErrorKind::EmptyFormat => "Expected format string, got empty stream"@,
        ErrorKind::ExtraToken => "Unexpected token, did you forget the comma after format string?"@,
        ErrorKind::NotALiteralString => "The second argument must be a literal string"@,
        ErrorKind::UnexpectedEnd => "Unexpected end of format string"@,
        ErrorKind::UnmatchedClose => "Unmatched '}' in format string; did you forget to escape it as '}}'?"@,
        ErrorKind::NotEnoughInputs => "Not enough input parameters for this format string"@,
        ErrorKind::TooManyInputs => "Too many input parameters for this format string"@,
    }
}

impl ErrorKind {
    /// The message shown to the macro's user.
    pub fn message(&self) -> (res: &'static str)
        ensures
            res@ == spec_message(*self),
    {
        match self {
            ErrorKind::NoArguments => "colored! macro can't be called without arguments",
            ErrorKind::WriterIsString => "The first argument to colored! macro can't be a string. Did you forget to provide the Writer?",
            ErrorKind::MissingFormatString => "colored! macro requires at least two arguments - writer and format string",
            ErrorKind::UnexpectedComma => "Unexpected ',', expected expression",
            ErrorKind::EmptyArgument => "Empty token stream in 'classify'; this is supposed to be unreachable. Please report this case to the issues of the termcolor_output repository",
            ErrorKind::EmptyFormat => "Expected format string, got empty stream",
            ErrorKind::ExtraToken => "Unexpected token, did you forget the comma after format string?",
            ErrorKind::NotALiteralString => "The second argument must be a literal string",
            ErrorKind::UnexpectedEnd => "Unexpected end of format string",
            ErrorKind::UnmatchedClose => "Unmatched '}' in format string; did you forget to escape it as '}}'?",
            ErrorKind::NotEnoughInputs => "Not enough input parameters for this format string",
            ErrorKind::TooManyInputs => "Too many input parameters for this format string",
        }
    }
}

} // verus!
