use vstd::prelude::*;

verus! {

/// The trait that a placeholder asks of its argument: `{:?}` asks for
/// `Debug`, `{}` for `Display`; any other kind is kept by name.
#[derive(Debug, Clone)]
pub enum FormatterKind {
    Debug,
    Display,
    Unknown(String),
}

/// A piece of a format string: text, or a placeholder of some kind.
pub enum FormatterItem<'a> {
    Text(&'a str),
    Format(FormatterKind),
}

} // verus!
