use vstd::prelude::*;
use crate::document::Span;

verus! {

/// What went wrong, by kind.
#[derive(Clone, Copy, Debug, PartialEq, Eq, Structural)]
pub enum ErrorKind {
    /// The focus is of the wrong kind, a block is missing, or a required block is empty.
    Shape,
    /// A required directive, property or positional argument is absent.
    MissingRequired,
    /// A block holds a directive that no schema entry consumed.
    UnknownDirective,
    /// A named entry's key is not in the allowed list.
    UnknownKey,
    /// An entry's scalar kind is not the expected one.
    TypeMismatch,
    /// An entry's text does not parse as the target type.
    Format,
    /// A cross-field rule of a section is broken.
    MutualExclusion,
}

/// One error, anchored at a span of a named source.
#[derive(Clone, Debug)]
pub struct Diagnostic {
    pub kind: ErrorKind,
    pub message: String,
    pub span: Span,
    pub source_name: String,
}

impl Diagnostic {
    /// The help text shown with the labelled span: the message itself.
    pub fn help(&self) -> (r: Option<String>)
        ensures
            r matches Some(h) && h@ == self.message@,
    {
        Some(self.message.clone())
    }
}

} // verus!
