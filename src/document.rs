use vstd::prelude::*;

verus! {

/// A location in the source text: a byte offset and a byte length.
#[derive(Clone, Copy, Debug, PartialEq, Eq, Structural)]
pub struct Span {
    pub offset: usize,
    pub len: usize,
}

/// The scalar held by one entry of a node.
///
/// A float is carried as the text that the document's reader rendered for it.
#[derive(Clone, Debug)]
pub enum Value {
    String(String),
    Integer(i128),
    Float(String),
    Bool(bool),
    Null,
}

/// One positional (`name` is `None`) or named (`key=value`) entry of a node.
#[derive(Clone, Debug)]
pub struct Entry {
    pub name: Option<String>,
    pub value: Value,
    pub span: Span,
}

/// One directive: a name, its entries in order, and an optional child block.
#[derive(Debug)]
pub struct Node {
    pub name: String,
    pub entries: Vec<Entry>,
    pub children: Option<Document>,
    pub span: Span,
}

/// A sequence of nodes: a whole file, or the child block of one node.
#[derive(Debug)]
pub struct Document {
    pub nodes: Vec<Node>,
    pub span: Span,
}

impl Entry {
    pub open spec fn spec_key(&self) -> Option<Seq<char>> {
        match self.name {
            Some(n) => Some(n@),
            None => None,
        }
    }
}

} // verus!
