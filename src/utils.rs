use vstd::prelude::*;
use crate::document::Value;
use crate::typed_value::FromText;

verus! {

/// The scalar kinds of an entry.
#[derive(Clone, Copy, Debug, PartialEq, Eq, Structural)]
pub enum PrimitiveType {
    String,
    Integer,
    Float,
    Bool,
    Null,
}

/// The kind of a scalar.
pub open spec fn kind_of(v: Value) -> PrimitiveType {
    match v {
        Value::String(_) => PrimitiveType::String,
        Value::Integer(_) => PrimitiveType::Integer,
        Value::Float(_) => PrimitiveType::Float,
        Value::Bool(_) => PrimitiveType::Bool,
        Value::Null => PrimitiveType::Null,
    }
}

pub open spec fn primitive_name(t: PrimitiveType) -> Seq<char> {
    match t {
        PrimitiveType::String => "String"@,
        PrimitiveType::Integer => "Integer"@,
        PrimitiveType::Float => "Float"@,
        PrimitiveType::Bool => "Boolean"@,
        PrimitiveType::Null => "Null"@,
    }
}

impl PrimitiveType {
    /// The name of the kind, as diagnostics show it.
    pub fn name(&self) -> (r: &'static str)
        ensures
            r@ == primitive_name(*self),
    {
        match self {
            PrimitiveType::String => "String",
            PrimitiveType::Integer => "Integer",
            PrimitiveType::Float => "Float",
            PrimitiveType::Bool => "Boolean",
            PrimitiveType::Null => "Null",
        }
    }

    /// The kind of `v`.
    pub fn of(v: &Value) -> (r: PrimitiveType)
        ensures
            r == kind_of(*v),
    {
        match v {
            Value::String(_) => PrimitiveType::String,
            Value::Integer(_) => PrimitiveType::Integer,
            Value::Float(_) => PrimitiveType::Float,
            Value::Bool(_) => PrimitiveType::Bool,
            Value::Null => PrimitiveType::Null,
        }
    }
}

/// The name of the kind of a scalar.
pub fn get_kdl_type_name(val: &Value) -> (r: &'static str)
    ensures
        r@ == primitive_name(kind_of(*val)),
{
    PrimitiveType::of(val).name()
}

/// The position just after the last `::` that ends at or before `i`, or 0.
pub open spec fn last_separator_end(s: Seq<char>, i: int) -> int
    decreases i,
{
    if i < 2 {
        0
    } else if s[i - 2] == ':' && s[i - 1] == ':' {
        i
    } else {
        last_separator_end(s, i - 1)
    }
}

/// What follows the last `::` of a path, or the whole path.
pub open spec fn last_segment(s: Seq<char>) -> Seq<char> {
    s.subrange(last_separator_end(s, s.len() as int), s.len() as int)
}

proof fn lemma_separator_bounds(s: Seq<char>, i: int)
    requires
        i <= s.len(),
    ensures
        0 <= last_separator_end(s, i) <= i || (i < 0 && last_separator_end(s, i) == 0),
    decreases i,
{
    if i >= 2 {
        lemma_separator_bounds(s, i - 1);
    }
}

/// The last `::`-separated segment of `full`.
pub fn simple_type_name(full: &str) -> (r: String)
    ensures
        r@ == last_segment(full@),
{
    let n = full.unicode_len();
    let mut i: usize = n;
    while i >= 2 && !(full.get_char(i - 2) == ':' && full.get_char(i - 1) == ':')
        invariant
            n == full@.len(),
            i <= n,
            last_separator_end(full@, n as int) == last_separator_end(full@, i as int),
        decreases i,
    {
        i = i - 1;
    }
    proof {
        lemma_separator_bounds(full@, i as int);
    }
    let start: usize = if i >= 2 { i } else { 0 };
    String::from_str(full.substring_char(start, n))
}

/// The name of `T` without its module path.
pub fn get_simple_type_name<T: FromText>() -> (r: String)
    ensures
        r@ == last_segment(T::spec_path()),
{
    let full = T::path();
    simple_type_name(full.as_str())
}

} // verus!
