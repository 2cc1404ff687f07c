use vstd::prelude::*;
use std::ops::{Range, RangeFrom, RangeFull, RangeTo};
use crate::diagnostic::{Diagnostic, ErrorKind};
use crate::document::{Document, Entry, Node, Span, Value};
use crate::string_map::StringMap;
use crate::text::{join3, same_text};

verus! {

/// What a context is focused on: a list of nodes, or one node.
#[derive(Clone, Copy, Debug)]
pub enum Current<'a> {
    Document(&'a Document),
    Node(&'a Node),
}

/// A read-only cursor into a document, with the source's name for diagnostics.
#[derive(Clone, Copy, Debug)]
pub struct ParseContext<'a> {
    pub doc: &'a Document,
    pub source_name: &'a str,
    pub current: Current<'a>,
}

/// The pairs of the named string entries of `es`, in order.
pub open spec fn named_strings(es: Seq<Entry>) -> Seq<(Seq<char>, Seq<char>)>
    decreases es.len(),
{
    if es.len() == 0 {
        Seq::empty()
    } else {
        let p = named_strings(es.drop_last());
        match (es.last().name, es.last().value) {
            (Some(k), Value::String(v)) => p.push((k@, v@)),
            _ => p,
        }
    }
}

/// Whether every key of `pairs` is among `allowed`.
pub open spec fn keys_allowed(pairs: Seq<(Seq<char>, Seq<char>)>, allowed: Seq<Seq<char>>) -> bool {
    forall|i: int| 0 <= i < pairs.len() ==> allowed.contains(#[trigger] pairs[i].0)
}

/// Whether pair `i` is the first of `pairs` whose key is not among `allowed`.
pub open spec fn first_unknown(pairs: Seq<(Seq<char>, Seq<char>)>, allowed: Seq<Seq<char>>, i: int) -> bool {
    0 <= i < pairs.len() && !allowed.contains(pairs[i].0) && forall|j: int|
        0 <= j < i ==> allowed.contains(#[trigger] pairs[j].0)
}

/// Whether message `m` names the first key of `pairs` not among `allowed`,
/// followed by the allowed keys.
pub open spec fn names_first_unknown(m: Seq<char>, pairs: Seq<(Seq<char>, Seq<char>)>, allowed: Seq<Seq<char>>) -> bool {
    exists|i: int| #[trigger] first_unknown(pairs, allowed, i) && m == unknown_key_message(pairs[i].0, allowed)
}

/// The start of the message for an unknown key `k`.
pub open spec fn unknown_key_head(k: Seq<char>) -> Seq<char> {
    "Unknown configuration key: '"@ + k + "'. Allowed keys are: ["@
}

/// The keys between double quotes, separated by `, `.
pub open spec fn quoted_keys(keys: Seq<Seq<char>>) -> Seq<char>
    decreases keys.len(),
{
    if keys.len() == 0 {
        Seq::empty()
    } else if keys.len() == 1 {
        "\""@ + keys[0] + "\""@
    } else {
        quoted_keys(keys.drop_last()) + ", "@ + "\""@ + keys.last() + "\""@
    }
}

/// The message for an unknown key `k`, listing the allowed keys.
pub open spec fn unknown_key_message(k: Seq<char>, allowed: Seq<Seq<char>>) -> Seq<char> {
    unknown_key_head(k) + quoted_keys(allowed) + "]"@
}

pub open spec fn str_views(s: Seq<&str>) -> Seq<Seq<char>> {
    s.map_values(|x: &str| x@)
}

/// The position of the first pair of `m` whose key is not among `allowed`.
fn first_unknown_key(m: &StringMap, allowed: &[&str]) -> (r: Option<usize>)
    ensures
        match r {
            Some(i) => first_unknown(m.spec_pairs(), str_views(allowed@), i as int),
            None => keys_allowed(m.spec_pairs(), str_views(allowed@)),
        },
{
    let mut i: usize = 0;
    while i < m.pairs.len()
        invariant
            i <= m.pairs@.len(),
            forall|j: int| 0 <= j < i ==> str_views(allowed@).contains(#[trigger] m.spec_pairs()[j].0),
        decreases m.pairs.len() - i,
    {
        let key = m.pairs[i].0.as_str();
        assert(m.spec_pairs()[i as int].0 == key@);
        let mut found = false;
        let mut j: usize = 0;
        while j < allowed.len()
            invariant
                j <= allowed@.len(),
                found ==> str_views(allowed@).contains(key@),
                !found ==> forall|t: int| 0 <= t < j ==> allowed@[t]@ != key@,
            decreases allowed.len() - j,
        {
            if same_text(allowed[j], key) {
                found = true;
                assert(str_views(allowed@)[j as int] == key@);
            }
            j = j + 1;
        }
        if !found {
            return Some(i);
        }
        i = i + 1;
    }
    None
}

/// A range of positions within a list of a given length.
pub trait SliceRange {
    /// The bounds this range takes in a list of `len` items, if it fits.
    spec fn spec_bounds(&self, len: int) -> Option<(int, int)>;

    fn bounds(&self, len: usize) -> (r: Option<(usize, usize)>)
        ensures
            match r {
                Some(b) => self.spec_bounds(len as int) == Some((b.0 as int, b.1 as int)) && b.0
                    <= b.1 <= len,
                None => self.spec_bounds(len as int) is None,
            },
    ;
}

impl SliceRange for Range<usize> {
    open spec fn spec_bounds(&self, len: int) -> Option<(int, int)> {
        if self.start <= self.end && self.end <= len {
            Some((self.start as int, self.end as int))
        } else {
            None
        }
    }

    fn bounds(&self, len: usize) -> (r: Option<(usize, usize)>) {
        if self.start <= self.end && self.end <= len {
            Some((self.start, self.end))
        } else {
            None
        }
    }
}

#[verifier::external_type_specification]
#[verifier::reject_recursive_types(Idx)]
pub struct ExRangeFrom<Idx>(RangeFrom<Idx>);

#[verifier::external_type_specification]
#[verifier::reject_recursive_types(Idx)]
pub struct ExRangeTo<Idx>(RangeTo<Idx>);

#[verifier::external_type_specification]
pub struct ExRangeFull(RangeFull);

impl SliceRange for RangeFrom<usize> {
    open spec fn spec_bounds(&self, len: int) -> Option<(int, int)> {
        if self.start <= len {
            Some((self.start as int, len))
        } else {
            None
        }
    }

    fn bounds(&self, len: usize) -> (r: Option<(usize, usize)>) {
        if self.start <= len {
            Some((self.start, len))
        } else {
            None
        }
    }
}

impl SliceRange for RangeTo<usize> {
    open spec fn spec_bounds(&self, len: int) -> Option<(int, int)> {
        if self.end <= len {
            Some((0, self.end as int))
        } else {
            None
        }
    }

    fn bounds(&self, len: usize) -> (r: Option<(usize, usize)>) {
        if self.end <= len {
            Some((0, self.end))
        } else {
            None
        }
    }
}

impl SliceRange for RangeFull {
    open spec fn spec_bounds(&self, len: int) -> Option<(int, int)> {
        Some((0, len))
    }

    fn bounds(&self, len: usize) -> (r: Option<(usize, usize)>) {
        Some((0, len))
    }
}

impl<'a> ParseContext<'a> {
    /// The span of the focus.
    pub open spec fn spec_span(&self) -> Span {
        match self.current {
            Current::Document(d) => d.span,
            Current::Node(n) => n.span,
        }
    }

    /// The focused node, if the focus is a node.
    pub open spec fn spec_node(&self) -> Option<Node> {
        match self.current {
            Current::Document(_) => None,
            Current::Node(n) => Some(*n),
        }
    }

    pub open spec fn spec_name(&self) -> Option<Seq<char>> {
        match self.current {
            Current::Document(_) => None,
            Current::Node(n) => Some(n.name@),
        }
    }

    pub open spec fn spec_entries(&self) -> Option<Seq<Entry>> {
        match self.current {
            Current::Document(_) => None,
            Current::Node(n) => Some(n.entries@),
        }
    }

    /// The nodes that the focus holds: the document's nodes, or the focused node's
    /// child block; `None` for a node without a child block.
    pub open spec fn spec_block(&self) -> Option<Seq<Node>> {
        match self.current {
            Current::Document(d) => Some(d.nodes@),
            Current::Node(n) => match n.children {
                Some(c) => Some(c.nodes@),
                None => None,
            },
        }
    }

    /// Whether `o` reads the same document under the same source name.
    pub open spec fn same_source(&self, o: ParseContext<'a>) -> bool {
        o.doc == self.doc && o.source_name@ == self.source_name@
    }

    /// Whether `d` is an error of `kind` anchored at the focus.
    pub open spec fn anchors(&self, d: Diagnostic, kind: ErrorKind) -> bool {
        d.kind == kind && d.span == self.spec_span() && d.source_name@ == self.source_name@
    }

    /// Creates a new parsing context from a document and a location in it.
    pub fn new(doc: &'a Document, current: Current<'a>, source_name: &'a str) -> (r: Self)
        ensures
            r.doc == doc,
            r.current == current,
            r.source_name == source_name,
    {
        ParseContext { doc, source_name, current }
    }

    /// A context over the child block of the focused node.
    pub fn enter_block(&self) -> (r: Result<ParseContext<'a>, Diagnostic>)
        ensures
            match r {
                Ok(c) => self.same_source(c) && self.spec_node() is Some && self.spec_block() is Some
                    && c.spec_node() is None && c.spec_block() == self.spec_block() && (c.current matches Current::Document(
                    ch,
                ) && self.spec_node().unwrap().children == Some(*ch)),
                Err(d) => self.anchors(d, ErrorKind::Shape) && (self.spec_node() is None
                    || self.spec_block() is None),
            },
    {
        match self.current {
            Current::Node(node) => match &node.children {
                Some(children) => Ok(ParseContext::new(
                    self.doc,
                    Current::Document(children),
                    self.source_name,
                )),
                None => Err(
                    self.error(
                        ErrorKind::Shape,
                        String::from_str("Expected a children block { ... }, but none found"),
                    ),
                ),
            },
            Current::Document(_) => Err(
                self.error(
                    ErrorKind::Shape,
                    String::from_str(
                        "Cannot enter block: current context is already a document root",
                    ),
                ),
            ),
        }
    }

    /// A context focused on `node`, over the same document.
    pub fn for_node(&self, node: &'a Node) -> (r: Self)
        ensures
            self.same_source(r),
            r.doc == self.doc,
            r.source_name == self.source_name,
            r.current == Current::Node(node),
    {
        ParseContext { doc: self.doc, source_name: self.source_name, current: Current::Node(node) }
    }

    /// An error with `msg`, anchored at `span`.
    pub fn error_with_span(&self, kind: ErrorKind, msg: String, span: Span) -> (d: Diagnostic)
        ensures
            d.kind == kind,
            d.message@ == msg@,
            d.span == span,
            d.source_name@ == self.source_name@,
    {
        Diagnostic { kind, message: msg, span, source_name: String::from_str(self.source_name) }
    }

    /// An error with `msg`, anchored at the focus.
    pub fn error(&self, kind: ErrorKind, msg: String) -> (d: Diagnostic)
        ensures
            self.anchors(d, kind),
            d.message@ == msg@,
    {
        self.error_with_span(kind, msg, self.current_span())
    }

    /// The span of the focused node or document.
    pub fn current_span(&self) -> (r: Span)
        ensures
            r == self.spec_span(),
    {
        match self.current {
            Current::Document(doc) => doc.span,
            Current::Node(node) => node.span,
        }
    }

    /// The name of the focused node.
    pub fn name(&self) -> (r: Result<&'a str, Diagnostic>)
        ensures
            match r {
                Ok(s) => self.spec_name() == Some(s@),
                Err(d) => self.spec_name() is None && self.anchors(d, ErrorKind::Shape),
            },
    {
        match self.current {
            Current::Document(_) => Err(
                self.error(
                    ErrorKind::Shape,
                    String::from_str("Expected node, but current is a document"),
                ),
            ),
            Current::Node(node) => Ok(node.name.as_str()),
        }
    }

    /// One context per node of the block in focus, in order.
    pub fn nodes(&self) -> (r: Result<Vec<ParseContext<'a>>, Diagnostic>)
        ensures
            match r {
                Ok(v) => self.spec_block() matches Some(b) && v@.len() == b.len() && forall|i: int|
                    0 <= i < b.len() ==> self.same_source(#[trigger] v@[i]) && v@[i].spec_node()
                        == Some(b[i]),
                Err(d) => self.spec_block() is None && self.anchors(d, ErrorKind::Shape) && (
                self.spec_node() is Some ==> d.message@ == "Expected children block"@),
            },
    {
        let doc: &'a Document = match self.current {
            Current::Document(d) => d,
            Current::Node(n) => match &n.children {
                Some(c) => c,
                None => {
                    return Err(
                        self.error(ErrorKind::Shape, String::from_str("Expected children block")),
                    );
                },
            },
        };
        let mut out: Vec<ParseContext<'a>> = Vec::new();
        let mut i: usize = 0;
        while i < doc.nodes.len()
            invariant
                i <= doc.nodes.len(),
                self.spec_block() == Some(doc.nodes@),
                out@.len() == i,
                forall|j: int|
                    0 <= j < i ==> self.same_source(#[trigger] out@[j]) && out@[j].spec_node()
                        == Some(doc.nodes@[j]),
            decreases doc.nodes.len() - i,
        {
            out.push(self.for_node(&doc.nodes[i]));
            i = i + 1;
        }
        Ok(out)
    }

    /// Checks that the focused node is named `expected`.
    pub fn expect_name(&self, expected: &str) -> (r: Result<(), Diagnostic>)
        ensures
            match r {
                Ok(_) => self.spec_name() == Some(expected@),
                Err(d) => self.spec_name() != Some(expected@) && self.anchors(d, ErrorKind::Shape)
                    && match self.spec_name() {
                    Some(found) => d.message@ == "Expected '"@ + expected@ + "', found '"@ + found
                        + "'"@,
                    None => d.message@ == "Expected node '"@ + expected@
                        + "', but current is a document"@,
                },
            },
    {
        match self.current {
            Current::Document(_) => Err(
                self.error(
                    ErrorKind::Shape,
                    join3("Expected node '", expected, "', but current is a document"),
                ),
            ),
            Current::Node(node) => {
                if same_text(node.name.as_str(), expected) {
                    Ok(())
                } else {
                    let head = join3("Expected '", expected, "', found '");
                    Err(self.error(ErrorKind::Shape, join3(head.as_str(), node.name.as_str(), "'")))
                }
            },
        }
    }

    /// The entries of the focused node.
    pub fn args(&self) -> (r: Result<&'a [Entry], Diagnostic>)
        ensures
            match r {
                Ok(es) => self.spec_entries() == Some(es@),
                Err(d) => self.spec_entries() is None && self.anchors(d, ErrorKind::Shape),
            },
    {
        match self.current {
            Current::Document(_) => Err(
                self.error(
                    ErrorKind::Shape,
                    String::from_str("Expected node, but current is a document"),
                ),
            ),
            Current::Node(node) => Ok(node.entries.as_slice()),
        }
    }

    /// The named string entries within `range` of the entries, as a map.
    pub fn args_map<R: SliceRange>(&self, range: R) -> (r: Result<StringMap, Diagnostic>)
        ensures
            match r {
                Ok(m) => self.spec_entries() matches Some(es) && (range.spec_bounds(
                    es.len() as int,
                ) matches Some(b) && m.spec_pairs() == named_strings(es.subrange(b.0, b.1))),
                Err(d) => self.anchors(d, ErrorKind::Shape) && (self.spec_entries() matches Some(
                    es,
                ) ==> range.spec_bounds(es.len() as int) is None && d.message@
                    == "Range out of bounds"@),
            },
    {
        let args = match self.args() {
            Ok(x) => x,
            Err(d) => {
                return Err(d);
            },
        };
        let (lo, hi) = match range.bounds(args.len()) {
            Some(b) => b,
            None => {
                return Err(self.error(ErrorKind::Shape, String::from_str("Range out of bounds")));
            },
        };
        let ghost es = args@;
        let mut m = StringMap::new();
        let mut i: usize = lo;
        assert(es.subrange(lo as int, lo as int) =~= Seq::<Entry>::empty());
        while i < hi
            invariant
                lo <= i <= hi <= args@.len(),
                es == args@,
                m.spec_pairs() == named_strings(es.subrange(lo as int, i as int)),
            decreases hi - i,
        {
            let e = &args[i];
            assert(es.subrange(lo as int, i + 1).drop_last() =~= es.subrange(lo as int, i as int));
            match (&e.name, &e.value) {
                (Some(k), Value::String(v)) => {
                    m.insert(k.clone(), v.clone());
                },
                _ => {},
            }
            i = i + 1;
        }
        Ok(m)
    }

    /// As `args_map`, and fails if a key is not among `allowed`.
    pub fn args_map_with_only_keys<R: SliceRange>(&self, range: R, allowed: &[&str]) -> (r: Result<
        StringMap,
        Diagnostic,
    >)
        ensures
            match r {
                Ok(m) => self.spec_entries() matches Some(es) && (range.spec_bounds(
                    es.len() as int,
                ) matches Some(b) && m.spec_pairs() == named_strings(es.subrange(b.0, b.1))
                    && keys_allowed(m.spec_pairs(), str_views(allowed@))),
                Err(d) => match self.spec_entries() {
                    Some(es) => match range.spec_bounds(es.len() as int) {
                        Some(b) => self.anchors(d, ErrorKind::UnknownKey) && !keys_allowed(
                            named_strings(es.subrange(b.0, b.1)),
                            str_views(allowed@),
                        ) && names_first_unknown(
                            d.message@,
                            named_strings(es.subrange(b.0, b.1)),
                            str_views(allowed@),
                        ),
                        None => self.anchors(d, ErrorKind::Shape),
                    },
                    None => self.anchors(d, ErrorKind::Shape),
                },
            },
    {
        let m = match self.args_map(range) {
            Ok(m) => m,
            Err(d) => {
                return Err(d);
            },
        };
        match first_unknown_key(&m, allowed) {
            Some(i) => {
                let msg = join3(
                    "Unknown configuration key: '",
                    m.pairs[i].0.as_str(),
                    "'. Allowed keys are: [",
                );
                let full = Self::with_key_list(msg, allowed);
                proof {
                    assert(msg@ == unknown_key_head(m.spec_pairs()[i as int].0));
                    assert(full@ == unknown_key_message(m.spec_pairs()[i as int].0, str_views(allowed@)));
                }
                Err(self.error(ErrorKind::UnknownKey, full))
            },
            None => Ok(m),
        }
    }

    /// `msg` followed by each of `keys` between double quotes, separated by
    /// commas, and a closing bracket.
    fn with_key_list(msg: String, keys: &[&str]) -> (r: String)
        ensures
            r@ == msg@ + quoted_keys(str_views(keys@)) + "]"@,
    {
        let ghost m = msg@;
        let mut out = msg;
        let mut j: usize = 0;
        assert(str_views(keys@.subrange(0, 0)) =~= Seq::<Seq<char>>::empty());
        assert(m + quoted_keys(Seq::<Seq<char>>::empty()) =~= m);
        while j < keys.len()
            invariant
                j <= keys@.len(),
                out@ == m + quoted_keys(str_views(keys@.subrange(0, j as int))),
            decreases keys.len() - j,
        {
            let ghost before = out@;
            let ghost ks = str_views(keys@.subrange(0, j + 1));
            assert(ks.drop_last() =~= str_views(keys@.subrange(0, j as int)));
            assert(ks.last() == keys@[j as int]@);
            if j > 0 {
                out.append(", ");
            }
            out.append("\"");
            out.append(keys[j]);
            out.append("\"");
            proof {
                if j == 0 {
                    assert(ks.len() == 1);
                    assert(ks[0] == keys@[0]@);
                    assert(out@ =~= m + quoted_keys(ks));
                } else {
                    assert(out@ =~= m + quoted_keys(ks));
                }
            }
            j = j + 1;
        }
        out.append("]");
        assert(keys@.subrange(0, keys@.len() as int) =~= keys@);
        out
    }

    /// Whether the focused node has a child block.
    pub fn has_children_block(&self) -> (r: Result<bool, Diagnostic>)
        ensures
            match r {
                Ok(b) => self.spec_node() matches Some(n) && b == n.children is Some,
                Err(d) => self.spec_node() is None && self.anchors(d, ErrorKind::Shape),
            },
    {
        match self.current {
            Current::Node(n) => Ok(n.children.is_some()),
            Current::Document(_) => Err(
                self.error(
                    ErrorKind::Shape,
                    String::from_str("Expected node, but current is a document"),
                ),
            ),
        }
    }

    /// As `nodes`, and fails on an empty block.
    pub fn req_nodes(&self) -> (r: Result<Vec<ParseContext<'a>>, Diagnostic>)
        ensures
            match r {
                Ok(v) => self.spec_block() matches Some(b) && b.len() > 0 && v@.len() == b.len()
                    && forall|i: int|
                    0 <= i < b.len() ==> self.same_source(#[trigger] v@[i]) && v@[i].spec_node()
                        == Some(b[i]),
                Err(d) => self.anchors(d, ErrorKind::Shape) && !(self.spec_block() matches Some(b)
                    && b.len() > 0) && (self.spec_node() is Some && self.spec_block() is Some
                    ==> d.message@ == "Block '"@ + self.spec_name().unwrap() + "' cannot be empty"@),
            },
    {
        let nodes = match self.nodes() {
            Ok(x) => x,
            Err(d) => {
                return Err(d);
            },
        };
        if nodes.len() == 0 {
            let name = match self.name() {
            Ok(x) => x,
            Err(d) => {
                return Err(d);
            },
        };
            return Err(self.error(ErrorKind::Shape, join3("Block '", name, "' cannot be empty")));
        }
        Ok(nodes)
    }
}

} // verus!
