use vstd::prelude::*;
use crate::ctx::ParseContext;
use crate::diagnostic::{Diagnostic, ErrorKind};
use crate::document::{Entry, Node, Value};
use crate::names::FQDN;
use crate::text::{join2, join3};
use crate::utils::{get_kdl_type_name, get_simple_type_name, last_segment};

verus! {

pub open spec fn digit_char(d: nat) -> char {
    if d == 0 { '0' }
    else if d == 1 { '1' }
    else if d == 2 { '2' }
    else if d == 3 { '3' }
    else if d == 4 { '4' }
    else if d == 5 { '5' }
    else if d == 6 { '6' }
    else if d == 7 { '7' }
    else if d == 8 { '8' }
    else { '9' }
}

/// The decimal digits of `n`, without leading zeros.
pub open spec fn digits_of(n: nat) -> Seq<char>
    decreases n,
{
    if n < 10 {
        seq![digit_char(n)]
    } else {
        digits_of(n / 10).push(digit_char(n % 10))
    }
}

/// The decimal text of an integer, with a leading `-` when it is negative.
pub open spec fn decimal_text(i: int) -> Seq<char> {
    if i < 0 {
        seq!['-'] + digits_of((-i) as nat)
    } else {
        digits_of(i as nat)
    }
}

/// The one-character text of digit `d`.
fn digit_text(d: u128) -> (r: &'static str)
    requires
        d < 10,
    ensures
        r@ == seq![digit_char(d as nat)],
{
    if d == 0 { proof { reveal_strlit("0"); } "0" }
    else if d == 1 { proof { reveal_strlit("1"); } "1" }
    else if d == 2 { proof { reveal_strlit("2"); } "2" }
    else if d == 3 { proof { reveal_strlit("3"); } "3" }
    else if d == 4 { proof { reveal_strlit("4"); } "4" }
    else if d == 5 { proof { reveal_strlit("5"); } "5" }
    else if d == 6 { proof { reveal_strlit("6"); } "6" }
    else if d == 7 { proof { reveal_strlit("7"); } "7" }
    else if d == 8 { proof { reveal_strlit("8"); } "8" }
    else { proof { reveal_strlit("9"); } "9" }
}

/// The decimal digits of `n`.
fn digits_text(n: u128) -> (r: String)
    ensures
        r@ == digits_of(n as nat),
    decreases n,
{
    if n < 10 {
        String::from_str(digit_text(n))
    } else {
        let head = digits_text(n / 10);
        let r = head.concat(digit_text(n % 10));
        assert(r@ =~= digits_of((n / 10) as nat).push(digit_char((n % 10) as nat)));
        r
    }
}

/// The decimal text of `i`.
pub fn integer_text(i: i128) -> (r: String)
    ensures
        r@ == decimal_text(i as int),
{
    if i < 0 {
        let m: u128 = ((-(i + 1)) as u128) + 1;
        assert(m as int == -(i as int));
        let r = String::from_str("-").concat(digits_text(m).as_str());
        proof {
            reveal_strlit("-");
        }
        assert(r@ =~= seq!['-'] + digits_of((-(i as int)) as nat));
        r
    } else {
        digits_text(i as u128)
    }
}

/// The text of a scalar, for every kind but null.
pub open spec fn lossy_text(v: Value) -> Option<Seq<char>> {
    match v {
        Value::String(s) => Some(s@),
        Value::Integer(i) => Some(decimal_text(i as int)),
        Value::Float(t) => Some(t@),
        Value::Bool(b) => Some(if b { "true"@ } else { "false"@ }),
        Value::Null => None,
    }
}

/// A scalar as diagnostics show it: a string between double quotes, any
/// other kind as its text, null as `null`.
pub open spec fn value_text(v: Value) -> Seq<char> {
    match v {
        Value::String(s) => "\""@ + s@ + "\""@,
        Value::Null => "null"@,
        _ => lossy_text(v).unwrap(),
    }
}

/// The message of a null read as text.
pub open spec fn null_message() -> Seq<char> {
    "Cannot parse 'null' as a string or number"@
}

/// The message of a value that does not parse as a type.
pub open spec fn invalid_message(name: Seq<char>, raw: Seq<char>, reason: Seq<char>) -> Seq<char> {
    "Invalid "@ + name + " '"@ + raw + "'. Reason: "@ + reason
}

/// A type that can be read from text.
pub trait FromText: Sized {
    /// The path of the type, as `module::Name`.
    spec fn spec_path() -> Seq<char>;

    fn path() -> (r: String)
        ensures
            r@ == Self::spec_path(),
    ;

    /// Whether the text reads as a value of the type.
    spec fn accepts(s: Seq<char>) -> bool;

    /// Whether `v` is what the text reads as.
    spec fn parsed_from(s: Seq<char>, v: Self) -> bool;

    /// The reason given for refusing the text.
    spec fn refusal(s: Seq<char>) -> Seq<char>;

    /// The value the text reads as, or the reason it does not read.
    fn from_text(s: &str) -> (r: Result<Self, String>)
        ensures
            match r {
                Ok(v) => Self::accepts(s@) && Self::parsed_from(s@, v),
                Err(e) => !Self::accepts(s@) && e@ == Self::refusal(s@),
            },
    ;
}

/// One entry, with the context it was read in.
#[derive(Clone, Copy, Debug)]
pub struct TypedValue<'a> {
    pub ctx: ParseContext<'a>,
    pub entry: &'a Entry,
}

impl<'a> TypedValue<'a> {
    /// Whether `d` is an error of `kind` anchored at this entry.
    pub open spec fn anchors(&self, d: Diagnostic, kind: ErrorKind) -> bool {
        d.kind == kind && d.span == self.entry.span && d.source_name@ == self.ctx.source_name@
    }

    pub fn new(ctx: ParseContext<'a>, entry: &'a Entry) -> (r: Self)
        ensures
            r.ctx == ctx,
            r.entry == entry,
    {
        TypedValue { ctx, entry }
    }

    fn mismatch(self, expected: &str) -> (d: Diagnostic)
        ensures
            self.anchors(d, ErrorKind::TypeMismatch),
            d.message@ == expected@ + ", found "@ + value_text(self.entry.value),
    {
        let found = describe_value(&self.entry.value);
        self.ctx.error_with_span(
            ErrorKind::TypeMismatch,
            join3(expected, ", found ", found.as_str()),
            self.entry.span,
        )
    }

    /// The string held by the entry.
    pub fn as_str(self) -> (r: Result<String, Diagnostic>)
        ensures
            match r {
                Ok(s) => self.entry.value matches Value::String(v) && s@ == v@,
                Err(d) => !(self.entry.value is String) && self.anchors(d, ErrorKind::TypeMismatch)
                    && d.message@ == "Expected a string value"@ + ", found "@ + value_text(self.entry.value),
            },
    {
        match &self.entry.value {
            Value::String(s) => Ok(s.clone()),
            _ => Err(self.mismatch("Expected a string value")),
        }
    }

    /// The non-negative integer held by the entry, if it fits in `usize`.
    pub fn as_usize(self) -> (r: Result<usize, Diagnostic>)
        ensures
            match r {
                Ok(n) => self.entry.value matches Value::Integer(i) && i == n,
                Err(d) => !(self.entry.value matches Value::Integer(i) && 0 <= i <= usize::MAX)
                    && self.anchors(d, ErrorKind::TypeMismatch) && d.message@
                    == "Expected a positive integer"@ + ", found "@ + value_text(self.entry.value),
            },
    {
        match &self.entry.value {
            Value::Integer(i) => {
                if 0 <= *i && *i <= usize::MAX as i128 {
                    Ok(*i as usize)
                } else {
                    Err(self.mismatch("Expected a positive integer"))
                }
            },
            _ => Err(self.mismatch("Expected a positive integer")),
        }
    }

    /// The boolean held by the entry.
    pub fn as_bool(self) -> (r: Result<bool, Diagnostic>)
        ensures
            match r {
                Ok(b) => self.entry.value == Value::Bool(b),
                Err(d) => !(self.entry.value is Bool) && self.anchors(d, ErrorKind::TypeMismatch)
                    && d.message@ == "Expected a boolean"@ + ", found "@ + value_text(self.entry.value),
            },
    {
        match &self.entry.value {
            Value::Bool(b) => Ok(*b),
            _ => Err(self.mismatch("Expected a boolean")),
        }
    }

    /// The text of the entry, whatever its kind; fails on null.
    pub fn as_string_lossy(self) -> (r: Result<String, Diagnostic>)
        ensures
            match r {
                Ok(s) => lossy_text(self.entry.value) == Some(s@),
                Err(d) => lossy_text(self.entry.value) is None && self.anchors(
                    d,
                    ErrorKind::TypeMismatch,
                ) && d.message@ == null_message(),
            },
    {
        match &self.entry.value {
            Value::String(s) => Ok(s.clone()),
            Value::Integer(i) => Ok(integer_text(*i)),
            Value::Float(t) => Ok(t.clone()),
            Value::Bool(b) => Ok(String::from_str(if *b { "true" } else { "false" })),
            Value::Null => Err(
                self.ctx.error_with_span(
                    ErrorKind::TypeMismatch,
                    String::from_str("Cannot parse 'null' as a string or number"),
                    self.entry.span,
                ),
            ),
        }
    }

    /// The entry's text read as a `T`.
    pub fn parse_as<T: FromText>(self) -> (r: Result<T, Diagnostic>)
        ensures
            match lossy_text(self.entry.value) {
                None => r matches Err(d) && self.anchors(d, ErrorKind::TypeMismatch) && d.message@
                    == null_message(),
                Some(t) => match r {
                    Ok(v) => T::accepts(t) && T::parsed_from(t, v),
                    Err(d) => !T::accepts(t) && self.anchors(d, ErrorKind::Format) && d.message@
                        == invalid_message(last_segment(T::spec_path()), t, T::refusal(t)),
                },
            },
    {
        let raw = match self.as_string_lossy() {
            Ok(x) => x,
            Err(d) => {
                return Err(d);
            },
        };
        match T::from_text(raw.as_str()) {
            Ok(v) => Ok(v),
            Err(e) => {
                let name = get_simple_type_name::<T>();
                let head = join3("Invalid ", name.as_str(), " '");
                let msg = join3(head.as_str(), raw.as_str(), "'. Reason: ").concat(e.as_str());
                assert(msg@ == invalid_message(name@, raw@, e@));
                Err(self.ctx.error_with_span(ErrorKind::Format, msg, self.entry.span))
            },
        }
    }
}

/// The text of `v` as diagnostics show it.
pub fn describe_value(v: &Value) -> (r: String)
    ensures
        r@ == value_text(*v),
{
    match v {
        Value::String(s) => join3("\"", s.as_str(), "\""),
        Value::Integer(i) => integer_text(*i),
        Value::Float(t) => t.clone(),
        Value::Bool(b) => String::from_str(if *b { "true" } else { "false" }),
        Value::Null => String::from_str("null"),
    }
}

/// Whether `es[i]` is the first entry of `es` named `k`.
pub open spec fn first_with_key(es: Seq<Entry>, k: Seq<char>, i: int) -> bool {
    0 <= i < es.len() && es[i].spec_key() == Some(k) && forall|j: int|
        0 <= j < i ==> (#[trigger] es[j]).spec_key() != Some(k)
}

/// Whether `e` is the first entry of `es` named `k`.
pub open spec fn is_first_with_key(es: Seq<Entry>, k: Seq<char>, e: Entry) -> bool {
    exists|i: int| #[trigger] first_with_key(es, k, i) && es[i] == e
}

/// The position of the first entry of `n` named `k`.
pub open spec fn key_index(n: Node, k: Seq<char>) -> int {
    key_pos(n.entries@, k)
}

/// The position of the first entry of `es` named `k`.
pub open spec fn key_pos(es: Seq<Entry>, k: Seq<char>) -> int {
    choose|i: int| first_with_key(es, k, i)
}

pub proof fn lemma_key_pos(es: Seq<Entry>, k: Seq<char>, i: int)
    requires
        first_with_key(es, k, i),
    ensures
        key_pos(es, k) == i,
        has_key(es, k),
{
    let j = key_pos(es, k);
    assert(first_with_key(es, k, j));
    if j < i {
        assert(es[j].spec_key() != Some(k));
    }
    if i < j {
        assert(es[i].spec_key() != Some(k));
    }
}

/// What `parse_fqdn_arg` gives for the entries `es` of a node and a property name.
pub open spec fn fqdn_arg_outcome(es: Seq<Entry>, name: Seq<char>, r: Result<FQDN, Diagnostic>) -> bool {
    if !has_key(es, name) {
        r matches Err(d) && d.kind == ErrorKind::MissingRequired && d.message@
            == "Missing required argument: '"@ + name + "'"@
    } else {
        match es[key_pos(es, name)].value {
            Value::String(t) => match crate::names::fqdn_outcome(t@) {
                Ok(x) => r matches Ok(f) && f@ == x,
                Err(e) => r matches Err(d) && d.kind == ErrorKind::Format && d.message@
                    == "Invalid FQDN '"@ + t@ + "'"@ + ": "@ + e,
            },
            _ => r matches Err(d) && d.kind == ErrorKind::TypeMismatch,
        }
    }
}

pub proof fn lemma_key_index(n: Node, k: Seq<char>, i: int)
    requires
        first_with_key(n.entries@, k, i),
    ensures
        key_index(n, k) == i,
        has_key(n.entries@, k),
{
    let j = key_index(n, k);
    assert(first_with_key(n.entries@, k, j));
    if j < i {
        assert(n.entries@[j].spec_key() != Some(k));
    }
    if i < j {
        assert(n.entries@[i].spec_key() != Some(k));
    }
}

pub open spec fn has_key(es: Seq<Entry>, k: Seq<char>) -> bool {
    exists|i: int| 0 <= i < es.len() && (#[trigger] es[i]).spec_key() == Some(k)
}

/// The positional entries of `es`, in order.
pub open spec fn positional(es: Seq<Entry>) -> Seq<Entry>
    decreases es.len(),
{
    if es.len() == 0 {
        Seq::empty()
    } else if es.last().name is None {
        positional(es.drop_last()).push(es.last())
    } else {
        positional(es.drop_last())
    }
}

/// The position of the first entry named `key`.
fn find_key(es: &[Entry], key: &str) -> (r: Option<usize>)
    ensures
        match r {
            Some(i) => first_with_key(es@, key@, i as int),
            None => !has_key(es@, key@),
        },
{
    let mut i: usize = 0;
    while i < es.len()
        invariant
            i <= es@.len(),
            forall|j: int| 0 <= j < i ==> (#[trigger] es@[j]).spec_key() != Some(key@),
        decreases es.len() - i,
    {
        match &es[i].name {
            Some(n) => {
                if crate::text::same_text(n.as_str(), key) {
                    return Some(i);
                }
            },
            None => {},
        }
        i = i + 1;
    }
    None
}

/// The `index`-th positional entry of `es`.
fn nth_positional(es: &[Entry], index: usize) -> (r: Option<&Entry>)
    ensures
        match r {
            Some(e) => index < positional(es@).len() && *e == positional(es@)[index as int],
            None => index >= positional(es@).len(),
        },
{
    let mut i: usize = 0;
    let mut seen: usize = 0;
    while i < es.len()
        invariant
            i <= es@.len(),
            seen == positional(es@.subrange(0, i as int)).len(),
            seen <= index,
        decreases es.len() - i,
    {
        assert(es@.subrange(0, i + 1).drop_last() =~= es@.subrange(0, i as int));
        if es[i].name.is_none() {
            if seen == index {
                proof {
                    lemma_positional_prefix(es@, i as int + 1);
                }
                return Some(&es[i]);
            }
            seen = seen + 1;
        }
        i = i + 1;
    }
    assert(es@.subrange(0, i as int) =~= es@);
    None
}

/// The positional entries of a prefix are a prefix of the positional entries.
proof fn lemma_positional_prefix(es: Seq<Entry>, n: int)
    requires
        0 <= n <= es.len(),
    ensures
        positional(es.subrange(0, n)).len() <= positional(es).len(),
        forall|k: int|
            0 <= k < positional(es.subrange(0, n)).len() ==> #[trigger] positional(es)[k]
                == positional(es.subrange(0, n))[k],
    decreases es.len() - n,
{
    if n < es.len() {
        lemma_positional_prefix(es, n + 1);
        assert(es.subrange(0, n + 1).drop_last() =~= es.subrange(0, n));
    } else {
        assert(es.subrange(0, n) =~= es);
    }
}

impl<'a> ParseContext<'a> {
    /// The first entry of the focused node, of any kind.
    pub fn first(&self) -> (r: Result<TypedValue<'a>, Diagnostic>)
        ensures
            match r {
                Ok(v) => self.spec_entries() matches Some(es) && es.len() > 0 && *v.entry == es[0]
                    && v.ctx == *self,
                Err(d) => match self.spec_entries() {
                    None => self.anchors(d, ErrorKind::Shape),
                    Some(es) => es.len() == 0 && self.anchors(d, ErrorKind::MissingRequired),
                },
            },
    {
        let args = match self.args() {
            Ok(x) => x,
            Err(d) => {
                return Err(d);
            },
        };
        if args.len() == 0 {
            return Err(
                self.error(
                    ErrorKind::MissingRequired,
                    String::from_str("Missing required first argument"),
                ),
            );
        }
        Ok(TypedValue::new(*self, &args[0]))
    }

    /// The `index`-th positional entry of the focused node.
    pub fn arg(&self, index: usize) -> (r: Result<TypedValue<'a>, Diagnostic>)
        ensures
            match r {
                Ok(v) => self.spec_entries() matches Some(es) && index < positional(es).len()
                    && *v.entry == positional(es)[index as int] && v.ctx == *self,
                Err(d) => match self.spec_entries() {
                    None => self.anchors(d, ErrorKind::Shape),
                    Some(es) => index >= positional(es).len() && self.anchors(
                        d,
                        ErrorKind::MissingRequired,
                    ) && d.message@ == "Missing required argument at position "@ + decimal_text(
                        index + 1,
                    ),
                },
            },
    {
        let args = match self.args() {
            Ok(x) => x,
            Err(d) => {
                return Err(d);
            },
        };
        match nth_positional(args, index) {
            Some(e) => Ok(TypedValue::new(*self, e)),
            None => {
                let pos = integer_text(index as i128 + 1);
                Err(
                    self.error(
                        ErrorKind::MissingRequired,
                        join2("Missing required argument at position ", pos.as_str()),
                    ),
                )
            },
        }
    }

    /// The first entry of the focused node named `key`.
    pub fn prop(&self, key: &str) -> (r: Result<TypedValue<'a>, Diagnostic>)
        ensures
            match r {
                Ok(v) => self.spec_entries() matches Some(es) && v.ctx == *self
                    && is_first_with_key(es, key@, *v.entry),
                Err(d) => match self.spec_entries() {
                    None => self.anchors(d, ErrorKind::Shape),
                    Some(es) => !has_key(es, key@) && self.anchors(d, ErrorKind::MissingRequired)
                        && d.message@ == "Missing required property '"@ + key@ + "'"@,
                },
            },
    {
        let args = match self.args() {
            Ok(x) => x,
            Err(d) => {
                return Err(d);
            },
        };
        match find_key(args, key) {
            Some(i) => {
                let v = TypedValue::new(*self, &args[i]);
                assert(first_with_key(args@, key@, i as int));
                assert(is_first_with_key(args@, key@, *v.entry));
                Ok(v)
            },
            None => Err(
                self.error(
                    ErrorKind::MissingRequired,
                    join3("Missing required property '", key, "'"),
                ),
            ),
        }
    }

    /// The first entry of the focused node named `key`, if there is one.
    pub fn opt_prop(&self, key: &str) -> (r: Result<Option<TypedValue<'a>>, Diagnostic>)
        ensures
            match r {
                Ok(Some(v)) => self.spec_entries() matches Some(es) && v.ctx == *self
                    && is_first_with_key(es, key@, *v.entry),
                Ok(None) => self.spec_entries() matches Some(es) && !has_key(es, key@),
                Err(d) => self.spec_entries() is None && self.anchors(d, ErrorKind::Shape),
            },
    {
        let args = match self.args() {
            Ok(x) => x,
            Err(d) => {
                return Err(d);
            },
        };
        match find_key(args, key) {
            Some(i) => {
                let v = TypedValue::new(*self, &args[i]);
                assert(first_with_key(args@, key@, i as int));
                assert(is_first_with_key(args@, key@, *v.entry));
                Ok(Some(v))
            },
            None => Ok(None),
        }
    }

    /// One lookup of `opt_prop` per key, in order.
    pub fn props(&self, keys: &[&str]) -> (r: Result<Vec<Option<TypedValue<'a>>>, Diagnostic>)
        ensures
            match r {
                Ok(v) => self.spec_entries() matches Some(es) && v@.len() == keys@.len() && forall|
                    k: int,
                | 0 <= k < keys@.len() ==> match #[trigger] v@[k] {
                    Some(t) => t.ctx == *self && is_first_with_key(es, keys@[k]@, *t.entry),
                    None => !has_key(es, keys@[k]@),
                },
                Err(d) => self.spec_entries() is None && self.anchors(d, ErrorKind::Shape),
            },
    {
        let args = match self.args() {
            Ok(x) => x,
            Err(d) => {
                return Err(d);
            },
        };
        let mut out: Vec<Option<TypedValue<'a>>> = Vec::new();
        let mut k: usize = 0;
        while k < keys.len()
            invariant
                k <= keys@.len(),
                self.spec_entries() == Some(args@),
                out@.len() == k,
                forall|j: int|
                    0 <= j < k ==> match #[trigger] out@[j] {
                        Some(t) => t.ctx == *self && is_first_with_key(args@, keys@[j]@, *t.entry),
                        None => !has_key(args@, keys@[j]@),
                    },
            decreases keys.len() - k,
        {
            match find_key(args, keys[k]) {
                Some(i) => {
                    let v = TypedValue::new(*self, &args[i]);
                    assert(first_with_key(args@, keys@[k as int]@, i as int));
                    assert(is_first_with_key(args@, keys@[k as int]@, *v.entry));
                    out.push(Some(v));
                },
                None => out.push(None),
            }
            k = k + 1;
        }
        Ok(out)
    }

    /// The string of the property `name`, which must be present.
    pub fn string_arg(&self, name: &str) -> (r: Result<String, Diagnostic>)
        ensures
            match r {
                Ok(s) => self.spec_entries() matches Some(es) && exists|i: int|
                    first_with_key(es, name@, i) && (es[i].value matches Value::String(v) && v@
                        == s@),
                Err(d) => match self.spec_entries() {
                    None => self.anchors(d, ErrorKind::Shape),
                    Some(es) => (!has_key(es, name@) && self.anchors(d, ErrorKind::MissingRequired)
                        && d.message@ == "Missing required argument: '"@ + name@ + "'"@)
                        || (exists|i: int|
                        first_with_key(es, name@, i) && !(es[i].value is String) && d.kind
                            == ErrorKind::TypeMismatch),
                },
            },
    {
        let entry = match self.opt_prop(name)? {
            Some(e) => e,
            None => {
                return Err(
                    self.error(
                        ErrorKind::MissingRequired,
                        join3("Missing required argument: '", name, "'"),
                    ),
                );
            },
        };
        entry.as_str()
    }

    /// The property `name`, which must be present, read as a domain name.
    pub fn parse_fqdn_arg(&self, name: &str) -> (r: Result<FQDN, Diagnostic>)
        ensures
            match self.spec_entries() {
                None => r matches Err(d) && self.anchors(d, ErrorKind::Shape),
                Some(es) => fqdn_arg_outcome(es, name@, r),
            },
    {
        let s = match self.string_arg(name) {
            Ok(x) => x,
            Err(d) => {
                proof {
                    if self.spec_entries() is Some {
                        let es = self.spec_entries().unwrap();
                        if has_key(es, name@) {
                            let i = choose|i: int| first_with_key(es, name@, i) && !(es[i].value is String) && d.kind == ErrorKind::TypeMismatch;
                            lemma_key_pos(es, name@, i);
                        }
                    }
                }
                return Err(d);
            },
        };
        proof {
            let es = self.spec_entries().unwrap();
            let i = choose|i: int| first_with_key(es, name@, i) && (es[i].value matches Value::String(v) && v@ == s@);
            lemma_key_pos(es, name@, i);
        }
        match crate::names::FQDN::from_text(s.as_str()) {
            Ok(f) => Ok(f),
            Err(e) => {
                let head = join3("Invalid FQDN '", s.as_str(), "'");
                Err(self.error(ErrorKind::Format, join3(head.as_str(), ": ", e.as_str())))
            },
        }
    }
}

/// `opt.as_str()` when the entry is there.
pub fn opt_as_str(opt: Option<TypedValue>) -> (r: Result<Option<String>, Diagnostic>)
    ensures
        match opt {
            None => r == Ok::<Option<String>, Diagnostic>(None),
            Some(v) => match r {
                Ok(Some(s)) => v.entry.value matches Value::String(t) && s@ == t@,
                Ok(None) => false,
                Err(d) => !(v.entry.value is String) && v.anchors(d, ErrorKind::TypeMismatch),
            },
        },
{
    match opt {
        Some(v) => match v.as_str() {
            Ok(s) => Ok(Some(s)),
            Err(d) => Err(d),
        },
        None => Ok(None),
    }
}

/// `opt.as_bool()` when the entry is there.
pub fn opt_as_bool(opt: Option<TypedValue>) -> (r: Result<Option<bool>, Diagnostic>)
    ensures
        match opt {
            None => r == Ok::<Option<bool>, Diagnostic>(None),
            Some(v) => match r {
                Ok(Some(b)) => v.entry.value == Value::Bool(b),
                Ok(None) => false,
                Err(d) => !(v.entry.value is Bool) && v.anchors(d, ErrorKind::TypeMismatch),
            },
        },
{
    match opt {
        Some(v) => match v.as_bool() {
            Ok(b) => Ok(Some(b)),
            Err(d) => Err(d),
        },
        None => Ok(None),
    }
}

/// `opt.as_usize()` when the entry is there.
pub fn opt_as_usize(opt: Option<TypedValue>) -> (r: Result<Option<usize>, Diagnostic>)
    ensures
        match opt {
            None => r == Ok::<Option<usize>, Diagnostic>(None),
            Some(v) => match r {
                Ok(Some(n)) => v.entry.value matches Value::Integer(i) && i == n,
                Ok(None) => false,
                Err(d) => !(v.entry.value matches Value::Integer(i) && 0 <= i <= usize::MAX)
                    && v.anchors(d, ErrorKind::TypeMismatch),
            },
        },
{
    match opt {
        Some(v) => match v.as_usize() {
            Ok(n) => Ok(Some(n)),
            Err(d) => Err(d),
        },
        None => Ok(None),
    }
}

/// `opt.parse_as::<T>()` when the entry is there.
pub fn opt_parse_as<T: FromText>(opt: Option<TypedValue>) -> (r: Result<Option<T>, Diagnostic>)
    ensures
        match opt {
            None => r matches Ok(None),
            Some(v) => match r {
                Ok(Some(x)) => lossy_text(v.entry.value) matches Some(t) && T::accepts(t)
                    && T::parsed_from(t, x),
                Ok(None) => false,
                Err(d) => match lossy_text(v.entry.value) {
                    None => v.anchors(d, ErrorKind::TypeMismatch) && d.message@ == null_message(),
                    Some(t) => !T::accepts(t) && v.anchors(d, ErrorKind::Format) && d.message@
                        == invalid_message(last_segment(T::spec_path()), t, T::refusal(t)),
                },
            },
        },
{
    match opt {
        Some(v) => match v.parse_as::<T>() {
            Ok(x) => Ok(Some(x)),
            Err(d) => Err(d),
        },
        None => Ok(None),
    }
}

} // verus!
