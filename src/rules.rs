use vstd::prelude::*;
use crate::ctx::{Current, ParseContext};
use crate::diagnostic::{Diagnostic, ErrorKind};
use crate::document::{Entry, Node};
use crate::text::{join3, same_text};
use crate::utils::{kind_of, PrimitiveType};

verus! {

/// A structural constraint on the focused node.
#[derive(Clone, Copy, Debug)]
pub enum Rule<'a> {
    /// The node has no child block.
    NoChildren,
    /// Every entry of the node is named.
    NoPositionalArgs,
    /// Every named entry has one of the listed keys, with a scalar of the listed kind.
    OnlyKeysTyped(&'a [(&'a str, PrimitiveType)]),
    /// The node's name meets a predicate: what the name must be, and the
    /// predicate's reading of the name (`None` when the name fails it).
    Name(&'a str, &'a Option<String>),
}

/// The kind declared for `k` in `allowed`, if `k` is listed (the first listing wins).
pub open spec fn declared_kind(allowed: Seq<(&str, PrimitiveType)>, k: Seq<char>) -> Option<
    PrimitiveType,
>
    decreases allowed.len(),
{
    if allowed.len() == 0 {
        None
    } else if allowed[0].0@ == k {
        Some(allowed[0].1)
    } else {
        declared_kind(allowed.drop_first(), k)
    }
}

/// Whether entry `e` meets a typed key list: positional entries always do.
pub open spec fn entry_fits(e: Entry, allowed: Seq<(&str, PrimitiveType)>) -> bool {
    match e.name {
        None => true,
        Some(k) => declared_kind(allowed, k@) == Some(kind_of(e.value)),
    }
}

/// Whether `rule` holds of node `n`.
pub open spec fn rule_holds(rule: Rule, n: Node) -> bool {
    match rule {
        Rule::NoChildren => n.children is None,
        Rule::NoPositionalArgs => forall|i: int|
            0 <= i < n.entries@.len() ==> (#[trigger] n.entries@[i]).name is Some,
        Rule::OnlyKeysTyped(allowed) => forall|i: int|
            0 <= i < n.entries@.len() ==> entry_fits(#[trigger] n.entries@[i], allowed@),
        Rule::Name(_, reading) => reading is Some,
    }
}

/// Whether entry `i` is the first of `es` that does not meet the typed key list.
pub open spec fn first_misfit(es: Seq<Entry>, allowed: Seq<(&str, PrimitiveType)>, i: int) -> bool {
    0 <= i < es.len() && !entry_fits(es[i], allowed) && forall|j: int|
        0 <= j < i ==> entry_fits(#[trigger] es[j], allowed)
}

/// The kind of error for a named entry that does not meet the typed key list:
/// an unlisted key, or a listed key with a scalar of another kind.
pub open spec fn misfit_kind(e: Entry, allowed: Seq<(&str, PrimitiveType)>) -> ErrorKind {
    match e.name {
        Some(k) => if declared_kind(allowed, k@) is None {
            ErrorKind::UnknownKey
        } else {
            ErrorKind::TypeMismatch
        },
        None => ErrorKind::Shape,
    }
}

/// Whether `d` is the error that broken `rule` gives on node `n`: a shape error
/// at the node, or, for a typed key list, an error at its first offending entry.
pub open spec fn rule_error(rule: Rule, n: Node, d: Diagnostic) -> bool {
    match rule {
        Rule::NoChildren => d.kind == ErrorKind::Shape && d.span == n.span,
        Rule::NoPositionalArgs => d.kind == ErrorKind::Shape && d.span == n.span,
        Rule::OnlyKeysTyped(allowed) => exists|i: int| #[trigger] first_misfit(n.entries@, allowed@, i)
            && d.kind == misfit_kind(n.entries@[i], allowed@) && d.span == n.entries@[i].span,
        Rule::Name(what, _) => d.kind == ErrorKind::Format && d.span == n.span && d.message@
            == "Invalid "@ + what@ + " '"@ + n.name@ + "'"@,
    }
}

/// Whether all of `rules` hold of node `n`.
pub open spec fn rules_hold(rules: Seq<Rule>, n: Node) -> bool {
    forall|k: int| 0 <= k < rules.len() ==> rule_holds(#[trigger] rules[k], n)
}

/// Whether rule `k` is the first of `rules` that fails on `n`.
pub open spec fn first_broken(rules: Seq<Rule>, n: Node, k: int) -> bool {
    0 <= k < rules.len() && !rule_holds(rules[k], n) && forall|j: int|
        0 <= j < k ==> rule_holds(#[trigger] rules[j], n)
}

pub open spec fn reported_by_first_broken(rules: Seq<Rule>, n: Node, d: Diagnostic) -> bool {
    exists|k: int| #[trigger] first_broken(rules, n, k) && rule_error(rules[k], n, d)
}

/// The kind declared for `key` in `allowed`.
fn lookup_kind(allowed: &[(&str, PrimitiveType)], key: &str) -> (r: Option<PrimitiveType>)
    ensures
        r == declared_kind(allowed@, key@),
{
    let mut i: usize = 0;
    assert(allowed@.subrange(0, allowed@.len() as int) =~= allowed@);
    while i < allowed.len()
        invariant
            i <= allowed@.len(),
            declared_kind(allowed@, key@) == declared_kind(allowed@.subrange(i as int, allowed@.len() as int), key@),
        decreases allowed.len() - i,
    {
        let ghost rest = allowed@.subrange(i as int, allowed@.len() as int);
        assert(rest.drop_first() =~= allowed@.subrange(i + 1, allowed@.len() as int));
        if same_text(allowed[i].0, key) {
            return Some(allowed[i].1);
        }
        i = i + 1;
    }
    assert(allowed@.subrange(i as int, allowed@.len() as int) =~= Seq::<(&str, PrimitiveType)>::empty());
    None
}

/// Checks one rule against node `n`.
fn check_rule(ctx: &ParseContext, n: &Node, rule: Rule) -> (r: Result<(), Diagnostic>)
    requires
        ctx.spec_node() == Some(*n),
    ensures
        match r {
            Ok(_) => rule_holds(rule, *n),
            Err(d) => !rule_holds(rule, *n) && rule_error(rule, *n, d) && d.source_name@
                == ctx.source_name@,
        },
{
    match rule {
        Rule::NoChildren => {
            if n.children.is_some() {
                return Err(ctx.error(ErrorKind::Shape, join3("Directive '", n.name.as_str(), "' cannot have a children block")));
            }
            Ok(())
        },
        Rule::NoPositionalArgs => {
            let mut i: usize = 0;
            while i < n.entries.len()
                invariant
                    i <= n.entries@.len(),
                    rule == Rule::NoPositionalArgs,
                    ctx.spec_node() == Some(*n),
                    forall|j: int| 0 <= j < i ==> (#[trigger] n.entries@[j]).name is Some,
                decreases n.entries.len() - i,
            {
                if n.entries[i].name.is_none() {
                    return Err(ctx.error(ErrorKind::Shape, join3("Directive '", n.name.as_str(), "' takes no positional arguments")));
                }
                i = i + 1;
            }
            Ok(())
        },
        Rule::OnlyKeysTyped(allowed) => {
            let mut i: usize = 0;
            while i < n.entries.len()
                invariant
                    i <= n.entries@.len(),
                    rule == Rule::OnlyKeysTyped(allowed),
                    ctx.spec_node() == Some(*n),
                    forall|j: int| 0 <= j < i ==> entry_fits(#[trigger] n.entries@[j], allowed@),
                decreases n.entries.len() - i,
            {
                let e = &n.entries[i];
                match &e.name {
                    None => {},
                    Some(k) => {
                        match lookup_kind(allowed, k.as_str()) {
                            None => {
                                assert(first_misfit(n.entries@, allowed@, i as int));
                                return Err(ctx.error_with_span(ErrorKind::UnknownKey, join3("Unknown configuration key: '", k.as_str(), "'"), e.span));
                            },
                            Some(t) => {
                                let found = PrimitiveType::of(&e.value);
                                if found != t {
                                    assert(first_misfit(n.entries@, allowed@, i as int));
                                    let head = join3("Key '", k.as_str(), "' expects ");
                                    let msg = join3(head.as_str(), t.name(), ", found ").concat(found.name());
                                    return Err(ctx.error_with_span(ErrorKind::TypeMismatch, msg, e.span));
                                }
                            },
                        }
                    },
                }
                i = i + 1;
            }
            Ok(())
        },
        Rule::Name(what, reading) => {
            if reading.is_none() {
                let head = join3("Invalid ", what, " '");
                return Err(ctx.error(ErrorKind::Format, join3(head.as_str(), n.name.as_str(), "'")));
            }
            Ok(())
        },
    }
}

impl<'a> ParseContext<'a> {
    /// Checks `rules` in order against the focused node; the first broken rule
    /// decides the error.
    pub fn validate(&self, rules: &[Rule]) -> (r: Result<(), Diagnostic>)
        ensures
            match self.spec_node() {
                None => r matches Err(d) && self.anchors(d, ErrorKind::Shape),
                Some(n) => match r {
                    Ok(_) => rules_hold(rules@, n),
                    Err(d) => reported_by_first_broken(rules@, n, d) && d.source_name@
                        == self.source_name@,
                },
            },
    {
        let n: &Node = match self.current {
            Current::Node(n) => n,
            Current::Document(_) => {
                return Err(self.error(ErrorKind::Shape, String::from_str("Expected node, but current is a document")));
            },
        };
        let mut k: usize = 0;
        while k < rules.len()
            invariant
                k <= rules@.len(),
                self.spec_node() == Some(*n),
                forall|j: int| 0 <= j < k ==> rule_holds(#[trigger] rules@[j], *n),
            decreases rules.len() - k,
        {
            match check_rule(self, n, rules[k]) {
                Ok(_) => {},
                Err(d) => {
                    assert(first_broken(rules@, *n, k as int));
                    return Err(d);
                },
            }
            k = k + 1;
        }
        Ok(())
    }
}

} // verus!
