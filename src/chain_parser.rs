use vstd::prelude::*;
use crate::block::{
    lemma_all_named, lemma_mirror_split, lemma_named_from, lemma_not_named_first, matching,
    mirrors, nodes_named, nodes_not_named, others, BlockParser,
};
use crate::ctx::{named_strings, ParseContext};
use crate::definitions::{ConfiguredFilter, FilterChain};
use crate::diagnostic::{Diagnostic, ErrorKind};
use crate::document::{Entry, Node};
use crate::key_profile_parser::{entries_write, lemma_entries_write, named_string, no_span, pairs_entries, string_entry};
use crate::names::{fqdn_outcome, reads_back, FQDN};
use crate::rules::{rules_hold, Rule};
use crate::typed_value::{first_with_key, has_key, invalid_message, key_index, lemma_key_index, lossy_text};
use crate::utils::{last_segment, last_separator_end};

verus! {

/// The text of the `name` entry of a filter node.
pub open spec fn filter_name_text(n: Node) -> Option<Seq<char>> {
    lossy_text(n.entries@[key_index(n, "name"@)].value)
}

/// Whether a `filter` node reads as a filter: no child block, named entries
/// only, and a `name` that is a domain name.
pub open spec fn filter_ok(n: Node) -> bool {
    &&& n.children is None
    &&& forall|i: int| 0 <= i < n.entries@.len() ==> (#[trigger] n.entries@[i]).name is Some
    &&& has_key(n.entries@, "name"@)
    &&& filter_name_text(n) matches Some(t) && fqdn_outcome(t) is Ok
}

/// Whether `f` is what filter node `n` reads as: its name, and the string
/// entries after the first as arguments.
pub open spec fn filter_of(n: Node, f: ConfiguredFilter) -> bool {
    &&& filter_name_text(n) matches Some(t) && fqdn_outcome(t) == Ok::<Seq<char>, Seq<char>>(f.name@)
    &&& f.args.spec_pairs() == named_strings(n.entries@.subrange(1, n.entries@.len() as int))
}

/// Whether `d` is the error a filter node gives: a shape error for a child
/// block or a positional entry, a missing `name`, or a name that `fqdn` refuses.
pub open spec fn filter_error(n: Node, d: Diagnostic) -> bool {
    if !(n.children is None && forall|i: int| 0 <= i < n.entries@.len() ==> (#[trigger] n.entries@[i]).name is Some) {
        d.kind == ErrorKind::Shape && d.span == n.span
    } else if !has_key(n.entries@, "name"@) {
        d.kind == ErrorKind::MissingRequired && d.message@ == "Missing required property '"@ + "name"@ + "'"@
    } else {
        match filter_name_text(n) {
            Some(t) => match fqdn_outcome(t) {
                Err(e) => d.kind == ErrorKind::Format && d.message@ == invalid_message("FQDN"@, t, e),
                Ok(_) => true,
            },
            None => true,
        }
    }
}

pub open spec fn filter_result(c: ParseContext, r: Result<ConfiguredFilter, Diagnostic>) -> bool {
    c.spec_node() matches Some(n) ==> ((r is Ok) == filter_ok(n) && (r matches Ok(f) ==> filter_of(n, f))
        && (r matches Err(d) ==> filter_error(n, d)))
}

/// Whether filter `k` of block `bl` is the first filter node that does not read.
pub open spec fn first_bad_filter(bl: Seq<Node>, k: int) -> bool {
    let fs = nodes_named(bl, "filter"@);
    0 <= k < fs.len() && !filter_ok(fs[k]) && forall|j: int| 0 <= j < k ==> filter_ok(#[trigger] fs[j])
}

proof fn lemma_fqdn_simple_name()
    ensures
        last_segment("fqdn::FQDN"@) == "FQDN"@,
{
    reveal_strlit("fqdn::FQDN");
    reveal_strlit("FQDN");
    reveal_with_fuel(last_separator_end, 12);
    assert(last_separator_end("fqdn::FQDN"@, 10) == 6);
    assert("fqdn::FQDN"@.subrange(6, 10) =~= "FQDN"@);
}

/// Reads a sequence of `filter` directives.
pub struct ChainParser;

impl ChainParser {
    /// Reads one `filter` directive.
    pub fn parse_filter<'a>(fc: ParseContext<'a>) -> (r: Result<ConfiguredFilter, Diagnostic>)
        ensures
            filter_result(fc, r),
    {
        let rules = vec![Rule::NoChildren, Rule::NoPositionalArgs];
        match fc.validate(rules.as_slice()) {
            Ok(_) => {},
            Err(d) => {
                proof {
                    if fc.spec_node() is Some {
                        let n = fc.spec_node().unwrap();
                        let k = choose|k: int| #[trigger] crate::rules::first_broken(rules@, n, k)
                            && crate::rules::rule_error(rules@[k], n, d);
                        assert(k == 0 || k == 1);
                    }
                }
                return Err(d);
            },
        }
        proof {
            let n = fc.spec_node().unwrap();
            assert(rules_hold(rules@, n));
            assert(crate::rules::rule_holds(rules@[0], n));
            assert(crate::rules::rule_holds(rules@[1], n));
        }
        let p = match fc.prop("name") {
            Ok(p) => p,
            Err(d) => {
                return Err(d);
            },
        };
        proof {
            let n = fc.spec_node().unwrap();
            let i = choose|i: int| #[trigger] first_with_key(n.entries@, "name"@, i) && n.entries@[i] == *p.entry;
            lemma_key_index(n, "name"@, i);
        }
        let name = match p.parse_as::<FQDN>() {
            Ok(x) => x,
            Err(d) => {
                proof {
                    lemma_fqdn_simple_name();
                }
                return Err(d);
            },
        };
        let args = match fc.args_map(1..) {
            Ok(m) => m,
            Err(d) => {
                return Err(d);
            },
        };
        Ok(ConfiguredFilter { name, args })
    }

    /// Reads the block that `ctx` focuses on as a filter chain: every directive
    /// must be a `filter`.
    pub fn parse(&self, ctx: ParseContext<'_>) -> (r: Result<FilterChain, Diagnostic>)
        ensures
            match ctx.spec_block() {
                None => r matches Err(d) && ctx.anchors(d, ErrorKind::Shape),
                Some(bl) => {
                    &&& (r is Ok) == (forall|i: int| 0 <= i < bl.len() ==> (#[trigger] bl[i]).name@ == "filter"@ && filter_ok(bl[i]))
                    &&& r matches Ok(chain) ==> chain.filters@.len() == bl.len() && forall|i: int|
                        0 <= i < bl.len() ==> filter_of(bl[i], #[trigger] chain.filters@[i])
                    &&& r matches Err(d) ==> (exists|k: int| #[trigger] first_bad_filter(bl, k)
                            && filter_error(nodes_named(bl, "filter"@)[k], d))
                        || ((forall|i: int| 0 <= i < nodes_named(bl, "filter"@).len() ==> filter_ok(#[trigger] nodes_named(bl, "filter"@)[i]))
                            && d.kind == ErrorKind::UnknownDirective && nodes_not_named(bl, "filter"@).len() > 0
                            && d.message@ == "Unknown directive: '"@ + nodes_not_named(bl, "filter"@)[0].name@ + "'"@)
                },
            },
    {
        let mut block = match BlockParser::new(ctx) {
            Ok(b) => b,
            Err(d) => {
                return Err(d);
            },
        };
        let ghost bl = ctx.spec_block().unwrap();
        let ghost s = block.pending@;
        assert(mirrors(s, bl));
        let f = |fc: ParseContext<'_>| -> (r: Result<ConfiguredFilter, Diagnostic>)
            ensures
                filter_result(fc, r),
            { Self::parse_filter(fc) };
        let filters = block.repeated("filter", f);
        proof {
            lemma_mirror_split(s, bl, "filter"@);
            lemma_not_named_first(bl, "filter"@);
        }
        let filters = match filters {
            Ok(v) => v,
            Err(d) => {
                proof {
                    let k = choose|k: int|
                        0 <= k < matching(s, "filter"@).len() && f.ensures(
                            (#[trigger] matching(s, "filter"@)[k],),
                            Err::<ConfiguredFilter, Diagnostic>(d),
                        ) && forall|j: int|
                            0 <= j < k ==> crate::block::succeeded(f, #[trigger] matching(s, "filter"@)[j]);
                    let fs = nodes_named(bl, "filter"@);
                    assert forall|j: int| 0 <= j < k implies filter_ok(#[trigger] fs[j]) by {
                        assert(crate::block::succeeded(f, matching(s, "filter"@)[j]));
                        let v = choose|v: ConfiguredFilter| #[trigger] f.ensures((matching(s, "filter"@)[j],), Ok::<ConfiguredFilter, Diagnostic>(v));
                        assert(filter_result(matching(s, "filter"@)[j], Ok::<ConfiguredFilter, Diagnostic>(v)));
                        assert(matching(s, "filter"@)[j].spec_node() == Some(fs[j]));
                    }
                    assert(matching(s, "filter"@)[k].spec_node() == Some(fs[k]));
                    assert(first_bad_filter(bl, k));
                    assert(filter_result(matching(s, "filter"@)[k], Err::<ConfiguredFilter, Diagnostic>(d)));
                    lemma_named_from(bl, "filter"@, k);
                    let m = nodes_named(bl, "filter"@)[k];
                    assert(!filter_ok(m));
                    let i = choose|i: int| 0 <= i < bl.len() && #[trigger] bl[i] == m;
                    assert(bl[i].name@ == "filter"@ && !filter_ok(bl[i]));
                }
                return Err(d);
            },
        };
        match block.exhaust() {
            Ok(_) => {},
            Err(d) => {
                proof {
                    let fs = nodes_named(bl, "filter"@);
                    assert forall|i: int| 0 <= i < fs.len() implies filter_ok(#[trigger] fs[i]) by {
                        assert(f.ensures((matching(s, "filter"@)[i],), Ok::<ConfiguredFilter, Diagnostic>(filters@[i])));
                        assert(matching(s, "filter"@)[i].spec_node() == Some(fs[i]));
                    }
                }
                return Err(d);
            },
        }
        proof {
            assert(nodes_not_named(bl, "filter"@).len() == 0);
            lemma_all_named(bl, "filter"@);
            assert(matching(s, "filter"@).len() == bl.len());
            assert(filters@.len() == bl.len());
            assert forall|i: int| 0 <= i < bl.len() implies filter_of(bl[i], #[trigger] filters@[i]) && filter_ok(bl[i]) by {
                assert(f.ensures((matching(s, "filter"@)[i],), Ok::<ConfiguredFilter, Diagnostic>(filters@[i])));
                assert(matching(s, "filter"@)[i].spec_node() == Some(bl[i]));
            }
            assert forall|i: int| 0 <= i < bl.len() implies (#[trigger] bl[i]).name@ == "filter"@ && filter_ok(bl[i]) by {
                assert(filter_of(bl[i], filters@[i]) && filter_ok(bl[i]));
            }
        }
        Ok(FilterChain { filters })
    }
}

} // verus!

verus! {

/// Whether block `bl` writes `chain`: one `filter` node per filter, its name
/// first as the `name` entry, then its arguments as named entries.
pub open spec fn writes_chain(chain: FilterChain, bl: Seq<Node>) -> bool {
    bl.len() == chain.filters@.len() && forall|i: int|
        0 <= i < bl.len() ==> {
            let n = #[trigger] bl[i];
            let f = chain.filters@[i];
            &&& n.name@ == "filter"@
            &&& n.children is None
            &&& n.entries@.len() >= 1
            &&& string_entry(n.entries@[0], Some("name"@), f.name@)
            &&& entries_write(n.entries@.subrange(1, n.entries@.len() as int), f.args.spec_pairs())
        }
}

/// Round trip: a block that writes a chain with the chain's own key names
/// reads back as that chain, for names that `fqdn` reads back as themselves.
pub proof fn lemma_chain_round_trip(chain: FilterChain, bl: Seq<Node>)
    requires
        writes_chain(chain, bl),
        forall|i: int| 0 <= i < chain.filters@.len() ==> reads_back((#[trigger] chain.filters@[i]).name@),
    ensures
        forall|i: int| 0 <= i < bl.len() ==> (#[trigger] bl[i]).name@ == "filter"@ && filter_ok(bl[i]),
        forall|i: int, f: ConfiguredFilter|
            0 <= i < bl.len() && #[trigger] filter_of(bl[i], f) ==> f.name@ == chain.filters@[i].name@
                && f.args.spec_pairs() == chain.filters@[i].args.spec_pairs(),
{
    assert forall|i: int| 0 <= i < bl.len() implies (#[trigger] bl[i]).name@ == "filter"@ && filter_ok(bl[i])
        && filter_name_text(bl[i]) == Some(chain.filters@[i].name@) by {
        let n = bl[i];
        let es = n.entries@;
        assert(string_entry(es[0], Some("name"@), chain.filters@[i].name@));
        assert(first_with_key(es, "name"@, 0));
        lemma_key_index(n, "name"@, 0);
        let tail = es.subrange(1, es.len() as int);
        assert forall|j: int| 0 <= j < es.len() implies (#[trigger] es[j]).name is Some by {
            if j > 0 {
                assert(es[j] == tail[j - 1]);
                assert(string_entry(tail[j - 1], Some(chain.filters@[i].args.spec_pairs()[j - 1].0), chain.filters@[i].args.spec_pairs()[j - 1].1));
            }
        }
        assert(fqdn_outcome(chain.filters@[i].name@) is Ok);
    }
    assert forall|i: int, f: ConfiguredFilter| 0 <= i < bl.len() && #[trigger] filter_of(bl[i], f) implies f.name@
        == chain.filters@[i].name@ && f.args.spec_pairs() == chain.filters@[i].args.spec_pairs() by {
        let es = bl[i].entries@;
        assert(filter_name_text(bl[i]) == Some(chain.filters@[i].name@));
        lemma_entries_write(es.subrange(1, es.len() as int), chain.filters@[i].args.spec_pairs());
    }
}

impl FilterChain {
    /// The chain written as `filter` nodes. Every name of a chain reads back
    /// as itself, which `lemma_chain_round_trip` asks.
    pub fn to_nodes(&self) -> (r: Vec<Node>)
        ensures
            writes_chain(*self, r@),
            forall|i: int| 0 <= i < self.filters@.len() ==> reads_back((#[trigger] self.filters@[i]).name@),
    {
        let mut out: Vec<Node> = Vec::new();
        let mut i: usize = 0;
        while i < self.filters.len()
            invariant
                i <= self.filters@.len(),
                out@.len() == i,
                forall|j: int| 0 <= j < i ==> reads_back((#[trigger] self.filters@[j]).name@),
                forall|j: int|
                    0 <= j < i ==> {
                        let n = #[trigger] out@[j];
                        let f = self.filters@[j];
                        &&& n.name@ == "filter"@
                        &&& n.children is None
                        &&& n.entries@.len() >= 1
                        &&& string_entry(n.entries@[0], Some("name"@), f.name@)
                        &&& entries_write(n.entries@.subrange(1, n.entries@.len() as int), f.args.spec_pairs())
                    },
            decreases self.filters.len() - i,
        {
            let f = &self.filters[i];
            let mut entries: Vec<Entry> = Vec::new();
            entries.push(named_string("name", &String::from_str(f.name.text_of())));
            let mut args = pairs_entries(&f.args);
            let ghost written = args@;
            entries.append(&mut args);
            proof {
                let es = entries@;
                assert(es.subrange(1, es.len() as int) =~= written);
            }
            out.push(Node { name: String::from_str("filter"), entries, children: None, span: no_span() });
            i = i + 1;
        }
        out
    }
}

} // verus!
