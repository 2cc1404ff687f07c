use vstd::prelude::*;
use crate::block::{
    is_first_node,
    first_node, has_node, lemma_has_first_node, lemma_mirror_first, mirrors, without_first, BlockParser,
};
use crate::ctx::{keys_allowed, named_strings, names_first_unknown, str_views, ParseContext};
use crate::definitions::{HashAlgorithm, KeyTemplateConfig, Transform};
use crate::diagnostic::{Diagnostic, ErrorKind};
use crate::document::{Document, Entry, Node, Span, Value};
use crate::string_map::{pairs_map, StringMap};

verus! {

/// The value of `k` among the named string entries of `es`, if any.
pub open spec fn named_value(es: Seq<crate::document::Entry>, k: Seq<char>) -> Option<Seq<char>> {
    let m = pairs_map(named_strings(es));
    if m.contains_key(k) { Some(m[k]) } else { None }
}

pub open spec fn opt_view(o: Option<String>) -> Option<Seq<char>> {
    match o {
        Some(s) => Some(s@),
        None => None,
    }
}

/// The entries of `n` after its first one.
pub open spec fn tail_entries(n: Node) -> Seq<crate::document::Entry> {
    n.entries@.subrange(1, n.entries@.len() as int)
}

/// Whether a `key` node reads: a first entry that is a string, and no named
/// string entry after it other than `fallback`.
pub open spec fn key_ok(n: Node) -> bool {
    &&& n.entries@.len() > 0
    &&& n.entries@[0].value is String
    &&& keys_allowed(named_strings(tail_entries(n)), seq!["fallback"@])
}

/// Whether `p` (template, fallback) is what `key` node `n` reads as.
pub open spec fn key_of(n: Node, p: (String, Option<String>)) -> bool {
    &&& n.entries@[0].value matches Value::String(s) && p.0@ == s@
    &&& opt_view(p.1) == named_value(tail_entries(n), "fallback"@)
}

/// Whether an `algorithm` node reads: its named string entries are `name` or `seed`.
pub open spec fn algorithm_ok(n: Node) -> bool {
    keys_allowed(named_strings(n.entries@), seq!["name"@, "seed"@])
}

/// The hash name that a profile uses when it names none.
pub open spec fn default_hash() -> Seq<char> {
    "xxhash64"@
}

/// Whether `h` is what `algorithm` node `n` reads as.
pub open spec fn algorithm_of(n: Node, h: HashAlgorithm) -> bool {
    &&& h.name@ == match named_value(n.entries@, "name"@) {
        Some(v) => v,
        None => default_hash(),
    }
    &&& opt_view(h.seed) == named_value(n.entries@, "seed"@)
}

/// Whether a `transforms-order` node reads: it has a child block.
pub open spec fn transforms_ok(n: Node) -> bool {
    n.children is Some
}

/// Whether `v` is what `transforms-order` node `n` reads as: one step per child,
/// named as the child, with its named string entries as parameters.
pub open spec fn transforms_of(n: Node, v: Seq<Transform>) -> bool {
    n.children matches Some(ch) && v.len() == ch.nodes@.len() && forall|i: int|
        0 <= i < v.len() ==> (#[trigger] v[i]).name@ == ch.nodes@[i].name@ && v[i].params.spec_pairs()
            == named_strings(ch.nodes@[i].entries@)
}

/// Whether `d` is the error of a `key` node whose template reads but whose
/// other keys are not all `fallback`: the first unknown key is named.
pub open spec fn key_error(n: Node, d: Diagnostic) -> bool {
    (n.entries@.len() > 0 && n.entries@[0].value is String) ==> d.kind == ErrorKind::UnknownKey
        && names_first_unknown(d.message@, named_strings(tail_entries(n)), seq!["fallback"@])
}

/// Whether `d` is the error of an `algorithm` node: the first unknown key is named.
pub open spec fn algorithm_error(n: Node, d: Diagnostic) -> bool {
    d.kind == ErrorKind::UnknownKey && names_first_unknown(d.message@, named_strings(n.entries@), seq!["name"@, "seed"@])
}

pub open spec fn key_result(c: ParseContext, r: Result<(String, Option<String>), Diagnostic>) -> bool {
    c.spec_node() matches Some(n) ==> ((r is Ok) == key_ok(n) && (r matches Ok(p) ==> key_of(n, p))
        && (r matches Err(d) ==> key_error(n, d)))
}

pub open spec fn algorithm_result(c: ParseContext, r: Result<HashAlgorithm, Diagnostic>) -> bool {
    c.spec_node() matches Some(n) ==> ((r is Ok) == algorithm_ok(n) && (r matches Ok(h) ==> algorithm_of(n, h))
        && (r matches Err(d) ==> algorithm_error(n, d)))
}

/// Whether the `key`, `algorithm` and `transforms-order` directives of a
/// block all read, whatever else the block holds.
pub open spec fn profile_parts_ok(bl: Seq<Node>) -> bool {
    let s1 = without_first(bl, "key"@);
    let s2 = without_first(s1, "algorithm"@);
    &&& has_node(bl, "key"@)
    &&& key_ok(bl[first_node(bl, "key"@)])
    &&& has_node(s1, "algorithm"@) ==> algorithm_ok(s1[first_node(s1, "algorithm"@)])
    &&& has_node(s2, "transforms-order"@) ==> transforms_ok(s2[first_node(s2, "transforms-order"@)])
}

pub open spec fn transforms_result(c: ParseContext, r: Result<Vec<Transform>, Diagnostic>) -> bool {
    c.spec_node() matches Some(n) ==> ((r is Ok) == transforms_ok(n) && (r matches Ok(v) ==> transforms_of(n, v@)))
}

/// The directives left once `key`, `algorithm` and `transforms-order` are taken.
pub open spec fn profile_rest(bl: Seq<Node>) -> Seq<Node> {
    without_first(without_first(without_first(bl, "key"@), "algorithm"@), "transforms-order"@)
}

/// Whether a block reads as a key profile.
pub open spec fn profile_ok(bl: Seq<Node>) -> bool {
    let s1 = without_first(bl, "key"@);
    let s2 = without_first(s1, "algorithm"@);
    &&& has_node(bl, "key"@)
    &&& key_ok(bl[first_node(bl, "key"@)])
    &&& has_node(s1, "algorithm"@) ==> algorithm_ok(s1[first_node(s1, "algorithm"@)])
    &&& has_node(s2, "transforms-order"@) ==> transforms_ok(s2[first_node(s2, "transforms-order"@)])
    &&& profile_rest(bl).len() == 0
}

/// Whether `cfg` is what block `bl` reads as.
pub open spec fn profile_of(bl: Seq<Node>, cfg: KeyTemplateConfig) -> bool {
    let s1 = without_first(bl, "key"@);
    let s2 = without_first(s1, "algorithm"@);
    &&& key_of(bl[first_node(bl, "key"@)], (cfg.source, cfg.fallback))
    &&& if has_node(s1, "algorithm"@) {
        algorithm_of(s1[first_node(s1, "algorithm"@)], cfg.algorithm)
    } else {
        cfg.algorithm.name@ == default_hash() && cfg.algorithm.seed is None
    }
    &&& if has_node(s2, "transforms-order"@) {
        transforms_of(s2[first_node(s2, "transforms-order"@)], cfg.transforms@)
    } else {
        cfg.transforms@.len() == 0
    }
}

/// Reads a cache-key profile.
pub struct KeyProfileParser;

fn get_owned(m: &StringMap, key: &str) -> (r: Option<String>)
    ensures
        opt_view(r) == (if m.view().contains_key(key@) { Some(m.view()[key@]) } else { None::<Seq<char>> }),
{
    match m.get(key) {
        Some(v) => Some(v.clone()),
        None => None,
    }
}

impl KeyProfileParser {
    /// Reads the `key` directive: its template and optional fallback.
    pub fn parse_key(c: ParseContext<'_>) -> (r: Result<(String, Option<String>), Diagnostic>)
        ensures
            key_result(c, r),
    {
        let first = match c.first() {
            Ok(v) => v,
            Err(d) => {
                return Err(d);
            },
        };
        let source = match first.as_str() {
            Ok(s) => s,
            Err(d) => {
                return Err(d);
            },
        };
        let allowed = vec!["fallback"];
        assert(str_views(allowed@) =~= seq!["fallback"@]);
        let opts = match c.args_map_with_only_keys(1.., allowed.as_slice()) {
            Ok(m) => m,
            Err(d) => {
                return Err(d);
            },
        };
        let fallback = get_owned(&opts, "fallback");
        Ok((source, fallback))
    }

    /// Reads the `algorithm` directive.
    pub fn parse_algorithm(c: ParseContext<'_>) -> (r: Result<HashAlgorithm, Diagnostic>)
        ensures
            algorithm_result(c, r),
    {
        let allowed = vec!["name", "seed"];
        assert(str_views(allowed@) =~= seq!["name"@, "seed"@]);
        proof {
            if c.spec_node() is Some {
                let es = c.spec_node().unwrap().entries@;
                assert(es.subrange(0, es.len() as int) =~= es);
            }
        }
        let opts = match c.args_map_with_only_keys(.., allowed.as_slice()) {
            Ok(m) => m,
            Err(d) => {
                return Err(d);
            },
        };
        let name = match get_owned(&opts, "name") {
            Some(n) => n,
            None => String::from_str("xxhash64"),
        };
        let seed = get_owned(&opts, "seed");
        Ok(HashAlgorithm { name, seed })
    }

    /// Reads the `transforms-order` directive: one step per child.
    pub fn parse_transforms(c: ParseContext<'_>) -> (r: Result<Vec<Transform>, Diagnostic>)
        ensures
            transforms_result(c, r),
    {
        let steps = match c.nodes() {
            Ok(v) => v,
            Err(d) => {
                return Err(d);
            },
        };
        let mut out: Vec<Transform> = Vec::new();
        let mut i: usize = 0;
        while i < steps.len()
            invariant
                i <= steps@.len(),
                out@.len() == i,
                forall|j: int| 0 <= j < steps@.len() ==> (#[trigger] steps@[j]).spec_node() is Some,
                forall|j: int| 0 <= j < i ==> (#[trigger] out@[j]).name@ == steps@[j].spec_node().unwrap().name@
                    && out@[j].params.spec_pairs() == named_strings(steps@[j].spec_node().unwrap().entries@),
            decreases steps.len() - i,
        {
            let step = steps[i];
            let name = match step.name() {
                Ok(n) => String::from_str(n),
                Err(_) => String::new(),
            };
            let params = match step.args_map(..) {
                Ok(m) => m,
                Err(d) => {
                    return Err(d);
                },
            };
            proof {
                let es = step.spec_node().unwrap().entries@;
                assert(es.subrange(0, es.len() as int) =~= es);
            }
            out.push(Transform { name, params });
            i = i + 1;
        }
        Ok(out)
    }

    /// Reads the block that `ctx` focuses on as a key profile: a required `key`,
    /// an optional `algorithm`, an optional `transforms-order`, and nothing else.
    pub fn parse(&self, ctx: ParseContext<'_>) -> (r: Result<KeyTemplateConfig, Diagnostic>)
        ensures
            match ctx.spec_block() {
                None => r matches Err(d) && ctx.anchors(d, ErrorKind::Shape),
                Some(bl) => {
                    &&& (r is Ok) == profile_ok(bl)
                    &&& r matches Ok(cfg) ==> profile_of(bl, cfg)
                    &&& !has_node(bl, "key"@) ==> (r matches Err(d) && d.kind == ErrorKind::MissingRequired
                        && d.message@ == "Missing required directive '"@ + "key"@ + "'"@)
                    &&& (has_node(bl, "key"@) && !key_ok(bl[first_node(bl, "key"@)])) ==> (r matches Err(d)
                        && key_error(bl[first_node(bl, "key"@)], d))
                    &&& (has_node(bl, "key"@) && key_ok(bl[first_node(bl, "key"@)]) && has_node(
                        without_first(bl, "key"@),
                        "algorithm"@,
                    ) && !algorithm_ok(without_first(bl, "key"@)[first_node(without_first(bl, "key"@), "algorithm"@)]))
                        ==> (r matches Err(d) && algorithm_error(
                        without_first(bl, "key"@)[first_node(without_first(bl, "key"@), "algorithm"@)],
                        d,
                    ))
                    &&& (profile_parts_ok(bl) && profile_rest(bl).len() > 0) ==> (r matches Err(d) && d.kind
                        == ErrorKind::UnknownDirective && d.message@ == "Unknown directive: '"@
                        + profile_rest(bl)[0].name@ + "'"@)
                },
            },
    {
        let mut block = match BlockParser::new(ctx) {
            Ok(b) => b,
            Err(d) => {
                return Err(d);
            },
        };
        let ghost bl = ctx.spec_block().unwrap();
        let ghost s0 = block.pending@;
        let ghost b1 = without_first(bl, "key"@);
        let ghost b2 = without_first(b1, "algorithm"@);
        let ghost b3 = without_first(b2, "transforms-order"@);
        proof {
            assert(mirrors(s0, bl));
            lemma_mirror_first(s0, bl, "key"@);
        }
        let fk = |c: ParseContext<'_>| -> (r: Result<(String, Option<String>), Diagnostic>)
            ensures
                key_result(c, r),
            { Self::parse_key(c) };
        let (source, fallback) = match block.required("key", fk) {
            Ok(p) => {
                proof {
                    lemma_has_first_node(bl, "key"@);
                    let i = first_node(bl, "key"@);
                    assert(s0[i].spec_node() == Some(bl[i]));
                    assert(key_result(s0[i], Ok::<(String, Option<String>), Diagnostic>(p)));
                }
                p
            },
            Err(d) => {
                proof {
                    if has_node(bl, "key"@) {
                        lemma_has_first_node(bl, "key"@);
                        let i = first_node(bl, "key"@);
                        assert(s0[i].spec_node() == Some(bl[i]));
                    }
                }
                return Err(d);
            },
        };
        let ghost s1 = block.pending@;
        proof {
            assert(mirrors(s1, b1));
            lemma_mirror_first(s1, b1, "algorithm"@);
        }
        let fa = |c: ParseContext<'_>| -> (r: Result<HashAlgorithm, Diagnostic>)
            ensures
                algorithm_result(c, r),
            { Self::parse_algorithm(c) };
        let algorithm = match block.optional("algorithm", fa) {
            Ok(Some(h)) => {
                proof {
                    lemma_has_first_node(b1, "algorithm"@);
                    let i = first_node(b1, "algorithm"@);
                    assert(s1[i].spec_node() == Some(b1[i]));
                    let fr = choose|fr: Result<HashAlgorithm, Diagnostic>| fa.ensures((s1[i],), fr) && Ok::<Option<HashAlgorithm>, Diagnostic>(Some(h)) == match fr {
                        Ok(t) => Ok::<Option<HashAlgorithm>, Diagnostic>(Some(t)),
                        Err(d) => Err(d),
                    };
                    assert(algorithm_result(s1[i], fr));
                }
                h
            },
            Ok(None) => HashAlgorithm { name: String::from_str("xxhash64"), seed: None },
            Err(d) => {
                proof {
                    if has_node(b1, "algorithm"@) {
                        lemma_has_first_node(b1, "algorithm"@);
                        let i = first_node(b1, "algorithm"@);
                        assert(s1[i].spec_node() == Some(b1[i]));
                    }
                }
                return Err(d);
            },
        };
        let ghost s2 = block.pending@;
        proof {
            assert(mirrors(s2, b2));
            lemma_mirror_first(s2, b2, "transforms-order"@);
        }
        let ft = |c: ParseContext<'_>| -> (r: Result<Vec<Transform>, Diagnostic>)
            ensures
                transforms_result(c, r),
            { Self::parse_transforms(c) };
        let transforms = match block.optional("transforms-order", ft) {
            Ok(Some(v)) => {
                proof {
                    lemma_has_first_node(b2, "transforms-order"@);
                    let i = first_node(b2, "transforms-order"@);
                    assert(s2[i].spec_node() == Some(b2[i]));
                    let fr = choose|fr: Result<Vec<Transform>, Diagnostic>| ft.ensures((s2[i],), fr) && Ok::<Option<Vec<Transform>>, Diagnostic>(Some(v)) == match fr {
                        Ok(t) => Ok::<Option<Vec<Transform>>, Diagnostic>(Some(t)),
                        Err(d) => Err(d),
                    };
                    assert(transforms_result(s2[i], fr));
                }
                v
            },
            Ok(None) => Vec::new(),
            Err(d) => {
                proof {
                    if has_node(b2, "transforms-order"@) {
                        lemma_has_first_node(b2, "transforms-order"@);
                        let i = first_node(b2, "transforms-order"@);
                        assert(s2[i].spec_node() == Some(b2[i]));
                    }
                }
                return Err(d);
            },
        };
        proof {
            assert(mirrors(block.pending@, b3));
        }
        match block.exhaust() {
            Ok(_) => {},
            Err(d) => {
                proof {
                    assert(block.pending@[0].spec_node() == Some(b3[0]));
                }
                return Err(d);
            },
        }
        Ok(KeyTemplateConfig { source, fallback, algorithm, transforms })
    }
}

} // verus!

verus! {

/// Whether entry `e` has key `key` (`None`: positional) and holds the string `v`.
pub open spec fn string_entry(e: crate::document::Entry, key: Option<Seq<char>>, v: Seq<char>) -> bool {
    e.spec_key() == key && (e.value matches Value::String(s) && s@ == v)
}

/// Whether `es` are the named string entries that write the pairs `ps`.
pub open spec fn entries_write(es: Seq<crate::document::Entry>, ps: Seq<(Seq<char>, Seq<char>)>) -> bool {
    es.len() == ps.len() && forall|i: int| 0 <= i < es.len() ==> string_entry(#[trigger] es[i], Some(ps[i].0), ps[i].1)
}

pub open spec fn fallback_pairs(fb: Option<String>) -> Seq<(Seq<char>, Seq<char>)> {
    match fb {
        Some(f) => seq![("fallback"@, f@)],
        None => Seq::empty(),
    }
}

pub open spec fn algorithm_pairs(h: HashAlgorithm) -> Seq<(Seq<char>, Seq<char>)> {
    seq![("name"@, h.name@)] + match h.seed {
        Some(s) => seq![("seed"@, s@)],
        None => Seq::empty(),
    }
}

/// Whether block `bl` writes `cfg` with the key names the profile reads: a
/// `key` node, an `algorithm` node and, unless there are no transforms, a
/// `transforms-order` node.
pub open spec fn writes_profile(cfg: KeyTemplateConfig, bl: Seq<Node>) -> bool {
    &&& bl.len() >= 2
    &&& bl[0].name@ == "key"@
    &&& bl[0].entries@.len() >= 1
    &&& string_entry(bl[0].entries@[0], None, cfg.source@)
    &&& entries_write(tail_entries(bl[0]), fallback_pairs(cfg.fallback))
    &&& bl[1].name@ == "algorithm"@
    &&& entries_write(bl[1].entries@, algorithm_pairs(cfg.algorithm))
    &&& (bl.len() == 3 && writes_transforms(cfg, bl[2])) || (bl.len() == 2 && cfg.transforms@.len() == 0)
}

/// Whether node `n` writes the transforms of `cfg` as a `transforms-order` block.
pub open spec fn writes_transforms(cfg: KeyTemplateConfig, n: Node) -> bool {
    &&& n.name@ == "transforms-order"@
    &&& n.children matches Some(ch) && ch.nodes@.len() == cfg.transforms@.len() && forall|i: int|
        0 <= i < ch.nodes@.len() ==> (#[trigger] ch.nodes@[i]).name@ == cfg.transforms@[i].name@
            && entries_write(ch.nodes@[i].entries@, cfg.transforms@[i].params.spec_pairs())
}

/// Whether two profiles hold the same text everywhere.
pub open spec fn same_profile(a: KeyTemplateConfig, b: KeyTemplateConfig) -> bool {
    &&& a.source@ == b.source@
    &&& opt_view(a.fallback) == opt_view(b.fallback)
    &&& a.algorithm.name@ == b.algorithm.name@
    &&& opt_view(a.algorithm.seed) == opt_view(b.algorithm.seed)
    &&& a.transforms@.len() == b.transforms@.len()
    &&& forall|i: int| 0 <= i < a.transforms@.len() ==> (#[trigger] a.transforms@[i]).name@ == b.transforms@[i].name@
        && a.transforms@[i].params.spec_pairs() == b.transforms@[i].params.spec_pairs()
}

/// Entries that write a list of pairs read back as that list.
pub proof fn lemma_entries_write(es: Seq<crate::document::Entry>, ps: Seq<(Seq<char>, Seq<char>)>)
    requires
        entries_write(es, ps),
    ensures
        named_strings(es) == ps,
    decreases es.len(),
{
    if es.len() > 0 {
        assert(entries_write(es.drop_last(), ps.drop_last()));
        lemma_entries_write(es.drop_last(), ps.drop_last());
        assert(string_entry(es[es.len() - 1], Some(ps[ps.len() - 1].0), ps[ps.len() - 1].1));
        assert(ps.drop_last().push(ps.last()) =~= ps);
    }
}

proof fn lemma_profile_names()
    ensures
        "key"@ != "algorithm"@,
        "key"@ != "transforms-order"@,
        "algorithm"@ != "transforms-order"@,
        "name"@ != "seed"@,
{
    reveal_strlit("key");
    reveal_strlit("algorithm");
    reveal_strlit("transforms-order");
    reveal_strlit("name");
    reveal_strlit("seed");
    assert("key"@.len() == 3);
    assert("algorithm"@.len() == 9);
    assert("transforms-order"@.len() == 16);
    assert("name"@[0] != "seed"@[0]);
}

/// The span of a node written by the library rather than read from a source.
pub(crate) fn no_span() -> (r: Span)
    ensures
        r.offset == 0 && r.len == 0,
{
    Span { offset: 0, len: 0 }
}

pub(crate) fn named_string(key: &str, v: &String) -> (e: Entry)
    ensures
        string_entry(e, Some(key@), v@),
{
    Entry { name: Some(String::from_str(key)), value: Value::String(v.clone()), span: no_span() }
}

/// The entries that write the pairs of `m`, in order.
pub(crate) fn pairs_entries(m: &StringMap) -> (r: Vec<Entry>)
    ensures
        entries_write(r@, m.spec_pairs()),
{
    let mut out: Vec<Entry> = Vec::new();
    let mut j: usize = 0;
    while j < m.pairs.len()
        invariant
            j <= m.pairs@.len(),
            out@.len() == j,
            forall|i: int| 0 <= i < j ==> string_entry(#[trigger] out@[i], Some(m.spec_pairs()[i].0), m.spec_pairs()[i].1),
        decreases m.pairs.len() - j,
    {
        let e = Entry {
            name: Some(m.pairs[j].0.clone()),
            value: Value::String(m.pairs[j].1.clone()),
            span: no_span(),
        };
        out.push(e);
        j = j + 1;
    }
    out
}

impl KeyTemplateConfig {
    /// The profile written as a block with the key names the profile reads;
    /// without transforms, no `transforms-order` node is written.
    pub fn to_nodes(&self) -> (r: Vec<Node>)
        ensures
            writes_profile(*self, r@),
    {
        let mut key_entries: Vec<Entry> = Vec::new();
        key_entries.push(Entry { name: None, value: Value::String(self.source.clone()), span: no_span() });
        match &self.fallback {
            Some(f) => key_entries.push(named_string("fallback", f)),
            None => {},
        }
        proof {
            let k = key_entries@;
            let t = k.subrange(1, k.len() as int);
            if self.fallback is Some {
                assert(t =~= seq![k[1]]);
            } else {
                assert(t =~= Seq::<Entry>::empty());
            }
        }
        let key = Node { name: String::from_str("key"), entries: key_entries, children: None, span: no_span() };
        let mut algo_entries: Vec<Entry> = Vec::new();
        algo_entries.push(named_string("name", &self.algorithm.name));
        match &self.algorithm.seed {
            Some(sd) => algo_entries.push(named_string("seed", sd)),
            None => {},
        }
        let algorithm = Node { name: String::from_str("algorithm"), entries: algo_entries, children: None, span: no_span() };
        let mut steps: Vec<Node> = Vec::new();
        let mut i: usize = 0;
        while i < self.transforms.len()
            invariant
                i <= self.transforms@.len(),
                steps@.len() == i,
                forall|j: int| 0 <= j < i ==> (#[trigger] steps@[j]).name@ == self.transforms@[j].name@
                    && entries_write(steps@[j].entries@, self.transforms@[j].params.spec_pairs()),
            decreases self.transforms.len() - i,
        {
            let t = &self.transforms[i];
            steps.push(Node { name: t.name.clone(), entries: pairs_entries(&t.params), children: None, span: no_span() });
            i = i + 1;
        }
        let transforms = Node {
            name: String::from_str("transforms-order"),
            entries: Vec::new(),
            children: Some(Document { nodes: steps, span: no_span() }),
            span: no_span(),
        };
        let mut out: Vec<Node> = Vec::new();
        out.push(key);
        out.push(algorithm);
        if self.transforms.len() > 0 {
            out.push(transforms);
        }
        out
    }
}

/// Round trip: a block that writes a profile with the profile's own key names
/// reads back as that profile, with the same text everywhere.
pub proof fn lemma_profile_round_trip(cfg: KeyTemplateConfig, bl: Seq<Node>, back: KeyTemplateConfig)
    requires
        writes_profile(cfg, bl),
        profile_of(bl, back),
    ensures
        profile_ok(bl),
        same_profile(back, cfg),
{
    lemma_profile_rereads(cfg, bl);
    let s1 = without_first(bl, "key"@);
    let s2 = without_first(s1, "algorithm"@);
    if bl.len() == 2 {
        assert(!has_node(s2, "transforms-order"@));
        return;
    }
    let ch = bl[2].children.unwrap();
    let t = ch.nodes@;
    assert(s2 == seq![bl[2]]);
    assert(s2[0] == bl[2]);
    assert(transforms_of(bl[2], back.transforms@));
    assert forall|i: int| 0 <= i < back.transforms@.len() implies (#[trigger] back.transforms@[i]).name@ == cfg.transforms@[i].name@
        && back.transforms@[i].params.spec_pairs() == cfg.transforms@[i].params.spec_pairs() by {
        assert(t[i].name@ == cfg.transforms@[i].name@);
        lemma_entries_write(t[i].entries@, cfg.transforms@[i].params.spec_pairs());
    }
}

/// A block that writes a profile reads as a profile.
pub proof fn lemma_profile_rereads(cfg: KeyTemplateConfig, bl: Seq<Node>)
    requires
        writes_profile(cfg, bl),
    ensures
        profile_ok(bl),
        has_node(bl, "key"@),
        first_node(bl, "key"@) == 0,
        without_first(bl, "key"@) == bl.subrange(1, bl.len() as int),
        has_node(bl.subrange(1, bl.len() as int), "algorithm"@),
        first_node(bl.subrange(1, bl.len() as int), "algorithm"@) == 0,
        without_first(without_first(bl, "key"@), "algorithm"@) == bl.subrange(2, bl.len() as int),
        bl.len() == 3 ==> has_node(seq![bl[2]], "transforms-order"@) && first_node(seq![bl[2]], "transforms-order"@) == 0
            && bl.subrange(2, 3) == seq![bl[2]],
        bl.len() == 2 ==> !has_node(bl.subrange(2, 2), "transforms-order"@),
        forall|h: HashAlgorithm| algorithm_of(bl[1], h) ==> h.name@ == cfg.algorithm.name@ && opt_view(h.seed) == opt_view(cfg.algorithm.seed),
        forall|p: (String, Option<String>)| key_of(bl[0], p) ==> p.0@ == cfg.source@ && opt_view(p.1) == opt_view(cfg.fallback),
{
    lemma_profile_names();
    assert(is_first_node(bl, "key"@, 0));
    crate::block::lemma_first_node(bl, "key"@, 0);
    let s1 = without_first(bl, "key"@);
    assert(s1 =~= bl.subrange(1, bl.len() as int));
    assert(s1[0] == bl[1]);
    assert(is_first_node(s1, "algorithm"@, 0));
    crate::block::lemma_first_node(s1, "algorithm"@, 0);
    let s2 = without_first(s1, "algorithm"@);
    assert(s2 =~= bl.subrange(2, bl.len() as int));
    if bl.len() == 3 {
        assert(s2 =~= seq![bl[2]]);
        assert(is_first_node(s2, "transforms-order"@, 0));
        crate::block::lemma_first_node(s2, "transforms-order"@, 0);
        let s3 = without_first(s2, "transforms-order"@);
        assert(s3 =~= Seq::<Node>::empty());
    } else {
        assert(s2.len() == 0);
        assert(!has_node(s2, "transforms-order"@));
        assert(without_first(s2, "transforms-order"@) == s2);
    }
    lemma_entries_write(tail_entries(bl[0]), fallback_pairs(cfg.fallback));
    lemma_entries_write(bl[1].entries@, algorithm_pairs(cfg.algorithm));
    let fp = fallback_pairs(cfg.fallback);
    assert(keys_allowed(fp, seq!["fallback"@])) by {
        if cfg.fallback is Some {
            assert(seq!["fallback"@][0] == "fallback"@);
        }
    }
    let ap = algorithm_pairs(cfg.algorithm);
    assert(keys_allowed(ap, seq!["name"@, "seed"@])) by {
        assert(seq!["name"@, "seed"@][0] == "name"@);
        assert(seq!["name"@, "seed"@][1] == "seed"@);
        assert forall|i: int| 0 <= i < ap.len() implies seq!["name"@, "seed"@].contains(#[trigger] ap[i].0) by {
            if i == 0 {
                assert(ap[0].0 == "name"@);
            } else {
                assert(ap[1].0 == "seed"@);
            }
        }
    }
    if cfg.fallback is Some {
        assert(fp.drop_last() =~= Seq::<(Seq<char>, Seq<char>)>::empty());
    } else {
        assert(pairs_map(fp) == Map::<Seq<char>, Seq<char>>::empty());
    }
    assert(ap.drop_last() =~= seq![("name"@, cfg.algorithm.name@)] || ap.len() == 1);
    let e = Seq::<(Seq<char>, Seq<char>)>::empty();
    assert(pairs_map(e) == Map::<Seq<char>, Seq<char>>::empty());
    let one = seq![("name"@, cfg.algorithm.name@)];
    assert(one.drop_last() =~= e);
    assert(one.last() == ("name"@, cfg.algorithm.name@));
    assert(pairs_map(one) == Map::<Seq<char>, Seq<char>>::empty().insert("name"@, cfg.algorithm.name@));
    if cfg.algorithm.seed is Some {
        assert(ap.drop_last() =~= one);
        assert(ap.last() == ("seed"@, cfg.algorithm.seed.unwrap()@));
        assert(pairs_map(ap) == pairs_map(one).insert("seed"@, cfg.algorithm.seed.unwrap()@));
    } else {
        assert(ap =~= one);
    }
    assert(pairs_map(ap).contains_key("name"@));
    assert(pairs_map(ap)["name"@] == cfg.algorithm.name@);
    assert(named_value(bl[1].entries@, "name"@) == Some(cfg.algorithm.name@));
    assert(named_value(bl[1].entries@, "seed"@) == opt_view(cfg.algorithm.seed));
}

} // verus!

verus! {

/// Taking the first node named `n` from a list with another node inserted
/// takes the same node, and leaves the inserted node in place.
proof fn lemma_take_around(a: Seq<Node>, n: Seq<char>, x: Node, pos: int) -> (pos2: int)
    requires
        x.name@ != n,
        0 <= pos <= a.len(),
    ensures
        has_node(a.insert(pos, x), n) == has_node(a, n),
        has_node(a, n) ==> a.insert(pos, x)[first_node(a.insert(pos, x), n)] == a[first_node(a, n)],
        0 <= pos2 <= without_first(a, n).len(),
        without_first(a.insert(pos, x), n) == without_first(a, n).insert(pos2, x),
{
    let b = a.insert(pos, x);
    if has_node(a, n) {
        crate::block::lemma_has_first_node(a, n);
        let k = first_node(a, n);
        let k2 = if pos <= k { k + 1 } else { k };
        assert(b[k2] == a[k]);
        assert forall|j: int| 0 <= j < k2 implies (#[trigger] b[j]).name@ != n by {
            if j < pos {
                assert(b[j] == a[j]);
            } else if j > pos {
                assert(b[j] == a[j - 1]);
            }
        }
        assert(is_first_node(b, n, k2));
        crate::block::lemma_first_node(b, n, k2);
        let p2 = if pos <= k { pos } else { pos - 1 };
        assert(b.remove(k2) =~= a.remove(k).insert(p2, x));
        p2
    } else {
        if has_node(b, n) {
            let i = choose|i: int| 0 <= i < b.len() && (#[trigger] b[i]).name@ == n;
            if i < pos {
                assert(a[i] == b[i]);
            } else if i > pos {
                assert(a[i - 1] == b[i]);
            }
        }
        pos
    }
}

/// A block that writes a profile, with one more directive of another name
/// anywhere in it, fails on that directive alone: everything else reads, and
/// the unknown directive is the only one left.
pub proof fn lemma_profile_extra_directive(cfg: KeyTemplateConfig, bl: Seq<Node>, x: Node, pos: int)
    requires
        writes_profile(cfg, bl),
        x.name@ != "key"@,
        x.name@ != "algorithm"@,
        x.name@ != "transforms-order"@,
        0 <= pos <= bl.len(),
    ensures
        profile_parts_ok(bl.insert(pos, x)),
        profile_rest(bl.insert(pos, x)) == seq![x],
{
    lemma_profile_rereads(cfg, bl);
    let b = bl.insert(pos, x);
    let p1 = lemma_take_around(bl, "key"@, x, pos);
    let a1 = without_first(bl, "key"@);
    let p2 = lemma_take_around(a1, "algorithm"@, x, p1);
    let a2 = without_first(a1, "algorithm"@);
    let p3 = lemma_take_around(a2, "transforms-order"@, x, p2);
    let a3 = without_first(a2, "transforms-order"@);
    assert(a3.len() == 0);
    assert(a3.insert(p3, x) =~= seq![x]);
}

} // verus!

verus! {

/// The directives of a profile may come in any order: a block of exactly one
/// `key`, one `algorithm` and one `transforms-order` node reads as a profile
/// when each of the three reads, and its parts come from those three nodes.
pub proof fn lemma_profile_any_order(bl: Seq<Node>, i: int, j: int, k: int)
    requires
        bl.len() == 3,
        0 <= i < 3 && 0 <= j < 3 && 0 <= k < 3,
        i != j && j != k && i != k,
        bl[i].name@ == "key"@,
        bl[j].name@ == "algorithm"@,
        bl[k].name@ == "transforms-order"@,
    ensures
        profile_ok(bl) == (key_ok(bl[i]) && algorithm_ok(bl[j]) && transforms_ok(bl[k])),
        forall|cfg: KeyTemplateConfig|
            profile_of(bl, cfg) == (key_of(bl[i], (cfg.source, cfg.fallback)) && algorithm_of(bl[j], cfg.algorithm)
                && transforms_of(bl[k], cfg.transforms@)),
{
    lemma_profile_names();
    assert forall|t: int| 0 <= t < i implies (#[trigger] bl[t]).name@ != "key"@ by {}
    assert(is_first_node(bl, "key"@, i));
    crate::block::lemma_first_node(bl, "key"@, i);
    let s1 = without_first(bl, "key"@);
    assert(s1 == bl.remove(i));
    let j1 = if j < i { j } else { j - 1 };
    let k1 = if k < i { k } else { k - 1 };
    assert(s1[j1] == bl[j]);
    assert(s1[k1] == bl[k]);
    assert forall|t: int| 0 <= t < j1 implies (#[trigger] s1[t]).name@ != "algorithm"@ by {
        assert(t == k1);
    }
    assert(is_first_node(s1, "algorithm"@, j1));
    crate::block::lemma_first_node(s1, "algorithm"@, j1);
    let s2 = without_first(s1, "algorithm"@);
    assert(s2 == s1.remove(j1));
    assert(s2.len() == 1);
    assert(s2[0] == bl[k]);
    assert(is_first_node(s2, "transforms-order"@, 0));
    crate::block::lemma_first_node(s2, "transforms-order"@, 0);
    assert(without_first(s2, "transforms-order"@).len() == 0);
}

} // verus!
