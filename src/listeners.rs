use vstd::prelude::*;
use crate::ctx::ParseContext;
use crate::definitions::{ListenerConfig, ListenerKind, Listeners, TlsConfig};
use crate::diagnostic::{Diagnostic, ErrorKind};
use crate::document::{Node, Value};
use crate::rules::{declared_kind, entry_fits, rule_holds, rules_hold, Rule};
use crate::text::join3;
use crate::typed_value::{
    first_with_key, has_key, is_first_with_key, key_index, lemma_key_index, opt_as_bool, opt_as_str,
};
use crate::utils::{kind_of, PrimitiveType};

verus! {

/// The kind that a listener's key takes, if the key is one of a listener's.
pub open spec fn listener_key_kind(k: Seq<char>) -> Option<PrimitiveType> {
    if k == "cert-path"@ {
        Some(PrimitiveType::String)
    } else if k == "key-path"@ {
        Some(PrimitiveType::String)
    } else if k == "offer-h2"@ {
        Some(PrimitiveType::Bool)
    } else {
        None
    }
}

/// Whether a listener node has the right shape: no child block, named entries
/// only, each a listener key with a scalar of its kind.
pub open spec fn listener_shape_ok(n: Node) -> bool {
    &&& n.children is None
    &&& forall|i: int| 0 <= i < n.entries@.len() ==> listener_entry_ok(#[trigger] n.entries@[i])
}

/// Whether an entry is a listener setting with a scalar of its kind.
pub open spec fn listener_entry_ok(e: crate::document::Entry) -> bool {
    match e.name {
        Some(k) => listener_key_kind(k@) == Some(kind_of(e.value)),
        None => false,
    }
}

/// The value of the first entry of `n` named `k`, if any.
pub open spec fn prop_value(n: Node, k: Seq<char>) -> Option<Value> {
    if has_key(n.entries@, k) { Some(n.entries@[key_index(n, k)].value) } else { None }
}

pub open spec fn prop_text(n: Node, k: Seq<char>) -> Option<Seq<char>> {
    match prop_value(n, k) {
        Some(Value::String(s)) => Some(s@),
        _ => None,
    }
}

pub open spec fn prop_bool(n: Node, k: Seq<char>) -> Option<bool> {
    match prop_value(n, k) {
        Some(Value::Bool(b)) => Some(b),
        _ => None,
    }
}

/// The TLS files and HTTP/2 flag that a listener's three optional settings
/// give, or `None` when they conflict: both paths or neither, and the flag
/// only with both paths; HTTP/2 is offered by default with TLS.
pub open spec fn tls_choice(cert: Option<Seq<char>>, key: Option<Seq<char>>, h2: Option<bool>) -> Option<
    (Option<(Seq<char>, Seq<char>)>, bool),
> {
    match (cert, key, h2) {
        (None, None, None) => Some((None, false)),
        (Some(c), Some(k), h) => Some(
            (
                Some((c, k)),
                match h {
                    Some(b) => b,
                    None => true,
                },
            ),
        ),
        _ => None,
    }
}

/// Whether `cfg` is a TCP listener on `addr` with the given TLS choice.
pub open spec fn tcp_listener(cfg: ListenerConfig, addr: Seq<char>, choice: (Option<(Seq<char>, Seq<char>)>, bool)) -> bool {
    match cfg.source {
        ListenerKind::Tcp { addr: a, tls, offer_h2 } => a@ == addr && offer_h2 == choice.1 && match (
            tls,
            choice.0,
        ) {
            (None, None) => true,
            (Some(t), Some(p)) => t.cert_path@ == p.0 && t.key_path@ == p.1,
            _ => false,
        },
    }
}

pub open spec fn listener_choice(n: Node) -> Option<(Option<(Seq<char>, Seq<char>)>, bool)> {
    tls_choice(prop_text(n, "cert-path"@), prop_text(n, "key-path"@), prop_bool(n, "offer-h2"@))
}

/// Whether `cfg` is what listener node `n` reads as, given what the address
/// check `f` made of the node's name.
pub open spec fn listener_read<F: Fn(String) -> Option<String>>(f: F, n: Node, cfg: ListenerConfig) -> bool {
    &&& listener_shape_ok(n)
    &&& listener_choice(n) is Some
    &&& cfg.source matches ListenerKind::Tcp { addr, .. } && f.ensures((n.name,), Some(addr))
        && tcp_listener(cfg, addr@, listener_choice(n).unwrap())
}

/// Whether listener node `n` was read as some listener.
pub open spec fn listener_reads_some<F: Fn(String) -> Option<String>>(f: F, n: Node) -> bool {
    exists|cfg: ListenerConfig| #[trigger] listener_read(f, n, cfg)
}

/// Whether listener node `n` cannot be read, given what `f` made of its name.
pub open spec fn listener_refused<F: Fn(String) -> Option<String>>(f: F, n: Node) -> bool {
    !listener_shape_ok(n) || f.ensures((n.name,), None::<String>) || listener_choice(n) is None
}

/// The message for conflicting TLS settings: the HTTP/2 flag without TLS, or
/// only one of the two paths.
pub open spec fn conflict_message(no_paths: bool) -> Seq<char> {
    if no_paths {
        "'offer-h2' requires TLS, specify 'cert-path' and 'key-path'"@
    } else {
        "'cert-path' and 'key-path' must either BOTH be present, or NEITHER should be present"@
    }
}

/// Whether `d`, anchored at node `n` of source `src`, is the error a listener
/// of the right shape gives: an address that `f` refused, or conflicting TLS
/// settings.
pub open spec fn listener_error<F: Fn(String) -> Option<String>>(f: F, n: Node, src: Seq<char>, d: Diagnostic) -> bool {
    listener_shape_ok(n) ==> d.span == n.span && d.source_name@ == src && (
    (f.ensures((n.name,), None::<String>) && d.kind == ErrorKind::Format && d.message@
        == "Invalid "@ + "socket address"@ + " '"@ + n.name@ + "'"@) || (listener_choice(n) is None && d.kind
        == ErrorKind::MutualExclusion && d.message@ == conflict_message(
        prop_text(n, "cert-path"@) is None && prop_text(n, "key-path"@) is None,
    )))
}

/// Reads the `listeners` section: one listener per child, each named by its
/// socket address. `socket_addr` gives the canonical text of an address, or
/// `None` for a name that is not one.
pub struct ListenersSection<F> {
    pub socket_addr: F,
}

proof fn lemma_listener_kinds(k: Seq<char>)
    ensures
        declared_kind(
            seq![("cert-path", PrimitiveType::String), ("key-path", PrimitiveType::String), ("offer-h2", PrimitiveType::Bool)],
            k,
        ) == listener_key_kind(k),
{
    let s = seq![("cert-path", PrimitiveType::String), ("key-path", PrimitiveType::String), ("offer-h2", PrimitiveType::Bool)];
    reveal_with_fuel(declared_kind, 4);
    assert(s.drop_first() =~= seq![("key-path", PrimitiveType::String), ("offer-h2", PrimitiveType::Bool)]);
    assert(s.drop_first().drop_first() =~= seq![("offer-h2", PrimitiveType::Bool)]);
    assert(s.drop_first().drop_first().drop_first() =~= Seq::<(&str, PrimitiveType)>::empty());
}

proof fn lemma_listener_keys()
    ensures
        listener_key_kind("cert-path"@) == Some(PrimitiveType::String),
        listener_key_kind("key-path"@) == Some(PrimitiveType::String),
        listener_key_kind("offer-h2"@) == Some(PrimitiveType::Bool),
{
    reveal_strlit("cert-path");
    reveal_strlit("key-path");
    reveal_strlit("offer-h2");
    assert("key-path"@[0] != "cert-path"@[0]);
    assert("offer-h2"@[0] != "cert-path"@[0]);
    assert("offer-h2"@[0] != "key-path"@[0]);
}

/// What `opt_as_str` and `opt_as_bool` read from a looked-up setting.
proof fn lemma_setting(n: Node, k: Seq<char>, o: Option<crate::typed_value::TypedValue>)
    requires
        match o {
            Some(t) => is_first_with_key(n.entries@, k, *t.entry),
            None => !has_key(n.entries@, k),
        },
    ensures
        match o {
            Some(t) => prop_value(n, k) == Some(t.entry.value),
            None => prop_value(n, k) is None,
        },
{
    if o is Some {
        let t = o.unwrap();
        let i = choose|i: int| #[trigger] first_with_key(n.entries@, k, i) && n.entries@[i] == *t.entry;
        lemma_key_index(n, k, i);
    }
}

impl<F: Fn(String) -> Option<String>> ListenersSection<F> {
    /// Builds the listener from its address and its three optional settings.
    pub fn resolve_tcp_listener(
        &self,
        ctx: &ParseContext<'_>,
        addr: String,
        cert_path: Option<String>,
        key_path: Option<String>,
        offer_h2: Option<bool>,
    ) -> (r: Result<ListenerConfig, Diagnostic>)
        ensures
            match tls_choice(
                crate::key_profile_parser::opt_view(cert_path),
                crate::key_profile_parser::opt_view(key_path),
                offer_h2,
            ) {
                Some(ch) => r matches Ok(cfg) && tcp_listener(cfg, addr@, ch),
                None => r matches Err(d) && ctx.anchors(d, ErrorKind::MutualExclusion) && d.message@
                    == conflict_message(cert_path is None && key_path is None),
            },
            r matches Ok(cfg) ==> (cfg.source matches ListenerKind::Tcp { addr: a, .. } && a == addr),
    {
        match (cert_path, key_path, offer_h2) {
            (None, None, None) => Ok(ListenerConfig {
                source: ListenerKind::Tcp { addr, tls: None, offer_h2: false },
            }),
            (Some(cpath), Some(kpath), h2) => {
                let offer = match h2 {
                    Some(b) => b,
                    None => true,
                };
                Ok(ListenerConfig {
                    source: ListenerKind::Tcp {
                        addr,
                        tls: Some(TlsConfig { cert_path: cpath, key_path: kpath }),
                        offer_h2: offer,
                    },
                })
            },
            (None, None, Some(_)) => Err(
                ctx.error(
                    ErrorKind::MutualExclusion,
                    String::from_str("'offer-h2' requires TLS, specify 'cert-path' and 'key-path'"),
                ),
            ),
            _ => Err(
                ctx.error(
                    ErrorKind::MutualExclusion,
                    String::from_str(
                        "'cert-path' and 'key-path' must either BOTH be present, or NEITHER should be present",
                    ),
                ),
            ),
        }
    }

    /// Reads one listener node.
    pub fn extract_listener(&self, ctx: ParseContext<'_>) -> (r: Result<ListenerConfig, Diagnostic>)
        requires
            forall|s: String| self.socket_addr.requires((s,)),
        ensures
            ctx.spec_node() matches Some(n) ==> (r matches Ok(cfg) ==> listener_read(self.socket_addr, n, cfg))
                && (r is Err ==> listener_refused(self.socket_addr, n)) && (r matches Err(d)
                ==> listener_error(self.socket_addr, n, ctx.source_name@, d)),
            ctx.spec_node() is None ==> (r matches Err(d) && ctx.anchors(d, ErrorKind::Shape)),
    {
        let name = match ctx.current {
            crate::ctx::Current::Node(node) => node.name.clone(),
            crate::ctx::Current::Document(_) => String::new(),
        };
        let ghost read_name = name;
        assert(ctx.spec_node() is Some ==> read_name == ctx.spec_node().unwrap().name);
        let reading = (self.socket_addr)(name);
        assert(self.socket_addr.ensures((read_name,), reading));
        let keys = vec![("cert-path", PrimitiveType::String), ("key-path", PrimitiveType::String), ("offer-h2", PrimitiveType::Bool)];
        let rules = vec![
            Rule::NoChildren,
            Rule::NoPositionalArgs,
            Rule::OnlyKeysTyped(keys.as_slice()),
            Rule::Name("socket address", &reading),
        ];
        let ghost n = ctx.spec_node().unwrap();
        proof {
            assert(keys@ == seq![("cert-path", PrimitiveType::String), ("key-path", PrimitiveType::String), ("offer-h2", PrimitiveType::Bool)]);
            if ctx.spec_node() is Some {
                assert forall|e: crate::document::Entry| e.name is Some ==> entry_fits(e, keys@) == listener_entry_ok(e) by {
                    if e.name is Some {
                        lemma_listener_kinds(e.name.unwrap()@);
                    }
                }
                assert(listener_shape_ok(n) <==> (rule_holds(rules@[0], n) && rule_holds(rules@[1], n)
                    && rule_holds(rules@[2], n)));
                assert(rule_holds(rules@[3], n) <==> reading is Some);
            }
        }
        match ctx.validate(rules.as_slice()) {
            Ok(_) => {},
            Err(d) => {
                proof {
                    if ctx.spec_node() is Some {
                        let k = choose|k: int| #[trigger] crate::rules::first_broken(rules@, n, k)
                            && crate::rules::rule_error(rules@[k], n, d);
                        if k == 3 {
                            assert(rule_holds(rules@[0], n));
                            assert(rule_holds(rules@[1], n));
                            assert(rule_holds(rules@[2], n));
                            assert(listener_shape_ok(n));
                            assert(reading is None);
                            assert(self.socket_addr.ensures((n.name,), None::<String>));
                        } else {
                            assert(!listener_shape_ok(n));
                        }
                    }
                }
                return Err(d);
            },
        }
        proof {
            assert(rule_holds(rules@[0], n));
            assert(rule_holds(rules@[1], n));
            assert(rule_holds(rules@[2], n));
            assert(rule_holds(rules@[3], n));
            assert forall|i: int| 0 <= i < n.entries@.len() implies listener_entry_ok(#[trigger] n.entries@[i]) by {
                assert(n.entries@[i].name is Some);
                assert(entry_fits(n.entries@[i], keys@));
                lemma_listener_kinds(n.entries@[i].name.unwrap()@);
            }
            assert(listener_shape_ok(n));
        }
        let addr = match &reading {
            Some(a) => a.clone(),
            None => {
                return Err(ctx.error(ErrorKind::Format, String::new()));
            },
        };
        let props = match ctx.props(vec!["cert-path", "key-path", "offer-h2"].as_slice()) {
            Ok(v) => v,
            Err(d) => {
                return Err(d);
            },
        };
        proof {
            lemma_setting(n, "cert-path"@, props@[0]);
            lemma_setting(n, "key-path"@, props@[1]);
            lemma_setting(n, "offer-h2"@, props@[2]);
            lemma_listener_keys();
            if has_key(n.entries@, "cert-path"@) {
                assert(listener_entry_ok(n.entries@[key_index(n, "cert-path"@)]));
            }
            if has_key(n.entries@, "key-path"@) {
                assert(listener_entry_ok(n.entries@[key_index(n, "key-path"@)]));
            }
            if has_key(n.entries@, "offer-h2"@) {
                assert(listener_entry_ok(n.entries@[key_index(n, "offer-h2"@)]));
            }
        }
        let cert = match opt_as_str(props[0]) {
            Ok(c) => c,
            Err(d) => {
                return Err(d);
            },
        };
        let key = match opt_as_str(props[1]) {
            Ok(c) => c,
            Err(d) => {
                return Err(d);
            },
        };
        let h2 = match opt_as_bool(props[2]) {
            Ok(c) => c,
            Err(d) => {
                return Err(d);
            },
        };
        proof {

            assert(prop_text(n, "cert-path"@) == crate::key_profile_parser::opt_view(cert));
            assert(prop_text(n, "key-path"@) == crate::key_profile_parser::opt_view(key));
            assert(prop_bool(n, "offer-h2"@) == h2);
        }
        self.resolve_tcp_listener(&ctx, addr, cert, key, h2)
    }
}

} // verus!

verus! {

/// Whether `r` is what the `listeners` section reads `ctx` as.
pub open spec fn listeners_read<F: Fn(String) -> Option<String>>(
    f: F,
    ctx: ParseContext,
    r: Result<Listeners, Diagnostic>,
) -> bool {
    match r {
        Ok(ls) => ctx.spec_name() == Some("listeners"@) && (ctx.spec_block() matches Some(bl) && bl.len()
            > 0 && ls.list_cfgs@.len() == bl.len() && forall|i: int|
            0 <= i < bl.len() ==> listener_read(f, bl[i], #[trigger] ls.list_cfgs@[i])),
        Err(d) => ctx.spec_name() != Some("listeners"@) || match ctx.spec_block() {
            None => true,
            Some(bl) => (bl.len() == 0 && d.kind == ErrorKind::Shape && d.message@ == "Block '"@
                + "listeners"@ + "' cannot be empty"@) || exists|i: int|
                0 <= i < bl.len() && listener_refused(f, #[trigger] bl[i]) && listener_error(
                    f,
                    bl[i],
                    ctx.source_name@,
                    d,
                ) && forall|j: int| 0 <= j < i ==> listener_reads_some(f, #[trigger] bl[j]),
        },
    }
}

impl<F: Fn(String) -> Option<String>> crate::service::SectionParser<Listeners> for ListenersSection<F> {
    open spec fn ready(&self) -> bool {
        forall|s: String| self.socket_addr.requires((s,))
    }

    open spec fn reads(&self, ctx: ParseContext, r: Result<Listeners, Diagnostic>) -> bool {
        listeners_read(self.socket_addr, ctx, r)
    }

    /// Reads a node named `listeners` whose children are the listeners.
    fn parse_node(&self, ctx: ParseContext<'_>) -> (r: Result<Listeners, Diagnostic>) {
        match ctx.expect_name("listeners") {
            Ok(_) => {},
            Err(d) => {
                return Err(d);
            },
        }
        let nodes = match ctx.req_nodes() {
            Ok(v) => v,
            Err(d) => {
                return Err(d);
            },
        };
        let ghost bl = ctx.spec_block().unwrap();
        let mut list_cfgs: Vec<ListenerConfig> = Vec::new();
        let mut i: usize = 0;
        while i < nodes.len()
            invariant
                forall|s: String| self.socket_addr.requires((s,)),
                ctx.spec_block() == Some(bl),
                ctx.spec_name() == Some("listeners"@),
                bl.len() > 0,
                nodes@.len() == bl.len(),
                forall|j: int| 0 <= j < bl.len() ==> (#[trigger] nodes@[j]).spec_node() == Some(bl[j])
                    && ctx.same_source(nodes@[j]),
                i <= nodes@.len(),
                list_cfgs@.len() == i,
                forall|j: int| 0 <= j < i ==> listener_read(self.socket_addr, bl[j], #[trigger] list_cfgs@[j]),
            decreases nodes.len() - i,
        {
            match self.extract_listener(nodes[i]) {
                Ok(cfg) => list_cfgs.push(cfg),
                Err(d) => {
                    assert(listener_refused(self.socket_addr, bl[i as int]));
                    assert(listener_error(self.socket_addr, bl[i as int], ctx.source_name@, d));
                    assert forall|j: int| 0 <= j < i implies listener_reads_some(self.socket_addr, #[trigger] bl[j]) by {
                        assert(listener_read(self.socket_addr, bl[j], list_cfgs@[j]));
                    }
                    return Err(d);
                },
            }
            i = i + 1;
        }
        Ok(Listeners { list_cfgs })
    }
}

} // verus!
