use motya_config::rules::Rule;
use motya_config::utils::PrimitiveType;
use motya_config::block::BlockParser;
use motya_config::chain_parser::ChainParser;
use motya_config::ctx::{Current, ParseContext};
use motya_config::definitions::{ListenerKind, Listeners};
use motya_config::diagnostic::ErrorKind;
use motya_config::document::{Document, Entry, Node, Span, Value};
use motya_config::key_profile_parser::KeyProfileParser;
use motya_config::listeners::ListenersSection;
use motya_config::service::{SectionParser, ServiceSection};

fn span_of(s: miette::SourceSpan) -> Span {
    Span { offset: s.offset(), len: s.len() }
}

fn value_of(v: &kdl::KdlValue) -> Value {
    match v {
        kdl::KdlValue::String(s) => Value::String(s.clone()),
        kdl::KdlValue::Integer(i) => Value::Integer(*i),
        kdl::KdlValue::Float(f) => Value::Float(f.to_string()),
        kdl::KdlValue::Bool(b) => Value::Bool(*b),
        kdl::KdlValue::Null => Value::Null,
    }
}

fn node_of(n: &kdl::KdlNode) -> Node {
    Node {
        name: n.name().value().to_string(),
        entries: n
            .entries()
            .iter()
            .map(|e| Entry {
                name: e.name().map(|k| k.value().to_string()),
                value: value_of(e.value()),
                span: span_of(e.span()),
            })
            .collect(),
        children: n.children().map(document_of),
        span: span_of(n.span()),
    }
}

fn document_of(d: &kdl::KdlDocument) -> Document {
    Document { nodes: d.nodes().iter().map(node_of).collect(), span: span_of(d.span()) }
}

fn parse_doc(text: &str) -> Document {
    let doc: kdl::KdlDocument = text.parse().unwrap();
    document_of(&doc)
}

#[test]
fn test_chain_parser_success_happy_path() {
    let kdl_input = r#"
            filter name="com.example.auth"
            filter name="com.example.logger" level="debug" format="json"
        "#;
    let doc = parse_doc(kdl_input);

    let ctx = ParseContext::new(&doc, Current::Document(&doc), "test");
    let chain = ChainParser.parse(ctx).expect("Should parse valid chain");

    assert_eq!(chain.filters.len(), 2);

    let f1 = &chain.filters[0];
    assert_eq!(f1.name.to_string(), "com.example.auth");
    assert!(f1.args.is_empty());

    let f2 = &chain.filters[1];
    assert_eq!(f2.name.to_string(), "com.example.logger");
    assert_eq!(f2.args.get("level").unwrap(), "debug");
    assert_eq!(f2.args.get("format").unwrap(), "json");
}

#[test]
fn test_chain_parser_empty_block() {
    let kdl_input = "";
    let doc = parse_doc(kdl_input);

    let ctx = ParseContext::new(&doc, Current::Document(&doc), "test");
    let chain = ChainParser.parse(ctx).expect("Should parse valid chain");
    assert!(chain.filters.is_empty());
}

#[test]
fn test_chain_parser_invalid_directive_name() {
    let kdl_input = r#"
            filter name="good.filter"
            not-filter name="bad.one"
        "#;
    let doc = parse_doc(kdl_input);

    let ctx = ParseContext::new(&doc, Current::Document(&doc), "test");
    let result = ChainParser.parse(ctx);
    let msg_err = result.unwrap_err().help().unwrap().to_string();

    assert!(msg_err.contains("Unknown directive: 'not-filter'"), "{msg_err}");
}

#[test]
fn test_chain_parser_missing_name_argument() {
    let kdl_input = r#"
            filter arg="value"
        "#;
    let doc = parse_doc(kdl_input);

    let ctx = ParseContext::new(&doc, Current::Document(&doc), "test");
    let result = ChainParser.parse(ctx);
    let msg_err = result.unwrap_err().help().unwrap().to_string();
    assert!(msg_err.contains("Missing required property 'name'"), "{msg_err}");
}

#[test]
fn test_chain_parser_invalid_fqdn() {
    let kdl_input = r#"
            filter name="invalid name with spaces"
        "#;
    let doc = parse_doc(kdl_input);

    let ctx = ParseContext::new(&doc, Current::Document(&doc), "test");
    let result = ChainParser.parse(ctx);
    let msg_err = result.unwrap_err().help().unwrap().to_string();

    assert!(
        msg_err.contains(
            "Invalid FQDN 'invalid name with spaces'. Reason: invalid char found in FQDN"
        ),
        "{msg_err}"
    );
}

#[test]
fn test_parse_key_profile() {
    let kdl_input = r#"
            key "${cookie_session}" fallback="${client_ip}:${user_agent}"
            algorithm name="xxhash32" seed="idk"
            transforms-order {
                remove-query-params
                lowercase
                truncate length="256"
            }
        "#;

    let doc = parse_doc(kdl_input);

    let ctx = ParseContext::new(&doc, Current::Document(&doc), "test");
    let template = KeyProfileParser.parse(ctx).expect("Should parse");

    assert_eq!(template.source, "${cookie_session}");
    assert_eq!(
        template.fallback.as_deref(),
        Some("${client_ip}:${user_agent}")
    );
    assert_eq!(template.algorithm.name, "xxhash32");
    assert_eq!(template.algorithm.seed.as_deref(), Some("idk"));

    assert_eq!(template.transforms.len(), 3);
    assert_eq!(template.transforms[0].name, "remove-query-params");
    assert_eq!(template.transforms[1].name, "lowercase");
    assert_eq!(template.transforms[2].name, "truncate");
    assert_eq!(
        template.transforms[2].params.get("length"),
        Some(&"256".to_string())
    );
}

#[test]
fn test_parse_minimal_profile() {
    let kdl_input = r#"key "${uri_path}""#;
    let doc = parse_doc(kdl_input);

    let ctx = ParseContext::new(&doc, Current::Document(&doc), "test");
    let template = KeyProfileParser.parse(ctx).unwrap();

    assert_eq!(template.source, "${uri_path}");
    assert!(template.fallback.is_none());
    assert_eq!(template.algorithm.name, "xxhash64");
    assert!(template.algorithm.seed.is_none());
    assert!(template.transforms.is_empty());
}

#[test]
fn test_missing_key_error() {
    let kdl_input = r#"algorithm name="xxhash32""#;
    let doc = parse_doc(kdl_input);

    let ctx = ParseContext::new(&doc, Current::Document(&doc), "test");
    let result = KeyProfileParser.parse(ctx);

    let msg_err = result.unwrap_err().help().unwrap().to_string();
    assert!(msg_err.contains("Missing required directive 'key'"), "{msg_err}");
}

fn socket_section() -> ListenersSection<impl Fn(String) -> Option<String>> {
    ListenersSection {
        socket_addr: |s: String| {
            let (host, port) = s.rsplit_once(':')?;
            port.parse::<u16>().ok()?;
            if host.is_empty() || host.contains(' ') {
                None
            } else {
                Some(s.clone())
            }
        },
    }
}

fn parse_listeners(text: &str) -> Result<Listeners, motya_config::diagnostic::Diagnostic> {
    let doc = parse_doc(text);
    let root = ParseContext::new(&doc, Current::Document(&doc), "test");
    let ctx = root.for_node(&doc.nodes[0]);
    socket_section().parse_node(ctx)
}

fn tcp(l: &Listeners, i: usize) -> (String, Option<(String, String)>, bool) {
    match &l.list_cfgs[i].source {
        ListenerKind::Tcp { addr, tls, offer_h2 } => (
            addr.clone(),
            tls.as_ref().map(|t| (t.cert_path.clone(), t.key_path.clone())),
            *offer_h2,
        ),
    }
}

#[test]
fn listener_plain_tcp() {
    let l = parse_listeners("listeners { \"127.0.0.1:8080\" }").unwrap();
    assert_eq!(tcp(&l, 0), ("127.0.0.1:8080".to_string(), None, false));
}

#[test]
fn listener_tls_defaults_to_h2() {
    let l = parse_listeners(
        "listeners { \"0.0.0.0:443\" cert-path=\"c.pem\" key-path=\"k.pem\" }",
    )
    .unwrap();
    assert_eq!(
        tcp(&l, 0),
        (
            "0.0.0.0:443".to_string(),
            Some(("c.pem".to_string(), "k.pem".to_string())),
            true
        )
    );
}

#[test]
fn listener_tls_without_h2() {
    let l = parse_listeners(
        "listeners { \"0.0.0.0:443\" cert-path=\"c.pem\" key-path=\"k.pem\" offer-h2=#false }",
    )
    .unwrap();
    assert_eq!(tcp(&l, 0).2, false);
    assert!(tcp(&l, 0).1.is_some());
}

#[test]
fn listener_cert_only_is_refused() {
    let e = parse_listeners("listeners { \"0.0.0.0:443\" cert-path=\"c.pem\" }").unwrap_err();
    assert_eq!(e.kind, ErrorKind::MutualExclusion);
}

#[test]
fn listener_key_only_is_refused() {
    let e = parse_listeners("listeners { \"0.0.0.0:443\" key-path=\"k.pem\" }").unwrap_err();
    assert_eq!(e.kind, ErrorKind::MutualExclusion);
}

#[test]
fn listener_h2_without_tls_is_refused() {
    let e = parse_listeners("listeners { \"0.0.0.0:80\" offer-h2=#true }").unwrap_err();
    assert_eq!(e.kind, ErrorKind::MutualExclusion);
    assert!(e.message.contains("'offer-h2' requires TLS"));
}

#[test]
fn listener_bad_address_is_refused() {
    let e = parse_listeners("listeners { \"not-an-address\" }").unwrap_err();
    assert_eq!(e.kind, ErrorKind::Format);
}

#[test]
fn listener_wrong_kind_is_refused() {
    let e = parse_listeners("listeners { \"0.0.0.0:80\" offer-h2=\"yes\" }").unwrap_err();
    assert_eq!(e.kind, ErrorKind::TypeMismatch);
}

#[test]
fn listener_unknown_key_is_refused() {
    let e = parse_listeners("listeners { \"0.0.0.0:80\" port=\"80\" }").unwrap_err();
    assert_eq!(e.kind, ErrorKind::UnknownKey);
}

#[test]
fn listeners_empty_block_is_refused() {
    let e = parse_listeners("listeners { }").unwrap_err();
    assert_eq!(e.kind, ErrorKind::Shape);
}

#[test]
fn listeners_wrong_section_name() {
    let e = parse_listeners("connectors { \"0.0.0.0:80\" }").unwrap_err();
    assert_eq!(e.kind, ErrorKind::Shape);
}

struct NoConnectors;

impl SectionParser<usize> for NoConnectors {
    fn ready(&self) -> bool {
        true
    }

    fn reads(&self, _ctx: ParseContext<'_>, _r: Result<usize, motya_config::diagnostic::Diagnostic>) -> bool {
        true
    }

    fn parse_node(&self, ctx: ParseContext<'_>) -> Result<usize, motya_config::diagnostic::Diagnostic> {
        ctx.nodes().map(|v| v.len())
    }
}

#[test]
fn service_merges_sections() {
    let doc = parse_doc("listeners { \"127.0.0.1:80\"\n \"127.0.0.1:81\" }");
    let root = ParseContext::new(&doc, Current::Document(&doc), "test");
    let ctx = root.for_node(&doc.nodes[0]);
    let listeners = socket_section();
    let connectors = NoConnectors;
    let service = ServiceSection::new(&listeners, &connectors, "edge");
    let cfg = service.parse_node::<usize>(ctx).unwrap();
    assert_eq!(cfg.name, "edge");
    assert_eq!(cfg.listeners.list_cfgs.len(), 2);
    assert_eq!(cfg.connectors, 2);
}

#[test]
fn chain_keeps_source_order() {
    let doc = parse_doc("filter name=\"a.b\"\nfilter name=\"c.d\"\nfilter name=\"e.f\"");
    let ctx = ParseContext::new(&doc, Current::Document(&doc), "test");
    let chain = ChainParser.parse(ctx).unwrap();
    let names: Vec<String> = chain.filters.iter().map(|f| f.name.to_string()).collect();
    assert_eq!(names, vec!["a.b", "c.d", "e.f"]);
}

#[test]
fn repeated_takes_matches_in_order_and_leaves_others() {
    let doc = parse_doc("filter name=\"x\"\nother\nfilter name=\"y\"");
    let ctx = ParseContext::new(&doc, Current::Document(&doc), "test");
    let mut block = BlockParser::new(ctx).unwrap();
    let got = block
        .repeated("filter", |c| c.prop("name").and_then(|v| v.as_str()))
        .unwrap();
    assert_eq!(got, vec!["x".to_string(), "y".to_string()]);
    let none = block.repeated("missing", |c| c.name().map(|s| s.to_string())).unwrap();
    assert!(none.is_empty());
    assert_eq!(block.pending.len(), 1);
    let e = block.exhaust().unwrap_err();
    assert_eq!(e.kind, ErrorKind::UnknownDirective);
    assert_eq!(e.message, "Unknown directive: 'other'");
}

#[test]
fn required_missing_and_present() {
    let doc = parse_doc("alpha 1\nbeta 2\ngamma 3");
    let ctx = ParseContext::new(&doc, Current::Document(&doc), "test");
    let mut block = BlockParser::new(ctx).unwrap();
    let e = block.required("key", |c| c.first().and_then(|v| v.as_usize())).unwrap_err();
    assert_eq!(e.kind, ErrorKind::MissingRequired);
    assert_eq!(e.message, "Missing required directive 'key'");
    let b = block.required("beta", |c| c.first().and_then(|v| v.as_usize())).unwrap();
    assert_eq!(b, 2);
    let g = block.optional("gamma", |c| c.first().and_then(|v| v.as_usize())).unwrap();
    assert_eq!(g, Some(3));
    let a = block.repeated("alpha", |c| c.first().and_then(|v| v.as_usize())).unwrap();
    assert_eq!(a, vec![1]);
    assert!(block.exhaust().is_ok());
}

#[test]
fn exhaust_names_the_unrecognized_sibling() {
    let doc = parse_doc("key \"k\"\ntypo 1");
    let ctx = ParseContext::new(&doc, Current::Document(&doc), "test");
    let e = KeyProfileParser.parse(ctx).unwrap_err();
    assert_eq!(e.kind, ErrorKind::UnknownDirective);
    assert!(e.message.contains("'typo'"));
}

#[test]
fn parse_as_reports_type_and_text() {
    let doc = parse_doc("filter name=\"bad name\"");
    let ctx = ParseContext::new(&doc, Current::Document(&doc), "test");
    let e = ChainParser.parse(ctx).unwrap_err();
    assert_eq!(e.kind, ErrorKind::Format);
    assert!(e.message.starts_with("Invalid FQDN 'bad name'. Reason: "));
    assert_eq!(e.span, span_of_entry(&doc, 0, 0));
}

fn span_of_entry(doc: &Document, node: usize, entry: usize) -> Span {
    doc.nodes[node].entries[entry].span
}

#[test]
fn lossy_text_of_each_kind() {
    let doc = parse_doc("n 42 -7 #true \"s\" #null");
    let root = ParseContext::new(&doc, Current::Document(&doc), "test");
    let ctx = root.for_node(&doc.nodes[0]);
    assert_eq!(ctx.arg(0).unwrap().as_string_lossy().unwrap(), "42");
    assert_eq!(ctx.arg(1).unwrap().as_string_lossy().unwrap(), "-7");
    assert_eq!(ctx.arg(2).unwrap().as_string_lossy().unwrap(), "true");
    assert_eq!(ctx.arg(3).unwrap().as_string_lossy().unwrap(), "s");
    let e = ctx.arg(4).unwrap().as_string_lossy().unwrap_err();
    assert_eq!(e.kind, ErrorKind::TypeMismatch);
    assert_eq!(e.message, "Cannot parse 'null' as a string or number");
    let e = ctx.arg(5).unwrap_err();
    assert_eq!(e.message, "Missing required argument at position 6");
}

#[test]
fn typed_accessors_check_kinds() {
    let doc = parse_doc("n count=3 flag=#false name=\"x\" neg=-1");
    let root = ParseContext::new(&doc, Current::Document(&doc), "test");
    let ctx = root.for_node(&doc.nodes[0]);
    assert_eq!(ctx.prop("count").unwrap().as_usize().unwrap(), 3);
    assert_eq!(ctx.prop("flag").unwrap().as_bool().unwrap(), false);
    assert_eq!(ctx.prop("name").unwrap().as_str().unwrap(), "x");
    assert_eq!(ctx.prop("neg").unwrap().as_usize().unwrap_err().kind, ErrorKind::TypeMismatch);
    assert_eq!(ctx.prop("count").unwrap().as_str().unwrap_err().kind, ErrorKind::TypeMismatch);
    assert!(ctx.opt_prop("absent").unwrap().is_none());
    assert_eq!(ctx.string_arg("absent").unwrap_err().kind, ErrorKind::MissingRequired);
}

#[test]
fn document_focus_is_refused_by_node_accessors() {
    let doc = parse_doc("a 1");
    let root = ParseContext::new(&doc, Current::Document(&doc), "test");
    assert_eq!(root.name().unwrap_err().kind, ErrorKind::Shape);
    assert_eq!(root.args().unwrap_err().kind, ErrorKind::Shape);
    assert_eq!(root.enter_block().unwrap_err().kind, ErrorKind::Shape);
    let node = root.for_node(&doc.nodes[0]);
    assert_eq!(node.enter_block().unwrap_err().kind, ErrorKind::Shape);
    assert_eq!(node.nodes().unwrap_err().kind, ErrorKind::Shape);
}

#[test]
fn args_map_out_of_range_and_unknown_keys() {
    let doc = parse_doc("algorithm name=\"h\" colour=\"red\"");
    let root = ParseContext::new(&doc, Current::Document(&doc), "test");
    let ctx = root.for_node(&doc.nodes[0]);
    assert_eq!(ctx.args_map(3..5).unwrap_err().kind, ErrorKind::Shape);
    let e = ctx.args_map_with_only_keys(0..2, &["name", "seed"]).unwrap_err();
    assert_eq!(e.kind, ErrorKind::UnknownKey);
    assert!(e.message.contains("'colour'"));
    let m = ctx.args_map(0..2).unwrap();
    assert_eq!(m.get("colour").unwrap(), "red");
}

#[test]
fn first_value_wins_in_args_map() {
    let doc = parse_doc("t k=\"a\" k=\"b\"");
    let root = ParseContext::new(&doc, Current::Document(&doc), "test");
    let ctx = root.for_node(&doc.nodes[0]);
    let m = ctx.args_map(0..2).unwrap();
    assert_eq!(m.get("k").unwrap(), "a");
    assert_eq!(ctx.prop("k").unwrap().as_str().unwrap(), "a");
}

#[test]
fn simple_type_name_takes_last_segment() {
    assert_eq!(motya_config::utils::simple_type_name("fqdn::FQDN"), "FQDN");
    assert_eq!(motya_config::utils::simple_type_name("Plain"), "Plain");
    assert_eq!(
        motya_config::utils::get_simple_type_name::<motya_config::names::FQDN>(),
        "FQDN"
    );
}

#[test]
fn normalize_path_cleans_joined_path() {
    assert_eq!(motya_config::paths::normalize_path("/etc/motya", "../conf/./a.kdl"), "/etc/conf/a.kdl");
    assert_eq!(motya_config::paths::normalize_path("/etc", "/abs//x"), "/abs/x");
}

#[test]
fn key_profile_rejects_unknown_algorithm_key() {
    let doc = parse_doc("key \"k\"\nalgorithm colour=\"x\"");
    let ctx = ParseContext::new(&doc, Current::Document(&doc), "test");
    let e = KeyProfileParser.parse(ctx).unwrap_err();
    assert_eq!(e.kind, ErrorKind::UnknownKey);
}

#[test]
fn filter_with_children_is_refused() {
    let doc = parse_doc("filter name=\"a.b\" { x }");
    let ctx = ParseContext::new(&doc, Current::Document(&doc), "test");
    let e = ChainParser.parse(ctx).unwrap_err();
    assert_eq!(e.kind, ErrorKind::Shape);
}

#[test]
fn key_profile_round_trip() {
    let text = r#"
        key "${host}${path}" fallback="${client_ip}"
        algorithm name="xxhash32" seed="s1"
        transforms-order {
            lowercase
            truncate length="64" mode="tail"
        }
    "#;
    let doc = parse_doc(text);
    let ctx = ParseContext::new(&doc, Current::Document(&doc), "test");
    let first = KeyProfileParser.parse(ctx).unwrap();

    let written = Document { nodes: first.to_nodes(), span: Span { offset: 0, len: 0 } };
    let ctx2 = ParseContext::new(&written, Current::Document(&written), "again");
    let second = KeyProfileParser.parse(ctx2).unwrap();

    assert_eq!(second.source, first.source);
    assert_eq!(second.fallback, first.fallback);
    assert_eq!(second.algorithm.name, first.algorithm.name);
    assert_eq!(second.algorithm.seed, first.algorithm.seed);
    assert_eq!(second.transforms.len(), 2);
    assert_eq!(second.transforms[1].name, "truncate");
    assert_eq!(second.transforms[1].params.get("mode").unwrap(), "tail");
    assert_eq!(second.transforms[1].params.pairs, first.transforms[1].params.pairs);
}

#[test]
fn minimal_profile_round_trip_keeps_defaults() {
    let doc = parse_doc(r#"key "${uri_path}""#);
    let ctx = ParseContext::new(&doc, Current::Document(&doc), "test");
    let first = KeyProfileParser.parse(ctx).unwrap();
    let written = Document { nodes: first.to_nodes(), span: Span { offset: 0, len: 0 } };
    let ctx2 = ParseContext::new(&written, Current::Document(&written), "again");
    let second = KeyProfileParser.parse(ctx2).unwrap();
    assert_eq!(second.source, "${uri_path}");
    assert_eq!(second.algorithm.name, "xxhash64");
    assert!(second.algorithm.seed.is_none());
    assert!(second.fallback.is_none());
    assert!(second.transforms.is_empty());
}

#[test]
fn duplicate_key_directive_is_unknown() {
    let doc = parse_doc("key \"a\"\nkey \"b\"");
    let ctx = ParseContext::new(&doc, Current::Document(&doc), "test");
    let e = KeyProfileParser.parse(ctx).unwrap_err();
    assert_eq!(e.kind, ErrorKind::UnknownDirective);
    assert_eq!(e.message, "Unknown directive: 'key'");
}

#[test]
fn fqdn_name_is_displayed_text() {
    let doc = parse_doc("filter name=\"Example.COM\"");
    let ctx = ParseContext::new(&doc, Current::Document(&doc), "test");
    let chain = ChainParser.parse(ctx).unwrap();
    assert_eq!(chain.filters[0].name.to_string(), "example.com");
}

#[test]
fn filter_chain_round_trip() {
    let doc = parse_doc(
        r#"
        filter name="com.example.auth"
        filter name="com.example.logger" level="debug" format="json"
    "#,
    );
    let ctx = ParseContext::new(&doc, Current::Document(&doc), "test");
    let first = ChainParser.parse(ctx).unwrap();
    let written = Document { nodes: first.to_nodes(), span: Span { offset: 0, len: 0 } };
    let ctx2 = ParseContext::new(&written, Current::Document(&written), "again");
    let second = ChainParser.parse(ctx2).unwrap();
    assert_eq!(second.filters.len(), 2);
    for (a, b) in first.filters.iter().zip(second.filters.iter()) {
        assert_eq!(a.name.to_string(), b.name.to_string());
        assert_eq!(a.args.pairs, b.args.pairs);
    }
}

#[test]
fn messages_name_the_offending_item() {
    let doc = parse_doc("key \"k\" colour=\"x\"");
    let ctx = ParseContext::new(&doc, Current::Document(&doc), "test");
    let e = KeyProfileParser.parse(ctx).unwrap_err();
    assert_eq!(e.kind, ErrorKind::UnknownKey);
    assert_eq!(e.message, "Unknown configuration key: 'colour'. Allowed keys are: [\"fallback\"]");

    let doc = parse_doc("n flag=#true");
    let root = ParseContext::new(&doc, Current::Document(&doc), "test");
    let node = root.for_node(&doc.nodes[0]);
    let e = node.prop("flag").unwrap().as_str().unwrap_err();
    assert_eq!(e.message, "Expected a string value, found true");
    let e = node.expect_name("listeners").unwrap_err();
    assert_eq!(e.message, "Expected 'listeners', found 'n'");
    let e = node.parse_fqdn_arg("missing").unwrap_err();
    assert_eq!(e.message, "Missing required argument: 'missing'");

    let e = parse_listeners("listeners { }").unwrap_err();
    assert_eq!(e.message, "Block 'listeners' cannot be empty");
    let e = parse_listeners("listeners { \"0.0.0.0:1\" key-path=\"k\" }").unwrap_err();
    assert_eq!(
        e.message,
        "'cert-path' and 'key-path' must either BOTH be present, or NEITHER should be present"
    );
}

#[test]
fn parse_fqdn_arg_reads_and_refuses() {
    let doc = parse_doc("n host=\"Example.org\" bad=\"a b\"");
    let root = ParseContext::new(&doc, Current::Document(&doc), "test");
    let node = root.for_node(&doc.nodes[0]);
    assert_eq!(node.parse_fqdn_arg("host").unwrap().to_string(), "example.org");
    let e = node.parse_fqdn_arg("bad").unwrap_err();
    assert_eq!(e.kind, ErrorKind::Format);
    assert_eq!(e.message, "Invalid FQDN 'a b': invalid char found in FQDN");
}

#[test]
fn integer_text_extremes() {
    assert_eq!(motya_config::typed_value::integer_text(0), "0");
    assert_eq!(motya_config::typed_value::integer_text(i128::MIN), i128::MIN.to_string());
    assert_eq!(motya_config::typed_value::integer_text(i128::MAX), i128::MAX.to_string());
}

#[test]
fn assemble_keeps_parts_and_errors() {
    let listeners = socket_section();
    let connectors = NoConnectors;
    let service = ServiceSection::new(&listeners, &connectors, "edge");
    let cfg = service.assemble(Ok(Listeners { list_cfgs: vec![] }), Ok(7usize)).unwrap();
    assert_eq!(cfg.name, "edge");
    assert_eq!(cfg.connectors, 7);
    let doc = parse_doc("x");
    let root = ParseContext::new(&doc, Current::Document(&doc), "src");
    let e1 = root.error(ErrorKind::Shape, "first".to_string());
    let e2 = root.error(ErrorKind::Format, "second".to_string());
    let r = service.assemble::<usize>(Err(e1), Err(e2.clone()));
    assert_eq!(r.unwrap_err().message, "first");
    let r = service.assemble::<usize>(Ok(Listeners { list_cfgs: vec![] }), Err(e2));
    assert_eq!(r.unwrap_err().message, "second");
}

#[test]
fn open_ranges_select_entries() {
    let doc = parse_doc("t a=\"1\" b=\"2\" c=\"3\"");
    let root = ParseContext::new(&doc, Current::Document(&doc), "test");
    let ctx = root.for_node(&doc.nodes[0]);
    assert_eq!(ctx.args_map(1..).unwrap().len(), 2);
    assert_eq!(ctx.args_map(..1).unwrap().len(), 1);
    assert_eq!(ctx.args_map(..).unwrap().len(), 3);
    assert_eq!(ctx.args_map(4..).unwrap_err().message, "Range out of bounds");
}

#[test]
fn profile_directives_in_any_order() {
    let doc = parse_doc("transforms-order { lowercase }\nalgorithm name=\"n\" seed=\"sd\"\nkey \"s\"");
    let ctx = ParseContext::new(&doc, Current::Document(&doc), "test");
    let p = KeyProfileParser.parse(ctx).unwrap();
    assert_eq!(p.source, "s");
    assert!(p.fallback.is_none());
    assert_eq!(p.algorithm.name, "n");
    assert_eq!(p.algorithm.seed.as_deref(), Some("sd"));
    assert_eq!(p.transforms.len(), 1);
    assert_eq!(p.transforms[0].name, "lowercase");
}

#[test]
fn written_profile_without_transforms_has_two_nodes() {
    let doc = parse_doc("key \"s\"");
    let ctx = ParseContext::new(&doc, Current::Document(&doc), "test");
    let p = KeyProfileParser.parse(ctx).unwrap();
    let nodes = p.to_nodes();
    assert_eq!(nodes.len(), 2);
    assert_eq!(nodes[1].name, "algorithm");
}

#[test]
fn name_rule_reports_the_name() {
    let doc = parse_doc("not-an-address");
    let root = ParseContext::new(&doc, Current::Document(&doc), "test");
    let ctx = root.for_node(&doc.nodes[0]);
    let reading: Option<String> = None;
    let e = ctx.validate(&[Rule::NoChildren, Rule::Name("socket address", &reading)]).unwrap_err();
    assert_eq!(e.kind, ErrorKind::Format);
    assert_eq!(e.message, "Invalid socket address 'not-an-address'");
    let ok: Option<String> = Some("x".to_string());
    assert!(ctx.validate(&[Rule::Name("socket address", &ok)]).is_ok());
}

#[test]
fn typed_key_rule_kinds() {
    let doc = parse_doc("n a=1 b=\"x\"");
    let root = ParseContext::new(&doc, Current::Document(&doc), "test");
    let ctx = root.for_node(&doc.nodes[0]);
    let e = ctx.validate(&[Rule::OnlyKeysTyped(&[("a", PrimitiveType::String), ("b", PrimitiveType::String)])]).unwrap_err();
    assert_eq!(e.kind, ErrorKind::TypeMismatch);
    assert_eq!(e.span, doc.nodes[0].entries[0].span);
    let e = ctx.validate(&[Rule::OnlyKeysTyped(&[("a", PrimitiveType::Integer)])]).unwrap_err();
    assert_eq!(e.kind, ErrorKind::UnknownKey);
    assert_eq!(e.span, doc.nodes[0].entries[1].span);
}
