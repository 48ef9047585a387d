use epok::{
    CoreNode, CorePod, CoreService, ExternalPorts, Interface, NodeStatus, ObjectMeta, Pod,
    PodStatus, PortSpec, Proto, Resource, ResourceKind, Service, State, StatusEntry,
};

fn meta(name: &str, annotations: Vec<(&str, &str)>, labels: Vec<(&str, &str)>) -> ObjectMeta {
    ObjectMeta {
        name: name.to_string(),
        namespace: Some("ns".to_string()),
        annotations: annotations.into_iter().map(|(k, v)| (k.to_string(), v.to_string())).collect(),
        labels: labels.into_iter().map(|(k, v)| (k.to_string(), v.to_string())).collect(),
    }
}

fn entry(t: &str, v: &str) -> StatusEntry {
    StatusEntry { type_: t.to_string(), value: v.to_string() }
}

#[test]
fn parses_port_lists() {
    let p = ExternalPorts::parse("80:30080").unwrap();
    assert_eq!(p.specs, vec![PortSpec::new_tcp(80, 30080)]);
    let p = ExternalPorts::parse("53:30053:udp,443:30443:tcp,1:2:sctp").unwrap();
    assert_eq!(
        p.specs,
        vec![
            PortSpec { host_port: 53, dest_port: 30053, proto: Proto::Udp },
            PortSpec::new_tcp(443, 30443),
            PortSpec::new_tcp(1, 2),
        ]
    );
    assert_eq!(ExternalPorts::parse("+7:007").unwrap().specs, vec![PortSpec::new_tcp(7, 7)]);
}

#[test]
fn rejects_malformed_port_lists() {
    for bad in ["", "80", "80:", "a:1", "1:2:udp:x", "70000:1", "80:30080,", "-1:2", " 1:2"] {
        assert!(ExternalPorts::parse(bad).is_none(), "{bad}");
    }
}

#[test]
fn port_text_and_fqn() {
    assert_eq!(PortSpec::new_tcp(80, 30080).to_text(), "80::30080::Tcp");
    let s = Service {
        name: "web".to_string(),
        namespace: "default".to_string(),
        external_ports: ExternalPorts { specs: vec![] },
        is_internal: false,
        allow_range: None,
    };
    assert_eq!(s.fqn(), "default/web");
    assert!(!s.has_external_ports());
    assert!(s.clone().internal().is_internal);
}

#[test]
fn service_hash_changes_with_fields() {
    let mut s = Service {
        name: "web".to_string(),
        namespace: "default".to_string(),
        external_ports: ExternalPorts { specs: vec![PortSpec::new_tcp(80, 30080)] },
        is_internal: false,
        allow_range: None,
    };
    let h1 = s.service_hash();
    assert_eq!(h1.len(), 16);
    assert!(h1.chars().all(|c| c.is_ascii_hexdigit()));
    s.allow_range = Some("10.0.0.0/8".to_string());
    let h2 = s.service_hash();
    assert_ne!(h1, h2);
    s.is_internal = true;
    assert_ne!(h2, s.service_hash());
}

#[test]
fn pod_hash_is_32_hex_digits() {
    let p = Pod {
        name: "p".to_string(),
        namespace: "ns".to_string(),
        addr: "10.1.1.1".to_string(),
        external_ports: ExternalPorts { specs: vec![PortSpec::new_tcp(80, 8080)] },
        is_internal: false,
        is_external: false,
        is_ready: true,
    };
    assert_eq!(p.pod_hash().len(), 32);
    assert_eq!(p.fqn(), "ns/p");
    assert!(Resource::Pod(p).is_active());
}

#[test]
fn service_from_object() {
    let cs = CoreService {
        metadata: meta(
            "web",
            vec![
                ("epok.getbetter.ro/externalports", "80:30080"),
                ("epok.getbetter.ro/internal", ""),
                ("epok.getbetter.ro/allow-range", "10.0.0.0/8"),
            ],
            vec![],
        ),
    };
    match Resource::from_service(&cs).unwrap() {
        Resource::Service(s) => {
            assert_eq!(s.fqn(), "ns/web");
            assert!(s.is_internal);
            assert_eq!(s.allow_range.as_deref(), Some("10.0.0.0/8"));
            assert_eq!(s.external_ports.specs, vec![PortSpec::new_tcp(80, 30080)]);
        }
        _ => panic!("expected a service"),
    }
    let bad = CoreService {
        metadata: meta("web", vec![("epok.getbetter.ro/externalports", "80")], vec![]),
    };
    match Resource::from_service(&bad) {
        Err(epok::res::Error::ServiceParseError { annotation, service_id, .. }) => {
            assert_eq!(annotation, "80");
            assert_eq!(service_id, "ns/web");
        }
        _ => panic!("expected a parse error"),
    }
    let plain = CoreService { metadata: meta("web", vec![], vec![]) };
    assert!(!Resource::from_service(&plain).unwrap().is_active());
}

#[test]
fn node_from_object() {
    let status = NodeStatus {
        addresses: Some(vec![entry("Hostname", "n1"), entry("InternalIP", "10.0.0.1")]),
        conditions: Some(vec![entry("Ready", "True")]),
    };
    let cn = CoreNode { metadata: meta("n1", vec![], vec![]), status: Some(status) };
    match Resource::from_node(&cn).unwrap() {
        Resource::Node(n) => {
            assert_eq!(n.addr, "10.0.0.1");
            assert!(n.is_active);
        }
        _ => panic!("expected a node"),
    }
    let excluded = CoreNode {
        metadata: meta("n1", vec![], vec![("epok_exclude", "")]),
        status: Some(NodeStatus {
            addresses: Some(vec![entry("InternalIP", "10.0.0.1")]),
            conditions: Some(vec![entry("Ready", "True")]),
        }),
    };
    assert!(!Resource::from_node(&excluded).unwrap().is_active());
    let no_addr = CoreNode { metadata: meta("n1", vec![], vec![]), status: None };
    assert!(matches!(
        Resource::from_node(&no_addr),
        Err(epok::res::Error::NodeParseError { .. })
    ));
    let not_ready = NodeStatus {
        addresses: Some(vec![entry("InternalIP", "10.0.0.1")]),
        conditions: Some(vec![entry("Ready", "False")]),
    };
    assert!(!epok::res::node_ready(&not_ready));
    assert_eq!(epok::res::node_ip(&not_ready).unwrap(), "10.0.0.1");
}

#[test]
fn pod_from_object() {
    let cp = CorePod {
        metadata: meta("p", vec![("epok.getbetter.ro/externalports", "80:8080")], vec![]),
        status: Some(PodStatus {
            pod_ip: Some("10.1.1.1".to_string()),
            conditions: Some(vec![entry("Ready", "True")]),
        }),
    };
    let r = Resource::from_pod(&cp).unwrap();
    assert_eq!(r.type_id(), ResourceKind::Pod);
    assert!(r.is_active());
    assert_eq!(r.id(), "p");
    let unscheduled = CorePod { metadata: meta("p", vec![], vec![]), status: None };
    assert!(matches!(Resource::from_pod(&unscheduled), Err(epok::res::Error::SkipPod { .. })));
    assert!(epok::res::pod_ip(&PodStatus { pod_ip: None, conditions: None }).is_err());
}

#[test]
fn pod_rules_are_balanced_per_bucket() {
    let pod = |name: &str, addr: &str, ports: Vec<PortSpec>| Pod {
        name: name.to_string(),
        namespace: "ns".to_string(),
        addr: addr.to_string(),
        external_ports: ExternalPorts { specs: ports },
        is_internal: false,
        is_external: false,
        is_ready: true,
    };
    let s = State::default().with(vec![Interface::new("eth0")]).with(vec![
        pod("b", "10.1.1.2", vec![PortSpec::new_tcp(80, 8080)]),
        pod("a", "10.1.1.1", vec![PortSpec::new_tcp(80, 8080), PortSpec::new_tcp(81, 8081)]),
    ]);
    let rules = epok::make_pod_rules(&s);
    assert_eq!(rules.len(), 3);
    for r in &rules {
        assert!(r.rule_hash.starts_with("pod::"));
        if r.port_spec.host_port == 80 {
            assert_eq!(r.out_of, 2);
            assert_eq!(r.nth, if r.dest_addr == "10.1.1.1" { 0 } else { 1 });
        } else {
            assert_eq!((r.nth, r.out_of), (0, 1));
        }
    }
}

#[test]
fn internal_service_skips_external_interface() {
    let svc = Service {
        name: "web".to_string(),
        namespace: "default".to_string(),
        external_ports: ExternalPorts { specs: vec![PortSpec::new_tcp(80, 30080)] },
        is_internal: true,
        allow_range: None,
    };
    let s = State::default()
        .with(vec![Interface::new("eth0").external(), Interface::new("eth1")])
        .with(vec![epok::Node { name: "n".into(), addr: "10.0.0.1".into(), is_active: true }])
        .with(vec![svc]);
    let rules = epok::make_rules(&s);
    assert_eq!(rules.len(), 1);
    assert_eq!(rules[0].interface.name, "eth1");
}

#[test]
fn service_hash_matches_identity_scheme() {
    let s = Service {
        name: "web".to_string(),
        namespace: "default".to_string(),
        external_ports: ExternalPorts {
            specs: vec![PortSpec::new_tcp(80, 30080), PortSpec { host_port: 53, dest_port: 30053, proto: Proto::Udp }],
        },
        is_internal: false,
        allow_range: Some("10.0.0.0/8".to_string()),
    };
    let fqn_hash = sha256::digest("default/web")[..16].to_string();
    let expected =
        sha256::digest(format!("{fqn_hash}80::30080::Tcp::53::30053::Udpfalse10.0.0.0/8"))[..16].to_string();
    assert_eq!(s.service_hash(), expected);
}

#[test]
fn pod_hash_matches_identity_scheme() {
    let p = Pod {
        name: "p".to_string(),
        namespace: "ns".to_string(),
        addr: "10.1.1.1".to_string(),
        external_ports: ExternalPorts { specs: vec![PortSpec::new_tcp(80, 8080)] },
        is_internal: false,
        is_external: false,
        is_ready: true,
    };
    assert_eq!(p.pod_hash(), sha256::digest("ns/p::80::8080::Tcp")[..32].to_string());
}
