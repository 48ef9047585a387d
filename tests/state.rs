use epok::{apply, Event, ExternalPorts, Interface, Node, Ops, PortSpec, Resource, Service, State};

fn mock_svc(name: &str, namespace: &str, host_port: u16, node_port: u16) -> Service {
    Service {
        name: name.into(),
        namespace: namespace.into(),
        external_ports: ExternalPorts { specs: vec![PortSpec::new_tcp(host_port, node_port)] },
        is_internal: false,
        allow_range: None,
    }
}

fn ops_of(event: Event<Resource>) -> Vec<epok::Op> {
    Ops::from_event(event).0
}

#[test]
fn apply_one() {
    let svc = mock_svc("foo", "bar", 123, 456);
    let mut state = State::default();

    let ops = ops_of(Event::Apply(Resource::Service(svc.clone())));
    apply(ops, &mut state);

    assert!(!state.is_empty());
    assert!(state.get::<Service>().contains(&svc));
}

#[test]
fn apply_remove_one() {
    let svc = mock_svc("foo", "bar", 123, 456);
    let mut state = State::default();

    let mut ops = ops_of(Event::Apply(Resource::Service(svc.clone())));
    ops.extend(ops_of(Event::Delete(Resource::Service(svc))));
    apply(ops, &mut state);

    assert!(state.is_empty());
}

#[test]
fn restart_many_apply_one() {
    let svcs = vec![mock_svc("foo", "bar", 123, 456), mock_svc("baz", "quux", 12321, 45654)];

    let applied = mock_svc("foo", "bar", 333, 444);
    let mut state = State::default();

    let mut ops = ops_of(Event::Apply(Resource::Service(svcs[0].clone())));
    ops.extend(ops_of(Event::Apply(Resource::Service(svcs[1].clone()))));
    ops.extend(ops_of(Event::Apply(Resource::Service(applied.clone()))));
    apply(ops, &mut state);

    assert!(!state.is_empty());
    assert!(!state.get::<Service>().contains(&svcs[0]));
    assert!(state.get::<Service>().contains(&applied));
}

#[test]
fn with_diff() {
    let svc1 = mock_svc("foo", "bar", 333, 444);
    let svc2 = mock_svc("foo", "bar", 123, 321);

    let node1 = Node { name: "node0".into(), addr: "1.2.3.4".into(), is_active: true };

    let prev = State::default().with(vec![node1.clone()]).with(vec![svc1.clone()]);

    let cur = prev.clone().with(vec![svc2.clone()]).with(Vec::<Node>::new());

    let (added, removed) = cur.diff(&prev);
    assert_eq!(added, State::default().with(vec![svc2]));
    assert_eq!(removed, State::default().with(vec![svc1]).with(vec![node1]));
}

#[test]
fn add_replaces_same_identity() {
    let mut state = State::default().with(vec![mock_svc("a", "ns", 1, 2), mock_svc("b", "ns", 3, 4)]);
    let newer = mock_svc("a", "ns", 5, 6);
    apply(vec![epok::Op::ResourceAdd(Resource::Service(newer.clone()))], &mut state);
    let svcs = state.get::<Service>();
    assert_eq!(svcs.len(), 2);
    assert!(svcs.contains(&newer));
    assert!(!svcs.contains(&mock_svc("a", "ns", 1, 2)));
}

#[test]
fn inactive_apply_only_removes() {
    let mut state = State::default().with(vec![mock_svc("a", "ns", 1, 2)]);
    let mut silent = mock_svc("a", "ns", 1, 2);
    silent.external_ports = ExternalPorts { specs: Vec::new() };
    let ops = ops_of(Event::Apply(Resource::Service(silent)));
    assert_eq!(ops.len(), 1);
    apply(ops, &mut state);
    assert!(state.is_empty());
}

#[test]
fn markers_bring_no_ops() {
    assert!(ops_of(Event::Init).is_empty());
    assert!(ops_of(Event::InitDone).is_empty());
}

#[test]
fn parse_failure_brings_no_ops() {
    let ev: Event<Result<Resource, String>> = Event::Apply(Err("bad".to_string()));
    assert!(Ops::from_parsed(ev).0.is_empty());
    let ok: Event<Result<Resource, String>> =
        Event::InitApply(Ok(Resource::Service(mock_svc("a", "ns", 1, 2))));
    assert_eq!(Ops::from_parsed(ok).0.len(), 2);
}

#[test]
fn remove_is_by_identity_only() {
    let mut state = State::default()
        .with(vec![Node { name: "foo".into(), addr: "1.1.1.1".into(), is_active: true }])
        .with(vec![Interface::new("foo")]);
    apply(vec![epok::Op::ResourceRemove("foo".to_string())], &mut state);
    assert!(state.is_empty());
}

#[test]
fn diff_restores_state() {
    let a = State::default().with(vec![mock_svc("a", "ns", 1, 2), mock_svc("b", "ns", 3, 4)]);
    let b = State::default().with(vec![mock_svc("b", "ns", 3, 4), mock_svc("c", "ns", 5, 6)]);
    let (added, removed) = a.diff(&b);
    let mut rebuilt = b.clone();
    for r in added.resources() {
        apply(vec![epok::Op::ResourceAdd(r.clone())], &mut rebuilt);
    }
    for r in removed.resources() {
        if !a.contains(r) {
            apply(vec![epok::Op::ResourceRemove(r.id())], &mut rebuilt);
        }
    }
    assert_eq!(rebuilt, a);
}
