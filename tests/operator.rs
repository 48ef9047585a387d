use epok::{
    Backend, DeleteFilter, ExternalPorts, Interface, MemoryBackend, Node, Operator, PortSpec, Proto, Rule,
    Service, State,
};

/// The live table in memory, by rule identity.
type TestBackend = MemoryBackend;

fn test_backend() -> TestBackend {
    MemoryBackend::new("<default>")
}

fn get_rules(operator: &Operator<TestBackend>) -> Vec<Rule> {
    operator.backend().rules().clone()
}

#[test]
fn test_trivial() {
    let backend = test_backend();
    let mut operator = Operator::new(backend);

    let res = operator.reconcile(&State::default(), &State::default());
    assert!(res.is_ok());

    let rules = get_rules(&operator);
    assert!(rules.is_empty());
}

#[test]
fn it_replaces_svc_on_port_change() {
    let backend = test_backend();
    let mut operator = Operator::new(backend);

    let state0 = empty_state();

    let state1 = state0.clone().with(vec![single_port_service(123, 456)]);
    operator.reconcile(&state1, &state0).unwrap();

    let rules = get_rules(&operator);
    assert_eq!(rules.len(), 1);
    assert_eq!(rules[0].port_spec, single_port_spec(123, 456));

    let state2 = state1.clone().with(vec![single_port_service(1234, 456)]);
    operator.reconcile(&state2, &state1).unwrap();

    let rules = get_rules(&operator);
    assert_eq!(rules.len(), 1);
    assert_eq!(rules[0].port_spec, single_port_spec(1234, 456));
}

#[test]
fn it_replaces_svc_on_internal_change() {
    let backend = test_backend();
    let mut operator = Operator::new(backend);

    let state0 = empty_state().with(vec![Interface::new("eth0").external()]);

    let svc = single_port_service(123, 456);
    let state1 = state0.clone().with(vec![svc.clone()]);
    operator.reconcile(&state1, &state0).unwrap();

    // A normal service should get a rule even for external interfaces
    let rules = get_rules(&operator);
    assert_eq!(rules.len(), 1);
    assert_eq!(rules[0].port_spec, single_port_spec(123, 456));

    // However once the service goes "internal" the rule should be gone
    let state2 = state1.clone().with(vec![svc.internal()]);
    operator.reconcile(&state2, &state1).unwrap();

    let rules = get_rules(&operator);
    assert_eq!(rules.len(), 0);

    // When we make the interface internal again, the rule should pop up
    let state3 = state2.clone().with(vec![Interface::new("eth0")]);
    operator.reconcile(&state3, &state2).unwrap();
    let rules = get_rules(&operator);
    assert_eq!(rules.len(), 1);
    assert_eq!(rules[0].port_spec, single_port_spec(123, 456));
}

#[test]
fn it_deletes_all_rules_when_no_nodes_left() {
    let backend = test_backend();
    let mut operator = Operator::new(backend);

    let state0 = empty_state();

    let state1 = state0.clone().with(vec![single_port_service(123, 456)]);
    operator.reconcile(&state1, &state0).unwrap();

    let state2 = state1.clone().with(Vec::<Node>::new());
    operator.reconcile(&state2, &state1).unwrap();

    let rules = get_rules(&operator);
    assert_eq!(rules.len(), 0);
}

#[test]
fn it_handles_service_remove_node_add_correctly() {
    let backend = test_backend();
    let mut operator = Operator::new(backend);

    let state0 = empty_state();
    let state1 = state0
        .clone()
        .with(vec![single_port_service(123, 456), single_port_service(789, 654)]);
    operator.reconcile(&state1, &state0).unwrap();

    // add a node, remove a service
    let state2 = state1
        .clone()
        .with(vec![
            Node { name: "foo".to_string(), addr: "bar".to_string(), is_active: true },
            Node { name: "foo_two".to_string(), addr: "bar_two".to_string(), is_active: true },
        ])
        .with(vec![single_port_service(789, 654)]);
    operator.reconcile(&state2, &state1).unwrap();

    let rules = get_rules(&operator);
    assert_eq!(rules.len(), 2);
    assert!(rules.iter().all(|x| x.port_spec == single_port_spec(789, 654)));
}

#[test]
fn it_removes_services() {
    let backend = test_backend();
    let mut operator = Operator::new(backend);

    let state0 = empty_state().with(vec![single_port_service(123, 456)]);
    operator.reconcile(&state0, &empty_state()).unwrap();

    let rules = get_rules(&operator);
    assert_eq!(rules.len(), 1);
    assert_eq!(rules[0].port_spec, single_port_spec(123, 456));

    let state1 = state0.clone().with(Vec::<Node>::new());
    operator.reconcile(&state1, &state0).unwrap();

    let rules = get_rules(&operator);
    assert_eq!(rules.len(), 0);
}

#[test]
fn it_supports_multiple_ports() {
    let backend = test_backend();
    let mut operator = Operator::new(backend);

    let state0 = empty_state().with(vec![single_port_service(123, 456)]);
    operator.reconcile(&state0, &empty_state()).unwrap();

    let state1 = state0.clone().with(vec![service_with_ep(ExternalPorts {
        specs: vec![PortSpec::new_tcp(123, 456), PortSpec::new_tcp(321, 654)],
    })]);
    operator.reconcile(&state1, &state0).unwrap();

    let rules = get_rules(&operator);
    assert_eq!(rules.len(), 2);
    assert_eq!(rules[0].port_spec, PortSpec::new_tcp(123, 456),);
    assert_eq!(rules[1].port_spec, PortSpec::new_tcp(321, 654),);
}

#[test]
fn it_supports_udp() {
    let backend = test_backend();
    let mut operator = Operator::new(backend);

    let state0 = empty_state().with(vec![single_port_service(123, 456)]);
    operator.reconcile(&state0, &empty_state()).unwrap();

    let rules = get_rules(&operator);
    assert_eq!(rules.len(), 1);
    assert_eq!(rules[0].port_spec, single_port_spec(123, 456));

    let state1 = state0.clone().with(vec![service_with_ep(ExternalPorts {
        specs: vec![PortSpec { host_port: 123, dest_port: 456, proto: Proto::Udp }],
    })]);

    operator.reconcile(&state1, &state0).unwrap();

    let rules = get_rules(&operator);
    assert_eq!(rules.len(), 1);

    assert_eq!(rules[0].port_spec, PortSpec { host_port: 123, dest_port: 456, proto: Proto::Udp },);
}

#[test]
fn reconcile_same_state_touches_nothing() {
    let mut operator = Operator::new(test_backend());
    let state = empty_state().with(vec![single_port_service(80, 30080)]);
    operator.reconcile(&state, &state).unwrap();
    assert!(get_rules(&operator).is_empty());
}

#[test]
fn cleanup_deletes_everything() {
    let mut operator = Operator::new(test_backend());
    let state = empty_state().with(vec![single_port_service(80, 30080)]);
    operator.reconcile(&state, &empty_state()).unwrap();
    assert_eq!(get_rules(&operator).len(), 1);
    operator.cleanup().unwrap();
    assert!(get_rules(&operator).is_empty());
}

fn empty_state() -> State {
    State::default().with(vec![Interface::new("eth0")]).with(vec![Node {
        name: "foo".to_string(),
        addr: "bar".to_string(),
        is_active: true,
    }])
}

fn single_external_port(host_port: u16, node_port: u16) -> ExternalPorts {
    ExternalPorts { specs: vec![single_port_spec(host_port, node_port)] }
}

fn single_port_spec(host_port: u16, dest_port: u16) -> PortSpec {
    PortSpec::new_tcp(host_port, dest_port)
}

fn single_port_service(host_port: u16, node_port: u16) -> Service {
    service_with_ep(single_external_port(host_port, node_port))
}

fn service_with_ep(external_ports: ExternalPorts) -> Service {
    Service {
        name: "foo".to_string(),
        namespace: "bar".to_string(),
        external_ports,
        is_internal: false,
        allow_range: None,
    }
}

#[test]
fn memory_backend_keeps_rules_by_identity() {
    let mut operator = Operator::new(epok::MemoryBackend::new("cfg"));
    let state0 = empty_state();
    let state1 = state0.clone().with(vec![single_port_service(123, 456)]);
    operator.reconcile(&state1, &state0).unwrap();
    assert_eq!(operator.backend().rules().len(), 1);
    // applying the same rules again adds nothing
    let mut backend = epok::MemoryBackend::new("cfg");
    backend.apply_rules(epok::plan(&state1)).unwrap();
    backend.apply_rules(epok::plan(&state1)).unwrap();
    assert_eq!(backend.rules().len(), 1);
    backend.delete_rules(&DeleteFilter::All).unwrap();
    assert!(backend.rules().is_empty());
    let state2 = state1.clone().with(Vec::<Node>::new());
    operator.reconcile(&state2, &state1).unwrap();
    assert!(operator.backend().rules().is_empty());
}
