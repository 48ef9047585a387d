use epok::{
    append_to_delete, apply, BatchOpts, CommandRunner, DebounceAction, DebounceEvent, Debouncer,
    Event, ExternalPorts, Interface, IptablesBackend, Node, Operator, Ops, PortSpec, Resource,
    Service, ShellBackend, State, RULE_MARKER,
};

/// A host whose NAT table lives in memory, driven by the command texts.
#[derive(Default)]
struct SimHost {
    table: Vec<String>,
    applied: Vec<String>,
    deleted: Vec<String>,
}

impl CommandRunner for SimHost {
    fn run(&mut self, cmd: &str) -> Result<String, String> {
        if cmd.starts_with("sudo iptables-save") {
            return Ok(self.table.join("\n"));
        }
        if let Some(line) = cmd.strip_prefix("sudo iptables -w -t nat ") {
            if let Some(body) = line.strip_prefix("-D ") {
                let full = format!("-A {body}");
                self.table.retain(|l| *l != full);
                self.deleted.push(cmd.to_string());
            } else {
                self.table.push(line.to_string());
                self.applied.push(cmd.to_string());
            }
            return Ok(String::new());
        }
        Err(format!("unknown command: {cmd}"))
    }
}

type NatSim = ShellBackend<SimHost>;

fn sim(local_ip: Option<String>, table: Vec<String>) -> NatSim {
    ShellBackend::new(
        SimHost { table, applied: Vec::new(), deleted: Vec::new() },
        BatchOpts { batch_commands: false, batch_size: 8192 },
        local_ip,
        None,
    )
}

fn host(op: &Operator<NatSim>) -> &SimHost {
    op.backend().runner()
}

/// Keeps the live table and forgets the commands issued so far.
fn restart(op: &mut Operator<NatSim>) {
    let table = host(op).table.clone();
    *op = Operator::new(sim(None, table));
}

fn web(host_port: u16, dest_port: u16) -> Service {
    Service {
        name: "web".to_string(),
        namespace: "default".to_string(),
        external_ports: ExternalPorts { specs: vec![PortSpec::new_tcp(host_port, dest_port)] },
        is_internal: false,
        allow_range: None,
    }
}

fn node(name: &str, addr: &str, active: bool) -> Node {
    Node { name: name.to_string(), addr: addr.to_string(), is_active: active }
}

fn base() -> State {
    State::default()
        .with(vec![Interface::new("eth0")])
        .with(vec![node("n1", "10.0.0.1", true)])
        .with(vec![web(80, 30080)])
}

#[test]
fn single_service_single_apply() {
    let mut op = Operator::new(sim(None, Vec::new()));
    op.reconcile(&base(), &State::default()).unwrap();
    let sim = host(&op);
    assert_eq!(sim.applied.len(), 1);
    assert!(sim.deleted.is_empty());
    let cmd = &sim.applied[0];
    assert!(cmd.starts_with(
        "sudo iptables -w -t nat -A PREROUTING -i eth0 -p tcp --dport 80 -m state --state NEW -m comment --comment 'service: default/web; node: n1; epok_rule_id: "
    ));
    assert!(cmd.contains("; epok_service_id: "));
    assert!(cmd.ends_with("' -j DNAT --to-destination 10.0.0.1:30080"));
    assert!(!cmd.contains("statistic"));
}

#[test]
fn second_node_applies_in_descending_order() {
    let mut op = Operator::new(sim(None, Vec::new()));
    let s1 = base();
    op.reconcile(&s1, &State::default()).unwrap();
    restart(&mut op);
    let s2 = s1.clone().with(vec![node("n1", "10.0.0.1", true), node("n2", "10.0.0.2", true)]);
    op.reconcile(&s2, &s1).unwrap();
    let sim = host(&op);
    assert_eq!(sim.applied.len(), 2);
    assert!(sim.applied[0].contains("-m statistic --mode nth --every 2 --packet 0"));
    assert!(sim.applied[0].ends_with("10.0.0.2:30080"));
    assert!(!sim.applied[1].contains("statistic"));
    assert!(sim.applied[1].ends_with("10.0.0.1:30080"));
    assert_eq!(sim.deleted.len(), 1);
    assert_eq!(sim.table.len(), 2);
}


#[test]
fn port_change_applies_one_and_deletes_one() {
    let mut op = Operator::new(sim(None, Vec::new()));
    let s1 = base().with(vec![web(80, 30080), {
        let mut other = web(443, 30443);
        other.name = "tls".to_string();
        other
    }]);
    op.reconcile(&s1, &State::default()).unwrap();
    assert_eq!(host(&op).table.len(), 2);
    restart(&mut op);
    let s2 = s1.clone().with(vec![web(8080, 30080), {
        let mut other = web(443, 30443);
        other.name = "tls".to_string();
        other
    }]);
    op.reconcile(&s2, &s1).unwrap();
    let sim = host(&op);
    assert_eq!(sim.applied.len(), 1);
    assert!(sim.applied[0].contains("--dport 8080"));
    assert_eq!(sim.deleted.len(), 1);
    assert!(sim.deleted[0].contains("--dport 80 "));
    assert_eq!(sim.table.len(), 2);
    assert!(sim.table.iter().any(|l| l.contains("--dport 443")));
}

#[test]
fn node_not_ready_replans_with_fewer_nodes() {
    let mut op = Operator::new(sim(None, Vec::new()));
    let s1 = base().with(vec![node("n1", "10.0.0.1", true), node("n2", "10.0.0.2", true)]);
    op.reconcile(&s1, &State::default()).unwrap();
    assert_eq!(host(&op).table.len(), 2);
    restart(&mut op);

    let mut s2 = s1.clone();
    let ops = Ops::from_event(Event::Apply(Resource::Node(node("n2", "10.0.0.2", false)))).0;
    apply(ops, &mut s2);
    assert_eq!(s2.get::<Node>().len(), 1);

    op.reconcile(&s2, &s1).unwrap();
    let sim = host(&op);
    assert_eq!(sim.applied.len(), 1);
    assert!(!sim.applied[0].contains("statistic"));
    assert_eq!(sim.deleted.len(), 2);
    assert_eq!(sim.table.len(), 1);
    assert!(sim.table[0].ends_with("10.0.0.1:30080"));
}

#[test]
fn cleanup_deletes_exactly_marked_rules() {
    let mut table = Vec::new();
    for i in 0..5 {
        table.push(format!(
            "-A PREROUTING -i eth0 -p tcp --dport {} -m comment --comment 'x; epok_rule_id: id{}; epok_service_id: s' -j DNAT --to-destination 10.0.0.1:3000{}",
            8000 + i,
            i,
            i
        ));
    }
    table.push("-A PREROUTING -i eth0 -p tcp --dport 22 -j ACCEPT".to_string());
    table.push("-A OUTPUT -o lo -j RETURN".to_string());
    let mut op = Operator::new(sim(None, table));
    op.cleanup().unwrap();
    let sim = host(&op);
    assert_eq!(sim.deleted.len(), 5);
    assert_eq!(sim.table.len(), 2);
    assert!(sim.table.iter().all(|l| !l.contains(RULE_MARKER)));
}

#[test]
fn debounce_three_items_one_batch() {
    let mut d: Debouncer<u32> = Debouncer::new(128);
    for i in 1..=3 {
        assert!(matches!(d.step(DebounceEvent::Item(i)), DebounceAction::ArmTimer));
    }
    match d.step(DebounceEvent::TimerFired) {
        DebounceAction::Emit(b) => assert_eq!(b, vec![1, 2, 3]),
        _ => panic!("expected a batch"),
    }
    assert!(matches!(d.step(DebounceEvent::TimerFired), DebounceAction::Wait));
    assert!(matches!(d.step(DebounceEvent::UpstreamEnded), DebounceAction::Finish));
}

#[test]
fn debounce_capacity_emits_at_once() {
    let mut d: Debouncer<u32> = Debouncer::new(2);
    assert!(matches!(d.step(DebounceEvent::Item(1)), DebounceAction::ArmTimer));
    match d.step(DebounceEvent::Item(2)) {
        DebounceAction::Emit(b) => assert_eq!(b, vec![1, 2]),
        _ => panic!("expected a batch"),
    }
    assert!(matches!(d.step(DebounceEvent::Item(3)), DebounceAction::ArmTimer));
    assert!(matches!(d.step(DebounceEvent::UpstreamEnded), DebounceAction::Wait));
    match d.step(DebounceEvent::TimerFired) {
        DebounceAction::Emit(b) => assert_eq!(b, vec![3]),
        _ => panic!("expected a batch"),
    }
    assert!(matches!(d.step(DebounceEvent::UpstreamEnded), DebounceAction::Finish));
}

#[test]
fn reconcile_same_state_issues_no_commands() {
    let mut op = Operator::new(sim(None, Vec::new()));
    let s = base();
    op.reconcile(&s, &s).unwrap();
    assert!(host(&op).applied.is_empty());
    assert!(host(&op).deleted.is_empty());
}

#[test]
fn delete_command_drops_chain_flag() {
    assert_eq!(
        append_to_delete("-A PREROUTING -i eth0 -p tcp --dport 80 -j DNAT"),
        "sudo iptables -w -t nat -D PREROUTING -i eth0 -p tcp --dport 80 -j DNAT"
    );
}

#[test]
fn loopback_rule_uses_output_chain() {
    let s = State::default()
        .with(vec![Interface::new("lo")])
        .with(vec![node("n1", "10.0.0.1", true)])
        .with(vec![web(80, 30080)]);
    let mut op = Operator::new(sim(Some("192.168.1.5".to_string()), Vec::new()));
    op.reconcile(&s, &State::default()).unwrap();
    let sim = host(&op);
    assert_eq!(sim.applied.len(), 1);
    assert!(sim.applied[0].starts_with(
        "sudo iptables -w -t nat -A OUTPUT -o lo -d 192.168.1.5 -p tcp --dport 80 -m state --state NEW -m comment"
    ));
    let plain = IptablesBackend::new(BatchOpts { batch_commands: false, batch_size: 10 }, None, None);
    assert!(!plain.can_emit(&epok::plan(&s)));
}

#[test]
fn udp_and_allow_range_selector() {
    let mut svc = web(53, 30053);
    svc.external_ports = ExternalPorts {
        specs: vec![PortSpec { host_port: 53, dest_port: 30053, proto: epok::Proto::Udp }],
    };
    svc.allow_range = Some("10.1.0.0/16".to_string());
    let s = State::default()
        .with(vec![Interface::new("eth1")])
        .with(vec![node("n1", "10.0.0.1", true)])
        .with(vec![svc]);
    let mut op = Operator::new(sim(Some("1.2.3.4".to_string()), Vec::new()));
    op.reconcile(&s, &State::default()).unwrap();
    let cmd = &host(&op).applied[0];
    assert!(cmd.contains("-A PREROUTING -i eth1 -s 10.1.0.0/16 -d 1.2.3.4 -p udp --dport 53 -m comment"));
    assert!(!cmd.contains("--state NEW"));
}

#[test]
fn batching_joins_commands() {
    let s = base().with(vec![node("n1", "10.0.0.1", true), node("n2", "10.0.0.2", true)]);
    let mut be = IptablesBackend::new(BatchOpts { batch_commands: true, batch_size: 100_000 }, None, None);
    be.set_rule_state(None);
    let cmds = be.apply_commands(&epok::plan(&s));
    assert_eq!(cmds.len(), 1);
    assert_eq!(cmds[0].matches("sudo iptables").count(), 2);
    assert!(cmds[0].contains("; sudo iptables"));
}

#[test]
fn config_hash_folds_options() {
    let a = IptablesBackend::new(BatchOpts { batch_commands: false, batch_size: 1 }, None, None);
    let b = IptablesBackend::new(
        BatchOpts { batch_commands: false, batch_size: 1 },
        Some("1.2.3.4".to_string()),
        None,
    );
    assert_eq!(a.config_hash().len(), 32);
    assert_ne!(a.config_hash(), b.config_hash());
    assert_eq!(a.config_hash(), a.config_hash());
}

#[test]
fn rule_ids_are_stable_across_runs() {
    let ids = |s: &State| -> Vec<String> {
        epok::plan(s).iter().map(|r| r.rule_id("cfg")).collect()
    };
    let s = base().with(vec![node("n1", "10.0.0.1", true), node("n2", "10.0.0.2", true)]);
    let again = base().with(vec![node("n2", "10.0.0.2", true), node("n1", "10.0.0.1", true)]);
    let mut a = ids(&s);
    let mut b = ids(&again);
    a.sort();
    b.sort();
    assert_eq!(a, b);
    assert!(a.iter().all(|id| id.starts_with("cfg::service::")));
}

#[test]
fn config_hash_matches_debug_form() {
    let b = IptablesBackend::new(
        BatchOpts { batch_commands: false, batch_size: 1 },
        Some("1.2.3.4".to_string()),
        None,
    );
    let expected = sha256::digest("Some(\"1.2.3.4\")::None")[..32].to_string();
    assert_eq!(b.config_hash(), expected);
}

#[test]
fn rule_hash_matches_identity_scheme() {
    let rules = epok::plan(&base());
    assert_eq!(rules.len(), 1);
    let svc_hash = web(80, 30080).service_hash();
    let placement = sha256::digest("10.0.0.1::0::1::eth0::false")[..16].to_string();
    assert_eq!(rules[0].rule_hash, format!("service::{svc_hash}::{placement}"));
    assert_eq!(rules[0].rule_id("cfg"), format!("cfg::service::{svc_hash}::{placement}"));
    assert_eq!(rules[0].comment.as_deref(), Some("service: default/web; node: n1"));
}

#[test]
fn restart_applies_nothing_new() {
    let mut op = Operator::new(sim(None, Vec::new()));
    let s = base().with(vec![node("n1", "10.0.0.1", true), node("n2", "10.0.0.2", true)]);
    op.reconcile(&s, &State::default()).unwrap();
    assert_eq!(host(&op).table.len(), 2);
    restart(&mut op);
    op.reconcile(&s, &State::default()).unwrap();
    assert!(host(&op).applied.is_empty());
    assert!(host(&op).deleted.is_empty());
    assert_eq!(host(&op).table.len(), 2);
}

#[test]
fn public_statement_matches_scenario() {
    let be = IptablesBackend::new(BatchOpts { batch_commands: false, batch_size: 1 }, None, None);
    let rules = epok::plan(&base());
    let st = be.iptables_statement(&rules[0]);
    let id = rules[0].rule_id(&be.config_hash());
    assert!(st.starts_with("sudo iptables -w -t nat -A PREROUTING -i eth0 -p tcp --dport 80 -m state --state NEW -m comment --comment '"));
    assert!(st.contains(&format!("; epok_rule_id: {id}; epok_service_id: ")));
    assert!(!st.contains("-m statistic"));
}

#[test]
fn snapshot_keeps_only_marked_lines() {
    let mut be = IptablesBackend::new(BatchOpts { batch_commands: false, batch_size: 1 }, None, None);
    be.set_rule_state(Some(
        "-A PREROUTING -j ACCEPT\n-A PREROUTING -m comment --comment 'epok_rule_id: a'\n-A OUTPUT -j RETURN\n-A OUTPUT -m comment --comment 'epok_rule_id: b'".to_string(),
    ));
    assert_eq!(
        be.rule_state(),
        "-A PREROUTING -m comment --comment 'epok_rule_id: a'\n-A OUTPUT -m comment --comment 'epok_rule_id: b'"
    );
    be.set_rule_state(None);
    assert_eq!(be.rule_state(), "");
}

/// A host on which every change to the NAT table fails.
struct Failing;

impl CommandRunner for Failing {
    fn run(&mut self, cmd: &str) -> Result<String, String> {
        if cmd.starts_with("sudo iptables-save") {
            Ok(String::new())
        } else {
            Err("exit status 1".to_string())
        }
    }
}

#[test]
fn failed_apply_stops_the_pass() {
    let backend = ShellBackend::new(Failing, BatchOpts { batch_commands: false, batch_size: 1 }, None, None);
    let mut op = Operator::new(backend);
    match op.reconcile(&base(), &State::default()) {
        Err(epok::Error::OperatorError(inner)) => {
            assert!(matches!(*inner, epok::Error::BackendError(_)));
        }
        other => panic!("unexpected {other:?}"),
    }
}

#[test]
fn loopback_without_local_ip_is_an_invariant_violation() {
    let s = State::default()
        .with(vec![Interface::new("lo")])
        .with(vec![node("n1", "10.0.0.1", true)])
        .with(vec![web(80, 30080)]);
    let mut op = Operator::new(sim(None, Vec::new()));
    match op.reconcile(&s, &State::default()) {
        Err(epok::Error::OperatorError(inner)) => {
            assert!(matches!(*inner, epok::Error::InvariantViolation(_)));
        }
        other => panic!("unexpected {other:?}"),
    }
    assert!(host(&op).applied.is_empty());
}
