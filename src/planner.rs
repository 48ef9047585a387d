//! The rule planner: from a state snapshot, the NAT rules that should exist.

use vstd::prelude::*;

use crate::hash::{short_digest, short_hash};
use crate::res::entities::{bool_string, bool_text, opt_clone, opt_view};
use crate::res::{
    Interface, Node, Pod, PortSpec, Resource, ResourceView, Service,
};
use crate::res::entities::{InterfaceView, NodeView, PodView, ServiceView};
use crate::state::{res_views, State};
use crate::text::{chars_of, decimal, text_less, text_lt, usize_text};

verus! {

/// One DNAT rule: traffic for `port_spec.host_port` arriving on `interface`
/// goes to `dest_addr:port_spec.dest_port`, for one packet in `nth + 1`
/// among `out_of` peers.
#[derive(Debug)]
pub struct Rule {
    pub dest_addr: String,
    pub allow_range: Option<String>,
    pub port_spec: PortSpec,
    pub interface: Interface,
    pub nth: usize,
    pub out_of: usize,
    pub comment: Option<String>,
    pub rule_hash: String,
}

pub struct RuleView {
    pub dest_addr: Seq<char>,
    pub allow_range: Option<Seq<char>>,
    pub port_spec: PortSpec,
    pub interface: InterfaceView,
    pub nth: nat,
    pub out_of: nat,
    pub comment: Option<Seq<char>>,
    pub rule_hash: Seq<char>,
}

impl View for Rule {
    type V = RuleView;

    open spec fn view(&self) -> RuleView {
        RuleView {
            dest_addr: self.dest_addr@,
            allow_range: opt_view(self.allow_range),
            port_spec: self.port_spec,
            interface: self.interface@,
            nth: self.nth as nat,
            out_of: self.out_of as nat,
            comment: opt_view(self.comment),
            rule_hash: self.rule_hash@,
        }
    }
}

pub open spec fn rule_views(v: Seq<Rule>) -> Seq<RuleView> {
    v.map_values(|r: Rule| r@)
}

/// `config_hash::rule_hash`: the rule's full identity.
pub open spec fn rule_id_spec(r: RuleView, config_hash: Seq<char>) -> Seq<char> {
    config_hash + "::"@ + r.rule_hash
}

impl Rule {
    pub fn rule_id(&self, config_hash: &str) -> (r: String)
        ensures
            r@ == rule_id_spec(self@, config_hash@),
    {
        let mut s = config_hash.to_owned();
        s.append("::");
        s.append(self.rule_hash.as_str());
        s
    }
}

impl Clone for Rule {
    fn clone(&self) -> (r: Self)
        ensures
            r@ == self@,
    {
        Rule {
            dest_addr: self.dest_addr.clone(),
            allow_range: opt_clone(&self.allow_range),
            port_spec: self.port_spec,
            interface: self.interface.clone(),
            nth: self.nth,
            out_of: self.out_of,
            comment: opt_clone(&self.comment),
            rule_hash: self.rule_hash.clone(),
        }
    }
}

impl PartialEq for Rule {
    fn eq(&self, other: &Self) -> (r: bool) {
        self.dest_addr == other.dest_addr && crate::res::entities::opt_eq(
            &self.allow_range,
            &other.allow_range,
        ) && self.port_spec == other.port_spec && self.interface == other.interface && self.nth
            == other.nth && self.out_of == other.out_of && crate::res::entities::opt_eq(
            &self.comment,
            &other.comment,
        ) && self.rule_hash == other.rule_hash
    }
}

impl vstd::std_specs::cmp::PartialEqSpecImpl for Rule {
    open spec fn obeys_eq_spec() -> bool {
        true
    }

    open spec fn eq_spec(&self, other: &Self) -> bool {
        self@ == other@
    }
}

impl Eq for Rule {

}

/// What a rule's placement folds into its identity: destination, index,
/// group size and interface.
pub open spec fn placement_text(
    dest: Seq<char>,
    nth: nat,
    out_of: nat,
    i: InterfaceView,
) -> Seq<char> {
    dest + "::"@ + decimal(nth) + "::"@ + decimal(out_of) + "::"@ + i.name + "::"@ + bool_text(
        i.is_external,
    )
}

pub open spec fn placement_hash(dest: Seq<char>, nth: nat, out_of: nat, i: InterfaceView) -> Seq<
    char,
> {
    short_hash(placement_text(dest, nth, out_of, i), 16)
}

fn placement_digest(dest: &String, nth: usize, out_of: usize, i: &Interface) -> (r: String)
    ensures
        r@ == placement_hash(dest@, nth as nat, out_of as nat, i@),
{
    let mut s = dest.clone();
    s.append("::");
    let a = usize_text(nth);
    s.append(a.as_str());
    s.append("::");
    let b = usize_text(out_of);
    s.append(b.as_str());
    s.append("::");
    s.append(i.name.as_str());
    s.append("::");
    let c = bool_string(i.is_external);
    s.append(c.as_str());
    short_digest(s.as_str(), 16)
}

// ---------------------------------------------------------------------
// Service rules
// ---------------------------------------------------------------------

/// The rule for one port of a service on one node and interface.
pub open spec fn service_rule(
    n: NodeView,
    nth: nat,
    out_of: nat,
    s: ServiceView,
    i: InterfaceView,
    p: PortSpec,
) -> RuleView {
    RuleView {
        dest_addr: n.addr,
        allow_range: s.allow_range,
        port_spec: p,
        interface: i,
        nth,
        out_of,
        comment: Some("service: "@ + s.fqn() + "; node: "@ + n.name),
        rule_hash: "service::"@ + s.service_hash() + "::"@ + placement_hash(n.addr, nth, out_of, i),
    }
}

pub open spec fn port_rules(
    n: NodeView,
    nth: nat,
    out_of: nat,
    s: ServiceView,
    i: InterfaceView,
    ports: Seq<PortSpec>,
) -> Seq<RuleView>
    decreases ports.len(),
{
    if ports.len() == 0 {
        Seq::empty()
    } else {
        port_rules(n, nth, out_of, s, i, ports.drop_last()).push(
            service_rule(n, nth, out_of, s, i, ports.last()),
        )
    }
}

/// No rules pair an internal service with an external interface.
pub open spec fn iface_rules(
    n: NodeView,
    nth: nat,
    out_of: nat,
    s: ServiceView,
    i: InterfaceView,
) -> Seq<RuleView> {
    if i.is_external && s.is_internal {
        Seq::empty()
    } else {
        port_rules(n, nth, out_of, s, i, s.ports)
    }
}

pub open spec fn service_iface_rules(
    n: NodeView,
    nth: nat,
    out_of: nat,
    s: ServiceView,
    ifaces: Seq<InterfaceView>,
) -> Seq<RuleView>
    decreases ifaces.len(),
{
    if ifaces.len() == 0 {
        Seq::empty()
    } else {
        service_iface_rules(n, nth, out_of, s, ifaces.drop_last()) + iface_rules(
            n,
            nth,
            out_of,
            s,
            ifaces.last(),
        )
    }
}

pub open spec fn node_rules(
    n: NodeView,
    nth: nat,
    out_of: nat,
    svcs: Seq<ServiceView>,
    ifaces: Seq<InterfaceView>,
) -> Seq<RuleView>
    decreases svcs.len(),
{
    if svcs.len() == 0 {
        Seq::empty()
    } else {
        node_rules(n, nth, out_of, svcs.drop_last(), ifaces) + service_iface_rules(
            n,
            nth,
            out_of,
            svcs.last(),
            ifaces,
        )
    }
}

/// How many of `nodes` have a name before `name`: a node's index in the
/// active node set sorted by identity.
pub open spec fn rank(name: Seq<char>, nodes: Seq<NodeView>) -> nat
    decreases nodes.len(),
{
    if nodes.len() == 0 {
        0
    } else {
        rank(name, nodes.drop_last()) + if text_lt(nodes.last().name, name) {
            1nat
        } else {
            0nat
        }
    }
}

pub open spec fn nodes_rules(
    prefix: Seq<NodeView>,
    all: Seq<NodeView>,
    svcs: Seq<ServiceView>,
    ifaces: Seq<InterfaceView>,
) -> Seq<RuleView>
    decreases prefix.len(),
{
    if prefix.len() == 0 {
        Seq::empty()
    } else {
        nodes_rules(prefix.drop_last(), all, svcs, ifaces) + node_rules(
            prefix.last(),
            rank(prefix.last().name, all),
            all.len(),
            svcs,
            ifaces,
        )
    }
}

/// The active nodes of a state, in state order.
pub open spec fn active_nodes_of(s: Seq<ResourceView>) -> Seq<NodeView>
    decreases s.len(),
{
    if s.len() == 0 {
        Seq::empty()
    } else {
        let rest = active_nodes_of(s.drop_last());
        match s.last() {
            ResourceView::Node(n) => if n.is_active {
                rest.push(n)
            } else {
                rest
            },
            _ => rest,
        }
    }
}

/// The services of a state, in state order.
pub open spec fn services_of(s: Seq<ResourceView>) -> Seq<ServiceView>
    decreases s.len(),
{
    if s.len() == 0 {
        Seq::empty()
    } else {
        let rest = services_of(s.drop_last());
        match s.last() {
            ResourceView::Service(x) => rest.push(x),
            _ => rest,
        }
    }
}

/// The interfaces of a state, in state order.
pub open spec fn interfaces_of(s: Seq<ResourceView>) -> Seq<InterfaceView>
    decreases s.len(),
{
    if s.len() == 0 {
        Seq::empty()
    } else {
        let rest = interfaces_of(s.drop_last());
        match s.last() {
            ResourceView::Interface(x) => rest.push(x),
            _ => rest,
        }
    }
}

/// The active pods of a state, in state order.
pub open spec fn active_pods_of(s: Seq<ResourceView>) -> Seq<PodView>
    decreases s.len(),
{
    if s.len() == 0 {
        Seq::empty()
    } else {
        let rest = active_pods_of(s.drop_last());
        match s.last() {
            ResourceView::Pod(x) => if x.is_ready && x.ports.len() > 0 {
                rest.push(x)
            } else {
                rest
            },
            _ => rest,
        }
    }
}

/// Every (active node, service, interface, port) combination that the
/// internal flag allows, with the node's index and the active node count.
pub open spec fn service_rules_spec(s: Seq<ResourceView>) -> Seq<RuleView> {
    let ns = active_nodes_of(s);
    nodes_rules(ns, ns, services_of(s), interfaces_of(s))
}

/// Every rule of `rs` belongs to a group of `o` peers.
pub open spec fn all_out_of(rs: Seq<RuleView>, o: nat) -> bool {
    forall|i: int| 0 <= i < rs.len() ==> (#[trigger] rs[i]).out_of == o
}

proof fn lemma_all_out_of_concat(a: Seq<RuleView>, b: Seq<RuleView>, o: nat)
    requires
        all_out_of(a, o),
        all_out_of(b, o),
    ensures
        all_out_of(a + b, o),
{
    assert forall|i: int| 0 <= i < (a + b).len() implies (#[trigger] (a + b)[i]).out_of == o by {
        if i >= a.len() {
            assert((a + b)[i] == b[i - a.len()]);
        }
    }
}

proof fn lemma_port_rules_out_of(
    n: NodeView,
    nth: nat,
    o: nat,
    s: ServiceView,
    i: InterfaceView,
    ports: Seq<PortSpec>,
)
    ensures
        all_out_of(port_rules(n, nth, o, s, i, ports), o),
    decreases ports.len(),
{
    if ports.len() > 0 {
        lemma_port_rules_out_of(n, nth, o, s, i, ports.drop_last());
    }
}

proof fn lemma_service_iface_rules_out_of(
    n: NodeView,
    nth: nat,
    o: nat,
    s: ServiceView,
    ifaces: Seq<InterfaceView>,
)
    ensures
        all_out_of(service_iface_rules(n, nth, o, s, ifaces), o),
    decreases ifaces.len(),
{
    if ifaces.len() > 0 {
        lemma_service_iface_rules_out_of(n, nth, o, s, ifaces.drop_last());
        lemma_port_rules_out_of(n, nth, o, s, ifaces.last(), s.ports);
        lemma_all_out_of_concat(
            service_iface_rules(n, nth, o, s, ifaces.drop_last()),
            iface_rules(n, nth, o, s, ifaces.last()),
            o,
        );
    }
}

proof fn lemma_node_rules_out_of(
    n: NodeView,
    nth: nat,
    o: nat,
    svcs: Seq<ServiceView>,
    ifaces: Seq<InterfaceView>,
)
    ensures
        all_out_of(node_rules(n, nth, o, svcs, ifaces), o),
    decreases svcs.len(),
{
    if svcs.len() > 0 {
        lemma_node_rules_out_of(n, nth, o, svcs.drop_last(), ifaces);
        lemma_service_iface_rules_out_of(n, nth, o, svcs.last(), ifaces);
        lemma_all_out_of_concat(
            node_rules(n, nth, o, svcs.drop_last(), ifaces),
            service_iface_rules(n, nth, o, svcs.last(), ifaces),
            o,
        );
    }
}

proof fn lemma_nodes_rules_out_of(
    prefix: Seq<NodeView>,
    all: Seq<NodeView>,
    svcs: Seq<ServiceView>,
    ifaces: Seq<InterfaceView>,
)
    ensures
        all_out_of(nodes_rules(prefix, all, svcs, ifaces), all.len()),
    decreases prefix.len(),
{
    if prefix.len() > 0 {
        lemma_nodes_rules_out_of(prefix.drop_last(), all, svcs, ifaces);
        lemma_node_rules_out_of(
            prefix.last(),
            rank(prefix.last().name, all),
            all.len(),
            svcs,
            ifaces,
        );
        lemma_all_out_of_concat(
            nodes_rules(prefix.drop_last(), all, svcs, ifaces),
            node_rules(prefix.last(), rank(prefix.last().name, all), all.len(), svcs, ifaces),
            all.len(),
        );
    }
}

/// Every service rule is balanced over all active nodes: its group size is
/// the number of active nodes, so a node leaving shrinks every group.
pub proof fn lemma_service_rules_out_of(s: Seq<ResourceView>)
    ensures
        all_out_of(service_rules_spec(s), active_nodes_of(s).len()),
{
    let ns = active_nodes_of(s);
    lemma_nodes_rules_out_of(ns, ns, services_of(s), interfaces_of(s));
}

pub open spec fn node_views(v: Seq<Node>) -> Seq<NodeView> {
    v.map_values(|x: Node| x@)
}

pub open spec fn service_views(v: Seq<Service>) -> Seq<ServiceView> {
    v.map_values(|x: Service| x@)
}

pub open spec fn interface_views(v: Seq<Interface>) -> Seq<InterfaceView> {
    v.map_values(|x: Interface| x@)
}

pub open spec fn pod_views(v: Seq<Pod>) -> Seq<PodView> {
    v.map_values(|x: Pod| x@)
}

fn active_nodes(state: &State) -> (r: Vec<Node>)
    ensures
        node_views(r@) == active_nodes_of(state@),
{
    let rs = state.resources();
    let ghost s = state@;
    let mut out: Vec<Node> = Vec::new();
    let mut i: usize = 0;
    while i < rs.len()
        invariant
            s == res_views(rs@),
            i <= s.len(),
            node_views(out@) == active_nodes_of(s.take(i as int)),
        decreases rs.len() - i,
    {
        let ghost prev = node_views(out@);
        assert(s.take(i + 1).drop_last() =~= s.take(i as int));
        assert(s.take(i + 1).last() == rs@[i as int]@);
        match &rs[i] {
            Resource::Node(n) => {
                if n.is_active {
                    out.push(n.clone());
                    assert(node_views(out@) =~= prev.push(n@));
                }
            },
            _ => {},
        }
        i = i + 1;
    }
    assert(s.take(i as int) =~= s);
    out
}

fn services(state: &State) -> (r: Vec<Service>)
    ensures
        service_views(r@) == services_of(state@),
{
    let rs = state.resources();
    let ghost s = state@;
    let mut out: Vec<Service> = Vec::new();
    let mut i: usize = 0;
    while i < rs.len()
        invariant
            s == res_views(rs@),
            i <= s.len(),
            service_views(out@) == services_of(s.take(i as int)),
        decreases rs.len() - i,
    {
        let ghost prev = service_views(out@);
        assert(s.take(i + 1).drop_last() =~= s.take(i as int));
        assert(s.take(i + 1).last() == rs@[i as int]@);
        match &rs[i] {
            Resource::Service(x) => {
                out.push(x.clone());
                assert(service_views(out@) =~= prev.push(x@));
            },
            _ => {},
        }
        i = i + 1;
    }
    assert(s.take(i as int) =~= s);
    out
}

fn interfaces(state: &State) -> (r: Vec<Interface>)
    ensures
        interface_views(r@) == interfaces_of(state@),
{
    let rs = state.resources();
    let ghost s = state@;
    let mut out: Vec<Interface> = Vec::new();
    let mut i: usize = 0;
    while i < rs.len()
        invariant
            s == res_views(rs@),
            i <= s.len(),
            interface_views(out@) == interfaces_of(s.take(i as int)),
        decreases rs.len() - i,
    {
        let ghost prev = interface_views(out@);
        assert(s.take(i + 1).drop_last() =~= s.take(i as int));
        assert(s.take(i + 1).last() == rs@[i as int]@);
        match &rs[i] {
            Resource::Interface(x) => {
                out.push(x.clone());
                assert(interface_views(out@) =~= prev.push(x@));
            },
            _ => {},
        }
        i = i + 1;
    }
    assert(s.take(i as int) =~= s);
    out
}

fn active_pods(state: &State) -> (r: Vec<Pod>)
    ensures
        pod_views(r@) == active_pods_of(state@),
{
    let rs = state.resources();
    let ghost s = state@;
    let mut out: Vec<Pod> = Vec::new();
    let mut i: usize = 0;
    while i < rs.len()
        invariant
            s == res_views(rs@),
            i <= s.len(),
            pod_views(out@) == active_pods_of(s.take(i as int)),
        decreases rs.len() - i,
    {
        let ghost prev = pod_views(out@);
        assert(s.take(i + 1).drop_last() =~= s.take(i as int));
        assert(s.take(i + 1).last() == rs@[i as int]@);
        match &rs[i] {
            Resource::Pod(x) => {
                if x.is_ready && x.has_external_ports() {
                    out.push(x.clone());
                    assert(pod_views(out@) =~= prev.push(x@));
                }
            },
            _ => {},
        }
        i = i + 1;
    }
    assert(s.take(i as int) =~= s);
    out
}

fn service_rule_exec(
    n: &Node,
    nth: usize,
    out_of: usize,
    s: &Service,
    service_hash: &String,
    i: &Interface,
    p: PortSpec,
) -> (r: Rule)
    requires
        service_hash@ == s@.service_hash(),
    ensures
        r@ == service_rule(n@, nth as nat, out_of as nat, s@, i@, p),
{
    let mut comment = String::from_str("service: ");
    let fqn = s.fqn();
    comment.append(fqn.as_str());
    comment.append("; node: ");
    comment.append(n.name.as_str());
    let mut hash = String::from_str("service::");
    hash.append(service_hash.as_str());
    hash.append("::");
    let placement = placement_digest(&n.addr, nth, out_of, i);
    hash.append(placement.as_str());
    Rule {
        dest_addr: n.addr.clone(),
        allow_range: opt_clone(&s.allow_range),
        port_spec: p,
        interface: i.clone(),
        nth,
        out_of,
        comment: Some(comment),
        rule_hash: hash,
    }
}

fn iface_rules_exec(
    n: &Node,
    nth: usize,
    out_of: usize,
    s: &Service,
    service_hash: &String,
    i: &Interface,
) -> (r: Vec<Rule>)
    requires
        service_hash@ == s@.service_hash(),
    ensures
        rule_views(r@) == iface_rules(n@, nth as nat, out_of as nat, s@, i@),
{
    let mut out: Vec<Rule> = Vec::new();
    if i.is_external && s.is_internal {
        assert(rule_views(out@) =~= Seq::<RuleView>::empty());
        return out;
    }
    let ports = &s.external_ports.specs;
    let mut k: usize = 0;
    while k < ports.len()
        invariant
            service_hash@ == s@.service_hash(),
            ports@ == s@.ports,
            k <= ports@.len(),
            rule_views(out@) == port_rules(n@, nth as nat, out_of as nat, s@, i@, ports@.take(
                k as int,
            )),
        decreases ports.len() - k,
    {
        let ghost prev = rule_views(out@);
        assert(ports@.take(k + 1).drop_last() =~= ports@.take(k as int));
        let rule = service_rule_exec(n, nth, out_of, s, service_hash, i, ports[k]);
        out.push(rule);
        assert(rule_views(out@) =~= prev.push(
            service_rule(n@, nth as nat, out_of as nat, s@, i@, ports@[k as int]),
        ));
        k = k + 1;
    }
    assert(ports@.take(k as int) =~= ports@);
    out
}

/// Appends `b` to `a`.
fn append_rules(a: &mut Vec<Rule>, b: Vec<Rule>)
    ensures
        rule_views(final(a)@) == rule_views(old(a)@) + rule_views(b@),
{
    let mut b = b;
    let ghost start = rule_views(a@);
    let ghost bv = rule_views(b@);
    a.append(&mut b);
    assert(rule_views(a@) =~= start + bv);
}

fn node_rules_exec(
    n: &Node,
    nth: usize,
    out_of: usize,
    svcs: &Vec<Service>,
    hashes: &Vec<String>,
    ifaces: &Vec<Interface>,
) -> (r: Vec<Rule>)
    requires
        hashes@.len() == svcs@.len(),
        forall|k: int| 0 <= k < svcs@.len() ==> (#[trigger] hashes@[k])@ == svcs@[k]@.service_hash(),
    ensures
        rule_views(r@) == node_rules(n@, nth as nat, out_of as nat, service_views(svcs@), interface_views(ifaces@)),
{
    let ghost sv = service_views(svcs@);
    let ghost iv = interface_views(ifaces@);
    let mut out: Vec<Rule> = Vec::new();
    let mut k: usize = 0;
    while k < svcs.len()
        invariant
            sv == service_views(svcs@),
            iv == interface_views(ifaces@),
            hashes@.len() == svcs@.len(),
            forall|k: int| 0 <= k < svcs@.len() ==> (#[trigger] hashes@[k])@ == svcs@[k]@.service_hash(),
            k <= svcs@.len(),
            rule_views(out@) == node_rules(n@, nth as nat, out_of as nat, sv.take(k as int), iv),
        decreases svcs.len() - k,
    {
        assert(sv.take(k + 1).drop_last() =~= sv.take(k as int));
        assert(sv.take(k + 1).last() == svcs@[k as int]@);
        let mut part: Vec<Rule> = Vec::new();
        let mut j: usize = 0;
        while j < ifaces.len()
            invariant
                iv == interface_views(ifaces@),
                hashes@.len() == svcs@.len(),
                k < svcs@.len(),
                hashes@[k as int]@ == svcs@[k as int]@.service_hash(),
                j <= ifaces@.len(),
                rule_views(part@) == service_iface_rules(n@, nth as nat, out_of as nat, svcs@[k as int]@, iv.take(j as int)),
            decreases ifaces.len() - j,
        {
            assert(iv.take(j + 1).drop_last() =~= iv.take(j as int));
            assert(iv.take(j + 1).last() == ifaces@[j as int]@);
            let more = iface_rules_exec(n, nth, out_of, &svcs[k], &hashes[k], &ifaces[j]);
            append_rules(&mut part, more);
            j = j + 1;
        }
        assert(iv.take(j as int) =~= iv);
        append_rules(&mut out, part);
        k = k + 1;
    }
    assert(sv.take(k as int) =~= sv);
    out
}

fn rank_exec(name: &String, nodes: &Vec<Node>) -> (r: usize)
    ensures
        r as nat == rank(name@, node_views(nodes@)),
{
    let ghost nv = node_views(nodes@);
    let me = chars_of(name.as_str());
    let mut count: usize = 0;
    let mut k: usize = 0;
    while k < nodes.len()
        invariant
            nv == node_views(nodes@),
            me@ == name@,
            k <= nodes@.len(),
            count <= k,
            count as nat == rank(name@, nv.take(k as int)),
        decreases nodes.len() - k,
    {
        assert(nv.take(k + 1).drop_last() =~= nv.take(k as int));
        assert(nv.take(k + 1).last() == nodes@[k as int]@);
        let other = chars_of(nodes[k].name.as_str());
        if text_less(&other, &me) {
            count = count + 1;
        }
        k = k + 1;
    }
    assert(nv.take(k as int) =~= nv);
    count
}

/// The service rules that should exist for `state`.
pub fn make_rules(state: &State) -> (r: Vec<Rule>)
    ensures
        rule_views(r@) == service_rules_spec(state@),
{
    make_rules_for(state, state, state)
}

/// The service rules for the active nodes of `nodes`, the services of
/// `services` and the interfaces of `ifaces`.
pub fn make_rules_for(state_nodes: &State, state_services: &State, state_ifaces: &State) -> (r: Vec<
    Rule,
>)
    ensures
        rule_views(r@) == nodes_rules(
            active_nodes_of(state_nodes@),
            active_nodes_of(state_nodes@),
            services_of(state_services@),
            interfaces_of(state_ifaces@),
        ),
{
    let nodes = active_nodes(state_nodes);
    let svcs = services(state_services);
    let ifaces = interfaces(state_ifaces);
    let ghost nv = node_views(nodes@);
    let mut hashes: Vec<String> = Vec::new();
    let mut k: usize = 0;
    while k < svcs.len()
        invariant
            k <= svcs@.len(),
            hashes@.len() == k,
            forall|j: int| 0 <= j < k ==> (#[trigger] hashes@[j])@ == svcs@[j]@.service_hash(),
        decreases svcs.len() - k,
    {
        hashes.push(svcs[k].service_hash());
        k = k + 1;
    }
    let out_of = nodes.len();
    let mut out: Vec<Rule> = Vec::new();
    let mut i: usize = 0;
    while i < nodes.len()
        invariant
            nv == node_views(nodes@),
            nv == active_nodes_of(state_nodes@),
            service_views(svcs@) == services_of(state_services@),
            interface_views(ifaces@) == interfaces_of(state_ifaces@),
            out_of == nodes@.len(),
            hashes@.len() == svcs@.len(),
            forall|j: int| 0 <= j < svcs@.len() ==> (#[trigger] hashes@[j])@ == svcs@[j]@.service_hash(),
            i <= nodes@.len(),
            rule_views(out@) == nodes_rules(nv.take(i as int), nv, services_of(state_services@), interfaces_of(state_ifaces@)),
        decreases nodes.len() - i,
    {
        assert(nv.take(i + 1).drop_last() =~= nv.take(i as int));
        assert(nv.take(i + 1).last() == nodes@[i as int]@);
        let nth = rank_exec(&nodes[i].name, &nodes);
        let more = node_rules_exec(&nodes[i], nth, out_of, &svcs, &hashes, &ifaces);
        append_rules(&mut out, more);
        i = i + 1;
    }
    assert(nv.take(i as int) =~= nv);
    out
}

// ---------------------------------------------------------------------
// Pod rules
// ---------------------------------------------------------------------

/// The pod narrowed to one of its ports.
pub open spec fn single_port(p: PodView, s: PortSpec) -> PodView {
    PodView { ports: seq![s], ..p }
}

pub open spec fn pod_port_entries(p: PodView, ports: Seq<PortSpec>) -> Seq<PodView>
    decreases ports.len(),
{
    if ports.len() == 0 {
        Seq::empty()
    } else {
        pod_port_entries(p, ports.drop_last()).push(single_port(p, ports.last()))
    }
}

/// Each pod once per port it asks for, narrowed to that port, in order.
pub open spec fn pod_entries(pods: Seq<PodView>) -> Seq<PodView>
    decreases pods.len(),
{
    if pods.len() == 0 {
        Seq::empty()
    } else {
        pod_entries(pods.drop_last()) + pod_port_entries(pods.last(), pods.last().ports)
    }
}

/// Two entries compete for the same host port and protocol.
pub open spec fn same_bucket(a: PodView, b: PodView) -> bool {
    a.ports[0].host_port == b.ports[0].host_port && a.ports[0].proto == b.ports[0].proto
}

/// How many of `es` share `e`'s bucket.
pub open spec fn bucket_count(e: PodView, es: Seq<PodView>) -> nat
    decreases es.len(),
{
    if es.len() == 0 {
        0
    } else {
        bucket_count(e, es.drop_last()) + if same_bucket(es.last(), e) {
            1nat
        } else {
            0nat
        }
    }
}

/// The rule for one pod entry on one interface.
pub open spec fn pod_rule(e: PodView, nth: nat, out_of: nat, i: InterfaceView) -> RuleView {
    RuleView {
        dest_addr: e.addr,
        allow_range: None,
        port_spec: e.ports[0],
        interface: i,
        nth,
        out_of,
        comment: Some("pod: "@ + e.name + "; namespace: "@ + e.namespace),
        rule_hash: "pod::"@ + e.pod_hash() + "::"@ + placement_hash(e.addr, nth, out_of, i),
    }
}

/// Whether entry `a` at position `j` comes before entry `e` at position `k`:
/// pods in order of name, a pod's ports in annotation order.
pub open spec fn entry_before(a: PodView, j: int, e: PodView, k: int) -> bool {
    text_lt(a.name, e.name) || (a.name == e.name && j < k)
}

/// How many entries of `es` share the bucket of `e`, the entry at position
/// `k`, and come before it.
pub open spec fn bucket_rank(e: PodView, k: int, es: Seq<PodView>) -> nat
    decreases es.len(),
{
    if es.len() == 0 {
        0
    } else {
        bucket_rank(e, k, es.drop_last()) + if same_bucket(es.last(), e) && entry_before(
            es.last(),
            es.len() - 1,
            e,
            k,
        ) {
            1nat
        } else {
            0nat
        }
    }
}

/// Rules for the entries of `prefix` on `i`: an entry's index is the number
/// of entries before it in its bucket, its group size the bucket's size.
pub open spec fn entry_rules(prefix: Seq<PodView>, all: Seq<PodView>, i: InterfaceView) -> Seq<
    RuleView,
>
    decreases prefix.len(),
{
    if prefix.len() == 0 {
        Seq::empty()
    } else {
        entry_rules(prefix.drop_last(), all, i).push(
            pod_rule(
                prefix.last(),
                bucket_rank(prefix.last(), prefix.len() - 1, all),
                bucket_count(prefix.last(), all),
                i,
            ),
        )
    }
}

pub open spec fn pod_rules_for(ifaces: Seq<InterfaceView>, es: Seq<PodView>) -> Seq<RuleView>
    decreases ifaces.len(),
{
    if ifaces.len() == 0 {
        Seq::empty()
    } else {
        pod_rules_for(ifaces.drop_last(), es) + entry_rules(es, es, ifaces.last())
    }
}

/// Every (active pod port, interface) pair, balanced within its bucket.
pub open spec fn pod_rules_spec(s: Seq<ResourceView>) -> Seq<RuleView> {
    pod_rules_for(interfaces_of(s), pod_entries(active_pods_of(s)))
}

/// The full target rule set of a state: service rules, then pod rules.
pub open spec fn plan_spec(s: Seq<ResourceView>) -> Seq<RuleView> {
    service_rules_spec(s) + pod_rules_spec(s)
}

fn pod_entries_exec(pods: &Vec<Pod>) -> (r: Vec<Pod>)
    ensures
        pod_views(r@) == pod_entries(pod_views(pods@)),
        forall|k: int| 0 <= k < r@.len() ==> (#[trigger] r@[k])@.ports.len() == 1,
{
    let ghost pv = pod_views(pods@);
    let mut out: Vec<Pod> = Vec::new();
    let mut i: usize = 0;
    while i < pods.len()
        invariant
            pv == pod_views(pods@),
            i <= pods@.len(),
            pod_views(out@) == pod_entries(pv.take(i as int)),
            forall|k: int| 0 <= k < out@.len() ==> (#[trigger] out@[k])@.ports.len() == 1,
        decreases pods.len() - i,
    {
        assert(pv.take(i + 1).drop_last() =~= pv.take(i as int));
        assert(pv.take(i + 1).last() == pods@[i as int]@);
        let ghost before = pod_views(out@);
        let p = &pods[i];
        let ports = &p.external_ports.specs;
        let mut j: usize = 0;
        while j < ports.len()
            invariant
                i < pods@.len(),
                p == &pods@[i as int],
                ports@ == p@.ports,
                j <= ports@.len(),
                pod_views(out@) == before + pod_port_entries(p@, ports@.take(j as int)),
                forall|k: int| 0 <= k < out@.len() ==> (#[trigger] out@[k])@.ports.len() == 1,
            decreases ports.len() - j,
        {
            assert(ports@.take(j + 1).drop_last() =~= ports@.take(j as int));
            let ghost mid = pod_views(out@);
            let mut q = p.clone();
            let mut single: Vec<PortSpec> = Vec::new();
            single.push(ports[j]);
            q.external_ports.specs = single;
            assert(q@.ports =~= seq![ports@[j as int]]);
            assert(q@ == single_port(p@, ports@[j as int]));
            out.push(q);
            assert(pod_views(out@) =~= mid.push(single_port(p@, ports@[j as int])));
            j = j + 1;
        }
        assert(ports@.take(j as int) =~= ports@);
        i = i + 1;
    }
    assert(pv.take(i as int) =~= pv);
    out
}

fn bucket_count_exec(e: &Pod, es: &Vec<Pod>, upto: usize) -> (r: usize)
    requires
        upto <= es@.len(),
        e@.ports.len() == 1,
        forall|k: int| 0 <= k < es@.len() ==> (#[trigger] es@[k])@.ports.len() == 1,
    ensures
        r as nat == bucket_count(e@, pod_views(es@).take(upto as int)),
{
    let ghost ev = pod_views(es@);
    let mut count: usize = 0;
    let mut k: usize = 0;
    let me = e.external_ports.specs[0];
    while k < upto
        invariant
            ev == pod_views(es@),
            upto <= es@.len(),
            me == e@.ports[0],
            forall|k: int| 0 <= k < es@.len() ==> (#[trigger] es@[k])@.ports.len() == 1,
            k <= upto,
            count <= k,
            count as nat == bucket_count(e@, ev.take(k as int)),
        decreases upto - k,
    {
        assert(ev.take(k + 1).drop_last() =~= ev.take(k as int));
        assert(ev.take(k + 1).last() == es@[k as int]@);
        assert(es@[k as int]@.ports.len() == 1);
        let other = es[k].external_ports.specs[0];
        if other.host_port == me.host_port && other.proto == me.proto {
            count = count + 1;
        }
        k = k + 1;
    }
    count
}

fn bucket_rank_exec(es: &Vec<Pod>, k: usize) -> (r: usize)
    requires
        k < es@.len(),
        forall|j: int| 0 <= j < es@.len() ==> (#[trigger] es@[j])@.ports.len() == 1,
    ensures
        r as nat == bucket_rank(es@[k as int]@, k as int, pod_views(es@)),
{
    let ghost ev = pod_views(es@);
    let ghost e = es@[k as int]@;
    let me = es[k].external_ports.specs[0];
    let my_name = chars_of(es[k].name.as_str());
    let mut count: usize = 0;
    let mut j: usize = 0;
    while j < es.len()
        invariant
            ev == pod_views(es@),
            e == es@[k as int]@,
            k < es@.len(),
            me == e.ports[0],
            my_name@ == e.name,
            forall|j: int| 0 <= j < es@.len() ==> (#[trigger] es@[j])@.ports.len() == 1,
            j <= es@.len(),
            count <= j,
            count as nat == bucket_rank(e, k as int, ev.take(j as int)),
        decreases es.len() - j,
    {
        assert(ev.take(j + 1).drop_last() =~= ev.take(j as int));
        assert(ev.take(j + 1).last() == es@[j as int]@);
        assert(es@[j as int]@.ports.len() == 1);
        let other = es[j].external_ports.specs[0];
        if other.host_port == me.host_port && other.proto == me.proto {
            let name = chars_of(es[j].name.as_str());
            let before = text_less(&name, &my_name) || (es[j].name == es[k].name && j < k);
            if before {
                count = count + 1;
            }
        }
        j = j + 1;
    }
    assert(ev.take(j as int) =~= ev);
    count
}

fn pod_rule_exec(e: &Pod, nth: usize, out_of: usize, i: &Interface) -> (r: Rule)
    requires
        e@.ports.len() == 1,
    ensures
        r@ == pod_rule(e@, nth as nat, out_of as nat, i@),
{
    let mut comment = String::from_str("pod: ");
    comment.append(e.name.as_str());
    comment.append("; namespace: ");
    comment.append(e.namespace.as_str());
    let mut hash = String::from_str("pod::");
    let ph = e.pod_hash();
    hash.append(ph.as_str());
    hash.append("::");
    let placement = placement_digest(&e.addr, nth, out_of, i);
    hash.append(placement.as_str());
    Rule {
        dest_addr: e.addr.clone(),
        allow_range: None,
        port_spec: e.external_ports.specs[0],
        interface: i.clone(),
        nth,
        out_of,
        comment: Some(comment),
        rule_hash: hash,
    }
}

/// The pod rules that should exist for `state`.
pub fn make_pod_rules(state: &State) -> (r: Vec<Rule>)
    ensures
        rule_views(r@) == pod_rules_spec(state@),
{
    let pods = active_pods(state);
    let es = pod_entries_exec(&pods);
    let ifaces = interfaces(state);
    let ghost ev = pod_views(es@);
    let ghost iv = interface_views(ifaces@);
    let mut out: Vec<Rule> = Vec::new();
    let mut i: usize = 0;
    while i < ifaces.len()
        invariant
            ev == pod_views(es@),
            ev == pod_entries(active_pods_of(state@)),
            iv == interface_views(ifaces@),
            iv == interfaces_of(state@),
            forall|k: int| 0 <= k < es@.len() ==> (#[trigger] es@[k])@.ports.len() == 1,
            i <= ifaces@.len(),
            rule_views(out@) == pod_rules_for(iv.take(i as int), ev),
        decreases ifaces.len() - i,
    {
        assert(iv.take(i + 1).drop_last() =~= iv.take(i as int));
        assert(iv.take(i + 1).last() == ifaces@[i as int]@);
        let ghost before = rule_views(out@);
        let mut k: usize = 0;
        while k < es.len()
            invariant
                ev == pod_views(es@),
                forall|k: int| 0 <= k < es@.len() ==> (#[trigger] es@[k])@.ports.len() == 1,
                i < ifaces@.len(),
                k <= es@.len(),
                rule_views(out@) == before + entry_rules(ev.take(k as int), ev, ifaces@[i as int]@),
            decreases es.len() - k,
        {
            let ghost mid = rule_views(out@);
            assert(ev.take(k + 1).drop_last() =~= ev.take(k as int));
            assert(ev.take(k + 1).last() == es@[k as int]@);
            assert(ev.take(es@.len() as int) =~= ev);
            let nth = bucket_rank_exec(&es, k);
            let total = bucket_count_exec(&es[k], &es, es.len());
            let rule = pod_rule_exec(&es[k], nth, total, &ifaces[i]);
            out.push(rule);
            assert(rule_views(out@) =~= mid.push(
                pod_rule(es@[k as int]@, nth as nat, total as nat, ifaces@[i as int]@),
            ));
            k = k + 1;
        }
        assert(ev.take(k as int) =~= ev);
        i = i + 1;
    }
    assert(iv.take(i as int) =~= iv);
    out
}

/// The full target rule set for `state`: service rules, then pod rules.
pub fn plan(state: &State) -> (r: Vec<Rule>)
    ensures
        rule_views(r@) == plan_spec(state@),
{
    let mut rules = make_rules(state);
    let pod_rules = make_pod_rules(state);
    append_rules(&mut rules, pod_rules);
    rules
}

} // verus!
