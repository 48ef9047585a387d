//! Cluster objects as plain values, and how they become resources.

use vstd::prelude::*;

use super::entities::{opt_view, Interface, Node, Pod, Service, ServiceView, NodeView, PodView, fqn_of, fqn_spec};
use super::ports::{parse_ports_spec, ExternalPorts};
use super::resource::{Resource, ResourceView};

verus! {

/// Why an object could not become a resource.
#[derive(Debug)]
pub enum Error {
    /// A service whose port annotation is malformed.
    ServiceParseError { inner: String, annotation: String, service_id: String },
    /// A node without a usable address.
    NodeParseError { inner: String, node_id: String },
    /// A pod that is not scheduled yet: no address.
    SkipPod { inner: String, pod_id: String },
    /// A pod whose port annotation is malformed.
    AnnotationParseError { inner: String, annotation: String },
}

/// What the controller reads of an object's metadata.
#[derive(Debug)]
pub struct ObjectMeta {
    pub name: String,
    pub namespace: Option<String>,
    pub annotations: Vec<(String, String)>,
    pub labels: Vec<(String, String)>,
}

/// A typed entry of a status list: an address or a condition.
#[derive(Debug)]
pub struct StatusEntry {
    pub type_: String,
    pub value: String,
}

#[derive(Debug)]
pub struct NodeStatus {
    pub addresses: Option<Vec<StatusEntry>>,
    pub conditions: Option<Vec<StatusEntry>>,
}

#[derive(Debug)]
pub struct PodStatus {
    pub pod_ip: Option<String>,
    pub conditions: Option<Vec<StatusEntry>>,
}

#[derive(Debug)]
pub struct CoreService {
    pub metadata: ObjectMeta,
}

#[derive(Debug)]
pub struct CoreNode {
    pub metadata: ObjectMeta,
    pub status: Option<NodeStatus>,
}

#[derive(Debug)]
pub struct CorePod {
    pub metadata: ObjectMeta,
    pub status: Option<PodStatus>,
}

pub open spec fn pair_views(v: Seq<(String, String)>) -> Seq<(Seq<char>, Seq<char>)> {
    v.map_values(|p: (String, String)| (p.0@, p.1@))
}

pub open spec fn entry_views(v: Seq<StatusEntry>) -> Seq<(Seq<char>, Seq<char>)> {
    v.map_values(|e: StatusEntry| (e.type_@, e.value@))
}

/// The value of the first pair whose key is `k`.
pub open spec fn lookup(pairs: Seq<(Seq<char>, Seq<char>)>, k: Seq<char>) -> Option<Seq<char>>
    decreases pairs.len(),
{
    if pairs.len() == 0 {
        None
    } else if pairs[0].0 == k {
        Some(pairs[0].1)
    } else {
        lookup(pairs.drop_first(), k)
    }
}

pub fn lookup_exec(pairs: &Vec<(String, String)>, k: &str) -> (r: Option<String>)
    ensures
        opt_view(r) == lookup(pair_views(pairs@), k@),
{
    let ghost pv = pair_views(pairs@);
    let key = k.to_owned();
    let mut i: usize = 0;
    assert(pv.skip(0) =~= pv);
    while i < pairs.len()
        invariant
            pv == pair_views(pairs@),
            key@ == k@,
            i <= pv.len(),
            lookup(pv, k@) == lookup(pv.skip(i as int), k@),
        decreases pairs.len() - i,
    {
        assert(pv.skip(i as int)[0] == pv[i as int]);
        if pairs[i].0 == key {
            return Some(pairs[i].1.clone());
        }
        assert(pv.skip(i as int).drop_first() =~= pv.skip(i + 1));
        i = i + 1;
    }
    None
}

/// Whether some entry has the type and value given.
pub open spec fn has_entry(es: Seq<(Seq<char>, Seq<char>)>, t: Seq<char>, v: Seq<char>) -> bool {
    exists|i: int| 0 <= i < es.len() && (#[trigger] es[i]).0 == t && es[i].1 == v
}

fn has_entry_exec(es: &Vec<StatusEntry>, t: &str, v: &str) -> (r: bool)
    ensures
        r == has_entry(entry_views(es@), t@, v@),
{
    let ghost ev = entry_views(es@);
    let ts = t.to_owned();
    let vs = v.to_owned();
    let mut i: usize = 0;
    while i < es.len()
        invariant
            ev == entry_views(es@),
            ts@ == t@,
            vs@ == v@,
            i <= ev.len(),
            forall|j: int| 0 <= j < i ==> !((#[trigger] ev[j]).0 == t@ && ev[j].1 == v@),
        decreases es.len() - i,
    {
        assert(ev[i as int] == (es@[i as int].type_@, es@[i as int].value@));
        if es[i].type_ == ts && es[i].value == vs {
            return true;
        }
        i = i + 1;
    }
    false
}

pub open spec fn opt_entries(o: Option<Vec<StatusEntry>>) -> Seq<(Seq<char>, Seq<char>)> {
    match o {
        Some(v) => entry_views(v@),
        None => Seq::empty(),
    }
}

/// A node is ready when it reports the condition `Ready` as `True`.
pub open spec fn node_ready_spec(status: NodeStatus) -> bool {
    has_entry(opt_entries(status.conditions), "Ready"@, "True"@)
}

pub fn node_ready(status: &NodeStatus) -> (r: bool)
    ensures
        r == node_ready_spec(*status),
{
    match &status.conditions {
        Some(cs) => has_entry_exec(cs, "Ready", "True"),
        None => false,
    }
}

/// A node's internal address: the first address of type `InternalIP`.
pub open spec fn node_ip_spec(status: NodeStatus) -> Option<Seq<char>> {
    match status.addresses {
        Some(a) => lookup(entry_views(a@), "InternalIP"@),
        None => None,
    }
}

fn entry_lookup(es: &Vec<StatusEntry>, t: &str) -> (r: Option<String>)
    ensures
        opt_view(r) == lookup(entry_views(es@), t@),
{
    let ghost ev = entry_views(es@);
    let ts = t.to_owned();
    let mut i: usize = 0;
    assert(ev.skip(0) =~= ev);
    while i < es.len()
        invariant
            ev == entry_views(es@),
            ts@ == t@,
            i <= ev.len(),
            lookup(ev, t@) == lookup(ev.skip(i as int), t@),
        decreases es.len() - i,
    {
        assert(ev.skip(i as int)[0] == ev[i as int]);
        if es[i].type_ == ts {
            return Some(es[i].value.clone());
        }
        assert(ev.skip(i as int).drop_first() =~= ev.skip(i + 1));
        i = i + 1;
    }
    None
}

/// The node's internal address, or why there is none.
pub fn node_ip(status: &NodeStatus) -> (r: Result<String, String>)
    ensures
        r is Ok <==> node_ip_spec(*status) is Some,
        r is Ok ==> r->Ok_0@ == node_ip_spec(*status)->0,
{
    match &status.addresses {
        Some(a) => match entry_lookup(a, "InternalIP") {
            Some(ip) => Ok(ip),
            None => Err(String::from_str("failed to extract node ip")),
        },
        None => Err(String::from_str("node missing addresses")),
    }
}

/// A pod is ready when it reports the condition `Ready` as `True`.
pub open spec fn pod_ready_spec(status: PodStatus) -> bool {
    has_entry(opt_entries(status.conditions), "Ready"@, "True"@)
}

pub fn pod_ready(status: &PodStatus) -> (r: bool)
    ensures
        r == pod_ready_spec(*status),
{
    match &status.conditions {
        Some(cs) => has_entry_exec(cs, "Ready", "True"),
        None => false,
    }
}

/// The pod's address, or why there is none.
pub fn pod_ip(status: &PodStatus) -> (r: Result<String, String>)
    ensures
        r is Ok <==> status.pod_ip is Some,
        r is Ok ==> r->Ok_0@ == status.pod_ip->0@,
{
    match &status.pod_ip {
        Some(ip) => Ok(ip.clone()),
        None => Err(String::from_str("missing pod ip")),
    }
}

pub open spec fn ns_text(o: Option<String>) -> Seq<char> {
    match o {
        Some(s) => s@,
        None => Seq::empty(),
    }
}

fn ns_string(o: &Option<String>) -> (r: String)
    ensures
        r@ == ns_text(*o),
{
    match o {
        Some(s) => s.clone(),
        None => String::new(),
    }
}

/// The ports an object's annotations ask for: none without the
/// annotation, the parsed list with it, `None` when it is malformed.
pub open spec fn annotated_ports(annotations: Seq<(Seq<char>, Seq<char>)>) -> Option<Seq<PortSpec>> {
    match lookup(annotations, "epok.getbetter.ro/externalports"@) {
        Some(a) => parse_ports_spec(a),
        None => Some(Seq::empty()),
    }
}

fn annotated_ports_exec(annotations: &Vec<(String, String)>) -> (r: Result<ExternalPorts, String>)
    ensures
        r is Ok <==> annotated_ports(pair_views(annotations@)) is Some,
        r is Ok ==> r->Ok_0@ == annotated_ports(pair_views(annotations@))->0,
        r is Err ==> lookup(pair_views(annotations@), "epok.getbetter.ro/externalports"@) is Some
            && r->Err_0@ == lookup(pair_views(annotations@), "epok.getbetter.ro/externalports"@)->0,
{
    match lookup_exec(annotations, "epok.getbetter.ro/externalports") {
        Some(a) => match ExternalPorts::parse(a.as_str()) {
            Some(p) => Ok(p),
            None => Err(a),
        },
        None => Ok(ExternalPorts::empty()),
    }
}

/// The service an object describes, or `None` for a malformed annotation.
pub open spec fn service_spec(cs: CoreService) -> Option<ServiceView> {
    let anns = pair_views(cs.metadata.annotations@);
    match annotated_ports(anns) {
        Some(ports) => Some(
            ServiceView {
                name: cs.metadata.name@,
                namespace: ns_text(cs.metadata.namespace),
                ports,
                is_internal: lookup(anns, "epok.getbetter.ro/internal"@) is Some,
                allow_range: lookup(anns, "epok.getbetter.ro/allow-range"@),
            },
        ),
        None => None,
    }
}

/// The node an object describes, or `None` without an internal address.
pub open spec fn node_spec(cn: CoreNode) -> Option<NodeView> {
    let status = match cn.status {
        Some(s) => s,
        None => NodeStatus { addresses: None, conditions: None },
    };
    match node_ip_spec(status) {
        Some(addr) => Some(
            NodeView {
                name: cn.metadata.name@,
                addr,
                is_active: node_ready_spec(status) && lookup(
                    pair_views(cn.metadata.annotations@),
                    "epok.getbetter.ro/exclude"@,
                ) is None && lookup(pair_views(cn.metadata.labels@), "epok_exclude"@) is None,
            },
        ),
        None => None,
    }
}

/// The pod an object describes, or `None` when it has no address yet or a
/// malformed annotation.
pub open spec fn pod_spec(cp: CorePod) -> Option<PodView> {
    let status = match cp.status {
        Some(s) => s,
        None => PodStatus { pod_ip: None, conditions: None },
    };
    match (status.pod_ip, annotated_ports(pair_views(cp.metadata.annotations@))) {
        (Some(ip), Some(ports)) => Some(
            PodView {
                name: cp.metadata.name@,
                namespace: ns_text(cp.metadata.namespace),
                addr: ip@,
                ports,
                is_internal: false,
                is_external: false,
                is_ready: pod_ready_spec(status),
            },
        ),
        _ => None,
    }
}

use super::ports::PortSpec;

impl Resource {
    /// The service an object describes; a malformed port annotation makes
    /// it invalid.
    pub fn from_service(cs: &CoreService) -> (r: Result<Resource, Error>)
        ensures
            r is Ok <==> service_spec(*cs) is Some,
            r is Ok ==> r->Ok_0@ == ResourceView::Service(service_spec(*cs)->0),
            r is Err ==> r->Err_0 is ServiceParseError,
            r is Err ==> (r->Err_0 matches Error::ServiceParseError { annotation, service_id, .. }
                && service_id@ == fqn_spec(ns_text(cs.metadata.namespace), cs.metadata.name@)
                && Some(annotation@) == lookup(
                    pair_views(cs.metadata.annotations@),
                    "epok.getbetter.ro/externalports"@,
                )),
    {
        let meta = &cs.metadata;
        let namespace = ns_string(&meta.namespace);
        match annotated_ports_exec(&meta.annotations) {
            Ok(ports) => {
                let internal = lookup_exec(&meta.annotations, "epok.getbetter.ro/internal");
                let allow_range = lookup_exec(&meta.annotations, "epok.getbetter.ro/allow-range");
                Ok(
                    Resource::Service(
                        Service {
                            name: meta.name.clone(),
                            namespace,
                            external_ports: ports,
                            is_internal: internal.is_some(),
                            allow_range,
                        },
                    ),
                )
            },
            Err(annotation) => {
                let service_id = fqn_of(&namespace, &meta.name);
                Err(
                    Error::ServiceParseError {
                        inner: String::from_str("malformed port spec"),
                        annotation,
                        service_id,
                    },
                )
            },
        }
    }

    /// The node an object describes; one without an internal address is
    /// invalid.
    pub fn from_node(cn: &CoreNode) -> (r: Result<Resource, Error>)
        ensures
            r is Ok <==> node_spec(*cn) is Some,
            r is Ok ==> r->Ok_0@ == ResourceView::Node(node_spec(*cn)->0),
            r is Err ==> (r->Err_0 matches Error::NodeParseError { node_id, .. } && node_id@
                == cn.metadata.name@),
    {
        let meta = &cn.metadata;
        let empty = NodeStatus { addresses: None, conditions: None };
        let status = match &cn.status {
            Some(s) => s,
            None => &empty,
        };
        match node_ip(status) {
            Ok(addr) => {
                let ready = node_ready(status);
                let excluded_by_annotation = lookup_exec(
                    &meta.annotations,
                    "epok.getbetter.ro/exclude",
                ).is_some();
                let excluded_by_label = lookup_exec(&meta.labels, "epok_exclude").is_some();
                Ok(
                    Resource::Node(
                        Node {
                            name: meta.name.clone(),
                            addr,
                            is_active: ready && !excluded_by_annotation && !excluded_by_label,
                        },
                    ),
                )
            },
            Err(inner) => Err(Error::NodeParseError { inner, node_id: meta.name.clone() }),
        }
    }

    /// The pod an object describes; one without an address is skipped, one
    /// with a malformed port annotation is invalid.
    pub fn from_pod(cp: &CorePod) -> (r: Result<Resource, Error>)
        ensures
            r is Ok <==> pod_spec(*cp) is Some,
            r is Ok ==> r->Ok_0@ == ResourceView::Pod(pod_spec(*cp)->0),
            r is Err ==> match cp.status {
                Some(st) if st.pod_ip is Some => (r->Err_0 matches Error::AnnotationParseError {
                    annotation,
                    ..
                } && Some(annotation@) == lookup(
                    pair_views(cp.metadata.annotations@),
                    "epok.getbetter.ro/externalports"@,
                )),
                _ => (r->Err_0 matches Error::SkipPod { pod_id, .. } && pod_id@
                    == cp.metadata.name@),
            },
    {
        let meta = &cp.metadata;
        let empty = PodStatus { pod_ip: None, conditions: None };
        let status = match &cp.status {
            Some(s) => s,
            None => &empty,
        };
        let addr = match pod_ip(status) {
            Ok(a) => a,
            Err(inner) => {
                return Err(Error::SkipPod { inner, pod_id: meta.name.clone() });
            },
        };
        let ports = match annotated_ports_exec(&meta.annotations) {
            Ok(p) => p,
            Err(annotation) => {
                return Err(
                    Error::AnnotationParseError {
                        inner: String::from_str("malformed port spec"),
                        annotation,
                    },
                );
            },
        };
        let ready = pod_ready(status);
        Ok(
            Resource::Pod(
                Pod {
                    name: meta.name.clone(),
                    namespace: ns_string(&meta.namespace),
                    addr,
                    external_ports: ports,
                    is_internal: false,
                    is_external: false,
                    is_ready: ready,
                },
            ),
        )
    }
}

} // verus!
