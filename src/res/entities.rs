//! Interfaces, nodes, services and pods, with their identities and liveness.

use vstd::prelude::*;

use super::ports::{ExternalPorts, PortSpec, port_texts};
use crate::hash::{short_digest, short_hash};
use crate::text::join_spec;

verus! {

pub open spec fn bool_text(b: bool) -> Seq<char> {
    if b {
        "true"@
    } else {
        "false"@
    }
}

pub fn bool_string(b: bool) -> (r: String)
    ensures
        r@ == bool_text(b),
{
    if b {
        String::from_str("true")
    } else {
        String::from_str("false")
    }
}

/// The text of an optional string, empty when absent.
pub open spec fn opt_text(o: Option<Seq<char>>) -> Seq<char> {
    match o {
        Some(s) => s,
        None => Seq::empty(),
    }
}

pub open spec fn opt_view(o: Option<String>) -> Option<Seq<char>> {
    match o {
        Some(s) => Some(s@),
        None => None,
    }
}

pub fn opt_eq(a: &Option<String>, b: &Option<String>) -> (r: bool)
    ensures
        r == (opt_view(*a) == opt_view(*b)),
{
    match (a, b) {
        (Some(x), Some(y)) => *x == *y,
        (None, None) => true,
        _ => false,
    }
}

pub fn opt_clone(a: &Option<String>) -> (r: Option<String>)
    ensures
        opt_view(r) == opt_view(*a),
{
    match a {
        Some(x) => Some(x.clone()),
        None => None,
    }
}

/// `namespace/name`.
pub open spec fn fqn_spec(namespace: Seq<char>, name: Seq<char>) -> Seq<char> {
    namespace + "/"@ + name
}

pub fn fqn_of(namespace: &String, name: &String) -> (r: String)
    ensures
        r@ == fqn_spec(namespace@, name@),
{
    let mut s = namespace.clone();
    s.append("/");
    s.append(name.as_str());
    s
}

/// A host network interface that rules may match arriving traffic on.
#[derive(Debug)]
pub struct Interface {
    pub name: String,
    pub is_external: bool,
}

pub struct InterfaceView {
    pub name: Seq<char>,
    pub is_external: bool,
}

impl View for Interface {
    type V = InterfaceView;

    open spec fn view(&self) -> InterfaceView {
        InterfaceView { name: self.name@, is_external: self.is_external }
    }
}

impl Interface {
    /// An internal interface of the given name.
    pub fn new(name: &str) -> (r: Self)
        ensures
            r@ == (InterfaceView { name: name@, is_external: false }),
    {
        Interface { name: name.to_owned(), is_external: false }
    }

    /// The same interface, marked external.
    pub fn external(self) -> (r: Self)
        ensures
            r@ == (InterfaceView { name: self@.name, is_external: true }),
    {
        Interface { name: self.name, is_external: true }
    }
}

impl Clone for Interface {
    fn clone(&self) -> (r: Self)
        ensures
            r@ == self@,
    {
        Interface { name: self.name.clone(), is_external: self.is_external }
    }
}

impl PartialEq for Interface {
    fn eq(&self, other: &Self) -> (r: bool) {
        self.name == other.name && self.is_external == other.is_external
    }
}

impl vstd::std_specs::cmp::PartialEqSpecImpl for Interface {
    open spec fn obeys_eq_spec() -> bool {
        true
    }

    open spec fn eq_spec(&self, other: &Self) -> bool {
        self@ == other@
    }
}

impl Eq for Interface {

}

/// A cluster node that can receive forwarded traffic.
#[derive(Debug)]
pub struct Node {
    pub name: String,
    pub addr: String,
    pub is_active: bool,
}

pub struct NodeView {
    pub name: Seq<char>,
    pub addr: Seq<char>,
    pub is_active: bool,
}

impl View for Node {
    type V = NodeView;

    open spec fn view(&self) -> NodeView {
        NodeView { name: self.name@, addr: self.addr@, is_active: self.is_active }
    }
}

impl Clone for Node {
    fn clone(&self) -> (r: Self)
        ensures
            r@ == self@,
    {
        Node { name: self.name.clone(), addr: self.addr.clone(), is_active: self.is_active }
    }
}

impl PartialEq for Node {
    fn eq(&self, other: &Self) -> (r: bool) {
        self.name == other.name && self.addr == other.addr && self.is_active == other.is_active
    }
}

impl vstd::std_specs::cmp::PartialEqSpecImpl for Node {
    open spec fn obeys_eq_spec() -> bool {
        true
    }

    open spec fn eq_spec(&self, other: &Self) -> bool {
        self@ == other@
    }
}

impl Eq for Node {

}

/// A service that asks for host ports to be forwarded to its node port.
#[derive(Debug)]
pub struct Service {
    pub name: String,
    pub namespace: String,
    pub external_ports: ExternalPorts,
    pub is_internal: bool,
    pub allow_range: Option<String>,
}

pub struct ServiceView {
    pub name: Seq<char>,
    pub namespace: Seq<char>,
    pub ports: Seq<PortSpec>,
    pub is_internal: bool,
    pub allow_range: Option<Seq<char>>,
}

impl View for Service {
    type V = ServiceView;

    open spec fn view(&self) -> ServiceView {
        ServiceView {
            name: self.name@,
            namespace: self.namespace@,
            ports: self.external_ports@,
            is_internal: self.is_internal,
            allow_range: opt_view(self.allow_range),
        }
    }
}

impl ServiceView {
    pub open spec fn fqn(self) -> Seq<char> {
        fqn_spec(self.namespace, self.name)
    }

    /// The identity of the service's rules: folds the name, the ports, the
    /// internal flag and the allowed range, so that a change to any of them
    /// replaces the rules.
    pub open spec fn service_hash(self) -> Seq<char> {
        let fqn_hash = short_hash(self.fqn(), 16);
        let port_hash = join_spec(port_texts(self.ports), "::"@);
        short_hash(
            fqn_hash + port_hash + bool_text(self.is_internal) + opt_text(self.allow_range),
            16,
        )
    }
}

impl Clone for Service {
    fn clone(&self) -> (r: Self)
        ensures
            r@ == self@,
    {
        Service {
            name: self.name.clone(),
            namespace: self.namespace.clone(),
            external_ports: self.external_ports.clone(),
            is_internal: self.is_internal,
            allow_range: opt_clone(&self.allow_range),
        }
    }
}

impl PartialEq for Service {
    fn eq(&self, other: &Self) -> (r: bool) {
        self.name == other.name && self.namespace == other.namespace && self.external_ports
            == other.external_ports && self.is_internal == other.is_internal && opt_eq(
            &self.allow_range,
            &other.allow_range,
        )
    }
}

impl vstd::std_specs::cmp::PartialEqSpecImpl for Service {
    open spec fn obeys_eq_spec() -> bool {
        true
    }

    open spec fn eq_spec(&self, other: &Self) -> bool {
        self@ == other@
    }
}

impl Eq for Service {

}

impl Service {
    /// `namespace/name`.
    pub fn fqn(&self) -> (r: String)
        ensures
            r@ == self@.fqn(),
    {
        fqn_of(&self.namespace, &self.name)
    }

    pub fn has_external_ports(&self) -> (r: bool)
        ensures
            r == (self@.ports.len() > 0),
    {
        self.external_ports.specs.len() > 0
    }

    /// The same service, restricted to internal interfaces.
    pub fn internal(self) -> (r: Self)
        ensures
            r@ == (ServiceView { is_internal: true, ..self@ }),
    {
        Service { is_internal: true, ..self }
    }

    pub fn service_hash(&self) -> (r: String)
        ensures
            r@ == self@.service_hash(),
            r@.len() == 16,
            crate::hash::all_hex(r@),
    {
        let fqn = self.fqn();
        let mut text = short_digest(fqn.as_str(), 16);
        let ports = self.external_ports.joined_text();
        text.append(ports.as_str());
        let flag = bool_string(self.is_internal);
        text.append(flag.as_str());
        match &self.allow_range {
            Some(r) => text.append(r.as_str()),
            None => {
                assert(text@ + Seq::<char>::empty() =~= text@);
            },
        }
        short_digest(text.as_str(), 16)
    }
}

/// A pod that asks for host ports to be forwarded to its own address.
#[derive(Debug)]
pub struct Pod {
    pub name: String,
    pub namespace: String,
    pub addr: String,
    pub external_ports: ExternalPorts,
    pub is_internal: bool,
    pub is_external: bool,
    pub is_ready: bool,
}

pub struct PodView {
    pub name: Seq<char>,
    pub namespace: Seq<char>,
    pub addr: Seq<char>,
    pub ports: Seq<PortSpec>,
    pub is_internal: bool,
    pub is_external: bool,
    pub is_ready: bool,
}

impl View for Pod {
    type V = PodView;

    open spec fn view(&self) -> PodView {
        PodView {
            name: self.name@,
            namespace: self.namespace@,
            addr: self.addr@,
            ports: self.external_ports@,
            is_internal: self.is_internal,
            is_external: self.is_external,
            is_ready: self.is_ready,
        }
    }
}

impl PodView {
    pub open spec fn fqn(self) -> Seq<char> {
        fqn_spec(self.namespace, self.name)
    }

    pub open spec fn pod_hash(self) -> Seq<char> {
        short_hash(self.fqn() + "::"@ + join_spec(port_texts(self.ports), "::"@), 32)
    }
}

impl Clone for Pod {
    fn clone(&self) -> (r: Self)
        ensures
            r@ == self@,
    {
        Pod {
            name: self.name.clone(),
            namespace: self.namespace.clone(),
            addr: self.addr.clone(),
            external_ports: self.external_ports.clone(),
            is_internal: self.is_internal,
            is_external: self.is_external,
            is_ready: self.is_ready,
        }
    }
}

impl PartialEq for Pod {
    fn eq(&self, other: &Self) -> (r: bool) {
        self.name == other.name && self.namespace == other.namespace && self.addr == other.addr
            && self.external_ports == other.external_ports && self.is_internal
            == other.is_internal && self.is_external == other.is_external && self.is_ready
            == other.is_ready
    }
}

impl vstd::std_specs::cmp::PartialEqSpecImpl for Pod {
    open spec fn obeys_eq_spec() -> bool {
        true
    }

    open spec fn eq_spec(&self, other: &Self) -> bool {
        self@ == other@
    }
}

impl Eq for Pod {

}

impl Pod {
    /// `namespace/name`.
    pub fn fqn(&self) -> (r: String)
        ensures
            r@ == self@.fqn(),
    {
        fqn_of(&self.namespace, &self.name)
    }

    pub fn has_external_ports(&self) -> (r: bool)
        ensures
            r == (self@.ports.len() > 0),
    {
        self.external_ports.specs.len() > 0
    }

    pub fn pod_hash(&self) -> (r: String)
        ensures
            r@ == self@.pod_hash(),
            r@.len() == 32,
            crate::hash::all_hex(r@),
    {
        let mut text = self.fqn();
        text.append("::");
        let ports = self.external_ports.joined_text();
        text.append(ports.as_str());
        short_digest(text.as_str(), 32)
    }
}

} // verus!
