//! The sum of all entity kinds, with identity, kind tag and liveness.

use vstd::prelude::*;

use super::entities::{
    Interface, InterfaceView, Node, NodeView, Pod, PodView, Service, ServiceView,
};

verus! {

/// The tag that partitions resources by kind.
#[derive(Clone, Copy, Debug, PartialEq, Eq, Structural, PartialOrd, Ord, Hash)]
pub enum ResourceKind {
    Interface,
    Node,
    Service,
    Pod,
}

#[derive(Debug)]
pub enum Resource {
    Interface(Interface),
    Node(Node),
    Service(Service),
    Pod(Pod),
}

pub enum ResourceView {
    Interface(InterfaceView),
    Node(NodeView),
    Service(ServiceView),
    Pod(PodView),
}

impl View for Resource {
    type V = ResourceView;

    open spec fn view(&self) -> ResourceView {
        match self {
            Resource::Interface(r) => ResourceView::Interface(r@),
            Resource::Node(r) => ResourceView::Node(r@),
            Resource::Service(r) => ResourceView::Service(r@),
            Resource::Pod(r) => ResourceView::Pod(r@),
        }
    }
}

impl ResourceView {
    /// The identity: an interface's or node's or pod's name, a service's
    /// `namespace/name`.
    pub open spec fn id(self) -> Seq<char> {
        match self {
            ResourceView::Interface(r) => r.name,
            ResourceView::Node(r) => r.name,
            ResourceView::Service(r) => r.fqn(),
            ResourceView::Pod(r) => r.name,
        }
    }

    pub open spec fn kind(self) -> ResourceKind {
        match self {
            ResourceView::Interface(_) => ResourceKind::Interface,
            ResourceView::Node(_) => ResourceKind::Node,
            ResourceView::Service(_) => ResourceKind::Service,
            ResourceView::Pod(_) => ResourceKind::Pod,
        }
    }

    /// Interfaces are always active; a node when ready and not excluded; a
    /// service when it asks for ports; a pod when ready and asking for ports.
    pub open spec fn is_active(self) -> bool {
        match self {
            ResourceView::Interface(_) => true,
            ResourceView::Node(r) => r.is_active,
            ResourceView::Service(r) => r.ports.len() > 0,
            ResourceView::Pod(r) => r.is_ready && r.ports.len() > 0,
        }
    }
}

impl Resource {
    pub fn id(&self) -> (r: String)
        ensures
            r@ == self@.id(),
    {
        match self {
            Resource::Interface(r) => r.name.clone(),
            Resource::Node(r) => r.name.clone(),
            Resource::Service(r) => r.fqn(),
            Resource::Pod(r) => r.name.clone(),
        }
    }

    pub fn type_id(&self) -> (r: ResourceKind)
        ensures
            r == self@.kind(),
    {
        match self {
            Resource::Interface(_) => ResourceKind::Interface,
            Resource::Node(_) => ResourceKind::Node,
            Resource::Service(_) => ResourceKind::Service,
            Resource::Pod(_) => ResourceKind::Pod,
        }
    }

    pub fn is_active(&self) -> (r: bool)
        ensures
            r == self@.is_active(),
    {
        match self {
            Resource::Interface(_) => true,
            Resource::Node(r) => r.is_active,
            Resource::Service(r) => r.has_external_ports(),
            Resource::Pod(r) => r.is_ready && r.has_external_ports(),
        }
    }
}

impl Clone for Resource {
    fn clone(&self) -> (r: Self)
        ensures
            r@ == self@,
    {
        match self {
            Resource::Interface(r) => Resource::Interface(r.clone()),
            Resource::Node(r) => Resource::Node(r.clone()),
            Resource::Service(r) => Resource::Service(r.clone()),
            Resource::Pod(r) => Resource::Pod(r.clone()),
        }
    }
}

impl PartialEq for Resource {
    fn eq(&self, other: &Self) -> (r: bool) {
        match (self, other) {
            (Resource::Interface(a), Resource::Interface(b)) => a == b,
            (Resource::Node(a), Resource::Node(b)) => a == b,
            (Resource::Service(a), Resource::Service(b)) => a == b,
            (Resource::Pod(a), Resource::Pod(b)) => a == b,
            _ => false,
        }
    }
}

impl vstd::std_specs::cmp::PartialEqSpecImpl for Resource {
    open spec fn obeys_eq_spec() -> bool {
        true
    }

    open spec fn eq_spec(&self, other: &Self) -> bool {
        self@ == other@
    }
}

impl Eq for Resource {

}

/// What every entity kind offers: its identity, its kind tag, its liveness,
/// and the way into and out of [`Resource`].
pub trait ResourceLike: Sized {
    spec fn kind_spec() -> ResourceKind;

    spec fn as_resource(&self) -> ResourceView;

    /// The kind tag of this entity type.
    fn kind() -> (r: ResourceKind)
        ensures
            r == Self::kind_spec(),
    ;

    fn id(&self) -> (r: String)
        ensures
            r@ == self.as_resource().id(),
    ;

    fn type_id(&self) -> (r: ResourceKind)
        ensures
            r == Self::kind_spec(),
    ;

    fn is_active(&self) -> (r: bool)
        ensures
            r == self.as_resource().is_active(),
    ;

    fn into_resource(self) -> (r: Resource)
        ensures
            r@ == self.as_resource(),
            r@.kind() == Self::kind_spec(),
    ;

    fn from_resource(r: &Resource) -> (o: Option<Self>)
        ensures
            o is Some <==> r@.kind() == Self::kind_spec(),
            o is Some ==> o->0.as_resource() == r@,
    ;
}

impl ResourceLike for Interface {
    open spec fn kind_spec() -> ResourceKind {
        ResourceKind::Interface
    }

    open spec fn as_resource(&self) -> ResourceView {
        ResourceView::Interface(self@)
    }

    fn kind() -> (r: ResourceKind) {
        ResourceKind::Interface
    }

    fn id(&self) -> (r: String) {
        self.name.clone()
    }

    fn type_id(&self) -> (r: ResourceKind) {
        ResourceKind::Interface
    }

    fn is_active(&self) -> (r: bool) {
        true
    }

    fn into_resource(self) -> (r: Resource) {
        Resource::Interface(self)
    }

    fn from_resource(r: &Resource) -> (o: Option<Self>) {
        match r {
            Resource::Interface(x) => Some(x.clone()),
            _ => None,
        }
    }
}

impl ResourceLike for Node {
    open spec fn kind_spec() -> ResourceKind {
        ResourceKind::Node
    }

    open spec fn as_resource(&self) -> ResourceView {
        ResourceView::Node(self@)
    }

    fn kind() -> (r: ResourceKind) {
        ResourceKind::Node
    }

    fn id(&self) -> (r: String) {
        self.name.clone()
    }

    fn type_id(&self) -> (r: ResourceKind) {
        ResourceKind::Node
    }

    fn is_active(&self) -> (r: bool) {
        self.is_active
    }

    fn into_resource(self) -> (r: Resource) {
        Resource::Node(self)
    }

    fn from_resource(r: &Resource) -> (o: Option<Self>) {
        match r {
            Resource::Node(x) => Some(x.clone()),
            _ => None,
        }
    }
}

impl ResourceLike for Service {
    open spec fn kind_spec() -> ResourceKind {
        ResourceKind::Service
    }

    open spec fn as_resource(&self) -> ResourceView {
        ResourceView::Service(self@)
    }

    fn kind() -> (r: ResourceKind) {
        ResourceKind::Service
    }

    fn id(&self) -> (r: String) {
        self.fqn()
    }

    fn type_id(&self) -> (r: ResourceKind) {
        ResourceKind::Service
    }

    fn is_active(&self) -> (r: bool) {
        self.has_external_ports()
    }

    fn into_resource(self) -> (r: Resource) {
        Resource::Service(self)
    }

    fn from_resource(r: &Resource) -> (o: Option<Self>) {
        match r {
            Resource::Service(x) => Some(x.clone()),
            _ => None,
        }
    }
}

impl ResourceLike for Pod {
    open spec fn kind_spec() -> ResourceKind {
        ResourceKind::Pod
    }

    open spec fn as_resource(&self) -> ResourceView {
        ResourceView::Pod(self@)
    }

    fn kind() -> (r: ResourceKind) {
        ResourceKind::Pod
    }

    fn id(&self) -> (r: String) {
        self.name.clone()
    }

    fn type_id(&self) -> (r: ResourceKind) {
        ResourceKind::Pod
    }

    fn is_active(&self) -> (r: bool) {
        self.is_ready && self.has_external_ports()
    }

    fn into_resource(self) -> (r: Resource) {
        Resource::Pod(self)
    }

    fn from_resource(r: &Resource) -> (o: Option<Self>) {
        match r {
            Resource::Pod(x) => Some(x.clone()),
            _ => None,
        }
    }
}

} // verus!
