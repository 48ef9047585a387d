//! The typed entities the controller works on.

pub mod ports;

pub use ports::{ExternalPorts, PortSpec, Proto};

pub mod entities;

pub use entities::{Interface, Node, Pod, Service};

pub mod resource;

pub use resource::{Resource, ResourceKind, ResourceLike, ResourceView};

pub mod objects;

pub use objects::{
    node_ip, node_ready, pod_ip, pod_ready, CoreNode, CorePod, CoreService, Error, NodeStatus,
    ObjectMeta, PodStatus, StatusEntry,
};
