//! A controller core that exposes cluster workloads on host ports by
//! planning and reconciling NAT rules.

pub mod batch;
pub mod debounce;
pub mod error;
pub mod hash;
pub mod iptables;
pub mod memory;
pub mod operator;
pub mod planner;
pub mod res;
pub mod shell;
pub mod state;
pub mod text;

pub use batch::Batch;
pub use debounce::{DebounceAction, DebounceEvent, Debouncer};
pub use error::Error;
pub use iptables::{append_to_delete, BatchOpts, IptablesBackend};
pub use memory::MemoryBackend;
pub use shell::{CommandRunner, ShellBackend};
pub use operator::{Action, Backend, DeleteFilter, Operator};
pub use planner::{make_pod_rules, make_rules, plan, Rule};
pub use res::{
    CoreNode, CorePod, CoreService, ExternalPorts, Interface, Node, NodeStatus, ObjectMeta, Pod,
    PodStatus, PortSpec, Proto, Resource, ResourceKind, ResourceLike, Service, StatusEntry,
};
pub use state::{apply, Event, Op, Ops, State};

use vstd::prelude::*;

verus! {

/// The annotation that lists a service's or pod's external ports.
pub const ANNOTATION: &'static str = "epok.getbetter.ro/externalports";

/// The annotation whose presence restricts a service to internal interfaces.
pub const INTERNAL_ANNOTATION: &'static str = "epok.getbetter.ro/internal";

/// The annotation that holds the source range a service accepts.
pub const ALLOW_RANGE_ANNOTATION: &'static str = "epok.getbetter.ro/allow-range";

/// The node annotation whose presence excludes the node.
pub const NODE_EXCLUDE_ANNOTATION: &'static str = "epok.getbetter.ro/exclude";

/// The node label whose presence excludes the node.
pub const NODE_EXCLUDE_LABEL: &'static str = "epok_exclude";

/// The quiet period of the debouncer, in milliseconds.
pub const OP_DEBOUNCE_TIMEOUT_MS: u64 = 100;

/// The capacity of the channel between watchers and the debouncer.
pub const OP_CHANNEL_SIZE: usize = 64;

/// The most changes the debouncer holds before it emits.
pub const OP_DEBOUNCE_CAPACITY: usize = 128;

/// The marker in the comment of every managed rule, before its id.
pub const RULE_MARKER: &'static str = "epok_rule_id";

/// The marker in the comment of every managed rule, before its owner's id.
pub const SERVICE_MARKER: &'static str = "epok_service_id";

} // verus!
