//! The records that a snapshot of the middleware's state is made of.
//!
//! A snapshot is one atomic batch of records for one topic: the memory
//! segments with their pools, the running processes, or the publisher and
//! subscriber ports. The aggregators take snapshots as plain values and
//! never change them.

use crate::order::compare_names;
use crate::order::lemma_names_irreflexive;
use crate::order::lemma_names_total;
use crate::order::lemma_names_transitive;
use crate::order::name_precedes;
use crate::order::OrderedKey;
use crate::order::Placement;
use vstd::prelude::*;

verus! {

/// The fill level and layout of one memory pool.
#[derive(Clone, Copy, Debug, PartialEq, Eq, Structural)]
pub struct MemPoolInfo {
    pub used_chunks: u32,
    pub min_free_chunks: u32,
    pub total_chunks: u32,
    pub chunk_size: u32,
    pub payload_size: u32,
}

/// One shared-memory segment: its id, the groups that may write and read
/// it, and its pools in index order.
#[derive(Clone, Debug)]
pub struct MemorySegment {
    pub segment_id: u32,
    pub writer_group: Option<String>,
    pub reader_group: Option<String>,
    pub mempools: Vec<MemPoolInfo>,
}

/// A snapshot of the memory topic: the segments in the order of delivery.
#[derive(Clone, Debug)]
pub struct MemorySnapshot {
    pub segments: Vec<MemorySegment>,
}

/// One running process. The name is absent where the middleware delivered
/// one that is not valid text.
#[derive(Clone, Debug)]
pub struct ProcessInfo {
    pub name: Option<String>,
    pub pid: i32,
}

/// A snapshot of the process topic.
#[derive(Clone, Debug)]
pub struct ProcessSnapshot {
    pub processes: Vec<ProcessInfo>,
}

/// The identity of a publish/subscribe endpoint grouping.
#[derive(Clone, Debug, PartialEq, Eq, PartialOrd, Ord, Hash)]
pub struct ServiceDescription {
    pub service_id: String,
    pub instance_id: String,
    pub event_id: String,
}

/// A service description as specifications see it: its three names as
/// character sequences.
pub struct ServiceKey {
    pub service_id: Seq<char>,
    pub instance_id: Seq<char>,
    pub event_id: Seq<char>,
}

/// One port: the service it belongs to and the process that owns it, each
/// absent where the middleware delivered text that is not valid.
#[derive(Clone, Debug)]
pub struct PortInfo {
    pub service_description: Option<ServiceDescription>,
    pub process_name: Option<String>,
}

/// A port as specifications see it.
pub struct PortView {
    pub service: Option<ServiceKey>,
    pub process: Option<Seq<char>>,
}

/// The side of a service on which a port stands.
#[derive(Clone, Copy, Debug, PartialEq, Eq, Structural)]
pub enum PortRole {
    Publisher,
    Subscriber,
}

/// A snapshot of the port topic: the publisher ports and the subscriber
/// ports, each in the order of delivery.
#[derive(Clone, Debug)]
pub struct PortSnapshot {
    pub publisher_ports: Vec<PortInfo>,
    pub subscriber_ports: Vec<PortInfo>,
}

impl DeepView for ServiceDescription {
    type V = ServiceKey;

    open spec fn deep_view(&self) -> ServiceKey {
        ServiceKey {
            service_id: self.service_id@,
            instance_id: self.instance_id@,
            event_id: self.event_id@,
        }
    }
}

impl DeepView for PortInfo {
    type V = PortView;

    open spec fn deep_view(&self) -> PortView {
        PortView {
            service: self.service_description.deep_view(),
            process: self.process_name.deep_view(),
        }
    }
}

/// The service description whose three names are empty. It stands for "no
/// service" where a selection has nothing to point at.
pub open spec fn blank_service() -> ServiceKey {
    ServiceKey {
        service_id: Seq::<char>::empty(),
        instance_id: Seq::<char>::empty(),
        event_id: Seq::<char>::empty(),
    }
}

/// The order on service descriptions: by service name, then by instance
/// name, then by event name.
pub open spec fn service_precedes(a: ServiceKey, b: ServiceKey) -> bool {
    if a.service_id != b.service_id {
        name_precedes(a.service_id, b.service_id)
    } else if a.instance_id != b.instance_id {
        name_precedes(a.instance_id, b.instance_id)
    } else {
        name_precedes(a.event_id, b.event_id)
    }
}

impl Default for ServiceDescription {
    fn default() -> (description: ServiceDescription)
        ensures
            description.deep_view() == blank_service(),
    {
        ServiceDescription {
            service_id: String::new(),
            instance_id: String::new(),
            event_id: String::new(),
        }
    }
}

impl OrderedKey for ServiceDescription {
    type Id = ServiceKey;

    open spec fn id(&self) -> ServiceKey {
        self.deep_view()
    }

    open spec fn precedes(a: ServiceKey, b: ServiceKey) -> bool {
        service_precedes(a, b)
    }

    proof fn lemma_irreflexive(a: ServiceKey) {
        lemma_names_irreflexive(a.event_id);
    }

    proof fn lemma_transitive(a: ServiceKey, b: ServiceKey, c: ServiceKey) {
        lemma_names_irreflexive(a.service_id);
        lemma_names_irreflexive(a.instance_id);
        if a.service_id != b.service_id {
            if b.service_id != c.service_id {
                lemma_names_transitive(a.service_id, b.service_id, c.service_id);
            }
        } else if b.service_id != c.service_id {
        } else if a.instance_id != b.instance_id {
            if b.instance_id != c.instance_id {
                lemma_names_transitive(a.instance_id, b.instance_id, c.instance_id);
            }
        } else if b.instance_id != c.instance_id {
        } else {
            lemma_names_transitive(a.event_id, b.event_id, c.event_id);
        }
    }

    proof fn lemma_total(a: ServiceKey, b: ServiceKey) {
        lemma_names_total(a.service_id, b.service_id);
        lemma_names_total(a.instance_id, b.instance_id);
        lemma_names_total(a.event_id, b.event_id);
    }

    fn compare(&self, other: &Self) -> (r: Placement) {
        match compare_names(self.service_id.as_str(), other.service_id.as_str()) {
            Placement::Same => {},
            Placement::Before => {
                return Placement::Before;
            },
            Placement::After => {
                return Placement::After;
            },
        }
        match compare_names(self.instance_id.as_str(), other.instance_id.as_str()) {
            Placement::Same => {},
            Placement::Before => {
                return Placement::Before;
            },
            Placement::After => {
                return Placement::After;
            },
        }
        compare_names(self.event_id.as_str(), other.event_id.as_str())
    }

    fn duplicate(&self) -> (r: Self) {
        ServiceDescription {
            service_id: self.service_id.clone(),
            instance_id: self.instance_id.clone(),
            event_id: self.event_id.clone(),
        }
    }
}

} // verus!
