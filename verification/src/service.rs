//! The service aggregator: the table of services, ordered by service
//! description, the cross-links from processes to the services of their
//! ports, and the selection cursor over the services.

use crate::cursor::reconcile;
use crate::cursor::reconciled;
use crate::cursor::selection_at;
use crate::cursor::selection_view;
use crate::cursor::set_selection;
use crate::introspection::blank_service;
use crate::introspection::PortInfo;
use crate::introspection::PortRole;
use crate::introspection::PortSnapshot;
use crate::introspection::PortView;
use crate::introspection::ServiceDescription;
use crate::introspection::ServiceKey;
use crate::order::ascending;
use crate::order::lemma_ascending_distinct;
use crate::order::lemma_ascending_unique;
use crate::order::OrderedKey;
use crate::process::linked;
use crate::process::ProcessList;
use crate::table::lemma_insert_contains;
use crate::table::SortedTable;
use vstd::prelude::*;

verus! {

/// What the dashboard knows of one service: the processes that publish it
/// and the processes that subscribe to it, one entry for each port.
#[derive(Clone, Debug)]
pub struct ServiceDetails {
    pub publisher_processes: Vec<String>,
    pub subscriber_processes: Vec<String>,
}

/// The details of a service as specifications see them.
pub struct ServiceDetailsView {
    pub publisher_processes: Seq<Seq<char>>,
    pub subscriber_processes: Seq<Seq<char>>,
}

impl DeepView for ServiceDetails {
    type V = ServiceDetailsView;

    open spec fn deep_view(&self) -> ServiceDetailsView {
        ServiceDetailsView {
            publisher_processes: self.publisher_processes.deep_view(),
            subscriber_processes: self.subscriber_processes.deep_view(),
        }
    }
}

/// Whether one of `ports` belongs to `service`.
pub open spec fn offered(ports: Seq<PortView>, service: ServiceKey) -> bool {
    exists|i: int| 0 <= i < ports.len() && (#[trigger] ports[i]).service == Some(service)
}

/// The processes that own the ports of `service`, in the order of the
/// ports. A port whose owner is not known adds no entry.
pub open spec fn owners_of(ports: Seq<PortView>, service: ServiceKey) -> Seq<Seq<char>>
    decreases ports.len(),
{
    if ports.len() == 0 {
        Seq::<Seq<char>>::empty()
    } else if ports.last().service == Some(service) && ports.last().process is Some {
        owners_of(ports.drop_last(), service).push(ports.last().process.unwrap())
    } else {
        owners_of(ports.drop_last(), service)
    }
}

/// The table that serves the ports of a snapshot: the services that a
/// publisher or subscriber port belongs to, each once and in ascending
/// order, and for each service the owners of its publisher ports and of its
/// subscriber ports.
pub open spec fn serves(
    services: Seq<ServiceKey>,
    details: Seq<ServiceDetailsView>,
    publishers: Seq<PortView>,
    subscribers: Seq<PortView>,
) -> bool {
    &&& ascending::<ServiceDescription>(services)
    &&& services.len() == details.len()
    &&& forall|service: ServiceKey|
        services.contains(service) <==> offered(publishers, service) || offered(
            subscribers,
            service,
        )
    &&& forall|i: int|
        0 <= i < services.len() ==> #[trigger] details[i] == (ServiceDetailsView {
            publisher_processes: owners_of(publishers, services[i]),
            subscriber_processes: owners_of(subscribers, services[i]),
        })
}

/// The ports of a snapshot are served by one table only.
pub proof fn lemma_serving_unique(
    services: Seq<ServiceKey>,
    details: Seq<ServiceDetailsView>,
    other_services: Seq<ServiceKey>,
    other_details: Seq<ServiceDetailsView>,
    publishers: Seq<PortView>,
    subscribers: Seq<PortView>,
)
    requires
        serves(services, details, publishers, subscribers),
        serves(other_services, other_details, publishers, subscribers),
    ensures
        services == other_services,
        details == other_details,
{
    lemma_ascending_unique::<ServiceDescription>(services, other_services);
    assert(details =~= other_details);
}

/// One more port offers the service it belongs to and nothing else.
pub proof fn lemma_offered_push(ports: Seq<PortView>, port: PortView, service: ServiceKey)
    ensures
        offered(ports.push(port), service) <==> offered(ports, service) || port.service == Some(
            service,
        ),
{
    let more = ports.push(port);
    if offered(ports, service) {
        let i = choose|i: int| 0 <= i < ports.len() && (#[trigger] ports[i]).service == Some(service);
        assert(more[i].service == Some(service));
    }
    if port.service == Some(service) {
        assert(more[ports.len() as int].service == Some(service));
    }
    if offered(more, service) {
        let i = choose|i: int| 0 <= i < more.len() && (#[trigger] more[i]).service == Some(service);
        if i < ports.len() {
            assert(ports[i].service == Some(service));
        }
    }
}

/// A service that no port belongs to has no owner.
pub proof fn lemma_unoffered_has_no_owner(ports: Seq<PortView>, service: ServiceKey)
    requires
        !offered(ports, service),
    ensures
        owners_of(ports, service) == Seq::<Seq<char>>::empty(),
    decreases ports.len(),
{
    if ports.len() > 0 {
        assert(ports[ports.len() - 1].service != Some(service));
        assert forall|i: int| 0 <= i < ports.drop_last().len() implies (
        #[trigger] ports.drop_last()[i]).service != Some(service) by {
            assert(ports[i].service != Some(service));
        }
        lemma_unoffered_has_no_owner(ports.drop_last(), service);
    }
}

/// The service aggregator.
pub struct ServiceList {
    /// The services by description, in ascending order.
    pub map: SortedTable<ServiceDescription, ServiceDetails>,
    /// The selected row: its ordinal and its service description.
    pub selection: (usize, ServiceDescription),
}

impl ServiceList {
    /// The services, in table order.
    pub open spec fn services(&self) -> Seq<ServiceKey> {
        self.map.ids()
    }

    /// The details of the services, each at the position of its service.
    pub open spec fn details(&self) -> Seq<ServiceDetailsView> {
        self.map.values().map_values(|d: ServiceDetails| d.deep_view())
    }

    /// The selection: its ordinal and the service it holds.
    pub open spec fn cursor(&self) -> (int, ServiceKey) {
        selection_view(self.selection)
    }

    /// What `update` makes of the aggregator and of the process aggregator
    /// handed to it. Without a snapshot nothing changes. With one, the
    /// service table serves the snapshot's ports, the selection is the old
    /// one reconciled with the new table, and the processes keep their
    /// names, pids and selection and are cross-linked with the ports.
    pub open spec fn updated(
        self,
        processes: ProcessList,
        sample: Option<PortSnapshot>,
        after: Self,
        processes_after: ProcessList,
    ) -> bool {
        match sample {
            None => after == self && processes_after == processes,
            Some(snapshot) => {
                &&& serves(
                    after.services(),
                    after.details(),
                    snapshot.publisher_ports.deep_view(),
                    snapshot.subscriber_ports.deep_view(),
                )
                &&& after.cursor() == reconciled(after.services(), self.cursor(), blank_service())
                &&& processes_after.names() == processes.names()
                &&& processes_after.selection == processes.selection
                &&& linked(
                    processes_after.names(),
                    processes_after.details(),
                    processes.details(),
                    snapshot.publisher_ports.deep_view(),
                    snapshot.subscriber_ports.deep_view(),
                )
            },
        }
    }

    /// What a request for the row `index` makes of the aggregator: the
    /// table stays and the selection is the row nearest to `index`.
    pub open spec fn selected(self, index: int, after: Self) -> bool {
        &&& after.map == self.map
        &&& after.cursor() == selection_at(self.services(), index, blank_service())
    }

    /// What a step down makes of the aggregator.
    pub open spec fn stepped_next(self, after: Self) -> bool {
        self.selected(self.cursor().0 + 1, after)
    }

    /// What a step up makes of the aggregator: at the first row nothing
    /// changes.
    pub open spec fn stepped_previous(self, after: Self) -> bool {
        if self.cursor().0 > 0 {
            self.selected(self.cursor().0 - 1, after)
        } else {
            after.map == self.map && after.cursor() == self.cursor()
        }
    }

    /// An aggregator that has seen no snapshot: an empty table, with the
    /// selection at ordinal 0 and the blank service.
    pub fn new() -> (list: Self)
        ensures
            list.services() == Seq::<ServiceKey>::empty(),
            list.details() == Seq::<ServiceDetailsView>::empty(),
            list.cursor() == (0int, blank_service()),
    {
        let list = ServiceList {
            map: SortedTable::new(),
            selection: (0, ServiceDescription::default()),
        };
        assert(list.details() =~= Seq::<ServiceDetailsView>::empty());
        list
    }

    /// Takes note of one port of a snapshot: the port's service enters the
    /// table if it is new, and the port's owner, where known, is added to
    /// the service on the side of `role`. A port without a service leaves
    /// the table as it is.
    fn note_port(
        &mut self,
        port: &PortInfo,
        role: PortRole,
        Ghost(publishers): Ghost<Seq<PortView>>,
        Ghost(subscribers): Ghost<Seq<PortView>>,
    )
        requires
            serves(old(self).services(), old(self).details(), publishers, subscribers),
        ensures
            final(self).selection == old(self).selection,
            role == PortRole::Publisher ==> serves(
                final(self).services(),
                final(self).details(),
                publishers.push(port.deep_view()),
                subscribers,
            ),
            role == PortRole::Subscriber ==> serves(
                final(self).services(),
                final(self).details(),
                publishers,
                subscribers.push(port.deep_view()),
            ),
    {
        let ghost services = self.services();
        let ghost details = self.details();
        let ghost seen = port.deep_view();
        let ghost more_publishers = if role == PortRole::Publisher {
            publishers.push(seen)
        } else {
            publishers
        };
        let ghost more_subscribers = if role == PortRole::Subscriber {
            subscribers.push(seen)
        } else {
            subscribers
        };
        proof {
            assert(publishers.push(seen).drop_last() =~= publishers);
            assert(subscribers.push(seen).drop_last() =~= subscribers);
            assert forall|s: ServiceKey|
                (offered(more_publishers, s) || offered(more_subscribers, s)) <==> (offered(
                    publishers,
                    s,
                ) || offered(subscribers, s) || seen.service == Some(s)) by {
                lemma_offered_push(publishers, seen, s);
                lemma_offered_push(subscribers, seen, s);
            }
        }
        match &port.service_description {
            Some(service) => {
                let ghost key = service.deep_view();
                let fresh = ServiceDetails {
                    publisher_processes: Vec::new(),
                    subscriber_processes: Vec::new(),
                };
                proof {
                    assert(fresh.publisher_processes.deep_view() =~= Seq::<Seq<char>>::empty());
                    assert(fresh.subscriber_processes.deep_view() =~= Seq::<Seq<char>>::empty());
                }
                let index = self.map.insert_if_absent(service.duplicate(), fresh);
                let ghost entered = self.services();
                let ghost entered_details = self.details();
                let ghost entered_values = self.map.values();
                proof {
                    lemma_ascending_distinct::<ServiceDescription>(entered);
                    if services.contains(key) {
                        assert(entered_details =~= details);
                    } else {
                        lemma_unoffered_has_no_owner(publishers, key);
                        lemma_unoffered_has_no_owner(subscribers, key);
                        assert(entered_details =~= details.insert(index as int, fresh.deep_view()));
                        assert forall|s: ServiceKey|
                            entered.contains(s) <==> services.contains(s) || s == key by {
                            lemma_insert_contains(services, index as int, key, s);
                        }
                    }
                    // The table after the entry serves the ports seen before.
                    assert forall|k: int| 0 <= k < entered.len() implies (
                    #[trigger] entered_details[k]) == (ServiceDetailsView {
                        publisher_processes: owners_of(publishers, entered[k]),
                        subscriber_processes: owners_of(subscribers, entered[k]),
                    }) by {
                        if services.contains(key) {
                        } else if k < index {
                            assert(entered_details[k] == details[k]);
                        } else if k > index {
                            assert(entered_details[k] == details[k - 1]);
                        }
                    }
                }
                match &port.process_name {
                    Some(process) => {
                        let owners = self.map.value_mut(index);
                        let ghost owners_before = match role {
                            PortRole::Publisher => owners.publisher_processes.deep_view(),
                            PortRole::Subscriber => owners.subscriber_processes.deep_view(),
                        };
                        match role {
                            PortRole::Publisher => {
                                owners.publisher_processes.push(process.clone());
                            },
                            PortRole::Subscriber => {
                                owners.subscriber_processes.push(process.clone());
                            },
                        }
                        proof {
                            let changed = self.map.values()[index as int];
                            match role {
                                PortRole::Publisher => {
                                    assert(changed.publisher_processes.deep_view()
                                        =~= owners_before.push(process@));
                                },
                                PortRole::Subscriber => {
                                    assert(changed.subscriber_processes.deep_view()
                                        =~= owners_before.push(process@));
                                },
                            }
                            assert(entered_details[index as int]
                                == entered_values[index as int].deep_view());
                            assert forall|k: int| 0 <= k < entered.len() && k != index implies (
                            #[trigger] self.details()[k]) == entered_details[k] by {
                                assert(self.map.values()[k] == entered_values[k]);
                            }
                        }
                    },
                    None => {},
                }
                proof {
                    assert forall|k: int| 0 <= k < entered.len() implies (
                    #[trigger] self.details()[k]) == (ServiceDetailsView {
                        publisher_processes: owners_of(more_publishers, entered[k]),
                        subscriber_processes: owners_of(more_subscribers, entered[k]),
                    }) by {
                        assert(self.details()[k] == self.map.values()[k].deep_view());
                        if k != index {
                            assert(entered[k] != key);
                            assert(self.details()[k] == entered_details[k]);
                        }
                    }
                }
            },
            None => {},
        }
    }

    /// Takes in the latest snapshot of the port topic, if one arrived.
    ///
    /// Without a snapshot nothing changes. With one, the service table is
    /// rebuilt to serve the snapshot's ports, every process in `processes`
    /// gets the services of the ports it owns in place of the ports and
    /// nodes it had, and the selection is reconciled with the rebuilt
    /// table. A port whose owner is not in `processes` still counts for its
    /// service.
    pub fn update(&mut self, processes: &mut ProcessList, sample: Option<PortSnapshot>)
        ensures
            old(self).updated(*old(processes), sample, *final(self), *final(processes)),
    {
        if let Some(snapshot) = sample {
            let ghost publishers = snapshot.publisher_ports.deep_view();
            let ghost subscribers = snapshot.subscriber_ports.deep_view();
            let ghost before = processes.details();
            let ghost none = Seq::<PortView>::empty();
            self.map.clear();
            assert(self.details() =~= Seq::<ServiceDetailsView>::empty());
            processes.clear_ports();

            let publisher_count = snapshot.publisher_ports.len();
            let mut i: usize = 0;
            while i < publisher_count
                invariant
                    i <= publisher_count,
                    publisher_count == snapshot.publisher_ports@.len(),
                    publishers == snapshot.publisher_ports.deep_view(),
                    none == Seq::<PortView>::empty(),
                    self.selection == old(self).selection,
                    processes.names() == old(processes).names(),
                    processes.selection == old(processes).selection,
                    serves(self.services(), self.details(), publishers.take(i as int), none),
                    linked(
                        processes.names(),
                        processes.details(),
                        before,
                        publishers.take(i as int),
                        none,
                    ),
                decreases publisher_count - i,
            {
                let port = &snapshot.publisher_ports[i];
                proof {
                    assert(publishers.take(i as int).push(port.deep_view()) =~= publishers.take(
                        i + 1,
                    ));
                }
                self.note_port(
                    port,
                    PortRole::Publisher,
                    Ghost(publishers.take(i as int)),
                    Ghost(none),
                );
                processes.note_port(
                    port,
                    PortRole::Publisher,
                    Ghost(before),
                    Ghost(publishers.take(i as int)),
                    Ghost(none),
                );
                i = i + 1;
            }
            assert(publishers.take(publisher_count as int) =~= publishers);

            let subscriber_count = snapshot.subscriber_ports.len();
            let mut j: usize = 0;
            while j < subscriber_count
                invariant
                    j <= subscriber_count,
                    subscriber_count == snapshot.subscriber_ports@.len(),
                    subscribers == snapshot.subscriber_ports.deep_view(),
                    self.selection == old(self).selection,
                    processes.names() == old(processes).names(),
                    processes.selection == old(processes).selection,
                    serves(
                        self.services(),
                        self.details(),
                        publishers,
                        subscribers.take(j as int),
                    ),
                    linked(
                        processes.names(),
                        processes.details(),
                        before,
                        publishers,
                        subscribers.take(j as int),
                    ),
                decreases subscriber_count - j,
            {
                let port = &snapshot.subscriber_ports[j];
                proof {
                    assert(subscribers.take(j as int).push(port.deep_view()) =~= subscribers.take(
                        j + 1,
                    ));
                }
                self.note_port(
                    port,
                    PortRole::Subscriber,
                    Ghost(publishers),
                    Ghost(subscribers.take(j as int)),
                );
                processes.note_port(
                    port,
                    PortRole::Subscriber,
                    Ghost(before),
                    Ghost(publishers),
                    Ghost(subscribers.take(j as int)),
                );
                j = j + 1;
            }
            assert(subscribers.take(subscriber_count as int) =~= subscribers);

            reconcile(&self.map, &mut self.selection, ServiceDescription::default());
        }
    }

    /// Selects the row nearest to `index`, or nothing where the table is
    /// empty.
    pub fn set_selection(&mut self, index: usize)
        ensures
            old(self).selected(index as int, *final(self)),
    {
        set_selection(&self.map, &mut self.selection, index, ServiceDescription::default());
    }

    /// Moves the selection one row down; at the last row it stays.
    pub fn selection_next(&mut self)
        ensures
            old(self).stepped_next(*final(self)),
    {
        let len = self.map.len();
        if self.selection.0 < len {
            self.set_selection(self.selection.0 + 1);
        } else {
            self.set_selection(len);
        }
    }

    /// Moves the selection one row up; at the first row nothing changes.
    pub fn selection_previous(&mut self)
        ensures
            old(self).stepped_previous(*final(self)),
    {
        if self.selection.0 > 0 {
            self.set_selection(self.selection.0 - 1);
        }
    }
}

} // verus!
