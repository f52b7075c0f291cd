//! The process aggregator: the table of running processes, ordered by
//! name, and the selection cursor over it.

use crate::cursor::reconcile;
use crate::cursor::reconciled;
use crate::cursor::selection_at;
use crate::cursor::selection_view;
use crate::cursor::set_selection;
use crate::introspection::PortInfo;
use crate::introspection::PortRole;
use crate::introspection::PortView;
use crate::introspection::ProcessInfo;
use crate::introspection::ProcessSnapshot;
use crate::introspection::ServiceDescription;
use crate::introspection::ServiceKey;
use crate::order::ascending;
use crate::order::lemma_ascending_distinct;
use crate::order::lemma_ascending_unique;
use crate::order::OrderedKey;
use crate::table::SortedTable;
use vstd::prelude::*;

verus! {

/// What the dashboard knows of one process: its pid, the services of its
/// publisher and subscriber ports, and its nodes.
#[derive(Clone, Debug)]
pub struct ProcessDetails {
    pub pid: i32,
    pub publisher_ports: Vec<ServiceDescription>,
    pub subscriber_ports: Vec<ServiceDescription>,
    pub nodes: Vec<String>,
}

/// The details of a process as specifications see them.
pub struct ProcessDetailsView {
    pub pid: i32,
    pub publisher_ports: Seq<ServiceKey>,
    pub subscriber_ports: Seq<ServiceKey>,
    pub nodes: Seq<Seq<char>>,
}

impl DeepView for ProcessDetails {
    type V = ProcessDetailsView;

    open spec fn deep_view(&self) -> ProcessDetailsView {
        ProcessDetailsView {
            pid: self.pid,
            publisher_ports: self.publisher_ports.deep_view(),
            subscriber_ports: self.subscriber_ports.deep_view(),
            nodes: self.nodes.deep_view(),
        }
    }
}

/// The details of a process with the given pid of which no port and no node
/// is known.
pub open spec fn fresh_details(pid: i32) -> ProcessDetailsView {
    ProcessDetailsView {
        pid,
        publisher_ports: Seq::<ServiceKey>::empty(),
        subscriber_ports: Seq::<ServiceKey>::empty(),
        nodes: Seq::<Seq<char>>::empty(),
    }
}

/// The pid that a snapshot gives for `name`: that of the first record with
/// this name, if there is one. Records without a name give none.
pub open spec fn first_pid(records: Seq<ProcessInfo>, name: Seq<char>) -> Option<i32>
    decreases records.len(),
{
    if records.len() == 0 {
        None
    } else {
        match first_pid(records.drop_last(), name) {
            Some(pid) => Some(pid),
            None => if records.last().name.deep_view() == Some(name) {
                Some(records.last().pid)
            } else {
                None
            },
        }
    }
}

/// The table that lists the processes of a snapshot: the names that occur
/// in the records, each once and in ascending order, and for each name the
/// pid of its first record, with no port and no node.
pub open spec fn lists(
    names: Seq<Seq<char>>,
    details: Seq<ProcessDetailsView>,
    records: Seq<ProcessInfo>,
) -> bool {
    &&& ascending::<String>(names)
    &&& names.len() == details.len()
    &&& forall|name: Seq<char>| names.contains(name) <==> first_pid(records, name) is Some
    &&& forall|i: int|
        0 <= i < names.len() ==> #[trigger] details[i] == fresh_details(
            first_pid(records, names[i]).unwrap(),
        )
}

/// A snapshot is listed by one table only.
pub proof fn lemma_listing_unique(
    names: Seq<Seq<char>>,
    details: Seq<ProcessDetailsView>,
    other_names: Seq<Seq<char>>,
    other_details: Seq<ProcessDetailsView>,
    records: Seq<ProcessInfo>,
)
    requires
        lists(names, details, records),
        lists(other_names, other_details, records),
    ensures
        names == other_names,
        details == other_details,
{
    lemma_ascending_unique::<String>(names, other_names);
    assert(details =~= other_details);
}

/// The services of the ports that `process` owns, in the order of the
/// ports. A port counts where both its service and its owner are known.
pub open spec fn services_of(ports: Seq<PortView>, process: Seq<char>) -> Seq<ServiceKey>
    decreases ports.len(),
{
    if ports.len() == 0 {
        Seq::<ServiceKey>::empty()
    } else if ports.last().process == Some(process) && ports.last().service is Some {
        services_of(ports.drop_last(), process).push(ports.last().service.unwrap())
    } else {
        services_of(ports.drop_last(), process)
    }
}

/// The details of the processes `names` cross-linked with the ports of a
/// snapshot: each process keeps the pid it had in `before`, has the
/// services of its publisher ports and of its subscriber ports in port
/// order, and has no node.
pub open spec fn linked(
    names: Seq<Seq<char>>,
    details: Seq<ProcessDetailsView>,
    before: Seq<ProcessDetailsView>,
    publishers: Seq<PortView>,
    subscribers: Seq<PortView>,
) -> bool {
    &&& details.len() == names.len()
    &&& before.len() == names.len()
    &&& forall|i: int|
        0 <= i < names.len() ==> #[trigger] details[i] == (ProcessDetailsView {
            pid: before[i].pid,
            publisher_ports: services_of(publishers, names[i]),
            subscriber_ports: services_of(subscribers, names[i]),
            nodes: Seq::<Seq<char>>::empty(),
        })
}

/// The process aggregator.
pub struct ProcessList {
    /// The processes by name, in ascending order of name.
    pub map: SortedTable<String, ProcessDetails>,
    /// The selected row: its ordinal and its name.
    pub selection: (usize, String),
}

impl ProcessList {
    /// The names of the processes, in table order.
    pub open spec fn names(&self) -> Seq<Seq<char>> {
        self.map.ids()
    }

    /// The details of the processes, each at the position of its name.
    pub open spec fn details(&self) -> Seq<ProcessDetailsView> {
        self.map.values().map_values(|d: ProcessDetails| d.deep_view())
    }

    /// The selection: its ordinal and the name it holds.
    pub open spec fn cursor(&self) -> (int, Seq<char>) {
        selection_view(self.selection)
    }

    /// What `update` makes of the aggregator. Without a snapshot nothing
    /// changes. With one, the table lists the snapshot's processes and the
    /// selection is the old one reconciled with the new table.
    pub open spec fn updated(self, sample: Option<ProcessSnapshot>, after: Self) -> bool {
        match sample {
            None => after == self,
            Some(snapshot) => {
                &&& lists(after.names(), after.details(), snapshot.processes@)
                &&& after.cursor() == reconciled(
                    after.names(),
                    self.cursor(),
                    Seq::<char>::empty(),
                )
            },
        }
    }

    /// What a request for the row `index` makes of the aggregator: the
    /// table stays and the selection is the row nearest to `index`.
    pub open spec fn selected(self, index: int, after: Self) -> bool {
        &&& after.map == self.map
        &&& after.cursor() == selection_at(self.names(), index, Seq::<char>::empty())
    }

    /// What a step down makes of the aggregator.
    pub open spec fn stepped_next(self, after: Self) -> bool {
        self.selected(self.cursor().0 + 1, after)
    }

    /// What a step up makes of the aggregator: at the first row nothing
    /// changes.
    pub open spec fn stepped_previous(self, after: Self) -> bool {
        if self.cursor().0 > 0 {
            self.selected(self.cursor().0 - 1, after)
        } else {
            after.map == self.map && after.cursor() == self.cursor()
        }
    }

    /// An aggregator that has seen no snapshot: an empty table, with the
    /// selection at ordinal 0 and the empty name.
    pub fn new() -> (list: Self)
        ensures
            list.names() == Seq::<Seq<char>>::empty(),
            list.details() == Seq::<ProcessDetailsView>::empty(),
            list.cursor() == (0int, Seq::<char>::empty()),
    {
        let list = ProcessList { map: SortedTable::new(), selection: (0, String::new()) };
        assert(list.details() =~= Seq::<ProcessDetailsView>::empty());
        list
    }

    /// Takes in the latest snapshot of the process topic, if one arrived.
    ///
    /// Without a snapshot nothing changes. With one, the table is rebuilt to
    /// list the snapshot's processes and the selection is reconciled with
    /// the rebuilt table.
    pub fn update(&mut self, sample: Option<ProcessSnapshot>)
        ensures
            old(self).updated(sample, *final(self)),
    {
        if let Some(snapshot) = sample {
            self.map.clear();
            assert(self.details() =~= Seq::<ProcessDetailsView>::empty());
            let count = snapshot.processes.len();
            let mut i: usize = 0;
            while i < count
                invariant
                    i <= count,
                    count == snapshot.processes@.len(),
                    self.selection == old(self).selection,
                    lists(self.names(), self.details(), snapshot.processes@.take(i as int)),
                decreases count - i,
            {
                let ghost seen = snapshot.processes@.take(i as int);
                let ghost next = snapshot.processes@.take(i + 1);
                let ghost names = self.names();
                let ghost details = self.details();
                let record = &snapshot.processes[i];
                proof {
                    assert(next.drop_last() =~= seen);
                    assert(next.last() == *record);
                }
                match &record.name {
                    Some(name) => {
                        let fresh = ProcessDetails {
                            pid: record.pid,
                            publisher_ports: Vec::new(),
                            subscriber_ports: Vec::new(),
                            nodes: Vec::new(),
                        };
                        assert(fresh.deep_view() =~= fresh_details(record.pid)) by {
                            assert(fresh.publisher_ports.deep_view() =~= Seq::<ServiceKey>::empty());
                            assert(fresh.subscriber_ports.deep_view() =~= Seq::<ServiceKey>::empty());
                            assert(fresh.nodes.deep_view() =~= Seq::<Seq<char>>::empty());
                        }
                        let at = self.map.insert_if_absent(name.clone(), fresh);
                        proof {
                            if names.contains(name@) {
                                assert forall|n: Seq<char>|
                                    self.names().contains(n) <==> first_pid(next, n) is Some by {}
                            } else {
                                let inserted = names.insert(at as int, name@);
                                assert(self.names() == inserted);
                                assert(self.details() =~= details.insert(
                                    at as int,
                                    fresh_details(record.pid),
                                ));
                                assert forall|n: Seq<char>|
                                    inserted.contains(n) <==> first_pid(next, n) is Some by {
                                    if inserted.contains(n) {
                                        let k = choose|k: int|
                                            0 <= k < inserted.len() && inserted[k] == n;
                                        if k < at {
                                            assert(names[k] == n);
                                            assert(names.contains(n));
                                        } else if k > at {
                                            assert(names[k - 1] == n);
                                            assert(names.contains(n));
                                        } else {
                                            assert(n == name@);
                                            assert(first_pid(seen, n) is None);
                                            assert(record.name.deep_view() == Some(n));
                                        }
                                        assert(first_pid(next, n) is Some);
                                    }
                                    if first_pid(next, n) is Some {
                                        if first_pid(seen, n) is Some {
                                            assert(names.contains(n));
                                            let k = choose|k: int|
                                                0 <= k < names.len() && names[k] == n;
                                            if k < at {
                                                assert(inserted[k] == n);
                                            } else {
                                                assert(inserted[k + 1] == n);
                                            }
                                        } else {
                                            assert(record.name.deep_view() == Some(n));
                                            assert(inserted[at as int] == n);
                                        }
                                        assert(inserted.contains(n));
                                    }
                                }
                                assert forall|k: int| 0 <= k < inserted.len() implies (
                                #[trigger] self.details()[k]) == fresh_details(
                                    first_pid(next, inserted[k]).unwrap(),
                                ) by {
                                    if k < at {
                                        assert(names.contains(names[k]));
                                        assert(self.details()[k] == details[k]);
                                    } else if k > at {
                                        assert(names.contains(names[k - 1]));
                                        assert(self.details()[k] == details[k - 1]);
                                    }
                                }
                            }
                        }
                    },
                    None => {
                        proof {
                            assert forall|n: Seq<char>|
                                self.names().contains(n) <==> first_pid(next, n) is Some by {}
                        }
                    },
                }
                i = i + 1;
            }
            assert(snapshot.processes@.take(count as int) =~= snapshot.processes@);
            reconcile(&self.map, &mut self.selection, String::new());
        }
    }

    /// Selects the row nearest to `index`, or nothing where the table is
    /// empty.
    pub fn set_selection(&mut self, index: usize)
        ensures
            old(self).selected(index as int, *final(self)),
    {
        set_selection(&self.map, &mut self.selection, index, String::new());
    }

    /// Moves the selection one row down; at the last row it stays.
    pub fn selection_next(&mut self)
        ensures
            old(self).stepped_next(*final(self)),
    {
        let len = self.map.len();
        if self.selection.0 < len {
            self.set_selection(self.selection.0 + 1);
        } else {
            self.set_selection(len);
        }
    }

    /// Moves the selection one row up; at the first row nothing changes.
    pub fn selection_previous(&mut self)
        ensures
            old(self).stepped_previous(*final(self)),
    {
        if self.selection.0 > 0 {
            self.set_selection(self.selection.0 - 1);
        }
    }
    /// Forgets the ports and nodes of every process; names, pids and the
    /// selection stay.
    pub fn clear_ports(&mut self)
        ensures
            final(self).names() == old(self).names(),
            final(self).selection == old(self).selection,
            linked(
                final(self).names(),
                final(self).details(),
                old(self).details(),
                Seq::<PortView>::empty(),
                Seq::<PortView>::empty(),
            ),
    {
        let count = self.map.len();
        let mut i: usize = 0;
        while i < count
            invariant
                i <= count,
                count == self.map.values().len(),
                self.names() == old(self).names(),
                self.selection == old(self).selection,
                self.map.values().len() == old(self).map.values().len(),
                self.names().len() == self.map.values().len(),
                forall|k: int|
                    0 <= k < i ==> (#[trigger] self.details()[k]) == fresh_details(
                        old(self).details()[k].pid,
                    ),
                forall|k: int|
                    i <= k < count ==> (#[trigger] self.map.values()[k]) == old(
                        self,
                    ).map.values()[k],
            decreases count - i,
        {
            let ghost values = self.map.values();
            let ghost cleared_before = self.details();
            let details = self.map.value_mut(i);
            details.publisher_ports.clear();
            details.subscriber_ports.clear();
            details.nodes.clear();
            proof {
                let cleared = self.map.values()[i as int];
                assert(cleared.publisher_ports.deep_view() =~= Seq::<ServiceKey>::empty());
                assert(cleared.subscriber_ports.deep_view() =~= Seq::<ServiceKey>::empty());
                assert(cleared.nodes.deep_view() =~= Seq::<Seq<char>>::empty());
                assert(self.details()[i as int] == fresh_details(old(self).details()[i as int].pid));
                assert forall|k: int| 0 <= k < i implies (#[trigger] self.details()[k])
                    == fresh_details(old(self).details()[k].pid) by {
                    assert(self.map.values()[k] == values[k]);
                    assert(cleared_before[k] == values[k].deep_view());
                    assert(self.details()[k] == cleared_before[k]);
                }
            }
            i = i + 1;
        }
    }

    /// Takes note of one port of a snapshot: where the port's service and
    /// owner are known and the owner is in the table, the service is added
    /// to the owner's ports on the side of `role`.
    pub(crate) fn note_port(
        &mut self,
        port: &PortInfo,
        role: PortRole,
        Ghost(before): Ghost<Seq<ProcessDetailsView>>,
        Ghost(publishers): Ghost<Seq<PortView>>,
        Ghost(subscribers): Ghost<Seq<PortView>>,
    )
        requires
            linked(old(self).names(), old(self).details(), before, publishers, subscribers),
        ensures
            final(self).names() == old(self).names(),
            final(self).selection == old(self).selection,
            role == PortRole::Publisher ==> linked(
                final(self).names(),
                final(self).details(),
                before,
                publishers.push(port.deep_view()),
                subscribers,
            ),
            role == PortRole::Subscriber ==> linked(
                final(self).names(),
                final(self).details(),
                before,
                publishers,
                subscribers.push(port.deep_view()),
            ),
    {
        let ghost names = self.names();
        let ghost details = self.details();
        let ghost seen = port.deep_view();
        proof {
            assert(publishers.push(seen).drop_last() =~= publishers);
            assert(subscribers.push(seen).drop_last() =~= subscribers);
        }
        match (&port.service_description, &port.process_name) {
            (Some(service), Some(process)) => {
                match self.map.position_of(process) {
                    Some(index) => {
                        proof {
                            lemma_ascending_distinct::<String>(names);
                        }
                        let ghost values = self.map.values();
                        let owner = self.map.value_mut(index);
                        let ghost ports_before = match role {
                            PortRole::Publisher => owner.publisher_ports.deep_view(),
                            PortRole::Subscriber => owner.subscriber_ports.deep_view(),
                        };
                        match role {
                            PortRole::Publisher => {
                                owner.publisher_ports.push(service.duplicate());
                            },
                            PortRole::Subscriber => {
                                owner.subscriber_ports.push(service.duplicate());
                            },
                        }
                        proof {
                            let changed = self.map.values()[index as int];
                            match role {
                                PortRole::Publisher => {
                                    assert(changed.publisher_ports.deep_view() =~= ports_before.push(
                                        service.deep_view(),
                                    ));
                                },
                                PortRole::Subscriber => {
                                    assert(changed.subscriber_ports.deep_view()
                                        =~= ports_before.push(service.deep_view()));
                                },
                            }
                            assert(details[index as int] == values[index as int].deep_view());
                            assert forall|k: int| 0 <= k < names.len() && k != index implies (
                            #[trigger] self.details()[k]) == details[k] && names[k]
                                != process@ by {
                                assert(self.map.values()[k] == values[k]);
                            }
                        }
                    },
                    None => {
                        proof {
                            assert forall|k: int| 0 <= k < names.len() implies names[k]
                                != process@ by {
                                assert(names.contains(names[k]));
                            }
                        }
                    },
                }
            },
            _ => {},
        }
    }
}

} // verus!
