//! Application state: the active tab, the pointer position and the three
//! aggregators, together with the handlers that the event loop drives.

use crate::event::Key;
use crate::event::MouseEvent;
use crate::history::UsageSample;
use crate::introspection::MemorySnapshot;
use crate::introspection::PortSnapshot;
use crate::introspection::ProcessSnapshot;
use crate::memory::MemorySegments;
use crate::memory::USED_CHUNKS_HISTORY_SIZE;
use crate::process::ProcessList;
use crate::service::ServiceList;
use vstd::prelude::*;

verus! {

/// The tab bar: a list of titles and the position of the active one.
pub struct TabsState<'a> {
    pub titles: Vec<&'a str>,
    pub index: usize,
}

impl<'a> TabsState<'a> {
    /// Position of the active tab after a step to the right: the next
    /// position where there is one, the same position at the right end.
    pub open spec fn index_after_next(self) -> usize {
        if self.index + 1 < self.titles@.len() {
            (self.index + 1) as usize
        } else {
            self.index
        }
    }

    /// Position of the active tab after a step to the left.
    pub open spec fn index_after_previous(self) -> usize {
        if self.index > 0 {
            (self.index - 1) as usize
        } else {
            self.index
        }
    }

    /// A tab bar over `titles` with the first tab active.
    pub fn new(titles: Vec<&'a str>) -> (tabs: TabsState<'a>)
        ensures
            tabs.titles == titles,
            tabs.index == 0,
    {
        TabsState { titles, index: 0 }
    }

    /// Activates the tab to the right; a no-op on the last tab.
    pub fn next(&mut self)
        ensures
            final(self).titles == old(self).titles,
            final(self).index == old(self).index_after_next(),
    {
        if self.index < self.titles.len() && self.index + 1 < self.titles.len() {
            self.index = self.index + 1;
        }
    }

    /// Activates the tab to the left; a no-op on the first tab.
    pub fn previous(&mut self)
        ensures
            final(self).titles == old(self).titles,
            final(self).index == old(self).index_after_previous(),
    {
        if self.index > 0 {
            self.index = self.index - 1;
        }
    }
}

/// The position of the memory tab.
pub const MEMORY_TAB: usize = 1;

/// The position of the process tab.
pub const PROCESS_TAB: usize = 2;

/// The position of the service tab.
pub const SERVICE_TAB: usize = 3;

/// The pointer position that a use of the pointer leaves: where a button
/// was pressed or is held, and none once it is released.
pub open spec fn hold_position(mouse: MouseEvent) -> Option<(u16, u16)> {
    match mouse {
        MouseEvent::Press(_, x, y) => Some((x, y)),
        MouseEvent::Hold(x, y) => Some((x, y)),
        MouseEvent::Release(_, _) => None,
    }
}

/// The state of the dashboard.
pub struct App<'a> {
    pub title: &'a str,
    /// Set once the user asked to quit.
    pub should_quit: bool,
    /// Where the pointer is held, if it is.
    pub mouse_hold_position: Option<(u16, u16)>,
    pub tabs: TabsState<'a>,
    pub memory: MemorySegments,
    pub processes: ProcessList,
    pub services: ServiceList,
}

impl<'a> App<'a> {
    /// What a key makes of the dashboard. `q` asks to quit. Right and left
    /// change the active tab. Down and up move the selection of the
    /// aggregator whose tab is active, and do nothing on the overview.
    /// Every other key is ignored.
    pub open spec fn key_pressed(self, key: Key, after: Self) -> bool {
        if key == Key::Char('q') {
            after == (App { should_quit: true, ..self })
        } else if key == Key::Right {
            after == (App {
                tabs: TabsState { titles: self.tabs.titles, index: self.tabs.index_after_next() },
                ..self
            })
        } else if key == Key::Left {
            after == (App {
                tabs: TabsState {
                    titles: self.tabs.titles,
                    index: self.tabs.index_after_previous(),
                },
                ..self
            })
        } else if key == Key::Up {
            if self.tabs.index == MEMORY_TAB {
                &&& self.memory.stepped_previous(after.memory)
                &&& after == (App { memory: after.memory, ..self })
            } else if self.tabs.index == PROCESS_TAB {
                &&& self.processes.stepped_previous(after.processes)
                &&& after == (App { processes: after.processes, ..self })
            } else if self.tabs.index == SERVICE_TAB {
                &&& self.services.stepped_previous(after.services)
                &&& after == (App { services: after.services, ..self })
            } else {
                after == self
            }
        } else if key == Key::Down {
            if self.tabs.index == MEMORY_TAB {
                &&& self.memory.stepped_next(after.memory)
                &&& after == (App { memory: after.memory, ..self })
            } else if self.tabs.index == PROCESS_TAB {
                &&& self.processes.stepped_next(after.processes)
                &&& after == (App { processes: after.processes, ..self })
            } else if self.tabs.index == SERVICE_TAB {
                &&& self.services.stepped_next(after.services)
                &&& after == (App { services: after.services, ..self })
            } else {
                after == self
            }
        } else {
            after == self
        }
    }

    /// What a tick makes of the dashboard: the memory aggregator takes the
    /// memory snapshot, the process aggregator takes the process snapshot,
    /// and then the service aggregator takes the port snapshot and
    /// cross-links the processes as they are listed after their own update.
    pub open spec fn ticked(
        self,
        memory: Option<MemorySnapshot>,
        processes: Option<ProcessSnapshot>,
        ports: Option<PortSnapshot>,
        after: Self,
    ) -> bool {
        &&& after.title == self.title
        &&& after.should_quit == self.should_quit
        &&& after.mouse_hold_position == self.mouse_hold_position
        &&& after.tabs == self.tabs
        &&& self.memory.updated(memory, after.memory)
        &&& exists|listed: ProcessList| #[trigger]
            self.processes.updated(processes, listed) && self.services.updated(
                listed,
                ports,
                after.services,
                after.processes,
            )
    }

    /// The dashboard at startup: the four tabs with the overview active, no
    /// request to quit, no pointer position, and aggregators that have seen
    /// no snapshot.
    pub fn new(title: &'a str) -> (app: Self)
        ensures
            app.title == title,
            !app.should_quit,
            app.mouse_hold_position is None,
            app.tabs.index == 0,
            app.tabs.titles@.len() == 4,
            app.tabs.titles@[0]@ == "Overview"@,
            app.tabs.titles@[1]@ == "Memory"@,
            app.tabs.titles@[2]@ == "Processes"@,
            app.tabs.titles@[3]@ == "Services"@,
            app.memory.segments is None,
            app.memory.selection == (0u32, 0usize),
            app.memory.used_chunks_history@ == Map::<(u32, usize), Seq<UsageSample>>::empty(),
            app.memory.used_chunks_history.spec_capacity() == USED_CHUNKS_HISTORY_SIZE,
            app.processes.names().len() == 0,
            app.processes.details().len() == 0,
            app.processes.cursor() == (0int, Seq::<char>::empty()),
            app.services.services().len() == 0,
            app.services.details().len() == 0,
            app.services.cursor() == (0int, crate::introspection::blank_service()),
    {
        App {
            title,
            should_quit: false,
            mouse_hold_position: None,
            tabs: TabsState::new(vec!["Overview", "Memory", "Processes", "Services"]),
            memory: MemorySegments::new(),
            processes: ProcessList::new(),
            services: ServiceList::new(),
        }
    }

    /// Handles a key.
    pub fn on_key(&mut self, k: Key)
        ensures
            old(self).key_pressed(k, *final(self)),
    {
        match k {
            Key::Char('q') => {
                self.should_quit = true;
            },
            Key::Right => {
                self.tabs.next();
            },
            Key::Left => {
                self.tabs.previous();
            },
            Key::Up => {
                if self.tabs.index == MEMORY_TAB {
                    self.memory.selection_previous();
                } else if self.tabs.index == PROCESS_TAB {
                    self.processes.selection_previous();
                } else if self.tabs.index == SERVICE_TAB {
                    self.services.selection_previous();
                }
            },
            Key::Down => {
                if self.tabs.index == MEMORY_TAB {
                    self.memory.selection_next();
                } else if self.tabs.index == PROCESS_TAB {
                    self.processes.selection_next();
                } else if self.tabs.index == SERVICE_TAB {
                    self.services.selection_next();
                }
            },
            _ => {},
        }
    }

    /// Handles a use of the pointer: remembers where a button was pressed
    /// or is held, and forgets the position on anything else.
    pub fn on_mouse(&mut self, m: MouseEvent)
        ensures
            *final(self) == (App { mouse_hold_position: hold_position(m), ..*old(self) }),
    {
        match m {
            MouseEvent::Press(_, x, y) => {
                self.mouse_hold_position = Some((x, y));
            },
            MouseEvent::Hold(x, y) => {
                self.mouse_hold_position = Some((x, y));
            },
            _ => {
                self.mouse_hold_position = None;
            },
        }
    }

    /// Handles a tick: each aggregator takes in the snapshot that was
    /// polled for its topic, if one arrived.
    pub fn on_tick(
        &mut self,
        memory: Option<MemorySnapshot>,
        processes: Option<ProcessSnapshot>,
        ports: Option<PortSnapshot>,
    )
        ensures
            old(self).ticked(memory, processes, ports, *final(self)),
    {
        self.memory.update(memory);
        self.processes.update(processes);
        let ghost listed = self.processes;
        self.services.update(&mut self.processes, ports);
        assert(old(self).processes.updated(processes, listed));
    }
}

} // verus!
