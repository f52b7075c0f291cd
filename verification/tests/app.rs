use iceray::app::App;
use iceray::app::TabsState;
use iceray::event::Key;
use iceray::event::MouseButton;
use iceray::event::MouseEvent;
use iceray::introspection::MemPoolInfo;
use iceray::introspection::MemorySegment;
use iceray::introspection::MemorySnapshot;
use iceray::introspection::PortInfo;
use iceray::introspection::PortSnapshot;
use iceray::introspection::ProcessInfo;
use iceray::introspection::ProcessSnapshot;
use iceray::introspection::ServiceDescription;

fn memory() -> MemorySnapshot {
    let pool = MemPoolInfo {
        used_chunks: 3,
        min_free_chunks: 9,
        total_chunks: 12,
        chunk_size: 128,
        payload_size: 64,
    };
    let segment = MemorySegment {
        segment_id: 0,
        writer_group: None,
        reader_group: None,
        mempools: vec![pool, pool, pool],
    };
    MemorySnapshot { segments: vec![segment] }
}

fn processes() -> ProcessSnapshot {
    ProcessSnapshot {
        processes: vec![
            ProcessInfo { name: Some("a".to_string()), pid: 1 },
            ProcessInfo { name: Some("b".to_string()), pid: 2 },
        ],
    }
}

fn service(name: &str) -> ServiceDescription {
    ServiceDescription {
        service_id: name.to_string(),
        instance_id: "i".to_string(),
        event_id: "e".to_string(),
    }
}

fn ports() -> PortSnapshot {
    let port = |s: &str, p: &str| PortInfo {
        service_description: Some(service(s)),
        process_name: Some(p.to_string()),
    };
    PortSnapshot {
        publisher_ports: vec![port("s", "a"), port("t", "a")],
        subscriber_ports: vec![port("s", "b")],
    }
}

fn ticked() -> App<'static> {
    let mut app = App::new("test");
    app.on_tick(Some(memory()), Some(processes()), Some(ports()));
    app
}

#[test]
fn tabs_start_at_the_first_title() {
    let tabs = TabsState::new(vec!["one", "two"]);
    assert_eq!(tabs.index, 0);
    assert_eq!(tabs.titles, vec!["one", "two"]);
}

#[test]
fn tabs_next_stops_at_the_last_title() {
    let mut tabs = TabsState::new(vec!["one", "two", "three"]);
    tabs.next();
    assert_eq!(tabs.index, 1);
    tabs.next();
    assert_eq!(tabs.index, 2);
    tabs.next();
    assert_eq!(tabs.index, 2);
    assert_eq!(tabs.titles, vec!["one", "two", "three"]);
}

#[test]
fn tabs_previous_stops_at_the_first_title() {
    let mut tabs = TabsState::new(vec!["one", "two", "three"]);
    tabs.index = 2;
    tabs.previous();
    assert_eq!(tabs.index, 1);
    tabs.previous();
    assert_eq!(tabs.index, 0);
    tabs.previous();
    assert_eq!(tabs.index, 0);
}

#[test]
fn tabs_without_titles_do_not_move() {
    let mut tabs = TabsState::new(vec![]);
    tabs.next();
    assert_eq!(tabs.index, 0);
    tabs.previous();
    assert_eq!(tabs.index, 0);
}

#[test]
fn tabs_with_a_stale_index_do_not_move_forward() {
    let mut tabs = TabsState::new(vec!["one", "two"]);
    tabs.index = 7;
    tabs.next();
    assert_eq!(tabs.index, 7);
    tabs.index = usize::MAX;
    tabs.next();
    assert_eq!(tabs.index, usize::MAX);
    tabs.previous();
    assert_eq!(tabs.index, usize::MAX - 1);
}

#[test]
fn app_starts_on_the_overview() {
    let app = App::new("iceray - iceoryx Introspection");
    assert_eq!(app.title, "iceray - iceoryx Introspection");
    assert!(!app.should_quit);
    assert_eq!(app.mouse_hold_position, None);
    assert_eq!(app.tabs.titles, vec!["Overview", "Memory", "Processes", "Services"]);
    assert_eq!(app.tabs.index, 0);
    assert!(app.memory.segments.is_none());
    assert_eq!(app.memory.selection, (0, 0));
    assert_eq!(app.processes.map.len(), 0);
    assert_eq!(app.processes.selection, (0, String::new()));
    assert_eq!(app.services.map.len(), 0);
    assert_eq!(app.services.selection, (0, ServiceDescription::default()));
}

#[test]
fn key_q_asks_to_quit() {
    let mut app = App::new("test");
    app.on_key(Key::Char('q'));
    assert!(app.should_quit);
    assert_eq!(app.tabs.index, 0);
}

#[test]
fn other_keys_are_ignored() {
    let mut app = ticked();
    app.tabs.index = 2;
    for key in [Key::Char('Q'), Key::Char('x'), Key::Ctrl('q'), Key::Alt('q'), Key::Esc, Key::F(1), Key::Home, Key::Null] {
        app.on_key(key);
    }
    assert!(!app.should_quit);
    assert_eq!(app.tabs.index, 2);
    assert_eq!(app.memory.selection, (0, 0));
    assert_eq!(app.processes.selection, (0, "a".to_string()));
    assert_eq!(app.services.selection, (0, service("s")));
}

#[test]
fn right_and_left_change_the_tab() {
    let mut app = App::new("test");
    app.on_key(Key::Right);
    assert_eq!(app.tabs.index, 1);
    app.on_key(Key::Right);
    app.on_key(Key::Right);
    assert_eq!(app.tabs.index, 3);
    app.on_key(Key::Right);
    assert_eq!(app.tabs.index, 3);
    app.on_key(Key::Left);
    assert_eq!(app.tabs.index, 2);
    app.on_key(Key::Left);
    app.on_key(Key::Left);
    app.on_key(Key::Left);
    assert_eq!(app.tabs.index, 0);
    assert!(!app.should_quit);
}

#[test]
fn down_and_up_do_nothing_on_the_overview() {
    let mut app = ticked();
    app.on_key(Key::Down);
    app.on_key(Key::Up);
    assert_eq!(app.memory.selection, (0, 0));
    assert_eq!(app.processes.selection, (0, "a".to_string()));
    assert_eq!(app.services.selection, (0, service("s")));
}

#[test]
fn down_and_up_move_the_memory_selection_on_the_memory_tab() {
    let mut app = ticked();
    app.tabs.index = 1;
    app.on_key(Key::Down);
    app.on_key(Key::Down);
    assert_eq!(app.memory.selection, (0, 2));
    app.on_key(Key::Down);
    assert_eq!(app.memory.selection, (0, 2));
    app.on_key(Key::Up);
    assert_eq!(app.memory.selection, (0, 1));
    assert_eq!(app.processes.selection, (0, "a".to_string()));
    assert_eq!(app.services.selection, (0, service("s")));
}

#[test]
fn down_and_up_move_the_process_selection_on_the_process_tab() {
    let mut app = ticked();
    app.tabs.index = 2;
    app.on_key(Key::Down);
    assert_eq!(app.processes.selection, (1, "b".to_string()));
    app.on_key(Key::Down);
    assert_eq!(app.processes.selection, (1, "b".to_string()));
    app.on_key(Key::Up);
    assert_eq!(app.processes.selection, (0, "a".to_string()));
    assert_eq!(app.memory.selection, (0, 0));
    assert_eq!(app.services.selection, (0, service("s")));
}

#[test]
fn down_and_up_move_the_service_selection_on_the_service_tab() {
    let mut app = ticked();
    app.tabs.index = 3;
    app.on_key(Key::Down);
    assert_eq!(app.services.selection, (1, service("t")));
    app.on_key(Key::Up);
    assert_eq!(app.services.selection, (0, service("s")));
    assert_eq!(app.memory.selection, (0, 0));
    assert_eq!(app.processes.selection, (0, "a".to_string()));
}

#[test]
fn down_and_up_do_nothing_on_a_tab_that_does_not_exist() {
    let mut app = ticked();
    app.tabs.index = 4;
    app.on_key(Key::Down);
    app.on_key(Key::Up);
    assert_eq!(app.memory.selection, (0, 0));
    assert_eq!(app.processes.selection, (0, "a".to_string()));
    assert_eq!(app.services.selection, (0, service("s")));
}

#[test]
fn pointer_position_is_kept_while_pressed_or_held() {
    let mut app = App::new("test");
    app.on_mouse(MouseEvent::Press(MouseButton::Left, 3, 4));
    assert_eq!(app.mouse_hold_position, Some((3, 4)));
    app.on_mouse(MouseEvent::Hold(5, 6));
    assert_eq!(app.mouse_hold_position, Some((5, 6)));
    app.on_mouse(MouseEvent::Release(5, 6));
    assert_eq!(app.mouse_hold_position, None);
    app.on_mouse(MouseEvent::Press(MouseButton::WheelDown, 1, 1));
    assert_eq!(app.mouse_hold_position, Some((1, 1)));
    assert!(!app.should_quit);
    assert_eq!(app.tabs.index, 0);
}

#[test]
fn tick_feeds_every_aggregator() {
    let app = ticked();
    assert_eq!(app.memory.segments.as_ref().unwrap().segments.len(), 1);
    assert_eq!(app.memory.used_chunks_history.get((0, 2)).unwrap().len(), 1);
    assert_eq!(app.processes.map.len(), 2);
    assert_eq!(app.services.map.len(), 2);
    let a = app.processes.map.get(&"a".to_string()).unwrap();
    assert_eq!(a.pid, 1);
    assert_eq!(a.publisher_ports, vec![service("s"), service("t")]);
    let b = app.processes.map.get(&"b".to_string()).unwrap();
    assert_eq!(b.subscriber_ports, vec![service("s")]);
    let s = app.services.map.get(&service("s")).unwrap();
    assert_eq!(s.publisher_processes, vec!["a"]);
    assert_eq!(s.subscriber_processes, vec!["b"]);
    assert_eq!(app.tabs.index, 0);
    assert!(!app.should_quit);
}

#[test]
fn tick_links_ports_to_the_processes_of_the_same_tick() {
    let mut app = App::new("test");
    app.on_tick(None, None, Some(ports()));
    assert_eq!(app.processes.map.len(), 0);
    assert_eq!(app.services.map.len(), 2);
    app.on_tick(None, Some(processes()), Some(ports()));
    let a = app.processes.map.get(&"a".to_string()).unwrap();
    assert_eq!(a.publisher_ports.len(), 2);
}

#[test]
fn tick_without_snapshots_changes_nothing() {
    let mut app = ticked();
    app.tabs.index = 2;
    app.on_key(Key::Down);
    app.on_tick(None, None, None);
    assert_eq!(app.memory.used_chunks_history.get((0, 0)).unwrap().len(), 1);
    assert_eq!(app.processes.map.len(), 2);
    assert_eq!(app.processes.selection, (1, "b".to_string()));
    assert_eq!(app.processes.map.get(&"a".to_string()).unwrap().publisher_ports.len(), 2);
    assert_eq!(app.services.map.len(), 2);
}

#[test]
fn tick_with_processes_only_leaves_them_without_ports() {
    let mut app = ticked();
    app.on_tick(None, Some(processes()), None);
    let a = app.processes.map.get(&"a".to_string()).unwrap();
    assert!(a.publisher_ports.is_empty());
    assert_eq!(app.services.map.len(), 2);
}
