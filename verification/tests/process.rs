use iceray::introspection::ProcessInfo;
use iceray::introspection::ProcessSnapshot;
use iceray::process::ProcessList;

fn named(name: &str, pid: i32) -> ProcessInfo {
    ProcessInfo { name: Some(name.to_string()), pid }
}

fn processes(names: &[&str]) -> ProcessSnapshot {
    let mut list = Vec::new();
    for (i, name) in names.iter().enumerate() {
        list.push(named(name, 100 + i as i32));
    }
    ProcessSnapshot { processes: list }
}

fn names(list: &ProcessList) -> Vec<String> {
    (0..list.map.len()).map(|i| list.map.key_at(i).clone()).collect()
}

fn pids(list: &ProcessList) -> Vec<i32> {
    (0..list.map.len()).map(|i| list.map.value_at(i).pid).collect()
}

fn listing(names: &[&str], selection: (usize, &str)) -> ProcessList {
    let mut list = ProcessList::new();
    list.update(Some(processes(names)));
    list.selection = (selection.0, selection.1.to_string());
    list
}

#[test]
fn process_list_starts_empty() {
    let list = ProcessList::new();
    assert_eq!(list.map.len(), 0);
    assert_eq!(list.selection, (0, String::new()));
}

#[test]
fn process_update_lists_the_processes_by_name() {
    let mut list = ProcessList::new();
    list.update(Some(ProcessSnapshot {
        processes: vec![named("roudi", 7), named("camera", 31), named("lidar", 12)],
    }));
    assert_eq!(names(&list), vec!["camera", "lidar", "roudi"]);
    assert_eq!(pids(&list), vec![31, 12, 7]);
    for i in 0..3 {
        let details = list.map.value_at(i);
        assert!(details.publisher_ports.is_empty());
        assert!(details.subscriber_ports.is_empty());
        assert!(details.nodes.is_empty());
    }
}

#[test]
fn process_names_are_ordered_by_their_bytes() {
    let mut list = ProcessList::new();
    list.update(Some(processes(&["b", "a", "B", "ab", "", "é", "z", "a0"])));
    let mut expected: Vec<String> =
        ["b", "a", "B", "ab", "", "é", "z", "a0"].iter().map(|s| s.to_string()).collect();
    expected.sort();
    assert_eq!(names(&list), expected);
    assert_eq!(names(&list), vec!["", "B", "a", "a0", "ab", "b", "z", "é"]);
}

#[test]
fn process_update_keeps_the_first_record_of_a_name() {
    let mut list = ProcessList::new();
    list.update(Some(ProcessSnapshot {
        processes: vec![named("a", 1), named("b", 2), named("a", 3), named("b", 4)],
    }));
    assert_eq!(names(&list), vec!["a", "b"]);
    assert_eq!(pids(&list), vec![1, 2]);
}

#[test]
fn process_update_passes_over_records_without_name() {
    let mut list = ProcessList::new();
    list.update(Some(ProcessSnapshot {
        processes: vec![ProcessInfo { name: None, pid: 1 }, named("a", 2)],
    }));
    assert_eq!(names(&list), vec!["a"]);
    assert_eq!(pids(&list), vec![2]);
}

#[test]
fn process_update_without_snapshot_changes_nothing() {
    let mut list = listing(&["a", "b", "c"], (2, "c"));
    list.update(None);
    assert_eq!(names(&list), vec!["a", "b", "c"]);
    assert_eq!(list.selection, (2, "c".to_string()));
}

#[test]
fn process_update_replaces_the_table() {
    let mut list = listing(&["a", "b", "c"], (0, "a"));
    list.update(Some(processes(&["x", "b"])));
    assert_eq!(names(&list), vec!["b", "x"]);
    assert_eq!(pids(&list), vec![101, 100]);
}

#[test]
fn process_lookup_by_name() {
    let list = listing(&["a", "b", "c"], (0, "a"));
    assert_eq!(list.map.get(&"b".to_string()).map(|d| d.pid), Some(101));
    assert!(list.map.get(&"d".to_string()).is_none());
    assert_eq!(list.map.position_of(&"c".to_string()), Some(2));
    assert_eq!(list.map.position_of(&"".to_string()), None);
}

#[test]
fn first_update_selects_the_first_process() {
    let mut list = ProcessList::new();
    list.update(Some(processes(&["b", "a", "c"])));
    assert_eq!(list.selection, (0, "a".to_string()));
}

#[test]
fn selection_stays_with_its_process_where_it_stands() {
    let mut list = listing(&["a", "b", "c"], (1, "b"));
    list.update(Some(processes(&["c", "b", "a"])));
    assert_eq!(list.selection, (1, "b".to_string()));
}

#[test]
fn selection_follows_its_process_to_a_new_position() {
    let mut list = listing(&["a", "b", "c"], (1, "b"));
    list.update(Some(processes(&["b", "x", "y", "0", "1"])));
    assert_eq!(names(&list), vec!["0", "1", "b", "x", "y"]);
    assert_eq!(list.selection, (2, "b".to_string()));
    list.update(Some(processes(&["b", "z"])));
    assert_eq!(list.selection, (0, "b".to_string()));
}

#[test]
fn selection_takes_the_process_at_its_ordinal_when_its_own_is_gone() {
    let mut list = listing(&["a", "b", "c"], (1, "b"));
    list.update(Some(processes(&["a", "c"])));
    assert_eq!(list.selection, (1, "c".to_string()));
}

#[test]
fn selection_is_clamped_to_the_last_process_when_its_own_is_gone() {
    let mut list = listing(&["a", "b", "c", "d"], (3, "d"));
    list.update(Some(processes(&["a", "c"])));
    assert_eq!(list.selection, (1, "c".to_string()));
    let mut list = listing(&["a", "b", "c", "d"], (2, "c"));
    list.update(Some(processes(&["z"])));
    assert_eq!(list.selection, (0, "z".to_string()));
}

#[test]
fn selection_over_an_empty_table_is_blank() {
    let mut list = listing(&["a", "b", "c"], (2, "c"));
    list.update(Some(processes(&[])));
    assert_eq!(list.map.len(), 0);
    assert_eq!(list.selection, (0, String::new()));
}

#[test]
fn process_selection_next_steps_down_and_stops_at_the_last_row() {
    let mut list = listing(&["a", "b", "c"], (0, "a"));
    list.selection_next();
    assert_eq!(list.selection, (1, "b".to_string()));
    list.selection_next();
    assert_eq!(list.selection, (2, "c".to_string()));
    list.selection_next();
    assert_eq!(list.selection, (2, "c".to_string()));
}

#[test]
fn process_selection_previous_steps_up_and_stops_at_the_first_row() {
    let mut list = listing(&["a", "b", "c"], (2, "c"));
    list.selection_previous();
    assert_eq!(list.selection, (1, "b".to_string()));
    list.selection_previous();
    assert_eq!(list.selection, (0, "a".to_string()));
    list.selection_previous();
    assert_eq!(list.selection, (0, "a".to_string()));
}

#[test]
fn process_selection_steps_over_an_empty_table() {
    let mut list = ProcessList::new();
    list.selection_next();
    assert_eq!(list.selection, (0, String::new()));
    list.selection_previous();
    assert_eq!(list.selection, (0, String::new()));
    list.selection = (5, "gone".to_string());
    list.selection_next();
    assert_eq!(list.selection, (0, String::new()));
}

#[test]
fn process_selection_steps_from_a_stale_ordinal_are_clamped() {
    let mut list = listing(&["a", "b", "c"], (9, "x"));
    list.selection_next();
    assert_eq!(list.selection, (2, "c".to_string()));
    let mut list = listing(&["a", "b", "c"], (9, "x"));
    list.selection_previous();
    assert_eq!(list.selection, (2, "c".to_string()));
    let mut list = listing(&["a", "b", "c"], (usize::MAX, "x"));
    list.selection_next();
    assert_eq!(list.selection, (2, "c".to_string()));
}

#[test]
fn process_selection_previous_at_the_first_row_keeps_a_stale_key() {
    let mut list = listing(&["a", "b"], (0, "x"));
    list.selection_previous();
    assert_eq!(list.selection, (0, "x".to_string()));
}

#[test]
fn process_set_selection_selects_the_nearest_row() {
    let mut list = listing(&["a", "b", "c"], (0, "a"));
    list.set_selection(1);
    assert_eq!(list.selection, (1, "b".to_string()));
    list.set_selection(3);
    assert_eq!(list.selection, (2, "c".to_string()));
    list.set_selection(0);
    assert_eq!(list.selection, (0, "a".to_string()));
}

#[test]
fn process_clear_ports_keeps_names_and_pids() {
    let mut list = listing(&["a", "b"], (1, "b"));
    list.map.value_mut(0).nodes.push("node".to_string());
    list.clear_ports();
    assert_eq!(names(&list), vec!["a", "b"]);
    assert_eq!(pids(&list), vec![100, 101]);
    assert!(list.map.value_at(0).nodes.is_empty());
    assert_eq!(list.selection, (1, "b".to_string()));
}
