use gpuitop::data::model::{FloatKeys, ProcessInfo};
use gpuitop::data::processes::tree::{ancestors_to_expand, with_ancestors};
use std::collections::{HashMap, HashSet};

fn make_proc(pid: i32, ppid: i32) -> ProcessInfo {
    ProcessInfo {
        pid,
        ppid,
        name: "test".into(),
        user: "root".into(),
        state: 'S',
        command: "test".into(),
        cgroup: String::new(),
        mem_rss: 0,
        vram_bytes: None,
        is_gui: false,
        is_kthread: false,
        is_owned_by_current_user: false,
        is_electron: false,
        electron_app_name: None,
        icon_name: None,
        has_children: false,
        keys: FloatKeys::default(),
    }
}

#[test]
fn test_with_ancestors_single_match() {
    let mut map = HashMap::new();
    map.insert(200, 100);
    map.insert(100, 1);
    map.insert(1, 0);
    let matched: HashSet<i32> = [200].iter().copied().collect();
    let display = with_ancestors(&matched, &map);
    assert!(display.contains(&200));
    assert!(display.contains(&100));
    assert!(display.contains(&1));
    assert_eq!(display.len(), 3);
}

#[test]
fn test_with_ancestors_sibling_not_included() {
    let mut map = HashMap::new();
    map.insert(200, 100);
    map.insert(201, 100);
    map.insert(100, 1);
    map.insert(1, 0);
    let matched: HashSet<i32> = [200].iter().copied().collect();
    let display = with_ancestors(&matched, &map);
    assert!(display.contains(&200));
    assert!(display.contains(&100));
    assert!(display.contains(&1));
    assert!(!display.contains(&201));
    assert_eq!(display.len(), 3);
}

#[test]
fn with_ancestors_stops_at_a_parent_cycle() {
    let mut map = HashMap::new();
    map.insert(5, 6);
    map.insert(6, 5);
    let matched: HashSet<i32> = [5].into();
    let display = with_ancestors(&matched, &map);
    assert_eq!(display, [5, 6].into());
}

#[test]
fn test_ancestors_to_expand() {
    let pid_lookup: HashMap<i32, ProcessInfo> =
        [(1, make_proc(1, 0)), (100, make_proc(100, 1)), (200, make_proc(200, 100))].into();
    let matched: HashSet<i32> = [200].iter().copied().collect();
    let expand = ancestors_to_expand(&matched, &pid_lookup);
    assert!(expand.contains(&100));
    assert!(expand.contains(&1));
    assert!(!expand.contains(&200));
    assert_eq!(expand.len(), 2);
}
