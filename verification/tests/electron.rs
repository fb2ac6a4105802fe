use gpuitop::data::model::{FloatKeys, ProcessInfo};
use gpuitop::snapshot::processes::{
    capitalize, detect_electron_processes_checked, electron_app_name_checked, electron_roots,
    extract_electron_app_name, find_electron_root, propagate_icons,
};
use std::collections::{HashMap, HashSet};

fn make_stub_proc(pid: i32, ppid: i32) -> ProcessInfo {
    ProcessInfo {
        pid,
        ppid,
        name: String::new(),
        user: String::new(),
        state: 'S',
        command: String::new(),
        cgroup: String::new(),
        mem_rss: 0,
        vram_bytes: None,
        is_gui: false,
        is_kthread: false,
        is_owned_by_current_user: false,
        is_electron: false,
        electron_app_name: None,
        icon_name: None,
        has_children: false,
        keys: FloatKeys::default(),
    }
}

fn with_icon(pid: i32, ppid: i32, icon: &str) -> ProcessInfo {
    let mut p = make_stub_proc(pid, ppid);
    p.icon_name = Some(icon.into());
    p
}

fn with_command(pid: i32, ppid: i32, name: &str, command: &str) -> ProcessInfo {
    let mut p = make_stub_proc(pid, ppid);
    p.name = name.into();
    p.command = command.into();
    p
}

#[test]
fn test_extract_electron_app_name_non_electron() {
    let name = extract_electron_app_name("/usr/bin/firefox --new-window", "firefox");
    assert_eq!(name, "firefox");
}

#[test]
fn test_extract_electron_app_name_from_path() {
    let name = extract_electron_app_name("/opt/Discord/discord --type=renderer", "electron");
    assert_eq!(name, "Discord");
}

#[test]
fn test_extract_electron_app_name_skips_flags() {
    let name = extract_electron_app_name("/usr/share/code/code --no-sandbox --type=renderer", "electron");
    assert_eq!(name, "Code");
}

#[test]
fn test_extract_electron_app_name_skips_electron_dir() {
    let name = extract_electron_app_name("/opt/Spotify/electron/spotify --type=renderer", "electron");
    assert_eq!(name, "Spotify");
}

#[test]
fn test_extract_electron_app_name_skips_node_modules() {
    let name = extract_electron_app_name("/usr/share/code --type=renderer", "electron");
    assert_eq!(name, "Code");
}

#[test]
fn test_extract_electron_app_name_fallback_to_binary() {
    let name = extract_electron_app_name("/opt/electron-app/electron-bin --type=renderer", "electron");
    assert_eq!(name, "Electron-bin");
}

#[test]
fn test_extract_electron_app_name_fallback_to_name() {
    let name = extract_electron_app_name("--type=renderer --some-flag", "electron-something");
    assert_eq!(name, "electron-something");
}

#[test]
fn extract_electron_app_name_path_argument() {
    let name = extract_electron_app_name("electron /home/u/apps/notes/main.js", "electron");
    assert_eq!(name, "Notes");
}

#[test]
fn electron_app_name_checked_refuses_empty_command() {
    assert_eq!(electron_app_name_checked("", "Electron"), None);
    assert_eq!(electron_app_name_checked("", "bash"), Some("bash".to_string()));
}

#[test]
fn test_capitalize() {
    assert_eq!(capitalize("hello"), "Hello");
    assert_eq!(capitalize("HELLO"), "Hello");
    assert_eq!(capitalize("h"), "H");
    assert_eq!(capitalize(""), "");
    assert_eq!(capitalize("discord"), "Discord");
}

#[test]
fn test_propagate_icons_inherits_parent_icon() {
    let mut pids: HashMap<i32, ProcessInfo> =
        [(1, with_icon(1, 0, "firefox")), (2, make_stub_proc(2, 1)), (3, make_stub_proc(3, 2))].into();
    propagate_icons(&mut pids);
    assert_eq!(pids[&1].icon_name.as_deref(), Some("firefox"));
    assert_eq!(pids[&2].icon_name.as_deref(), Some("firefox"));
    assert_eq!(pids[&3].icon_name.as_deref(), Some("firefox"));
}

#[test]
fn test_propagate_icons_child_overrides_subtree() {
    let mut pids: HashMap<i32, ProcessInfo> =
        [(1, with_icon(1, 0, "bash")), (2, with_icon(2, 1, "gnome-terminal")), (3, make_stub_proc(3, 2))].into();
    propagate_icons(&mut pids);
    assert_eq!(pids[&1].icon_name.as_deref(), Some("bash"));
    assert_eq!(pids[&2].icon_name.as_deref(), Some("gnome-terminal"));
    assert_eq!(pids[&3].icon_name.as_deref(), Some("gnome-terminal"));
}

#[test]
fn test_propagate_icons_orphan_keeps_own() {
    let mut pids: HashMap<i32, ProcessInfo> = [(9, with_icon(9, 999, "vlc"))].into();
    propagate_icons(&mut pids);
    assert_eq!(pids[&9].icon_name.as_deref(), Some("vlc"));
}

#[test]
fn test_propagate_icons_keeps_existing_icons() {
    let mut pids: HashMap<i32, ProcessInfo> = [(1, with_icon(1, 0, "a")), (2, with_icon(2, 1, "b"))].into();
    propagate_icons(&mut pids);
    assert_eq!(pids[&1].icon_name.as_deref(), Some("a"));
    assert_eq!(pids[&2].icon_name.as_deref(), Some("b"));
}

#[test]
fn test_find_electron_root_direct_parent() {
    let sub = with_command(200, 100, "electron", "--type=renderer");
    let parent = with_command(100, 1, "discord", "/opt/Discord/discord");
    let pids: HashMap<i32, ProcessInfo> = [(200, sub), (100, parent)].into();
    let subs: HashSet<i32> = [200].into();
    let root = find_electron_root(200, &subs, &pids);
    assert_eq!(root, 100);
}

#[test]
fn test_find_electron_root_nested_subprocesses() {
    let deepest = with_command(300, 200, "electron", "--type=renderer");
    let mid = with_command(200, 100, "electron", "--type=zygote");
    let root = with_command(100, 1, "code", "/usr/share/code/code");
    let pids: HashMap<i32, ProcessInfo> = [(300, deepest), (200, mid), (100, root)].into();
    let subs: HashSet<i32> = [300, 200].into();
    let r = find_electron_root(300, &subs, &pids);
    assert_eq!(r, 100);
}

#[test]
fn test_find_electron_root_pid_not_found() {
    let subs: HashSet<i32> = [999].into();
    let pids: HashMap<i32, ProcessInfo> = HashMap::new();
    let r = find_electron_root(999, &subs, &pids);
    assert_eq!(r, 999);
}

#[test]
fn detect_electron_processes_marks_tree_of_an_electron_root() {
    let mut pids: HashMap<i32, ProcessInfo> = [
        (100, with_command(100, 1, "electron", "/opt/Discord/discord")),
        (200, with_command(200, 100, "electron", "/opt/Discord/discord --type=renderer")),
        (300, with_command(300, 1, "bash", "bash")),
    ]
    .into();
    let roots = electron_roots(&pids);
    assert_eq!(roots, [100].into());
    let exes: HashMap<i32, String> = [(100, "/usr/lib/electron/electron".to_string())].into();
    assert!(detect_electron_processes_checked(&mut pids, &exes));
    assert!(pids[&100].is_electron);
    assert!(pids[&200].is_electron);
    assert!(!pids[&300].is_electron);
    assert_eq!(pids[&100].electron_app_name.as_deref(), Some("Discord"));
}

#[test]
fn detect_electron_processes_ignores_roots_that_are_not_electron() {
    let mut pids: HashMap<i32, ProcessInfo> = [
        (100, with_command(100, 1, "chrome", "/opt/chrome/chrome")),
        (200, with_command(200, 100, "chrome", "/opt/chrome/chrome --type=renderer")),
    ]
    .into();
    let exes: HashMap<i32, String> = [(100, "/opt/chrome/chrome".to_string())].into();
    assert!(detect_electron_processes_checked(&mut pids, &exes));
    assert!(!pids[&100].is_electron);
    assert!(!pids[&200].is_electron);
    assert_eq!(pids[&100].electron_app_name.as_deref(), Some("chrome"));
}
