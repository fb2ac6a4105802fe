use gpuitop::data::config::ProcessesConfig;
use gpuitop::data::fuzzy::best_fuzzy_score;
use gpuitop::data::model::{
    Filter, FilterMode, FloatKeys, PidFilterMode, ProcessInfo, ResourceViewMode, SortDirection,
};
use gpuitop::data::platform::linux::system::InitSystem;
use gpuitop::data::processes::delegate::{ProcessTableDelegate, ViewState};

fn make_process(pid: i32, ppid: i32, name: &str, user: &str, state: char, command: &str) -> ProcessInfo {
    ProcessInfo {
        pid,
        ppid,
        name: name.into(),
        user: user.into(),
        state,
        command: command.into(),
        cgroup: String::new(),
        mem_rss: 0,
        vram_bytes: None,
        is_gui: false,
        is_kthread: false,
        is_owned_by_current_user: false,
        is_electron: false,
        electron_app_name: None,
        icon_name: None,
        has_children: false,
        keys: FloatKeys::default(),
    }
}

/// A table over `processes` without filters, under an init system that
/// counts children of process 1 as services.
fn table(processes: Vec<ProcessInfo>, mode: PidFilterMode) -> ProcessTableDelegate {
    ProcessTableDelegate {
        processes,
        view_state: ViewState {
            generation: 0,
            filters: vec![],
            filter_mode: FilterMode::And,
            pid_filter_mode: mode,
            search: String::new(),
            sort_col: 2,
            sort_dir: SortDirection::Ascending,
            resource_view_mode: ResourceViewMode::SelfOnly,
        },
        column_visibility: ProcessesConfig::default(),
        init_system: InitSystem::Unknown,
        cumulative_keys: vec![],
    }
}

fn matches(p: &ProcessInfo, f: &Filter, processes: &[ProcessInfo], mode: PidFilterMode) -> bool {
    let all: Vec<ProcessInfo> = processes.iter().map(|q| q.duplicate()).collect();
    table(all, mode).proc_matches(p, f)
}

#[test]
fn best_score_exact_ranks_higher() {
    let exact = make_process(1, 0, "firefox", "alice", 'S', "firefox");
    let partial = make_process(2, 0, "foxhelper", "alice", 'S', "foxhelper");
    assert!(best_fuzzy_score("firefox", &exact) > best_fuzzy_score("firefox", &partial));
}

#[test]
fn best_score_matches_command() {
    let p = make_process(1, 0, "bash", "root", 'S', "/usr/bin/firefox-esr");
    assert!(best_fuzzy_score("firefox", &p) > 0);
}

#[test]
fn best_score_zero_when_no_match() {
    let p = make_process(1, 0, "bash", "root", 'S', "bash");
    assert_eq!(best_fuzzy_score("xyzzy", &p), 0);
}

#[test]
fn best_score_uses_electron_app_name() {
    let mut p = make_process(1, 0, "electron", "alice", 'S', "electron");
    p.electron_app_name = Some("discord".into());
    assert!(best_fuzzy_score("discord", &p) > 0);
}

#[test]
fn filter_gui() {
    let p = make_process(1, 0, "app", "alice", 'S', "app");
    let mut pg = p.duplicate();
    pg.is_gui = true;
    assert!(!matches(&p, &Filter::Gui, &[], PidFilterMode::AllDescendants));
    assert!(matches(&pg, &Filter::Gui, &[], PidFilterMode::AllDescendants));
}

#[test]
fn filter_user() {
    let mut p = make_process(1, 0, "app", "alice", 'S', "app");
    p.is_owned_by_current_user = true;
    assert!(matches(&p, &Filter::User, &[], PidFilterMode::AllDescendants));
}

#[test]
fn filter_user_excludes_gui() {
    let mut p = make_process(1, 0, "app", "alice", 'S', "app");
    p.is_owned_by_current_user = true;
    p.is_gui = true;
    assert!(!matches(&p, &Filter::User, &[], PidFilterMode::AllDescendants));
}

#[test]
fn filter_system() {
    let p = make_process(2, 100, "sshd", "root", 'S', "sshd");
    assert!(matches(&p, &Filter::System, &[], PidFilterMode::AllDescendants));
}

#[test]
fn filter_system_excludes_kthread() {
    let mut p = make_process(2, 100, "kworker", "root", 'S', "kworker");
    p.is_kthread = true;
    assert!(!matches(&p, &Filter::System, &[], PidFilterMode::AllDescendants));
}

#[test]
fn filter_services() {
    let p = make_process(100, 1, "sshd", "root", 'S', "sshd");
    assert!(matches(&p, &Filter::Services, &[], PidFilterMode::AllDescendants));
}

#[test]
fn filter_kernel() {
    let mut p = make_process(2, 0, "kthreadd", "root", 'S', "kthreadd");
    p.is_kthread = true;
    assert!(matches(&p, &Filter::Kernel, &[], PidFilterMode::AllDescendants));
}

#[test]
fn filter_parent() {
    let mut p = make_process(1, 0, "systemd", "root", 'S', "systemd");
    p.has_children = true;
    assert!(matches(&p, &Filter::Parent, &[], PidFilterMode::AllDescendants));
    assert!(!matches(
        &make_process(2, 1, "child", "root", 'S', "child"),
        &Filter::Parent,
        &[],
        PidFilterMode::AllDescendants,
    ));
}

#[test]
fn filter_vram() {
    let mut p = make_process(1, 0, "gpu_app", "alice", 'S', "gpu_app");
    p.vram_bytes = Some(1024 * 1024);
    assert!(matches(&p, &Filter::Vram, &[], PidFilterMode::AllDescendants));
    assert!(!matches(
        &make_process(2, 0, "no_gpu", "alice", 'S', "no_gpu"),
        &Filter::Vram,
        &[],
        PidFilterMode::AllDescendants,
    ));
}

#[test]
fn filter_electron() {
    let mut p = make_process(1, 0, "electron", "alice", 'S', "electron");
    p.is_electron = true;
    assert!(matches(&p, &Filter::Electron, &[], PidFilterMode::AllDescendants));
}

#[test]
fn filter_state() {
    let running = make_process(1, 0, "app", "alice", 'R', "app");
    let sleeping = make_process(2, 0, "app", "alice", 'S', "app");
    assert!(matches(&running, &Filter::ProcessState('R'), &[], PidFilterMode::AllDescendants));
    assert!(!matches(&sleeping, &Filter::ProcessState('R'), &[], PidFilterMode::AllDescendants));
}

#[test]
fn filter_pid_direct_child() {
    let child = make_process(200, 100, "child", "root", 'S', "child");
    assert!(matches(&child, &Filter::Pid(100), &[], PidFilterMode::DirectChildren));
}

#[test]
fn filter_pid_all_descendants_grandchild() {
    let grandparent = make_process(10, 1, "grand", "root", 'S', "grand");
    let parent = make_process(20, 10, "parent", "root", 'S', "parent");
    let child = make_process(30, 20, "child", "root", 'S', "child");
    let procs = vec![grandparent, parent, child.duplicate()];
    assert!(matches(&child, &Filter::Pid(10), &procs, PidFilterMode::AllDescendants));
}

#[test]
fn filter_pid_direct_children_grandchild() {
    let grandparent = make_process(10, 1, "grand", "root", 'S', "grand");
    let parent = make_process(20, 10, "parent", "root", 'S', "parent");
    let child = make_process(30, 20, "child", "root", 'S', "child");
    let procs = vec![grandparent, parent, child.duplicate()];
    assert!(!matches(&child, &Filter::Pid(10), &procs, PidFilterMode::DirectChildren));
}

#[test]
fn filter_pid_direct_child_all_descendants() {
    let parent = make_process(100, 1, "parent", "root", 'S', "parent");
    let child = make_process(200, 100, "child", "root", 'S', "child");
    let procs = vec![parent, child.duplicate()];
    assert!(matches(&child, &Filter::Pid(100), &procs, PidFilterMode::AllDescendants));
}

#[test]
fn filter_pid_descendant() {
    let grandparent = make_process(10, 1, "grand", "root", 'S', "grand");
    let parent = make_process(20, 10, "parent", "root", 'S', "parent");
    let child = make_process(30, 20, "child", "root", 'S', "child");
    let t = table(vec![grandparent, parent, child], PidFilterMode::AllDescendants);
    assert!(t.is_descendant_of(30, 10));
    assert!(!t.is_descendant_of(30, 99));
}

#[test]
fn filter_mode_and_all_match() {
    let mut p = make_process(10, 1, "app", "root", 'S', "app");
    p.is_owned_by_current_user = true;
    let filters = vec![Filter::Services, Filter::User];
    let all = filters.iter().all(|f| matches(&p, f, &[], PidFilterMode::AllDescendants));
    assert!(all);
}

#[test]
fn filter_mode_and_one_fails() {
    let p = make_process(10, 1, "app", "root", 'S', "app");
    let filters = vec![Filter::Services, Filter::Kernel];
    let all = filters.iter().all(|f| matches(&p, f, &[], PidFilterMode::AllDescendants));
    assert!(!all);
}

#[test]
fn filter_mode_or_any_match() {
    let p = make_process(10, 1, "app", "root", 'S', "app");
    let filters = vec![Filter::Services, Filter::Kernel];
    let any = filters.iter().any(|f| matches(&p, f, &[], PidFilterMode::AllDescendants));
    assert!(any);
}

#[test]
fn filter_mode_or_none_match() {
    let p = make_process(10, 0, "app", "root", 'S', "app");
    let filters = vec![Filter::Services, Filter::Kernel];
    let any = filters.iter().any(|f| matches(&p, f, &[], PidFilterMode::AllDescendants));
    assert!(!any);
}

#[test]
fn empty_filters_pass_all() {
    let p = make_process(1, 0, "app", "root", 'S', "app");
    let filters: Vec<Filter> = vec![];
    let all = filters.iter().all(|f| matches(&p, f, &[], PidFilterMode::AllDescendants));
    assert!(all);
    let any = filters.iter().any(|f| matches(&p, f, &[], PidFilterMode::AllDescendants));
    assert!(!any);
    let t = table(vec![p], PidFilterMode::AllDescendants);
    assert_eq!(t.filtered_sorted_rows().len(), 1);
}
