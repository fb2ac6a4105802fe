use gpuitop::data::config::ProcessesConfig;
use gpuitop::data::model::{
    Filter, FilterMode, FloatKeys, PidFilterMode, ProcessInfo, ResourceViewMode, SortColumn,
    SortDirection,
};
use gpuitop::data::platform::linux::system::InitSystem;
use gpuitop::data::processes::delegate::{ProcessTableDelegate, ViewState};
use gpuitop::data::processes::lineage::chain_from;
use std::collections::HashMap;

fn make_proc(pid: i32, ppid: i32) -> ProcessInfo {
    ProcessInfo {
        pid,
        ppid,
        name: format!("proc-{pid}"),
        user: "root".into(),
        state: 'S',
        command: format!("/usr/bin/proc-{pid}"),
        cgroup: String::new(),
        mem_rss: pid as u64 * 1024,
        vram_bytes: None,
        is_gui: false,
        is_kthread: false,
        is_owned_by_current_user: false,
        is_electron: false,
        electron_app_name: None,
        icon_name: None,
        has_children: false,
        keys: FloatKeys {
            cpu: (pid as f32).to_bits() as u64,
            mem: 0,
            disk_read: (pid as f64).to_bits(),
            disk_write: (pid as f64).to_bits(),
        },
    }
}

fn make_delegate(procs: Vec<ProcessInfo>) -> ProcessTableDelegate {
    ProcessTableDelegate {
        processes: procs,
        view_state: ViewState {
            generation: 0,
            filters: vec![],
            filter_mode: FilterMode::And,
            pid_filter_mode: PidFilterMode::AllDescendants,
            search: String::new(),
            sort_col: 2,
            sort_dir: SortDirection::Ascending,
            resource_view_mode: ResourceViewMode::SelfOnly,
        },
        column_visibility: ProcessesConfig::default(),
        init_system: InitSystem::Unknown,
        cumulative_keys: vec![],
    }
}

/// The CPU share of each process with everything below it, summed the way a
/// caller of the library sums the measurements that the library leaves to
/// it: each process's own share goes to every process its chain reaches.
fn cumulative_cpu(procs: &Vec<ProcessInfo>, cpu: &[f32]) -> HashMap<i32, f32> {
    let mut totals = vec![0.0f32; procs.len()];
    for i in 0..procs.len() {
        for k in chain_from(procs, i) {
            totals[k] += cpu[i];
        }
    }
    procs.iter().zip(totals).map(|(p, t)| (p.pid, t)).collect()
}

fn pid_cpu(procs: &Vec<ProcessInfo>) -> Vec<f32> {
    procs.iter().map(|p| p.pid as f32).collect()
}

fn with_cumulative_keys(d: &mut ProcessTableDelegate, cpu: &[f32], dr: &[f64], dw: &[f64]) {
    let n = d.processes.len();
    let mut c = vec![0.0f32; n];
    let mut r = vec![0.0f64; n];
    let mut w = vec![0.0f64; n];
    for i in 0..n {
        for k in chain_from(&d.processes, i) {
            c[k] += cpu[i];
            r[k] += dr[i];
            w[k] += dw[i];
        }
    }
    d.cumulative_keys = (0..n)
        .map(|k| FloatKeys {
            cpu: c[k].to_bits() as u64,
            mem: 0,
            disk_read: r[k].to_bits(),
            disk_write: w[k].to_bits(),
        })
        .collect();
}

fn make_proc_named(pid: i32, name: &str) -> ProcessInfo {
    let mut p = make_proc(pid, 0);
    p.name = name.into();
    p
}

fn make_proc_with_user(pid: i32, user: &str, is_owned: bool) -> ProcessInfo {
    let mut p = make_proc(pid, 0);
    p.user = user.into();
    p.is_owned_by_current_user = is_owned;
    p
}

fn make_proc_with_cpu(pid: i32, cpu: f32) -> ProcessInfo {
    let mut p = make_proc(pid, 0);
    p.keys.cpu = cpu.to_bits() as u64;
    p
}

#[test]
fn is_col_hidden_col_0_never_hidden() {
    let d = make_delegate(vec![]);
    assert!(!d.is_col_hidden(0));
}

#[test]
fn is_col_hidden_name_visible_by_default() {
    let d = make_delegate(vec![]);
    assert!(!d.is_col_hidden(1));
}

#[test]
fn is_col_hidden_after_hiding_name() {
    let mut d = make_delegate(vec![]);
    if let Some(entry) = d.column_visibility.columns.iter_mut().find(|e| e.column == SortColumn::Name)
    {
        entry.visible = false;
    }
    assert!(d.is_col_hidden(1));
}

#[test]
fn is_col_hidden_out_of_range_returns_false() {
    let d = make_delegate(vec![]);
    assert!(!d.is_col_hidden(999));
}

#[test]
fn descendant_direct_child() {
    let d = make_delegate(vec![make_proc(1, 0), make_proc(10, 1)]);
    assert!(d.is_descendant_of(10, 1));
}

#[test]
fn descendant_grandchild() {
    let d = make_delegate(vec![make_proc(1, 0), make_proc(10, 1), make_proc(100, 10)]);
    assert!(d.is_descendant_of(100, 1));
}

#[test]
fn descendant_not_descendant() {
    let d = make_delegate(vec![make_proc(1, 0), make_proc(10, 2)]);
    assert!(!d.is_descendant_of(10, 1));
}

#[test]
fn descendant_pid_eq_ancestor_returns_false() {
    let d = make_delegate(vec![make_proc(1, 0), make_proc(10, 1)]);
    assert!(!d.is_descendant_of(1, 1));
}

#[test]
fn descendant_ppid_zero_terminates() {
    let d = make_delegate(vec![make_proc(1, 0)]);
    assert!(!d.is_descendant_of(1, 100));
}

#[test]
fn descendant_unknown_pid_returns_false() {
    let d = make_delegate(vec![make_proc(1, 0)]);
    assert!(!d.is_descendant_of(999, 1));
}

#[test]
fn descendant_parent_cycle_terminates() {
    let d = make_delegate(vec![make_proc(5, 6), make_proc(6, 5)]);
    assert!(!d.is_descendant_of(5, 1));
    assert!(d.is_descendant_of(5, 6));
}

#[test]
fn count_descendants_parent_with_children() {
    let d = make_delegate(vec![make_proc(1, 0), make_proc(10, 1), make_proc(20, 1), make_proc(30, 1)]);
    assert_eq!(d.count_descendants_of(1), 3);
}

#[test]
fn count_descendants_leaf_has_none() {
    let d = make_delegate(vec![make_proc(1, 0), make_proc(10, 1)]);
    assert_eq!(d.count_descendants_of(10), 0);
}

#[test]
fn count_descendants_nested() {
    let d = make_delegate(vec![make_proc(1, 0), make_proc(10, 1), make_proc(20, 10), make_proc(30, 20)]);
    assert_eq!(d.count_descendants_of(1), 3);
    assert_eq!(d.count_descendants_of(10), 2);
}

#[test]
fn compute_descendant_counts_only_ancestors_listed() {
    let d = make_delegate(vec![make_proc(1, 0), make_proc(10, 1), make_proc(20, 10), make_proc(30, 7)]);
    let counts = d.compute_descendant_counts();
    assert_eq!(counts.len(), 2);
    assert_eq!(counts[&1], 2);
    assert_eq!(counts[&10], 1);
}

#[test]
fn ancestor_chain_leaf_to_root() {
    let d = make_delegate(vec![make_proc(1, 0), make_proc(10, 1), make_proc(100, 10)]);
    let chain = d.ancestor_chain_of(100);
    let pids: Vec<i32> = chain.iter().map(|p| p.pid).collect();
    assert_eq!(pids, vec![1, 10, 100]);
}

#[test]
fn ancestor_chain_root_is_itself() {
    let d = make_delegate(vec![make_proc(1, 0), make_proc(10, 1)]);
    let chain = d.ancestor_chain_of(1);
    let pids: Vec<i32> = chain.iter().map(|p| p.pid).collect();
    assert_eq!(pids, vec![1]);
}

#[test]
fn ancestor_chain_unknown_pid_empty() {
    let d = make_delegate(vec![make_proc(1, 0)]);
    let chain = d.ancestor_chain_of(999);
    assert!(chain.is_empty());
}

#[test]
fn cum_map_parent_child_sum() {
    let d = make_delegate(vec![make_proc(1, 0), make_proc(10, 1)]);
    let map = d.compute_aggregate_cumulative_map();
    let cpu = cumulative_cpu(&d.processes, &pid_cpu(&d.processes));
    assert_eq!(cpu[&1], 1.0 + 10.0);
    assert_eq!(map[&1].mem_rss, 1024 + 10240);
    assert_eq!(cpu[&10], 10.0);
}

#[test]
fn cum_map_multi_level_tree() {
    let d = make_delegate(vec![make_proc(1, 0), make_proc(10, 1), make_proc(100, 10), make_proc(200, 10)]);
    let map = d.compute_aggregate_cumulative_map();
    let cpu = cumulative_cpu(&d.processes, &pid_cpu(&d.processes));
    assert_eq!(cpu[&1], 1.0 + 10.0 + 100.0 + 200.0);
    assert_eq!(cpu[&10], 10.0 + 100.0 + 200.0);
    assert_eq!(cpu[&100], 100.0);
    assert_eq!(map[&10].mem_rss, (10 + 100 + 200) * 1024);
}

#[test]
fn cum_map_no_children_self_values() {
    let d = make_delegate(vec![make_proc(1, 0), make_proc(10, 0), make_proc(20, 0)]);
    let map = d.compute_aggregate_cumulative_map();
    let cpu = cumulative_cpu(&d.processes, &pid_cpu(&d.processes));
    assert_eq!(cpu[&1], 1.0);
    assert_eq!(cpu[&10], 10.0);
    assert_eq!(cpu[&20], 20.0);
    assert_eq!(map[&20].mem_rss, 20 * 1024);
}

#[test]
fn cum_map_cache_hit_second_call() {
    let d = make_delegate(vec![make_proc(1, 0), make_proc(10, 1)]);
    let map1 = d.compute_aggregate_cumulative_map();
    let map2 = d.compute_aggregate_cumulative_map();
    assert_eq!(map1[&1].mem_rss, map2[&1].mem_rss);
    assert_eq!(map1[&1].vram, map2[&1].vram);
}

#[test]
fn cum_map_vram_parent_none_child_some() {
    let mut d = make_delegate(vec![make_proc(1, 0), make_proc(10, 1)]);
    d.processes[1].vram_bytes = Some(4096);
    let map = d.compute_aggregate_cumulative_map();
    assert_eq!(map[&1].vram, Some(4096));
}

#[test]
fn cum_map_vram_child_none_parent_some() {
    let mut d = make_delegate(vec![make_proc(1, 0), make_proc(10, 1)]);
    d.processes[0].vram_bytes = Some(4096);
    let map = d.compute_aggregate_cumulative_map();
    assert_eq!(map[&1].vram, Some(4096));
}

#[test]
fn cum_map_vram_both_some_adds() {
    let mut d = make_delegate(vec![make_proc(1, 0), make_proc(10, 1)]);
    d.processes[0].vram_bytes = Some(4096);
    d.processes[1].vram_bytes = Some(1024);
    let map = d.compute_aggregate_cumulative_map();
    assert_eq!(map[&1].vram, Some(5120));
    assert_eq!(map[&10].vram, Some(1024));
}

#[test]
fn cum_map_empty() {
    let d = make_delegate(vec![]);
    let map = d.compute_aggregate_cumulative_map();
    assert!(map.is_empty());
}

#[test]
fn pid_filter_mode_all_descendants() {
    let d = make_delegate(vec![]);
    assert_eq!(d.pid_filter_mode(), PidFilterMode::AllDescendants);
}

#[test]
fn pid_filter_mode_direct_children() {
    let mut d = make_delegate(vec![]);
    d.view_state.pid_filter_mode = PidFilterMode::DirectChildren;
    assert_eq!(d.pid_filter_mode(), PidFilterMode::DirectChildren);
}

#[test]
fn pinned_pid_none_when_no_pid_filter() {
    let d = make_delegate(vec![]);
    assert_eq!(d.pinned_pid(), None);
}

#[test]
fn pinned_pid_returns_some() {
    let mut d = make_delegate(vec![]);
    d.view_state.filters = vec![Filter::Pid(42)];
    assert_eq!(d.pinned_pid(), Some(42));
}

#[test]
fn pinned_pid_with_other_filters_returns_none() {
    let mut d = make_delegate(vec![]);
    d.view_state.filters = vec![Filter::Gui, Filter::Kernel];
    assert_eq!(d.pinned_pid(), None);
}

#[test]
fn descendant_pids_of_empty() {
    let d = make_delegate(vec![make_proc(1, 0)]);
    assert_eq!(d.descendant_pids_of(1), Vec::<i32>::new());
}

#[test]
fn descendant_pids_of_children() {
    let d = make_delegate(vec![make_proc(1, 0), make_proc(10, 1), make_proc(20, 1), make_proc(30, 2)]);
    let mut pids = d.descendant_pids_of(1);
    pids.sort();
    assert_eq!(pids, vec![10, 20]);
}

#[test]
fn pid_to_ppid_map_entries() {
    let d = make_delegate(vec![make_proc(1, 0), make_proc(10, 1), make_proc(100, 10)]);
    let map = d.pid_to_ppid_map();
    assert_eq!(map[&1], 0);
    assert_eq!(map[&10], 1);
    assert_eq!(map[&100], 10);
}

#[test]
fn pid_to_ppid_map_size() {
    let d = make_delegate(vec![make_proc(1, 0), make_proc(10, 1), make_proc(20, 1)]);
    assert_eq!(d.pid_to_ppid_map().len(), 3);
}

#[test]
fn pid_to_ppid_map_empty() {
    let d = make_delegate(vec![]);
    assert!(d.pid_to_ppid_map().is_empty());
}

#[test]
fn proc_matches_gui() {
    let d = make_delegate(vec![]);
    let mut p = make_proc(1, 0);
    assert!(!d.proc_matches(&p, &Filter::Gui));
    p.is_gui = true;
    assert!(d.proc_matches(&p, &Filter::Gui));
}

#[test]
fn proc_matches_user() {
    let d = make_delegate(vec![]);
    let mut p = make_proc(1, 0);
    p.is_owned_by_current_user = true;
    assert!(d.proc_matches(&p, &Filter::User));
    p.is_gui = true;
    assert!(!d.proc_matches(&p, &Filter::User));
}

#[test]
fn proc_matches_system() {
    let d = make_delegate(vec![]);
    let p = make_proc(2, 100);
    assert!(d.proc_matches(&p, &Filter::System));
}

#[test]
fn proc_matches_system_excludes_kthread() {
    let d = make_delegate(vec![]);
    let mut p = make_proc(2, 100);
    p.is_kthread = true;
    assert!(!d.proc_matches(&p, &Filter::System));
}

#[test]
fn proc_matches_kernel() {
    let d = make_delegate(vec![]);
    let mut p = make_proc(2, 0);
    p.is_kthread = true;
    assert!(d.proc_matches(&p, &Filter::Kernel));
}

#[test]
fn proc_matches_parent() {
    let d = make_delegate(vec![]);
    let mut p = make_proc(1, 0);
    assert!(!d.proc_matches(&p, &Filter::Parent));
    p.has_children = true;
    assert!(d.proc_matches(&p, &Filter::Parent));
}

#[test]
fn proc_matches_vram_self_only() {
    let d = make_delegate(vec![]);
    let mut p = make_proc(1, 0);
    assert!(!d.proc_matches(&p, &Filter::Vram));
    p.vram_bytes = Some(4096);
    assert!(d.proc_matches(&p, &Filter::Vram));
}

#[test]
fn proc_matches_vram_cumulative() {
    let mut parent = make_proc(1, 0);
    parent.vram_bytes = Some(4096);
    let mut child = make_proc(10, 1);
    child.vram_bytes = Some(2048);
    let mut d = make_delegate(vec![parent, child.duplicate()]);
    d.view_state.resource_view_mode = ResourceViewMode::Cumulative;
    assert!(d.proc_matches(&child, &Filter::Vram));
    assert!(d.proc_matches(&make_proc(1, 0), &Filter::Vram));
}

#[test]
fn proc_matches_electron() {
    let d = make_delegate(vec![]);
    let mut p = make_proc(1, 0);
    assert!(!d.proc_matches(&p, &Filter::Electron));
    p.is_electron = true;
    assert!(d.proc_matches(&p, &Filter::Electron));
}

#[test]
fn proc_matches_process_state() {
    let d = make_delegate(vec![]);
    let p = make_proc(1, 0);
    assert!(d.proc_matches(&p, &Filter::ProcessState('S')));
    assert!(!d.proc_matches(&p, &Filter::ProcessState('R')));
}

#[test]
fn proc_matches_username() {
    let d = make_delegate(vec![]);
    let p = make_proc(1, 0);
    assert!(d.proc_matches(&p, &Filter::Username("root".into())));
    assert!(!d.proc_matches(&p, &Filter::Username("alice".into())));
}

#[test]
fn proc_matches_pid_all_descendants_direct_child() {
    let d = make_delegate(vec![make_proc(1, 0), make_proc(10, 1)]);
    let child = make_proc(10, 1);
    assert!(d.proc_matches(&child, &Filter::Pid(1)));
}

#[test]
fn proc_matches_pid_all_descendants_grandchild() {
    let d = make_delegate(vec![make_proc(1, 0), make_proc(10, 1), make_proc(100, 10)]);
    let grandchild = make_proc(100, 10);
    assert!(d.proc_matches(&grandchild, &Filter::Pid(1)));
}

#[test]
fn proc_matches_pid_direct_children_direct_child() {
    let mut d = make_delegate(vec![make_proc(1, 0), make_proc(10, 1)]);
    d.view_state.pid_filter_mode = PidFilterMode::DirectChildren;
    let child = make_proc(10, 1);
    assert!(d.proc_matches(&child, &Filter::Pid(1)));
}

#[test]
fn proc_matches_pid_direct_children_grandchild() {
    let mut d = make_delegate(vec![make_proc(1, 0), make_proc(10, 1), make_proc(100, 10)]);
    d.view_state.pid_filter_mode = PidFilterMode::DirectChildren;
    let grandchild = make_proc(100, 10);
    assert!(!d.proc_matches(&grandchild, &Filter::Pid(1)));
}

#[test]
fn proc_matches_services_ppid_1() {
    let d = make_delegate(vec![]);
    let p = make_proc(10, 1);
    assert!(d.proc_matches(&p, &Filter::Services));
}

#[test]
fn proc_matches_services_ppid_not_1() {
    let d = make_delegate(vec![]);
    let p = make_proc(20, 100);
    assert!(!d.proc_matches(&p, &Filter::Services));
}

#[test]
fn filtered_sorted_rows_empty() {
    let d = make_delegate(vec![]);
    let rows = d.filtered_sorted_rows();
    assert!(rows.is_empty());
}

#[test]
fn filtered_sorted_rows_no_search_no_filters_sort_by_pid() {
    let procs = vec![make_proc(30, 1), make_proc(10, 1), make_proc(20, 1)];
    let d = make_delegate(procs);
    let rows = d.filtered_sorted_rows();
    assert_eq!(rows.len(), 3);
    assert_eq!(rows[0].pid, 10);
    assert_eq!(rows[1].pid, 20);
    assert_eq!(rows[2].pid, 30);
}

#[test]
fn filtered_sorted_rows_sort_by_name() {
    let procs = vec![make_proc_named(1, "c-process"), make_proc_named(2, "a-process"), make_proc_named(3, "b-process")];
    let mut d = make_delegate(procs);
    d.view_state.sort_col = 1;
    d.view_state.sort_dir = SortDirection::Ascending;
    let rows = d.filtered_sorted_rows();
    assert_eq!(rows[0].name, "a-process");
    assert_eq!(rows[1].name, "b-process");
    assert_eq!(rows[2].name, "c-process");
}

#[test]
fn filtered_sorted_rows_sort_by_cpu_descending() {
    let procs = vec![make_proc_with_cpu(1, 10.0), make_proc_with_cpu(2, 50.0), make_proc_with_cpu(3, 30.0)];
    let cpu: HashMap<i32, f32> = [(1, 10.0), (2, 50.0), (3, 30.0)].into();
    let mut d = make_delegate(procs);
    d.view_state.sort_col = 5;
    d.view_state.sort_dir = SortDirection::Descending;
    let rows = d.filtered_sorted_rows();
    assert_eq!(cpu[&rows[0].pid], 50.0);
    assert_eq!(cpu[&rows[1].pid], 30.0);
    assert_eq!(cpu[&rows[2].pid], 10.0);
}

#[test]
fn filtered_sorted_rows_search_by_name() {
    let procs = vec![make_proc_named(1, "firefox"), make_proc_named(2, "bash"), make_proc_named(3, "firewalld")];
    let mut d = make_delegate(procs);
    d.view_state.search = "fire".into();
    let rows = d.filtered_sorted_rows();
    assert_eq!(rows.len(), 2);
    let names: Vec<&str> = rows.iter().map(|r| r.name.as_str()).collect();
    assert!(names.contains(&"firefox"));
    assert!(names.contains(&"firewalld"));
}

#[test]
fn filtered_sorted_rows_search_by_pid_partial() {
    let procs = vec![make_proc(1, 0), make_proc(10, 1), make_proc(100, 10), make_proc(99, 10)];
    let mut d = make_delegate(procs);
    d.view_state.search = "10".into();
    let rows = d.filtered_sorted_rows();
    assert!(!rows.is_empty());
    let pids: Vec<i32> = rows.iter().map(|r| r.pid).collect();
    assert!(pids.contains(&10));
}

#[test]
fn filtered_sorted_rows_search_no_results() {
    let procs = vec![make_proc_named(1, "bash"), make_proc_named(2, "vim")];
    let mut d = make_delegate(procs);
    d.view_state.search = "zzz_nonexistent".into();
    let rows = d.filtered_sorted_rows();
    assert!(rows.is_empty());
}

#[test]
fn filtered_sorted_rows_filter_user() {
    let procs = vec![
        make_proc_with_user(1, "root", true),
        make_proc_with_user(2, "kyza", false),
        make_proc_with_user(3, "root", true),
    ];
    let mut d = make_delegate(procs);
    d.view_state.filters = vec![Filter::User];
    let rows = d.filtered_sorted_rows();
    assert_eq!(rows.len(), 2);
    for r in rows.iter() {
        assert!(!r.is_gui);
        assert!(r.is_owned_by_current_user);
    }
}

#[test]
fn filtered_sorted_rows_filter_gui() {
    let mut p1 = make_proc(1, 0);
    p1.is_gui = true;
    let procs = vec![p1, make_proc(2, 1)];
    let mut d = make_delegate(procs);
    d.view_state.filters = vec![Filter::Gui];
    let rows = d.filtered_sorted_rows();
    assert_eq!(rows.len(), 1);
    assert_eq!(rows[0].pid, 1);
}

#[test]
fn filtered_sorted_rows_filter_mode_and() {
    let mut p1 = make_proc(1, 0);
    p1.is_kthread = true;
    p1.has_children = true;
    let mut p2 = make_proc(2, 0);
    p2.is_kthread = true;
    let mut d = make_delegate(vec![p1, p2]);
    d.view_state.filters = vec![Filter::Kernel, Filter::Parent];
    d.view_state.filter_mode = FilterMode::And;
    let rows = d.filtered_sorted_rows();
    assert_eq!(rows.len(), 1);
    assert_eq!(rows[0].pid, 1);
}

#[test]
fn filtered_sorted_rows_filter_mode_or() {
    let mut p1 = make_proc(1, 0);
    p1.is_gui = true;
    let mut p2 = make_proc(2, 0);
    p2.is_owned_by_current_user = true;
    let mut d = make_delegate(vec![p1, p2, make_proc(3, 0)]);
    d.view_state.filters = vec![Filter::Gui, Filter::User];
    d.view_state.filter_mode = FilterMode::Or;
    let rows = d.filtered_sorted_rows();
    assert_eq!(rows.len(), 2);
}

#[test]
fn filtered_sorted_rows_pid_filter_pins_to_top() {
    let procs = vec![make_proc(50, 1), make_proc(10, 1), make_proc(90, 100), make_proc(100, 1)];
    let mut d = make_delegate(procs);
    d.view_state.filters = vec![Filter::Pid(100)];
    d.view_state.pid_filter_mode = PidFilterMode::AllDescendants;
    let rows = d.filtered_sorted_rows();
    assert!(!rows.is_empty());
    assert_eq!(rows[0].pid, 100);
}

#[test]
fn filtered_sorted_rows_cumulative_view_mode() {
    let mut parent = make_proc(1, 0);
    parent.mem_rss = 1000;
    parent.has_children = true;
    let mut child = make_proc(2, 1);
    child.mem_rss = 2000;
    let mut d = make_delegate(vec![parent, child]);
    with_cumulative_keys(&mut d, &[10.0, 20.0], &[5.0, 7.0], &[3.0, 4.0]);
    d.view_state.sort_col = 5;
    d.view_state.sort_dir = SortDirection::Descending;
    d.view_state.resource_view_mode = ResourceViewMode::Cumulative;
    assert!(d.view_ready());
    let rows = d.filtered_sorted_rows();
    assert_eq!(rows.len(), 2);
    assert_eq!(rows[0].pid, 1);
    assert_eq!(rows[1].pid, 2);
}

#[test]
fn filtered_sorted_rows_cache_invalidation_on_generation() {
    let procs = vec![make_proc(1, 0), make_proc(2, 0)];
    let mut d = make_delegate(procs);
    d.view_state.sort_col = 2;
    d.view_state.sort_dir = SortDirection::Ascending;
    let r1 = d.filtered_sorted_rows();
    assert_eq!(r1[0].pid, 1);
    d.view_state.generation += 1;
    let r2 = d.filtered_sorted_rows();
    assert_eq!(r2[0].pid, 1);
}

#[test]
fn filtered_sorted_rows_sort_by_memory_cumulative() {
    let mut a = make_proc(1, 0);
    a.mem_rss = 100;
    let mut b = make_proc(2, 0);
    b.mem_rss = 150;
    let mut c = make_proc(3, 1);
    c.mem_rss = 100;
    let mut d = make_delegate(vec![a, b, c]);
    d.view_state.sort_col = 6;
    d.view_state.sort_dir = SortDirection::Descending;
    d.view_state.resource_view_mode = ResourceViewMode::Cumulative;
    assert!(d.view_ready());
    let rows = d.filtered_sorted_rows();
    let pids: Vec<i32> = rows.iter().map(|r| r.pid).collect();
    assert_eq!(pids, vec![1, 2, 3]);
}

#[test]
fn view_ready_needs_cumulative_keys() {
    let mut d = make_delegate(vec![make_proc(1, 0), make_proc(2, 1)]);
    d.view_state.sort_col = 8;
    d.view_state.resource_view_mode = ResourceViewMode::Cumulative;
    assert!(!d.view_ready());
    with_cumulative_keys(&mut d, &[1.0, 2.0], &[1.0, 2.0], &[1.0, 2.0]);
    assert!(d.view_ready());
}

#[test]
fn view_ready_rejects_repeated_pids_in_cumulative_view() {
    let mut d = make_delegate(vec![make_proc(1, 0), make_proc(1, 0)]);
    d.view_state.sort_col = 6;
    d.view_state.resource_view_mode = ResourceViewMode::Cumulative;
    assert!(!d.view_ready());
    d.view_state.resource_view_mode = ResourceViewMode::SelfOnly;
    assert!(d.view_ready());
}
