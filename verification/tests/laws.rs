use gpuitop::data::config::ProcessesConfig;
use gpuitop::data::model::{FilterMode, FloatKeys, PidFilterMode, ProcessInfo, ResourceViewMode, SortDirection};
use gpuitop::data::platform::linux::system::{is_systemd_service_cgroup, InitSystem};
use gpuitop::data::processes::delegate::{ProcessTableDelegate, ViewState};
use gpuitop::snapshot::collector::MemCounters;
use gpuitop::snapshot::{next_prev_table, PrevProc};
use gpuitop::text::{decimal_u64, parse_u64};

fn node(pid: i32, ppid: i32, rss: u64) -> ProcessInfo {
    ProcessInfo {
        pid,
        ppid,
        name: format!("n{pid}"),
        user: "u".into(),
        state: 'S',
        command: String::new(),
        cgroup: String::new(),
        mem_rss: rss,
        vram_bytes: None,
        is_gui: false,
        is_kthread: false,
        is_owned_by_current_user: false,
        is_electron: false,
        electron_app_name: None,
        icon_name: None,
        has_children: false,
        keys: FloatKeys::default(),
    }
}

#[test]
fn cumulative_memory_is_own_plus_children() {
    let procs = vec![node(1, 0, 10), node(2, 1, 20), node(3, 1, 30), node(4, 2, 40), node(5, 9, 50)];
    let d = ProcessTableDelegate {
        processes: procs,
        view_state: ViewState {
            generation: 0,
            filters: vec![],
            filter_mode: FilterMode::And,
            pid_filter_mode: PidFilterMode::AllDescendants,
            search: String::new(),
            sort_col: 2,
            sort_dir: SortDirection::Ascending,
            resource_view_mode: ResourceViewMode::Cumulative,
        },
        column_visibility: ProcessesConfig::default(),
        init_system: InitSystem::Unknown,
        cumulative_keys: vec![],
    };
    let m = d.compute_aggregate_cumulative_map();
    for p in &d.processes {
        let children: u64 = d.processes.iter().filter(|c| c.ppid == p.pid).map(|c| m[&c.pid].mem_rss).sum();
        assert_eq!(m[&p.pid].mem_rss, p.mem_rss + children);
    }
    assert_eq!(m[&1].mem_rss, 100);
    assert_eq!(m[&5].mem_rss, 50);
}

#[test]
fn decimal_text_reads_back() {
    for n in [0u64, 7, 10, 4096, u64::MAX] {
        assert_eq!(parse_u64(&decimal_u64(n)), Some(n));
    }
}

#[test]
fn memory_parts_add_up_to_total() {
    let m = MemCounters {
        mem_total: 10_000,
        mem_free: 1_000,
        mem_available: None,
        buffers: 500,
        cached: 2_000,
        s_reclaimable: Some(300),
        swap_total: 0,
        swap_free: 0,
    };
    let s = m.summary();
    assert_eq!(s.used + m.mem_free + m.buffers + s.cached, s.total);
}

fn table(procs: Vec<ProcessInfo>, search: &str, filters: Vec<gpuitop::data::model::Filter>) -> ProcessTableDelegate {
    ProcessTableDelegate {
        processes: procs,
        view_state: ViewState {
            generation: 0,
            filters,
            filter_mode: FilterMode::And,
            pid_filter_mode: PidFilterMode::AllDescendants,
            search: search.into(),
            sort_col: 1,
            sort_dir: SortDirection::Ascending,
            resource_view_mode: ResourceViewMode::SelfOnly,
        },
        column_visibility: ProcessesConfig::default(),
        init_system: InitSystem::Unknown,
        cumulative_keys: vec![],
    }
}

#[test]
fn descendant_counts_match_descendant_walks() {
    let procs = vec![node(1, 0, 1), node(2, 1, 1), node(3, 2, 1), node(4, 1, 1), node(5, 0, 1), node(6, 9, 1)];
    let d = table(procs, "", vec![]);
    let counts = d.compute_descendant_counts();
    for x in &d.processes {
        let walks = d.processes.iter().filter(|p| d.is_descendant_of(p.pid, x.pid)).count();
        assert_eq!(counts.get(&x.pid).copied().unwrap_or(0), walks);
        assert_eq!(d.count_descendants_of(x.pid), walks);
        assert_ne!(counts.get(&x.pid), Some(&0));
    }
    assert_eq!(d.count_descendants_of(1), 3);
}

#[test]
fn rows_are_each_shown_process_once_in_order() {
    let procs = || vec![node(3, 0, 1), node(1, 0, 1), node(2, 0, 1), node(10, 1, 1)];
    // empty search, no filters: every process, ordered by name
    let d = table(procs(), "", vec![]);
    let rows: Vec<i32> = d.filtered_sorted_rows().iter().map(|p| p.pid).collect();
    assert_eq!(rows, vec![1, 10, 2, 3]);
    // a search keeps exactly the matching processes, each once
    let d = table(procs(), "n1", vec![]);
    let mut rows: Vec<i32> = d.filtered_sorted_rows().iter().map(|p| p.pid).collect();
    rows.sort();
    assert_eq!(rows, vec![1, 10]);
    // a pinned pid heads the rows; the rest keep their order
    let mut d = table(procs(), "", vec![gpuitop::data::model::Filter::Pid(1)]);
    d.view_state.sort_dir = SortDirection::Descending;
    let rows: Vec<i32> = d.filtered_sorted_rows().iter().map(|p| p.pid).collect();
    assert_eq!(rows, vec![1, 10]);
}

#[test]
fn service_cgroup_reads_first_line_only() {
    for s in ["0::/system.slice/ssh.service", "0::/user.slice/x.scope", "", "a.service\r", "0::/a.service\n"] {
        for t in ["", "0::/system.slice/other.service", "junk"] {
            let joined = format!("{s}\n{t}");
            assert_eq!(is_systemd_service_cgroup(&joined), is_systemd_service_cgroup(s));
        }
    }
    assert!(is_systemd_service_cgroup("0::/system.slice/ssh.service\n"));
    assert!(!is_systemd_service_cgroup("0::/user.slice\n0::/system.slice/ssh.service"));
}

fn prev(starttime: u64, is_gui: bool) -> PrevProc {
    PrevProc { utime: 1, stime: 2, cutime: 3, cstime: 4, is_gui, starttime }
}

#[test]
fn next_prev_table_holds_this_ticks_pids() {
    let t = next_prev_table(&vec![(5, prev(10, true)), (7, prev(11, false)), (5, prev(12, false))]);
    assert_eq!(t.len(), 2);
    assert_eq!(t[&5].starttime, 12);
    assert!(!t[&5].is_gui);
    assert_eq!(t[&7].starttime, 11);
    assert!(next_prev_table(&vec![]).is_empty());
}
