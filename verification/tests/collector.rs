use gpuitop::data::gpu::{
    build_vram_map, build_vram_map_checked, detect_gpu, rocm_vram_map, rocm_vram_map_checked,
    vram_totals, vram_totals_checked,
};
use gpuitop::data::model::ProcessInfo;
use gpuitop::snapshot::processes::electron_walks_end;
use gpuitop::data::icons::{resolve_icon_path, DesktopEntryCache};
use gpuitop::data::model::{FloatKeys, GpuBackend};
use gpuitop::data::window_picker::{picked_window, PickedWindow};
use gpuitop::snapshot::collector::{
    counter_deltas, cpu_tick_deltas, cpu_totals, fallback_core_count, has_display_var,
    has_display_var_from_env, gpu_pass, pick_cpu_zone, GpuPass, push_history, CpuTimes, MemCounters, HISTORY_LEN,
};
use gpuitop::snapshot::pid_alive;
use gpuitop::snapshot::proc_basics::{user_label, username_for_uid, ProcBasics, StatFields, StatusFields};
use gpuitop::about::dep_list;
use gpuitop::snapshot::records::{gui_from_cache, icon_names, join_args, process_record, ProcessReads};
use std::collections::HashMap;

fn times(user: u64, idle: u64, iowait: Option<u64>) -> CpuTimes {
    CpuTimes {
        user,
        nice: 1,
        system: 2,
        idle,
        iowait,
        irq: Some(3),
        softirq: None,
        steal: Some(4),
        guest: None,
        guest_nice: None,
    }
}

fn stat(comm: &str, ppid: i32) -> StatFields {
    StatFields {
        comm: comm.into(),
        state: 'S',
        ppid,
        utime: 1,
        stime: 2,
        cutime: 3,
        cstime: 4,
        starttime: 77,
    }
}

fn reads(pid: i32, ppid: i32, name: &str) -> ProcessReads {
    ProcessReads {
        pid,
        ppid,
        comm: name.into(),
        name: name.into(),
        state: 'R',
        command: "cmd".into(),
        cgroup: String::new(),
        uid: 1000,
        user: "alice".into(),
        vmrss_kb: 4,
        env_gui: true,
        vram: Some(64),
        icon_name: None,
        keys: FloatKeys::default(),
    }
}

#[test]
fn detect_gpu_prefers_nvml() {
    assert_eq!(detect_gpu(true, true), GpuBackend::Nvidia);
    assert_eq!(detect_gpu(false, true), GpuBackend::Amd);
    assert_eq!(detect_gpu(false, false), GpuBackend::NoGpu);
}

#[test]
fn vram_totals_sum_per_process() {
    let m = vram_totals(&vec![(1, 10), (2, 5), (1, 7)]);
    assert_eq!(m, [(1, 17), (2, 5)].into());
    assert!(vram_totals(&vec![]).is_empty());
}

#[test]
fn rocm_vram_map_reads_megabytes() {
    let csv = "PID,Name,VRAM\n1234, app, 64 MB, 2 MB\nbad,x,1 MB\n 1234 ,y,1 MB\n55,z,none\n";
    let m = rocm_vram_map(csv);
    let expected: HashMap<i32, u64> = [(1234, 67 * 1048576)].into();
    assert_eq!(m, expected);
}

#[test]
fn build_vram_map_by_backend() {
    let samples = vec![(3, 100)];
    assert_eq!(build_vram_map(GpuBackend::Nvidia, &samples, ""), [(3, 100)].into());
    assert_eq!(build_vram_map(GpuBackend::Amd, &samples, "9,a,1 MB\n"), [(9, 1048576)].into());
    assert!(build_vram_map(GpuBackend::NoGpu, &samples, "9,a,1 MB\n").is_empty());
}

#[test]
fn cpu_totals_sum_counters() {
    let t = cpu_totals(&vec![times(10, 100, Some(5)), times(0, 0, None)]);
    assert_eq!(t, vec![(10 + 1 + 2 + 100 + 5 + 3 + 4, 105), (1 + 2 + 3 + 4, 0)]);
}

#[test]
fn cpu_tick_deltas_saturate() {
    let d = cpu_tick_deltas(&vec![(10, 5), (20, 10)], &vec![(15, 6), (19, 12), (5, 5)]);
    assert_eq!(d, vec![(5, 1), (0, 2)]);
    assert!(cpu_tick_deltas(&vec![], &vec![(1, 1)]).is_empty());
}

#[test]
fn fallback_core_count_at_least_one() {
    assert_eq!(fallback_core_count(0), 1);
    assert_eq!(fallback_core_count(1), 1);
    assert_eq!(fallback_core_count(2), 1);
    assert_eq!(fallback_core_count(9), 8);
}

#[test]
fn push_history_keeps_the_newest() {
    let mut h: Vec<u32> = (0..HISTORY_LEN as u32).collect();
    push_history(&mut h, 1000);
    assert_eq!(h.len(), HISTORY_LEN);
    assert_eq!(h[0], 1);
    assert_eq!(*h.last().unwrap(), 1000);
    let mut short = vec![1u32];
    push_history(&mut short, 2);
    assert_eq!(short, vec![1, 2]);
}

#[test]
fn memory_summary_figures() {
    let m = MemCounters {
        mem_total: 1000,
        mem_free: 100,
        mem_available: Some(600),
        buffers: 50,
        cached: 200,
        s_reclaimable: Some(50),
        swap_total: 10,
        swap_free: 40,
    };
    let s = m.summary();
    assert_eq!(s.total, 1000);
    assert_eq!(s.cached, 250);
    assert_eq!(s.used, 600);
    assert_eq!(s.available, 600);
    assert_eq!(s.swap_used, 0);
}

#[test]
fn counter_deltas_of_known_names() {
    let prev = vec![("sda".to_string(), 100, 50)];
    let cur = vec![("sda".to_string(), 150, 40), ("sdb".to_string(), 1, 1)];
    assert_eq!(counter_deltas(&prev, &cur), vec![("sda".to_string(), 50, 0)]);
}

#[test]
fn counter_deltas_last_entry_of_a_name_counts() {
    let prev = vec![("a".to_string(), 1, 1), ("a".to_string(), 2, 2)];
    let cur = vec![("a".to_string(), 5, 5), ("a".to_string(), 10, 10)];
    assert_eq!(counter_deltas(&prev, &cur), vec![("a".to_string(), 8, 8)]);
}

#[test]
fn pick_cpu_zone_prefers_cpu_types() {
    let z = |v: &[&str]| v.iter().map(|s| s.to_string()).collect::<Vec<String>>();
    assert_eq!(pick_cpu_zone(&z(&["acpitz", "x86_pkg_temp"])), Some(1));
    assert_eq!(pick_cpu_zone(&z(&["acpitz", "iwlwifi"])), Some(0));
    assert_eq!(pick_cpu_zone(&z(&[])), None);
    assert_eq!(pick_cpu_zone(&z(&["wifi", "  CPU-therm\n"])), Some(1));
}

#[test]
fn has_display_var_in_environ() {
    assert!(has_display_var(b"HOME=/root\0DISPLAY=:0\0"));
    assert!(has_display_var(b"WAYLAND_DISPLAY=wayland-0"));
    assert!(!has_display_var(b"XDISPLAY=1\0HOME=/\0"));
    assert!(!has_display_var(b""));
}

#[test]
fn has_display_var_from_env_names() {
    let v = |n: &[&str]| n.iter().map(|s| s.to_string()).collect::<Vec<String>>();
    assert!(has_display_var_from_env(&v(&["PATH", "DISPLAY"])));
    assert!(has_display_var_from_env(&v(&["WAYLAND_DISPLAY"])));
    assert!(!has_display_var_from_env(&v(&["PATH", "DISPLAY_X"])));
}

#[test]
fn proc_basics_kernel_thread_has_no_command_line() {
    let b = ProcBasics::new(stat("kworker/0:1", 2), StatusFields { ruid: 0, vmrss: None }, vec!["x".into()]);
    assert!(b.is_kthread);
    assert!(b.cmdline.is_empty());
    assert_eq!(b.name(), "kworker/0:1");
    assert_eq!(b.cpu_tick_sum(), 10);
}

#[test]
fn proc_basics_name_from_argv0() {
    let b = ProcBasics::new(stat("bash", 1), StatusFields { ruid: 0, vmrss: Some(5) }, vec!["/usr/bin/bash".into(), "-l".into()]);
    assert!(!b.is_kthread);
    assert_eq!(b.name(), "bash");
    let e = ProcBasics::new(stat("comm", 1), StatusFields { ruid: 0, vmrss: None }, vec!["".into()]);
    assert_eq!(e.name(), "comm");
}

#[test]
fn user_labels() {
    assert_eq!(user_label(None, 1000), "1000");
    assert_eq!(user_label(Some("alice".into()), 1000), "alice");
    assert!(!username_for_uid(0).is_empty());
}

#[test]
fn join_args_with_spaces() {
    assert_eq!(join_args(&vec!["a".into(), "b c".into()]), "a b c");
    assert_eq!(join_args(&vec![]), "");
}

#[test]
fn gui_cache_rules() {
    assert_eq!(gui_from_cache(true, Some((1, true)), 1), Some(false));
    assert_eq!(gui_from_cache(false, Some((1, true)), 1), Some(true));
    assert_eq!(gui_from_cache(false, Some((1, true)), 2), None);
    assert_eq!(gui_from_cache(false, None, 2), None);
}

#[test]
fn process_record_rules() {
    let r = process_record(reads(10, 1, "app"), 1000);
    assert!(r.is_gui);
    assert!(!r.is_kthread);
    assert!(r.is_owned_by_current_user);
    assert_eq!(r.mem_rss, 4096);
    assert_eq!(r.vram_bytes, Some(64));
    let k = process_record(reads(11, 2, "kworker"), 0);
    assert!(k.is_kthread);
    assert!(!k.is_gui);
    assert_eq!(k.vram_bytes, None);
    assert!(!k.is_owned_by_current_user);
}

#[test]
fn picked_window_decisions() {
    assert!(picked_window(0, Some(5), 1, None).is_none());
    assert!(picked_window(7, Some(5), 5, None).is_none());
    assert!(matches!(picked_window(7, Some(9), 5, None), Some(PickedWindow::Pid(9))));
    assert!(picked_window(7, None, 5, Some("gpuitop".into())).is_none());
    assert!(matches!(picked_window(7, None, 5, Some("firefox".into())), Some(PickedWindow::AppId(ref c)) if c == "firefox"));
    assert!(picked_window(7, None, 5, None).is_none());
}

#[test]
fn platform_without_probes() {
    assert!(DesktopEntryCache::load().lookup("a", "b").is_none());
    assert!(resolve_icon_path("x").is_none());
    assert!(!pid_alive(1));
}

#[test]
fn icon_names_once_in_order() {
    let mut a = process_record(reads(1, 0, "a"), 0);
    a.icon_name = Some("firefox".into());
    let b = process_record(reads(2, 0, "b"), 0);
    let mut c = process_record(reads(3, 0, "c"), 0);
    c.icon_name = Some("term".into());
    let mut d = process_record(reads(4, 0, "d"), 0);
    d.icon_name = Some("firefox".into());
    assert_eq!(icon_names(&vec![a, b, c, d]), vec!["firefox".to_string(), "term".to_string()]);
}

#[test]
fn dep_list_rows() {
    let rows = dep_list("serde", "1.0", "MIT", "", "https://serde.rs", "https://github.com/serde-rs/serde");
    let p = |a: &str, b: &str| (a.to_string(), b.to_string());
    assert_eq!(
        rows,
        vec![
            p("serde", "1.0"),
            p("License", "MIT"),
            p("Website", "[https://serde.rs](https://serde.rs)"),
            p("Repository", "[https://github.com/serde-rs/serde](https://github.com/serde-rs/serde)"),
        ]
    );
    let same = dep_list("x", "2", "Apache", "A crate", "https://r", "https://r");
    assert_eq!(same, vec![p("x", "2"), p("License", "Apache"), p("Description", "A crate"), p("Repository", "[https://r](https://r)")]);
}

#[test]
fn checked_totals_refuse_overflow() {
    assert_eq!(vram_totals_checked(&vec![(1, u64::MAX), (1, 1)]), None);
    assert_eq!(vram_totals_checked(&vec![(1, u64::MAX), (2, 1)]), Some([(1, u64::MAX), (2, 1)].into()));
    assert_eq!(rocm_vram_map_checked("1,a,99999999999999999 MB\n"), None);
    assert_eq!(rocm_vram_map_checked("1,a,2 MB\n"), Some([(1, 2 * 1048576)].into()));
    assert_eq!(build_vram_map_checked(GpuBackend::NoGpu, &vec![(1, u64::MAX), (1, 1)], ""), Some(HashMap::new()));
}

#[test]
fn range_checks_of_counters() {
    let mut t = times(u64::MAX, 0, None);
    assert!(!t.within_range());
    t.user = 0;
    assert!(t.within_range());
    let m = MemCounters {
        mem_total: 0,
        mem_free: u64::MAX,
        mem_available: None,
        buffers: 1,
        cached: 0,
        s_reclaimable: None,
        swap_total: 0,
        swap_free: 0,
    };
    assert!(!m.within_range());
    let b = ProcBasics::new(stat("x", 1), StatusFields { ruid: 0, vmrss: None }, vec![]);
    assert_eq!(b.cpu_tick_sum_checked(), Some(10));
}

#[test]
fn electron_walk_with_parent_cycle_does_not_end() {
    let mut a = process_record(reads(10, 11, "electron"), 0);
    a.command = "electron --type=renderer".into();
    let mut b = process_record(reads(11, 10, "electron"), 0);
    b.command = "electron --type=zygote".into();
    let pids: HashMap<i32, ProcessInfo> = [(10, a), (11, b)].into();
    assert!(!electron_walks_end(&pids));
    let single: HashMap<i32, ProcessInfo> = [(10, process_record(reads(10, 1, "x"), 0))].into();
    assert!(electron_walks_end(&single));
}

#[test]
fn gpu_pass_follows_setting_and_request() {
    assert_eq!(gpu_pass(false, true, true), (GpuPass::Skip, false));
    assert_eq!(gpu_pass(false, false, false), (GpuPass::Skip, false));
    assert_eq!(gpu_pass(true, true, false), (GpuPass::Detect, false));
    assert_eq!(gpu_pass(true, true, true), (GpuPass::Detect, false));
    assert_eq!(gpu_pass(true, false, true), (GpuPass::Detect, true));
    assert_eq!(gpu_pass(true, false, false), (GpuPass::Reuse, true));
}

#[test]
fn process_record_kernel_thread_from_stat_name() {
    // A user process whose first argument starts with '[' stays a user process.
    let mut r = reads(20, 1, "[fake]");
    r.comm = "app".into();
    r.cgroup = "0::/user.slice".into();
    r.icon_name = Some("app-icon".into());
    let p = process_record(r, 1000);
    assert!(!p.is_kthread);
    assert!(p.is_gui);
    assert_eq!(p.vram_bytes, Some(64));
    assert_eq!(p.name, "[fake]");
    assert_eq!(p.cgroup, "0::/user.slice");
    assert_eq!(p.icon_name.as_deref(), Some("app-icon"));
    // A kernel thread is decided from its stat name and keeps no cgroup or icon.
    let mut k = reads(21, 1, "kthread-shown");
    k.comm = "[kworker/0:1]".into();
    k.cgroup = "0::/".into();
    k.icon_name = Some("x".into());
    let q = process_record(k, 1000);
    assert!(q.is_kthread);
    assert!(!q.is_gui);
    assert_eq!(q.vram_bytes, None);
    assert_eq!(q.cgroup, "");
    assert_eq!(q.icon_name, None);
}
