use gpuitop::collect::{
    cpu_totals_from_stat, disk_counters, display_command, is_kthread, kv_lookup,
    mark_has_children, memory_from_meminfo, net_counters, parse_kv, parse_stat,
};
use gpuitop::data::model::{FloatKeys, ProcessInfo};
use gpuitop::data::platform::linux::process_details::{
    details_from, details_uid, read_environ, read_limits, sort_fds, status_within_range,
    ProcessDetails,
};
use std::collections::HashMap;

fn stub(pid: i32, ppid: i32) -> ProcessInfo {
    ProcessInfo {
        pid,
        ppid,
        name: "p".into(),
        user: "root".into(),
        state: 'S',
        command: "p".into(),
        cgroup: String::new(),
        mem_rss: 0,
        vram_bytes: None,
        is_gui: false,
        is_kthread: false,
        is_owned_by_current_user: false,
        is_electron: false,
        electron_app_name: None,
        icon_name: None,
        has_children: false,
        keys: FloatKeys::default(),
    }
}

fn pairs(v: &[(&str, &str)]) -> Vec<(String, String)> {
    v.iter().map(|(a, b)| (a.to_string(), b.to_string())).collect()
}

#[test]
fn parse_kv_trims_keys_and_values() {
    let m = parse_kv("Name:\tbash\nUid:\t1000\t1000\nno colon here\n  Key : value : more \n");
    assert_eq!(m, pairs(&[("Name", "bash"), ("Uid", "1000\t1000"), ("Key", "value : more")]));
    assert_eq!(kv_lookup(&m, "Uid"), Some("1000\t1000".to_string()));
    assert_eq!(kv_lookup(&m, "Gid"), None);
}

#[test]
fn kv_lookup_takes_the_last_entry() {
    let m = parse_kv("A: 1\nA: 2\n");
    assert_eq!(kv_lookup(&m, "A"), Some("2".to_string()));
}

#[test]
fn memory_from_meminfo_figures() {
    let text = "MemTotal: 1000 kB\nMemFree: 100 kB\nBuffers: 50 kB\nCached: 200 kB\n\
                SReclaimable: 50 kB\nMemAvailable: 600 kB\nSwapTotal: 10 kB\nSwapFree: 4 kB\n";
    let m = memory_from_meminfo(text);
    assert_eq!(m.total, 1024000);
    assert_eq!(m.free, 102400);
    assert_eq!(m.buffers, 51200);
    assert_eq!(m.cached, 256000);
    assert_eq!(m.used, 1024000 - (102400 + 51200 + 256000));
    assert_eq!(m.available, 614400);
    assert_eq!(m.swap_total, 10240);
    assert_eq!(m.swap_free, 4096);
    assert_eq!(m.swap_used, 6144);
}

#[test]
fn memory_from_meminfo_used_saturates() {
    let m = memory_from_meminfo("MemTotal: 10 kB\nMemFree: 20 kB\n");
    assert_eq!(m.used, 0);
    assert_eq!(m.swap_used, 0);
    let empty = memory_from_meminfo("");
    assert_eq!(empty.total, 0);
}

#[test]
fn cpu_totals_from_stat_lines() {
    let t = cpu_totals_from_stat("cpu  1 2 3 4 5 6 7 8\ncpu0 1 1 1 1 1\ncpu1 1 1 1\nintr 5 5 5 5 5\n");
    assert_eq!(t, vec![(36, 9), (5, 2)]);
}

#[test]
fn disk_counters_from_diskstats() {
    let d = disk_counters("   8       0 sda 100 0 20 0 50 0 30 0 0 0 0 0\n   8 1 short 1 2 3\n");
    assert_eq!(d, vec![("sda".to_string(), 20 * 512, 30 * 512)]);
}

#[test]
fn net_counters_skip_headers() {
    let text = "Inter-|   Receive\n face |bytes\n  eth0: 100 1 0 0 0 0 0 0 200 2 0 0 0 0 0 0\n    lo: 5 0 0 0 0 0 0 0 7 0\n";
    let n = net_counters(text);
    assert_eq!(n, vec![("eth0".to_string(), 100, 200), ("lo".to_string(), 5, 7)]);
}

#[test]
fn parse_stat_fields() {
    let s = "42 (bash) S 1 42 42 0 -1 4194304 100 0 0 0 7 3 1 2 20 0 1 0 100";
    assert_eq!(parse_stat(s), Some(("bash".to_string(), 'S', 1, 7, 3, 1, 2)));
    assert_eq!(parse_stat("42 (bash) S 1 2"), None);
    assert_eq!(parse_stat("no parens"), None);
}

#[test]
fn display_command_replaces_nuls() {
    assert_eq!(display_command("/usr/bin/foo\0--bar\0", "foo"), "/usr/bin/foo --bar");
    assert_eq!(display_command("", "kworker/0:1"), "kworker/0:1");
    assert_eq!(display_command("\0\0", "x"), "x");
}

#[test]
fn is_kthread_rules() {
    assert!(is_kthread(2, "kworker"));
    assert!(is_kthread(1, "[kthreadd]"));
    assert!(!is_kthread(1, "bash"));
}

#[test]
fn mark_has_children_flags_parents() {
    let mut m: HashMap<i32, ProcessInfo> = [(1, stub(1, 0)), (2, stub(2, 1)), (3, stub(3, 2)), (4, stub(4, 9))].into();
    mark_has_children(&mut m);
    assert!(m[&1].has_children);
    assert!(m[&2].has_children);
    assert!(!m[&3].has_children);
    assert!(!m[&4].has_children);
}

#[test]
fn read_limits_columns() {
    let text = "Limit                     Soft Limit           Hard Limit           Units\n\
                Max cpu time              unlimited            unlimited            seconds\n\
                Max stack size 8388608 unlimited bytes\n\
                bad line\n";
    let l = read_limits(text);
    assert_eq!(l, pairs(&[("Max", "cpu / time"), ("Max", "stack / size")]));
    assert!(read_limits("").is_empty());
}

#[test]
fn sort_fds_by_number() {
    let s = sort_fds(pairs(&[("10", "a"), ("2", "b"), ("x", "c"), ("2", "d")]));
    assert_eq!(s, pairs(&[("x", "c"), ("2", "b"), ("2", "d"), ("10", "a")]));
}

#[test]
fn read_environ_sorted_entries() {
    let e = read_environ(b"B=2\0A=1\0junk\0\0C=x=y");
    assert_eq!(e, pairs(&[("A", "1"), ("B", "2"), ("C", "x=y")]));
    assert!(read_environ(b"").is_empty());
}

#[test]
fn read_environ_invalid_utf8_is_replaced() {
    let e = read_environ(b"K=\xff\0");
    assert_eq!(e, pairs(&[("K", "\u{fffd}")]));
}

#[test]
fn details_from_status_and_io() {
    let status = "Name:\tbash\nState:\tS (sleeping)\nPPid:\t1\nUid:\t1000\t1000\t1000\t1000\n\
                  Gid:\t100\t100\nThreads:\t3\nVmRSS:\t  2048 kB\nVmSwap:\t1 kB\n";
    let io = "read_bytes: 4096\nwrite_bytes: 8192\nsyscr: 10\nsyscw: 20\n";
    assert!(status_within_range(status));
    assert_eq!(details_uid(status), 1000);
    let d: ProcessDetails = details_from(
        status,
        io,
        "/usr/bin/bash".into(),
        "/home/u".into(),
        "alice".into(),
        vec![],
        vec![],
        vec![],
    );
    assert!(d.exists);
    assert_eq!(d.name, "bash");
    assert_eq!(d.state, 'S');
    assert_eq!(d.ppid, 1);
    assert_eq!(d.uid, 1000);
    assert_eq!(d.gid, 100);
    assert_eq!(d.threads, 3);
    assert_eq!(d.vm_rss, 2048 * 1024);
    assert_eq!(d.vm_swap, 1024);
    assert_eq!(d.vm_peak, 0);
    assert_eq!(d.io_read_bytes, 4096);
    assert_eq!(d.io_write_bytes, 8192);
    assert_eq!(d.io_read_syscalls, 10);
    assert_eq!(d.io_write_syscalls, 20);
    assert_eq!(d.user_name, "alice");
}

#[test]
fn details_absent_and_missing_state() {
    let a = ProcessDetails::absent();
    assert!(!a.exists);
    let d = details_from("", "", String::new(), String::new(), String::new(), vec![], vec![], vec![]);
    assert_eq!(d.state, '?');
    assert_eq!(d.name, "");
    assert!(status_within_range("VmRSS: 99999999999999999999 kB\n"));
    assert!(!status_within_range("VmRSS: 18014398509481984 kB\n"));
}
