use gpuitop::data::model::{FloatKeys, ProcessInfo};
use gpuitop::data::platform::linux::system::{
    detect_init, is_service, is_systemd_service_cgroup, pids_of_runsv, pids_of_supervise_daemon,
    InitProbe, InitSystem,
};
use std::collections::HashSet;

fn sproc(pid: i32, ppid: i32, cgroup: &str) -> ProcessInfo {
    ProcessInfo {
        pid,
        ppid,
        name: "test".into(),
        user: "root".into(),
        state: 'S',
        command: "test".into(),
        cgroup: cgroup.into(),
        mem_rss: 0,
        vram_bytes: None,
        is_gui: false,
        is_kthread: false,
        is_owned_by_current_user: false,
        is_electron: false,
        electron_app_name: None,
        icon_name: None,
        has_children: false,
        keys: FloatKeys::default(),
    }
}

fn runit_proc(pid: i32, ppid: i32) -> ProcessInfo {
    let mut p = sproc(pid, ppid, "");
    p.name = "runsv".into();
    p
}

fn supervise_proc(pid: i32, ppid: i32) -> ProcessInfo {
    let mut p = sproc(pid, ppid, "");
    p.name = "supervise-daemon".into();
    p
}

fn probe() -> InitProbe {
    InitProbe {
        systemd_run_dir: false,
        dinit_control: false,
        runit_run_dir: false,
        openrc_run_dir: false,
        pid1_exe: None,
        inittab: false,
    }
}

#[test]
fn systemd_cgroup_matches_service() {
    assert!(is_systemd_service_cgroup("0::/system.slice/sshd.service\n"));
}

#[test]
fn systemd_cgroup_matches_user_service() {
    assert!(is_systemd_service_cgroup(
        "0::/user.slice/user-1000.slice/user@1000.service/app.slice/\
         gnome-keyring-daemon.service\n"
    ));
}

#[test]
fn systemd_cgroup_rejects_scope_unit() {
    assert!(!is_systemd_service_cgroup(
        "0::/user.slice/user-1000.slice/user@1000.service/app.slice/\
         app-ghostty-surface-transient-1562569.scope\n"
    ));
}

#[test]
fn systemd_cgroup_rejects_empty() {
    assert!(!is_systemd_service_cgroup(""));
}

#[test]
fn systemd_cgroup_no_newline() {
    assert!(is_systemd_service_cgroup("0::/system.slice/cron.service"));
}

#[test]
fn systemd_cgroup_init_scope_rejected() {
    assert!(!is_systemd_service_cgroup("0::/init.scope\n"));
}

#[test]
fn systemd_cgroup_only_first_line_counts() {
    assert!(!is_systemd_service_cgroup("0::/init.scope\n1:name=x:/a.service\n"));
}

#[test]
fn detect_init_on_current_system() {
    let _init = detect_init(&probe());
}

#[test]
fn detect_init_directories_in_order() {
    let mut p = probe();
    p.runit_run_dir = true;
    p.openrc_run_dir = true;
    assert_eq!(detect_init(&p), InitSystem::Runit);
    p.dinit_control = true;
    assert_eq!(detect_init(&p), InitSystem::Dinit);
    p.systemd_run_dir = true;
    assert_eq!(detect_init(&p), InitSystem::Systemd);
}

#[test]
fn detect_init_from_pid1_exe() {
    let mut p = probe();
    p.pid1_exe = Some("/usr/lib/systemd/systemd".into());
    assert_eq!(detect_init(&p), InitSystem::Systemd);
    p.pid1_exe = Some("/sbin/dinit".into());
    assert_eq!(detect_init(&p), InitSystem::Dinit);
    p.pid1_exe = Some("/sbin/runit-init".into());
    assert_eq!(detect_init(&p), InitSystem::Runit);
    p.pid1_exe = Some("/sbin/init".into());
    assert_eq!(detect_init(&p), InitSystem::Unknown);
    p.inittab = true;
    assert_eq!(detect_init(&p), InitSystem::SysV);
}

#[test]
fn detect_init_nothing_found() {
    assert_eq!(detect_init(&probe()), InitSystem::Unknown);
    let mut p = probe();
    p.inittab = true;
    assert_eq!(detect_init(&p), InitSystem::SysV);
}

#[test]
fn init_system_display_names() {
    assert_eq!(InitSystem::Systemd.to_string(), "systemd");
    assert_eq!(InitSystem::SysV.to_string(), "SysV init");
    assert_eq!(InitSystem::Unknown.to_string(), "unknown");
}

#[test]
fn pids_of_runsv_empty() {
    assert!(pids_of_runsv(&[]).is_empty());
}

#[test]
fn pids_of_runsv_single() {
    let procs = [runit_proc(42, 1)];
    let pids = pids_of_runsv(&procs);
    assert_eq!(pids.len(), 1);
    assert!(pids.contains(&42));
}

#[test]
fn pids_of_runsv_multiple() {
    let procs = [runit_proc(10, 1), runit_proc(20, 1), runit_proc(30, 1)];
    let pids = pids_of_runsv(&procs);
    assert_eq!(pids.len(), 3);
    assert!(pids.contains(&10));
    assert!(pids.contains(&20));
    assert!(pids.contains(&30));
}

#[test]
fn pids_of_runsv_excludes_non_runsv() {
    let procs = [runit_proc(10, 1), sproc(20, 1, ""), runit_proc(30, 1), sproc(40, 1, "")];
    let pids = pids_of_runsv(&procs);
    assert_eq!(pids.len(), 2);
    assert!(pids.contains(&10));
    assert!(pids.contains(&30));
}

#[test]
fn pids_of_supervise_empty() {
    assert!(pids_of_supervise_daemon(&[]).is_empty());
}

#[test]
fn pids_of_supervise_single() {
    let procs = [supervise_proc(99, 1)];
    let pids = pids_of_supervise_daemon(&procs);
    assert_eq!(pids.len(), 1);
    assert!(pids.contains(&99));
}

#[test]
fn pids_of_supervise_excludes_non_matching() {
    let procs = [supervise_proc(10, 1), sproc(20, 1, ""), sproc(30, 1, "")];
    let pids = pids_of_supervise_daemon(&procs);
    assert_eq!(pids.len(), 1);
    assert!(pids.contains(&10));
}

#[test]
fn is_service_systemd_with_service_cgroup() {
    let p = sproc(100, 2, "0::/system.slice/sshd.service\n");
    assert!(is_service(&p, InitSystem::Systemd, &HashSet::new(), &HashSet::new()));
}

#[test]
fn is_service_systemd_empty_cgroup_ppid_1() {
    let p = sproc(100, 1, "");
    assert!(is_service(&p, InitSystem::Systemd, &HashSet::new(), &HashSet::new()));
}

#[test]
fn is_service_systemd_empty_cgroup_ppid_not_1() {
    let p = sproc(100, 999, "");
    assert!(!is_service(&p, InitSystem::Systemd, &HashSet::new(), &HashSet::new()));
}

#[test]
fn is_service_openrc_ppid_1() {
    let p = sproc(100, 1, "");
    assert!(is_service(&p, InitSystem::OpenRc, &HashSet::new(), &HashSet::new()));
}

#[test]
fn is_service_openrc_ppid_in_supervise() {
    let superv: HashSet<i32> = [42].into();
    let p = sproc(100, 42, "");
    assert!(is_service(&p, InitSystem::OpenRc, &HashSet::new(), &superv));
}

#[test]
fn is_service_openrc_ppid_not_1_not_supervise() {
    let p = sproc(100, 999, "");
    assert!(!is_service(&p, InitSystem::OpenRc, &HashSet::new(), &HashSet::new()));
}

#[test]
fn is_service_runit_ppid_in_runsv() {
    let runsv: HashSet<i32> = [55].into();
    let p = sproc(100, 55, "");
    assert!(is_service(&p, InitSystem::Runit, &runsv, &HashSet::new()));
}

#[test]
fn is_service_runit_ppid_not_in_runsv() {
    let p = sproc(100, 999, "");
    assert!(!is_service(&p, InitSystem::Runit, &HashSet::new(), &HashSet::new()));
}

#[test]
fn is_service_dinit_ppid_1() {
    let p = sproc(100, 1, "");
    assert!(is_service(&p, InitSystem::Dinit, &HashSet::new(), &HashSet::new()));
}

#[test]
fn is_service_sysv_ppid_1() {
    let p = sproc(100, 1, "");
    assert!(is_service(&p, InitSystem::SysV, &HashSet::new(), &HashSet::new()));
}

#[test]
fn is_service_unknown_ppid_1() {
    let p = sproc(100, 1, "");
    assert!(is_service(&p, InitSystem::Unknown, &HashSet::new(), &HashSet::new()));
}

#[test]
fn is_service_unknown_ppid_not_1() {
    let p = sproc(100, 999, "");
    assert!(!is_service(&p, InitSystem::Unknown, &HashSet::new(), &HashSet::new()));
}
