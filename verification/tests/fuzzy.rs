use gpuitop::data::fuzzy::{best_fuzzy_score, fuzzy_match, nucleo_fuzzy_score};
use gpuitop::data::model::{FloatKeys, ProcessInfo};

fn proc_named(name: &str, command: &str, is_gui: bool) -> ProcessInfo {
    ProcessInfo {
        pid: 1,
        ppid: 0,
        name: name.into(),
        user: String::new(),
        state: 'S',
        command: command.into(),
        cgroup: String::new(),
        mem_rss: 0,
        vram_bytes: None,
        is_gui,
        is_kthread: false,
        is_owned_by_current_user: true,
        is_electron: false,
        electron_app_name: None,
        icon_name: None,
        has_children: false,
        keys: FloatKeys::default(),
    }
}

#[test]
fn test_fuzzy_match_exact() {
    assert!(fuzzy_match("bash", "bash"));
}

#[test]
fn test_fuzzy_match_substring() {
    assert!(fuzzy_match("ba", "bash"));
    assert!(fuzzy_match("sh", "bash"));
}

#[test]
fn test_fuzzy_match_case_insensitive() {
    assert!(fuzzy_match("BASH", "bash"));
    assert!(fuzzy_match("bash", "BASH"));
}

#[test]
fn test_fuzzy_match_no_match() {
    assert!(!fuzzy_match("xyz", "bash"));
}

#[test]
fn test_fuzzy_match_empty_needle() {
    let result = fuzzy_match("", "bash");
    assert!(result);
}

#[test]
fn test_nucleo_fuzzy_score_exact() {
    let score = nucleo_fuzzy_score("firefox", "firefox");
    assert!(score.is_some());
}

#[test]
fn test_nucleo_fuzzy_score_no_match() {
    let score = nucleo_fuzzy_score("xyzabc", "firefox");
    assert_eq!(score, None);
}

#[test]
fn test_nucleo_fuzzy_score_empty_needle() {
    let score = nucleo_fuzzy_score("", "firefox");
    assert!(score.is_some());
}

#[test]
fn test_nucleo_fuzzy_score_empty_haystack() {
    let score = nucleo_fuzzy_score("test", "");
    assert_eq!(score, None);
}

#[test]
fn nucleo_fuzzy_score_empty_needle_is_zero() {
    assert_eq!(nucleo_fuzzy_score("", "anything"), Some(0));
}

#[test]
fn test_best_fuzzy_score_returns_highest() {
    let p = proc_named("firefox", "/usr/lib/firefox/firefox", true);
    let s = best_fuzzy_score("fire", &p);
    assert!(s > 0);
}

#[test]
fn test_best_fuzzy_score_no_match_is_zero() {
    let p = proc_named("bash", "/bin/bash", false);
    let s = best_fuzzy_score("firefox", &p);
    assert_eq!(s, 0);
}

#[test]
fn best_fuzzy_score_is_the_largest_of_name_and_command() {
    let p = proc_named("Bash", "/usr/bin/firefox", false);
    let name = nucleo_fuzzy_score("fire", "bash").unwrap_or(0);
    let cmd = nucleo_fuzzy_score("fire", "/usr/bin/firefox").unwrap_or(0);
    assert_eq!(best_fuzzy_score("fire", &p), name.max(cmd));
}
