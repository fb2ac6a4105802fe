use gpuitop::config::{ColumnVisibility, Config as FlatConfig};
use gpuitop::data::config::Config;
use gpuitop::data::model::{PidFilterMode, ResourceViewMode, SortColumn, Theme, VramPolling};
use gpuitop::data::settings::{
    set_clear_search_on_pin, set_pid_filter_mode, set_refresh_ms, set_resource_view_mode,
    set_sort_column, set_sort_descending, set_theme, set_vram_polling, swap_columns,
    toggle_column_visibility,
};

#[test]
fn test_set_refresh_ms_valid() {
    let mut cfg = Config::default();
    let mut shared = cfg.general.interface.refresh_ms;
    if let Some(ms) = set_refresh_ms(&mut cfg, "500") {
        shared = ms;
    }
    assert_eq!(cfg.general.interface.refresh_ms, 500);
    assert_eq!(shared, 500);
}

#[test]
fn test_set_refresh_ms_invalid() {
    let mut cfg = Config::default();
    let original = cfg.general.interface.refresh_ms;
    let mut shared = original;
    if let Some(ms) = set_refresh_ms(&mut cfg, "not_a_number") {
        shared = ms;
    }
    assert_eq!(cfg.general.interface.refresh_ms, original);
    assert_eq!(shared, original);
}

#[test]
fn set_theme_known_and_unknown() {
    let mut cfg = Config::default();
    assert_eq!(set_theme(&mut cfg, "Dark"), Some(Theme::Dark));
    assert_eq!(cfg.general.interface.theme, Theme::Dark);
    assert_eq!(set_theme(&mut cfg, "Purple"), None);
    assert_eq!(cfg.general.interface.theme, Theme::Dark);
}

#[test]
fn set_vram_polling_values() {
    let mut cfg = Config::default();
    set_vram_polling(&mut cfg, "On");
    assert_eq!(cfg.processes.behaviour.vram_polling, VramPolling::On);
    set_vram_polling(&mut cfg, "Auto");
    assert_eq!(cfg.processes.behaviour.vram_polling, VramPolling::Auto);
    set_vram_polling(&mut cfg, "whatever");
    assert_eq!(cfg.processes.behaviour.vram_polling, VramPolling::Off);
}

#[test]
fn test_set_pid_filter_mode() {
    let mut cfg = Config::default();
    set_pid_filter_mode(&mut cfg, "Direct only");
    assert_eq!(cfg.processes.behaviour.pid_filter_mode, PidFilterMode::DirectChildren);
    set_pid_filter_mode(&mut cfg, "All descendants");
    assert_eq!(cfg.processes.behaviour.pid_filter_mode, PidFilterMode::AllDescendants);
    set_pid_filter_mode(&mut cfg, "anything else");
    assert_eq!(cfg.processes.behaviour.pid_filter_mode, PidFilterMode::AllDescendants);
}

#[test]
fn test_set_clear_search_on_pin() {
    let mut cfg = Config::default();
    set_clear_search_on_pin(&mut cfg, false);
    assert!(!cfg.processes.behaviour.clear_search_on_pin);
    set_clear_search_on_pin(&mut cfg, true);
    assert!(cfg.processes.behaviour.clear_search_on_pin);
}

#[test]
fn test_set_resource_view_mode() {
    let mut cfg = Config::default();
    set_resource_view_mode(&mut cfg, "Self");
    assert_eq!(cfg.processes.behaviour.resource_view_mode, ResourceViewMode::SelfOnly);
    set_resource_view_mode(&mut cfg, "Cumulative");
    assert_eq!(cfg.processes.behaviour.resource_view_mode, ResourceViewMode::Cumulative);
    set_resource_view_mode(&mut cfg, "other");
    assert_eq!(cfg.processes.behaviour.resource_view_mode, ResourceViewMode::Cumulative);
}

#[test]
fn test_set_sort_column_all_display_names() {
    let cases = vec![
        ("Name", SortColumn::Name),
        ("PID", SortColumn::Pid),
        ("User", SortColumn::User),
        ("State", SortColumn::State),
        ("CPU%", SortColumn::Cpu),
        ("Memory%", SortColumn::Memory),
        ("VRAM", SortColumn::Vram),
        ("Disk R", SortColumn::DiskRead),
        ("Disk W", SortColumn::DiskWrite),
    ];
    for (input, expected) in cases {
        let mut cfg = Config::default();
        set_sort_column(&mut cfg, input);
        assert_eq!(cfg.processes.default_sort.column, expected, "failed for input: {input}");
    }
}

#[test]
fn test_set_sort_column_unknown_does_not_mutate() {
    let mut cfg = Config::default();
    let original = cfg.processes.default_sort.column;
    set_sort_column(&mut cfg, "Unknown");
    assert_eq!(cfg.processes.default_sort.column, original);
}

#[test]
fn test_set_sort_descending() {
    let mut cfg = Config::default();
    set_sort_descending(&mut cfg, false);
    assert!(!cfg.processes.default_sort.descending);
    set_sort_descending(&mut cfg, true);
    assert!(cfg.processes.default_sort.descending);
}

#[test]
fn test_toggle_column_visibility() {
    let mut cfg = Config::default();
    let col = SortColumn::Name;
    assert!(cfg.processes.columns.iter().find(|e| e.column == col).unwrap().visible);
    toggle_column_visibility(&mut cfg, col);
    assert!(!cfg.processes.columns.iter().find(|e| e.column == col).unwrap().visible);
    toggle_column_visibility(&mut cfg, col);
    assert!(cfg.processes.columns.iter().find(|e| e.column == col).unwrap().visible);
}

#[test]
fn test_toggle_column_visibility_unknown_col_does_nothing() {
    let mut cfg = Config::default();
    let before: Vec<_> = cfg.processes.columns.iter().map(|e| (e.column, e.visible)).collect();
    toggle_column_visibility(&mut cfg, SortColumn::Name);
    toggle_column_visibility(&mut cfg, SortColumn::Name);
    let after: Vec<_> = cfg.processes.columns.iter().map(|e| (e.column, e.visible)).collect();
    assert_eq!(before, after);
}

#[test]
fn toggle_column_visibility_missing_column_changes_nothing() {
    let mut cfg = Config::default();
    cfg.processes.columns.retain(|e| e.column != SortColumn::Vram);
    let before: Vec<_> = cfg.processes.columns.iter().map(|e| (e.column, e.visible)).collect();
    toggle_column_visibility(&mut cfg, SortColumn::Vram);
    let after: Vec<_> = cfg.processes.columns.iter().map(|e| (e.column, e.visible)).collect();
    assert_eq!(before, after);
}

#[test]
fn test_swap_columns_within_bounds() {
    let mut cfg = Config::default();
    let first_col = cfg.processes.columns[0].column;
    let second_col = cfg.processes.columns[1].column;
    swap_columns(&mut cfg, 0, 1);
    assert_eq!(cfg.processes.columns[0].column, second_col);
    assert_eq!(cfg.processes.columns[1].column, first_col);
}

#[test]
fn test_swap_columns_out_of_bounds() {
    let mut cfg = Config::default();
    let before: Vec<_> = cfg.processes.columns.iter().map(|e| e.column).collect();
    let len = cfg.processes.columns.len();
    swap_columns(&mut cfg, 0, len);
    swap_columns(&mut cfg, len, 0);
    swap_columns(&mut cfg, len, len + 1);
    let after: Vec<_> = cfg.processes.columns.iter().map(|e| e.column).collect();
    assert_eq!(before, after);
}

#[test]
fn config_path_prefers_xdg() {
    assert_eq!(Config::config_path(Some("/x"), Some("/home/u")), "/x/gpuitop/config.ron");
    assert_eq!(Config::config_path(Some(""), Some("/home/u")), "/home/u/.config/gpuitop/config.ron");
    assert_eq!(Config::config_path(None, None), "./gpuitop/config.ron");
}

#[test]
fn legacy_config_path_and_defaults() {
    assert_eq!(FlatConfig::config_path(None, Some("/root/")), "/root/.config/gpuitop/config.toml");
    let c = FlatConfig::default();
    assert_eq!(c.refresh_ms, 1500);
    assert_eq!(c.window_width, 1100);
    assert_eq!(c.window_height, 700);
    let v = ColumnVisibility::default();
    assert!(v.name && !v.vram && !v.command);
    assert!(!v.shows(SortColumn::Vram));
    assert!(v.shows(SortColumn::DiskWrite));
}

#[test]
fn toggling_twice_restores_every_column() {
    let mut cfg = Config::default();
    let before: Vec<_> = cfg.processes.columns.iter().map(|e| (e.column, e.visible)).collect();
    for col in SortColumn::all() {
        toggle_column_visibility(&mut cfg, col);
        assert_ne!(cfg.processes.is_col_visible(col), before.iter().find(|e| e.0 == col).unwrap().1);
        toggle_column_visibility(&mut cfg, col);
    }
    let after: Vec<_> = cfg.processes.columns.iter().map(|e| (e.column, e.visible)).collect();
    assert_eq!(before, after);
}

#[test]
fn swapping_twice_restores_the_order() {
    let mut cfg = Config::default();
    let before: Vec<_> = cfg.processes.columns.iter().map(|e| e.column).collect();
    swap_columns(&mut cfg, 2, 5);
    assert_ne!(cfg.processes.columns.iter().map(|e| e.column).collect::<Vec<_>>(), before);
    swap_columns(&mut cfg, 2, 5);
    let after: Vec<_> = cfg.processes.columns.iter().map(|e| e.column).collect();
    assert_eq!(before, after);
}
