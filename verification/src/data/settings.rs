//! Changes the settings page makes to the configuration.

use crate::data::config::{column_entry_from, find_column_entry, Config};
use crate::data::model::{PidFilterMode, ResourceViewMode, SortColumn, Theme, VramPolling};
use crate::text::{chars_eq, chars_of, parse_u64, parse_u64_spec};
use vstd::prelude::*;

verus! {

/// `a` and `b` agree everywhere but in the interface settings.
pub open spec fn same_but_interface(a: &Config, b: &Config) -> bool {
    &&& a.processes == b.processes
    &&& a.default_grouping == b.default_grouping
    &&& a.disk_devices == b.disk_devices
    &&& a.network_interfaces == b.network_interfaces
    &&& a.window_width == b.window_width
    &&& a.window_height == b.window_height
}

/// `a` and `b` agree everywhere but in the process-table behaviour.
pub open spec fn same_but_behaviour(a: &Config, b: &Config) -> bool {
    &&& a.general == b.general
    &&& a.processes.columns == b.processes.columns
    &&& a.processes.default_sort == b.processes.default_sort
    &&& a.default_grouping == b.default_grouping
    &&& a.disk_devices == b.disk_devices
    &&& a.network_interfaces == b.network_interfaces
    &&& a.window_width == b.window_width
    &&& a.window_height == b.window_height
}

/// `a` and `b` agree everywhere but in the default sort.
pub open spec fn same_but_sort(a: &Config, b: &Config) -> bool {
    &&& a.general == b.general
    &&& a.processes.columns == b.processes.columns
    &&& a.processes.behaviour == b.processes.behaviour
    &&& a.default_grouping == b.default_grouping
    &&& a.disk_devices == b.disk_devices
    &&& a.network_interfaces == b.network_interfaces
    &&& a.window_width == b.window_width
    &&& a.window_height == b.window_height
}

/// `a` and `b` agree everywhere but in the column layout.
pub open spec fn same_but_columns(a: &Config, b: &Config) -> bool {
    &&& a.general == b.general
    &&& a.processes.behaviour == b.processes.behaviour
    &&& a.processes.default_sort == b.processes.default_sort
    &&& a.default_grouping == b.default_grouping
    &&& a.disk_devices == b.disk_devices
    &&& a.network_interfaces == b.network_interfaces
    &&& a.window_width == b.window_width
    &&& a.window_height == b.window_height
}

fn is_text(val: &str, lit: &str) -> (r: bool)
    ensures
        r == (val@ == lit@),
{
    chars_eq(&chars_of(val), &chars_of(lit))
}

/// Sets the refresh interval from its text; text that is not a `u64`
/// changes nothing. Returns the interval that was set, for the collector.
pub fn set_refresh_ms(config: &mut Config, val: &str) -> (r: Option<u64>)
    ensures
        r == parse_u64_spec(val@),
        same_but_interface(&*final(config), &*old(config)),
        final(config).general.interface.theme == old(config).general.interface.theme,
        final(config).general.interface.refresh_ms == match r {
            Some(ms) => ms,
            None => old(config).general.interface.refresh_ms,
        },
{
    let parsed = parse_u64(&chars_of(val));
    if let Some(ms) = parsed {
        config.general.interface.refresh_ms = ms;
    }
    parsed
}

/// The theme named by a settings value.
pub open spec fn theme_named(val: Seq<char>) -> Option<Theme> {
    if val == "Dark"@ {
        Some(Theme::Dark)
    } else if val == "Light"@ {
        Some(Theme::Light)
    } else if val == "System"@ {
        Some(Theme::System)
    } else {
        None
    }
}

/// Sets the theme by name; an unknown name changes nothing.
pub fn set_theme(config: &mut Config, val: &str) -> (r: Option<Theme>)
    ensures
        r == theme_named(val@),
        same_but_interface(&*final(config), &*old(config)),
        final(config).general.interface.refresh_ms == old(config).general.interface.refresh_ms,
        final(config).general.interface.theme == match r {
            Some(t) => t,
            None => old(config).general.interface.theme,
        },
{
    let new = if is_text(val, "Dark") {
        Theme::Dark
    } else if is_text(val, "Light") {
        Theme::Light
    } else if is_text(val, "System") {
        Theme::System
    } else {
        return None;
    };
    config.general.interface.theme = new;
    Some(new)
}

/// The VRAM polling choice a settings value selects.
pub open spec fn vram_polling_named(val: Seq<char>) -> VramPolling {
    if val == "Auto"@ {
        VramPolling::Auto
    } else if val == "On"@ {
        VramPolling::On
    } else {
        VramPolling::Off
    }
}

/// Sets VRAM polling: `"Auto"`, `"On"`, and anything else is off.
pub fn set_vram_polling(config: &mut Config, val: &str)
    ensures
        same_but_behaviour(&*final(config), &*old(config)),
        final(config).processes.behaviour == (crate::data::config::BehaviourConfig {
            vram_polling: vram_polling_named(val@),
            ..old(config).processes.behaviour
        }),
{
    config.processes.behaviour.vram_polling = if is_text(val, "Auto") {
        VramPolling::Auto
    } else if is_text(val, "On") {
        VramPolling::On
    } else {
        VramPolling::Off
    };
}

/// Sets the PID filter mode: `"Direct only"`, anything else is all
/// descendants.
pub fn set_pid_filter_mode(config: &mut Config, val: &str)
    ensures
        same_but_behaviour(&*final(config), &*old(config)),
        final(config).processes.behaviour == (crate::data::config::BehaviourConfig {
            pid_filter_mode: if val@ == "Direct only"@ {
                PidFilterMode::DirectChildren
            } else {
                PidFilterMode::AllDescendants
            },
            ..old(config).processes.behaviour
        }),
{
    config.processes.behaviour.pid_filter_mode = if is_text(val, "Direct only") {
        PidFilterMode::DirectChildren
    } else {
        PidFilterMode::AllDescendants
    };
}

/// Sets whether pinning a process clears the search.
pub fn set_clear_search_on_pin(config: &mut Config, val: bool)
    ensures
        same_but_behaviour(&*final(config), &*old(config)),
        final(config).processes.behaviour == (crate::data::config::BehaviourConfig {
            clear_search_on_pin: val,
            ..old(config).processes.behaviour
        }),
{
    config.processes.behaviour.clear_search_on_pin = val;
}

/// Sets the resource view: `"Self"`, anything else is cumulative.
pub fn set_resource_view_mode(config: &mut Config, val: &str)
    ensures
        same_but_behaviour(&*final(config), &*old(config)),
        final(config).processes.behaviour == (crate::data::config::BehaviourConfig {
            resource_view_mode: if val@ == "Self"@ {
                ResourceViewMode::SelfOnly
            } else {
                ResourceViewMode::Cumulative
            },
            ..old(config).processes.behaviour
        }),
{
    config.processes.behaviour.resource_view_mode = if is_text(val, "Self") {
        ResourceViewMode::SelfOnly
    } else {
        ResourceViewMode::Cumulative
    };
}

/// The sort column whose header text is `val`.
pub open spec fn column_named(val: Seq<char>) -> Option<SortColumn> {
    if val == "Name"@ {
        Some(SortColumn::Name)
    } else if val == "PID"@ {
        Some(SortColumn::Pid)
    } else if val == "User"@ {
        Some(SortColumn::User)
    } else if val == "State"@ {
        Some(SortColumn::State)
    } else if val == "CPU%"@ {
        Some(SortColumn::Cpu)
    } else if val == "Memory%"@ {
        Some(SortColumn::Memory)
    } else if val == "VRAM"@ {
        Some(SortColumn::Vram)
    } else if val == "Disk R"@ {
        Some(SortColumn::DiskRead)
    } else if val == "Disk W"@ {
        Some(SortColumn::DiskWrite)
    } else {
        None
    }
}

/// Sets the default sort column by its header text; other text changes
/// nothing.
pub fn set_sort_column(config: &mut Config, val: &str)
    ensures
        same_but_sort(&*final(config), &*old(config)),
        final(config).processes.default_sort.descending
            == old(config).processes.default_sort.descending,
        final(config).processes.default_sort.column == match column_named(val@) {
            Some(c) => c,
            None => old(config).processes.default_sort.column,
        },
{
    let v = chars_of(val);
    let col = if chars_eq(&v, &chars_of("Name")) {
        SortColumn::Name
    } else if chars_eq(&v, &chars_of("PID")) {
        SortColumn::Pid
    } else if chars_eq(&v, &chars_of("User")) {
        SortColumn::User
    } else if chars_eq(&v, &chars_of("State")) {
        SortColumn::State
    } else if chars_eq(&v, &chars_of("CPU%")) {
        SortColumn::Cpu
    } else if chars_eq(&v, &chars_of("Memory%")) {
        SortColumn::Memory
    } else if chars_eq(&v, &chars_of("VRAM")) {
        SortColumn::Vram
    } else if chars_eq(&v, &chars_of("Disk R")) {
        SortColumn::DiskRead
    } else if chars_eq(&v, &chars_of("Disk W")) {
        SortColumn::DiskWrite
    } else {
        return ;
    };
    config.processes.default_sort.column = col;
}

/// Sets the default sort direction.
pub fn set_sort_descending(config: &mut Config, val: bool)
    ensures
        same_but_sort(&*final(config), &*old(config)),
        final(config).processes.default_sort.column == old(config).processes.default_sort.column,
        final(config).processes.default_sort.descending == val,
{
    config.processes.default_sort.descending = val;
}

/// The layout after flipping the visibility of the first entry for `col`.
pub open spec fn toggled_layout(
    cols: Seq<crate::data::config::ColumnEntry>,
    col: SortColumn,
) -> Seq<crate::data::config::ColumnEntry> {
    match column_entry_from(cols, col, 0) {
        Some(k) => cols.update(
            k,
            crate::data::config::ColumnEntry { column: cols[k].column, visible: !cols[k].visible },
        ),
        None => cols,
    }
}

/// Flips the visibility of the first entry for `col`, if there is one.
pub fn toggle_column_visibility(config: &mut Config, col: SortColumn)
    ensures
        same_but_columns(&*final(config), &*old(config)),
        final(config).processes.columns@ == toggled_layout(old(config).processes.columns@, col),
{
    match find_column_entry(&config.processes.columns, col) {
        Some(k) => {
            let e = config.processes.columns[k];
            config.processes.columns.set(
                k,
                crate::data::config::ColumnEntry { column: e.column, visible: !e.visible },
            );
        },
        None => {},
    }
}

/// The layout after exchanging the entries at `a` and `b` (unchanged when
/// either is out of range).
pub open spec fn swapped_layout(
    cols: Seq<crate::data::config::ColumnEntry>,
    a: int,
    b: int,
) -> Seq<crate::data::config::ColumnEntry> {
    if 0 <= a < cols.len() && 0 <= b < cols.len() {
        cols.update(a, cols[b]).update(b, cols[a])
    } else {
        cols
    }
}

/// Exchanges the column entries at `a` and `b` when both are in range.
pub fn swap_columns(config: &mut Config, a: usize, b: usize)
    ensures
        same_but_columns(&*final(config), &*old(config)),
        final(config).processes.columns@ == swapped_layout(
            old(config).processes.columns@,
            a as int,
            b as int,
        ),
{
    let n = config.processes.columns.len();
    if a < n && b < n {
        let ea = config.processes.columns[a];
        let eb = config.processes.columns[b];
        config.processes.columns.set(a, eb);
        config.processes.columns.set(b, ea);
    }
}

} // verus!
