//! The first-generation configuration record: flat settings with a fixed
//! set of column switches, stored as `gpuitop/config.toml`.

use crate::data::config::{config_dir, config_dir_spec, config_file_in, config_file_spec};
use crate::model::{
    PidFilterMode, ProcessGrouping, ResourceViewMode, SortColumn, Theme, VramPolling,
};
use vstd::prelude::*;

pub use crate::data::config::SortConfig;

verus! {

/// Which process-table columns are shown.
#[derive(Debug, Clone, Copy, PartialEq, Eq, Structural)]
pub struct ColumnVisibility {
    pub name: bool,
    pub pid: bool,
    pub user: bool,
    pub state: bool,
    pub cpu: bool,
    pub memory: bool,
    pub vram: bool,
    pub disk_read: bool,
    pub disk_write: bool,
    pub command: bool,
}

impl Default for ColumnVisibility {
    /// Every column but VRAM and the command line.
    fn default() -> (r: Self)
        ensures
            r.name && r.pid && r.user && r.state && r.cpu && r.memory,
            !r.vram,
            r.disk_read && r.disk_write,
            !r.command,
    {
        ColumnVisibility {
            name: true,
            pid: true,
            user: true,
            state: true,
            cpu: true,
            memory: true,
            vram: false,
            disk_read: true,
            disk_write: true,
            command: false,
        }
    }
}

impl ColumnVisibility {
    /// Whether the switch for `col` is on.
    pub fn shows(&self, col: SortColumn) -> (r: bool)
        ensures
            r == match col {
                SortColumn::Name => self.name,
                SortColumn::Pid => self.pid,
                SortColumn::User => self.user,
                SortColumn::State => self.state,
                SortColumn::Cpu => self.cpu,
                SortColumn::Memory => self.memory,
                SortColumn::Vram => self.vram,
                SortColumn::DiskRead => self.disk_read,
                SortColumn::DiskWrite => self.disk_write,
            },
    {
        match col {
            SortColumn::Name => self.name,
            SortColumn::Pid => self.pid,
            SortColumn::User => self.user,
            SortColumn::State => self.state,
            SortColumn::Cpu => self.cpu,
            SortColumn::Memory => self.memory,
            SortColumn::Vram => self.vram,
            SortColumn::DiskRead => self.disk_read,
            SortColumn::DiskWrite => self.disk_write,
        }
    }
}

/// The settings, flat.
#[derive(Debug)]
pub struct Config {
    pub refresh_ms: u64,
    pub columns: ColumnVisibility,
    pub default_sort: SortConfig,
    pub default_grouping: ProcessGrouping,
    pub vram_polling: VramPolling,
    pub pid_filter_mode: PidFilterMode,
    pub resource_view_mode: ResourceViewMode,
    pub clear_search_on_pin: bool,
    pub theme: Theme,
    pub disk_devices: Vec<String>,
    pub network_interfaces: Vec<String>,
    pub window_width: u32,
    pub window_height: u32,
}

impl Default for Config {
    fn default() -> (r: Self)
        ensures
            r.refresh_ms == 1500,
            r.columns == (ColumnVisibility {
                name: true,
                pid: true,
                user: true,
                state: true,
                cpu: true,
                memory: true,
                vram: false,
                disk_read: true,
                disk_write: true,
                command: false,
            }),
            r.default_sort.column == SortColumn::Cpu && r.default_sort.descending,
            r.default_grouping == ProcessGrouping::Auto,
            r.vram_polling == VramPolling::Auto,
            r.pid_filter_mode == PidFilterMode::DirectChildren,
            r.resource_view_mode == ResourceViewMode::SelfOnly,
            r.clear_search_on_pin,
            r.theme == Theme::System,
            r.disk_devices@.len() == 0,
            r.network_interfaces@.len() == 0,
            r.window_width == 1100,
            r.window_height == 700,
    {
        Config {
            refresh_ms: 1500,
            columns: ColumnVisibility::default(),
            default_sort: SortConfig::default(),
            default_grouping: ProcessGrouping::Auto,
            vram_polling: VramPolling::Auto,
            pid_filter_mode: PidFilterMode::DirectChildren,
            resource_view_mode: ResourceViewMode::SelfOnly,
            clear_search_on_pin: true,
            theme: Theme::System,
            disk_devices: Vec::new(),
            network_interfaces: Vec::new(),
            window_width: 1100,
            window_height: 700,
        }
    }
}

impl Config {
    /// Where the configuration file lives, given the values of
    /// `XDG_CONFIG_HOME` and `HOME` (none when unset or not Unicode).
    pub fn config_path(xdg_config_home: Option<&str>, home: Option<&str>) -> (r: String)
        ensures
            r@ == config_file_spec(
                config_dir_spec(
                    match xdg_config_home {
                        Some(x) => Some(x@),
                        None => None,
                    },
                    match home {
                        Some(h) => Some(h@),
                        None => None,
                    },
                ),
                "config.toml"@,
            ),
    {
        config_file_in(config_dir(xdg_config_home, home), "config.toml")
    }
}

} // verus!
