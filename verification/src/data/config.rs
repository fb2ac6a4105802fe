//! The configuration record, its defaults and where it is stored.

use crate::data::model::{
    all_columns_spec, PidFilterMode, ProcessGrouping, ResourceViewMode, SortColumn, Theme,
    VramPolling,
};
use crate::text::{append_chars, chars_of, string_of};
use vstd::prelude::*;

verus! {

#[derive(Debug, Clone, Copy, PartialEq, Eq, Structural)]
pub struct InterfaceConfig {
    pub refresh_ms: u64,
    pub theme: Theme,
}

impl Default for InterfaceConfig {
    fn default() -> (r: Self)
        ensures
            r.refresh_ms == 1500 && r.theme == Theme::System,
    {
        InterfaceConfig { refresh_ms: 1500, theme: Theme::System }
    }
}

#[derive(Debug, Clone, Copy, PartialEq, Eq, Structural)]
pub struct GeneralConfig {
    pub interface: InterfaceConfig,
}

impl Default for GeneralConfig {
    fn default() -> (r: Self)
        ensures
            r.interface.refresh_ms == 1500 && r.interface.theme == Theme::System,
    {
        GeneralConfig { interface: InterfaceConfig::default() }
    }
}

/// One column of the process table and whether it is shown.
#[derive(Debug, Clone, Copy, PartialEq, Eq, Structural)]
pub struct ColumnEntry {
    pub column: SortColumn,
    pub visible: bool,
}

impl Default for ColumnEntry {
    fn default() -> (r: Self)
        ensures
            r.column == SortColumn::Name && r.visible,
    {
        ColumnEntry { column: SortColumn::Name, visible: true }
    }
}

#[derive(Debug, Clone, Copy, PartialEq, Eq, Structural)]
pub struct SortConfig {
    pub column: SortColumn,
    pub descending: bool,
}

impl Default for SortConfig {
    fn default() -> (r: Self)
        ensures
            r.column == SortColumn::Cpu && r.descending,
    {
        SortConfig { column: SortColumn::Cpu, descending: true }
    }
}

/// The default column layout: every column, in display order, shown.
pub open spec fn default_layout_spec() -> Seq<ColumnEntry> {
    all_columns_spec().map_values(|c: SortColumn| ColumnEntry { column: c, visible: true })
}

/// Every column, in display order, shown.
pub fn default_column_layout() -> (r: Vec<ColumnEntry>)
    ensures
        r@ == default_layout_spec(),
{
    let cols = SortColumn::all();
    let mut r: Vec<ColumnEntry> = Vec::new();
    let mut i: usize = 0;
    while i < cols.len()
        invariant
            i <= cols.len(),
            cols@ == all_columns_spec(),
            r@ == cols@.take(i as int).map_values(
                |c: SortColumn| ColumnEntry { column: c, visible: true },
            ),
        decreases cols.len() - i,
    {
        r.push(ColumnEntry { column: cols[i], visible: true });
        i = i + 1;
        assert(r@ =~= cols@.take(i as int).map_values(
            |c: SortColumn| ColumnEntry { column: c, visible: true },
        ));
    }
    assert(cols@.take(i as int) =~= cols@);
    r
}

#[derive(Debug, Clone, Copy, PartialEq, Eq, Structural)]
pub struct BehaviourConfig {
    pub vram_polling: VramPolling,
    pub pid_filter_mode: PidFilterMode,
    pub clear_search_on_pin: bool,
    pub resource_view_mode: ResourceViewMode,
}

impl Default for BehaviourConfig {
    fn default() -> (r: Self)
        ensures
            r.vram_polling == VramPolling::Auto,
            r.pid_filter_mode == PidFilterMode::DirectChildren,
            r.clear_search_on_pin,
            r.resource_view_mode == ResourceViewMode::SelfOnly,
    {
        BehaviourConfig {
            vram_polling: VramPolling::Auto,
            pid_filter_mode: PidFilterMode::DirectChildren,
            clear_search_on_pin: true,
            resource_view_mode: ResourceViewMode::SelfOnly,
        }
    }
}

#[derive(Debug)]
pub struct ProcessesConfig {
    pub behaviour: BehaviourConfig,
    pub columns: Vec<ColumnEntry>,
    pub default_sort: SortConfig,
}

impl Default for ProcessesConfig {
    fn default() -> (r: Self)
        ensures
            r.behaviour.vram_polling == VramPolling::Auto,
            r.behaviour.pid_filter_mode == PidFilterMode::DirectChildren,
            r.behaviour.clear_search_on_pin,
            r.behaviour.resource_view_mode == ResourceViewMode::SelfOnly,
            r.columns@ == default_layout_spec(),
            r.default_sort.column == SortColumn::Cpu && r.default_sort.descending,
    {
        ProcessesConfig {
            behaviour: BehaviourConfig::default(),
            columns: default_column_layout(),
            default_sort: SortConfig::default(),
        }
    }
}

/// Index of the first entry for `col` at or after `i`.
pub open spec fn column_entry_from(cols: Seq<ColumnEntry>, col: SortColumn, i: int) -> Option<int>
    decreases cols.len() - i,
{
    if i < 0 || i >= cols.len() {
        None
    } else if cols[i].column == col {
        Some(i)
    } else {
        column_entry_from(cols, col, i + 1)
    }
}

/// Whether a column is shown: the first entry for it decides; a column
/// without an entry is shown.
pub open spec fn col_visible_spec(cols: Seq<ColumnEntry>, col: SortColumn) -> bool {
    match column_entry_from(cols, col, 0) {
        Some(k) => cols[k].visible,
        None => true,
    }
}

/// Finds the first entry for `col`.
pub fn find_column_entry(cols: &Vec<ColumnEntry>, col: SortColumn) -> (r: Option<usize>)
    ensures
        r matches Some(k) ==> column_entry_from(cols@, col, 0) == Some(k as int) && k
            < cols@.len(),
        r is None ==> column_entry_from(cols@, col, 0) is None,
{
    let mut i: usize = 0;
    while i < cols.len()
        invariant
            i <= cols.len(),
            column_entry_from(cols@, col, 0) == column_entry_from(cols@, col, i as int),
        decreases cols.len() - i,
    {
        if cols[i].column == col {
            return Some(i);
        }
        i = i + 1;
    }
    None
}

impl ProcessesConfig {
    /// Whether the process table shows `col`.
    pub fn is_col_visible(&self, col: SortColumn) -> (r: bool)
        ensures
            r == col_visible_spec(self.columns@, col),
    {
        match find_column_entry(&self.columns, col) {
            Some(k) => self.columns[k].visible,
            None => true,
        }
    }
}

#[derive(Debug)]
pub struct Config {
    pub general: GeneralConfig,
    pub processes: ProcessesConfig,
    pub default_grouping: ProcessGrouping,
    pub disk_devices: Vec<String>,
    pub network_interfaces: Vec<String>,
    pub window_width: u32,
    pub window_height: u32,
}

impl Default for Config {
    fn default() -> (r: Self)
        ensures
            r.general.interface.refresh_ms == 1500,
            r.general.interface.theme == Theme::System,
            r.processes.behaviour.vram_polling == VramPolling::Auto,
            r.processes.behaviour.pid_filter_mode == PidFilterMode::DirectChildren,
            r.processes.behaviour.clear_search_on_pin,
            r.processes.behaviour.resource_view_mode == ResourceViewMode::SelfOnly,
            r.processes.columns@ == default_layout_spec(),
            r.processes.default_sort.column == SortColumn::Cpu,
            r.processes.default_sort.descending,
            r.default_grouping == ProcessGrouping::Auto,
            r.disk_devices@.len() == 0,
            r.network_interfaces@.len() == 0,
            r.window_width == 1100,
            r.window_height == 700,
    {
        Config {
            general: GeneralConfig::default(),
            processes: ProcessesConfig::default(),
            default_grouping: ProcessGrouping::Auto,
            disk_devices: Vec::new(),
            network_interfaces: Vec::new(),
            window_width: 1100,
            window_height: 700,
        }
    }
}

/// `PathBuf::push` on Unix for a relative, non-empty component: a
/// separator is added unless the base is empty or already ends in one.
pub open spec fn path_join(base: Seq<char>, part: Seq<char>) -> Seq<char> {
    if part.len() > 0 && part[0] == '/' {
        part
    } else if base.len() == 0 || base.last() == '/' {
        base + part
    } else {
        base + seq!['/'] + part
    }
}

/// The user's configuration directory: `$XDG_CONFIG_HOME` when set and
/// non-empty, else `$HOME/.config`, else none.
pub open spec fn config_dir_spec(xdg: Option<Seq<char>>, home: Option<Seq<char>>) -> Option<
    Seq<char>,
> {
    match xdg {
        Some(d) if d.len() > 0 => Some(d),
        _ => match home {
            Some(h) => Some(path_join(h, ".config"@)),
            None => None,
        },
    }
}

/// The configuration file under a configuration directory (`.` when none).
pub open spec fn config_file_spec(dir: Option<Seq<char>>, file: Seq<char>) -> Seq<char> {
    let base = match dir {
        Some(d) => d,
        None => "."@,
    };
    path_join(path_join(base, "gpuitop"@), file)
}

/// Appends a relative component to a path.
pub fn push_path(base: &mut Vec<char>, part: &Vec<char>)
    ensures
        final(base)@ == path_join(old(base)@, part@),
{
    if part.len() > 0 && part[0] == '/' {
        base.clear();
        append_chars(base, part);
        assert(base@ =~= part@);
    } else if base.len() == 0 || base[base.len() - 1] == '/' {
        append_chars(base, part);
    } else {
        base.push('/');
        append_chars(base, part);
    }
}

/// The user's configuration directory from the two environment variables
/// that decide it.
pub fn config_dir(xdg_config_home: Option<&str>, home: Option<&str>) -> (r: Option<String>)
    ensures
        r matches Some(s) ==> config_dir_spec(
            match xdg_config_home {
                Some(x) => Some(x@),
                None => None,
            },
            match home {
                Some(h) => Some(h@),
                None => None,
            },
        ) == Some(s@),
        r is None <==> config_dir_spec(
            match xdg_config_home {
                Some(x) => Some(x@),
                None => None,
            },
            match home {
                Some(h) => Some(h@),
                None => None,
            },
        ) is None,
{
    if let Some(x) = xdg_config_home {
        if !x.is_empty() {
            return Some(string_of(&chars_of(x)));
        }
    }
    match home {
        Some(h) => {
            let mut p = chars_of(h);
            push_path(&mut p, &chars_of(".config"));
            Some(string_of(&p))
        },
        None => None,
    }
}

/// Builds `<dir or .>/gpuitop/<file>`.
pub fn config_file_in(dir: Option<String>, file: &str) -> (r: String)
    ensures
        r@ == config_file_spec(
            match dir {
                Some(d) => Some(d@),
                None => None,
            },
            file@,
        ),
{
    let mut p = match dir {
        Some(d) => chars_of(d.as_str()),
        None => chars_of("."),
    };
    push_path(&mut p, &chars_of("gpuitop"));
    push_path(&mut p, &chars_of(file));
    string_of(&p)
}

impl Config {
    /// Where the configuration file lives, given the values of
    /// `XDG_CONFIG_HOME` and `HOME` (none when unset or not Unicode).
    pub fn config_path(xdg_config_home: Option<&str>, home: Option<&str>) -> (r: String)
        ensures
            r@ == config_file_spec(
                config_dir_spec(
                    match xdg_config_home {
                        Some(x) => Some(x@),
                        None => None,
                    },
                    match home {
                        Some(h) => Some(h@),
                        None => None,
                    },
                ),
                "config.ron"@,
            ),
    {
        config_file_in(config_dir(xdg_config_home, home), "config.ron")
    }
}

} // verus!
