//! The process-table model: process records, view settings and filters.

use crate::text::{append_chars, chars_of, decimal, decimal_i32, decimal_int, decimal_u64, string_of};
use vstd::prelude::*;

pub use crate::model::Theme;

verus! {

/// Order keys standing for the floating-point measurements of a process.
///
/// Each key is the IEEE-754 bit pattern of a non-negative value, so keys
/// order exactly as the values do (`f32::to_bits` / `f64::to_bits`).
#[derive(Debug, Clone, Copy, PartialEq, Eq, Structural, Default)]
pub struct FloatKeys {
    pub cpu: u64,
    pub mem: u64,
    pub disk_read: u64,
    pub disk_write: u64,
}

/// One process as the table shows it.
///
/// The floating-point measurements (CPU %, memory %, disk rates) are kept by
/// the caller; `keys` holds the integers that order them.
#[derive(Debug)]
pub struct ProcessInfo {
    pub pid: i32,
    pub ppid: i32,
    pub name: String,
    pub user: String,
    pub state: char,
    pub command: String,
    pub cgroup: String,
    pub mem_rss: u64,
    pub vram_bytes: Option<u64>,
    pub is_gui: bool,
    pub is_kthread: bool,
    pub is_owned_by_current_user: bool,
    pub is_electron: bool,
    pub electron_app_name: Option<String>,
    pub icon_name: Option<String>,
    pub has_children: bool,
    pub keys: FloatKeys,
}

/// Copies an optional string.
pub fn copy_opt_string(o: &Option<String>) -> (r: Option<String>)
    ensures
        r == *o,
{
    match o {
        Some(s) => Some(s.clone()),
        None => None,
    }
}

impl ProcessInfo {
    /// A field-for-field copy.
    pub fn duplicate(&self) -> (r: ProcessInfo)
        ensures
            r == *self,
    {
        ProcessInfo {
            pid: self.pid,
            ppid: self.ppid,
            name: self.name.clone(),
            user: self.user.clone(),
            state: self.state,
            command: self.command.clone(),
            cgroup: self.cgroup.clone(),
            mem_rss: self.mem_rss,
            vram_bytes: self.vram_bytes,
            is_gui: self.is_gui,
            is_kthread: self.is_kthread,
            is_owned_by_current_user: self.is_owned_by_current_user,
            is_electron: self.is_electron,
            electron_app_name: copy_opt_string(&self.electron_app_name),
            icon_name: copy_opt_string(&self.icon_name),
            has_children: self.has_children,
            keys: self.keys,
        }
    }
}

/// Memory figures in bytes.
#[derive(Debug, Clone, Copy, PartialEq, Eq, Structural)]
pub struct MemoryInfo {
    pub total: u64,
    pub used: u64,
    pub available: u64,
    pub cached: u64,
    pub swap_used: u64,
}

impl MemoryInfo {
    /// All figures zero.
    pub fn zero() -> (r: MemoryInfo)
        ensures
            r.total == 0 && r.used == 0 && r.available == 0 && r.cached == 0 && r.swap_used == 0,
    {
        MemoryInfo { total: 0, used: 0, available: 0, cached: 0, swap_used: 0 }
    }
}

/// Makes a `String` from a literal.
pub fn lit(s: &str) -> (r: String)
    ensures
        r@ == s@,
{
    string_of(&chars_of(s))
}

#[derive(Debug, Clone, Copy, PartialEq, Eq, Structural, Default)]
pub enum ResourceViewMode {
    #[default]
    SelfOnly,
    Cumulative,
}

impl ResourceViewMode {
    pub open spec fn display_spec(self) -> Seq<char> {
        match self {
            ResourceViewMode::SelfOnly => "Self"@,
            ResourceViewMode::Cumulative => "Cumulative"@,
        }
    }

    /// The display text.
    pub fn to_string(&self) -> (r: String)
        ensures
            r@ == self.display_spec(),
    {
        match self {
            ResourceViewMode::SelfOnly => lit("Self"),
            ResourceViewMode::Cumulative => lit("Cumulative"),
        }
    }
}

#[derive(Debug, Clone, Copy, PartialEq, Eq, Structural, Default)]
pub enum DefaultViewMode {
    #[default]
    List,
    Tree,
}

impl DefaultViewMode {
    pub open spec fn display_spec(self) -> Seq<char> {
        match self {
            DefaultViewMode::List => "List"@,
            DefaultViewMode::Tree => "Tree"@,
        }
    }

    /// The display text.
    pub fn to_string(&self) -> (r: String)
        ensures
            r@ == self.display_spec(),
    {
        match self {
            DefaultViewMode::List => lit("List"),
            DefaultViewMode::Tree => lit("Tree"),
        }
    }
}

#[derive(Debug, Clone, Copy, PartialEq, Eq, Structural, Default)]
pub enum ProcessGrouping {
    #[default]
    Auto,
    ByUser,
    ByState,
    Flat,
}

impl ProcessGrouping {
    pub open spec fn display_spec(self) -> Seq<char> {
        match self {
            ProcessGrouping::Auto => "Auto"@,
            ProcessGrouping::ByUser => "By User"@,
            ProcessGrouping::ByState => "By State"@,
            ProcessGrouping::Flat => "Flat"@,
        }
    }

    /// The display text.
    pub fn to_string(&self) -> (r: String)
        ensures
            r@ == self.display_spec(),
    {
        match self {
            ProcessGrouping::Auto => lit("Auto"),
            ProcessGrouping::ByUser => lit("By User"),
            ProcessGrouping::ByState => lit("By State"),
            ProcessGrouping::Flat => lit("Flat"),
        }
    }
}

#[derive(Debug, Clone, Copy, PartialEq, Eq, Structural, Default)]
pub enum SortColumn {
    #[default]
    Name,
    Pid,
    User,
    State,
    Cpu,
    Memory,
    Vram,
    DiskRead,
    DiskWrite,
}

/// The column index (1-based; column 0 is the row header) of a sort column.
pub open spec fn col_index_spec(c: SortColumn) -> usize {
    match c {
        SortColumn::Name => 1,
        SortColumn::Pid => 2,
        SortColumn::User => 3,
        SortColumn::State => 4,
        SortColumn::Cpu => 5,
        SortColumn::Memory => 6,
        SortColumn::Vram => 7,
        SortColumn::DiskRead => 8,
        SortColumn::DiskWrite => 9,
    }
}

/// The sort column at a column index.
pub open spec fn from_col_index_spec(ix: usize) -> Option<SortColumn> {
    if ix == 1 {
        Some(SortColumn::Name)
    } else if ix == 2 {
        Some(SortColumn::Pid)
    } else if ix == 3 {
        Some(SortColumn::User)
    } else if ix == 4 {
        Some(SortColumn::State)
    } else if ix == 5 {
        Some(SortColumn::Cpu)
    } else if ix == 6 {
        Some(SortColumn::Memory)
    } else if ix == 7 {
        Some(SortColumn::Vram)
    } else if ix == 8 {
        Some(SortColumn::DiskRead)
    } else if ix == 9 {
        Some(SortColumn::DiskWrite)
    } else {
        None
    }
}

/// All sort columns in display order.
pub open spec fn all_columns_spec() -> Seq<SortColumn> {
    seq![
        SortColumn::Name,
        SortColumn::Pid,
        SortColumn::User,
        SortColumn::State,
        SortColumn::Cpu,
        SortColumn::Memory,
        SortColumn::Vram,
        SortColumn::DiskRead,
        SortColumn::DiskWrite,
    ]
}

impl SortColumn {
    /// Every sort column, in display order.
    pub fn all() -> (r: Vec<SortColumn>)
        ensures
            r@ == all_columns_spec(),
    {
        let mut v: Vec<SortColumn> = Vec::new();
        v.push(SortColumn::Name);
        v.push(SortColumn::Pid);
        v.push(SortColumn::User);
        v.push(SortColumn::State);
        v.push(SortColumn::Cpu);
        v.push(SortColumn::Memory);
        v.push(SortColumn::Vram);
        v.push(SortColumn::DiskRead);
        v.push(SortColumn::DiskWrite);
        assert(v@ =~= all_columns_spec());
        v
    }

    /// The table column index of this sort column.
    pub fn to_col_index(self) -> (r: usize)
        ensures
            r == col_index_spec(self),
    {
        match self {
            SortColumn::Name => 1,
            SortColumn::Pid => 2,
            SortColumn::User => 3,
            SortColumn::State => 4,
            SortColumn::Cpu => 5,
            SortColumn::Memory => 6,
            SortColumn::Vram => 7,
            SortColumn::DiskRead => 8,
            SortColumn::DiskWrite => 9,
        }
    }

    /// The sort column at a table column index, if any.
    pub fn from_col_index(ix: usize) -> (r: Option<SortColumn>)
        ensures
            r == from_col_index_spec(ix),
            r is Some <==> 1 <= ix <= 9,
    {
        match ix {
            1 => Some(SortColumn::Name),
            2 => Some(SortColumn::Pid),
            3 => Some(SortColumn::User),
            4 => Some(SortColumn::State),
            5 => Some(SortColumn::Cpu),
            6 => Some(SortColumn::Memory),
            7 => Some(SortColumn::Vram),
            8 => Some(SortColumn::DiskRead),
            9 => Some(SortColumn::DiskWrite),
            _ => None,
        }
    }

    pub open spec fn display_spec(self) -> Seq<char> {
        match self {
            SortColumn::Name => "Name"@,
            SortColumn::Pid => "PID"@,
            SortColumn::User => "User"@,
            SortColumn::State => "State"@,
            SortColumn::Cpu => "CPU%"@,
            SortColumn::Memory => "Memory%"@,
            SortColumn::Vram => "VRAM"@,
            SortColumn::DiskRead => "Disk R"@,
            SortColumn::DiskWrite => "Disk W"@,
        }
    }

    /// The display text (the column header).
    pub fn to_string(&self) -> (r: String)
        ensures
            r@ == self.display_spec(),
    {
        match self {
            SortColumn::Name => lit("Name"),
            SortColumn::Pid => lit("PID"),
            SortColumn::User => lit("User"),
            SortColumn::State => lit("State"),
            SortColumn::Cpu => lit("CPU%"),
            SortColumn::Memory => lit("Memory%"),
            SortColumn::Vram => lit("VRAM"),
            SortColumn::DiskRead => lit("Disk R"),
            SortColumn::DiskWrite => lit("Disk W"),
        }
    }
}

/// A column index names a column exactly when it is one that some column
/// has, and the two conversions undo each other.
pub proof fn lemma_col_index_roundtrip(c: SortColumn, ix: usize)
    ensures
        from_col_index_spec(col_index_spec(c)) == Some(c),
        from_col_index_spec(ix) matches Some(d) ==> col_index_spec(d) == ix,
        all_columns_spec().contains(c),
        all_columns_spec().len() == 9,
{
    let k: int = col_index_spec(c) as int - 1;
    assert(all_columns_spec()[k] == c);
}

#[derive(Debug, Clone, Copy, PartialEq, Eq, Structural, Default)]
pub enum PidFilterMode {
    AllDescendants,
    #[default]
    DirectChildren,
}

impl PidFilterMode {
    pub open spec fn display_spec(self) -> Seq<char> {
        match self {
            PidFilterMode::AllDescendants => "All descendants"@,
            PidFilterMode::DirectChildren => "Direct only"@,
        }
    }

    /// The display text.
    pub fn to_string(&self) -> (r: String)
        ensures
            r@ == self.display_spec(),
    {
        match self {
            PidFilterMode::AllDescendants => lit("All descendants"),
            PidFilterMode::DirectChildren => lit("Direct only"),
        }
    }
}

#[derive(Debug, Clone, Copy, PartialEq, Eq, Structural)]
pub enum GpuBackend {
    NoGpu,
    Nvidia,
    Amd,
}

impl GpuBackend {
    pub open spec fn display_spec(self) -> Seq<char> {
        match self {
            GpuBackend::NoGpu => "None"@,
            GpuBackend::Nvidia => "NVIDIA"@,
            GpuBackend::Amd => "AMD"@,
        }
    }

    /// The display text.
    pub fn to_string(&self) -> (r: String)
        ensures
            r@ == self.display_spec(),
    {
        match self {
            GpuBackend::NoGpu => lit("None"),
            GpuBackend::Nvidia => lit("NVIDIA"),
            GpuBackend::Amd => lit("AMD"),
        }
    }
}

#[derive(Debug, Clone, Copy, PartialEq, Eq, Structural, Default)]
pub enum VramPolling {
    #[default]
    Auto,
    On,
    Off,
}

impl VramPolling {
    pub open spec fn display_spec(self) -> Seq<char> {
        match self {
            VramPolling::Auto => "Auto"@,
            VramPolling::On => "On"@,
            VramPolling::Off => "Off"@,
        }
    }

    /// The display text.
    pub fn to_string(&self) -> (r: String)
        ensures
            r@ == self.display_spec(),
    {
        match self {
            VramPolling::Auto => lit("Auto"),
            VramPolling::On => lit("On"),
            VramPolling::Off => lit("Off"),
        }
    }
}

#[derive(Debug, Clone, Copy, PartialEq, Eq, Structural)]
pub enum SortDirection {
    Ascending,
    Descending,
}

/// A condition that a table row can be required to meet.
#[derive(Debug, Clone, PartialEq, Eq)]
pub enum Filter {
    Gui,
    User,
    System,
    Services,
    Kernel,
    Parent,
    Vram,
    Electron,
    ProcessState(char),
    Username(String),
    Pid(i32),
}

/// Human-readable label of a process state character.
pub open spec fn state_label_spec(c: char) -> Seq<char> {
    if c == 'R' {
        "Running"@
    } else if c == 'S' {
        "Sleeping"@
    } else if c == 'D' {
        "Disk Sleep"@
    } else if c == 'Z' {
        "Zombie"@
    } else if c == 'T' {
        "Stopped"@
    } else if c == 't' {
        "Tracing Stop"@
    } else if c == 'I' {
        "Idle"@
    } else if c == 'X' {
        "Dead"@
    } else {
        "Other"@
    }
}

/// Human-readable label of a process state character.
pub fn state_label(c: char) -> (r: &'static str)
    ensures
        r@ == state_label_spec(c),
{
    match c {
        'R' => "Running",
        'S' => "Sleeping",
        'D' => "Disk Sleep",
        'Z' => "Zombie",
        'T' => "Stopped",
        't' => "Tracing Stop",
        'I' => "Idle",
        'X' => "Dead",
        _ => "Other",
    }
}

// ---------------------------------------------------------------------
// Walking parent links in a flat process list
// ---------------------------------------------------------------------
/// The first index at or after `i` whose process has the given pid.
pub open spec fn pid_index_from(all: Seq<ProcessInfo>, pid: i32, i: int) -> Option<int>
    decreases all.len() - i,
{
    if i < 0 || i >= all.len() {
        None
    } else if all[i].pid == pid {
        Some(i)
    } else {
        pid_index_from(all, pid, i + 1)
    }
}

/// The first index whose process has the given pid.
pub open spec fn pid_index(all: Seq<ProcessInfo>, pid: i32) -> Option<int> {
    pid_index_from(all, pid, 0)
}

pub proof fn lemma_pid_index_from(all: Seq<ProcessInfo>, pid: i32, i: int)
    requires
        0 <= i,
    ensures
        pid_index_from(all, pid, i) matches Some(k) ==> i <= k < all.len() && all[k].pid == pid
            && forall|j: int| i <= j < k ==> all[j].pid != pid,
        pid_index_from(all, pid, i) is None ==> forall|j: int|
            i <= j < all.len() ==> all[j].pid != pid,
    decreases all.len() - i,
{
    if i < all.len() && all[i].pid != pid {
        lemma_pid_index_from(all, pid, i + 1);
    }
}

/// Finds the first process with the given pid.
pub fn find_pid(all: &Vec<ProcessInfo>, pid: i32) -> (r: Option<usize>)
    ensures
        r matches Some(k) ==> pid_index(all@, pid) == Some(k as int) && k < all@.len()
            && all@[k as int].pid == pid,
        r is None ==> pid_index(all@, pid) is None,
{
    let mut i: usize = 0;
    while i < all.len()
        invariant
            i <= all.len(),
            pid_index(all@, pid) == pid_index_from(all@, pid, i as int),
        decreases all.len() - i,
    {
        if all[i].pid == pid {
            return Some(i);
        }
        i = i + 1;
    }
    None
}

/// Walks at most `fuel` parent links from `current`, looking for `ancestor`;
/// a pid that is not in the list ends the walk.
pub open spec fn reaches_within(all: Seq<ProcessInfo>, current: i32, ancestor: i32, fuel: nat) -> bool
    decreases fuel,
{
    if fuel == 0 {
        false
    } else if current == ancestor {
        true
    } else {
        match pid_index(all, current) {
            Some(k) => reaches_within(all, all[k].ppid, ancestor, (fuel - 1) as nat),
            None => false,
        }
    }
}

/// `child_pid` is a proper descendant of `ancestor`, found within 100 links.
pub open spec fn is_descendant_flat_spec(all: Seq<ProcessInfo>, child_pid: i32, ancestor: i32) -> bool {
    child_pid != ancestor && reaches_within(all, child_pid, ancestor, 100)
}

/// Whether `child_pid` descends from `ancestor` in the flat list (at most
/// 100 parent links are followed; a process is not its own descendant).
pub fn is_descendant_of_flat(child_pid: i32, ancestor: i32, all: &Vec<ProcessInfo>) -> (r: bool)
    ensures
        r == is_descendant_flat_spec(all@, child_pid, ancestor),
{
    if child_pid == ancestor {
        return false;
    }
    walk_reaches(child_pid, ancestor, all, 100)
}

/// Decides `reaches_within`.
pub fn walk_reaches(start: i32, ancestor: i32, all: &Vec<ProcessInfo>, fuel: u32) -> (r: bool)
    ensures
        r == reaches_within(all@, start, ancestor, fuel as nat),
{
    let mut current = start;
    let mut left = fuel;
    while left > 0
        invariant
            reaches_within(all@, start, ancestor, fuel as nat) == reaches_within(
                all@,
                current,
                ancestor,
                left as nat,
            ),
        decreases left,
    {
        if current == ancestor {
            return true;
        }
        match find_pid(all, current) {
            Some(k) => {
                current = all[k].ppid;
            },
            None => {
                return false;
            },
        }
        left = left - 1;
    }
    false
}

/// The number of processes in `all[i..]` that descend from `ancestor`.
pub open spec fn count_descendants_from(all: Seq<ProcessInfo>, ancestor: i32, i: int) -> nat
    decreases all.len() - i,
{
    if i < 0 || i >= all.len() {
        0
    } else {
        (if is_descendant_flat_spec(all, all[i].pid, ancestor) {
            1nat
        } else {
            0nat
        }) + count_descendants_from(all, ancestor, i + 1)
    }
}

/// The label of a filter as the filter bar shows it.
pub open spec fn filter_label_spec(f: Filter, all: Seq<ProcessInfo>) -> Seq<char> {
    match f {
        Filter::Gui => "GUI"@,
        Filter::User => "User"@,
        Filter::System => "System"@,
        Filter::Services => "Services"@,
        Filter::Kernel => "Kernel"@,
        Filter::Parent => "Parent"@,
        Filter::Vram => "VRAM"@,
        Filter::Electron => "Electron"@,
        Filter::ProcessState(c) => state_label_spec(c),
        Filter::Username(s) => s@,
        Filter::Pid(pid) => {
            let name = match pid_index(all, pid) {
                Some(k) => all[k].name@,
                None => decimal_int(pid as int),
            };
            name + " (+"@ + decimal(count_descendants_from(all, pid, 0)) + " children)"@
        },
    }
}

/// Counts the processes of `all` that descend from `ancestor`.
pub fn count_flat_descendants(all: &Vec<ProcessInfo>, ancestor: i32) -> (r: u64)
    ensures
        r as nat == count_descendants_from(all@, ancestor, 0),
{
    let mut n: u64 = 0;
    let mut i = all.len();
    while i > 0
        invariant
            i <= all.len(),
            n as nat == count_descendants_from(all@, ancestor, i as int),
            n <= all.len() - i,
        decreases i,
    {
        i = i - 1;
        if is_descendant_of_flat(all[i].pid, ancestor, all) {
            n = n + 1;
        }
        proof {
            lemma_count_split(all@, ancestor, i as int);
        }
    }
    n
}

/// `count_descendants_from(0)` splits at any position.
pub proof fn lemma_count_split(all: Seq<ProcessInfo>, ancestor: i32, i: int)
    requires
        0 <= i < all.len(),
    ensures
        count_descendants_from(all, ancestor, i) == (if is_descendant_flat_spec(
            all,
            all[i].pid,
            ancestor,
        ) {
            1nat
        } else {
            0nat
        }) + count_descendants_from(all, ancestor, i + 1),
{
}

impl Filter {
    /// The label of this filter as the filter bar shows it.
    pub fn label(&self, processes: &Vec<ProcessInfo>) -> (r: String)
        ensures
            r@ == filter_label_spec(*self, processes@),
    {
        match self {
            Filter::Gui => lit("GUI"),
            Filter::User => lit("User"),
            Filter::System => lit("System"),
            Filter::Services => lit("Services"),
            Filter::Kernel => lit("Kernel"),
            Filter::Parent => lit("Parent"),
            Filter::Vram => lit("VRAM"),
            Filter::Electron => lit("Electron"),
            Filter::ProcessState(c) => lit(state_label(*c)),
            Filter::Username(s) => s.clone(),
            Filter::Pid(pid) => {
                let count = count_flat_descendants(processes, *pid);
                let mut out = match find_pid(processes, *pid) {
                    Some(k) => chars_of(processes[k].name.as_str()),
                    None => decimal_i32(*pid),
                };
                append_chars(&mut out, &chars_of(" (+"));
                append_chars(&mut out, &decimal_u64(count));
                append_chars(&mut out, &chars_of(" children)"));
                string_of(&out)
            },
        }
    }
}

#[derive(Debug, Clone, Copy, PartialEq, Eq, Structural)]
pub enum FilterMode {
    And,
    Or,
}

impl FilterMode {
    pub open spec fn display_spec(self) -> Seq<char> {
        match self {
            FilterMode::And => "AND"@,
            FilterMode::Or => "OR"@,
        }
    }

    /// The display text.
    pub fn to_string(&self) -> (r: String)
        ensures
            r@ == self.display_spec(),
    {
        match self {
            FilterMode::And => lit("AND"),
            FilterMode::Or => lit("OR"),
        }
    }
}

} // verus!
