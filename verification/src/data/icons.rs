//! Desktop entries: the application name and icon that a command maps to.
//!
//! On a platform without `.desktop` files the cache is empty: no command
//! has an entry and no icon name resolves to a file.

use vstd::prelude::*;

verus! {

/// One desktop entry.
#[derive(Debug, Clone, Default)]
pub struct DesktopEntry {
    pub name: String,
    pub icon_name: String,
    /// The `Exec=` line of the entry.
    pub exec_line: String,
}

/// The desktop entries known here.
#[derive(Debug, Clone, Copy, Default)]
pub struct DesktopEntryCache;

impl DesktopEntryCache {
    /// Loads the entries: there are none to load.
    pub fn load() -> (r: Self)
        ensures
            r == DesktopEntryCache,
    {
        DesktopEntryCache
    }

    /// The entry for a command or a process name: none is known.
    pub fn lookup(&self, command: &str, name: &str) -> (r: Option<&DesktopEntry>)
        ensures
            r is None,
    {
        None
    }
}

/// The file of an icon: none resolves.
pub fn resolve_icon_path(icon_name: &str) -> (r: Option<String>)
    ensures
        r is None,
{
    None
}

} // verus!
