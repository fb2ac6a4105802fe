//! The Lucide icons the interface draws and the files that hold them.

use vstd::prelude::*;

verus! {

/// An icon of the Lucide set.
#[derive(Debug, Clone, Copy, PartialEq, Eq, Structural)]
pub enum LucideIcon {
    Activity,
    AppWindow,
    Atom,
    ChartPie,
    ChevronDown,
    ChevronRight,
    ChevronUp,
    CircleOff,
    CircleX,
    Copy,
    Cpu,
    Crosshair,
    ExternalLink,
    File,
    FolderTree,
    Gpu,
    HardDriveDownload,
    HardDriveUpload,
    Hash,
    Info,
    List,
    ListTree,
    MemoryStick,
    Menu,
    Microchip,
    Moon,
    Palette,
    Pause,
    Pin,
    Play,
    Rows3,
    Search,
    Server,
    Settings2,
    Sun,
    User,
    UserShield,
    X,
}

impl LucideIcon {
    /// The file of the icon among the embedded assets.
    pub open spec fn path_spec(self) -> Seq<char> {
        match self {
            LucideIcon::Activity => "activity.svg"@,
            LucideIcon::AppWindow => "app-window.svg"@,
            LucideIcon::Atom => "atom.svg"@,
            LucideIcon::ChartPie => "chart-pie.svg"@,
            LucideIcon::ChevronDown => "chevron-down.svg"@,
            LucideIcon::ChevronRight => "chevron-right.svg"@,
            LucideIcon::ChevronUp => "chevron-up.svg"@,
            LucideIcon::CircleOff => "circle-off.svg"@,
            LucideIcon::CircleX => "circle-x.svg"@,
            LucideIcon::Copy => "copy.svg"@,
            LucideIcon::Cpu => "cpu.svg"@,
            LucideIcon::Crosshair => "crosshair.svg"@,
            LucideIcon::ExternalLink => "external-link.svg"@,
            LucideIcon::File => "file.svg"@,
            LucideIcon::FolderTree => "folder-tree.svg"@,
            LucideIcon::Gpu => "gpu.svg"@,
            LucideIcon::HardDriveDownload => "hard-drive-download.svg"@,
            LucideIcon::HardDriveUpload => "hard-drive-upload.svg"@,
            LucideIcon::Hash => "hash.svg"@,
            LucideIcon::Info => "info.svg"@,
            LucideIcon::List => "list.svg"@,
            LucideIcon::ListTree => "list-tree.svg"@,
            LucideIcon::MemoryStick => "memory-stick.svg"@,
            LucideIcon::Menu => "menu.svg"@,
            LucideIcon::Microchip => "microchip.svg"@,
            LucideIcon::Moon => "moon.svg"@,
            LucideIcon::Palette => "palette.svg"@,
            LucideIcon::Pause => "pause.svg"@,
            LucideIcon::Pin => "pin.svg"@,
            LucideIcon::Play => "play.svg"@,
            LucideIcon::Rows3 => "rows-3.svg"@,
            LucideIcon::Search => "search.svg"@,
            LucideIcon::Server => "server.svg"@,
            LucideIcon::Settings2 => "settings-2.svg"@,
            LucideIcon::Sun => "sun.svg"@,
            LucideIcon::User => "user.svg"@,
            LucideIcon::UserShield => "user-shield.svg"@,
            LucideIcon::X => "x.svg"@,
        }
    }

    /// The file of the icon (see `path_spec`).
    pub fn path(self) -> (r: &'static str)
        ensures
            r@ == self.path_spec(),
    {
        match self {
            LucideIcon::Activity => "activity.svg",
            LucideIcon::AppWindow => "app-window.svg",
            LucideIcon::Atom => "atom.svg",
            LucideIcon::ChartPie => "chart-pie.svg",
            LucideIcon::ChevronDown => "chevron-down.svg",
            LucideIcon::ChevronRight => "chevron-right.svg",
            LucideIcon::ChevronUp => "chevron-up.svg",
            LucideIcon::CircleOff => "circle-off.svg",
            LucideIcon::CircleX => "circle-x.svg",
            LucideIcon::Copy => "copy.svg",
            LucideIcon::Cpu => "cpu.svg",
            LucideIcon::Crosshair => "crosshair.svg",
            LucideIcon::ExternalLink => "external-link.svg",
            LucideIcon::File => "file.svg",
            LucideIcon::FolderTree => "folder-tree.svg",
            LucideIcon::Gpu => "gpu.svg",
            LucideIcon::HardDriveDownload => "hard-drive-download.svg",
            LucideIcon::HardDriveUpload => "hard-drive-upload.svg",
            LucideIcon::Hash => "hash.svg",
            LucideIcon::Info => "info.svg",
            LucideIcon::List => "list.svg",
            LucideIcon::ListTree => "list-tree.svg",
            LucideIcon::MemoryStick => "memory-stick.svg",
            LucideIcon::Menu => "menu.svg",
            LucideIcon::Microchip => "microchip.svg",
            LucideIcon::Moon => "moon.svg",
            LucideIcon::Palette => "palette.svg",
            LucideIcon::Pause => "pause.svg",
            LucideIcon::Pin => "pin.svg",
            LucideIcon::Play => "play.svg",
            LucideIcon::Rows3 => "rows-3.svg",
            LucideIcon::Search => "search.svg",
            LucideIcon::Server => "server.svg",
            LucideIcon::Settings2 => "settings-2.svg",
            LucideIcon::Sun => "sun.svg",
            LucideIcon::User => "user.svg",
            LucideIcon::UserShield => "user-shield.svg",
            LucideIcon::X => "x.svg",
        }
    }
}

} // verus!
