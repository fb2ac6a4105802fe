//! What the window picker reports and how it decides it.

use crate::text::{chars_eq, chars_of};
use vstd::prelude::*;

verus! {

/// The window the user picked: the process that owns it, or, where no
/// process id is published, its application id.
pub enum PickedWindow {
    AppId(String),
    Pid(i32),
}

/// What the active window tells: nothing for no window (id 0) or for this
/// program's own window (its process id, or the class `gpuitop`); else the
/// owning process, or the window class where no process id is published.
pub fn picked_window(window: u32, window_pid: Option<u32>, own_pid: u32, wm_class: Option<String>) -> (r:
    Option<PickedWindow>)
    ensures
        match r {
            None => window == 0 || window_pid == Some(own_pid) || (window_pid is None && (
            wm_class is None || wm_class.unwrap()@ == "gpuitop"@)),
            Some(PickedWindow::Pid(p)) => window != 0 && window_pid is Some && window_pid.unwrap()
                != own_pid && p == window_pid.unwrap() as i32,
            Some(PickedWindow::AppId(c)) => window != 0 && window_pid is None && wm_class is Some
                && wm_class.unwrap()@ == c@ && c@ != "gpuitop"@,
        },
{
    if window == 0 {
        return None;
    }
    match window_pid {
        Some(p) => {
            if p == own_pid {
                None
            } else {
                Some(PickedWindow::Pid(p as i32))
            }
        },
        None => match wm_class {
            Some(c) => {
                if chars_eq(&chars_of(c.as_str()), &chars_of("gpuitop")) {
                    None
                } else {
                    Some(PickedWindow::AppId(c))
                }
            },
            None => None,
        },
    }
}

} // verus!
