//! The resident process's decisions: which control lines are commands,
//! which commands the daemon handles itself, and which window is its own
//! panel. The program runs the sockets, the event stream and the windows.

use crate::hypr::ctl::Client;
use crate::text;
use vstd::prelude::*;

verus! {

/// Who handles a control command.
#[derive(Clone, Copy, PartialEq, Eq, Debug, Structural)]
pub enum Route {
    /// Stop the daemon.
    Quit,
    /// Focus the settings window, or open a fresh one.
    Settings,
    /// Everything else goes to the panel.
    Panel,
}

pub fn route(cmd: &str) -> (r: Route)
    ensures
        r == (if cmd@ == "quit"@ {
            Route::Quit
        } else if cmd@ == "settings"@ {
            Route::Settings
        } else {
            Route::Panel
        }),
{
    if text::str_eq(cmd, "quit") {
        Route::Quit
    } else if text::str_eq(cmd, "settings") {
        Route::Settings
    } else {
        Route::Panel
    }
}

/// The command a control-socket line carries: the line trimmed, when
/// anything is left.
pub fn control_command(line: &str) -> (r: Option<String>)
    ensures
        match r {
            Some(c) => text::trim(line@).len() > 0 && c@ == text::trim(line@),
            None => text::trim(line@).len() == 0,
        },
{
    let v = text::chars_of(line);
    let t = text::trim_chars(v.as_slice());
    if t.len() == 0 {
        None
    } else {
        Some(text::string_of(t.as_slice()))
    }
}

/// The class of the panel's own window.
pub const PANEL_CLASS: &'static str = "sidetab";

/// The panel's own Hyprland address, once its window has mapped: that of
/// the first client of the panel's class.
pub fn own_address(clients: &[Client]) -> (r: Option<String>)
    ensures
        match r {
            Some(a) => exists|i: int|
                0 <= i < clients@.len() && #[trigger] clients@[i].class@ == PANEL_CLASS@ && a@
                    == clients@[i].address@ && forall|j: int|
                    0 <= j < i ==> clients@[j].class@ != PANEL_CLASS@,
            None => forall|i: int|
                0 <= i < clients@.len() ==> #[trigger] clients@[i].class@ != PANEL_CLASS@,
        },
{
    let mut i: usize = 0;
    while i < clients.len()
        invariant
            i <= clients@.len(),
            forall|j: int| 0 <= j < i ==> #[trigger] clients@[j].class@ != PANEL_CLASS@,
        decreases clients@.len() - i,
    {
        if text::str_eq(clients[i].class.as_str(), PANEL_CLASS) {
            return Some(text::clone_string(&clients[i].address));
        }
        i = i + 1;
    }
    None
}

} // verus!
