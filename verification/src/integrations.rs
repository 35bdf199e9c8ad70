//! Desktop integration: `.desktop` entries, the XDG trash layout, XDG
//! directories, terminals, portals and the desktop environment.

use vstd::prelude::*;

pub mod desktop_entries;
pub mod portals;
pub mod terminal;
pub mod trash;
pub mod xdg;

verus! {

/// The desktop environment a session runs in.
#[derive(Clone, Copy, Debug, PartialEq, Eq, Structural)]
pub enum DesktopEnvironment {
    Hyprland,
    Sway,
    Gnome,
    Kde,
    OtherWayland,
    X11,
    Unknown,
}

} // verus!
