//! The desktop portal probe and the capabilities it implies.

use vstd::prelude::*;

verus! {

/// Where xdg-desktop-portal-hyprland leaves files when it is installed:
/// the implementation in the common libexec and lib directories, then the
/// systemd user service files.
pub open spec fn portal_probe_paths_spec() -> Seq<Seq<char>> {
    seq![
        "/usr/lib/xdg-desktop-portal-hyprland"@,
        "/usr/libexec/xdg-desktop-portal-hyprland"@,
        "/usr/local/lib/xdg-desktop-portal-hyprland"@,
        "/usr/local/libexec/xdg-desktop-portal-hyprland"@,
        "/usr/share/systemd/user/xdg-desktop-portal-hyprland.service"@,
        "/usr/local/share/systemd/user/xdg-desktop-portal-hyprland.service"@,
    ]
}

/// The paths to probe for xdg-desktop-portal-hyprland, in order.
pub fn portal_probe_paths() -> (r: Vec<String>)
    ensures
        r@.map_values(|s: String| s@) == portal_probe_paths_spec(),
{
    let r = vec![
        "/usr/lib/xdg-desktop-portal-hyprland".to_string(),
        "/usr/libexec/xdg-desktop-portal-hyprland".to_string(),
        "/usr/local/lib/xdg-desktop-portal-hyprland".to_string(),
        "/usr/local/libexec/xdg-desktop-portal-hyprland".to_string(),
        "/usr/share/systemd/user/xdg-desktop-portal-hyprland.service".to_string(),
        "/usr/local/share/systemd/user/xdg-desktop-portal-hyprland.service".to_string(),
    ];
    assert(r@.map_values(|s: String| s@) =~= portal_probe_paths_spec());
    r
}

/// Whether xdg-desktop-portal-hyprland is installed, given for each probe
/// path in order whether it exists: it is when any of them does.
pub fn detect_xdg_desktop_portal_hyprland(found: &Vec<bool>) -> (r: bool)
    ensures
        r == exists|i: int| 0 <= i < found.len() && i < portal_probe_paths_spec().len() && found[i],
{
    let n = if found.len() < 6 {
        found.len()
    } else {
        6
    };
    let mut i: usize = 0;
    while i < n
        invariant
            n <= found.len(),
            n <= 6,
            n == found.len() || n == 6,
            portal_probe_paths_spec().len() == 6,
            i <= n,
            forall|j: int| 0 <= j < i ==> !found[j],
        decreases n - i,
    {
        if found[i] {
            assert(found@[i as int]);
            return true;
        }
        i += 1;
    }
    false
}

/// What the desktop portals offer.
#[derive(Clone, Debug)]
pub struct PortalCapabilities {
    pub screenshot: bool,
    pub file_chooser: bool,
    pub notification: bool,
    pub settings: bool,
}

impl Default for PortalCapabilities {
    /// No capability.
    fn default() -> (r: Self)
        ensures
            !r.screenshot && !r.file_chooser && !r.notification && !r.settings,
    {
        PortalCapabilities { screenshot: false, file_chooser: false, notification: false, settings: false }
    }
}

/// The capabilities the portals offer: all of them when
/// xdg-desktop-portal-hyprland is installed, none otherwise.
pub fn capabilities(has_hyprland_portal: bool) -> (r: PortalCapabilities)
    ensures
        r.screenshot == has_hyprland_portal,
        r.file_chooser == has_hyprland_portal,
        r.notification == has_hyprland_portal,
        r.settings == has_hyprland_portal,
{
    PortalCapabilities {
        screenshot: has_hyprland_portal,
        file_chooser: has_hyprland_portal,
        notification: has_hyprland_portal,
        settings: has_hyprland_portal,
    }
}

} // verus!
