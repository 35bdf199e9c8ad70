//! Configuration sections and their defaults.

use vstd::prelude::*;

verus! {

/// General behaviour of the file manager.
#[derive(Clone, Debug)]
pub struct GeneralConfig {
    pub show_hidden: bool,
    pub confirm_delete: bool,
    pub default_layout: String,
    pub open_dirs_on_single_click: bool,
    pub terminal: String,
    pub editor: String,
}

impl Default for GeneralConfig {
    /// Hidden files hidden, deletes confirmed, the `yazi` layout, `foot`
    /// and `nvim`.
    fn default() -> (r: Self)
        ensures
            !r.show_hidden,
            r.confirm_delete,
            r.default_layout@ == "yazi"@,
            !r.open_dirs_on_single_click,
            r.terminal@ == "foot"@,
            r.editor@ == "nvim"@,
    {
        GeneralConfig {
            show_hidden: false,
            confirm_delete: true,
            default_layout: "yazi".to_string(),
            open_dirs_on_single_click: false,
            terminal: "foot".to_string(),
            editor: "nvim".to_string(),
        }
    }
}

/// What the preview pane shows.
#[derive(Clone, Debug)]
pub struct PreviewConfig {
    pub enabled: bool,
    pub max_file_size_mb: u64,
    pub image_preview: bool,
    pub pdf_preview: bool,
    pub video_thumbnails: bool,
    pub syntax_highlighting: bool,
}

impl Default for PreviewConfig {
    /// Every preview on, for files up to 10 MB.
    fn default() -> (r: Self)
        ensures
            r.enabled,
            r.max_file_size_mb == 10,
            r.image_preview,
            r.pdf_preview,
            r.video_thumbnails,
            r.syntax_highlighting,
    {
        PreviewConfig {
            enabled: true,
            max_file_size_mb: 10,
            image_preview: true,
            pdf_preview: true,
            video_thumbnails: true,
            syntax_highlighting: true,
        }
    }
}

/// Hyprland-specific features.
#[derive(Clone, Debug)]
pub struct HyprlandConfig {
    pub enabled: bool,
    pub detect_active_monitor: bool,
    pub picker_mode_floating: bool,
    pub sync_with_pywal: bool,
    pub sync_with_matugen: bool,
}

impl Default for HyprlandConfig {
    /// Integration on, no colour-scheme sync.
    fn default() -> (r: Self)
        ensures
            r.enabled,
            r.detect_active_monitor,
            r.picker_mode_floating,
            !r.sync_with_pywal,
            !r.sync_with_matugen,
    {
        HyprlandConfig {
            enabled: true,
            detect_active_monitor: true,
            picker_mode_floating: true,
            sync_with_pywal: false,
            sync_with_matugen: false,
        }
    }
}

/// Safety and ordering behaviour.
#[derive(Clone, Debug)]
pub struct BehaviorConfig {
    pub trash_by_default: bool,
    pub permanent_delete_requires_phrase: bool,
    pub case_sensitive_sort: bool,
    pub directories_first: bool,
}

impl Default for BehaviorConfig {
    /// Deletes go to the trash, a permanent delete needs the phrase,
    /// sorting ignores case and lists directories first.
    fn default() -> (r: Self)
        ensures
            r.trash_by_default,
            r.permanent_delete_requires_phrase,
            !r.case_sensitive_sort,
            r.directories_first,
    {
        BehaviorConfig {
            trash_by_default: true,
            permanent_delete_requires_phrase: true,
            case_sensitive_sort: false,
            directories_first: true,
        }
    }
}

/// Keys bound to each action.
#[derive(Clone, Debug)]
pub struct KeybindingsConfig {
    pub quit: Vec<String>,
    pub open: Vec<String>,
    pub parent: Vec<String>,
    pub down: Vec<String>,
    pub up: Vec<String>,
    pub search: Vec<String>,
    pub command_palette: Vec<String>,
    pub toggle_hidden: Vec<String>,
    pub trash: Vec<String>,
    pub rename: Vec<String>,
    pub new_file: Vec<String>,
    pub new_folder: Vec<String>,
}

/// The views of a list of key names.
pub open spec fn keys_view(v: Vec<String>) -> Seq<Seq<char>> {
    v@.map_values(|s: String| s@)
}

fn keys1(a: &str) -> (r: Vec<String>)
    ensures
        keys_view(r) == seq![a@],
{
    let r = vec![a.to_string()];
    assert(keys_view(r) =~= seq![a@]);
    r
}

fn keys2(a: &str, b: &str) -> (r: Vec<String>)
    ensures
        keys_view(r) == seq![a@, b@],
{
    let r = vec![a.to_string(), b.to_string()];
    assert(keys_view(r) =~= seq![a@, b@]);
    r
}

impl Default for KeybindingsConfig {
    /// Vi-style keys.
    fn default() -> (r: Self)
        ensures
            keys_view(r.quit) == seq!["q"@],
            keys_view(r.open) == seq!["Enter"@, "l"@],
            keys_view(r.parent) == seq!["h"@],
            keys_view(r.down) == seq!["j"@, "Down"@],
            keys_view(r.up) == seq!["k"@, "Up"@],
            keys_view(r.search) == seq!["/"@],
            keys_view(r.command_palette) == seq![":"@],
            keys_view(r.toggle_hidden) == seq!["."@],
            keys_view(r.trash) == seq!["dd"@],
            keys_view(r.rename) == seq!["r"@],
            keys_view(r.new_file) == seq!["n"@],
            keys_view(r.new_folder) == seq!["N"@],
    {
        KeybindingsConfig {
            quit: keys1("q"),
            open: keys2("Enter", "l"),
            parent: keys1("h"),
            down: keys2("j", "Down"),
            up: keys2("k", "Up"),
            search: keys1("/"),
            command_palette: keys1(":"),
            toggle_hidden: keys1("."),
            trash: keys1("dd"),
            rename: keys1("r"),
            new_file: keys1("n"),
            new_folder: keys1("N"),
        }
    }
}

} // verus!
