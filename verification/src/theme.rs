//! Themes: colour palettes and the built-in themes.

use vstd::prelude::*;
use crate::text::{chars_eq, chars_of};

verus! {

/// Whether a theme is dark, light, or follows the system.
#[derive(Clone, Copy, Debug, PartialEq, Eq, Structural)]
pub enum ThemeMode {
    Dark,
    Light,
    Auto,
}

impl Default for ThemeMode {
    /// Dark.
    fn default() -> (r: Self)
        ensures
            r == ThemeMode::Dark,
    {
        ThemeMode::Dark
    }
}

/// The colours of a theme, as `#rrggbb` strings.
#[derive(Clone, Debug)]
pub struct ThemeColors {
    pub background: String,
    pub surface: String,
    pub overlay: String,
    pub text: String,
    pub text_muted: String,
    pub accent: String,
    pub accent_secondary: String,
    pub error: String,
    pub warning: String,
    pub info: String,
    pub success: String,
    pub border: String,
    pub selection: String,
}

/// The colours of a palette in field order: background, surface,
/// overlay, text, muted text, accent, second accent, error, warning, info,
/// success, border, selection.
pub open spec fn colors_view(c: ThemeColors) -> Seq<Seq<char>> {
    seq![
        c.background@, c.surface@, c.overlay@, c.text@, c.text_muted@, c.accent@,
        c.accent_secondary@, c.error@, c.warning@, c.info@, c.success@, c.border@, c.selection@,
    ]
}

/// The Catppuccin Mocha palette, the default one.
pub open spec fn catppuccin_mocha_colors() -> Seq<Seq<char>> {
    seq![
        "#1e1e2e"@, "#313244"@, "#45475a"@, "#cdd6f4"@, "#a6adc8"@, "#89b4fa"@, "#b4befe"@,
        "#f38ba8"@, "#fab387"@, "#89b4fa"@, "#a6e3a1"@, "#6c7086"@, "#585b70"@,
    ]
}

/// The Gruvbox Dark palette.
pub open spec fn gruvbox_dark_colors() -> Seq<Seq<char>> {
    seq![
        "#282828"@, "#3c3836"@, "#504945"@, "#ebdbb2"@, "#a89984"@, "#b8bb26"@, "#8ec07c"@,
        "#fb4934"@, "#fe8019"@, "#83a598"@, "#b8bb26"@, "#665c54"@, "#504945"@,
    ]
}

/// The Nord palette.
pub open spec fn nord_colors() -> Seq<Seq<char>> {
    seq![
        "#2e3440"@, "#3b4252"@, "#434c5e"@, "#eceff4"@, "#d8dee9"@, "#88c0d0"@, "#81a1c1"@,
        "#bf616a"@, "#ebcb8b"@, "#88c0d0"@, "#a3be8c"@, "#4c566a"@, "#434c5e"@,
    ]
}

/// The Tokyo Night palette.
pub open spec fn tokyo_night_colors() -> Seq<Seq<char>> {
    seq![
        "#1a1b26"@, "#24283b"@, "#414868"@, "#c0caf5"@, "#a9b1d6"@, "#7aa2f7"@, "#bb9af7"@,
        "#f7768e"@, "#e0af68"@, "#7aa2f7"@, "#9ece6a"@, "#565f89"@, "#414868"@,
    ]
}

/// The Dracula palette.
pub open spec fn dracula_colors() -> Seq<Seq<char>> {
    seq![
        "#282a36"@, "#44475a"@, "#6272a4"@, "#f8f8f2"@, "#bfbfbf"@, "#bd93f9"@, "#ff79c6"@,
        "#ff5555"@, "#f1fa8c"@, "#8be9fd"@, "#50fa7b"@, "#6272a4"@, "#44475a"@,
    ]
}

fn make_colors(c: &Vec<&str>) -> (r: ThemeColors)
    requires
        c.len() == 13,
    ensures
        colors_view(r) == c@.map_values(|s: &str| s@),
{
    let r = ThemeColors {
        background: c[0].to_string(),
        surface: c[1].to_string(),
        overlay: c[2].to_string(),
        text: c[3].to_string(),
        text_muted: c[4].to_string(),
        accent: c[5].to_string(),
        accent_secondary: c[6].to_string(),
        error: c[7].to_string(),
        warning: c[8].to_string(),
        info: c[9].to_string(),
        success: c[10].to_string(),
        border: c[11].to_string(),
        selection: c[12].to_string(),
    };
    assert(colors_view(r) =~= c@.map_values(|s: &str| s@));
    r
}

fn catppuccin_mocha_list() -> (r: Vec<&'static str>)
    ensures
        r@.map_values(|s: &str| s@) == catppuccin_mocha_colors(),
        r.len() == 13,
{
    let r = vec![
        "#1e1e2e", "#313244", "#45475a", "#cdd6f4", "#a6adc8", "#89b4fa", "#b4befe", "#f38ba8",
        "#fab387", "#89b4fa", "#a6e3a1", "#6c7086", "#585b70",
    ];
    assert(r@.map_values(|s: &str| s@) =~= catppuccin_mocha_colors());
    r
}

impl Default for ThemeColors {
    /// The Catppuccin Mocha palette.
    fn default() -> (r: Self)
        ensures
            colors_view(r) == catppuccin_mocha_colors(),
    {
        make_colors(&catppuccin_mocha_list())
    }
}

/// The parts of a theme that are fixed numbers and strings: everything
/// but the window transparency.
#[derive(Clone, Debug)]
pub struct ThemePalette {
    pub name: String,
    pub mode: ThemeMode,
    pub colors: ThemeColors,
    pub blur: bool,
    pub border_radius: u32,
    pub padding: u32,
    pub gaps: u32,
    pub icon_theme: String,
    pub nerd_font_icons: bool,
}

/// The names of the built-in themes.
pub open spec fn builtin_names() -> Seq<Seq<char>> {
    seq!["catppuccin-mocha"@, "gruvbox-dark"@, "nord"@, "tokyo-night"@, "dracula"@]
}

/// The palette and corner radius of each built-in theme, by position in
/// [`builtin_names`].
pub open spec fn builtin_colors(k: int) -> (Seq<Seq<char>>, u32) {
    if k == 0 {
        (catppuccin_mocha_colors(), 12)
    } else if k == 1 {
        (gruvbox_dark_colors(), 8)
    } else if k == 2 {
        (nord_colors(), 10)
    } else if k == 3 {
        (tokyo_night_colors(), 12)
    } else {
        (dracula_colors(), 12)
    }
}

/// A built-in theme as it is defined: dark, blurred, padding 8, gaps 4,
/// the Papirus-Dark icons with Nerd Font icons, and its own palette and
/// corner radius.
pub open spec fn is_builtin_palette(t: ThemePalette, k: int) -> bool {
    &&& t.name@ == builtin_names()[k]
    &&& t.mode == ThemeMode::Dark
    &&& colors_view(t.colors) == builtin_colors(k).0
    &&& t.border_radius == builtin_colors(k).1
    &&& t.blur
    &&& t.padding == 8
    &&& t.gaps == 4
    &&& t.icon_theme@ == "Papirus-Dark"@
    &&& t.nerd_font_icons
}

/// Loads themes; knows the built-in ones.
#[derive(Clone, Copy, Debug)]
pub struct DefaultThemeLoader;

fn palette(name: &str, colors: &Vec<&str>, border_radius: u32) -> (r: ThemePalette)
    requires
        colors.len() == 13,
    ensures
        r.name@ == name@,
        r.mode == ThemeMode::Dark,
        colors_view(r.colors) == colors@.map_values(|s: &str| s@),
        r.border_radius == border_radius,
        r.blur,
        r.padding == 8,
        r.gaps == 4,
        r.icon_theme@ == "Papirus-Dark"@,
        r.nerd_font_icons,
{
    ThemePalette {
        name: name.to_string(),
        mode: ThemeMode::Dark,
        colors: make_colors(colors),
        blur: true,
        border_radius,
        padding: 8,
        gaps: 4,
        icon_theme: "Papirus-Dark".to_string(),
        nerd_font_icons: true,
    }
}

impl DefaultThemeLoader {
    /// A loader.
    pub fn new() -> (r: Self) {
        DefaultThemeLoader
    }

    /// The built-in theme of the given name, if there is one.
    pub fn builtin(&self, name: &str) -> (r: Option<ThemePalette>)
        ensures
            name@ == builtin_names()[0] ==> (r matches Some(t) && is_builtin_palette(t, 0)),
            name@ == builtin_names()[1] ==> (r matches Some(t) && is_builtin_palette(t, 1)),
            name@ == builtin_names()[2] ==> (r matches Some(t) && is_builtin_palette(t, 2)),
            name@ == builtin_names()[3] ==> (r matches Some(t) && is_builtin_palette(t, 3)),
            name@ == builtin_names()[4] ==> (r matches Some(t) && is_builtin_palette(t, 4)),
            !builtin_names().contains(name@) ==> r is None,
    {
        proof {
            reveal_strlit("catppuccin-mocha");
            reveal_strlit("gruvbox-dark");
            reveal_strlit("nord");
            reveal_strlit("tokyo-night");
            reveal_strlit("dracula");
        }
        let n = chars_of(name);
        assert(builtin_names()[0] == "catppuccin-mocha"@ && "catppuccin-mocha"@.len() == 16);
        assert(builtin_names()[1] == "gruvbox-dark"@ && "gruvbox-dark"@.len() == 12);
        assert(builtin_names()[2] == "nord"@ && "nord"@.len() == 4);
        assert(builtin_names()[3] == "tokyo-night"@ && "tokyo-night"@.len() == 11);
        assert(builtin_names()[4] == "dracula"@ && "dracula"@.len() == 7);
        if chars_eq(&n, &chars_of("catppuccin-mocha")) {
            Some(palette(name, &catppuccin_mocha_list(), 12))
        } else if chars_eq(&n, &chars_of("gruvbox-dark")) {
            let c = vec![
                "#282828", "#3c3836", "#504945", "#ebdbb2", "#a89984", "#b8bb26", "#8ec07c",
                "#fb4934", "#fe8019", "#83a598", "#b8bb26", "#665c54", "#504945",
            ];
            assert(c@.map_values(|s: &str| s@) =~= gruvbox_dark_colors());
            Some(palette(name, &c, 8))
        } else if chars_eq(&n, &chars_of("nord")) {
            let c = vec![
                "#2e3440", "#3b4252", "#434c5e", "#eceff4", "#d8dee9", "#88c0d0", "#81a1c1",
                "#bf616a", "#ebcb8b", "#88c0d0", "#a3be8c", "#4c566a", "#434c5e",
            ];
            assert(c@.map_values(|s: &str| s@) =~= nord_colors());
            Some(palette(name, &c, 10))
        } else if chars_eq(&n, &chars_of("tokyo-night")) {
            let c = vec![
                "#1a1b26", "#24283b", "#414868", "#c0caf5", "#a9b1d6", "#7aa2f7", "#bb9af7",
                "#f7768e", "#e0af68", "#7aa2f7", "#9ece6a", "#565f89", "#414868",
            ];
            assert(c@.map_values(|s: &str| s@) =~= tokyo_night_colors());
            Some(palette(name, &c, 12))
        } else if chars_eq(&n, &chars_of("dracula")) {
            let c = vec![
                "#282a36", "#44475a", "#6272a4", "#f8f8f2", "#bfbfbf", "#bd93f9", "#ff79c6",
                "#ff5555", "#f1fa8c", "#8be9fd", "#50fa7b", "#6272a4", "#44475a",
            ];
            assert(c@.map_values(|s: &str| s@) =~= dracula_colors());
            Some(palette(name, &c, 12))
        } else {
            None
        }
    }
}

impl Default for DefaultThemeLoader {
    /// A loader.
    fn default() -> (r: Self) {
        DefaultThemeLoader::new()
    }
}

} // verus!
