use hyprfiles::integrations::desktop_entries::{
    build_exec_command, entries_for_file, entries_for_mime, from_path, guess_mime_type,
    is_desktop_file, listed_entry, parse_desktop_entry, split_exec, DesktopEntry, DesktopEntryError,
};
use hyprfiles::integrations::portals::{
    capabilities, detect_xdg_desktop_portal_hyprland, portal_probe_paths, PortalCapabilities,
};
use hyprfiles::integrations::terminal::{detect_terminal, terminal_command, terminal_exit, TerminalError};
use hyprfiles::integrations::trash::{
    original_path_of, parse_trashinfo, trashed_item, trash_behavior_docs, trash_dirs, validate_trash_xdg_compliance,
    TrashLayoutError,
};
use hyprfiles::integrations::xdg::{
    app_cache_dir, app_config_dir, app_data_dir, application_dir_candidates, icon_candidates,
    icon_theme_dir_candidates, icon_themes_to_check, mime_dir_candidates, scan_mime_types_from_xml,
    sorted_unique, xdg_dir_from, MimeDescriptions,
};
use std::path::Path;

#[test]
fn test_parse_desktop_entry_basic() {
    let content = r#"[Desktop Entry]
Name=Firefox
Exec=/usr/bin/firefox %u
Icon=firefox
MimeType=text/html;application/xhtml+xml;
Terminal=false
NoDisplay=false
"#;
    let entry = parse_desktop_entry(content, Some("firefox.desktop")).unwrap();
    assert_eq!(entry.name, "Firefox");
    assert_eq!(entry.exec_line, "/usr/bin/firefox %u");
    assert_eq!(entry.icon, Some("firefox".to_string()));
    assert_eq!(entry.mime_types, vec!["text/html", "application/xhtml+xml", ""]);
    assert!(!entry.terminal);
    assert!(!entry.no_display);
}

#[test]
fn test_parse_hidden_skipped() {
    let content = r#"[Desktop Entry]
Name=HiddenApp
Exec=/bin/true
Hidden=true
"#;
    let entry = parse_desktop_entry(content, Some("hidden.desktop")).unwrap();
    assert!(entry.hidden);
}

#[test]
fn test_build_exec_command() {
    let entry = DesktopEntry { exec_line: "/usr/bin/foo %f".to_string(), ..Default::default() };
    let cmd = build_exec_command(&entry, "/tmp/hello.txt");
    assert_eq!(cmd, vec!["/usr/bin/foo", "/tmp/hello.txt"]);
}

#[test]
fn test_guess_mime_type_by_extension() {
    let mime = guess_mime_type("file.txt", None).unwrap();
    assert_eq!(mime, "text/plain");
}

#[test]
fn test_detect_portal_does_not_panic() {
    let found: Vec<bool> = portal_probe_paths().iter().map(|p| Path::new(p).exists()).collect();
    let _ = detect_xdg_desktop_portal_hyprland(&found);
}

#[test]
fn test_capabilities_default() {
    let found: Vec<bool> = portal_probe_paths().iter().map(|p| Path::new(p).exists()).collect();
    let caps = capabilities(detect_xdg_desktop_portal_hyprland(&found));
    let _ = caps.screenshot;
}

#[test]
fn test_trash_dirs_are_xdg_compliant() {
    let (files, info) = trash_dirs("/home/user/.local/share");
    assert!(files.contains("Trash/files"));
    assert!(info.contains("Trash/info"));
}

#[test]
fn test_validate_trash_compliance_graceful() {
    let dirs = trash_dirs("/home/user/.local/share");
    let files_exists = Path::new(&dirs.0).exists();
    let info_exists = Path::new(&dirs.1).exists();
    let result = validate_trash_xdg_compliance(&dirs, files_exists, info_exists);
    let _ = result;
}

#[test]
fn test_app_dirs_relative_to_xdg() {
    let config_home = xdg_dir_from(None, None, Some("/home/user"), ".config");
    let app_cfg = app_config_dir(&config_home);
    assert!(Path::new(&app_cfg).file_name().unwrap() == "hyprfiles");
}

#[test]
fn test_scan_mime_types_from_xml() {
    let xml = r#"<mime-type type="text/plain">
            <comment>Plain text</comment>
        </mime-type>"#;
    let map = scan_mime_types_from_xml(xml);
    assert_eq!(map.get("text/plain"), Some("Plain text".to_string()));
}

// ----- desktop entries -----

#[test]
fn desktop_entry_without_name_keeps_id() {
    let entry = parse_desktop_entry("[Desktop Entry]\nExec=foo\n", Some("foo.desktop")).unwrap();
    assert_eq!(entry.name, "");
    assert_eq!(entry.id, "foo.desktop");
}

#[test]
fn desktop_entry_without_name_or_id_is_refused() {
    let err = parse_desktop_entry("[Desktop Entry]\nExec=foo\n", None).unwrap_err();
    assert!(matches!(err, DesktopEntryError::MissingNameAndId));
}

#[test]
fn desktop_entry_last_name_wins() {
    let entry = parse_desktop_entry("[Desktop Entry]\nName=First\n  Name = Second  \n", None).unwrap();
    assert_eq!(entry.name, "Second");
    assert!(entry.path.is_none());
    let entry = parse_desktop_entry("[Desktop Entry]\nName=\n", Some("x.desktop")).unwrap();
    assert_eq!(entry.id, "x.desktop");
    assert!(parse_desktop_entry("[Desktop Entry]\nName=\n", None).is_err());
}

#[test]
fn desktop_entry_keys_outside_group_are_ignored() {
    let content = "Name=Outside\n[Other]\nName=Other\n[Desktop Entry]\nName=Inside\nTerminal=true\n[Next]\nName=After\n";
    let entry = parse_desktop_entry(content, None).unwrap();
    assert_eq!(entry.name, "Inside");
    assert!(entry.terminal);
}

#[test]
fn exec_command_quotes_and_codes() {
    let entry = DesktopEntry {
        exec_line: "\"/opt/My App/run\" --open %U --icon %i %c".to_string(),
        ..Default::default()
    };
    let cmd = build_exec_command(&entry, "/tmp/a b.txt");
    assert_eq!(cmd, vec!["/opt/My App/run", "--open", "/tmp/a b.txt", "--icon"]);
}

#[test]
fn exec_target_is_inserted_verbatim() {
    let entry = DesktopEntry { exec_line: "app %f".to_string(), ..Default::default() };
    assert_eq!(build_exec_command(&entry, "/tmp/50%done.txt"), vec!["app", "/tmp/50%done.txt"]);
    let entry = DesktopEntry { exec_line: "app --x=%u%i".to_string(), ..Default::default() };
    assert_eq!(build_exec_command(&entry, "/a/%F"), vec!["app", "--x=/a/%F"]);
}

#[test]
fn globs2_lines_are_keyed_by_type() {
    let mut m = MimeDescriptions::new();
    m.add_globs2("50:text/plain:*.txt\n");
    assert_eq!(m.get("text/plain"), Some(String::new()));
    assert_eq!(m.get("*.txt"), None);
}

#[test]
fn test_xdg_dirs_not_empty() {
    let cfg = xdg_dir_from(None, None, Some("/home/u"), ".config");
    assert!(!cfg.is_empty());
    let cache = xdg_dir_from(None, None, None, ".cache");
    assert!(!cache.is_empty());
    let data = xdg_dir_from(Some("/data"), None, None, ".local/share");
    assert!(!data.is_empty());
}

#[test]
fn test_icon_theme_dirs_not_empty_on_linux() {
    let dirs = icon_theme_dir_candidates("/home/u/.local/share", &vec!["/usr/share".to_string()]);
    for d in &dirs {
        assert!(Path::new(d).is_absolute());
    }
}

#[test]
fn exec_splitting() {
    assert_eq!(split_exec("a  \"b c\" d"), vec!["a", "b c", "d"]);
    assert_eq!(split_exec("\"\""), Vec::<String>::new());
    assert!(split_exec("").is_empty());
}

#[test]
fn mime_from_extension_table() {
    assert_eq!(from_path("/x/photo.JPG"), Some("image/jpeg".to_string()));
    assert_eq!(from_path("/x/archive.unknownext"), None);
    assert_eq!(from_path("/x/noext"), None);
}

#[test]
fn guess_mime_type_falls_back_to_xdg_answer() {
    assert_eq!(guess_mime_type("/x/file.weird", Some("application/x-weird")).unwrap(), "application/x-weird");
    let err = guess_mime_type("/x/file.weird", None).unwrap_err();
    assert!(matches!(err, DesktopEntryError::UnknownMimeType(p) if p == "/x/file.weird"));
}

#[test]
fn entries_for_mime_matches_case_insensitively() {
    let a = parse_desktop_entry("[Desktop Entry]\nName=A\nMimeType=Text/Plain;\n", None).unwrap();
    let b = parse_desktop_entry("[Desktop Entry]\nName=B\nMimeType=image/png;\n", None).unwrap();
    let found = entries_for_mime(vec![a, b], "text/plain");
    assert_eq!(found.len(), 1);
    assert_eq!(found[0].name, "A");
}

#[test]
fn entries_for_file_uses_guessed_type() {
    let a = parse_desktop_entry("[Desktop Entry]\nName=Editor\nMimeType=text/plain;\n", None).unwrap();
    let found = entries_for_file(vec![a], "/tmp/notes.txt", None).unwrap();
    assert_eq!(found.len(), 1);
}

#[test]
fn listed_entry_skips_hidden_and_non_desktop() {
    assert!(is_desktop_file("/usr/share/applications/a.desktop"));
    assert!(!is_desktop_file("/usr/share/applications/a.txt"));
    let shown = listed_entry("/apps/firefox.desktop", "[Desktop Entry]\nName=Firefox\n").unwrap();
    assert_eq!(shown.id, "firefox");
    assert_eq!(shown.path, Some("/apps/firefox.desktop".to_string()));
    assert!(listed_entry("/apps/h.desktop", "[Desktop Entry]\nName=H\nNoDisplay=true\n").is_none());
    assert!(listed_entry("/apps/h.desktop", "[Desktop Entry]\nName=H\nHidden=true\n").is_none());
}

// ----- terminals and portals -----

#[test]
fn terminal_override_wins() {
    assert_eq!(detect_terminal(Some("foot"), Some("xterm-256color"), &vec![]), "foot");
}

#[test]
fn terminal_from_term_or_path() {
    assert_eq!(detect_terminal(Some(""), Some("xterm-256color"), &vec![]), "xterm-256color");
    assert_eq!(detect_terminal(None, Some("dumb"), &vec![false, false, true]), "kitty");
    assert_eq!(detect_terminal(None, None, &vec![false; 8]), "xterm");
}

#[test]
fn terminal_commands() {
    let foot = terminal_command("foot", "/home/u");
    assert_eq!(foot.program, "foot");
    assert_eq!(foot.args, vec!["--working-directory=/home/u"]);
    let wez = terminal_command("wezterm", "/home/u");
    assert_eq!(wez.args, vec!["start", "--cwd", "/home/u"]);
    let other = terminal_command("urxvt", "/home/u");
    assert!(other.args.is_empty());
    assert_eq!(other.current_dir, Some("/home/u".to_string()));
    assert!(terminal_exit("foot", true, Some(0)).is_ok());
    assert!(matches!(terminal_exit("foot", false, Some(1)), Err(TerminalError::Exited { code: Some(1), .. })));
}

#[test]
fn portal_detection_any_probe() {
    assert!(!detect_xdg_desktop_portal_hyprland(&vec![false; 6]));
    assert!(detect_xdg_desktop_portal_hyprland(&vec![false, false, false, false, true, false]));
    assert!(!detect_xdg_desktop_portal_hyprland(&vec![false, false, false, false, false, false, true]));
    let caps = capabilities(true);
    assert!(caps.screenshot && caps.file_chooser && caps.notification && caps.settings);
    let none = PortalCapabilities::default();
    assert!(!none.screenshot);
    assert_eq!(portal_probe_paths().len(), 6);
}

// ----- trash layout -----

#[test]
fn trash_layout_errors() {
    let dirs = trash_dirs("/data");
    assert_eq!(dirs.0, "/data/Trash/files");
    assert!(validate_trash_xdg_compliance(&dirs, true, true).is_ok());
    assert!(matches!(validate_trash_xdg_compliance(&dirs, false, true), Err(TrashLayoutError::MissingFilesDir(p)) if p == "/data/Trash/files"));
    assert!(matches!(validate_trash_xdg_compliance(&dirs, true, false), Err(TrashLayoutError::MissingInfoDir(p)) if p == "/data/Trash/info"));
    assert!(trash_behavior_docs().contains("freedesktop"));
}

#[test]
fn test_parse_trashinfo() {
    let parsed = parse_trashinfo("[Trash Info]\nPath=/home/user/file.txt\nDeletionDate=2024-01-01T00:00:00\n");
    assert_eq!(parsed, Some("/home/user/file.txt".to_string()));
}

#[test]
fn trashinfo_original_path() {
    let content = "[Trash Info]\nPath=/home/user/file.txt\nDeletionDate=2024-01-01T00:00:00\n";
    assert_eq!(parse_trashinfo(content), Some("/home/user/file.txt".to_string()));
    assert_eq!(parse_trashinfo("[Trash Info]\n"), None);
    assert_eq!(original_path_of("/t/files/x", Some(content)), "/home/user/file.txt");
    assert_eq!(original_path_of("/t/files/x", None), "/t/files/x");
    let item = trashed_item("/t/files/x", Some(content), 42);
    assert_eq!(item.original_path, "/home/user/file.txt");
    assert_eq!(item.trashed_at, 42);
}

// ----- xdg -----

#[test]
fn xdg_base_directories() {
    assert_eq!(xdg_dir_from(Some("/cfg"), Some("/plat"), Some("/home/u"), ".config"), "/cfg");
    assert_eq!(xdg_dir_from(None, Some("/plat"), Some("/home/u"), ".config"), "/plat");
    assert_eq!(xdg_dir_from(None, None, Some("/home/u"), ".local/share"), "/home/u/.local/share");
    assert_eq!(xdg_dir_from(None, None, None, ".cache"), "/.cache");
    assert_eq!(app_cache_dir("/c"), "/c/hyprfiles");
    assert_eq!(app_data_dir("/d"), "/d/hyprfiles");
}

#[test]
fn xdg_candidate_lists() {
    let dd = vec!["/usr/local/share".to_string(), "/opt/share".to_string()];
    assert_eq!(
        mime_dir_candidates(&dd, "/home/u/.local/share"),
        vec!["/usr/share/mime", "/usr/local/share/mime", "/opt/share/mime", "/home/u/.local/share/mime"]
    );
    assert_eq!(
        icon_theme_dir_candidates("/h", &dd),
        vec!["/usr/share/icons", "/usr/local/share/icons", "/h/icons", "/usr/local/share/icons", "/opt/share/icons"]
    );
    assert_eq!(
        application_dir_candidates(&dd, "/h"),
        vec![
            "/usr/share/applications",
            "/usr/local/share/applications",
            "/usr/local/share/applications",
            "/opt/share/applications",
            "/h/applications"
        ]
    );
}

#[test]
fn icon_lookup_order() {
    assert_eq!(icon_themes_to_check(Some("Papirus")), vec!["Papirus", "hicolor"]);
    assert_eq!(icon_themes_to_check(None), vec!["hicolor"]);
    assert_eq!(
        icon_candidates("/i/48x48/apps", "firefox"),
        vec!["/i/48x48/apps/firefox.svg", "/i/48x48/apps/firefox.png", "/i/48x48/apps/firefox.xpm"]
    );
}

#[test]
fn icon_theme_names_sorted_unique() {
    let names = vec!["b".to_string(), "a".to_string(), "b".to_string(), "Z".to_string()];
    assert_eq!(sorted_unique(&names), vec!["Z", "a", "b"]);
    assert!(sorted_unique(&vec![]).is_empty());
}

#[test]
fn mime_descriptions_from_globs_and_xml() {
    let mut m = MimeDescriptions::new();
    m.add_globs2("50:text/x-rust:*.rs\n# comment\n50:*.txt\n");
    assert_eq!(m.get("text/x-rust"), Some(String::new()));
    assert_eq!(m.get("*.rs"), None);
    m.insert("text/plain".to_string(), "Text".to_string());
    assert_eq!(m.get("text/plain"), Some("Text".to_string()));
    m.add_package_xml("<mime-type type=\"text/plain\">\n<comment>Plain</comment>\n");
    assert_eq!(m.get("text/plain"), Some("Plain".to_string()));
    assert_eq!(m.get("missing"), None);
}
