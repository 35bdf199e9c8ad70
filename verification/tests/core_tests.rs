use hyprfiles::config::{BehaviorConfig, GeneralConfig, HyprlandConfig, KeybindingsConfig, PreviewConfig};
use hyprfiles::entry::{Entry, EntryType, ListDirRequest, SortBy, SortDir};
use hyprfiles::fs::{EntryFacts, FileKind, FsError, IoFailure, LocalFsProvider};
use hyprfiles::jobs::{
    auto_rename_candidate, combine_outcomes, copy_child_paths, may_remove_source, CopyOutcome, copy_target, file_copied_progress, job_action,
    ConflictResolution, CopyTarget, FreeNameSearch, JobAction, JobError, JobId, JobKind, JobOutcome,
    JobState, JobTable,
};
use hyprfiles::mime::DefaultMimeResolver;
use hyprfiles::preview::{
    classify_text, directory_preview, preview_plan, PreviewContent, PreviewRequest, PreviewStep,
};
use hyprfiles::search::{fuzzy_match, matches_query, SearchQuery, SearchWalk};
use hyprfiles::theme::{DefaultThemeLoader, ThemeColors, ThemeMode};
use hyprfiles::trash::{percent_decode_str, FreedesktopTrashManager, NaiveDateTime, TrashError};

fn entry(name: &str, size: u64, entry_type: EntryType) -> Entry {
    Entry {
        path: format!("/base/{}", name),
        name: name.to_string(),
        entry_type,
        size,
        modified: None,
        permissions: Some(0o644),
        is_hidden: name.starts_with('.'),
        is_symlink: false,
        symlink_target: None,
    }
}

fn request(sort_by: SortBy, show_hidden: bool, filter: Option<&str>) -> ListDirRequest {
    ListDirRequest {
        path: "/base".to_string(),
        show_hidden,
        sort_by,
        sort_dir: SortDir::Ascending,
        filter: filter.map(|f| f.to_string()),
    }
}

fn names(entries: &[Entry]) -> Vec<String> {
    entries.iter().map(|e| e.name.clone()).collect()
}

// ----- listing -----

#[test]
fn test_list_dir_basic() {
    let raw = vec![
        entry("c_dir", 0, EntryType::Directory),
        entry("b.txt", 5, EntryType::File),
        entry("a.txt", 5, EntryType::File),
    ];
    let res = LocalFsProvider::default().list_entries(request(SortBy::Name, true, None), raw);
    assert_eq!(names(&res.entries), vec!["a.txt", "b.txt", "c_dir"]);
    assert_eq!(res.path, "/base");
    assert_eq!(res.parent, Some("/".to_string()));
}

#[test]
fn listing_holds_each_shown_matching_entry_once_in_order() {
    let raw = vec![
        entry(".Foo_hidden", 3, EntryType::File),
        entry("zfoo", 1, EntryType::File),
        entry("bar", 2, EntryType::File),
        entry("FOOD", 4, EntryType::Directory),
        entry(".other", 1, EntryType::File),
    ];
    let res = LocalFsProvider::default().list_entries(request(SortBy::Name, true, Some("foo")), raw.clone());
    assert_eq!(names(&res.entries), vec![".Foo_hidden", "FOOD", "zfoo"]);
    for e in &res.entries {
        assert_eq!(e.is_hidden, e.name.starts_with('.'));
    }
    let res = LocalFsProvider::default().list_entries(request(SortBy::Name, false, Some("foo")), raw);
    assert_eq!(names(&res.entries), vec!["FOOD", "zfoo"]);
    assert!(res.entries.iter().all(|e| !e.is_hidden));
}

#[test]
fn test_list_dir_hidden() {
    let raw = vec![entry("visible", 1, EntryType::File), entry(".hidden", 1, EntryType::File)];
    let res = LocalFsProvider::new(false).list_entries(request(SortBy::Name, false, None), raw);
    assert_eq!(names(&res.entries), vec!["visible"]);
}

#[test]
fn test_list_dir_filter() {
    let raw = vec![
        entry("foo.txt", 0, EntryType::File),
        entry("bar.log", 0, EntryType::File),
        entry("foobar.rs", 0, EntryType::File),
    ];
    let res = LocalFsProvider::default().list_entries(request(SortBy::Name, true, Some("foo")), raw);
    assert_eq!(names(&res.entries), vec!["foo.txt", "foobar.rs"]);
}

#[test]
fn listing_filter_ignores_case() {
    let raw = vec![
        entry("foo.txt", 0, EntryType::File),
        entry("bar.log", 0, EntryType::File),
        entry("FOObar.rs", 0, EntryType::File),
    ];
    let res = LocalFsProvider::default().list_entries(request(SortBy::Name, true, Some("foo")), raw);
    assert_eq!(names(&res.entries), vec!["FOObar.rs", "foo.txt"]);
}

#[test]
fn test_sort_by_size() {
    let raw = vec![entry("large", 100, EntryType::File), entry("small", 1, EntryType::File)];
    let res = LocalFsProvider::default().list_entries(request(SortBy::Size, true, None), raw);
    assert_eq!(names(&res.entries), vec!["small", "large"]);
}

#[test]
fn test_sort_by_extension() {
    let raw = vec![
        entry("b.txt", 0, EntryType::File),
        entry("c.rs", 0, EntryType::File),
        entry("a.rs", 0, EntryType::File),
    ];
    let res = LocalFsProvider::default().list_entries(request(SortBy::Extension, true, None), raw);
    assert_eq!(names(&res.entries), vec!["a.rs", "c.rs", "b.txt"]);
}

#[test]
fn listing_sorted_by_type_descending() {
    let raw = vec![
        entry("f", 0, EntryType::File),
        entry("d", 0, EntryType::Directory),
        entry("s", 0, EntryType::Symlink),
    ];
    let mut req = request(SortBy::Type, true, None);
    req.sort_dir = SortDir::Descending;
    let res = LocalFsProvider::default().list_entries(req, raw);
    assert_eq!(names(&res.entries), vec!["f", "s", "d"]);
}

#[test]
fn sort_is_stable_and_name_insensitive() {
    let mut v = vec![entry("b", 0, EntryType::File), entry("A", 0, EntryType::File), entry("a", 0, EntryType::File)];
    LocalFsProvider::apply_sort(&mut v, SortBy::NameInsensitive, SortDir::Ascending);
    assert_eq!(names(&v), vec!["A", "a", "b"]);
    LocalFsProvider::apply_sort(&mut v, SortBy::Name, SortDir::Ascending);
    assert_eq!(names(&v), vec!["A", "a", "b"]);
}

#[test]
fn sorting_twice_changes_nothing() {
    let mut v = vec![
        entry("b.rs", 3, EntryType::File),
        entry("a.txt", 3, EntryType::File),
        entry("c", 1, EntryType::Directory),
    ];
    LocalFsProvider::apply_sort(&mut v, SortBy::Size, SortDir::Descending);
    let once = names(&v);
    assert_eq!(once, vec!["b.rs", "a.txt", "c"]);
    LocalFsProvider::apply_sort(&mut v, SortBy::Size, SortDir::Descending);
    assert_eq!(names(&v), once);
}

#[test]
fn descending_is_ascending_reversed() {
    let raw = vec![
        entry("b.txt", 5, EntryType::File),
        entry("a.rs", 9, EntryType::File),
        entry("c", 5, EntryType::Directory),
    ];
    for by in [SortBy::Name, SortBy::Size, SortBy::Extension, SortBy::Type] {
        let mut asc = raw.clone();
        LocalFsProvider::apply_sort(&mut asc, by, SortDir::Ascending);
        let mut desc = raw.clone();
        LocalFsProvider::apply_sort(&mut desc, by, SortDir::Descending);
        let mut rev = names(&asc);
        rev.reverse();
        assert_eq!(names(&desc), rev);
    }
}

#[test]
fn trashinfo_last_path_wins() {
    let parsed = FreedesktopTrashManager::parse_trashinfo("Path=/first\nPath=/second%21\n");
    assert_eq!(parsed, Some(("/second!".to_string(), 0)));
    assert_eq!(FreedesktopTrashManager::parse_trashinfo("[Trash Info]\nDeletionDate=2024-01-15T10:30:00\n"), None);
}

#[test]
fn percent_round_trip() {
    for s in ["plain", "My File.txt", "é/ü", "100%"] {
        let enc: String = s.bytes().map(|b| format!("%{:02X}", b)).collect();
        assert_eq!(percent_decode_str(&enc).decode_utf8_lossy(), s);
    }
}

#[test]
fn fuzzy_matches_subsequences() {
    assert!(fuzzy_match("hw", "hello_world").is_some());
    assert!(fuzzy_match("HW", "hello_world").is_some());
    assert!(fuzzy_match("wh", "hello_world").is_none());
    assert!(fuzzy_match("lld", "hello_world").is_some());
}

#[test]
fn hidden_and_extension_helpers() {
    assert!(LocalFsProvider::is_hidden_name(".bashrc"));
    assert!(!LocalFsProvider::is_hidden_name("bashrc"));
    assert_eq!(LocalFsProvider::ext_of("Photo.JPG"), "jpg");
    assert_eq!(LocalFsProvider::ext_of("noext"), "");
    assert_eq!(LocalFsProvider::ext_of("archive.tar.gz"), "gz");
}

#[test]
fn entry_from_facts_marks_links_and_hidden() {
    let facts = EntryFacts {
        kind: FileKind::File,
        link_seen: true,
        size: 7,
        modified: Some(1),
        mode: 0o755,
        symlink_target: Some("/base/real.txt".to_string()),
    };
    let e = LocalFsProvider::entry_from_facts("/base/.link".to_string(), ".link".to_string(), facts);
    assert!(e.is_symlink);
    assert!(e.is_hidden);
    assert_eq!(e.entry_type, EntryType::File);
    assert_eq!(e.permissions, Some(0o755));
    assert_eq!(e.symlink_target, Some("/base/real.txt".to_string()));
    assert_eq!(LocalFsProvider::entry_name_for_path("/base/file"), "file");
    assert_eq!(LocalFsProvider::entry_name_for_path("/"), "/");
    assert_eq!(LocalFsProvider::entry_name(None, "/x/y"), "/x/y");
}

#[test]
fn test_symlink_detection() {
    let facts = EntryFacts {
        kind: FileKind::File,
        link_seen: true,
        size: 4,
        modified: None,
        mode: 0o777,
        symlink_target: Some("/base/real.txt".to_string()),
    };
    let link = LocalFsProvider::entry_from_facts("/base/link.txt".to_string(), "link.txt".to_string(), facts);
    assert!(link.is_symlink);
    assert_eq!(link.symlink_target, Some("/base/real.txt".to_string()));
}

#[test]
fn test_metadata() {
    let facts = EntryFacts { kind: FileKind::File, link_seen: false, size: 7, modified: Some(5), mode: 0o644, symlink_target: None };
    let name = LocalFsProvider::entry_name_for_path("/base/file");
    let entry = LocalFsProvider::entry_from_facts("/base/file".to_string(), name, facts);
    assert_eq!(entry.name, "file");
    assert_eq!(entry.size, 7);
    assert!(entry.modified.is_some());
    assert!(entry.permissions.is_some());
}

#[test]
fn test_permission_error_not_panic() {
    let e = LocalFsProvider::metadata_error(IoFailure::NotFound, true, "/nonexistent_path_42".to_string(), "No such file".to_string());
    assert!(matches!(e, FsError::NotFound(_)));
}

#[test]
fn metadata_errors() {
    let e = LocalFsProvider::metadata_error(IoFailure::NotFound, true, "/nope".to_string(), "gone".to_string());
    assert!(matches!(e, FsError::NotFound(p) if p == "/nope"));
    let e = LocalFsProvider::metadata_error(IoFailure::NotFound, false, "/nope".to_string(), "gone".to_string());
    assert!(matches!(e, FsError::Io(m) if m == "gone"));
    let e = LocalFsProvider::metadata_error(IoFailure::PermissionDenied, true, "/root".to_string(), "no".to_string());
    assert!(matches!(e, FsError::PermissionDenied(p) if p == "/root"));
}

// ----- jobs -----

#[test]
fn job_id_is_a_version_four_uuid() {
    for _ in 0..32 {
        let id = JobId::new();
        assert_eq!((id.0 >> 76) & 0xf, 4);
        assert_eq!((id.0 >> 62) & 0x3, 2);
        let d = JobId::default();
        assert_eq!((d.0 >> 76) & 0xf, 4);
        assert_eq!((d.0 >> 62) & 0x3, 2);
    }
    assert_ne!(JobId::new(), JobId::new());
}

#[test]
fn job_table_reads_back() {
    let mut t = JobTable::new();
    assert_eq!(t.conflict_resolution(), ConflictResolution::AutoRename);
    let id = JobId(7);
    let other = JobId(8);
    let res = t.enqueue(id, JobKind::CreateDir { path: "/tmp/x".to_string() });
    assert_eq!(res, ConflictResolution::AutoRename);
    assert_eq!(t.state(id), Ok(JobState::Pending));
    assert_eq!(t.progress(id).unwrap().unwrap().processed_items, 0);
    assert_eq!(t.state(other), Err(JobError::NotFound));
    t.set_state(id, JobState::Running);
    assert_eq!(t.state(id), Ok(JobState::Running));
    t.set_state(other, JobState::Running);
    assert_eq!(t.state(other), Err(JobError::NotFound));
    t.finish(id, JobOutcome::Failed("boom".to_string()));
    assert_eq!(t.state(id), Ok(JobState::Failed));
    assert!(t.contains(id));
    assert!(!t.contains(other));
    t.set_conflict_resolution(ConflictResolution::Skip);
    assert_eq!(t.conflict_resolution(), ConflictResolution::Skip);
    assert_eq!(JobError::NotFound.message(), "job not found");
}

#[test]
fn job_outcomes() {
    let mut t = JobTable::new();
    t.enqueue(JobId(1), JobKind::Trash { paths: vec![] });
    assert_eq!(t.finish(JobId(1), JobOutcome::Cancelled), JobState::Cancelled);
    assert_eq!(t.state(JobId(1)), Ok(JobState::Cancelled));
    t.finish(JobId(1), JobOutcome::Succeeded);
    assert_eq!(t.state(JobId(1)), Ok(JobState::Completed));
}

#[test]
fn conflict_auto_rename_names() {
    assert_eq!(auto_rename_candidate("/tmp/d/file.txt", 1), "/tmp/d/file_1.txt");
    assert_eq!(auto_rename_candidate("/tmp/d/file", 12), "/tmp/d/file_12");
    assert_eq!(auto_rename_candidate("/tmp/d/.bashrc", 3), "/tmp/d/.bashrc_3");
    assert_eq!(auto_rename_candidate("/tmp/d/a.tar.gz", 105), "/tmp/d/a.tar_105.gz");
}

#[test]
fn free_name_search_counts_up() {
    let mut s = FreeNameSearch::new("/tmp/d/file.txt".to_string());
    assert_eq!(s.candidate(), "/tmp/d/file.txt");
    assert_eq!(s.report(true), None);
    assert_eq!(s.candidate(), "/tmp/d/file_1.txt");
    assert_eq!(s.report(true), None);
    assert_eq!(s.candidate(), "/tmp/d/file_2.txt");
    assert_eq!(s.report(false), Some("/tmp/d/file_2.txt".to_string()));
}

#[test]
fn test_conflict_auto_rename() {
    let dst = "/tmp/t/file.txt".to_string();
    match copy_target(dst, true, ConflictResolution::AutoRename) {
        CopyTarget::FindFreeName(mut search) => {
            assert_eq!(search.report(true), None);
            assert_eq!(search.report(false), Some("/tmp/t/file_1.txt".to_string()));
        }
        _ => panic!("expected a search for a free name"),
    }
}

#[test]
fn test_rename() {
    match job_action(JobKind::Rename { path: "/tmp/t/old.txt".to_string(), new_name: "new.txt".to_string() }) {
        Ok(JobAction::RenameTo { from, to }) => {
            assert_eq!(from, "/tmp/t/old.txt");
            assert_eq!(to, "/tmp/t/new.txt");
        }
        _ => panic!("expected a rename"),
    }
}

#[test]
fn copy_targets_follow_resolution() {
    let d = "/tmp/d/f".to_string();
    assert!(matches!(copy_target(d.clone(), false, ConflictResolution::Cancel), CopyTarget::To(p) if p == d));
    assert!(matches!(copy_target(d.clone(), true, ConflictResolution::Overwrite), CopyTarget::To(p) if p == d));
    assert!(matches!(copy_target(d.clone(), true, ConflictResolution::Skip), CopyTarget::Skip));
    assert!(matches!(copy_target(d.clone(), true, ConflictResolution::Cancel), CopyTarget::Abort(JobError::CancelledByConflict)));
    assert!(matches!(copy_target(d.clone(), true, ConflictResolution::AutoRename), CopyTarget::FindFreeName(_)));
    assert_eq!(copy_child_paths("/a", "/b", "x"), ("/a/x".to_string(), "/b/x".to_string()));
    let p = file_copied_progress(JobId(3), 5);
    assert_eq!((p.processed_bytes, p.total_bytes, p.processed_items, p.total_items), (5, 5, 1, 1));
}

#[test]
fn job_actions() {
    match job_action(JobKind::Rename { path: "/tmp/old.txt".to_string(), new_name: "new.txt".to_string() }) {
        Ok(JobAction::RenameTo { from, to }) => {
            assert_eq!(from, "/tmp/old.txt");
            assert_eq!(to, "/tmp/new.txt");
        }
        _ => panic!("expected a rename"),
    }
    assert!(matches!(
        job_action(JobKind::Rename { path: "/".to_string(), new_name: "x".to_string() }),
        Err(JobError::NoParentDirectory)
    ));
    assert!(matches!(
        job_action(JobKind::Compress { paths: vec![], archive: "a.zip".to_string() }),
        Err(JobError::NotImplemented)
    ));
    assert!(matches!(
        job_action(JobKind::Copy { src: "/a".to_string(), dst: "/b".to_string() }),
        Ok(JobAction::CopyTree { .. })
    ));
}

// ----- search -----

#[test]
fn search_matching_rules() {
    let q = |p: &str, cs: bool, fuzzy: bool| SearchQuery {
        root: "/".to_string(),
        pattern: p.to_string(),
        case_sensitive: cs,
        fuzzy,
        content_search: false,
    };
    assert!(matches_query(&q("hello", false, false), "Hello.txt"));
    assert!(!matches_query(&q("hello", false, false), "world.rs"));
    assert!(matches_query(&q("exact", false, false), "exact_extra"));
    assert!(matches_query(&q("exact", true, false), "exact"));
    assert!(!matches_query(&q("exact", true, false), "exact_extra"));
    assert!(matches_query(&q("*.rs", false, false), "main.RS"));
    assert!(matches_query(&q("main*", false, false), "main.rs"));
    assert!(matches_query(&q("*ai*", true, false), "main.rs"));
    assert!(matches_query(&q("hw", false, true), "hello_world.rs"));
    assert!(!matches_query(&q("hw", false, true), "hello.md"));
}

#[test]
fn fuzzy_stats() {
    let s = fuzzy_match("ab", "abc").unwrap();
    assert_eq!(s.consecutive, 2);
    assert!(s.starts_at_zero);
    assert_eq!((s.pattern_bytes, s.text_bytes), (2, 3));
    assert!(fuzzy_match("abcd", "abc").is_none());
    assert!(fuzzy_match("", "abc").is_some());
    assert!(fuzzy_match("Straße", "Straße").is_some());
}

fn walk_one_dir(pattern: &str, fuzzy: bool, names: &[&str]) -> Vec<String> {
    let q = SearchQuery {
        root: "/r".to_string(),
        pattern: pattern.to_string(),
        case_sensitive: false,
        fuzzy,
        content_search: false,
    };
    let mut w = SearchWalk::new("/r".to_string());
    let d = w.next_dir().unwrap();
    for n in names {
        w.visit(&q, n, format!("{}/{}", d, n), false);
    }
    assert_eq!(w.next_dir(), None);
    w.into_found()
}

#[test]
fn test_search_contains() {
    let res = walk_one_dir("hello", false, &["hello.txt", "world.rs", "foo.md"]);
    assert_eq!(res.len(), 1);
    assert!(res[0].ends_with("hello.txt"));
}

#[test]
fn test_search_exact() {
    let res = walk_one_dir("exact", false, &["exact", "exact_extra"]);
    assert_eq!(res.len(), 2);
}

#[test]
fn test_fuzzy_search() {
    let res = walk_one_dir("hw", true, &["hello_world.rs", "hello.md"]);
    assert!(!res.is_empty());
    assert!(res.iter().any(|r| r.ends_with("hello_world.rs")));
}

#[test]
fn search_walk_collects_matches() {
    let q = SearchQuery {
        root: "/r".to_string(),
        pattern: "hello".to_string(),
        case_sensitive: false,
        fuzzy: false,
        content_search: false,
    };
    let mut w = SearchWalk::new("/r".to_string());
    let d = w.next_dir().unwrap();
    assert_eq!(d, "/r");
    w.visit(&q, "hello.txt", "/r/hello.txt".to_string(), false);
    w.visit(&q, "sub", "/r/sub".to_string(), true);
    assert_eq!(w.next_dir(), Some("/r/sub".to_string()));
    w.visit(&q, "HELLO.md", "/r/sub/HELLO.md".to_string(), false);
    assert_eq!(w.next_dir(), None);
    assert_eq!(w.into_found(), vec!["/r/hello.txt", "/r/sub/HELLO.md"]);
}

// ----- preview -----

#[test]
fn test_preview_text() {
    let req = PreviewRequest { path: "/tmp/t/hello.txt".to_string(), max_bytes: 1024 };
    assert!(matches!(preview_plan(&req, true, false, 13), PreviewStep::ReadText { max_bytes: 1024 }));
    match classify_text(&req.path, Some("Hello, world!".to_string()), 13) {
        PreviewContent::Text(t) => assert_eq!(t, "Hello, world!"),
        other => panic!("expected text, got {:?}", other),
    }
}

#[test]
fn test_preview_directory() {
    let req = PreviewRequest { path: "/tmp/t/mydir".to_string(), max_bytes: 1024 };
    assert!(matches!(preview_plan(&req, true, true, 4096), PreviewStep::ListDirectory));
    match directory_preview(vec!["a.txt".to_string()]) {
        PreviewContent::Directory(items) => assert!(items.contains(&"a.txt".to_string())),
        other => panic!("expected directory, got {:?}", other),
    }
}

#[test]
fn test_preview_binary() {
    let req = PreviewRequest { path: "/tmp/t/binary".to_string(), max_bytes: 1024 };
    assert!(matches!(preview_plan(&req, true, false, 5), PreviewStep::ReadText { .. }));
    let text = String::from_utf8_lossy(&[0u8, 1, 2, 255, 254]).into_owned();
    match classify_text(&req.path, Some(text), 5) {
        PreviewContent::Binary { mime, size } => {
            assert_eq!(size, 5);
            assert!(!mime.is_empty());
        }
        other => panic!("expected binary, got {:?}", other),
    }
}

#[test]
fn preview_plans() {
    let req = PreviewRequest { path: "/x/a.png".to_string(), max_bytes: 1024 };
    assert!(matches!(preview_plan(&req, true, false, 10), PreviewStep::ReadImage { mime } if mime == "image/png"));
    match preview_plan(&req, false, false, 0) {
        PreviewStep::Done(PreviewContent::Unsupported { reason }) => assert_eq!(reason, "path does not exist: /x/a.png"),
        _ => panic!("expected unsupported"),
    }
    assert!(matches!(preview_plan(&req, true, true, 0), PreviewStep::ListDirectory));
    let txt = PreviewRequest { path: "/x/a.txt".to_string(), max_bytes: 64 };
    assert!(matches!(preview_plan(&txt, true, false, 0), PreviewStep::Done(PreviewContent::Text(t)) if t.is_empty()));
    assert!(matches!(preview_plan(&txt, true, false, 9), PreviewStep::ReadText { max_bytes: 64 }));
}

#[test]
fn preview_classification() {
    assert!(matches!(classify_text("/x/hello.txt", Some("Hello, world!".to_string()), 13), PreviewContent::Text(t) if t == "Hello, world!"));
    assert!(matches!(classify_text("/x/main.rs", Some("\u{1}\u{2}".to_string()), 2), PreviewContent::Text(_)));
    match classify_text("/x/binary", Some("\u{0}\u{1}\u{2}\u{fffd}\u{fffd}".to_string()), 5) {
        PreviewContent::Binary { mime, size } => {
            assert_eq!(size, 5);
            assert!(!mime.is_empty());
        }
        other => panic!("expected binary, got {:?}", other),
    }
    assert!(matches!(classify_text("/x/notes", Some("plain words".to_string()), 11), PreviewContent::Text(_)));
    assert!(matches!(classify_text("/x/notes", None, 11), PreviewContent::Binary { .. }));
}

#[test]
fn printable_text_without_extension_is_text() {
    let long = "a".repeat(2000);
    assert!(matches!(classify_text("/x/notes", Some(long.clone()), 2000), PreviewContent::Text(t) if t == long));
    let mixed: String = "\u{0}".repeat(100) + &"a".repeat(1900);
    assert!(matches!(classify_text("/x/notes", Some(mixed), 2000), PreviewContent::Binary { .. }));
}

#[test]
fn moves_keep_skipped_sources() {
    assert!(may_remove_source(CopyOutcome::Copied));
    assert!(!may_remove_source(CopyOutcome::Skipped));
    assert_eq!(combine_outcomes(CopyOutcome::Copied, CopyOutcome::Skipped), CopyOutcome::Skipped);
    assert_eq!(combine_outcomes(CopyOutcome::Copied, CopyOutcome::Copied), CopyOutcome::Copied);
}

#[test]
fn preview_directory_limit() {
    let many: Vec<String> = (0..150).map(|i| format!("f{}", i)).collect();
    match directory_preview(many) {
        PreviewContent::Directory(v) => {
            assert_eq!(v.len(), 100);
            assert_eq!(v[0], "f0");
        }
        _ => panic!("expected directory"),
    }
}

// ----- mime -----

#[test]
fn test_copy_helpers() {
    let r = DefaultMimeResolver::new();
    let path = "/home/user/doc.txt";
    assert_eq!(r.copy_path(path), "/home/user/doc.txt");
    assert_eq!(r.copy_name(path), "doc.txt");
    assert_eq!(r.copy_uri(path), "file:///home/user/doc.txt");
}

#[test]
fn test_parse_desktop_entry() {
    let entry = DefaultMimeResolver::parse_desktop_entry("[Desktop Entry]\nName=TestApp\nExec=/usr/bin/test\nIcon=test-icon\n");
    assert_eq!(entry.name, "TestApp");
    assert_eq!(entry.exec_line, "/usr/bin/test");
    assert_eq!(entry.icon, Some("test-icon".to_string()));
}

#[test]
fn test_resolve_mime() {
    let info = DefaultMimeResolver::new().mime_info("/tmp/t/test.txt", None);
    assert_eq!(info.mime_type, "text/plain");
}

#[test]
fn test_resolve_image() {
    let info = DefaultMimeResolver::new().mime_info("/tmp/t/image.png", None);
    assert_eq!(info.mime_type, "image/png");
}

#[test]
fn mime_resolution() {
    let r = DefaultMimeResolver::new();
    assert_eq!(r.resolve_mime("/tmp/test.txt"), "text/plain");
    assert_eq!(r.resolve_mime("/tmp/image.png"), "image/png");
    let info = r.mime_info("/tmp/image.png", Some("viewer.desktop".to_string()));
    assert_eq!(info.mime_type, "image/png");
    assert_eq!(info.default_app, Some("viewer.desktop".to_string()));
    assert_eq!(DefaultMimeResolver::default_app_from_query(true, b"  firefox.desktop\n"), Some("firefox.desktop".to_string()));
    assert_eq!(DefaultMimeResolver::default_app_from_query(true, b" \n"), None);
    assert_eq!(DefaultMimeResolver::default_app_from_query(false, b"firefox.desktop"), None);
}

// ----- trash -----

#[test]
fn test_permanent_delete_requires_force() {
    let m = FreedesktopTrashManager::new();
    assert!(!m.force);
    assert!(matches!(m.check_permanent_delete(), Err(TrashError::PermanentDeleteRefused)));
    let forced = FreedesktopTrashManager { force: true };
    assert!(forced.check_permanent_delete().is_ok());
}

#[test]
fn trash_paths_and_info() {
    assert_eq!(FreedesktopTrashManager::files_dir(Some("/d")), "/d/Trash/files");
    assert_eq!(FreedesktopTrashManager::info_path(Some("/d"), "a.txt"), "/d/Trash/info/a.txt.trashinfo");
    assert_eq!(FreedesktopTrashManager::trash_dir(None), "~/.local/share/Trash");
    let parsed = FreedesktopTrashManager::parse_trashinfo(
        "[Trash Info]\nPath=/home/user/my%20file.txt\nDeletionDate=2024-01-01T00:00:00\n",
    );
    assert_eq!(parsed, Some(("/home/user/my file.txt".to_string(), 1704067200)));
    let parsed = FreedesktopTrashManager::parse_trashinfo(
        "[Trash Info]\nPath=/home/user/My%20File.txt\nDeletionDate=2024-01-15T10:30:00\n",
    );
    assert_eq!(parsed, Some(("/home/user/My File.txt".to_string(), 1705314600)));
    let parsed = FreedesktopTrashManager::parse_trashinfo("Path=/x\nDeletionDate=2024-13-01T00:00:00\n");
    assert_eq!(parsed, Some(("/x".to_string(), 0)));
    let parsed = FreedesktopTrashManager::parse_trashinfo("Path=/x\nDeletionDate=1969-12-31T23:59:59\n");
    assert_eq!(parsed, Some(("/x".to_string(), 0)));
    assert_eq!(FreedesktopTrashManager::parse_trashinfo("DeletionDate=2024-01-01T00:00:00\n"), None);
    let item = FreedesktopTrashManager::trashed_item("/d/Trash/files/x", "Path=/home/x\n").unwrap();
    assert_eq!(item.original_path, "/home/x");
    assert_eq!(item.trashed_at, 0);
}

#[test]
fn percent_decoding() {
    assert_eq!(percent_decode_str("a%20b%2Fc").decode_utf8_lossy(), "a b/c");
    assert_eq!(percent_decode_str("plain").decode_utf8_lossy(), "plain");
    assert_eq!(percent_decode_str("bad%zz%4").decode_utf8_lossy(), "bad%zz%4");
    assert_eq!(percent_decode_str("%C3%A9").decode_utf8_lossy(), "é");
    assert_eq!(percent_decode_str("%FF").decode_utf8_lossy(), "\u{fffd}");
    assert_eq!(percent_decode_str("/home/user/My%20File.txt").decode_utf8_lossy(), "/home/user/My File.txt");
    assert_eq!(percent_decode_str("a%2fb").decode_utf8_lossy(), "a/b");
    assert_eq!(percent_decode_str("100%").decode_utf8_lossy(), "100%");
}

#[test]
fn date_times() {
    let f = "%Y-%m-%dT%H:%M:%S";
    let t = NaiveDateTime::parse_from_str("2024-01-15T10:30:00", f).unwrap();
    assert_eq!((t.year, t.month, t.day, t.hour, t.minute, t.second), (2024, 1, 15, 10, 30, 0));
    assert_eq!(t.and_utc(), t);
    assert_eq!(t.and_utc().timestamp(), 1705314600);
    assert_eq!(NaiveDateTime::parse_from_str("1970-01-01T00:00:00", f).unwrap().timestamp(), 0);
    assert_eq!(NaiveDateTime::parse_from_str("1969-12-31T23:59:59", f).unwrap().timestamp(), -1);
    assert_eq!(NaiveDateTime::parse_from_str("2000-03-01T00:00:00", f).unwrap().timestamp(), 951868800);
    assert!(NaiveDateTime::parse_from_str("2024-02-29T00:00:00", f).is_ok());
    assert!(NaiveDateTime::parse_from_str("2023-02-29T00:00:00", f).is_err());
    assert!(NaiveDateTime::parse_from_str("1900-02-29T00:00:00", f).is_err());
    assert!(NaiveDateTime::parse_from_str("2024-13-01T00:00:00", f).is_err());
    assert!(NaiveDateTime::parse_from_str("2024-01-15T24:00:00", f).is_err());
    assert!(NaiveDateTime::parse_from_str("2024-01-15Tab:00:00", f).is_err());
    assert!(NaiveDateTime::parse_from_str("2024-01-15", f).is_err());
}

// ----- config and themes -----

#[test]
fn config_defaults() {
    let g = GeneralConfig::default();
    assert!(!g.show_hidden && g.confirm_delete);
    assert_eq!(g.default_layout, "yazi");
    assert_eq!(g.terminal, "foot");
    assert_eq!(PreviewConfig::default().max_file_size_mb, 10);
    assert!(HyprlandConfig::default().enabled);
    assert!(BehaviorConfig::default().trash_by_default);
    let k = KeybindingsConfig::default();
    assert_eq!(k.open, vec!["Enter", "l"]);
    assert_eq!(k.trash, vec!["dd"]);
}

#[test]
fn test_builtin_themes() {
    let l = DefaultThemeLoader::new();
    let names = ["catppuccin-mocha", "gruvbox-dark", "nord", "tokyo-night", "dracula"];
    for n in names {
        let t = l.builtin(n).expect(n);
        assert_eq!(t.name, n);
        assert!(matches!(t.mode, ThemeMode::Dark));
    }
}

#[test]
fn theme_palettes() {
    let l = DefaultThemeLoader::new();
    assert!(l.builtin("solarized").is_none());
    let nord = l.builtin("nord").unwrap();
    assert_eq!(nord.colors.background, "#2e3440");
    assert_eq!(nord.border_radius, 10);
    assert_eq!(ThemeColors::default().accent, "#89b4fa");
    assert!(matches!(ThemeMode::default(), ThemeMode::Dark));
}
