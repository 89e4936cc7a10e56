//! Settings, tree rows, labels and the state of the view.

use hajizip::config::{
    encoding_to_str, overwrite_to_str, str_to_encoding, str_to_overwrite, AppConfig,
    PersistedConfig, MAX_RECENT_FILES,
};
use hajizip::controller::{Event, Intent, ProgressUpdate};
use hajizip::events::{Effect, PasswordPrompt, ViewState};
use hajizip::icons::{icon_paths, Icon};
use hajizip::view::{
    archive_summary, double_click, encoding_hint, extract_label, file_row_view, has_mangled_names,
    has_sidebar, overwrite_hint, progress_percent, restore_defaults, selection_summary,
    selection_text, summary_text, toggle, tree_row_view,
};
use hajizip::viewmodel::{
    children_of, cycle_sort, file_icon, filter_children, format_bytes, format_civil, kind_label,
    size_label, sort_children, time_label, tree_rows, SortDir, SortField,
};
use hajizip::{
    Codepage, EntryMeta, EntryPath, Error, ExtractReport, FilenameEncoding, NodeKind,
    OverwritePolicy, SafetyLimits, Timestamp,
};

fn meta(path: &str, kind: NodeKind, size: Option<u64>) -> EntryMeta {
    EntryMeta {
        path: EntryPath::new(path).unwrap(),
        raw_name: path.as_bytes().to_vec(),
        kind,
        uncompressed_size: size,
        compressed_size: None,
        mtime: None,
        mode: None,
        crc: None,
        encrypted: false,
        comment: None,
    }
}

fn path(s: &str) -> EntryPath {
    EntryPath::new(s).unwrap()
}

fn entries() -> Vec<EntryMeta> {
    vec![
        meta("a.txt", NodeKind::File, Some(10)),
        meta("dir/b.txt", NodeKind::File, Some(20)),
        meta("dir/sub/c.txt", NodeKind::File, Some(30)),
        meta("empty", NodeKind::Dir, None),
    ]
}

#[test]
fn defaults_are_sane() {
    let config = AppConfig::default();
    assert_eq!(config.overwrite_policy, OverwritePolicy::Ask);
    assert!(config.preserve_mtime);
    assert_eq!(config.filename_encoding, FilenameEncoding::Auto);
    assert!(config.nested_buffer_threshold > 0);
    assert!(config.default_extract_dir.is_none());
    assert!(config.recent_files.is_empty());
}

#[test]
fn record_recent_moves_to_front_dedupes_and_caps() {
    let mut config = AppConfig::default();
    for i in 0..MAX_RECENT_FILES + 3 {
        config.record_recent(format!("/tmp/a{i}.zip"));
    }
    // Capped at MAX_RECENT_FILES, most recent first.
    assert_eq!(config.recent_files.len(), MAX_RECENT_FILES);
    assert_eq!(
        config.recent_files[0],
        format!("/tmp/a{}.zip", MAX_RECENT_FILES + 2)
    );

    // Re-recording an existing path moves it to the front, no duplicate.
    config.record_recent("/tmp/a0.zip".to_string());
    assert_eq!(config.recent_files.len(), MAX_RECENT_FILES);
    assert_eq!(config.recent_files[0], "/tmp/a0.zip");
    assert_eq!(
        config
            .recent_files
            .iter()
            .filter(|p| p.as_str() == "/tmp/a0.zip")
            .count(),
        1
    );
}

#[test]
fn recording_the_same_file_twice_changes_nothing() {
    let mut config = AppConfig::default();
    config.record_recent("/a".to_string());
    config.record_recent("/b".to_string());
    config.record_recent("/b".to_string());
    assert_eq!(config.recent_files, ["/b", "/a"]);
    config.record_recent("/a".to_string());
    assert_eq!(config.recent_files, ["/a", "/b"]);
    // Paths are compared by their components.
    config.record_recent("//b/".to_string());
    assert_eq!(config.recent_files, ["//b/", "/a"]);
    config.record_recent("b".to_string());
    config.record_recent("./b".to_string());
    assert_eq!(config.recent_files, ["./b", "b", "//b/", "/a"]);
}

#[test]
fn roundtrip_preserves_all_fields() {
    let config = AppConfig {
        default_extract_dir: Some("/tmp/extract".to_string()),
        overwrite_policy: OverwritePolicy::Always,
        preserve_mtime: false,
        safety_limits: SafetyLimits {
            max_total_bytes: 1234,
            max_entries: 56,
            max_depth: 3,
        },
        nested_buffer_threshold: 999,
        filename_encoding: FilenameEncoding::Forced(Codepage::Gbk),
        recent_files: vec!["/tmp/one.zip".to_string(), "/tmp/two.tar.gz".to_string()],
    };

    let restored = AppConfig::load(Some(config.save()));

    assert_eq!(restored.default_extract_dir, config.default_extract_dir);
    assert_eq!(restored.overwrite_policy, config.overwrite_policy);
    assert_eq!(restored.preserve_mtime, config.preserve_mtime);
    assert_eq!(
        restored.safety_limits.max_total_bytes,
        config.safety_limits.max_total_bytes
    );
    assert_eq!(
        restored.safety_limits.max_entries,
        config.safety_limits.max_entries
    );
    assert_eq!(
        restored.safety_limits.max_depth,
        config.safety_limits.max_depth
    );
    assert_eq!(
        restored.nested_buffer_threshold,
        config.nested_buffer_threshold
    );
    assert_eq!(restored.filename_encoding, config.filename_encoding);
    assert_eq!(restored.recent_files, config.recent_files);
}

#[test]
fn unknown_strings_fall_back_to_defaults() {
    let persisted = PersistedConfig {
        default_extract_dir: None,
        overwrite_policy: "bogus".into(),
        preserve_mtime: false,
        max_total_bytes: 1,
        max_entries: 1,
        max_depth: 1,
        nested_buffer_threshold: 1,
        filename_encoding: "bogus".into(),
        recent_files: vec!["/tmp/x.zip".into(), "".into()],
    };
    let restored = AppConfig::load(Some(persisted));
    assert_eq!(restored.overwrite_policy, OverwritePolicy::Ask);
    assert_eq!(restored.filename_encoding, FilenameEncoding::Auto);
    // Empty strings are dropped; valid paths survive.
    assert_eq!(restored.recent_files, vec!["/tmp/x.zip".to_string()]);
}

#[test]
fn save_then_load_roundtrips() {
    let config = AppConfig {
        default_extract_dir: None,
        overwrite_policy: OverwritePolicy::Newer,
        preserve_mtime: true,
        safety_limits: SafetyLimits::default(),
        nested_buffer_threshold: 64 * 1024 * 1024,
        filename_encoding: FilenameEncoding::Forced(Codepage::ShiftJis),
        recent_files: vec!["/tmp/recent.7z".to_string()],
    };
    let loaded = AppConfig::load(Some(config.save()));
    assert_eq!(loaded.overwrite_policy, OverwritePolicy::Newer);
    assert_eq!(
        loaded.filename_encoding,
        FilenameEncoding::Forced(Codepage::ShiftJis)
    );
    assert_eq!(loaded.recent_files, config.recent_files);
    assert_eq!(config.save().filename_encoding, "shift-jis");
}

#[test]
fn load_missing_file_returns_defaults() {
    let loaded = AppConfig::load(None);
    let defaults = AppConfig::default();
    assert_eq!(loaded.overwrite_policy, defaults.overwrite_policy);
    assert_eq!(loaded.preserve_mtime, defaults.preserve_mtime);
    assert_eq!(loaded.filename_encoding, defaults.filename_encoding);
    assert_eq!(loaded.default_extract_dir, defaults.default_extract_dir);
    assert_eq!(
        loaded.nested_buffer_threshold,
        defaults.nested_buffer_threshold
    );
}

#[test]
fn tags_lead_back_to_what_they_stand_for() {
    for p in [
        OverwritePolicy::Ask,
        OverwritePolicy::Always,
        OverwritePolicy::Never,
        OverwritePolicy::Newer,
    ] {
        assert_eq!(str_to_overwrite(overwrite_to_str(p)), Some(p));
    }
    for e in [
        FilenameEncoding::Auto,
        FilenameEncoding::Forced(Codepage::Utf8),
        FilenameEncoding::Forced(Codepage::Gbk),
        FilenameEncoding::Forced(Codepage::ShiftJis),
        FilenameEncoding::Forced(Codepage::Big5),
        FilenameEncoding::Forced(Codepage::Cp437),
    ] {
        assert_eq!(str_to_encoding(encoding_to_str(e)), Some(e));
    }
    assert_eq!(str_to_overwrite("Ask"), None);
    assert_eq!(str_to_encoding(""), None);
}

#[test]
fn root_children_include_implied_dirs() {
    let kids = children_of(&entries(), None);
    let names: Vec<&str> = kids.iter().map(|e| e.path.as_str()).collect();
    // dirs first, then files, alphabetical
    assert_eq!(names, vec!["dir", "empty", "a.txt"]);
}

#[test]
fn nested_children_include_implied_dirs() {
    let focus = path("dir");
    let kids = children_of(&entries(), Some(&focus));
    let names: Vec<&str> = kids.iter().map(|e| e.path.as_str()).collect();
    assert_eq!(names, vec!["dir/sub", "dir/b.txt"]);
}

#[test]
fn explicit_dir_beats_implied_dir() {
    let list = vec![
        meta("x/y.txt", NodeKind::File, Some(1)),
        meta("x", NodeKind::Dir, Some(0)),
    ];
    let kids = children_of(&list, None);
    assert_eq!(kids.len(), 1);
    assert_eq!(kids[0].kind, NodeKind::Dir);
    assert_eq!(kids[0].uncompressed_size, Some(0));
}

#[test]
fn the_last_of_equal_paths_is_listed() {
    let list = vec![
        meta("x", NodeKind::File, Some(1)),
        meta("Z", NodeKind::File, Some(9)),
        meta("x", NodeKind::File, Some(2)),
        meta("é", NodeKind::File, Some(3)),
        meta("d/e/f", NodeKind::File, Some(4)),
    ];
    let kids = children_of(&list, None);
    let names: Vec<&str> = kids.iter().map(|e| e.path.as_str()).collect();
    assert_eq!(names, ["d", "Z", "x", "é"]);
    assert_eq!(kids[2].uncompressed_size, Some(2));
    assert_eq!(kids[0].raw_name, b"d");
    assert_eq!(kids[0].kind, NodeKind::Dir);
    // A path that merely begins alike is no child.
    let focus = path("d");
    let kids = children_of(&[meta("de/f", NodeKind::File, None)], Some(&focus));
    assert!(kids.is_empty());
}

#[test]
fn tree_rows_respect_expansion() {
    let rows = tree_rows(&entries(), &[]);
    assert_eq!(rows.len(), 3);
    assert_eq!(rows[0].depth, 0);

    let expanded = vec![path("dir")];
    let rows = tree_rows(&entries(), &expanded);
    assert_eq!(rows.len(), 5);
    // The expanded dir's children are pushed at depth 1.
    assert_eq!(rows.iter().filter(|r| r.depth == 1).count(), 2);
    assert!(rows.iter().any(|r| r.entry.path.as_str() == "dir/b.txt"));
}

#[test]
fn tree_rows_follow_their_directory() {
    let expanded = vec![path("dir"), path("dir/sub"), path("not/there")];
    let rows = tree_rows(&entries(), &expanded);
    let shown: Vec<(usize, &str)> = rows
        .iter()
        .map(|r| (r.depth, r.entry.path.as_str()))
        .collect();
    assert_eq!(
        shown,
        [
            (0, "dir"),
            (1, "dir/sub"),
            (2, "dir/sub/c.txt"),
            (1, "dir/b.txt"),
            (0, "empty"),
            (0, "a.txt"),
        ]
    );
}

#[test]
fn format_bytes_units() {
    assert_eq!(format_bytes(0), "0 B");
    assert_eq!(format_bytes(1023), "1023 B");
    assert_eq!(format_bytes(1024), "1.0 KB");
    assert_eq!(format_bytes(5 * 1024 * 1024), "5.0 MB");
}

#[test]
fn format_bytes_agrees_with_floating_point() {
    let units = ["B", "KB", "MB", "GB", "TB"];
    let mut samples: Vec<u64> = vec![
        1536,
        1126,
        1127,
        1_048_575,
        1_073_741_823,
        1_099_511_627_775,
        u64::MAX,
        u64::MAX / 3,
        (1 << 53) + 1,
        (1 << 53) + 3,
        (1 << 60) - 1,
        1280,
        1331,
        1997,
    ];
    let mut x: u64 = 0x9e37_79b9_7f4a_7c15;
    for shift in 0..64 {
        x = x.wrapping_mul(6_364_136_223_846_793_005).wrapping_add(1);
        samples.push(x >> shift);
        samples.push((1 << shift) + (1 << (shift / 2)));
    }
    for bytes in samples {
        let mut value = bytes as f64;
        let mut unit = 0;
        while value >= 1024.0 && unit < 4 {
            value /= 1024.0;
            unit += 1;
        }
        let expected = if unit == 0 {
            format!("{value:.0} {}", units[unit])
        } else {
            format!("{value:.1} {}", units[unit])
        };
        assert_eq!(format_bytes(bytes), expected, "{bytes}");
    }
}

#[test]
fn sizes_and_kinds_have_labels() {
    assert_eq!(size_label(&meta("a", NodeKind::File, Some(2048))), "2.0 KB");
    assert_eq!(size_label(&meta("a", NodeKind::Dir, None)), "—");
    assert_eq!(kind_label(NodeKind::File), "File");
    assert_eq!(kind_label(NodeKind::Dir), "Folder");
    assert_eq!(kind_label(NodeKind::Archive), "Archive");
    assert_eq!(kind_label(NodeKind::Symlink), "Symlink");
}

#[test]
fn file_icon_maps_kinds_and_extensions() {
    // Dir / archive / symlink kinds.
    assert_eq!(
        file_icon(&meta("dir/", NodeKind::Dir, None)),
        (Icon::Folder, "icon-type-dir")
    );
    assert_eq!(
        file_icon(&meta("pkg.zip", NodeKind::Archive, None)),
        (Icon::FileArchive, "icon-type-archive")
    );
    assert_eq!(
        file_icon(&meta("link", NodeKind::Symlink, None)),
        (Icon::File, "icon-type-default")
    );
    // Extensions: archives / code / image / text / default.
    assert_eq!(
        file_icon(&meta("a.7z", NodeKind::File, None)),
        (Icon::FileArchive, "icon-type-archive")
    );
    assert_eq!(
        file_icon(&meta("run.exe", NodeKind::File, None)),
        (Icon::FileCode, "icon-type-code")
    );
    assert_eq!(
        file_icon(&meta("UPPER.PNG", NodeKind::File, None)),
        (Icon::FileImage, "icon-type-image")
    );
    assert_eq!(
        file_icon(&meta("notes.md", NodeKind::File, None)),
        (Icon::FileText, "icon-type-text")
    );
    assert_eq!(
        file_icon(&meta("mystery.bin", NodeKind::File, None)),
        (Icon::File, "icon-type-default")
    );
    // No extension.
    assert_eq!(
        file_icon(&meta("README", NodeKind::File, None)),
        (Icon::File, "icon-type-default")
    );
}

#[test]
fn icons_have_paths() {
    assert_eq!(icon_paths(Icon::ChevronRight), &["m9 18 6-6-6-6"]);
    assert_eq!(icon_paths(Icon::FileArchive).len(), 6);
    assert_eq!(icon_paths(Icon::Lock)[1], "M3 11h18v10H3Z");
}

#[test]
fn time_label_formats_civil_time() {
    // 2026-01-08 11:04:05 +08:00.
    assert_eq!(format_civil(2026, 1, 8, 11, 4), "2026-01-08 11:04");
    let at = Timestamp { secs: 1_767_841_445, nanos: 0 };
    assert_eq!(time_label(Some(at), 8 * 3600), "2026-01-08 11:04");
    assert_eq!(time_label(Some(at), 0), "2026-01-08 03:04");
    assert_eq!(time_label(None, 0), "—");
    assert_eq!(format_civil(-7, 2, 3, 4, 5), "-007-02-03 04:05");
    assert_eq!(
        time_label(Some(Timestamp { secs: -1, nanos: 0 }), 0),
        "1969-12-31 23:59"
    );
}

#[test]
fn time_label_reaches_the_ends_of_the_calendar() {
    let last = Timestamp { secs: 253_402_300_799, nanos: 0 };
    assert_eq!(time_label(Some(last), 0), "9999-12-31 23:59");
    assert_eq!(time_label(Some(last), -93_599), "9999-12-30 22:00");
    let first = Timestamp { secs: -377_705_116_800, nanos: 0 };
    assert_eq!(time_label(Some(first), 0), "-9999-01-01 00:00");
    assert_eq!(time_label(Some(first), 93_599), "-9999-01-02 01:59");
}

#[test]
fn searching_and_sorting_the_file_list() {
    let mut list = entries();
    list.push(meta("Zeta.TXT", NodeKind::File, Some(5)));
    let names = |es: &[EntryMeta]| -> Vec<String> {
        es.iter().map(|e| e.path.as_str().to_string()).collect()
    };
    assert_eq!(names(&filter_children(&list, None, "txt")), ["Zeta.TXT", "a.txt"]);
    assert_eq!(names(&filter_children(&list, None, "")).len(), 4);
    assert!(filter_children(&list, None, "zzz").is_empty());
    let kids = children_of(&list, None);
    assert_eq!(
        names(&sort_children(&kids, SortField::Size, SortDir::Asc)),
        ["dir", "empty", "Zeta.TXT", "a.txt"]
    );
    assert_eq!(
        names(&sort_children(&kids, SortField::Size, SortDir::Desc)),
        ["a.txt", "Zeta.TXT", "dir", "empty"]
    );
    assert_eq!(
        names(&sort_children(&kids, SortField::Name, SortDir::Desc)),
        ["empty", "dir", "a.txt", "Zeta.TXT"]
    );
    assert_eq!(
        names(&sort_children(&kids, SortField::Type, SortDir::Asc)),
        ["Zeta.TXT", "a.txt", "dir", "empty"]
    );
    let asc = cycle_sort(None, SortField::Name);
    assert_eq!(asc, Some((SortField::Name, SortDir::Asc)));
    let desc = cycle_sort(asc, SortField::Name);
    assert_eq!(desc, Some((SortField::Name, SortDir::Desc)));
    assert_eq!(cycle_sort(desc, SortField::Name), None);
    assert_eq!(
        cycle_sort(desc, SortField::Modified),
        Some((SortField::Modified, SortDir::Asc))
    );
}

#[test]
fn rows_show_what_they_stand_for() {
    let rows = tree_rows(&entries(), &[path("dir")]);
    let dir = rows.iter().find(|r| r.entry.path.as_str() == "dir").unwrap();
    let view = tree_row_view(dir, &[path("dir")]);
    assert_eq!(view.arrow, Some(Icon::ChevronDown));
    assert_eq!(view.icon, Icon::Folder);
    assert_eq!(view.row_class, "tree-row tree-row-dir");
    assert_eq!(tree_row_view(dir, &[]).arrow, Some(Icon::ChevronRight));
    let b = rows.iter().find(|r| r.entry.path.as_str() == "dir/b.txt").unwrap();
    let view = tree_row_view(b, &[]);
    assert_eq!((view.indent, view.name.as_str(), view.arrow), (18, "b.txt", None));

    let mut e = meta("dir/b.txt", NodeKind::File, Some(1536));
    e.encrypted = true;
    let row = file_row_view(&e, &[path("dir/b.txt")]);
    assert_eq!(row.name, "b.txt");
    assert_eq!(row.size, "1.5 KB");
    assert_eq!(row.row_class, "file-row file-row-selected");
    assert!(row.locked && row.is_file);
    assert!(matches!(double_click(&e), Intent::Preview { .. }));
    let d = meta("dir", NodeKind::Dir, None);
    assert_eq!(file_row_view(&d, &[]).row_class, "file-row file-row-dir");
    assert!(matches!(double_click(&d), Intent::Enter { .. }));
    assert!(has_sidebar(&entries()));
    assert!(!has_sidebar(&[meta("a", NodeKind::File, None)]));
}

#[test]
fn toggling_twice_restores_the_selection() {
    let mut set = vec![path("a"), path("b")];
    toggle(&mut set, &path("c"));
    assert_eq!(set, [path("a"), path("b"), path("c")]);
    toggle(&mut set, &path("a"));
    assert_eq!(set, [path("b"), path("c")]);
    toggle(&mut set, &path("c"));
    assert_eq!(set, [path("b")]);
}

#[test]
fn summaries_add_up() {
    let mut list = entries();
    assert_eq!(archive_summary(&list), (4, 60, 0));
    assert_eq!(summary_text(true, &list), "4 items · 60 B");
    assert_eq!(summary_text(false, &list), "");
    list[0].compressed_size = Some(2048);
    assert_eq!(summary_text(true, &list), "4 items · 60 B (compressed 2.0 KB)");
    let sel = [path("a.txt"), path("dir/b.txt")];
    assert_eq!(selection_summary(&list, &sel), (2, 30));
    assert_eq!(selection_text(&list, &sel), "2 selected · 30 B");
    assert_eq!(selection_text(&list, &[]), "");
    assert_eq!(extract_label(0), "Extract all");
    assert_eq!(extract_label(3), "Extract (3 selected)");
    list[1].uncompressed_size = Some(u64::MAX);
    assert_eq!(archive_summary(&list).1, u64::MAX);
}

#[test]
fn progress_is_a_percentage() {
    let at = |done, total| ProgressUpdate {
        current: None,
        bytes_done: done,
        bytes_total: total,
        entries_done: 0,
    };
    assert_eq!(progress_percent(&at(0, Some(10))), 0);
    assert_eq!(progress_percent(&at(1, Some(3))), 33);
    assert_eq!(progress_percent(&at(11, Some(10))), 100);
    assert_eq!(progress_percent(&at(5, Some(0))), 0);
    assert_eq!(progress_percent(&at(5, None)), 0);
    assert_eq!(progress_percent(&at(u64::MAX - 1, Some(u64::MAX))), 99);
}

#[test]
fn hints_and_defaults() {
    assert_eq!(
        overwrite_hint(OverwritePolicy::Never),
        "Skip existing files and leave them untouched."
    );
    assert_eq!(
        encoding_hint(FilenameEncoding::Forced(Codepage::Big5)),
        "Decode legacy Traditional-Chinese names (Big5)."
    );
    assert_eq!(restore_defaults().len(), 3);
    assert!(has_mangled_names(&[meta("a\u{fffd}", NodeKind::File, None)]));
    assert!(!has_mangled_names(&entries()));
}

#[test]
fn events_fold_into_the_view() {
    let mut state = ViewState::new(AppConfig::default());
    assert_eq!(state.status, "No archive open.");
    state.selection = vec![path("x")];
    state.password_prompt = Some(PasswordPrompt { path: "p".into(), error: None });
    match state.apply_event(Event::Opened { name: "a.zip".into(), entries: entries() }) {
        Effect::SetTitle(t) => assert_eq!(t, "a.zip — hajizip"),
        other => panic!("unexpected {other:?}"),
    }
    assert!(state.has_archive && state.selection.is_empty() && state.password_prompt.is_none());
    assert_eq!(state.status, "Archive opened.");
    state.apply_event(Event::WrongPassword { path: "a.zip".into() });
    assert_eq!(
        state.password_prompt.as_ref().unwrap().error.as_deref(),
        Some("Wrong password, try again.")
    );
    state.close_modals();
    assert!(state.password_prompt.is_none());
    state.apply_event(Event::Progress(ProgressUpdate::default()));
    assert!(state.progress.is_some());
    let report = ExtractReport {
        extracted: 3,
        skipped: 1,
        failed: vec![(path("x"), Error::Cancelled)],
        total_bytes: 70,
    };
    state.apply_event(Event::Done(report));
    assert!(state.progress.is_none());
    assert_eq!(
        state.status,
        "Extracted 3 entries (70 bytes), skipped 1, failed 1."
    );
    state.apply_event(Event::Unsupported("x".into()));
    assert_eq!(state.status, "Not supported yet: x");
    state.apply_event(Event::Error("y".into()));
    assert_eq!(state.status, "Error: y");
    state.apply_event(Event::Cancelled);
    assert_eq!(state.status, "Operation cancelled.");
    assert!(matches!(
        state.apply_event(Event::PreviewReady { temp_path: "/t".into() }),
        Effect::OpenPreview { .. }
    ));
    state.preview_opened(Ok("/t".into()));
    assert_eq!(state.status, "Opened preview: /t");
    state.preview_opened(Err("no".into()));
    assert_eq!(state.status, "Error opening preview: no");
    assert!(matches!(
        state.apply_event(Event::ConfigChanged(AppConfig::default())),
        Effect::SaveConfig
    ));
}
