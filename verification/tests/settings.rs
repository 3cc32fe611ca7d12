//! Config, keys, panels and dialogs.

use pfnc::config::{
    Config, ConfigError, ConfigFile, ConnectionProfileConfig, KeyBindings, SaveStep,
};
use pfnc::job::{CancellationToken, JobError, JobOutcome, JobProgress};
use pfnc::jobs::JobManager;
use pfnc::keymap::{parse_key_name, KeyCode, Keymap};
use pfnc::mode::{
    ConfirmDialog, ConfirmPurpose, ConnectForm, EditableText, JobKind, ProgressState, SavedProfileSummary,
    SyncPlanCell, TextInputPrompt, TextInputPurpose,
};
use pfnc::panel::PanelState;
use pfnc::path::VfsPath;
use pfnc::registry::{connection_info_for, location_uses_profile, quic_available_for, RemoteBackend, VfsRegistry};
use pfnc::vfs::{ConnectionInfo, EntryKind, EntryMeta, Location, QuicConnectionInfo, VfsError};
use pfnc::view::{
    format_bytes, format_perms, format_size, render_confirm, render_connect, render_fkey_bar, render_help,
    render_panel, render_progress, render_text_input, LineKind, RowStyle,
};

#[test]
fn missing_file_loads_as_default() {
    let config = Config::load(ConfigFile::Missing).unwrap();
    let default = Config::default();
    assert_eq!(config.general, default.general);
    assert!(config.general.confirm_delete);
    assert!(!config.general.show_hidden);
    assert!(!config.general.sync_delete_extraneous);
    assert!(!config.general.enable_quic_fast_path);
    assert_eq!(config.keybindings.len(), 0);
    assert!(config.profiles.is_empty());
    assert!(config.session.left.is_none() && config.session.right.is_none());
}

#[test]
fn malformed_existing_file_is_an_error_not_silently_defaulted() {
    let path = VfsPath::new("/home/me/.config/pfnc/config.toml");
    let e = Config::load(ConfigFile::Read { path, parsed: Err("expected newline".to_string()) }).unwrap_err();
    assert_eq!(e.message(), "failed to parse /home/me/.config/pfnc/config.toml: expected newline");
    let path = VfsPath::new("/c");
    let e = Config::load(ConfigFile::Unreadable { path, why: "denied".to_string() }).unwrap_err();
    assert_eq!(e.message(), "failed to read /c: denied");
    let e = Config::load(ConfigFile::NoDirectory).unwrap_err();
    assert_eq!(e.message(), "could not determine the config directory");
}

#[test]
fn saving_goes_step_by_step_and_stops_at_the_first_failure() {
    let config = Config::default();
    assert!(matches!(config.save(None), Err(ConfigError::NoConfigDir)));
    let mut save = config.save(Some(VfsPath::new("/c"))).unwrap();
    for _ in 0..3 {
        assert!(save.on_result(Ok(())).is_ok());
    }
    assert!(matches!(save.step, SaveStep::Done));
    let mut save = config.save(Some(VfsPath::new("/c"))).unwrap();
    assert_eq!(save.on_result(Err("full".to_string())).unwrap_err().message(), "failed to write /c: full");
    let mut save = config.save(Some(VfsPath::new("/c"))).unwrap();
    assert!(save.on_result(Ok(())).is_ok());
    assert_eq!(save.on_result(Err("odd".to_string())).unwrap_err().message(), "failed to serialize config: odd");
}

#[test]
fn upsert_profile_replaces_existing_id() {
    let mut config = Config::default();
    config.upsert_profile(ConnectionProfileConfig {
        id: "a".into(),
        host: "old".into(),
        port: 22,
        username: "u".into(),
    });
    config.upsert_profile(ConnectionProfileConfig {
        id: "a".into(),
        host: "new".into(),
        port: 2222,
        username: "u".into(),
    });
    assert_eq!(config.profiles.len(), 1);
    assert_eq!(config.profiles[0].host, "new");
    config.upsert_profile(ConnectionProfileConfig {
        id: "b".into(),
        host: "other".into(),
        port: 22,
        username: "u".into(),
    });
    assert_eq!(config.profiles.len(), 2);
    assert_eq!(config.profiles[1].host, "other");
}

#[test]
fn defaults_resolve_to_expected_keys() {
    let keymap = Keymap::default();
    assert_eq!(keymap.action_for(KeyCode::F(5)), Some("copy"));
    assert_eq!(keymap.action_for(KeyCode::F(10)), Some("quit"));
    assert_eq!(keymap.action_for(KeyCode::F(1)), None);
}

fn overrides(action: &str, key: &str) -> KeyBindings {
    let mut bindings = KeyBindings::new();
    bindings.insert(action.to_string(), key.to_string());
    bindings
}

#[test]
fn override_replaces_default_binding() {
    let keymap = Keymap::from_overrides(&overrides("copy", "F2"));
    assert_eq!(keymap.action_for(KeyCode::F(2)), Some("copy"));
    assert_eq!(keymap.action_for(KeyCode::F(5)), None);
}

#[test]
fn invalid_override_falls_back_to_default() {
    let keymap = Keymap::from_overrides(&overrides("copy", "NotAKey!!"));
    assert_eq!(keymap.action_for(KeyCode::F(5)), Some("copy"));
}

#[test]
fn parses_function_and_named_keys() {
    assert_eq!(parse_key_name("F5"), Some(KeyCode::F(5)));
    assert_eq!(parse_key_name("f12"), Some(KeyCode::F(12)));
    assert_eq!(parse_key_name("Esc"), Some(KeyCode::Esc));
    assert_eq!(parse_key_name("q"), Some(KeyCode::Char('q')));
    assert_eq!(parse_key_name(""), None);
    assert_eq!(parse_key_name(" Space "), Some(KeyCode::Char(' ')));
    assert_eq!(parse_key_name("F256"), None);
    assert_eq!(parse_key_name("f"), Some(KeyCode::Char('f')));
}

#[test]
fn cancellation_token_reflects_cancel() {
    let token = CancellationToken::new();
    assert!(!token.is_cancelled());
    token.cancel();
    assert!(token.is_cancelled());
}

#[test]
fn clones_of_a_token_share_its_flag() {
    let token = CancellationToken::new();
    let other = token.clone();
    other.cancel();
    assert!(token.is_cancelled());
}

#[test]
fn outcomes_of_jobs() {
    assert!(matches!(JobOutcome::from_result(&Ok(())), JobOutcome::Completed));
    assert!(matches!(JobOutcome::from_result(&Err(JobError::Cancelled)), JobOutcome::Cancelled));
    let failed = JobOutcome::from_result(&Err(JobError::Vfs(VfsError::NotFound(VfsPath::new("/x")))));
    assert!(matches!(failed, JobOutcome::Failed(why) if why == "not found: /x"));
    assert!(matches!(JobOutcome::panicked(), JobOutcome::Failed(why) if why == "job panicked"));
}

#[test]
fn errors_in_words() {
    let p = VfsPath::new("/x");
    assert_eq!(VfsError::PermissionDenied(p.clone()).message(), "permission denied: /x");
    assert_eq!(VfsError::AlreadyExists(p).message(), "already exists: /x");
    assert_eq!(VfsError::ConnectionLost("gone".to_string()).message(), "connection lost: gone");
    assert_eq!(VfsError::Unsupported("link").message(), "unsupported operation: link");
    assert_eq!(VfsError::Io("broken".to_string()).message(), "broken");
    assert_eq!(JobError::Cancelled.message(), "cancelled");
}

#[test]
fn jobs_are_numbered_and_cleared_away() {
    let mut jobs = JobManager::new();
    let a = jobs.spawn("Copy");
    let b = jobs.spawn("Delete");
    assert_ne!(a, b);
    assert_eq!(jobs.label(a).map(|l| l.as_str()), Some("Copy"));
    let token = jobs.token(b).unwrap();
    assert!(jobs.cancel(b));
    assert!(token.is_cancelled());
    assert!(!jobs.token(a).unwrap().is_cancelled());
    jobs.reap(b);
    assert!(!jobs.cancel(b));
    assert_eq!(jobs.label(a).map(|l| l.as_str()), Some("Copy"));
}

fn panel_with_entries(count: usize) -> PanelState {
    let mut panel = PanelState::new(Location::Local, VfsPath::new("/"));
    panel.entries = (0..count)
        .map(|i| EntryMeta {
            name: format!("f{i}"),
            path: VfsPath::new(&format!("/f{i}")),
            kind: EntryKind::File,
            size: 0,
            modified: None,
            permissions: None,
            owner: None,
            group: None,
        })
        .collect();
    panel
}

#[test]
fn sync_viewport_does_nothing_when_everything_fits() {
    let mut panel = panel_with_entries(5);
    panel.cursor = 4;
    panel.sync_viewport(10);
    assert_eq!(panel.scroll_offset, 0);
}

#[test]
fn sync_viewport_scrolls_down_to_keep_cursor_visible() {
    let mut panel = panel_with_entries(50);
    panel.cursor = 20;
    panel.sync_viewport(10);
    // Cursor must be the last visible row, not off-screen.
    assert_eq!(panel.scroll_offset, 11);
    assert!(panel.cursor >= panel.scroll_offset && panel.cursor < panel.scroll_offset + 10);
}

#[test]
fn sync_viewport_scrolls_up_minimally_rather_than_recentering() {
    let mut panel = panel_with_entries(50);
    panel.cursor = 30;
    panel.sync_viewport(10); // scrolls down first
    assert_eq!(panel.scroll_offset, 21);

    // Move up by one, just above the visible window's top edge.
    panel.cursor = 20;
    panel.sync_viewport(10);
    assert_eq!(panel.scroll_offset, 20, "should scroll up by exactly 1, not jump to re-center");
}

#[test]
fn sync_viewport_never_leaves_blank_trailing_space() {
    let mut panel = panel_with_entries(15);
    panel.cursor = 5;
    panel.sync_viewport(10);
    // Only 15 entries total; offset must not exceed 5 (15 - 10) even though
    // the cursor alone wouldn't require scrolling.
    assert_eq!(panel.scroll_offset, 0);

    panel.cursor = 14;
    panel.sync_viewport(10);
    assert_eq!(panel.scroll_offset, 5);
}

#[test]
fn toggling_twice_leaves_the_selection_as_it_was() {
    let mut panel = panel_with_entries(3);
    panel.toggle(VfsPath::new("/f1"));
    assert!(panel.is_selected(&VfsPath::new("/f1")));
    assert!(panel.is_selected(&VfsPath::new("//f1/")), "paths are compared, not texts");
    panel.toggle(VfsPath::new("/f1/"));
    assert!(panel.selected.is_empty());
}

#[test]
fn location_uses_profile_is_false_for_local() {
    assert!(!location_uses_profile(&Location::Local, &"p1".to_string()));
}

#[test]
fn location_uses_profile_matches_direct_remote() {
    let location = Location::Remote { profile_id: "p1".to_string() };
    assert!(location_uses_profile(&location, &"p1".to_string()));
    assert!(!location_uses_profile(&location, &"p2".to_string()));
}

#[test]
fn location_uses_profile_recurses_through_archive() {
    let location = Location::Archive {
        base: Box::new(Location::Remote { profile_id: "p1".to_string() }),
        archive_path: VfsPath::new("/some.tar"),
    };
    assert!(location_uses_profile(&location, &"p1".to_string()));
    assert!(!location_uses_profile(&location, &"p2".to_string()));
}

#[test]
fn the_registry_knows_what_is_connected_and_opened() {
    let mut registry = VfsRegistry::new();
    let remote = Location::Remote { profile_id: "p".to_string() };
    let archive = Location::Archive { base: Box::new(remote.clone()), archive_path: VfsPath::new("/a.zip") };
    assert!(registry.resolve(&Location::Local).is_ok());
    assert_eq!(
        registry.resolve(&remote).unwrap_err().message(),
        "connection lost: no active connection for profile p"
    );
    assert_eq!(registry.resolve(&archive).unwrap_err().message(), "connection lost: archive not yet opened");
    assert!(registry.archive_to_open(&archive).is_err());
    assert!(matches!(registry.archive_to_open(&Location::Local), Err(VfsError::Unsupported(_))));
    let info = ConnectionInfo { protocol: "SFTP", remote_os: None, quic: None };
    registry.connect_and_cache(RemoteBackend { profile_id: "p".to_string(), fast: false, info });
    assert!(registry.resolve(&remote).is_ok());
    assert!(registry.archive_to_open(&archive).is_ok());
    assert!(!quic_available_for(&registry, &archive));
    let info = ConnectionInfo { protocol: "SFTP", remote_os: Some("Linux".to_string()), quic: None };
    registry.update_remote(&"p".to_string(), true, info);
    assert!(quic_available_for(&registry, &archive));
    assert_eq!(connection_info_for(&registry, &archive).unwrap().remote_os.as_deref(), Some("Linux"));
    assert!(connection_info_for(&registry, &Location::Local).is_none());
    assert_eq!(registry.open_archive_and_cache(archive.clone()), 0);
    assert_eq!(registry.open_archive_and_cache(archive.clone()), 0);
    assert!(registry.resolve(&archive).is_ok());
    let text = Location::Archive { base: Box::new(Location::Local), archive_path: VfsPath::new("/a.txt") };
    assert_eq!(
        registry.archive_to_open(&text).unwrap_err().message(),
        "unsupported operation: not a recognized archive format"
    );
}

#[test]
fn lines_are_edited_by_character() {
    let mut line = EditableText::new("aé");
    line.insert_char('z');
    assert_eq!((line.value.as_str(), line.cursor), ("aéz", 3));
    line.move_left();
    line.move_left();
    line.backspace();
    assert_eq!((line.value.as_str(), line.cursor), ("éz", 0));
    line.backspace();
    assert_eq!(line.value, "éz");
    line.move_end();
    line.move_right();
    assert_eq!(line.cursor, 2);
    line.move_home();
    line.insert_char('x');
    assert_eq!((line.value.as_str(), line.cursor), ("xéz", 1));
}

#[test]
fn the_fields_of_the_form_form_a_ring() {
    let mut form = ConnectForm::new("u", vec![]);
    form.prev_field();
    assert_eq!(form.focus, 3);
    form.next_field();
    assert_eq!(form.focus, 0);
    form.focused_mut().text.insert_char('h');
    assert_eq!(form.host(), "h");
}

#[test]
fn a_plan_cell_gives_its_plan_once() {
    let mut cell = SyncPlanCell::new();
    assert!(cell.take().is_none());
    cell.set(pfnc::job::SyncPlan::of(vec![], vec![]));
    assert!(cell.take().unwrap().is_empty());
    assert!(cell.take().is_none());
}

fn sample_panel() -> PanelState {
    let mut panel = PanelState::new(Location::Local, VfsPath::new("/home/pascal"));
    panel.entries = vec![
        EntryMeta {
            name: "Documents".into(),
            path: VfsPath::new("/home/pascal/Documents"),
            kind: EntryKind::Dir,
            size: 0,
            modified: None,
            permissions: Some(0o755),
            owner: None,
            group: None,
        },
        EntryMeta {
            name: "notes.txt".into(),
            path: VfsPath::new("/home/pascal/notes.txt"),
            kind: EntryKind::File,
            size: 42,
            modified: None,
            permissions: Some(0o644),
            owner: None,
            group: None,
        },
    ];
    panel.cursor = 1;
    panel
}

#[test]
fn renders_dual_panels_with_fkey_bar() {
    let mut left = sample_panel();
    let mut right = sample_panel();
    right.location = Location::Local;
    right.cwd = VfsPath::new("/tmp");
    let l = render_panel(&mut left, 18, true);
    let r = render_panel(&mut right, 18, false);
    let bar = render_fkey_bar();

    assert!(l.title.contains("/home/pascal"));
    assert!(r.title.contains("/tmp"));
    assert!(l.rows[0].name.contains("Documents"));
    assert!(bar.contains("F5"));
    assert!(bar.contains("Copy"));
    assert!(bar.contains("F8"));
    assert!(bar.contains("Delete"));
    assert_eq!((l.rows[0].name.as_str(), l.rows[0].size.as_str(), l.rows[0].perms.as_str()), ("Documents/", "<DIR>", "rwxr-xr-x"));
    assert_eq!((l.rows[1].name.as_str(), l.rows[1].size.as_str(), l.rows[1].perms.as_str()), ("notes.txt", "42B", "rw-r--r--"));
    assert_eq!(l.rows[1].style, RowStyle::Cursor);
    assert_eq!(r.rows[1].style, RowStyle::Plain);
}

#[test]
fn local_and_remote_panels_show_distinct_connection_symbols() {
    let mut left = sample_panel(); // Location::Local
    let mut right = sample_panel();
    right.location = Location::Remote { profile_id: "user@host:22".to_string() };
    let l = render_panel(&mut left, 18, true);
    let r = render_panel(&mut right, 18, false);
    assert!(l.title.contains('⌂'), "local panel should show the local glyph");
    assert!(r.title.contains('⇄'), "remote panel should show the remote glyph");
    assert_eq!(r.title, " ⇄ remote:user@host:22:/home/pascal ");
}

#[test]
fn renders_help_with_github_url() {
    let rendered = render_help(&None);
    assert!(rendered.contains("pfnc"));
    assert!(rendered.contains("github.com/pascalbrax"));
}

#[test]
fn help_tells_about_the_connection() {
    let info = ConnectionInfo {
        protocol: "SFTP",
        remote_os: Some("Linux".to_string()),
        quic: Some(QuicConnectionInfo { local_port: None, remote_port: 4433, agent_pid: 12 }),
    };
    let rendered = render_help(&Some(info));
    assert!(rendered.ends_with(
        "https://github.com/pascalbrax\nActive panel connection: SFTP\nRemote OS: Linux\nQUIC fast path: enabled\n  \
         local port ? <-> remote port 4433\n  listening: pfnc-agent (pid 12)\n[any key] Close"
    ));
    let info = ConnectionInfo { protocol: "SFTP", remote_os: None, quic: None };
    let rendered = render_help(&Some(info));
    assert!(rendered.contains("Remote OS: unknown\nQUIC fast path: not available for this connection\n"));
}

fn panel_with_many_entries(count: usize, cursor: usize) -> PanelState {
    let mut panel = PanelState::new(Location::Local, VfsPath::new("/big"));
    panel.entries = (0..count)
        .map(|i| EntryMeta {
            name: format!("file{i:03}"),
            path: VfsPath::new(&format!("/big/file{i:03}")),
            kind: EntryKind::File,
            size: 0,
            modified: None,
            permissions: Some(0o644),
            owner: None,
            group: None,
        })
        .collect();
    panel.cursor = cursor;
    panel
}

#[test]
fn cursor_stays_visible_when_entries_exceed_screen_height() {
    // A short terminal: not enough rows for all 100 entries.
    let mut panel = panel_with_many_entries(100, 80);
    let rendered = render_panel(&mut panel, 12, true);
    assert!(
        rendered.rows.iter().any(|r| r.name == "file080"),
        "the entry under the cursor must be scrolled into view"
    );
    // Entries well before the scrolled window shouldn't still be shown.
    assert!(!rendered.rows.iter().any(|r| r.name == "file000"));
    assert_eq!(panel.cursor, 80, "rendering must not move the cursor itself");
    assert!(panel.scroll_offset > 0, "scroll_offset must advance once the list overflows the screen");
    assert_eq!(rendered.rows.len(), 10);
}

#[test]
fn cursor_at_top_keeps_scroll_offset_at_zero() {
    let mut panel = panel_with_many_entries(100, 0);
    let rendered = render_panel(&mut panel, 12, true);
    assert_eq!(panel.scroll_offset, 0);
    assert!(rendered.rows.iter().any(|r| r.name == "file000"));
}

/// What floating point arithmetic makes of a size.
fn by_floats(size: u64, units: [&str; 5], space: &str) -> String {
    let mut value = size as f64;
    let mut unit = 0;
    while value >= 1024.0 && unit < 4 {
        value /= 1024.0;
        unit += 1;
    }
    if unit == 0 {
        format!("{size}{space}{}", units[0])
    } else {
        format!("{value:.1}{space}{}", units[unit])
    }
}

#[test]
fn sizes_are_those_of_floating_point_arithmetic() {
    let mut sizes: Vec<u64> = vec![0, 1, 512, 1023, 1024, 1025, 1075, 1076, 1126, 1127, 1177, 1178, 10_188, u64::MAX];
    for shift in 0..64 {
        for d in 0..3 {
            sizes.push((1u64 << shift).wrapping_add(d).wrapping_sub(1));
            sizes.push((1u64 << shift).wrapping_mul(3).wrapping_add(d));
        }
    }
    let mut x: u64 = 88172645463325252;
    for i in 0..20_000 {
        x ^= x << 13;
        x ^= x >> 7;
        x ^= x << 17;
        sizes.push(x >> (i % 64));
    }
    // Halves between two tenths.
    for k in 0..2000u64 {
        sizes.push((2 * k + 1) * 1024 / 20);
        sizes.push((1u64 << 20) + k * 26214);
        sizes.push((1u64 << 52) + k * ((1u64 << 40) / 20));
    }
    for size in sizes {
        assert_eq!(format_size(size, &EntryKind::File), by_floats(size, ["B", "K", "M", "G", "T"], ""), "{size}");
        assert_eq!(format_bytes(size), by_floats(size, ["B", "KB", "MB", "GB", "TB"], " "), "{size}");
    }
    assert_eq!(format_bytes(3_565_158), "3.4 MB");
}

#[test]
fn permissions_are_written_out() {
    assert_eq!(format_perms(None), "?????????");
    assert_eq!(format_perms(Some(0o7421)), "r---w---x");
    assert_eq!(format_perms(Some(0o640)), "rw-r-----");
}

#[test]
fn dialogs_are_laid_out() {
    let dialog = ConfirmDialog { message: "Sure?".into(), purpose: ConfirmPurpose::Delete { items: vec![] } };
    assert_eq!(render_confirm(&dialog), "Sure?\n\n[y] Yes   [n/Esc] No");

    let prompt = TextInputPrompt::new("Copy to:", "/tmp", TextInputPurpose::Mkdir);
    let view = render_text_input(&prompt);
    assert_eq!((view.title.as_str(), view.text.as_str(), view.cursor_column), (" Copy to: ", "/tmp", 4));

    let mut form = ConnectForm::new(
        "me",
        vec![SavedProfileSummary { id: "x".into(), host: "h".into(), port: 22, username: "u".into() }],
    );
    form.prev_field();
    form.focused_mut().text.insert_char('p');
    form.focused_mut().text.insert_char('w');
    form.error = Some("Host is required".into());
    let view = render_connect(&form);
    let texts: Vec<&str> = view.lines.iter().map(|l| l.text.as_str()).collect();
    assert_eq!(
        texts,
        vec![
            "Host:    ",
            "Port:    22",
            "Username:me",
            "Password:**",
            "Host is required",
            "",
            "[F1] u@h:22",
            "[Tab] Next field   [Enter] Connect   [Esc] Cancel",
        ]
    );
    assert_eq!(view.lines[3].kind, LineKind::Focused);
    assert_eq!((view.cursor_row, view.cursor_column), (3, 11));
}

#[test]
fn progress_is_by_bytes_then_by_files() {
    let mut state = ProgressState {
        job_id: 1,
        title: "Copying".into(),
        progress: JobProgress::default(),
        kind: JobKind::FileOp,
    };
    let view = render_progress(&state);
    assert_eq!((view.title.as_str(), view.file.as_str(), view.done, view.total), (" Copying ", "", 0, 1));
    state.progress.files_total = 4;
    state.progress.files_done = 1;
    state.progress.current_file = Some(VfsPath::new("/f"));
    let view = render_progress(&state);
    assert_eq!((view.file.as_str(), view.done, view.total), ("/f", 1, 4));
    assert_eq!(view.counts, "1/4 files   [Esc] Cancel");
    state.progress.bytes_total = 10;
    state.progress.bytes_done = 12;
    let view = render_progress(&state);
    assert_eq!((view.done, view.total), (10, 10));
}

#[test]
fn all_bindings_are_handed_out_in_order() {
    let mut bindings = KeyBindings::new();
    for (action, key) in [("copy", "F2"), ("quit", "F4"), ("copy", "F5")] {
        bindings.insert(action.to_string(), key.to_string());
    }
    let all: Vec<(String, String)> = (0..bindings.len())
        .map(|i| bindings.entry(i).map(|(a, k)| (a.clone(), k.clone())).unwrap())
        .collect();
    let expected: Vec<(String, String)> =
        vec![("copy".into(), "F5".into()), ("quit".into(), "F4".into())];
    assert_eq!(all, expected);
    assert!(bindings.entry(2).is_none());
}

#[test]
fn cancelling_one_job_leaves_the_others_alone() {
    let mut jobs = JobManager::new();
    let (a, b) = (jobs.spawn("Copy"), jobs.spawn("Delete"));
    assert!(jobs.cancel(a));
    assert!(jobs.token(a).unwrap().is_cancelled());
    assert!(!jobs.token(b).unwrap().is_cancelled());
    assert!(!jobs.cancel(b + 1));
}
