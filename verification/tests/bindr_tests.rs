use bindr::conflicts::{conflict_label, conflict_note, duplicate_partners, duplicate_rows, row_config_key};
use bindr::dispatch::{Action, Command, MouseInput};
use bindr::filter::{filtered_indices, fuzzy_match};
use bindr::footer::{footer_segments, wrap_footer};
use bindr::frame::render_frame;
use bindr::key_input::{key_event_binding, KeyCode, KeyEvent, Modifiers};
use bindr::keybinds_data::{row, sections};
use bindr::keys::{
    apply_profile, config_text, custom_commands, default_profile, extract_keys_only, get_item, keys_editable,
    parse_config_text, remove_scalar, scalar_overrides, set_item, set_scalar,
};
use bindr::panel::{build_rows, build_rows_for_profile, build_rows_from_live_config, display_value, Row};
use bindr::profiles::{
    commit_updates_live, pick_target, profile_names, restore_rewrites_live, save_target, saved_change, toast_text, trimmed_name,
    valid_name, CommitError, SaveError, TargetError,
};
use bindr::render::{fit_line, render_row, RowHighlight};
use bindr::style::{BG_GREEN, BG_GREY, BG_RED, FG_BLACK, FG_WHITE, RED};
use bindr::tabs::{names_fit, render_tabs, styled_tab, tab_at_column, tab_label, visible_tab_range};
use bindr::undo_file::{undo_document, undo_from_document, UndoError};
use bindr::view_session::{selected_conflict, viewed_at_start, RowSource};
use bindr::view_state::{default_binding, EditMode, Record, UndoEntry, ViewState};
use std::collections::HashSet;
use toml_edit::DocumentMut;

fn document(text: &str) -> DocumentMut {
    text.parse().unwrap()
}

fn entry(config_key: Option<&str>, key: &str, description: &str) -> Row {
    Row::Entry {
        config_key: config_key.map(|k| k.to_string()),
        key: key.to_string(),
        description: description.to_string(),
    }
}

fn no_mods() -> Modifiers {
    Modifiers { control: false, alt: false, super_key: false, shift: false }
}

fn ctrl() -> Modifiers {
    Modifiers { control: true, alt: false, super_key: false, shift: false }
}

fn press(code: KeyCode) -> KeyEvent {
    KeyEvent::new(code, no_mods())
}

fn test_state(rows: Vec<Row>, dirty: bool) -> ViewState {
    let original: DocumentMut = "[keys]\none = \"prefix+a\"\n".parse().unwrap();
    let working: DocumentMut = if dirty {
        "[keys]\none = \"prefix+b\"\n".parse().unwrap()
    } else {
        original.clone()
    };
    ViewState {
        profiles: vec!["work".to_string()],
        viewed_profile: Some("work".to_string()),
        filtered: (0..rows.len()).collect(),
        rows,
        active_profile: "work".to_string(),
        offset: 0,
        query: String::new(),
        searching: false,
        editing: Some(EditMode::Selecting { row: 0 }),
        pending_binding: None,
        manual_binding: String::new(),
        saved_row: None,
        last_undo: None,
        original_profile: Some(original),
        working_profile: Some(working),
        staged_undo: None,
        duplicates_only: false,
    }
}

fn conflict_rows() -> Vec<Row> {
    vec![
        Row::Section("panes".to_string()),
        entry(Some("focus_pane_up"), "prefix+k", "focus pane up"),
        entry(Some("other"), "prefix+o", "other"),
        Row::Section("custom".to_string()),
        entry(None, "prefix+k", "command bar"),
    ]
}

fn browsing_state(profiles: &[&str], viewed: &str, active: &str) -> ViewState {
    let live = document("[keys]\nprefix = \"ctrl+b\"\n");
    let rows = build_rows_from_live_config(&live);
    ViewState::new(
        profiles.iter().map(|p| p.to_string()).collect(),
        active.to_string(),
        Some(viewed.to_string()),
        rows,
        None,
    )
}

// ---------------------------------------------------------------------------
// The panel, conflicts, editing and `[keys]` edits
// ---------------------------------------------------------------------------

#[test]
fn footer_keys_use_a_remote_safe_emphasis() {
    let lines = wrap_footer(&footer_segments(false, false, false, false, false, false), 76);
    assert!(!lines.is_empty());
    assert!(lines.iter().all(|line| line.contains(FG_WHITE)));
}

#[test]
fn key_event_binding_uses_herdr_names() {
    let key = KeyEvent::new(
        KeyCode::Char('R'),
        Modifiers { control: true, alt: false, super_key: false, shift: true },
    );
    assert_eq!(key_event_binding(&key).as_deref(), Some("ctrl+shift+r"));
}

#[test]
fn shifted_punctuation_is_not_saved_with_a_redundant_shift_modifier() {
    let key = KeyEvent::new(
        KeyCode::Char('?'),
        Modifiers { control: false, alt: false, super_key: false, shift: true },
    );
    assert_eq!(key_event_binding(&key).as_deref(), Some("?"));
}

#[test]
fn edit_row_highlight_uses_the_mode_color() {
    let row = entry(Some("new_tab"), "prefix+c", "open a tab");

    let listening = render_row(&row, 76, Some(RowHighlight::Listening), None);
    assert!(listening.contains(BG_GREY));
    assert!(listening.contains(FG_WHITE));

    let saved = render_row(&row, 76, Some(RowHighlight::Saved), None);
    assert!(saved.contains(BG_GREEN));
    assert!(saved.contains(FG_BLACK));
}

#[test]
fn duplicate_rows_include_both_bindings_and_ignore_unset_rows() {
    let rows = vec![
        entry(Some("one"), "prefix+x", "one"),
        entry(Some("two"), "PREFIX+X", "two"),
        entry(None, "unset", "three"),
    ];
    let conflicts = duplicate_rows(&rows);
    assert_eq!(conflicts, HashSet::from([0, 1]));
}

#[test]
fn duplicate_row_text_and_selector_use_ansi_red() {
    let row = entry(Some("one"), "prefix+x", "one");
    let text = render_row(&row, 76, None, Some("two"));
    let selector = render_row(&row, 76, Some(RowHighlight::Conflict), Some("two"));
    assert!(text.contains(RED));
    assert!(selector.contains(BG_RED));
}

#[test]
fn unresolved_duplicate_blocks_saving_but_not_leaving() {
    let rows = vec![entry(Some("one"), "prefix+x", "one"), entry(Some("two"), "prefix+x", "two")];
    let mut state = test_state(rows, true);
    state.request_leave_edit();
    assert!(matches!(state.editing, Some(EditMode::Confirming { .. })));
    let commit = state.prepare_save();
    assert!(!commit);
    assert!(matches!(state.editing, Some(EditMode::Selecting { .. })));
}

#[test]
fn pending_changes_require_save_confirmation_before_leaving() {
    let rows = vec![entry(Some("one"), "prefix+b", "one")];
    let mut state = test_state(rows, true);
    state.request_leave_edit();
    assert!(matches!(state.editing, Some(EditMode::Confirming { .. })));
}

#[test]
fn conflict_note_names_the_partner() {
    let rows = conflict_rows();
    let partners = duplicate_partners(&rows);
    assert_eq!(conflict_note(&rows, &partners[&1]), "command bar (custom)");
    assert_eq!(conflict_note(&rows, &partners[&4]), "focus pane up");
}

#[test]
fn duplicates_only_filter_keeps_conflicts_with_headers() {
    let mut state = test_state(conflict_rows(), false);
    state.editing = Some(EditMode::Selecting { row: 1 });
    state.toggle_duplicates_only(76, 22);
    assert_eq!(state.filtered, vec![0, 1, 3, 4]);
    state.toggle_duplicates_only(76, 22);
    assert_eq!(state.filtered, vec![0, 1, 2, 3, 4]);
}

#[test]
fn next_duplicate_selects_editable_conflict() {
    let mut state = test_state(conflict_rows(), false);
    state.editing = Some(EditMode::Selecting { row: 2 });
    state.next_duplicate(76, 22);
    assert!(matches!(state.editing, Some(EditMode::Selecting { row: 1 })));
}

#[test]
fn profile_application_preserves_custom_commands_and_other_sections() {
    let mut live = document(
        r#"
[keys]
prefix = "ctrl+b"
new_tab = "prefix+c"

[[keys.command]]
key = "prefix+alt+g"
type = "popup"
command = "lazygit"

[theme]
name = "catppuccin"
"#,
    );
    let profile = document(
        r#"
[keys]
prefix = "ctrl+a"
close_tab = "prefix+shift+x"
"#,
    );

    apply_profile(&mut live, &profile);

    assert_eq!(live["keys"]["prefix"].as_str(), Some("ctrl+a"));
    assert_eq!(live["keys"]["close_tab"].as_str(), Some("prefix+shift+x"));
    assert!(live["keys"].as_table().unwrap().get("new_tab").is_none());
    let command = live["keys"]["command"].as_array_of_tables().expect("custom command array");
    let command = command.iter().next().expect("first custom command");
    assert_eq!(command["command"].as_str(), Some("lazygit"));
    assert_eq!(live["theme"]["name"].as_str(), Some("catppuccin"));
}

#[test]
fn scalar_updates_are_reversible_without_touching_other_keys() {
    let mut doc = document(
        r#"
[keys]
prefix = "ctrl+b"
new_tab = "prefix+c"
"#,
    );
    let previous = get_item(&doc, "prefix");

    set_scalar(&mut doc, "prefix", "ctrl+a");
    assert_eq!(doc["keys"]["prefix"].as_str(), Some("ctrl+a"));
    assert_eq!(doc["keys"]["new_tab"].as_str(), Some("prefix+c"));

    set_item(&mut doc, "prefix", previous.expect("prefix exists"));
    assert_eq!(doc["keys"]["prefix"].as_str(), Some("ctrl+b"));
}

#[test]
fn default_profile_contains_only_neutral_builtin_bindings() {
    let profile = default_profile();
    assert_eq!(profile["keys"]["prefix"].as_str(), Some("ctrl+b"));
    assert_eq!(profile["keys"]["new_tab"].as_str(), Some("prefix+c"));
    assert!(profile["keys"].get("open_worktree").is_none());
    assert!(profile["keys"].get("command").is_none());
}

// ---------------------------------------------------------------------------
// Laws on concrete values
// ---------------------------------------------------------------------------

#[test]
fn partners_are_mutual() {
    let rows = conflict_rows();
    let partners = duplicate_partners(&rows);
    assert_eq!(partners[&1], vec![4]);
    assert_eq!(partners[&4], vec![1]);
    assert!(!partners.contains_key(&2));
}

#[test]
fn search_shows_exactly_the_matching_entries() {
    let rows = vec![
        Row::Section("panes".to_string()),
        entry(Some("focus_pane_up"), "prefix+k", "focus pane up"),
        entry(Some("split"), "prefix+s", "split vertically"),
        Row::Blank,
        Row::Section("tabs".to_string()),
        entry(Some("new_tab"), "prefix+c", "open a tab"),
    ];
    assert_eq!(filtered_indices(&rows, "FOCUS"), vec![0, 1]);
    assert_eq!(filtered_indices(&rows, "tabs"), vec![4, 5]);
    assert_eq!(filtered_indices(&rows, "zzz"), Vec::<usize>::new());
    assert_eq!(filtered_indices(&rows, ""), vec![0, 1, 2, 3, 4, 5]);
}

#[test]
fn switching_cycles_through_every_profile() {
    let profiles = vec!["a".to_string(), "b".to_string(), "c".to_string()];
    let mut active = "a".to_string();
    let mut seen = Vec::new();
    for _ in 0..3 {
        active = pick_target(&profiles, None, Some(active.clone())).unwrap();
        seen.push(active.clone());
    }
    assert_eq!(seen, vec!["b".to_string(), "c".to_string(), "a".to_string()]);
}

#[test]
fn undoing_a_commit_puts_back_both_files_only_for_the_active_profile() {
    let previous = document("[keys]\nprefix = \"ctrl+a\"\n");
    let live = document("[keys]\nprefix = \"ctrl+a\"\n[theme]\nname = \"x\"\n");
    assert_eq!(commit_updates_live("work", "work"), Ok(true));
    let undo = saved_change("work".to_string(), "work".to_string(), previous.clone(), Some(live.clone()));
    assert!(restore_rewrites_live(&undo, "work"));
    assert_eq!(undo.profile_previous.to_string(), previous.to_string());
    assert_eq!(undo.live_previous.as_ref().map(|d| d.to_string()), Some(live.to_string()));

    assert_eq!(commit_updates_live("play", "work"), Ok(false));
    let other = saved_change("play".to_string(), "work".to_string(), previous, None);
    assert!(!restore_rewrites_live(&other, "work"));
    // The active profile changed since: the live config is left alone.
    assert!(!restore_rewrites_live(&undo, "play"));
}

#[test]
fn applied_profile_shows_its_bindings() {
    let mut live = document("[keys]\nprefix = \"ctrl+b\"\nnew_tab = \"prefix+c\"\n");
    let profile = document("[keys]\nprefix = \"ctrl+a\"\n");
    apply_profile(&mut live, &profile);
    let overrides = scalar_overrides(&live);
    assert_eq!(overrides, vec![("prefix".to_string(), "ctrl+a".to_string())]);
}

#[test]
fn staged_update_undone_restores_the_profile_text() {
    let text = "[keys]\nprefix = \"ctrl+b\"\nnew_tab = \"prefix+c\"\n";
    let mut doc = document(text);
    let previous = get_item(&doc, "new_tab");
    set_scalar(&mut doc, "new_tab", "prefix+t");
    assert_eq!(doc["keys"]["new_tab"].as_str(), Some("prefix+t"));
    set_item(&mut doc, "new_tab", previous.unwrap());
    assert_eq!(doc["keys"]["new_tab"].as_str(), Some("prefix+c"));

    let mut doc = document("[keys]\nprefix = \"ctrl+b\"\n");
    assert!(get_item(&doc, "new_tab").is_none());
    set_scalar(&mut doc, "new_tab", "prefix+t");
    remove_scalar(&mut doc, "new_tab");
    assert!(doc["keys"].as_table().unwrap().get("new_tab").is_none());
}

#[test]
fn footer_lines_fit_the_width() {
    for cols in [20usize, 40, 76, 120] {
        let lines = wrap_footer(&footer_segments(false, true, false, false, false, false), cols);
        let plain: Vec<String> = lines.iter().map(|l| strip_ansi(l)).collect();
        for line in plain {
            assert!(line.chars().count() <= cols.saturating_sub(2).max(1) || !line.contains(" \u{b7} "));
        }
    }
}

fn strip_ansi(s: &str) -> String {
    let mut out = String::new();
    let mut chars = s.chars();
    while let Some(c) = chars.next() {
        if c == '\u{1b}' {
            for d in chars.by_ref() {
                if d.is_ascii_alphabetic() {
                    break;
                }
            }
        } else {
            out.push(c);
        }
    }
    out
}

#[test]
fn undo_document_reads_back() {
    let undo = UndoEntry {
        profile_name: "work".to_string(),
        profile_previous: document("[keys]\nprefix = \"ctrl+a\"\n"),
        live_previous: Some(document("[keys]\nprefix = \"ctrl+a\"\n[theme]\nname = \"x\"\n")),
        active_profile: "work".to_string(),
    };
    let doc = undo_document(&undo);
    assert_eq!(doc["profile"].as_str(), Some("work"));
    assert_eq!(doc["live_previous_present"].as_bool(), Some(true));
    let text = config_text(&doc);
    let reread = parse_config_text(&text).unwrap();
    let back = undo_from_document(&reread).unwrap();
    assert_eq!(back.profile_name, "work");
    assert_eq!(back.active_profile, "work");
    assert_eq!(back.profile_previous.to_string(), undo.profile_previous.to_string());
    assert_eq!(
        back.live_previous.map(|d| d.to_string()),
        undo.live_previous.map(|d| d.to_string())
    );
}

#[test]
fn undo_without_live_config_reads_back_without_it() {
    let undo = UndoEntry {
        profile_name: "play".to_string(),
        profile_previous: document("[keys]\n"),
        live_previous: None,
        active_profile: "work".to_string(),
    };
    let doc = undo_document(&undo);
    assert_eq!(doc["live_previous_present"].as_bool(), Some(false));
    assert!(doc.get("live_previous").is_none());
    let back = undo_from_document(&doc).unwrap();
    assert!(back.live_previous.is_none());
    assert_eq!(back.profile_name, "play");
}

#[test]
fn selected_tab_stays_visible() {
    let profiles: Vec<String> = (0..20).map(|i| format!("profile{i:02}")).collect();
    let (start, end) = visible_tab_range(&profiles, Some("profile15"), "profile01", 40);
    assert!(start <= 15 && 15 < end);
    let strip = render_tabs(&profiles, Some("profile15"), "profile01", 40);
    assert!(strip.contains("[profile15]"));
}

// ---------------------------------------------------------------------------
// Formulas and edge cases
// ---------------------------------------------------------------------------

#[test]
fn display_value_shows_unset_and_minus() {
    assert_eq!(display_value(""), "unset");
    assert_eq!(display_value("prefix+minus"), "prefix+-");
    assert_eq!(display_value("ctrl+b"), "ctrl+b");
}

#[test]
fn fit_line_cuts_with_an_ellipsis() {
    assert_eq!(fit_line("abcdef", 10), "abcdef");
    assert_eq!(fit_line("abcdef", 4), "abc\u{2026}");
    assert_eq!(fit_line("abcdef", 0), "\u{2026}");
}

#[test]
fn trimmed_names() {
    assert_eq!(trimmed_name("  work \n"), Some("work".to_string()));
    assert_eq!(trimmed_name(" \t\n"), None);
    assert_eq!(trimmed_name(""), None);
    assert_eq!(trimmed_name("a b"), Some("a b".to_string()));
}

#[test]
fn profile_names_are_checked() {
    assert!(valid_name("work_2-b"));
    assert!(!valid_name(""));
    assert!(!valid_name("a b"));
    assert!(!valid_name("café"));
}

#[test]
fn save_target_errors() {
    assert_eq!(save_target(None), Err(SaveError::NoName));
    assert_eq!(save_target(Some("bad name".to_string())), Err(SaveError::InvalidName("bad name".to_string())));
    assert_eq!(save_target(Some("default".to_string())), Err(SaveError::Reserved));
    assert_eq!(save_target(Some("work".to_string())), Ok("work".to_string()));
}

#[test]
fn pick_target_cases() {
    let profiles = vec!["a".to_string(), "b".to_string()];
    assert_eq!(pick_target(&profiles, Some("b".to_string()), None), Ok("b".to_string()));
    assert_eq!(
        pick_target(&profiles, Some("z".to_string()), Some("a".to_string())),
        Err(TargetError::NotFound("z".to_string()))
    );
    assert_eq!(pick_target(&profiles, None, Some("b".to_string())), Ok("a".to_string()));
    assert_eq!(pick_target(&profiles, None, Some("gone".to_string())), Ok("a".to_string()));
    assert_eq!(pick_target(&profiles, None, None), Ok("a".to_string()));
}

#[test]
fn default_profile_is_never_committed() {
    assert_eq!(commit_updates_live("default", "default"), Err(CommitError::ReadOnly));
}

#[test]
fn undo_document_errors() {
    let missing = document("active_profile = \"w\"\nprofile_previous = \"\"\nlive_previous_present = false\n");
    assert_eq!(undo_from_document(&missing).err(), Some(UndoError::Missing("profile".to_string())));
    let bad = document("profile = \"w\"\nactive_profile = \"w\"\nprofile_previous = \"[[[\"\n");
    match undo_from_document(&bad) {
        Err(UndoError::Unparsable { key, .. }) => assert_eq!(key, "profile_previous"),
        other => panic!("unexpected {:?}", other.map(|u| u.profile_name)),
    }
    let no_live = document("profile = \"w\"\nactive_profile = \"w\"\nprofile_previous = \"\"\nlive_previous_present = true\n");
    assert_eq!(undo_from_document(&no_live).err(), Some(UndoError::Missing("live_previous".to_string())));
}

#[test]
fn toast_marks_the_active_profile() {
    let profiles = vec!["a".to_string(), "b".to_string()];
    let text = toast_text(&profiles, Some("b".to_string()));
    assert_eq!(text, "\r\n    a\r\n  \u{1b}[36m\u{25cf}\u{1b}[0m \u{1b}[1mb\u{1b}[0m\r\n");
    assert_eq!(toast_text(&Vec::new(), None), "\r\n");
}

#[test]
fn tab_labels() {
    assert_eq!(tab_label("work", true, true), "[*work]");
    assert_eq!(tab_label("work", false, false), "work");
    assert!(styled_tab("work", false, true).contains("*work"));
    let profiles = vec!["a".to_string(), "b".to_string()];
    assert_eq!(tab_at_column(&profiles, Some("a"), "b", 76, 2), Some(0));
    assert_eq!(tab_at_column(&profiles, Some("a"), "b", 76, 6), Some(1));
    assert_eq!(tab_at_column(&profiles, Some("a"), "b", 76, 40), None);
    assert!(names_fit(&profiles));
}

#[test]
fn row_keys_and_defaults() {
    let r = entry(Some("new_tab"), "prefix+c", "open a tab");
    assert_eq!(row_config_key(&r), Some("new_tab"));
    assert_eq!(row_config_key(&Row::Blank), None);
    assert_eq!(default_binding("prefix"), Some("ctrl+b"));
    assert_eq!(default_binding("no_such_field"), None);
    assert_eq!(conflict_label(&entry(None, "x", "lazygit")), "lazygit (custom)");
    let data = row(Some("k"), "d", "desc");
    assert_eq!(data.config_key, Some("k"));
    assert!(!sections().is_empty());
}

#[test]
fn fuzzy_match_ignores_case_and_gaps() {
    assert!(fuzzy_match("Focus Pane Up", "fpu"));
    assert!(fuzzy_match("FOCUS", "focus"));
    assert!(!fuzzy_match("focus", "xyz"));
    assert!(fuzzy_match("anything", ""));
}

#[test]
fn rows_come_from_overrides_then_custom_commands() {
    let live = document(
        "[keys]\nprefix = \"ctrl+a\"\n\n[[keys.command]]\nkey = \"prefix+g\"\ndescription = \"lazygit\"\n",
    );
    let profile = document("[keys]\nnew_tab = \"prefix+t\"\n");
    let rows = build_rows_for_profile(&profile, &live);
    let live_rows = build_rows_from_live_config(&live);
    let key_of = |rows: &[Row], k: &str| {
        rows.iter().find_map(|r| match r {
            Row::Entry { config_key: Some(c), key, .. } if c == k => Some(key.clone()),
            _ => None,
        })
    };
    assert_eq!(key_of(&rows, "new_tab"), Some("prefix+t".to_string()));
    assert_eq!(key_of(&rows, "prefix"), Some("ctrl+b".to_string()));
    assert_eq!(key_of(&live_rows, "prefix"), Some("ctrl+a".to_string()));
    assert!(matches!(rows.last(), Some(Row::Entry { config_key: None, description, .. }) if description == "lazygit"));
    assert_eq!(custom_commands(&live), vec![("prefix+g".to_string(), "lazygit".to_string())]);
    assert_eq!(build_rows(&profile, &live).len(), rows.len());
}

#[test]
fn saved_profile_holds_only_keys() {
    let live = document("[keys]\nprefix = \"ctrl+a\"\n\n[[keys.command]]\nkey = \"k\"\n\n[theme]\nname = \"x\"\n");
    let profile = extract_keys_only(&live);
    assert_eq!(profile["keys"]["prefix"].as_str(), Some("ctrl+a"));
    assert!(profile.get("theme").is_none());
    assert!(profile["keys"].get("command").is_none());
}

#[test]
fn keys_editable_only_for_tables() {
    assert!(keys_editable(&document("[keys]\n")));
    assert!(keys_editable(&document("[theme]\n")));
    assert!(!keys_editable(&document("keys = \"x\"\n")));
    assert!(parse_config_text("[[[").is_err());
}

// ---------------------------------------------------------------------------
// The popup's state machine
// ---------------------------------------------------------------------------

#[test]
fn popup_opens_on_the_active_profile() {
    let profiles = vec!["a".to_string(), "work".to_string()];
    assert_eq!(viewed_at_start(&profiles, "work"), Some("work".to_string()));
    assert_eq!(viewed_at_start(&profiles, "gone"), Some("a".to_string()));
    assert_eq!(viewed_at_start(&Vec::new(), "gone"), None);
}

#[test]
fn keys_read_as_commands_by_mode() {
    let state = browsing_state(&["a", "b"], "a", "a");
    assert_eq!(state.key_command(&press(KeyCode::Char('q'))), Command::Quit);
    assert_eq!(state.key_command(&press(KeyCode::Char('e'))), Command::BeginEdit);
    assert_eq!(state.key_command(&press(KeyCode::Right)), Command::MoveProfile(1));
    assert_eq!(state.key_command(&press(KeyCode::PageUp)), Command::Scroll(-10));
    assert_eq!(state.key_command(&KeyEvent::new(KeyCode::Char('c'), ctrl())), Command::Quit);
    let editing = test_state(conflict_rows(), false);
    assert_eq!(editing.key_command(&press(KeyCode::Esc)), Command::LeaveEdit);
    assert_eq!(editing.key_command(&press(KeyCode::Char('d'))), Command::NextDuplicate);
}

#[test]
fn typing_a_query_filters_and_scrolls_to_the_top() {
    let mut state = browsing_state(&["a"], "a", "a");
    state.offset = 5;
    assert_eq!(state.handle_key(&press(KeyCode::Char('/')), 76, 22), Action::Redraw);
    assert!(state.searching);
    for c in "focus pane up".chars() {
        state.handle_key(&press(KeyCode::Char(c)), 76, 22);
    }
    assert_eq!(state.query, "focus pane up");
    assert_eq!(state.offset, 0);
    assert!(!state.filtered.is_empty());
    state.handle_key(&press(KeyCode::Backspace), 76, 22);
    assert_eq!(state.query, "focus pane u");
    state.handle_key(&KeyEvent::new(KeyCode::Char('u'), ctrl()), 76, 22);
    assert_eq!(state.query, "");
    state.handle_key(&press(KeyCode::Esc), 76, 22);
    assert!(!state.searching);
    assert_eq!(state.filtered.len(), state.rows.len());
}

#[test]
fn tabs_change_only_the_viewed_profile() {
    let mut state = browsing_state(&["a", "b", "c"], "a", "b");
    state.offset = 3;
    assert_eq!(state.handle_key(&press(KeyCode::Right), 76, 22), Action::Reload);
    assert_eq!(state.viewed_profile.as_deref(), Some("b"));
    assert_eq!(state.active_profile, "b");
    assert_eq!(state.offset, 3);
    assert!(matches!(state.row_source(), RowSource::ProfileFile(ref n) if n == "b"));
    state.handle_key(&press(KeyCode::Right), 76, 22);
    state.handle_key(&press(KeyCode::Right), 76, 22);
    assert_eq!(state.viewed_profile.as_deref(), Some("c"));
    state.handle_key(&press(KeyCode::Left), 76, 22);
    assert_eq!(state.viewed_profile.as_deref(), Some("b"));
    assert_eq!(state.handle_mouse(MouseInput::LeftClick { column: 2, row: 1 }, 76), Action::Reload);
    assert_eq!(state.viewed_profile.as_deref(), Some("a"));
    assert_eq!(state.handle_mouse(MouseInput::ScrollDown, 76), Action::Redraw);
    assert_eq!(state.offset, 6);
    state.handle_mouse(MouseInput::ScrollUp, 76);
    state.handle_mouse(MouseInput::ScrollUp, 76);
    state.handle_mouse(MouseInput::ScrollUp, 76);
    assert_eq!(state.offset, 0);
}

#[test]
fn default_profile_cannot_be_edited() {
    let state = browsing_state(&["default", "work"], "default", "work");
    assert_eq!(state.edit_target(), None);
    let state = browsing_state(&["default", "work"], "work", "work");
    assert_eq!(state.edit_target(), Some("work".to_string()));
}

#[test]
fn editing_captures_a_binding_and_undoes_it() {
    let mut state = browsing_state(&["work"], "work", "work");
    let profile = document("[keys]\nprefix = \"ctrl+b\"\n");
    state.start_edit(profile);
    assert!(matches!(state.row_source(), RowSource::Working));
    state.enter_edit(76, 22);
    let row = match state.editing {
        Some(EditMode::Selecting { row }) => row,
        other => panic!("not selecting: {}", other.is_some()),
    };
    assert_eq!(row_config_key(&state.rows[row]), Some("prefix"));
    assert_eq!(state.handle_key(&press(KeyCode::Enter), 76, 22), Action::Redraw);
    assert!(matches!(state.editing, Some(EditMode::Listening { .. })));
    state.handle_key(&KeyEvent::new(KeyCode::Char('a'), ctrl()), 76, 22);
    assert_eq!(state.pending_binding.as_deref(), Some("ctrl+a"));
    assert_eq!(state.handle_key(&press(KeyCode::Enter), 76, 22), Action::Reload);
    assert_eq!(state.saved_row, Some(row));
    let working = state.working_profile.as_ref().unwrap();
    assert_eq!(working["keys"]["prefix"].as_str(), Some("ctrl+a"));
    assert!(state.has_pending_changes());
    assert_eq!(state.handle_key(&press(KeyCode::Char('u')), 76, 22), Action::Reload);
    let working = state.working_profile.as_ref().unwrap();
    assert_eq!(working["keys"]["prefix"].as_str(), Some("ctrl+b"));
    assert!(!state.has_pending_changes());
    assert_eq!(state.handle_key(&press(KeyCode::Esc), 76, 22), Action::ReloadQuietly);
    assert!(state.editing.is_none());
    assert!(state.working_profile.is_none());
}

#[test]
fn manual_entry_records_the_typed_text() {
    let mut state = test_state(vec![entry(Some("one"), "prefix+a", "one")], false);
    state.handle_key(&press(KeyCode::Char('m')), 76, 22);
    assert!(matches!(state.editing, Some(EditMode::Manual { row: 0 })));
    assert_eq!(state.manual_binding, "prefix+a");
    state.handle_key(&KeyEvent::new(KeyCode::Char('u'), ctrl()), 76, 22);
    assert_eq!(state.manual_binding, "");
    for c in "prefix+1..9".chars() {
        state.handle_key(&press(KeyCode::Char(c)), 76, 22);
    }
    assert_eq!(state.handle_key(&press(KeyCode::Enter), 76, 22), Action::Reload);
    let working = state.working_profile.as_ref().unwrap();
    assert_eq!(working["keys"]["one"].as_str(), Some("prefix+1..9"));
}

#[test]
fn listening_after_the_prefix_records_a_prefixed_binding() {
    let mut state = test_state(vec![entry(Some("one"), "prefix+a", "one")], false);
    state.editing = Some(EditMode::Listening { row: 0, prefix_seen: false });
    state.handle_key(&KeyEvent::new(KeyCode::Char('b'), ctrl()), 76, 22);
    assert!(matches!(state.editing, Some(EditMode::Listening { row: 0, prefix_seen: true })));
    state.handle_key(&press(KeyCode::Char('x')), 76, 22);
    assert_eq!(state.pending_binding.as_deref(), Some("prefix+x"));
    state.handle_key(&press(KeyCode::Backspace), 76, 22);
    assert!(state.pending_binding.is_none());
    state.handle_key(&press(KeyCode::Esc), 76, 22);
    assert!(matches!(state.editing, Some(EditMode::Selecting { row: 0 })));
}

#[test]
fn saving_asks_to_commit_when_nothing_is_duplicated() {
    let mut state = test_state(vec![entry(Some("one"), "prefix+b", "one")], true);
    assert_eq!(state.handle_key(&press(KeyCode::Esc), 76, 22), Action::Redraw);
    assert!(matches!(state.editing, Some(EditMode::Confirming { row: 0 })));
    assert_eq!(state.handle_key(&press(KeyCode::Char('y')), 76, 22), Action::Commit);
    assert_eq!(state.handle_key(&press(KeyCode::Char('n')), 76, 22), Action::ReloadQuietly);
    assert!(state.editing.is_none());
}

#[test]
fn the_selected_conflict_names_its_partners() {
    let mut state = test_state(conflict_rows(), false);
    state.editing = Some(EditMode::Selecting { row: 1 });
    assert_eq!(selected_conflict(&state), Some(vec![4]));
    state.editing = Some(EditMode::Selecting { row: 2 });
    assert_eq!(selected_conflict(&state), None);
}

#[test]
fn last_saved_change_is_taken_for_undo() {
    let mut state = browsing_state(&["a", "work"], "a", "work");
    state.last_undo = Some(saved_change("work".to_string(), "work".to_string(), document("[keys]\n"), None));
    assert_eq!(state.handle_key(&press(KeyCode::Char('u')), 76, 22), Action::RestoreUndo);
    let undo = state.take_last_undo().unwrap();
    assert_eq!(undo.profile_name, "work");
    assert_eq!(state.viewed_profile.as_deref(), Some("work"));
    assert!(state.last_undo.is_none());
}

#[test]
fn frame_shows_banner_tabs_rows_and_footer() {
    let mut state = browsing_state(&["a", "work"], "work", "work");
    state.offset = 10_000;
    let text = render_frame(&mut state, 76, 22);
    assert!(text.starts_with("\u{1b}[2J\u{1b}[H"));
    assert!(text.contains(" active profile: work "));
    assert!(text.contains("[*work]"));
    assert!(text.contains("press / to filter by command or shortcut"));
    assert!(text.ends_with("\u{1b}[K"));
    assert!(state.offset < state.filtered.len());
    let mut empty = browsing_state(&["a"], "a", "a");
    empty.filtered.clear();
    assert!(render_frame(&mut empty, 76, 22).contains("no matches"));
}

#[test]
fn setting_a_binding_creates_the_keys_table() {
    let mut doc = document("[theme]\nname = \"x\"\n");
    set_scalar(&mut doc, "new_tab", "prefix+t");
    assert_eq!(doc["keys"]["new_tab"].as_str(), Some("prefix+t"));
    assert_eq!(doc["theme"]["name"].as_str(), Some("x"));
}

#[test]
fn undoing_a_new_field_removes_it_again() {
    let mut state = test_state(vec![entry(Some("two"), "unset", "two")], false);
    assert_eq!(state.save_edit(0, "prefix+z"), Record::Saved);
    assert_eq!(state.working_profile.as_ref().unwrap()["keys"]["two"].as_str(), Some("prefix+z"));
    assert_eq!(state.handle_key(&press(KeyCode::Char('u')), 76, 22), Action::Reload);
    let working = state.working_profile.as_ref().unwrap();
    assert!(working["keys"].as_table().unwrap().get("two").is_none());
    assert_eq!(working["keys"]["one"].as_str(), Some("prefix+a"));
    assert!(state.staged_undo.is_none());
}

#[test]
fn a_profile_with_an_inline_keys_table_can_be_browsed_in_edit_mode() {
    let mut state = browsing_state(&["work"], "work", "work");
    state.start_edit(document("keys = { prefix = \"ctrl+a\" }\n"));
    state.enter_edit(76, 22);
    assert!(matches!(state.editing, Some(EditMode::Selecting { .. })));
    assert_eq!(state.handle_key(&press(KeyCode::Char('j')), 76, 22), Action::Redraw);
    assert_eq!(state.handle_key(&press(KeyCode::Enter), 76, 22), Action::Redraw);
    state.handle_key(&press(KeyCode::Char('x')), 76, 22);
    assert_eq!(state.pending_binding.as_deref(), Some("x"));
    assert_eq!(state.handle_key(&press(KeyCode::Enter), 76, 22), Action::KeysNotTable);
    assert_eq!(state.pending_binding.as_deref(), Some("x"));
    assert!(state.staged_undo.is_none());
    state.handle_key(&press(KeyCode::Esc), 76, 22);
    assert_eq!(state.handle_key(&press(KeyCode::Esc), 76, 22), Action::ReloadQuietly);
    assert!(state.editing.is_none());
}

#[test]
fn profile_names_are_the_sorted_toml_stems() {
    let files: Vec<String> = ["b.toml", "a.toml", "notes.txt", ".toml", "Z.toml", "é.toml", "toml", "a.toml.bak"]
        .iter()
        .map(|s| s.to_string())
        .collect();
    let names = profile_names(files);
    assert_eq!(names, vec!["", "Z", "a", "b", "é"]);
    let mut sorted = names.clone();
    sorted.sort();
    assert_eq!(names, sorted);
    assert!(profile_names(Vec::new()).is_empty());
}

#[test]
fn extracted_profile_restores_the_saved_bindings() {
    let source = document("[keys]\nprefix = \"ctrl+a\"\nnew_tab = \"prefix+t\"\n\n[[keys.command]]\nkey = \"k\"\n");
    let profile = extract_keys_only(&source);
    let mut live = document("[keys]\nprefix = \"ctrl+b\"\nclose_tab = \"prefix+x\"\n\n[theme]\nname = \"x\"\n");
    apply_profile(&mut live, &profile);
    assert_eq!(live["keys"]["prefix"].as_str(), Some("ctrl+a"));
    assert_eq!(live["keys"]["new_tab"].as_str(), Some("prefix+t"));
    assert!(live["keys"].as_table().unwrap().get("close_tab").is_none());
    assert_eq!(live["theme"]["name"].as_str(), Some("x"));
}

#[test]
fn removed_binding_is_gone_and_the_rest_stays() {
    let mut doc = document("[keys]\nprefix = \"ctrl+b\"\nnew_tab = \"prefix+c\"\n");
    remove_scalar(&mut doc, "prefix");
    assert!(get_item(&doc, "prefix").is_none());
    assert_eq!(get_item(&doc, "new_tab").and_then(|i| i.as_str().map(|s| s.to_string())), Some("prefix+c".to_string()));
    let mut plain = document("keys = \"x\"\n");
    remove_scalar(&mut plain, "prefix");
    assert_eq!(plain.to_string(), "keys = \"x\"\n");
}
