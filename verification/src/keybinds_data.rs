//! The rows of Herdr's built-in keybinds panel, by section.
//!
//! Each row is (config_key, default_value, description). A row without a
//! config key is not backed by a single `[keys]` field -- a fixed
//! navigate-mode summary line, or a panel-only entry like copy mode -- and is
//! shown read-only.
use vstd::prelude::*;

verus! {

pub struct Row {
    pub config_key: Option<&'static str>,
    pub default: &'static str,
    pub description: &'static str,
}

pub struct Section {
    pub name: &'static str,
    pub rows: Vec<Row>,
}

/// A row as plain values: config key, default binding, description.
pub type RowView = (Option<Seq<char>>, Seq<char>, Seq<char>);

/// A section as plain values: its name and its rows.
pub type SectionView = (Seq<char>, Seq<RowView>);

pub open spec fn opt_str_view(o: Option<&'static str>) -> Option<Seq<char>> {
    match o {
        Some(s) => Some(s@),
        None => None,
    }
}

pub open spec fn row_view(r: Row) -> RowView {
    (opt_str_view(r.config_key), r.default@, r.description@)
}

pub open spec fn section_view(s: Section) -> SectionView {
    (s.name@, s.rows@.map_values(|r: Row| row_view(r)))
}

pub open spec fn sections_view(v: Seq<Section>) -> Seq<SectionView> {
    v.map_values(|s: Section| section_view(s))
}

/// A panel row: its `[keys]` field (if any), its default binding, and its
/// description.
pub fn row(config_key: Option<&'static str>, default: &'static str, description: &'static str) -> (r: Row)
    ensures
        r.config_key == config_key,
        r.default == default,
        r.description == description,
{
    Row { config_key, default, description }
}

/// The panel's sections, as plain values.
pub open spec fn panel_sections() -> Seq<SectionView> {
    seq![
        ("global"@, seq![
            (Some("prefix"@), "ctrl+b"@, "prefix mode"@),
            (Some("help"@), "prefix+?"@, "keybinds"@),
            (Some("settings"@), "prefix+s"@, "settings"@),
            (Some("detach"@), "prefix+q"@, "detach"@),
            (Some("reload_config"@), "prefix+shift+r"@, "reload config"@),
            (Some("open_notification_target"@), "prefix+o"@, "open notification target"@),
        ]),
        ("navigation"@, seq![
            (None, "esc"@, "back"@),
            (None, "up / down"@, "workspace list"@),
            (None, "h / j / k / l / left / right"@, "move focus"@),
            (None, "tab / shift+tab"@, "cycle pane"@),
            (None, "enter"@, "open workspace"@),
            (None, "1..9"@, "switch workspace"@),
        ]),
        ("workspaces / tabs"@, seq![
            (Some("workspace_picker"@), "prefix+w"@, "workspace navigation"@),
            (Some("goto"@), "prefix+g"@, "session navigator"@),
            (Some("new_workspace"@), "prefix+shift+n"@, "new workspace"@),
            (Some("new_worktree"@), "prefix+shift+g"@, "new worktree"@),
            (Some("open_worktree"@), ""@, "open worktree"@),
            (Some("remove_worktree"@), ""@, "delete worktree checkout"@),
            (Some("rename_workspace"@), "prefix+shift+w"@, "rename workspace"@),
            (Some("close_workspace"@), "prefix+shift+d"@, "close workspace"@),
            (Some("previous_workspace"@), ""@, "previous workspace"@),
            (Some("next_workspace"@), ""@, "next workspace"@),
            (Some("switch_workspace"@), ""@, "switch workspace 1-9"@),
            (Some("previous_agent"@), ""@, "previous agent"@),
            (Some("next_agent"@), ""@, "next agent"@),
            (Some("focus_agent"@), ""@, "focus agent 1-9"@),
            (Some("new_tab"@), "prefix+c"@, "new tab"@),
            (Some("rename_tab"@), "prefix+shift+t"@, "rename tab"@),
            (Some("previous_tab"@), "prefix+p"@, "previous tab"@),
            (Some("next_tab"@), "prefix+n"@, "next tab"@),
            (Some("move_tab_previous"@), ""@, "move tab left"@),
            (Some("move_tab_next"@), ""@, "move tab right"@),
            (Some("switch_tab"@), "prefix+1..9"@, "switch tab 1-9"@),
            (Some("close_tab"@), "prefix+shift+x"@, "close tab"@),
        ]),
        ("panes"@, seq![
            (Some("split_vertical"@), "prefix+v"@, "split vertical"@),
            (Some("split_horizontal"@), "prefix+minus"@, "split horizontal"@),
            (Some("close_pane"@), "prefix+x"@, "close pane"@),
            (Some("rename_pane"@), "prefix+shift+p"@, "rename pane"@),
            (Some("edit_scrollback"@), "prefix+e"@, "edit scrollback"@),
            (None, "prefix+["@, "copy mode"@),
            (Some("zoom"@), "prefix+z"@, "zoom pane"@),
            (Some("resize_mode"@), "prefix+r"@, "resize mode"@),
            (Some("resize_pane_left"@), ""@, "resize pane left"@),
            (Some("resize_pane_down"@), ""@, "resize pane down"@),
            (Some("resize_pane_up"@), ""@, "resize pane up"@),
            (Some("resize_pane_right"@), ""@, "resize pane right"@),
            (Some("toggle_sidebar"@), "prefix+b"@, "toggle sidebar"@),
            (Some("focus_pane_left"@), "prefix+h"@, "focus pane left"@),
            (Some("focus_pane_down"@), "prefix+j"@, "focus pane down"@),
            (Some("focus_pane_up"@), "prefix+k"@, "focus pane up"@),
            (Some("focus_pane_right"@), "prefix+l"@, "focus pane right"@),
            (Some("cycle_pane_next"@), "prefix+tab"@, "cycle pane next"@),
            (Some("cycle_pane_previous"@), "prefix+shift+tab"@, "cycle pane previous"@),
            (Some("last_pane"@), ""@, "last pane"@),
        ]),
    ]
}

/// The panel's sections.
pub fn sections() -> (r: Vec<Section>)
    ensures
        sections_view(r@) == panel_sections(),
{
    let r = vec![
        Section {
            name: "global",
            rows: vec![
                row(Some("prefix"), "ctrl+b", "prefix mode"),
                row(Some("help"), "prefix+?", "keybinds"),
                row(Some("settings"), "prefix+s", "settings"),
                row(Some("detach"), "prefix+q", "detach"),
                row(Some("reload_config"), "prefix+shift+r", "reload config"),
                row(Some("open_notification_target"), "prefix+o", "open notification target"),
            ],
        },
        Section {
            name: "navigation",
            rows: vec![
                row(None, "esc", "back"),
                row(None, "up / down", "workspace list"),
                row(None, "h / j / k / l / left / right", "move focus"),
                row(None, "tab / shift+tab", "cycle pane"),
                row(None, "enter", "open workspace"),
                row(None, "1..9", "switch workspace"),
            ],
        },
        Section {
            name: "workspaces / tabs",
            rows: vec![
                row(Some("workspace_picker"), "prefix+w", "workspace navigation"),
                row(Some("goto"), "prefix+g", "session navigator"),
                row(Some("new_workspace"), "prefix+shift+n", "new workspace"),
                row(Some("new_worktree"), "prefix+shift+g", "new worktree"),
                row(Some("open_worktree"), "", "open worktree"),
                row(Some("remove_worktree"), "", "delete worktree checkout"),
                row(Some("rename_workspace"), "prefix+shift+w", "rename workspace"),
                row(Some("close_workspace"), "prefix+shift+d", "close workspace"),
                row(Some("previous_workspace"), "", "previous workspace"),
                row(Some("next_workspace"), "", "next workspace"),
                row(Some("switch_workspace"), "", "switch workspace 1-9"),
                row(Some("previous_agent"), "", "previous agent"),
                row(Some("next_agent"), "", "next agent"),
                row(Some("focus_agent"), "", "focus agent 1-9"),
                row(Some("new_tab"), "prefix+c", "new tab"),
                row(Some("rename_tab"), "prefix+shift+t", "rename tab"),
                row(Some("previous_tab"), "prefix+p", "previous tab"),
                row(Some("next_tab"), "prefix+n", "next tab"),
                row(Some("move_tab_previous"), "", "move tab left"),
                row(Some("move_tab_next"), "", "move tab right"),
                row(Some("switch_tab"), "prefix+1..9", "switch tab 1-9"),
                row(Some("close_tab"), "prefix+shift+x", "close tab"),
            ],
        },
        Section {
            name: "panes",
            rows: vec![
                row(Some("split_vertical"), "prefix+v", "split vertical"),
                row(Some("split_horizontal"), "prefix+minus", "split horizontal"),
                row(Some("close_pane"), "prefix+x", "close pane"),
                row(Some("rename_pane"), "prefix+shift+p", "rename pane"),
                row(Some("edit_scrollback"), "prefix+e", "edit scrollback"),
                row(None, "prefix+[", "copy mode"),
                row(Some("zoom"), "prefix+z", "zoom pane"),
                row(Some("resize_mode"), "prefix+r", "resize mode"),
                row(Some("resize_pane_left"), "", "resize pane left"),
                row(Some("resize_pane_down"), "", "resize pane down"),
                row(Some("resize_pane_up"), "", "resize pane up"),
                row(Some("resize_pane_right"), "", "resize pane right"),
                row(Some("toggle_sidebar"), "prefix+b", "toggle sidebar"),
                row(Some("focus_pane_left"), "prefix+h", "focus pane left"),
                row(Some("focus_pane_down"), "prefix+j", "focus pane down"),
                row(Some("focus_pane_up"), "prefix+k", "focus pane up"),
                row(Some("focus_pane_right"), "prefix+l", "focus pane right"),
                row(Some("cycle_pane_next"), "prefix+tab", "cycle pane next"),
                row(Some("cycle_pane_previous"), "prefix+shift+tab", "cycle pane previous"),
                row(Some("last_pane"), "", "last pane"),
            ],
        },
    ];
    assert(sections_view(r@) =~= panel_sections()) by {
        assert(section_view(r@[0]).1 =~= panel_sections()[0].1);
        assert(section_view(r@[1]).1 =~= panel_sections()[1].1);
        assert(section_view(r@[2]).1 =~= panel_sections()[2].1);
        assert(section_view(r@[3]).1 =~= panel_sections()[3].1);
    }
    r
}

} // verus!
