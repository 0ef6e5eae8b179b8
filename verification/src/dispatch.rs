//! What a key press or a mouse event does to the popup.
//!
//! A key is first read as a command, by the mode the popup is in; then the
//! command is carried out on the state. Work that needs the disk or Herdr
//! (reloading rows, loading the profile to edit, committing or undoing a
//! saved change, switching profiles) is handed back as an action.
use crate::key_input::{KeyCode, KeyEvent};
use crate::panel::RowV;
use crate::style::{PAGE_STEP, TABS_ROW};
use crate::tabs::{names_fit, names_total, names_view, opt_view as opt_str_view, tab_at_column, tab_under};
use crate::text::{string_pop, string_push};
use crate::view_session::{names_of, opt_view};
use crate::view_state::{
    duplicates_toggled, edit_discarded, is_prefix_row, leave_requested, listen_key_handled, listening_started,
    manual_edit_begun, manual_key_handled, mode_row, next_duplicate_selected, save_prepared, scrolled, scrolled_by,
    selection_moved, shown_rows, staged_undone, EditMode, Record, ViewState,
};
use crate::conflicts::row_config_key;
use vstd::prelude::*;

verus! {

/// What a key asks of the popup.
#[derive(Clone, Copy, Debug, PartialEq, Eq, Structural)]
pub enum Command {
    /// Close the popup.
    Quit,
    /// Leave edit mode from the selector.
    LeaveEdit,
    /// Go back to the selector, keeping the selected row.
    BackToSelect,
    /// A key for the binding being listened for.
    ListenKey,
    /// A key for the binding being typed by hand.
    ManualKey,
    /// Listen for a new binding of the selected row.
    Listen,
    /// Move the selection by this many editable rows.
    MoveSelection(isize),
    /// Type the selected row's binding by hand.
    ManualEdit,
    /// Undo the staged edit, else the last saved change.
    Undo,
    /// Select the next duplicated row.
    NextDuplicate,
    /// Flip the duplicates-only filter.
    ToggleDuplicates,
    /// Scroll by this many rows.
    Scroll(isize),
    /// Save the edited profile.
    Save,
    /// Drop the edit.
    Discard,
    /// Leave search mode, clearing the query or keeping it.
    StopSearch(bool),
    /// Clear the query.
    ClearQuery,
    /// Delete the query's last character.
    PopQuery,
    /// Append a character to the query.
    PushQuery(char),
    /// Edit the viewed profile.
    BeginEdit,
    /// Start typing a query.
    StartSearch,
    /// View the profile this many tabs away.
    MoveProfile(isize),
    /// Switch the active profile in Herdr.
    SwitchProfile,
    /// Nothing.
    Ignore,
}

/// What the caller must do after an event.
#[derive(Clone, Copy, Debug, PartialEq, Eq, Structural)]
pub enum Action {
    /// Nothing more: redraw.
    Redraw,
    /// Close the popup.
    Quit,
    /// Reload the rows of the viewed profile; a failure is an error.
    Reload,
    /// Reload the rows of the viewed profile, ignoring a failure.
    ReloadQuietly,
    /// Load the profile named by `edit_target` and begin editing it.
    BeginEdit,
    /// Undo the last saved change, taken with `take_last_undo`.
    RestoreUndo,
    /// Commit the working profile.
    Commit,
    /// Switch the active profile in Herdr.
    SwitchProfile,
    /// A binding could not be recorded: the edited profile's `keys` is not a
    /// table.
    KeysNotTable,
}

/// What recording a binding came to, read back from the action it asks for.
pub open spec fn record_of(action: Action) -> Record {
    match action {
        Action::Reload => Record::Saved,
        Action::KeysNotTable => Record::KeysNotTable,
        _ => Record::Nothing,
    }
}

/// The action that follows recording a binding.
fn action_of(r: Record) -> (action: Action)
    ensures
        record_of(action) == r,
        action == Action::Reload || action == Action::Redraw || action == Action::KeysNotTable,
{
    match r {
        Record::Nothing => Action::Redraw,
        Record::Saved => Action::Reload,
        Record::KeysNotTable => Action::KeysNotTable,
    }
}

/// A mouse event, as the popup uses it.
#[derive(Clone, Copy, Debug, PartialEq, Eq, Structural)]
pub enum MouseInput {
    ScrollUp,
    ScrollDown,
    /// A press of the left button at a terminal cell.
    LeftClick { column: u16, row: u16 },
    Other,
}

/// The command of a key in the selector.
pub open spec fn selecting_command(code: KeyCode) -> Command {
    match code {
        KeyCode::Esc => Command::LeaveEdit,
        KeyCode::Enter => Command::Listen,
        KeyCode::Char('j') => Command::MoveSelection(1),
        KeyCode::Down => Command::MoveSelection(1),
        KeyCode::Char('k') => Command::MoveSelection(-1isize),
        KeyCode::Up => Command::MoveSelection(-1isize),
        KeyCode::Char('m') => Command::ManualEdit,
        KeyCode::Char('u') => Command::Undo,
        KeyCode::Char('d') => Command::NextDuplicate,
        KeyCode::Char('f') => Command::ToggleDuplicates,
        KeyCode::PageDown => Command::Scroll(PAGE_STEP as isize),
        KeyCode::PageUp => Command::Scroll((-(PAGE_STEP as int)) as isize),
        _ => Command::Ignore,
    }
}

/// The command of a key while the save is being confirmed.
pub open spec fn confirming_command(code: KeyCode) -> Command {
    match code {
        KeyCode::Char('y') => Command::Save,
        KeyCode::Enter => Command::Save,
        KeyCode::Char('n') => Command::Discard,
        KeyCode::Esc => Command::BackToSelect,
        _ => Command::Ignore,
    }
}

/// The command of a key while a query is typed: arrows scroll the live
/// results, letters (`j`/`k` too) go into the query.
pub open spec fn search_command(key: KeyEvent) -> Command {
    match key.code {
        KeyCode::Esc => Command::StopSearch(true),
        KeyCode::Enter => Command::StopSearch(false),
        KeyCode::Down => Command::Scroll(1),
        KeyCode::Up => Command::Scroll(-1isize),
        KeyCode::PageDown => Command::Scroll(PAGE_STEP as isize),
        KeyCode::PageUp => Command::Scroll((-(PAGE_STEP as int)) as isize),
        KeyCode::Backspace => Command::PopQuery,
        KeyCode::Char(c) => if c == 'u' && key.modifiers.control {
            Command::ClearQuery
        } else {
            Command::PushQuery(c)
        },
        _ => Command::Ignore,
    }
}

/// The command of a key while browsing.
pub open spec fn browse_command(code: KeyCode) -> Command {
    match code {
        KeyCode::Esc => Command::Quit,
        KeyCode::Enter => Command::Quit,
        KeyCode::Char('q') => Command::Quit,
        KeyCode::Char('e') => Command::BeginEdit,
        KeyCode::Char('u') => Command::Undo,
        KeyCode::Char('/') => Command::StartSearch,
        KeyCode::Char('j') => Command::Scroll(1),
        KeyCode::Down => Command::Scroll(1),
        KeyCode::Char('k') => Command::Scroll(-1isize),
        KeyCode::Up => Command::Scroll(-1isize),
        KeyCode::Left => Command::MoveProfile(-1isize),
        KeyCode::Right => Command::MoveProfile(1),
        KeyCode::PageDown => Command::Scroll(PAGE_STEP as isize),
        KeyCode::PageUp => Command::Scroll((-(PAGE_STEP as int)) as isize),
        KeyCode::Char('K') => Command::SwitchProfile,
        _ => Command::Ignore,
    }
}

/// The command of a key press in a state. Ctrl+c quits when browsing and
/// otherwise backs out of the current edit step; the prefix row's listener
/// treats it as cancel, other listeners as a key to capture.
pub open spec fn command_of(editing: Option<EditMode>, searching: bool, rows: Seq<RowV>, key: KeyEvent) -> Command {
    if key.code == KeyCode::Char('c') && key.modifiers.control {
        match editing {
            None => Command::Quit,
            Some(EditMode::Selecting { .. }) => Command::LeaveEdit,
            Some(EditMode::Listening { row, .. }) => if is_prefix_row(rows[row as int]) {
                Command::BackToSelect
            } else {
                Command::ListenKey
            },
            Some(EditMode::Manual { .. }) => Command::BackToSelect,
            Some(EditMode::Confirming { .. }) => Command::Ignore,
        }
    } else {
        match editing {
            Some(EditMode::Selecting { .. }) => selecting_command(key.code),
            Some(EditMode::Listening { .. }) => Command::ListenKey,
            Some(EditMode::Manual { .. }) => Command::ManualKey,
            Some(EditMode::Confirming { .. }) => confirming_command(key.code),
            None => if searching {
                search_command(key)
            } else {
                browse_command(key.code)
            },
        }
    }
}

fn page_step() -> (r: isize)
    ensures
        r == PAGE_STEP as isize,
{
    PAGE_STEP as isize
}

impl ViewState {
    /// The command of a key press in the current state.
    pub fn key_command(&self, key: &KeyEvent) -> (c: Command)
        requires
            self.wf(),
        ensures
            c == command_of(self.editing, self.searching, self.rows_v(), *key),
    {
        if key.code == KeyCode::Char('c') && key.modifiers.control {
            return match self.editing {
                None => Command::Quit,
                Some(EditMode::Selecting { .. }) => Command::LeaveEdit,
                Some(EditMode::Listening { row, .. }) => {
                    assert(self.rows@[row as int]@ == self.rows_v()[row as int]);
                    let prefix = match row_config_key(&self.rows[row]) {
                        Some(k) => crate::text::str_eq(k, "prefix"),
                        None => false,
                    };
                    if prefix {
                        Command::BackToSelect
                    } else {
                        Command::ListenKey
                    }
                },
                Some(EditMode::Manual { .. }) => Command::BackToSelect,
                Some(EditMode::Confirming { .. }) => Command::Ignore,
            };
        }
        let step = page_step();
        match self.editing {
            Some(EditMode::Selecting { .. }) => match key.code {
                KeyCode::Esc => Command::LeaveEdit,
                KeyCode::Enter => Command::Listen,
                KeyCode::Char('j') | KeyCode::Down => Command::MoveSelection(1),
                KeyCode::Char('k') | KeyCode::Up => Command::MoveSelection(-1),
                KeyCode::Char('m') => Command::ManualEdit,
                KeyCode::Char('u') => Command::Undo,
                KeyCode::Char('d') => Command::NextDuplicate,
                KeyCode::Char('f') => Command::ToggleDuplicates,
                KeyCode::PageDown => Command::Scroll(step),
                KeyCode::PageUp => Command::Scroll(-step),
                _ => Command::Ignore,
            },
            Some(EditMode::Listening { .. }) => Command::ListenKey,
            Some(EditMode::Manual { .. }) => Command::ManualKey,
            Some(EditMode::Confirming { .. }) => match key.code {
                KeyCode::Char('y') | KeyCode::Enter => Command::Save,
                KeyCode::Char('n') => Command::Discard,
                KeyCode::Esc => Command::BackToSelect,
                _ => Command::Ignore,
            },
            None => if self.searching {
                match key.code {
                    KeyCode::Esc => Command::StopSearch(true),
                    KeyCode::Enter => Command::StopSearch(false),
                    KeyCode::Down => Command::Scroll(1),
                    KeyCode::Up => Command::Scroll(-1),
                    KeyCode::PageDown => Command::Scroll(step),
                    KeyCode::PageUp => Command::Scroll(-step),
                    KeyCode::Backspace => Command::PopQuery,
                    KeyCode::Char(c) => if c == 'u' && key.modifiers.control {
                        Command::ClearQuery
                    } else {
                        Command::PushQuery(c)
                    },
                    _ => Command::Ignore,
                }
            } else {
                match key.code {
                    KeyCode::Esc | KeyCode::Enter | KeyCode::Char('q') => Command::Quit,
                    KeyCode::Char('e') => Command::BeginEdit,
                    KeyCode::Char('u') => Command::Undo,
                    KeyCode::Char('/') => Command::StartSearch,
                    KeyCode::Char('j') | KeyCode::Down => Command::Scroll(1),
                    KeyCode::Char('k') | KeyCode::Up => Command::Scroll(-1),
                    KeyCode::Left => Command::MoveProfile(-1),
                    KeyCode::Right => Command::MoveProfile(1),
                    KeyCode::PageDown => Command::Scroll(step),
                    KeyCode::PageUp => Command::Scroll(-step),
                    KeyCode::Char('K') => Command::SwitchProfile,
                    _ => Command::Ignore,
                }
            },
        }
    }
}

impl ViewState {
    /// Carry out a key press: the command it asks for in the current state,
    /// and the work left to the caller.
    pub fn handle_key(&mut self, key: &KeyEvent, cols: usize, term_rows: usize) -> (action: Action)
        requires
            old(self).wf(),
        ensures
            final(self).wf(),
            ({
                let o = &*old(self);
                let f = &*final(self);
                let row = mode_row(o.editing.unwrap());
                match command_of(o.editing, o.searching, o.rows_v(), *key) {
                    Command::Quit => action == Action::Quit && f.unchanged(o),
                    Command::SwitchProfile => action == Action::SwitchProfile && f.unchanged(o),
                    Command::BeginEdit => action == Action::BeginEdit && f.unchanged(o),
                    Command::Ignore => action == Action::Redraw && f.unchanged(o),
                    Command::LeaveEdit => {
                        &&& action == Action::ReloadQuietly || action == Action::Redraw
                        &&& leave_requested(o, f, action == Action::ReloadQuietly)
                    },
                    Command::BackToSelect => {
                        &&& action == Action::Redraw
                        &&& f.editing == Some(EditMode::Selecting { row })
                        &&& f.same_data(o)
                        &&& f.saved_row == o.saved_row
                        &&& f.filtered == o.filtered
                        &&& f.offset == o.offset
                        &&& f.duplicates_only == o.duplicates_only
                    },
                    Command::ListenKey => {
                        &&& action == Action::Reload || action == Action::Redraw || action == Action::KeysNotTable
                        &&& match o.editing {
                            Some(EditMode::Listening { row, prefix_seen }) => listen_key_handled(
                                o,
                                f,
                                *key,
                                row,
                                prefix_seen,
                                record_of(action),
                            ),
                            _ => false,
                        }
                    },
                    Command::ManualKey => {
                        &&& action == Action::Reload || action == Action::Redraw || action == Action::KeysNotTable
                        &&& manual_key_handled(o, f, *key, row, record_of(action))
                    },
                    Command::Listen => action == Action::Redraw && listening_started(o, f),
                    Command::MoveSelection(d) => action == Action::Redraw && selection_moved(o, f, d, cols, term_rows),
                    Command::ManualEdit => action == Action::Redraw && manual_edit_begun(o, f),
                    Command::Undo => {
                        &&& action == if o.working_profile is Some && o.staged_undo is Some {
                            Action::Reload
                        } else if o.last_undo is Some {
                            Action::RestoreUndo
                        } else {
                            Action::Redraw
                        }
                        &&& staged_undone(o, f, action == Action::Reload)
                    },
                    Command::NextDuplicate => action == Action::Redraw && next_duplicate_selected(o, f, cols, term_rows),
                    Command::ToggleDuplicates => action == Action::Redraw && duplicates_toggled(o, f, cols, term_rows),
                    Command::Scroll(d) => action == Action::Redraw && scrolled_by(o, f, d),
                    Command::Save => {
                        &&& action == Action::Commit || action == Action::Redraw
                        &&& save_prepared(o, f, action == Action::Commit)
                    },
                    Command::Discard => action == Action::ReloadQuietly && edit_discarded(o, f),
                    Command::StopSearch(clear) => {
                        &&& action == Action::Redraw
                        &&& !f.searching
                        &&& if clear {
                            &&& f.query@ == Seq::<char>::empty()
                            &&& f.filtered@ == shown_rows(o.rows_v(), Seq::empty(), o.duplicates_only, o.selected())
                            &&& f.offset == 0
                        } else {
                            f.query == o.query && f.filtered == o.filtered && f.offset == o.offset
                        }
                        &&& f.editing == o.editing
                        &&& f.rows == o.rows
                    },
                    Command::ClearQuery => {
                        &&& action == Action::Redraw
                        &&& f.query@ == Seq::<char>::empty()
                        &&& f.filtered@ == shown_rows(o.rows_v(), Seq::empty(), o.duplicates_only, o.selected())
                        &&& f.offset == 0
                        &&& f.searching == o.searching
                        &&& f.rows == o.rows
                    },
                    Command::PopQuery => {
                        let q = if o.query@.len() > 0 { o.query@.drop_last() } else { o.query@ };
                        &&& action == Action::Redraw
                        &&& f.query@ == q
                        &&& f.filtered@ == shown_rows(o.rows_v(), q, o.duplicates_only, o.selected())
                        &&& f.offset == 0
                        &&& f.searching == o.searching
                        &&& f.rows == o.rows
                    },
                    Command::PushQuery(c) => {
                        &&& action == Action::Redraw
                        &&& f.query@ == o.query@.push(c)
                        &&& f.filtered@ == shown_rows(o.rows_v(), o.query@.push(c), o.duplicates_only, o.selected())
                        &&& f.offset == 0
                        &&& f.searching == o.searching
                        &&& f.rows == o.rows
                    },
                    Command::StartSearch => {
                        &&& action == Action::Redraw
                        &&& f.searching
                        &&& f.query == o.query
                        &&& f.filtered == o.filtered
                        &&& f.offset == o.offset
                        &&& f.editing == o.editing
                        &&& f.rows == o.rows
                    },
                    Command::MoveProfile(d) => {
                        &&& action == (if o.profiles@.len() > 0 { Action::Reload } else { Action::Redraw })
                        &&& o.profiles@.len() > 0 ==> f.viewed_profile == Some(
                            o.profiles@[crate::view_state::stepped(
                                crate::tabs::selected_tab(names_of(o.profiles@), opt_view(o.viewed_profile)),
                                d as int,
                                o.profiles@.len() as int,
                            )],
                        )
                        &&& f.same_but_viewed(o)
                    },
                }
            }),
    {
        let command = self.key_command(key);
        match command {
            Command::Quit => Action::Quit,
            Command::SwitchProfile => Action::SwitchProfile,
            Command::BeginEdit => Action::BeginEdit,
            Command::Ignore => Action::Redraw,
            Command::LeaveEdit => if self.request_leave_edit() {
                Action::ReloadQuietly
            } else {
                Action::Redraw
            },
            Command::BackToSelect => {
                match self.editing {
                    Some(m) => {
                        let row = crate::view_state::edit_row(m);
                        self.editing = Some(EditMode::Selecting { row });
                    },
                    None => {},
                }
                Action::Redraw
            },
            Command::ListenKey => match self.editing {
                Some(EditMode::Listening { row, prefix_seen }) => action_of(self.handle_listen_key(key, row, prefix_seen)),
                _ => Action::Redraw,
            },
            Command::ManualKey => match self.editing {
                Some(EditMode::Manual { row }) => action_of(self.handle_manual_key(key, row)),
                _ => Action::Redraw,
            },
            Command::Listen => {
                self.listen_selected();
                Action::Redraw
            },
            Command::MoveSelection(d) => {
                self.move_edit_selection(d, cols, term_rows);
                Action::Redraw
            },
            Command::ManualEdit => {
                self.begin_manual_edit();
                Action::Redraw
            },
            Command::Undo => if self.undo_staged() {
                Action::Reload
            } else if self.last_undo.is_some() {
                Action::RestoreUndo
            } else {
                Action::Redraw
            },
            Command::NextDuplicate => {
                self.next_duplicate(cols, term_rows);
                Action::Redraw
            },
            Command::ToggleDuplicates => {
                self.toggle_duplicates_only(cols, term_rows);
                Action::Redraw
            },
            Command::Scroll(d) => {
                self.scroll(d);
                Action::Redraw
            },
            Command::Save => if self.prepare_save() {
                Action::Commit
            } else {
                Action::Redraw
            },
            Command::Discard => {
                self.discard_edit();
                Action::ReloadQuietly
            },
            Command::StopSearch(clear) => {
                self.searching = false;
                if clear {
                    self.query = String::new();
                    self.refilter();
                }
                Action::Redraw
            },
            Command::ClearQuery => {
                self.query = String::new();
                self.refilter();
                Action::Redraw
            },
            Command::PopQuery => {
                self.query = string_pop(&self.query);
                self.refilter();
                Action::Redraw
            },
            Command::PushQuery(c) => {
                self.query = string_push(&self.query, c);
                self.refilter();
                Action::Redraw
            },
            Command::StartSearch => {
                self.searching = true;
                Action::Redraw
            },
            Command::MoveProfile(d) => if self.move_profile(d) {
                Action::Reload
            } else {
                Action::Redraw
            },
        }
    }
}

impl ViewState {
    /// Carry out a mouse event: the wheel scrolls three rows; outside edit
    /// mode, a click on the tab row views the profile under it.
    pub fn handle_mouse(&mut self, event: MouseInput, cols: usize) -> (action: Action)
        requires
            old(self).wf(),
        ensures
            final(self).wf(),
            ({
                let o = &*old(self);
                let f = &*final(self);
                match event {
                    MouseInput::ScrollUp => action == Action::Redraw && f.offset as int == scrolled(o.offset as int, -3)
                        && f.same_data(o) && f.editing == o.editing && f.filtered == o.filtered,
                    MouseInput::ScrollDown => action == Action::Redraw && f.offset as int == scrolled(o.offset as int, 3)
                        && f.same_data(o) && f.editing == o.editing && f.filtered == o.filtered,
                    MouseInput::LeftClick { column, row } => {
                        let hit = if row == TABS_ROW && o.editing is None && names_total(names_of(o.profiles@)) <= usize::MAX {
                            tab_under(
                                names_of(o.profiles@),
                                opt_view(o.viewed_profile),
                                o.active_profile@,
                                cols as int,
                                column as int,
                            )
                        } else {
                            None
                        };
                        match hit {
                            Some(i) => if 0 <= i < o.profiles@.len() {
                                action == Action::Reload && f.viewed_profile == Some(o.profiles@[i])
                                    && f.same_but_viewed(o)
                            } else {
                                action == Action::Redraw && f.unchanged(o)
                            },
                            None => action == Action::Redraw && f.unchanged(o),
                        }
                    },
                    MouseInput::Other => action == Action::Redraw && f.unchanged(o),
                }
            }),
    {
        match event {
            MouseInput::ScrollUp => {
                self.scroll(-3);
                Action::Redraw
            },
            MouseInput::ScrollDown => {
                self.scroll(3);
                Action::Redraw
            },
            MouseInput::LeftClick { column, row } => {
                if row != TABS_ROW || self.editing.is_some() {
                    return Action::Redraw;
                }
                let ps = self.profiles.as_slice();
                assert(names_view(ps) =~= names_of(self.profiles@));
                if !names_fit(ps) {
                    return Action::Redraw;
                }
                let viewed: Option<&str> = match &self.viewed_profile {
                    Some(v) => Some(v.as_str()),
                    None => None,
                };
                assert(opt_str_view(viewed) == opt_view(self.viewed_profile));
                match tab_at_column(ps, viewed, self.active_profile.as_str(), cols, column) {
                    Some(index) => if self.select_profile(index) {
                        Action::Reload
                    } else {
                        Action::Redraw
                    },
                    None => Action::Redraw,
                }
            },
            MouseInput::Other => Action::Redraw,
        }
    }
}

} // verus!
