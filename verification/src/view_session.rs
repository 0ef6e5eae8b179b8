//! Which profile the popup shows, reloading its rows, and entering edit mode.
//!
//! Reading the profile files and the live config is the caller's part: these
//! transitions say which document the rows come from and take the rows (or
//! the loaded profile) as arguments.
use crate::filter::filtered_indices;
use crate::panel::{rows_view, Row, RowV};
use crate::style::DEFAULT_PROFILE;
use crate::tabs::{first_index, selected_tab};
use crate::text::str_eq;
use crate::toml_doc::{clone_document, same_doc};
use crate::view_state::{
    all_below, edit_viewport, editable_shown, magnitude, mode_row, position_of, scrolled_to, shown_rows, stepped, EditMode,
    UndoEntry, ViewState,
};
use crate::conflicts::{duplicate_partners, is_duplicate, partners, slice_rows};
use toml_edit::DocumentMut;
use vstd::prelude::*;

verus! {

broadcast use vstd::std_specs::hash::group_hash_axioms;

/// The names of the profiles, as plain strings.
pub open spec fn names_of(profiles: Seq<String>) -> Seq<Seq<char>> {
    profiles.map_values(|p: String| p@)
}

/// The profile shown when the popup opens: the active one when it is
/// listed, else the first one, else none.
pub open spec fn start_view(names: Seq<Seq<char>>, active: Seq<char>) -> Option<Seq<char>> {
    if first_index(names, active) >= 0 {
        Some(active)
    } else if names.len() > 0 {
        Some(names[0])
    } else {
        None
    }
}

pub open spec fn opt_view(o: Option<String>) -> Option<Seq<char>> {
    match o {
        Some(s) => Some(s@),
        None => None,
    }
}

proof fn lemma_first_index(names: Seq<Seq<char>>, v: Seq<char>)
    ensures
        -1 <= first_index(names, v) < names.len(),
        first_index(names, v) >= 0 ==> names[first_index(names, v)] == v,
        first_index(names, v) < 0 ==> forall|i: int| 0 <= i < names.len() ==> names[i] != v,
    decreases names.len(),
{
    if names.len() > 0 {
        lemma_first_index(names.drop_first(), v);
        assert forall|i: int| 0 < i < names.len() implies names[i] == names.drop_first()[i - 1] by {}
    }
}

/// The profile viewed when the popup opens: the active one when it is
/// listed, else the first.
pub fn viewed_at_start(profiles: &Vec<String>, active: &str) -> (r: Option<String>)
    ensures
        opt_view(r) == start_view(names_of(profiles@), active@),
{
    let ghost names = names_of(profiles@);
    proof {
        lemma_first_index(names, active@);
    }
    let mut i: usize = 0;
    while i < profiles.len()
        invariant
            names == names_of(profiles@),
            i <= profiles.len(),
            forall|t: int| 0 <= t < i ==> names[t] != active@,
            -1 <= first_index(names, active@) < names.len(),
            first_index(names, active@) >= 0 ==> names[first_index(names, active@)] == active@,
            first_index(names, active@) < 0 ==> forall|t: int| 0 <= t < names.len() ==> names[t] != active@,
        decreases profiles.len() - i,
    {
        if str_eq(profiles[i].as_str(), active) {
            assert(names[i as int] == active@);
            return Some(profiles[i].clone());
        }
        i = i + 1;
    }
    if profiles.len() > 0 {
        assert(names[0] == profiles@[0]@);
        Some(profiles[0].clone())
    } else {
        None
    }
}

/// Where the rows of the viewed profile come from.
pub enum RowSource {
    /// The profile being edited, over the live config's custom commands.
    Working,
    /// The named profile's file, over the live config's custom commands.
    ProfileFile(String),
    /// The live config alone, when no profile is viewed.
    Live,
}

impl ViewState {
    /// The popup as it opens: the given profiles and rows, every row shown,
    /// scrolled to the top, not searching and not editing.
    pub fn new(
        profiles: Vec<String>,
        active_profile: String,
        viewed_profile: Option<String>,
        rows: Vec<Row>,
        last_undo: Option<UndoEntry>,
    ) -> (s: ViewState)
        ensures
            s.wf(),
            s.profiles == profiles,
            s.active_profile == active_profile,
            s.viewed_profile == viewed_profile,
            s.rows == rows,
            s.last_undo == last_undo,
            s.filtered@ == shown_rows(rows_view(rows@), Seq::empty(), false, None),
            s.offset == 0,
            s.query@ == Seq::<char>::empty(),
            !s.searching,
            s.editing is None,
            s.pending_binding is None,
            s.manual_binding@ == Seq::<char>::empty(),
            s.saved_row is None,
            s.original_profile is None,
            s.working_profile is None,
            s.staged_undo is None,
            !s.duplicates_only,
    {
        let query = String::new();
        let rs = rows.as_slice();
        assert(crate::conflicts::slice_rows(rs) =~= rows_view(rows@));
        let filtered = filtered_indices(rs, query.as_str());
        ViewState {
            profiles,
            viewed_profile,
            rows,
            filtered,
            active_profile,
            offset: 0,
            query,
            searching: false,
            editing: None,
            pending_binding: None,
            manual_binding: String::new(),
            saved_row: None,
            last_undo,
            original_profile: None,
            working_profile: None,
            staged_undo: None,
            duplicates_only: false,
        }
    }

    /// Everything but the viewed profile is the same.
    pub open spec fn same_but_viewed(&self, other: &ViewState) -> bool {
        &&& self.profiles == other.profiles
        &&& self.rows == other.rows
        &&& self.filtered == other.filtered
        &&& self.active_profile == other.active_profile
        &&& self.offset == other.offset
        &&& self.query == other.query
        &&& self.searching == other.searching
        &&& self.editing == other.editing
        &&& self.pending_binding == other.pending_binding
        &&& self.manual_binding == other.manual_binding
        &&& self.saved_row == other.saved_row
        &&& self.last_undo == other.last_undo
        &&& self.original_profile == other.original_profile
        &&& self.working_profile == other.working_profile
        &&& self.staged_undo == other.staged_undo
        &&& self.duplicates_only == other.duplicates_only
    }

    /// View the profile at `index`, when there is one; only the viewed
    /// profile changes, never the active one. The result says whether the
    /// rows must then be reloaded.
    pub fn select_profile(&mut self, index: usize) -> (reload: bool)
        requires
            old(self).wf(),
        ensures
            final(self).wf(),
            reload == (index < old(self).profiles@.len()),
            reload ==> final(self).viewed_profile == Some(old(self).profiles@[index as int]),
            !reload ==> final(self).viewed_profile == old(self).viewed_profile,
            final(self).same_but_viewed(&*old(self)),
    {
        if index >= self.profiles.len() {
            return false;
        }
        self.viewed_profile = Some(self.profiles[index].clone());
        true
    }

    /// View the profile `delta` tabs away from the viewed one (the first tab
    /// when none is viewed), stopping at either end. The result says whether
    /// the rows must then be reloaded.
    pub fn move_profile(&mut self, delta: isize) -> (reload: bool)
        requires
            old(self).wf(),
        ensures
            final(self).wf(),
            reload == (old(self).profiles@.len() > 0),
            reload ==> final(self).viewed_profile == Some(
                old(self).profiles@[stepped(
                    selected_tab(names_of(old(self).profiles@), opt_view(old(self).viewed_profile)),
                    delta as int,
                    old(self).profiles@.len() as int,
                )],
            ),
            !reload ==> final(self).viewed_profile == old(self).viewed_profile,
            final(self).same_but_viewed(&*old(self)),
    {
        if self.profiles.len() == 0 {
            return false;
        }
        let ghost names = names_of(self.profiles@);
        let mut current: usize = 0;
        match &self.viewed_profile {
            Some(name) => {
                let mut i: usize = 0;
                let mut found = false;
                while i < self.profiles.len() && !found
                    invariant
                        names == names_of(self.profiles@),
                        i <= self.profiles@.len(),
                        !found ==> forall|t: int| 0 <= t < i ==> names[t] != name@,
                        found ==> i < names.len() && names[i as int] == name@ && forall|t: int|
                            0 <= t < i ==> names[t] != name@,
                    decreases self.profiles.len() - i, !found as int,
                {
                    if str_eq(self.profiles[i].as_str(), name.as_str()) {
                        found = true;
                    } else {
                        i = i + 1;
                    }
                }
                if found {
                    proof {
                        lemma_first_index_is(names, name@, i as int);
                    }
                    current = i;
                } else {
                    proof {
                        lemma_first_index_absent(names, name@);
                    }
                }
            },
            None => {},
        }
        assert(current as int == selected_tab(names, opt_view(self.viewed_profile)));
        let len = self.profiles.len();
        let m = magnitude(delta);
        let next = if delta < 0 {
            current.saturating_sub(m)
        } else if m >= len - 1 - current {
            len - 1
        } else {
            current + m
        };
        self.select_profile(next)
    }
}

impl ViewState {
    /// Everything but the rows and the shown rows is the same.
    pub open spec fn same_but_rows(&self, other: &ViewState) -> bool {
        &&& self.profiles == other.profiles
        &&& self.viewed_profile == other.viewed_profile
        &&& self.active_profile == other.active_profile
        &&& self.offset == other.offset
        &&& self.query == other.query
        &&& self.searching == other.searching
        &&& self.editing == other.editing
        &&& self.pending_binding == other.pending_binding
        &&& self.manual_binding == other.manual_binding
        &&& self.saved_row == other.saved_row
        &&& self.last_undo == other.last_undo
        &&& self.original_profile == other.original_profile
        &&& self.working_profile == other.working_profile
        &&& self.staged_undo == other.staged_undo
        &&& self.duplicates_only == other.duplicates_only
    }

    /// Where the rows of the viewed profile come from: the profile being
    /// edited, else the viewed profile's file, else the live config when no
    /// profile is viewed.
    pub fn row_source(&self) -> (r: RowSource)
        ensures
            match (self.viewed_profile, self.working_profile) {
                (Some(_), Some(_)) => r is Working,
                (Some(name), None) => r matches RowSource::ProfileFile(n) && n == name,
                (None, _) => r is Live,
            },
    {
        match (&self.viewed_profile, &self.working_profile) {
            (Some(_), Some(_)) => RowSource::Working,
            (Some(name), None) => RowSource::ProfileFile(name.clone()),
            (None, _) => RowSource::Live,
        }
    }

    /// Take freshly built rows and recompute the shown rows, keeping the
    /// scroll position so that comparing profiles keeps the place.
    pub fn set_rows(&mut self, rows: Vec<Row>)
        requires
            old(self).wf(),
            old(self).editing matches Some(m) ==> mode_row(m) < rows@.len(),
        ensures
            final(self).wf(),
            final(self).rows == rows,
            final(self).filtered@ == shown_rows(
                rows_view(rows@),
                old(self).query@,
                old(self).duplicates_only,
                old(self).selected(),
            ),
            final(self).same_but_rows(&*old(self)),
    {
        self.rows = rows;
        self.filtered = self.visible_indices();
    }

    /// The profile that edit mode would change: the viewed one, unless it is
    /// the read-only default profile.
    pub fn edit_target(&self) -> (r: Option<String>)
        ensures
            r == match self.viewed_profile {
                Some(v) => if v@ == DEFAULT_PROFILE@ {
                    None
                } else {
                    Some(v)
                },
                None => None,
            },
    {
        match &self.viewed_profile {
            Some(v) => if str_eq(v.as_str(), DEFAULT_PROFILE) {
                None
            } else {
                Some(v.clone())
            },
            None => None,
        }
    }

    /// Begin editing `profile`, the viewed profile as read from its file:
    /// searching stops, the query and the duplicates-only filter are cleared,
    /// and the edit starts from a copy of the profile with nothing staged.
    /// The rows must then be reloaded from it.
    pub fn start_edit(&mut self, profile: DocumentMut)
        requires
            old(self).wf(),
        ensures
            final(self).wf(),
            !final(self).searching,
            final(self).query@ == Seq::<char>::empty(),
            !final(self).duplicates_only,
            final(self).filtered@ == shown_rows(old(self).rows_v(), Seq::empty(), false, old(self).selected()),
            final(self).offset == 0,
            final(self).saved_row is None,
            final(self).original_profile matches Some(o) && same_doc(o, profile),
            final(self).working_profile == Some(profile),
            final(self).staged_undo is None,
            final(self).profiles == old(self).profiles,
            final(self).viewed_profile == old(self).viewed_profile,
            final(self).rows == old(self).rows,
            final(self).active_profile == old(self).active_profile,
            final(self).editing == old(self).editing,
            final(self).pending_binding == old(self).pending_binding,
            final(self).manual_binding == old(self).manual_binding,
            final(self).last_undo == old(self).last_undo,
    {
        self.searching = false;
        self.query = String::new();
        self.duplicates_only = false;
        self.refilter();
        self.saved_row = None;
        self.original_profile = Some(clone_document(&profile));
        self.working_profile = Some(profile);
        self.staged_undo = None;
    }

    /// Give up an edit whose rows could not be loaded: no profile is edited
    /// and nothing is staged.
    pub fn abandon_edit(&mut self)
        requires
            old(self).wf(),
            old(self).editing is None,
        ensures
            final(self).wf(),
            final(self).original_profile is None,
            final(self).working_profile is None,
            final(self).profiles == old(self).profiles,
            final(self).viewed_profile == old(self).viewed_profile,
            final(self).rows == old(self).rows,
            final(self).filtered == old(self).filtered,
            final(self).active_profile == old(self).active_profile,
            final(self).offset == old(self).offset,
            final(self).query == old(self).query,
            final(self).searching == old(self).searching,
            final(self).editing == old(self).editing,
            final(self).pending_binding == old(self).pending_binding,
            final(self).manual_binding == old(self).manual_binding,
            final(self).saved_row == old(self).saved_row,
            final(self).last_undo == old(self).last_undo,
            final(self).staged_undo is None,
            final(self).duplicates_only == old(self).duplicates_only,
    {
        self.original_profile = None;
        self.working_profile = None;
        self.staged_undo = None;
    }

    /// With the edited profile's rows loaded: show every matching row from
    /// the top and select the first editable one, scrolled into view.
    pub fn enter_edit(&mut self, cols: usize, term_rows: usize)
        requires
            old(self).wf(),
            old(self).working_profile is Some,
        ensures
            final(self).wf(),
            final(self).filtered@ == shown_rows(
                old(self).rows_v(),
                old(self).query@,
                old(self).duplicates_only,
                old(self).selected(),
            ),
            final(self).same_data(&*old(self)),
            final(self).duplicates_only == old(self).duplicates_only,
            final(self).saved_row == old(self).saved_row,
            if editable_shown(old(self).rows_v(), final(self).filtered@).len() > 0 {
                let row = editable_shown(old(self).rows_v(), final(self).filtered@)[0];
                &&& final(self).editing == Some(EditMode::Selecting { row })
                &&& final(self).offset == if position_of(final(self).filtered@, row) < 0 {
                    0
                } else {
                    scrolled_to(0, position_of(final(self).filtered@, row), edit_viewport(cols as int, term_rows as int))
                }
            } else {
                final(self).editing == old(self).editing && final(self).offset == 0
            },
    {
        self.refilter();
        proof {
            lemma_editable_below(self.rows_v(), self.filtered@, self.rows@.len() as int);
        }
        match self.first_editable_row() {
            Some(row) => {
                self.editing = Some(EditMode::Selecting { row });
                self.keep_edit_row_visible(row, cols, term_rows);
            },
            None => {},
        }
    }
}

/// The rows sharing the shortcut of the row selected in edit mode, if any.
pub fn selected_conflict(state: &ViewState) -> (r: Option<Vec<usize>>)
    requires
        state.wf(),
    ensures
        match state.editing {
            Some(EditMode::Selecting { row }) => if is_duplicate(state.rows_v(), row as int) {
                r matches Some(v) && v@ == partners(state.rows_v(), row as int)
            } else {
                r is None
            },
            _ => r is None,
        },
{
    let row = match state.editing {
        Some(EditMode::Selecting { row }) => row,
        _ => {
            return None;
        },
    };
    let rs = state.rows.as_slice();
    assert(slice_rows(rs) =~= state.rows_v());
    let mut m = duplicate_partners(rs);
    m.remove(&row)
}

proof fn lemma_editable_below(rows: Seq<RowV>, s: Seq<usize>, n: int)
    requires
        all_below(s, n),
    ensures
        all_below(editable_shown(rows, s), n),
    decreases s.len(),
{
    if s.len() > 0 {
        lemma_editable_below(rows, s.drop_last(), n);
    }
}

proof fn lemma_first_index_is(names: Seq<Seq<char>>, v: Seq<char>, i: int)
    requires
        0 <= i < names.len(),
        names[i] == v,
        forall|t: int| 0 <= t < i ==> names[t] != v,
    ensures
        first_index(names, v) == i,
    decreases i,
{
    if i > 0 {
        assert forall|t: int| 0 <= t < i - 1 implies names.drop_first()[t] != v by {
            assert(names.drop_first()[t] == names[t + 1]);
        }
        lemma_first_index_is(names.drop_first(), v, i - 1);
    }
}

proof fn lemma_first_index_absent(names: Seq<Seq<char>>, v: Seq<char>)
    requires
        forall|t: int| 0 <= t < names.len() ==> names[t] != v,
    ensures
        first_index(names, v) == -1,
    decreases names.len(),
{
    if names.len() > 0 {
        assert forall|t: int| 0 <= t < names.drop_first().len() implies names.drop_first()[t] != v by {
            assert(names.drop_first()[t] == names[t + 1]);
        }
        lemma_first_index_absent(names.drop_first(), v);
    }
}

} // verus!
