//! The state of the keybinds popup and its transitions.
//!
//! Everything the popup needs to redraw itself: the full row list, the
//! current search's visible subset of it, and cursor/mode state. Transitions
//! that need the disk or Herdr (loading a profile, saving one, reloading the
//! rows) report what is to be done and leave the doing to the caller.
use crate::conflicts::{duplicate_partners, duplicate_rows, is_duplicate, is_editable, partners, row_config_key, slice_rows};
use crate::filter::{filtered, filtered_indices, increasing_below};
use crate::footer::{footer_hints, footer_segments, hints_view, total_width, wrap_footer, wrapped};
use crate::panel::{rows_view, Row, RowV};
use crate::keybinds_data::{panel_sections, row_view, sections, sections_view, Row as DataRow, RowView, SectionView};
use crate::key_input::{key_event_binding, binding_of, KeyCode, KeyEvent};
use crate::keys::{get_item, remove_scalar, scalar_overrides, scalar_pairs, set_item, set_scalar, shown};
use crate::panel::string_of;
use crate::text::{str_eq, string_pop, string_push, str_chars, chars_eq, to_ascii_lower, ascii_lower_seq};
use crate::toml_doc::{
    clone_document, doc_text, item_view, keys_is_table, keys_slots, keys_writable, remove_slot, render_document,
    same_doc, set_slot, string_value_view, visible,
};
use toml_edit::{DocumentMut, Item};
use vstd::prelude::*;

verus! {

/// What the editor is doing with a row.
#[derive(Clone, Copy, Debug, PartialEq, Eq, Structural)]
pub enum EditMode {
    Selecting { row: usize },
    Listening { row: usize, prefix_seen: bool },
    Manual { row: usize },
    Confirming { row: usize },
}

pub open spec fn mode_row(m: EditMode) -> usize {
    match m {
        EditMode::Selecting { row } => row,
        EditMode::Listening { row, .. } => row,
        EditMode::Manual { row } => row,
        EditMode::Confirming { row } => row,
    }
}

pub fn edit_row(m: EditMode) -> (r: usize)
    ensures
        r == mode_row(m),
{
    match m {
        EditMode::Selecting { row } | EditMode::Listening { row, .. } | EditMode::Manual { row } | EditMode::Confirming { row } => row,
    }
}

/// What recording a binding came to.
#[derive(Clone, Copy, Debug, PartialEq, Eq, Structural)]
pub enum Record {
    /// Nothing was recorded: the row has no field, or no profile is edited.
    Nothing,
    /// The binding was recorded; the rows must then be reloaded.
    Saved,
    /// The edited profile's `keys` is not a table, so no binding can be
    /// written to it; nothing changed.
    KeysNotTable,
}

/// The last saved profile change, kept so that it can be undone.
pub struct UndoEntry {
    pub profile_name: String,
    pub profile_previous: DocumentMut,
    pub live_previous: Option<DocumentMut>,
    pub active_profile: String,
}

pub struct ViewState {
    pub profiles: Vec<String>,
    pub viewed_profile: Option<String>,
    pub rows: Vec<Row>,
    pub filtered: Vec<usize>,
    pub active_profile: String,
    pub offset: usize,
    pub query: String,
    pub searching: bool,
    pub editing: Option<EditMode>,
    pub pending_binding: Option<String>,
    pub manual_binding: String,
    pub saved_row: Option<usize>,
    pub last_undo: Option<UndoEntry>,
    pub original_profile: Option<DocumentMut>,
    pub working_profile: Option<DocumentMut>,
    pub staged_undo: Option<(String, Option<Item>)>,
    /// Edit-mode quick filter: show only duplicated rows (plus the selection).
    pub duplicates_only: bool,
}

/// Headers and duplicated entries among the `matching` indices: an entry is
/// kept when it is duplicated or selected, with the section header above it
/// (once).
pub open spec fn dups_run(rows: Seq<RowV>, matching: Seq<usize>, selected: Option<usize>, n: int) -> (Option<usize>, Seq<usize>)
    decreases n,
{
    if n <= 0 {
        (None, Seq::empty())
    } else {
        let st = dups_run(rows, matching, selected, n - 1);
        let idx = matching[n - 1];
        match rows[idx as int] {
            RowV::Section(_) => (Some(idx), st.1),
            RowV::Blank => st,
            RowV::Entry { .. } => if is_duplicate(rows, idx as int) || selected == Some(idx) {
                (None, (match st.0 {
                    Some(h) => st.1.push(h),
                    None => st.1,
                }).push(idx))
            } else {
                st
            },
        }
    }
}

/// The duplicates-only narrowing keeps the shown rows ascending: what it
/// keeps comes from the first `n` matching indices, and a pending header
/// lies above everything kept so far.
proof fn lemma_dups_run_increasing(rows: Seq<RowV>, m: Seq<usize>, selected: Option<usize>, n: int, bound: int)
    requires
        0 <= n <= m.len(),
        increasing_below(m, bound),
    ensures
        increasing_below(dups_run(rows, m, selected, n).1, bound),
        n > 0 ==> forall|t: int| 0 <= t < dups_run(rows, m, selected, n).1.len() ==> #[trigger] dups_run(rows, m, selected, n).1[t] <= m[n - 1],
        n > 0 ==> (dups_run(rows, m, selected, n).0 matches Some(h) ==> h <= m[n - 1] && h < bound && forall|t: int|
            0 <= t < dups_run(rows, m, selected, n).1.len() ==> #[trigger] dups_run(rows, m, selected, n).1[t] < h),
        n == 0 ==> dups_run(rows, m, selected, n).0 is None && dups_run(rows, m, selected, n).1.len() == 0,
    decreases n,
{
    if n > 0 {
        lemma_dups_run_increasing(rows, m, selected, n - 1, bound);
        let st = dups_run(rows, m, selected, n - 1);
        let idx = m[n - 1];
        if n > 1 {
            assert(m[n - 2] < m[n - 1]);
        }
        match rows[idx as int] {
            RowV::Entry { .. } => if is_duplicate(rows, idx as int) || selected == Some(idx) {
                let base = match st.0 {
                    Some(h) => st.1.push(h),
                    None => st.1,
                };
                assert forall|t: int| 0 <= t < base.len() implies #[trigger] base[t] < idx by {
                    if t < st.1.len() {
                        assert(base[t] == st.1[t]);
                    }
                }
                assert(increasing_below(base, bound));
            },
            _ => {},
        }
    }
}

/// The rows shown are rows, in ascending order, each at most once,
/// whatever the query, the duplicates-only filter and the selection: the
/// popup keeps this after every transition, reloads included.
pub proof fn law_shown_rows_ascending(rows: Seq<RowV>, query: Seq<char>, duplicates_only: bool, selected: Option<usize>)
    requires
        rows.len() <= usize::MAX,
    ensures
        increasing_below(shown_rows(rows, query, duplicates_only, selected), rows.len() as int),
{
    let m = filtered(rows, query);
    if query.len() == 0 {
        assert(increasing_below(m, rows.len() as int));
    } else {
        crate::filter::lemma_filter_run(rows, query, rows.len() as int);
    }
    if duplicates_only {
        lemma_dups_run_increasing(rows, m, selected, m.len() as int, rows.len() as int);
    }
}

/// The rows shown for a query, narrowed to duplicates when asked.
pub open spec fn shown_rows(rows: Seq<RowV>, query: Seq<char>, duplicates_only: bool, selected: Option<usize>) -> Seq<usize> {
    let m = filtered(rows, query);
    if !duplicates_only {
        m
    } else {
        dups_run(rows, m, selected, m.len() as int).1
    }
}

/// The editing footer's line count for a width.
pub open spec fn edit_footer_lines(cols: int) -> int {
    wrapped(footer_hints(false, true, false, false, false, false), cols).len() as int
}

/// Rows visible while editing: the terminal height less the fixed chrome and
/// the footer, at least one.
pub open spec fn edit_viewport(cols: int, term_rows: int) -> int {
    let v = term_rows - (6 + edit_footer_lines(cols));
    if v > 1 { v } else { 1 }
}

/// The scroll offset that keeps `position` in a viewport of `viewport` rows.
pub open spec fn scrolled_to(offset: int, position: int, viewport: int) -> int {
    if position < offset {
        position
    } else if position - offset >= viewport {
        position + 1 - viewport
    } else {
        offset
    }
}

/// The first position of `row` in `s`, or -1.
pub open spec fn position_of(s: Seq<usize>, row: usize) -> int
    decreases s.len(),
{
    if s.len() == 0 {
        -1
    } else if position_of(s.drop_last(), row) >= 0 {
        position_of(s.drop_last(), row)
    } else if s.last() == row {
        s.len() - 1
    } else {
        -1
    }
}

/// The editable rows among the shown ones, in order.
pub open spec fn editable_shown(rows: Seq<RowV>, shown: Seq<usize>) -> Seq<usize>
    decreases shown.len(),
{
    if shown.len() == 0 {
        Seq::empty()
    } else if is_editable(rows[shown.last() as int]) {
        editable_shown(rows, shown.drop_last()).push(shown.last())
    } else {
        editable_shown(rows, shown.drop_last())
    }
}

/// The editable duplicated rows among the shown ones, in order.
pub open spec fn duplicate_candidates(rows: Seq<RowV>, shown: Seq<usize>) -> Seq<usize>
    decreases shown.len(),
{
    if shown.len() == 0 {
        Seq::empty()
    } else if is_duplicate(rows, shown.last() as int) && is_editable(rows[shown.last() as int]) {
        duplicate_candidates(rows, shown.drop_last()).push(shown.last())
    } else {
        duplicate_candidates(rows, shown.drop_last())
    }
}

/// The first element of `s` above `row`, else the first element.
pub open spec fn next_after(s: Seq<usize>, row: usize) -> Option<usize>
    decreases s.len(),
{
    if s.len() == 0 {
        None
    } else {
        match next_above(s, row) {
            Some(x) => Some(x),
            None => Some(s[0]),
        }
    }
}

pub open spec fn next_above(s: Seq<usize>, row: usize) -> Option<usize>
    decreases s.len(),
{
    if s.len() == 0 {
        None
    } else if s[0] > row {
        Some(s[0])
    } else {
        next_above(s.drop_first(), row)
    }
}

pub open spec fn all_below(s: Seq<usize>, n: int) -> bool {
    forall|i: int| 0 <= i < s.len() ==> #[trigger] s[i] < n
}

proof fn lemma_footer_widths()
    ensures
        forall|a: bool, b: bool, c: bool, d: bool, e: bool, f: bool| #[trigger] total_width(footer_hints(a, b, c, d, e, f)) <= 1000,
{
    reveal_strlit("filter");
    reveal_strlit("type/backspace");
    reveal_strlit("clear");
    reveal_strlit("ctrl+u");
    reveal_strlit("scroll");
    reveal_strlit("\u{2191}\u{2193}/pgup/pgdn");
    reveal_strlit("back");
    reveal_strlit("esc");
    reveal_strlit("save");
    reveal_strlit("y/enter");
    reveal_strlit("discard");
    reveal_strlit("n");
    reveal_strlit("capture");
    reveal_strlit("direct/prefix");
    reveal_strlit("enter");
    reveal_strlit("retry");
    reveal_strlit("backspace");
    reveal_strlit("cancel");
    reveal_strlit("esc/ctrl+c");
    reveal_strlit("type");
    reveal_strlit("text/backspace");
    reveal_strlit("select");
    reveal_strlit("j/k/\u{2191}\u{2193}");
    reveal_strlit("listen");
    reveal_strlit("manual");
    reveal_strlit("m");
    reveal_strlit("next duplicate");
    reveal_strlit("d");
    reveal_strlit("duplicates only");
    reveal_strlit("f");
    reveal_strlit("pgup/pgdn");
    reveal_strlit("edit");
    reveal_strlit("e");
    reveal_strlit("undo");
    reveal_strlit("u");
    reveal_strlit("search");
    reveal_strlit("/");
    reveal_strlit("tabs");
    reveal_strlit("\u{2190}/\u{2192}/click");
    reveal_strlit("j/k/\u{2191}\u{2193}/pgup/pgdn");
    reveal_strlit("switch active profile");
    reveal_strlit("shift+k");
    reveal_strlit("close");
    reveal_strlit("esc/enter/q");
    assert forall|a: bool, b: bool, c: bool, d: bool, e: bool, f: bool| #[trigger] total_width(footer_hints(a, b, c, d, e, f)) <= 1000 by {
        reveal_with_fuel(total_width, 8);
    }
}

/// The footer lines for a mode at a width.
pub fn footer_lines(
    cols: usize,
    searching: bool,
    editing: bool,
    listening: bool,
    manual: bool,
    prefix_listening: bool,
    confirming: bool,
) -> (lines: Vec<String>)
    ensures
        lines@.map_values(|l: String| l@) == wrapped(
            footer_hints(searching, editing, listening, manual, prefix_listening, confirming),
            cols as int,
        ),
{
    let segs = footer_segments(searching, editing, listening, manual, prefix_listening, confirming);
    proof {
        lemma_footer_widths();
        assert(total_width(footer_hints(searching, editing, listening, manual, prefix_listening, confirming)) <= 1000);
    }
    wrap_footer(segs.as_slice(), cols)
}

/// Rows visible while editing.
pub fn edit_viewport_of(cols: usize, term_rows: usize) -> (v: usize)
    ensures
        v as int == edit_viewport(cols as int, term_rows as int),
{
    let lines = footer_lines(cols, false, true, false, false, false, false).len();
    assert(lines as int == edit_footer_lines(cols as int));
    let chrome = if lines <= usize::MAX - 6 { 6 + lines } else { usize::MAX };
    let v = if term_rows > chrome { term_rows - chrome } else { 0 };
    if v > 1 { v } else { 1 }
}

impl ViewState {
    pub open spec fn rows_v(&self) -> Seq<RowV> {
        rows_view(self.rows@)
    }

    pub open spec fn selected(&self) -> Option<usize> {
        match self.editing {
            Some(m) => Some(mode_row(m)),
            None => None,
        }
    }

    /// Everything but the selection, the scroll position, the shown rows and
    /// the duplicates-only filter is the same.
    pub open spec fn same_data(&self, other: &ViewState) -> bool {
        &&& self.profiles == other.profiles
        &&& self.viewed_profile == other.viewed_profile
        &&& self.rows == other.rows
        &&& self.active_profile == other.active_profile
        &&& self.query == other.query
        &&& self.searching == other.searching
        &&& self.pending_binding == other.pending_binding
        &&& self.manual_binding == other.manual_binding
        &&& self.last_undo == other.last_undo
        &&& self.original_profile == other.original_profile
        &&& self.working_profile == other.working_profile
        &&& self.staged_undo == other.staged_undo
    }

    /// The invariant of the popup's state: the shown rows are rows, in
    /// ascending order; the edited row is a row and is edited against a
    /// working profile; and a staged edit was made to a working profile whose
    /// `keys` is a table.
    pub open spec fn wf(&self) -> bool {
        &&& all_below(self.filtered@, self.rows@.len() as int)
        &&& self.editing matches Some(m) ==> mode_row(m) < self.rows@.len() && self.working_profile is Some
        &&& self.staged_undo is Some ==> (self.working_profile matches Some(w) && keys_is_table(w))
        &&& increasing_below(self.filtered@, self.rows@.len() as int)
    }

    /// Rows matching the query, narrowed to duplicates (with their section
    /// headers) when the duplicates-only filter is on. The selected row stays
    /// visible after it is fixed so the selection never disappears.
    pub fn visible_indices(&self) -> (r: Vec<usize>)
        ensures
            r@ == shown_rows(self.rows_v(), self.query@, self.duplicates_only, self.selected()),
            all_below(r@, self.rows@.len() as int),
            increasing_below(r@, self.rows@.len() as int),
    {
        let rs = self.rows.as_slice();
        let ghost rv = self.rows_v();
        assert(slice_rows(rs) =~= rv);
        let matching = filtered_indices(rs, self.query.as_str());
        if !self.duplicates_only {
            return matching;
        }
        let duplicates = duplicate_rows(rs);
        let selected = match self.editing {
            Some(m) => Some(edit_row(m)),
            None => None,
        };
        let ghost m = matching@;
        proof {
            lemma_dups_run_increasing(rv, m, selected, m.len() as int, self.rows@.len() as int);
        }
        let mut result: Vec<usize> = Vec::new();
        let mut section: Option<usize> = None;
        let mut i: usize = 0;
        while i < matching.len()
            invariant
                rv == self.rows_v(),
                rv.len() == self.rows@.len(),
                m == matching@,
                increasing_below(m, self.rows@.len() as int),
                selected == self.selected(),
                forall|t: usize| #[trigger] duplicates@.contains(t) <==> (t < self.rows@.len() && is_duplicate(rv, t as int)),
                i <= matching.len(),
                (section, result@) == dups_run(rv, m, selected, i as int),
                all_below(result@, self.rows@.len() as int),
                section matches Some(h) ==> h < self.rows@.len(),
            decreases matching.len() - i,
        {
            let index = matching[i];
            assert(self.rows@[index as int]@ == rv[index as int]);
            match &self.rows[index] {
                Row::Section(_) => {
                    section = Some(index);
                },
                Row::Blank => {},
                Row::Entry { .. } => {
                    if duplicates.contains(&index) || selected == Some(index) {
                        match section {
                            Some(header) => {
                                result.push(header);
                            },
                            None => {},
                        }
                        section = None;
                        result.push(index);
                    }
                },
            }
            i = i + 1;
        }
        result
    }

    /// Recompute `filtered` from the current query and jump back to the top.
    /// Profile changes reload instead, so comparison scrolling is preserved.
    pub fn refilter(&mut self)
        requires
            old(self).wf(),
        ensures
            final(self).wf(),
            refiltered(&*old(self), &*final(self)),

    {
        self.filtered = self.visible_indices();
        self.offset = 0;
    }

    /// Scroll so that `row` is shown, when it is among the shown rows.
    pub fn keep_edit_row_visible(&mut self, row: usize, cols: usize, term_rows: usize)
        ensures
            final(self).offset == if position_of(old(self).filtered@, row) < 0 {
                old(self).offset as int
            } else {
                scrolled_to(
                    old(self).offset as int,
                    position_of(old(self).filtered@, row),
                    edit_viewport(cols as int, term_rows as int),
                )
            },
            final(self).filtered == old(self).filtered,
            final(self).same_data(&*old(self)),
            final(self).editing == old(self).editing,
            final(self).saved_row == old(self).saved_row,
            final(self).duplicates_only == old(self).duplicates_only,
    {
        let ghost f = self.filtered@;
        let mut p: usize = 0;
        let mut found = false;
        assert(f.take(0) =~= Seq::<usize>::empty());
        while p < self.filtered.len() && !found
            invariant
                f == self.filtered@,
                p <= f.len(),
                !found ==> position_of(f.take(p as int), row) < 0,
                found ==> p < f.len() && position_of(f, row) == p,
                !found ==> (position_of(f, row) < 0 || position_of(f, row) >= p),
            decreases f.len() - p, !found as int,
        {
            proof {
                lemma_position_prefix(f, row, p as int);
            }
            if self.filtered[p] == row {
                found = true;
            } else {
                p = p + 1;
                assert(f.take(p as int).drop_last() =~= f.take(p - 1));
                proof {
                    lemma_position_extend(f, row, p as int);
                }
            }
        }
        if !found {
            assert(f.take(f.len() as int) =~= f);
            return;
        }
        let position = p;
        let viewport = edit_viewport_of(cols, term_rows);
        if position < self.offset {
            self.offset = position;
        } else if position - self.offset >= viewport {
            self.offset = position + 1 - viewport;
        }
    }
}

proof fn lemma_position_prefix(s: Seq<usize>, row: usize, p: int)
    requires
        0 <= p < s.len(),
        position_of(s.take(p), row) < 0,
    ensures
        s[p] == row ==> position_of(s, row) == p,
        s[p] != row ==> position_of(s.take(p + 1), row) < 0,
        position_of(s, row) < 0 || position_of(s, row) >= p,
    decreases s.len(),
{
    assert(s.take(p + 1).drop_last() =~= s.take(p));
    lemma_position_extend(s, row, p + 1);
}

proof fn lemma_position_extend(s: Seq<usize>, row: usize, p: int)
    requires
        0 <= p <= s.len(),
    ensures
        position_of(s.take(p), row) >= 0 ==> position_of(s, row) == position_of(s.take(p), row),
        position_of(s.take(p), row) < 0 ==> (position_of(s, row) < 0 || position_of(s, row) >= p),
    decreases s.len() - p,
{
    if p < s.len() {
        assert(s.take(p + 1).drop_last() =~= s.take(p));
        lemma_position_extend(s, row, p + 1);
    } else {
        assert(s.take(p) =~= s);
    }
}

/// The offset after scrolling by `delta` rows, clamped at zero (and at the
/// largest offset).
pub open spec fn scrolled(offset: int, delta: int) -> int {
    if delta < 0 {
        if offset + delta < 0 { 0 } else { offset + delta }
    } else if offset + delta > usize::MAX {
        usize::MAX as int
    } else {
        offset + delta
    }
}

/// The position one step of `delta` moves to in a list of `len` entries,
/// clamped to the list.
pub open spec fn stepped(current: int, delta: int, len: int) -> int {
    if delta < 0 {
        if current + delta < 0 { 0 } else { current + delta }
    } else {
        let last = if len >= 1 { len - 1 } else { 0 };
        if current + delta < last { current + delta } else { last }
    }
}

/// The magnitude of a signed step.
pub(crate) fn magnitude(delta: isize) -> (m: usize)
    ensures
        m as int == if delta < 0 { -(delta as int) } else { delta as int },
{
    if delta < 0 {
        let wide: i128 = delta as i128;
        (0i128 - wide) as usize
    } else {
        delta as usize
    }
}

impl ViewState {
    /// Flip the duplicates-only filter, refilter, and keep the selection in
    /// view.
    pub fn toggle_duplicates_only(&mut self, cols: usize, term_rows: usize)
        requires
            old(self).wf(),
        ensures
            final(self).wf(),
            duplicates_toggled(&*old(self), &*final(self), cols, term_rows),

    {
        self.duplicates_only = !self.duplicates_only;
        self.refilter();
        match self.editing {
            Some(EditMode::Selecting { row }) => self.keep_edit_row_visible(row, cols, term_rows),
            _ => {},
        }
    }

    /// Move the selection to the next editable duplicated row, wrapping.
    pub fn next_duplicate(&mut self, cols: usize, term_rows: usize)
        requires
            old(self).wf(),
        ensures
            final(self).wf(),
            next_duplicate_selected(&*old(self), &*final(self), cols, term_rows),

    {
        let row = match self.editing {
            Some(EditMode::Selecting { row }) => row,
            _ => {
                return;
            },
        };
        let rs = self.rows.as_slice();
        let ghost rv = self.rows_v();
        assert(slice_rows(rs) =~= rv);
        let duplicates = duplicate_rows(rs);
        let ghost f = self.filtered@;
        let mut candidates: Vec<usize> = Vec::new();
        let mut i: usize = 0;
        assert(f.take(0) =~= Seq::<usize>::empty());
        while i < self.filtered.len()
            invariant
                f == self.filtered@,
                rv == self.rows_v(),
                rv.len() == self.rows@.len(),
                all_below(f, self.rows@.len() as int),
                forall|t: usize| #[trigger] duplicates@.contains(t) <==> (t < self.rows@.len() && is_duplicate(rv, t as int)),
                i <= f.len(),
                candidates@ == duplicate_candidates(rv, f.take(i as int)),
                all_below(candidates@, self.rows@.len() as int),
            decreases f.len() - i,
        {
            let index = self.filtered[i];
            assert(self.rows@[index as int]@ == rv[index as int]);
            assert(f.take(i + 1).drop_last() =~= f.take(i as int));
            if duplicates.contains(&index) && row_config_key(&self.rows[index]).is_some() {
                candidates.push(index);
            }
            i = i + 1;
        }
        assert(f.take(f.len() as int) =~= f);
        if candidates.len() == 0 {
            return;
        }
        let ghost c = candidates@;
        let mut next = candidates[0];
        let mut j: usize = 0;
        let mut found = false;
        assert(c.skip(0) =~= c);
        while j < candidates.len() && !found
            invariant
                c == candidates@,
                c.len() > 0,
                j <= c.len(),
                all_below(c, self.rows@.len() as int),
                !found ==> next_above(c, row) == next_above(c.skip(j as int), row),
                found ==> next_above(c, row) == Some(next),
                !found ==> next == c[0],
                next < self.rows@.len(),
            decreases c.len() - j, !found as int,
        {
            assert(c.skip(j as int)[0] == c[j as int]);
            assert(c.skip(j as int).drop_first() =~= c.skip(j + 1));
            if candidates[j] > row {
                next = candidates[j];
                found = true;
            } else {
                j = j + 1;
            }
        }
        if !found {
            assert(c.skip(j as int).len() == 0);
        }
        self.saved_row = None;
        self.editing = Some(EditMode::Selecting { row: next });
        self.keep_edit_row_visible(next, cols, term_rows);
    }

    /// Move the scroll offset by `delta` rows, clamping at zero.
    pub fn scroll(&mut self, delta: isize)
        ensures
            scrolled_by(&*old(self), &*final(self), delta),

    {
        let m = magnitude(delta);
        self.offset = if delta < 0 {
            self.offset.saturating_sub(m)
        } else {
            self.offset.saturating_add(m)
        };
    }

    /// The first shown row that the editor can change.
    pub fn first_editable_row(&self) -> (r: Option<usize>)
        requires
            self.wf(),
        ensures
            r == (if editable_shown(self.rows_v(), self.filtered@).len() > 0 {
                Some(editable_shown(self.rows_v(), self.filtered@)[0])
            } else {
                None
            }),
    {
        let ghost rv = self.rows_v();
        let ghost f = self.filtered@;
        let mut i: usize = 0;
        while i < self.filtered.len()
            invariant
                f == self.filtered@,
                rv == self.rows_v(),
                rv.len() == self.rows@.len(),
                all_below(f, self.rows@.len() as int),
                i <= f.len(),
                editable_shown(rv, f.take(i as int)).len() == 0,
            decreases f.len() - i,
        {
            let index = self.filtered[i];
            assert(self.rows@[index as int]@ == rv[index as int]);
            assert(f.take(i + 1).drop_last() =~= f.take(i as int));
            proof {
                lemma_editable_prefix(rv, f, i as int + 1);
            }
            if row_config_key(&self.rows[index]).is_some() {
                assert(editable_shown(rv, f.take(i + 1)) =~= seq![index]);
                proof {
                    lemma_editable_mono(rv, f, i as int + 1);
                }
                return Some(index);
            }
            i = i + 1;
        }
        assert(f.take(f.len() as int) =~= f);
        None
    }

    /// Move the selection by `delta` editable rows; past the first/last
    /// editable row, keep scrolling so read-only rows (such as the trailing
    /// custom section) can still be reviewed.
    pub fn move_edit_selection(&mut self, delta: isize, cols: usize, term_rows: usize)
        requires
            old(self).wf(),
        ensures
            final(self).wf(),
            selection_moved(&*old(self), &*final(self), delta, cols, term_rows),

    {
        let row = match self.editing {
            Some(EditMode::Selecting { row }) => row,
            _ => {
                return;
            },
        };
        let ghost rv = self.rows_v();
        let ghost f = self.filtered@;
        let mut editable: Vec<usize> = Vec::new();
        let mut i: usize = 0;
        assert(f.take(0) =~= Seq::<usize>::empty());
        while i < self.filtered.len()
            invariant
                f == self.filtered@,
                rv == self.rows_v(),
                rv.len() == self.rows@.len(),
                all_below(f, self.rows@.len() as int),
                i <= f.len(),
                editable@ == editable_shown(rv, f.take(i as int)),
                all_below(editable@, self.rows@.len() as int),
            decreases f.len() - i,
        {
            let index = self.filtered[i];
            assert(self.rows@[index as int]@ == rv[index as int]);
            assert(f.take(i + 1).drop_last() =~= f.take(i as int));
            if row_config_key(&self.rows[index]).is_some() {
                editable.push(index);
            }
            i = i + 1;
        }
        assert(f.take(f.len() as int) =~= f);
        let ghost e = editable@;
        let mut p: usize = 0;
        let mut found = false;
        assert(e.take(0) =~= Seq::<usize>::empty());
        while p < editable.len() && !found
            invariant
                e == editable@,
                p <= e.len(),
                !found ==> position_of(e.take(p as int), row) < 0,
                found ==> p < e.len() && position_of(e, row) == p,
                !found ==> (position_of(e, row) < 0 || position_of(e, row) >= p),
            decreases e.len() - p, !found as int,
        {
            proof {
                lemma_position_prefix(e, row, p as int);
            }
            if editable[p] == row {
                found = true;
            } else {
                p = p + 1;
                assert(e.take(p as int).drop_last() =~= e.take(p - 1));
                proof {
                    lemma_position_extend(e, row, p as int);
                }
            }
        }
        if !found {
            assert(e.take(e.len() as int) =~= e);
            return;
        }
        let current = p;
        let m = magnitude(delta);
        let next = if delta < 0 {
            current.saturating_sub(m)
        } else {
            let last = editable.len().saturating_sub(1);
            if m < last - current { current + m } else { last }
        };
        if next == current {
            self.scroll(delta);
            return;
        }
        let row = editable[next];
        self.saved_row = None;
        self.editing = Some(EditMode::Selecting { row });
        self.keep_edit_row_visible(row, cols, term_rows);
    }

    /// Start listening for a new binding of the selected row.
    pub fn listen_selected(&mut self)
        ensures
            listening_started(&*old(self), &*final(self)),

    {
        if let Some(EditMode::Selecting { row }) = self.editing {
            self.saved_row = None;
            self.pending_binding = None;
            self.editing = Some(EditMode::Listening { row, prefix_seen: false });
        }
    }

    /// Whether some row still shares its shortcut.
    pub fn has_unresolved_duplicates(&self) -> (r: bool)
        ensures
            r == exists|i: int| 0 <= i < self.rows@.len() && is_duplicate(self.rows_v(), i),
    {
        let rs = self.rows.as_slice();
        assert(slice_rows(rs) =~= self.rows_v());
        let d = duplicate_rows(rs);
        let mut i: usize = 0;
        while i < self.rows.len()
            invariant
                i <= self.rows@.len(),
                forall|t: usize| #[trigger] d@.contains(t) <==> (t < self.rows@.len() && is_duplicate(self.rows_v(), t as int)),
                forall|t: int| 0 <= t < i ==> !is_duplicate(self.rows_v(), t),
            decreases self.rows.len() - i,
        {
            if d.contains(&i) {
                return true;
            }
            i = i + 1;
        }
        false
    }
}

proof fn lemma_editable_mono(rows: Seq<RowV>, s: Seq<usize>, k: int)
    requires
        0 <= k <= s.len(),
    ensures
        editable_shown(rows, s).len() >= editable_shown(rows, s.take(k)).len(),
        forall|t: int| 0 <= t < editable_shown(rows, s.take(k)).len() ==> editable_shown(rows, s)[t] == editable_shown(rows, s.take(k))[t],
    decreases s.len() - k,
{
    if k < s.len() {
        lemma_editable_mono(rows, s, k + 1);
        assert(s.take(k + 1).drop_last() =~= s.take(k));
    } else {
        assert(s.take(k) =~= s);
    }
}

proof fn lemma_editable_prefix(rows: Seq<RowV>, f: Seq<usize>, p: int)
    requires
        0 < p <= f.len(),
        editable_shown(rows, f.take(p - 1)).len() == 0,
    ensures
        is_editable(rows[f[p - 1] as int]) ==> editable_shown(rows, f.take(p)) =~= seq![f[p - 1]],
        !is_editable(rows[f[p - 1] as int]) ==> editable_shown(rows, f.take(p)).len() == 0,
{
    assert(f.take(p).drop_last() =~= f.take(p - 1));
    assert(f.take(p).last() == f[p - 1]);
}

/// Every panel row, section after section.
pub open spec fn panel_rows_flat(secs: Seq<SectionView>) -> Seq<RowView>
    decreases secs.len(),
{
    if secs.len() == 0 {
        Seq::empty()
    } else {
        panel_rows_flat(secs.drop_last()) + secs.last().1
    }
}

/// The default of the first row with config key `key`.
pub open spec fn first_default(rows: Seq<RowView>, key: Seq<char>) -> Option<Seq<char>>
    decreases rows.len(),
{
    if rows.len() == 0 {
        None
    } else if rows[0].0 == Some(key) {
        Some(rows[0].1)
    } else {
        first_default(rows.drop_first(), key)
    }
}

/// The built-in default of a `[keys]` field, if the panel has it.
pub open spec fn panel_default(key: Seq<char>) -> Option<Seq<char>> {
    first_default(panel_rows_flat(panel_sections()), key)
}

/// The value of the first pair with key `key`.
pub open spec fn first_value(pairs: Seq<(Seq<char>, Seq<char>)>, key: Seq<char>) -> Option<Seq<char>>
    decreases pairs.len(),
{
    if pairs.len() == 0 {
        None
    } else if pairs[0].0 == key {
        Some(pairs[0].1)
    } else {
        first_value(pairs.drop_first(), key)
    }
}

/// A profile's binding of a field: its own override, else the default.
pub open spec fn binding_in(pairs: Seq<(Seq<char>, Seq<char>)>, key: Seq<char>) -> Option<Seq<char>> {
    match first_value(pairs, key) {
        Some(v) => Some(v),
        None => panel_default(key),
    }
}

/// The `(key, value)` string pairs a profile document overrides.
pub open spec fn profile_pairs(doc: DocumentMut) -> Seq<(Seq<char>, Seq<char>)> {
    scalar_pairs(visible(keys_slots(doc)))
}

/// The default binding of a `[keys]` field in the built-in panel.
pub fn default_binding(config_key: &str) -> (r: Option<&'static str>)
    ensures
        match r {
            Some(d) => panel_default(config_key@) == Some(d@),
            None => panel_default(config_key@) is None,
        },
{
    let secs = sections();
    let ghost pv = panel_sections();
    let mut flat: Vec<(Option<&'static str>, &'static str)> = Vec::new();
    let mut si: usize = 0;
    assert(pv.take(0) =~= Seq::<SectionView>::empty());
    while si < secs.len()
        invariant
            sections_view(secs@) == pv,
            si <= secs.len(),
            flat@.map_values(|x: (Option<&'static str>, &'static str)| (crate::keybinds_data::opt_str_view(x.0), x.1@)) == panel_rows_flat(pv.take(si as int)).map_values(|r: RowView| (r.0, r.1)),
        decreases secs.len() - si,
    {
        let rows = &secs[si].rows;
        let ghost rv = pv[si as int].1;
        assert(rv == rows@.map_values(|r: DataRow| row_view(r)));
        let ghost base = flat@.map_values(|x: (Option<&'static str>, &'static str)| (crate::keybinds_data::opt_str_view(x.0), x.1@));
        let mut ri: usize = 0;
        assert(rv.take(0) =~= Seq::<RowView>::empty());
        assert(base + rv.take(0).map_values(|r: RowView| (r.0, r.1)) =~= base);
        while ri < rows.len()
            invariant
                sections_view(secs@) == pv,
                si < secs.len(),
                rows == &secs@[si as int].rows,
                rv == rows@.map_values(|r: DataRow| row_view(r)),
                ri <= rows.len(),
                flat@.map_values(|x: (Option<&'static str>, &'static str)| (crate::keybinds_data::opt_str_view(x.0), x.1@)) == base + rv.take(ri as int).map_values(|r: RowView| (r.0, r.1)),
            decreases rows.len() - ri,
        {
            assert(rv[ri as int] == row_view(rows@[ri as int]));
            let ghost before = flat@.map_values(|x: (Option<&'static str>, &'static str)| (crate::keybinds_data::opt_str_view(x.0), x.1@));
            flat.push((rows[ri].config_key, rows[ri].default));
            assert(flat@.map_values(|x: (Option<&'static str>, &'static str)| (crate::keybinds_data::opt_str_view(x.0), x.1@)) =~= before.push((rv[ri as int].0, rv[ri as int].1)));
            ri = ri + 1;
            assert(rv.take(ri as int) =~= rv.take(ri - 1).push(rv[ri - 1]));
            assert(flat@.map_values(|x: (Option<&'static str>, &'static str)| (crate::keybinds_data::opt_str_view(x.0), x.1@)) =~= base + rv.take(ri as int).map_values(|r: RowView| (r.0, r.1)));
        }
        assert(rv.take(rows.len() as int) =~= rv);
        assert(pv.take(si + 1).drop_last() =~= pv.take(si as int));
        si = si + 1;
        assert(panel_rows_flat(pv.take(si as int)).map_values(|r: RowView| (r.0, r.1)) =~= base + rv.map_values(|r: RowView| (r.0, r.1)));
    }
    assert(pv.take(secs.len() as int) =~= pv);
    let ghost fv = panel_rows_flat(pv);
    let ghost fx = flat@.map_values(|x: (Option<&'static str>, &'static str)| (crate::keybinds_data::opt_str_view(x.0), x.1@));
    let mut i: usize = 0;
    assert(fv.skip(0) =~= fv);
    assert(fx.len() == flat@.len());
    assert(fv.map_values(|r: RowView| (r.0, r.1)).len() == fv.len());
    while i < flat.len()
        invariant
            flat@.len() == fv.len(),
            fv == panel_rows_flat(pv),
            pv == panel_sections(),
            fx == flat@.map_values(|x: (Option<&'static str>, &'static str)| (crate::keybinds_data::opt_str_view(x.0), x.1@)),
            fx == fv.map_values(|r: RowView| (r.0, r.1)),
            i <= flat.len(),
            first_default(fv, config_key@) == first_default(fv.skip(i as int), config_key@),
        decreases flat.len() - i,
    {
        assert(fv.skip(i as int)[0] == fv[i as int]);
        assert(fx[i as int] == (fv[i as int].0, fv[i as int].1));
        assert(fv.skip(i as int).drop_first() =~= fv.skip(i + 1));
        match flat[i].0 {
            Some(k) => {
                if str_eq(k, config_key) {
                    return Some(flat[i].1);
                }
            },
            None => {},
        }
        i = i + 1;
    }
    assert(fv.skip(i as int).len() == 0);
    None
}

/// A profile's binding of a field: its own override, else the default.
pub fn profile_binding(profile: &DocumentMut, config_key: &str) -> (r: Option<String>)
    ensures
        match r {
            Some(s) => binding_in(profile_pairs(*profile), config_key@) == Some(s@),
            None => binding_in(profile_pairs(*profile), config_key@) is None,
        },
{
    let overrides = scalar_overrides(profile);
    let ghost pairs = profile_pairs(*profile);
    let mut i: usize = 0;
    assert(pairs.skip(0) =~= pairs);
    while i < overrides.len()
        invariant
            pairs == profile_pairs(*profile),
            overrides.len() == pairs.len(),
            forall|j: int| 0 <= j < overrides.len() ==> ((#[trigger] overrides[j]).0@, overrides[j].1@) == pairs[j],
            i <= overrides.len(),
            first_value(pairs, config_key@) == first_value(pairs.skip(i as int), config_key@),
        decreases overrides.len() - i,
    {
        assert(pairs.skip(i as int)[0] == pairs[i as int]);
        assert(pairs.skip(i as int).drop_first() =~= pairs.skip(i + 1));
        if str_eq(overrides[i].0.as_str(), config_key) {
            return Some(overrides[i].1.clone());
        }
        i = i + 1;
    }
    assert(pairs.skip(i as int).len() == 0);
    match default_binding(config_key) {
        Some(d) => Some(string_of(d)),
        None => None,
    }
}

/// The `[keys]` field behind a row, if any.
pub open spec fn config_key_of(r: RowV) -> Option<Seq<char>> {
    match r {
        RowV::Entry { config_key, .. } => config_key,
        _ => None,
    }
}


/// What recording `binding` for the field behind `row` does: with a field
/// and a working profile whose `[keys]` can be written, the field is set to
/// that string (nothing else of the profile changes), what it showed before
/// is staged for undo, the row is marked saved and selected again, and a
/// reload is due; otherwise nothing changes.
pub open spec fn edit_saved(old: &ViewState, new: &ViewState, row: usize, binding: Seq<char>, r: Record) -> bool {
    &&& r == if config_key_of(old.rows_v()[row as int]) is None || old.working_profile is None {
        Record::Nothing
    } else if !keys_writable(old.working_profile.unwrap()) {
        Record::KeysNotTable
    } else {
        Record::Saved
    }
    &&& r == Record::Saved ==> {
        let key = config_key_of(old.rows_v()[row as int]).unwrap();
        let w = old.working_profile.unwrap();
        &&& new.working_profile is Some
        &&& keys_is_table(new.working_profile.unwrap())
        &&& crate::toml_doc::distinct_keys(keys_slots(w))
        &&& keys_slots(new.working_profile.unwrap()) == set_slot(keys_slots(w), key, string_value_view(binding))
        &&& crate::toml_doc::other_sections(crate::toml_doc::root_slots(new.working_profile.unwrap()))
            == crate::toml_doc::other_sections(crate::toml_doc::root_slots(w))
        &&& staged_previous(new.staged_undo, keys_slots(w), key)
        &&& new.saved_row == Some(row)
        &&& new.pending_binding is None
        &&& new.manual_binding@ == Seq::<char>::empty()
        &&& new.editing == Some(EditMode::Selecting { row })
        &&& new.filtered == old.filtered
        &&& new.offset == old.offset
        &&& new.duplicates_only == old.duplicates_only
        &&& new.profiles == old.profiles
        &&& new.viewed_profile == old.viewed_profile
        &&& new.rows == old.rows
        &&& new.active_profile == old.active_profile
        &&& new.query == old.query
        &&& new.searching == old.searching
        &&& new.last_undo == old.last_undo
        &&& new.original_profile == old.original_profile
    }
    &&& r != Record::Saved ==> new.unchanged(old)
}

/// The config key of a row is `prefix`.
pub open spec fn is_prefix_row(r: RowV) -> bool {
    config_key_of(r) == Some("prefix"@)
}

/// A staged edit remembers what the field showed before it: a copy of that
/// item, or nothing.
pub open spec fn staged_previous(staged: Option<(String, Option<Item>)>, slots: Seq<crate::toml_doc::Slot>, key: Seq<char>) -> bool {
    match staged {
        Some((k, prev)) => k@ == key && match prev {
            Some(item) => shown(slots, key) == Some(item_view(item)),
            None => shown(slots, key) is None,
        },
        None => false,
    }
}

/// The prefix a profile binds, `ctrl+b` when none.
pub open spec fn profile_prefix(doc: DocumentMut) -> Seq<char> {
    match binding_in(profile_pairs(doc), "prefix"@) {
        Some(p) => p,
        None => "ctrl+b"@,
    }
}

pub open spec fn eq_ignore_ascii_case(a: Seq<char>, b: Seq<char>) -> bool {
    ascii_lower_seq(a) == ascii_lower_seq(b)
}

fn eq_ignore_case(a: &str, b: &str) -> (r: bool)
    ensures
        r == eq_ignore_ascii_case(a@, b@),
{
    let la = to_ascii_lower(&str_chars(a));
    let lb = to_ascii_lower(&str_chars(b));
    chars_eq(&la, &lb)
}

impl ViewState {
    /// The binding of a field in the profile being edited: its own override,
    /// else the default.
    pub fn current_profile_binding(&self, config_key: &str) -> (r: Option<String>)
        requires
            self.working_profile is Some,
        ensures
            match r {
                Some(s) => binding_in(profile_pairs(self.working_profile.unwrap()), config_key@) == Some(s@),
                None => binding_in(profile_pairs(self.working_profile.unwrap()), config_key@) is None,
            },
    {
        match &self.working_profile {
            Some(profile) => profile_binding(profile, config_key),
            None => None,
        }
    }

    /// The prefix of the profile being edited, `ctrl+b` when none.
    fn current_prefix(&self) -> (r: String)
        requires
            self.working_profile is Some,
        ensures
            r@ == profile_prefix(self.working_profile.unwrap()),
    {
        match self.current_profile_binding("prefix") {
            Some(p) => p,
            None => string_of("ctrl+b"),
        }
    }

    /// Start typing the selected row's binding by hand, from its current
    /// value.
    pub fn begin_manual_edit(&mut self)
        requires
            old(self).wf(),
        ensures
            final(self).wf(),
            manual_edit_begun(&*old(self), &*final(self)),

    {
        let row = match self.editing {
            Some(EditMode::Selecting { row }) => row,
            _ => {
                return;
            },
        };
        assert(self.rows@[row as int]@ == self.rows_v()[row as int]);
        let config_key = match row_config_key(&self.rows[row]) {
            Some(k) => string_of(k),
            None => {
                return;
            },
        };
        if self.viewed_profile.is_none() {
            return;
        }
        let value = match self.current_profile_binding(config_key.as_str()) {
            Some(v) => v,
            None => String::new(),
        };
        self.saved_row = None;
        self.manual_binding = value;
        self.pending_binding = None;
        self.editing = Some(EditMode::Manual { row });
    }

    /// Record `binding` for the field behind `row` in the working profile,
    /// remembering what it replaced; the rows must then be reloaded. The
    /// result says whether it was recorded, or could not be because the
    /// profile's `keys` is not a table.
    pub fn save_edit(&mut self, row: usize, binding: &str) -> (r: Record)
        requires
            old(self).wf(),
            row < old(self).rows@.len(),
        ensures
            final(self).wf(),
            final(self).filtered == old(self).filtered,
            final(self).offset == old(self).offset,
            final(self).duplicates_only == old(self).duplicates_only,
            final(self).profiles == old(self).profiles,
            final(self).viewed_profile == old(self).viewed_profile,
            final(self).rows == old(self).rows,
            final(self).active_profile == old(self).active_profile,
            final(self).query == old(self).query,
            final(self).searching == old(self).searching,
            final(self).last_undo == old(self).last_undo,
            final(self).original_profile == old(self).original_profile,
            edit_saved(&*old(self), &*final(self), row, binding@, r),
    {
        assert(self.rows@[row as int]@ == self.rows_v()[row as int]);
        let config_key = match row_config_key(&self.rows[row]) {
            Some(k) => string_of(k),
            None => {
                return Record::Nothing;
            },
        };
        let writable = match &self.working_profile {
            Some(p) => crate::keys::keys_editable(p),
            None => {
                return Record::Nothing;
            },
        };
        if !writable {
            return Record::KeysNotTable;
        }
        let mut profile = match self.working_profile.take() {
            Some(p) => p,
            None => {
                return Record::Nothing;
            },
        };
        let previous = get_item(&profile, config_key.as_str());
        set_scalar(&mut profile, config_key.as_str(), binding);
        self.working_profile = Some(profile);
        self.staged_undo = Some((config_key, previous));
        self.saved_row = Some(row);
        self.pending_binding = None;
        self.manual_binding = String::new();
        self.editing = Some(EditMode::Selecting { row });
        Record::Saved
    }

    /// Whether the working profile differs from the one the edit began with.
    pub fn has_pending_changes(&self) -> (r: bool)
        ensures
            r == match (self.original_profile, self.working_profile) {
                (Some(o), Some(w)) => doc_text(o) != doc_text(w),
                _ => false,
            },
    {
        match (&self.original_profile, &self.working_profile) {
            (Some(original), Some(working)) => {
                let a = render_document(original);
                let b = render_document(working);
                !str_eq(a.as_str(), b.as_str())
            },
            _ => false,
        }
    }

    /// Drop the edit: the working profile, the staged undo and the selection.
    /// The rows must then be reloaded; a failure there is ignored.
    pub fn discard_edit(&mut self)
        requires
            old(self).wf(),
        ensures
            final(self).wf(),
            edit_discarded(&*old(self), &*final(self)),

    {
        self.duplicates_only = false;
        self.original_profile = None;
        self.working_profile = None;
        self.staged_undo = None;
        self.pending_binding = None;
        self.manual_binding = String::new();
        self.editing = None;
        self.saved_row = None;
    }

    /// Leave edit mode from the selector: ask for confirmation when there are
    /// pending changes, else discard the edit (then the rows must be reloaded,
    /// ignoring a failure: the result says so).
    pub fn request_leave_edit(&mut self) -> (reload: bool)
        requires
            old(self).wf(),
        ensures
            final(self).wf(),
            leave_requested(&*old(self), &*final(self), reload),

    {
        let row = match self.editing {
            Some(EditMode::Selecting { row }) => row,
            _ => {
                return false;
            },
        };
        if self.has_pending_changes() {
            self.editing = Some(EditMode::Confirming { row });
            false
        } else {
            self.discard_edit();
            true
        }
    }

    pub open spec fn has_pending_spec(&self) -> bool {
        match (self.original_profile, self.working_profile) {
            (Some(o), Some(w)) => doc_text(o) != doc_text(w),
            _ => false,
        }
    }

    /// Before saving: saving needs a viewed profile and a working profile,
    /// and is refused while duplicates remain (the confirmation goes back to
    /// the selector). The result says whether to commit the working profile.
    pub fn prepare_save(&mut self) -> (commit: bool)
        requires
            old(self).wf(),
        ensures
            final(self).wf(),
            save_prepared(&*old(self), &*final(self), commit),

    {
        if self.viewed_profile.is_none() || self.working_profile.is_none() {
            return false;
        }
        if self.has_unresolved_duplicates() {
            self.editing = match self.editing {
                Some(EditMode::Confirming { row }) => Some(EditMode::Selecting { row }),
                Some(EditMode::Selecting { row }) => Some(EditMode::Selecting { row }),
                other => other,
            };
            return false;
        }
        true
    }

    /// After the working profile was committed: remember how to undo it and
    /// leave edit mode. The rows must then be reloaded.
    pub fn finish_save(&mut self, undo: UndoEntry)
        requires
            old(self).wf(),
        ensures
            final(self).wf(),
            final(self).last_undo == Some(undo),
            final(self).original_profile is None,
            final(self).working_profile is None,
            final(self).duplicates_only == false,
            final(self).staged_undo is None,
            final(self).editing is None,
            final(self).pending_binding is None,
            final(self).manual_binding@ == Seq::<char>::empty(),
            final(self).saved_row == old(self).saved_row,
            final(self).rows == old(self).rows,
            final(self).filtered == old(self).filtered,
            final(self).offset == old(self).offset,
            final(self).viewed_profile == old(self).viewed_profile,
            final(self).profiles == old(self).profiles,
            final(self).active_profile == old(self).active_profile,
            final(self).query == old(self).query,
            final(self).searching == old(self).searching,
    {
        self.last_undo = Some(undo);
        self.original_profile = None;
        self.working_profile = None;
        self.duplicates_only = false;
        self.staged_undo = None;
        self.editing = None;
        self.pending_binding = None;
        self.manual_binding = String::new();
    }

    /// Undo the staged edit in the working profile: put back the item it
    /// replaced, or remove the field when it showed nothing. The staged edit
    /// is dropped in any case; the result says whether it was undone (then
    /// the rows must be reloaded).
    pub fn undo_staged(&mut self) -> (done: bool)
        requires
            old(self).wf(),
        ensures
            final(self).wf(),
            staged_undone(&*old(self), &*final(self), done),

    {
        let staged = self.staged_undo.take();
        let mut profile = match self.working_profile.take() {
            Some(p) => p,
            None => {
                return false;
            },
        };
        match staged {
            Some((config_key, previous)) => {
                match previous {
                    Some(item) => set_item(&mut profile, config_key.as_str(), item),
                    None => remove_scalar(&mut profile, config_key.as_str()),
                }
                self.working_profile = Some(profile);
                self.saved_row = None;
                true
            },
            None => {
                self.working_profile = Some(profile);
                false
            },
        }
    }

    /// Take the last saved change for undoing, viewing the profile it
    /// changed.
    pub fn take_last_undo(&mut self) -> (undo: Option<UndoEntry>)
        requires
            old(self).wf(),
        ensures
            final(self).wf(),
            undo == old(self).last_undo,
            final(self).last_undo is None,
            final(self).viewed_profile == match undo {
                Some(u) => Some(u.profile_name),
                None => old(self).viewed_profile,
            } || (undo matches Some(u) && final(self).viewed_profile matches Some(v) && v@ == u.profile_name@),
            final(self).editing == old(self).editing,
            final(self).rows == old(self).rows,
            final(self).filtered == old(self).filtered,
            final(self).offset == old(self).offset,
            final(self).working_profile == old(self).working_profile,
            final(self).saved_row == old(self).saved_row,
            final(self).pending_binding == old(self).pending_binding,
            final(self).manual_binding == old(self).manual_binding,
    {
        let undo = self.last_undo.take();
        match &undo {
            Some(u) => {
                let same = match &self.viewed_profile {
                    Some(v) => str_eq(v.as_str(), u.profile_name.as_str()),
                    None => false,
                };
                if !same {
                    self.viewed_profile = Some(u.profile_name.clone());
                }
            },
            None => {},
        }
        undo
    }

    /// Keep a change whose undoing failed, so it can be tried again.
    pub fn keep_undo(&mut self, undo: UndoEntry)
        requires
            old(self).wf(),
        ensures
            final(self).wf(),
            final(self).last_undo == Some(undo),
            final(self).same_data_but_undo(&*old(self)),
    {
        self.last_undo = Some(undo);
    }

    /// Nothing changed.
    pub open spec fn unchanged(&self, other: &ViewState) -> bool {
        &&& self.same_data(other)
        &&& self.editing == other.editing
        &&& self.saved_row == other.saved_row
        &&& self.filtered == other.filtered
        &&& self.offset == other.offset
        &&& self.duplicates_only == other.duplicates_only
    }

    /// Everything but the last saved change is the same.
    pub open spec fn same_data_but_undo(&self, other: &ViewState) -> bool {
        &&& self.profiles == other.profiles
        &&& self.viewed_profile == other.viewed_profile
        &&& self.rows == other.rows
        &&& self.filtered == other.filtered
        &&& self.offset == other.offset
        &&& self.active_profile == other.active_profile
        &&& self.query == other.query
        &&& self.searching == other.searching
        &&& self.editing == other.editing
        &&& self.pending_binding == other.pending_binding
        &&& self.manual_binding == other.manual_binding
        &&& self.saved_row == other.saved_row
        &&& self.original_profile == other.original_profile
        &&& self.working_profile == other.working_profile
        &&& self.staged_undo == other.staged_undo
        &&& self.duplicates_only == other.duplicates_only
    }

    /// After a saved change was undone: clear what showed the edit. The rows
    /// must then be reloaded.
    pub fn after_undo(&mut self)
        requires
            old(self).wf(),
        ensures
            final(self).wf(),
            final(self).saved_row is None,
            final(self).pending_binding is None,
            final(self).manual_binding@ == Seq::<char>::empty(),
            final(self).editing == old(self).editing,
            final(self).rows == old(self).rows,
            final(self).filtered == old(self).filtered,
            final(self).offset == old(self).offset,
            final(self).viewed_profile == old(self).viewed_profile,
            final(self).working_profile == old(self).working_profile,
            final(self).last_undo == old(self).last_undo,
    {
        self.saved_row = None;
        self.pending_binding = None;
        self.manual_binding = String::new();
    }
}

impl ViewState {
    /// A key typed while entering a binding by hand: ctrl+u clears, enter
    /// records it (then the rows must be reloaded: the result says so), esc
    /// goes back to the selector, backspace deletes, and a character without
    /// ctrl/alt/super is appended.
    pub fn handle_manual_key(&mut self, key: &KeyEvent, row: usize) -> (r: Record)
        requires
            old(self).wf(),
            old(self).editing is Some,
            row < old(self).rows@.len(),
        ensures
            final(self).wf(),
            manual_key_handled(&*old(self), &*final(self), *key, row, r),

    {
        if key.code == KeyCode::Char('u') && key.modifiers.control {
            self.manual_binding = String::new();
            return Record::Nothing;
        }
        match key.code {
            KeyCode::Enter => {
                let binding = self.manual_binding.clone();
                self.save_edit(row, binding.as_str())
            },
            KeyCode::Esc => {
                self.manual_binding = String::new();
                self.editing = Some(EditMode::Selecting { row });
                Record::Nothing
            },
            KeyCode::Backspace => {
                self.manual_binding = string_pop(&self.manual_binding);
                Record::Nothing
            },
            KeyCode::Char(c) => {
                if !(key.modifiers.control || key.modifiers.alt || key.modifiers.super_key) {
                    self.manual_binding = string_push(&self.manual_binding, c);
                }
                Record::Nothing
            },
            _ => Record::Nothing,
        }
    }

    /// Everything but the hand-typed binding is the same.
    pub open spec fn same_but_manual(&self, other: &ViewState) -> bool {
        &&& self.same_but_manual_and_mode(other)
        &&& self.editing == other.editing
    }

    /// Everything but the hand-typed binding and the edit mode is the same.
    pub open spec fn same_but_manual_and_mode(&self, other: &ViewState) -> bool {
        &&& self.profiles == other.profiles
        &&& self.viewed_profile == other.viewed_profile
        &&& self.rows == other.rows
        &&& self.active_profile == other.active_profile
        &&& self.query == other.query
        &&& self.searching == other.searching
        &&& self.pending_binding == other.pending_binding
        &&& self.last_undo == other.last_undo
        &&& self.original_profile == other.original_profile
        &&& self.working_profile == other.working_profile
        &&& self.staged_undo == other.staged_undo
        &&& self.saved_row == other.saved_row
        &&& self.filtered == other.filtered
        &&& self.offset == other.offset
        &&& self.duplicates_only == other.duplicates_only
    }

    /// Everything but the captured binding and the edit mode is the same.
    pub open spec fn same_but_capture(&self, other: &ViewState) -> bool {
        &&& self.profiles == other.profiles
        &&& self.viewed_profile == other.viewed_profile
        &&& self.rows == other.rows
        &&& self.active_profile == other.active_profile
        &&& self.query == other.query
        &&& self.searching == other.searching
        &&& self.manual_binding == other.manual_binding
        &&& self.last_undo == other.last_undo
        &&& self.original_profile == other.original_profile
        &&& self.working_profile == other.working_profile
        &&& self.staged_undo == other.staged_undo
        &&& self.saved_row == other.saved_row
        &&& self.filtered == other.filtered
        &&& self.offset == other.offset
        &&& self.duplicates_only == other.duplicates_only
    }

    /// A key pressed while listening for a new binding of `row`.
    ///
    /// Once a binding is captured: enter records it (then the rows must be
    /// reloaded: the result says so), backspace listens again, esc goes back
    /// to the selector. Before that, a key press is captured: for the prefix
    /// row as it is; for other rows, this profile's prefix first waits for
    /// the next key (captured as `prefix+key`), esc alone cancels.
    pub fn handle_listen_key(&mut self, key: &KeyEvent, row: usize, prefix_seen: bool) -> (r: Record)
        requires
            old(self).wf(),
            old(self).editing is Some,
            row < old(self).rows@.len(),
        ensures
            final(self).wf(),
            listen_key_handled(&*old(self), &*final(self), *key, row, prefix_seen, r),

    {
        assert(self.rows@[row as int]@ == self.rows_v()[row as int]);
        let is_prefix = match row_config_key(&self.rows[row]) {
            Some(k) => str_eq(k, "prefix"),
            None => {
                self.editing = Some(EditMode::Selecting { row });
                return Record::Nothing;
            },
        };
        if let Some(pending) = self.pending_binding.clone() {
            match key.code {
                KeyCode::Enter => {
                    return self.save_edit(row, pending.as_str());
                },
                KeyCode::Backspace => {
                    self.pending_binding = None;
                    self.editing = Some(EditMode::Listening { row, prefix_seen: false });
                },
                KeyCode::Esc => {
                    self.pending_binding = None;
                    self.editing = Some(EditMode::Selecting { row });
                },
                _ => {},
            }
            return Record::Nothing;
        }
        let binding = match key_event_binding(key) {
            Some(b) => b,
            None => {
                return Record::Nothing;
            },
        };
        if is_prefix {
            self.pending_binding = Some(binding);
            return Record::Nothing;
        }
        if key.code == KeyCode::Esc && !prefix_seen {
            let prefix = self.current_prefix();
            if !eq_ignore_case(binding.as_str(), prefix.as_str()) {
                self.editing = Some(EditMode::Selecting { row });
                return Record::Nothing;
            }
        }
        if key.code == KeyCode::Esc {
            self.editing = Some(EditMode::Selecting { row });
            return Record::Nothing;
        }
        if prefix_seen {
            let mut v = str_chars("prefix+");
            crate::text::push_str(&mut v, binding.as_str());
            self.pending_binding = Some(crate::text::chars_to_string(&v));
            return Record::Nothing;
        }
        if self.viewed_profile.is_none() {
            return Record::Nothing;
        }
        let prefix = self.current_prefix();
        if eq_ignore_case(binding.as_str(), prefix.as_str()) {
            self.editing = Some(EditMode::Listening { row, prefix_seen: true });
            return Record::Nothing;
        }
        self.pending_binding = Some(binding);
        Record::Nothing
    }
}

/// What `refilter` does to the state: `o` before, `f` after.
pub open spec fn refiltered(o: &ViewState, f: &ViewState) -> bool {
    &&& f.filtered@ == shown_rows(o.rows_v(), o.query@, o.duplicates_only, o.selected())
    &&& f.offset == 0
    &&& f.same_data(o)
    &&& f.editing == o.editing
    &&& f.saved_row == o.saved_row
    &&& f.duplicates_only == o.duplicates_only
}

/// What `toggle_duplicates_only` does to the state: `o` before, `f` after.
pub open spec fn duplicates_toggled(o: &ViewState, f: &ViewState, cols: usize, term_rows: usize) -> bool {
    &&& f.duplicates_only == !o.duplicates_only
    &&& f.filtered@ == shown_rows(o.rows_v(), o.query@, !o.duplicates_only, o.selected())
    &&& f.offset == match o.editing {
            Some(EditMode::Selecting { row }) => if position_of(f.filtered@, row) < 0 {
                0
            } else {
                scrolled_to(0, position_of(f.filtered@, row), edit_viewport(cols as int, term_rows as int))
            },
            _ => 0,
        }
    &&& f.same_data(o)
    &&& f.editing == o.editing
    &&& f.saved_row == o.saved_row
}

/// What `next_duplicate` does to the state: `o` before, `f` after.
pub open spec fn next_duplicate_selected(o: &ViewState, f: &ViewState, cols: usize, term_rows: usize) -> bool {
    &&& f.same_data(o)
    &&& f.filtered == o.filtered
    &&& f.duplicates_only == o.duplicates_only
    &&& match o.editing {
            Some(EditMode::Selecting { row }) => match next_after(duplicate_candidates(o.rows_v(), o.filtered@), row) {
                Some(next) => {
                    &&& f.editing == Some(EditMode::Selecting { row: next })
                    &&& f.saved_row is None
                    &&& f.offset == if position_of(o.filtered@, next) < 0 {
                        o.offset as int
                    } else {
                        scrolled_to(o.offset as int, position_of(o.filtered@, next), edit_viewport(cols as int, term_rows as int))
                    }
                },
                None => f.editing == o.editing && f.saved_row == o.saved_row
                    && f.offset == o.offset,
            },
            _ => f.editing == o.editing && f.saved_row == o.saved_row
                && f.offset == o.offset,
        }
}

/// What `scroll` does to the state: `o` before, `f` after.
pub open spec fn scrolled_by(o: &ViewState, f: &ViewState, delta: isize) -> bool {
    &&& f.offset as int == scrolled(o.offset as int, delta as int)
    &&& f.same_data(o)
    &&& f.filtered == o.filtered
    &&& f.editing == o.editing
    &&& f.saved_row == o.saved_row
    &&& f.duplicates_only == o.duplicates_only
}

/// What `move_edit_selection` does to the state: `o` before, `f` after.
pub open spec fn selection_moved(o: &ViewState, f: &ViewState, delta: isize, cols: usize, term_rows: usize) -> bool {
    &&& f.same_data(o)
    &&& f.filtered == o.filtered
    &&& f.duplicates_only == o.duplicates_only
    &&& match o.editing {
            Some(EditMode::Selecting { row }) => {
                let e = editable_shown(o.rows_v(), o.filtered@);
                let cur = position_of(e, row);
                if cur < 0 {
                    f.editing == o.editing && f.saved_row == o.saved_row
                        && f.offset == o.offset
                } else if stepped(cur, delta as int, e.len() as int) == cur {
                    f.editing == o.editing && f.saved_row == o.saved_row
                        && f.offset as int == scrolled(o.offset as int, delta as int)
                } else {
                    let next = e[stepped(cur, delta as int, e.len() as int)];
                    &&& f.editing == Some(EditMode::Selecting { row: next })
                    &&& f.saved_row is None
                    &&& f.offset == if position_of(o.filtered@, next) < 0 {
                        o.offset as int
                    } else {
                        scrolled_to(o.offset as int, position_of(o.filtered@, next), edit_viewport(cols as int, term_rows as int))
                    }
                }
            },
            _ => f.editing == o.editing && f.saved_row == o.saved_row
                && f.offset == o.offset,
        }
}

/// What `listen_selected` does to the state: `o` before, `f` after.
pub open spec fn listening_started(o: &ViewState, f: &ViewState) -> bool {
    &&& f.same_data(o) || (o.editing matches Some(EditMode::Selecting { .. }))
    &&& f.filtered == o.filtered
    &&& f.offset == o.offset
    &&& f.duplicates_only == o.duplicates_only
    &&& match o.editing {
            Some(EditMode::Selecting { row }) => {
                &&& f.editing == Some(EditMode::Listening { row, prefix_seen: false })
                &&& f.saved_row is None
                &&& f.pending_binding is None
                &&& f.profiles == o.profiles
                &&& f.viewed_profile == o.viewed_profile
                &&& f.rows == o.rows
                &&& f.active_profile == o.active_profile
                &&& f.query == o.query
                &&& f.searching == o.searching
                &&& f.manual_binding == o.manual_binding
                &&& f.last_undo == o.last_undo
                &&& f.original_profile == o.original_profile
                &&& f.working_profile == o.working_profile
                &&& f.staged_undo == o.staged_undo
            },
            _ => f.editing == o.editing && f.saved_row == o.saved_row
                && f.same_data(o),
        }
}

/// What `begin_manual_edit` does to the state: `o` before, `f` after.
pub open spec fn manual_edit_begun(o: &ViewState, f: &ViewState) -> bool {
    &&& f.filtered == o.filtered
    &&& f.offset == o.offset
    &&& f.duplicates_only == o.duplicates_only
    &&& f.profiles == o.profiles
    &&& f.viewed_profile == o.viewed_profile
    &&& f.rows == o.rows
    &&& f.active_profile == o.active_profile
    &&& f.query == o.query
    &&& f.searching == o.searching
    &&& f.last_undo == o.last_undo
    &&& f.original_profile == o.original_profile
    &&& f.working_profile == o.working_profile
    &&& f.staged_undo == o.staged_undo
    &&& match o.editing {
            Some(EditMode::Selecting { row }) if config_key_of(o.rows_v()[row as int]) is Some
                && o.viewed_profile is Some => {
                &&& f.saved_row is None
                &&& f.pending_binding is None
                &&& f.editing == Some(EditMode::Manual { row })
                &&& f.manual_binding@ == match binding_in(
                    profile_pairs(o.working_profile.unwrap()),
                    config_key_of(o.rows_v()[row as int]).unwrap(),
                ) {
                    Some(b) => b,
                    None => Seq::<char>::empty(),
                }
            },
            _ => f.editing == o.editing && f.saved_row == o.saved_row
                && f.pending_binding == o.pending_binding
                && f.manual_binding == o.manual_binding,
        }
}

/// What `discard_edit` does to the state: `o` before, `f` after.
pub open spec fn edit_discarded(o: &ViewState, f: &ViewState) -> bool {
    &&& f.duplicates_only == false
    &&& f.original_profile is None
    &&& f.working_profile is None
    &&& f.staged_undo is None
    &&& f.pending_binding is None
    &&& f.manual_binding@ == Seq::<char>::empty()
    &&& f.editing is None
    &&& f.saved_row is None
    &&& f.filtered == o.filtered
    &&& f.offset == o.offset
    &&& f.profiles == o.profiles
    &&& f.viewed_profile == o.viewed_profile
    &&& f.rows == o.rows
    &&& f.active_profile == o.active_profile
    &&& f.query == o.query
    &&& f.searching == o.searching
    &&& f.last_undo == o.last_undo
}

/// What `request_leave_edit` does to the state: `o` before, `f` after.
pub open spec fn leave_requested(o: &ViewState, f: &ViewState, reload: bool) -> bool {
    &&& match o.editing {
            Some(EditMode::Selecting { row }) => if o.has_pending_spec() {
                &&& !reload
                &&& f.editing == Some(EditMode::Confirming { row })
                &&& f.same_data(o)
                &&& f.saved_row == o.saved_row
                &&& f.duplicates_only == o.duplicates_only
                &&& f.filtered == o.filtered
                &&& f.offset == o.offset
            } else {
                &&& reload
                &&& f.editing is None
                &&& f.working_profile is None
                &&& f.original_profile is None
                &&& f.staged_undo is None
                &&& f.pending_binding is None
                &&& f.saved_row is None
                &&& f.duplicates_only == false
                &&& f.manual_binding@ == Seq::<char>::empty()
                &&& f.rows == o.rows
                &&& f.viewed_profile == o.viewed_profile
                &&& f.last_undo == o.last_undo
            },
            _ => !reload && f.same_data(o) && f.editing == o.editing
                && f.saved_row == o.saved_row && f.duplicates_only == o.duplicates_only
                && f.filtered == o.filtered && f.offset == o.offset,
        }
}

/// What `prepare_save` does to the state: `o` before, `f` after.
pub open spec fn save_prepared(o: &ViewState, f: &ViewState, commit: bool) -> bool {
    &&& f.same_data(o)
    &&& f.saved_row == o.saved_row
    &&& f.duplicates_only == o.duplicates_only
    &&& f.filtered == o.filtered
    &&& f.offset == o.offset
    &&& commit == (o.viewed_profile is Some && o.working_profile is Some && !(exists|i: int|
            0 <= i < o.rows@.len() && is_duplicate(o.rows_v(), i)))
    &&& commit ==> f.editing == o.editing
    &&& !commit && o.viewed_profile is Some && o.working_profile is Some ==> f.editing
            == match o.editing {
            Some(EditMode::Confirming { row }) => Some(EditMode::Selecting { row }),
            Some(EditMode::Selecting { row }) => Some(EditMode::Selecting { row }),
            other => other,
        }
    &&& !(o.viewed_profile is Some && o.working_profile is Some) ==> f.editing == o.editing
}

/// What `undo_staged` does to the state: `o` before, `f` after.
pub open spec fn staged_undone(o: &ViewState, f: &ViewState, done: bool) -> bool {
    &&& f.staged_undo is None
    &&& done == (o.working_profile is Some && o.staged_undo is Some)
    &&& done ==> match (o.working_profile, o.staged_undo) {
            (Some(w), Some((k, prev))) => {
                &&& f.working_profile is Some
                &&& keys_slots(f.working_profile.unwrap()) == match prev {
                    Some(item) => set_slot(keys_slots(w), k@, item_view(item)),
                    None => if keys_is_table(w) {
                        remove_slot(keys_slots(w), k@)
                    } else {
                        keys_slots(w)
                    },
                }
                &&& crate::toml_doc::other_sections(crate::toml_doc::root_slots(f.working_profile.unwrap()))
                    == crate::toml_doc::other_sections(crate::toml_doc::root_slots(w))
                &&& f.saved_row is None
            },
            _ => false,
        }
    &&& !done ==> f.working_profile == o.working_profile && f.saved_row == o.saved_row
    &&& f.editing == o.editing
    &&& f.rows == o.rows
    &&& f.filtered == o.filtered
    &&& f.offset == o.offset
    &&& f.viewed_profile == o.viewed_profile
    &&& f.profiles == o.profiles
    &&& f.active_profile == o.active_profile
    &&& f.query == o.query
    &&& f.searching == o.searching
    &&& f.last_undo == o.last_undo
    &&& f.original_profile == o.original_profile
    &&& f.pending_binding == o.pending_binding
    &&& f.manual_binding == o.manual_binding
    &&& f.duplicates_only == o.duplicates_only
}

/// What `handle_manual_key` does to the state: `o` before, `f` after.
pub open spec fn manual_key_handled(o: &ViewState, f: &ViewState, key: KeyEvent, row: usize, rec: Record) -> bool {
    &&& if key.code == KeyCode::Char('u') && key.modifiers.control {
            rec == Record::Nothing && f.manual_binding@ == Seq::<char>::empty() && f.same_but_manual(o)
        } else {
            match key.code {
                KeyCode::Enter => edit_saved(o, f, row, o.manual_binding@, rec),
                KeyCode::Esc => rec == Record::Nothing && f.manual_binding@ == Seq::<char>::empty()
                    && f.editing == Some(EditMode::Selecting { row })
                    && f.same_but_manual_and_mode(o),
                KeyCode::Backspace => rec == Record::Nothing && f.manual_binding@ == (if o.manual_binding@.len() > 0 {
                    o.manual_binding@.drop_last()
                } else {
                    o.manual_binding@
                }) && f.same_but_manual(o),
                KeyCode::Char(c) => if !(key.modifiers.control || key.modifiers.alt || key.modifiers.super_key) {
                    rec == Record::Nothing && f.manual_binding@ == o.manual_binding@.push(c) && f.same_but_manual(o)
                } else {
                    rec == Record::Nothing && f.unchanged(o)
                },
                _ => rec == Record::Nothing && f.unchanged(o),
            }
        }
}

/// What `handle_listen_key` does to the state: `o` before, `f` after.
pub open spec fn listen_key_handled(o: &ViewState, f: &ViewState, key: KeyEvent, row: usize, prefix_seen: bool, rec: Record) -> bool {
    &&& ({
            let r = o.rows_v()[row as int];
            let same = f.same_but_capture(o);
            if config_key_of(r) is None {
                rec == Record::Nothing && same && f.pending_binding == o.pending_binding
                    && f.editing == Some(EditMode::Selecting { row })
            } else if o.pending_binding is Some {
                match key.code {
                    KeyCode::Enter => edit_saved(o, f, row, o.pending_binding.unwrap()@, rec),
                    KeyCode::Backspace => rec == Record::Nothing && same && f.pending_binding is None
                        && f.editing == Some(EditMode::Listening { row, prefix_seen: false }),
                    KeyCode::Esc => rec == Record::Nothing && same && f.pending_binding is None
                        && f.editing == Some(EditMode::Selecting { row }),
                    _ => rec == Record::Nothing && f.unchanged(o),
                }
            } else {
                match binding_of(key) {
                    None => rec == Record::Nothing && f.unchanged(o),
                    Some(b) => {
                        let prefix = profile_prefix(o.working_profile.unwrap());
                        if is_prefix_row(r) {
                            rec == Record::Nothing && same && f.editing == o.editing
                                && (f.pending_binding matches Some(p) && p@ == b)
                        } else if key.code == KeyCode::Esc && !(!prefix_seen && eq_ignore_ascii_case(b, prefix)) {
                            rec == Record::Nothing && same && f.pending_binding == o.pending_binding
                                && f.editing == Some(EditMode::Selecting { row })
                        } else if key.code == KeyCode::Esc {
                            rec == Record::Nothing && same && f.pending_binding == o.pending_binding
                                && f.editing == Some(EditMode::Selecting { row })
                        } else if prefix_seen {
                            rec == Record::Nothing && same && f.editing == o.editing
                                && (f.pending_binding matches Some(p) && p@ == "prefix+"@ + b)
                        } else if o.viewed_profile is None {
                            rec == Record::Nothing && f.unchanged(o)
                        } else if eq_ignore_ascii_case(b, prefix) {
                            rec == Record::Nothing && same && f.pending_binding == o.pending_binding
                                && f.editing == Some(EditMode::Listening { row, prefix_seen: true })
                        } else {
                            rec == Record::Nothing && same && f.editing == o.editing
                                && (f.pending_binding matches Some(p) && p@ == b)
                        }
                    },
                }
            }
        })
}

/// `u` undoes the last staged edit: recording a binding for a row and then
/// undoing it leaves the working profile's `[keys]` showing what it showed
/// before, field by field.
pub proof fn law_undo_restores_staged_edit(o: ViewState, m: ViewState, f: ViewState, row: usize, binding: Seq<char>)
    requires
        edit_saved(&o, &m, row, binding, Record::Saved),
        staged_undone(&m, &f, true),
    ensures
        f.working_profile is Some,
        forall|j: Seq<char>|
            #[trigger] shown(keys_slots(f.working_profile.unwrap()), j) == shown(
                keys_slots(o.working_profile.unwrap()),
                j,
            ),
{
    let key = config_key_of(o.rows_v()[row as int]).unwrap();
    let s = keys_slots(o.working_profile.unwrap());
    crate::keys::law_scalar_update_reversible(s, key, binding);
    match m.staged_undo {
        Some((k, prev)) => {
            assert(k@ == key);
            match prev {
                Some(item) => {
                    assert(shown(s, key) == Some(item_view(item)));
                    assert(keys_slots(f.working_profile.unwrap()) == s);
                },
                None => {
                    assert(shown(s, key) is None);
                },
            }
        },
        None => {},
    }
}

/// The value of the first pair with a key, when every pair with that key
/// carries the same value; none when no pair has that key.
proof fn lemma_first_value(pairs: Seq<(Seq<char>, Seq<char>)>, key: Seq<char>, x: Seq<char>)
    ensures
        (forall|j: int| 0 <= j < pairs.len() ==> (#[trigger] pairs[j]).0 != key) ==> first_value(pairs, key) is None,
        pairs.contains((key, x)) && (forall|j: int|
            0 <= j < pairs.len() && (#[trigger] pairs[j]).0 == key ==> pairs[j].1 == x) ==> first_value(pairs, key)
            == Some(x),
    decreases pairs.len(),
{
    if pairs.len() > 0 {
        let rest = pairs.drop_first();
        lemma_first_value(rest, key, x);
        if forall|j: int| 0 <= j < pairs.len() ==> (#[trigger] pairs[j]).0 != key {
            assert forall|j: int| 0 <= j < rest.len() implies (#[trigger] rest[j]).0 != key by {
                assert(rest[j] == pairs[j + 1]);
            }
        }
        if pairs.contains((key, x)) && (forall|j: int|
            0 <= j < pairs.len() && (#[trigger] pairs[j]).0 == key ==> pairs[j].1 == x) {
            if pairs[0].0 != key {
                let w = choose|w: int| 0 <= w < pairs.len() && pairs[w] == (key, x);
                assert(rest[w - 1] == pairs[w]);
                assert forall|j: int| 0 <= j < rest.len() && (#[trigger] rest[j]).0 == key implies rest[j].1 == x by {
                    assert(rest[j] == pairs[j + 1]);
                }
            }
        }
    }
}

/// The string a profile's `[keys]` table shows under `prefix`, if any.
pub open spec fn own_prefix(slots: Seq<crate::toml_doc::Slot>) -> Option<Seq<char>> {
    match shown(slots, "prefix"@) {
        Some(v) => v.1,
        None => None,
    }
}

/// While listening for a key on a row other than the prefix row, a key press
/// is compared with the edited profile's own `prefix` override when it has
/// one, and with the built-in default only when it has none: the profile's
/// prefix arms `prefix+`, any other key is captured as it is.
pub proof fn law_listen_uses_profile_prefix(
    o: ViewState,
    f: ViewState,
    key: KeyEvent,
    row: usize,
    rec: Record,
    w: DocumentMut,
    b: Seq<char>,
    prefix: Seq<char>,
)
    requires
        listen_key_handled(&o, &f, key, row, false, rec),
        o.working_profile == Some(w),
        o.viewed_profile is Some,
        o.pending_binding is None,
        crate::toml_doc::distinct_keys(keys_slots(w)),
        (row as int) < o.rows_v().len(),
        config_key_of(o.rows_v()[row as int]) is Some,
        !is_prefix_row(o.rows_v()[row as int]),
        key.code != KeyCode::Esc,
        binding_of(key) == Some(b),
        prefix == match own_prefix(keys_slots(w)) {
            Some(p) => p,
            None => match panel_default("prefix"@) {
                Some(d) => d,
                None => "ctrl+b"@,
            },
        },
    ensures
        eq_ignore_ascii_case(b, prefix) ==> f.editing == Some(EditMode::Listening { row, prefix_seen: true })
            && f.pending_binding is None,
        !eq_ignore_ascii_case(b, prefix) ==> f.editing == o.editing && (f.pending_binding matches Some(p) && p@ == b),
{
    let s = keys_slots(w);
    let vis = visible(s);
    let pairs = scalar_pairs(vis);
    crate::keys::lemma_shown_distinct(s, "prefix"@);
    crate::keys::lemma_visible(s);
    crate::keys::lemma_scalar_pairs(vis);
    assert(pairs == profile_pairs(w));
    match own_prefix(s) {
        Some(p) => {
            let v = shown(s, "prefix"@).unwrap();
            assert(s.contains(("prefix"@, v)));
            assert(vis.contains(("prefix"@, v)));
            let i = choose|i: int| 0 <= i < vis.len() && vis[i] == ("prefix"@, v);
            reveal_strlit("prefix");
            reveal_strlit("command");
            assert("prefix"@.len() == 6 && "command"@.len() == 7);
            assert(vis[i].0 != "command"@);
            assert(pairs.contains(("prefix"@, p)));
            assert forall|j: int| 0 <= j < pairs.len() && (#[trigger] pairs[j]).0 == "prefix"@ implies pairs[j].1 == p by {
                let k = choose|k: int|
                    0 <= k < vis.len() && (#[trigger] vis[k]).0 == (#[trigger] pairs[j]).0 && vis[k].1.1 == Some(pairs[j].1);
                assert(vis[k].0 == vis[i].0);
            }
            lemma_first_value(pairs, "prefix"@, p);
        },
        None => {
            assert forall|j: int| 0 <= j < pairs.len() implies (#[trigger] pairs[j]).0 != "prefix"@ by {
                let k = choose|k: int|
                    0 <= k < vis.len() && (#[trigger] vis[k]).0 == (#[trigger] pairs[j]).0 && vis[k].1.1 == Some(pairs[j].1);
                if pairs[j].0 == "prefix"@ {
                    assert(vis.contains(vis[k]));
                    assert(s.contains(vis[k]));
                    assert(shown(s, "prefix"@) == Some(vis[k].1));
                }
            }
            lemma_first_value(pairs, "prefix"@, b);
        },
    }
    assert(profile_prefix(w) == prefix);
}

/// Pressing the edited profile's own prefix and then another key captures
/// `prefix+` that key: with `prefix = "ctrl+a"`, `ctrl+a` then `c` gives
/// `prefix+c`.
pub proof fn law_profile_prefix_then_key(
    o: ViewState,
    m: ViewState,
    f: ViewState,
    first: KeyEvent,
    second: KeyEvent,
    row: usize,
    r1: Record,
    r2: Record,
    w: DocumentMut,
    p: Seq<char>,
    c: Seq<char>,
)
    requires
        listen_key_handled(&o, &m, first, row, false, r1),
        listen_key_handled(&m, &f, second, row, true, r2),
        o.working_profile == Some(w),
        o.viewed_profile is Some,
        o.pending_binding is None,
        crate::toml_doc::distinct_keys(keys_slots(w)),
        (row as int) < o.rows_v().len(),
        config_key_of(o.rows_v()[row as int]) is Some,
        !is_prefix_row(o.rows_v()[row as int]),
        own_prefix(keys_slots(w)) == Some(p),
        first.code != KeyCode::Esc,
        binding_of(first) matches Some(b) && eq_ignore_ascii_case(b, p),
        second.code != KeyCode::Esc,
        binding_of(second) == Some(c),
    ensures
        m.editing == Some(EditMode::Listening { row, prefix_seen: true }),
        f.pending_binding matches Some(x) && x@ == "prefix+"@ + c,
{
    let b = binding_of(first).unwrap();
    law_listen_uses_profile_prefix(o, m, first, row, r1, w, b, p);
    assert(m.rows == o.rows);
    assert(m.rows_v() == o.rows_v());
}

} // verus!
