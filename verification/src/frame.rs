//! The whole screen of the keybinds popup, drawn from its state.
//!
//! Top to bottom: the banner naming the active profile, the tab row, a hint
//! (or the query being typed), the visible window of rows, a blank line and
//! the footer, which may wrap onto several lines.
use crate::conflicts::{duplicate_partners, is_duplicate, join_labels, partners, slice_rows, conflict_note};
use crate::footer::{footer_hints, wrapped};
use crate::panel::{Row, RowV};
use crate::render::{fit_line, fitted, render_row, rendered_row, RowHighlight};
use crate::style::{BG_CYAN, BOLD, DEFAULT_PROFILE, DIM, FG_BLACK, LEFT_PAD, RESET};
use crate::tabs::{names_total, names_view, opt_view as opt_str_view, render_tabs, rendered_tabs};
use crate::text::{chars_to_string, push_chars, push_str, str_chars, str_eq};
use crate::view_session::{names_of, opt_view};
use crate::view_state::{footer_lines, is_prefix_row, mode_row, EditMode, ViewState};
use std::collections::HashMap;
use vstd::prelude::*;

verus! {

broadcast use vstd::std_specs::hash::group_hash_axioms;

/// Some row shares its shortcut with another.
pub open spec fn has_duplicates(rows: Seq<RowV>) -> bool {
    exists|i: int| 0 <= i < rows.len() && is_duplicate(rows, i)
}

/// The end of a screen line: clear the rest of it, then a new line.
pub open spec fn eol() -> Seq<char> {
    "\u{1b}[K\r\n"@
}

/// The footer's wrapped lines for the state's mode.
pub open spec fn frame_footer(s: &ViewState, cols: int) -> Seq<Seq<char>> {
    let listening = s.editing matches Some(EditMode::Listening { .. });
    let manual = s.editing matches Some(EditMode::Manual { .. });
    let confirming = s.editing matches Some(EditMode::Confirming { .. });
    let prefix_listening = s.editing matches Some(EditMode::Listening { row, .. }) && is_prefix_row(
        s.rows_v()[row as int],
    );
    wrapped(footer_hints(s.searching, s.editing is Some, listening, manual, prefix_listening, confirming), cols)
}

/// Rows of the window: the terminal height less the banner, the tab row, the
/// hint line, three blank lines and the footer; at least one.
pub open spec fn window(term_rows: int, footer: int) -> int {
    let v = term_rows - 6 - footer;
    if v > 1 { v } else { 1 }
}

/// The largest scroll offset that still fills the window.
pub open spec fn max_offset(shown: int, window: int) -> int {
    if shown > window { shown - window } else { 0 }
}

/// The banner line.
pub open spec fn banner_line(active: Seq<char>, cols: int) -> Seq<char> {
    let banner = " active profile: "@ + active + " "@;
    let pad = if cols > banner.len() { (cols - banner.len()) / 2 } else { 0 };
    Seq::new(pad as nat, |i: int| ' ') + BOLD@ + BG_CYAN@ + FG_BLACK@ + banner + RESET@ + eol()
}

/// The hint shown in edit mode.
pub open spec fn edit_hint(s: &ViewState) -> Seq<char> {
    let ghost rows = s.rows_v();
    let confirming = s.editing matches Some(EditMode::Confirming { .. });
    if confirming && has_duplicates(rows) {
        "resolve red duplicates to save; n discard; esc back"@
    } else if confirming {
        "save changes to this keybind profile? y/enter yes; n discard; esc back"@
    } else if s.pending_binding is Some {
        "captured "@ + s.pending_binding.unwrap()@ + "; enter save; backspace retry; esc cancel"@
    } else if s.editing matches Some(EditMode::Selecting { row }) && is_duplicate(rows, row as int) {
        "also used by "@ + join_labels(rows, partners(rows, mode_row(s.editing.unwrap()) as int))
            + "; d next duplicate; f duplicates only"@
    } else if has_duplicates(rows) {
        "duplicates are red; resolve them to save, or esc to discard"@
    } else {
        match s.editing {
            Some(EditMode::Selecting { .. }) => "press enter to listen; m for manual text; esc to leave edit mode"@,
            Some(EditMode::Manual { .. }) => "binding: "@ + s.manual_binding@
                + "\u{2588}; ctrl+u clear; enter save; esc cancel"@,
            Some(EditMode::Listening { row, prefix_seen }) => if is_prefix_row(rows[row as int]) {
                "press the new prefix; ctrl+c to cancel"@
            } else if prefix_seen {
                "prefix detected; press the next key; esc to cancel"@
            } else {
                "press direct key or this profile's prefix + key; terminal/Herdr may use it"@
            },
            _ => Seq::empty(),
        }
    }
}

/// The hint shown while browsing.
pub open spec fn browse_hint(viewed: Option<Seq<char>>) -> Seq<char> {
    if viewed == Some(DEFAULT_PROFILE@) {
        "default profile is read-only; press / to filter by command or shortcut"@
    } else {
        "press / to filter by command or shortcut"@
    }
}

/// The hint block: the query being typed, or a hint cut to the width; then a
/// blank line.
pub open spec fn hint_block(s: &ViewState, cols: int) -> Seq<char> {
    let room = if cols >= 2 { cols - 2 } else { 0 };
    if s.searching {
        LEFT_PAD@ + BOLD@ + "/"@ + RESET@ + s.query@ + "\u{2588}"@ + eol() + "\r\n"@
    } else {
        let hint = if s.editing is Some { edit_hint(s) } else { browse_hint(opt_view(s.viewed_profile)) };
        LEFT_PAD@ + DIM@ + fitted(hint, room) + RESET@ + eol() + "\r\n"@
    }
}

/// How the selected row of the editor is highlighted, if `idx` is it.
pub open spec fn highlight_at(s: &ViewState, idx: usize) -> Option<RowHighlight> {
    match s.editing {
        Some(m) => if mode_row(m) != idx {
            None
        } else {
            match m {
                EditMode::Selecting { row } => Some(
                    if is_duplicate(s.rows_v(), row as int) {
                        RowHighlight::Conflict
                    } else if s.saved_row == Some(row) {
                        RowHighlight::Saved
                    } else {
                        RowHighlight::Editing
                    },
                ),
                EditMode::Listening { .. } => Some(RowHighlight::Listening),
                EditMode::Manual { .. } => Some(RowHighlight::Listening),
                EditMode::Confirming { .. } => Some(RowHighlight::Editing),
            }
        },
        None => None,
    }
}

/// The conflict note of row `idx`: in edit mode, the labels of the rows
/// sharing its shortcut.
pub open spec fn note_at(s: &ViewState, idx: usize) -> Option<Seq<char>> {
    if s.editing is Some && is_duplicate(s.rows_v(), idx as int) {
        Some(join_labels(s.rows_v(), partners(s.rows_v(), idx as int)))
    } else {
        None
    }
}

/// The shown rows at positions `from..to`, one line each.
pub open spec fn body_lines(s: &ViewState, cols: int, from: int, to: int) -> Seq<char>
    decreases to - from,
{
    if to <= from {
        Seq::empty()
    } else {
        let idx = s.filtered@[to - 1];
        body_lines(s, cols, from, to - 1) + rendered_row(s.rows_v()[idx as int], cols, highlight_at(s, idx), note_at(s, idx))
            + eol()
    }
}

/// The footer lines, each after the left padding, the first `n` of them.
pub open spec fn footer_text(lines: Seq<Seq<char>>, n: int) -> Seq<char>
    decreases n,
{
    if n <= 0 {
        Seq::empty()
    } else {
        footer_text(lines, n - 1) + (if n > 1 { eol() } else { Seq::empty() }) + LEFT_PAD@ + lines[n - 1]
    }
}

/// The whole screen, for a state whose scroll offset is within bounds.
pub open spec fn frame_text(s: &ViewState, cols: int, term_rows: int) -> Seq<char> {
    let footer = frame_footer(s, cols);
    let win = window(term_rows, footer.len() as int);
    let end = if s.offset + win < s.filtered@.len() { s.offset + win } else { s.filtered@.len() as int };
    "\u{1b}[2J\u{1b}[H"@ + banner_line(s.active_profile@, cols) + LEFT_PAD@ + rendered_tabs(
        names_of(s.profiles@),
        opt_view(s.viewed_profile),
        s.active_profile@,
        cols,
    ) + eol() + "\r\n"@ + hint_block(s, cols) + (if s.filtered@.len() == 0 {
        LEFT_PAD@ + DIM@ + "no matches"@ + RESET@ + eol()
    } else {
        Seq::empty()
    }) + body_lines(s, cols, s.offset as int, end) + eol() + footer_text(footer, footer.len() as int) + "\u{1b}[K"@
}

proof fn lemma_sharing_below(rows: Seq<RowV>, k: Seq<char>, n: int)
    requires
        0 <= n <= rows.len(),
    ensures
        forall|t: int| 0 <= t < crate::conflicts::sharing(rows, k, n).len() ==> #[trigger] crate::conflicts::sharing(rows, k, n)[t] < n,
    decreases n,
{
    if n > 0 {
        lemma_sharing_below(rows, k, n - 1);
        let p = crate::conflicts::sharing(rows, k, n - 1);
        assert forall|t: int| 0 <= t < crate::conflicts::sharing(rows, k, n).len() implies #[trigger] crate::conflicts::sharing(rows, k, n)[t] < n by {
            if t < p.len() {
                assert(crate::conflicts::sharing(rows, k, n)[t] == p[t]);
            }
        }
    }
}

proof fn lemma_without_below(s: Seq<usize>, i: usize, n: int)
    requires
        forall|t: int| 0 <= t < s.len() ==> #[trigger] s[t] < n,
    ensures
        forall|t: int| 0 <= t < crate::conflicts::without(s, i).len() ==> #[trigger] crate::conflicts::without(s, i)[t] < n,
    decreases s.len(),
{
    if s.len() > 0 {
        lemma_without_below(s.drop_last(), i, n);
        let p = crate::conflicts::without(s.drop_last(), i);
        assert forall|t: int| 0 <= t < crate::conflicts::without(s, i).len() implies #[trigger] crate::conflicts::without(s, i)[t] < n by {
            if t < p.len() {
                assert(crate::conflicts::without(s, i)[t] == p[t]);
            } else {
                assert(s[s.len() - 1] < n);
            }
        }
    }
}

/// The rows sharing a row's shortcut are rows.
proof fn lemma_partners_below(rows: Seq<RowV>, i: int)
    requires
        0 <= i < rows.len(),
    ensures
        forall|t: int| 0 <= t < partners(rows, i).len() ==> #[trigger] partners(rows, i)[t] < rows.len(),
{
    lemma_sharing_below(rows, crate::conflicts::conflict_key(rows[i]).unwrap(), rows.len() as int);
    lemma_without_below(crate::conflicts::group_of(rows, i), i as usize, rows.len() as int);
}

fn push_eol(out: &mut Vec<char>)
    ensures
        final(out)@ == old(out)@ + eol(),
{
    push_str(out, "\u{1b}[K\r\n");
}

/// Append the banner line.
fn push_banner(out: &mut Vec<char>, active: &str, cols: usize)
    ensures
        final(out)@ == old(out)@ + banner_line(active@, cols as int),
{
    let mut banner: Vec<char> = Vec::new();
    push_str(&mut banner, " active profile: ");
    push_str(&mut banner, active);
    push_str(&mut banner, " ");
    assert(banner@ =~= " active profile: "@ + active@ + " "@);
    let pad = if cols > banner.len() { (cols - banner.len()) / 2 } else { 0 };
    let ghost start = out@;
    let mut i: usize = 0;
    while i < pad
        invariant
            i <= pad,
            out@ == start + Seq::new(i as nat, |j: int| ' '),
        decreases pad - i,
    {
        out.push(' ');
        i = i + 1;
        assert(out@ =~= start + Seq::new(i as nat, |j: int| ' '));
    }
    push_str(out, BOLD);
    push_str(out, BG_CYAN);
    push_str(out, FG_BLACK);
    push_chars(out, &banner);
    push_str(out, RESET);
    push_eol(out);
    assert(out@ =~= start + banner_line(active@, cols as int));
}

/// The hint shown in edit mode.
fn edit_hint_text(s: &ViewState) -> (r: Vec<char>)
    requires
        s.wf(),
        s.editing is Some,
    ensures
        r@ == edit_hint(s),
{
    let ghost rows = s.rows_v();
    let confirming = match s.editing {
        Some(EditMode::Confirming { .. }) => true,
        _ => false,
    };
    let dups = s.has_unresolved_duplicates();
    let mut out: Vec<char> = Vec::new();
    if confirming && dups {
        push_str(&mut out, "resolve red duplicates to save; n discard; esc back");
        return out;
    }
    if confirming {
        push_str(&mut out, "save changes to this keybind profile? y/enter yes; n discard; esc back");
        return out;
    }
    match &s.pending_binding {
        Some(binding) => {
            push_str(&mut out, "captured ");
            push_str(&mut out, binding.as_str());
            push_str(&mut out, "; enter save; backspace retry; esc cancel");
            assert(out@ =~= "captured "@ + binding@ + "; enter save; backspace retry; esc cancel"@);
            return out;
        },
        None => {},
    }
    match crate::view_session::selected_conflict(s) {
        Some(others) => {
            let row = crate::view_state::edit_row(s.editing.unwrap());
            proof {
                lemma_partners_below(rows, row as int);
            }
            let rs = s.rows.as_slice();
            assert(slice_rows(rs) =~= rows);
            let note = conflict_note(rs, others.as_slice());
            push_str(&mut out, "also used by ");
            push_str(&mut out, note.as_str());
            push_str(&mut out, "; d next duplicate; f duplicates only");
            assert(out@ =~= "also used by "@ + join_labels(rows, partners(rows, row as int))
                + "; d next duplicate; f duplicates only"@);
            return out;
        },
        None => {},
    }
    if dups {
        push_str(&mut out, "duplicates are red; resolve them to save, or esc to discard");
        return out;
    }
    match s.editing {
        Some(EditMode::Selecting { .. }) => {
            push_str(&mut out, "press enter to listen; m for manual text; esc to leave edit mode");
        },
        Some(EditMode::Manual { .. }) => {
            push_str(&mut out, "binding: ");
            push_str(&mut out, s.manual_binding.as_str());
            push_str(&mut out, "\u{2588}; ctrl+u clear; enter save; esc cancel");
            assert(out@ =~= "binding: "@ + s.manual_binding@ + "\u{2588}; ctrl+u clear; enter save; esc cancel"@);
        },
        Some(EditMode::Listening { row, prefix_seen }) => {
            assert(s.rows@[row as int]@ == rows[row as int]);
            let prefix = match crate::conflicts::row_config_key(&s.rows[row]) {
                Some(k) => str_eq(k, "prefix"),
                None => false,
            };
            if prefix {
                push_str(&mut out, "press the new prefix; ctrl+c to cancel");
            } else if prefix_seen {
                push_str(&mut out, "prefix detected; press the next key; esc to cancel");
            } else {
                push_str(&mut out, "press direct key or this profile's prefix + key; terminal/Herdr may use it");
            }
        },
        _ => {},
    }
    out
}

/// Append the hint block.
fn push_hint_block(out: &mut Vec<char>, s: &ViewState, cols: usize)
    requires
        s.wf(),
    ensures
        final(out)@ == old(out)@ + hint_block(s, cols as int),
{
    let ghost start = out@;
    let pad = str_chars(LEFT_PAD).len();
    let room = if cols >= pad { cols - pad } else { 0 };
    proof {
        reveal_strlit("  ");
    }
    assert(pad == 2);
    if s.searching {
        push_str(out, LEFT_PAD);
        push_str(out, BOLD);
        push_str(out, "/");
        push_str(out, RESET);
        push_str(out, s.query.as_str());
        push_str(out, "\u{2588}");
        push_eol(out);
        push_str(out, "\r\n");
        assert(out@ =~= start + hint_block(s, cols as int));
        return;
    }
    let hint: Vec<char> = if s.editing.is_some() {
        edit_hint_text(s)
    } else {
        let read_only = match &s.viewed_profile {
            Some(v) => str_eq(v.as_str(), DEFAULT_PROFILE),
            None => false,
        };
        let mut h: Vec<char> = Vec::new();
        if read_only {
            push_str(&mut h, "default profile is read-only; press / to filter by command or shortcut");
        } else {
            push_str(&mut h, "press / to filter by command or shortcut");
        }
        h
    };
    let text = chars_to_string(&hint);
    let fitted_hint = fit_line(text.as_str(), room);
    push_str(out, LEFT_PAD);
    push_str(out, DIM);
    push_str(out, fitted_hint.as_str());
    push_str(out, RESET);
    push_eol(out);
    push_str(out, "\r\n");
    assert(out@ =~= start + hint_block(s, cols as int));
}

/// Append the banner, the tab row, the hint block and, when nothing is
/// shown, the `no matches` line.
fn push_head(out: &mut Vec<char>, s: &ViewState, cols: usize)
    requires
        s.wf(),
        names_total(names_of(s.profiles@)) <= usize::MAX,
    ensures
        final(out)@ == old(out)@ + "\u{1b}[2J\u{1b}[H"@ + banner_line(s.active_profile@, cols as int) + LEFT_PAD@
            + rendered_tabs(names_of(s.profiles@), opt_view(s.viewed_profile), s.active_profile@, cols as int) + eol()
            + "\r\n"@ + hint_block(s, cols as int) + (if s.filtered@.len() == 0 {
            LEFT_PAD@ + DIM@ + "no matches"@ + RESET@ + eol()
        } else {
            Seq::empty()
        }),
{
    let ghost start = out@;
    push_str(out, "\u{1b}[2J\u{1b}[H");
    push_banner(out, s.active_profile.as_str(), cols);
    let ps = s.profiles.as_slice();
    assert(names_view(ps) =~= names_of(s.profiles@));
    let viewed: Option<&str> = match &s.viewed_profile {
        Some(v) => Some(v.as_str()),
        None => None,
    };
    assert(opt_str_view(viewed) == opt_view(s.viewed_profile));
    let tabs = render_tabs(ps, viewed, s.active_profile.as_str(), cols);
    push_str(out, LEFT_PAD);
    push_str(out, tabs.as_str());
    push_eol(out);
    push_str(out, "\r\n");
    push_hint_block(out, s, cols);
    let ghost before = out@;
    if s.filtered.len() == 0 {
        push_str(out, LEFT_PAD);
        push_str(out, DIM);
        push_str(out, "no matches");
        push_str(out, RESET);
        push_eol(out);
    }
    assert(out@ =~= start + "\u{1b}[2J\u{1b}[H"@ + banner_line(s.active_profile@, cols as int) + LEFT_PAD@
            + rendered_tabs(names_of(s.profiles@), opt_view(s.viewed_profile), s.active_profile@, cols as int) + eol()
            + "\r\n"@ + hint_block(s, cols as int) + (if s.filtered@.len() == 0 {
            LEFT_PAD@ + DIM@ + "no matches"@ + RESET@ + eol()
        } else {
            Seq::empty()
        }));
}

/// Append the shown rows at positions `from..to`.
fn push_body(out: &mut Vec<char>, s: &ViewState, cols: usize, from: usize, to: usize)
    requires
        s.wf(),
        from <= to <= s.filtered@.len(),
    ensures
        final(out)@ == old(out)@ + body_lines(s, cols as int, from as int, to as int),
{
    let ghost head = out@;
    let rs = s.rows.as_slice();
    assert(slice_rows(rs) =~= s.rows_v());
    let conflicts: HashMap<usize, Vec<usize>> = if s.editing.is_some() {
        duplicate_partners(rs)
    } else {
        HashMap::new()
    };
    let mut t: usize = from;
    while t < to
        invariant
            s.wf(),
            rs@ == s.rows@,
            slice_rows(rs) == s.rows_v(),
            from <= t <= to <= s.filtered@.len(),
            forall|i: usize| #[trigger] conflicts@.contains_key(i) ==> i < s.rows@.len(),
            s.editing is Some ==> forall|i: usize| i < s.rows@.len() ==> (#[trigger] conflicts@.contains_key(i) <==> is_duplicate(s.rows_v(), i as int)),
            s.editing is Some ==> forall|i: usize| #[trigger] conflicts@.contains_key(i) ==> conflicts@[i]@ == partners(s.rows_v(), i as int),
            s.editing is None ==> conflicts@ == Map::<usize, Vec<usize>>::empty(),
            out@ == head + body_lines(s, cols as int, from as int, t as int),
        decreases to - t,
    {
        let idx = s.filtered[t];
        assert(idx < s.rows@.len());
        let highlight: Option<RowHighlight> = match s.editing {
            Some(m) => if crate::view_state::edit_row(m) != idx {
                None
            } else {
                match m {
                    EditMode::Selecting { row } => Some(
                        if conflicts.contains_key(&row) {
                            RowHighlight::Conflict
                        } else if s.saved_row == Some(row) {
                            RowHighlight::Saved
                        } else {
                            RowHighlight::Editing
                        },
                    ),
                    EditMode::Listening { .. } => Some(RowHighlight::Listening),
                    EditMode::Manual { .. } => Some(RowHighlight::Listening),
                    EditMode::Confirming { .. } => Some(RowHighlight::Editing),
                }
            },
            None => None,
        };
        assert(highlight == highlight_at(s, idx));
        let note: Option<String> = match conflicts.get(&idx) {
            Some(others) => {
                proof {
                    lemma_partners_below(s.rows_v(), idx as int);
                }
                Some(conflict_note(rs, others.as_slice()))
            },
            None => None,
        };
        let note_ref: Option<&str> = match &note {
            Some(n) => Some(n.as_str()),
            None => None,
        };
        assert(match note_ref {
            Some(c) => Some(c@),
            None => None::<Seq<char>>,
        } == note_at(s, idx));
        let line = render_row(&s.rows[idx], cols, highlight, note_ref);
        assert(s.rows@[idx as int]@ == s.rows_v()[idx as int]);
        push_str(out, line.as_str());
        push_eol(out);
        t = t + 1;
    }
}

/// Append the footer lines.
fn push_footer(out: &mut Vec<char>, lines: &Vec<String>)
    ensures
        final(out)@ == old(out)@ + footer_text(lines@.map_values(|l: String| l@), lines@.len() as int),
{
    let ghost mid = out@;
    let ghost fl = lines@.map_values(|l: String| l@);
    let mut i: usize = 0;
    while i < lines.len()
        invariant
            i <= lines@.len(),
            fl == lines@.map_values(|l: String| l@),
            out@ == mid + footer_text(fl, i as int),
        decreases lines.len() - i,
    {
        if i > 0 {
            push_eol(out);
        }
        push_str(out, LEFT_PAD);
        push_str(out, lines[i].as_str());
        assert(fl[i as int] == lines@[i as int]@);
        i = i + 1;
    }
}

/// The footer lines of the state's mode.
fn frame_footer_lines(s: &ViewState, cols: usize) -> (lines: Vec<String>)
    requires
        s.wf(),
    ensures
        lines@.map_values(|l: String| l@) == frame_footer(s, cols as int),
{
    let listening = match s.editing {
        Some(EditMode::Listening { .. }) => true,
        _ => false,
    };
    let manual = match s.editing {
        Some(EditMode::Manual { .. }) => true,
        _ => false,
    };
    let confirming = match s.editing {
        Some(EditMode::Confirming { .. }) => true,
        _ => false,
    };
    let prefix_listening = match s.editing {
        Some(EditMode::Listening { row, .. }) => {
            assert(s.rows@[row as int]@ == s.rows_v()[row as int]);
            match crate::conflicts::row_config_key(&s.rows[row]) {
                Some(k) => str_eq(k, "prefix"),
                None => false,
            }
        },
        _ => false,
    };
    footer_lines(cols, s.searching, s.editing.is_some(), listening, manual, prefix_listening, confirming)
}

/// Draw the screen: the scroll offset is first clamped so that the window
/// stays filled, then every line is written (the result is the text to send
/// to the terminal).
pub fn render_frame(state: &mut ViewState, cols: usize, term_rows: usize) -> (r: String)
    requires
        old(state).wf(),
        names_total(names_of(old(state).profiles@)) <= usize::MAX,
    ensures
        final(state).wf(),
        final(state).offset == if (old(state).offset as int) < max_offset(
            old(state).filtered@.len() as int,
            window(term_rows as int, frame_footer(&*old(state), cols as int).len() as int),
        ) {
            old(state).offset as int
        } else {
            max_offset(
                old(state).filtered@.len() as int,
                window(term_rows as int, frame_footer(&*old(state), cols as int).len() as int),
            )
        },
        final(state).same_data(&*old(state)),
        final(state).editing == old(state).editing,
        final(state).filtered == old(state).filtered,
        final(state).saved_row == old(state).saved_row,
        final(state).duplicates_only == old(state).duplicates_only,
        r@ == frame_text(&*final(state), cols as int, term_rows as int),
{
    let lines = frame_footer_lines(state, cols);
    let n_lines = lines.len();
    let chrome = if n_lines <= usize::MAX - 6 { 6 + n_lines } else { usize::MAX };
    let avail = if term_rows > chrome { term_rows - chrome } else { 0 };
    let win = if avail > 1 { avail } else { 1 };
    assert(win as int == window(term_rows as int, frame_footer(&*state, cols as int).len() as int));
    let top = if state.filtered.len() > win { state.filtered.len() - win } else { 0 };
    if state.offset > top {
        state.offset = top;
    }
    let s = &*state;
    assert(frame_footer(s, cols as int) == lines@.map_values(|l: String| l@));
    let end = if s.filtered.len() - s.offset > win { s.offset + win } else { s.filtered.len() };
    let mut out: Vec<char> = Vec::new();
    push_head(&mut out, s, cols);
    push_body(&mut out, s, cols, s.offset, end);
    push_eol(&mut out);
    push_footer(&mut out, &lines);
    push_str(&mut out, "\u{1b}[K");
    assert(out@ =~= frame_text(s, cols as int, term_rows as int));
    chars_to_string(&out)
}

} // verus!
