//! The footer of the keybinds popup: "label key" hints for the current mode,
//! packed onto as few lines as the width allows.
use crate::style::{DIM, FG_WHITE, FOOTER_SEP, LEFT_PAD, RESET};
use crate::text::{chars_to_string, push_str, str_chars};
use vstd::prelude::*;

verus! {

/// One "label key" pair in the footer hint, e.g. label "close", key
/// "esc/enter/q". Kept whole -- never broken across a line -- by
/// `wrap_footer`.
pub struct FooterHint {
    pub label: &'static str,
    pub key: &'static str,
}

pub open spec fn hint_view(h: FooterHint) -> (Seq<char>, Seq<char>) {
    (h.label@, h.key@)
}

pub open spec fn hints_view(hs: Seq<FooterHint>) -> Seq<(Seq<char>, Seq<char>)> {
    hs.map_values(|h: FooterHint| hint_view(h))
}

/// The hints for each mode, the first that applies: searching, confirming,
/// listening, manual entry, editing, browsing.
pub open spec fn footer_hints(
    searching: bool,
    editing: bool,
    listening: bool,
    manual: bool,
    prefix_listening: bool,
    confirming: bool,
) -> Seq<(Seq<char>, Seq<char>)> {
    if searching {
        seq![
            ("filter"@, "type/backspace"@),
            ("clear"@, "ctrl+u"@),
            ("scroll"@, "\u{2191}\u{2193}/pgup/pgdn"@),
            ("back"@, "esc"@),
        ]
    } else if confirming {
        seq![("save"@, "y/enter"@), ("discard"@, "n"@), ("back"@, "esc"@)]
    } else if listening {
        seq![
            ("capture"@, "direct/prefix"@),
            ("save"@, "enter"@),
            ("retry"@, "backspace"@),
            ("cancel"@, if prefix_listening { "esc/ctrl+c"@ } else { "esc"@ }),
        ]
    } else if manual {
        seq![
            ("type"@, "text/backspace"@),
            ("clear"@, "ctrl+u"@),
            ("save"@, "enter"@),
            ("back"@, "esc"@),
        ]
    } else if editing {
        seq![
            ("select"@, "j/k/\u{2191}\u{2193}"@),
            ("listen"@, "enter"@),
            ("manual"@, "m"@),
            ("next duplicate"@, "d"@),
            ("duplicates only"@, "f"@),
            ("scroll"@, "pgup/pgdn"@),
            ("back"@, "esc"@),
        ]
    } else {
        seq![
            ("edit"@, "e"@),
            ("undo"@, "u"@),
            ("search"@, "/"@),
            ("tabs"@, "\u{2190}/\u{2192}/click"@),
            ("scroll"@, "j/k/\u{2191}\u{2193}/pgup/pgdn"@),
            ("switch active profile"@, "shift+k"@),
            ("close"@, "esc/enter/q"@),
        ]
    }
}

fn hint(label: &'static str, key: &'static str) -> (h: FooterHint)
    ensures
        h.label == label,
        h.key == key,
{
    FooterHint { label, key }
}

pub fn footer_segments(
    searching: bool,
    editing: bool,
    listening: bool,
    manual: bool,
    prefix_listening: bool,
    confirming: bool,
) -> (r: Vec<FooterHint>)
    ensures
        hints_view(r@) == footer_hints(searching, editing, listening, manual, prefix_listening, confirming),
{
    let r = if searching {
        vec![
            hint("filter", "type/backspace"),
            hint("clear", "ctrl+u"),
            hint("scroll", "\u{2191}\u{2193}/pgup/pgdn"),
            hint("back", "esc"),
        ]
    } else if confirming {
        vec![hint("save", "y/enter"), hint("discard", "n"), hint("back", "esc")]
    } else if listening {
        vec![
            hint("capture", "direct/prefix"),
            hint("save", "enter"),
            hint("retry", "backspace"),
            hint("cancel", if prefix_listening { "esc/ctrl+c" } else { "esc" }),
        ]
    } else if manual {
        vec![
            hint("type", "text/backspace"),
            hint("clear", "ctrl+u"),
            hint("save", "enter"),
            hint("back", "esc"),
        ]
    } else if editing {
        vec![
            hint("select", "j/k/\u{2191}\u{2193}"),
            hint("listen", "enter"),
            hint("manual", "m"),
            hint("next duplicate", "d"),
            hint("duplicates only", "f"),
            hint("scroll", "pgup/pgdn"),
            hint("back", "esc"),
        ]
    } else {
        vec![
            hint("edit", "e"),
            hint("undo", "u"),
            hint("search", "/"),
            hint("tabs", "\u{2190}/\u{2192}/click"),
            hint("scroll", "j/k/\u{2191}\u{2193}/pgup/pgdn"),
            hint("switch active profile", "shift+k"),
            hint("close", "esc/enter/q"),
        ]
    };
    assert(hints_view(r@) =~= footer_hints(searching, editing, listening, manual, prefix_listening, confirming));
    r
}

/// The visible width of a hint: label, a space, key.
pub open spec fn hint_width(h: (Seq<char>, Seq<char>)) -> int {
    (h.0.len() + 1 + h.1.len()) as int
}

/// A hint as printed: dim label, then the key in bold white.
pub open spec fn styled_hint(h: (Seq<char>, Seq<char>)) -> Seq<char> {
    DIM@ + h.0 + RESET@ + " "@ + FG_WHITE@ + h.1 + RESET@
}

/// The separator between hints on one line, as printed.
pub open spec fn styled_sep() -> Seq<char> {
    DIM@ + FOOTER_SEP@ + RESET@
}

/// Packing progress: finished lines with their visible widths and hint
/// counts, then the current line, its width and its hint count.
pub type WrapState = (Seq<Seq<char>>, Seq<int>, Seq<int>, Seq<char>, int, int);

pub open spec fn wrap_step(st: WrapState, h: (Seq<char>, Seq<char>), budget: int) -> WrapState {
    let extra: int = if st.3.len() == 0 { 0 } else { 3 };
    let flush = st.3.len() != 0 && st.4 + extra + hint_width(h) > budget;
    let (lines, widths, counts, line, w, c) = if flush {
        (st.0.push(st.3), st.1.push(st.4), st.2.push(st.5), Seq::<char>::empty(), 0int, 0int)
    } else {
        st
    };
    let (line2, w2) = if line.len() != 0 { (line + styled_sep(), w + 3) } else { (line, w) };
    (lines, widths, counts, line2 + styled_hint(h), w2 + hint_width(h), c + 1)
}

pub open spec fn wrap_run(hs: Seq<(Seq<char>, Seq<char>)>, budget: int) -> WrapState
    decreases hs.len(),
{
    if hs.len() == 0 {
        (Seq::empty(), Seq::empty(), Seq::empty(), Seq::empty(), 0, 0)
    } else {
        wrap_step(wrap_run(hs.drop_last(), budget), hs.last(), budget)
    }
}

/// The room for footer text: the width less the left padding.
pub open spec fn footer_budget(cols: int) -> int {
    if cols >= 2 { cols - 2 } else { 0 }
}

/// Every line: the finished ones, then the current one if it holds a hint.
pub open spec fn wrapped(hs: Seq<(Seq<char>, Seq<char>)>, cols: int) -> Seq<Seq<char>> {
    let st = wrap_run(hs, footer_budget(cols));
    if st.3.len() != 0 { st.0.push(st.3) } else { st.0 }
}

pub open spec fn total_width(hs: Seq<(Seq<char>, Seq<char>)>) -> int
    decreases hs.len(),
{
    if hs.len() == 0 {
        0
    } else {
        total_width(hs.drop_last()) + hint_width(hs.last()) + 3
    }
}

proof fn lemma_wrap_run_bounds(hs: Seq<(Seq<char>, Seq<char>)>, budget: int)
    ensures
        0 <= wrap_run(hs, budget).4 <= total_width(hs),
        (wrap_run(hs, budget).3.len() == 0) == (hs.len() == 0),
    decreases hs.len(),
{
    reveal_strlit(" ");
    if hs.len() > 0 {
        lemma_wrap_run_bounds(hs.drop_last(), budget);
        assert(" "@.len() == 1);
        assert(styled_hint(hs.last()).len() > 0);
        lemma_hint_width_nonneg(hs.last());
    }
}

/// Greedily packs footer segments onto lines, each no wider than `cols`
/// (accounting for `LEFT_PAD`), without ever splitting a single segment.
pub fn wrap_footer(segments: &[FooterHint], cols: usize) -> (lines: Vec<String>)
    requires
        total_width(hints_view(segments@)) <= usize::MAX,
    ensures
        lines@.map_values(|l: String| l@) == wrapped(hints_view(segments@), cols as int),
{
    proof {
        reveal_strlit("  ");
        reveal_strlit(" \u{b7} ");
    }
    let pad = str_chars(LEFT_PAD);
    let sep_width = str_chars(FOOTER_SEP).len();
    assert(sep_width == 3);
    let budget = if cols >= pad.len() { cols - pad.len() } else { 0 };
    assert(budget == footer_budget(cols as int));
    let ghost hv = hints_view(segments@);
    let mut lines: Vec<String> = Vec::new();
    let mut line: Vec<char> = Vec::new();
    let mut line_width: usize = 0;
    let ghost mut widths: Seq<int> = Seq::empty();
    let ghost mut counts: Seq<int> = Seq::empty();
    let ghost mut count: int = 0;
    let mut i: usize = 0;
    assert(hv.take(0) =~= Seq::<(Seq<char>, Seq<char>)>::empty());
    while i < segments.len()
        invariant
            hv == hints_view(segments@),
            total_width(hv) <= usize::MAX,
            budget == footer_budget(cols as int),
            sep_width == 3,
            i <= segments.len(),
            wrap_run(hv.take(i as int), budget as int) == (
                lines@.map_values(|l: String| l@),
                widths,
                counts,
                line@,
                line_width as int,
                count,
            ),
        decreases segments.len() - i,
    {
        let h = &segments[i];
        let ghost hh = hv[i as int];
        assert(hint_view(*h) == hh);
        assert(hv.take(i + 1).drop_last() =~= hv.take(i as int));
        assert(hv.take(i + 1).last() == hh);
        proof {
            lemma_wrap_run_bounds(hv.take(i as int), budget as int);
            lemma_total_width_prefix(hv, i as int);
        }
        assert(line_width as int <= total_width(hv.take(i as int)));
        let seg_width = str_chars(h.label).len() + 1 + str_chars(h.key).len();
        assert(seg_width as int == hint_width(hh));
        let extra: usize = if line.len() == 0 { 0 } else { sep_width };
        if line.len() != 0 && line_width + extra + seg_width > budget {
            let done = chars_to_string(&line);
            lines.push(done);
            proof {
                widths = widths.push(line_width as int);
                counts = counts.push(count);
                count = 0;
            }
            line = Vec::new();
            line_width = 0;
        }
        if line.len() != 0 {
            push_str(&mut line, DIM);
            push_str(&mut line, FOOTER_SEP);
            push_str(&mut line, RESET);
            line_width = line_width + sep_width;
        }
        push_str(&mut line, DIM);
        push_str(&mut line, h.label);
        push_str(&mut line, RESET);
        push_str(&mut line, " ");
        push_str(&mut line, FG_WHITE);
        push_str(&mut line, h.key);
        push_str(&mut line, RESET);
        line_width = line_width + seg_width;
        proof {
            count = count + 1;
        }
        i = i + 1;
        assert(lines@.map_values(|l: String| l@) =~= wrap_run(hv.take(i as int), budget as int).0);
        assert(line@ =~= wrap_run(hv.take(i as int), budget as int).3);
    }
    assert(hv.take(segments.len() as int) =~= hv);
    if line.len() != 0 {
        let done = chars_to_string(&line);
        lines.push(done);
    }
    assert(lines@.map_values(|l: String| l@) =~= wrapped(hv, cols as int));
    lines
}

proof fn lemma_total_width_prefix(hs: Seq<(Seq<char>, Seq<char>)>, i: int)
    requires
        0 <= i < hs.len(),
    ensures
        total_width(hs.take(i)) + hint_width(hs[i]) + 3 <= total_width(hs),
    decreases hs.len(),
{
    lemma_total_width_nonneg(hs.take(i));
    if i < hs.len() - 1 {
        lemma_total_width_prefix(hs.drop_last(), i);
        assert(hs.drop_last().take(i) =~= hs.take(i));
        assert(hs.drop_last()[i] == hs[i]);
    } else {
        assert(hs.drop_last() =~= hs.take(i));
    }
}

proof fn lemma_total_width_nonneg(hs: Seq<(Seq<char>, Seq<char>)>)
    ensures
        total_width(hs) >= 0,
    decreases hs.len(),
{
    if hs.len() > 0 {
        lemma_total_width_nonneg(hs.drop_last());
    }
}

/// Law: every footer line fits the width, unless it holds a single hint that
/// is wider on its own; and each finished line holds at least one hint.
pub proof fn law_footer_lines_fit(hs: Seq<(Seq<char>, Seq<char>)>, budget: int)
    ensures
        wrap_run(hs, budget).1.len() == wrap_run(hs, budget).0.len(),
        wrap_run(hs, budget).2.len() == wrap_run(hs, budget).0.len(),
        forall|k: int|
            0 <= k < wrap_run(hs, budget).1.len() ==> (#[trigger] wrap_run(hs, budget).1[k] <= budget
                || wrap_run(hs, budget).2[k] == 1) && wrap_run(hs, budget).2[k] >= 1,
        wrap_run(hs, budget).4 <= budget || wrap_run(hs, budget).5 <= 1,
        wrap_run(hs, budget).5 >= 0,
        (wrap_run(hs, budget).3.len() == 0) == (wrap_run(hs, budget).5 == 0),
    decreases hs.len(),
{
    reveal_strlit(" ");
    if hs.len() > 0 {
        law_footer_lines_fit(hs.drop_last(), budget);
        let st = wrap_run(hs.drop_last(), budget);
        let s2 = wrap_run(hs, budget);
        assert(s2 == wrap_step(st, hs.last(), budget));
        lemma_hint_width_nonneg(hs.last());
        let extra: int = if st.3.len() == 0 { 0 } else { 3 };
        let flush = st.3.len() != 0 && st.4 + extra + hint_width(hs.last()) > budget;
        assert(" "@.len() == 1);
        assert(styled_hint(hs.last()).len() > 0);
        if flush {
            assert(s2.1[st.1.len() as int] == st.4);
            assert(s2.2[st.2.len() as int] == st.5);
            assert forall|k: int|
                0 <= k < s2.1.len() implies (#[trigger] s2.1[k] <= budget || s2.2[k] == 1) && s2.2[k] >= 1 by {
                if k < st.1.len() {
                    assert(s2.1[k] == st.1[k]);
                    assert(s2.2[k] == st.2[k]);
                }
            }
        } else {
            assert(s2.1 == st.1);
            assert(s2.2 == st.2);
        }
    }
}

proof fn lemma_hint_width_nonneg(h: (Seq<char>, Seq<char>))
    ensures
        hint_width(h) >= 1,
{
}

} // verus!
