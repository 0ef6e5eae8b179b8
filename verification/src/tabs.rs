//! The single-line strip of profile tabs at the top of the keybinds popup.
use crate::style::{BG_CYAN, BOLD, CYAN, DIM, FG_BLACK, LEFT_PAD, RESET};
use crate::text::{chars_to_string, push_chars, push_str, str_chars, str_eq};
use vstd::prelude::*;

verus! {

/// A tab's text: the profile name, `*`-marked when active, bracketed when
/// selected.
pub open spec fn tab_text(name: Seq<char>, selected: bool, active: bool) -> Seq<char> {
    (if selected { "["@ } else { Seq::empty() }) + (if active { "*"@ } else { Seq::empty() }) + name + (
    if selected { "]"@ } else { Seq::empty() })
}

/// A tab as printed: selected in black on cyan, active in bold cyan, others
/// dim.
pub open spec fn styled_tab_text(name: Seq<char>, selected: bool, active: bool) -> Seq<char> {
    let label = tab_text(name, selected, active);
    if selected {
        BOLD@ + BG_CYAN@ + FG_BLACK@ + label + RESET@
    } else if active {
        BOLD@ + CYAN@ + label + RESET@
    } else {
        DIM@ + label + RESET@
    }
}

pub open spec fn names_view(ps: &[String]) -> Seq<Seq<char>> {
    ps@.map_values(|p: String| p@)
}

/// Index of the first name equal to `v`, or -1.
pub open spec fn first_index(ps: Seq<Seq<char>>, v: Seq<char>) -> int
    decreases ps.len(),
{
    if ps.len() == 0 {
        -1
    } else if ps[0] == v {
        0
    } else {
        let r = first_index(ps.drop_first(), v);
        if r < 0 {
            -1
        } else {
            r + 1
        }
    }
}

/// The tab of the viewed profile; the first tab when there is none.
pub open spec fn selected_tab(ps: Seq<Seq<char>>, viewed: Option<Seq<char>>) -> int {
    match viewed {
        Some(v) => if first_index(ps, v) >= 0 {
            first_index(ps, v)
        } else {
            0
        },
        None => 0,
    }
}

pub open spec fn tab_len(ps: Seq<Seq<char>>, sel: int, active: Seq<char>, i: int) -> int {
    tab_text(ps[i], i == sel, ps[i] == active).len() as int
}

/// The summed text widths of tabs `start..end`.
pub open spec fn tabs_width(ps: Seq<Seq<char>>, sel: int, active: Seq<char>, start: int, end: int) -> int
    decreases end - start,
{
    if end <= start {
        0
    } else {
        tabs_width(ps, sel, active, start, end - 1) + tab_len(ps, sel, active, end - 1)
    }
}

/// The width of the strip showing tabs `start..end`: the tabs, one space
/// between neighbours, and a two-column `… ` marker on each elided side.
pub open spec fn strip_width(ps: Seq<Seq<char>>, sel: int, active: Seq<char>, start: int, end: int) -> int {
    tabs_width(ps, sel, active, start, end) + (if end > start + 1 { end - start - 1 } else { 0 }) + (
    if start > 0 { 2int } else { 0int }) + (if end < ps.len() { 2int } else { 0int })
}

/// Drop tabs from the left until the selected tab is first, then from the
/// right, while the strip is wider than `budget`.
pub open spec fn shrink(
    ps: Seq<Seq<char>>,
    sel: int,
    active: Seq<char>,
    budget: int,
    start: int,
    end: int,
) -> (int, int)
    decreases end - start,
{
    if start < end && strip_width(ps, sel, active, start, end) > budget && (start < sel || end > sel + 1) {
        if start < sel {
            shrink(ps, sel, active, budget, start + 1, end)
        } else {
            shrink(ps, sel, active, budget, start, end - 1)
        }
    } else {
        (start, end)
    }
}

pub open spec fn pad_budget(cols: int) -> int {
    if cols >= 2 { cols - 2 } else { 0 }
}

/// The range of tabs that fits on the tab row.
pub open spec fn tab_range(ps: Seq<Seq<char>>, viewed: Option<Seq<char>>, active: Seq<char>, cols: int) -> (int, int) {
    if ps.len() == 0 {
        (0, 0)
    } else {
        shrink(ps, selected_tab(ps, viewed), active, pad_budget(cols), 0, ps.len() as int)
    }
}

/// A bound on every width computed here.
pub open spec fn names_total(ps: Seq<Seq<char>>) -> int
    decreases ps.len(),
{
    if ps.len() == 0 {
        8
    } else {
        names_total(ps.drop_last()) + ps.last().len() + 4
    }
}

proof fn lemma_names_total_prefix(ps: Seq<Seq<char>>, k: int)
    requires
        0 <= k <= ps.len(),
    ensures
        names_total(ps.take(k)) <= names_total(ps),
    decreases ps.len() - k,
{
    if k < ps.len() {
        lemma_names_total_prefix(ps, k + 1);
        assert(ps.take(k + 1).drop_last() =~= ps.take(k));
    } else {
        assert(ps.take(k) =~= ps);
    }
}

/// Whether every width computed for these tabs fits in a `usize`.
pub fn names_fit(profiles: &[String]) -> (r: bool)
    ensures
        r == (names_total(names_view(profiles)) <= usize::MAX),
{
    let ghost ps = names_view(profiles);
    let mut total: usize = 8;
    let mut i: usize = 0;
    assert(ps.take(0) =~= Seq::<Seq<char>>::empty());
    while i < profiles.len()
        invariant
            ps == names_view(profiles),
            i <= profiles@.len(),
            total as int == names_total(ps.take(i as int)),
        decreases profiles.len() - i,
    {
        assert(ps.take(i + 1).drop_last() =~= ps.take(i as int));
        assert(ps[i as int] == profiles@[i as int]@);
        let n = str_chars(profiles[i].as_str()).len();
        if n > usize::MAX - 4 || total > usize::MAX - 4 - n {
            proof {
                lemma_names_total_prefix(ps, i + 1);
            }
            return false;
        }
        total = total + n + 4;
        i = i + 1;
    }
    assert(ps.take(i as int) =~= ps);
    true
}

pub open spec fn opt_view(o: Option<&str>) -> Option<Seq<char>> {
    match o {
        Some(s) => Some(s@),
        None => None,
    }
}

pub fn tab_label(name: &str, selected: bool, active: bool) -> (r: String)
    ensures
        r@ == tab_text(name@, selected, active),
{
    let mut v: Vec<char> = Vec::new();
    if selected {
        push_str(&mut v, "[");
    }
    if active {
        push_str(&mut v, "*");
    }
    push_str(&mut v, name);
    if selected {
        push_str(&mut v, "]");
    }
    assert(v@ =~= tab_text(name@, selected, active));
    chars_to_string(&v)
}

pub fn styled_tab(name: &str, selected: bool, active: bool) -> (r: String)
    ensures
        r@ == styled_tab_text(name@, selected, active),
{
    let label = tab_label(name, selected, active);
    let mut v: Vec<char> = Vec::new();
    if selected {
        push_str(&mut v, BOLD);
        push_str(&mut v, BG_CYAN);
        push_str(&mut v, FG_BLACK);
    } else if active {
        push_str(&mut v, BOLD);
        push_str(&mut v, CYAN);
    } else {
        push_str(&mut v, DIM);
    }
    push_str(&mut v, label.as_str());
    push_str(&mut v, RESET);
    assert(v@ =~= styled_tab_text(name@, selected, active));
    chars_to_string(&v)
}

/// The position of the viewed profile, or 0.
fn selected_position(profiles: &[String], viewed: Option<&str>) -> (r: usize)
    ensures
        r as int == selected_tab(names_view(profiles), opt_view(viewed)),
        profiles@.len() > 0 ==> r < profiles@.len(),
{
    let ghost ps = names_view(profiles);
    match viewed {
        None => 0,
        Some(name) => {
            let mut i: usize = 0;
            assert(ps.skip(0) =~= ps);
            while i < profiles.len()
                invariant
                    ps == names_view(profiles),
                    viewed == Some(name),
                    i <= profiles@.len(),
                    first_index(ps, name@) == (if first_index(ps.skip(i as int), name@) < 0 {
                        -1
                    } else {
                        first_index(ps.skip(i as int), name@) + i
                    }),
                decreases profiles.len() - i,
            {
                assert(ps.skip(i as int)[0] == profiles@[i as int]@);
                assert(ps.skip(i as int).drop_first() =~= ps.skip(i + 1));
                if str_eq(profiles[i].as_str(), name) {
                    assert(first_index(ps.skip(i as int), name@) == 0);
                    assert(first_index(ps, name@) == i as int);
                    assert(opt_view(viewed) == Some(name@));
                    return i;
                }
                i = i + 1;
            }
            assert(ps.skip(i as int).len() == 0);
            0
        },
    }
}

proof fn lemma_tabs_width_bound(ps: Seq<Seq<char>>, sel: int, active: Seq<char>, start: int, end: int)
    requires
        0 <= start <= end <= ps.len(),
    ensures
        0 <= tabs_width(ps, sel, active, start, end),
        tabs_width(ps, sel, active, start, end) + (end - start) + 4 <= names_total(ps) - 4,
    decreases ps.len(),
{
    lemma_tabs_width_nonneg(ps, sel, active, start, end);
    lemma_names_total(ps);
    if ps.len() > 0 {
        lemma_names_total(ps.drop_last());
        let p = ps.drop_last();
        if end == ps.len() {
            if start < end {
                lemma_tabs_width_drop(ps, sel, active, start, end - 1);
                lemma_tabs_width_bound(p, sel, active, start, end - 1);
                lemma_tabs_width_same(ps, p, sel, active, start, end - 1);
            }
        } else {
            lemma_tabs_width_bound(p, sel, active, start, end);
            lemma_tabs_width_same(ps, p, sel, active, start, end);
        }
    }
}

proof fn lemma_tabs_width_nonneg(ps: Seq<Seq<char>>, sel: int, active: Seq<char>, start: int, end: int)
    ensures
        0 <= tabs_width(ps, sel, active, start, end),
    decreases end - start,
{
    if end > start {
        lemma_tabs_width_nonneg(ps, sel, active, start, end - 1);
    }
}

proof fn lemma_tabs_width_drop(ps: Seq<Seq<char>>, sel: int, active: Seq<char>, start: int, end: int)
    requires
        0 <= start <= end < ps.len(),
    ensures
        tab_len(ps, sel, active, end) <= ps[end].len() + 3,
{
    reveal_strlit("[");
    reveal_strlit("]");
    reveal_strlit("*");
}

proof fn lemma_names_total(ps: Seq<Seq<char>>)
    ensures
        names_total(ps) >= 8 + 4 * ps.len(),
    decreases ps.len(),
{
    if ps.len() > 0 {
        lemma_names_total(ps.drop_last());
    }
}

proof fn lemma_tabs_width_same(ps: Seq<Seq<char>>, p: Seq<Seq<char>>, sel: int, active: Seq<char>, start: int, end: int)
    requires
        ps.len() > 0,
        p == ps.drop_last(),
        0 <= start <= end <= p.len(),
    ensures
        tabs_width(ps, sel, active, start, end) == tabs_width(p, sel, active, start, end),
    decreases end - start,
{
    if end > start {
        lemma_tabs_width_same(ps, p, sel, active, start, end - 1);
        assert(ps[end - 1] == p[end - 1]);
    }
}

/// The width of the strip showing tabs `start..end`.
fn strip_width_of(profiles: &[String], selected: usize, active: &str, start: usize, end: usize) -> (w: usize)
    requires
        start <= end <= profiles@.len(),
        names_total(names_view(profiles)) <= usize::MAX,
    ensures
        w as int == strip_width(names_view(profiles), selected as int, active@, start as int, end as int),
{
    let ghost ps = names_view(profiles);
    proof {
        lemma_tabs_width_bound(ps, selected as int, active@, start as int, end as int);
    }
    let mut total: usize = 0;
    let mut i: usize = start;
    while i < end
        invariant
            ps == names_view(profiles),
            names_total(ps) <= usize::MAX,
            start <= i <= end <= profiles@.len(),
            total as int == tabs_width(ps, selected as int, active@, start as int, i as int),
            tabs_width(ps, selected as int, active@, start as int, end as int) + (end - start) + 4 <= names_total(ps) - 4,
        decreases end - i,
    {
        proof {
            lemma_tabs_width_prefix_le(ps, selected as int, active@, start as int, i as int + 1, end as int);
        }
        let name = profiles[i].as_str();
        let label = tab_label(name, i == selected, str_eq(name, active));
        let n = str_chars(label.as_str()).len();
        total = total + n;
        i = i + 1;
    }
    let separators = if end - start > 1 { end - start - 1 } else { 0 };
    let left: usize = if start > 0 { 2 } else { 0 };
    let right: usize = if end < profiles.len() { 2 } else { 0 };
    total + separators + left + right
}

proof fn lemma_tabs_width_prefix_le(ps: Seq<Seq<char>>, sel: int, active: Seq<char>, start: int, i: int, end: int)
    requires
        start <= i <= end,
    ensures
        tabs_width(ps, sel, active, start, i) <= tabs_width(ps, sel, active, start, end),
    decreases end - i,
{
    if i < end {
        lemma_tabs_width_prefix_le(ps, sel, active, start, i, end - 1);
    }
}

/// Return the inclusive-exclusive range of tabs that fits on the single tab
/// row. The selected tab is always kept visible when the list is too wide.
pub fn visible_tab_range(profiles: &[String], viewed: Option<&str>, active: &str, cols: usize) -> (r: (
    usize,
    usize,
))
    requires
        names_total(names_view(profiles)) <= usize::MAX,
    ensures
        (r.0 as int, r.1 as int) == tab_range(names_view(profiles), opt_view(viewed), active@, cols as int),
        r.0 <= r.1 <= profiles@.len(),
        profiles@.len() > 0 ==> r.0 <= selected_tab(names_view(profiles), opt_view(viewed)) < r.1,
{
    if profiles.len() == 0 {
        return (0, 0);
    }
    let ghost ps = names_view(profiles);
    let selected = selected_position(profiles, viewed);
    let pad = str_chars(LEFT_PAD).len();
    proof {
        reveal_strlit("  ");
    }
    let budget = if cols >= pad { cols - pad } else { 0 };
    let mut start: usize = 0;
    let mut end: usize = profiles.len();
    while strip_width_of(profiles, selected, active, start, end) > budget && (start < selected || end > selected + 1)
        invariant
            ps == names_view(profiles),
            names_total(ps) <= usize::MAX,
            start <= selected < end <= profiles@.len(),
            budget as int == pad_budget(cols as int),
            shrink(ps, selected as int, active@, budget as int, start as int, end as int) == shrink(
                ps,
                selected as int,
                active@,
                budget as int,
                0,
                profiles@.len() as int,
            ),
        decreases end - start,
    {
        if start < selected {
            start = start + 1;
        } else {
            end = end - 1;
        }
    }
    (start, end)
}

/// The column where tab `i` starts when tabs `start..` are shown.
pub open spec fn tab_x(ps: Seq<Seq<char>>, sel: int, active: Seq<char>, start: int, i: int) -> int
    decreases i - start,
{
    if i <= start {
        2 + if start > 0 { 2int } else { 0int }
    } else {
        tab_x(ps, sel, active, start, i - 1) + tab_len(ps, sel, active, i - 1) + 1
    }
}

/// The first tab of `from..end` whose columns hold `column`.
pub open spec fn tab_hit(ps: Seq<Seq<char>>, sel: int, active: Seq<char>, start: int, from: int, end: int, column: int) -> Option<int>
    decreases end - from,
{
    if from >= end {
        None
    } else if tab_x(ps, sel, active, start, from) <= column < tab_x(ps, sel, active, start, from) + tab_len(ps, sel, active, from) {
        Some(from)
    } else {
        tab_hit(ps, sel, active, start, from + 1, end, column)
    }
}

pub open spec fn tab_under(ps: Seq<Seq<char>>, viewed: Option<Seq<char>>, active: Seq<char>, cols: int, column: int) -> Option<int> {
    let (start, end) = tab_range(ps, viewed, active, cols);
    tab_hit(ps, selected_tab(ps, viewed), active, start, start, end, column)
}

proof fn lemma_tab_x_bound(ps: Seq<Seq<char>>, sel: int, active: Seq<char>, start: int, i: int)
    requires
        0 <= start <= i <= ps.len(),
    ensures
        0 <= tab_x(ps, sel, active, start, i) <= 4 + tabs_width(ps, sel, active, start, i) + (i - start),
    decreases i - start,
{
    if i > start {
        lemma_tab_x_bound(ps, sel, active, start, i - 1);
        assert(tab_len(ps, sel, active, i - 1) >= 0);
    }
}

/// Return the profile tab under a terminal column, if that tab is visible.
pub fn tab_at_column(profiles: &[String], viewed: Option<&str>, active: &str, cols: usize, column: u16) -> (r: Option<usize>)
    requires
        names_total(names_view(profiles)) <= usize::MAX,
    ensures
        match r {
            Some(i) => tab_under(names_view(profiles), opt_view(viewed), active@, cols as int, column as int) == Some(i as int),
            None => tab_under(names_view(profiles), opt_view(viewed), active@, cols as int, column as int) is None,
        },
{
    let ghost ps = names_view(profiles);
    let (start, end) = visible_tab_range(profiles, viewed, active, cols);
    let selected = selected_position(profiles, viewed);
    assert(tab_range(ps, opt_view(viewed), active@, cols as int) == (start as int, end as int));
    assert(tab_under(ps, opt_view(viewed), active@, cols as int, column as int) == tab_hit(ps, selected as int, active@, start as int, start as int, end as int, column as int));
    let mut x: usize = if start > 0 { 4 } else { 2 };
    let mut i: usize = start;
    let col = column as usize;
    proof {
        lemma_tabs_width_bound(ps, selected as int, active@, start as int, end as int);
    }
    while i < end
        invariant
            ps == names_view(profiles),
            col == column as usize,
            tab_under(ps, opt_view(viewed), active@, cols as int, column as int) == tab_hit(ps, selected as int, active@, start as int, start as int, end as int, column as int),
            names_total(ps) <= usize::MAX,
            start <= i <= end <= profiles@.len(),
            x as int == tab_x(ps, selected as int, active@, start as int, i as int),
            tab_hit(ps, selected as int, active@, start as int, start as int, end as int, col as int) == tab_hit(
                ps,
                selected as int,
                active@,
                start as int,
                i as int,
                end as int,
                col as int,
            ),
            tabs_width(ps, selected as int, active@, start as int, end as int) + (end - start) + 4 <= names_total(ps) - 4,
        decreases end - i,
    {
        proof {
            lemma_tab_x_bound(ps, selected as int, active@, start as int, i as int + 1);
            lemma_tabs_width_prefix_le(ps, selected as int, active@, start as int, i as int + 1, end as int);
        }
        let name = profiles[i].as_str();
        let label = tab_label(name, i == selected, str_eq(name, active));
        let width = str_chars(label.as_str()).len();
        assert(width as int == tab_len(ps, selected as int, active@, i as int));
        if col >= x && col < x + width {
            assert(tab_hit(ps, selected as int, active@, start as int, i as int, end as int, col as int) == Some(i as int));
            assert(col as int == column as int);
            return Some(i);
        }
        x = x + width + 1;
        i = i + 1;
    }
    None
}

/// The tabs `start..end`, separated by spaces.
pub open spec fn tab_strip(ps: Seq<Seq<char>>, sel: int, active: Seq<char>, start: int, end: int) -> Seq<char>
    decreases end - start,
{
    if end <= start {
        Seq::empty()
    } else {
        tab_strip(ps, sel, active, start, end - 1) + (if end - 1 > start { " "@ } else { Seq::empty() })
            + styled_tab_text(ps[end - 1], end - 1 == sel, ps[end - 1] == active)
    }
}

/// The rendered tab row.
pub open spec fn rendered_tabs(ps: Seq<Seq<char>>, viewed: Option<Seq<char>>, active: Seq<char>, cols: int) -> Seq<char> {
    if ps.len() == 0 {
        DIM@ + "no profiles"@ + RESET@
    } else {
        let (start, end) = tab_range(ps, viewed, active, cols);
        (if start > 0 { DIM@ + "\u{2026} "@ + RESET@ } else { Seq::empty() }) + tab_strip(
            ps,
            selected_tab(ps, viewed),
            active,
            start,
            end,
        ) + (if end < ps.len() { " "@ + DIM@ + "\u{2026}"@ + RESET@ } else { Seq::empty() })
    }
}

/// Render a single-line tab strip. If the profile list is wider than the
/// popup, keep the selected tab visible and elide tabs at either edge rather
/// than allowing the terminal to wrap the strip into the viewport.
pub fn render_tabs(profiles: &[String], viewed: Option<&str>, active: &str, cols: usize) -> (r: String)
    requires
        names_total(names_view(profiles)) <= usize::MAX,
    ensures
        r@ == rendered_tabs(names_view(profiles), opt_view(viewed), active@, cols as int),
{
    let ghost ps = names_view(profiles);
    let mut line: Vec<char> = Vec::new();
    if profiles.len() == 0 {
        push_str(&mut line, DIM);
        push_str(&mut line, "no profiles");
        push_str(&mut line, RESET);
        assert(line@ =~= rendered_tabs(ps, opt_view(viewed), active@, cols as int));
        return chars_to_string(&line);
    }
    let selected = selected_position(profiles, viewed);
    let (start, end) = visible_tab_range(profiles, viewed, active, cols);
    if start > 0 {
        push_str(&mut line, DIM);
        push_str(&mut line, "\u{2026} ");
        push_str(&mut line, RESET);
    }
    let ghost head = line@;
    let mut i: usize = start;
    while i < end
        invariant
            ps == names_view(profiles),
            start <= i <= end <= profiles@.len(),
            line@ == head + tab_strip(ps, selected as int, active@, start as int, i as int),
        decreases end - i,
    {
        if i > start {
            push_str(&mut line, " ");
        }
        let name = profiles[i].as_str();
        let tab = styled_tab(name, i == selected, str_eq(name, active));
        push_str(&mut line, tab.as_str());
        i = i + 1;
        assert(line@ =~= head + tab_strip(ps, selected as int, active@, start as int, i as int));
    }
    if end < profiles.len() {
        push_str(&mut line, " ");
        push_str(&mut line, DIM);
        push_str(&mut line, "\u{2026}");
        push_str(&mut line, RESET);
    }
    assert(line@ =~= rendered_tabs(ps, opt_view(viewed), active@, cols as int));
    chars_to_string(&line)
}

} // verus!
