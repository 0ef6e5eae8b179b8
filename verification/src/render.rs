//! Rendering single lines of the keybinds popup.
use crate::panel::{Row, RowV};
use crate::style::{BG_CYAN, BG_GREEN, BG_GREY, BG_RED, BOLD, CYAN, FG_BLACK, FG_WHITE, KEY_COL, LEFT_PAD, RED, RESET};
use crate::text::{chars_to_string, push_chars, push_str, str_chars};
use vstd::prelude::*;

verus! {

/// How the selected row of the editor is highlighted.
#[derive(Clone, Copy, Debug, PartialEq, Eq, Structural)]
pub enum RowHighlight {
    Editing,
    Listening,
    Saved,
    Conflict,
}

/// `char::is_whitespace`: the Unicode `White_Space` property.
pub open spec fn is_ws(c: char) -> bool {
    ||| ('\u{9}' <= c && c <= '\u{d}')
    ||| c == ' '
    ||| c == '\u{85}'
    ||| c == '\u{a0}'
    ||| c == '\u{1680}'
    ||| ('\u{2000}' <= c && c <= '\u{200a}')
    ||| c == '\u{2028}'
    ||| c == '\u{2029}'
    ||| c == '\u{202f}'
    ||| c == '\u{205f}'
    ||| c == '\u{3000}'
}

pub(crate) fn is_whitespace(c: char) -> (r: bool)
    ensures
        r == is_ws(c),
{
    ('\u{9}' <= c && c <= '\u{d}') || c == ' ' || c == '\u{85}' || c == '\u{a0}' || c == '\u{1680}'
        || ('\u{2000}' <= c && c <= '\u{200a}') || c == '\u{2028}' || c == '\u{2029}' || c
        == '\u{202f}' || c == '\u{205f}' || c == '\u{3000}'
}

/// `str::trim_end`: without trailing whitespace.
pub open spec fn trim_end(s: Seq<char>) -> Seq<char>
    decreases s.len(),
{
    if s.len() > 0 && is_ws(s.last()) {
        trim_end(s.drop_last())
    } else {
        s
    }
}

/// The number of bytes of a character in UTF-8.
pub open spec fn utf8_len(c: char) -> nat {
    if (c as u32) < 0x80 {
        1
    } else if (c as u32) < 0x800 {
        2
    } else if (c as u32) < 0x10000 {
        3
    } else {
        4
    }
}

/// The number of bytes of a text in UTF-8.
pub open spec fn utf8_size(s: Seq<char>) -> nat
    decreases s.len(),
{
    if s.len() == 0 {
        0
    } else {
        utf8_size(s.drop_last()) + utf8_len(s.last())
    }
}

/// Index of the last space, or -1.
pub open spec fn last_space(s: Seq<char>) -> int
    decreases s.len(),
{
    if s.len() == 0 {
        -1
    } else if s.last() == ' ' {
        s.len() - 1
    } else {
        last_space(s.drop_last())
    }
}

/// A description cut to `w` columns: its first `w - 1` characters, cut back
/// to the last space when that space lies past 60% of the width (counted in
/// bytes, as `str::rfind` does), trailing whitespace dropped, and an ellipsis.
pub open spec fn cut_description(d: Seq<char>, w: int) -> Seq<char> {
    let c = d.take(if w >= 1 { w - 1 } else { 0 });
    let j = last_space(c);
    let c2 = if j >= 0 && 5 * utf8_size(c.take(j)) > 3 * w {
        c.take(j)
    } else {
        c
    };
    trim_end(c2) + "\u{2026}"@
}

/// The description column's width: what is left after the padding and the
/// key column, at least 4.
pub open spec fn desc_width(width: int) -> int {
    let rest = if width >= 32 { width - 32 } else { 0 };
    if rest > 4 { rest } else { 4 }
}

/// The description shown in a row: the conflict note, if any, after a
/// warning sign; cut to the column.
pub open spec fn shown_description(description: Seq<char>, conflict: Option<Seq<char>>, width: int) -> Seq<char> {
    let d = match conflict {
        Some(note) => description + " \u{26a0} "@ + note,
        None => description,
    };
    if d.len() > desc_width(width) {
        cut_description(d, desc_width(width))
    } else {
        d
    }
}

/// The key, padded with spaces to the key column.
pub open spec fn padded_key(key: Seq<char>) -> Seq<char> {
    if key.len() >= 30 {
        key
    } else {
        key + Seq::new((30 - key.len()) as nat, |i: int| ' ')
    }
}

pub open spec fn highlight_colors(h: RowHighlight) -> (Seq<char>, Seq<char>) {
    match h {
        RowHighlight::Editing => (BG_CYAN@, FG_BLACK@),
        RowHighlight::Listening => (BG_GREY@, FG_WHITE@),
        RowHighlight::Saved => (BG_GREEN@, FG_BLACK@),
        RowHighlight::Conflict => (BG_RED@, FG_WHITE@),
    }
}

/// A rendered row.
pub open spec fn rendered_row(row: RowV, width: int, highlight: Option<RowHighlight>, conflict: Option<Seq<char>>) -> Seq<char> {
    match row {
        RowV::Blank => Seq::empty(),
        RowV::Section(name) => LEFT_PAD@ + BOLD@ + CYAN@ + name + RESET@,
        RowV::Entry { key, description, .. } => {
            let desc = shown_description(description, conflict, width);
            match highlight {
                Some(h) => {
                    let (bg, fg) = highlight_colors(h);
                    bg + fg + LEFT_PAD@ + BOLD@ + padded_key(key) + RESET@ + bg + fg + desc + RESET@
                },
                None => if conflict is Some {
                    RED@ + LEFT_PAD@ + BOLD@ + padded_key(key) + RESET@ + RED@ + desc + RESET@
                } else {
                    LEFT_PAD@ + BOLD@ + padded_key(key) + RESET@ + desc
                },
            }
        },
    }
}

/// The UTF-8 size of a prefix of a character vector.
fn utf8_size_of(v: &Vec<char>, n: usize) -> (r: u128)
    requires
        n <= v.len(),
    ensures
        r as int == utf8_size(v@.take(n as int)),
        r as int <= 4 * n,
{
    let mut total: u128 = 0;
    let mut i: usize = 0;
    assert(v@.take(0) =~= Seq::<char>::empty());
    while i < n
        invariant
            n <= v.len(),
            i <= n,
            total as int == utf8_size(v@.take(i as int)),
            total as int <= 4 * i,
        decreases n - i,
    {
        let c = v[i];
        let code = c as u32;
        let b: u128 = if code < 0x80 {
            1
        } else if code < 0x800 {
            2
        } else if code < 0x10000 {
            3
        } else {
            4
        };
        assert(v@.take(i + 1).drop_last() =~= v@.take(i as int));
        total = total + b;
        i = i + 1;
    }
    total
}

/// Cut `d` to `w` columns (see `cut_description`).
fn cut(d: &Vec<char>, w: usize) -> (r: Vec<char>)
    requires
        d.len() > w,
    ensures
        r@ == cut_description(d@, w as int),
{
    let keep = if w >= 1 { w - 1 } else { 0 };
    let mut c: Vec<char> = Vec::new();
    let mut i: usize = 0;
    while i < keep
        invariant
            keep < d.len(),
            i <= keep,
            c@ == d@.take(i as int),
        decreases keep - i,
    {
        c.push(d[i]);
        i = i + 1;
        assert(c@ =~= d@.take(i as int));
    }
    let ghost cv = c@;
    let mut j = c.len();
    let mut found = false;
    assert(cv.take(j as int) =~= cv);
    while j > 0 && !found
        invariant
            c@ == cv,
            j <= c.len(),
            !found ==> last_space(cv) == last_space(cv.take(j as int)),
            found ==> j > 0 && last_space(cv) == j - 1,
        decreases j, !found as int,
    {
        assert(cv.take(j as int).drop_last() =~= cv.take(j - 1));
        if c[j - 1] == ' ' {
            found = true;
        } else {
            j = j - 1;
        }
    }
    let mut out = c;
    if found {
        let idx = j - 1;
        let size = utf8_size_of(&out, idx);
        if 5 * size > 3 * (w as u128) {
            out.truncate(idx);
            assert(out@ =~= cv.take(idx as int));
        }
    } else {
        assert(cv.take(0) =~= Seq::<char>::empty());
    }
    let ghost c2 = out@;
    let mut end = out.len();
    assert(c2.take(end as int) =~= c2);
    while end > 0 && is_whitespace(out[end - 1])
        invariant
            out@ == c2,
            end <= out.len(),
            trim_end(c2) == trim_end(c2.take(end as int)),
        decreases end,
    {
        assert(c2.take(end as int).drop_last() =~= c2.take(end - 1));
        end = end - 1;
    }
    assert(c2.take(end as int) == trim_end(c2.take(end as int)));
    out.truncate(end);
    assert(out@ =~= c2.take(end as int));
    push_str(&mut out, "\u{2026}");
    out
}

/// `conflict` carries the labels of the rows sharing this shortcut; it is
/// shown after the description so the partner is known without scrolling to
/// it.
pub fn render_row(row: &Row, width: usize, highlight: Option<RowHighlight>, conflict: Option<&str>) -> (r: String)
    ensures
        r@ == rendered_row(row@, width as int, highlight, match conflict {
            Some(c) => Some(c@),
            None => None,
        }),
{
    proof {
        reveal_strlit("  ");
    }
    match row {
        Row::Blank => String::new(),
        Row::Section(name) => {
            let mut v: Vec<char> = Vec::new();
            push_str(&mut v, LEFT_PAD);
            push_str(&mut v, BOLD);
            push_str(&mut v, CYAN);
            push_str(&mut v, name.as_str());
            push_str(&mut v, RESET);
            chars_to_string(&v)
        },
        Row::Entry { key, description, .. } => {
            let mut d = str_chars(description.as_str());
            match conflict {
                Some(note) => {
                    push_str(&mut d, " \u{26a0} ");
                    push_str(&mut d, note);
                },
                None => {},
            }
            let pad_len = str_chars(LEFT_PAD).len();
            let rest = if width >= pad_len + KEY_COL { width - (pad_len + KEY_COL) } else { 0 };
            let dw = if rest > 4 { rest } else { 4 };
            let desc = if d.len() > dw { cut(&d, dw) } else { d };
            let mut k = str_chars(key.as_str());
            let ghost kv = k@;
            while k.len() < KEY_COL
                invariant
                    kv.len() < 30 ==> k@ == kv + Seq::new((k.len() - kv.len()) as nat, |i: int| ' ') && k.len() <= 30,
                    kv.len() >= 30 ==> k@ == kv,
                    k.len() >= kv.len(),
                decreases KEY_COL - k.len(),
            {
                let ghost before = k@;
                k.push(' ');
                assert(k@ =~= kv + Seq::new((k.len() - kv.len()) as nat, |i: int| ' '));
            }
            assert(k@ =~= padded_key(kv));
            let mut v: Vec<char> = Vec::new();
            match highlight {
                Some(h) => {
                    let (background, foreground) = match h {
                        RowHighlight::Editing => (BG_CYAN, FG_BLACK),
                        RowHighlight::Listening => (BG_GREY, FG_WHITE),
                        RowHighlight::Saved => (BG_GREEN, FG_BLACK),
                        RowHighlight::Conflict => (BG_RED, FG_WHITE),
                    };
                    push_str(&mut v, background);
                    push_str(&mut v, foreground);
                    push_str(&mut v, LEFT_PAD);
                    push_str(&mut v, BOLD);
                    push_chars(&mut v, &k);
                    push_str(&mut v, RESET);
                    push_str(&mut v, background);
                    push_str(&mut v, foreground);
                    push_chars(&mut v, &desc);
                    push_str(&mut v, RESET);
                },
                None => {
                    if conflict.is_some() {
                        push_str(&mut v, RED);
                        push_str(&mut v, LEFT_PAD);
                        push_str(&mut v, BOLD);
                        push_chars(&mut v, &k);
                        push_str(&mut v, RESET);
                        push_str(&mut v, RED);
                        push_chars(&mut v, &desc);
                        push_str(&mut v, RESET);
                    } else {
                        push_str(&mut v, LEFT_PAD);
                        push_str(&mut v, BOLD);
                        push_chars(&mut v, &k);
                        push_str(&mut v, RESET);
                        push_chars(&mut v, &desc);
                    }
                },
            }
            assert(v@ =~= rendered_row(row@, width as int, highlight, match conflict {
                Some(c) => Some(c@),
                None => None,
            }));
            chars_to_string(&v)
        },
    }
}

/// A line cut to `width` columns with an ellipsis.
pub open spec fn fitted(text: Seq<char>, width: int) -> Seq<char> {
    if text.len() <= width {
        text
    } else {
        text.take(if width >= 1 { width - 1 } else { 0 }) + "\u{2026}"@
    }
}

/// A fitted line is never wider than the width (at least one column: the
/// ellipsis), and a line that fits is kept whole.
pub proof fn law_fitted_line_fits(text: Seq<char>, width: int)
    requires
        width >= 0,
    ensures
        fitted(text, width).len() <= if width >= 1 { width } else { 1 },
        text.len() <= width ==> fitted(text, width) == text,
{
    reveal_strlit("\u{2026}");
}

/// Truncate `text` to `width` columns with an ellipsis. The hint line must
/// never wrap: an extra line would push the output past the popup height and
/// scroll the banner off screen.
pub fn fit_line(text: &str, width: usize) -> (r: String)
    ensures
        r@ == fitted(text@, width as int),
{
    let cs = str_chars(text);
    if cs.len() <= width {
        return chars_to_string(&cs);
    }
    let keep = if width >= 1 { width - 1 } else { 0 };
    let mut out: Vec<char> = Vec::new();
    let mut i: usize = 0;
    while i < keep
        invariant
            keep < cs.len(),
            i <= keep,
            out@ == cs@.take(i as int),
        decreases keep - i,
    {
        out.push(cs[i]);
        i = i + 1;
        assert(out@ =~= cs@.take(i as int));
    }
    push_str(&mut out, "\u{2026}");
    chars_to_string(&out)
}

} // verus!
