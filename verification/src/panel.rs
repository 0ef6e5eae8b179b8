//! The rows of the keybinds panel: built from a profile's `[keys]` overrides
//! over the built-in defaults, followed by the read-only custom commands.
use crate::keybinds_data::{panel_sections, row_view, sections, sections_view, Row as DataRow, RowView, SectionView};
use crate::keys::{custom_commands, custom_pairs, scalar_overrides, scalar_pairs};
use crate::text::{chars_eq, chars_to_string, push_chars, push_str, str_chars};
use crate::toml_doc::{command_tables, keys_slots, visible};
use toml_edit::DocumentMut;
use vstd::prelude::*;

verus! {

/// One line of the panel.
pub enum Row {
    Section(String),
    Blank,
    Entry { config_key: Option<String>, key: String, description: String },
}

/// A panel line as plain values.
pub enum RowV {
    Section(Seq<char>),
    Blank,
    Entry { config_key: Option<Seq<char>>, key: Seq<char>, description: Seq<char> },
}

pub open spec fn opt_string_view(o: Option<String>) -> Option<Seq<char>> {
    match o {
        Some(s) => Some(s@),
        None => None,
    }
}

impl View for Row {
    type V = RowV;

    open spec fn view(&self) -> RowV {
        match self {
            Row::Section(name) => RowV::Section(name@),
            Row::Blank => RowV::Blank,
            Row::Entry { config_key, key, description } => RowV::Entry {
                config_key: opt_string_view(*config_key),
                key: key@,
                description: description@,
            },
        }
    }
}

pub open spec fn rows_view(rows: Seq<Row>) -> Seq<RowV> {
    rows.map_values(|r: Row| r@)
}

/// A string holding the characters of `s`.
pub fn string_of(s: &str) -> (r: String)
    ensures
        r@ == s@,
{
    let cs = str_chars(s);
    chars_to_string(&cs)
}

// ----------------------------------------------------------------------------
// Displayed bindings
// ----------------------------------------------------------------------------

/// The `+`-separated segments of a binding.
pub open spec fn split_plus(s: Seq<char>) -> Seq<Seq<char>>
    decreases s.len(),
{
    if s.len() == 0 {
        seq![Seq::<char>::empty()]
    } else {
        let p = split_plus(s.drop_last());
        if s.last() == '+' {
            p.push(Seq::<char>::empty())
        } else {
            p.update(p.len() - 1, p.last().push(s.last()))
        }
    }
}

/// Segments joined with `+`.
pub open spec fn join_plus(segs: Seq<Seq<char>>) -> Seq<char>
    decreases segs.len(),
{
    if segs.len() == 0 {
        Seq::empty()
    } else if segs.len() == 1 {
        segs[0]
    } else {
        join_plus(segs.drop_last()) + seq!['+'] + segs.last()
    }
}

/// The `minus` key is shown as `-`.
pub open spec fn shown_segment(seg: Seq<char>) -> Seq<char> {
    if seg == "minus"@ {
        "-"@
    } else {
        seg
    }
}

/// How a binding is shown: `unset` when empty, otherwise each `+`-separated
/// segment `minus` shown as `-`.
pub open spec fn displayed(v: Seq<char>) -> Seq<char> {
    if v.len() == 0 {
        "unset"@
    } else {
        join_plus(split_plus(v).map_values(|g: Seq<char>| shown_segment(g)))
    }
}

proof fn lemma_split_plus_len(s: Seq<char>)
    ensures
        split_plus(s).len() >= 1,
    decreases s.len(),
{
    if s.len() > 0 {
        lemma_split_plus_len(s.drop_last());
    }
}

pub fn display_value(v: &str) -> (r: String)
    ensures
        r@ == displayed(v@),
{
    let cs = str_chars(v);
    if cs.len() == 0 {
        return string_of("unset");
    }
    let mut segs: Vec<Vec<char>> = Vec::new();
    segs.push(Vec::new());
    let mut i: usize = 0;
    assert(cs@.take(0) =~= Seq::<char>::empty());
    assert(segs@.map_values(|x: Vec<char>| x@) =~= split_plus(cs@.take(0)));
    while i < cs.len()
        invariant
            cs@ == v@,
            i <= cs.len(),
            segs@.map_values(|x: Vec<char>| x@) == split_plus(cs@.take(i as int)),
        decreases cs.len() - i,
    {
        proof {
            lemma_split_plus_len(cs@.take(i as int));
        }
        let c = cs[i];
        let ghost before = segs@.map_values(|x: Vec<char>| x@);
        assert(cs@.take(i + 1).drop_last() =~= cs@.take(i as int));
        assert(cs@.take(i + 1).last() == c);
        if c == '+' {
            segs.push(Vec::new());
            assert(segs@.map_values(|x: Vec<char>| x@) =~= before.push(Seq::<char>::empty()));
        } else {
            let mut last = segs.pop().unwrap();
            last.push(c);
            segs.push(last);
            assert(segs@.map_values(|x: Vec<char>| x@) =~= before.update(
                before.len() - 1,
                before.last().push(c),
            ));
        }
        i = i + 1;
    }
    assert(cs@.take(cs.len() as int) =~= cs@);
    let ghost mapped = split_plus(v@).map_values(|g: Seq<char>| shown_segment(g));
    let minus = str_chars("minus");
    let dash = str_chars("-");
    let mut out: Vec<char> = Vec::new();
    let mut g: usize = 0;
    assert(mapped.take(0) =~= Seq::<Seq<char>>::empty());
    while g < segs.len()
        invariant
            segs@.map_values(|x: Vec<char>| x@) == split_plus(v@),
            mapped == split_plus(v@).map_values(|g: Seq<char>| shown_segment(g)),
            minus@ == "minus"@,
            dash@ == "-"@,
            g <= segs.len(),
            out@ == join_plus(mapped.take(g as int)),
        decreases segs.len() - g,
    {
        assert(segs@[g as int]@ == split_plus(v@)[g as int]);
        let seg = if chars_eq(&segs[g], &minus) {
            &dash
        } else {
            &segs[g]
        };
        assert(seg@ == mapped[g as int]);
        let ghost prev = out@;
        if g > 0 {
            out.push('+');
        }
        push_chars(&mut out, seg);
        g = g + 1;
        assert(mapped.take(g as int).drop_last() =~= mapped.take(g - 1));
        if g == 1 {
            assert(prev =~= Seq::<char>::empty());
            assert(out@ =~= mapped.take(1)[0]);
        } else {
            assert(out@ =~= prev + seq!['+'] + mapped.take(g as int).last());
        }
    }
    assert(mapped.take(segs.len() as int) =~= mapped);
    chars_to_string(&out)
}

// ----------------------------------------------------------------------------
// Building the rows
// ----------------------------------------------------------------------------

/// The value of the last pair with key `k` (a map built from the pairs keeps
/// the last one).
pub open spec fn lookup_last(pairs: Seq<(Seq<char>, Seq<char>)>, k: Seq<char>) -> Option<Seq<char>>
    decreases pairs.len(),
{
    if pairs.len() == 0 {
        None
    } else if pairs.last().0 == k {
        Some(pairs.last().1)
    } else {
        lookup_last(pairs.drop_last(), k)
    }
}

/// The binding of a panel row: the profile's override of its config key, or
/// its default.
pub open spec fn row_value(r: RowView, overrides: Seq<(Seq<char>, Seq<char>)>) -> Seq<char> {
    match r.0 {
        Some(k) => match lookup_last(overrides, k) {
            Some(v) => v,
            None => r.1,
        },
        None => r.1,
    }
}

/// The value of the last pair with a key, when every pair with that key
/// carries the same value; none when no pair has that key.
proof fn lemma_lookup_last(pairs: Seq<(Seq<char>, Seq<char>)>, k: Seq<char>, x: Seq<char>)
    ensures
        (forall|j: int| 0 <= j < pairs.len() ==> (#[trigger] pairs[j]).0 != k) ==> lookup_last(pairs, k) is None,
        pairs.contains((k, x)) && (forall|j: int|
            0 <= j < pairs.len() && (#[trigger] pairs[j]).0 == k ==> pairs[j].1 == x) ==> lookup_last(pairs, k)
            == Some(x),
    decreases pairs.len(),
{
    if pairs.len() > 0 {
        let rest = pairs.drop_last();
        lemma_lookup_last(rest, k, x);
        if pairs.contains((k, x)) && pairs.last().0 != k {
            let w = choose|w: int| 0 <= w < pairs.len() && pairs[w] == (k, x);
            assert(w != pairs.len() - 1);
            assert(rest[w] == pairs[w]);
        }
    }
}

/// A panel row shows the profile's own string override of its field when the
/// profile's `[keys]` table has one, and the built-in default otherwise.
pub proof fn law_row_shows_override(slots: Seq<crate::toml_doc::Slot>, r: RowView)
    requires
        crate::toml_doc::distinct_keys(slots),
        r.0 matches Some(k) && k != "command"@,
    ensures
        (crate::keys::shown(slots, r.0.unwrap()) matches Some(v) && v.1 is Some) ==> row_value(
            r,
            scalar_pairs(visible(slots)),
        ) == crate::keys::shown(slots, r.0.unwrap()).unwrap().1.unwrap(),
        !(crate::keys::shown(slots, r.0.unwrap()) matches Some(v) && v.1 is Some) ==> row_value(
            r,
            scalar_pairs(visible(slots)),
        ) == r.1,
{
    let k = r.0.unwrap();
    let vis = visible(slots);
    let pairs = scalar_pairs(vis);
    crate::keys::lemma_shown_distinct(slots, k);
    crate::keys::lemma_visible(slots);
    crate::keys::lemma_scalar_pairs(vis);
    if crate::keys::shown(slots, k) matches Some(v) && v.1 is Some {
        let v = crate::keys::shown(slots, k).unwrap();
        let p = v.1.unwrap();
        assert(slots.contains((k, v)));
        assert(vis.contains((k, v)));
        let i = choose|i: int| 0 <= i < vis.len() && vis[i] == (k, v);
        assert(pairs.contains((k, p)));
        assert forall|j: int| 0 <= j < pairs.len() && (#[trigger] pairs[j]).0 == k implies pairs[j].1 == p by {
            let m = choose|m: int|
                0 <= m < vis.len() && (#[trigger] vis[m]).0 == (#[trigger] pairs[j]).0 && vis[m].1.1 == Some(pairs[j].1);
            assert(vis[m].0 == vis[i].0);
        }
        lemma_lookup_last(pairs, k, p);
    } else {
        assert forall|j: int| 0 <= j < pairs.len() implies (#[trigger] pairs[j]).0 != k by {
            let m = choose|m: int|
                0 <= m < vis.len() && (#[trigger] vis[m]).0 == (#[trigger] pairs[j]).0 && vis[m].1.1 == Some(pairs[j].1);
            if pairs[j].0 == k {
                assert(vis.contains(vis[m]));
                assert(slots.contains(vis[m]));
                assert(crate::keys::shown(slots, k) == Some(vis[m].1));
            }
        }
        lemma_lookup_last(pairs, k, k);
    }
}

pub open spec fn entry_row(r: RowView, overrides: Seq<(Seq<char>, Seq<char>)>) -> RowV {
    RowV::Entry { config_key: r.0, key: displayed(row_value(r, overrides)), description: r.2 }
}

pub open spec fn entry_rows(rows: Seq<RowView>, overrides: Seq<(Seq<char>, Seq<char>)>) -> Seq<RowV> {
    rows.map_values(|r: RowView| entry_row(r, overrides))
}

/// A section: its header, its entries, and a blank line.
pub open spec fn section_block(sec: SectionView, overrides: Seq<(Seq<char>, Seq<char>)>) -> Seq<RowV> {
    seq![RowV::Section(sec.0)] + entry_rows(sec.1, overrides) + seq![RowV::Blank]
}

pub open spec fn panel_rows(secs: Seq<SectionView>, overrides: Seq<(Seq<char>, Seq<char>)>) -> Seq<RowV>
    decreases secs.len(),
{
    if secs.len() == 0 {
        Seq::empty()
    } else {
        panel_rows(secs.drop_last(), overrides) + section_block(secs.last(), overrides)
    }
}

/// The custom commands, read-only.
pub open spec fn custom_rows(custom: Seq<(Seq<char>, Seq<char>)>) -> Seq<RowV> {
    custom.map_values(|p: (Seq<char>, Seq<char>)| RowV::Entry { config_key: None, key: displayed(p.0), description: p.1 })
}

/// Every panel section with the profile's overrides, then a `custom` section.
pub open spec fn built_rows(
    secs: Seq<SectionView>,
    overrides: Seq<(Seq<char>, Seq<char>)>,
    custom: Seq<(Seq<char>, Seq<char>)>,
) -> Seq<RowV> {
    panel_rows(secs, overrides) + seq![RowV::Section("custom"@)] + custom_rows(custom)
}

/// The value of the last pair with key `k`.
fn find_override(overrides: &Vec<(String, String)>, k: &str) -> (r: Option<String>)
    ensures
        opt_string_view(r) == lookup_last(overrides@.map_values(|p: (String, String)| (p.0@, p.1@)), k@),
{
    let ghost ov = overrides@.map_values(|p: (String, String)| (p.0@, p.1@));
    let kc = str_chars(k);
    let mut i = overrides.len();
    assert(ov.take(i as int) =~= ov);
    while i > 0
        invariant
            i <= overrides.len(),
            ov == overrides@.map_values(|p: (String, String)| (p.0@, p.1@)),
            kc@ == k@,
            lookup_last(ov, k@) == lookup_last(ov.take(i as int), k@),
        decreases i,
    {
        assert(ov.take(i as int).drop_last() =~= ov.take(i - 1));
        assert(ov.take(i as int).last() == ov[i - 1]);
        let kk = str_chars(overrides[i - 1].0.as_str());
        if chars_eq(&kk, &kc) {
            return Some(overrides[i - 1].1.clone());
        }
        i = i - 1;
    }
    None
}

/// The rows for `profile_doc`'s overrides of the panel defaults, then the
/// custom commands of `custom_doc`.
pub fn build_rows(profile_doc: &DocumentMut, custom_doc: &DocumentMut) -> (rows: Vec<Row>)
    ensures
        rows_view(rows@) == built_rows(
            panel_sections(),
            scalar_pairs(visible(keys_slots(*profile_doc))),
            custom_pairs(command_tables(*custom_doc)),
        ),
{
    let overrides = scalar_overrides(profile_doc);
    let custom = custom_commands(custom_doc);
    let ghost ov = scalar_pairs(visible(keys_slots(*profile_doc)));
    let ghost cv = custom_pairs(command_tables(*custom_doc));
    assert(overrides@.map_values(|p: (String, String)| (p.0@, p.1@)) =~= ov);
    let secs = sections();
    let ghost pv = panel_sections();
    let mut rows: Vec<Row> = Vec::new();
    let mut si: usize = 0;
    assert(pv.take(0) =~= Seq::<SectionView>::empty());
    assert(rows_view(rows@) =~= panel_rows(pv.take(0), ov));
    while si < secs.len()
        invariant
            sections_view(secs@) == pv,
            overrides@.map_values(|p: (String, String)| (p.0@, p.1@)) == ov,
            si <= secs.len(),
            rows_view(rows@) == panel_rows(pv.take(si as int), ov),
        decreases secs.len() - si,
    {
        let section = &secs[si];
        let ghost base = rows_view(rows@);
        let ghost rv = pv[si as int].1;
        assert(rv == section.rows@.map_values(|r: DataRow| row_view(r)));
        rows.push(Row::Section(string_of(section.name)));
        let mut ri: usize = 0;
        assert(rows_view(rows@) =~= base + seq![RowV::Section(pv[si as int].0)] + entry_rows(rv.take(0), ov));
        while ri < section.rows.len()
            invariant
                sections_view(secs@) == pv,
                overrides@.map_values(|p: (String, String)| (p.0@, p.1@)) == ov,
                si < secs.len(),
                section == &secs@[si as int],
                rv == section.rows@.map_values(|r: DataRow| row_view(r)),
                ri <= section.rows.len(),
                rows_view(rows@) == base + seq![RowV::Section(pv[si as int].0)] + entry_rows(rv.take(ri as int), ov),
            decreases section.rows.len() - ri,
        {
            let r = &section.rows[ri];
            let ghost prev = rows_view(rows@);
            assert(row_view(*r) == rv[ri as int]);
            let value = match r.config_key {
                Some(k) => match find_override(&overrides, k) {
                    Some(v) => v,
                    None => string_of(r.default),
                },
                None => string_of(r.default),
            };
            assert(value@ == row_value(rv[ri as int], ov));
            let config_key = match r.config_key {
                Some(k) => Some(string_of(k)),
                None => None,
            };
            let row = Row::Entry {
                config_key,
                key: display_value(value.as_str()),
                description: string_of(r.description),
            };
            assert(row@ == entry_row(rv[ri as int], ov));
            rows.push(row);
            ri = ri + 1;
            assert(rows_view(rows@) =~= prev.push(entry_row(rv[ri - 1], ov)));
            assert(entry_rows(rv.take(ri as int), ov) =~= entry_rows(rv.take(ri - 1), ov).push(entry_row(rv[ri - 1], ov)));
        }
        assert(rv.take(section.rows.len() as int) =~= rv);
        let ghost prev = rows_view(rows@);
        rows.push(Row::Blank);
        assert(rows_view(rows@) =~= prev.push(RowV::Blank));
        assert(pv.take(si + 1).drop_last() =~= pv.take(si as int));
        assert(pv.take(si + 1).last() == pv[si as int]);
        si = si + 1;
        assert(rows_view(rows@) =~= panel_rows(pv.take(si as int), ov));
    }
    assert(pv.take(secs.len() as int) =~= pv);
    let ghost base = rows_view(rows@);
    rows.push(Row::Section(string_of("custom")));
    let mut ci: usize = 0;
    assert(rows_view(rows@) =~= base + seq![RowV::Section("custom"@)] + custom_rows(cv.take(0)));
    while ci < custom.len()
        invariant
            custom.len() == cv.len(),
            forall|i: int| 0 <= i < custom.len() ==> ((#[trigger] custom[i]).0@, custom[i].1@) == cv[i],
            ci <= custom.len(),
            rows_view(rows@) == base + seq![RowV::Section("custom"@)] + custom_rows(cv.take(ci as int)),
        decreases custom.len() - ci,
    {
        let ghost prev = rows_view(rows@);
        let row = Row::Entry {
            config_key: None,
            key: display_value(custom[ci].0.as_str()),
            description: custom[ci].1.clone(),
        };
        rows.push(row);
        ci = ci + 1;
        assert(rows_view(rows@) =~= prev.push(rows_view(rows@).last()));
        assert(custom_rows(cv.take(ci as int)) =~= custom_rows(cv.take(ci - 1)).push(RowV::Entry { config_key: None, key: displayed(cv[ci - 1].0), description: cv[ci - 1].1 }));
    }
    assert(cv.take(custom.len() as int) =~= cv);
    rows
}

/// The rows of the live config: its own overrides and its custom commands.
pub fn build_rows_from_live_config(live: &DocumentMut) -> (rows: Vec<Row>)
    ensures
        rows_view(rows@) == built_rows(
            panel_sections(),
            scalar_pairs(visible(keys_slots(*live))),
            custom_pairs(command_tables(*live)),
        ),
{
    build_rows(live, live)
}

/// The rows of a profile: its overrides, then the live config's custom
/// commands (a profile holds none).
pub fn build_rows_for_profile(profile: &DocumentMut, live: &DocumentMut) -> (rows: Vec<Row>)
    ensures
        rows_view(rows@) == built_rows(
            panel_sections(),
            scalar_pairs(visible(keys_slots(*profile))),
            custom_pairs(command_tables(*live)),
        ),
{
    build_rows(profile, live)
}

} // verus!
