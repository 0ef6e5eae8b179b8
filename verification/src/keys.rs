//! Surgical edits to the `[keys]` table of Herdr's `config.toml`, leaving
//! everything else -- theme, ui, and every `[[keys.command]]` block from any
//! plugin -- untouched.
//!
//! `[keys]`, `[keys.indexed]`, and `[[keys.command]]` all live in the same
//! top-level `keys` table; only its plain fields (and subtables such as
//! `indexed`) are touched, never the `command` array of tables.
use crate::keybinds_data::{panel_sections, row_view, sections, sections_view, Row, RowView, SectionView};
use crate::text::str_eq;
use crate::toml_doc::{
    command_entries, command_tables, distinct_keys, doc_text, keys_slot_names, doc_view, keys_item_is_table, parse_document, parsed_view,
    render_document, toml_error_text, has_keys_item, is_present, item_str, item_view,
    keys_entries, keys_insert, keys_is_table, keys_lookup, keys_remove, keys_slots, keys_writable,
    new_document, other_sections, put_empty_keys_table, remove_slot, root_slots, set_slot,
    slot_index, string_item, string_value_view, visible, CommandView, ItemView, Slot,
};
use toml_edit::{DocumentMut, Item};
use vstd::prelude::*;

verus! {

/// What a table shows under `key` (`Table::get`): the item of the first slot
/// with that key, unless that slot holds nothing.
pub open spec fn shown(s: Seq<Slot>, key: Seq<char>) -> Option<ItemView> {
    let i = slot_index(s, key);
    if i >= 0 && is_present(s[i]) {
        Some(s[i].1)
    } else {
        None
    }
}

/// The entries a profile carries: the shown slots other than `command`.
pub open spec fn profile_entries(v: Seq<Slot>) -> Seq<Slot>
    decreases v.len(),
{
    if v.len() == 0 {
        Seq::empty()
    } else if v.last().0 != "command"@ {
        profile_entries(v.drop_last()).push(v.last())
    } else {
        profile_entries(v.drop_last())
    }
}

/// The `(key, value)` string pairs of the shown slots other than `command`.
pub open spec fn scalar_pairs(v: Seq<Slot>) -> Seq<(Seq<char>, Seq<char>)>
    decreases v.len(),
{
    if v.len() == 0 {
        Seq::empty()
    } else if v.last().0 != "command"@ && v.last().1.1 is Some {
        scalar_pairs(v.drop_last()).push((v.last().0, v.last().1.1.unwrap()))
    } else {
        scalar_pairs(v.drop_last())
    }
}

/// `(key, description)` of every custom command that has a key; a command
/// without a description is described as "custom command".
pub open spec fn custom_pairs(c: Seq<CommandView>) -> Seq<(Seq<char>, Seq<char>)>
    decreases c.len(),
{
    if c.len() == 0 {
        Seq::empty()
    } else if c.last().0 is Some {
        let d = match c.last().1 {
            Some(d) => d,
            None => "custom command"@,
        };
        custom_pairs(c.drop_last()).push((c.last().0.unwrap(), d))
    } else {
        custom_pairs(c.drop_last())
    }
}

/// The string pairs of a table are those of its string slots other than
/// `command`.
pub proof fn lemma_scalar_pairs(v: Seq<Slot>)
    ensures
        forall|i: int|
            0 <= i < v.len() && (#[trigger] v[i]).0 != "command"@ && v[i].1.1 is Some ==> scalar_pairs(v).contains(
                (v[i].0, v[i].1.1.unwrap()),
            ),
        forall|j: int|
            0 <= j < scalar_pairs(v).len() ==> exists|i: int|
                0 <= i < v.len() && (#[trigger] v[i]).0 == (#[trigger] scalar_pairs(v)[j]).0 && v[i].1.1 == Some(
                    scalar_pairs(v)[j].1,
                ),
    decreases v.len(),
{
    if v.len() > 0 {
        let q = v.drop_last();
        lemma_scalar_pairs(q);
        let sq = scalar_pairs(q);
        let sv = scalar_pairs(v);
        assert forall|i: int|
            0 <= i < v.len() && (#[trigger] v[i]).0 != "command"@ && v[i].1.1 is Some implies sv.contains(
                (v[i].0, v[i].1.1.unwrap()),
            ) by {
            if i < q.len() {
                assert(v[i] == q[i]);
                assert(sq.contains((q[i].0, q[i].1.1.unwrap())));
                let w = choose|w: int| 0 <= w < sq.len() && sq[w] == (q[i].0, q[i].1.1.unwrap());
                assert(sv[w] == sq[w]);
            } else {
                assert(sv[sq.len() as int] == (v[i].0, v[i].1.1.unwrap()));
            }
        }
        assert forall|j: int| 0 <= j < sv.len() implies exists|i: int|
            0 <= i < v.len() && (#[trigger] v[i]).0 == (#[trigger] sv[j]).0 && v[i].1.1 == Some(sv[j].1) by {
            if j < sq.len() {
                assert(sv[j] == sq[j]);
                let i = choose|i: int| 0 <= i < q.len() && (#[trigger] q[i]).0 == (#[trigger] sq[j]).0 && q[i].1.1 == Some(sq[j].1);
                assert(v[i] == q[i]);
            } else {
                assert(v[v.len() - 1] == v.last());
            }
        }
    }
}

/// The description a custom command is listed with: its own, else
/// "custom command".
pub open spec fn described(d: Option<Seq<char>>) -> Seq<char> {
    match d {
        Some(d) => d,
        None => "custom command"@,
    }
}

/// Every `[[keys.command]]` table with a key is listed exactly once, in file
/// order, with its description or "custom command": the listing has one
/// pair per keyed table, each keyed table's pair is in it, and each pair in
/// it comes from a keyed table.
pub proof fn law_custom_commands_listed(c: Seq<CommandView>)
    ensures
        custom_pairs(c).len() == c.filter(|x: CommandView| x.0 is Some).len(),
        forall|i: int|
            0 <= i < c.len() && (#[trigger] c[i]).0 is Some ==> custom_pairs(c).contains(
                (c[i].0.unwrap(), described(c[i].1)),
            ),
        forall|p: (Seq<char>, Seq<char>)|
            #[trigger] custom_pairs(c).contains(p) ==> exists|i: int|
                0 <= i < c.len() && (#[trigger] c[i]).0 == Some(p.0) && p.1 == described(c[i].1),
    decreases c.len(),
{
    reveal(Seq::filter);
    if c.len() > 0 {
        let q = c.drop_last();
        let l = c.last();
        law_custom_commands_listed(q);
        let cq = custom_pairs(q);
        assert forall|i: int| 0 <= i < c.len() && (#[trigger] c[i]).0 is Some implies custom_pairs(c).contains(
            (c[i].0.unwrap(), described(c[i].1)),
        ) by {
            if i < q.len() {
                assert(c[i] == q[i]);
                assert(cq.contains((q[i].0.unwrap(), described(q[i].1))));
                let w = choose|w: int| 0 <= w < cq.len() && cq[w] == (q[i].0.unwrap(), described(q[i].1));
                assert(custom_pairs(c)[w] == cq[w]);
            } else {
                assert(c[i] == l);
                assert(custom_pairs(c)[cq.len() as int] == (l.0.unwrap(), described(l.1)));
            }
        }
        assert forall|p: (Seq<char>, Seq<char>)| #[trigger] custom_pairs(c).contains(p) implies exists|i: int|
            0 <= i < c.len() && (#[trigger] c[i]).0 == Some(p.0) && p.1 == described(c[i].1) by {
            let w = choose|w: int| 0 <= w < custom_pairs(c).len() && custom_pairs(c)[w] == p;
            if w < cq.len() {
                assert(custom_pairs(c)[w] == cq[w]);
                assert(cq.contains(p));
                let i = choose|i: int| 0 <= i < q.len() && (#[trigger] q[i]).0 == Some(p.0) && p.1 == described(q[i].1);
                assert(c[i] == q[i]);
            } else {
                assert(c[c.len() - 1] == l);
            }
        }
    }
}

/// The slots after removing each key of `ks`, in order.
pub open spec fn remove_all(s: Seq<Slot>, ks: Seq<Slot>) -> Seq<Slot>
    decreases ks.len(),
{
    if ks.len() == 0 {
        s
    } else {
        remove_slot(remove_all(s, ks.drop_last()), ks.last().0)
    }
}

/// The slots after inserting each entry of `es`, in order.
pub open spec fn insert_all(s: Seq<Slot>, es: Seq<Slot>) -> Seq<Slot>
    decreases es.len(),
{
    if es.len() == 0 {
        s
    } else {
        let e = es.last();
        set_slot(insert_all(s, es.drop_last()), e.0, e.1)
    }
}

/// The live `[keys]` slots after applying a profile: every shown entry other
/// than `command` removed, then the profile's entries inserted.
pub open spec fn applied_keys(live: Seq<Slot>, profile: Seq<Slot>) -> Seq<Slot> {
    insert_all(
        remove_all(live, profile_entries(visible(live))),
        profile_entries(visible(profile)),
    )
}

/// `(config key, default)` of every panel row with a config key and a
/// non-empty default.
pub open spec fn row_defaults(rows: Seq<RowView>) -> Seq<(Seq<char>, Seq<char>)>
    decreases rows.len(),
{
    if rows.len() == 0 {
        Seq::empty()
    } else if rows.last().0 is Some && rows.last().1.len() > 0 {
        row_defaults(rows.drop_last()).push((rows.last().0.unwrap(), rows.last().1))
    } else {
        row_defaults(rows.drop_last())
    }
}

pub open spec fn section_defaults(secs: Seq<SectionView>) -> Seq<(Seq<char>, Seq<char>)>
    decreases secs.len(),
{
    if secs.len() == 0 {
        Seq::empty()
    } else {
        section_defaults(secs.drop_last()) + row_defaults(secs.last().1)
    }
}

/// The slots after setting each `(key, string)` pair as a string value.
pub open spec fn set_strings(s: Seq<Slot>, pairs: Seq<(Seq<char>, Seq<char>)>) -> Seq<Slot>
    decreases pairs.len(),
{
    if pairs.len() == 0 {
        s
    } else {
        let p = pairs.last();
        set_slot(set_strings(s, pairs.drop_last()), p.0, string_value_view(p.1))
    }
}

// ----------------------------------------------------------------------------
// Lemmas on slot lists
// ----------------------------------------------------------------------------

/// `slot_index` is the first index holding the key, or -1 when none does.
pub proof fn lemma_slot_index(s: Seq<Slot>, k: Seq<char>)
    ensures
        -1 <= slot_index(s, k) < s.len(),
        slot_index(s, k) >= 0 ==> s[slot_index(s, k)].0 == k,
        forall|t: int| 0 <= t < slot_index(s, k) ==> (#[trigger] s[t]).0 != k,
        slot_index(s, k) < 0 ==> forall|t: int| 0 <= t < s.len() ==> (#[trigger] s[t]).0 != k,
    decreases s.len(),
{
    if s.len() > 0 && s[0].0 != k {
        lemma_slot_index(s.drop_first(), k);
        assert forall|t: int| 0 <= t < slot_index(s, k) implies (#[trigger] s[t]).0 != k by {
            if t > 0 {
                assert(s[t] == s.drop_first()[t - 1]);
            }
        }
        if slot_index(s, k) < 0 {
            assert forall|t: int| 0 <= t < s.len() implies (#[trigger] s[t]).0 != k by {
                if t > 0 {
                    assert(s[t] == s.drop_first()[t - 1]);
                }
            }
        }
    }
}

/// The first index of `k` is determined by where `k` occurs.
pub proof fn lemma_slot_index_is(s: Seq<Slot>, k: Seq<char>, i: int)
    requires
        -1 <= i < s.len(),
        i >= 0 ==> s[i].0 == k,
        forall|t: int| 0 <= t < s.len() && (i < 0 || t < i) ==> (#[trigger] s[t]).0 != k,
    ensures
        slot_index(s, k) == i,
{
    lemma_slot_index(s, k);
    if slot_index(s, k) >= 0 && i >= 0 {
        if slot_index(s, k) < i {
            assert(s[slot_index(s, k)].0 == k);
        } else if slot_index(s, k) > i {
            assert(s[i].0 == k);
        }
    } else if slot_index(s, k) >= 0 {
        assert(s[slot_index(s, k)].0 == k);
    } else if i >= 0 {
        assert(s[i].0 == k);
    }
}

/// Setting a key leaves what every other key shows.
pub proof fn lemma_set_slot_other(s: Seq<Slot>, k: Seq<char>, v: ItemView, j: Seq<char>)
    requires
        j != k,
    ensures
        slot_index(set_slot(s, k, v), j) == slot_index(s, j),
        shown(set_slot(s, k, v), j) == shown(s, j),
{
    lemma_slot_index(s, k);
    lemma_slot_index(s, j);
    let t = set_slot(s, k, v);
    let i = slot_index(s, j);
    if i >= 0 {
        lemma_slot_index_is(t, j, i);
    } else {
        lemma_slot_index_is(t, j, -1);
    }
}

/// Removing a key from slots with distinct keys leaves what every other key
/// shows, and the key shows nothing.
pub proof fn lemma_remove_slot(s: Seq<Slot>, k: Seq<char>, j: Seq<char>)
    requires
        distinct_keys(s),
    ensures
        distinct_keys(remove_slot(s, k)),
        j != k ==> shown(remove_slot(s, k), j) == shown(s, j),
        shown(remove_slot(s, k), k) is None,
{
    lemma_slot_index(s, k);
    lemma_slot_index(s, j);
    let t = remove_slot(s, k);
    let i = slot_index(s, k);
    if i >= 0 {
        assert forall|a: int, b: int| 0 <= a < b < t.len() implies (#[trigger] t[a]).0 != (
        #[trigger] t[b]).0 by {
            let a0 = if a < i { a } else { a + 1 };
            let b0 = if b < i { b } else { b + 1 };
            assert(t[a] == s[a0]);
            assert(t[b] == s[b0]);
        }
        assert forall|a: int| 0 <= a < t.len() implies (#[trigger] t[a]).0 != k by {
            let a0 = if a < i { a } else { a + 1 };
            assert(t[a] == s[a0]);
        }
        lemma_slot_index_is(t, k, -1);
        if j != k {
            let ij = slot_index(s, j);
            if ij >= 0 {
                let nj = if ij < i { ij } else { ij - 1 };
                assert(t[nj] == s[ij]);
                assert forall|a: int| 0 <= a < t.len() && a < nj implies (#[trigger] t[a]).0 != j by {
                    let a0 = if a < i { a } else { a + 1 };
                    assert(t[a] == s[a0]);
                }
                lemma_slot_index_is(t, j, nj);
            } else {
                assert forall|a: int| 0 <= a < t.len() implies (#[trigger] t[a]).0 != j by {
                    let a0 = if a < i { a } else { a + 1 };
                    assert(t[a] == s[a0]);
                }
                lemma_slot_index_is(t, j, -1);
            }
        }
    }
}

/// Inserting entries with distinct new keys into slots with distinct keys
/// keeps the keys distinct.
pub proof fn lemma_set_slot_distinct(s: Seq<Slot>, k: Seq<char>, v: ItemView)
    requires
        distinct_keys(s),
    ensures
        distinct_keys(set_slot(s, k, v)),
{
    lemma_slot_index(s, k);
    let t = set_slot(s, k, v);
    let i = slot_index(s, k);
    assert forall|a: int, b: int| 0 <= a < b < t.len() implies (#[trigger] t[a]).0 != (
    #[trigger] t[b]).0 by {
        if i < 0 {
            if b == s.len() {
                assert(s[a].0 != k);
            }
        } else {
            if a == i {
                assert(s[b].0 != s[i].0);
            } else if b == i {
                assert(s[a].0 != s[i].0);
            }
        }
    }
}

/// Inserting entries whose keys are distinct and new appends them in order.
pub proof fn lemma_insert_all_fresh(s: Seq<Slot>, es: Seq<Slot>)
    requires
        distinct_keys(s + es),
    ensures
        insert_all(s, es) == s + es,
    decreases es.len(),
{
    if es.len() > 0 {
        let p = es.drop_last();
        assert(distinct_keys(s + p)) by {
            assert forall|a: int, b: int| 0 <= a < b < (s + p).len() implies (#[trigger] (s
                + p)[a]).0 != (#[trigger] (s + p)[b]).0 by {
                assert((s + p)[a] == (s + es)[a]);
                assert((s + p)[b] == (s + es)[b]);
            }
        }
        lemma_insert_all_fresh(s, p);
        let e = es.last();
        lemma_slot_index(s + p, e.0);
        assert forall|t: int| 0 <= t < (s + p).len() implies (#[trigger] (s + p)[t]).0 != e.0 by {
            assert((s + p)[t] == (s + es)[t]);
            assert(e == (s + es)[(s + es).len() - 1]);
        }
        assert((s + p).push(e) =~= s + es);
    }
}

/// Each profile entry is one of the shown slots other than `command`.
pub proof fn lemma_profile_entries(v: Seq<Slot>)
    ensures
        profile_entries(v).len() <= v.len(),
        forall|i: int|
            0 <= i < profile_entries(v).len() ==> (#[trigger] profile_entries(v)[i]).0
                != "command"@ && v.contains(profile_entries(v)[i]),
        forall|i: int|
            0 <= i < v.len() && (#[trigger] v[i]).0 != "command"@ ==> profile_entries(v).contains(
                v[i],
            ),
        distinct_keys(v) ==> distinct_keys(profile_entries(v)),
    decreases v.len(),
{
    if v.len() > 0 {
        let p = v.drop_last();
        lemma_profile_entries(p);
        assert forall|i: int|
            0 <= i < profile_entries(v).len() implies (#[trigger] profile_entries(v)[i]).0
                != "command"@ && v.contains(profile_entries(v)[i]) by {
            if i < profile_entries(p).len() {
                assert(profile_entries(v)[i] == profile_entries(p)[i]);
                let w = choose|w: int| 0 <= w < p.len() && p[w] == profile_entries(p)[i];
                assert(v[w] == p[w]);
            } else {
                assert(v[v.len() - 1] == v.last());
            }
        }
        assert forall|i: int|
            0 <= i < v.len() && (#[trigger] v[i]).0 != "command"@ implies profile_entries(
                v,
            ).contains(v[i]) by {
            if i < p.len() {
                assert(v[i] == p[i]);
                let w = choose|w: int|
                    0 <= w < profile_entries(p).len() && profile_entries(p)[w] == p[i];
                assert(profile_entries(v)[w] == profile_entries(p)[w]);
            } else {
                assert(profile_entries(v)[profile_entries(v).len() - 1] == v.last());
            }
        }
        if distinct_keys(v) {
            assert(distinct_keys(p)) by {
                assert forall|a: int, b: int| 0 <= a < b < p.len() implies (#[trigger] p[a]).0
                    != (#[trigger] p[b]).0 by {
                    assert(p[a] == v[a]);
                    assert(p[b] == v[b]);
                }
            }
            let q = profile_entries(v);
            assert forall|a: int, b: int| 0 <= a < b < q.len() implies (#[trigger] q[a]).0 != (
            #[trigger] q[b]).0 by {
                if b == profile_entries(p).len() && v.last().0 != "command"@ {
                    assert(q[a] == profile_entries(p)[a]);
                    let w = choose|w: int| 0 <= w < p.len() && p[w] == profile_entries(p)[a];
                    assert(v[w] == p[w]);
                    assert(v[v.len() - 1] == v.last());
                } else {
                    assert(q[a] == profile_entries(p)[a]);
                    assert(q[b] == profile_entries(p)[b]);
                }
            }
        }
    }
}

/// Some slot of `es` has key `j`.
pub open spec fn has_key(es: Seq<Slot>, j: Seq<char>) -> bool {
    exists|i: int| 0 <= i < es.len() && (#[trigger] es[i]).0 == j
}

/// In slots with distinct keys, what a key shows is the present slot with
/// that key, if any.
pub proof fn lemma_shown_distinct(s: Seq<Slot>, j: Seq<char>)
    requires
        distinct_keys(s),
    ensures
        forall|v: ItemView| shown(s, j) == Some(v) <==> (s.contains((j, v)) && v.0 != "none"@),
        shown(s, j) is None <==> forall|v: ItemView| s.contains((j, v)) ==> v.0 == "none"@,
{
    lemma_slot_index(s, j);
    let i = slot_index(s, j);
    assert forall|v: ItemView| (s.contains((j, v)) && v.0 != "none"@) implies shown(s, j) == Some(v) by {
        if s.contains((j, v)) && v.0 != "none"@ {
            let w = choose|w: int| 0 <= w < s.len() && s[w] == (j, v);
            if i >= 0 && i != w {
                assert(s[i].0 == s[w].0);
            }
        }
    }
    if i >= 0 {
        assert(s.contains(s[i]));
    }
    assert(shown(s, j) is None ==> forall|v: ItemView| s.contains((j, v)) ==> v.0 == "none"@) by {
        assert forall|v: ItemView| shown(s, j) is None && s.contains((j, v)) implies v.0 == "none"@ by {
            let w = choose|w: int| 0 <= w < s.len() && s[w] == (j, v);
            if i >= 0 && i != w {
                assert(s[i].0 == s[w].0);
            }
        }
    }
}

/// The slots shown when iterating are the present ones, in order.
pub proof fn lemma_visible(s: Seq<Slot>)
    ensures
        forall|x: Slot|
            #![trigger visible(s).contains(x)]
            #![trigger s.contains(x)]
            visible(s).contains(x) <==> (s.contains(x) && is_present(x)),
        distinct_keys(s) ==> distinct_keys(visible(s)),
    decreases s.len(),
{
    if s.len() == 0 {
        assert forall|x: Slot|
            #![trigger visible(s).contains(x)]
            #![trigger s.contains(x)]
            visible(s).contains(x) <==> (s.contains(x) && is_present(x)) by {
            assert(visible(s).len() == 0);
        }
    } else {
        let p = s.drop_last();
        lemma_visible(p);
        assert forall|x: Slot|
            #![trigger visible(s).contains(x)]
            #![trigger s.contains(x)]
            visible(s).contains(x) <==> (s.contains(x) && is_present(x)) by {
            if visible(s).contains(x) {
                let w = choose|w: int| 0 <= w < visible(s).len() && visible(s)[w] == x;
                if w < visible(p).len() {
                    assert(visible(s)[w] == visible(p)[w]);
                    assert(visible(p).contains(x));
                    let u = choose|u: int| 0 <= u < p.len() && p[u] == x;
                    assert(s[u] == p[u]);
                } else {
                    assert(s[s.len() - 1] == s.last());
                }
            }
            if s.contains(x) && is_present(x) {
                let u = choose|u: int| 0 <= u < s.len() && s[u] == x;
                if u < p.len() {
                    assert(p[u] == s[u]);
                    assert(p.contains(x));
                    let w = choose|w: int| 0 <= w < visible(p).len() && visible(p)[w] == x;
                    assert(visible(s)[w] == visible(p)[w]);
                } else {
                    assert(visible(s)[visible(s).len() - 1] == s.last());
                }
            }
        }
        if distinct_keys(s) {
            assert(distinct_keys(p)) by {
                assert forall|a: int, b: int| 0 <= a < b < p.len() implies (#[trigger] p[a]).0
                    != (#[trigger] p[b]).0 by {
                    assert(p[a] == s[a]);
                    assert(p[b] == s[b]);
                }
            }
            let q = visible(s);
            assert forall|a: int, b: int| 0 <= a < b < q.len() implies (#[trigger] q[a]).0 != (
            #[trigger] q[b]).0 by {
                if b == visible(p).len() && is_present(s.last()) {
                    assert(q[a] == visible(p)[a]);
                    assert(visible(p).contains(q[a]));
                    let u = choose|u: int| 0 <= u < p.len() && p[u] == q[a];
                    assert(s[u] == p[u]);
                    assert(s[s.len() - 1] == s.last());
                } else {
                    assert(q[a] == visible(p)[a]);
                    assert(q[b] == visible(p)[b]);
                }
            }
        }
    }
}

/// Removing a key from slots with distinct keys drops exactly its slot.
pub proof fn lemma_remove_slot_contains(s: Seq<Slot>, k: Seq<char>)
    requires
        distinct_keys(s),
    ensures
        distinct_keys(remove_slot(s, k)),
        forall|x: Slot|
            #![trigger remove_slot(s, k).contains(x)]
            #![trigger s.contains(x)]
            remove_slot(s, k).contains(x) <==> (s.contains(x) && x.0 != k),
{
    lemma_remove_slot(s, k, k);
    lemma_slot_index(s, k);
    let t = remove_slot(s, k);
    let i = slot_index(s, k);
    assert forall|x: Slot| t.contains(x) <==> (s.contains(x) && x.0 != k) by {
        if i >= 0 {
            if t.contains(x) {
                let a = choose|a: int| 0 <= a < t.len() && t[a] == x;
                let a0 = if a < i { a } else { a + 1 };
                assert(t[a] == s[a0]);
                if x.0 == k {
                    assert(s[a0].0 == s[i].0);
                }
            }
            if s.contains(x) && x.0 != k {
                let a0 = choose|a0: int| 0 <= a0 < s.len() && s[a0] == x;
                let a = if a0 < i { a0 } else { a0 - 1 };
                assert(t[a] == s[a0]);
            }
        } else {
            if s.contains(x) {
                let a0 = choose|a0: int| 0 <= a0 < s.len() && s[a0] == x;
                assert(s[a0].0 != k);
            }
        }
    }
}

/// Setting a key in slots with distinct keys replaces exactly its slot.
pub proof fn lemma_set_slot_contains(s: Seq<Slot>, k: Seq<char>, v: ItemView)
    requires
        distinct_keys(s),
    ensures
        distinct_keys(set_slot(s, k, v)),
        forall|x: Slot|
            #![trigger set_slot(s, k, v).contains(x)]
            #![trigger s.contains(x)]
            set_slot(s, k, v).contains(x) <==> ((s.contains(x) && x.0 != k) || x == (k, v)),
{
    lemma_set_slot_distinct(s, k, v);
    lemma_slot_index(s, k);
    let t = set_slot(s, k, v);
    let i = slot_index(s, k);
    assert forall|x: Slot| t.contains(x) <==> ((s.contains(x) && x.0 != k) || x == (k, v)) by {
        if t.contains(x) {
            let a = choose|a: int| 0 <= a < t.len() && t[a] == x;
            if i >= 0 && a != i {
                assert(t[a] == s[a]);
                if x.0 == k {
                    assert(s[a].0 == s[i].0);
                }
            } else if i < 0 && a < s.len() {
                assert(t[a] == s[a]);
            }
        }
        if s.contains(x) && x.0 != k {
            let a = choose|a: int| 0 <= a < s.len() && s[a] == x;
            assert(t[a] == s[a]);
        }
        if x == (k, v) {
            if i >= 0 {
                assert(t[i] == x);
            } else {
                assert(t[s.len() as int] == x);
            }
        }
    }
}

pub proof fn lemma_remove_all(s: Seq<Slot>, ks: Seq<Slot>)
    requires
        distinct_keys(s),
    ensures
        distinct_keys(remove_all(s, ks)),
        forall|x: Slot|
            #![trigger remove_all(s, ks).contains(x)]
            #![trigger s.contains(x)]
            remove_all(s, ks).contains(x) <==> (s.contains(x) && !has_key(ks, x.0)),
    decreases ks.len(),
{
    if ks.len() > 0 {
        let p = ks.drop_last();
        lemma_remove_all(s, p);
        lemma_remove_slot_contains(remove_all(s, p), ks.last().0);
        assert forall|x: Slot| remove_all(s, ks).contains(x) <==> (s.contains(x) && !has_key(ks, x.0)) by {
            assert(remove_all(s, ks) == remove_slot(remove_all(s, p), ks.last().0));
            assert(remove_all(s, ks).contains(x) <==> (remove_all(s, p).contains(x) && x.0 != ks.last().0));
            assert(remove_all(s, p).contains(x) <==> (s.contains(x) && !has_key(p, x.0)));
            if has_key(ks, x.0) {
                let w = choose|w: int| 0 <= w < ks.len() && (#[trigger] ks[w]).0 == x.0;
                if w < p.len() {
                    assert(p[w] == ks[w]);
                }
            }
            if has_key(p, x.0) {
                let w = choose|w: int| 0 <= w < p.len() && (#[trigger] p[w]).0 == x.0;
                assert(ks[w] == p[w]);
            }
            if x.0 == ks.last().0 {
                assert(ks[ks.len() - 1] == ks.last());
            }
        }
    }
}

pub proof fn lemma_insert_all(s: Seq<Slot>, es: Seq<Slot>)
    requires
        distinct_keys(s),
        distinct_keys(es),
    ensures
        distinct_keys(insert_all(s, es)),
        forall|x: Slot|
            #![trigger insert_all(s, es).contains(x)]
            #![trigger s.contains(x)]
            #![trigger es.contains(x)]
            insert_all(s, es).contains(x) <==> ((s.contains(x) && !has_key(es, x.0)) || es.contains(x)),
    decreases es.len(),
{
    if es.len() > 0 {
        let p = es.drop_last();
        let e = es.last();
        assert(distinct_keys(p)) by {
            assert forall|a: int, b: int| 0 <= a < b < p.len() implies (#[trigger] p[a]).0 != (
            #[trigger] p[b]).0 by {
                assert(p[a] == es[a]);
                assert(p[b] == es[b]);
            }
        }
        lemma_insert_all(s, p);
        lemma_set_slot_contains(insert_all(s, p), e.0, e.1);
        assert(es[es.len() - 1] == e);
        assert forall|x: Slot|
            insert_all(s, es).contains(x) <==> ((s.contains(x) && !has_key(es, x.0)) || es.contains(x)) by {
            if has_key(es, x.0) {
                let w = choose|w: int| 0 <= w < es.len() && (#[trigger] es[w]).0 == x.0;
                if w < p.len() {
                    assert(p[w] == es[w]);
                }
            }
            if has_key(p, x.0) {
                let w = choose|w: int| 0 <= w < p.len() && (#[trigger] p[w]).0 == x.0;
                assert(es[w] == p[w]);
                assert(w < es.len() - 1);
                assert(es[w].0 != e.0);
            }
            if es.contains(x) {
                let w = choose|w: int| 0 <= w < es.len() && es[w] == x;
                if w < p.len() {
                    assert(p[w] == es[w]);
                    assert(p.contains(x));
                }
            }
            if p.contains(x) {
                let w = choose|w: int| 0 <= w < p.len() && p[w] == x;
                assert(es[w] == p[w]);
                assert(es[w].0 != e.0);
            }
        }
    }
}

/// Law: applying a profile makes the live `[keys]` table show exactly the
/// profile's bindings, except `command`, which shows what it showed before.
pub proof fn law_apply_profile_shows_profile(live: Seq<Slot>, profile: Seq<Slot>, j: Seq<char>)
    requires
        distinct_keys(live),
        distinct_keys(profile),
    ensures
        shown(applied_keys(live, profile), j) == if j == "command"@ {
            shown(live, j)
        } else {
            shown(profile, j)
        },
{
    let st = profile_entries(visible(live));
    let fr = profile_entries(visible(profile));
    lemma_visible(live);
    lemma_visible(profile);
    lemma_profile_entries(visible(live));
    lemma_profile_entries(visible(profile));
    lemma_remove_all(live, st);
    let c = remove_all(live, st);
    lemma_insert_all(c, fr);
    let r = applied_keys(live, profile);
    lemma_shown_distinct(r, j);
    lemma_shown_distinct(live, j);
    lemma_shown_distinct(profile, j);
    if j == "command"@ {
        assert(!has_key(fr, j));
        assert(!has_key(st, j));
        assert forall|v: ItemView| r.contains((j, v)) <==> live.contains((j, v)) by {
            if fr.contains((j, v)) {
                let w = choose|w: int| 0 <= w < fr.len() && fr[w] == (j, v);
            }
        }
    } else {
        assert forall|v: ItemView| r.contains((j, v)) && v.0 != "none"@ <==> profile.contains((j, v)) && v.0 != "none"@ by {
            if c.contains((j, v)) && !has_key(fr, j) && v.0 != "none"@ {
                assert(live.contains((j, v)));
                assert(visible(live).contains((j, v)));
                let w = choose|w: int| 0 <= w < st.len() && st[w] == (j, v);
                assert(has_key(st, j));
            }
            if fr.contains((j, v)) {
                assert(visible(profile).contains((j, v)));
            }
            if profile.contains((j, v)) && v.0 != "none"@ {
                assert(visible(profile).contains((j, v)));
                let u = choose|u: int| 0 <= u < visible(profile).len() && visible(profile)[u] == (j, v);
                assert(fr.contains((j, v)));
            }
        }
    }
}

// ----------------------------------------------------------------------------
// Documents as text
// ----------------------------------------------------------------------------

/// Parse the text of a config or profile file; a text that is not TOML
/// gives the parser's message.
pub fn parse_config_text(text: &str) -> (r: Result<DocumentMut, String>)
    ensures
        r is Ok <==> parsed_view(text@) is Some,
        r matches Ok(doc) ==> parsed_view(text@) == Some(doc_view(doc)),
{
    match parse_document(text) {
        Ok(doc) => Ok(doc),
        Err(e) => Err(toml_error_text(&e)),
    }
}

/// The text a document is written as.
pub fn config_text(doc: &DocumentMut) -> (r: String)
    ensures
        r@ == doc_text(*doc),
{
    render_document(doc)
}

/// Whether bindings can be written to the document's `[keys]`: it is
/// absent, holds nothing, or is a table.
pub fn keys_editable(doc: &DocumentMut) -> (r: bool)
    ensures
        r == keys_writable(*doc),
{
    !has_keys_item(doc) || keys_item_is_table(doc)
}

// ----------------------------------------------------------------------------
// Reading and writing `[keys]`
// ----------------------------------------------------------------------------

/// Make sure `[keys]` is a table, creating an empty one when it is absent.
fn keys_table_mut(doc: &mut DocumentMut)
    requires
        keys_writable(*old(doc)),
    ensures
        keys_is_table(*final(doc)),
        keys_slots(*final(doc)) == keys_slots(*old(doc)),
        other_sections(root_slots(*final(doc))) == other_sections(root_slots(*old(doc))),
        command_tables(*final(doc)) == command_tables(*old(doc)),
{
    if !has_keys_item(doc) {
        put_empty_keys_table(doc);
    }
}

/// A copy of the item `[keys]` holds under `key`, preserving its TOML type
/// for undo.
pub fn get_item(doc: &DocumentMut, key: &str) -> (r: Option<Item>)
    ensures
        r is None <==> shown(keys_slots(*doc), key@) is None,
        r matches Some(item) ==> shown(keys_slots(*doc), key@) == Some(item_view(item)),
{
    keys_lookup(doc, key)
}

/// Set one item in `[keys]`, preserving the rest of the document.
pub fn set_item(doc: &mut DocumentMut, key: &str, item: Item)
    requires
        keys_writable(*old(doc)),
    ensures
        keys_is_table(*final(doc)),
        keys_slots(*final(doc)) == set_slot(keys_slots(*old(doc)), key@, item_view(item)),
        distinct_keys(keys_slots(*old(doc))),
        distinct_keys(keys_slots(*final(doc))),
        other_sections(root_slots(*final(doc))) == other_sections(root_slots(*old(doc))),
        key@ != "command"@ ==> command_tables(*final(doc)) == command_tables(*old(doc)),
        key@ == "command"@ && item_view(item).0 != "array of tables"@ ==> command_tables(
            *final(doc),
        ) == Seq::<CommandView>::empty(),
{
    keys_table_mut(doc);
    keys_insert(doc, key, item);
}

/// Set one scalar binding in `[keys]`, preserving the rest of the document.
pub fn set_scalar(doc: &mut DocumentMut, key: &str, binding: &str)
    requires
        keys_writable(*old(doc)),
    ensures
        keys_is_table(*final(doc)),
        keys_slots(*final(doc)) == set_slot(
            keys_slots(*old(doc)),
            key@,
            string_value_view(binding@),
        ),
        distinct_keys(keys_slots(*old(doc))),
        distinct_keys(keys_slots(*final(doc))),
        other_sections(root_slots(*final(doc))) == other_sections(root_slots(*old(doc))),
        command_tables(*final(doc)) == if key@ == "command"@ {
            Seq::<CommandView>::empty()
        } else {
            command_tables(*old(doc))
        },
{
    let item = string_item(binding);
    proof {
        reveal_strlit("string");
        reveal_strlit("array of tables");
        assert("string"@.len() != "array of tables"@.len());
    }
    set_item(doc, key, item);
}

/// Remove one scalar binding from `[keys]`, preserving the rest of the table.
pub fn remove_scalar(doc: &mut DocumentMut, key: &str)
    ensures
        keys_writable(*final(doc)) == keys_writable(*old(doc)),
        keys_is_table(*final(doc)) == keys_is_table(*old(doc)),
        keys_slots(*final(doc)) == if keys_is_table(*old(doc)) {
            remove_slot(keys_slots(*old(doc)), key@)
        } else {
            keys_slots(*old(doc))
        },
        shown(keys_slots(*final(doc)), key@) is None,
        forall|k: Seq<char>| k != key@ ==> #[trigger] shown(keys_slots(*final(doc)), k) == shown(keys_slots(*old(doc)), k),
        other_sections(root_slots(*final(doc))) == other_sections(root_slots(*old(doc))),
        key@ != "command"@ ==> command_tables(*final(doc)) == command_tables(*old(doc)),
{
    keys_remove(doc, key);
    proof {
        let s0 = keys_slots(*old(doc));
        if keys_is_table(*old(doc)) {
            lemma_remove_slot(s0, key@, key@);
            assert forall|k: Seq<char>| k != key@ implies #[trigger] shown(keys_slots(*doc), k) == shown(s0, k) by {
                lemma_remove_slot(s0, key@, k);
            }
        }
    }
}

/// A profile's entries show what the table shows, `command` excepted.
proof fn lemma_profile_entries_shown(s: Seq<Slot>, k: Seq<char>)
    requires
        distinct_keys(s),
    ensures
        k != "command"@ ==> shown(profile_entries(visible(s)), k) == shown(s, k),
        shown(profile_entries(visible(s)), "command"@) is None,
{
    let v = visible(s);
    let e = profile_entries(v);
    lemma_visible(s);
    lemma_profile_entries(v);
    lemma_shown_distinct(s, k);
    lemma_shown_distinct(e, k);
    lemma_shown_distinct(e, "command"@);
    assert forall|x: ItemView| e.contains(("command"@, x)) implies x.0 == "none"@ by {
        let i = choose|i: int| 0 <= i < e.len() && e[i] == ("command"@, x);
        assert(e[i].0 != "command"@);
    }
    if k != "command"@ {
        assert forall|x: ItemView| (e.contains((k, x)) && x.0 != "none"@) <==> (s.contains((k, x)) && x.0 != "none"@) by {
            if e.contains((k, x)) {
                let i = choose|i: int| 0 <= i < e.len() && e[i] == (k, x);
                assert(v.contains(e[i]));
            }
            if s.contains((k, x)) && x.0 != "none"@ {
                assert(v.contains((k, x)));
                let i = choose|i: int| 0 <= i < v.len() && v[i] == (k, x);
                assert(e.contains(v[i]));
            }
        }
    }
}

/// Saving the live bindings as a profile and applying that profile later
/// restores them: every key but `command` shows again what the saved
/// document showed.
pub proof fn law_extracted_profile_restores(source: Seq<Slot>, live: Seq<Slot>, k: Seq<char>)
    requires
        distinct_keys(source),
        distinct_keys(live),
        k != "command"@,
    ensures
        shown(applied_keys(live, profile_entries(visible(source))), k) == shown(source, k),
{
    let p = profile_entries(visible(source));
    lemma_visible(source);
    lemma_profile_entries(visible(source));
    law_apply_profile_shows_profile(live, p, k);
    lemma_profile_entries_shown(source, k);
}

/// The keys of `[keys]` are distinct, as those of every table.
fn keys_distinct(doc: &DocumentMut)
    ensures
        distinct_keys(keys_slots(*doc)),
{
    let names = keys_slot_names(doc);
    let ghost s = keys_slots(*doc);
    assert forall|i: int, j: int| 0 <= i < j < s.len() implies (#[trigger] s[i]).0 != (#[trigger] s[j]).0 by {
        assert(names[i]@ == s[i].0);
        assert(names[j]@ == s[j].0);
    }
}

/// The entries of `[keys]` other than `command`, each with a copy of its
/// item, in table order.
fn profile_items(doc: &DocumentMut) -> (r: Vec<(String, Item)>)
    ensures
        r.len() == profile_entries(visible(keys_slots(*doc))).len(),
        forall|i: int|
            0 <= i < r.len() ==> (#[trigger] r[i]).0@ == profile_entries(
                visible(keys_slots(*doc)),
            )[i].0 && item_view(r[i].1) == profile_entries(visible(keys_slots(*doc)))[i].1,
        distinct_keys(visible(keys_slots(*doc))),
{
    let entries = keys_entries(doc);
    let ghost v = visible(keys_slots(*doc));
    let mut out: Vec<(String, Item)> = Vec::new();
    let mut rest = entries;
    let ghost all = rest@;
    let mut i: usize = 0;
    let n = rest.len();
    assert(distinct_keys(v)) by {
        assert forall|a: int, b: int| 0 <= a < b < v.len() implies (#[trigger] v[a]).0 != (
        #[trigger] v[b]).0 by {
            assert(all[a].0@ == v[a].0);
            assert(all[b].0@ == v[b].0);
        }
    }
    while i < n
        invariant
            n == all.len(),
            n == v.len(),
            rest@ == all.skip(i as int),
            forall|j: int| 0 <= j < n ==> (#[trigger] all[j]).0@ == v[j].0 && item_view(all[j].1) == v[j].1,
            out.len() == profile_entries(v.take(i as int)).len(),
            forall|j: int|
                0 <= j < out.len() ==> (#[trigger] out[j]).0@ == profile_entries(v.take(i as int))[j].0
                    && item_view(out[j].1) == profile_entries(v.take(i as int))[j].1,
            i <= n,
        decreases n - i,
    {
        let (k, item) = rest.remove(0);
        assert(all.skip(i as int)[0] == all[i as int]);
        assert(all.skip(i + 1) =~= all.skip(i as int).remove(0));
        assert(v.take(i + 1).drop_last() =~= v.take(i as int));
        assert(v.take(i + 1).last() == v[i as int]);
        if !str_eq(k.as_str(), "command") {
            out.push((k, item));
        }
        i = i + 1;
    }
    assert(v.take(n as int) =~= v);
    out
}

/// Replace every non-`command` entry in the live `[keys]` table with the
/// entries from `profile`'s `[keys]` table (or clear them all if the profile
/// has none). The `[[keys.command]]` array is never touched, nor any other
/// section.
pub fn apply_profile(doc: &mut DocumentMut, profile: &DocumentMut)
    requires
        keys_writable(*old(doc)),
    ensures
        keys_is_table(*final(doc)),
        keys_slots(*final(doc)) == applied_keys(keys_slots(*old(doc)), keys_slots(*profile)),
        forall|k: Seq<char>|
            k != "command"@ ==> #[trigger] shown(keys_slots(*final(doc)), k) == shown(keys_slots(*profile), k),
        shown(keys_slots(*final(doc)), "command"@) == shown(keys_slots(*old(doc)), "command"@),
        other_sections(root_slots(*final(doc))) == other_sections(root_slots(*old(doc))),
        command_tables(*final(doc)) == command_tables(*old(doc)),
{
    let profile_entries_v = profile_items(profile);
    keys_distinct(doc);
    keys_distinct(profile);
    keys_table_mut(doc);
    let live = profile_items(doc);
    proof {
        let l0 = keys_slots(*old(doc));
        let p0 = keys_slots(*profile);
        assert forall|k: Seq<char>| k != "command"@ implies #[trigger] shown(applied_keys(l0, p0), k) == shown(p0, k) by {
            law_apply_profile_shows_profile(l0, p0, k);
        }
        law_apply_profile_shows_profile(l0, p0, "command"@);
    }
    let ghost s0 = keys_slots(*doc);
    let ghost stale = profile_entries(visible(s0));
    proof {
        lemma_profile_entries(visible(s0));
    }
    let mut i: usize = 0;
    while i < live.len()
        invariant
            keys_is_table(*doc),
            live.len() == stale.len(),
            forall|j: int| 0 <= j < live.len() ==> (#[trigger] live[j]).0@ == stale[j].0,
            forall|j: int| 0 <= j < stale.len() ==> (#[trigger] stale[j]).0 != "command"@,
            i <= live.len(),
            keys_slots(*doc) == remove_all(s0, stale.take(i as int)),
            other_sections(root_slots(*doc)) == other_sections(root_slots(*old(doc))),
            command_tables(*doc) == command_tables(*old(doc)),
        decreases live.len() - i,
    {
        keys_remove(doc, live[i].0.as_str());
        i = i + 1;
        assert(stale.take(i as int).drop_last() =~= stale.take(i - 1));
    }
    assert(stale.take(live.len() as int) =~= stale);
    let ghost cleared = keys_slots(*doc);
    let ghost fresh = profile_entries(visible(keys_slots(*profile)));
    proof {
        lemma_profile_entries(visible(keys_slots(*profile)));
    }
    let mut j: usize = 0;
    let mut items = profile_entries_v;
    let ghost all = items@;
    let n = items.len();
    while j < n
        invariant
            keys_is_table(*doc),
            n == fresh.len(),
            n == all.len(),
            items@ == all.skip(j as int),
            forall|t: int| 0 <= t < n ==> (#[trigger] all[t]).0@ == fresh[t].0 && item_view(all[t].1) == fresh[t].1,
            forall|t: int| 0 <= t < fresh.len() ==> (#[trigger] fresh[t]).0 != "command"@,
            j <= n,
            keys_slots(*doc) == insert_all(cleared, fresh.take(j as int)),
            other_sections(root_slots(*doc)) == other_sections(root_slots(*old(doc))),
            command_tables(*doc) == command_tables(*old(doc)),
        decreases n - j,
    {
        let (k, item) = items.remove(0);
        assert(all.skip(j as int)[0] == all[j as int]);
        assert(all.skip(j + 1) =~= all.skip(j as int).remove(0));
        keys_insert(doc, k.as_str(), item);
        j = j + 1;
        assert(fresh.take(j as int).drop_last() =~= fresh.take(j - 1));
    }
    assert(fresh.take(n as int) =~= fresh);
}

/// A fresh document holding only the `[keys]` table of `doc` (minus
/// `command`), suitable for saving as a profile file.
pub fn extract_keys_only(doc: &DocumentMut) -> (out: DocumentMut)
    ensures
        keys_is_table(out),
        other_sections(root_slots(out)) == Seq::<Slot>::empty(),
        keys_slots(out) == profile_entries(visible(keys_slots(*doc))),
        forall|k: Seq<char>| k != "command"@ ==> #[trigger] shown(keys_slots(out), k) == shown(keys_slots(*doc), k),
        shown(keys_slots(out), "command"@) is None,
        command_tables(out) == Seq::<CommandView>::empty(),
{
    keys_distinct(doc);
    proof {
        let s0 = keys_slots(*doc);
        assert forall|k: Seq<char>| k != "command"@ implies #[trigger] shown(profile_entries(visible(s0)), k) == shown(s0, k) by {
            lemma_profile_entries_shown(s0, k);
        }
        lemma_profile_entries_shown(s0, "command"@);
    }
    let entries = profile_items(doc);
    let mut out = new_document();
    put_empty_keys_table(&mut out);
    let ghost fresh = profile_entries(visible(keys_slots(*doc)));
    proof {
        lemma_profile_entries(visible(keys_slots(*doc)));
        assert(other_sections(Seq::<Slot>::empty()) == Seq::<Slot>::empty());
    }
    let mut items = entries;
    let ghost all = items@;
    let n = items.len();
    let mut j: usize = 0;
    while j < n
        invariant
            keys_is_table(out),
            n == fresh.len(),
            n == all.len(),
            distinct_keys(fresh),
            items@ == all.skip(j as int),
            forall|t: int| 0 <= t < n ==> (#[trigger] all[t]).0@ == fresh[t].0 && item_view(all[t].1) == fresh[t].1,
            forall|t: int| 0 <= t < fresh.len() ==> (#[trigger] fresh[t]).0 != "command"@,
            j <= n,
            keys_slots(out) == insert_all(Seq::<Slot>::empty(), fresh.take(j as int)),
            other_sections(root_slots(out)) == Seq::<Slot>::empty(),
            command_tables(out) == Seq::<CommandView>::empty(),
        decreases n - j,
    {
        let (k, item) = items.remove(0);
        assert(all.skip(j as int)[0] == all[j as int]);
        assert(all.skip(j + 1) =~= all.skip(j as int).remove(0));
        keys_insert(&mut out, k.as_str(), item);
        j = j + 1;
        assert(fresh.take(j as int).drop_last() =~= fresh.take(j - 1));
    }
    assert(fresh.take(n as int) =~= fresh);
    proof {
        assert(Seq::<Slot>::empty() + fresh =~= fresh);
        lemma_insert_all_fresh(Seq::<Slot>::empty(), fresh);
    }
    out
}

/// Scalar `[keys]` overrides as (config_key, value), skipping `command` and
/// any subtables (e.g. `[keys.indexed]`).
pub fn scalar_overrides(doc: &DocumentMut) -> (r: Vec<(String, String)>)
    ensures
        r.len() == scalar_pairs(visible(keys_slots(*doc))).len(),
        forall|i: int|
            0 <= i < r.len() ==> ((#[trigger] r[i]).0@, r[i].1@) == scalar_pairs(
                visible(keys_slots(*doc)),
            )[i],
{
    let entries = keys_entries(doc);
    let ghost v = visible(keys_slots(*doc));
    let mut out: Vec<(String, String)> = Vec::new();
    let mut i: usize = 0;
    while i < entries.len()
        invariant
            entries.len() == v.len(),
            forall|j: int| 0 <= j < entries.len() ==> (#[trigger] entries[j]).0@ == v[j].0 && item_view(entries[j].1) == v[j].1,
            i <= entries.len(),
            out.len() == scalar_pairs(v.take(i as int)).len(),
            forall|j: int| 0 <= j < out.len() ==> ((#[trigger] out[j]).0@, out[j].1@) == scalar_pairs(v.take(i as int))[j],
        decreases entries.len() - i,
    {
        assert(v.take(i + 1).drop_last() =~= v.take(i as int));
        assert(v.take(i + 1).last() == v[i as int]);
        if !str_eq(entries[i].0.as_str(), "command") {
            match item_str(&entries[i].1) {
                Some(s) => {
                    let k = entries[i].0.clone();
                    out.push((k, s));
                },
                None => {},
            }
        }
        i = i + 1;
    }
    assert(v.take(entries.len() as int) =~= v);
    out
}

/// (key, description) for every `[[keys.command]]` entry, in file order.
pub fn custom_commands(doc: &DocumentMut) -> (r: Vec<(String, String)>)
    ensures
        r.len() == custom_pairs(command_tables(*doc)).len(),
        forall|i: int|
            0 <= i < r.len() ==> ((#[trigger] r[i]).0@, r[i].1@) == custom_pairs(
                command_tables(*doc),
            )[i],
{
    let entries = command_entries(doc);
    let ghost c = command_tables(*doc);
    let mut out: Vec<(String, String)> = Vec::new();
    let mut i: usize = 0;
    while i < entries.len()
        invariant
            entries.len() == c.len(),
            forall|j: int|
                0 <= j < entries.len() ==> (#[trigger] entries[j]).0.is_some() == c[j].0.is_some()
                    && entries[j].1.is_some() == c[j].1.is_some()
                    && (entries[j].0 matches Some(k) ==> Some(k@) == c[j].0)
                    && (entries[j].1 matches Some(d) ==> Some(d@) == c[j].1),
            i <= entries.len(),
            out.len() == custom_pairs(c.take(i as int)).len(),
            forall|j: int| 0 <= j < out.len() ==> ((#[trigger] out[j]).0@, out[j].1@) == custom_pairs(c.take(i as int))[j],
        decreases entries.len() - i,
    {
        assert(c.take(i + 1).drop_last() =~= c.take(i as int));
        assert(c.take(i + 1).last() == c[i as int]);
        match &entries[i].0 {
            Some(k) => {
                let d = match &entries[i].1 {
                    Some(d) => d.clone(),
                    None => "custom command".to_string(),
                };
                out.push((k.clone(), d));
            },
            None => {},
        }
        i = i + 1;
    }
    assert(c.take(entries.len() as int) =~= c);
    out
}

/// Law: a scalar update touches no other key, and the item `get_item`
/// returned before it undoes it (`set_item` with that item, or
/// `remove_scalar` where the key showed nothing).
pub proof fn law_scalar_update_reversible(s: Seq<Slot>, key: Seq<char>, binding: Seq<char>)
    requires
        distinct_keys(s),
    ensures
        forall|j: Seq<char>|
            j != key ==> #[trigger] shown(set_slot(s, key, string_value_view(binding)), j)
                == shown(s, j),
        shown(s, key) matches Some(prev) ==> set_slot(
            set_slot(s, key, string_value_view(binding)),
            key,
            prev,
        ) == s,
        slot_index(s, key) < 0 ==> remove_slot(set_slot(s, key, string_value_view(binding)), key)
            == s,
        shown(s, key) is None ==> forall|j: Seq<char>|
            #[trigger] shown(remove_slot(set_slot(s, key, string_value_view(binding)), key), j)
                == shown(s, j),
{
    let v = string_value_view(binding);
    let t = set_slot(s, key, v);
    lemma_slot_index(s, key);
    assert forall|j: Seq<char>| j != key implies #[trigger] shown(t, j) == shown(s, j) by {
        lemma_set_slot_other(s, key, v, j);
    }
    let i = slot_index(s, key);
    if i >= 0 {
        lemma_slot_index_is(t, key, i);
        assert(set_slot(t, key, s[i].1) =~= s);
    } else {
        lemma_slot_index_is(t, key, s.len() as int);
        assert(remove_slot(t, key) =~= s);
    }
    if shown(s, key) is None {
        lemma_set_slot_distinct(s, key, v);
        assert forall|j: Seq<char>| #[trigger] shown(remove_slot(t, key), j) == shown(s, j) by {
            lemma_remove_slot(t, key, j);
            if j != key {
                lemma_set_slot_other(s, key, v, j);
            }
        }
    }
}

/// Build the neutral, read-only profile from the keybinds viewer's defaults:
/// every panel row with a config key and a non-empty default, as a string.
pub fn default_profile() -> (profile: DocumentMut)
    ensures
        keys_slots(profile) == set_strings(Seq::<Slot>::empty(), section_defaults(panel_sections())),
        other_sections(root_slots(profile)) == Seq::<Slot>::empty(),
        command_tables(profile) == Seq::<CommandView>::empty(),
{
    let secs = sections();
    let ghost pv = panel_sections();
    let mut profile = new_document();
    proof {
        assert(other_sections(Seq::<Slot>::empty()) == Seq::<Slot>::empty());
        assert(section_defaults(pv.take(0)) =~= Seq::<(Seq<char>, Seq<char>)>::empty());
    }
    let mut si: usize = 0;
    while si < secs.len()
        invariant
            sections_view(secs@) == pv,
            si <= secs.len(),
            keys_writable(profile),
            keys_slots(profile) == set_strings(Seq::<Slot>::empty(), section_defaults(pv.take(si as int))),
            other_sections(root_slots(profile)) == Seq::<Slot>::empty(),
            command_tables(profile) == Seq::<CommandView>::empty(),
        decreases secs.len() - si,
    {
        let rows = &secs[si].rows;
        let ghost rv = pv[si as int].1;
        assert(rv == rows@.map_values(|r: Row| row_view(r)));
        let mut ri: usize = 0;
        assert(rv.take(0) =~= Seq::<RowView>::empty());
        assert(section_defaults(pv.take(si as int)) + row_defaults(rv.take(0)) =~= section_defaults(pv.take(si as int)));
        while ri < rows.len()
            invariant
                sections_view(secs@) == pv,
                si < secs.len(),
                rows == &secs@[si as int].rows,
                rv == rows@.map_values(|r: Row| row_view(r)),
                ri <= rows.len(),
                keys_writable(profile),
                keys_slots(profile) == set_strings(
                    Seq::<Slot>::empty(),
                    section_defaults(pv.take(si as int)) + row_defaults(rv.take(ri as int)),
                ),
                other_sections(root_slots(profile)) == Seq::<Slot>::empty(),
                command_tables(profile) == Seq::<CommandView>::empty(),
            decreases rows.len() - ri,
        {
            let row = &rows[ri];
            let ghost before = section_defaults(pv.take(si as int)) + row_defaults(rv.take(ri as int));
            assert(rv.take(ri + 1).drop_last() =~= rv.take(ri as int));
            assert(rv.take(ri + 1).last() == row_view(*row));
            match row.config_key {
                Some(k) => {
                    if !row.default.is_empty() {
                        set_scalar(&mut profile, k, row.default);
                        assert(before.push((k@, row.default@)).drop_last() =~= before);
                        assert(section_defaults(pv.take(si as int)) + row_defaults(rv.take(ri + 1)) =~= before.push((k@, row.default@)));
                    } else {
                        assert(section_defaults(pv.take(si as int)) + row_defaults(rv.take(ri + 1)) =~= before);
                    }
                },
                None => {
                    assert(section_defaults(pv.take(si as int)) + row_defaults(rv.take(ri + 1)) =~= before);
                },
            }
            ri = ri + 1;
        }
        assert(rv.take(rows.len() as int) =~= rv);
        assert(pv.take(si + 1).drop_last() =~= pv.take(si as int));
        si = si + 1;
    }
    assert(pv.take(secs.len() as int) =~= pv);
    profile
}

} // verus!
