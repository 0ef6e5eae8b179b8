//! Rows sharing a shortcut.
//!
//! Two rows conflict when they are entries whose displayed shortcuts are
//! equal ignoring ASCII case. Unset bindings never conflict: several Herdr
//! actions are unbound by default. A group made only of read-only custom
//! commands is ignored because the editor cannot resolve it.
use crate::panel::{Row, RowV};
use crate::text::{chars_eq, chars_to_string, push_chars, push_str, str_chars, to_ascii_lower, ascii_lower_seq};
use std::collections::{HashMap, HashSet};
use vstd::prelude::*;

verus! {

broadcast use vstd::std_specs::hash::group_hash_axioms;

/// The shortcut a row is compared by, when it can conflict at all.
pub open spec fn conflict_key(r: RowV) -> Option<Seq<char>> {
    match r {
        RowV::Entry { key, .. } => if key == "unset"@ {
            None
        } else {
            Some(ascii_lower_seq(key))
        },
        _ => None,
    }
}

/// A row backed by a `[keys]` field, which the editor can change.
pub open spec fn is_editable(r: RowV) -> bool {
    r matches RowV::Entry { config_key: Some(_), .. }
}

/// The indices below `n` of the rows compared by shortcut `k`, ascending.
pub open spec fn sharing(rows: Seq<RowV>, k: Seq<char>, n: int) -> Seq<usize>
    decreases n,
{
    if n <= 0 {
        Seq::empty()
    } else if conflict_key(rows[n - 1]) == Some(k) {
        sharing(rows, k, n - 1).push((n - 1) as usize)
    } else {
        sharing(rows, k, n - 1)
    }
}

/// The rows sharing the shortcut of row `i`, itself included.
pub open spec fn group_of(rows: Seq<RowV>, i: int) -> Seq<usize> {
    sharing(rows, conflict_key(rows[i]).unwrap(), rows.len() as int)
}

/// Row `i` shares its shortcut with another row, and one row of the group is
/// editable.
pub open spec fn is_duplicate(rows: Seq<RowV>, i: int) -> bool {
    &&& conflict_key(rows[i]) is Some
    &&& group_of(rows, i).len() > 1
    &&& exists|t: int| 0 <= t < group_of(rows, i).len() && is_editable(rows[group_of(rows, i)[t] as int])
}

/// `s` without the elements equal to `i`.
pub open spec fn without(s: Seq<usize>, i: usize) -> Seq<usize>
    decreases s.len(),
{
    if s.len() == 0 {
        Seq::empty()
    } else if s.last() == i {
        without(s.drop_last(), i)
    } else {
        without(s.drop_last(), i).push(s.last())
    }
}

/// The other rows sharing the shortcut of row `i`, ascending.
pub open spec fn partners(rows: Seq<RowV>, i: int) -> Seq<usize> {
    without(group_of(rows, i), i as usize)
}

proof fn lemma_sharing_contains(rows: Seq<RowV>, k: Seq<char>, n: int, x: usize)
    requires
        0 <= n <= rows.len(),
        rows.len() <= usize::MAX,
    ensures
        sharing(rows, k, n).contains(x) <==> (x < n && conflict_key(rows[x as int]) == Some(k)),
    decreases n,
{
    broadcast use vstd::seq_lib::group_seq_properties;

    if n > 0 {
        lemma_sharing_contains(rows, k, n - 1, x);
        let p = sharing(rows, k, n - 1);
        if conflict_key(rows[n - 1]) == Some(k) {
            assert(sharing(rows, k, n) == p.push((n - 1) as usize));
            if x == n - 1 {
                assert(p.push((n - 1) as usize)[p.len() as int] == x);
            }
        }
    }
}

proof fn lemma_without_contains(s: Seq<usize>, i: usize, x: usize)
    ensures
        without(s, i).contains(x) <==> (s.contains(x) && x != i),
    decreases s.len(),
{
    broadcast use vstd::seq_lib::group_seq_properties;

    if s.len() > 0 {
        lemma_without_contains(s.drop_last(), i, x);
        assert(s == s.drop_last().push(s.last()));
    }
}

/// Sharing a shortcut is mutual: when row `j` is among the rows sharing
/// row `i`'s shortcut, row `i` is among those sharing row `j`'s, and the two
/// rows are duplicates alike.
pub proof fn law_partners_mutual(rows: Seq<RowV>, i: int, j: int)
    requires
        0 <= i < rows.len(),
        0 <= j < rows.len(),
        rows.len() <= usize::MAX,
        conflict_key(rows[i]) is Some,
        partners(rows, i).contains(j as usize),
    ensures
        partners(rows, j).contains(i as usize),
        conflict_key(rows[j]) == conflict_key(rows[i]),
        is_duplicate(rows, i) == is_duplicate(rows, j),
{
    let k = conflict_key(rows[i]).unwrap();
    lemma_without_contains(group_of(rows, i), i as usize, j as usize);
    lemma_sharing_contains(rows, k, rows.len() as int, j as usize);
    assert(conflict_key(rows[j]) == Some(k));
    assert(group_of(rows, j) == group_of(rows, i));
    lemma_sharing_contains(rows, k, rows.len() as int, i as usize);
    lemma_without_contains(group_of(rows, j), j as usize, i as usize);
}

/// Unset bindings never conflict: a row whose displayed shortcut is `unset`
/// is never a duplicate, however many other rows are unset too.
pub proof fn law_unset_never_duplicate(rows: Seq<RowV>, i: int)
    requires
        0 <= i < rows.len(),
        rows[i] matches RowV::Entry { key, .. } && key == "unset"@,
    ensures
        conflict_key(rows[i]) is None,
        !is_duplicate(rows, i),
{
}

/// Two different entries whose shortcuts are equal ignoring ASCII case, and
/// neither of which is `unset`, are both duplicates as soon as one of them is
/// editable; each is among the other's partners.
pub proof fn law_same_shortcut_conflicts(rows: Seq<RowV>, i: int, j: int)
    requires
        0 <= i < rows.len(),
        0 <= j < rows.len(),
        i != j,
        rows.len() <= usize::MAX,
        rows[i] matches RowV::Entry { key: ki, .. } && ki != "unset"@,
        rows[j] matches RowV::Entry { key: kj, .. } && kj != "unset"@,
        ascii_lower_seq(rows[i]->key) == ascii_lower_seq(rows[j]->key),
        is_editable(rows[i]),
    ensures
        is_duplicate(rows, i),
        is_duplicate(rows, j),
        partners(rows, i).contains(j as usize),
        partners(rows, j).contains(i as usize),
{
    let k = conflict_key(rows[i]).unwrap();
    let n = rows.len() as int;
    assert(conflict_key(rows[j]) == Some(k));
    let g = group_of(rows, i);
    assert(group_of(rows, j) == g);
    lemma_sharing_contains(rows, k, n, i as usize);
    lemma_sharing_contains(rows, k, n, j as usize);
    let ti = choose|t: int| 0 <= t < g.len() && g[t] == i as usize;
    let tj = choose|t: int| 0 <= t < g.len() && g[t] == j as usize;
    assert(ti != tj);
    assert(g.len() > 1);
    assert(is_editable(rows[g[ti] as int]));
    lemma_without_contains(g, i as usize, j as usize);
    lemma_without_contains(g, j as usize, i as usize);
}

/// The rows sharing a shortcut are listed in ascending order.
proof fn lemma_sharing_ascending(rows: Seq<RowV>, k: Seq<char>, n: int)
    requires
        0 <= n <= rows.len(),
        rows.len() <= usize::MAX,
    ensures
        forall|a: int, b: int|
            0 <= a < b < sharing(rows, k, n).len() ==> sharing(rows, k, n)[a] < sharing(rows, k, n)[b],
    decreases n,
{
    if n > 0 {
        lemma_sharing_ascending(rows, k, n - 1);
        let p = sharing(rows, k, n - 1);
        if conflict_key(rows[n - 1]) == Some(k) {
            assert forall|a: int| 0 <= a < p.len() implies p[a] < n - 1 by {
                assert(p.contains(p[a]));
                lemma_sharing_contains(rows, k, n - 1, p[a]);
            }
        }
    }
}

/// A row is a duplicate exactly when it can conflict at all, another row
/// shows the same shortcut (ignoring ASCII case, `unset` excluded), and some
/// row showing that shortcut is editable: a group of read-only custom
/// commands alone is never flagged.
pub proof fn law_duplicate_characterized(rows: Seq<RowV>, i: int)
    requires
        0 <= i < rows.len(),
        rows.len() <= usize::MAX,
    ensures
        is_duplicate(rows, i) <==> {
            &&& conflict_key(rows[i]) is Some
            &&& exists|j: int| 0 <= j < rows.len() && j != i && #[trigger] conflict_key(rows[j]) == conflict_key(rows[i])
            &&& exists|e: int|
                0 <= e < rows.len() && #[trigger] conflict_key(rows[e]) == conflict_key(rows[i]) && is_editable(rows[e])
        },
{
    if conflict_key(rows[i]) is Some {
        let k = conflict_key(rows[i]).unwrap();
        let n = rows.len() as int;
        let g = group_of(rows, i);
        lemma_sharing_ascending(rows, k, n);
        lemma_sharing_contains(rows, k, n, i as usize);
        if is_duplicate(rows, i) {
            assert(g[0] < g[1]);
            let j: int = if g[0] as int == i { g[1] as int } else { g[0] as int };
            assert(g.contains(j as usize));
            lemma_sharing_contains(rows, k, n, j as usize);
            assert(conflict_key(rows[j]) == conflict_key(rows[i]));
            let t = choose|t: int| 0 <= t < g.len() && is_editable(rows[g[t] as int]);
            let e = g[t] as int;
            assert(g.contains(g[t]));
            lemma_sharing_contains(rows, k, n, g[t]);
            assert(conflict_key(rows[e]) == conflict_key(rows[i]));
        }
        if (exists|j: int| 0 <= j < rows.len() && j != i && #[trigger] conflict_key(rows[j]) == conflict_key(rows[i]))
            && (exists|e: int|
            0 <= e < rows.len() && #[trigger] conflict_key(rows[e]) == conflict_key(rows[i]) && is_editable(rows[e])) {
            let j = choose|j: int| 0 <= j < rows.len() && j != i && #[trigger] conflict_key(rows[j]) == conflict_key(rows[i]);
            let e = choose|e: int|
                0 <= e < rows.len() && #[trigger] conflict_key(rows[e]) == conflict_key(rows[i]) && is_editable(rows[e]);
            lemma_sharing_contains(rows, k, n, j as usize);
            lemma_sharing_contains(rows, k, n, e as usize);
            let ti = choose|t: int| 0 <= t < g.len() && g[t] == i as usize;
            let tj = choose|t: int| 0 <= t < g.len() && g[t] == j as usize;
            assert(ti != tj);
            let te = choose|t: int| 0 <= t < g.len() && g[t] == e as usize;
            assert(is_editable(rows[g[te] as int]));
        }
    }
}

pub open spec fn slice_rows(rows: &[Row]) -> Seq<RowV> {
    rows@.map_values(|r: Row| r@)
}

/// The shortcut row `r` is compared by, lower-cased.
fn row_conflict_key(r: &Row) -> (k: Option<Vec<char>>)
    ensures
        match k {
            Some(v) => conflict_key(r@) == Some(v@),
            None => conflict_key(r@) is None,
        },
{
    match r {
        Row::Entry { key, .. } => {
            let cs = str_chars(key.as_str());
            let unset = str_chars("unset");
            if chars_eq(&cs, &unset) {
                None
            } else {
                Some(to_ascii_lower(&cs))
            }
        },
        _ => None,
    }
}

/// Whether a row is backed by a `[keys]` field.
fn row_editable(r: &Row) -> (b: bool)
    ensures
        b == is_editable(r@),
{
    match r {
        Row::Entry { config_key: Some(_), .. } => true,
        _ => false,
    }
}

/// Map each duplicated row to the other rows sharing its shortcut, so the
/// editor can name the exact conflict even when the partner is off screen.
pub fn duplicate_partners(rows: &[Row]) -> (m: HashMap<usize, Vec<usize>>)
    ensures
        forall|i: usize| #[trigger] m@.contains_key(i) ==> i < rows@.len(),
        forall|i: usize| i < rows@.len() ==> (#[trigger] m@.contains_key(i) <==> is_duplicate(slice_rows(rows), i as int)),
        forall|i: usize| #[trigger] m@.contains_key(i) ==> m@[i]@ == partners(slice_rows(rows), i as int),
{
    let ghost rv = slice_rows(rows);
    let n = rows.len();
    let mut keys: Vec<Option<Vec<char>>> = Vec::new();
    let mut a: usize = 0;
    while a < n
        invariant
            n == rows@.len(),
            rv == slice_rows(rows),
            a <= n,
            keys.len() == a,
            forall|t: int| 0 <= t < a ==> match #[trigger] keys@[t] {
                Some(v) => conflict_key(rv[t]) == Some(v@),
                None => conflict_key(rv[t]) is None,
            },
        decreases n - a,
    {
        keys.push(row_conflict_key(&rows[a]));
        a = a + 1;
    }
    let mut m: HashMap<usize, Vec<usize>> = HashMap::new();
    let mut i: usize = 0;
    while i < n
        invariant
            n == rows@.len(),
            rv == slice_rows(rows),
            i <= n,
            keys.len() == n,
            forall|t: int| 0 <= t < n ==> match #[trigger] keys@[t] {
                Some(v) => conflict_key(rv[t]) == Some(v@),
                None => conflict_key(rv[t]) is None,
            },
            forall|t: usize| #[trigger] m@.contains_key(t) ==> t < i,
            forall|t: usize| t < i ==> (#[trigger] m@.contains_key(t) <==> is_duplicate(rv, t as int)),
            forall|t: usize| #[trigger] m@.contains_key(t) ==> m@[t]@ == partners(rv, t as int),
        decreases n - i,
    {
        match &keys[i] {
            None => {
                assert(!is_duplicate(rv, i as int));
            },
            Some(k) => {
                let ghost kv = k@;
                let mut group: Vec<usize> = Vec::new();
                let mut others: Vec<usize> = Vec::new();
                let mut editable = false;
                let mut j: usize = 0;
                while j < n
                    invariant
                        n == rows@.len(),
                        rv == slice_rows(rows),
                        i < n,
                        j <= n,
                        keys.len() == n,
                        conflict_key(rv[i as int]) == Some(kv),
                        k@ == kv,
                        forall|t: int| 0 <= t < n ==> match #[trigger] keys@[t] {
                            Some(v) => conflict_key(rv[t]) == Some(v@),
                            None => conflict_key(rv[t]) is None,
                        },
                        group@ == sharing(rv, kv, j as int),
                        forall|t: int| 0 <= t < group@.len() ==> #[trigger] group@[t] < j,
                        others@ == without(sharing(rv, kv, j as int), i),
                        editable == exists|t: int| 0 <= t < group@.len() && is_editable(rv[group@[t] as int]),
                    decreases n - j,
                {
                    let same = match &keys[j] {
                        Some(kj) => chars_eq(kj, k),
                        None => false,
                    };
                    let ghost old_group = group@;
                    let ghost old_others = others@;
                    assert(sharing(rv, kv, j + 1) == if conflict_key(rv[j as int]) == Some(kv) {
                        sharing(rv, kv, j as int).push(j)
                    } else {
                        sharing(rv, kv, j as int)
                    });
                    assert(sharing(rv, kv, j as int).push(j).drop_last() =~= sharing(rv, kv, j as int));
                    if same {
                        group.push(j);
                        if j != i {
                            others.push(j);
                        }
                        if row_editable(&rows[j]) {
                            assert(is_editable(rv[group@[group@.len() - 1] as int]));
                            editable = true;
                        } else {
                            assert forall|t: int| 0 <= t < group@.len() && is_editable(rv[group@[t] as int]) implies
                                0 <= t < old_group.len() && is_editable(rv[old_group[t] as int]) by {
                                if t < old_group.len() {
                                    assert(group@[t] == old_group[t]);
                                }
                            }
                            assert forall|t: int| 0 <= t < old_group.len() && is_editable(rv[old_group[t] as int]) implies
                                0 <= t < group@.len() && is_editable(rv[group@[t] as int]) by {
                                assert(group@[t] == old_group[t]);
                            }
                        }
                    }
                    j = j + 1;
                }
                if group.len() > 1 && editable {
                    m.insert(i, others);
                } else {
                    assert(!is_duplicate(rv, i as int));
                }
            },
        }
        i = i + 1;
    }
    m
}

/// Return the row indices whose displayed shortcut occurs more than once
/// (see `duplicate_partners`).
pub fn duplicate_rows(rows: &[Row]) -> (s: HashSet<usize>)
    ensures
        forall|i: usize| #[trigger] s@.contains(i) <==> (i < rows@.len() && is_duplicate(slice_rows(rows), i as int)),
{
    let m = duplicate_partners(rows);
    let mut s: HashSet<usize> = HashSet::new();
    let mut i: usize = 0;
    while i < rows.len()
        invariant
            i <= rows@.len(),
            forall|t: usize| #[trigger] m@.contains_key(t) ==> t < rows@.len(),
            forall|t: usize| t < rows@.len() ==> (#[trigger] m@.contains_key(t) <==> is_duplicate(slice_rows(rows), t as int)),
            forall|t: usize| #[trigger] s@.contains(t) <==> (t < i && is_duplicate(slice_rows(rows), t as int)),
        decreases rows.len() - i,
    {
        if m.contains_key(&i) {
            s.insert(i);
        }
        i = i + 1;
    }
    s
}

/// Human label for a conflicting row: its description, marked when it is a
/// read-only custom/plugin command.
pub open spec fn label_of(r: RowV) -> Seq<char> {
    match r {
        RowV::Entry { config_key: None, description, .. } => description + " (custom)"@,
        RowV::Entry { description, .. } => description,
        _ => Seq::empty(),
    }
}

/// Labels joined with `", "`.
pub open spec fn join_labels(rows: Seq<RowV>, others: Seq<usize>) -> Seq<char>
    decreases others.len(),
{
    if others.len() == 0 {
        Seq::empty()
    } else if others.len() == 1 {
        label_of(rows[others[0] as int])
    } else {
        join_labels(rows, others.drop_last()) + ", "@ + label_of(rows[others.last() as int])
    }
}

pub fn conflict_label(row: &Row) -> (r: String)
    ensures
        r@ == label_of(row@),
{
    match row {
        Row::Entry { config_key: None, description, .. } => {
            let mut v = str_chars(description.as_str());
            push_str(&mut v, " (custom)");
            chars_to_string(&v)
        },
        Row::Entry { description, .. } => description.clone(),
        _ => String::new(),
    }
}

pub fn conflict_note(rows: &[Row], others: &[usize]) -> (r: String)
    requires
        forall|t: int| 0 <= t < others@.len() ==> (#[trigger] others@[t]) < rows@.len(),
    ensures
        r@ == join_labels(slice_rows(rows), others@),
{
    let ghost rv = slice_rows(rows);
    let mut out: Vec<char> = Vec::new();
    let mut i: usize = 0;
    while i < others.len()
        invariant
            rv == slice_rows(rows),
            forall|t: int| 0 <= t < others@.len() ==> (#[trigger] others@[t]) < rows@.len(),
            i <= others.len(),
            out@ == join_labels(rv, others@.take(i as int)),
        decreases others.len() - i,
    {
        let ghost prev = out@;
        if i > 0 {
            push_str(&mut out, ", ");
        }
        let label = conflict_label(&rows[others[i]]);
        let lc = str_chars(label.as_str());
        push_chars(&mut out, &lc);
        i = i + 1;
        assert(others@.take(i as int).drop_last() =~= others@.take(i - 1));
        if i == 1 {
            assert(out@ =~= label_of(rv[others@[0] as int]));
        } else {
            assert(out@ =~= prev + ", "@ + label_of(rv[others@.take(i as int).last() as int]));
        }
    }
    assert(others@.take(others.len() as int) =~= others@);
    chars_to_string(&out)
}

/// The `[keys]` field behind a row, if any.
pub fn row_config_key(row: &Row) -> (r: Option<&str>)
    ensures
        match row@ {
            RowV::Entry { config_key: Some(k), .. } => r matches Some(s) && s@ == k,
            _ => r is None,
        },
{
    match row {
        Row::Entry { config_key: Some(key), .. } => Some(key.as_str()),
        _ => None,
    }
}

} // verus!
