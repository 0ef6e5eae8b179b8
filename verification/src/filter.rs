//! Search over the panel rows.
use crate::panel::{Row, RowV};
use crate::conflicts::slice_rows;
use crate::text::str_chars;
use vstd::prelude::*;

verus! {

/// What `str::to_lowercase` makes of a text (Unicode lower-casing).
pub uninterp spec fn lowercase(s: Seq<char>) -> Seq<char>;

/// `str::to_lowercase`.
#[verifier::external_body]
fn to_lowercase(s: &str) -> (r: String)
    ensures
        r@ == lowercase(s@),
{
    s.to_lowercase()
}

/// `q` is a subsequence of `t`: matched greedily, front to back.
pub open spec fn is_subseq(q: Seq<char>, t: Seq<char>) -> bool
    decreases t.len(),
{
    if q.len() == 0 {
        true
    } else if t.len() == 0 {
        false
    } else if t[0] == q[0] {
        is_subseq(q.drop_first(), t.drop_first())
    } else {
        is_subseq(q, t.drop_first())
    }
}

/// Case-insensitive subsequence match, fzf-style but without the ranking.
/// An empty query matches everything.
pub open spec fn fuzzy(text: Seq<char>, query: Seq<char>) -> bool {
    query.len() == 0 || is_subseq(lowercase(query), lowercase(text))
}

/// Dropping the first character of a query keeps it a subsequence.
proof fn lemma_subseq_drop_query(q: Seq<char>, t: Seq<char>)
    requires
        q.len() > 0,
        is_subseq(q, t),
    ensures
        is_subseq(q.drop_first(), t),
    decreases t.len(),
{
    let q1 = q.drop_first();
    if q1.len() > 0 && t.len() > 0 {
        let t1 = t.drop_first();
        if t[0] == q[0] {
            if t[0] == q1[0] {
                lemma_subseq_drop_query(q1, t1);
            }
        } else {
            lemma_subseq_drop_query(q, t1);
            if t[0] == q1[0] {
                lemma_subseq_drop_query(q1, t1);
            }
        }
    }
}

/// A subsequence of `t` stays one when text is put in front of `t`.
proof fn lemma_subseq_prepend(q: Seq<char>, a: Seq<char>, t: Seq<char>)
    requires
        is_subseq(q, t),
    ensures
        is_subseq(q, a + t),
    decreases a.len(),
{
    if a.len() > 0 && q.len() > 0 {
        let rest = a.drop_first() + t;
        assert((a + t).drop_first() =~= rest);
        assert((a + t)[0] == a[0]);
        lemma_subseq_prepend(q, a.drop_first(), t);
        if a[0] == q[0] {
            lemma_subseq_drop_query(q, rest);
        }
    }
}

/// Every text is a subsequence of itself followed by anything.
proof fn lemma_subseq_prefix(q: Seq<char>, b: Seq<char>)
    ensures
        is_subseq(q, q + b),
    decreases q.len(),
{
    if q.len() > 0 {
        assert((q + b)[0] == q[0]);
        assert((q + b).drop_first() =~= q.drop_first() + b);
        lemma_subseq_prefix(q.drop_first(), b);
    }
}

/// A non-empty query matches a text exactly when its lower-cased form is a
/// subsequence of the lower-cased text, wherever in the text the match
/// starts; the empty query matches every text.
pub proof fn law_fuzzy_subsequence(text: Seq<char>, query: Seq<char>)
    ensures
        query.len() == 0 ==> fuzzy(text, query),
        query.len() > 0 ==> (fuzzy(text, query) <==> is_subseq(lowercase(query), lowercase(text))),
{
}

/// A query matches every text that contains it, ignoring case: `tab`
/// matches `close tab`.
pub proof fn law_fuzzy_substring(text: Seq<char>, query: Seq<char>, before: Seq<char>, after: Seq<char>)
    requires
        lowercase(text) == before + lowercase(query) + after,
    ensures
        fuzzy(text, query),
{
    let q = lowercase(query);
    lemma_subseq_prefix(q, after);
    lemma_subseq_prepend(q, before, q + after);
    assert(before + (q + after) =~= before + q + after);
}

pub fn fuzzy_match(text: &str, query: &str) -> (r: bool)
    ensures
        r == fuzzy(text@, query@),
{
    if query.unicode_len() == 0 {
        return true;
    }
    let tl = to_lowercase(text);
    let ql = to_lowercase(query);
    let t = str_chars(tl.as_str());
    let q = str_chars(ql.as_str());
    let mut p: usize = 0;
    let mut qi: usize = 0;
    assert(q@.skip(0) =~= q@);
    assert(t@.skip(0) =~= t@);
    while qi < q.len()
        invariant
            q@ == lowercase(query@),
            t@ == lowercase(text@),
            query@.len() > 0,
            p <= t.len(),
            qi <= q.len(),
            is_subseq(q@, t@) == is_subseq(q@.skip(qi as int), t@.skip(p as int)),
        decreases q.len() - qi,
    {
        let qc = q[qi];
        let mut found = false;
        while !found
            invariant
                q@ == lowercase(query@),
                t@ == lowercase(text@),
                query@.len() > 0,
                p <= t.len(),
                qi < q.len(),
                qc == q@[qi as int],
                !found ==> is_subseq(q@, t@) == is_subseq(q@.skip(qi as int), t@.skip(p as int)),
                found ==> is_subseq(q@, t@) == is_subseq(q@.skip(qi + 1), t@.skip(p as int)),
            decreases t.len() - p,
        {
            assert(q@.skip(qi as int).len() > 0);
            assert(q@.skip(qi as int)[0] == qc);
            if p == t.len() {
                assert(t@.skip(p as int).len() == 0);
                return false;
            }
            let tc = t[p];
            assert(t@.skip(p as int)[0] == tc);
            assert(t@.skip(p as int).drop_first() =~= t@.skip(p + 1));
            assert(q@.skip(qi as int).drop_first() =~= q@.skip(qi + 1));
            p = p + 1;
            if tc == qc {
                found = true;
            }
        }
        qi = qi + 1;
    }
    assert(q@.skip(qi as int).len() == 0);
    true
}

/// Search progress over the rows: the current section header, whether its
/// name matches, whether it was already shown, and the indices shown.
pub type FilterState = (Option<usize>, bool, bool, Seq<usize>);

pub open spec fn filter_step(st: FilterState, r: RowV, i: usize, query: Seq<char>) -> FilterState {
    match r {
        RowV::Section(name) => {
            let m = fuzzy(name, query);
            (Some(i), m, m, if m { st.3.push(i) } else { st.3 })
        },
        RowV::Blank => st,
        RowV::Entry { key, description, .. } => {
            if st.1 || fuzzy(key, query) || fuzzy(description, query) {
                let with_header = if !st.2 {
                    match st.0 {
                        Some(si) => st.3.push(si),
                        None => st.3,
                    }
                } else {
                    st.3
                };
                (st.0, st.1, true, with_header.push(i))
            } else {
                st
            }
        },
    }
}

pub open spec fn filter_run(rows: Seq<RowV>, query: Seq<char>, n: int) -> FilterState
    decreases n,
{
    if n <= 0 {
        (None, false, false, Seq::empty())
    } else {
        filter_step(filter_run(rows, query, n - 1), rows[n - 1], (n - 1) as usize, query)
    }
}

/// Indices into `rows` to display for the given query: every matching entry,
/// plus the section header above it (once) for context. A section whose own
/// name matches shows all of its entries. An empty query shows everything,
/// blanks included.
pub open spec fn filtered(rows: Seq<RowV>, query: Seq<char>) -> Seq<usize> {
    if query.len() == 0 {
        Seq::new(rows.len(), |i: int| i as usize)
    } else {
        filter_run(rows, query, rows.len() as int).3
    }
}

/// Ascending, below `n`.
pub open spec fn increasing_below(s: Seq<usize>, n: int) -> bool {
    &&& forall|a: int, b: int| 0 <= a < b < s.len() ==> s[a] < s[b]
    &&& forall|a: int| 0 <= a < s.len() ==> s[a] < n
}

/// The search keeps row order and shows each row at most once.
pub proof fn lemma_filter_run(rows: Seq<RowV>, query: Seq<char>, n: int)
    requires
        0 <= n <= rows.len(),
        rows.len() <= usize::MAX,
    ensures
        increasing_below(filter_run(rows, query, n).3, n),
        filter_run(rows, query, n).0 matches Some(si) ==> si < n,
        filter_run(rows, query, n).0 is Some && !filter_run(rows, query, n).2 ==> forall|a: int|
            0 <= a < filter_run(rows, query, n).3.len() ==> filter_run(rows, query, n).3[a]
                < filter_run(rows, query, n).0.unwrap(),
    decreases n,
{
    if n > 0 {
        lemma_filter_run(rows, query, n - 1);
        let st = filter_run(rows, query, n - 1);
        let s2 = filter_run(rows, query, n);
        let i = (n - 1) as usize;
        assert(s2 == filter_step(st, rows[n - 1], i, query));
        match rows[n - 1] {
            RowV::Section(name) => {
                assert(s2.0 == Some(i));
            },
            RowV::Blank => {},
            RowV::Entry { key, description, .. } => {
                if st.1 || fuzzy(key, query) || fuzzy(description, query) {
                    let with_header = if !st.2 {
                        match st.0 {
                            Some(si) => st.3.push(si),
                            None => st.3,
                        }
                    } else {
                        st.3
                    };
                    assert(increasing_below(with_header, n - 1));
                    assert(s2.3 == with_header.push(i));
                }
            },
        }
    }
}

pub fn filtered_indices(rows: &[Row], query: &str) -> (r: Vec<usize>)
    ensures
        r@ == filtered(slice_rows(rows), query@),
        increasing_below(r@, rows@.len() as int),
{
    let ghost rv = slice_rows(rows);
    let n = rows.len();
    if query.unicode_len() == 0 {
        let mut all: Vec<usize> = Vec::new();
        let mut i: usize = 0;
        while i < n
            invariant
                n == rows@.len(),
                i <= n,
                all@ == Seq::new(i as nat, |t: int| t as usize),
            decreases n - i,
        {
            all.push(i);
            i = i + 1;
            assert(all@ =~= Seq::new(i as nat, |t: int| t as usize));
        }
        return all;
    }
    let mut result: Vec<usize> = Vec::new();
    let mut section_start: Option<usize> = None;
    let mut section_matches = false;
    let mut section_included = false;
    let mut i: usize = 0;
    while i < n
        invariant
            n == rows@.len(),
            rv == slice_rows(rows),
            i <= n,
            query@.len() > 0,
            (section_start, section_matches, section_included, result@) == filter_run(rv, query@, i as int),
        decreases n - i,
    {
        assert(rows@[i as int]@ == rv[i as int]);
        match &rows[i] {
            Row::Section(name) => {
                section_start = Some(i);
                section_matches = fuzzy_match(name.as_str(), query);
                section_included = section_matches;
                if section_matches {
                    result.push(i);
                }
            },
            Row::Blank => {},
            Row::Entry { key, description, .. } => {
                if section_matches || fuzzy_match(key.as_str(), query) || fuzzy_match(description.as_str(), query) {
                    if !section_included {
                        match section_start {
                            Some(si) => result.push(si),
                            None => {},
                        }
                        section_included = true;
                    }
                    result.push(i);
                }
            },
        }
        i = i + 1;
    }
    proof {
        lemma_filter_run(rv, query@, n as int);
    }
    result
}

/// The index of the last section header among the first `n` rows.
pub open spec fn section_of(rows: Seq<RowV>, n: int) -> Option<usize>
    decreases n,
{
    if n <= 0 {
        None
    } else if rows[n - 1] is Section {
        Some((n - 1) as usize)
    } else {
        section_of(rows, n - 1)
    }
}

/// The section above row `i` has a name matching the query.
pub open spec fn section_matches(rows: Seq<RowV>, query: Seq<char>, i: int) -> bool {
    match section_of(rows, i) {
        Some(s) => match rows[s as int] {
            RowV::Section(name) => fuzzy(name, query),
            _ => false,
        },
        None => false,
    }
}

/// Entry `i` matches the query: its shortcut or its description does, or
/// the name of its section.
pub open spec fn entry_matches(rows: Seq<RowV>, query: Seq<char>, i: int) -> bool {
    match rows[i] {
        RowV::Entry { key, description, .. } => section_matches(rows, query, i) || fuzzy(key, query) || fuzzy(
            description,
            query,
        ),
        _ => false,
    }
}

proof fn lemma_run_state(rows: Seq<RowV>, query: Seq<char>, n: int)
    requires
        0 <= n <= rows.len(),
        rows.len() <= usize::MAX,
    ensures
        filter_run(rows, query, n).0 == section_of(rows, n),
        filter_run(rows, query, n).1 == section_matches(rows, query, n),
        section_of(rows, n) matches Some(s) ==> s < n && rows[s as int] is Section,
    decreases n,
{
    if n > 0 {
        lemma_run_state(rows, query, n - 1);
    }
}

/// The shown rows only grow: those shown after `n` rows stay first, and
/// what follows is a later row or a section header.
proof fn lemma_run_extends(rows: Seq<RowV>, query: Seq<char>, n: int, m: int)
    requires
        0 <= n <= m <= rows.len(),
        rows.len() <= usize::MAX,
    ensures
        filter_run(rows, query, n).3.len() <= filter_run(rows, query, m).3.len(),
        filter_run(rows, query, m).3.take(filter_run(rows, query, n).3.len() as int) == filter_run(rows, query, n).3,
        forall|t: int|
            filter_run(rows, query, n).3.len() <= t < filter_run(rows, query, m).3.len() ==> (#[trigger] filter_run(
                rows,
                query,
                m,
            ).3[t] >= n || rows[filter_run(rows, query, m).3[t] as int] is Section),
    decreases m - n,
{
    if m > n {
        lemma_run_extends(rows, query, n, m - 1);
        lemma_run_state(rows, query, m - 1);
        let a = filter_run(rows, query, n).3;
        let b = filter_run(rows, query, m - 1).3;
        let c = filter_run(rows, query, m).3;
        assert(c.len() >= b.len());
        assert(c.take(b.len() as int) == b);
        assert(c.take(a.len() as int) =~= b.take(a.len() as int));
        assert forall|t: int| a.len() <= t < c.len() implies (#[trigger] c[t] >= n || rows[c[t] as int] is Section) by {
            if t < b.len() {
                assert(c[t] == b[t]);
            }
        }
    } else {
        assert(filter_run(rows, query, n).3.take(filter_run(rows, query, n).3.len() as int) =~= filter_run(
            rows,
            query,
            n,
        ).3);
    }
}

/// A search shows exactly the entries that match it: an entry is shown when
/// its shortcut, its description or the name of its section matches the
/// query, and only then.
pub proof fn law_search_shows_matching_entries(rows: Seq<RowV>, query: Seq<char>, i: int)
    requires
        query.len() > 0,
        0 <= i < rows.len(),
        rows.len() <= usize::MAX,
        rows[i] is Entry,
    ensures
        filtered(rows, query).contains(i as usize) <==> entry_matches(rows, query, i),
{
    let n = rows.len() as int;
    lemma_filter_run(rows, query, i);
    lemma_run_state(rows, query, i);
    lemma_run_extends(rows, query, i + 1, n);
    let before = filter_run(rows, query, i).3;
    let at = filter_run(rows, query, i + 1).3;
    let all = filter_run(rows, query, n).3;
    assert(!before.contains(i as usize)) by {
        if before.contains(i as usize) {
            let t = choose|t: int| 0 <= t < before.len() && before[t] == i as usize;
            assert(before[t] < i);
        }
    }
    if entry_matches(rows, query, i) {
        assert(at[at.len() - 1] == i as usize);
        assert(all[at.len() - 1] == at[at.len() - 1]);
        assert(all.contains(i as usize));
    } else {
        assert(at == before);
        if all.contains(i as usize) {
            let t = choose|t: int| 0 <= t < all.len() && all[t] == i as usize;
            if t < at.len() {
                assert(all[t] == at[t]);
            } else {
                assert(all[t] >= i + 1 || rows[all[t] as int] is Section);
            }
        }
    }
}

/// Some entry of section `s`'s block among the first `n` rows matches the
/// query on its own or by its section's name.
pub open spec fn block_matches(rows: Seq<RowV>, query: Seq<char>, s: int, n: int) -> bool {
    exists|j: int| s < j < n && section_of(rows, j) == Some(s as usize) && #[trigger] entry_matches(rows, query, j)
}

/// The search knows whether the current section's header is shown.
proof fn lemma_run_included(rows: Seq<RowV>, query: Seq<char>, n: int)
    requires
        0 <= n <= rows.len(),
        rows.len() <= usize::MAX,
    ensures
        filter_run(rows, query, n).0 matches Some(c) ==> filter_run(rows, query, n).2 == filter_run(
            rows,
            query,
            n,
        ).3.contains(c),
    decreases n,
{
    broadcast use vstd::seq_lib::group_seq_properties;

    if n > 0 {
        lemma_run_included(rows, query, n - 1);
        lemma_filter_run(rows, query, n - 1);
        let st = filter_run(rows, query, n - 1);
        let i = (n - 1) as usize;
        assert(!st.3.contains(i)) by {
            if st.3.contains(i) {
                let t = choose|t: int| 0 <= t < st.3.len() && st.3[t] == i;
                assert(st.3[t] < n - 1);
            }
        }
    }
}

/// After `n` rows, the header of section `s` is shown when its name or an
/// entry of its block matches.
proof fn lemma_run_header(rows: Seq<RowV>, query: Seq<char>, n: int, s: int)
    requires
        0 <= s < n <= rows.len(),
        rows.len() <= usize::MAX,
        rows[s] is Section,
    ensures
        filter_run(rows, query, n).3.contains(s as usize) <==> (fuzzy(rows[s]->Section_0, query) || block_matches(
            rows,
            query,
            s,
            n,
        )),
    decreases n,
{
    broadcast use vstd::seq_lib::group_seq_properties;

    lemma_filter_run(rows, query, n - 1);
    lemma_run_state(rows, query, n - 1);
    lemma_run_included(rows, query, n - 1);
    let st = filter_run(rows, query, n - 1);
    let st2 = filter_run(rows, query, n);
    let i = (n - 1) as usize;
    assert(!st.3.contains(i)) by {
        if st.3.contains(i) {
            let t = choose|t: int| 0 <= t < st.3.len() && st.3[t] == i;
            assert(st.3[t] < n - 1);
        }
    }
    if s == n - 1 {
        if block_matches(rows, query, s, n) {
            let j = choose|j: int| s < j < n && section_of(rows, j) == Some(s as usize) && #[trigger] entry_matches(rows, query, j);
        }
        return;
    }
    lemma_run_header(rows, query, n - 1, s);
    assert(block_matches(rows, query, s, n) == (block_matches(rows, query, s, n - 1) || (section_of(rows, n - 1)
        == Some(s as usize) && entry_matches(rows, query, n - 1)))) by {
        if block_matches(rows, query, s, n) {
            let j = choose|j: int| s < j < n && section_of(rows, j) == Some(s as usize) && #[trigger] entry_matches(rows, query, j);
            if j < n - 1 {
                assert(block_matches(rows, query, s, n - 1));
            }
        }
        if section_of(rows, n - 1) == Some(s as usize) && entry_matches(rows, query, n - 1) {
            assert(block_matches(rows, query, s, n));
        }
        if block_matches(rows, query, s, n - 1) {
            let j = choose|j: int| s < j < n - 1 && section_of(rows, j) == Some(s as usize) && #[trigger] entry_matches(rows, query, j);
            assert(block_matches(rows, query, s, n));
        }
    }
    match rows[n - 1] {
        RowV::Section(name) => {
            assert(!entry_matches(rows, query, n - 1));
            assert(st2.3 == (if fuzzy(name, query) { st.3.push(i) } else { st.3 }));
        },
        RowV::Blank => {
            assert(!entry_matches(rows, query, n - 1));
            assert(st2 == st);
        },
        RowV::Entry { key, description, .. } => {
            assert(st.1 == section_matches(rows, query, n - 1));
            let m = st.1 || fuzzy(key, query) || fuzzy(description, query);
            assert(m == entry_matches(rows, query, n - 1));
            if m {
                let with_header = if !st.2 {
                    match st.0 {
                        Some(si) => st.3.push(si),
                        None => st.3,
                    }
                } else {
                    st.3
                };
                assert(st2.3 == with_header.push(i));
                assert(st2.3.contains(s as usize) == with_header.contains(s as usize));
            } else {
                assert(st2 == st);
            }
        },
    }
}

/// A search shows a section's header exactly when the header's name
/// matches the query or some entry under it is shown.
pub proof fn law_search_shows_matching_headers(rows: Seq<RowV>, query: Seq<char>, s: int)
    requires
        query.len() > 0,
        0 <= s < rows.len(),
        rows.len() <= usize::MAX,
        rows[s] is Section,
    ensures
        filtered(rows, query).contains(s as usize) <==> (fuzzy(rows[s]->Section_0, query) || block_matches(
            rows,
            query,
            s,
            rows.len() as int,
        )),
{
    lemma_run_header(rows, query, rows.len() as int, s);
}

} // verus!
