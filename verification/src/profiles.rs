//! Keybind profiles: their names, which one a switch goes to, and what
//! saving, committing and undoing a profile change decide.
use crate::key_input::is_ascii_alnum;
use crate::render::{is_whitespace, is_ws, trim_end};
use crate::style::{BOLD, CYAN, DEFAULT_PROFILE, LEFT_PAD, RESET};
use crate::tabs::first_index;
use crate::text::{chars_eq, chars_to_string, push_str, str_chars, str_eq};
use crate::view_session::{names_of, opt_view};
use crate::view_state::UndoEntry;
use toml_edit::DocumentMut;
use vstd::prelude::*;

verus! {

/// `s` without leading whitespace.
pub open spec fn trim_start(s: Seq<char>) -> Seq<char>
    decreases s.len(),
{
    if s.len() > 0 && is_ws(s[0]) {
        trim_start(s.drop_first())
    } else {
        s
    }
}

/// `str::trim`: without leading and trailing whitespace.
pub open spec fn trimmed(s: Seq<char>) -> Seq<char> {
    trim_start(trim_end(s))
}

/// The name a file holds: its trimmed text, unless that is empty.
pub open spec fn name_in(text: Seq<char>) -> Option<Seq<char>> {
    if trimmed(text).len() == 0 {
        None
    } else {
        Some(trimmed(text))
    }
}

proof fn lemma_trim_end_take(s: Seq<char>, end: int)
    requires
        0 <= end <= s.len(),
        trim_end(s) == trim_end(s.take(end)),
        end == 0 || !is_ws(s[end - 1]),
    ensures
        trim_end(s) == s.take(end),
{
    if end > 0 {
        assert(s.take(end).last() == s[end - 1]);
    }
}

/// The name held by the text of a pending-name or active-profile file: the
/// text trimmed, or none when nothing is left.
pub fn trimmed_name(text: &str) -> (r: Option<String>)
    ensures
        opt_view(r) == name_in(text@),
{
    let cs = str_chars(text);
    let mut end: usize = cs.len();
    assert(cs@.take(end as int) =~= cs@);
    while end > 0 && is_whitespace(cs[end - 1])
        invariant
            end <= cs@.len(),
            trim_end(cs@) == trim_end(cs@.take(end as int)),
        decreases end,
    {
        assert(cs@.take(end as int).drop_last() =~= cs@.take(end - 1));
        assert(cs@.take(end as int).last() == cs@[end - 1]);
        end = end - 1;
    }
    proof {
        lemma_trim_end_take(cs@, end as int);
    }
    let mut start: usize = 0;
    assert(cs@.subrange(0, end as int) =~= cs@.take(end as int));
    while start < end && is_whitespace(cs[start])
        invariant
            start <= end <= cs@.len(),
            trimmed(text@) == trim_start(cs@.subrange(start as int, end as int)),
        decreases end - start,
    {
        assert(cs@.subrange(start as int, end as int).drop_first() =~= cs@.subrange(start + 1, end as int));
        start = start + 1;
    }
    if start == end {
        return None;
    }
    let mut out: Vec<char> = Vec::new();
    let mut i: usize = start;
    while i < end
        invariant
            start <= i <= end <= cs@.len(),
            out@ == cs@.subrange(start as int, i as int),
        decreases end - i,
    {
        out.push(cs[i]);
        i = i + 1;
        assert(out@ =~= cs@.subrange(start as int, i as int));
    }
    assert(trim_start(cs@.subrange(start as int, end as int)) == cs@.subrange(start as int, end as int));
    Some(chars_to_string(&out))
}

/// A file name ends with `.toml`.
pub open spec fn is_toml_file(s: Seq<char>) -> bool {
    s.len() >= 5 && s.subrange(s.len() - 5, s.len() as int) == ".toml"@
}

/// The profile names among directory entries: the names ending with
/// `.toml`, in their order, with that suffix removed.
pub open spec fn toml_stems(files: Seq<Seq<char>>) -> Seq<Seq<char>>
    decreases files.len(),
{
    if files.len() == 0 {
        Seq::empty()
    } else if is_toml_file(files.last()) {
        toml_stems(files.drop_last()).push(files.last().subrange(0, files.last().len() - 5))
    } else {
        toml_stems(files.drop_last())
    }
}

/// `a` comes before `b` or equals it, comparing characters in order by
/// code point (a shorter prefix first). This is `String`'s order: UTF-8
/// keeps the order of code points byte by byte.
pub open spec fn name_le(a: Seq<char>, b: Seq<char>) -> bool
    decreases a.len(),
{
    if a.len() == 0 {
        true
    } else if b.len() == 0 {
        false
    } else if a[0] != b[0] {
        a[0] < b[0]
    } else {
        name_le(a.drop_first(), b.drop_first())
    }
}

/// Names in ascending order.
pub open spec fn sorted_names(s: Seq<Seq<char>>) -> bool {
    forall|i: int, j: int| 0 <= i < j < s.len() ==> name_le(#[trigger] s[i], #[trigger] s[j])
}

proof fn lemma_name_le_total(a: Seq<char>, b: Seq<char>)
    ensures
        name_le(a, b) || name_le(b, a),
    decreases a.len(),
{
    if a.len() > 0 && b.len() > 0 && a[0] == b[0] {
        lemma_name_le_total(a.drop_first(), b.drop_first());
    }
}

proof fn lemma_name_le_trans(a: Seq<char>, b: Seq<char>, c: Seq<char>)
    requires
        name_le(a, b),
        name_le(b, c),
    ensures
        name_le(a, c),
    decreases a.len(),
{
    if a.len() > 0 && b.len() > 0 && c.len() > 0 && a[0] == b[0] && b[0] == c[0] {
        lemma_name_le_trans(a.drop_first(), b.drop_first(), c.drop_first());
    }
}

/// Whether `a` comes before `b` or equals it.
fn names_in_order(a: &String, b: &String) -> (r: bool)
    ensures
        r == name_le(a@, b@),
{
    let x = str_chars(a.as_str());
    let y = str_chars(b.as_str());
    let mut i: usize = 0;
    assert(x@.skip(0) =~= x@);
    assert(y@.skip(0) =~= y@);
    while i < x.len() && i < y.len() && x[i] == y[i]
        invariant
            i <= x@.len(),
            i <= y@.len(),
            name_le(a@, b@) == name_le(x@.skip(i as int), y@.skip(i as int)),
            x@ == a@,
            y@ == b@,
        decreases x.len() - i,
    {
        assert(x@.skip(i as int).drop_first() =~= x@.skip(i + 1));
        assert(y@.skip(i as int).drop_first() =~= y@.skip(i + 1));
        i = i + 1;
    }
    if i == x.len() {
        return true;
    }
    if i == y.len() {
        return false;
    }
    assert(x@.skip(i as int)[0] == x@[i as int]);
    assert(y@.skip(i as int)[0] == y@[i as int]);
    x[i] < y[i]
}

proof fn lemma_insert_multiset(s: Seq<Seq<char>>, i: int, a: Seq<char>)
    requires
        0 <= i <= s.len(),
    ensures
        s.insert(i, a).to_multiset() =~= s.to_multiset().insert(a),
{
    broadcast use vstd::multiset::group_multiset_axioms;

    let t = s.insert(i, a);
    t.to_multiset_ensures();
    assert(t.remove(i) =~= s);
    assert(t[i] == a);
    assert(t.contains(a));
}

/// The profile names in a directory's file names: the names ending with
/// `.toml`, with that suffix removed, in ascending order.
pub fn profile_names(file_names: Vec<String>) -> (names: Vec<String>)
    ensures
        sorted_names(names_of(names@)),
        names_of(names@).to_multiset() == toml_stems(names_of(file_names@)).to_multiset(),
{
    broadcast use vstd::multiset::group_multiset_axioms;

    let ghost files = names_of(file_names@);
    let suffix = str_chars(".toml");
    let mut names: Vec<String> = Vec::new();
    let mut i: usize = 0;
    assert(files.take(0) =~= Seq::<Seq<char>>::empty());
    assert(names_of(names@) =~= toml_stems(files.take(0)));
    while i < file_names.len()
        invariant
            files == names_of(file_names@),
            suffix@ == ".toml"@,
            i <= file_names@.len(),
            sorted_names(names_of(names@)),
            names_of(names@).to_multiset() == toml_stems(files.take(i as int)).to_multiset(),
        decreases file_names.len() - i,
    {
        let ghost before = names_of(names@);
        assert(files.take(i + 1).drop_last() =~= files.take(i as int));
        assert(files.take(i + 1).last() == file_names@[i as int]@);
        let cs = str_chars(file_names[i].as_str());
        let n = cs.len();
        let mut is_toml = n >= 5;
        if is_toml {
            let mut tail: Vec<char> = Vec::new();
            let mut k: usize = n - 5;
            while k < n
                invariant
                    n == cs@.len(),
                    n >= 5,
                    n - 5 <= k <= n,
                    tail@ == cs@.subrange(n - 5, k as int),
                decreases n - k,
            {
                tail.push(cs[k]);
                k = k + 1;
                assert(tail@ =~= cs@.subrange(n - 5, k as int));
            }
            is_toml = chars_eq(&tail, &suffix);
        }
        assert(is_toml == is_toml_file(cs@));
        if is_toml {
            let mut stem: Vec<char> = Vec::new();
            let mut k: usize = 0;
            while k < n - 5
                invariant
                    n == cs@.len(),
                    n >= 5,
                    k <= n - 5,
                    stem@ == cs@.subrange(0, k as int),
                decreases n - 5 - k,
            {
                stem.push(cs[k]);
                k = k + 1;
                assert(stem@ =~= cs@.subrange(0, k as int));
            }
            let name = chars_to_string(&stem);
            let ghost x = name@;
            let mut p: usize = names.len();
            while p > 0 && !names_in_order(&names[p - 1], &name)
                invariant
                    p <= names@.len(),
                    name@ == x,
                    names_of(names@) == before,
                    forall|t: int| p <= t < before.len() ==> !name_le(#[trigger] before[t], x),
                decreases p,
            {
                assert(before[p - 1] == names@[p - 1]@);
                p = p - 1;
            }
            proof {
                assert forall|t: int| p <= t < before.len() implies name_le(x, #[trigger] before[t]) by {
                    lemma_name_le_total(before[t], x);
                }
                if p > 0 {
                    assert(name_le(before[p - 1], x));
                    assert forall|t: int| 0 <= t < p implies name_le(#[trigger] before[t], x) by {
                        if t < p - 1 {
                            lemma_name_le_trans(before[t], before[p - 1], x);
                        }
                    }
                }
                lemma_insert_multiset(before, p as int, x);
                toml_stems(files.take(i as int)).to_multiset_ensures();
                assert(x == cs@.subrange(0, n - 5));
            }
            names.insert(p, name);
            assert(names_of(names@) =~= before.insert(p as int, x));
            proof {
                let after = names_of(names@);
                assert forall|a: int, b: int| 0 <= a < b < after.len() implies name_le(#[trigger] after[a], #[trigger] after[b]) by {
                    if b < p {
                    } else if b == p {
                    } else if a < p {
                        assert(after[b] == before[b - 1]);
                    } else if a == p {
                        assert(after[b] == before[b - 1]);
                    } else {
                        assert(after[a] == before[a - 1]);
                        assert(after[b] == before[b - 1]);
                    }
                }
            }
        }
        i = i + 1;
    }
    assert(files.take(i as int) =~= files);
    names
}

/// A character allowed in a profile name.
pub open spec fn name_char(c: char) -> bool {
    is_ascii_alnum(c) || c == '_' || c == '-'
}

/// A profile name: one or more of `[a-zA-Z0-9_-]`.
pub open spec fn is_valid_name(s: Seq<char>) -> bool {
    s.len() > 0 && forall|i: int| 0 <= i < s.len() ==> name_char(#[trigger] s[i])
}

/// Whether `name` can name a profile file.
pub fn valid_name(name: &str) -> (r: bool)
    ensures
        r == is_valid_name(name@),
{
    let cs = str_chars(name);
    if cs.len() == 0 {
        return false;
    }
    let mut i: usize = 0;
    while i < cs.len()
        invariant
            cs@ == name@,
            i <= cs@.len(),
            forall|t: int| 0 <= t < i ==> name_char(#[trigger] cs@[t]),
        decreases cs.len() - i,
    {
        let c = cs[i];
        let ok = ('a' <= c && c <= 'z') || ('A' <= c && c <= 'Z') || ('0' <= c && c <= '9') || c == '_' || c == '-';
        if !ok {
            assert(!name_char(cs@[i as int]));
            return false;
        }
        i = i + 1;
    }
    true
}

/// Why the current keybindings cannot be saved as a profile.
#[derive(Clone, Debug, PartialEq, Eq)]
pub enum SaveError {
    /// No name was given.
    NoName,
    /// The name has characters outside `[a-zA-Z0-9_-]`, or is empty.
    InvalidName(String),
    /// The name is `default`, which is reserved.
    Reserved,
}

/// The profile that `save` writes, from the pending name: refused when there
/// is none, when it is not a valid name, and when it is `default`.
pub fn save_target(pending: Option<String>) -> (r: Result<String, SaveError>)
    ensures
        match pending {
            None => r == Err::<String, SaveError>(SaveError::NoName),
            Some(n) => if !is_valid_name(n@) {
                r == Err::<String, SaveError>(SaveError::InvalidName(n))
            } else if n@ == DEFAULT_PROFILE@ {
                r == Err::<String, SaveError>(SaveError::Reserved)
            } else {
                r == Ok::<String, SaveError>(n)
            },
        },
{
    match pending {
        None => Err(SaveError::NoName),
        Some(name) => {
            if !valid_name(name.as_str()) {
                Err(SaveError::InvalidName(name))
            } else if str_eq(name.as_str(), DEFAULT_PROFILE) {
                Err(SaveError::Reserved)
            } else {
                Ok(name)
            }
        },
    }
}

/// Why a switch found no target.
#[derive(Clone, Debug, PartialEq, Eq)]
pub enum TargetError {
    /// The pending name is not among the profiles.
    NotFound(String),
}

/// The profile a switch goes to: the pending name, when it is a profile;
/// otherwise the profile after the active one in the list, wrapping around,
/// or the first one when the active profile is not listed.
pub open spec fn switch_target(names: Seq<Seq<char>>, pending: Option<Seq<char>>, active: Option<Seq<char>>) -> Result<
    Seq<char>,
    Seq<char>,
> {
    match pending {
        Some(p) => if names.contains(p) {
            Ok(p)
        } else {
            Err(p)
        },
        None => {
            let i = match active {
                Some(a) => first_index(names, a),
                None => -1,
            };
            if i >= 0 {
                Ok(names[(i + 1) % (names.len() as int)])
            } else {
                Ok(names[0])
            }
        },
    }
}

proof fn lemma_first_index_bounds(names: Seq<Seq<char>>, v: Seq<char>)
    ensures
        -1 <= first_index(names, v) < names.len(),
        first_index(names, v) >= 0 ==> names[first_index(names, v)] == v,
        first_index(names, v) < 0 ==> !names.contains(v),
        forall|t: int| 0 <= t < first_index(names, v) ==> names[t] != v,
    decreases names.len(),
{
    if names.len() > 0 {
        lemma_first_index_bounds(names.drop_first(), v);
        if first_index(names, v) < 0 {
            assert forall|t: int| 0 <= t < names.len() implies names[t] != v by {
                if t > 0 {
                    assert(names[t] == names.drop_first()[t - 1]);
                }
            }
        } else if first_index(names, v) > 0 {
            assert forall|t: int| 0 <= t < first_index(names, v) implies names[t] != v by {
                if t > 0 {
                    assert(names[t] == names.drop_first()[t - 1]);
                }
            }
        }
    }
}

/// Pick the switch target from the profiles (listed alphabetically), the
/// pending name and the active profile, as read from their files.
pub fn pick_target(profiles: &Vec<String>, pending: Option<String>, active: Option<String>) -> (r: Result<String, TargetError>)
    requires
        profiles@.len() > 0 || pending is Some,
    ensures
        match r {
            Ok(t) => switch_target(names_of(profiles@), opt_view(pending), opt_view(active)) == Ok::<Seq<char>, Seq<char>>(t@),
            Err(TargetError::NotFound(n)) => switch_target(names_of(profiles@), opt_view(pending), opt_view(active))
                == Err::<Seq<char>, Seq<char>>(n@),
        },
{
    let ghost names = names_of(profiles@);
    match pending {
        Some(explicit) => {
            let mut i: usize = 0;
            while i < profiles.len()
                invariant
                    names == names_of(profiles@),
                    opt_view(pending) == Some(explicit@),
                    i <= profiles@.len(),
                    forall|t: int| 0 <= t < i ==> names[t] != explicit@,
                decreases profiles.len() - i,
            {
                if str_eq(profiles[i].as_str(), explicit.as_str()) {
                    assert(names[i as int] == explicit@);
                    assert(names.contains(explicit@));
                    return Ok(explicit);
                }
                i = i + 1;
            }
            assert(!names.contains(explicit@));
            Err(TargetError::NotFound(explicit))
        },
        None => {
            let len = profiles.len();
            match &active {
                Some(current) => {
                    proof {
                        lemma_first_index_bounds(names, current@);
                    }
                    let mut i: usize = 0;
                    while i < len
                        invariant
                            names == names_of(profiles@),
                            pending is None,
                            opt_view(active) == Some(current@),
                            first_index(names, current@) < 0 ==> !names.contains(current@),
                            len == profiles@.len(),
                            i <= len,
                            forall|t: int| 0 <= t < i ==> names[t] != current@,
                            -1 <= first_index(names, current@) < names.len(),
                            first_index(names, current@) >= 0 ==> names[first_index(names, current@)] == current@,
                            forall|t: int| 0 <= t < first_index(names, current@) ==> names[t] != current@,
                        decreases len - i,
                    {
                        if str_eq(profiles[i].as_str(), current.as_str()) {
                            assert(names[i as int] == current@);
                            assert(names.contains(current@));
                            proof {
                                let f = first_index(names, current@);
                                if 0 <= f < i as int {
                                    assert(names[f] != current@);
                                }
                                if f > i as int {
                                    assert(names[i as int] != current@);
                                }
                                assert(f == i as int);
                            }
                            let next = if i + 1 < len { i + 1 } else { 0 };
                            assert(next as int == (i as int + 1) % (len as int)) by (nonlinear_arith)
                                requires
                                    0 <= i < len,
                                    next == (if i + 1 < len { i + 1 } else { 0 }),
                            ;
                            return Ok(profiles[next].clone());
                        }
                        i = i + 1;
                    }
                    assert(first_index(names, current@) < 0);
                },
                None => {},
            }
            Ok(profiles[0].clone())
        },
    }
}

/// Switching repeatedly cycles through the profiles: with distinct names and
/// no pending name, `k` switches from the profile at `i` reach the profile at
/// `(i + k) % n`.
pub proof fn law_switch_cycles(names: Seq<Seq<char>>, i: int, k: nat)
    requires
        0 <= i < names.len(),
        forall|a: int, b: int| 0 <= a < b < names.len() ==> names[a] != names[b],
    ensures
        cycled(names, names[i], k) == names[(i + k) % (names.len() as int)],
    decreases k,
{
    let n = names.len() as int;
    if k == 0 {
        assert(i % n == i) by (nonlinear_arith)
            requires
                0 <= i < n,
        ;
    } else {
        law_switch_cycles(names, i, (k - 1) as nat);
        let j = (i + k - 1) % n;
        assert(0 <= j < n) by (nonlinear_arith)
            requires
                n > 0,
                j == (i + k - 1) % n,
        ;
        lemma_distinct_first_index(names, j);
        assert((j + 1) % n == (i + k) % n) by (nonlinear_arith)
            requires
                n > 0,
                j == (i + k - 1) % n,
        ;
    }
}

/// The active profile after `k` switches without a pending name.
pub open spec fn cycled(names: Seq<Seq<char>>, start: Seq<char>, k: nat) -> Seq<char>
    decreases k,
{
    if k == 0 {
        start
    } else {
        match switch_target(names, None, Some(cycled(names, start, (k - 1) as nat))) {
            Ok(t) => t,
            Err(_) => start,
        }
    }
}

proof fn lemma_distinct_first_index(names: Seq<Seq<char>>, j: int)
    requires
        0 <= j < names.len(),
        forall|a: int, b: int| 0 <= a < b < names.len() ==> names[a] != names[b],
    ensures
        first_index(names, names[j]) == j,
{
    lemma_first_index_bounds(names, names[j]);
    let f = first_index(names, names[j]);
    if f < 0 {
        assert(names.contains(names[j]));
    } else if f < j {
        assert(names[f] != names[j]);
    } else if f > j {
        assert(names[j] != names[j]);
    }
}

/// Why an edited profile cannot be committed.
#[derive(Clone, Debug, PartialEq, Eq)]
pub enum CommitError {
    /// The `default` profile is read-only.
    ReadOnly,
}

/// Committing a profile: refused for the read-only `default` profile;
/// otherwise the profile file is rewritten, and the live config too (then
/// Herdr reloads it) when the profile is the active one. The result says
/// whether the live config is rewritten.
pub fn commit_updates_live(profile_name: &str, active: &str) -> (r: Result<bool, CommitError>)
    ensures
        r == if profile_name@ == DEFAULT_PROFILE@ {
            Err::<bool, CommitError>(CommitError::ReadOnly)
        } else {
            Ok::<bool, CommitError>(profile_name@ == active@)
        },
{
    if str_eq(profile_name, DEFAULT_PROFILE) {
        return Err(CommitError::ReadOnly);
    }
    Ok(str_eq(profile_name, active))
}

/// The record of a committed change: the profile's file as it was, and the
/// live config as it was when the commit rewrote it.
pub fn saved_change(
    profile_name: String,
    active: String,
    profile_previous: DocumentMut,
    live_previous: Option<DocumentMut>,
) -> (undo: UndoEntry)
    ensures
        undo.profile_name == profile_name,
        undo.active_profile == active,
        undo.profile_previous == profile_previous,
        undo.live_previous == live_previous,
{
    UndoEntry { profile_name, profile_previous, live_previous, active_profile: active }
}

/// Undoing a saved change always puts back the profile's file; it puts back
/// the live config too (then Herdr reloads it) only when the change was made
/// to the active profile, that profile is still active, and the live config
/// was recorded.
pub fn restore_rewrites_live(undo: &UndoEntry, active: &str) -> (r: bool)
    ensures
        r == (undo.profile_name@ == active@ && undo.active_profile@ == active@ && undo.live_previous is Some),
{
    str_eq(undo.profile_name.as_str(), active) && str_eq(undo.active_profile.as_str(), active)
        && undo.live_previous.is_some()
}

/// Undoing a change right after committing it, with the same profile
/// active, puts back both files it rewrote: the profile's file always, and
/// the live config exactly when the commit rewrote it.
pub proof fn law_undo_reverts_commit(
    profile_name: Seq<char>,
    active: Seq<char>,
    undo: UndoEntry,
    previous: DocumentMut,
    live_before: DocumentMut,
)
    requires
        profile_name != DEFAULT_PROFILE@,
        undo.profile_name@ == profile_name,
        undo.active_profile@ == active,
        undo.profile_previous == previous,
        undo.live_previous == (if profile_name == active { Some(live_before) } else { None }),
    ensures
        (undo.profile_name@ == active && undo.active_profile@ == active && undo.live_previous is Some) == (
        profile_name == active),
        undo.profile_previous == previous,
        profile_name == active ==> undo.live_previous == Some(live_before),
{
}

/// The toast listing every profile, the active one marked: a blank line,
/// one line per profile, a blank line, joined by `\r\n` with none after the
/// last line (in a terminal exactly that tall, one more line would scroll
/// the first out of view).
pub open spec fn toast_lines(names: Seq<Seq<char>>, active: Option<Seq<char>>) -> Seq<char>
    decreases names.len(),
{
    if names.len() == 0 {
        Seq::empty()
    } else {
        toast_lines(names.drop_last(), active) + "\r\n"@ + LEFT_PAD@ + toast_row(names.last(), active)
    }
}

/// A profile's line in the toast.
pub open spec fn toast_row(name: Seq<char>, active: Option<Seq<char>>) -> Seq<char> {
    if active == Some(name) {
        CYAN@ + "\u{25cf}"@ + RESET@ + " "@ + BOLD@ + name + RESET@
    } else {
        "  "@ + name
    }
}

/// The text of the toast.
pub fn toast_text(profiles: &Vec<String>, active: Option<String>) -> (r: String)
    ensures
        r@ == toast_lines(names_of(profiles@), opt_view(active)) + "\r\n"@,
{
    let ghost names = names_of(profiles@);
    let mut out: Vec<char> = Vec::new();
    let mut i: usize = 0;
    assert(names.take(0) =~= Seq::<Seq<char>>::empty());
    while i < profiles.len()
        invariant
            names == names_of(profiles@),
            i <= profiles@.len(),
            out@ == toast_lines(names.take(i as int), opt_view(active)),
        decreases profiles.len() - i,
    {
        let ghost before = out@;
        let name = profiles[i].as_str();
        push_str(&mut out, "\r\n");
        push_str(&mut out, LEFT_PAD);
        let is_active = match &active {
            Some(a) => str_eq(a.as_str(), name),
            None => false,
        };
        if is_active {
            push_str(&mut out, CYAN);
            push_str(&mut out, "\u{25cf}");
            push_str(&mut out, RESET);
            push_str(&mut out, " ");
            push_str(&mut out, BOLD);
            push_str(&mut out, name);
            push_str(&mut out, RESET);
        } else {
            push_str(&mut out, "  ");
            push_str(&mut out, name);
        }
        assert(names.take(i + 1).drop_last() =~= names.take(i as int));
        assert(names.take(i + 1).last() == name@);
        assert(out@ =~= before + "\r\n"@ + LEFT_PAD@ + toast_row(name@, opt_view(active)));
        i = i + 1;
    }
    assert(names.take(i as int) =~= names);
    push_str(&mut out, "\r\n");
    chars_to_string(&out)
}

} // verus!
