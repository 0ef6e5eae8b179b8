//! The last saved profile change, kept as a TOML document so that it can be
//! undone after the popup is reopened.
//!
//! The document holds the profile's name, the active profile, the profile's
//! previous text, whether the live config's previous text is present, and
//! that text when it is.
use crate::toml_doc::{
    bool_item, bool_of, bool_value_view, command_tables, doc_text, doc_view, item_view, keys_slots, new_document,
    parse_document, parsed_view, render_document, root_insert, root_item_bool, root_item_str, root_slots, root_str,
    set_slot, slot_index, string_item, string_value_view, toml_error_text, DocView, Slot,
};
use crate::view_state::UndoEntry;
use toml_edit::DocumentMut;
use vstd::prelude::*;

verus! {

/// The root slots of the document recording `undo`.
pub open spec fn undo_slots(undo: UndoEntry) -> Seq<Slot> {
    seq![
        ("profile"@, string_value_view(undo.profile_name@)),
        ("active_profile"@, string_value_view(undo.active_profile@)),
        ("profile_previous"@, string_value_view(doc_text(undo.profile_previous))),
        ("live_previous_present"@, bool_value_view(undo.live_previous is Some)),
    ] + match undo.live_previous {
        Some(live) => seq![("live_previous"@, string_value_view(doc_text(live)))],
        None => Seq::empty(),
    }
}

proof fn lemma_slot_index_absent(s: Seq<Slot>, k: Seq<char>)
    requires
        forall|i: int| 0 <= i < s.len() ==> s[i].0 != k,
    ensures
        slot_index(s, k) == -1,
    decreases s.len(),
{
    if s.len() > 0 {
        assert forall|i: int| 0 <= i < s.drop_first().len() implies s.drop_first()[i].0 != k by {
            assert(s.drop_first()[i] == s[i + 1]);
        }
        lemma_slot_index_absent(s.drop_first(), k);
    }
}

/// The record marks the live config's previous text present.
pub open spec fn live_marked(doc: DocumentMut) -> bool {
    slot_index(root_slots(doc), "live_previous_present"@) >= 0 && bool_of(
        root_slots(doc)[slot_index(root_slots(doc), "live_previous_present"@)].1,
    ) == Some(true)
}

/// `doc` records `undo`: it holds the names and the previous texts as
/// strings and marks whether the live config's text is there; so reading it
/// fails on nothing but a recorded text that is not TOML.
pub open spec fn records(doc: DocumentMut, undo: UndoEntry) -> bool {
    &&& root_str(doc, "profile"@) == Some(undo.profile_name@)
    &&& root_str(doc, "active_profile"@) == Some(undo.active_profile@)
    &&& root_str(doc, "profile_previous"@) == Some(doc_text(undo.profile_previous))
    &&& live_marked(doc) == (undo.live_previous is Some)
    &&& match undo.live_previous {
        Some(l) => root_str(doc, "live_previous"@) == Some(doc_text(l)),
        None => root_str(doc, "live_previous"@) is None,
    }
    &&& parsed_view(doc_text(undo.profile_previous)) is Some && (undo.live_previous matches Some(l) ==> parsed_view(
        doc_text(l),
    ) is Some) ==> undo_fault(doc) is None
}

/// What reading a record gives: the names it holds and the documents its
/// texts parse to when nothing is wrong with it, else its first fault.
pub open spec fn reads_back(doc: DocumentMut, r: Result<UndoEntry, UndoError>) -> bool {
    match r {
        Ok(u) => {
            &&& undo_fault(doc) is None
            &&& root_str(doc, "profile"@) == Some(u.profile_name@)
            &&& root_str(doc, "active_profile"@) == Some(u.active_profile@)
            &&& parsed_view(root_str(doc, "profile_previous"@).unwrap()) == Some(doc_view(u.profile_previous))
            &&& match u.live_previous {
                Some(l) => live_marked(doc) && parsed_view(root_str(doc, "live_previous"@).unwrap()) == Some(
                    doc_view(l),
                ),
                None => !live_marked(doc),
            }
        },
        Err(UndoError::Missing(k)) => undo_fault(doc) == Some((true, k@)),
        Err(UndoError::Unparsable { key, .. }) => undo_fault(doc) == Some((false, key@)),
    }
}

/// A change recorded with `undo_document` reads back with
/// `undo_from_document`: the same profile name and active profile, and as
/// previous documents what the recorded texts of the change's documents
/// parse to (where those texts are TOML). The write to the file and the read
/// back from it are not covered: `toml_edit` does not promise that parsing a
/// rendered document gives it back.
pub proof fn law_undo_record_reads_back(undo: UndoEntry, doc: DocumentMut, r: Result<UndoEntry, UndoError>)
    requires
        records(doc, undo),
        reads_back(doc, r),
        parsed_view(doc_text(undo.profile_previous)) is Some,
        undo.live_previous matches Some(l) ==> parsed_view(doc_text(l)) is Some,
    ensures
        r is Ok,
        r matches Ok(v) ==> {
            &&& v.profile_name@ == undo.profile_name@
            &&& v.active_profile@ == undo.active_profile@
            &&& parsed_view(doc_text(undo.profile_previous)) == Some(doc_view(v.profile_previous))
            &&& (v.live_previous is Some) == (undo.live_previous is Some)
            &&& (v.live_previous matches Some(vl) ==> (undo.live_previous matches Some(l) && parsed_view(doc_text(l))
                == Some(doc_view(vl))))
        },
{
}

/// The document recording `undo`. It reads back: it holds the names and
/// the previous texts as strings and the presence of the live config as a
/// boolean, so reading it fails on nothing but a recorded text that is not
/// TOML.
pub fn undo_document(undo: &UndoEntry) -> (doc: DocumentMut)
    ensures
        root_slots(doc) == undo_slots(*undo),
        keys_slots(doc) == Seq::<Slot>::empty(),
        records(doc, *undo),
{
    let mut doc = new_document();
    proof {
        reveal_strlit("profile");
        reveal_strlit("active_profile");
        reveal_strlit("profile_previous");
        reveal_strlit("live_previous_present");
        reveal_strlit("live_previous");
        reveal_strlit("keys");
        assert("profile"@.len() == 7 && "keys"@.len() == 4);
        assert("active_profile"@.len() == 14 && "profile_previous"@.len() == 16);
        assert("live_previous_present"@.len() == 21 && "live_previous"@.len() == 13);
        assert("profile"@[0] == 'p' && "active_profile"@[0] == 'a' && "live_previous"@[0] == 'l');
    }
    let ghost s0 = root_slots(doc);
    root_insert(&mut doc, "profile", string_item(undo.profile_name.as_str()));
    proof {
        lemma_slot_index_absent(s0, "profile"@);
    }
    let ghost s1 = root_slots(doc);
    root_insert(&mut doc, "active_profile", string_item(undo.active_profile.as_str()));
    proof {
        lemma_slot_index_absent(s1, "active_profile"@);
    }
    let ghost s2 = root_slots(doc);
    let previous = render_document(&undo.profile_previous);
    root_insert(&mut doc, "profile_previous", string_item(previous.as_str()));
    proof {
        lemma_slot_index_absent(s2, "profile_previous"@);
    }
    let ghost s3 = root_slots(doc);
    root_insert(&mut doc, "live_previous_present", bool_item(undo.live_previous.is_some()));
    proof {
        lemma_slot_index_absent(s3, "live_previous_present"@);
    }
    let ghost s4 = root_slots(doc);
    match &undo.live_previous {
        Some(live) => {
            let text = render_document(live);
            root_insert(&mut doc, "live_previous", string_item(text.as_str()));
            proof {
                lemma_slot_index_absent(s4, "live_previous"@);
            }
        },
        None => {},
    }
    assert(root_slots(doc) =~= undo_slots(*undo));
    proof {
        let f = root_slots(doc);
        crate::keys::lemma_slot_index_is(f, "profile"@, 0);
        crate::keys::lemma_slot_index_is(f, "active_profile"@, 1);
        crate::keys::lemma_slot_index_is(f, "profile_previous"@, 2);
        crate::keys::lemma_slot_index_is(f, "live_previous_present"@, 3);
        if undo.live_previous is Some {
            crate::keys::lemma_slot_index_is(f, "live_previous"@, 4);
        } else {
            lemma_slot_index_absent(f, "live_previous"@);
        }
    }
    doc
}

/// Why a recorded change cannot be read back.
#[derive(Clone, Debug, PartialEq, Eq)]
pub enum UndoError {
    /// The document holds no string under this key.
    Missing(String),
    /// The string under this key is not a TOML document; the parser's
    /// message.
    Unparsable { key: String, message: String },
}

/// What is wrong with the document under a key: nothing (`None`), no string
/// there (`Some(true)`), or a string that is not TOML (`Some(false)`).
pub open spec fn text_fault(doc: DocumentMut, key: Seq<char>) -> Option<bool> {
    match root_str(doc, key) {
        None => Some(true),
        Some(t) => if parsed_view(t) is None {
            Some(false)
        } else {
            None
        },
    }
}

/// The first fault of a recorded change, in reading order: the live
/// config's text when it is marked present, the profile's name, the
/// profile's text, the active profile. A fault is `true` for a missing
/// string and `false` for an unparsable one, with its key.
pub open spec fn undo_fault(doc: DocumentMut) -> Option<(bool, Seq<char>)> {
    if live_marked(doc) && text_fault(doc, "live_previous"@) is Some {
        Some((text_fault(doc, "live_previous"@).unwrap(), "live_previous"@))
    } else if root_str(doc, "profile"@) is None {
        Some((true, "profile"@))
    } else if text_fault(doc, "profile_previous"@) is Some {
        Some((text_fault(doc, "profile_previous"@).unwrap(), "profile_previous"@))
    } else if root_str(doc, "active_profile"@) is None {
        Some((true, "active_profile"@))
    } else {
        None
    }
}

/// The document under `key`, parsed.
fn read_document(doc: &DocumentMut, key: &str) -> (r: Result<DocumentMut, UndoError>)
    ensures
        match r {
            Ok(d) => text_fault(*doc, key@) is None && parsed_view(root_str(*doc, key@).unwrap()) == Some(doc_view(d)),
            Err(UndoError::Missing(k)) => k@ == key@ && text_fault(*doc, key@) == Some(true),
            Err(UndoError::Unparsable { key: k, .. }) => k@ == key@ && text_fault(*doc, key@) == Some(false),
        },
{
    let text = match root_item_str(doc, key) {
        Some(t) => t,
        None => {
            return Err(UndoError::Missing(crate::panel::string_of(key)));
        },
    };
    match parse_document(text.as_str()) {
        Ok(d) => Ok(d),
        Err(e) => Err(UndoError::Unparsable { key: crate::panel::string_of(key), message: toml_error_text(&e) }),
    }
}

/// Read back a recorded change: every field must be there, and both
/// recorded texts must parse.
pub fn undo_from_document(doc: &DocumentMut) -> (r: Result<UndoEntry, UndoError>)
    ensures
        reads_back(*doc, r),
{
    let live_previous = if root_item_bool(doc, "live_previous_present") == Some(true) {
        match read_document(doc, "live_previous") {
            Ok(d) => Some(d),
            Err(e) => {
                return Err(e);
            },
        }
    } else {
        None
    };
    let profile_name = match root_item_str(doc, "profile") {
        Some(p) => p,
        None => {
            return Err(UndoError::Missing(crate::panel::string_of("profile")));
        },
    };
    let profile_previous = match read_document(doc, "profile_previous") {
        Ok(d) => d,
        Err(e) => {
            return Err(e);
        },
    };
    let active_profile = match root_item_str(doc, "active_profile") {
        Some(a) => a,
        None => {
            return Err(UndoError::Missing(crate::panel::string_of("active_profile")));
        },
    };
    Ok(UndoEntry { profile_name, profile_previous, live_previous, active_profile })
}

} // verus!
