//! Offline reference lookup: case-insensitive substring search over curated
//! entries (GLSL builtins and common shader gotchas).

use vstd::prelude::*;

use crate::text::{
    ascii_lowercase, find_substring, has_substring, spec_to_lowercase, str_chars, to_lowercase,
};

verus! {

broadcast use vstd::string::group_string_axioms;

/// One reference entry.
pub struct RefEntry {
    pub name: String,
    /// Signature, empty where the entry has none.
    pub sig: String,
    pub note: String,
}

/// The entry's name, note or signature contains the query, all compared in lowercase.
pub open spec fn entry_matches(e: RefEntry, query: Seq<char>) -> bool {
    let q = spec_to_lowercase(query);
    ||| has_substring(spec_to_lowercase(e.name@), q)
    ||| has_substring(spec_to_lowercase(e.note@), q)
    ||| has_substring(spec_to_lowercase(e.sig@), q)
}

/// The entries that match the query, in the order they were given.
pub open spec fn matching_entries(entries: Seq<RefEntry>, query: Seq<char>) -> Seq<RefEntry>
    decreases entries.len(),
{
    if entries.len() == 0 {
        Seq::empty()
    } else {
        let rest = matching_entries(entries.drop_last(), query);
        if entry_matches(entries.last(), query) {
            rest.push(entries.last())
        } else {
            rest
        }
    }
}

fn copy_entry(e: &RefEntry) -> (c: RefEntry)
    ensures
        c == *e,
{
    RefEntry { name: e.name.clone(), sig: e.sig.clone(), note: e.note.clone() }
}

fn matches_query(e: &RefEntry, lowered_query: &[char]) -> (m: bool)
    requires
        exists|q: Seq<char>| lowered_query@ == spec_to_lowercase(q),
    ensures
        forall|q: Seq<char>| lowered_query@ == spec_to_lowercase(q) ==> m == entry_matches(*e, q),
{
    let name = str_chars(to_lowercase(e.name.as_str()).as_str());
    let note = str_chars(to_lowercase(e.note.as_str()).as_str());
    let sig = str_chars(to_lowercase(e.sig.as_str()).as_str());
    find_substring(name.as_slice(), lowered_query) || find_substring(note.as_slice(), lowered_query)
        || find_substring(sig.as_slice(), lowered_query)
}

/// Case-insensitive substring search over reference entries: every entry whose
/// name, note or signature contains the query, in order. The answer depends on
/// the query only through its ASCII lowercase form, so queries that differ in
/// ASCII case alone (see `lemma_ascii_uppercase_folds`) find the same entries.
pub fn lookup(entries: &Vec<RefEntry>, query: &str) -> (found: Vec<RefEntry>)
    ensures
        found@ == matching_entries(entries@, query@),
        found@ == matching_entries(entries@, ascii_lowercase(query@)),
{
    let q = str_chars(to_lowercase(query).as_str());
    let mut found: Vec<RefEntry> = Vec::new();
    let mut i: usize = 0;
    while i < entries.len()
        invariant
            i <= entries@.len(),
            q@ == spec_to_lowercase(query@),
            found@ == matching_entries(entries@.take(i as int), query@),
        decreases entries@.len() - i,
    {
        assert(entries@.take(i + 1).drop_last() =~= entries@.take(i as int));
        assert(entries@.take(i + 1).last() == entries@[i as int]);
        if matches_query(&entries[i], q.as_slice()) {
            found.push(copy_entry(&entries[i]));
        }
        i += 1;
    }
    assert(entries@.take(entries@.len() as int) =~= entries@);
    proof {
        lemma_lookup_case_insensitive(entries@, query@, ascii_lowercase(query@));
    }
    found
}

/// Every entry found matches the query, and every matching entry is found:
/// lookup neither invents nor drops entries.
pub proof fn lemma_lookup_exact(entries: Seq<RefEntry>, query: Seq<char>)
    ensures
        forall|e: RefEntry|
            matching_entries(entries, query).contains(e) <==> (entries.contains(e) && entry_matches(
                e,
                query,
            )),
        matching_entries(entries, query).len() <= entries.len(),
    decreases entries.len(),
{
    if entries.len() > 0 {
        lemma_lookup_exact(entries.drop_last(), query);
        let rest = matching_entries(entries.drop_last(), query);
        assert forall|e: RefEntry|
            matching_entries(entries, query).contains(e) <==> (entries.contains(e) && entry_matches(
                e,
                query,
            )) by {
            if entries.contains(e) {
                let k = choose|k: int| 0 <= k < entries.len() && entries[k] == e;
                if k < entries.len() - 1 {
                    assert(entries.drop_last()[k] == e);
                }
            }
            if entries.drop_last().contains(e) {
                let k = choose|k: int| 0 <= k < entries.drop_last().len() && entries.drop_last()[k] == e;
                assert(entries[k] == e);
            }
            if entry_matches(entries.last(), query) {
                assert(rest.push(entries.last())[rest.len() as int] == entries.last());
                if rest.contains(e) {
                    let k = choose|k: int| 0 <= k < rest.len() && rest[k] == e;
                    assert(rest.push(entries.last())[k] == e);
                }
                if rest.push(entries.last()).contains(e) {
                    let k = choose|k: int| 0 <= k < rest.len() + 1 && rest.push(entries.last())[k] == e;
                    if k < rest.len() {
                        assert(rest[k] == e);
                    }
                }
            }
        }
    }
}

/// Lookup is case-insensitive: queries with the same lowercase form find the
/// same entries.
pub proof fn lemma_lookup_case_insensitive(entries: Seq<RefEntry>, q1: Seq<char>, q2: Seq<char>)
    requires
        spec_to_lowercase(q1) == spec_to_lowercase(q2),
    ensures
        matching_entries(entries, q1) == matching_entries(entries, q2),
    decreases entries.len(),
{
    if entries.len() > 0 {
        lemma_lookup_case_insensitive(entries.drop_last(), q1, q2);
    }
}

/// Matching ignores case in every field: an entry is found exactly when the
/// lowercase form of its name, of its note or of its signature contains the
/// lowercase query.
pub proof fn lemma_lookup_compares_lowercase_fields(
    entries: Seq<RefEntry>,
    query: Seq<char>,
    e: RefEntry,
)
    requires
        entries.contains(e),
    ensures
        matching_entries(entries, query).contains(e) <==> {
            ||| has_substring(spec_to_lowercase(e.name@), spec_to_lowercase(query))
            ||| has_substring(spec_to_lowercase(e.note@), spec_to_lowercase(query))
            ||| has_substring(spec_to_lowercase(e.sig@), spec_to_lowercase(query))
        },
{
    lemma_lookup_exact(entries, query);
}

} // verus!
