//! What the database layer computes: statements for several rows, what is known of a track,
//! and how often it may be looked up.

use crate::models::TrackMetadata;
use crate::text::{opt_str, push_text, texts};
use vstd::prelude::*;

verus! {

// ---------------------------------------------------------------------------
// Statements
// ---------------------------------------------------------------------------
/// So many placeholders, with commas between them.
pub open spec fn placeholder_list(n: nat) -> Seq<char>
    decreases n,
{
    if n == 0 {
        Seq::empty()
    } else if n == 1 {
        "?"@
    } else {
        placeholder_list((n - 1) as nat) + ",?"@
    }
}

/// Writes placeholders for a number of values.
pub fn placeholders(n: usize) -> (r: String)
    ensures
        r@ == placeholder_list(n as nat),
{
    let mut r = String::new();
    if n == 0 {
        assert(r@ =~= placeholder_list(0));
        return r;
    }
    push_text(&mut r, "?");
    assert(r@ =~= placeholder_list(1));
    let mut i: usize = 1;
    while i < n
        invariant
            1 <= i <= n,
            r@ == placeholder_list(i as nat),
        decreases n - i,
    {
        push_text(&mut r, ",?");
        i = i + 1;
    }
    r
}

/// How many placeholders a statement has.
pub open spec fn count_placeholders(s: Seq<char>) -> nat
    decreases s.len(),
{
    if s.len() == 0 {
        0
    } else {
        count_placeholders(s.drop_last()) + if s.last() == '?' {
            1nat
        } else {
            0nat
        }
    }
}

/// There is one placeholder for every value.
pub proof fn law_one_placeholder_for_each(n: nat)
    ensures
        count_placeholders(placeholder_list(n)) == n,
    decreases n,
{
    reveal_strlit("?");
    reveal_strlit(",?");
    let s = placeholder_list(n);
    if n == 1 {
        assert(s.drop_last() =~= Seq::<char>::empty());
        assert(count_placeholders(Seq::<char>::empty()) == 0);
    } else if n > 1 {
        let before = placeholder_list((n - 1) as nat);
        law_one_placeholder_for_each((n - 1) as nat);
        assert(s =~= before.push(',').push('?'));
        assert(s.drop_last() =~= before.push(','));
        assert(s.drop_last().drop_last() =~= before);
        assert(before.push(',').drop_last() =~= before);
        assert(count_placeholders(before.push(',')) == count_placeholders(before));
    }
}

/// A change to several rows at once.
#[derive(Debug, Clone, Copy, PartialEq, Eq, Structural)]
pub enum BatchChange {
    /// Items are taken out of a list.
    RemoveFromList,
    /// Items are marked as deleted.
    DeleteItems,
    /// Lists are deleted.
    DeleteLists,
}

/// What stands before the placeholders of a change.
pub open spec fn batch_head(change: BatchChange) -> Seq<char> {
    match change {
        BatchChange::RemoveFromList => "DELETE FROM list_items WHERE list_id = ? AND item_id IN ("@,
        BatchChange::DeleteItems =>
            "UPDATE items SET download_status = 'deleted', download_progress = 0.0 WHERE id IN ("@,
        BatchChange::DeleteLists => "DELETE FROM lists WHERE id IN ("@,
    }
}

/// Writes the statement that changes a number of rows; for none there is no statement.
pub fn batch_statement(change: BatchChange, n: usize) -> (r: Option<String>)
    ensures
        if n == 0 {
            r is None
        } else {
            r matches Some(s) && s@ == batch_head(change) + placeholder_list(n as nat) + ")"@
        },
{
    if n == 0 {
        return None;
    }
    let mut s = match change {
        BatchChange::RemoveFromList =>
            "DELETE FROM list_items WHERE list_id = ? AND item_id IN (".to_owned(),
        BatchChange::DeleteItems =>
            "UPDATE items SET download_status = 'deleted', download_progress = 0.0 WHERE id IN (".to_owned(),
        BatchChange::DeleteLists => "DELETE FROM lists WHERE id IN (".to_owned(),
    };
    let list = placeholders(n);
    push_text(&mut s, list.as_str());
    push_text(&mut s, ")");
    Some(s)
}

/// Writes the pattern that finds a text anywhere.
pub fn anywhere_pattern(text: &str) -> (r: String)
    ensures
        r@ == "%"@ + text@ + "%"@,
{
    let mut r = "%".to_owned();
    push_text(&mut r, text);
    push_text(&mut r, "%");
    r
}

// ---------------------------------------------------------------------------
// Metadata
// ---------------------------------------------------------------------------
/// What `serde_json` writes for a list of texts, where it can.
pub uninterp spec fn json_of_texts(v: Seq<Seq<char>>) -> Option<Seq<char>>;

/// The list of texts that `serde_json` reads from a text, where there is one.
pub uninterp spec fn texts_in_json(s: Seq<char>) -> Option<Seq<Seq<char>>>;

/// `serde_json::to_string` of a list of strings. What it wrote is read back as the same
/// list.
#[verifier::external_body]
fn write_json(v: &Vec<String>) -> (r: Option<String>)
    ensures
        match r {
            Some(s) => json_of_texts(texts(v@)) == Some(s@) && texts_in_json(s@) == Some(
                texts(v@),
            ),
            None => json_of_texts(texts(v@)) is None,
        },
{
    serde_json::to_string(v).ok()
}

/// `serde_json::from_str` to a list of strings.
#[verifier::external_body]
fn read_json(s: &str) -> (r: Option<Vec<String>>)
    ensures
        match r {
            Some(v) => texts_in_json(s@) == Some(texts(v@)),
            None => texts_in_json(s@) is None,
        },
{
    serde_json::from_str(s).ok()
}

/// The list of sources as it is stored, from what `serde_json` wrote: without that, an empty
/// list.
pub fn stored_sources(written: Option<String>) -> (r: String)
    ensures
        r@ == match written {
            Some(s) => s@,
            None => "[]"@,
        },
{
    match written {
        Some(s) => s,
        None => "[]".to_owned(),
    }
}

/// Writes the sources of metadata for storage. What was written is read back as the same
/// sources.
pub fn encode_sources(sources: &Vec<String>) -> (r: String)
    ensures
        match json_of_texts(texts(sources@)) {
            Some(s) => r@ == s && texts_in_json(r@) == Some(texts(sources@)),
            None => r@ == "[]"@,
        },
{
    stored_sources(write_json(sources))
}

/// The sources that are stored, from what `serde_json` read: none where it read nothing.
pub fn restored_sources(read: Option<Vec<String>>) -> (r: Vec<String>)
    ensures
        match read {
            Some(v) => r == v,
            None => r@.len() == 0,
        },
{
    match read {
        Some(v) => v,
        None => Vec::new(),
    }
}

/// Reads the sources of metadata from storage. What is missing or cannot be read is no
/// source.
pub fn decode_sources(stored: Option<&str>) -> (r: Vec<String>)
    ensures
        match opt_str(stored) {
            Some(s) => match texts_in_json(s) {
                Some(v) => texts(r@) == v,
                None => r@.len() == 0,
            },
            None => r@.len() == 0,
        },
{
    match stored {
        Some(s) => restored_sources(read_json(s)),
        None => restored_sources(None),
    }
}

/// The metadata of a row, where anything is known.
pub fn known_metadata(m: TrackMetadata) -> (r: Option<TrackMetadata>)
    ensures
        r == if m.artist is Some || m.title is Some || m.bpm is Some {
            Some(m)
        } else {
            None
        },
{
    if m.is_known() {
        Some(m)
    } else {
        None
    }
}

/// How long metadata is not looked up again: 24 hours, in microseconds.
pub const LOOKUP_INTERVAL: i64 = 86_400_000_000;

/// Whether metadata may be looked up, from the time of the last lookup, if there was one,
/// and the time now, both in microseconds since 1970.
pub fn lookup_allowed(last: Option<i64>, now: i64) -> (r: bool)
    ensures
        r == match last {
            Some(t) => now - t >= LOOKUP_INTERVAL,
            None => true,
        },
{
    match last {
        Some(t) => (now as i128) - (t as i128) >= LOOKUP_INTERVAL as i128,
        None => true,
    }
}

/// Placeholders and commas take turns: a list of placeholders begins and ends with one, and
/// there is one comma between two.
pub proof fn law_placeholders_and_commas_take_turns(n: nat, i: int)
    requires
        n > 0,
        0 <= i < placeholder_list(n).len(),
    ensures
        placeholder_list(n).len() == 2 * n - 1,
        placeholder_list(n)[i] == if i % 2 == 0 {
            '?'
        } else {
            ','
        },
    decreases n,
{
    reveal_strlit("?");
    reveal_strlit(",?");
    if n > 1 {
        let before = placeholder_list((n - 1) as nat);
        assert(before.len() > 0) by {
            if n == 2 {
                assert(before == "?"@);
            }
        }
        law_placeholders_and_commas_take_turns(
            (n - 1) as nat,
            if i < before.len() {
                i
            } else {
                0
            },
        );
        assert(placeholder_list(n) == before + ",?"@);
    }
}

/// Each change names what it changes: items are taken out of the table of lists and items,
/// marked in the table of items, and lists are deleted from their own.
pub proof fn law_changes_name_their_tables(change: BatchChange)
    ensures
        change == BatchChange::RemoveFromList ==> "DELETE FROM list_items WHERE list_id = ?"@
            .is_prefix_of(batch_head(change)),
        change == BatchChange::DeleteItems ==> "UPDATE items SET download_status = 'deleted'"@
            .is_prefix_of(batch_head(change)),
        change == BatchChange::DeleteLists ==> "DELETE FROM lists WHERE"@.is_prefix_of(
            batch_head(change),
        ),
        batch_head(change).last() == '(',
{
    reveal_strlit("DELETE FROM list_items WHERE list_id = ?");
    reveal_strlit("UPDATE items SET download_status = 'deleted'");
    reveal_strlit("DELETE FROM lists WHERE");
    reveal_strlit("DELETE FROM list_items WHERE list_id = ? AND item_id IN (");
    reveal_strlit(
        "UPDATE items SET download_status = 'deleted', download_progress = 0.0 WHERE id IN (",
    );
    reveal_strlit("DELETE FROM lists WHERE id IN (");
    let head = batch_head(change);
    match change {
        BatchChange::RemoveFromList => {
            let p = "DELETE FROM list_items WHERE list_id = ?"@;
            assert(head.subrange(0, p.len() as int) =~= p);
        },
        BatchChange::DeleteItems => {
            let p = "UPDATE items SET download_status = 'deleted'"@;
            assert(head.subrange(0, p.len() as int) =~= p);
        },
        BatchChange::DeleteLists => {
            let p = "DELETE FROM lists WHERE"@;
            assert(head.subrange(0, p.len() as int) =~= p);
        },
    }
}

/// Metadata is looked up once in 24 hours.
pub proof fn law_lookups_wait_a_day()
    ensures
        LOOKUP_INTERVAL == 24 * 60 * 60 * 1_000_000,
{
}

} // verus!
