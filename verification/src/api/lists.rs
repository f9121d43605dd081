//! Lists: when one can be downloaded, and how the archive is named.

use crate::api::{refuse, refused, Refusal};
use crate::text::{decimal, push_decimal, push_signed, push_text, same_text, signed_decimal, texts};
use vstd::prelude::*;

verus! {

/// Batch delete request
pub struct BatchDeleteRequest {
    pub ids: Vec<i64>,
}

/// Batch remove items from list request
pub struct BatchRemoveItemsRequest {
    pub item_ids: Vec<i64>,
}

/// Rename list request
pub struct RenameListRequest {
    pub name: String,
}

/// How many of the statuses are not that of a completed item.
pub open spec fn incomplete(statuses: Seq<Seq<char>>) -> nat
    decreases statuses.len(),
{
    if statuses.len() == 0 {
        0
    } else {
        incomplete(statuses.drop_last()) + if statuses.last() == "completed"@ {
            0nat
        } else {
            1nat
        }
    }
}

/// Every item of a list is there exactly where none is incomplete.
pub proof fn law_nothing_incomplete_is_all_completed(statuses: Seq<Seq<char>>)
    ensures
        incomplete(statuses) == 0 <==> forall|i: int|
            0 <= i < statuses.len() ==> #[trigger] statuses[i] == "completed"@,
        incomplete(statuses) <= statuses.len(),
    decreases statuses.len(),
{
    if statuses.len() > 0 {
        let rest = statuses.drop_last();
        law_nothing_incomplete_is_all_completed(rest);
        assert(forall|i: int| 0 <= i < rest.len() ==> #[trigger] rest[i] == statuses[i]);
        if incomplete(statuses) == 0 {
            assert forall|i: int| 0 <= i < statuses.len() implies #[trigger] statuses[i]
                == "completed"@ by {
                if i < rest.len() {
                    assert(rest[i] == "completed"@);
                }
            }
        }
        if forall|i: int| 0 <= i < statuses.len() ==> #[trigger] statuses[i] == "completed"@ {
            assert forall|i: int| 0 <= i < rest.len() implies #[trigger] rest[i]
                == "completed"@ by {
                assert(statuses[i] == "completed"@);
            }
            assert(statuses[statuses.len() - 1] == "completed"@);
        }
    }
}

/// Counts the items of a list that are not completed, from their statuses.
pub fn count_incomplete(statuses: &Vec<String>) -> (n: usize)
    ensures
        n == incomplete(texts(statuses@)),
{
    let mut n: usize = 0;
    let mut i: usize = 0;
    let ghost all = texts(statuses@);
    while i < statuses.len()
        invariant
            i <= statuses.len(),
            all == texts(statuses@),
            n == incomplete(all.take(i as int)),
            n <= i,
        decreases statuses.len() - i,
    {
        assert(all.take(i + 1).drop_last() =~= all.take(i as int));
        assert(all.take(i + 1).last() == statuses@[i as int]@);
        if !same_text(statuses[i].as_str(), "completed") {
            n = n + 1;
        }
        i = i + 1;
    }
    assert(all.take(i as int) =~= all);
    n
}

/// Checks that a list can be downloaded: all of its items have to be there.
pub fn check_complete(statuses: &Vec<String>) -> (r: Result<(), Refusal>)
    ensures
        if incomplete(texts(statuses@)) == 0 {
            r is Ok
        } else {
            refused(
                r,
                409,
                decimal(incomplete(texts(statuses@))) + " items not yet downloaded"@,
            )
        },
{
    let n: usize = count_incomplete(statuses);
    if n == 0 {
        return Ok(());
    }
    let mut error = String::new();
    push_decimal(&mut error, n as u64);
    push_text(&mut error, " items not yet downloaded");
    assert(error@ =~= decimal(n as nat) + " items not yet downloaded"@);
    Err(Refusal { status: 409, error })
}

/// Names the archive of a list while it is made.
pub fn archive_name(list_id: i64) -> (r: String)
    ensures
        r@ == "list_"@ + signed_decimal(list_id as int) + ".zip"@,
{
    let mut r = "list_".to_owned();
    push_signed(&mut r, list_id);
    push_text(&mut r, ".zip");
    r
}

/// Tells a browser to store the archive of a list under the name of the list.
pub fn archive_disposition(list_name: &str) -> (r: String)
    ensures
        r@ == "attachment; filename=\""@ + list_name@ + ".zip\""@,
{
    let mut r = "attachment; filename=\"".to_owned();
    push_text(&mut r, list_name);
    push_text(&mut r, ".zip\"");
    r
}

/// A step of making an archive that can fail.
#[derive(Debug, Clone, Copy, PartialEq, Eq, Structural)]
pub enum ArchiveStep {
    /// The file of the archive is created.
    Create,
    /// An entry is begun.
    Begin,
    /// The file of an item is read.
    Read,
    /// The file of an item is written to the archive.
    Write,
    /// The archive is finished.
    Finish,
    /// The finished archive is opened.
    Open,
}

/// Says what a client is told when a step of making an archive fails.
pub fn archive_failure(step: ArchiveStep) -> (r: Refusal)
    ensures
        r@.status == 500,
        r@.error == match step {
            ArchiveStep::Read => "Failed to read file"@,
            ArchiveStep::Open => "Failed to open zip file"@,
            _ => "Failed to create zip file"@,
        },
{
    match step {
        ArchiveStep::Read => refuse(500, "Failed to read file"),
        ArchiveStep::Open => refuse(500, "Failed to open zip file"),
        _ => refuse(500, "Failed to create zip file"),
    }
}

/// What is counted as incomplete are the statuses other than that of a completed item, each
/// once: two stretches of a list have as many of them as each of the two, a completed item
/// adds none and every other one adds one.
pub proof fn law_incomplete_items_are_counted(
    a: Seq<Seq<char>>,
    b: Seq<Seq<char>>,
    status: Seq<char>,
)
    ensures
        incomplete(a + b) == incomplete(a) + incomplete(b),
        incomplete(seq![status]) == if status == "completed"@ {
            0nat
        } else {
            1nat
        },
    decreases b.len(),
{
    assert(seq![status].drop_last() =~= Seq::<Seq<char>>::empty());
    assert(incomplete(Seq::<Seq<char>>::empty()) == 0);
    assert(seq![status].last() == status);
    if b.len() == 0 {
        assert(a + b =~= a);
    } else {
        law_incomplete_items_are_counted(a, b.drop_last(), status);
        assert((a + b).drop_last() =~= a + b.drop_last());
        assert((a + b).last() == b.last());
    }
}

} // verus!
