//! Running searches: where their results are kept and when they end.

use crate::protocol::client::SearchResult;
use std::collections::{HashMap, HashSet};
use vstd::prelude::*;
use vstd::std_specs::hash::group_hash_axioms;

verus! {

broadcast use group_hash_axioms;

/// The searches that are running and the results that came in for them.
pub struct SearchBook {
    active: HashSet<u32>,
    results: HashMap<u32, Vec<SearchResult>>,
}

impl SearchBook {
    /// The tokens of the searches that are running.
    pub closed spec fn active(&self) -> Set<u32> {
        self.active@
    }

    /// The results that are kept, by the token of their search.
    pub closed spec fn results(&self) -> Map<u32, Seq<SearchResult>> {
        self.results@.map_values(|v: Vec<SearchResult>| v@)
    }

    /// No search is running.
    pub fn new() -> (book: SearchBook)
        ensures
            book.active() == Set::<u32>::empty(),
            book.results() == Map::<u32, Seq<SearchResult>>::empty(),
    {
        let book = SearchBook { active: HashSet::new(), results: HashMap::new() };
        assert(book.results() =~= Map::<u32, Seq<SearchResult>>::empty());
        book
    }

    /// Starts a search: its results so far are none.
    pub fn begin(&mut self, token: u32)
        ensures
            final(self).active() == old(self).active().insert(token),
            final(self).results() == old(self).results().insert(token, Seq::empty()),
    {
        self.active.insert(token);
        let none: Vec<SearchResult> = Vec::new();
        self.results.insert(token, none);
        assert(none@ =~= Seq::<SearchResult>::empty());
        assert(self.results() =~= old(self).results().insert(token, Seq::empty()));
    }

    /// Whether any search is running.
    pub fn has_active(&self) -> (r: bool)
        ensures
            r == !self.active().is_empty(),
    {
        !self.active.is_empty()
    }

    /// Keeps a result for the search with the token. A result for a search that is not
    /// running is dropped, and the answer is `false`.
    pub fn deliver(&mut self, token: u32, result: SearchResult) -> (kept: bool)
        ensures
            kept == old(self).active().contains(token),
            final(self).active() == old(self).active(),
            final(self).results() == if kept {
                old(self).results().insert(token, bucket(old(self).results(), token).push(result))
            } else {
                old(self).results()
            },
    {
        if !self.active.contains(&token) {
            return false;
        }
        let mut kept_so_far = match self.results.remove(&token) {
            Some(v) => v,
            None => Vec::new(),
        };
        let ghost before = kept_so_far@;
        assert(before =~= bucket(old(self).results(), token));
        kept_so_far.push(result);
        self.results.insert(token, kept_so_far);
        assert(self.results() =~= old(self).results().insert(token, before.push(result)));
        true
    }

    /// How many results with files have come in for a search.
    pub fn with_files(&self, token: u32) -> (n: usize)
        ensures
            n == count_with_files(bucket(self.results(), token)),
    {
        match self.results.get(&token) {
            Some(v) => {
                assert(self.results()[token] == v@);
                results_with_files(v)
            },
            None => 0,
        }
    }

    /// Takes the results of a search out of the book.
    pub fn collect(&mut self, token: u32) -> (results: Vec<SearchResult>)
        ensures
            results@ == bucket(old(self).results(), token),
            final(self).results() == old(self).results().remove(token),
            final(self).active() == old(self).active(),
    {
        let taken = self.results.remove(&token);
        assert(self.results() =~= old(self).results().remove(token));
        match taken {
            Some(v) => {
                assert(old(self).results()[token] == v@);
                v
            },
            None => {
                let none: Vec<SearchResult> = Vec::new();
                assert(none@ =~= Seq::<SearchResult>::empty());
                none
            },
        }
    }

    /// Ends a search: results that still come in are dropped.
    pub fn finish(&mut self, token: u32)
        ensures
            final(self).active() == old(self).active().remove(token),
            final(self).results() == old(self).results().remove(token),
    {
        self.active.remove(&token);
        self.results.remove(&token);
        assert(self.active() =~= old(self).active().remove(token));
        assert(self.results() =~= old(self).results().remove(token));
    }
}

/// The results that are kept under a token.
pub open spec fn bucket(results: Map<u32, Seq<SearchResult>>, token: u32) -> Seq<SearchResult> {
    if results.dom().contains(token) {
        results[token]
    } else {
        Seq::empty()
    }
}

/// How many of the results have files.
pub open spec fn count_with_files(results: Seq<SearchResult>) -> nat
    decreases results.len(),
{
    if results.len() == 0 {
        0
    } else {
        count_with_files(results.drop_last()) + if results.last().files@.len() > 0 {
            1nat
        } else {
            0nat
        }
    }
}

/// Counts the results that have files.
fn results_with_files(results: &Vec<SearchResult>) -> (n: usize)
    ensures
        n == count_with_files(results@),
{
    let mut n: usize = 0;
    let mut i: usize = 0;
    while i < results.len()
        invariant
            i <= results.len(),
            n <= i,
            n == count_with_files(results@.take(i as int)),
        decreases results.len() - i,
    {
        assert(results@.take(i + 1).drop_last() =~= results@.take(i as int));
        assert(results@.take(i + 1).last() == results@[i as int]);
        if results[i].files.len() > 0 {
            n = n + 1;
        }
        i = i + 1;
    }
    assert(results@.take(i as int) =~= results@);
    n
}

/// Results of one search do not get into another: a result that is delivered to a token
/// leaves the results of every other token as they are.
pub proof fn law_searches_do_not_mix(
    before: Map<u32, Seq<SearchResult>>,
    token: u32,
    other: u32,
    result: SearchResult,
)
    requires
        token != other,
    ensures
        bucket(before.insert(token, bucket(before, token).push(result)), other) == bucket(
            before,
            other,
        ),
{
}

/// The results that are kept after a number of results were delivered to a running search,
/// one after the other.
pub open spec fn after_deliveries(
    results: Map<u32, Seq<SearchResult>>,
    token: u32,
    delivered: Seq<SearchResult>,
) -> Map<u32, Seq<SearchResult>>
    decreases delivered.len(),
{
    if delivered.len() == 0 {
        results
    } else {
        let before = after_deliveries(results, token, delivered.drop_last());
        before.insert(token, bucket(before, token).push(delivered.last()))
    }
}

/// What was delivered to a search while it ran is what it collects, all of it and in order.
pub proof fn law_delivered_results_are_collected(
    before: Map<u32, Seq<SearchResult>>,
    token: u32,
    delivered: Seq<SearchResult>,
)
    ensures
        bucket(
            after_deliveries(before.insert(token, Seq::empty()), token, delivered),
            token,
        ) == delivered,
    decreases delivered.len(),
{
    if delivered.len() > 0 {
        law_delivered_results_are_collected(before, token, delivered.drop_last());
        assert(delivered.drop_last().push(delivered.last()) =~= delivered);
    } else {
        assert(delivered =~= Seq::<SearchResult>::empty());
    }
}

// ---------------------------------------------------------------------------
// When a search ends
// ---------------------------------------------------------------------------
/// A second, in nanoseconds.
pub const SECOND: u128 = 1_000_000_000;

/// Whether a search goes on waiting after `elapsed` of at most `timeout`, with
/// `with_files` results that have files, the last of which came `idle` ago. It ends
/// - when its time is up,
/// - after seven seconds without any result,
/// - after three seconds with ten results,
/// - after three seconds with five results, when none came for two seconds.
pub open spec fn waits_on(elapsed: u128, timeout: u128, idle: u128, with_files: nat) -> bool {
    &&& elapsed < timeout
    &&& !(elapsed > 7 * SECOND && with_files == 0)
    &&& !(elapsed > 3 * SECOND && with_files >= 10)
    &&& !(elapsed > 3 * SECOND && with_files >= 5 && idle > 2 * SECOND)
}

/// Decides whether a search goes on waiting. Times are in nanoseconds.
pub fn keep_waiting(elapsed: u128, timeout: u128, idle: u128, with_files: usize) -> (r: bool)
    ensures
        r == waits_on(elapsed, timeout, idle, with_files as nat),
{
    if elapsed >= timeout {
        return false;
    }
    if elapsed > 7 * SECOND && with_files == 0 {
        return false;
    }
    if elapsed > 3 * SECOND {
        if with_files >= 10 {
            return false;
        }
        if with_files >= 5 && idle > 2 * SECOND {
            return false;
        }
    }
    true
}

/// A search is not cut short in its first three seconds, whatever has come in.
pub proof fn law_searches_have_three_seconds(
    elapsed: u128,
    timeout: u128,
    idle: u128,
    with_files: nat,
)
    requires
        elapsed <= 3 * SECOND,
        elapsed < timeout,
    ensures
        waits_on(elapsed, timeout, idle, with_files),
{
}

/// A search that nobody answered.
#[derive(Debug, Clone, Copy, PartialEq, Eq, Structural)]
pub struct NoResults;

/// Hands the results of a search out; a search without any has failed.
pub fn search_outcome(results: Vec<SearchResult>) -> (r: Result<Vec<SearchResult>, NoResults>)
    ensures
        match r {
            Ok(v) => v@ == results@ && results@.len() > 0,
            Err(_) => results@.len() == 0,
        },
{
    if results.is_empty() {
        Err(NoResults)
    } else {
        Ok(results)
    }
}

/// Whether a request of the server to connect to a peer is followed: only while a search
/// is running or files are shared.
pub fn follow_connect_request(has_active_searches: bool, has_sharing: bool) -> (r: bool)
    ensures
        r == (has_active_searches || has_sharing),
{
    has_active_searches || has_sharing
}

/// A search ends when its time is up; after seven seconds without a result; after three
/// seconds with ten results; after three seconds with five of them, when none has come for
/// two seconds; and never otherwise.
pub proof fn law_searches_end(elapsed: u128, timeout: u128, idle: u128, with_files: nat)
    ensures
        elapsed >= timeout ==> !waits_on(elapsed, timeout, idle, with_files),
        elapsed > 7_000_000_000 && with_files == 0 ==> !waits_on(
            elapsed,
            timeout,
            idle,
            with_files,
        ),
        elapsed > 3_000_000_000 && with_files >= 10 ==> !waits_on(
            elapsed,
            timeout,
            idle,
            with_files,
        ),
        elapsed > 3_000_000_000 && with_files >= 5 && idle > 2_000_000_000 ==> !waits_on(
            elapsed,
            timeout,
            idle,
            with_files,
        ),
        elapsed < timeout && elapsed <= 7_000_000_000 && with_files == 0 ==> waits_on(
            elapsed,
            timeout,
            idle,
            with_files,
        ),
        elapsed < timeout && 1 <= with_files <= 4 ==> waits_on(elapsed, timeout, idle, with_files),
        elapsed < timeout && 5 <= with_files <= 9 && idle <= 2_000_000_000 ==> waits_on(
            elapsed,
            timeout,
            idle,
            with_files,
        ),
{
}

/// What is counted are the results that have files, each once.
pub proof fn law_results_with_files_are_counted(
    a: Seq<SearchResult>,
    b: Seq<SearchResult>,
    result: SearchResult,
)
    ensures
        count_with_files(a + b) == count_with_files(a) + count_with_files(b),
        count_with_files(seq![result]) == if result.files@.len() > 0 {
            1nat
        } else {
            0nat
        },
    decreases b.len(),
{
    assert(seq![result].drop_last() =~= Seq::<SearchResult>::empty());
    assert(count_with_files(Seq::<SearchResult>::empty()) == 0);
    assert(seq![result].last() == result);
    if b.len() == 0 {
        assert(a + b =~= a);
    } else {
        law_results_with_files_are_counted(a, b.drop_last(), result);
        assert((a + b).drop_last() =~= a + b.drop_last());
        assert((a + b).last() == b.last());
    }
}

} // verus!
