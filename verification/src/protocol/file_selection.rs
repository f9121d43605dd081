//! File selection and scoring for search results
//!
//! This module provides query parsing, fuzzy matching, and file scoring
//! to select the best file from search results. Scores are exact: a point is divided
//! into the smallest parts that a speed or a queue length can make, and a shared share
//! of words is kept as a fraction.

use crate::protocol::client::SearchResult;
use crate::protocol::messages::{first_attribute, SearchFile};
use crate::text::{
    alphanumeric, ascii, ascii_lower, ascii_text, chars_of, contains, ends_with, find,
    is_alphanumeric, is_numeric, is_whitespace, is_word, join_words, joined, last_of, lemma_joined_is_made_of,
    lemma_words_of, lemma_words_of_joined, lowercase, made_of, numeric, occurs, occurs_at, opt_str,
    opt_text, same_ignoring_case, same_text, split_words, strip_start, texts, to_lowercase, trim_part, trimmed,
    whitespace, words,
};
use vstd::prelude::*;

verus! {

// ---------------------------------------------------------------------------
// Queries
// ---------------------------------------------------------------------------
/// The separator between artist and title.
pub open spec fn separator() -> Seq<char> {
    seq![' ', '-', ' ']
}

/// The separator stands first at `i`.
pub open spec fn splits_at(query: Seq<char>, i: int) -> bool {
    occurs_at(query, separator(), i) && forall|j: int|
        0 <= j < i ==> !occurs_at(query, separator(), j)
}

/// The title that a query asks for: what follows the first separator, or else all of it.
pub open spec fn query_title(query: Seq<char>) -> Seq<char> {
    if occurs(query, separator()) {
        let i = choose|i: int| splits_at(query, i);
        lowercase(trimmed(query.skip(i + 3)))
    } else {
        lowercase(trimmed(query))
    }
}

/// The artist that a query names: what precedes the first separator, if there is one.
pub open spec fn query_artist(query: Seq<char>) -> Option<Seq<char>> {
    if occurs(query, separator()) {
        let i = choose|i: int| splits_at(query, i);
        Some(lowercase(trimmed(query.take(i))))
    } else {
        None
    }
}

/// The first position of the separator is the only first one.
proof fn lemma_splits_once(query: Seq<char>, i: int)
    requires
        splits_at(query, i),
    ensures
        occurs(query, separator()),
        (choose|k: int| splits_at(query, k)) == i,
{
    let k = choose|k: int| splits_at(query, k);
    assert(splits_at(query, k));
    if k < i {
        assert(!occurs_at(query, separator(), k));
    }
    if i < k {
        assert(!occurs_at(query, separator(), i));
    }
}

/// Parse a search query in "{artist} - {title}" format
/// Returns (artist, title) where either may be None
pub fn parse_query(query: &str) -> (r: (Option<String>, Option<String>))
    ensures
        opt_text(r.0) == query_artist(query@),
        opt_text(r.1) == Some(query_title(query@)),
{
    let chars = chars_of(query);
    let mut dash: Vec<char> = Vec::new();
    dash.push(' ');
    dash.push('-');
    dash.push(' ');
    assert(dash@ =~= separator());
    match find(&chars, &dash) {
        Some(i) => {
            proof {
                lemma_splits_once(query@, i as int);
                assert(query@.subrange(0, i as int) =~= query@.take(i as int));
                assert(query@.subrange(i + 3, query@.len() as int) =~= query@.skip(i + 3));
            }
            let artist = trim_part(&chars, 0, i);
            let title = trim_part(&chars, i + 3, chars.len());
            (Some(to_lowercase(artist.as_str())), Some(to_lowercase(title.as_str())))
        },
        None => {
            assert(query@.subrange(0, query@.len() as int) =~= query@);
            let title = trim_part(&chars, 0, chars.len());
            (None, Some(to_lowercase(title.as_str())))
        },
    }
}

// ---------------------------------------------------------------------------
// Normal forms
// ---------------------------------------------------------------------------
/// Being a letter, a digit or whitespace, as a predicate.
pub open spec fn kept() -> spec_fn(char) -> bool {
    |c: char| alphanumeric(c) || whitespace(c)
}

/// The words that are compared: lower case, letters and digits only.
pub open spec fn matching_words(s: Seq<char>) -> Seq<Seq<char>> {
    words(lowercase(s).filter(kept()))
}

/// The normal form of a text: its words with one space between two.
pub open spec fn normalized(s: Seq<char>) -> Seq<char> {
    joined(matching_words(s))
}

/// Normalize a string for fuzzy matching
/// Lowercases, removes non-alphanumeric chars, normalizes whitespace
pub fn normalize_for_matching(s: &str) -> (r: String)
    ensures
        r@ == normalized(s@),
{
    let lower = chars_of(to_lowercase(s).as_str());
    let mut plain: Vec<char> = Vec::new();
    let mut i: usize = 0;
    assert(lower@.take(0).filter(kept()) =~= Seq::<char>::empty());
    while i < lower.len()
        invariant
            i <= lower.len(),
            plain@ == lower@.take(i as int).filter(kept()),
        decreases lower.len() - i,
    {
        let c = lower[i];
        assert(lower@.take(i + 1).drop_last() =~= lower@.take(i as int));
        reveal(Seq::filter);
        if is_alphanumeric(c) || is_whitespace(c) {
            plain.push(c);
        }
        i = i + 1;
    }
    assert(lower@.take(lower@.len() as int) =~= lower@);
    join_words(&split_words(&plain))
}

/// What follows the last character of which `p` holds, or all of it.
pub open spec fn after_last(s: Seq<char>, p: spec_fn(char) -> bool) -> Seq<char>
    decreases s.len(),
{
    if s.len() == 0 || p(s.last()) {
        Seq::empty()
    } else {
        after_last(s.drop_last(), p).push(s.last())
    }
}

/// Where the last `c` stands, or -1 where there is none.
pub open spec fn last_position(s: Seq<char>, c: char) -> int
    decreases s.len(),
{
    if s.len() == 0 {
        -1
    } else if s.last() == c {
        s.len() - 1
    } else {
        last_position(s.drop_last(), c)
    }
}

/// What precedes the last `c`, or all of it where there is none.
pub open spec fn before_last(s: Seq<char>, c: char) -> Seq<char> {
    if last_position(s, c) >= 0 {
        s.take(last_position(s, c))
    } else {
        s
    }
}

/// A position of `c` after which there is no other is the last one.
pub proof fn lemma_last_position(s: Seq<char>, c: char, k: int)
    requires
        -1 <= k < s.len(),
        k >= 0 ==> s[k] == c,
        forall|j: int| k < j < s.len() ==> s[j] != c,
    ensures
        last_position(s, c) == k,
    decreases s.len(),
{
    if s.len() > 0 && s.last() != c {
        assert forall|j: int| k < j < s.drop_last().len() implies s.drop_last()[j] != c by {
            assert(s.drop_last()[j] == s[j]);
        }
        lemma_last_position(s.drop_last(), c, k);
    }
}

/// Being a path separator, as a predicate.
pub open spec fn slash() -> spec_fn(char) -> bool {
    |c: char| c == '/' || c == '\\'
}

/// Being numeric, as a predicate.
pub open spec fn number() -> spec_fn(char) -> bool {
    |c: char| numeric(c)
}

/// Standing between a track number and a title, as a predicate.
pub open spec fn filler() -> spec_fn(char) -> bool {
    |c: char| c == ' ' || c == '-' || c == '.' || c == '_'
}

/// The title in a file name: without folders, extension, track number and what sets the
/// number off, in normal form.
pub open spec fn track_name(filename: Seq<char>) -> Seq<char> {
    let stem = before_last(after_last(filename, slash()), '.');
    normalized(trimmed(strip_start(strip_start(stem, number()), filler())))
}

/// What follows the last position at which `p` holds.
pub proof fn lemma_after_last(s: Seq<char>, p: spec_fn(char) -> bool, from: int)
    requires
        0 <= from <= s.len(),
        from > 0 ==> p(s[from - 1]),
        forall|j: int| from <= j < s.len() ==> !p(s[j]),
    ensures
        after_last(s, p) == s.skip(from),
    decreases s.len(),
{
    if s.len() > from {
        assert forall|j: int| from <= j < s.drop_last().len() implies !p(s.drop_last()[j]) by {
            assert(s.drop_last()[j] == s[j]);
        }
        lemma_after_last(s.drop_last(), p, from);
        assert(s.drop_last().skip(from).push(s.last()) =~= s.skip(from));
    } else {
        assert(s.skip(from) =~= Seq::<char>::empty());
    }
}

/// Extract the track name from a filename (strip path, number prefix, extension)
pub fn extract_track_name(filename: &str) -> (r: String)
    ensures
        r@ == track_name(filename@),
{
    let chars = chars_of(filename);
    let len: usize = chars.len();
    let from: usize = match last_of(&chars, 0, len, '/', '\\') {
        Some(i) => i + 1,
        None => 0,
    };
    let ghost base = filename@.skip(from as int);
    proof {
        lemma_after_last(filename@, slash(), from as int);
    }
    let to: usize = match last_of(&chars, from, len, '.', '.') {
        Some(i) => i,
        None => len,
    };
    let ghost stem = before_last(base, '.');
    proof {
        assert forall|j: int| 0 <= j < base.len() implies base[j] == filename@[from + j] by {
        }
        lemma_last_position(
            base,
            '.',
            if to < len {
                to - from
            } else {
                -1
            },
        );
        assert(stem =~= filename@.subrange(from as int, to as int));
    }
    let mut start: usize = from;
    while start < to && is_numeric(chars[start])
        invariant
            from <= start <= to <= chars.len(),
            stem == chars@.subrange(from as int, to as int),
            strip_start(chars@.subrange(start as int, to as int), number()) == strip_start(
                stem,
                number(),
            ),
        decreases to - start,
    {
        assert(chars@.subrange(start as int, to as int).skip(1) =~= chars@.subrange(
            start + 1,
            to as int,
        ));
        start = start + 1;
    }
    let ghost unnumbered = strip_start(stem, number());
    assert(chars@.subrange(start as int, to as int) == unnumbered);
    while start < to && (chars[start] == ' ' || chars[start] == '-' || chars[start] == '.'
        || chars[start] == '_')
        invariant
            from <= start <= to <= chars.len(),
            strip_start(chars@.subrange(start as int, to as int), filler()) == strip_start(
                unnumbered,
                filler(),
            ),
        decreases to - start,
    {
        assert(chars@.subrange(start as int, to as int).skip(1) =~= chars@.subrange(
            start + 1,
            to as int,
        ));
        start = start + 1;
    }
    let name = trim_part(&chars, start, to);
    normalize_for_matching(name.as_str())
}

// ---------------------------------------------------------------------------
// How well a title matches
// ---------------------------------------------------------------------------
/// A share between nothing and all of a perfect match, as a fraction.
#[derive(Debug, Clone, Copy, PartialEq, Eq, Structural)]
pub struct TitleScore {
    pub numerator: u128,
    pub denominator: u128,
}

/// The distinct words of a normal form.
pub open spec fn word_set(s: Seq<char>) -> Set<Seq<char>> {
    words(s).to_set()
}

/// How many words two normal forms share.
pub open spec fn shared_words(a: Seq<char>, b: Seq<char>) -> nat {
    word_set(a).intersect(word_set(b)).len()
}

/// How many words two normal forms have together.
pub open spec fn all_words(a: Seq<char>, b: Seq<char>) -> nat {
    word_set(a).union(word_set(b)).len()
}

/// The tenths of a perfect match that a normalized track name earns against a normalized
/// title, as a numerator and a denominator: ten where they are the same, nine where the
/// track name contains the title, seven where the title contains the track name, and else
/// six times the words they share among the words of both.
pub open spec fn title_tenths(track: Seq<char>, expected: Seq<char>) -> (int, int) {
    if track.len() == 0 || expected.len() == 0 {
        (0, 1)
    } else if track == expected {
        (10, 1)
    } else if occurs(track, expected) {
        (9, 1)
    } else if occurs(expected, track) {
        (7, 1)
    } else if shared_words(track, expected) > 0 {
        (6 * shared_words(track, expected) as int, all_words(track, expected) as int)
    } else {
        (0, 1)
    }
}

/// The words of a text, each once.
fn distinct(w: &Vec<String>) -> (r: Vec<String>)
    ensures
        texts(r@).no_duplicates(),
        texts(r@).to_set() == texts(w@).to_set(),
        r.len() <= w.len(),
{
    let mut r: Vec<String> = Vec::new();
    let mut i: usize = 0;
    assert(texts(r@).to_set() =~= texts(w@).take(0).to_set());
    while i < w.len()
        invariant
            i <= w.len(),
            r.len() <= i,
            texts(r@).no_duplicates(),
            texts(r@).to_set() == texts(w@).take(i as int).to_set(),
        decreases w.len() - i,
    {
        let ghost t = texts(w@);
        let ghost before = r@;
        let x = w[i].clone();
        proof {
            assert(t.take(i + 1) =~= t.take(i as int).push(x@));
            lemma_push_to_set(t.take(i as int), x@);
            lemma_push_to_set(texts(before), x@);
        }
        if !holds(&r, x.as_str()) {
            r.push(x);
            assert(texts(r@) =~= texts(before).push(x@));
            assert(!texts(before).contains(x@));
        } else {
            assert(texts(r@).to_set().contains(x@));
            assert(texts(r@).to_set().insert(x@) =~= texts(r@).to_set());
        }
        i = i + 1;
    }
    assert(texts(w@).take(w@.len() as int) =~= texts(w@));
    r
}

/// Pushing an element puts it into the set of elements.
proof fn lemma_push_to_set<T>(s: Seq<T>, x: T)
    ensures
        s.push(x).to_set() == s.to_set().insert(x),
{
    assert forall|y: T| s.push(x).to_set().contains(y) == s.to_set().insert(x).contains(y) by {
        if s.contains(y) {
            let k = choose|k: int| 0 <= k < s.len() && s[k] == y;
            assert(s.push(x)[k] == y);
        }
        assert(s.push(x)[s.len() as int] == x);
    }
    assert(s.push(x).to_set() =~= s.to_set().insert(x));
}

/// Whether a text is among the words.
fn holds(w: &Vec<String>, x: &str) -> (r: bool)
    ensures
        r == texts(w@).contains(x@),
{
    let mut i: usize = 0;
    while i < w.len()
        invariant
            i <= w.len(),
            forall|j: int| 0 <= j < i ==> texts(w@)[j] != x@,
        decreases w.len() - i,
    {
        if same_text(w[i].as_str(), x) {
            assert(texts(w@)[i as int] == x@);
            return true;
        }
        i = i + 1;
    }
    false
}

/// How many of the distinct words `a` are among `b`.
fn count_shared(a: &Vec<String>, b: &Vec<String>) -> (n: usize)
    requires
        texts(a@).no_duplicates(),
    ensures
        n == texts(a@).to_set().intersect(texts(b@).to_set()).len(),
        n <= a.len(),
{
    let mut n: usize = 0;
    let mut i: usize = 0;
    let ghost t = texts(a@);
    let ghost other = texts(b@).to_set();
    assert(t.take(0).to_set().intersect(other) =~= Set::<Seq<char>>::empty());
    while i < a.len()
        invariant
            i <= a.len(),
            n <= i,
            t == texts(a@),
            t.no_duplicates(),
            other == texts(b@).to_set(),
            n == t.take(i as int).to_set().intersect(other).len(),
        decreases a.len() - i,
    {
        let ghost sofar = t.take(i as int).to_set().intersect(other);
        let ghost x = t[i as int];
        proof {
            assert(t.take(i + 1) =~= t.take(i as int).push(x));
            lemma_push_to_set(t.take(i as int), x);
            assert(!t.take(i as int).contains(x));
            assert(sofar.finite()) by {
                vstd::seq_lib::seq_to_set_is_finite(t.take(i as int));
            }
        }
        if holds(b, a[i].as_str()) {
            assert(t.take(i + 1).to_set().intersect(other) =~= sofar.insert(x));
            n = n + 1;
        } else {
            assert(t.take(i + 1).to_set().intersect(other) =~= sofar);
        }
        i = i + 1;
    }
    assert(t.take(a@.len() as int) =~= t);
    n
}

/// The size of the union of two finite sets, and what the shared words are bounded by.
proof fn lemma_word_counts(a: Seq<char>, b: Seq<char>)
    ensures
        all_words(a, b) + shared_words(a, b) == word_set(a).len() + word_set(b).len(),
        shared_words(a, b) <= word_set(a).len(),
        shared_words(a, b) <= word_set(b).len(),
        2 * word_set(a).len() <= a.len() + 1,
        2 * word_set(b).len() <= b.len() + 1,
{
    vstd::seq_lib::seq_to_set_is_finite(words(a));
    vstd::seq_lib::seq_to_set_is_finite(words(b));
    vstd::set_lib::lemma_set_intersect_union_lens(word_set(a), word_set(b));
    assert(word_set(a) + word_set(b) == word_set(a).union(word_set(b)));
    vstd::set_lib::lemma_len_intersect(word_set(a), word_set(b));
    vstd::set_lib::lemma_len_intersect(word_set(b), word_set(a));
    assert(word_set(a).intersect(word_set(b)) =~= word_set(b).intersect(word_set(a)));
    words(a).lemma_cardinality_of_set();
    words(b).lemma_cardinality_of_set();
    crate::text::lemma_few_words(a);
    crate::text::lemma_few_words(b);
}

/// Score how well a filename matches the expected title (0.0 = no match, 1.0 = perfect)
pub fn score_title_match(filename: &str, expected_title: &str) -> (r: TitleScore)
    ensures
        r.numerator == title_tenths(track_name(filename@), normalized(expected_title@)).0,
        r.denominator == 10 * title_tenths(track_name(filename@), normalized(expected_title@)).1,
        r.denominator >= 10,
        r.denominator % 10 == 0,
        r.denominator <= 10 * 0x1_0000_0000_0000_0000,
        r.numerator <= r.denominator,
{
    let track = extract_track_name(filename);
    let expected = normalize_for_matching(expected_title);
    let track_chars = chars_of(track.as_str());
    let expected_chars = chars_of(expected.as_str());
    if track_chars.len() == 0 || expected_chars.len() == 0 {
        return TitleScore { numerator: 0, denominator: 10 };
    }
    if same_text(track.as_str(), expected.as_str()) {
        return TitleScore { numerator: 10, denominator: 10 };
    }
    if contains(track.as_str(), expected.as_str()) {
        return TitleScore { numerator: 9, denominator: 10 };
    }
    if contains(expected.as_str(), track.as_str()) {
        return TitleScore { numerator: 7, denominator: 10 };
    }
    let track_words = distinct(&split_words(&track_chars));
    let expected_words = distinct(&split_words(&expected_chars));
    let shared: usize = count_shared(&track_words, &expected_words);
    proof {
        lemma_word_counts(track@, expected@);
        texts(track_words@).unique_seq_to_set();
        texts(expected_words@).unique_seq_to_set();
    }
    if shared > 0 {
        let total: u128 = track_words.len() as u128 + expected_words.len() as u128
            - shared as u128;
        TitleScore { numerator: 6 * shared as u128, denominator: 10 * total }
    } else {
        TitleScore { numerator: 0, denominator: 10 }
    }
}

// ---------------------------------------------------------------------------
// Scores
// ---------------------------------------------------------------------------
/// How many parts make a point: the smallest that a speed in bytes per second (a
/// 1048576th of 20 points) and a queue length (a tenth of a point) can need.
pub const PARTS: i64 = 10_485_760;

/// The smallest file that counts as a track, in bytes.
pub const TRACK_MIN: u64 = 1_048_576;

/// The largest file that counts as a track, in bytes.
pub const TRACK_MAX: u64 = 52_428_800;

/// A score: whole parts of a point, and `rem` of `of` parts more.
#[derive(Debug, Clone, Copy, PartialEq, Eq, Structural)]
pub struct Score {
    pub units: i64,
    pub rem: u128,
    pub of: u128,
}

impl Score {
    /// The fraction is below one, and the numbers are small enough to compare.
    pub open spec fn well_formed(self) -> bool {
        &&& self.rem < self.of <= 0x1_0000_0000_0000_0000
        &&& -1_000_000_000_000 <= self.units <= 1_000_000_000_000
    }

    /// The score in parts, times its denominator.
    pub open spec fn scaled(self) -> int {
        self.units * self.of + self.rem
    }

    /// The score as a fraction of parts.
    pub open spec fn value(self) -> (int, int) {
        (self.scaled(), self.of as int)
    }

    /// No points at all.
    pub fn zero() -> (s: Score)
        ensures
            s.well_formed(),
            s.value() == (0int, 1int),
    {
        Score { units: 0, rem: 0, of: 1 }
    }

    /// Whether this score is higher than another.
    pub fn exceeds(&self, other: &Score) -> (r: bool)
        requires
            self.well_formed(),
            other.well_formed(),
        ensures
            r == below(other.value(), self.value()),
    {
        proof {
            lemma_compare(*other, *self);
            lemma_compare(*self, *other);
        }
        if self.units != other.units {
            self.units > other.units
        } else {
            proof {
                lemma_product_fits(self.rem, other.of);
                lemma_product_fits(other.rem, self.of);
            }
            self.rem * other.of > other.rem * self.of
        }
    }

    /// Whether this score is more than a number of points.
    pub fn exceeds_points(&self, points: i64) -> (r: bool)
        requires
            self.well_formed(),
            0 <= points <= 1000,
        ensures
            r == below((points * PARTS, 1), self.value()),
    {
        proof {
            let (u, k) = (self.units as int, self.of as int);
            let p = points * PARTS;
            assert(u > p ==> u * k >= (p + 1) * k) by (nonlinear_arith)
                requires
                    k > 0,
            ;
            assert(u < p ==> (u + 1) * k <= p * k) by (nonlinear_arith)
                requires
                    k > 0,
            ;
            assert((p + 1) * k == p * k + k) by (nonlinear_arith);
            assert((u + 1) * k == u * k + k) by (nonlinear_arith);
        }
        self.units > points * PARTS || (self.units == points * PARTS && self.rem > 0)
    }

    /// This score with some parts more or fewer.
    pub fn plus(&self, parts: i64) -> (s: Score)
        requires
            self.well_formed(),
            -1_000_000_000_000 <= self.units + parts <= 1_000_000_000_000,
            -1_000_000_000_000 <= parts <= 1_000_000_000_000,
        ensures
            s.well_formed(),
            s.value() == (self.value().0 + parts * self.value().1, self.value().1),
    {
        proof {
            let (u, q, k) = (self.units as int, parts as int, self.of as int);
            assert((u + q) * k == u * k + q * k) by (nonlinear_arith);
        }
        Score { units: self.units + parts, rem: self.rem, of: self.of }
    }
}

/// The fraction `a` is below the fraction `b`; both denominators are positive.
pub open spec fn below(a: (int, int), b: (int, int)) -> bool {
    a.0 * b.1 < b.0 * a.1
}

/// Two scores compare by their whole parts first, and then by their fractions.
proof fn lemma_compare(a: Score, b: Score)
    requires
        a.well_formed(),
        b.well_formed(),
    ensures
        a.units < b.units ==> below(a.value(), b.value()),
        a.units > b.units ==> !below(a.value(), b.value()),
        a.units == b.units ==> (below(a.value(), b.value()) <==> a.rem * b.of < b.rem * a.of),
{
    let (u, r, k) = (a.units as int, a.rem as int, a.of as int);
    let (v, s, m) = (b.units as int, b.rem as int, b.of as int);
    assert((u * k + r) * m == u * (k * m) + r * m) by (nonlinear_arith);
    assert((v * m + s) * k == v * (k * m) + s * k) by (nonlinear_arith);
    assert(0 <= r * m < k * m) by (nonlinear_arith)
        requires
            0 <= r < k,
            0 < m,
    ;
    assert(0 <= s * k < k * m) by (nonlinear_arith)
        requires
            0 <= s < m,
            0 < k,
    ;
    if u < v {
        assert(u * (k * m) + k * m <= v * (k * m)) by (nonlinear_arith)
            requires
                u + 1 <= v,
                0 < k * m,
        ;
    }
    if u > v {
        assert(v * (k * m) + k * m <= u * (k * m)) by (nonlinear_arith)
            requires
                v + 1 <= u,
                0 < k * m,
        ;
    }
}

/// A product of a fraction's numerator and a denominator fits in 128 bits.
proof fn lemma_product_fits(a: u128, b: u128)
    requires
        a < 0x1_0000_0000_0000_0000,
        b <= 0x1_0000_0000_0000_0000,
    ensures
        a * b <= u128::MAX,
{
    assert(a * b <= 0xffff_ffff_ffff_ffff * 0x1_0000_0000_0000_0000) by (nonlinear_arith)
        requires
            a <= 0xffff_ffff_ffff_ffff,
            b <= 0x1_0000_0000_0000_0000,
    ;
}

/// Points for an MP3 or OGG bitrate: the first threshold that is met counts.
pub open spec fn bitrate_points(br: u32, top: int, good: int, fair: int, poor: int) -> int {
    if br >= 320 {
        top
    } else if br >= 256 {
        good
    } else if br >= 192 {
        fair
    } else if br >= 128 {
        poor
    } else {
        0
    }
}

/// Whether a lower-case file name ends in an extension.
pub open spec fn has_extension(lower: Seq<char>, extension: Seq<char>) -> bool {
    extension.is_suffix_of(lower)
}

/// Points for the format of a file.
pub open spec fn format_points(filename: Seq<char>, bitrate: Option<u32>) -> int {
    let lower = lowercase(filename);
    if has_extension(lower, ".flac"@) {
        30
    } else if has_extension(lower, ".wav"@) {
        25
    } else if has_extension(lower, ".mp3"@) {
        match bitrate {
            Some(br) => bitrate_points(br, 20, 15, 8, 2),
            None => 5,
        }
    } else if has_extension(lower, ".m4a"@) || has_extension(lower, ".aac"@) {
        12
    } else if has_extension(lower, ".aiff"@) || has_extension(lower, ".aif"@) {
        25
    } else if has_extension(lower, ".ogg"@) {
        match bitrate {
            Some(br) => bitrate_points(br, 18, 14, 8, 3),
            None => 10,
        }
    } else {
        0
    }
}

/// Whether a size is that of a single track.
pub open spec fn track_sized(size: u64) -> bool {
    TRACK_MIN <= size <= TRACK_MAX
}

/// The score of a file in parts, as a fraction: up to 100 points for the title, up to 30
/// for the format, and 5 for the size of a track.
pub open spec fn file_points(
    filename: Seq<char>,
    size: u64,
    bitrate: Option<u32>,
    title: Seq<char>,
) -> (int, int) {
    let (tenths, of) = title_tenths(track_name(filename), normalized(title));
    let flat = format_points(filename, bitrate) + if track_sized(size) {
        5int
    } else {
        0int
    };
    (10 * tenths * PARTS + flat * PARTS * of, of)
}

/// Points for a bitrate.
fn points_for_bitrate(br: u32, top: i64, good: i64, fair: i64, poor: i64) -> (p: i64)
    ensures
        p == bitrate_points(br, top as int, good as int, fair as int, poor as int),
{
    if br >= 320 {
        top
    } else if br >= 256 {
        good
    } else if br >= 192 {
        fair
    } else if br >= 128 {
        poor
    } else {
        0
    }
}

/// Points for the format of a file.
fn points_for_format(filename: &str, bitrate: Option<u32>) -> (p: i64)
    ensures
        p == format_points(filename@, bitrate),
        0 <= p <= 30,
{
    let lower = chars_of(to_lowercase(filename).as_str());
    if ends_with(&lower, ".flac") {
        30
    } else if ends_with(&lower, ".wav") {
        25
    } else if ends_with(&lower, ".mp3") {
        match bitrate {
            Some(br) => points_for_bitrate(br, 20, 15, 8, 2),
            None => 5,
        }
    } else if ends_with(&lower, ".m4a") || ends_with(&lower, ".aac") {
        12
    } else if ends_with(&lower, ".aiff") || ends_with(&lower, ".aif") {
        25
    } else if ends_with(&lower, ".ogg") {
        match bitrate {
            Some(br) => points_for_bitrate(br, 18, 14, 8, 3),
            None => 10,
        }
    } else {
        0
    }
}

/// Score a file for selection (higher is better)
/// Considers: title match, format quality, bitrate
pub fn score_file(filename: &str, size: u64, bitrate: Option<u32>, expected_title: &str) -> (s:
    Score)
    ensures
        s.well_formed(),
        s.value() == file_points(filename@, size, bitrate, expected_title@),
        0 <= s.units <= 135 * PARTS,
{
    let title = score_title_match(filename, expected_title);
    let of: u128 = title.denominator / 10;
    let scaled: u128 = 10 * title.numerator * 10_485_760;
    let whole: u128 = scaled / of;
    let rem: u128 = scaled % of;
    let flat: i64 = points_for_format(filename, bitrate) + if size >= TRACK_MIN && size
        <= TRACK_MAX {
        5i64
    } else {
        0i64
    };
    proof {
        assert(title.denominator == 10 * of);
        assert(title.numerator <= 10 * of);
        assert(scaled == 104_857_600 * title.numerator);
        assert(scaled <= 1_048_576_000 * of);
        assert(scaled == whole * of + rem) by (nonlinear_arith)
            requires
                whole == scaled / of,
                rem == scaled % of,
                of > 0,
        ;
        assert(whole <= 1_048_576_000) by (nonlinear_arith)
            requires
                scaled == whole * of + rem,
                scaled <= 1_048_576_000 * of,
                of > 0,
                rem >= 0,
        ;
        let (w, f, k) = (whole as int, flat * PARTS, of as int);
        assert((w + f) * k == w * k + f * k) by (nonlinear_arith);
    }
    Score { units: whole as i64 + flat * PARTS, rem, of }
}

// ---------------------------------------------------------------------------
// Formats
// ---------------------------------------------------------------------------
/// Whether a file name has the extension of an audio file.
pub open spec fn audio(filename: Seq<char>) -> bool {
    let lower = lowercase(filename);
    ||| has_extension(lower, ".mp3"@)
    ||| has_extension(lower, ".flac"@)
    ||| has_extension(lower, ".wav"@)
    ||| has_extension(lower, ".ogg"@)
    ||| has_extension(lower, ".m4a"@)
    ||| has_extension(lower, ".aac"@)
    ||| has_extension(lower, ".aiff"@)
    ||| has_extension(lower, ".aif"@)
}

/// Check if a file is an audio file based on extension
pub fn is_audio_file(filename: &str) -> (r: bool)
    ensures
        r == audio(filename@),
{
    let lower = chars_of(to_lowercase(filename).as_str());
    ends_with(&lower, ".mp3") || ends_with(&lower, ".flac") || ends_with(&lower, ".wav")
        || ends_with(&lower, ".ogg") || ends_with(&lower, ".m4a") || ends_with(&lower, ".aac")
        || ends_with(&lower, ".aiff") || ends_with(&lower, ".aif")
}

/// Whether a file name passes a format filter: no filter and an unknown format let all
/// files pass.
pub open spec fn passes(filename: Seq<char>, format: Option<Seq<char>>) -> bool {
    let lower = lowercase(filename);
    match format {
        None => true,
        Some(f) => {
            if f == "mp3"@ {
                has_extension(lower, ".mp3"@)
            } else if f == "flac"@ {
                has_extension(lower, ".flac"@)
            } else if f == "m4a"@ {
                has_extension(lower, ".m4a"@)
            } else if f == "wav"@ {
                has_extension(lower, ".wav"@)
            } else if f == "aiff"@ {
                has_extension(lower, ".aiff"@) || has_extension(lower, ".aif"@)
            } else if f == "ogg"@ {
                has_extension(lower, ".ogg"@)
            } else {
                true
            }
        },
    }
}

/// Check if a file matches the requested format filter
/// format should be lowercase: "mp3", "flac", "m4a", "wav", "aiff", "ogg"
pub fn matches_format(filename: &str, format: Option<&str>) -> (r: bool)
    ensures
        r == passes(filename@, opt_str(format)),
        format is None ==> r,
        format matches Some(f) ==> (f@ == "mp3"@ || f@ == "flac"@ || f@ == "m4a"@ || f@ == "wav"@
            || f@ == "ogg"@ ==> r == ("."@ + f@).is_suffix_of(lowercase(filename@))),
        format matches Some(f) ==> (f@ == "aiff"@ ==> r == (".aiff"@.is_suffix_of(
            lowercase(filename@),
        ) || ".aif"@.is_suffix_of(lowercase(filename@)))),
{
    proof {
        if format is Some {
            law_format_filter_goes_by_the_extension(filename@, format->Some_0@);
        }
    }
    match format {
        None => true,
        Some(fmt) => {
            let lower = chars_of(to_lowercase(filename).as_str());
            if same_text(fmt, "mp3") {
                ends_with(&lower, ".mp3")
            } else if same_text(fmt, "flac") {
                ends_with(&lower, ".flac")
            } else if same_text(fmt, "m4a") {
                ends_with(&lower, ".m4a")
            } else if same_text(fmt, "wav") {
                ends_with(&lower, ".wav")
            } else if same_text(fmt, "aiff") {
                ends_with(&lower, ".aiff") || ends_with(&lower, ".aif")
            } else if same_text(fmt, "ogg") {
                ends_with(&lower, ".ogg")
            } else {
                true
            }
        },
    }
}

// ---------------------------------------------------------------------------
// The best file
// ---------------------------------------------------------------------------
/// Scored file with all relevant metadata for selection
#[derive(Debug, Clone)]
pub struct ScoredFile {
    pub username: String,
    pub filename: String,
    pub size: u64,
    pub bitrate: Option<u32>,
    pub score: Score,
    pub slot_free: bool,
    pub avg_speed: u32,
    pub queue_length: u64,
    pub peer_ip: String,
    pub peer_port: u32,
}

/// The scored file is file `f` of result `r`.
pub open spec fn describes(s: ScoredFile, r: SearchResult, f: SearchFile) -> bool {
    &&& s.username@ == r.username@
    &&& s.filename@ == f.filename@
    &&& s.size == f.size
    &&& s.bitrate == first_attribute(f.attributes@, 0)
    &&& s.slot_free == r.has_slots
    &&& s.avg_speed == r.avg_speed
    &&& s.queue_length == r.queue_length
    &&& s.peer_ip@ == r.peer_ip@
    &&& s.peer_port == r.peer_port
}

/// The parts that the speed of a peer adds: 20 points at a megabyte per second, in
/// proportion below.
pub open spec fn speed_parts(avg_speed: u32) -> int {
    if avg_speed < 1_048_576 {
        200 * avg_speed as int
    } else {
        20 * PARTS
    }
}

/// The parts that a queue takes away: a tenth of a point for each place, at most 5 points.
pub open spec fn queue_parts(queue_length: u64) -> int {
    if queue_length < 50 {
        1_048_576 * queue_length as int
    } else {
        5 * PARTS
    }
}

/// The score of file `f` of result `r` against a title, in parts, as a fraction.
pub open spec fn candidate_points(r: SearchResult, f: SearchFile, title: Seq<char>) -> (int, int) {
    let (scaled, of) = file_points(
        f.filename@,
        f.size,
        first_attribute(f.attributes@, 0),
        title,
    );
    (scaled + (speed_parts(r.avg_speed) - queue_parts(r.queue_length)) * of, of)
}

/// There is a file `l` in result `k`.
pub open spec fn in_results(results: Seq<SearchResult>, k: int, l: int) -> bool {
    0 <= k < results.len() && 0 <= l < results[k].files@.len()
}

/// File `l` of result `k` comes before file `n` of result `m`.
pub open spec fn comes_before(k: int, l: int, m: int, n: int) -> bool {
    k < m || (k == m && l < n)
}

/// The file is audio and passes the filter.
pub open spec fn suitable(f: SearchFile, format: Option<Seq<char>>) -> bool {
    audio(f.filename@) && passes(f.filename@, format)
}

/// File `l` of result `k` is a candidate: the peer has a free slot, the file is suitable,
/// and it earns more than 50 points. The points for the format, the size and the speed count
/// as well and can make 55 of them, so a candidate need not match the title at all.
pub open spec fn candidate(
    results: Seq<SearchResult>,
    title: Seq<char>,
    format: Option<Seq<char>>,
    k: int,
    l: int,
) -> bool {
    &&& in_results(results, k, l)
    &&& results[k].has_slots
    &&& suitable(results[k].files@[l], format)
    &&& below((50 * PARTS, 1), candidate_points(results[k], results[k].files@[l], title))
}

/// Among the candidates that come before file `n` of result `m`, file `l` of result `k`
/// has the highest score, and is the first that has it.
pub open spec fn best_before(
    results: Seq<SearchResult>,
    title: Seq<char>,
    format: Option<Seq<char>>,
    m: int,
    n: int,
    k: int,
    l: int,
) -> bool {
    &&& candidate(results, title, format, k, l)
    &&& comes_before(k, l, m, n)
    &&& forall|i: int, j: int|
        #![trigger candidate(results, title, format, i, j)]
        candidate(results, title, format, i, j) && comes_before(i, j, m, n) ==> {
            let here = candidate_points(results[k], results[k].files@[l], title);
            let there = candidate_points(results[i], results[i].files@[j], title);
            !below(here, there) && (comes_before(i, j, k, l) ==> below(there, here))
        }
}

/// No file that comes before file `n` of result `m` is a candidate.
pub open spec fn none_before(
    results: Seq<SearchResult>,
    title: Seq<char>,
    format: Option<Seq<char>>,
    m: int,
    n: int,
) -> bool {
    forall|i: int, j: int|
        #![trigger candidate(results, title, format, i, j)]
        comes_before(i, j, m, n) ==> !candidate(results, title, format, i, j)
}

/// Some peer has a free slot.
pub open spec fn any_free(results: Seq<SearchResult>) -> bool {
    exists|k: int| 0 <= k < results.len() && (#[trigger] results[k]).has_slots
}

/// File `l` of result `k` will do where there is no candidate: it is suitable and of the
/// size of a track, and its peer has a free slot unless no peer has one.
pub open spec fn second_choice(
    results: Seq<SearchResult>,
    format: Option<Seq<char>>,
    k: int,
    l: int,
) -> bool {
    &&& in_results(results, k, l)
    &&& results[k].has_slots || !any_free(results)
    &&& suitable(results[k].files@[l], format)
    &&& track_sized(results[k].files@[l].size)
}

/// No file that comes before file `n` of result `m` is a second choice.
pub open spec fn no_second_before(
    results: Seq<SearchResult>,
    format: Option<Seq<char>>,
    m: int,
    n: int,
) -> bool {
    forall|i: int, j: int|
        #![trigger second_choice(results, format, i, j)]
        comes_before(i, j, m, n) ==> !second_choice(results, format, i, j)
}

/// The file that is chosen from the results for a title: the first of those with the
/// highest score among the candidates; without candidates the first second choice, which
/// scores nothing.
pub open spec fn chosen(
    results: Seq<SearchResult>,
    title: Seq<char>,
    format: Option<Seq<char>>,
    s: ScoredFile,
    k: int,
    l: int,
) -> bool {
    let end = results.len() as int;
    &&& in_results(results, k, l)
    &&& describes(s, results[k], results[k].files@[l])
    &&& s.score.well_formed()
    &&& if none_before(results, title, format, end, 0) {
        &&& second_choice(results, format, k, l)
        &&& no_second_before(results, format, k, l)
        &&& s.score.value() == (0int, 1int)
    } else {
        &&& best_before(results, title, format, end, 0, k, l)
        &&& s.score.value() == candidate_points(results[k], results[k].files@[l], title)
    }
}

/// Writes down file `l` of result `k` with a score.
fn scored(results: &[SearchResult], k: usize, l: usize, score: Score) -> (s: ScoredFile)
    requires
        in_results(results@, k as int, l as int),
    ensures
        describes(s, results@[k as int], results@[k as int].files@[l as int]),
        s.score == score,
{
    let result = &results[k];
    let file = &result.files[l];
    ScoredFile {
        username: result.username.clone(),
        filename: file.filename.clone(),
        size: file.size,
        bitrate: file.bitrate(),
        score,
        slot_free: result.has_slots,
        avg_speed: result.avg_speed,
        queue_length: result.queue_length,
        peer_ip: result.peer_ip.clone(),
        peer_port: result.peer_port,
    }
}

/// Scores a file with the speed and the queue of its peer.
fn score_candidate(result: &SearchResult, file: &SearchFile, title: &str) -> (s: Score)
    ensures
        s.well_formed(),
        s.value() == candidate_points(*result, *file, title@),
{
    let base = score_file(file.filename.as_str(), file.size, file.bitrate(), title);
    let speed: i64 = if result.avg_speed < 1_048_576 {
        200 * result.avg_speed as i64
    } else {
        20 * PARTS
    };
    let queue: i64 = if result.queue_length < 50 {
        1_048_576 * result.queue_length as i64
    } else {
        5 * PARTS
    };
    base.plus(speed - queue)
}

/// Whether some peer has a free slot.
fn some_peer_is_free(results: &[SearchResult]) -> (r: bool)
    ensures
        r == any_free(results@),
{
    let mut i: usize = 0;
    while i < results.len()
        invariant
            i <= results.len(),
            forall|k: int| 0 <= k < i ==> !(#[trigger] results@[k]).has_slots,
        decreases results.len() - i,
    {
        if results[i].has_slots {
            return true;
        }
        i = i + 1;
    }
    false
}

/// Whether a file is audio and passes the filter.
fn is_suitable(file: &SearchFile, format: Option<&str>) -> (r: bool)
    ensures
        r == suitable(*file, opt_str(format)),
{
    is_audio_file(file.filename.as_str()) && matches_format(file.filename.as_str(), format)
}

/// The first of the candidates with the highest score.
fn best_candidate(results: &[SearchResult], title: &str, format: Option<&str>) -> (r: Option<
    ScoredFile,
>)
    ensures
        match r {
            Some(s) => exists|k: int, l: int|
                {
                    &&& best_before(results@, title@, opt_str(format), results@.len() as int, 0, k, l)
                    &&& #[trigger] describes(s, results@[k], results@[k].files@[l])
                    &&& s.score.well_formed()
                    &&& s.score.value() == candidate_points(
                        results@[k],
                        results@[k].files@[l],
                        title@,
                    )
                },
            None => none_before(results@, title@, opt_str(format), results@.len() as int, 0),
        },
{
    let ghost fmt = opt_str(format);
    let mut best: Option<(usize, usize, Score)> = None;
    let mut i: usize = 0;
    while i < results.len()
        invariant
            i <= results.len(),
            fmt == opt_str(format),
            match best {
                Some((k, l, s)) => {
                    &&& best_before(results@, title@, fmt, i as int, 0, k as int, l as int)
                    &&& s.well_formed()
                    &&& s.value() == candidate_points(
                        results@[k as int],
                        results@[k as int].files@[l as int],
                        title@,
                    )
                },
                None => none_before(results@, title@, fmt, i as int, 0),
            },
        decreases results.len() - i,
    {
        let result = &results[i];
        let mut j: usize = 0;
        while result.has_slots && j < result.files.len()
            invariant
                i < results.len(),
                *result == results@[i as int],
                j <= result.files.len(),
                fmt == opt_str(format),
                match best {
                    Some((k, l, s)) => {
                        &&& best_before(
                            results@,
                            title@,
                            fmt,
                            i as int,
                            j as int,
                            k as int,
                            l as int,
                        )
                        &&& s.well_formed()
                        &&& s.value() == candidate_points(
                            results@[k as int],
                            results@[k as int].files@[l as int],
                            title@,
                        )
                    },
                    None => none_before(results@, title@, fmt, i as int, j as int),
                },
            decreases result.files.len() - j,
        {
            let file = &result.files[j];
            if is_suitable(file, format) {
                let score = score_candidate(result, file, title);
                if score.exceeds_points(50) {
                    assert(candidate(results@, title@, fmt, i as int, j as int));
                    match best {
                        Some((k, l, top)) => {
                            if score.exceeds(&top) {
                                proof {
                                    lemma_new_best(
                                        results@,
                                        title@,
                                        fmt,
                                        i as int,
                                        j as int,
                                        k as int,
                                        l as int,
                                    );
                                }
                                best = Some((i, j, score));
                            } else {
                                proof {
                                    lemma_old_best(
                                        results@,
                                        title@,
                                        fmt,
                                        i as int,
                                        j as int,
                                        k as int,
                                        l as int,
                                    );
                                }
                            }
                        },
                        None => {
                            best = Some((i, j, score));
                        },
                    }
                }
            }
            j = j + 1;
        }
        i = i + 1;
    }
    match best {
        Some((k, l, score)) => {
            let s = scored(results, k, l, score);
            assert(describes(s, results@[k as int], results@[k as int].files@[l as int]));
            Some(s)
        },
        None => None,
    }
}

/// The order of fractions with positive denominators carries over.
proof fn lemma_below_transitive(a: (int, int), b: (int, int), c: (int, int))
    requires
        a.1 > 0,
        b.1 > 0,
        c.1 > 0,
        !below(b, a),
        below(b, c),
    ensures
        below(a, c),
{
    let (x, p) = a;
    let (y, q) = b;
    let (z, r) = c;
    assert(x * r < z * p) by (nonlinear_arith)
        requires
            p > 0,
            q > 0,
            r > 0,
            !(y * p < x * q),
            y * r < z * q,
    {
        assert((x * q) * r <= (y * p) * r);
        assert((y * r) * p < (z * q) * p);
        assert((x * r) * q < (z * p) * q);
    }
}

/// The denominators of candidate scores are positive.
proof fn lemma_points_positive(r: SearchResult, f: SearchFile, title: Seq<char>)
    ensures
        candidate_points(r, f, title).1 > 0,
{
    lemma_word_counts(track_name(f.filename@), normalized(title));
}

/// A candidate with a higher score than the best so far becomes the best.
proof fn lemma_new_best(
    results: Seq<SearchResult>,
    title: Seq<char>,
    format: Option<Seq<char>>,
    i: int,
    j: int,
    k: int,
    l: int,
)
    requires
        best_before(results, title, format, i, j, k, l),
        candidate(results, title, format, i, j),
        below(
            candidate_points(results[k], results[k].files@[l], title),
            candidate_points(results[i], results[i].files@[j], title),
        ),
    ensures
        best_before(results, title, format, i, j + 1, i, j),
{
    let here = candidate_points(results[i], results[i].files@[j], title);
    let old_best = candidate_points(results[k], results[k].files@[l], title);
    assert forall|a: int, b: int|
        #![trigger candidate(results, title, format, a, b)]
        candidate(results, title, format, a, b) && comes_before(a, b, i, j + 1) implies {
        let there = candidate_points(results[a], results[a].files@[b], title);
        !below(here, there) && (comes_before(a, b, i, j) ==> below(there, here))
    } by {
        let there = candidate_points(results[a], results[a].files@[b], title);
        lemma_points_positive(results[a], results[a].files@[b], title);
        lemma_points_positive(results[k], results[k].files@[l], title);
        lemma_points_positive(results[i], results[i].files@[j], title);
        if comes_before(a, b, i, j) {
            lemma_below_transitive(there, old_best, here);
        }
    }
}

/// A candidate whose score is no higher leaves the best so far in place.
proof fn lemma_old_best(
    results: Seq<SearchResult>,
    title: Seq<char>,
    format: Option<Seq<char>>,
    i: int,
    j: int,
    k: int,
    l: int,
)
    requires
        best_before(results, title, format, i, j, k, l),
        candidate(results, title, format, i, j),
        !below(
            candidate_points(results[k], results[k].files@[l], title),
            candidate_points(results[i], results[i].files@[j], title),
        ),
    ensures
        best_before(results, title, format, i, j + 1, k, l),
{
}

/// The first second choice.
fn first_second_choice(results: &[SearchResult], format: Option<&str>) -> (r: Option<ScoredFile>)
    ensures
        match r {
            Some(s) => exists|k: int, l: int|
                {
                    &&& second_choice(results@, opt_str(format), k, l)
                    &&& no_second_before(results@, opt_str(format), k, l)
                    &&& #[trigger] describes(s, results@[k], results@[k].files@[l])
                    &&& s.score.well_formed()
                    &&& s.score.value() == (0int, 1int)
                },
            None => no_second_before(results@, opt_str(format), results@.len() as int, 0),
        },
{
    let ghost fmt = opt_str(format);
    let free: bool = some_peer_is_free(results);
    let mut i: usize = 0;
    while i < results.len()
        invariant
            i <= results.len(),
            fmt == opt_str(format),
            free == any_free(results@),
            no_second_before(results@, fmt, i as int, 0),
        decreases results.len() - i,
    {
        let result = &results[i];
        let mut j: usize = 0;
        while (result.has_slots || !free) && j < result.files.len()
            invariant
                i < results.len(),
                *result == results@[i as int],
                j <= result.files.len(),
                fmt == opt_str(format),
                free == any_free(results@),
                no_second_before(results@, fmt, i as int, j as int),
            decreases result.files.len() - j,
        {
            let file = &result.files[j];
            if is_suitable(file, format) && file.size >= TRACK_MIN && file.size <= TRACK_MAX {
                let s = scored(results, i, j, Score::zero());
                assert(second_choice(results@, fmt, i as int, j as int));
                assert(describes(s, results@[i as int], results@[i as int].files@[j as int]));
                return Some(s);
            }
            j = j + 1;
        }
        i = i + 1;
    }
    None
}

/// Find the best file from search results based on scoring
///
/// This considers:
/// - Title match score
/// - File format (FLAC > WAV > MP3)
/// - Bitrate for lossy formats
/// - User's upload speed and queue length
/// - Whether user has free slots
///
/// format_filter: Optional format filter ("mp3", "flac", "m4a", "wav")
pub fn find_best_file(
    results: &[SearchResult],
    query: &str,
    format_filter: Option<&str>,
) -> (r: Option<ScoredFile>)
    ensures
        ({
            let title = query_title(query@);
            let format = opt_str(format_filter);
            let end = results@.len() as int;
            match r {
                Some(s) => title.len() > 0 && exists|k: int, l: int|
                    chosen(results@, title, format, s, k, l),
                None => title.len() == 0 || (none_before(results@, title, format, end, 0)
                    && no_second_before(results@, format, end, 0)),
            }
        }),
{
    let (_, expected_title) = parse_query(query);
    let title = match expected_title {
        Some(t) => t,
        None => String::new(),
    };
    if title.as_str().is_empty() {
        return None;
    }
    let ghost fmt = opt_str(format_filter);
    match best_candidate(results, title.as_str(), format_filter) {
        Some(s) => {
            proof {
                let end = results@.len() as int;
                let (k, l) = choose|k: int, l: int|
                    {
                        &&& best_before(results@, title@, fmt, end, 0, k, l)
                        &&& #[trigger] describes(s, results@[k], results@[k].files@[l])
                        &&& s.score.well_formed()
                        &&& s.score.value() == candidate_points(
                            results@[k],
                            results@[k].files@[l],
                            title@,
                        )
                    };
                assert(candidate(results@, title@, fmt, k, l));
                assert(chosen(results@, title@, fmt, s, k, l));
            }
            Some(s)
        },
        None => {
            let second = first_second_choice(results, format_filter);
            proof {
                if second is Some {
                    let s = second->Some_0;
                    let (k, l) = choose|k: int, l: int|
                        {
                            &&& second_choice(results@, fmt, k, l)
                            &&& no_second_before(results@, fmt, k, l)
                            &&& #[trigger] describes(s, results@[k], results@[k].files@[l])
                            &&& s.score.well_formed()
                            &&& s.score.value() == (0int, 1int)
                        };
                    assert(chosen(results@, title@, fmt, s, k, l));
                }
            }
            second
        },
    }
}

// ---------------------------------------------------------------------------
// Laws
// ---------------------------------------------------------------------------
/// A filter that passes every character of a text passes the text.
proof fn lemma_filter_passes_all(s: Seq<char>, p: spec_fn(char) -> bool)
    requires
        made_of(s, p),
    ensures
        s.filter(p) == s,
    decreases s.len(),
{
    reveal(Seq::filter);
    if s.len() > 0 {
        assert forall|i: int| 0 <= i < s.drop_last().len() implies p(
            #[trigger] s.drop_last()[i],
        ) by {
            assert(s.drop_last()[i] == s[i]);
        }
        lemma_filter_passes_all(s.drop_last(), p);
        assert(s.drop_last().push(s.last()) =~= s);
        assert(p(s[s.len() - 1]));
    }
}

/// What a filter passes of a text is made of what it passes and of what the text is made of.
proof fn lemma_filter_is_made_of(s: Seq<char>, p: spec_fn(char) -> bool, q: spec_fn(char) -> bool)
    requires
        made_of(s, q),
    ensures
        made_of(s.filter(p), p),
        made_of(s.filter(p), q),
    decreases s.len(),
{
    reveal(Seq::filter);
    if s.len() > 0 {
        assert forall|i: int| 0 <= i < s.drop_last().len() implies q(
            #[trigger] s.drop_last()[i],
        ) by {
            assert(s.drop_last()[i] == s[i]);
        }
        lemma_filter_is_made_of(s.drop_last(), p, q);
        assert(q(s[s.len() - 1]));
    }
}

/// The words of a normal form are those that were joined, and it is made of what is kept and
/// of what the text in lower case and the space are made of.
proof fn lemma_normal_form(s: Seq<char>, q: spec_fn(char) -> bool)
    requires
        made_of(lowercase(s), q),
        q(' '),
    ensures
        made_of(normalized(s), kept()),
        made_of(normalized(s), q),
        words(normalized(s)) == matching_words(s),
{
    let plain = lowercase(s).filter(kept());
    lemma_filter_is_made_of(lowercase(s), kept(), q);
    lemma_words_of(plain, kept());
    lemma_words_of(plain, q);
    assert(whitespace(' '));
    lemma_joined_is_made_of(words(plain), kept());
    lemma_joined_is_made_of(words(plain), q);
    lemma_words_of_joined(words(plain));
}

/// Normalizing a normal form changes nothing where it is in lower case already, as the
/// Unicode tables see it.
pub proof fn law_normal_form_in_lower_case_stays(s: Seq<char>)
    requires
        lowercase(normalized(s)) == normalized(s),
    ensures
        normalized(normalized(s)) == normalized(s),
{
    lemma_normal_form(s, |c: char| true);
    lemma_filter_passes_all(normalized(s), kept());
}

/// Normalizing the normal form of an ASCII text changes nothing.
pub proof fn law_normal_form_stays(s: Seq<char>)
    requires
        ascii_text(s),
    ensures
        normalized(normalized(s)) == normalized(s),
{
    let small = |c: char| ascii(c) && ascii_lower(c) == c;
    let lower = lowercase(s);
    assert forall|i: int| 0 <= i < lower.len() implies small(#[trigger] lower[i]) by {
        assert(ascii(s[i]));
        assert(lower[i] == ascii_lower(s[i]));
    }
    lemma_normal_form(s, small);
    let n = normalized(s);
    assert(ascii_text(n)) by {
        assert forall|i: int| 0 <= i < n.len() implies ascii(#[trigger] n[i]) by {
            assert(small(n[i]));
        }
    }
    assert(lowercase(n) =~= n) by {
        assert forall|i: int| 0 <= i < n.len() implies lowercase(n)[i] == #[trigger] n[i] by {
            assert(small(n[i]));
        }
    }
    law_normal_form_in_lower_case_stays(s);
}

/// The score of a title lies between nothing and a perfect match, and it is perfect exactly
/// where the two normal forms are the same and there is something to compare.
pub proof fn law_perfect_title(track: Seq<char>, expected: Seq<char>)
    ensures
        ({
            let (tenths, of) = title_tenths(track, expected);
            &&& of > 0
            &&& 0 <= tenths <= 10 * of
            &&& tenths == 10 * of <==> track == expected && track.len() > 0
        }),
{
    lemma_word_counts(track, expected);
}

/// A name that contains the title is preferred to one that is contained in it, and either
/// to one that only shares words with it.
pub proof fn law_titles_are_ranked(
    containing: Seq<char>,
    contained: Seq<char>,
    sharing: Seq<char>,
    expected: Seq<char>,
)
    requires
        expected.len() > 0,
        contained.len() > 0,
        occurs(containing, expected),
        occurs(expected, contained) && !occurs(contained, expected),
        !occurs(sharing, expected) && !occurs(expected, sharing),
    ensures
        below(title_tenths(contained, expected), title_tenths(containing, expected)),
        below(title_tenths(sharing, expected), title_tenths(contained, expected)),
{
    lemma_word_counts(sharing, expected);
    assert(occurs_at(expected, expected, 0)) by {
        assert(expected.subrange(0, expected.len() as int) =~= expected);
    }
    assert(contained != expected);
    assert(sharing != expected);
    assert(containing.len() > 0);
}

/// Lossless formats are preferred: FLAC to WAV, and WAV to MP3 of any bitrate.
pub proof fn law_lossless_formats_are_preferred(
    flac: Seq<char>,
    wav: Seq<char>,
    mp3: Seq<char>,
    flac_bitrate: Option<u32>,
    wav_bitrate: Option<u32>,
    mp3_bitrate: Option<u32>,
)
    requires
        has_extension(lowercase(flac), ".flac"@),
        has_extension(lowercase(wav), ".wav"@),
        has_extension(lowercase(mp3), ".mp3"@),
    ensures
        format_points(flac, flac_bitrate) > format_points(wav, wav_bitrate),
        format_points(wav, wav_bitrate) > format_points(mp3, mp3_bitrate),
{
    reveal_strlit(".flac");
    reveal_strlit(".wav");
    reveal_strlit(".mp3");
    let (w, m) = (lowercase(wav), lowercase(mp3));
    lemma_last_of_extension(w, ".wav"@);
    lemma_last_of_extension(m, ".mp3"@);
    if has_extension(w, ".flac"@) {
        lemma_last_of_extension(w, ".flac"@);
    }
    if has_extension(m, ".flac"@) {
        lemma_last_of_extension(m, ".flac"@);
    }
    if has_extension(m, ".wav"@) {
        lemma_last_of_extension(m, ".wav"@);
    }
}

/// AIFF is lossless like WAV, and earns the same points.
pub proof fn law_aiff_is_like_wav(
    wav: Seq<char>,
    aiff: Seq<char>,
    wav_bitrate: Option<u32>,
    aiff_bitrate: Option<u32>,
)
    requires
        has_extension(lowercase(wav), ".wav"@),
        has_extension(lowercase(aiff), ".aiff"@),
    ensures
        format_points(aiff, aiff_bitrate) == format_points(wav, wav_bitrate),
{
    reveal_strlit(".flac");
    reveal_strlit(".wav");
    reveal_strlit(".mp3");
    reveal_strlit(".m4a");
    reveal_strlit(".aac");
    reveal_strlit(".aiff");
    let (w, a) = (lowercase(wav), lowercase(aiff));
    lemma_last_of_extension(w, ".wav"@);
    lemma_last_of_extension(a, ".aiff"@);
    if has_extension(w, ".flac"@) {
        lemma_last_of_extension(w, ".flac"@);
    }
    if has_extension(a, ".flac"@) {
        lemma_last_of_extension(a, ".flac"@);
    }
    if has_extension(a, ".wav"@) {
        lemma_last_of_extension(a, ".wav"@);
    }
    if has_extension(a, ".mp3"@) {
        lemma_last_of_extension(a, ".mp3"@);
    }
    if has_extension(a, ".m4a"@) {
        lemma_last_of_extension(a, ".m4a"@);
    }
    if has_extension(a, ".aac"@) {
        lemma_last_of_extension(a, ".aac"@);
    }
}

/// A name ends with the last character of its extension.
proof fn lemma_last_of_extension(lower: Seq<char>, extension: Seq<char>)
    requires
        has_extension(lower, extension),
        extension.len() > 0,
    ensures
        lower.len() > 0,
        lower.last() == extension.last(),
{
    assert(extension == lower.subrange(lower.len() - extension.len(), lower.len() as int));
    assert(extension[extension.len() - 1] == lower[lower.len() - 1]);
}

/// A filter for a known format lets audio files through and nothing else.
pub proof fn law_format_filter_keeps_audio(filename: Seq<char>, format: Seq<char>)
    requires
        format == "mp3"@ || format == "flac"@ || format == "m4a"@ || format == "wav"@ || format
            == "aiff"@ || format == "ogg"@,
    ensures
        passes(filename, Some(format)) ==> audio(filename),
{
}

/// Of two scores that differ in their flat points alone, the one with more is higher.
proof fn lemma_flat_points_count(title: int, of: int, low: int, high: int)
    requires
        of > 0,
        low <= high,
    ensures
        !below((title + high * PARTS * of, of), (title + low * PARTS * of, of)),
        low < high ==> below((title + low * PARTS * of, of), (title + high * PARTS * of, of)),
{
    assert((title + low * PARTS * of) * of <= (title + high * PARTS * of) * of) by (
        nonlinear_arith)
        requires
            of > 0,
            low <= high,
            PARTS > 0,
    ;
    if low < high {
        assert((title + low * PARTS * of) * of < (title + high * PARTS * of) * of) by (
            nonlinear_arith)
            requires
                of > 0,
                low < high,
                PARTS > 0,
        ;
    }
}

/// A higher bitrate never makes a file worse: neither its points for the format nor its
/// score go down.
pub proof fn law_bitrate_does_not_hurt(
    filename: Seq<char>,
    size: u64,
    low: u32,
    high: u32,
    title: Seq<char>,
)
    requires
        low <= high,
    ensures
        format_points(filename, Some(low)) <= format_points(filename, Some(high)),
        !below(
            file_points(filename, size, Some(high), title),
            file_points(filename, size, Some(low), title),
        ),
{
    let (tenths, of) = title_tenths(track_name(filename), normalized(title));
    law_perfect_title(track_name(filename), normalized(title));
    let bonus: int = if track_sized(size) {
        5
    } else {
        0
    };
    lemma_flat_points_count(
        10 * tenths * PARTS,
        of,
        format_points(filename, Some(low)) + bonus,
        format_points(filename, Some(high)) + bonus,
    );
}

/// What follows the last separator of a name is followed by what is appended to the name.
proof fn lemma_after_last_of_sum(s: Seq<char>, tail: Seq<char>, p: spec_fn(char) -> bool)
    requires
        forall|i: int| 0 <= i < tail.len() ==> !p(#[trigger] tail[i]),
    ensures
        after_last(s + tail, p) == after_last(s, p) + tail,
    decreases tail.len(),
{
    let whole = s + tail;
    if tail.len() == 0 {
        assert(whole =~= s);
        assert(after_last(s, p) + tail =~= after_last(s, p));
    } else {
        assert(whole.drop_last() =~= s + tail.drop_last());
        assert(whole.last() == tail[tail.len() - 1]);
        assert forall|i: int| 0 <= i < tail.drop_last().len() implies !p(
            #[trigger] tail.drop_last()[i],
        ) by {
            assert(tail.drop_last()[i] == tail[i]);
        }
        lemma_after_last_of_sum(s, tail.drop_last(), p);
        assert((after_last(s, p) + tail.drop_last()).push(tail.last()) =~= after_last(s, p) + tail);
    }
}

/// An extension is a dot and letters, and stands in no folder name.
spec fn plain_extension(extension: Seq<char>) -> bool {
    &&& extension.len() > 0
    &&& extension[0] == '.'
    &&& forall|i: int| 0 < i < extension.len() ==> #[trigger] extension[i] != '.'
    &&& forall|i: int|
        0 <= i < extension.len() ==> #[trigger] extension[i] != '/' && extension[i] != '\\'
}

/// The title in a file name does not depend on the extension.
proof fn lemma_track_name_of_stem(stem: Seq<char>, a: Seq<char>, b: Seq<char>)
    requires
        plain_extension(a),
        plain_extension(b),
    ensures
        track_name(stem + a) == track_name(stem + b),
{
    let base = after_last(stem, slash());
    lemma_after_last_of_sum(stem, a, slash());
    lemma_after_last_of_sum(stem, b, slash());
    lemma_last_position(base + a, '.', base.len() as int);
    lemma_last_position(base + b, '.', base.len() as int);
    assert((base + a).take(base.len() as int) =~= base);
    assert((base + b).take(base.len() as int) =~= base);
}

/// Of one title in files of one size, FLAC scores higher than WAV, and WAV higher than MP3
/// of any bitrate. The names have one stem, and their endings stay what they are in lower
/// case.
pub proof fn law_lossless_files_score_higher(
    stem: Seq<char>,
    size: u64,
    flac_bitrate: Option<u32>,
    wav_bitrate: Option<u32>,
    mp3_bitrate: Option<u32>,
    title: Seq<char>,
)
    requires
        has_extension(lowercase(stem + ".flac"@), ".flac"@),
        has_extension(lowercase(stem + ".wav"@), ".wav"@),
        has_extension(lowercase(stem + ".mp3"@), ".mp3"@),
    ensures
        below(
            file_points(stem + ".wav"@, size, wav_bitrate, title),
            file_points(stem + ".flac"@, size, flac_bitrate, title),
        ),
        below(
            file_points(stem + ".mp3"@, size, mp3_bitrate, title),
            file_points(stem + ".wav"@, size, wav_bitrate, title),
        ),
{
    reveal_strlit(".flac");
    reveal_strlit(".wav");
    reveal_strlit(".mp3");
    let (flac, wav, mp3) = (stem + ".flac"@, stem + ".wav"@, stem + ".mp3"@);
    lemma_track_name_of_stem(stem, ".flac"@, ".wav"@);
    lemma_track_name_of_stem(stem, ".wav"@, ".mp3"@);
    law_lossless_formats_are_preferred(
        flac,
        wav,
        mp3,
        flac_bitrate,
        wav_bitrate,
        mp3_bitrate,
    );
    let (tenths, of) = title_tenths(track_name(wav), normalized(title));
    law_perfect_title(track_name(wav), normalized(title));
    let bonus: int = if track_sized(size) {
        5
    } else {
        0
    };
    lemma_flat_points_count(
        10 * tenths * PARTS,
        of,
        format_points(wav, wav_bitrate) + bonus,
        format_points(flac, flac_bitrate) + bonus,
    );
    lemma_flat_points_count(
        10 * tenths * PARTS,
        of,
        format_points(mp3, mp3_bitrate) + bonus,
        format_points(wav, wav_bitrate) + bonus,
    );
}

/// An ASCII name in lower case keeps an ending of small letters.
proof fn lemma_ascii_keeps_ending(stem: Seq<char>, extension: Seq<char>)
    requires
        ascii_text(stem),
        forall|i: int|
            0 <= i < extension.len() ==> ascii(#[trigger] extension[i]) && ascii_lower(
                extension[i],
            ) == extension[i],
    ensures
        has_extension(lowercase(stem + extension), extension),
{
    let whole = stem + extension;
    assert(ascii_text(whole)) by {
        assert forall|i: int| 0 <= i < whole.len() implies ascii(#[trigger] whole[i]) by {
            if i >= stem.len() {
                assert(whole[i] == extension[i - stem.len()]);
            } else {
                assert(whole[i] == stem[i]);
            }
        }
    }
    let lower = lowercase(whole);
    assert(lower.subrange(lower.len() - extension.len(), lower.len() as int) =~= extension) by {
        assert forall|i: int| 0 <= i < extension.len() implies lower[stem.len() + i]
            == #[trigger] extension[i] by {
            assert(whole[stem.len() + i] == extension[i]);
        }
    }
}

/// Of one title in files of one size with ASCII names, FLAC scores higher than WAV, and WAV
/// higher than MP3 of any bitrate.
pub proof fn law_lossless_ascii_files_score_higher(
    stem: Seq<char>,
    size: u64,
    flac_bitrate: Option<u32>,
    wav_bitrate: Option<u32>,
    mp3_bitrate: Option<u32>,
    title: Seq<char>,
)
    requires
        ascii_text(stem),
    ensures
        below(
            file_points(stem + ".wav"@, size, wav_bitrate, title),
            file_points(stem + ".flac"@, size, flac_bitrate, title),
        ),
        below(
            file_points(stem + ".mp3"@, size, mp3_bitrate, title),
            file_points(stem + ".wav"@, size, wav_bitrate, title),
        ),
{
    reveal_strlit(".flac");
    reveal_strlit(".wav");
    reveal_strlit(".mp3");
    lemma_ascii_keeps_ending(stem, ".flac"@);
    lemma_ascii_keeps_ending(stem, ".wav"@);
    lemma_ascii_keeps_ending(stem, ".mp3"@);
    law_lossless_files_score_higher(
        stem,
        size,
        flac_bitrate,
        wav_bitrate,
        mp3_bitrate,
        title,
    );
}

/// The file that is chosen is one of the results, is audio and passes the filter.
pub proof fn law_choice_is_suitable(
    results: Seq<SearchResult>,
    title: Seq<char>,
    format: Option<Seq<char>>,
    s: ScoredFile,
    k: int,
    l: int,
)
    requires
        chosen(results, title, format, s, k, l),
    ensures
        in_results(results, k, l),
        audio(s.filename@),
        passes(s.filename@, format),
        s.filename@ == results[k].files@[l].filename@,
        s.username@ == results[k].username@,
{
}

/// A busy peer is only chosen where no peer has a free slot.
pub proof fn law_free_slots_come_first(
    results: Seq<SearchResult>,
    title: Seq<char>,
    format: Option<Seq<char>>,
    s: ScoredFile,
    k: int,
    l: int,
)
    requires
        chosen(results, title, format, s, k, l),
        any_free(results),
    ensures
        s.slot_free,
{
}

/// No candidate beats the file that is chosen.
pub proof fn law_choice_is_the_best(
    results: Seq<SearchResult>,
    title: Seq<char>,
    format: Option<Seq<char>>,
    s: ScoredFile,
    k: int,
    l: int,
    i: int,
    j: int,
)
    requires
        chosen(results, title, format, s, k, l),
        candidate(results, title, format, i, j),
    ensures
        !below(s.score.value(), candidate_points(results[i], results[i].files@[j], title)),
        below((50 * PARTS, 1), s.score.value()),
{
    assert(comes_before(i, j, results.len() as int, 0));
}

/// A name has one ending: two extensions that it ends in are the same.
proof fn lemma_one_extension(lower: Seq<char>, a: Seq<char>, b: Seq<char>)
    requires
        has_extension(lower, a),
        has_extension(lower, b),
        plain_extension(a),
        plain_extension(b),
    ensures
        a == b,
{
    let n = lower.len() as int;
    let (i, j) = (n - a.len(), n - b.len());
    assert(a == lower.subrange(i, n));
    assert(b == lower.subrange(j, n));
    assert forall|k: int| i <= k < n implies #[trigger] lower[k] == a[k - i] by {
    }
    assert forall|k: int| j <= k < n implies #[trigger] lower[k] == b[k - j] by {
    }
    if i < j {
        assert(lower[j] == b[0]);
        assert(lower[j] == a[j - i]);
    }
    if j < i {
        assert(lower[i] == a[0]);
        assert(lower[i] == b[i - j]);
    }
    assert(a =~= b);
}

/// The extensions of audio files are extensions, and all different.
proof fn lemma_audio_extensions()
    ensures
        plain_extension(".mp3"@),
        plain_extension(".flac"@),
        plain_extension(".wav"@),
        plain_extension(".ogg"@),
        plain_extension(".m4a"@),
        plain_extension(".aac"@),
        plain_extension(".aiff"@),
        plain_extension(".aif"@),
        ".mp3"@ == "."@ + "mp3"@,
        ".flac"@ == "."@ + "flac"@,
        ".wav"@ == "."@ + "wav"@,
        ".ogg"@ == "."@ + "ogg"@,
        ".m4a"@ == "."@ + "m4a"@,
        ".aac"@ == "."@ + "aac"@,
        ".aiff"@ == "."@ + "aiff"@,
        ".aif"@ == "."@ + "aif"@,
        ".mp3"@[1] == 'm' && ".mp3"@[2] == 'p',
        ".flac"@[1] == 'f',
        ".wav"@[1] == 'w',
        ".ogg"@[1] == 'o',
        ".m4a"@[1] == 'm' && ".m4a"@[2] == '4',
        ".aac"@[1] == 'a' && ".aac"@[2] == 'a',
        ".aiff"@[1] == 'a' && ".aiff"@[2] == 'i' && ".aiff"@.len() == 5,
        ".aif"@[1] == 'a' && ".aif"@[2] == 'i' && ".aif"@.len() == 4,
{
    reveal_strlit(".");
    reveal_strlit(".mp3");
    reveal_strlit(".flac");
    reveal_strlit(".wav");
    reveal_strlit(".ogg");
    reveal_strlit(".m4a");
    reveal_strlit(".aac");
    reveal_strlit(".aiff");
    reveal_strlit(".aif");
    reveal_strlit("mp3");
    reveal_strlit("flac");
    reveal_strlit("wav");
    reveal_strlit("ogg");
    reveal_strlit("m4a");
    reveal_strlit("aac");
    reveal_strlit("aiff");
    reveal_strlit("aif");
    assert(".mp3"@ =~= "."@ + "mp3"@);
    assert(".flac"@ =~= "."@ + "flac"@);
    assert(".wav"@ =~= "."@ + "wav"@);
    assert(".ogg"@ =~= "."@ + "ogg"@);
    assert(".m4a"@ =~= "."@ + "m4a"@);
    assert(".aac"@ =~= "."@ + "aac"@);
    assert(".aiff"@ =~= "."@ + "aiff"@);
    assert(".aif"@ =~= "."@ + "aif"@);
}

/// The names of the formats are all different.
proof fn lemma_format_names_differ()
    ensures
        "mp3"@ != "flac"@,
        "mp3"@ != "m4a"@,
        "mp3"@ != "wav"@,
        "mp3"@ != "aiff"@,
        "mp3"@ != "ogg"@,
        "flac"@ != "m4a"@,
        "flac"@ != "wav"@,
        "flac"@ != "aiff"@,
        "flac"@ != "ogg"@,
        "m4a"@ != "wav"@,
        "m4a"@ != "aiff"@,
        "m4a"@ != "ogg"@,
        "wav"@ != "aiff"@,
        "wav"@ != "ogg"@,
        "aiff"@ != "ogg"@,
{
    reveal_strlit("mp3");
    reveal_strlit("flac");
    reveal_strlit("m4a");
    reveal_strlit("wav");
    reveal_strlit("aiff");
    reveal_strlit("ogg");
    assert("mp3"@[1] == 'p' && "m4a"@[1] == '4');
    assert("mp3"@[0] == 'm' && "m4a"@[0] == 'm' && "flac"@[0] == 'f' && "wav"@[0] == 'w'
        && "aiff"@[0] == 'a' && "ogg"@[0] == 'o');
}

/// A filter for MP3, FLAC, M4A, WAV or OGG lets a name pass exactly where it ends, in lower
/// case, in a dot and the format. The filter for AIFF goes by `.aiff` and `.aif`. Every name
/// passes where there is no filter, or one for a format that is not known.
pub proof fn law_format_filter_goes_by_the_extension(filename: Seq<char>, format: Seq<char>)
    ensures
        passes(filename, None),
        format == "mp3"@ || format == "flac"@ || format == "m4a"@ || format == "wav"@ || format
            == "ogg"@ ==> (passes(filename, Some(format)) <==> ("."@ + format).is_suffix_of(
            lowercase(filename),
        )),
        format == "aiff"@ ==> (passes(filename, Some(format)) <==> ".aiff"@.is_suffix_of(
            lowercase(filename),
        ) || ".aif"@.is_suffix_of(lowercase(filename))),
        format != "mp3"@ && format != "flac"@ && format != "m4a"@ && format != "wav"@ && format
            != "ogg"@ && format != "aiff"@ ==> passes(filename, Some(format)),
{
    lemma_audio_extensions();
    lemma_format_names_differ();
}

/// No name passes the filters of two formats.
#[verifier::spinoff_prover]
pub proof fn law_formats_exclude_each_other(filename: Seq<char>, a: Seq<char>, b: Seq<char>)
    requires
        a == "mp3"@ || a == "flac"@ || a == "m4a"@ || a == "wav"@ || a == "aiff"@ || a == "ogg"@,
        b == "mp3"@ || b == "flac"@ || b == "m4a"@ || b == "wav"@ || b == "aiff"@ || b == "ogg"@,
        a != b,
    ensures
        !(passes(filename, Some(a)) && passes(filename, Some(b))),
{
    let lower = lowercase(filename);
    law_format_filter_goes_by_the_extension(filename, a);
    law_format_filter_goes_by_the_extension(filename, b);
    lemma_audio_extensions();
    lemma_format_names_differ();
    if passes(filename, Some(a)) && passes(filename, Some(b)) {
        let x = if a != "aiff"@ {
            "."@ + a
        } else if has_extension(lower, ".aiff"@) {
            ".aiff"@
        } else {
            ".aif"@
        };
        let y = if b != "aiff"@ {
            "."@ + b
        } else if has_extension(lower, ".aiff"@) {
            ".aiff"@
        } else {
            ".aif"@
        };
        lemma_one_extension(lower, x, y);
        if a != "aiff"@ && b != "aiff"@ {
            reveal_strlit(".");
            assert(x.skip(1) =~= a);
            assert(y.skip(1) =~= b);
        }
        assert(false);
    }
}

/// The file that is chosen for a format has the extension of that format.
pub proof fn law_choice_has_the_format(
    results: Seq<SearchResult>,
    title: Seq<char>,
    format: Seq<char>,
    s: ScoredFile,
    k: int,
    l: int,
)
    requires
        chosen(results, title, Some(format), s, k, l),
    ensures
        format == "mp3"@ || format == "flac"@ || format == "m4a"@ || format == "wav"@ || format
            == "ogg"@ ==> ("."@ + format).is_suffix_of(lowercase(s.filename@)),
        format == "aiff"@ ==> ".aiff"@.is_suffix_of(lowercase(s.filename@))
            || ".aif"@.is_suffix_of(lowercase(s.filename@)),
{
    law_format_filter_goes_by_the_extension(s.filename@, format);
}

/// Whether a name is that of an audio file is decided by what follows its last dot: it is one
/// of eight extensions. The name is given in lower case, as far as case goes.
#[verifier::spinoff_prover]
pub proof fn law_audio_is_one_of_eight(filename: Seq<char>, stem: Seq<char>, extension: Seq<char>)
    requires
        lowercase(filename) == stem + "."@ + extension,
        forall|i: int|
            0 <= i < extension.len() ==> #[trigger] extension[i] != '.' && extension[i] != '/'
                && extension[i] != '\\',
    ensures
        audio(filename) <==> extension == "mp3"@ || extension == "flac"@ || extension == "wav"@
            || extension == "ogg"@ || extension == "m4a"@ || extension == "aac"@ || extension
            == "aiff"@ || extension == "aif"@,
{
    reveal_strlit(".");
    lemma_audio_extensions();
    let lower = lowercase(filename);
    let own = "."@ + extension;
    assert(lower =~= stem + own);
    assert(lower.subrange(lower.len() - own.len(), lower.len() as int) =~= own);
    assert(has_extension(lower, own));
    assert(plain_extension(own)) by {
        assert forall|i: int| 0 < i < own.len() implies #[trigger] own[i] != '.' by {
            assert(own[i] == extension[i - 1]);
        }
        assert forall|i: int| 0 <= i < own.len() implies #[trigger] own[i] != '/' && own[i]
            != '\\' by {
            if i > 0 {
                assert(own[i] == extension[i - 1]);
            }
        }
    }
    assert(own.skip(1) =~= extension);
    lemma_only_this_extension(lower, own, extension, ".mp3"@, "mp3"@);
    lemma_only_this_extension(lower, own, extension, ".flac"@, "flac"@);
    lemma_only_this_extension(lower, own, extension, ".wav"@, "wav"@);
    lemma_only_this_extension(lower, own, extension, ".ogg"@, "ogg"@);
    lemma_only_this_extension(lower, own, extension, ".m4a"@, "m4a"@);
    lemma_only_this_extension(lower, own, extension, ".aac"@, "aac"@);
    lemma_only_this_extension(lower, own, extension, ".aiff"@, "aiff"@);
    lemma_only_this_extension(lower, own, extension, ".aif"@, "aif"@);
}

/// A name with an extension ends in another one only where the two are the same.
proof fn lemma_only_this_extension(
    lower: Seq<char>,
    own: Seq<char>,
    name: Seq<char>,
    other: Seq<char>,
    other_name: Seq<char>,
)
    requires
        has_extension(lower, own),
        plain_extension(own),
        plain_extension(other),
        own == "."@ + name,
        other == "."@ + other_name,
    ensures
        has_extension(lower, other) <==> name == other_name,
{
    reveal_strlit(".");
    assert(own.skip(1) =~= name);
    assert(other.skip(1) =~= other_name);
    if has_extension(lower, other) {
        lemma_one_extension(lower, own, other);
    }
}

/// What a format is worth: 30 points for FLAC, 25 for WAV and AIFF, 12 for M4A and AAC, and
/// for MP3 and OGG as many as the bitrate makes. A file that is not audio is worth nothing.
#[verifier::spinoff_prover]
pub proof fn law_points_of_the_formats(filename: Seq<char>, bitrate: Option<u32>)
    ensures
        passes(filename, Some("flac"@)) ==> format_points(filename, bitrate) == 30,
        passes(filename, Some("wav"@)) || passes(filename, Some("aiff"@)) ==> format_points(
            filename,
            bitrate,
        ) == 25,
        passes(filename, Some("m4a"@)) || ".aac"@.is_suffix_of(lowercase(filename))
            ==> format_points(filename, bitrate) == 12,
        !audio(filename) ==> format_points(filename, bitrate) == 0,
        passes(filename, Some("mp3"@)) ==> match bitrate {
            None => format_points(filename, bitrate) == 5,
            Some(br) => {
                &&& br >= 320 ==> format_points(filename, bitrate) == 20
                &&& 256 <= br < 320 ==> format_points(filename, bitrate) == 15
                &&& 192 <= br < 256 ==> format_points(filename, bitrate) == 8
                &&& 128 <= br < 192 ==> format_points(filename, bitrate) == 2
                &&& br < 128 ==> format_points(filename, bitrate) == 0
            },
        },
        passes(filename, Some("ogg"@)) ==> match bitrate {
            None => format_points(filename, bitrate) == 10,
            Some(br) => {
                &&& br >= 320 ==> format_points(filename, bitrate) == 18
                &&& 256 <= br < 320 ==> format_points(filename, bitrate) == 14
                &&& 192 <= br < 256 ==> format_points(filename, bitrate) == 8
                &&& 128 <= br < 192 ==> format_points(filename, bitrate) == 3
                &&& br < 128 ==> format_points(filename, bitrate) == 0
            },
        },
{
    let lower = lowercase(filename);
    lemma_audio_extensions();
    lemma_format_names_differ();
    if has_extension(lower, ".wav"@) {
        lemma_ending_is_the_only_one(lower, ".wav"@);
    }
    if has_extension(lower, ".aiff"@) {
        lemma_ending_is_the_only_one(lower, ".aiff"@);
    }
    if has_extension(lower, ".aif"@) {
        lemma_ending_is_the_only_one(lower, ".aif"@);
    }
    if has_extension(lower, ".m4a"@) {
        lemma_ending_is_the_only_one(lower, ".m4a"@);
    }
    if has_extension(lower, ".aac"@) {
        lemma_ending_is_the_only_one(lower, ".aac"@);
    }
    if has_extension(lower, ".mp3"@) {
        lemma_ending_is_the_only_one(lower, ".mp3"@);
    }
    if has_extension(lower, ".ogg"@) {
        lemma_ending_is_the_only_one(lower, ".ogg"@);
    }
}

/// A name that ends in an extension ends in none of the others.
proof fn lemma_ending_is_the_only_one(lower: Seq<char>, own: Seq<char>)
    requires
        has_extension(lower, own),
        plain_extension(own),
    ensures
        has_extension(lower, ".mp3"@) ==> own == ".mp3"@,
        has_extension(lower, ".flac"@) ==> own == ".flac"@,
        has_extension(lower, ".wav"@) ==> own == ".wav"@,
        has_extension(lower, ".ogg"@) ==> own == ".ogg"@,
        has_extension(lower, ".m4a"@) ==> own == ".m4a"@,
        has_extension(lower, ".aac"@) ==> own == ".aac"@,
        has_extension(lower, ".aiff"@) ==> own == ".aiff"@,
        has_extension(lower, ".aif"@) ==> own == ".aif"@,
{
    lemma_audio_extensions();
    if has_extension(lower, ".mp3"@) {
        lemma_one_extension(lower, own, ".mp3"@);
    }
    if has_extension(lower, ".flac"@) {
        lemma_one_extension(lower, own, ".flac"@);
    }
    if has_extension(lower, ".wav"@) {
        lemma_one_extension(lower, own, ".wav"@);
    }
    if has_extension(lower, ".ogg"@) {
        lemma_one_extension(lower, own, ".ogg"@);
    }
    if has_extension(lower, ".m4a"@) {
        lemma_one_extension(lower, own, ".m4a"@);
    }
    if has_extension(lower, ".aac"@) {
        lemma_one_extension(lower, own, ".aac"@);
    }
    if has_extension(lower, ".aiff"@) {
        lemma_one_extension(lower, own, ".aiff"@);
    }
    if has_extension(lower, ".aif"@) {
        lemma_one_extension(lower, own, ".aif"@);
    }
}

/// A track is from one to fifty megabytes long.
pub proof fn law_size_of_a_track(size: u64)
    ensures
        track_sized(size) <==> 1024 * 1024 <= size <= 50 * 1024 * 1024,
{
}

/// What a title is worth: all where the names are the same, nine tenths where the track name
/// holds the title, seven where the title holds the track name; else six tenths in the
/// proportion of the words that both have to those that either has, and nothing where one of
/// them is empty.
pub proof fn law_worth_of_a_title(track: Seq<char>, expected: Seq<char>)
    ensures
        ({
            let (tenths, of) = title_tenths(track, expected);
            let some = track.len() > 0 && expected.len() > 0;
            let both = words(track).to_set().intersect(words(expected).to_set()).len();
            let either = words(track).to_set().union(words(expected).to_set()).len();
            &&& !some ==> tenths == 0
            &&& some && track == expected ==> tenths == 10 * of
            &&& some && track != expected && occurs(track, expected) ==> tenths == 9 * of
            &&& some && !occurs(track, expected) && occurs(expected, track) ==> tenths == 7 * of
            &&& some && !occurs(track, expected) && !occurs(expected, track) && both > 0
                ==> tenths * either == 6 * both * of
            &&& !occurs(track, expected) && !occurs(expected, track) && both == 0 ==> tenths == 0
        }),
{
    if track == expected {
        assert(track.subrange(0, track.len() as int) =~= expected);
        assert(occurs_at(track, expected, 0));
    }
    let both = shared_words(track, expected) as int;
    let either = all_words(track, expected) as int;
    assert((6 * both) * either == 6 * both * either);
}

/// The points of a file: a hundred times the share of the title, the points of its format,
/// and five for a file as long as a track.
pub proof fn law_points_add_up(
    filename: Seq<char>,
    size: u64,
    bitrate: Option<u32>,
    title: Seq<char>,
)
    ensures
        ({
            let (tenths, of) = title_tenths(track_name(filename), normalized(title));
            let (scaled, by) = file_points(filename, size, bitrate, title);
            let flat = format_points(filename, bitrate);
            &&& by == of
            &&& track_sized(size) ==> scaled == PARTS * (10 * tenths + (flat + 5) * of)
            &&& !track_sized(size) ==> scaled == PARTS * (10 * tenths + flat * of)
        }),
{
    let (tenths, of) = title_tenths(track_name(filename), normalized(title));
    let flat = format_points(filename, bitrate);
    assert(10 * tenths * PARTS + (flat + 5) * PARTS * of == PARTS * (10 * tenths + (flat + 5) * of))
        by (nonlinear_arith);
    assert(10 * tenths * PARTS + flat * PARTS * of == PARTS * (10 * tenths + flat * of)) by (
        nonlinear_arith);
}

/// The speed of a peer adds up to 20 points: all of them from a megabyte per second on, and
/// below that in proportion.
pub proof fn law_worth_of_speed(slow: u32, fast: u32)
    requires
        slow <= fast,
    ensures
        0 <= speed_parts(slow) <= speed_parts(fast) <= 20 * PARTS,
        speed_parts(slow) == 20 * PARTS <==> slow >= 1024 * 1024,
        slow <= 1024 * 1024 ==> speed_parts(slow) * (1024 * 1024) == 20 * PARTS * slow,
{
    let v = slow as int;
    assert((200 * v) * (1024 * 1024) == 20 * 10_485_760 * v) by (nonlinear_arith);
    assert(slow <= 1024 * 1024 ==> speed_parts(slow) == 200 * v);
    assert(20 * PARTS * slow == 20 * 10_485_760 * v);
}

/// A queue takes a tenth of a point for each place in it, and never more than 5 points.
pub proof fn law_cost_of_a_queue(short: u64, long: u64)
    requires
        short <= long,
    ensures
        0 <= queue_parts(short) <= queue_parts(long) <= 5 * PARTS,
        short <= 50 ==> queue_parts(short) * 10 == PARTS * short,
        short >= 50 ==> queue_parts(short) == 5 * PARTS,
{
}

/// Points of one file at two peers compare as what the peers add.
proof fn lemma_peers_compare(scaled: int, of: int, a: int, b: int)
    requires
        of > 0,
    ensures
        below((scaled + a * of, of), (scaled + b * of, of)) <==> a < b,
{
    assert(((scaled + a * of) * of < (scaled + b * of) * of) <==> a < b) by (nonlinear_arith)
        requires
            of > 0,
    ;
}

/// The same file is better at the faster peer and at the one with the shorter queue: at two
/// peers it compares as their speed less their queue does.
pub proof fn law_same_file_at_two_peers(
    here: SearchResult,
    there: SearchResult,
    file: SearchFile,
    title: Seq<char>,
)
    ensures
        below(candidate_points(here, file, title), candidate_points(there, file, title))
            <==> speed_parts(here.avg_speed) - queue_parts(here.queue_length) < speed_parts(
            there.avg_speed,
        ) - queue_parts(there.queue_length),
        here.avg_speed < there.avg_speed && here.avg_speed < 1024 * 1024 && here.queue_length
            == there.queue_length ==> below(
            candidate_points(here, file, title),
            candidate_points(there, file, title),
        ),
        here.avg_speed == there.avg_speed && here.queue_length > there.queue_length
            && there.queue_length < 50 ==> below(
            candidate_points(here, file, title),
            candidate_points(there, file, title),
        ),
{
    let bitrate = first_attribute(file.attributes@, 0);
    let (scaled, of) = file_points(file.filename@, file.size, bitrate, title);
    lemma_points_positive(here, file, title);
    lemma_peers_compare(
        scaled,
        of,
        speed_parts(here.avg_speed) - queue_parts(here.queue_length),
        speed_parts(there.avg_speed) - queue_parts(there.queue_length),
    );
}

/// At a peer with no speed and no queue a file has its own points and nothing else.
pub proof fn law_peer_without_speed_adds_nothing(
    result: SearchResult,
    file: SearchFile,
    title: Seq<char>,
)
    requires
        result.avg_speed == 0,
        result.queue_length == 0,
    ensures
        candidate_points(result, file, title) == file_points(
            file.filename@,
            file.size,
            first_attribute(file.attributes@, 0),
            title,
        ),
{
    let bitrate = first_attribute(file.attributes@, 0);
    let (scaled, of) = file_points(file.filename@, file.size, bitrate, title);
    assert(0 * of == 0) by (nonlinear_arith);
    assert(speed_parts(0) - queue_parts(0) == 0);
}

/// A file is not passed over for one with a lower score: where a peer with a free slot has an
/// audio file of the format that earns more than 50 points, the file that is chosen earns at
/// least as much, and more than that where the other one stands before it.
pub proof fn law_no_better_file_is_passed_over(
    results: Seq<SearchResult>,
    title: Seq<char>,
    format: Option<Seq<char>>,
    s: ScoredFile,
    k: int,
    l: int,
    i: int,
    j: int,
)
    requires
        chosen(results, title, format, s, k, l),
        0 <= i < results.len(),
        0 <= j < results[i].files@.len(),
        results[i].has_slots,
        audio(results[i].files@[j].filename@),
        passes(results[i].files@[j].filename@, format),
        below((50 * PARTS, 1), candidate_points(results[i], results[i].files@[j], title)),
    ensures
        s.score.value() == candidate_points(results[k], results[k].files@[l], title),
        !below(s.score.value(), candidate_points(results[i], results[i].files@[j], title)),
        i < k || (i == k && j < l) ==> below(
            candidate_points(results[i], results[i].files@[j], title),
            s.score.value(),
        ),
{
    assert(candidate(results, title, format, i, j));
    assert(comes_before(i, j, results.len() as int, 0));
}

/// Where no file earns more than 50 points at a peer with a free slot, the first file of the
/// format that is as long as a track is chosen, without points. A busy peer will do only
/// where all are busy.
pub proof fn law_second_choice_is_the_first_track(
    results: Seq<SearchResult>,
    title: Seq<char>,
    format: Option<Seq<char>>,
    s: ScoredFile,
    k: int,
    l: int,
    i: int,
    j: int,
)
    requires
        chosen(results, title, format, s, k, l),
        forall|a: int, b: int|
            0 <= a < results.len() && 0 <= b < results[a].files@.len() && results[a].has_slots
                && audio(results[a].files@[b].filename@) && passes(
                results[a].files@[b].filename@,
                format,
            ) ==> !below(
                (50 * PARTS, 1),
                #[trigger] candidate_points(results[a], results[a].files@[b], title),
            ),
        0 <= i < results.len(),
        0 <= j < results[i].files@.len(),
        i < k || (i == k && j < l),
    ensures
        s.score.value() == (0int, 1int),
        1024 * 1024 <= s.size <= 50 * 1024 * 1024,
        s.slot_free || forall|a: int|
            0 <= a < results.len() ==> !(#[trigger] results[a]).has_slots,
        !audio(results[i].files@[j].filename@) || !passes(results[i].files@[j].filename@, format)
            || !track_sized(results[i].files@[j].size) || (!results[i].has_slots && s.slot_free),
{
    let end = results.len() as int;
    assert forall|a: int, b: int| comes_before(a, b, end, 0) implies !#[trigger] candidate(
        results,
        title,
        format,
        a,
        b,
    ) by {
        if candidate(results, title, format, a, b) {
            assert(below(
                (50 * PARTS, 1),
                candidate_points(results[a], results[a].files@[b], title),
            ));
        }
    }
    assert(none_before(results, title, format, end, 0));
    assert(!second_choice(results, format, i, j));
    if s.slot_free {
    } else {
        assert(!any_free(results));
    }
}

/// Nothing is chosen only where there is nothing to choose: no free peer has an audio file of
/// the format that earns more than 50 points, and none that may be asked has one as long as
/// a track.
pub proof fn law_nothing_is_chosen_for_want_of_files(
    results: Seq<SearchResult>,
    title: Seq<char>,
    format: Option<Seq<char>>,
    i: int,
    j: int,
)
    requires
        none_before(results, title, format, results.len() as int, 0),
        no_second_before(results, format, results.len() as int, 0),
        0 <= i < results.len(),
        0 <= j < results[i].files@.len(),
        audio(results[i].files@[j].filename@),
        passes(results[i].files@[j].filename@, format),
    ensures
        results[i].has_slots ==> !below(
            (50 * PARTS, 1),
            candidate_points(results[i], results[i].files@[j], title),
        ),
        results[i].has_slots ==> !track_sized(results[i].files@[j].size),
        track_sized(results[i].files@[j].size) ==> exists|a: int|
            0 <= a < results.len() && (#[trigger] results[a]).has_slots,
{
    assert(comes_before(i, j, results.len() as int, 0));
    assert(!candidate(results, title, format, i, j));
    assert(!second_choice(results, format, i, j));
}

/// What is said of the file that is chosen is what the result says of it and of its peer.
pub proof fn law_choice_is_told_as_it_is(
    results: Seq<SearchResult>,
    title: Seq<char>,
    format: Option<Seq<char>>,
    s: ScoredFile,
    k: int,
    l: int,
)
    requires
        chosen(results, title, format, s, k, l),
    ensures
        s.username@ == results[k].username@,
        s.filename@ == results[k].files@[l].filename@,
        s.size == results[k].files@[l].size,
        s.bitrate == first_attribute(results[k].files@[l].attributes@, 0),
        s.slot_free == results[k].has_slots,
        s.avg_speed == results[k].avg_speed,
        s.queue_length == results[k].queue_length,
        s.peer_ip@ == results[k].peer_ip@,
        s.peer_port == results[k].peer_port,
{
}

/// A query with a separator names the artist before it and the title behind it, both without
/// the whitespace around them and in lower case. The first separator counts.
#[verifier::spinoff_prover]
pub proof fn law_query_names_artist_and_title(artist: Seq<char>, title: Seq<char>)
    requires
        !occurs(artist + seq![' ', '-'], seq![' ', '-', ' ']),
    ensures
        query_artist(artist + seq![' ', '-', ' '] + title) == Some(lowercase(trimmed(artist))),
        query_title(artist + seq![' ', '-', ' '] + title) == lowercase(trimmed(title)),
{
    let query = artist + separator() + title;
    let n = artist.len() as int;
    assert(query.subrange(n, n + 3) =~= separator());
    assert forall|j: int| 0 <= j < n implies !occurs_at(query, separator(), j) by {
        if occurs_at(query, separator(), j) {
            let head = artist + seq![' ', '-'];
            assert(head.subrange(j, j + 3) =~= query.subrange(j, j + 3));
            assert(occurs_at(head, seq![' ', '-', ' '], j));
        }
    }
    assert(splits_at(query, n));
    lemma_splits_once(query, n);
    assert(query.take(n) =~= artist);
    assert(query.skip(n + 3) =~= title);
}

/// A query without a separator is all title.
pub proof fn law_query_without_artist(query: Seq<char>)
    requires
        !occurs(query, seq![' ', '-', ' ']),
    ensures
        query_artist(query) is None,
        query_title(query) == lowercase(trimmed(query)),
{
}

/// What follows a separator, where no other one follows.
proof fn lemma_after_separator(folder: Seq<char>, name: Seq<char>, p: spec_fn(char) -> bool)
    requires
        folder.len() > 0 ==> p(folder.last()),
        forall|i: int| 0 <= i < name.len() ==> !p(#[trigger] name[i]),
    ensures
        after_last(folder + name, p) == name,
{
    lemma_after_last_of_sum(folder, name, p);
    assert(after_last(folder, p) + name =~= name);
}

/// What is stripped from the front, and what is left, where it is known where it ends.
proof fn lemma_strip_start_of_sum(head: Seq<char>, tail: Seq<char>, p: spec_fn(char) -> bool)
    requires
        made_of(head, p),
        tail.len() > 0 ==> !p(tail[0]),
    ensures
        strip_start(head + tail, p) == tail,
    decreases head.len(),
{
    if head.len() > 0 {
        assert(p(head[0]));
        assert forall|i: int| 0 <= i < head.skip(1).len() implies p(#[trigger] head.skip(1)[i]) by {
            assert(head.skip(1)[i] == head[i + 1]);
        }
        lemma_strip_start_of_sum(head.skip(1), tail, p);
        assert((head + tail).skip(1) =~= head.skip(1) + tail);
    } else {
        assert(head + tail =~= tail);
    }
}

/// The title in a file name is what is left without the folders before it, the track number
/// and what sets it off, and the extension: for a name in which these stand around a title
/// that begins with none of them, it is the normal form of that title.
#[verifier::spinoff_prover]
pub proof fn law_track_name_is_the_title(
    folders: Seq<char>,
    number_part: Seq<char>,
    filler_part: Seq<char>,
    title: Seq<char>,
    extension: Seq<char>,
)
    requires
        folders.len() > 0 ==> folders.last() == '/' || folders.last() == '\\',
        forall|i: int| 0 <= i < number_part.len() ==> numeric(#[trigger] number_part[i]),
        forall|i: int|
            0 <= i < number_part.len() ==> #[trigger] number_part[i] != '/' && number_part[i]
                != '\\',
        forall|i: int|
            0 <= i < filler_part.len() ==> (#[trigger] filler_part[i] == ' ' || filler_part[i] == '-'
                || filler_part[i] == '.' || filler_part[i] == '_'),
        title.len() > 0,
        !numeric(title[0]),
        title[0] != ' ' && title[0] != '-' && title[0] != '.' && title[0] != '_',
        forall|i: int| 0 <= i < title.len() ==> #[trigger] title[i] != '/' && title[i] != '\\',
        forall|i: int|
            0 <= i < extension.len() ==> #[trigger] extension[i] != '/' && extension[i] != '\\'
                && extension[i] != '.',
    ensures
        track_name(folders + number_part + filler_part + title + "."@ + extension) == normalized(
            trimmed(title),
        ),
{
    reveal_strlit(".");
    let stem = number_part + filler_part + title;
    let base = stem + "."@ + extension;
    let whole = folders + number_part + filler_part + title + "."@ + extension;
    assert(whole =~= folders + base);
    let p = slash();
    let n = number_part.len() as int;
    let f = n + filler_part.len();
    let t = f + title.len();
    assert forall|i: int| 0 <= i < base.len() implies !p(#[trigger] base[i]) by {
        if i < n {
            assert(base[i] == number_part[i]);
        } else if i < f {
            assert(base[i] == filler_part[i - n]);
        } else if i < t {
            assert(base[i] == title[i - f]);
        } else if i > t {
            assert(base[i] == extension[i - t - 1]);
        }
    }
    lemma_after_separator(folders, base, p);
    assert(base[t] == '.');
    assert forall|j: int| t < j < base.len() implies base[j] != '.' by {
        assert(base[j] == extension[j - t - 1]);
    }
    lemma_last_position(base, '.', t);
    assert(base.take(t) =~= stem);
    let rest = filler_part + title;
    assert(stem =~= number_part + rest);
    assert(rest.len() > 0 && !numeric(rest[0])) by {
        if filler_part.len() > 0 {
            assert(rest[0] == filler_part[0]);
        } else {
            assert(rest[0] == title[0]);
        }
    }
    lemma_strip_start_of_sum(number_part, rest, number());
    lemma_strip_start_of_sum(filler_part, title, filler());
}

/// Being a small letter or a digit of ASCII.
pub open spec fn plain_char(c: char) -> bool {
    ('a' <= c && c <= 'z') || ('0' <= c && c <= '9')
}

/// A normal form of an ASCII text has small letters and digits in it, and spaces between.
pub proof fn law_normal_form_is_plain(s: Seq<char>, i: int)
    requires
        ascii_text(s),
        0 <= i < normalized(s).len(),
    ensures
        plain_char(normalized(s)[i]) || whitespace(normalized(s)[i]),
{
    let small = |c: char| ascii(c) && ascii_lower(c) == c;
    let lower = lowercase(s);
    assert forall|k: int| 0 <= k < lower.len() implies small(#[trigger] lower[k]) by {
        assert(ascii(s[k]));
        assert(lower[k] == ascii_lower(s[k]));
    }
    lemma_normal_form(s, small);
    assert(small(normalized(s)[i]));
    assert(kept()(normalized(s)[i]));
}

/// Words of small letters and digits with one space between two are their own normal form:
/// none of them is lost, changed or moved.
#[verifier::spinoff_prover]
pub proof fn law_plain_words_stay(w: Seq<Seq<char>>)
    requires
        forall|k: int| #![trigger w[k]] 0 <= k < w.len() ==> w[k].len() > 0,
        forall|k: int, i: int|
            #![trigger w[k][i]]
            0 <= k < w.len() && 0 <= i < w[k].len() ==> plain_char(w[k][i]),
    ensures
        normalized(joined(w)) == joined(w),
        words(normalized(joined(w))) == w,
{
    let small = |c: char| plain_char(c) || c == ' ';
    let s = joined(w);
    assert forall|k: int| 0 <= k < w.len() implies made_of(#[trigger] w[k], small) && is_word(
        w[k],
    ) by {
        assert forall|i: int| 0 <= i < w[k].len() implies small(#[trigger] w[k][i])
            && !whitespace(w[k][i]) by {
            assert(plain_char(w[k][i]));
        }
    }
    lemma_joined_is_made_of(w, small);
    lemma_words_of_joined(w);
    assert(ascii_text(s)) by {
        assert forall|i: int| 0 <= i < s.len() implies ascii(#[trigger] s[i]) by {
            assert(small(s[i]));
        }
    }
    assert(lowercase(s) =~= s) by {
        assert forall|i: int| 0 <= i < s.len() implies lowercase(s)[i] == #[trigger] s[i] by {
            assert(small(s[i]));
        }
    }
    assert(made_of(s, kept())) by {
        assert forall|i: int| 0 <= i < s.len() implies kept()(#[trigger] s[i]) by {
            assert(small(s[i]));
        }
    }
    lemma_filter_passes_all(s, kept());
}

/// The case of letters does not count in a normal form.
pub proof fn law_normal_form_has_no_case(a: Seq<char>, b: Seq<char>)
    requires
        ascii_text(a),
        ascii_text(b),
        same_ignoring_case(a, b),
    ensures
        normalized(a) == normalized(b),
{
    assert(lowercase(a) =~= lowercase(b)) by {
        assert forall|i: int| 0 <= i < a.len() implies lowercase(a)[i] == lowercase(b)[i] by {
            assert(ascii_lower(a[i]) == ascii_lower(b[i]));
        }
    }
}

/// A filter takes a text piece by piece.
proof fn lemma_filter_of_sum(a: Seq<char>, b: Seq<char>, p: spec_fn(char) -> bool)
    ensures
        (a + b).filter(p) == a.filter(p) + b.filter(p),
    decreases b.len(),
{
    reveal(Seq::filter);
    if b.len() == 0 {
        assert(a + b =~= a);
        assert(a.filter(p) + b.filter(p) =~= a.filter(p));
    } else {
        lemma_filter_of_sum(a, b.drop_last(), p);
        assert((a + b).drop_last() =~= a + b.drop_last());
        assert((a + b).last() == b.last());
        assert((a + b).filter(p) =~= a.filter(p) + b.filter(p));
    }
}

/// Punctuation does not count in a normal form: with a sign in it that is neither letter nor
/// digit nor whitespace, a text has the same normal form as without.
#[verifier::spinoff_prover]
pub proof fn law_normal_form_has_no_punctuation(a: Seq<char>, c: char, b: Seq<char>)
    requires
        ascii_text(a),
        ascii_text(b),
        ascii(c),
        !alphanumeric(c),
        !whitespace(c),
    ensures
        normalized(a + seq![c] + b) == normalized(a + b),
{
    let whole = a + seq![c] + b;
    assert(ascii_text(whole)) by {
        assert forall|i: int| 0 <= i < whole.len() implies ascii(#[trigger] whole[i]) by {
            if i < a.len() {
                assert(whole[i] == a[i]);
            } else if i > a.len() {
                assert(whole[i] == b[i - a.len() - 1]);
            }
        }
    }
    assert(ascii_text(a + b)) by {
        assert forall|i: int| 0 <= i < (a + b).len() implies ascii(#[trigger] (a + b)[i]) by {
            if i < a.len() {
                assert((a + b)[i] == a[i]);
            } else {
                assert((a + b)[i] == b[i - a.len()]);
            }
        }
    }
    let (x, y) = (lowercase(a), lowercase(b));
    assert(lowercase(whole) =~= x + seq![c] + y);
    assert(lowercase(a + b) =~= x + y);
    let p = kept();
    lemma_filter_of_sum(x + seq![c], y, p);
    lemma_filter_of_sum(x, seq![c], p);
    lemma_filter_of_sum(x, y, p);
    assert(seq![c].filter(p) =~= Seq::<char>::empty()) by {
        reveal(Seq::filter);
        assert(seq![c].drop_last() =~= Seq::<char>::empty());
        assert(Seq::<char>::empty().filter(p) =~= Seq::<char>::empty());
        assert(!p(seq![c].last()));
    }
    assert(x.filter(p) + Seq::<char>::empty() =~= x.filter(p));
}

} // verus!
