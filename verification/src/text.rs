//! Text as sequences of characters: searching, trimming, splitting into words.

use vstd::prelude::*;

verus! {

// ---------------------------------------------------------------------------
// What std says of characters and strings
// ---------------------------------------------------------------------------
/// An ASCII character.
pub open spec fn ascii(c: char) -> bool {
    (c as u32) < 128
}

/// A text of ASCII characters alone.
pub open spec fn ascii_text(s: Seq<char>) -> bool {
    forall|i: int| 0 <= i < s.len() ==> ascii(#[trigger] s[i])
}

/// An ASCII letter in lower case, any other character as it is.
pub open spec fn ascii_lower(c: char) -> char {
    if 'A' <= c && c <= 'Z' {
        (c as u32 + 32) as char
    } else {
        c
    }
}

/// What `str::to_lowercase` makes of a text that is not all ASCII.
pub uninterp spec fn unicode_lowercase(s: Seq<char>) -> Seq<char>;

/// A text in lower case: letter by letter where it is ASCII.
pub open spec fn lowercase(s: Seq<char>) -> Seq<char> {
    if ascii_text(s) {
        s.map_values(|c: char| ascii_lower(c))
    } else {
        unicode_lowercase(s)
    }
}

/// Whether `char::is_alphanumeric` holds of a character beyond ASCII.
pub uninterp spec fn unicode_alphanumeric(c: char) -> bool;

/// A letter or a number.
pub open spec fn alphanumeric(c: char) -> bool {
    if ascii(c) {
        ('a' <= c && c <= 'z') || ('A' <= c && c <= 'Z') || ('0' <= c && c <= '9')
    } else {
        unicode_alphanumeric(c)
    }
}

/// Whether `char::is_whitespace` holds of a character beyond ASCII.
pub uninterp spec fn unicode_whitespace(c: char) -> bool;

/// White space. In ASCII that is the space and the characters from the tab to the carriage
/// return.
pub open spec fn whitespace(c: char) -> bool {
    if ascii(c) {
        c == ' ' || 9 <= c as u32 <= 13
    } else {
        unicode_whitespace(c)
    }
}

/// Whether `char::is_numeric` holds of a character beyond ASCII.
pub uninterp spec fn unicode_numeric(c: char) -> bool;

/// A number.
pub open spec fn numeric(c: char) -> bool {
    if ascii(c) {
        '0' <= c && c <= '9'
    } else {
        unicode_numeric(c)
    }
}

/// `str::to_lowercase`: an ASCII text with each of its capital letters replaced; of any
/// other text, what the Unicode tables say.
#[verifier::external_body]
pub(crate) fn to_lowercase(s: &str) -> (r: String)
    ensures
        r@ == lowercase(s@),
        !ascii_text(s@) ==> r@ == unicode_lowercase(s@),
{
    s.to_lowercase()
}

/// `char::is_alphanumeric`: the ASCII letters and digits; beyond ASCII, what the Unicode
/// tables say.
#[verifier::external_body]
pub(crate) fn is_alphanumeric(c: char) -> (r: bool)
    ensures
        r == alphanumeric(c),
        !ascii(c) ==> r == unicode_alphanumeric(c),
{
    c.is_alphanumeric()
}

/// `char::is_whitespace`: the ASCII white space; beyond ASCII, what the Unicode tables say.
#[verifier::external_body]
pub(crate) fn is_whitespace(c: char) -> (r: bool)
    ensures
        r == whitespace(c),
        !ascii(c) ==> r == unicode_whitespace(c),
{
    c.is_whitespace()
}

/// `char::is_numeric`: the ASCII digits; beyond ASCII, what the Unicode tables say.
#[verifier::external_body]
pub(crate) fn is_numeric(c: char) -> (r: bool)
    ensures
        r == numeric(c),
        !ascii(c) ==> r == unicode_numeric(c),
{
    c.is_numeric()
}

/// `String::push`: appends one character.
#[verifier::external_body]
pub(crate) fn push_char(s: &mut String, c: char)
    ensures
        final(s)@ == old(s)@.push(c),
{
    s.push(c)
}

// ---------------------------------------------------------------------------
// Conversions and equality
// ---------------------------------------------------------------------------
/// The characters of a text.
pub fn chars_of(s: &str) -> (chars: Vec<char>)
    ensures
        chars@ == s@,
{
    let mut chars: Vec<char> = Vec::new();
    for c in it: s.chars()
        invariant
            chars@ == it.seq().take(it.index() as int),
            it.seq() == s@,
    {
        chars.push(c);
        assert(it.seq().take(it.index() as int).push(c) =~= it.seq().take(it.index() + 1));
    }
    assert(s@.take(s@.len() as int) =~= s@);
    chars
}

/// The text that a part of a vector of characters spells.
pub fn text_of(chars: &Vec<char>, from: usize, to: usize) -> (s: String)
    requires
        from <= to <= chars.len(),
    ensures
        s@ == chars@.subrange(from as int, to as int),
{
    let mut s = String::new();
    let mut i: usize = from;
    while i < to
        invariant
            from <= i <= to <= chars.len(),
            s@ == chars@.subrange(from as int, i as int),
        decreases to - i,
    {
        push_char(&mut s, chars[i]);
        assert(chars@.subrange(from as int, i as int).push(chars@[i as int]) =~= chars@.subrange(
            from as int,
            i + 1,
        ));
        i = i + 1;
    }
    s
}

/// Whether two texts are the same.
pub fn same_text(a: &str, b: &str) -> (r: bool)
    ensures
        r == (a@ == b@),
{
    let x = a.to_owned();
    let y = b.to_owned();
    x == y
}

/// The texts of a sequence of strings.
pub open spec fn texts(v: Seq<String>) -> Seq<Seq<char>> {
    v.map_values(|s: String| s@)
}

/// The text of an optional string.
pub open spec fn opt_text(o: Option<String>) -> Option<Seq<char>> {
    match o {
        Some(s) => Some(s@),
        None => None,
    }
}

/// The text of an optional string slice.
pub open spec fn opt_str(o: Option<&str>) -> Option<Seq<char>> {
    match o {
        Some(s) => Some(s@),
        None => None,
    }
}

// ---------------------------------------------------------------------------
// Decimal numbers
// ---------------------------------------------------------------------------
/// The decimal digit of a number below ten.
pub open spec fn digit(d: nat) -> char {
    (48 + d) as char
}

/// A number in decimal, without leading zeros.
pub open spec fn decimal(n: nat) -> Seq<char>
    decreases n,
{
    if n < 10 {
        seq![digit(n)]
    } else {
        decimal(n / 10).push(digit(n % 10))
    }
}

/// Appends a number in decimal.
pub fn push_decimal(s: &mut String, n: u64)
    ensures
        final(s)@ == old(s)@ + decimal(n as nat),
    decreases n,
{
    let d: u8 = (n % 10) as u8;
    let c: char = (48u8 + d) as char;
    if n >= 10 {
        push_decimal(s, n / 10);
    }
    push_char(s, c);
    assert(s@ =~= old(s)@ + decimal(n as nat));
}

/// An address of four bytes in dotted decimal.
pub open spec fn dotted(a: u8, b: u8, c: u8, d: u8) -> Seq<char> {
    decimal(a as nat) + seq!['.'] + decimal(b as nat) + seq!['.'] + decimal(c as nat) + seq!['.']
        + decimal(d as nat)
}

/// Writes an address of four bytes in dotted decimal.
pub fn dotted_address(a: u8, b: u8, c: u8, d: u8) -> (s: String)
    ensures
        s@ == dotted(a, b, c, d),
{
    let mut s = String::new();
    push_decimal(&mut s, a as u64);
    push_char(&mut s, '.');
    push_decimal(&mut s, b as u64);
    push_char(&mut s, '.');
    push_decimal(&mut s, c as u64);
    push_char(&mut s, '.');
    push_decimal(&mut s, d as u64);
    assert(s@ =~= dotted(a, b, c, d));
    s
}

/// Appends a text.
pub fn push_text(s: &mut String, t: &str)
    ensures
        final(s)@ == old(s)@ + t@,
{
    s.append(t);
}

// ---------------------------------------------------------------------------
// Searching
// ---------------------------------------------------------------------------
/// The text `needle` stands in `s` at position `i`.
pub open spec fn occurs_at(s: Seq<char>, needle: Seq<char>, i: int) -> bool {
    &&& 0 <= i
    &&& i + needle.len() <= s.len()
    &&& s.subrange(i, i + needle.len()) == needle
}

/// The text `needle` stands somewhere in `s`.
pub open spec fn occurs(s: Seq<char>, needle: Seq<char>) -> bool {
    exists|i: int| occurs_at(s, needle, i)
}

/// Whether `needle` stands in `s` at position `i`.
pub fn stands_at(s: &Vec<char>, needle: &Vec<char>, i: usize) -> (r: bool)
    ensures
        r == occurs_at(s@, needle@, i as int),
{
    if needle.len() > s.len() || i > s.len() - needle.len() {
        return false;
    }
    let mut k: usize = 0;
    while k < needle.len()
        invariant
            k <= needle.len(),
            i + needle.len() <= s.len(),
            forall|j: int| 0 <= j < k ==> s@[i + j] == needle@[j],
        decreases needle.len() - k,
    {
        if s[i + k] != needle[k] {
            assert(s@.subrange(i as int, i + needle@.len())[k as int] != needle@[k as int]);
            return false;
        }
        k = k + 1;
    }
    assert(s@.subrange(i as int, i + needle@.len()) =~= needle@);
    true
}

/// The first position at which `needle` stands in `s`.
pub fn find(s: &Vec<char>, needle: &Vec<char>) -> (r: Option<usize>)
    ensures
        match r {
            Some(i) => occurs_at(s@, needle@, i as int) && forall|j: int|
                0 <= j < i ==> !occurs_at(s@, needle@, j),
            None => !occurs(s@, needle@),
        },
{
    let mut i: usize = 0;
    while i < s.len()
        invariant
            i <= s.len(),
            forall|j: int| 0 <= j < i ==> !occurs_at(s@, needle@, j),
        decreases s.len() - i,
    {
        if stands_at(s, needle, i) {
            return Some(i);
        }
        i = i + 1;
    }
    if stands_at(s, needle, i) {
        return Some(i);
    }
    assert forall|j: int| !occurs_at(s@, needle@, j) by {
        if j > s.len() {
            assert(!occurs_at(s@, needle@, j));
        }
    }
    None
}

/// Whether `needle` stands somewhere in `s`.
pub fn contains(s: &str, needle: &str) -> (r: bool)
    ensures
        r == occurs(s@, needle@),
{
    match find(&chars_of(s), &chars_of(needle)) {
        Some(i) => {
            assert(occurs_at(s@, needle@, i as int));
            true
        },
        None => false,
    }
}

/// Whether `s` ends in `tail`.
pub fn ends_with(s: &Vec<char>, tail: &str) -> (r: bool)
    ensures
        r == tail@.is_suffix_of(s@),
{
    let t = chars_of(tail);
    if t.len() > s.len() {
        return false;
    }
    let at: usize = s.len() - t.len();
    stands_at(s, &t, at)
}

/// The position of the last character of `s` that is `a` or `b`, if any.
pub fn last_of(s: &Vec<char>, from: usize, to: usize, a: char, b: char) -> (r: Option<usize>)
    requires
        from <= to <= s.len(),
    ensures
        match r {
            Some(i) => from <= i < to && (s@[i as int] == a || s@[i as int] == b) && forall|j: int|
                i < j < to ==> s@[j] != a && s@[j] != b,
            None => forall|j: int| from <= j < to ==> s@[j] != a && s@[j] != b,
        },
{
    let mut i: usize = to;
    while i > from
        invariant
            from <= i <= to <= s.len(),
            forall|j: int| i <= j < to ==> s@[j] != a && s@[j] != b,
        decreases i,
    {
        i = i - 1;
        if s[i] == a || s[i] == b {
            return Some(i);
        }
    }
    None
}

// ---------------------------------------------------------------------------
// Trimming
// ---------------------------------------------------------------------------
/// What is left of `s` without the leading characters of which `p` holds.
pub open spec fn strip_start(s: Seq<char>, p: spec_fn(char) -> bool) -> Seq<char>
    decreases s.len(),
{
    if s.len() > 0 && p(s[0]) {
        strip_start(s.skip(1), p)
    } else {
        s
    }
}

/// What is left of `s` without the trailing characters of which `p` holds.
pub open spec fn strip_end(s: Seq<char>, p: spec_fn(char) -> bool) -> Seq<char>
    decreases s.len(),
{
    if s.len() > 0 && p(s.last()) {
        strip_end(s.drop_last(), p)
    } else {
        s
    }
}

/// Being whitespace, as a predicate.
pub open spec fn white() -> spec_fn(char) -> bool {
    |c: char| whitespace(c)
}

/// A text without the whitespace around it.
pub open spec fn trimmed(s: Seq<char>) -> Seq<char> {
    strip_end(strip_start(s, white()), white())
}

/// Stripping from the front is dropping a prefix.
pub proof fn lemma_strip_start_is_suffix(s: Seq<char>, p: spec_fn(char) -> bool)
    ensures
        strip_start(s, p).len() <= s.len(),
        strip_start(s, p) == s.skip(s.len() - strip_start(s, p).len()),
    decreases s.len(),
{
    if s.len() > 0 && p(s[0]) {
        lemma_strip_start_is_suffix(s.skip(1), p);
        let t = strip_start(s, p);
        assert(s.skip(1).skip(s.skip(1).len() - t.len()) =~= s.skip(s.len() - t.len()));
    } else {
        assert(s.skip(0) =~= s);
    }
}

/// The end of a text without the whitespace at its end.
pub fn white_end(s: &Vec<char>, from: usize, to: usize) -> (end: usize)
    requires
        from <= to <= s.len(),
    ensures
        from <= end <= to,
        s@.subrange(from as int, end as int) == strip_end(
            s@.subrange(from as int, to as int),
            white(),
        ),
{
    let mut end: usize = to;
    let ghost whole = s@.subrange(from as int, to as int);
    while end > from && is_whitespace(s[end - 1])
        invariant
            from <= end <= to <= s.len(),
            strip_end(s@.subrange(from as int, end as int), white()) == strip_end(whole, white()),
        decreases end,
    {
        assert(s@.subrange(from as int, end as int).drop_last() =~= s@.subrange(
            from as int,
            end - 1,
        ));
        end = end - 1;
    }
    end
}

/// The start of a text without the whitespace at its start.
pub fn white_start(s: &Vec<char>, from: usize, to: usize) -> (start: usize)
    requires
        from <= to <= s.len(),
    ensures
        from <= start <= to,
        s@.subrange(start as int, to as int) == strip_start(
            s@.subrange(from as int, to as int),
            white(),
        ),
        start < to ==> !whitespace(s@[start as int]),
{
    let mut start: usize = from;
    let ghost whole = s@.subrange(from as int, to as int);
    while start < to && is_whitespace(s[start])
        invariant
            from <= start <= to <= s.len(),
            strip_start(s@.subrange(start as int, to as int), white()) == strip_start(
                whole,
                white(),
            ),
        decreases to - start,
    {
        assert(s@.subrange(start as int, to as int).skip(1) =~= s@.subrange(start + 1, to as int));
        start = start + 1;
    }
    start
}

/// Removes the whitespace around a part of a text.
pub fn trim_part(s: &Vec<char>, from: usize, to: usize) -> (r: String)
    requires
        from <= to <= s.len(),
    ensures
        r@ == trimmed(s@.subrange(from as int, to as int)),
{
    let start: usize = white_start(s, from, to);
    let end: usize = white_end(s, start, to);
    text_of(s, start, end)
}

/// Removes the whitespace around a text.
pub fn trim(s: &str) -> (r: String)
    ensures
        r@ == trimmed(s@),
{
    let chars = chars_of(s);
    assert(chars@.subrange(0, chars@.len() as int) =~= s@);
    trim_part(&chars, 0, chars.len())
}

// ---------------------------------------------------------------------------
// Words
// ---------------------------------------------------------------------------
/// How many characters of `s` come before the first whitespace.
pub open spec fn word_length(s: Seq<char>) -> nat
    decreases s.len(),
{
    if s.len() > 0 && !whitespace(s[0]) {
        1 + word_length(s.skip(1))
    } else {
        0
    }
}

/// The word at the start of `s` is no longer than `s`, and it is not empty when `s`
/// starts with one.
pub proof fn lemma_word_length(s: Seq<char>)
    ensures
        word_length(s) <= s.len(),
        s.len() > 0 && !whitespace(s[0]) ==> word_length(s) > 0,
        forall|i: int| 0 <= i < word_length(s) ==> !whitespace(#[trigger] s[i]),
        word_length(s) < s.len() ==> whitespace(s[word_length(s) as int]),
    decreases s.len(),
{
    if s.len() > 0 && !whitespace(s[0]) {
        lemma_word_length(s.skip(1));
        assert forall|i: int| 0 <= i < word_length(s) implies !whitespace(#[trigger] s[i]) by {
            if i > 0 {
                assert(s.skip(1)[i - 1] == s[i]);
            }
        }
    }
}

/// The words of a text: its longest stretches without whitespace, in order.
pub open spec fn words(s: Seq<char>) -> Seq<Seq<char>>
    decreases s.len(),
{
    let t = strip_start(s, white());
    if t.len() == 0 || s.len() < t.len() || word_length(t) == 0 || word_length(t) > t.len() {
        Seq::empty()
    } else {
        seq![t.take(word_length(t) as int)] + words(t.skip(word_length(t) as int))
    }
}

/// The first word of a text that starts with one, and the words after it.
proof fn lemma_words_step(s: Seq<char>)
    ensures
        ({
            let t = strip_start(s, white());
            let n = word_length(t) as int;
            if t.len() == 0 {
                words(s) == Seq::<Seq<char>>::empty()
            } else {
                &&& 0 < n <= t.len()
                &&& words(s) == seq![t.take(n)] + words(t.skip(n))
            }
        }),
{
    let t = strip_start(s, white());
    lemma_strip_start_is_suffix(s, white());
    lemma_word_length(t);
    lemma_strip_start_stops(s, white());
}

/// What is left after stripping does not start with what was stripped.
proof fn lemma_strip_start_stops(s: Seq<char>, p: spec_fn(char) -> bool)
    ensures
        strip_start(s, p).len() > 0 ==> !p(strip_start(s, p)[0]),
    decreases s.len(),
{
    if s.len() > 0 && p(s[0]) {
        lemma_strip_start_stops(s.skip(1), p);
    }
}

/// Two words have whitespace between them, so a text has at most one word for every two
/// characters, and one more.
pub proof fn lemma_few_words(s: Seq<char>)
    ensures
        2 * words(s).len() <= s.len() + 1,
    decreases s.len(),
{
    let t = strip_start(s, white());
    let n = word_length(t) as int;
    lemma_strip_start_is_suffix(s, white());
    lemma_words_step(s);
    if t.len() > 0 {
        let rest = t.skip(n);
        lemma_word_length(t);
        if rest.len() > 0 {
            assert(whitespace(rest[0]));
            assert(strip_start(rest, white()) == strip_start(rest.skip(1), white()));
            lemma_words_step(rest);
            lemma_words_step(rest.skip(1));
            lemma_few_words(rest.skip(1));
        } else {
            lemma_words_step(rest);
        }
    }
}

/// The end of the word that starts at `from`.
fn word_end(s: &Vec<char>, from: usize) -> (end: usize)
    requires
        from <= s.len(),
    ensures
        from <= end <= s.len(),
        end - from == word_length(s@.skip(from as int)),
{
    let mut end: usize = from;
    while end < s.len() && !is_whitespace(s[end])
        invariant
            from <= end <= s.len(),
            (end - from) + word_length(s@.skip(end as int)) == word_length(s@.skip(from as int)),
        decreases s.len() - end,
    {
        assert(s@.skip(end as int).skip(1) =~= s@.skip(end + 1));
        assert(s@.skip(end as int)[0] == s@[end as int]);
        end = end + 1;
    }
    assert(end < s.len() ==> s@.skip(end as int)[0] == s@[end as int]);
    end
}

/// Splits a text into its words.
pub fn split_words(s: &Vec<char>) -> (r: Vec<String>)
    ensures
        texts(r@) == words(s@),
{
    let mut found: Vec<String> = Vec::new();
    let mut at: usize = 0;
    assert(s@.skip(0) =~= s@);
    assert(texts(found@) =~= Seq::<Seq<char>>::empty());
    assert(Seq::<Seq<char>>::empty() + words(s@) =~= words(s@));
    loop
        invariant_except_break
            at <= s.len(),
            texts(found@) + words(s@.skip(at as int)) == words(s@),
        ensures
            texts(found@) == words(s@),
        decreases s.len() - at,
    {
        let start: usize = white_start(s, at, s.len());
        let ghost left = s@.skip(at as int);
        let ghost word_on = s@.skip(start as int);
        proof {
            lemma_words_step(left);
            assert(s@.subrange(at as int, s@.len() as int) =~= left);
            assert(s@.subrange(start as int, s@.len() as int) =~= word_on);
        }
        if start == s.len() {
            assert(texts(found@) + words(left) =~= texts(found@));
            break;
        }
        let end: usize = word_end(s, start);
        let word = text_of(s, start, end);
        assert(word@ =~= word_on.take(end - start));
        assert(word_on.skip(end - start) =~= s@.skip(end as int));
        let ghost before = found@;
        found.push(word);
        assert(texts(found@) =~= texts(before).push(word@));
        assert(texts(found@) + words(s@.skip(end as int)) =~= texts(before) + (seq![word@] + words(
            s@.skip(end as int),
        )));
        at = end;
    }
    found
}

/// Words put together with one space between two.
pub open spec fn joined(w: Seq<Seq<char>>) -> Seq<char>
    decreases w.len(),
{
    if w.len() == 0 {
        Seq::empty()
    } else if w.len() == 1 {
        w[0]
    } else {
        joined(w.drop_last()) + seq![' '] + w.last()
    }
}

/// Puts words together with one space between two.
pub fn join_words(w: &Vec<String>) -> (r: String)
    ensures
        r@ == joined(texts(w@)),
{
    let mut r = String::new();
    let mut i: usize = 0;
    assert(texts(w@).take(0) =~= Seq::<Seq<char>>::empty());
    while i < w.len()
        invariant
            i <= w.len(),
            r@ == joined(texts(w@).take(i as int)),
        decreases w.len() - i,
    {
        let ghost t = texts(w@);
        assert(t.take(i + 1).drop_last() =~= t.take(i as int));
        assert(t.take(i + 1).last() == w@[i as int]@);
        if i > 0 {
            push_char(&mut r, ' ');
        }
        let ghost before = r@;
        push_text(&mut r, w[i].as_str());
        assert(i == 0 ==> r@ =~= w@[0]@);
        assert(i > 0 ==> r@ =~= joined(t.take(i as int)) + seq![' '] + w@[i as int]@);
        i = i + 1;
    }
    assert(texts(w@).take(w@.len() as int) =~= texts(w@));
    r
}

/// `p` holds of every character of a text.
pub open spec fn made_of(s: Seq<char>, p: spec_fn(char) -> bool) -> bool {
    forall|i: int| 0 <= i < s.len() ==> p(#[trigger] s[i])
}

/// A word: some characters, none of them whitespace.
pub open spec fn is_word(s: Seq<char>) -> bool {
    s.len() > 0 && forall|i: int| 0 <= i < s.len() ==> !whitespace(#[trigger] s[i])
}

/// The words of a text are words, of characters that the text is made of.
pub proof fn lemma_words_of(s: Seq<char>, p: spec_fn(char) -> bool)
    requires
        made_of(s, p),
    ensures
        forall|i: int| 0 <= i < words(s).len() ==> is_word(#[trigger] words(s)[i]) && made_of(
            words(s)[i],
            p,
        ),
    decreases s.len(),
{
    let t = strip_start(s, white());
    let n = word_length(t) as int;
    lemma_strip_start_is_suffix(s, white());
    lemma_words_step(s);
    if t.len() > 0 {
        lemma_word_length(t);
        assert(made_of(t, p)) by {
            assert forall|i: int| 0 <= i < t.len() implies p(#[trigger] t[i]) by {
                assert(t[i] == s[s.len() - t.len() + i]);
            }
        }
        assert(made_of(t.skip(n), p)) by {
            assert forall|i: int| 0 <= i < t.skip(n).len() implies p(#[trigger] t.skip(n)[i]) by {
                assert(t.skip(n)[i] == t[n + i]);
            }
        }
        lemma_words_of(t.skip(n), p);
        let first = t.take(n);
        assert(is_word(first) && made_of(first, p)) by {
            assert forall|i: int| 0 <= i < first.len() implies !whitespace(#[trigger] first[i])
                && p(first[i]) by {
                assert(first[i] == t[i]);
            }
        }
        assert forall|i: int| 0 <= i < words(s).len() implies is_word(#[trigger] words(s)[i])
            && made_of(words(s)[i], p) by {
            if i > 0 {
                assert(words(s)[i] == words(t.skip(n))[i - 1]);
            }
        }
    }
}

/// Joined words are made of what the words and the space are made of.
pub proof fn lemma_joined_is_made_of(w: Seq<Seq<char>>, p: spec_fn(char) -> bool)
    requires
        forall|i: int| 0 <= i < w.len() ==> made_of(#[trigger] w[i], p),
        p(' '),
    ensures
        made_of(joined(w), p),
    decreases w.len(),
{
    if w.len() > 1 {
        lemma_joined_is_made_of(w.drop_last(), p);
        assert(made_of(w.last(), p));
    }
}

/// Joined words begin with the first of them, and the others follow after a space.
proof fn lemma_joined_step(w: Seq<Seq<char>>)
    requires
        w.len() > 1,
    ensures
        joined(w) == w[0] + seq![' '] + joined(w.skip(1)),
    decreases w.len(),
{
    if w.len() == 2 {
        assert(joined(w.drop_last()) == w[0]);
        assert(joined(w.skip(1)) == w.last());
    } else {
        lemma_joined_step(w.drop_last());
        assert(w.drop_last().skip(1) =~= w.skip(1).drop_last());
        assert(joined(w.skip(1)) == joined(w.skip(1).drop_last()) + seq![' '] + w.last());
    }
    assert(joined(w) =~= w[0] + seq![' '] + joined(w.skip(1)));
}

/// Words that are joined are the words of what comes out.
pub proof fn lemma_words_of_joined(w: Seq<Seq<char>>)
    requires
        forall|i: int| 0 <= i < w.len() ==> is_word(#[trigger] w[i]),
    ensures
        words(joined(w)) == w,
    decreases w.len(),
{
    let t = joined(w);
    lemma_words_step(t);
    if w.len() == 0 {
        assert(w =~= Seq::<Seq<char>>::empty());
    } else {
        let first = w[0];
        let rest = w.skip(1);
        assert(is_word(first));
        let n = first.len() as int;
        if w.len() > 1 {
            lemma_joined_step(w);
            assert(t[n] == ' ');
        }
        assert forall|i: int| 0 <= i < n implies #[trigger] t[i] == first[i] by {
        }
        assert(!whitespace(t[0]));
        lemma_word_length(t);
        let k = word_length(t) as int;
        if k < n {
            assert(!whitespace(first[k]));
        }
        assert(k == n);
        assert(t.take(n) =~= first);
        let tail = t.skip(n);
        if w.len() > 1 {
            assert forall|i: int| 0 <= i < rest.len() implies is_word(#[trigger] rest[i]) by {
                assert(rest[i] == w[i + 1]);
            }
            lemma_words_of_joined(rest);
            assert(tail.skip(1) =~= joined(rest));
            assert(tail[0] == ' ');
            assert(strip_start(tail, white()) == strip_start(tail.skip(1), white()));
            lemma_words_step(tail);
            lemma_words_step(tail.skip(1));
        } else {
            lemma_words_step(tail);
            assert(rest =~= Seq::<Seq<char>>::empty());
        }
        assert(words(t) =~= seq![first] + rest);
        assert(w =~= seq![first] + rest);
    }
}

// ---------------------------------------------------------------------------
// Numbers in text
// ---------------------------------------------------------------------------
/// Being a decimal digit.
pub open spec fn is_digit(c: char) -> bool {
    '0' <= c && c <= '9'
}

/// The text is made of decimal digits.
pub open spec fn all_digits(s: Seq<char>) -> bool {
    forall|i: int| 0 <= i < s.len() ==> is_digit(#[trigger] s[i])
}

/// The number that decimal digits spell.
pub open spec fn digits_value(s: Seq<char>) -> nat
    decreases s.len(),
{
    if s.len() == 0 {
        0
    } else {
        digits_value(s.drop_last()) * 10 + (s.last() as nat - 48) as nat
    }
}

/// The digits of a number in a text: a plus sign before them does not count.
pub open spec fn unsigned_digits(s: Seq<char>) -> Seq<char> {
    if s.len() > 0 && s[0] == '+' {
        s.skip(1)
    } else {
        s
    }
}

/// The number that a text spells: digits, perhaps after a plus sign, and no more than 64
/// bits can hold.
pub open spec fn number_in(s: Seq<char>) -> Option<u64> {
    let d = unsigned_digits(s);
    if d.len() > 0 && all_digits(d) && digits_value(d) <= u64::MAX {
        Some(digits_value(d) as u64)
    } else {
        None
    }
}

/// More digits make no smaller number.
proof fn lemma_digits_grow(s: Seq<char>, n: int)
    requires
        all_digits(s),
        0 <= n <= s.len(),
    ensures
        digits_value(s.take(n)) <= digits_value(s),
    decreases s.len(),
{
    if n < s.len() {
        assert(all_digits(s.drop_last())) by {
            assert forall|i: int| 0 <= i < s.drop_last().len() implies is_digit(
                #[trigger] s.drop_last()[i],
            ) by {
                assert(is_digit(s[i]));
            }
        }
        lemma_digits_grow(s.drop_last(), n);
        assert(s.drop_last().take(n) =~= s.take(n));
        assert(is_digit(s[s.len() - 1]));
    } else {
        assert(s.take(n) =~= s);
    }
}

/// Reads the number that a part of a text spells.
pub fn parse_number(s: &Vec<char>, from: usize, to: usize) -> (r: Option<u64>)
    requires
        from <= to <= s.len(),
    ensures
        r == number_in(s@.subrange(from as int, to as int)),
{
    let ghost whole = s@.subrange(from as int, to as int);
    let start: usize = if from < to && s[from] == '+' {
        from + 1
    } else {
        from
    };
    let ghost d = unsigned_digits(whole);
    assert(d =~= s@.subrange(start as int, to as int));
    if start == to {
        return None;
    }
    let mut value: u64 = 0;
    let mut i: usize = start;
    while i < to
        invariant
            from <= start <= i <= to <= s.len(),
            d == s@.subrange(start as int, to as int),
            d == unsigned_digits(whole),
            whole == s@.subrange(from as int, to as int),
            value == digits_value(d.take(i - start)),
            forall|j: int| 0 <= j < i - start ==> is_digit(#[trigger] d[j]),
        decreases to - i,
    {
        let c = s[i];
        assert(d[i - start] == c);
        if c < '0' || c > '9' {
            assert(!is_digit(d[i - start]));
            return None;
        }
        let digit: u64 = (c as u32 - 48) as u64;
        let ghost next = d.take(i - start + 1);
        proof {
            assert(next.drop_last() =~= d.take(i - start));
            assert(next.last() == c);
            if all_digits(d) {
                lemma_digits_grow(d, i - start + 1);
            }
        }
        if value > (u64::MAX - digit) / 10 {
            assert(digits_value(next) > u64::MAX);
            return None;
        }
        value = value * 10 + digit;
        i = i + 1;
    }
    assert(d.take(i - start) =~= d);
    Some(value)
}

/// A signed number in decimal.
pub open spec fn signed_decimal(n: int) -> Seq<char> {
    if n < 0 {
        seq!['-'] + decimal((-n) as nat)
    } else {
        decimal(n as nat)
    }
}

/// Appends a signed number in decimal.
pub fn push_signed(s: &mut String, n: i64)
    ensures
        final(s)@ == old(s)@ + signed_decimal(n as int),
{
    if n < 0 {
        push_char(s, '-');
        let size: u64 = (-(n as i128)) as u64;
        push_decimal(s, size);
        assert(s@ =~= old(s)@ + signed_decimal(n as int));
    } else {
        push_decimal(s, n as u64);
    }
}

// ---------------------------------------------------------------------------
// Comparison without regard to case
// ---------------------------------------------------------------------------
/// The texts are the same up to the case of ASCII letters.
pub open spec fn same_ignoring_case(a: Seq<char>, b: Seq<char>) -> bool {
    a.len() == b.len() && forall|i: int|
        0 <= i < a.len() ==> ascii_lower(#[trigger] a[i]) == ascii_lower(b[i])
}

/// Puts an ASCII letter into lower case.
fn to_ascii_lower(c: char) -> (r: char)
    ensures
        r == ascii_lower(c),
{
    if c >= 'A' && c <= 'Z' {
        let code: u8 = c as u8;
        (code + 32) as char
    } else {
        c
    }
}

/// Whether two texts are the same up to the case of ASCII letters.
pub fn eq_ignoring_case(a: &str, b: &str) -> (r: bool)
    ensures
        r == same_ignoring_case(a@, b@),
{
    let x = chars_of(a);
    let y = chars_of(b);
    if x.len() != y.len() {
        return false;
    }
    let mut i: usize = 0;
    while i < x.len()
        invariant
            i <= x.len(),
            x.len() == y.len(),
            x@ == a@,
            y@ == b@,
            forall|j: int| 0 <= j < i ==> ascii_lower(#[trigger] x@[j]) == ascii_lower(y@[j]),
        decreases x.len() - i,
    {
        if to_ascii_lower(x[i]) != to_ascii_lower(y[i]) {
            assert(ascii_lower(a@[i as int]) != ascii_lower(b@[i as int]));
            return false;
        }
        i = i + 1;
    }
    true
}

// ---------------------------------------------------------------------------
// Laws
// ---------------------------------------------------------------------------
/// The digits of a number spell that number, and are digits.
proof fn lemma_decimal_value(n: nat)
    ensures
        digits_value(decimal(n)) == n,
        all_digits(decimal(n)),
        decimal(n).len() > 0,
    decreases n,
{
    if n >= 10 {
        lemma_decimal_value(n / 10);
        let head = decimal(n / 10);
        let last = digit(n % 10);
        assert(decimal(n) == head.push(last));
        assert(head.push(last).drop_last() =~= head);
        assert(head.push(last).last() == last);
        assert(all_digits(decimal(n))) by {
            assert forall|i: int| 0 <= i < decimal(n).len() implies is_digit(
                #[trigger] decimal(n)[i],
            ) by {
                if i < head.len() {
                    assert(is_digit(head[i]));
                }
            }
        }
    } else {
        assert(decimal(n).drop_last() =~= Seq::<char>::empty());
        assert(digits_value(Seq::<char>::empty()) == 0);
        assert(decimal(n).last() == digit(n));
    }
}

/// A number that is written in decimal is read back as that number.
pub proof fn law_decimal_is_read_back(n: u64)
    ensures
        number_in(decimal(n as nat)) == Some(n),
        all_digits(decimal(n as nat)),
{
    lemma_decimal_value(n as nat);
    assert(is_digit(decimal(n as nat)[0]));
}

/// Different numbers are written differently.
pub proof fn law_decimals_differ(a: nat, b: nat)
    ensures
        decimal(a) == decimal(b) ==> a == b,
{
    lemma_decimal_value(a);
    lemma_decimal_value(b);
}

/// A number below zero is written with a minus sign before its size, and no other one has
/// the sign.
pub proof fn law_only_negative_numbers_have_a_sign(n: int)
    ensures
        signed_decimal(n).len() > 0,
        signed_decimal(n)[0] == '-' <==> n < 0,
        n < 0 ==> digits_value(signed_decimal(n).skip(1)) == -n,
        n >= 0 ==> digits_value(signed_decimal(n)) == n,
{
    if n < 0 {
        lemma_decimal_value((-n) as nat);
        assert(signed_decimal(n).skip(1) =~= decimal((-n) as nat));
    } else {
        lemma_decimal_value(n as nat);
        assert(is_digit(decimal(n as nat)[0]));
    }
}

/// What is read as a number is digits alone, but for a plus sign before them, and at least
/// one of them.
pub proof fn law_numbers_are_digits(s: Seq<char>)
    ensures
        number_in(s) is Some ==> s.len() > 0 && (s[0] == '+' || is_digit(s[0])) && is_digit(
            s.last(),
        ) && forall|i: int| 0 < i < s.len() ==> is_digit(#[trigger] s[i]),
{
    if number_in(s) is Some {
        let d = unsigned_digits(s);
        let k = s.len() - d.len();
        assert forall|i: int| k <= i < s.len() implies is_digit(#[trigger] s[i]) by {
            assert(is_digit(d[i - k]));
        }
    }
}

/// Two texts are the same but for case exactly where each character is the same in both, or
/// is a letter of the alphabet in one of them and the same letter as a capital in the other.
#[verifier::spinoff_prover]
pub proof fn law_case_does_not_matter(a: Seq<char>, b: Seq<char>)
    ensures
        same_ignoring_case(a, b) <==> a.len() == b.len() && forall|i: int|
            0 <= i < a.len() ==> {
                ||| #[trigger] a[i] == b[i]
                ||| 'A' <= a[i] && a[i] <= 'Z' && b[i] as u32 == a[i] as u32 + 32
                ||| 'A' <= b[i] && b[i] <= 'Z' && a[i] as u32 == b[i] as u32 + 32
            },
{
    assert forall|i: int| 0 <= i < a.len() && a.len() == b.len() implies (ascii_lower(
        #[trigger] a[i],
    ) == ascii_lower(b[i])) == {
        ||| a[i] == b[i]
        ||| 'A' <= a[i] && a[i] <= 'Z' && b[i] as u32 == a[i] as u32 + 32
        ||| 'A' <= b[i] && b[i] <= 'Z' && a[i] as u32 == b[i] as u32 + 32
    } by {
    }
    if a.len() == b.len() && forall|i: int|
        0 <= i < a.len() ==> {
            ||| #[trigger] a[i] == b[i]
            ||| 'A' <= a[i] && a[i] <= 'Z' && b[i] as u32 == a[i] as u32 + 32
            ||| 'A' <= b[i] && b[i] <= 'Z' && a[i] as u32 == b[i] as u32 + 32
        } {
        assert(same_ignoring_case(a, b));
    }
}

/// Lower case keeps the length of an ASCII text, turns each capital letter into the letter
/// that stands 32 places behind it, and leaves every other character alone.
pub proof fn law_lowercase_of_ascii(s: Seq<char>)
    requires
        ascii_text(s),
    ensures
        lowercase(s).len() == s.len(),
        forall|i: int|
            0 <= i < s.len() ==> if 'A' <= #[trigger] s[i] && s[i] <= 'Z' {
                lowercase(s)[i] as u32 == s[i] as u32 + 32
            } else {
                lowercase(s)[i] == s[i]
            },
{
}

/// Stripping from the back is dropping an end of which `p` holds.
proof fn lemma_strip_end_is_prefix(s: Seq<char>, p: spec_fn(char) -> bool)
    ensures
        strip_end(s, p).len() <= s.len(),
        strip_end(s, p) == s.take(strip_end(s, p).len() as int),
        forall|i: int| strip_end(s, p).len() <= i < s.len() ==> p(#[trigger] s[i]),
        strip_end(s, p).len() > 0 ==> !p(strip_end(s, p).last()),
    decreases s.len(),
{
    if s.len() > 0 && p(s.last()) {
        let t = s.drop_last();
        lemma_strip_end_is_prefix(t, p);
        let k = strip_end(t, p).len() as int;
        assert(t.take(k) =~= s.take(k));
        assert forall|i: int| k <= i < s.len() implies p(#[trigger] s[i]) by {
            if i < t.len() {
                assert(t[i] == s[i]);
            }
        }
    } else {
        assert(s.take(s.len() as int) =~= s);
    }
}

/// What stripping from the front drops, `p` holds of.
proof fn lemma_stripped_start(s: Seq<char>, p: spec_fn(char) -> bool)
    ensures
        forall|i: int| 0 <= i < s.len() - strip_start(s, p).len() ==> p(#[trigger] s[i]),
    decreases s.len(),
{
    if s.len() > 0 && p(s[0]) {
        lemma_stripped_start(s.skip(1), p);
        lemma_strip_start_is_suffix(s.skip(1), p);
        assert forall|i: int| 0 <= i < s.len() - strip_start(s, p).len() implies p(
            #[trigger] s[i],
        ) by {
            if i > 0 {
                assert(s.skip(1)[i - 1] == s[i]);
            }
        }
    }
}

/// Trimming takes away the whitespace at both ends and nothing else: the text is what is
/// left with only whitespace before and after it, and what is left neither begins nor ends
/// with whitespace.
#[verifier::spinoff_prover]
pub proof fn law_trimming_takes_whitespace_only(s: Seq<char>)
    ensures
        exists|from: int, to: int|
            #![trigger s.subrange(from, to)]
            0 <= from <= to <= s.len() && trimmed(s) == s.subrange(from, to) && (forall|i: int|
                0 <= i < from ==> whitespace(#[trigger] s[i])) && (forall|i: int|
                to <= i < s.len() ==> whitespace(#[trigger] s[i])),
        trimmed(s).len() > 0 ==> !whitespace(trimmed(s)[0]) && !whitespace(trimmed(s).last()),
{
    let p = white();
    let t = strip_start(s, p);
    lemma_strip_start_is_suffix(s, p);
    lemma_stripped_start(s, p);
    lemma_strip_start_stops(s, p);
    lemma_strip_end_is_prefix(t, p);
    let u = trimmed(s);
    let from = s.len() - t.len();
    let to = from + u.len();
    assert(u =~= s.subrange(from, to));
    assert forall|i: int| 0 <= i < from implies whitespace(#[trigger] s[i]) by {
        assert(p(s[i]));
    }
    assert forall|i: int| to <= i < s.len() implies whitespace(#[trigger] s[i]) by {
        assert(t[i - from] == s[i]);
        assert(p(t[i - from]));
    }
    if u.len() > 0 {
        assert(u[0] == t[0]);
        assert(!p(t[0]));
        assert(!p(u.last()));
    }
}

/// Stripping the front of whitespace and text leaves the text.
proof fn lemma_strip_start_of_white(head: Seq<char>, tail: Seq<char>)
    requires
        forall|i: int| 0 <= i < head.len() ==> whitespace(#[trigger] head[i]),
    ensures
        tail.len() > 0 && !whitespace(tail[0]) ==> strip_start(head + tail, white()) == tail,
        tail.len() == 0 ==> strip_start(head + tail, white()).len() == 0,
    decreases head.len(),
{
    if head.len() > 0 {
        assert(white()(head[0]));
        assert forall|i: int| 0 <= i < head.skip(1).len() implies whitespace(
            #[trigger] head.skip(1)[i],
        ) by {
            assert(head.skip(1)[i] == head[i + 1]);
        }
        lemma_strip_start_of_white(head.skip(1), tail);
        assert((head + tail).skip(1) =~= head.skip(1) + tail);
        assert((head + tail)[0] == head[0]);
    } else {
        assert(head + tail =~= tail);
    }
}

/// Stripping the back of text and whitespace leaves the text.
proof fn lemma_strip_end_of_white(head: Seq<char>, tail: Seq<char>)
    requires
        forall|i: int| 0 <= i < tail.len() ==> whitespace(#[trigger] tail[i]),
        head.len() > 0 ==> !whitespace(head.last()),
    ensures
        strip_end(head + tail, white()) == head,
    decreases tail.len(),
{
    if tail.len() > 0 {
        let short = tail.drop_last();
        assert forall|i: int| 0 <= i < short.len() implies whitespace(#[trigger] short[i]) by {
            assert(short[i] == tail[i]);
        }
        assert(whitespace(tail[tail.len() - 1]));
        assert((head + tail).drop_last() =~= head + short);
        assert((head + tail).last() == tail.last());
        lemma_strip_end_of_white(head, short);
    } else {
        assert(head + tail =~= head);
    }
}

/// A text that neither begins nor ends with whitespace is what trimming leaves of it, however
/// much whitespace stands before and after it. Nothing is left of whitespace alone.
#[verifier::spinoff_prover]
pub proof fn law_whitespace_around_a_text_goes(
    before: Seq<char>,
    text: Seq<char>,
    after: Seq<char>,
)
    requires
        forall|i: int| 0 <= i < before.len() ==> whitespace(#[trigger] before[i]),
        forall|i: int| 0 <= i < after.len() ==> whitespace(#[trigger] after[i]),
        text.len() > 0 ==> !whitespace(text[0]) && !whitespace(text.last()),
    ensures
        trimmed(before + text + after) == text,
{
    let whole = before + text + after;
    let none = Seq::<char>::empty();
    if text.len() > 0 {
        let rest = text + after;
        assert(rest[0] == text[0]);
        assert(whole =~= before + rest);
        lemma_strip_start_of_white(before, rest);
        lemma_strip_end_of_white(text, after);
    } else {
        assert(text =~= none);
        assert(whole =~= before + after);
        assert forall|i: int| 0 <= i < whole.len() implies whitespace(#[trigger] whole[i]) by {
            if i < before.len() {
                assert(whole[i] == before[i]);
            } else {
                assert(whole[i] == after[i - before.len()]);
            }
        }
        lemma_strip_start_of_white(whole, none);
        assert(whole + none =~= whole);
        let t = strip_start(whole, white());
        assert(t.len() == 0);
        assert(strip_end(t, white()) =~= none);
    }
}

/// A text stands in another exactly where it can be cut out of it.
pub proof fn law_occurrence_is_a_cut(before: Seq<char>, needle: Seq<char>, after: Seq<char>)
    ensures
        occurs(before + needle + after, needle),
        occurs_at(before + needle + after, needle, before.len() as int),
{
    let s = before + needle + after;
    let i = before.len() as int;
    assert(s.subrange(i, i + needle.len()) =~= needle);
    assert(occurs_at(s, needle, i));
}

/// A text that stands in another is no longer than that, and its characters stand there one
/// after the other.
pub proof fn law_occurrence_is_found_whole(s: Seq<char>, needle: Seq<char>) -> (i: int)
    requires
        occurs(s, needle),
    ensures
        0 <= i <= s.len() - needle.len(),
        forall|k: int| 0 <= k < needle.len() ==> s[i + k] == #[trigger] needle[k],
{
    let i = choose|i: int| occurs_at(s, needle, i);
    assert forall|k: int| 0 <= k < needle.len() implies s[i + k] == #[trigger] needle[k] by {
        assert(s.subrange(i, i + needle.len())[k] == s[i + k]);
    }
    i
}

/// An address is written as its four bytes in decimal, in their order, with dots between.
pub proof fn law_address_is_told_by_its_parts(a: u8, b: u8, c: u8, d: u8)
    ensures
        dotted(a, b, c, d) == decimal(a as nat) + "."@ + decimal(b as nat) + "."@ + decimal(
            c as nat,
        ) + "."@ + decimal(d as nat),
{
    reveal_strlit(".");
    assert("."@ =~= seq!['.']);
}

/// A number is written without leading zeros.
pub proof fn law_numbers_have_no_leading_zeros(n: nat)
    ensures
        decimal(n)[0] == '0' <==> n == 0,
        n < 10 ==> decimal(n).len() == 1,
        n >= 10 ==> decimal(n).len() == decimal(n / 10).len() + 1,
    decreases n,
{
    lemma_decimal_value(n);
    if n >= 10 {
        law_numbers_have_no_leading_zeros(n / 10);
        lemma_decimal_value(n / 10);
        assert(decimal(n)[0] == decimal(n / 10)[0]);
    }
}

/// Words are put together with one space between two: one word is itself, and another one
/// follows the others after a space.
pub proof fn law_words_are_joined_by_a_space(w: Seq<Seq<char>>, word: Seq<char>)
    ensures
        joined(seq![word]) == word,
        w.len() > 0 ==> joined(w.push(word)) == joined(w) + " "@ + word,
        joined(Seq::empty()).len() == 0,
{
    reveal_strlit(" ");
    assert(" "@ =~= seq![' ']);
    assert(w.push(word).drop_last() =~= w);
}

/// A text of one word has that word, whitespace before a text does not change its words, and
/// what follows a word and a whitespace has its own words.
#[verifier::spinoff_prover]
pub proof fn law_words_are_set_off_by_whitespace(c: char, word: Seq<char>, rest: Seq<char>)
    requires
        whitespace(c),
        is_word(word),
    ensures
        words(word) == seq![word],
        words(seq![c] + rest) == words(rest),
        words(word + seq![c] + rest) == seq![word] + words(rest),
{
    let none = Seq::<char>::empty();
    lemma_words_step(none);
    lemma_words_step(rest);
    let spaced = seq![c] + rest;
    assert(spaced.skip(1) =~= rest);
    assert(white()(spaced[0]));
    lemma_words_step(spaced);
    assert(words(spaced) == words(rest));
    lemma_word_then(word, none);
    assert(word + none =~= word);
    assert(seq![word] + Seq::<Seq<char>>::empty() =~= seq![word]);
    lemma_word_then(word, spaced);
    assert(word + seq![c] + rest =~= word + spaced);
}

/// The words of a text that begins with a word.
proof fn lemma_word_then(word: Seq<char>, rest: Seq<char>)
    requires
        is_word(word),
        rest.len() > 0 ==> whitespace(rest[0]),
    ensures
        words(word + rest) == seq![word] + words(rest),
{
    let t = word + rest;
    let n = word.len() as int;
    assert(!whitespace(word[0]));
    assert(t[0] == word[0]);
    lemma_words_step(t);
    lemma_word_length(t);
    let k = word_length(t) as int;
    if k < n {
        assert(!whitespace(word[k]));
        assert(t[k] == word[k]);
    }
    if k > n {
        assert(t[n] == rest[0]);
    }
    assert(t.take(n) =~= word);
    assert(t.skip(n) =~= rest);
}

/// The text of an optional string is that of the string, where there is one, and the texts of
/// several strings are theirs, one by one.
pub proof fn law_texts_are_those_of_the_strings(s: String, t: &str, v: Seq<String>, i: int)
    ensures
        opt_text(Some(s)) == Some(s@),
        opt_text(None) is None,
        opt_str(Some(t)) == Some(t@),
        opt_str(None) is None,
        texts(v).len() == v.len(),
        0 <= i < v.len() ==> texts(v)[i] == v[i]@,
{
}

/// Of the ASCII characters the letters and the digits are alphanumeric, the digits alone are
/// numeric, and whitespace is the space and the five characters from the tab to the carriage
/// return.
pub proof fn law_ascii_characters_have_their_kinds(c: char)
    requires
        (c as u32) < 128,
    ensures
        alphanumeric(c) <==> ('a' <= c && c <= 'z') || ('A' <= c && c <= 'Z') || ('0' <= c && c
            <= '9'),
        numeric(c) <==> '0' <= c && c <= '9',
        whitespace(c) <==> c == ' ' || c == '\t' || c == '\n' || c as u32 == 11 || c as u32 == 12
            || c == '\r',
{
}

} // verus!
