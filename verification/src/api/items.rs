//! Items: what is served of a downloaded file, whole or in part.

use crate::api::{refusal, Refusal, RefusalView};
use crate::protocol::client::{extension_of, file_extension};
use crate::text::{
    chars_of,
    decimal,
    is_digit,
    law_numbers_are_digits,
    number_in,
    occurs_at,
    opt_str,
    parse_number,
    push_decimal,
    push_text,
    same_text,
    stands_at,
    unsigned_digits,
};
use vstd::prelude::*;

verus! {

/// Batch delete request
pub struct BatchDeleteRequest {
    pub ids: Vec<i64>,
}

// ---------------------------------------------------------------------------
// Ranges
// ---------------------------------------------------------------------------
/// The one dash of a text stands at a place.
pub open spec fn only_dash(s: Seq<char>, i: int) -> bool {
    &&& 0 <= i < s.len()
    &&& s[i] == '-'
    &&& forall|j: int| 0 <= j < s.len() && j != i ==> #[trigger] s[j] != '-'
}

/// The bytes that are asked for by the two numbers of a range, or nothing where they lie
/// outside a file. Without a second number the range goes to the end of the file. Without
/// a first one the range is a suffix: the second number says how many bytes at the end of
/// the file are asked for, and a file that has no more than these is asked for as a whole.
pub open spec fn range_between(first: Seq<char>, last: Seq<char>, file_size: u64) -> Option<
    (u64, u64),
> {
    if first.len() == 0 {
        match number_in(last) {
            None => None,
            Some(n) => if n == 0 || file_size == 0 {
                None
            } else if n < file_size {
                Some(((file_size - n) as u64, (file_size - 1) as u64))
            } else {
                Some((0, (file_size - 1) as u64))
            },
        }
    } else {
        let end = if last.len() == 0 {
            Some(file_size - 1)
        } else {
            match number_in(last) {
                Some(n) => Some(n as int),
                None => None,
            }
        };
        match (number_in(first), end) {
            (Some(start), Some(end)) => if start > end || start >= file_size {
                None
            } else if end < file_size {
                Some((start, end as u64))
            } else {
                Some((start, (file_size - 1) as u64))
            },
            _ => None,
        }
    }
}

/// The bytes that a Range header asks for: the first and the last. The header is the word
/// `bytes=` and two numbers with a dash between them, of which one may be missing.
pub open spec fn range_asked(header: Seq<char>, file_size: u64) -> Option<(u64, u64)> {
    if occurs_at(header, "bytes="@, 0) && exists|i: int|
        only_dash(header.skip("bytes="@.len() as int), i) {
        let rest = header.skip("bytes="@.len() as int);
        let i = choose|i: int| only_dash(rest, i);
        range_between(rest.take(i), rest.skip(i + 1), file_size)
    } else {
        None
    }
}

/// Finds the one dash of a part of a text.
fn find_only_dash(s: &Vec<char>, from: usize) -> (r: Option<usize>)
    requires
        from <= s.len(),
    ensures
        match r {
            Some(i) => from <= i && only_dash(s@.skip(from as int), i - from),
            None => forall|i: int| !only_dash(s@.skip(from as int), i),
        },
{
    let ghost rest = s@.skip(from as int);
    let mut found: Option<usize> = None;
    let mut i: usize = from;
    while i < s.len()
        invariant
            from <= i <= s.len(),
            rest == s@.skip(from as int),
            match found {
                Some(k) => from <= k < i && rest[k - from] == '-' && forall|j: int|
                    0 <= j < i - from && j != k - from ==> #[trigger] rest[j] != '-',
                None => forall|j: int| 0 <= j < i - from ==> #[trigger] rest[j] != '-',
            },
        decreases s.len() - i,
    {
        assert(rest[i - from] == s@[i as int]);
        if s[i] == '-' {
            match found {
                Some(k) => {
                    assert(rest[k - from] == '-' && rest[i - from] == '-');
                    assert forall|d: int| !only_dash(rest, d) by {
                        if only_dash(rest, d) {
                            if d == k - from {
                                assert(rest[i - from] != '-');
                            } else {
                                assert(rest[k - from] != '-');
                            }
                        }
                    }
                    return None;
                },
                None => {
                    found = Some(i);
                },
            }
        }
        i = i + 1;
    }
    found
}

/// Two dashes that are alone in a text are the same.
proof fn lemma_only_dash_is_one(s: Seq<char>, i: int, j: int)
    requires
        only_dash(s, i),
        only_dash(s, j),
    ensures
        i == j,
{
    if i != j {
        assert(s[j] != '-');
    }
}

/// Finds the bytes that two numbers of a text ask for.
fn range_of_numbers(
    s: &Vec<char>,
    from: usize,
    dash: usize,
    file_size: u64,
) -> (r: Option<(u64, u64)>)
    requires
        from <= dash < s.len(),
    ensures
        r == range_between(
            s@.subrange(from as int, dash as int),
            s@.subrange(dash + 1, s.len() as int),
            file_size,
        ),
{
    let last: Option<u64> = parse_number(s, dash + 1, s.len());
    let start: u64 = if from == dash {
        match last {
            Some(n) => {
                if n < file_size {
                    file_size - n
                } else {
                    0
                }
            },
            None => {
                return None;
            },
        }
    } else {
        match parse_number(s, from, dash) {
            Some(n) => n,
            None => {
                return None;
            },
        }
    };
    if start >= file_size {
        return None;
    }
    let end: u64 = if from == dash || dash + 1 == s.len() {
        file_size - 1
    } else {
        match last {
            Some(n) => n,
            None => {
                return None;
            },
        }
    };
    if start > end {
        return None;
    }
    if end < file_size {
        Some((start, end))
    } else {
        Some((start, file_size - 1))
    }
}

/// Parse Range header value like "bytes=0-1023", "bytes=1024-" or "bytes=-500"
pub fn parse_range_header(range_header: &str, file_size: u64) -> (r: Option<(u64, u64)>)
    ensures
        r == range_asked(range_header@, file_size),
        r matches Some(range) ==> range.0 <= range.1 < file_size,
{
    let s = chars_of(range_header);
    let prefix = chars_of("bytes=");
    if !stands_at(&s, &prefix, 0) {
        return None;
    }
    let from: usize = prefix.len();
    let ghost rest = s@.skip(from as int);
    match find_only_dash(&s, from) {
        None => None,
        Some(dash) => {
            proof {
                let i = choose|i: int| only_dash(rest, i);
                lemma_only_dash_is_one(rest, i, dash - from);
                assert(rest.take(i) =~= s@.subrange(from as int, dash as int));
                assert(rest.skip(i + 1) =~= s@.subrange(dash + 1, s.len() as int));
            }
            range_of_numbers(&s, from, dash, file_size)
        },
    }
}

/// A suffix range asks for the last bytes of a file: as many as it says, or all of them in
/// a file that has fewer.
pub proof fn law_suffix_range_is_the_end_of_the_file(digits: Seq<char>, file_size: u64)
    requires
        number_in(digits) matches Some(n) && n > 0,
        file_size > 0,
    ensures
        range_asked("bytes=-"@ + digits, file_size) matches Some(range) && {
            let n = number_in(digits)->Some_0;
            &&& range.1 == file_size - 1
            &&& range.1 - range.0 + 1 == if n < file_size {
                n
            } else {
                file_size
            }
        },
{
    reveal_strlit("bytes=");
    reveal_strlit("bytes=-");
    let header = "bytes=-"@ + digits;
    let rest = header.skip("bytes="@.len() as int);
    assert(rest =~= seq!['-'] + digits);
    let plain = unsigned_digits(digits);
    assert forall|j: int| 0 < j < rest.len() implies #[trigger] rest[j] != '-' by {
        let skipped = digits.len() - plain.len();
        if j - 1 >= skipped {
            assert(is_digit(plain[j - 1 - skipped]));
        }
    }
    assert(only_dash(rest, 0));
    let i = choose|i: int| only_dash(rest, i);
    lemma_only_dash_is_one(rest, i, 0);
    assert(rest.take(0) =~= Seq::<char>::empty());
    assert(rest.skip(1) =~= digits);
    assert(header.subrange(0, "bytes="@.len() as int) =~= "bytes="@);
}

/// What is asked for lies in the file, and an answer is never longer than the file.
pub proof fn law_range_lies_in_file(header: Seq<char>, file_size: u64)
    ensures
        range_asked(header, file_size) matches Some(range) ==> {
            &&& range.0 <= range.1 < file_size
            &&& 1 <= range.1 - range.0 + 1 <= file_size
        },
{
}

// ---------------------------------------------------------------------------
// Downloads
// ---------------------------------------------------------------------------
/// The MIME type that `mime_guess` gives files with an extension.
pub uninterp spec fn mime_type(extension: Seq<char>) -> Seq<char>;

/// `mime_guess::from_ext` and `MimeGuess::first_or_octet_stream`, as a string: the first
/// MIME type that is known for an extension.
#[verifier::external_body]
fn guess_mime(extension: &str) -> (r: String)
    ensures
        r@ == mime_type(extension@),
{
    mime_guess::from_ext(extension).first_or_octet_stream().to_string()
}

/// Gives the MIME type of a file, by its extension.
pub fn content_type(file_path: &str) -> (r: String)
    ensures
        r@ == mime_type(extension_of(file_path@)),
{
    let extension = file_extension(file_path);
    guess_mime(extension.as_str())
}

/// Tells a browser to show a file, under its name.
pub fn content_disposition(filename: &str) -> (r: String)
    ensures
        r@ == "inline; filename=\""@ + filename@ + "\""@,
{
    let mut r = "inline; filename=\"".to_owned();
    push_text(&mut r, filename);
    push_text(&mut r, "\"");
    r
}

/// What is answered to a request for the file of an item.
#[derive(Debug, Clone)]
pub enum Delivery {
    /// The item is not there to be downloaded.
    Refused(Refusal),
    /// The range lies outside the file; the header tells how long the file is.
    Unsatisfiable { content_range: String },
    /// A part of the file: from where on, and how much.
    Part { start: u64, length: u64, content_range: String },
    /// The whole file.
    Whole { length: u64 },
}

/// An answer with its texts as character sequences.
#[verifier::ext_equal]
pub enum DeliveryView {
    Refused(RefusalView),
    Unsatisfiable { content_range: Seq<char> },
    Part { start: u64, length: u64, content_range: Seq<char> },
    Whole { length: u64 },
}

impl View for Delivery {
    type V = DeliveryView;

    open spec fn view(&self) -> DeliveryView {
        match *self {
            Delivery::Refused(r) => DeliveryView::Refused(r@),
            Delivery::Unsatisfiable { content_range } => DeliveryView::Unsatisfiable {
                content_range: content_range@,
            },
            Delivery::Part { start, length, content_range } => DeliveryView::Part {
                start,
                length,
                content_range: content_range@,
            },
            Delivery::Whole { length } => DeliveryView::Whole { length },
        }
    }
}

/// What is answered to a request for the file of an item with a status and a size, and
/// perhaps a Range header: only a completed item is served.
pub open spec fn delivery(status: Seq<char>, file_size: u64, range: Option<Seq<char>>) -> DeliveryView {
    if status != "completed"@ {
        DeliveryView::Refused(
            refusal(409, "Item not ready for download. Status: "@ + status),
        )
    } else {
        match range {
            None => DeliveryView::Whole { length: file_size },
            Some(header) => match range_asked(header, file_size) {
                None => DeliveryView::Unsatisfiable {
                    content_range: "bytes */"@ + decimal(file_size as nat),
                },
                Some((start, end)) => DeliveryView::Part {
                    start,
                    length: (end - start + 1) as u64,
                    content_range: "bytes "@ + decimal(start as nat) + "-"@ + decimal(end as nat)
                        + "/"@ + decimal(file_size as nat),
                },
            },
        }
    }
}

/// Decides what is answered to a request for the file of an item.
pub fn plan_delivery(status: &str, file_size: u64, range: Option<&str>) -> (r: Delivery)
    ensures
        r@ == delivery(status@, file_size, opt_str(range)),
        match r {
            Delivery::Refused(refused) => status@ != "completed"@ && refused.status == 409,
            Delivery::Whole { length } => status@ == "completed"@ && range is None && length
                == file_size,
            Delivery::Unsatisfiable { content_range } => status@ == "completed"@ && (
            range matches Some(header) && range_asked(header@, file_size) is None),
            Delivery::Part { start, length, content_range } => status@ == "completed"@ && (
            range matches Some(header) && range_asked(header@, file_size) matches Some(asked)
                && start == asked.0 && start + length - 1 == asked.1),
        },
{
    if !same_text(status, "completed") {
        let mut error = "Item not ready for download. Status: ".to_owned();
        push_text(&mut error, status);
        return Delivery::Refused(Refusal { status: 409, error });
    }
    match range {
        None => Delivery::Whole { length: file_size },
        Some(header) => match parse_range_header(header, file_size) {
            None => {
                let mut content_range = "bytes */".to_owned();
                push_decimal(&mut content_range, file_size);
                Delivery::Unsatisfiable { content_range }
            },
            Some((start, end)) => {
                let mut content_range = "bytes ".to_owned();
                push_decimal(&mut content_range, start);
                push_text(&mut content_range, "-");
                push_decimal(&mut content_range, end);
                push_text(&mut content_range, "/");
                push_decimal(&mut content_range, file_size);
                Delivery::Part { start, length: end - start + 1, content_range }
            },
        },
    }
}

/// A part that is served lies in the file: it begins in it and does not reach beyond it.
pub proof fn law_served_part_lies_in_file(
    status: Seq<char>,
    file_size: u64,
    range: Option<Seq<char>>,
)
    ensures
        delivery(status, file_size, range) matches DeliveryView::Part { start, length, .. } ==> {
            &&& length >= 1
            &&& start + length <= file_size
        },
{
    if range is Some {
        law_range_lies_in_file(range->Some_0, file_size);
    }
}

/// What is served is what was asked for. Of a completed item a request without a range gets
/// the whole file. One with a range that lies in the file gets the part that begins with
/// the first byte asked for and ends with the last one, and is told so. Any other range is
/// answered with the length of the file alone. An item that is not completed is refused.
pub proof fn law_served_part_is_the_part_asked_for(
    status: Seq<char>,
    file_size: u64,
    range: Option<Seq<char>>,
)
    ensures
        delivery(status, file_size, range) is Refused <==> status != "completed"@,
        delivery(status, file_size, range) matches DeliveryView::Refused(r) ==> r.status == 409
            && r.error == "Item not ready for download. Status: "@ + status,
        status == "completed"@ && range is None ==> delivery(status, file_size, range)
            == (DeliveryView::Whole { length: file_size }),
        status == "completed"@ ==> (range matches Some(header) ==> match range_asked(
            header,
            file_size,
        ) {
            Some((first, last)) => delivery(status, file_size, range) matches DeliveryView::Part {
                start,
                length,
                content_range,
            } && start == first && start + length - 1 == last && content_range == "bytes "@
                + decimal(first as nat) + "-"@ + decimal(last as nat) + "/"@ + decimal(
                file_size as nat,
            ),
            None => delivery(status, file_size, range) matches DeliveryView::Unsatisfiable {
                content_range,
            } && content_range == "bytes */"@ + decimal(file_size as nat),
        }),
{
    if range is Some {
        law_range_lies_in_file(range->Some_0, file_size);
    }
}

/// No number has a dash in it.
proof fn lemma_number_has_no_dash(s: Seq<char>)
    requires
        number_in(s) is Some,
    ensures
        forall|j: int| 0 <= j < s.len() ==> #[trigger] s[j] != '-',
        s.len() > 0,
{
    law_numbers_are_digits(s);
}

/// The dash of a header is the one between the two texts around it.
proof fn lemma_header_is_split(first: Seq<char>, last: Seq<char>, file_size: u64)
    requires
        forall|j: int| 0 <= j < first.len() ==> #[trigger] first[j] != '-',
        forall|j: int| 0 <= j < last.len() ==> #[trigger] last[j] != '-',
    ensures
        range_asked("bytes="@ + first + "-"@ + last, file_size) == range_between(
            first,
            last,
            file_size,
        ),
{
    reveal_strlit("bytes=");
    reveal_strlit("-");
    let header = "bytes="@ + first + "-"@ + last;
    let rest = header.skip("bytes="@.len() as int);
    let k = first.len() as int;
    assert(rest =~= first + seq!['-'] + last);
    assert forall|j: int| 0 <= j < rest.len() && j != k implies #[trigger] rest[j] != '-' by {
        if j < k {
            assert(rest[j] == first[j]);
        } else {
            assert(rest[j] == last[j - k - 1]);
        }
    }
    assert(only_dash(rest, k));
    let i = choose|i: int| only_dash(rest, i);
    lemma_only_dash_is_one(rest, i, k);
    assert(rest.take(k) =~= first);
    assert(rest.skip(k + 1) =~= last);
    assert(header.subrange(0, "bytes="@.len() as int) =~= "bytes="@);
}

/// A range with two numbers asks for the bytes from the first to the last of them, as far
/// as the file goes. One that begins behind its end or behind the end of the file asks for
/// nothing.
pub proof fn law_range_goes_from_the_first_to_the_last(
    first: Seq<char>,
    last: Seq<char>,
    file_size: u64,
)
    requires
        number_in(first) is Some,
        number_in(last) is Some,
    ensures
        ({
            let a = number_in(first)->Some_0;
            let b = number_in(last)->Some_0;
            let asked = range_asked("bytes="@ + first + "-"@ + last, file_size);
            &&& a <= b < file_size ==> asked == Some((a, b))
            &&& a < file_size <= b ==> asked == Some((a, (file_size - 1) as u64))
            &&& a > b || a >= file_size ==> asked is None
        }),
{
    lemma_number_has_no_dash(first);
    lemma_number_has_no_dash(last);
    lemma_header_is_split(first, last, file_size);
}

/// A range without a second number goes to the end of the file.
pub proof fn law_open_range_goes_to_the_end(first: Seq<char>, file_size: u64)
    requires
        number_in(first) is Some,
    ensures
        ({
            let a = number_in(first)->Some_0;
            let asked = range_asked("bytes="@ + first + "-"@, file_size);
            &&& a < file_size ==> asked == Some((a, (file_size - 1) as u64))
            &&& a >= file_size ==> asked is None
        }),
{
    lemma_number_has_no_dash(first);
    lemma_header_is_split(first, Seq::empty(), file_size);
    assert("bytes="@ + first + "-"@ + Seq::<char>::empty() =~= "bytes="@ + first + "-"@);
}

/// A part is asked for in no other way: a header that gives a range is the word `bytes=`
/// and a dash with a number on at least one side and nothing else on either.
pub proof fn law_only_a_range_asks_for_a_part(header: Seq<char>, file_size: u64) -> (parts: (
    Seq<char>,
    Seq<char>,
))
    requires
        range_asked(header, file_size) is Some,
    ensures
        header == "bytes="@ + parts.0 + "-"@ + parts.1,
        parts.0.len() > 0 || parts.1.len() > 0,
        parts.0.len() > 0 ==> number_in(parts.0) is Some,
        parts.1.len() > 0 ==> number_in(parts.1) is Some,
{
    reveal_strlit("bytes=");
    reveal_strlit("-");
    let rest = header.skip("bytes="@.len() as int);
    let i = choose|i: int| only_dash(rest, i);
    let first = rest.take(i);
    let last = rest.skip(i + 1);
    assert(rest =~= first + seq!['-'] + last);
    assert(header =~= header.subrange(0, "bytes="@.len() as int) + rest);
    assert(header =~= "bytes="@ + first + "-"@ + last);
    (first, last)
}

} // verus!
