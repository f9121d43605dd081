//! Settings from the environment: a missing or unreadable value gives way to a default.

use crate::text::{
    chars_of, decimal, law_decimal_is_read_back, number_in, opt_str, parse_number, same_text,
};
use vstd::prelude::*;

verus! {

/// The number that a value spells, where it does and the number is not too large.
pub open spec fn number_of(value: Option<Seq<char>>, most: u64) -> Option<u64> {
    match value {
        Some(s) => match number_in(s) {
            Some(n) => if n <= most {
                Some(n)
            } else {
                None
            },
            None => None,
        },
        None => None,
    }
}

/// Reads a number that is at most `most`.
pub fn number_setting(value: Option<&str>, most: u64, default: u64) -> (r: u64)
    ensures
        r == match number_of(opt_str(value), most) {
            Some(n) => n,
            None => default,
        },
{
    match value {
        Some(s) => {
            let chars = chars_of(s);
            assert(chars@.subrange(0, chars.len() as int) =~= s@);
            match parse_number(&chars, 0, chars.len()) {
                Some(n) => {
                    if n <= most {
                        n
                    } else {
                        default
                    }
                },
                None => default,
            }
        },
        None => default,
    }
}

/// Reads a switch: `true` or `false`.
pub fn flag_setting(value: Option<&str>, default: bool) -> (r: bool)
    ensures
        r == match opt_str(value) {
            Some(s) => if s == "true"@ {
                true
            } else if s == "false"@ {
                false
            } else {
                default
            },
            None => default,
        },
{
    match value {
        Some(s) => {
            if same_text(s, "true") {
                true
            } else if same_text(s, "false") {
                false
            } else {
                default
            }
        },
        None => default,
    }
}

/// Reads a text.
pub fn text_setting(value: Option<String>, default: &str) -> (r: String)
    ensures
        r@ == match value {
            Some(s) => s@,
            None => default@,
        },
{
    match value {
        Some(s) => s,
        None => default.to_owned(),
    }
}

/// A number is read exactly where the value spells one that is not above the most; nothing is
/// read of a value that is missing, spells none or is too large.
pub proof fn law_numbers_are_read_up_to_the_most(value: Seq<char>, most: u64, n: u64)
    ensures
        number_of(Some(value), most) == Some(n) <==> number_in(value) == Some(n) && n <= most,
        n <= most ==> number_of(Some(decimal(n as nat)), most) == Some(n),
        n > most ==> number_of(Some(decimal(n as nat)), most) is None,
        number_of(None, most) is None,
{
    law_decimal_is_read_back(n);
}

} // verus!
