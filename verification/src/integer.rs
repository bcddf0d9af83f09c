//! The words of the standard library for texts that are no number.
//!
//! Which texts are numbers is said by `parse_unsigned` and `parse_signed`; the
//! words stand as a cause beneath the message of an error.
use vstd::prelude::*;

use crate::error::{caused, Error};
use crate::text::{parse_signed, parse_unsigned};
use crate::webhook::optional_text;

verus! {

/// What `str::parse::<u8>` says of a text that it does not take.
pub uninterp spec fn u8_words(text: Seq<char>) -> Seq<char>;

/// What `str::parse::<u32>` says of a text that it does not take.
pub uninterp spec fn u32_words(text: Seq<char>) -> Seq<char>;

/// What `str::parse::<u64>` says of a text that it does not take.
pub uninterp spec fn u64_words(text: Seq<char>) -> Seq<char>;

/// What `str::parse::<i64>` says of a text that it does not take.
pub uninterp spec fn i64_words(text: Seq<char>) -> Seq<char>;

/// What `u8::try_from` says of a number that it does not take.
pub uninterp spec fn narrowing_words(value: u32) -> Seq<char>;

/// The words of `str::parse::<u8>` where it fails: on a text that is not an
/// optional plus sign and digits, or a number above the largest `u8`. The
/// wording is that of the standard library and is left unsaid.
#[verifier::external_body]
pub(crate) fn u8_complaint(text: &str) -> (res: Option<String>)
    ensures
        res is None <==> parse_unsigned(text@, u8::MAX as nat) is Some,
        res matches Some(words) ==> words@ == u8_words(text@),
{
    match text.parse::<u8>() {
        Ok(_) => None,
        Err(e) => Some(e.to_string()),
    }
}

/// The words of `str::parse::<u32>` where it fails: on a text that is not an
/// optional plus sign and digits, or a number above the largest `u32`. The
/// wording is that of the standard library and is left unsaid.
#[verifier::external_body]
pub(crate) fn u32_complaint(text: &str) -> (res: Option<String>)
    ensures
        res is None <==> parse_unsigned(text@, u32::MAX as nat) is Some,
        res matches Some(words) ==> words@ == u32_words(text@),
{
    match text.parse::<u32>() {
        Ok(_) => None,
        Err(e) => Some(e.to_string()),
    }
}

/// The words of `str::parse::<u64>` where it fails: on a text that is not an
/// optional plus sign and digits, or a number above the largest `u64`. The
/// wording is that of the standard library and is left unsaid.
#[verifier::external_body]
pub(crate) fn u64_complaint(text: &str) -> (res: Option<String>)
    ensures
        res is None <==> parse_unsigned(text@, u64::MAX as nat) is Some,
        res matches Some(words) ==> words@ == u64_words(text@),
{
    match text.parse::<u64>() {
        Ok(_) => None,
        Err(e) => Some(e.to_string()),
    }
}

/// The words of `str::parse::<i64>` where it fails: on a text that is not an
/// optional sign and digits, or a number outside the range of `i64`. The
/// wording is that of the standard library and is left unsaid.
#[verifier::external_body]
pub(crate) fn i64_complaint(text: &str) -> (res: Option<String>)
    ensures
        res is None <==> parse_signed(text@) is Some,
        res matches Some(words) ==> words@ == i64_words(text@),
{
    match text.parse::<i64>() {
        Ok(_) => None,
        Err(e) => Some(e.to_string()),
    }
}

/// The words of `u8::try_from` where it fails: on a number above the largest
/// `u8`. The wording is that of the standard library and is left unsaid.
#[verifier::external_body]
pub(crate) fn narrowing_complaint(value: u32) -> (res: Option<String>)
    ensures
        res is None <==> value <= u8::MAX,
        res matches Some(words) ==> words@ == narrowing_words(value),
{
    match u8::try_from(value) {
        Ok(_) => None,
        Err(e) => Some(e.to_string()),
    }
}

/// An error with the words of the standard library as its cause.
pub fn number_error(message: String, words: Option<String>) -> (res: Error)
    requires
        words is Some,
    ensures
        res@ == caused(message@, optional_text(words).unwrap()),
{
    match words {
        Some(words) => Error::with_cause(message, words),
        None => Error::new(message),
    }
}

} // verus!
