//! What this crate takes for granted of the standard library's strings.
//!
//! Nothing here is proved. Each item says of a function of `String` what
//! its documentation says, in the terms in which the rest of the crate
//! reasons about text: a string is the sequence of its characters, and its
//! bytes are that sequence in UTF-8.

use std::string::FromUtf8Error;
use vstd::prelude::*;
use vstd::utf8::{decode_utf8, valid_utf8};

verus! {

/// `std::string::FromUtf8Error`, the error of `String::from_utf8`. Nothing
/// is said of what it holds.
#[verifier::external_type_specification]
#[verifier::external_body]
pub struct ExFromUtf8Error(FromUtf8Error);

/// `String::from_utf8` succeeds exactly on the byte sequences that are valid
/// UTF-8, and the string it then returns holds the characters that the bytes
/// encode.
pub assume_specification[ String::from_utf8 ](vec: Vec<u8>) -> (r: Result<String, FromUtf8Error>)
    ensures
        r.is_ok() == valid_utf8(vec@),
        r matches Ok(s) ==> s@ == decode_utf8(vec@),
;

/// `String::insert` at index 0 puts the character in front of the string.
/// Nothing is said of any other index.
pub assume_specification[ String::insert ](s: &mut String, idx: usize, ch: char)
    requires
        idx == 0,
    ensures
        final(s)@ == seq![ch] + old(s)@,
;

/// `String::push` puts the character behind the string.
pub assume_specification[ String::push ](s: &mut String, ch: char)
    ensures
        final(s)@ == old(s)@.push(ch),
;

} // verus!
