//! Text fitted into the fixed-width rows in which a viewer shows a node.
//!
//! Widths are counted in bytes of UTF-8, as the length of a string is.

use vstd::prelude::*;
use vstd::utf8::{decode_utf8, encode_utf8, encode_utf8_decode_utf8, is_char_boundary};

verus! {

/// Whether `text` can be shown in a row of `max_len` bytes: either it is no
/// longer than the row, or the row has room for a byte and cutting the text
/// to one byte less than the row splits no character.
pub open spec fn fits_or_cuts(text: Seq<char>, max_len: usize) -> bool {
    encode_utf8(text).len() > max_len ==> max_len >= 1 && is_char_boundary(
        encode_utf8(text),
        max_len - 1,
    )
}

/// Decides [`fits_or_cuts`].
pub fn can_fit(string: &str, max_len: usize) -> (fits: bool)
    ensures
        fits == fits_or_cuts(string@, max_len),
{
    if string.as_bytes().len() > max_len {
        max_len >= 1 && string.is_char_boundary(max_len - 1)
    } else {
        true
    }
}

/// The part of `text` that is shown in a row of `max_len` bytes: all of it
/// where it is no longer than the row, else its first `max_len - 1` bytes.
pub open spec fn shown(text: Seq<char>, max_len: usize) -> Seq<char> {
    if encode_utf8(text).len() > max_len {
        decode_utf8(encode_utf8(text).subrange(0, max_len - 1))
    } else {
        text
    }
}

/// `n` spaces.
pub open spec fn spaces(n: nat) -> Seq<char> {
    Seq::new(n, |i: int| ' ')
}

/// Cuts `string` down to what is shown of it in a row of `max_len` bytes.
fn cut_to_row(string: String, max_len: usize) -> (out: String)
    requires
        fits_or_cuts(string@, max_len),
    ensures
        out@ == shown(string@, max_len),
        encode_utf8(out@).len() == (if encode_utf8(string@).len() > max_len {
            max_len - 1
        } else {
            encode_utf8(string@).len() as int
        }),
        encode_utf8(out@).len() <= usize::MAX,
{
    if string.as_str().as_bytes().len() > max_len {
        let kept = string.as_str().split_at(max_len - 1).0.to_owned();
        proof {
            encode_utf8_decode_utf8(kept@);
        }
        kept
    } else {
        string
    }
}

/// The text for a row that is filled from the left: a space, then what is
/// shown of `string` in a row of `max_len` bytes.
pub fn format_text_left(string: String, max_len: usize) -> (out: String)
    requires
        fits_or_cuts(string@, max_len),
    ensures
        out@ == seq![' '] + shown(string@, max_len),
{
    let mut string = cut_to_row(string, max_len);
    string.insert(0, ' ');
    string
}

/// The text for a row that is filled from the right: what is shown of
/// `string` in a row of `max_len` bytes, with spaces in front that bring it
/// to `max_len - 1` bytes, and a space behind.
pub fn format_text_right(string: String, max_len: usize) -> (out: String)
    requires
        fits_or_cuts(string@, max_len),
        encode_utf8(string@).len() != max_len,
    ensures
        out@ == spaces((max_len - 1 - encode_utf8(shown(string@, max_len)).len()) as nat) + shown(
            string@,
            max_len,
        ) + seq![' '],
{
    let ghost text = shown(string@, max_len);
    let mut string = cut_to_row(string, max_len);
    let pad: usize = max_len - string.as_str().as_bytes().len() - 1;
    let mut done: usize = 0;
    while done < pad
        invariant
            done <= pad,
            string@ == spaces(done as nat) + text,
        decreases pad - done,
    {
        string.insert(0, ' ');
        done = done + 1;
    }
    string.push(' ');
    string
}

} // verus!
