//! The reads that every part of the format is made of: one byte, a run of
//! bytes of a given length, and a run of bytes that holds UTF-8 text.
//!
//! Each read is stated as a function of the whole input and of the offset at
//! which the read starts. Its outcome is either the value read together with
//! the offset just behind it, or the error that the read ends in.

use crate::errors::NodeParseError;
use crate::lexer::Lexer;
use vstd::prelude::*;
use vstd::utf8::{decode_utf8, valid_utf8};

verus! {

/// What a read comes to: the value and the offset behind it, or an error.
pub type Outcome<T> = Result<(T, int), NodeParseError>;

/// The offset at which the cursor rests after a read with outcome `o`: just
/// behind the value, or at the offset that the error reports.
pub open spec fn resting<T>(o: Outcome<T>) -> int {
    match o {
        Ok((_, next)) => next,
        Err(e) => e.offset() as int,
    }
}

/// The outcome `o` without its offset.
pub open spec fn value_of<T>(o: Outcome<T>) -> Result<T, NodeParseError> {
    match o {
        Ok((v, _)) => Ok(v),
        Err(e) => Err(e),
    }
}

/// The result `r` with its value replaced by the value's view.
pub open spec fn viewed<T: View>(r: Result<T, NodeParseError>) -> Result<T::V, NodeParseError> {
    match r {
        Ok(v) => Ok(v@),
        Err(e) => Err(e),
    }
}

/// The views of the items of `items`, in order.
pub open spec fn views<T: View>(items: Seq<T>) -> Seq<T::V> {
    Seq::new(items.len(), |i: int| items[i]@)
}

/// The result `r` with its items replaced by their views.
pub open spec fn viewed_all<T: View>(r: Result<Vec<T>, NodeParseError>) -> Result<
    Seq<T::V>,
    NodeParseError,
> {
    match r {
        Ok(items) => Ok(views(items@)),
        Err(e) => Err(e),
    }
}

/// One byte at offset `at`. Where the input ends at or before `at`, the read
/// fails there, naming `field`.
pub open spec fn byte_at(input: Seq<u8>, at: int, field: &'static str) -> Outcome<u8> {
    if at < input.len() {
        Ok((input[at], at + 1))
    } else {
        Err(NodeParseError::EOF(field, at as u64))
    }
}

/// The `n` bytes from offset `at` on. Where the input holds fewer, the read
/// uses up what is left and fails at the end of the input, naming `field`.
pub open spec fn run_at(input: Seq<u8>, at: int, n: int, field: &'static str) -> Outcome<Seq<u8>> {
    if at + n <= input.len() {
        Ok((input.subrange(at, at + n), at + n))
    } else {
        Err(NodeParseError::EOF(field, input.len() as u64))
    }
}

/// The text that the `n` bytes from offset `at` on encode in UTF-8. A short
/// run fails as in [`run_at`]; a full run that is not valid UTF-8 fails just
/// behind the run.
pub open spec fn text_at(input: Seq<u8>, at: int, n: int, field: &'static str) -> Outcome<
    Seq<char>,
> {
    match run_at(input, at, n, field) {
        Err(e) => Err(e),
        Ok((raw, next)) => if valid_utf8(raw) {
            Ok((decode_utf8(raw), next))
        } else {
            Err(NodeParseError::UTF8EncodingError(next as u64))
        },
    }
}

/// An item that can be read at any offset of an input.
pub type Item<T> = spec_fn(Seq<u8>, int) -> Outcome<T>;

/// `count` items in a row, the first at offset `at` and each next one just
/// behind the one before it, in the order in which they stand. The first
/// item that fails makes the whole read fail with that item's error.
pub open spec fn repeat_at<T>(item: Item<T>, input: Seq<u8>, at: int, count: nat) -> Outcome<
    Seq<T>,
>
    decreases count,
{
    if count == 0 {
        Ok((Seq::empty(), at))
    } else {
        match item(input, at) {
            Err(e) => Err(e),
            Ok((first, next)) => prepend(
                seq![first],
                repeat_at(item, input, next, (count - 1) as nat),
            ),
        }
    }
}

/// The outcome `o` with the items `done` put in front of the items it holds.
pub open spec fn prepend<T>(done: Seq<T>, o: Outcome<Seq<T>>) -> Outcome<Seq<T>> {
    match o {
        Ok((rest, end)) => Ok((done + rest, end)),
        Err(e) => Err(e),
    }
}

/// A table: one byte that counts the items, then that many items in a row.
/// Where the count byte is missing the read fails naming `count_field`.
pub open spec fn table_at<T>(item: Item<T>, input: Seq<u8>, at: int, count_field: &'static str)
    -> Outcome<Seq<T>> {
    match byte_at(input, at, count_field) {
        Err(e) => Err(e),
        Ok((count, next)) => repeat_at(item, input, next, count as nat),
    }
}

/// Reading `count` items with `done` in front is reading the first of them,
/// putting it behind `done`, and reading the other `count - 1`.
pub proof fn lemma_repeat_next<T>(item: Item<T>, input: Seq<u8>, done: Seq<T>, at: int, count: nat)
    requires
        count > 0,
    ensures
        prepend(done, repeat_at(item, input, at, count)) == (match item(input, at) {
            Err(e) => Err(e),
            Ok((first, next)) => prepend(
                done.push(first),
                repeat_at(item, input, next, (count - 1) as nat),
            ),
        }),
{
    match item(input, at) {
        Err(e) => {},
        Ok((first, next)) => {
            match repeat_at(item, input, next, (count - 1) as nat) {
                Err(e) => {},
                Ok((rest, end)) => {
                    assert(done + (seq![first] + rest) =~= done.push(first) + rest);
                },
            }
        },
    }
}

/// With nothing left to read, the items in front are the whole outcome.
pub proof fn lemma_repeat_done<T>(item: Item<T>, input: Seq<u8>, done: Seq<T>, at: int)
    ensures
        prepend(done, repeat_at(item, input, at, 0)) == Ok::<(Seq<T>, int), NodeParseError>(
            (done, at),
        ),
{
}

/// A run of bytes that is all there but is not valid UTF-8 is rejected as
/// such, at the offset just behind the run.
pub proof fn lemma_invalid_text_is_rejected(input: Seq<u8>, at: int, n: int, field: &'static str)
    requires
        0 <= at,
        0 <= n,
        at + n <= input.len(),
        !valid_utf8(input.subrange(at, at + n)),
    ensures
        text_at(input, at, n, field) == Err::<(Seq<char>, int), NodeParseError>(
            NodeParseError::UTF8EncodingError((at + n) as u64),
        ),
{
}

/// The two bytes at offset `at`, as a pair. A short run fails as in
/// [`run_at`].
pub open spec fn pair_at(input: Seq<u8>, at: int, field: &'static str) -> Outcome<(u8, u8)> {
    match run_at(input, at, 2, field) {
        Err(e) => Err(e),
        Ok((run, next)) => Ok(((run[0], run[1]), next)),
    }
}

/// A name: one byte that gives its length in bytes, then the name in UTF-8.
pub open spec fn name_at(input: Seq<u8>, at: int) -> Outcome<Seq<char>> {
    match byte_at(input, at, "entry length") {
        Err(e) => Err(e),
        Ok((len, next)) => text_at(input, next, len as int, "entry bytes"),
    }
}

/// A name whose bytes are all there but are not valid UTF-8 is rejected at
/// the offset just behind the length that the name declares.
pub proof fn lemma_invalid_name_is_rejected(input: Seq<u8>, at: int)
    requires
        0 <= at < input.len(),
        at + 1 + input[at] <= input.len(),
        !valid_utf8(input.subrange(at + 1, at + 1 + input[at])),
    ensures
        name_at(input, at) == Err::<(Seq<char>, int), NodeParseError>(
            NodeParseError::UTF8EncodingError((at + 1 + input[at]) as u64),
        ),
{
}

/// A name, as an item of a table of names.
pub open spec fn name_item() -> Item<Seq<char>> {
    |input: Seq<u8>, at: int| name_at(input, at)
}

/// The table of names that starts at offset `at`. The place of a name in
/// the table is the index by which the rest of the file refers to it.
pub open spec fn names_at(input: Seq<u8>, at: int) -> Outcome<Seq<Seq<char>>> {
    table_at(name_item(), input, at, "table count")
}

/// Reads one byte, or fails naming `field` where the input is exhausted.
pub fn read_byte(lexer: &mut Lexer, field: &'static str) -> (r: Result<u8, NodeParseError>)
    ensures
        final(lexer).input() == old(lexer).input(),
        r == value_of(byte_at(old(lexer).input(), old(lexer).position(), field)),
        final(lexer).position() == resting(
            byte_at(old(lexer).input(), old(lexer).position(), field),
        ),
{
    match lexer.next() {
        Some(b) => Ok(b),
        None => Err(NodeParseError::EOF(field, lexer.bytes_read())),
    }
}

/// Reads two bytes as a pair, or fails naming `field` where the input holds
/// fewer than two more bytes.
pub fn read_pair(lexer: &mut Lexer, field: &'static str) -> (r: Result<(u8, u8), NodeParseError>)
    ensures
        final(lexer).input() == old(lexer).input(),
        r == value_of(pair_at(old(lexer).input(), old(lexer).position(), field)),
        final(lexer).position() == resting(
            pair_at(old(lexer).input(), old(lexer).position(), field),
        ),
{
    match lexer.next_tuple() {
        Some(pair) => Ok(pair),
        None => Err(NodeParseError::EOF(field, lexer.bytes_read())),
    }
}

/// Reads a name: its length, then its text.
pub fn read_name(lexer: &mut Lexer) -> (r: Result<String, NodeParseError>)
    ensures
        final(lexer).input() == old(lexer).input(),
        viewed(r) == value_of(name_at(old(lexer).input(), old(lexer).position())),
        final(lexer).position() == resting(name_at(old(lexer).input(), old(lexer).position())),
{
    let name_len: usize = read_byte(lexer, "entry length")? as usize;
    read_text(lexer, name_len, "entry bytes")
}

/// Reads `n` bytes as UTF-8 text, or fails naming `field` where the input
/// holds fewer than `n` more bytes.
pub fn read_text(lexer: &mut Lexer, n: usize, field: &'static str) -> (r: Result<
    String,
    NodeParseError,
>)
    ensures
        final(lexer).input() == old(lexer).input(),
        viewed(r) == value_of(text_at(old(lexer).input(), old(lexer).position(), n as int, field)),
        final(lexer).position() == resting(
            text_at(old(lexer).input(), old(lexer).position(), n as int, field),
        ),
{
    let raw = lexer.take(n);
    if raw.len() < n {
        return Err(NodeParseError::EOF(field, lexer.bytes_read()));
    }
    match String::from_utf8(raw) {
        Ok(text) => Ok(text),
        Err(_) => Err(NodeParseError::UTF8EncodingError(lexer.bytes_read())),
    }
}

} // verus!
