//! What becomes of a read when bytes are put behind the input.
//!
//! A read that succeeds on an input comes out the same on any longer input
//! that begins with it. So bytes behind a file that decodes change nothing
//! but the end: they are reported as trailing data, at the length of the
//! file.

use crate::errors::NodeParseError;
use crate::kronarknode::instance::{instance_at, instance_item, instances_at, socket_item};
use crate::kronarknode::roots::{connection_item, roots_at};
use crate::kronarknode::socket::{payload_at, socket_at};
use crate::kronarknode::{definition_v1_at, node_of, NodeDefinitionV1View, NodeView};
use crate::packing::{be_number, bit_field};
use crate::wire::{
    byte_at, name_at, name_item, names_at, pair_at, repeat_at, run_at, table_at, text_at, Item,
    Outcome,
};
use vstd::prelude::*;

verus! {

/// How the outcome `long` of a read from offset `at` on an input stands to
/// the outcome `short` of the same read on the first `k` bytes of it:
/// where the read on the prefix succeeds, it ends within the prefix, at or
/// behind `at`, and the read on the whole input gives the same.
pub open spec fn kept<T>(short: Outcome<T>, long: Outcome<T>, at: int, k: int) -> bool {
    short matches Ok((_, next)) ==> long == short && at <= next <= k
}

/// The item `item`, read anywhere in `input`, stands to the same read on
/// the first `k` bytes of `input` as [`kept`] says.
pub open spec fn item_kept<T>(item: Item<T>, input: Seq<u8>, k: int) -> bool {
    forall|a: int| 0 <= a ==> kept(#[trigger] item(input.take(k), a), item(input, a), a, k)
}

/// One byte, read with bytes behind the input.
pub proof fn lemma_byte_kept(input: Seq<u8>, at: int, field: &'static str, k: int)
    requires
        0 <= at,
        0 <= k <= input.len(),
    ensures
        kept(byte_at(input.take(k), at, field), byte_at(input, at, field), at, k),
{
}

/// A run of bytes, read with bytes behind the input.
pub proof fn lemma_run_kept(input: Seq<u8>, at: int, n: int, field: &'static str, k: int)
    requires
        0 <= at,
        0 <= n,
        0 <= k <= input.len(),
    ensures
        kept(run_at(input.take(k), at, n, field), run_at(input, at, n, field), at, k),
{
    if at + n <= k {
        assert(input.take(k).subrange(at, at + n) =~= input.subrange(at, at + n));
    }
}

/// Text, read with bytes behind the input.
pub proof fn lemma_text_kept(input: Seq<u8>, at: int, n: int, field: &'static str, k: int)
    requires
        0 <= at,
        0 <= n,
        0 <= k <= input.len(),
    ensures
        kept(text_at(input.take(k), at, n, field), text_at(input, at, n, field), at, k),
{
    lemma_run_kept(input, at, n, field, k);
}

/// A pair of bytes, read with bytes behind the input.
pub proof fn lemma_pair_kept(input: Seq<u8>, at: int, field: &'static str, k: int)
    requires
        0 <= at,
        0 <= k <= input.len(),
    ensures
        kept(pair_at(input.take(k), at, field), pair_at(input, at, field), at, k),
{
    lemma_run_kept(input, at, 2, field, k);
}

/// Items in a row, read with bytes behind the input, given how each item
/// alone fares.
pub proof fn lemma_repeat_kept<T>(item: Item<T>, input: Seq<u8>, at: int, count: nat, k: int)
    requires
        0 <= at <= k <= input.len(),
        item_kept(item, input, k),
    ensures
        kept(repeat_at(item, input.take(k), at, count), repeat_at(item, input, at, count), at, k),
    decreases count,
{
    if count > 0 {
        match item(input.take(k), at) {
            Err(e) => {},
            Ok((first, next)) => {
                lemma_repeat_kept(item, input, next, (count - 1) as nat, k);
            },
        }
    }
}

/// A table, read with bytes behind the input, given how each item alone
/// fares.
pub proof fn lemma_table_kept<T>(
    item: Item<T>,
    input: Seq<u8>,
    at: int,
    count_field: &'static str,
    k: int,
)
    requires
        0 <= at,
        0 <= k <= input.len(),
        item_kept(item, input, k),
    ensures
        kept(
            table_at(item, input.take(k), at, count_field),
            table_at(item, input, at, count_field),
            at,
            k,
        ),
{
    lemma_byte_kept(input, at, count_field, k);
    match byte_at(input.take(k), at, count_field) {
        Err(e) => {},
        Ok((count, next)) => {
            lemma_repeat_kept(item, input, next, count as nat, k);
        },
    }
}

/// A name, read with bytes behind the input.
pub proof fn lemma_name_kept(input: Seq<u8>, at: int, k: int)
    requires
        0 <= at,
        0 <= k <= input.len(),
    ensures
        kept(name_at(input.take(k), at), name_at(input, at), at, k),
{
    lemma_byte_kept(input, at, "entry length", k);
    match byte_at(input.take(k), at, "entry length") {
        Err(e) => {},
        Ok((len, next)) => {
            lemma_text_kept(input, next, len as int, "entry bytes", k);
        },
    }
}

/// A table of names, read with bytes behind the input.
pub proof fn lemma_names_kept(input: Seq<u8>, at: int, k: int)
    requires
        0 <= at,
        0 <= k <= input.len(),
    ensures
        kept(names_at(input.take(k), at), names_at(input, at), at, k),
{
    assert forall|a: int| 0 <= a implies kept(
        #[trigger] name_item()(input.take(k), a),
        name_item()(input, a),
        a,
        k,
    ) by {
        lemma_name_kept(input, a, k);
    }
    lemma_table_kept(name_item(), input, at, "table count", k);
}

/// What feeds a socket, read with bytes behind the input.
pub proof fn lemma_payload_kept(input: Seq<u8>, at: int, flags: u8, k: int)
    requires
        0 <= at <= k <= input.len(),
    ensures
        kept(payload_at(input.take(k), at, flags), payload_at(input, at, flags), at, k),
{
    lemma_pair_kept(input, at, "socket connection", k);
    lemma_run_kept(input, at, 4, "socket constant value length", k);
    match run_at(input.take(k), at, 4, "socket constant value length") {
        Err(e) => {},
        Ok((len, next)) => {
            lemma_text_kept(input, next, be_number(len) as int, "socket constant value", k);
        },
    }
}

/// A socket, read with bytes behind the input.
pub proof fn lemma_socket_kept(input: Seq<u8>, at: int, k: int)
    requires
        0 <= at,
        0 <= k <= input.len(),
    ensures
        kept(socket_at(input.take(k), at), socket_at(input, at), at, k),
{
    lemma_byte_kept(input, at, "socket flags", k);
    lemma_byte_kept(input, at + 1, "socket type index", k);
    lemma_byte_kept(input, at + 2, "socket port slot", k);
    if at + 3 <= k {
        lemma_payload_kept(input, at + 3, input[at], k);
    }
}

/// An instance, read with bytes behind the input.
pub proof fn lemma_instance_kept(input: Seq<u8>, at: int, k: int)
    requires
        0 <= at,
        0 <= k <= input.len(),
    ensures
        kept(instance_at(input.take(k), at), instance_at(input, at), at, k),
{
    let short = input.take(k);
    lemma_byte_kept(input, at, "missing instance key", k);
    lemma_byte_kept(input, at + 1, "instance type", k);
    lemma_run_kept(input, at + 2, 4, "instance position, name, and sockets", k);
    match run_at(short, at + 2, 4, "instance position, name, and sockets") {
        Err(e) => {},
        Ok((packed, _)) => {
            let name_len = bit_field(packed, 6, 6) as int;
            lemma_text_kept(input, at + 6, name_len, "instance name", k);
            match text_at(short, at + 6, name_len, "instance name") {
                Err(e) => {},
                Ok((name, next)) => {
                    assert forall|a: int| 0 <= a implies kept(
                        #[trigger] socket_item()(short, a),
                        socket_item()(input, a),
                        a,
                        k,
                    ) by {
                        lemma_socket_kept(input, a, k);
                    }
                    lemma_repeat_kept(socket_item(), input, next, bit_field(packed, 0, 6), k);
                },
            }
        },
    }
}

/// The table of instances, read with bytes behind the input.
pub proof fn lemma_instances_kept(input: Seq<u8>, at: int, k: int)
    requires
        0 <= at,
        0 <= k <= input.len(),
    ensures
        kept(instances_at(input.take(k), at), instances_at(input, at), at, k),
{
    assert forall|a: int| 0 <= a implies kept(
        #[trigger] instance_item()(input.take(k), a),
        instance_item()(input, a),
        a,
        k,
    ) by {
        lemma_instance_kept(input, a, k);
    }
    lemma_table_kept(instance_item(), input, at, "number of instances", k);
}

/// The roots, read with bytes behind the input.
pub proof fn lemma_roots_kept(input: Seq<u8>, at: int, k: int)
    requires
        0 <= at,
        0 <= k <= input.len(),
    ensures
        kept(roots_at(input.take(k), at), roots_at(input, at), at, k),
{
    lemma_run_kept(input, at, 5, "root positions", k);
    assert forall|a: int| 0 <= a implies kept(
        #[trigger] connection_item()(input.take(k), a),
        connection_item()(input, a),
        a,
        k,
    ) by {
        lemma_pair_kept(input, a, "output connections", k);
    }
    lemma_table_kept(connection_item(), input, at + 5, "connection count", k);
}

/// The body of a file that is read in full from the first `k` bytes of an
/// input that is longer: read from the whole input, its four tables come
/// out the same and end at `k`, and what lies behind them is trailing data.
pub proof fn lemma_definition_with_trailing_bytes(input: Seq<u8>, at: int, k: int)
    requires
        0 <= at,
        0 <= k < input.len() <= u64::MAX,
        definition_v1_at(input.take(k), at).is_ok(),
    ensures
        definition_v1_at(input, at) == Err::<(NodeDefinitionV1View, int), NodeParseError>(
            NodeParseError::FileTooLong(k as u64),
        ),
{
    let short = input.take(k);
    lemma_roots_kept(input, at, k);
    match roots_at(short, at) {
        Err(e) => {},
        Ok((roots, after_roots)) => {
            lemma_names_kept(input, after_roots, k);
            match names_at(short, after_roots) {
                Err(e) => {},
                Ok((nodes, after_nodes)) => {
                    lemma_names_kept(input, after_nodes, k);
                    match names_at(short, after_nodes) {
                        Err(e) => {},
                        Ok((types, after_types)) => {
                            lemma_instances_kept(input, after_types, k);
                        },
                    }
                },
            }
        },
    }
}

/// Bytes behind a file that decodes are reported as trailing data, at the
/// length of the file, whatever the bytes are.
pub proof fn lemma_trailing_bytes_are_reported_at_the_length_of_the_file(
    file: Seq<u8>,
    tail: Seq<u8>,
)
    requires
        node_of(file).is_ok(),
        tail.len() > 0,
        file.len() + tail.len() <= u64::MAX,
    ensures
        node_of(file + tail) == Err::<NodeView, NodeParseError>(
            NodeParseError::FileTooLong(file.len() as u64),
        ),
{
    let input = file + tail;
    let k = file.len() as int;
    assert(input.take(k) =~= file);
    assert(input.subrange(0, 11) =~= file.subrange(0, 11));
    lemma_byte_kept(input, 11, "version number", k);
    lemma_definition_with_trailing_bytes(input, 12, k);
}

} // verus!
