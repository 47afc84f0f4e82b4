//! Where a read comes to rest.
//!
//! A read never moves the cursor back and never moves it past the end of
//! the input, whether it succeeds or fails. So the offset that an error
//! carries always lies within the input, at or behind the offset at which
//! the failed read began.

use crate::kronarknode::instance::{instance_at, instance_item, instances_at, socket_item};
use crate::kronarknode::roots::{connection_item, roots_at};
use crate::kronarknode::socket::{payload_at, socket_at};
use crate::kronarknode::{definition_v1_at, node_of};
use crate::packing::{be_number, bit_field};
use crate::wire::{
    byte_at, name_at, name_item, names_at, pair_at, repeat_at, resting, run_at, table_at, text_at,
    Item, Outcome,
};
use vstd::prelude::*;

verus! {

/// A read from offset `at` with outcome `o` comes to rest within `input`,
/// at or behind `at`.
pub open spec fn rests_within<T>(o: Outcome<T>, input: Seq<u8>, at: int) -> bool {
    at <= resting(o) <= input.len()
}

/// The item `item` comes to rest within `input` wherever in it the item is
/// read.
pub open spec fn item_rests_within<T>(item: Item<T>, input: Seq<u8>) -> bool {
    forall|a: int| 0 <= a <= input.len() ==> rests_within(#[trigger] item(input, a), input, a)
}

/// One byte comes to rest within the input.
pub proof fn lemma_byte_rests(input: Seq<u8>, at: int, field: &'static str)
    requires
        0 <= at <= input.len() <= u64::MAX,
    ensures
        rests_within(byte_at(input, at, field), input, at),
{
}

/// A run of bytes comes to rest within the input.
pub proof fn lemma_run_rests(input: Seq<u8>, at: int, n: int, field: &'static str)
    requires
        0 <= at <= input.len() <= u64::MAX,
        0 <= n,
    ensures
        rests_within(run_at(input, at, n, field), input, at),
{
}

/// Text comes to rest within the input.
pub proof fn lemma_text_rests(input: Seq<u8>, at: int, n: int, field: &'static str)
    requires
        0 <= at <= input.len() <= u64::MAX,
        0 <= n,
    ensures
        rests_within(text_at(input, at, n, field), input, at),
{
    lemma_run_rests(input, at, n, field);
}

/// Items in a row come to rest within the input, given that each item alone
/// does.
pub proof fn lemma_repeat_rests<T>(item: Item<T>, input: Seq<u8>, at: int, count: nat)
    requires
        0 <= at <= input.len() <= u64::MAX,
        item_rests_within(item, input),
    ensures
        rests_within(repeat_at(item, input, at, count), input, at),
    decreases count,
{
    if count > 0 {
        match item(input, at) {
            Err(e) => {},
            Ok((first, next)) => {
                lemma_repeat_rests(item, input, next, (count - 1) as nat);
            },
        }
    }
}

/// A table comes to rest within the input, given that each item alone does.
pub proof fn lemma_table_rests<T>(
    item: Item<T>,
    input: Seq<u8>,
    at: int,
    count_field: &'static str,
)
    requires
        0 <= at <= input.len() <= u64::MAX,
        item_rests_within(item, input),
    ensures
        rests_within(table_at(item, input, at, count_field), input, at),
{
    lemma_byte_rests(input, at, count_field);
    match byte_at(input, at, count_field) {
        Err(e) => {},
        Ok((count, next)) => {
            lemma_repeat_rests(item, input, next, count as nat);
        },
    }
}

/// A name comes to rest within the input.
pub proof fn lemma_name_rests(input: Seq<u8>, at: int)
    requires
        0 <= at <= input.len() <= u64::MAX,
    ensures
        rests_within(name_at(input, at), input, at),
{
    lemma_byte_rests(input, at, "entry length");
    match byte_at(input, at, "entry length") {
        Err(e) => {},
        Ok((len, next)) => {
            lemma_text_rests(input, next, len as int, "entry bytes");
        },
    }
}

/// A table of names comes to rest within the input.
pub proof fn lemma_names_rest(input: Seq<u8>, at: int)
    requires
        0 <= at <= input.len() <= u64::MAX,
    ensures
        rests_within(names_at(input, at), input, at),
{
    assert forall|a: int| 0 <= a <= input.len() implies rests_within(
        #[trigger] name_item()(input, a),
        input,
        a,
    ) by {
        lemma_name_rests(input, a);
    }
    lemma_table_rests(name_item(), input, at, "table count");
}

/// What feeds a socket comes to rest within the input.
pub proof fn lemma_payload_rests(input: Seq<u8>, at: int, flags: u8)
    requires
        0 <= at <= input.len() <= u64::MAX,
    ensures
        rests_within(payload_at(input, at, flags), input, at),
{
    lemma_run_rests(input, at, 2, "socket connection");
    lemma_run_rests(input, at, 4, "socket constant value length");
    match run_at(input, at, 4, "socket constant value length") {
        Err(e) => {},
        Ok((len, next)) => {
            lemma_text_rests(input, next, be_number(len) as int, "socket constant value");
        },
    }
}

/// A socket comes to rest within the input.
pub proof fn lemma_socket_rests(input: Seq<u8>, at: int)
    requires
        0 <= at <= input.len() <= u64::MAX,
    ensures
        rests_within(socket_at(input, at), input, at),
{
    lemma_byte_rests(input, at, "socket flags");
    if at + 3 <= input.len() {
        lemma_byte_rests(input, at + 1, "socket type index");
        lemma_byte_rests(input, at + 2, "socket port slot");
        lemma_payload_rests(input, at + 3, input[at]);
    }
}

/// An instance comes to rest within the input.
pub proof fn lemma_instance_rests(input: Seq<u8>, at: int)
    requires
        0 <= at <= input.len() <= u64::MAX,
    ensures
        rests_within(instance_at(input, at), input, at),
{
    assert forall|a: int| 0 <= a <= input.len() implies rests_within(
        #[trigger] socket_item()(input, a),
        input,
        a,
    ) by {
        lemma_socket_rests(input, a);
    }
    lemma_byte_rests(input, at, "missing instance key");
    if at + 2 <= input.len() {
        lemma_byte_rests(input, at + 1, "instance type");
        lemma_run_rests(input, at + 2, 4, "instance position, name, and sockets");
    }
    match run_at(input, at + 2, 4, "instance position, name, and sockets") {
        Err(e) => {},
        Ok((packed, _)) => {
            let name_len = bit_field(packed, 6, 6) as int;
            lemma_text_rests(input, at + 6, name_len, "instance name");
            match text_at(input, at + 6, name_len, "instance name") {
                Err(e) => {},
                Ok((name, next)) => {
                    lemma_repeat_rests(socket_item(), input, next, bit_field(packed, 0, 6));
                },
            }
        },
    }
}

/// The table of instances comes to rest within the input.
pub proof fn lemma_instances_rest(input: Seq<u8>, at: int)
    requires
        0 <= at <= input.len() <= u64::MAX,
    ensures
        rests_within(instances_at(input, at), input, at),
{
    assert forall|a: int| 0 <= a <= input.len() implies rests_within(
        #[trigger] instance_item()(input, a),
        input,
        a,
    ) by {
        lemma_instance_rests(input, a);
    }
    lemma_table_rests(instance_item(), input, at, "number of instances");
}

/// The roots come to rest within the input.
pub proof fn lemma_roots_rest(input: Seq<u8>, at: int)
    requires
        0 <= at <= input.len() <= u64::MAX,
    ensures
        rests_within(roots_at(input, at), input, at),
{
    assert forall|a: int| 0 <= a <= input.len() implies rests_within(
        #[trigger] connection_item()(input, a),
        input,
        a,
    ) by {
        lemma_run_rests(input, a, 2, "output connections");
        assert(connection_item()(input, a) == pair_at(input, a, "output connections"));
    }
    lemma_run_rests(input, at, 5, "root positions");
    if at + 5 <= input.len() {
        lemma_table_rests(connection_item(), input, at + 5, "connection count");
    }
}

/// The body of a file comes to rest within the input.
pub proof fn lemma_definition_rests(input: Seq<u8>, at: int)
    requires
        0 <= at <= input.len() <= u64::MAX,
    ensures
        rests_within(definition_v1_at(input, at), input, at),
{
    lemma_roots_rest(input, at);
    match roots_at(input, at) {
        Err(e) => {},
        Ok((roots, after_roots)) => {
            lemma_names_rest(input, after_roots);
            match names_at(input, after_roots) {
                Err(e) => {},
                Ok((nodes, after_nodes)) => {
                    lemma_names_rest(input, after_nodes);
                    match names_at(input, after_nodes) {
                        Err(e) => {},
                        Ok((types, after_types)) => {
                            lemma_instances_rest(input, after_types);
                        },
                    }
                },
            }
        },
    }
}

/// The offset that a decoding error carries lies within the input.
pub proof fn lemma_error_offset_within_input(input: Seq<u8>)
    requires
        input.len() <= u64::MAX,
    ensures
        node_of(input) matches Err(e) ==> e.offset() <= input.len(),
{
    if input.len() >= 11 {
        lemma_byte_rests(input, 11, "version number");
    }
    if input.len() >= 12 {
        lemma_definition_rests(input, 12);
    }
}

} // verus!
