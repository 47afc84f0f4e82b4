//! What becomes of a read when the input is cut off.
//!
//! A read that succeeds on an input either comes out the same on a prefix
//! of that input, where the prefix still holds all that the read consumes,
//! or runs into the end of the prefix and fails there.

use crate::errors::NodeParseError;
use crate::kronarknode::{definition_v1_at, node_of, NodeView};
use crate::kronarknode::instance::{instance_at, instance_item, instances_at, socket_item};
use crate::kronarknode::roots::{connection_item, roots_at};
use crate::kronarknode::socket::{payload_at, socket_at};
use crate::packing::{be_number, bit_field};
use crate::wire::{
    byte_at, name_at, name_item, names_at, pair_at, repeat_at, run_at, table_at, text_at, Item,
    Outcome,
};
use vstd::prelude::*;

verus! {

/// The outcome `o` is a failure for want of input, reported at offset `k`.
pub open spec fn ends_early<T>(o: Outcome<T>, k: int) -> bool {
    o matches Err(NodeParseError::EOF(_, at)) && at == k
}

/// How the outcome `cut` of a read on the first `k` bytes of an input stands
/// to the outcome `whole` of the same read on all of it: where the read on
/// the whole input succeeds, the read on the prefix either gives the same
/// and stays within the prefix, or fails for want of input at offset `k`.
pub open spec fn cut_of<T>(whole: Outcome<T>, cut: Outcome<T>, k: int) -> bool {
    whole matches Ok((_, next)) ==> (cut == whole && 0 <= next <= k) || ends_early(cut, k)
}

/// The item `item`, read anywhere in the first `k` bytes of `input`, stands
/// to the same read on all of `input` as [`cut_of`] says.
pub open spec fn item_cut<T>(item: Item<T>, input: Seq<u8>, k: int) -> bool {
    forall|a: int| 0 <= a <= k ==> cut_of(#[trigger] item(input, a), item(input.take(k), a), k)
}

/// One byte, read on a prefix of the input.
pub proof fn lemma_byte_cut(input: Seq<u8>, at: int, field: &'static str, k: int)
    requires
        0 <= at <= k <= input.len() <= u64::MAX,
    ensures
        cut_of(byte_at(input, at, field), byte_at(input.take(k), at, field), k),
{
}

/// A run of bytes, read on a prefix of the input.
pub proof fn lemma_run_cut(input: Seq<u8>, at: int, n: int, field: &'static str, k: int)
    requires
        0 <= at <= k <= input.len() <= u64::MAX,
        0 <= n,
    ensures
        cut_of(run_at(input, at, n, field), run_at(input.take(k), at, n, field), k),
{
    if at + n <= k {
        assert(input.take(k).subrange(at, at + n) =~= input.subrange(at, at + n));
    }
}

/// A pair of bytes, read on a prefix of the input.
pub proof fn lemma_pair_cut(input: Seq<u8>, at: int, field: &'static str, k: int)
    requires
        0 <= at <= k <= input.len() <= u64::MAX,
    ensures
        cut_of(pair_at(input, at, field), pair_at(input.take(k), at, field), k),
{
    lemma_run_cut(input, at, 2, field, k);
}

/// Text, read on a prefix of the input.
pub proof fn lemma_text_cut(input: Seq<u8>, at: int, n: int, field: &'static str, k: int)
    requires
        0 <= at <= k <= input.len() <= u64::MAX,
        0 <= n,
    ensures
        cut_of(text_at(input, at, n, field), text_at(input.take(k), at, n, field), k),
{
    lemma_run_cut(input, at, n, field, k);
}

/// Items in a row, read on a prefix of the input, given how each item alone
/// fares on the prefix.
pub proof fn lemma_repeat_cut<T>(item: Item<T>, input: Seq<u8>, at: int, count: nat, k: int)
    requires
        0 <= at <= k <= input.len() <= u64::MAX,
        item_cut(item, input, k),
    ensures
        cut_of(repeat_at(item, input, at, count), repeat_at(item, input.take(k), at, count), k),
    decreases count,
{
    if count > 0 {
        match item(input, at) {
            Err(e) => {},
            Ok((first, next)) => {
                if item(input.take(k), at) == item(input, at) && 0 <= next <= k {
                    lemma_repeat_cut(item, input, next, (count - 1) as nat, k);
                }
            },
        }
    }
}

/// A table, read on a prefix of the input, given how each item alone fares
/// on the prefix.
pub proof fn lemma_table_cut<T>(
    item: Item<T>,
    input: Seq<u8>,
    at: int,
    count_field: &'static str,
    k: int,
)
    requires
        0 <= at <= k <= input.len() <= u64::MAX,
        item_cut(item, input, k),
    ensures
        cut_of(
            table_at(item, input, at, count_field),
            table_at(item, input.take(k), at, count_field),
            k,
        ),
{
    lemma_byte_cut(input, at, count_field, k);
    match byte_at(input, at, count_field) {
        Err(e) => {},
        Ok((count, next)) => {
            if next <= k {
                lemma_repeat_cut(item, input, next, count as nat, k);
            }
        },
    }
}

/// A name, read on a prefix of the input.
pub proof fn lemma_name_cut(input: Seq<u8>, at: int, k: int)
    requires
        0 <= at <= k <= input.len() <= u64::MAX,
    ensures
        cut_of(name_at(input, at), name_at(input.take(k), at), k),
{
    lemma_byte_cut(input, at, "entry length", k);
    match byte_at(input, at, "entry length") {
        Err(e) => {},
        Ok((len, next)) => {
            if next <= k {
                lemma_text_cut(input, next, len as int, "entry bytes", k);
            }
        },
    }
}

/// A table of names, read on a prefix of the input.
pub proof fn lemma_names_cut(input: Seq<u8>, at: int, k: int)
    requires
        0 <= at <= k <= input.len() <= u64::MAX,
    ensures
        cut_of(names_at(input, at), names_at(input.take(k), at), k),
{
    assert forall|a: int| 0 <= a <= k implies cut_of(
        #[trigger] name_item()(input, a),
        name_item()(input.take(k), a),
        k,
    ) by {
        lemma_name_cut(input, a, k);
    }
    lemma_table_cut(name_item(), input, at, "table count", k);
}

/// What feeds a socket, read on a prefix of the input.
pub proof fn lemma_payload_cut(input: Seq<u8>, at: int, flags: u8, k: int)
    requires
        0 <= at <= k <= input.len() <= u64::MAX,
    ensures
        cut_of(payload_at(input, at, flags), payload_at(input.take(k), at, flags), k),
{
    lemma_pair_cut(input, at, "socket connection", k);
    lemma_run_cut(input, at, 4, "socket constant value length", k);
    match run_at(input, at, 4, "socket constant value length") {
        Err(e) => {},
        Ok((len, next)) => {
            if next <= k {
                lemma_text_cut(
                    input,
                    next,
                    be_number(len) as int,
                    "socket constant value",
                    k,
                );
            }
        },
    }
}

/// A socket, read on a prefix of the input.
pub proof fn lemma_socket_cut(input: Seq<u8>, at: int, k: int)
    requires
        0 <= at <= k <= input.len() <= u64::MAX,
    ensures
        cut_of(socket_at(input, at), socket_at(input.take(k), at), k),
{
    lemma_byte_cut(input, at, "socket flags", k);
    if at + 1 <= k {
        lemma_byte_cut(input, at + 1, "socket type index", k);
    }
    if at + 2 <= k {
        lemma_byte_cut(input, at + 2, "socket port slot", k);
    }
    if at + 3 <= k {
        lemma_payload_cut(input, at + 3, input[at], k);
    }
}

/// An instance, read on a prefix of the input.
pub proof fn lemma_instance_cut(input: Seq<u8>, at: int, k: int)
    requires
        0 <= at <= k <= input.len() <= u64::MAX,
    ensures
        cut_of(instance_at(input, at), instance_at(input.take(k), at), k),
{
    lemma_byte_cut(input, at, "missing instance key", k);
    if at + 1 <= k {
        lemma_byte_cut(input, at + 1, "instance type", k);
    }
    if at + 2 <= k {
        lemma_run_cut(input, at + 2, 4, "instance position, name, and sockets", k);
    }
    match run_at(input, at + 2, 4, "instance position, name, and sockets") {
        Err(e) => {},
        Ok((packed, _)) => {
            if at + 6 <= k {
                let name_len = bit_field(packed, 6, 6) as int;
                lemma_text_cut(input, at + 6, name_len, "instance name", k);
                match text_at(input, at + 6, name_len, "instance name") {
                    Err(e) => {},
                    Ok((name, next)) => {
                        if next <= k {
                            assert forall|a: int| 0 <= a <= k implies cut_of(
                                #[trigger] socket_item()(input, a),
                                socket_item()(input.take(k), a),
                                k,
                            ) by {
                                lemma_socket_cut(input, a, k);
                            }
                            lemma_repeat_cut(
                                socket_item(),
                                input,
                                next,
                                bit_field(packed, 0, 6),
                                k,
                            );
                        }
                    },
                }
            }
        },
    }
}

/// The table of instances, read on a prefix of the input.
pub proof fn lemma_instances_cut(input: Seq<u8>, at: int, k: int)
    requires
        0 <= at <= k <= input.len() <= u64::MAX,
    ensures
        cut_of(instances_at(input, at), instances_at(input.take(k), at), k),
{
    assert forall|a: int| 0 <= a <= k implies cut_of(
        #[trigger] instance_item()(input, a),
        instance_item()(input.take(k), a),
        k,
    ) by {
        lemma_instance_cut(input, a, k);
    }
    lemma_table_cut(instance_item(), input, at, "number of instances", k);
}

/// The roots, read on a prefix of the input.
pub proof fn lemma_roots_cut(input: Seq<u8>, at: int, k: int)
    requires
        0 <= at <= k <= input.len() <= u64::MAX,
    ensures
        cut_of(roots_at(input, at), roots_at(input.take(k), at), k),
{
    lemma_run_cut(input, at, 5, "root positions", k);
    if at + 5 <= k {
        assert forall|a: int| 0 <= a <= k implies cut_of(
            #[trigger] connection_item()(input, a),
            connection_item()(input.take(k), a),
            k,
        ) by {
            lemma_pair_cut(input, a, "output connections", k);
        }
        lemma_table_cut(connection_item(), input, at + 5, "connection count", k);
    }
}

/// The body of a file reaches to the end of the input, so on a proper
/// prefix of an input on which it is read in full, reading it fails for
/// want of input, at the end of the prefix.
pub proof fn lemma_definition_cut(input: Seq<u8>, at: int, k: int)
    requires
        0 <= at <= k < input.len() <= u64::MAX,
        definition_v1_at(input, at).is_ok(),
    ensures
        ends_early(definition_v1_at(input.take(k), at), k),
{
    lemma_roots_cut(input, at, k);
    let cut = input.take(k);
    match roots_at(input, at) {
        Err(e) => {},
        Ok((roots, after_roots)) => {
            if roots_at(cut, at) == roots_at(input, at) && 0 <= after_roots <= k {
                lemma_names_cut(input, after_roots, k);
                match names_at(input, after_roots) {
                    Err(e) => {},
                    Ok((nodes, after_nodes)) => {
                        if names_at(cut, after_roots) == names_at(input, after_roots) && 0
                            <= after_nodes <= k {
                            lemma_names_cut(input, after_nodes, k);
                            match names_at(input, after_nodes) {
                                Err(e) => {},
                                Ok((types, after_types)) => {
                                    if names_at(cut, after_nodes) == names_at(input, after_nodes)
                                        && 0 <= after_types <= k {
                                        lemma_instances_cut(input, after_types, k);
                                    }
                                },
                            }
                        }
                    },
                }
            }
        },
    }
}

/// A file that decodes, cut off anywhere behind its magic number, fails to
/// decode for want of input, and the error reports the offset at which the
/// file was cut.
pub proof fn lemma_truncated_file_ends_early(file: Seq<u8>, k: int)
    requires
        node_of(file).is_ok(),
        11 <= k < file.len() <= u64::MAX,
    ensures
        node_of(file.take(k)) matches Err(NodeParseError::EOF(_, at)) && at == k,
{
    let cut = file.take(k);
    assert(cut.subrange(0, 11) =~= file.subrange(0, 11));
    lemma_byte_cut(file, 11, "version number", k);
    if 12 <= k {
        lemma_definition_cut(file, 12, k);
    }
}

/// An input shorter than the magic number is no node file, and the error
/// reports the length of the input.
pub proof fn lemma_short_input_is_no_file(input: Seq<u8>)
    requires
        input.len() < 11,
    ensures
        node_of(input) == Err::<NodeView, NodeParseError>(
            NodeParseError::InvalidFile(input.len() as u64),
        ),
{
}

} // verus!
