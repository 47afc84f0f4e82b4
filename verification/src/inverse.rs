//! Decoding and encoding are inverses of each other.
//!
//! The first half shows that a graph that can be written is read back from
//! its file as it was. The second half shows that a file that can be read
//! is the file of the graph that is read from it. So the files that decode
//! and the graphs that can be written stand one to one.

use crate::encoding::{
    connection_bytes, connection_encoder, definition_bytes, encodable, encodable_definition,
    encodable_instance, encodable_names, encodable_roots, encodable_socket, file_of, has_at,
    instance_bytes, instance_encoder, lemma_has_at_index, lemma_has_at_join, lemma_has_at_split,
    lemma_has_at_subrange, name_bytes, name_encoder, payload_bytes, roots_bytes, row_of,
    socket_bytes, socket_encoder, table_of, Encoder,
};
use crate::errors::NodeParseError;
use crate::kronarknode::{definition_v1_at, magic_number, node_of, NodeDefinitionV1View, NodeView};
use crate::kronarknode::instance::{
    instance_at, instance_item, instances_at, socket_item, InstanceView,
};
use crate::kronarknode::roots::{connection_item, roots_at, RootsView};
use crate::kronarknode::socket::{
    connected_bit, payload_at, socket_at, type_code, DataView, SocketView,
};
use crate::packing::{
    be_bytes, be_number, bit_field, lemma_be_bytes_len, lemma_be_bytes_of_be_number,
    lemma_be_number_of_be_bytes, lemma_fields_of_packed_instance, lemma_fields_of_packed_roots,
    lemma_packed_fields_of_five, lemma_packed_fields_of_four, pack_instance, pack_roots,
};
use crate::wire::{
    byte_at, name_at, name_item, names_at, pair_at, repeat_at, run_at, table_at, text_at, Item,
};
use vstd::arithmetic::power2::lemma2_to64;
use vstd::prelude::*;
use vstd::utf8::{
    decode_utf8_encode_utf8, encode_utf8, encode_utf8_decode_utf8, encode_utf8_valid_utf8,
};

verus! {

/// Text that stands in the input in UTF-8 is read back as that text.
pub proof fn lemma_text_decodes(input: Seq<u8>, at: int, text: Seq<char>, field: &'static str)
    requires
        has_at(input, at, encode_utf8(text)),
    ensures
        text_at(input, at, encode_utf8(text).len() as int, field) == Ok::<
            (Seq<char>, int),
            NodeParseError,
        >((text, at + encode_utf8(text).len())),
{
    encode_utf8_valid_utf8(text);
    encode_utf8_decode_utf8(text);
}

/// A name that stands in the input is read back as that name.
pub proof fn lemma_name_decodes(input: Seq<u8>, at: int, name: Seq<char>)
    requires
        has_at(input, at, name_bytes(name)),
        encode_utf8(name).len() <= 255,
    ensures
        name_at(input, at) == Ok::<(Seq<char>, int), NodeParseError>(
            (name, at + name_bytes(name).len()),
        ),
{
    let len = seq![encode_utf8(name).len() as u8];
    lemma_has_at_split(input, at, len, encode_utf8(name));
    lemma_has_at_index(input, at, len, 0);
    lemma_text_decodes(input, at + 1, name, "entry bytes");
}

/// Items that stand in the input in a row are read back in their order,
/// given that each of them alone is read back wherever it stands.
pub proof fn lemma_row_decodes<T>(
    item: Item<T>,
    enc: Encoder<T>,
    items: Seq<T>,
    input: Seq<u8>,
    at: int,
)
    requires
        has_at(input, at, row_of(enc, items)),
        forall|i: int, a: int|
            0 <= i < items.len() && #[trigger] has_at(input, a, enc(items[i])) ==> item(input, a)
                == Ok::<(T, int), NodeParseError>((items[i], a + enc(items[i]).len())),
    ensures
        repeat_at(item, input, at, items.len()) == Ok::<(Seq<T>, int), NodeParseError>(
            (items, at + row_of(enc, items).len()),
        ),
    decreases items.len(),
{
    if items.len() == 0 {
        assert(items =~= Seq::<T>::empty());
    } else {
        let rest = items.drop_first();
        lemma_has_at_split(input, at, enc(items[0]), row_of(enc, rest));
        assert forall|i: int, a: int|
            0 <= i < rest.len() && #[trigger] has_at(input, a, enc(rest[i])) implies item(input, a)
                == Ok::<(T, int), NodeParseError>((rest[i], a + enc(rest[i]).len())) by {
            assert(rest[i] == items[i + 1]);
        }
        lemma_row_decodes(item, enc, rest, input, at + enc(items[0]).len());
        assert(seq![items[0]] + rest =~= items);
    }
}

/// A table of at most 255 items that stands in the input is read back as
/// its items, given that each of them alone is read back wherever it stands.
pub proof fn lemma_table_decodes<T>(
    item: Item<T>,
    enc: Encoder<T>,
    items: Seq<T>,
    input: Seq<u8>,
    at: int,
    count_field: &'static str,
)
    requires
        items.len() <= 255,
        has_at(input, at, table_of(enc, items)),
        forall|i: int, a: int|
            0 <= i < items.len() && #[trigger] has_at(input, a, enc(items[i])) ==> item(input, a)
                == Ok::<(T, int), NodeParseError>((items[i], a + enc(items[i]).len())),
    ensures
        table_at(item, input, at, count_field) == Ok::<(Seq<T>, int), NodeParseError>(
            (items, at + table_of(enc, items).len()),
        ),
{
    let count = seq![items.len() as u8];
    lemma_has_at_split(input, at, count, row_of(enc, items));
    lemma_has_at_index(input, at, count, 0);
    lemma_row_decodes(item, enc, items, input, at + 1);
}

/// A table of names that stands in the input is read back as those names.
pub proof fn lemma_names_decode(input: Seq<u8>, at: int, names: Seq<Seq<char>>)
    requires
        encodable_names(names),
        has_at(input, at, table_of(name_encoder(), names)),
    ensures
        names_at(input, at) == Ok::<(Seq<Seq<char>>, int), NodeParseError>(
            (names, at + table_of(name_encoder(), names).len()),
        ),
{
    assert forall|i: int, a: int|
        0 <= i < names.len() && #[trigger] has_at(
            input,
            a,
            name_encoder()(names[i]),
        ) implies name_item()(input, a) == Ok::<(Seq<char>, int), NodeParseError>(
        (names[i], a + name_encoder()(names[i]).len()),
    ) by {
        lemma_name_decodes(input, a, names[i]);
    }
    lemma_table_decodes(name_item(), name_encoder(), names, input, at, "table count");
}

/// Roots that stand in the input are read back as those roots.
pub proof fn lemma_roots_decode(input: Seq<u8>, at: int, roots: RootsView)
    requires
        encodable_roots(roots),
        has_at(input, at, roots_bytes(roots)),
    ensures
        roots_at(input, at) == Ok::<(RootsView, int), NodeParseError>(
            (roots, at + roots_bytes(roots).len()),
        ),
{
    let packed = be_bytes(
        pack_roots(
            roots.input_root_x,
            roots.input_root_y,
            roots.output_root_x,
            roots.output_root_y,
        ),
        5,
    );
    let table = table_of(connection_encoder(), roots.output_connections);
    lemma_fields_of_packed_roots(
        roots.input_root_x,
        roots.input_root_y,
        roots.output_root_x,
        roots.output_root_y,
    );
    lemma_has_at_split(input, at, packed, table);
    assert forall|i: int, a: int|
        0 <= i < roots.output_connections.len() && #[trigger] has_at(
            input,
            a,
            connection_encoder()(roots.output_connections[i]),
        ) implies connection_item()(input, a) == Ok::<((u8, u8), int), NodeParseError>(
        (roots.output_connections[i], a + connection_encoder()(roots.output_connections[i]).len()),
    ) by {
        let pair = connection_bytes(roots.output_connections[i]);
        lemma_has_at_index(input, a, pair, 0);
        lemma_has_at_index(input, a, pair, 1);
    }
    lemma_table_decodes(
        connection_item(),
        connection_encoder(),
        roots.output_connections,
        input,
        at + 5,
        "connection count",
    );
}

/// What feeds a socket, standing in the input behind the socket's first
/// three bytes, is read back as it was written.
pub proof fn lemma_payload_decodes(input: Seq<u8>, at: int, socket: SocketView)
    requires
        encodable_socket(socket),
        has_at(input, at, payload_bytes(socket.data)),
    ensures
        payload_at(input, at, socket.flags) == Ok::<(Option<DataView>, int), NodeParseError>(
            (socket.data, at + payload_bytes(socket.data).len()),
        ),
{
    match socket.data {
        None => {},
        Some(DataView::Connection(node, target)) => {
            let pair = seq![node, target];
            lemma_has_at_index(input, at, pair, 0);
            lemma_has_at_index(input, at, pair, 1);
        },
        Some(DataView::Constant(text)) => {
            let len = be_bytes(encode_utf8(text).len(), 4);
            lemma2_to64();
            lemma_be_bytes_len(encode_utf8(text).len(), 4);
            lemma_be_number_of_be_bytes(encode_utf8(text).len(), 4);
            lemma_has_at_split(input, at, len, encode_utf8(text));
            lemma_text_decodes(input, at + 4, text, "socket constant value");
        },
    }
}

/// A socket that stands in the input is read back as that socket.
pub proof fn lemma_socket_decodes(input: Seq<u8>, at: int, socket: SocketView)
    requires
        encodable_socket(socket),
        has_at(input, at, socket_bytes(socket)),
    ensures
        socket_at(input, at) == Ok::<(SocketView, int), NodeParseError>(
            (socket, at + socket_bytes(socket).len()),
        ),
{
    let head = seq![socket.flags, socket.type_index as u8, socket.port_slot];
    lemma_has_at_split(input, at, head, payload_bytes(socket.data));
    lemma_has_at_index(input, at, head, 0);
    lemma_has_at_index(input, at, head, 1);
    lemma_has_at_index(input, at, head, 2);
    lemma_payload_decodes(input, at + 3, socket);
}

/// An instance that stands in the input is read back as that instance.
pub proof fn lemma_instance_decodes(input: Seq<u8>, at: int, instance: InstanceView)
    requires
        encodable_instance(instance),
        has_at(input, at, instance_bytes(instance)),
    ensures
        instance_at(input, at) == Ok::<(InstanceView, int), NodeParseError>(
            (instance, at + instance_bytes(instance).len()),
        ),
{
    let head = seq![instance.key as u8, instance.node_type as u8];
    let name = encode_utf8(instance.name);
    let packed = be_bytes(
        pack_instance(instance.position_x, instance.position_y, name.len(), instance.sockets.len()),
        4,
    );
    let row = row_of(socket_encoder(), instance.sockets);
    lemma_fields_of_packed_instance(
        instance.position_x,
        instance.position_y,
        name.len(),
        instance.sockets.len(),
    );
    lemma_has_at_split(input, at, head + packed + name, row);
    lemma_has_at_split(input, at, head + packed, name);
    lemma_has_at_split(input, at, head, packed);
    lemma_has_at_index(input, at, head, 0);
    lemma_has_at_index(input, at, head, 1);
    lemma_text_decodes(input, at + 6, instance.name, "instance name");
    assert forall|i: int, a: int|
        0 <= i < instance.sockets.len() && #[trigger] has_at(
            input,
            a,
            socket_encoder()(instance.sockets[i]),
        ) implies socket_item()(input, a) == Ok::<(SocketView, int), NodeParseError>(
        (instance.sockets[i], a + socket_encoder()(instance.sockets[i]).len()),
    ) by {
        lemma_socket_decodes(input, a, instance.sockets[i]);
    }
    lemma_row_decodes(
        socket_item(),
        socket_encoder(),
        instance.sockets,
        input,
        at + 6 + name.len(),
    );
}

/// A table of instances that stands in the input is read back as those
/// instances.
pub proof fn lemma_instances_decode(input: Seq<u8>, at: int, instances: Seq<InstanceView>)
    requires
        instances.len() <= 255,
        forall|i: int| 0 <= i < instances.len() ==> encodable_instance(#[trigger] instances[i]),
        has_at(input, at, table_of(instance_encoder(), instances)),
    ensures
        instances_at(input, at) == Ok::<(Seq<InstanceView>, int), NodeParseError>(
            (instances, at + table_of(instance_encoder(), instances).len()),
        ),
{
    assert forall|i: int, a: int|
        0 <= i < instances.len() && #[trigger] has_at(
            input,
            a,
            instance_encoder()(instances[i]),
        ) implies instance_item()(input, a) == Ok::<(InstanceView, int), NodeParseError>(
        (instances[i], a + instance_encoder()(instances[i]).len()),
    ) by {
        lemma_instance_decodes(input, a, instances[i]);
    }
    lemma_table_decodes(
        instance_item(),
        instance_encoder(),
        instances,
        input,
        at,
        "number of instances",
    );
}

/// The body of a file that stands at the end of the input is read back as
/// the graph that was written.
pub proof fn lemma_definition_decodes(input: Seq<u8>, at: int, def: NodeDefinitionV1View)
    requires
        encodable_definition(def),
        has_at(input, at, definition_bytes(def)),
        at + definition_bytes(def).len() == input.len(),
    ensures
        definition_v1_at(input, at) == Ok::<(NodeDefinitionV1View, int), NodeParseError>(
            (def, input.len() as int),
        ),
{
    let roots = roots_bytes(def.roots);
    let nodes = table_of(name_encoder(), def.nodes);
    let types = table_of(name_encoder(), def.types);
    let instances = table_of(instance_encoder(), def.instances);
    lemma_has_at_split(input, at, roots + nodes + types, instances);
    lemma_has_at_split(input, at, roots + nodes, types);
    lemma_has_at_split(input, at, roots, nodes);
    lemma_roots_decode(input, at, def.roots);
    lemma_names_decode(input, at + roots.len(), def.nodes);
    lemma_names_decode(input, at + roots.len() + nodes.len(), def.types);
    lemma_instances_decode(input, at + roots.len() + nodes.len() + types.len(), def.instances);
}

/// Decoding the file that holds a graph gives that graph: every field, the
/// order of every table and every packed coordinate come back as written.
pub proof fn lemma_decode_inverts_encode(node: NodeView)
    requires
        encodable(node),
    ensures
        node_of(file_of(node)) == Ok::<NodeView, NodeParseError>(node),
{
    match node {
        NodeView::V1(def) => {
            let file = file_of(node);
            assert(file.subrange(0, 11) =~= magic_number());
            assert(file.subrange(12, file.len() as int) =~= definition_bytes(def));
            lemma_definition_decodes(file, 12, def);
        },
    }
}

/// Text that is read from the input stands there in UTF-8.
pub proof fn lemma_text_was_written(input: Seq<u8>, at: int, n: int, field: &'static str)
    requires
        0 <= at,
        0 <= n,
        text_at(input, at, n, field).is_ok(),
    ensures
        text_at(input, at, n, field) matches Ok((text, next)) && next == at + n && encode_utf8(
            text,
        ) == input.subrange(at, at + n) && has_at(input, at, encode_utf8(text)),
{
    let raw = input.subrange(at, at + n);
    decode_utf8_encode_utf8(raw);
    lemma_has_at_subrange(input, at, at + n);
}

/// How an item that is read stands to how it is written: wherever the item
/// is read, its bytes stand there, the read ends just behind them, and the
/// item is `good`.
pub open spec fn reads_what_is_written<T>(
    item: Item<T>,
    enc: Encoder<T>,
    good: spec_fn(T) -> bool,
    input: Seq<u8>,
) -> bool {
    forall|a: int|
        0 <= a ==> (#[trigger] item(input, a) matches Ok((v, next)) ==> good(v) && has_at(
            input,
            a,
            enc(v),
        ) && next == a + enc(v).len())
}

/// Items that are read in a row stand in the input in a row, and there are
/// as many of them as were asked for.
pub proof fn lemma_row_was_written<T>(
    item: Item<T>,
    enc: Encoder<T>,
    good: spec_fn(T) -> bool,
    input: Seq<u8>,
    at: int,
    count: nat,
)
    requires
        0 <= at <= input.len(),
        reads_what_is_written(item, enc, good, input),
        repeat_at(item, input, at, count).is_ok(),
    ensures
        repeat_at(item, input, at, count) matches Ok((items, end)) && items.len() == count
            && has_at(input, at, row_of(enc, items)) && end == at + row_of(enc, items).len() && (
        forall|i: int| 0 <= i < items.len() ==> good(#[trigger] items[i])),
    decreases count,
{
    if count == 0 {
        assert(input.subrange(at, at) =~= Seq::<u8>::empty());
    } else {
        match item(input, at) {
            Err(e) => {},
            Ok((first, next)) => {
                lemma_row_was_written(item, enc, good, input, next, (count - 1) as nat);
                match repeat_at(item, input, next, (count - 1) as nat) {
                    Err(e) => {},
                    Ok((rest, end)) => {
                        let items = seq![first] + rest;
                        assert(items.drop_first() =~= rest);
                        lemma_has_at_join(input, at, enc(first), row_of(enc, rest));
                        assert forall|i: int| 0 <= i < items.len() implies good(
                            #[trigger] items[i],
                        ) by {
                            if i > 0 {
                                assert(items[i] == rest[i - 1]);
                            }
                        }
                    },
                }
            },
        }
    }
}

/// A table that is read stands in the input as a table.
pub proof fn lemma_table_was_written<T>(
    item: Item<T>,
    enc: Encoder<T>,
    good: spec_fn(T) -> bool,
    input: Seq<u8>,
    at: int,
    count_field: &'static str,
)
    requires
        0 <= at,
        reads_what_is_written(item, enc, good, input),
        table_at(item, input, at, count_field).is_ok(),
    ensures
        table_at(item, input, at, count_field) matches Ok((items, end)) && items.len() <= 255
            && has_at(input, at, table_of(enc, items)) && end == at + table_of(enc, items).len()
            && (forall|i: int| 0 <= i < items.len() ==> good(#[trigger] items[i])),
{
    match byte_at(input, at, count_field) {
        Err(e) => {},
        Ok((count, next)) => {
            lemma_row_was_written(item, enc, good, input, next, count as nat);
            match repeat_at(item, input, next, count as nat) {
                Err(e) => {},
                Ok((items, end)) => {
                    lemma_has_at_subrange(input, at, at + 1);
                    assert(input.subrange(at, at + 1) =~= seq![items.len() as u8]);
                    lemma_has_at_join(input, at, seq![items.len() as u8], row_of(enc, items));
                },
            }
        },
    }
}

/// A name that is read stands in the input as a name.
pub proof fn lemma_name_was_written(input: Seq<u8>, at: int)
    requires
        0 <= at,
        name_at(input, at).is_ok(),
    ensures
        name_at(input, at) matches Ok((name, next)) && encode_utf8(name).len() <= 255 && has_at(
            input,
            at,
            name_bytes(name),
        ) && next == at + name_bytes(name).len(),
{
    match byte_at(input, at, "entry length") {
        Err(e) => {},
        Ok((len, next)) => {
            lemma_text_was_written(input, next, len as int, "entry bytes");
            match text_at(input, next, len as int, "entry bytes") {
                Err(e) => {},
                Ok((name, end)) => {
                    lemma_has_at_subrange(input, at, at + 1);
                    assert(input.subrange(at, at + 1) =~= seq![len]);
                    lemma_has_at_join(input, at, seq![len], encode_utf8(name));
                },
            }
        },
    }
}

/// A table of names that is read can be written, and stands in the input
/// as it is written.
pub proof fn lemma_names_were_written(input: Seq<u8>, at: int)
    requires
        0 <= at,
        names_at(input, at).is_ok(),
    ensures
        names_at(input, at) matches Ok((names, end)) && encodable_names(names) && has_at(
            input,
            at,
            table_of(name_encoder(), names),
        ) && end == at + table_of(name_encoder(), names).len(),
{
    let good = |name: Seq<char>| encode_utf8(name).len() <= 255;
    assert forall|a: int| 0 <= a implies (#[trigger] name_item()(input, a) matches Ok(
        (v, next),
    ) ==> good(v) && has_at(input, a, name_encoder()(v)) && next == a + name_encoder()(v).len()) by {
        if name_at(input, a).is_ok() {
            lemma_name_was_written(input, a);
        }
    }
    lemma_table_was_written(name_item(), name_encoder(), good, input, at, "table count");
}

/// Roots that are read can be written, and stand in the input as they are
/// written.
pub proof fn lemma_roots_were_written(input: Seq<u8>, at: int)
    requires
        0 <= at,
        roots_at(input, at).is_ok(),
    ensures
        roots_at(input, at) matches Ok((roots, end)) && encodable_roots(roots) && has_at(
            input,
            at,
            roots_bytes(roots),
        ) && end == at + roots_bytes(roots).len(),
{
    let good = |connection: (u8, u8)| true;
    assert forall|a: int| 0 <= a implies (#[trigger] connection_item()(input, a) matches Ok(
        (v, next),
    ) ==> good(v) && has_at(input, a, connection_encoder()(v)) && next == a + connection_encoder()(
        v,
    ).len()) by {
        if pair_at(input, a, "output connections").is_ok() {
            lemma_has_at_subrange(input, a, a + 2);
            assert(input.subrange(a, a + 2) =~= seq![input[a], input[a + 1]]);
        }
    }
    match run_at(input, at, 5, "root positions") {
        Err(e) => {},
        Ok((packed, next)) => {
            lemma_packed_fields_of_five(packed);
            lemma_be_bytes_of_be_number(packed);
            lemma_has_at_subrange(input, at, at + 5);
            lemma_table_was_written(
                connection_item(),
                connection_encoder(),
                good,
                input,
                next,
                "connection count",
            );
            match table_at(connection_item(), input, next, "connection count") {
                Err(e) => {},
                Ok((connections, end)) => {
                    lemma_has_at_join(
                        input,
                        at,
                        packed,
                        table_of(connection_encoder(), connections),
                    );
                },
            }
        },
    }
}

/// What is read as feeding a socket is what the socket's flags call for,
/// and stands in the input as it is written.
pub proof fn lemma_payload_was_written(input: Seq<u8>, at: int, flags: u8)
    requires
        0 <= at <= input.len(),
        payload_at(input, at, flags).is_ok(),
    ensures
        payload_at(input, at, flags) matches Ok((data, end)) && has_at(
            input,
            at,
            payload_bytes(data),
        ) && end == at + payload_bytes(data).len() && (match data {
            None => type_code(flags) == 0 || (!connected_bit(flags) && type_code(flags) == 4),
            Some(DataView::Connection(_, _)) => type_code(flags) != 0 && connected_bit(flags),
            Some(DataView::Constant(text)) => type_code(flags) != 0 && !connected_bit(flags)
                && type_code(flags) != 4 && encode_utf8(text).len() < 0x1_0000_0000,
        }),
{
    if type_code(flags) == 0 {
        assert(input.subrange(at, at) =~= Seq::<u8>::empty());
    } else if connected_bit(flags) {
        lemma_has_at_subrange(input, at, at + 2);
        assert(input.subrange(at, at + 2) =~= seq![input[at], input[at + 1]]);
    } else if type_code(flags) != 4 {
        match run_at(input, at, 4, "socket constant value length") {
            Err(e) => {},
            Ok((len, next)) => {
                lemma2_to64();
                lemma_be_bytes_of_be_number(len);
                lemma_has_at_subrange(input, at, at + 4);
                lemma_text_was_written(
                    input,
                    next,
                    be_number(len) as int,
                    "socket constant value",
                );
                match text_at(input, next, be_number(len) as int, "socket constant value") {
                    Err(e) => {},
                    Ok((text, end)) => {
                        lemma_has_at_join(input, at, len, encode_utf8(text));
                    },
                }
            },
        }
    } else {
        assert(input.subrange(at, at) =~= Seq::<u8>::empty());
    }
}

/// A socket that is read can be written, and stands in the input as it is
/// written.
pub proof fn lemma_socket_was_written(input: Seq<u8>, at: int)
    requires
        0 <= at,
        socket_at(input, at).is_ok(),
    ensures
        socket_at(input, at) matches Ok((socket, end)) && encodable_socket(socket) && has_at(
            input,
            at,
            socket_bytes(socket),
        ) && end == at + socket_bytes(socket).len(),
{
    lemma_payload_was_written(input, at + 3, input[at]);
    match socket_at(input, at) {
        Err(e) => {},
        Ok((socket, end)) => {
            let head = seq![socket.flags, socket.type_index as u8, socket.port_slot];
            lemma_has_at_subrange(input, at, at + 3);
            assert(input.subrange(at, at + 3) =~= head);
            lemma_has_at_join(input, at, head, payload_bytes(socket.data));
        },
    }
}

/// An instance that is read can be written, and stands in the input as it
/// is written.
pub proof fn lemma_instance_was_written(input: Seq<u8>, at: int)
    requires
        0 <= at,
        instance_at(input, at).is_ok(),
    ensures
        instance_at(input, at) matches Ok((instance, end)) && encodable_instance(instance)
            && has_at(input, at, instance_bytes(instance)) && end == at + instance_bytes(
            instance,
        ).len(),
{
    let good = |socket: SocketView| encodable_socket(socket);
    assert forall|a: int| 0 <= a implies (#[trigger] socket_item()(input, a) matches Ok(
        (v, next),
    ) ==> good(v) && has_at(input, a, socket_encoder()(v)) && next == a + socket_encoder()(
        v,
    ).len()) by {
        if socket_at(input, a).is_ok() {
            lemma_socket_was_written(input, a);
        }
    }
    match run_at(input, at + 2, 4, "instance position, name, and sockets") {
        Err(e) => {},
        Ok((packed, _)) => {
            let name_len = bit_field(packed, 6, 6);
            let socket_count = bit_field(packed, 0, 6);
            lemma_packed_fields_of_four(packed);
            lemma_be_bytes_of_be_number(packed);
            lemma_text_was_written(input, at + 6, name_len as int, "instance name");
            match text_at(input, at + 6, name_len as int, "instance name") {
                Err(e) => {},
                Ok((name, next)) => {
                    lemma_row_was_written(
                        socket_item(),
                        socket_encoder(),
                        good,
                        input,
                        next,
                        socket_count,
                    );
                    match repeat_at(socket_item(), input, next, socket_count) {
                        Err(e) => {},
                        Ok((sockets, end)) => {
                            let head = seq![input[at], input[at + 1]];
                            lemma_has_at_subrange(input, at, at + 2);
                            assert(input.subrange(at, at + 2) =~= head);
                            lemma_has_at_subrange(input, at + 2, at + 6);
                            lemma_has_at_join(input, at, head, packed);
                            lemma_has_at_join(input, at, head + packed, encode_utf8(name));
                            lemma_has_at_join(
                                input,
                                at,
                                head + packed + encode_utf8(name),
                                row_of(socket_encoder(), sockets),
                            );
                        },
                    }
                },
            }
        },
    }
}

/// A table of instances that is read can be written, and stands in the
/// input as it is written.
pub proof fn lemma_instances_were_written(input: Seq<u8>, at: int)
    requires
        0 <= at,
        instances_at(input, at).is_ok(),
    ensures
        instances_at(input, at) matches Ok((instances, end)) && instances.len() <= 255 && (
        forall|i: int| 0 <= i < instances.len() ==> encodable_instance(#[trigger] instances[i]))
            && has_at(input, at, table_of(instance_encoder(), instances)) && end == at
            + table_of(instance_encoder(), instances).len(),
{
    let good = |instance: InstanceView| encodable_instance(instance);
    assert forall|a: int| 0 <= a implies (#[trigger] instance_item()(input, a) matches Ok(
        (v, next),
    ) ==> good(v) && has_at(input, a, instance_encoder()(v)) && next == a + instance_encoder()(
        v,
    ).len()) by {
        if instance_at(input, a).is_ok() {
            lemma_instance_was_written(input, a);
        }
    }
    lemma_table_was_written(
        instance_item(),
        instance_encoder(),
        good,
        input,
        at,
        "number of instances",
    );
}

/// The body of a file that is read can be written, and the input from the
/// offset of the read on is the body as it is written.
pub proof fn lemma_definition_was_written(input: Seq<u8>, at: int)
    requires
        0 <= at,
        definition_v1_at(input, at).is_ok(),
    ensures
        definition_v1_at(input, at) matches Ok((def, end)) && encodable_definition(def)
            && has_at(input, at, definition_bytes(def)) && at + definition_bytes(def).len()
            == input.len(),
{
    lemma_roots_were_written(input, at);
    match roots_at(input, at) {
        Err(e) => {},
        Ok((roots, after_roots)) => {
            lemma_names_were_written(input, after_roots);
            match names_at(input, after_roots) {
                Err(e) => {},
                Ok((nodes, after_nodes)) => {
                    lemma_names_were_written(input, after_nodes);
                    match names_at(input, after_nodes) {
                        Err(e) => {},
                        Ok((types, after_types)) => {
                            lemma_instances_were_written(input, after_types);
                            match instances_at(input, after_types) {
                                Err(e) => {},
                                Ok((instances, end)) => {
                                    let r = roots_bytes(roots);
                                    let n = table_of(name_encoder(), nodes);
                                    let t = table_of(name_encoder(), types);
                                    let i = table_of(instance_encoder(), instances);
                                    lemma_has_at_join(input, at, r, n);
                                    lemma_has_at_join(input, at, r + n, t);
                                    lemma_has_at_join(input, at, r + n + t, i);
                                },
                            }
                        },
                    }
                },
            }
        },
    }
}

/// A file that decodes is the file that holds the graph it decodes to: no
/// two files decode to the same graph, and every decoded graph keeps within
/// the limits of the format.
pub proof fn lemma_encode_inverts_decode(file: Seq<u8>)
    requires
        node_of(file).is_ok(),
    ensures
        node_of(file) matches Ok(node) && encodable(node) && file_of(node) == file,
{
    lemma_definition_was_written(file, 12);
    match node_of(file) {
        Err(e) => {},
        Ok(NodeView::V1(def)) => {
            let head = magic_number() + seq![1u8];
            assert(file.subrange(0, 12) =~= head);
            lemma_has_at_subrange(file, 0, 12);
            lemma_has_at_join(file, 0, head, definition_bytes(def));
        },
    }
}

/// No two files decode to the same graph.
pub proof fn lemma_decoding_is_injective(first: Seq<u8>, second: Seq<u8>)
    requires
        node_of(first).is_ok(),
        node_of(first) == node_of(second),
    ensures
        first == second,
{
    lemma_encode_inverts_decode(first);
    lemma_encode_inverts_decode(second);
}

} // verus!
