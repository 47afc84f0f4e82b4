//! The bytes that a graph is written as.
//!
//! The library only decodes. The encoding stated here is the yardstick that
//! the decoder is held to: it says, for each part of a graph, which bytes
//! stand for it in a file, and which graphs can be written at all.

use crate::kronarknode::{magic_number, NodeDefinitionV1View, NodeView};
use crate::kronarknode::instance::InstanceView;
use crate::kronarknode::roots::RootsView;
use crate::kronarknode::socket::{connected_bit, legal_flags, type_code, DataView, SocketView};
use crate::packing::{be_bytes, pack_instance, pack_roots};
use vstd::prelude::*;
use vstd::utf8::encode_utf8;

verus! {

/// How a value of one kind is written as bytes.
pub type Encoder<T> = spec_fn(T) -> Seq<u8>;

/// The bytes `part` stand in `input` from offset `at` on.
pub open spec fn has_at(input: Seq<u8>, at: int, part: Seq<u8>) -> bool {
    0 <= at && at + part.len() <= input.len() && input.subrange(at, at + part.len()) == part
}

/// Where `front + back` stands at an offset, `front` stands there and `back`
/// stands just behind it.
pub proof fn lemma_has_at_split(input: Seq<u8>, at: int, front: Seq<u8>, back: Seq<u8>)
    requires
        has_at(input, at, front + back),
    ensures
        has_at(input, at, front),
        has_at(input, at + front.len(), back),
{
    let whole = front + back;
    let found = input.subrange(at, at + whole.len());
    assert(input.subrange(at, at + front.len()) =~= found.subrange(0, front.len() as int));
    assert(whole.subrange(0, front.len() as int) =~= front);
    assert(input.subrange(at + front.len(), at + front.len() + back.len()) =~= found.subrange(
        front.len() as int,
        whole.len() as int,
    ));
    assert(whole.subrange(front.len() as int, whole.len() as int) =~= back);
}

/// Where `front` stands at an offset and `back` stands just behind it,
/// `front + back` stands at that offset.
pub proof fn lemma_has_at_join(input: Seq<u8>, at: int, front: Seq<u8>, back: Seq<u8>)
    requires
        has_at(input, at, front),
        has_at(input, at + front.len(), back),
    ensures
        has_at(input, at, front + back),
{
    let whole = front + back;
    let found = input.subrange(at, at + whole.len());
    assert forall|i: int| 0 <= i < whole.len() implies found[i] == whole[i] by {
        if i < front.len() {
            lemma_has_at_index(input, at, front, i);
        } else {
            lemma_has_at_index(input, at + front.len(), back, i - front.len());
        }
    }
    assert(found =~= whole);
}

/// Where `part` stands at offset `at`, its byte `i` is the input's byte
/// `at + i`.
pub proof fn lemma_has_at_index(input: Seq<u8>, at: int, part: Seq<u8>, i: int)
    requires
        has_at(input, at, part),
        0 <= i < part.len(),
    ensures
        input[at + i] == part[i],
{
}

/// The bytes from `at` up to `next` stand in the input at `at`.
pub proof fn lemma_has_at_subrange(input: Seq<u8>, at: int, next: int)
    requires
        0 <= at <= next <= input.len(),
    ensures
        has_at(input, at, input.subrange(at, next)),
{
}

/// The items of `items` written one behind the other.
pub open spec fn row_of<T>(enc: Encoder<T>, items: Seq<T>) -> Seq<u8>
    decreases items.len(),
{
    if items.len() == 0 {
        Seq::empty()
    } else {
        enc(items[0]) + row_of(enc, items.drop_first())
    }
}

/// A table: the number of items in one byte, then the items in a row.
pub open spec fn table_of<T>(enc: Encoder<T>, items: Seq<T>) -> Seq<u8> {
    seq![items.len() as u8] + row_of(enc, items)
}

/// A name: the length of its UTF-8 form in one byte, then that form.
pub open spec fn name_bytes(name: Seq<char>) -> Seq<u8> {
    seq![encode_utf8(name).len() as u8] + encode_utf8(name)
}

/// A name, as an item of a row that is written.
pub open spec fn name_encoder() -> Encoder<Seq<char>> {
    |name: Seq<char>| name_bytes(name)
}

/// A table of names can be written when it has at most 255 names, none
/// longer than 255 bytes in UTF-8.
pub open spec fn encodable_names(names: Seq<Seq<char>>) -> bool {
    &&& names.len() <= 255
    &&& forall|i: int| 0 <= i < names.len() ==> (#[trigger] encode_utf8(names[i])).len() <= 255
}

/// A connection: the key of the instance, then the slot of the socket.
pub open spec fn connection_bytes(connection: (u8, u8)) -> Seq<u8> {
    seq![connection.0, connection.1]
}

/// A connection, as an item of a row that is written.
pub open spec fn connection_encoder() -> Encoder<(u8, u8)> {
    |connection: (u8, u8)| connection_bytes(connection)
}

/// The roots: the four coordinates packed in five bytes, then the table of
/// the output root's connections.
pub open spec fn roots_bytes(roots: RootsView) -> Seq<u8> {
    be_bytes(
        pack_roots(
            roots.input_root_x,
            roots.input_root_y,
            roots.output_root_x,
            roots.output_root_y,
        ),
        5,
    ) + table_of(connection_encoder(), roots.output_connections)
}

/// Roots can be written when every coordinate fits in ten bits and there
/// are at most 255 connections.
pub open spec fn encodable_roots(roots: RootsView) -> bool {
    &&& roots.input_root_x < 1024
    &&& roots.input_root_y < 1024
    &&& roots.output_root_x < 1024
    &&& roots.output_root_y < 1024
    &&& roots.output_connections.len() <= 255
}

/// What feeds a socket: nothing, the two bytes of a connection, or the
/// length of a value in four bytes and the value in UTF-8.
pub open spec fn payload_bytes(data: Option<DataView>) -> Seq<u8> {
    match data {
        None => Seq::empty(),
        Some(DataView::Connection(node, socket)) => seq![node, socket],
        Some(DataView::Constant(text)) => be_bytes(encode_utf8(text).len(), 4) + encode_utf8(text),
    }
}

/// A socket: the flags byte, the type index, the port slot, and what feeds
/// the socket.
pub open spec fn socket_bytes(socket: SocketView) -> Seq<u8> {
    seq![socket.flags, socket.type_index as u8, socket.port_slot] + payload_bytes(socket.data)
}

/// A socket, as an item of a row that is written.
pub open spec fn socket_encoder() -> Encoder<SocketView> {
    |socket: SocketView| socket_bytes(socket)
}

/// A socket can be written when its flags are legal, its type index fits in
/// a byte, and what feeds it is what its flags call for: a connection where
/// an incoming socket is connected, a value whose UTF-8 form is shorter than
/// 2^32 bytes where an incoming socket other than a switch is not
/// connected, and nothing otherwise.
pub open spec fn encodable_socket(socket: SocketView) -> bool {
    &&& legal_flags(socket.flags)
    &&& socket.type_index <= 255
    &&& match socket.data {
        None => type_code(socket.flags) == 0 || (!connected_bit(socket.flags) && type_code(
            socket.flags,
        ) == 4),
        Some(DataView::Connection(_, _)) => type_code(socket.flags) != 0 && connected_bit(
            socket.flags,
        ),
        Some(DataView::Constant(text)) => type_code(socket.flags) != 0 && !connected_bit(
            socket.flags,
        ) && type_code(socket.flags) != 4 && encode_utf8(text).len() < 0x1_0000_0000,
    }
}

/// An instance: the key, the node type, the position, the length of the
/// name and the number of sockets packed in four bytes, the name in UTF-8,
/// and the sockets in a row.
pub open spec fn instance_bytes(instance: InstanceView) -> Seq<u8> {
    seq![instance.key as u8, instance.node_type as u8] + be_bytes(
        pack_instance(
            instance.position_x,
            instance.position_y,
            encode_utf8(instance.name).len(),
            instance.sockets.len(),
        ),
        4,
    ) + encode_utf8(instance.name) + row_of(socket_encoder(), instance.sockets)
}

/// An instance, as an item of a row that is written.
pub open spec fn instance_encoder() -> Encoder<InstanceView> {
    |instance: InstanceView| instance_bytes(instance)
}

/// An instance can be written when its key and node type fit in a byte, its
/// coordinates in ten bits, the length of its name in UTF-8 and the number
/// of its sockets in six bits, and every socket can be written.
pub open spec fn encodable_instance(instance: InstanceView) -> bool {
    &&& instance.key <= 255
    &&& instance.node_type <= 255
    &&& instance.position_x < 1024
    &&& instance.position_y < 1024
    &&& encode_utf8(instance.name).len() < 64
    &&& instance.sockets.len() < 64
    &&& forall|i: int|
        0 <= i < instance.sockets.len() ==> encodable_socket(#[trigger] instance.sockets[i])
}

/// The body of a file of version 1: the roots and the three tables.
pub open spec fn definition_bytes(def: NodeDefinitionV1View) -> Seq<u8> {
    roots_bytes(def.roots) + table_of(name_encoder(), def.nodes) + table_of(
        name_encoder(),
        def.types,
    ) + table_of(instance_encoder(), def.instances)
}

/// A graph can be written when its roots and its tables can, no table being
/// longer than 255 items.
pub open spec fn encodable_definition(def: NodeDefinitionV1View) -> bool {
    &&& encodable_roots(def.roots)
    &&& encodable_names(def.nodes)
    &&& encodable_names(def.types)
    &&& def.instances.len() <= 255
    &&& forall|i: int|
        0 <= i < def.instances.len() ==> encodable_instance(#[trigger] def.instances[i])
}

/// The file that holds the graph `node`: the magic number, the version,
/// and the body.
pub open spec fn file_of(node: NodeView) -> Seq<u8> {
    match node {
        NodeView::V1(def) => magic_number() + seq![1u8] + definition_bytes(def),
    }
}

/// Whether the graph `node` can be written as a file.
pub open spec fn encodable(node: NodeView) -> bool {
    match node {
        NodeView::V1(def) => encodable_definition(def),
    }
}

} // verus!
