//! One placed node of the graph, and the table of all of them.

use super::socket::{socket_at, Socket, SocketView};
use crate::encoding::encodable_instance;
use crate::errors::NodeParseError;
use crate::inverse::{lemma_instance_was_written, lemma_instances_were_written};
use crate::lexer::Lexer;
use crate::packing::{bit_field, lemma_fields_of_four};
use crate::wire::{
    byte_at, lemma_repeat_done, lemma_repeat_next, prepend, read_byte, read_text, repeat_at,
    resting, run_at, table_at, text_at, value_of, viewed, viewed_all, views, Item, Outcome,
};
use vstd::prelude::*;
use vstd::utf8::valid_utf8;

verus! {

/// One placed node.
#[derive(Debug, PartialEq, Eq)]
pub struct Instance {
    /// The id by which connections name this instance.
    pub key: usize,
    /// Index into the table of node names; not checked against its length.
    pub node_type: usize,
    pub position_x: u16,
    pub position_y: u16,
    pub name: String,
    pub sockets: Vec<Socket>,
}

/// An [`Instance`] as plain values.
pub ghost struct InstanceView {
    pub key: usize,
    pub node_type: usize,
    pub position_x: u16,
    pub position_y: u16,
    pub name: Seq<char>,
    pub sockets: Seq<SocketView>,
}

impl View for Instance {
    type V = InstanceView;

    open spec fn view(&self) -> InstanceView {
        InstanceView {
            key: self.key,
            node_type: self.node_type,
            position_x: self.position_x,
            position_y: self.position_y,
            name: self.name@,
            sockets: views(self.sockets@),
        }
    }
}

/// A socket, as an item of a row of sockets.
pub open spec fn socket_item() -> Item<SocketView> {
    |input: Seq<u8>, at: int| socket_at(input, at)
}

/// An instance, as an item of the table of instances.
pub open spec fn instance_item() -> Item<InstanceView> {
    |input: Seq<u8>, at: int| instance_at(input, at)
}

/// The instance that starts at offset `at`: the key, the node type, four
/// bytes that pack the position (ten bits each for x and y), the length of
/// the name and the number of sockets (six bits each), then the name in
/// UTF-8 and the sockets in a row.
pub open spec fn instance_at(input: Seq<u8>, at: int) -> Outcome<InstanceView> {
    match byte_at(input, at, "missing instance key") {
        Err(e) => Err(e),
        Ok((key, _)) => match byte_at(input, at + 1, "instance type") {
            Err(e) => Err(e),
            Ok((node_type, _)) => match run_at(
                input,
                at + 2,
                4,
                "instance position, name, and sockets",
            ) {
                Err(e) => Err(e),
                Ok((packed, _)) => match text_at(
                    input,
                    at + 6,
                    bit_field(packed, 6, 6) as int,
                    "instance name",
                ) {
                    Err(e) => Err(e),
                    Ok((name, next)) => match repeat_at(
                        socket_item(),
                        input,
                        next,
                        bit_field(packed, 0, 6),
                    ) {
                        Err(e) => Err(e),
                        Ok((sockets, end)) => Ok(
                            (
                                InstanceView {
                                    key: key as usize,
                                    node_type: node_type as usize,
                                    position_x: bit_field(packed, 22, 10) as u16,
                                    position_y: bit_field(packed, 12, 10) as u16,
                                    name,
                                    sockets,
                                },
                                end,
                            ),
                        ),
                    },
                },
            },
        },
    }
}

/// An instance whose name is all there but is not valid UTF-8 is rejected
/// at the offset just behind the length that the packed fields declare for
/// the name.
pub proof fn lemma_invalid_instance_name_is_rejected(input: Seq<u8>, at: int)
    requires
        0 <= at,
        at + 6 <= input.len(),
        at + 6 + bit_field(input.subrange(at + 2, at + 6), 6, 6) <= input.len(),
        !valid_utf8(
            input.subrange(at + 6, at + 6 + bit_field(input.subrange(at + 2, at + 6), 6, 6)),
        ),
    ensures
        instance_at(input, at) == Err::<(InstanceView, int), NodeParseError>(
            NodeParseError::UTF8EncodingError(
                (at + 6 + bit_field(input.subrange(at + 2, at + 6), 6, 6)) as u64,
            ),
        ),
{
}

/// The table of instances that starts at offset `at`.
pub open spec fn instances_at(input: Seq<u8>, at: int) -> Outcome<Seq<InstanceView>> {
    table_at(instance_item(), input, at, "number of instances")
}

impl Instance {
    /// Decodes the table of instances at the cursor.
    #[verifier::loop_isolation(false)]
    pub fn parse_table(lexer: &mut Lexer) -> (r: Result<Vec<Self>, NodeParseError>)
        ensures
            final(lexer).input() == old(lexer).input(),
            viewed_all(r) == value_of(instances_at(old(lexer).input(), old(lexer).position())),
            final(lexer).position() == resting(
                instances_at(old(lexer).input(), old(lexer).position()),
            ),
            r matches Ok(instances) ==> instances.len() <= 255 && forall|i: int|
                0 <= i < instances.len() ==> encodable_instance(#[trigger] instances[i]@),
    {
        proof {
            lexer.lemma_position_is_natural();
            if instances_at(lexer.input(), lexer.position()).is_ok() {
                lemma_instances_were_written(lexer.input(), lexer.position());
            }
        }
        let ghost input = lexer.input();
        let mut instances: Vec<Instance> = vec![];

        let num_instances: u8 = read_byte(lexer, "number of instances")?;
        let ghost first = lexer.position();
        let ghost whole = repeat_at(instance_item(), input, first, num_instances as nat);

        let mut done: u8 = 0;
        while done < num_instances
            invariant
                done <= num_instances,
                lexer.input() == input,
                whole == prepend(
                    views(instances@),
                    repeat_at(instance_item(), input, lexer.position(), (num_instances - done) as nat),
                ),
            decreases num_instances - done,
        {
            proof {
                lemma_repeat_next(
                    instance_item(),
                    input,
                    views(instances@),
                    lexer.position(),
                    (num_instances - done) as nat,
                );
            }
            let ghost before = instances@;
            let instance = Instance::from_bytes(lexer)?;
            instances.push(instance);
            assert(views(instances@) =~= views(before).push(instance@));
            done = done + 1;
        }
        proof {
            lemma_repeat_done(instance_item(), input, views(instances@), lexer.position());
            assert forall|i: int| 0 <= i < instances.len() implies encodable_instance(
                #[trigger] instances[i]@,
            ) by {
                assert(views(instances@)[i] == instances[i]@);
            }
        }
        Ok(instances)
    }

    /// Decodes the instance at the cursor.
    #[verifier::loop_isolation(false)]
    pub fn from_bytes(lexer: &mut Lexer) -> (r: Result<Self, NodeParseError>)
        ensures
            final(lexer).input() == old(lexer).input(),
            viewed(r) == value_of(instance_at(old(lexer).input(), old(lexer).position())),
            final(lexer).position() == resting(
                instance_at(old(lexer).input(), old(lexer).position()),
            ),
            r matches Ok(instance) ==> encodable_instance(instance@),
    {
        proof {
            lexer.lemma_position_is_natural();
            if instance_at(lexer.input(), lexer.position()).is_ok() {
                lemma_instance_was_written(lexer.input(), lexer.position());
            }
        }
        let ghost input = lexer.input();
        let key: usize = read_byte(lexer, "missing instance key")? as usize;
        let node_type: usize = read_byte(lexer, "instance type")? as usize;

        let packed_bits = lexer.take(4);
        if packed_bits.len() < 4 {
            return Err(
                NodeParseError::EOF("instance position, name, and sockets", lexer.bytes_read()),
            );
        }
        proof {
            lemma_fields_of_four(packed_bits@);
        }
        let b0: u16 = packed_bits[0] as u16;
        let b1: u16 = packed_bits[1] as u16;
        let b2: u16 = packed_bits[2] as u16;
        let b3: u16 = packed_bits[3] as u16;

        let position_x: u16 = (b0 << 2) | (b1 >> 6);
        let position_y: u16 = ((b1 & 0b00111111) << 4) | (b2 >> 4);

        let name_len: usize = (((b2 & 0b00001111) << 2) | (b3 >> 6)) as usize;
        let socket_count: usize = (b3 & 0b00111111) as usize;

        let name = read_text(lexer, name_len, "instance name")?;

        let ghost first = lexer.position();
        let ghost whole = repeat_at(socket_item(), input, first, socket_count as nat);
        let mut sockets: Vec<Socket> = Vec::with_capacity(socket_count);
        let mut done: usize = 0;
        while done < socket_count
            invariant
                done <= socket_count,
                lexer.input() == input,
                whole == prepend(
                    views(sockets@),
                    repeat_at(socket_item(), input, lexer.position(), (socket_count - done) as nat),
                ),
            decreases socket_count - done,
        {
            proof {
                lemma_repeat_next(
                    socket_item(),
                    input,
                    views(sockets@),
                    lexer.position(),
                    (socket_count - done) as nat,
                );
            }
            let ghost before = sockets@;
            let socket = Socket::from_bytes(lexer)?;
            sockets.push(socket);
            assert(views(sockets@) =~= views(before).push(socket@));
            done = done + 1;
        }
        proof {
            lemma_repeat_done(socket_item(), input, views(sockets@), lexer.position());
        }
        Ok(Instance { key, node_type, position_x, position_y, name, sockets })
    }
}

} // verus!
