//! The two fixed endpoints of the graph.

use crate::encoding::encodable_roots;
use crate::errors::NodeParseError;
use crate::inverse::lemma_roots_were_written;
use crate::lexer::Lexer;
use crate::packing::{bit_field, lemma_fields_of_five};
use crate::wire::{
    lemma_repeat_done, lemma_repeat_next, pair_at, prepend, read_byte, read_pair, repeat_at,
    resting, run_at, table_at, value_of, viewed, Item, Outcome,
};
use vstd::prelude::*;

verus! {

/// Where the input root and the output root stand, and what the output root
/// is connected to.
#[derive(Debug, PartialEq, Eq)]
pub struct Roots {
    pub input_root_x: u16,
    pub input_root_y: u16,
    pub output_root_x: u16,
    pub output_root_y: u16,
    /// Pairs of the key of an instance and the slot of one of its sockets.
    pub output_connections: Vec<(u8, u8)>,
}

/// [`Roots`] as plain values.
pub ghost struct RootsView {
    pub input_root_x: u16,
    pub input_root_y: u16,
    pub output_root_x: u16,
    pub output_root_y: u16,
    pub output_connections: Seq<(u8, u8)>,
}

impl View for Roots {
    type V = RootsView;

    open spec fn view(&self) -> RootsView {
        RootsView {
            input_root_x: self.input_root_x,
            input_root_y: self.input_root_y,
            output_root_x: self.output_root_x,
            output_root_y: self.output_root_y,
            output_connections: self.output_connections@,
        }
    }
}

/// A connection of the output root, as an item of their table.
pub open spec fn connection_item() -> Item<(u8, u8)> {
    |input: Seq<u8>, at: int| pair_at(input, at, "output connections")
}

/// The roots that start at offset `at`: five bytes that pack four fields of
/// ten bits each (x and y of the input root, then x and y of the output
/// root), then the table of the output root's connections.
pub open spec fn roots_at(input: Seq<u8>, at: int) -> Outcome<RootsView> {
    match run_at(input, at, 5, "root positions") {
        Err(e) => Err(e),
        Ok((packed, next)) => match table_at(connection_item(), input, next, "connection count") {
            Err(e) => Err(e),
            Ok((output_connections, end)) => Ok(
                (
                    RootsView {
                        input_root_x: bit_field(packed, 30, 10) as u16,
                        input_root_y: bit_field(packed, 20, 10) as u16,
                        output_root_x: bit_field(packed, 10, 10) as u16,
                        output_root_y: bit_field(packed, 0, 10) as u16,
                        output_connections,
                    },
                    end,
                ),
            ),
        },
    }
}

impl Roots {
    /// Decodes the roots at the cursor.
    #[verifier::loop_isolation(false)]
    pub fn parse_table(lexer: &mut Lexer) -> (r: Result<Roots, NodeParseError>)
        ensures
            final(lexer).input() == old(lexer).input(),
            viewed(r) == value_of(roots_at(old(lexer).input(), old(lexer).position())),
            final(lexer).position() == resting(roots_at(old(lexer).input(), old(lexer).position())),
            r matches Ok(roots) ==> encodable_roots(roots@),
    {
        proof {
            lexer.lemma_position_is_natural();
            if roots_at(lexer.input(), lexer.position()).is_ok() {
                lemma_roots_were_written(lexer.input(), lexer.position());
            }
        }
        let ghost input = lexer.input();
        let packed_bits = lexer.take(5);
        if packed_bits.len() < 5 {
            return Err(NodeParseError::EOF("root positions", lexer.bytes_read()));
        }
        proof {
            lemma_fields_of_five(packed_bits@);
        }
        let b0: u16 = packed_bits[0] as u16;
        let b1: u16 = packed_bits[1] as u16;
        let b2: u16 = packed_bits[2] as u16;
        let b3: u16 = packed_bits[3] as u16;
        let b4: u16 = packed_bits[4] as u16;

        // Separate the bytes out into sets of 10 bits
        let input_root_x: u16 = (b0 << 2) | (b1 >> 6);
        let input_root_y: u16 = ((b1 & 0b00111111) << 4) | (b2 >> 4);
        let output_root_x: u16 = ((b2 & 0b00001111) << 6) | (b3 >> 2);
        let output_root_y: u16 = ((b3 & 0b00000011) << 8) | b4;

        let num_output_connections: u8 = read_byte(lexer, "connection count")?;
        let ghost whole = repeat_at(
            connection_item(),
            input,
            lexer.position(),
            num_output_connections as nat,
        );
        let mut output_connections: Vec<(u8, u8)> = vec![];
        let mut done: u8 = 0;
        while done < num_output_connections
            invariant
                done <= num_output_connections,
                lexer.input() == input,
                whole == prepend(
                    output_connections@,
                    repeat_at(
                        connection_item(),
                        input,
                        lexer.position(),
                        (num_output_connections - done) as nat,
                    ),
                ),
            decreases num_output_connections - done,
        {
            proof {
                lemma_repeat_next(
                    connection_item(),
                    input,
                    output_connections@,
                    lexer.position(),
                    (num_output_connections - done) as nat,
                );
            }
            let (node, socket) = read_pair(lexer, "output connections")?;
            output_connections.push((node, socket));
            done = done + 1;
        }
        proof {
            lemma_repeat_done(connection_item(), input, output_connections@, lexer.position());
        }
        Ok(Roots { input_root_x, input_root_y, output_root_x, output_root_y, output_connections })
    }
}

} // verus!
