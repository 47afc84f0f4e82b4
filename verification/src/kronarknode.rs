//! The decoded node graph and its parts.

pub mod instance;
pub mod names;
pub mod nodes;
pub mod roots;
pub mod socket;
pub mod types;

use crate::encoding::{encodable, encodable_definition, file_of};
use crate::errors::NodeParseError;
use crate::inverse::{lemma_definition_was_written, lemma_encode_inverts_decode};
use crate::lexer::Lexer;
use crate::wire::{byte_at, names_at, resting, value_of, viewed, views, Outcome};
use instance::{instances_at, Instance, InstanceView};
use nodes::NodeEntry;
use roots::{roots_at, Roots, RootsView};
use types::TypeEntry;
use vstd::prelude::*;
use vstd::string::StrSliceExecFns;
use vstd::string::StringSliceAdditionalSpecFns;

verus! {

/// A decoded file, tagged by the version of the format it was written in.
#[derive(Debug, PartialEq, Eq)]
pub enum Node {
    V1(NodeDefinitionV1),
}

/// A [`Node`] as plain values.
pub ghost enum NodeView {
    V1(NodeDefinitionV1View),
}

impl View for Node {
    type V = NodeView;

    open spec fn view(&self) -> NodeView {
        match *self {
            Node::V1(def) => NodeView::V1(def@),
        }
    }
}

/// The eleven bytes that every file starts with: `kronarknode` in ASCII.
pub open spec fn magic_number() -> Seq<u8> {
    seq![0x6bu8, 0x72u8, 0x6fu8, 0x6eu8, 0x61u8, 0x72u8, 0x6bu8, 0x6eu8, 0x6fu8, 0x64u8, 0x65u8]
}

/// What decoding the file `input` comes to. The file must start with the
/// magic number; an input too short to hold it fails at its end, as a file
/// that is no node file. The version byte follows, and version 1 is the
/// only one there is. The body of version 1 follows that, up to the end of
/// the input.
pub open spec fn node_of(input: Seq<u8>) -> Result<NodeView, NodeParseError> {
    if input.len() < 11 {
        Err(NodeParseError::InvalidFile(input.len() as u64))
    } else if input.subrange(0, 11) != magic_number() {
        Err(NodeParseError::InvalidFile(11))
    } else {
        match byte_at(input, 11, "version number") {
            Err(e) => Err(e),
            Ok((version, next)) => if version == 1 {
                match definition_v1_at(input, next) {
                    Err(e) => Err(e),
                    Ok((def, _)) => Ok(NodeView::V1(def)),
                }
            } else {
                Err(NodeParseError::InvalidVersion(next as u64))
            },
        }
    }
}

/// The ASCII bytes of `kronarknode` are the magic number.
proof fn lemma_magic_number_is_ascii()
    ensures
        "kronarknode".spec_bytes() == magic_number(),
{
    reveal_strlit("kronarknode");
    vstd::string::is_ascii_spec_bytes("kronarknode");
}

/// Decoding is a function of the input: two decodings of the same bytes
/// give the same graph, or the same error.
pub proof fn lemma_decoding_is_deterministic(
    input: Seq<u8>,
    first: Result<Node, NodeParseError>,
    second: Result<Node, NodeParseError>,
)
    requires
        viewed(first) == node_of(input),
        viewed(second) == node_of(input),
    ensures
        viewed(first) == viewed(second),
        first matches Err(e) ==> second == Err::<Node, NodeParseError>(e),
{
}

impl Node {
    /// Decodes a whole file.
    pub fn from_bytes(byte_iterable: Vec<u8>) -> (r: Result<Self, NodeParseError>)
        ensures
            viewed(r) == node_of(byte_iterable@),
            r matches Ok(node) ==> encodable(node@) && file_of(node@) == byte_iterable@,
    {
        proof {
            if node_of(byte_iterable@).is_ok() {
                lemma_encode_inverts_decode(byte_iterable@);
            }
        }
        let mut lexer = Lexer::new(byte_iterable);
        // Check header
        let magic_number: Vec<u8> = "kronarknode".as_bytes_vec();
        let data_magic_number: Vec<u8> = lexer.take(magic_number.len());
        proof {
            lemma_magic_number_is_ascii();
        }
        if !(magic_number == data_magic_number) {
            return Err(NodeParseError::InvalidFile(lexer.bytes_read()));
        }
        assert(magic_number@ =~= data_magic_number@);

        let version_number: u8 = match lexer.next() {
            Some(v) => v,
            None => return Err(NodeParseError::EOF("version number", lexer.bytes_read())),
        };
        match version_number {
            1 => match NodeDefinitionV1::from_bytes(&mut lexer) {
                Ok(def) => Ok(Node::V1(def)),
                Err(e) => Err(e),
            },
            _ => Err(NodeParseError::InvalidVersion(lexer.bytes_read())),
        }
    }
}

/// The graph that a file of version 1 describes.
#[derive(Debug, PartialEq, Eq)]
pub struct NodeDefinitionV1 {
    pub roots: Roots,
    pub nodes: Vec<NodeEntry>,
    pub types: Vec<TypeEntry>,
    pub instances: Vec<Instance>,
}

/// A [`NodeDefinitionV1`] as plain values.
pub ghost struct NodeDefinitionV1View {
    pub roots: RootsView,
    pub nodes: Seq<Seq<char>>,
    pub types: Seq<Seq<char>>,
    pub instances: Seq<InstanceView>,
}

impl View for NodeDefinitionV1 {
    type V = NodeDefinitionV1View;

    open spec fn view(&self) -> NodeDefinitionV1View {
        NodeDefinitionV1View {
            roots: self.roots@,
            nodes: views(self.nodes@),
            types: views(self.types@),
            instances: views(self.instances@),
        }
    }
}

/// The body of a file of version 1, from offset `at` to the end of the
/// input: the roots, the table of node names, the table of type names and
/// the table of instances, in that order. Bytes left over behind them make
/// the read fail at the offset at which the tables end, which is where the
/// left-over bytes begin.
pub open spec fn definition_v1_at(input: Seq<u8>, at: int) -> Outcome<NodeDefinitionV1View> {
    match roots_at(input, at) {
        Err(e) => Err(e),
        Ok((roots, after_roots)) => match names_at(input, after_roots) {
            Err(e) => Err(e),
            Ok((nodes, after_nodes)) => match names_at(input, after_nodes) {
                Err(e) => Err(e),
                Ok((types, after_types)) => match instances_at(input, after_types) {
                    Err(e) => Err(e),
                    Ok((instances, end)) => if end < input.len() {
                        Err(NodeParseError::FileTooLong(end as u64))
                    } else {
                        Ok((NodeDefinitionV1View { roots, nodes, types, instances }, end))
                    },
                },
            },
        },
    }
}

impl NodeDefinitionV1 {
    /// Decodes the body of a file of version 1 at the cursor, which must
    /// reach to the end of the input.
    pub fn from_bytes(lexer: &mut Lexer) -> (r: Result<Self, NodeParseError>)
        ensures
            final(lexer).input() == old(lexer).input(),
            viewed(r) == value_of(definition_v1_at(old(lexer).input(), old(lexer).position())),
            final(lexer).position() == resting(
                definition_v1_at(old(lexer).input(), old(lexer).position()),
            ),
            r matches Ok(def) ==> encodable_definition(def@),
    {
        proof {
            lexer.lemma_position_is_natural();
            if definition_v1_at(lexer.input(), lexer.position()).is_ok() {
                lemma_definition_was_written(lexer.input(), lexer.position());
            }
        }
        // Pass the cursor around to parse components
        let roots = Roots::parse_table(lexer)?;
        let nodes = NodeEntry::parse_table(lexer)?;
        let types = TypeEntry::parse_table(lexer)?;
        let instances = Instance::parse_table(lexer)?;
        let def = NodeDefinitionV1 { roots, nodes, types, instances };

        // If anything remains, assume parsing went wrong and error
        if lexer.remaining() > 0 {
            return Err(NodeParseError::FileTooLong(lexer.bytes_read()));
        }
        Ok(def)
    }
}

} // verus!
