//! The table of node names.

use super::names::{parse_name_table, NameEntry};
use crate::encoding::encodable_names;
use crate::errors::NodeParseError;
use crate::inverse::lemma_name_was_written;
use crate::lexer::Lexer;
use crate::wire::{name_at, names_at, read_name, resting, value_of, viewed, viewed_all, views};
use vstd::prelude::*;
use vstd::utf8::encode_utf8;

verus! {

/// The name of a kind of node. Instances refer to it by its place in the
/// table.
#[derive(Debug, PartialEq, Eq)]
pub struct NodeEntry(String);

impl View for NodeEntry {
    type V = Seq<char>;

    closed spec fn view(&self) -> Seq<char> {
        self.0@
    }
}

impl NameEntry for NodeEntry {
    fn from_name(name: String) -> (entry: Self) {
        NodeEntry(name)
    }
}

impl NodeEntry {
    /// The name.
    pub fn as_str(&self) -> (name: &str)
        ensures
            name@ == self@,
    {
        self.0.as_str()
    }

    /// Decodes the table of node names at the cursor.
    pub fn parse_table(lexer: &mut Lexer) -> (r: Result<Vec<Self>, NodeParseError>)
        ensures
            final(lexer).input() == old(lexer).input(),
            viewed_all(r) == value_of(names_at(old(lexer).input(), old(lexer).position())),
            final(lexer).position() == resting(names_at(old(lexer).input(), old(lexer).position())),
            r matches Ok(names) ==> encodable_names(views(names@)),
    {
        parse_name_table(lexer)
    }

    /// Decodes the node name at the cursor.
    pub fn from_bytes(lexer: &mut Lexer) -> (r: Result<NodeEntry, NodeParseError>)
        ensures
            final(lexer).input() == old(lexer).input(),
            viewed(r) == value_of(name_at(old(lexer).input(), old(lexer).position())),
            final(lexer).position() == resting(name_at(old(lexer).input(), old(lexer).position())),
            r matches Ok(entry) ==> encode_utf8(entry@).len() <= 255,
    {
        proof {
            lexer.lemma_position_is_natural();
            if name_at(lexer.input(), lexer.position()).is_ok() {
                lemma_name_was_written(lexer.input(), lexer.position());
            }
        }
        match read_name(lexer) {
            Ok(v) => Ok(NodeEntry::from_name(v)),
            Err(e) => Err(e),
        }
    }
}

} // verus!
