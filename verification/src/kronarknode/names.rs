//! The table of names, as the table of node names and the table of type
//! names both are.

use crate::encoding::encodable_names;
use crate::errors::NodeParseError;
use crate::inverse::lemma_names_were_written;
use crate::lexer::Lexer;
use crate::wire::{
    lemma_repeat_done, lemma_repeat_next, name_item, names_at, prepend, read_byte, read_name,
    repeat_at, resting, value_of, viewed_all, views,
};
use vstd::prelude::*;

verus! {

/// A row of a table of names: a value that holds a name and nothing else.
pub trait NameEntry: View<V = Seq<char>> + Sized {
    /// The row that holds `name`.
    fn from_name(name: String) -> (entry: Self)
        ensures
            entry@ == name@,
    ;
}

/// Decodes the table of names at the cursor, each row as an `E`.
#[verifier::loop_isolation(false)]
pub fn parse_name_table<E: NameEntry>(lexer: &mut Lexer) -> (r: Result<Vec<E>, NodeParseError>)
    ensures
        final(lexer).input() == old(lexer).input(),
        viewed_all(r) == value_of(names_at(old(lexer).input(), old(lexer).position())),
        final(lexer).position() == resting(names_at(old(lexer).input(), old(lexer).position())),
        r matches Ok(names) ==> encodable_names(views(names@)),
{
    proof {
        lexer.lemma_position_is_natural();
        if names_at(lexer.input(), lexer.position()).is_ok() {
            lemma_names_were_written(lexer.input(), lexer.position());
        }
    }
    let ghost input = lexer.input();
    let mut names: Vec<E> = vec![];

    let count: u8 = read_byte(lexer, "table count")?;
    let ghost whole = repeat_at(name_item(), input, lexer.position(), count as nat);
    let mut done: u8 = 0;
    while done < count
        invariant
            done <= count,
            lexer.input() == input,
            whole == prepend(
                views(names@),
                repeat_at(name_item(), input, lexer.position(), (count - done) as nat),
            ),
        decreases count - done,
    {
        proof {
            lemma_repeat_next(
                name_item(),
                input,
                views(names@),
                lexer.position(),
                (count - done) as nat,
            );
        }
        let ghost before = names@;
        let entry = E::from_name(read_name(lexer)?);
        names.push(entry);
        assert(views(names@) =~= views(before).push(entry@));
        done = done + 1;
    }
    proof {
        lemma_repeat_done(name_item(), input, views(names@), lexer.position());
    }
    Ok(names)
}

} // verus!
