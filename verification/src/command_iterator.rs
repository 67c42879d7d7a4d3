//! An iterator-like walker over an instruction sequence: hands instructions
//! out in order and can jump from a loop bracket to just past its partner,
//! using a resolved jump table.

use vstd::prelude::*;

use crate::bracket_pair::BracketPair;
use crate::enums::Command;
use crate::parser::{
    get_first_bracket, get_second_bracket, is_close, is_match, is_open, jump_table_wf,
    lemma_close_unique, lemma_open_unique, match_close, match_open,
};

verus! {

/// A cursor over an instruction sequence, with the bracket pairs resolved for
/// it at hand.
pub struct CommandInterator {
    index: usize,
    max_len: usize,
    commands: Vec<Command>,
    bracket_pairs: Vec<BracketPair>,
}

impl CommandInterator {
    /// The position of the next instruction to hand out.
    pub closed spec fn pos(&self) -> int {
        self.index as int
    }

    /// The instruction sequence walked.
    pub closed spec fn spec_commands(&self) -> Seq<Command> {
        self.commands@
    }

    /// The bracket pairs consulted for jumps.
    pub closed spec fn spec_pairs(&self) -> Seq<BracketPair> {
        self.bracket_pairs@
    }

    /// The position never leaves the sequence, and the cached length is its
    /// real length.
    pub closed spec fn inv(&self) -> bool {
        &&& self.max_len == self.commands@.len()
        &&& self.index <= self.max_len
    }

    /// A walker over the given instructions and bracket pairs, starting at the
    /// first instruction.
    pub fn new(commands: Vec<Command>, bracket_pairs: Vec<BracketPair>) -> (r: Self)
        ensures
            r.inv(),
            r.pos() == 0,
            r.spec_commands() == commands@,
            r.spec_pairs() == bracket_pairs@,
    {
        let max_len = commands.len();
        Self { index: 0, max_len, commands, bracket_pairs }
    }

    /// Hands out the instruction at the current position and steps past it;
    /// `None` exactly when the sequence is exhausted, leaving it unchanged.
    pub fn next(&mut self) -> (r: Option<Command>)
        requires
            old(self).inv(),
        ensures
            final(self).inv(),
            final(self).spec_commands() == old(self).spec_commands(),
            final(self).spec_pairs() == old(self).spec_pairs(),
            old(self).pos() < old(self).spec_commands().len() ==> r == Some(
                old(self).spec_commands()[old(self).pos()],
            ) && final(self).pos() == old(self).pos() + 1,
            old(self).pos() >= old(self).spec_commands().len() ==> r == None::<Command>
                && *final(self) == *old(self),
    {
        if self.index < self.max_len {
            self.index = self.index + 1;
            Some(self.commands[self.index - 1])
        } else {
            None
        }
    }

    /// Whether an instruction is left to hand out.
    pub fn has_next(&self) -> (b: bool)
        requires
            self.inv(),
        ensures
            b == (self.pos() < self.spec_commands().len()),
    {
        self.index < self.max_len
    }

    /// When the instruction just handed out was a loop bracket, moves the
    /// position to just past that bracket's partner and reports `true`; for
    /// any other instruction reports `false` and stays put. Asks for a
    /// well-formed jump table, so the partner always exists.
    pub fn jump_to_matching_bracket(&mut self) -> (jumped: bool)
        requires
            old(self).inv(),
            jump_table_wf(old(self).spec_commands(), old(self).spec_pairs()),
            1 <= old(self).pos(),
        ensures
            final(self).inv(),
            final(self).spec_commands() == old(self).spec_commands(),
            final(self).spec_pairs() == old(self).spec_pairs(),
            ({
                let prog = old(self).spec_commands();
                let p = old(self).pos() - 1;
                if is_open(prog[p]) {
                    jumped && final(self).pos() == match_close(prog, p) + 1
                } else if is_close(prog[p]) {
                    jumped && final(self).pos() == match_open(prog, p) + 1
                } else {
                    !jumped && final(self).pos() == old(self).pos()
                }
            }),
    {
        let ghost prog = self.commands@;
        let p = self.index - 1;
        match self.commands[p] {
            Command::Brainfuck(crate::enums::BrainfuckCommand::OpenBracket) => {
                match get_second_bracket(&self.bracket_pairs, p) {
                    Some(c) => {
                        proof {
                            let i = choose|i: int|
                                0 <= i < self.bracket_pairs@.len() && (
                                #[trigger] self.bracket_pairs@[i]).first() == p
                                    && self.bracket_pairs@[i].second() == c;
                            assert(is_match(prog, p as int, c as int));
                            assert(is_match(prog, p as int, match_close(prog, p as int)));
                            lemma_close_unique(
                                prog,
                                p as int,
                                c as int,
                                match_close(prog, p as int),
                            );
                        }
                        self.index = c + 1;
                        true
                    },
                    None => {
                        proof {
                            assert(exists|i: int|
                                0 <= i < self.bracket_pairs@.len() && (
                                #[trigger] self.bracket_pairs@[i]).first() == p);
                        }
                        vstd::pervasive::unreached()
                    },
                }
            },
            Command::Brainfuck(crate::enums::BrainfuckCommand::ClosedBracket) => {
                match get_first_bracket(&self.bracket_pairs, p) {
                    Some(o) => {
                        proof {
                            let i = choose|i: int|
                                0 <= i < self.bracket_pairs@.len() && (
                                #[trigger] self.bracket_pairs@[i]).second() == p
                                    && self.bracket_pairs@[i].first() == o;
                            assert(is_match(prog, o as int, p as int));
                            assert(is_match(prog, match_open(prog, p as int), p as int));
                            lemma_open_unique(prog, o as int, match_open(prog, p as int), p as int);
                        }
                        self.index = o + 1;
                        true
                    },
                    None => {
                        proof {
                            assert(exists|i: int|
                                0 <= i < self.bracket_pairs@.len() && (
                                #[trigger] self.bracket_pairs@[i]).second() == p);
                        }
                        vstd::pervasive::unreached()
                    },
                }
            },
            _ => false,
        }
    }
}

} // verus!
