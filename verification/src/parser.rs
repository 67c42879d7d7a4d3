//! The lexer and the loop resolver.
//!
//! Lexing maps each recognised character of a source line to one instruction,
//! silently dropping unknown characters; the escape character `:` consumes the
//! character after it and reads it against the shell alphabet instead. A line
//! whose `[` and `]` instruction counts differ is rejected. Resolution then
//! pairs every `[` with the `]` it matches, detecting improper nesting.

use vstd::prelude::*;

use crate::bracket_pair::BracketPair;
use crate::enums::{BrainfuckCommand, Command, LexError, ShellCommand};

verus! {

/// Whether an instruction opens a loop.
pub open spec fn is_open(c: Command) -> bool {
    c == Command::Brainfuck(BrainfuckCommand::OpenBracket)
}

/// Whether an instruction closes a loop.
pub open spec fn is_close(c: Command) -> bool {
    c == Command::Brainfuck(BrainfuckCommand::ClosedBracket)
}

/// How many of the first `n` instructions open a loop.
pub open spec fn open_count(prog: Seq<Command>, n: int) -> int
    decreases n,
{
    if n <= 0 {
        0
    } else {
        open_count(prog, n - 1) + if is_open(prog[n - 1]) {
            1int
        } else {
            0int
        }
    }
}

/// How many of the first `n` instructions close a loop.
pub open spec fn close_count(prog: Seq<Command>, n: int) -> int
    decreases n,
{
    if n <= 0 {
        0
    } else {
        close_count(prog, n - 1) + if is_close(prog[n - 1]) {
            1int
        } else {
            0int
        }
    }
}

/// The loop nesting depth after the first `n` instructions: opening brackets
/// seen, less closing brackets seen. Negative when a `]` arrives with no `[`
/// pending.
pub open spec fn depth(prog: Seq<Command>, n: int) -> int {
    open_count(prog, n) - close_count(prog, n)
}

/// The nesting depth never dips below zero within the first `m` instructions.
pub open spec fn prefixes_ok(prog: Seq<Command>, m: int) -> bool {
    forall|k: int| 0 <= k <= m ==> #[trigger] depth(prog, k) >= 0
}

/// The counts of `[` and `]` instructions agree over the whole program.
pub open spec fn cmd_balanced(prog: Seq<Command>) -> bool {
    open_count(prog, prog.len() as int) == close_count(prog, prog.len() as int)
}

/// Brackets nest properly: the depth never dips below zero and ends at zero.
pub open spec fn properly_nested(prog: Seq<Command>) -> bool {
    &&& prefixes_ok(prog, prog.len() as int)
    &&& depth(prog, prog.len() as int) == 0
}

/// Index `c` holds the `]` that matches the `[` at index `o`: between them the
/// depth stays above the level in force before the `[`, and right after `c` it
/// returns to that level. For a given `o` or a given `c` the partner is unique.
pub open spec fn is_match(prog: Seq<Command>, o: int, c: int) -> bool {
    &&& 0 <= o < c < prog.len()
    &&& is_open(prog[o])
    &&& is_close(prog[c])
    &&& depth(prog, c + 1) == depth(prog, o)
    &&& forall|k: int| o < k <= c ==> #[trigger] depth(prog, k) > depth(prog, o)
}

/// The index of the `]` matching the `[` at `o`, where one exists.
pub open spec fn match_close(prog: Seq<Command>, o: int) -> int {
    choose|c: int| is_match(prog, o, c)
}

/// The index of the `[` matching the `]` at `c`, where one exists.
pub open spec fn match_open(prog: Seq<Command>, c: int) -> int {
    choose|o: int| is_match(prog, o, c)
}

/// A well-formed jump table for `prog`: every recorded pair is a true match,
/// and every bracket of the program is recorded.
pub open spec fn jump_table_wf(prog: Seq<Command>, pairs: Seq<BracketPair>) -> bool {
    &&& forall|i: int|
        0 <= i < pairs.len() ==> is_match(
            prog,
            (#[trigger] pairs[i]).first(),
            pairs[i].second(),
        )
    &&& forall|k: int|
        0 <= k < prog.len() && is_open(#[trigger] prog[k]) ==> exists|i: int|
            0 <= i < pairs.len() && (#[trigger] pairs[i]).first() == k
    &&& forall|k: int|
        0 <= k < prog.len() && is_close(#[trigger] prog[k]) ==> exists|i: int|
            0 <= i < pairs.len() && (#[trigger] pairs[i]).second() == k
}

/// The `]` at index `i` is the first instruction to drive the depth negative:
/// nesting is proper up to it, and it has no pending `[`.
pub open spec fn first_unmatched_close(prog: Seq<Command>, i: int) -> bool {
    &&& 0 <= i < prog.len()
    &&& prefixes_ok(prog, i)
    &&& depth(prog, i + 1) < 0
}

/// The tape instruction a character stands for, if any.
pub open spec fn tape_of(c: char) -> Option<BrainfuckCommand> {
    if c == '>' {
        Some(BrainfuckCommand::PointerIncrement)
    } else if c == '<' {
        Some(BrainfuckCommand::PointerDecrement)
    } else if c == '+' {
        Some(BrainfuckCommand::DataIncrement)
    } else if c == '-' {
        Some(BrainfuckCommand::DataDecrement)
    } else if c == '.' {
        Some(BrainfuckCommand::ReturnDataAtPointer)
    } else if c == ',' {
        Some(BrainfuckCommand::WriteDataToPointer)
    } else if c == '[' {
        Some(BrainfuckCommand::OpenBracket)
    } else if c == ']' {
        Some(BrainfuckCommand::ClosedBracket)
    } else {
        None
    }
}

/// The shell directive a character stands for after the escape `:`, if any.
pub open spec fn shell_of(c: char) -> Option<ShellCommand> {
    if c == 'r' {
        Some(ShellCommand::ResetValues)
    } else if c == 'p' {
        Some(ShellCommand::PrintString)
    } else if c == 'q' {
        Some(ShellCommand::QuitProgram)
    } else {
        None
    }
}

/// The instruction sequence a source line lexes to. Each recognised character
/// yields one instruction; unknown characters are dropped; the escape `:`
/// consumes itself and the character after it, which is read against the shell
/// alphabet alone; an escape at end of input yields nothing.
pub open spec fn lex_spec(s: Seq<char>) -> Seq<Command>
    decreases s.len(),
{
    if s.len() == 0 {
        Seq::empty()
    } else if s[0] == ':' {
        if s.len() == 1 {
            Seq::empty()
        } else {
            match shell_of(s[1]) {
                Some(sc) => seq![Command::Shell(sc)] + lex_spec(s.skip(2)),
                None => lex_spec(s.skip(2)),
            }
        }
    } else {
        match tape_of(s[0]) {
            Some(bc) => seq![Command::Brainfuck(bc)] + lex_spec(s.skip(1)),
            None => lex_spec(s.skip(1)),
        }
    }
}

/// How often the character `c` occurs in `s`.
pub open spec fn count_char(s: Seq<char>, c: char) -> int
    decreases s.len(),
{
    if s.len() == 0 {
        0
    } else {
        (if s[0] == c {
            1int
        } else {
            0int
        }) + count_char(s.skip(1), c)
    }
}

/// Bracket counts over the first `n` instructions agree between two programs
/// that agree there.
proof fn lemma_count_agree(p1: Seq<Command>, p2: Seq<Command>, n: int)
    requires
        0 <= n <= p1.len(),
        n <= p2.len(),
        forall|k: int| 0 <= k < n ==> p1[k] == p2[k],
    ensures
        open_count(p1, n) == open_count(p2, n),
        close_count(p1, n) == close_count(p2, n),
    decreases n,
{
    if n > 0 {
        lemma_count_agree(p1, p2, n - 1);
    }
}

/// Bracket counts distribute over concatenation.
proof fn lemma_count_concat(a: Seq<Command>, b: Seq<Command>)
    ensures
        open_count(a + b, a.len() + b.len() as int) == open_count(a, a.len() as int) + open_count(
            b,
            b.len() as int,
        ),
        close_count(a + b, a.len() + b.len() as int) == close_count(a, a.len() as int) + close_count(
            b,
            b.len() as int,
        ),
    decreases b.len(),
{
    if b.len() == 0 {
        assert(a + b =~= a);
    } else {
        lemma_count_concat(a, b.drop_last());
        assert((a + b.drop_last()).len() == a.len() + b.len() - 1);
        lemma_count_agree(a + b.drop_last(), a + b, a.len() + b.len() - 1);
        lemma_count_agree(b.drop_last(), b, b.len() - 1);
        assert((a + b)[a.len() + b.len() - 1] == b[b.len() - 1]);
    }
}

/// Over a line without the escape character, the lexer turns exactly the `[`
/// and `]` characters into the loop instructions: so for such a line, equal
/// bracket-character counts are necessary (and sufficient) for the lexed
/// program to balance. Balance is still no guarantee of proper nesting, which
/// only resolution checks.
pub proof fn lemma_escape_free_balance(s: Seq<char>)
    requires
        forall|k: int| 0 <= k < s.len() ==> s[k] != ':',
    ensures
        open_count(lex_spec(s), lex_spec(s).len() as int) == count_char(s, '['),
        close_count(lex_spec(s), lex_spec(s).len() as int) == count_char(s, ']'),
        cmd_balanced(lex_spec(s)) <==> count_char(s, '[') == count_char(s, ']'),
    decreases s.len(),
{
    if s.len() > 0 {
        let rest = s.skip(1);
        assert(s[0] != ':');
        assert forall|k: int| 0 <= k < rest.len() implies rest[k] != ':' by {
            assert(rest[k] == s[k + 1]);
        }
        lemma_escape_free_balance(rest);
        match tape_of(s[0]) {
            Some(bc) => {
                let single = seq![Command::Brainfuck(bc)];
                lemma_count_concat(single, lex_spec(rest));
                assert(lex_spec(s) == single + lex_spec(rest));
                assert(single[0] == Command::Brainfuck(bc));
                assert(open_count(single, 0) == 0 && close_count(single, 0) == 0);
                assert(open_count(single, 1) == if is_open(Command::Brainfuck(bc)) {
                    1int
                } else {
                    0int
                });
                assert(close_count(single, 1) == if is_close(Command::Brainfuck(bc)) {
                    1int
                } else {
                    0int
                });
                assert(is_open(Command::Brainfuck(bc)) <==> s[0] == '[');
                assert(is_close(Command::Brainfuck(bc)) <==> s[0] == ']');
            },
            None => {
                assert(lex_spec(s) == lex_spec(rest));
                assert(s[0] != '[' && s[0] != ']');
            },
        }
    }
}

/// A `[` has at most one matching `]`.
pub proof fn lemma_close_unique(prog: Seq<Command>, o: int, c1: int, c2: int)
    requires
        is_match(prog, o, c1),
        is_match(prog, o, c2),
    ensures
        c1 == c2,
{
    if c1 < c2 {
        assert(depth(prog, c1 + 1) > depth(prog, o));
    } else if c2 < c1 {
        assert(depth(prog, c2 + 1) > depth(prog, o));
    }
}

/// A `]` has at most one matching `[`.
pub proof fn lemma_open_unique(prog: Seq<Command>, o1: int, o2: int, c: int)
    requires
        is_match(prog, o1, c),
        is_match(prog, o2, c),
    ensures
        o1 == o2,
{
    if o1 < o2 {
        assert(depth(prog, o2) > depth(prog, o1));
        assert(depth(prog, c + 1) == depth(prog, o1));
    } else if o2 < o1 {
        assert(depth(prog, o1) > depth(prog, o2));
        assert(depth(prog, c + 1) == depth(prog, o2));
    }
}

/// Every pair of a well-formed jump table round-trips: looking the opening
/// index up gives the closing index, looking that up gives the opening index
/// back, and the spec-level lookups agree with the recorded pair.
pub proof fn lemma_jump_table_round_trip(prog: Seq<Command>, pairs: Seq<BracketPair>, i: int)
    requires
        jump_table_wf(prog, pairs),
        0 <= i < pairs.len(),
    ensures
        match_close(prog, pairs[i].first()) == pairs[i].second(),
        match_open(prog, pairs[i].second()) == pairs[i].first(),
        match_open(prog, match_close(prog, pairs[i].first())) == pairs[i].first(),
{
    let o = pairs[i].first();
    let c = pairs[i].second();
    assert(is_match(prog, o, c));
    assert(is_match(prog, o, match_close(prog, o)));
    lemma_close_unique(prog, o, c, match_close(prog, o));
    assert(is_match(prog, match_open(prog, c), c));
    lemma_open_unique(prog, o, match_open(prog, c), c);
}

/// The tape instruction a character stands for, if any.
fn char_to_tape(c: char) -> (r: Option<BrainfuckCommand>)
    ensures
        r == tape_of(c),
{
    if c == '>' {
        Some(BrainfuckCommand::PointerIncrement)
    } else if c == '<' {
        Some(BrainfuckCommand::PointerDecrement)
    } else if c == '+' {
        Some(BrainfuckCommand::DataIncrement)
    } else if c == '-' {
        Some(BrainfuckCommand::DataDecrement)
    } else if c == '.' {
        Some(BrainfuckCommand::ReturnDataAtPointer)
    } else if c == ',' {
        Some(BrainfuckCommand::WriteDataToPointer)
    } else if c == '[' {
        Some(BrainfuckCommand::OpenBracket)
    } else if c == ']' {
        Some(BrainfuckCommand::ClosedBracket)
    } else {
        None
    }
}

/// The shell directive a character stands for after the escape, if any.
fn char_to_shell(c: char) -> (r: Option<ShellCommand>)
    ensures
        r == shell_of(c),
{
    if c == 'r' {
        Some(ShellCommand::ResetValues)
    } else if c == 'p' {
        Some(ShellCommand::PrintString)
    } else if c == 'q' {
        Some(ShellCommand::QuitProgram)
    } else {
        None
    }
}

/// Whether the line holds as many `[` characters as `]` characters. This is
/// the lexer's whole validation: proper nesting is left to the resolver.
pub fn do_brackets_match(input: &String) -> (b: bool)
    ensures
        b == (count_char(input@, '[') == count_char(input@, ']')),
{
    let s = input.as_str();
    let n = s.unicode_len();
    let mut opens: usize = 0;
    let mut closes: usize = 0;
    let mut i: usize = 0;
    proof {
        assert(input@.skip(0) =~= input@);
    }
    while i < n
        invariant
            s@ == input@,
            n == input@.len(),
            i <= n,
            opens <= i,
            closes <= i,
            opens + count_char(input@.skip(i as int), '[') == count_char(input@, '['),
            closes + count_char(input@.skip(i as int), ']') == count_char(input@, ']'),
        decreases n - i,
    {
        let c = s.get_char(i);
        proof {
            let rest = input@.skip(i as int);
            assert(rest[0] == input@[i as int]);
            assert(rest.skip(1) =~= input@.skip(i as int + 1));
        }
        if c == '[' {
            opens = opens + 1;
        } else if c == ']' {
            closes = closes + 1;
        }
        i = i + 1;
    }
    proof {
        assert(input@.skip(n as int) =~= Seq::<char>::empty());
    }
    opens == closes
}

/// Returns the opening index of the recorded pair whose closing index is
/// `second_bracket`; `None` exactly when no pair closes there.
pub fn get_first_bracket(bracket_list: &Vec<BracketPair>, second_bracket: usize) -> (r: Option<
    usize,
>)
    ensures
        match r {
            Some(o) => exists|i: int|
                0 <= i < bracket_list@.len() && (#[trigger] bracket_list@[i]).second()
                    == second_bracket && bracket_list@[i].first() == o,
            None => forall|i: int|
                0 <= i < bracket_list@.len() ==> (#[trigger] bracket_list@[i]).second()
                    != second_bracket,
        },
{
    let mut j: usize = 0;
    while j < bracket_list.len()
        invariant
            j <= bracket_list@.len(),
            forall|i: int|
                0 <= i < j ==> (#[trigger] bracket_list@[i]).second() != second_bracket,
        decreases bracket_list@.len() - j,
    {
        if bracket_list[j].get_second_bracket_index() == second_bracket {
            return Some(bracket_list[j].get_first_bracket_index());
        }
        j = j + 1;
    }
    None
}

/// Returns the closing index of the recorded pair whose opening index is
/// `first_bracket`; `None` exactly when no pair opens there.
pub fn get_second_bracket(bracket_list: &Vec<BracketPair>, first_bracket: usize) -> (r: Option<
    usize,
>)
    ensures
        match r {
            Some(c) => exists|i: int|
                0 <= i < bracket_list@.len() && (#[trigger] bracket_list@[i]).first()
                    == first_bracket && bracket_list@[i].second() == c,
            None => forall|i: int|
                0 <= i < bracket_list@.len() ==> (#[trigger] bracket_list@[i]).first()
                    != first_bracket,
        },
{
    let mut j: usize = 0;
    while j < bracket_list.len()
        invariant
            j <= bracket_list@.len(),
            forall|i: int|
                0 <= i < j ==> (#[trigger] bracket_list@[i]).first() != first_bracket,
        decreases bracket_list@.len() - j,
    {
        if bracket_list[j].get_first_bracket_index() == first_bracket {
            return Some(bracket_list[j].get_second_bracket_index());
        }
        j = j + 1;
    }
    None
}

/// The parser: the instruction sequence lexed from one source line, and the
/// jump table resolved for it.
pub struct Parser {
    commands: Vec<Command>,
    bracket_pairs: Vec<BracketPair>,
}

impl Parser {
    /// The instruction sequence held.
    pub closed spec fn spec_commands(&self) -> Seq<Command> {
        self.commands@
    }

    /// The resolved bracket pairs held.
    pub closed spec fn spec_pairs(&self) -> Seq<BracketPair> {
        self.bracket_pairs@
    }

    /// The held jump table is well-formed for the held instruction sequence.
    pub open spec fn wf(&self) -> bool {
        jump_table_wf(self.spec_commands(), self.spec_pairs())
    }

    /// An empty parser: no instructions, no bracket pairs.
    pub fn new() -> (p: Self)
        ensures
            p.spec_commands() == Seq::<Command>::empty(),
            p.spec_pairs() == Seq::<BracketPair>::empty(),
            p.wf(),
    {
        Self { commands: Vec::new(), bracket_pairs: Vec::new() }
    }

    /// Returns the held instruction sequence.
    pub fn get_commands(&self) -> (c: &Vec<Command>)
        ensures
            c@ == self.spec_commands(),
    {
        &self.commands
    }

    /// Returns the held bracket pairs.
    pub fn get_bracket_pairs(&self) -> (b: &Vec<BracketPair>)
        ensures
            b@ == self.spec_pairs(),
    {
        &self.bracket_pairs
    }

    /// Turns a source line into its instruction sequence, as `lex_spec`
    /// describes, then checks global bracket balance: succeeds exactly when
    /// the lexed program holds as many `[` as `]` instructions, and fails with
    /// `UnbalancedBrackets` otherwise. Nesting is not checked here.
    pub fn parse_commands(string: &String) -> (r: Result<Vec<Command>, LexError>)
        ensures
            r is Ok <==> cmd_balanced(lex_spec(string@)),
            match r {
                Ok(cmds) => cmds@ == lex_spec(string@),
                Err(e) => e == LexError::UnbalancedBrackets,
            },
    {
        let s = string.as_str();
        let n = s.unicode_len();
        let mut commands: Vec<Command> = Vec::new();
        let mut i: usize = 0;
        proof {
            assert(string@.skip(0) =~= string@);
            assert(commands@ + lex_spec(string@) =~= lex_spec(string@));
        }
        while i < n
            invariant
                s@ == string@,
                n == string@.len(),
                i <= n,
                commands@ + lex_spec(string@.skip(i as int)) == lex_spec(string@),
            decreases n - i,
        {
            let ghost rest = string@.skip(i as int);
            let ghost before = commands@;
            let c = s.get_char(i);
            proof {
                assert(rest.len() == n - i);
                assert(rest[0] == string@[i as int]);
            }
            if c == ':' {
                if i + 1 < n {
                    let c2 = s.get_char(i + 1);
                    proof {
                        assert(rest[1] == string@[i as int + 1]);
                        assert(rest.skip(2) =~= string@.skip(i as int + 2));
                    }
                    match char_to_shell(c2) {
                        Some(sc) => {
                            commands.push(Command::Shell(sc));
                            proof {
                                assert(commands@ + lex_spec(string@.skip(i as int + 2)) =~= before
                                    + lex_spec(rest));
                            }
                        },
                        None => {},
                    }
                    i = i + 2;
                } else {
                    proof {
                        assert(rest.len() == 1);
                        assert(lex_spec(rest) =~= Seq::<Command>::empty());
                        assert(before + lex_spec(string@.skip(n as int)) =~= before + lex_spec(
                            rest,
                        ));
                    }
                    i = n;
                }
            } else {
                proof {
                    assert(rest.skip(1) =~= string@.skip(i as int + 1));
                }
                match char_to_tape(c) {
                    Some(bc) => {
                        commands.push(Command::Brainfuck(bc));
                        proof {
                            assert(commands@ + lex_spec(string@.skip(i as int + 1)) =~= before
                                + lex_spec(rest));
                        }
                    },
                    None => {},
                }
                i = i + 1;
            }
        }
        proof {
            assert(string@.skip(n as int) =~= Seq::<char>::empty());
            assert(commands@ + lex_spec(string@.skip(n as int)) =~= commands@);
        }
        let mut opens: usize = 0;
        let mut closes: usize = 0;
        let mut j: usize = 0;
        let m = commands.len();
        while j < m
            invariant
                m == commands@.len(),
                j <= m,
                opens <= j,
                closes <= j,
                opens == open_count(commands@, j as int),
                closes == close_count(commands@, j as int),
            decreases m - j,
        {
            match commands[j] {
                Command::Brainfuck(BrainfuckCommand::OpenBracket) => {
                    opens = opens + 1;
                },
                Command::Brainfuck(BrainfuckCommand::ClosedBracket) => {
                    closes = closes + 1;
                },
                _ => {
                    proof {
                        assert(!is_open(commands@[j as int]) && !is_close(commands@[j as int]));
                    }
                },
            }
            j = j + 1;
        }
        if opens == closes {
            Ok(commands)
        } else {
            Err(LexError::UnbalancedBrackets)
        }
    }

    /// Lexes a source line and resolves its bracket pairs in one step:
    /// succeeds exactly when the line's loop instructions balance and nest
    /// properly, and then holds the lexed program and a well-formed jump table
    /// for it. An unbalanced line fails as `UnbalancedBrackets` before
    /// resolution; a balanced but badly nested one fails as `UnmatchedClose`
    /// at the offending instruction index.
    pub fn from_string(input_string: &String) -> (r: Result<Self, LexError>)
        ensures
            r is Ok <==> (cmd_balanced(lex_spec(input_string@)) && properly_nested(
                lex_spec(input_string@),
            )),
            match r {
                Ok(p) => {
                    &&& p.spec_commands() == lex_spec(input_string@)
                    &&& p.wf()
                    &&& properly_nested(p.spec_commands())
                },
                Err(e) => match e {
                    LexError::UnbalancedBrackets => !cmd_balanced(lex_spec(input_string@)),
                    LexError::UnmatchedClose(i) => cmd_balanced(lex_spec(input_string@))
                        && first_unmatched_close(lex_spec(input_string@), i as int),
                    LexError::UnmatchedOpen => false,
                },
            },
    {
        match Self::parse_commands(input_string) {
            Ok(commands) => {
                match Self::find_bracket_pairs(&commands) {
                    Ok(bracket_pairs) => Ok(Self { commands, bracket_pairs }),
                    Err(e) => Err(e),
                }
            },
            Err(e) => Err(e),
        }
    }

    /// Re-fills this parser from a source line: on success the held program
    /// and jump table are replaced; on failure the parser is left as it was
    /// and the error is the one `from_string` would give.
    pub fn parse_string(&mut self, input_string: &String) -> (r: Result<(), LexError>)
        ensures
            r is Ok <==> (cmd_balanced(lex_spec(input_string@)) && properly_nested(
                lex_spec(input_string@),
            )),
            match r {
                Ok(()) => {
                    &&& final(self).spec_commands() == lex_spec(input_string@)
                    &&& final(self).wf()
                    &&& properly_nested(final(self).spec_commands())
                },
                Err(e) => *final(self) == *old(self) && match e {
                    LexError::UnbalancedBrackets => !cmd_balanced(lex_spec(input_string@)),
                    LexError::UnmatchedClose(i) => cmd_balanced(lex_spec(input_string@))
                        && first_unmatched_close(lex_spec(input_string@), i as int),
                    LexError::UnmatchedOpen => false,
                },
            },
    {
        match Self::from_string(input_string) {
            Ok(p) => {
                *self = p;
                Ok(())
            },
            Err(e) => Err(e),
        }
    }

    /// Pairs every `[` of the instruction sequence with its matching `]`, by a
    /// single left-to-right scan over a stack of pending `[` indices.
    ///
    /// Succeeds exactly when the brackets nest properly, and then the table is
    /// well-formed and complete. A `]` with no pending `[` is refused as
    /// `UnmatchedClose` at its index; a `[` still pending at the end as
    /// `UnmatchedOpen`.
    pub fn find_bracket_pairs(commands: &Vec<Command>) -> (r: Result<Vec<BracketPair>, LexError>)
        ensures
            r is Ok <==> properly_nested(commands@),
            match r {
                Ok(pairs) => jump_table_wf(commands@, pairs@) && properly_nested(commands@)
                    && pairs@.len() == open_count(commands@, commands@.len() as int),
                Err(e) => match e {
                    LexError::UnmatchedClose(i) => first_unmatched_close(commands@, i as int),
                    LexError::UnmatchedOpen => prefixes_ok(commands@, commands@.len() as int)
                        && depth(commands@, commands@.len() as int) > 0,
                    LexError::UnbalancedBrackets => false,
                },
            },
    {
        let ghost prog = commands@;
        let n = commands.len();
        let mut pairs: Vec<BracketPair> = Vec::new();
        let mut stack: Vec<usize> = Vec::new();
        let mut i: usize = 0;
        while i < n
            invariant
                n == prog.len(),
                prog == commands@,
                i <= n,
                prefixes_ok(prog, i as int),
                stack@.len() == depth(prog, i as int),
                pairs@.len() == close_count(prog, i as int),
                forall|j: int|
                    0 <= j < stack@.len() ==> (#[trigger] stack@[j]) < i && is_open(
                        prog[stack@[j] as int],
                    ) && depth(prog, stack@[j] as int) == j,
                forall|j: int, k: int|
                    #![trigger stack@[j], depth(prog, k)]
                    0 <= j < stack@.len() && stack@[j] < k <= i ==> depth(prog, k) > j,
                forall|p: int|
                    0 <= p < pairs@.len() ==> is_match(
                        prog,
                        (#[trigger] pairs@[p]).first(),
                        pairs@[p].second(),
                    ),
                forall|k: int|
                    0 <= k < i && is_open(#[trigger] prog[k]) ==> (exists|j: int|
                        0 <= j < stack@.len() && (#[trigger] stack@[j]) == k) || (exists|p: int|
                        0 <= p < pairs@.len() && (#[trigger] pairs@[p]).first() == k),
                forall|k: int|
                    0 <= k < i && is_close(#[trigger] prog[k]) ==> exists|p: int|
                        0 <= p < pairs@.len() && (#[trigger] pairs@[p]).second() == k,
            decreases n - i,
        {
            let cmd = commands[i];
            proof {
                assert(depth(prog, i + 1) == depth(prog, i as int) + if is_open(prog[i as int]) {
                    1int
                } else if is_close(prog[i as int]) {
                    -1int
                } else {
                    0int
                });
            }
            match cmd {
                Command::Brainfuck(BrainfuckCommand::OpenBracket) => {
                    let ghost stack_before = stack@;
                    stack.push(i);
                    proof {
                        assert forall|k: int| 0 <= k < i + 1 && is_open(
                            #[trigger] prog[k],
                        ) implies ((exists|j: int|
                            0 <= j < stack@.len() && (#[trigger] stack@[j]) == k) || (exists|p: int|
                            0 <= p < pairs@.len() && (#[trigger] pairs@[p]).first() == k)) by {
                            if k == i {
                                assert(stack@[stack_before.len() as int] == k);
                            } else if exists|j: int|
                                0 <= j < stack_before.len() && (#[trigger] stack_before[j]) == k {
                                let j = choose|j: int|
                                    0 <= j < stack_before.len() && (#[trigger] stack_before[j])
                                        == k;
                                assert(stack@[j] == k);
                            }
                        }
                    }
                },
                Command::Brainfuck(BrainfuckCommand::ClosedBracket) => {
                    let ghost stack_before = stack@;
                    let ghost pairs_before = pairs@;
                    let popped = stack.pop();
                    match popped {
                        Some(o) => {
                            pairs.push(BracketPair::from_indeces((o, i)));
                            proof {
                                let d = depth(prog, i as int);
                                assert(o == stack_before[d - 1]);
                                assert(stack@ == stack_before.subrange(0, d - 1));
                                assert(is_match(prog, o as int, i as int)) by {
                                    assert(depth(prog, o as int) == d - 1);
                                    assert(depth(prog, i + 1) == d - 1);
                                    assert forall|k: int| o < k <= i implies depth(prog, k) > depth(
                                        prog,
                                        o as int,
                                    ) by {
                                        assert(stack_before[d - 1] < k <= i);
                                        assert(depth(prog, k) > d - 1);
                                    }
                                }
                                let np = pairs@.len() - 1;
                                assert(pairs@[np].first() == o && pairs@[np].second() == i);
                                assert forall|k: int| 0 <= k < i + 1 && is_open(
                                    #[trigger] prog[k],
                                ) implies ((exists|j: int|
                                    0 <= j < stack@.len() && (#[trigger] stack@[j]) == k) || (
                                exists|p: int|
                                    0 <= p < pairs@.len() && (#[trigger] pairs@[p]).first()
                                        == k)) by {
                                    if k < i {
                                        if exists|j: int|
                                            0 <= j < stack_before.len() && (
                                            #[trigger] stack_before[j]) == k {
                                            let j = choose|j: int|
                                                0 <= j < stack_before.len() && (
                                                #[trigger] stack_before[j]) == k;
                                            if j < d - 1 {
                                                assert(stack@[j] == k);
                                            } else {
                                                assert(k == o as int);
                                                assert(pairs@[np].first() == k);
                                            }
                                        } else {
                                            let p = choose|p: int|
                                                0 <= p < pairs_before.len() && (
                                                #[trigger] pairs_before[p]).first() == k;
                                            assert(pairs@[p].first() == k);
                                        }
                                    }
                                }
                                assert forall|k: int| 0 <= k < i + 1 && is_close(
                                    #[trigger] prog[k],
                                ) implies exists|p: int|
                                    0 <= p < pairs@.len() && (#[trigger] pairs@[p]).second()
                                        == k by {
                                    if k < i {
                                        let p = choose|p: int|
                                            0 <= p < pairs_before.len() && (
                                            #[trigger] pairs_before[p]).second() == k;
                                        assert(pairs@[p].second() == k);
                                    } else {
                                        assert(pairs@[np].second() == k);
                                    }
                                }
                            }
                        },
                        None => {
                            proof {
                                assert(depth(prog, i + 1) < 0);
                                assert(!properly_nested(prog)) by {
                                    assert(0 <= i + 1 <= prog.len());
                                }
                            }
                            return Err(LexError::UnmatchedClose(i));
                        },
                    }
                },
                _ => {
                    proof {
                        assert(!is_open(prog[i as int]) && !is_close(prog[i as int]));
                    }
                },
            }
            i = i + 1;
        }
        if stack.len() == 0 {
            proof {
                assert(properly_nested(prog));
                assert forall|k: int| 0 <= k < prog.len() && is_open(#[trigger] prog[k]) implies exists|
                    p: int,
                |
                    0 <= p < pairs@.len() && (#[trigger] pairs@[p]).first() == k by {
                    assert(!(exists|j: int| 0 <= j < stack@.len() && (#[trigger] stack@[j]) == k));
                }
            }
            Ok(pairs)
        } else {
            proof {
                assert(depth(prog, prog.len() as int) == stack@.len());
            }
            Err(LexError::UnmatchedOpen)
        }
    }
}

} // verus!
