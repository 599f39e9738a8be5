//! Command lines and what commands print: how a command line falls into a
//! program and its arguments, and how the output of a command falls into
//! lines.

use crate::text::joined;
use crate::text::lemma_split_joins;
use crate::text::split;
use crate::text::split_seq;
use crate::text::trim;
use crate::text::trim_seq;
use vstd::prelude::*;

verus! {

/// A command line: the program and its arguments, with one space between
/// each two. No shell reads it: quotes and the like stand for themselves.
#[derive(Clone, PartialEq, Eq, Debug)]
pub struct ExecutorCommand(pub String);

/// A command line taken apart.
#[derive(Clone, PartialEq, Eq, Debug)]
pub struct CommandParts {
    pub program: String,
    pub arguments: Vec<String>,
}

/// The program of the command line `line`: what stands before the first
/// space.
pub open spec fn program_of(line: Seq<char>) -> Seq<char> {
    split_seq(line, ' ').first()
}

/// The arguments of the command line `line`: what stands between the spaces
/// after the program, and after the last of them. Two spaces in a row hold
/// an empty argument between them.
pub open spec fn arguments_of(line: Seq<char>) -> Seq<Seq<char>> {
    split_seq(line, ' ').drop_first()
}

impl ExecutorCommand {
    /// Takes the command line apart at its spaces.
    pub fn create_cmd(&self) -> (parts: CommandParts)
        ensures
            parts.program@ == program_of(self.0@),
            parts.arguments.deep_view() == arguments_of(self.0@),
    {
        let pieces = split(self.0.as_str(), ' ');
        proof {
            lemma_split_joins(self.0@, ' ');
            assert(pieces.deep_view()[0] == pieces@[0]@);
        }
        let program = pieces[0].clone();
        let mut arguments: Vec<String> = Vec::new();
        let mut i: usize = 1;
        while i < pieces.len()
            invariant
                1 <= i <= pieces.len(),
                arguments.deep_view() == pieces.deep_view().subrange(1, i as int),
            decreases pieces.len() - i,
        {
            let ghost so_far = arguments.deep_view();
            arguments.push(pieces[i].clone());
            assert(arguments.deep_view() =~= so_far.push(pieces@[i as int]@));
            assert(pieces.deep_view().subrange(1, i + 1) =~= pieces.deep_view().subrange(
                1,
                i as int,
            ).push(pieces@[i as int]@));
            i += 1;
        }
        assert(pieces.deep_view().subrange(1, pieces.len() as int)
            =~= pieces.deep_view().drop_first());
        CommandParts { program, arguments }
    }
}

/// The lines of `output`: what stands between its line feeds, each without
/// the white space around it, but for the lines that are then empty.
pub open spec fn lines_of(output: Seq<char>) -> Seq<Seq<char>> {
    split_seq(output, '\n').map_values(|line: Seq<char>| trim_seq(line)).filter(
        |line: Seq<char>| line.len() > 0,
    )
}

/// Takes the output of a command apart into its lines.
pub fn execute_by_line(output: &str) -> (lines: Vec<String>)
    ensures
        lines.deep_view() == lines_of(output@),
{
    let pieces = split(output, '\n');
    let ghost trimmed = |line: Seq<char>| trim_seq(line);
    let ghost filled = |line: Seq<char>| line.len() > 0;
    let mut lines: Vec<String> = Vec::new();
    let mut i: usize = 0;
    proof {
        reveal(Seq::filter);
        assert(pieces.deep_view().take(0).map_values(trimmed) =~= Seq::empty());
        assert(lines.deep_view() =~= Seq::<Seq<char>>::empty().filter(filled));
    }
    while i < pieces.len()
        invariant
            i <= pieces.len(),
            trimmed == |line: Seq<char>| trim_seq(line),
            filled == |line: Seq<char>| line.len() > 0,
            lines.deep_view() == pieces.deep_view().take(i as int).map_values(trimmed).filter(
                filled,
            ),
        decreases pieces.len() - i,
    {
        let line = trim(pieces[i].as_str());
        let ghost seen = pieces.deep_view().take(i as int).map_values(trimmed);
        let ghost kept = lines.deep_view();
        proof {
            assert(pieces.deep_view().take(i + 1).map_values(trimmed) =~= seen.push(line@));
            seen.lemma_filter_push(line@, filled);
        }
        if line.as_str().unicode_len() > 0 {
            lines.push(line);
            assert(lines.deep_view() =~= kept.push(line@));
        }
        i += 1;
    }
    assert(pieces.deep_view().take(pieces.len() as int) =~= pieces.deep_view());
    lines
}

/// The message of a command that ended with the failure `status`.
pub fn exit_error(status: &str) -> (message: String)
    ensures
        message@ == "Command exited with error code: "@ + status@,
{
    joined("Command exited with error code: ", status)
}

} // verus!
