//! The command grammar: a tree whose inner nodes offer candidates for the
//! next word and whose leaves hold the action that the words stand for.

use crate::action::ActionBuilder;
use crate::message::{Message, MessageView};
use vstd::prelude::*;

verus! {

/// How much of the remaining input the word of a node takes.
#[derive(Clone, Copy, Debug, PartialEq, Eq, Structural)]
pub enum ParamGreed {
    /// Up to the next whitespace.
    Word,
    /// All of it, whitespace included.
    Rest,
}

/// What follows the word of a node.
pub enum Parser {
    /// The node reached by each word that leads on.
    Table(Vec<(String, Command)>),
    /// An action made from the word.
    Build(ActionBuilder),
}

/// A node of the grammar.
pub enum Command {
    /// The command is complete and stands for this action.
    Terminal(Message),
    /// A word is due: how much input it takes, the candidates offered for
    /// it, and what follows it.
    NonTerminal(ParamGreed, Vec<String>, Parser),
}

/// The value of a [`Parser`].
pub enum ParserView {
    Table(Seq<(Seq<char>, CommandView)>),
    Build(ActionBuilder),
}

/// The value of a [`Command`].
pub enum CommandView {
    Terminal(MessageView),
    NonTerminal(ParamGreed, Seq<Seq<char>>, ParserView),
}

/// The value of the entries of a table.
pub open spec fn entries_view(entries: Seq<(String, Command)>) -> Seq<(Seq<char>, CommandView)>
    decreases entries, 0nat,
{
    Seq::new(
        entries.len(),
        |i: int|
            if 0 <= i < entries.len() {
                (entries[i].0@, command_view(entries[i].1))
            } else {
                arbitrary()
            },
    )
}

/// The value of a parser.
pub open spec fn parser_view(parser: Parser) -> ParserView
    decreases parser, 0nat,
{
    match parser {
        Parser::Table(entries) => ParserView::Table(entries_view(entries@)),
        Parser::Build(builder) => ParserView::Build(builder),
    }
}

/// The value of a command.
pub open spec fn command_view(command: Command) -> CommandView
    decreases command, 0nat,
{
    match command {
        Command::Terminal(message) => CommandView::Terminal(message@),
        Command::NonTerminal(greed, candidates, parser) => CommandView::NonTerminal(
            greed,
            candidates.deep_view(),
            parser_view(parser),
        ),
    }
}

impl CommandView {
    /// Whether the grammar under this node is well formed: the word of a
    /// node that takes the rest of the input is the last word of its
    /// command.
    pub open spec fn well_formed(self) -> bool
        decreases self,
    {
        match self {
            CommandView::Terminal(_) => true,
            CommandView::NonTerminal(greed, _, ParserView::Build(_)) => true,
            CommandView::NonTerminal(greed, _, ParserView::Table(entries)) => forall|i: int|
                0 <= i < entries.len() ==> {
                    &&& greed == ParamGreed::Rest ==> (#[trigger] entries[i]).1 is Terminal
                    &&& entries[i].1.well_formed()
                },
        }
    }
}

impl Command {
    /// Tests whether the grammar under this node is well formed.
    #[verifier::loop_isolation(false)]
    pub fn is_well_formed(&self) -> (r: bool)
        ensures
            r == self@.well_formed(),
        decreases self,
    {
        match self {
            Command::Terminal(_) => true,
            Command::NonTerminal(_, _, Parser::Build(_)) => true,
            Command::NonTerminal(greed, _, Parser::Table(entries)) => {
                let last: bool = match greed {
                    ParamGreed::Rest => true,
                    ParamGreed::Word => false,
                };
                let ghost views = entries_view(entries@);
                let mut i: usize = 0;
                while i < entries.len()
                    invariant
                        i <= entries.len(),
                        forall|j: int|
                            0 <= j < i ==> {
                                &&& last ==> (#[trigger] views[j]).1 is Terminal
                                &&& views[j].1.well_formed()
                            },
                    decreases entries.len() - i,
                {
                    let leaf: bool = match &entries[i].1 {
                        Command::Terminal(_) => true,
                        Command::NonTerminal(_, _, _) => false,
                    };
                    assert(views[i as int].1 == entries@[i as int].1@);
                    if (last && !leaf) || !entries[i].1.is_well_formed() {
                        return false;
                    }
                    i = i + 1;
                }
                true
            },
        }
    }
}

impl View for Parser {
    type V = ParserView;

    open spec fn view(&self) -> ParserView {
        parser_view(*self)
    }
}

impl View for Command {
    type V = CommandView;

    open spec fn view(&self) -> CommandView {
        command_view(*self)
    }
}

} // verus!
