//! The command parser: one line of free text becomes a structured command.

use vstd::prelude::*;
use crate::text::{
    back_space, back_spaces, blank, chars_of, find_word_end, is_word, lemma_back_space_bounds,
    lemma_blank_trimmed, lemma_skip_space_bounds, lemma_word_end_bounds, lower_ascii,
    lower_range, skip_space, skip_spaces, slice_string, word_end,
};

verus! {

/// One of the four compass directions a player can walk in.
#[derive(Debug, Clone, Copy, PartialEq, Eq, Structural)]
pub enum Direction {
    North,
    South,
    East,
    West,
}

/// A parsed command. Arguments keep the casing the player typed.
#[derive(Debug, Clone, PartialEq, Eq)]
pub enum Command {
    Help,
    Look,
    Inventory,
    Move(Direction),
    Take(String),
    Drop(String),
    Use(String),
    Say(String),
    Quit,
    Unknown(String),
}

/// Why a line could not be parsed at all.
#[derive(Debug, Clone, Copy, PartialEq, Eq, Structural)]
pub enum ParseError {
    /// The line was empty or held only white space.
    Empty,
}

/// The mathematical value of a [`Command`].
pub enum CommandView {
    Help,
    Look,
    Inventory,
    Move(Direction),
    Take(Seq<char>),
    Drop(Seq<char>),
    Use(Seq<char>),
    Say(Seq<char>),
    Quit,
    Unknown(Seq<char>),
}

impl View for Command {
    type V = CommandView;

    open spec fn view(&self) -> CommandView {
        match *self {
            Command::Help => CommandView::Help,
            Command::Look => CommandView::Look,
            Command::Inventory => CommandView::Inventory,
            Command::Move(d) => CommandView::Move(d),
            Command::Take(s) => CommandView::Take(s@),
            Command::Drop(s) => CommandView::Drop(s@),
            Command::Use(s) => CommandView::Use(s@),
            Command::Say(s) => CommandView::Say(s@),
            Command::Quit => CommandView::Quit,
            Command::Unknown(s) => CommandView::Unknown(s@),
        }
    }
}

/// The lower-case name of a direction.
pub open spec fn direction_name(d: Direction) -> Seq<char> {
    match d {
        Direction::North => "north"@,
        Direction::South => "south"@,
        Direction::East => "east"@,
        Direction::West => "west"@,
    }
}

impl Direction {
    /// The lower-case name of the direction.
    pub fn as_str(&self) -> (r: &'static str)
        ensures
            r@ == direction_name(*self),
    {
        match self {
            Direction::North => "north",
            Direction::South => "south",
            Direction::East => "east",
            Direction::West => "west",
        }
    }

    /// The lower-case name of the direction, as an owned string.
    pub fn to_string(&self) -> (r: String)
        ensures
            r@ == direction_name(*self),
    {
        String::from_str(self.as_str())
    }
}

/// The direction that a lower-case word names, by its full name or its
/// first letter.
pub open spec fn direction_word(w: Seq<char>) -> Option<Direction> {
    if w == "n"@ || w == "north"@ {
        Some(Direction::North)
    } else if w == "s"@ || w == "south"@ {
        Some(Direction::South)
    } else if w == "e"@ || w == "east"@ {
        Some(Direction::East)
    } else if w == "w"@ || w == "west"@ {
        Some(Direction::West)
    } else {
        None
    }
}

/// A command that needs an argument: without one the whole line is unknown.
pub open spec fn with_argument(
    rest: Seq<char>,
    line: Seq<char>,
    make: spec_fn(Seq<char>) -> CommandView,
) -> CommandView {
    if rest.len() == 0 {
        CommandView::Unknown(line)
    } else {
        make(rest)
    }
}

/// The command for a lower-case verb. `arg` is the lower-case word after the
/// verb, `rest` everything after the verb as typed, and `line` the whole
/// trimmed line.
pub open spec fn command_of(
    verb: Seq<char>,
    arg: Seq<char>,
    rest: Seq<char>,
    line: Seq<char>,
) -> CommandView {
    if verb == "help"@ || verb == "?"@ {
        CommandView::Help
    } else if verb == "look"@ || verb == "l"@ {
        CommandView::Look
    } else if verb == "inv"@ || verb == "inventory"@ || verb == "i"@ {
        CommandView::Inventory
    } else if verb == "quit"@ || verb == "exit"@ {
        CommandView::Quit
    } else if direction_word(verb) is Some {
        CommandView::Move(direction_word(verb)->0)
    } else if verb == "go"@ || verb == "move"@ {
        match direction_word(arg) {
            Some(d) => CommandView::Move(d),
            None => CommandView::Unknown(line),
        }
    } else if verb == "take"@ || verb == "get"@ {
        with_argument(rest, line, |s: Seq<char>| CommandView::Take(s))
    } else if verb == "drop"@ {
        with_argument(rest, line, |s: Seq<char>| CommandView::Drop(s))
    } else if verb == "use"@ {
        with_argument(rest, line, |s: Seq<char>| CommandView::Use(s))
    } else if verb == "say"@ {
        with_argument(rest, line, |s: Seq<char>| CommandView::Say(s))
    } else {
        CommandView::Unknown(line)
    }
}

/// What a line of input means. The line is trimmed; its first word, in
/// ASCII lower case, is the verb; what follows the first white space after
/// the verb, trimmed, is the argument text.
pub open spec fn parse_spec(s: Seq<char>) -> Result<CommandView, ParseError> {
    let a = skip_space(s, 0);
    let b = back_space(s, a, s.len() as int);
    if a == b {
        Err(ParseError::Empty)
    } else {
        let e = word_end(s, a, b);
        let ra = if e < b {
            skip_space(s, e + 1)
        } else {
            b
        };
        Ok(
            command_of(
                lower_ascii(s.subrange(a, e)),
                lower_ascii(s.subrange(ra, word_end(s, ra, b))),
                s.subrange(ra, b),
                s.subrange(a, b),
            ),
        )
    }
}

/// The mathematical value of a parse result.
pub open spec fn parsed_view(r: Result<Command, ParseError>) -> Result<CommandView, ParseError> {
    match r {
        Ok(c) => Ok(c@),
        Err(e) => Err(e),
    }
}

fn direction_of(w: &Vec<char>) -> (r: Option<Direction>)
    ensures
        r == direction_word(w@),
{
    if is_word(w, "n") || is_word(w, "north") {
        Some(Direction::North)
    } else if is_word(w, "s") || is_word(w, "south") {
        Some(Direction::South)
    } else if is_word(w, "e") || is_word(w, "east") {
        Some(Direction::East)
    } else if is_word(w, "w") || is_word(w, "west") {
        Some(Direction::West)
    } else {
        None
    }
}

impl Command {
    /// Parses one line of input. A line of nothing but white space is
    /// `ParseError::Empty`; every other line gives a command, `Unknown` with
    /// the trimmed line where no verb matches.
    pub fn parse(input: &str) -> (r: Result<Command, ParseError>)
        ensures
            parsed_view(r) == parse_spec(input@),
            r is Err <==> blank(input@),
    {
        let v = chars_of(input);
        let a = skip_spaces(&v, 0);
        let b = back_spaces(&v, a, v.len());
        proof {
            lemma_blank_trimmed(input@);
            lemma_skip_space_bounds(input@, 0);
            lemma_back_space_bounds(input@, a as int, input@.len() as int);
        }
        if a == b {
            return Err(ParseError::Empty);
        }
        let e = find_word_end(&v, a, b);
        let verb = lower_range(&v, a, e);
        proof {
            lemma_word_end_bounds(input@, a as int, b as int);
            if e < b {
                lemma_skip_space_bounds(input@, e + 1);
            }
        }
        let ra = if e < b {
            skip_spaces(&v, e + 1)
        } else {
            b
        };
        let e2 = find_word_end(&v, ra, b);
        let arg = lower_range(&v, ra, e2);
        let cmd = if is_word(&verb, "help") || is_word(&verb, "?") {
            Command::Help
        } else if is_word(&verb, "look") || is_word(&verb, "l") {
            Command::Look
        } else if is_word(&verb, "inv") || is_word(&verb, "inventory") || is_word(&verb, "i") {
            Command::Inventory
        } else if is_word(&verb, "quit") || is_word(&verb, "exit") {
            Command::Quit
        } else if let Some(d) = direction_of(&verb) {
            Command::Move(d)
        } else if is_word(&verb, "go") || is_word(&verb, "move") {
            match direction_of(&arg) {
                Some(d) => Command::Move(d),
                None => Command::Unknown(slice_string(input, a, b)),
            }
        } else if is_word(&verb, "take") || is_word(&verb, "get") {
            if ra == b {
                Command::Unknown(slice_string(input, a, b))
            } else {
                Command::Take(slice_string(input, ra, b))
            }
        } else if is_word(&verb, "drop") {
            if ra == b {
                Command::Unknown(slice_string(input, a, b))
            } else {
                Command::Drop(slice_string(input, ra, b))
            }
        } else if is_word(&verb, "use") {
            if ra == b {
                Command::Unknown(slice_string(input, a, b))
            } else {
                Command::Use(slice_string(input, ra, b))
            }
        } else if is_word(&verb, "say") {
            if ra == b {
                Command::Unknown(slice_string(input, a, b))
            } else {
                Command::Say(slice_string(input, ra, b))
            }
        } else {
            Command::Unknown(slice_string(input, a, b))
        };
        Ok(cmd)
    }
}

} // verus!
