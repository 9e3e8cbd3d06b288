//! What the interactive session makes of a line typed by the user.

use vstd::prelude::*;

use crate::text::{str_equals, trim, trim_text};

verus! {

/// The action that a line of input asks for.
#[derive(Debug)]
pub enum Command {
    /// Nothing was typed: prompt again.
    Skip,
    /// Clear the screen.
    Clear,
    /// Leave the session.
    Exit,
    /// Answer the question, given without surrounding whitespace.
    Ask(String),
}

/// The action asked for by `line`, read without its surrounding whitespace:
/// nothing, `clear`, `exit` or `quit`, or else a question.
pub fn read_command(line: &str) -> (command: Command)
    ensures
        command is Skip <==> trim(line@).len() == 0,
        command is Clear <==> trim(line@) == "clear"@,
        command is Exit <==> trim(line@) == "exit"@ || trim(line@) == "quit"@,
        command matches Command::Ask(question) ==> question@ == trim(line@),
{
    proof {
        reveal_strlit("clear");
        reveal_strlit("exit");
        reveal_strlit("quit");
    }
    let question = trim_text(line);
    if question.as_str().is_empty() {
        Command::Skip
    } else if str_equals(question.as_str(), "clear") {
        Command::Clear
    } else if str_equals(question.as_str(), "exit") || str_equals(question.as_str(), "quit") {
        Command::Exit
    } else {
        Command::Ask(question)
    }
}

} // verus!
