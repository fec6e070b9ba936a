//! The slash commands of the chat client and their parsing.

use vstd::prelude::*;

use crate::text::{
    is_space, is_space_char, lemma_trim_front_skip, spec_trim, spec_trim_front, spec_word_len,
    str_matches_ci, trim_spaces, word_len_from, word_matches,
};

verus! {

#[derive(Debug, PartialEq, Eq, Clone, Copy, Structural)]
pub enum Command {
    Exit,
    Clear,
    Reset,
    SelectModel,
    SelectTheme,
    Save,
    Load,
    History,
    Help,
    Invalid,
}

/// The words that name each command at the prompt, lower case.
pub open spec fn spec_strings(c: Command) -> Seq<Seq<char>> {
    match c {
        Command::Exit => seq!["exit"@, "quit"@, "q"@, "x"@],
        Command::Clear => seq!["clear"@, "c"@],
        Command::Reset => seq!["reset"@, "r"@],
        Command::SelectModel => seq!["model"@, "m"@],
        Command::SelectTheme => seq!["theme"@, "t"@],
        Command::Save => seq!["save"@, "s"@],
        Command::Load => seq!["load"@, "l"@],
        Command::History => seq!["history"@],
        Command::Help => seq!["help"@, "h"@],
        Command::Invalid => Seq::empty(),
    }
}

/// Every command, in the order parsing tries them.
pub open spec fn spec_all_commands() -> Seq<Command> {
    seq![
        Command::Exit,
        Command::Clear,
        Command::Reset,
        Command::SelectModel,
        Command::SelectTheme,
        Command::Save,
        Command::Load,
        Command::History,
        Command::Help,
        Command::Invalid,
    ]
}

impl Command {
    /// The words that name this command at the prompt.
    pub fn strings(&self) -> (r: Vec<&str>)
        ensures
            r.deep_view() == spec_strings(*self),
    {
        let mut r: Vec<&str> = Vec::new();
        match self {
            Command::Exit => {
                r.push("exit");
                r.push("quit");
                r.push("q");
                r.push("x");
            },
            Command::Clear => {
                r.push("clear");
                r.push("c");
            },
            Command::Reset => {
                r.push("reset");
                r.push("r");
            },
            Command::SelectModel => {
                r.push("model");
                r.push("m");
            },
            Command::SelectTheme => {
                r.push("theme");
                r.push("t");
            },
            Command::Save => {
                r.push("save");
                r.push("s");
            },
            Command::Load => {
                r.push("load");
                r.push("l");
            },
            Command::History => {
                r.push("history");
            },
            Command::Help => {
                r.push("help");
                r.push("h");
            },
            Command::Invalid => {},
        }
        proof {
            assert(r.deep_view() =~= spec_strings(*self));
        }
        r
    }
}

/// Every command, in the order parsing tries them.
pub fn all_commands() -> (r: Vec<Command>)
    ensures
        r@ == spec_all_commands(),
{
    let mut r: Vec<Command> = Vec::new();
    r.push(Command::Exit);
    r.push(Command::Clear);
    r.push(Command::Reset);
    r.push(Command::SelectModel);
    r.push(Command::SelectTheme);
    r.push(Command::Save);
    r.push(Command::Load);
    r.push(Command::History);
    r.push(Command::Help);
    r.push(Command::Invalid);
    proof {
        assert(r@ =~= spec_all_commands());
    }
    r
}

/// The completion entries offered at the prompt: every command word with
/// its leading slash, in command order.
pub open spec fn spec_completion_strings() -> Seq<Seq<char>> {
    seq![
        "/exit"@,
        "/quit"@,
        "/q"@,
        "/x"@,
        "/clear"@,
        "/c"@,
        "/reset"@,
        "/r"@,
        "/model"@,
        "/m"@,
        "/theme"@,
        "/t"@,
        "/save"@,
        "/s"@,
        "/load"@,
        "/l"@,
        "/history"@,
        "/help"@,
        "/h"@,
    ]
}

/// The completion entries offered at the prompt.
pub fn completion_strings() -> (r: Vec<String>)
    ensures
        r.deep_view() == spec_completion_strings(),
{
    let mut r: Vec<String> = Vec::new();
    r.push(String::from_str("/exit"));
    r.push(String::from_str("/quit"));
    r.push(String::from_str("/q"));
    r.push(String::from_str("/x"));
    r.push(String::from_str("/clear"));
    r.push(String::from_str("/c"));
    r.push(String::from_str("/reset"));
    r.push(String::from_str("/r"));
    r.push(String::from_str("/model"));
    r.push(String::from_str("/m"));
    r.push(String::from_str("/theme"));
    r.push(String::from_str("/t"));
    r.push(String::from_str("/save"));
    r.push(String::from_str("/s"));
    r.push(String::from_str("/load"));
    r.push(String::from_str("/l"));
    r.push(String::from_str("/history"));
    r.push(String::from_str("/help"));
    r.push(String::from_str("/h"));
    proof {
        assert(r.deep_view() =~= spec_completion_strings());
    }
    r
}

/// `word` names the command `c`, up to ASCII case.
pub open spec fn spec_word_is(word: Seq<char>, c: Command) -> bool {
    exists|i: int| 0 <= i < spec_strings(c).len() && word_matches(word, spec_strings(c)[i])
}

fn command_matches(c: Command, word: &str) -> (r: bool)
    ensures
        r == spec_word_is(word@, c),
{
    let names = c.strings();
    let n: usize = names.len();
    let mut i: usize = 0;
    while i < n
        invariant
            i <= n,
            n == spec_strings(c).len(),
            names.deep_view() == spec_strings(c),
            forall|j: int| 0 <= j < i ==> !word_matches(word@, spec_strings(c)[j]),
        decreases n - i,
    {
        if str_matches_ci(word, names[i]) {
            proof {
                assert(names.deep_view()[i as int] == names@[i as int].deep_view());
                assert(word_matches(word@, spec_strings(c)[i as int]));
            }
            return true;
        }
        proof {
            assert(names.deep_view()[i as int] == names@[i as int].deep_view());
        }
        i = i + 1;
    }
    false
}

/// The command a bare word names: the first command one of whose strings
/// matches the word up to ASCII case, or `Invalid` when none does.
pub open spec fn spec_command_of(word: Seq<char>) -> Command {
    if spec_word_is(word, Command::Exit) {
        Command::Exit
    } else if spec_word_is(word, Command::Clear) {
        Command::Clear
    } else if spec_word_is(word, Command::Reset) {
        Command::Reset
    } else if spec_word_is(word, Command::SelectModel) {
        Command::SelectModel
    } else if spec_word_is(word, Command::SelectTheme) {
        Command::SelectTheme
    } else if spec_word_is(word, Command::Save) {
        Command::Save
    } else if spec_word_is(word, Command::Load) {
        Command::Load
    } else if spec_word_is(word, Command::History) {
        Command::History
    } else if spec_word_is(word, Command::Help) {
        Command::Help
    } else {
        Command::Invalid
    }
}

fn command_of(word: &str) -> (r: Command)
    ensures
        r == spec_command_of(word@),
{
    let cmds = all_commands();
    let n: usize = cmds.len();
    let mut i: usize = 0;
    while i < n
        invariant
            i <= n,
            n == spec_all_commands().len(),
            cmds@ == spec_all_commands(),
            forall|j: int| 0 <= j < i ==> !spec_word_is(word@, spec_all_commands()[j]),
        decreases n - i,
    {
        if command_matches(cmds[i], word) {
            return cmds[i];
        }
        i = i + 1;
    }
    Command::Invalid
}

/// What a whole input means as a command. Trimmed input that does not start
/// with `/` is no command; `/` alone asks for help; otherwise the first
/// whitespace-separated word after the slash is looked up, case-insensitively,
/// and an unknown word is the `Invalid` command.
pub open spec fn spec_parse_command(input: Seq<char>) -> Option<Command> {
    let t = spec_trim(input);
    if t.len() == 0 || t[0] != '/' {
        None
    } else {
        let rest = spec_trim_front(t.skip(1));
        if rest.len() == 0 {
            Some(Command::Help)
        } else {
            Some(spec_command_of(rest.take(spec_word_len(rest) as int)))
        }
    }
}

/// Parses an input line as a slash command.
pub fn parse_command(input: &str) -> (r: Option<Command>)
    ensures
        r == spec_parse_command(input@),
{
    let t = trim_spaces(input);
    let ts = t.as_str();
    let ghost tv = ts@;
    let n: usize = ts.unicode_len();
    if n == 0 || ts.get_char(0) != '/' {
        return None;
    }
    let mut i: usize = 1;
    while i < n && is_space(ts.get_char(i))
        invariant
            1 <= i <= n,
            n == tv.len(),
            ts@ == tv,
            forall|j: int| 1 <= j < i ==> is_space_char(tv[j]),
        decreases n - i,
    {
        i = i + 1;
    }
    proof {
        let rest = tv.skip(1);
        assert forall|j: int| 0 <= j < i - 1 implies is_space_char(rest[j]) by {
            assert(rest[j] == tv[j + 1]);
        }
        if i < n {
            assert(rest[i - 1] == tv[i as int]);
        }
        lemma_trim_front_skip(rest, i - 1);
        assert(rest.skip(i - 1) =~= tv.skip(i as int));
    }
    if i == n {
        Some(Command::Help)
    } else {
        let w = word_len_from(ts, i);
        let word = String::from_str(ts.substring_char(i, i + w));
        proof {
            assert(tv.skip(i as int).take(spec_word_len(tv.skip(i as int)) as int) =~= tv.subrange(
                i as int,
                i + w,
            ));
        }
        Some(command_of(word.as_str()))
    }
}

} // verus!
