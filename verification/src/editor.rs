//! Line-editor logic: classifying submitted input, completing commands,
//! validating a prompt line, and the prompt's own syntax analysis.

use vstd::prelude::*;

use crate::commands::{parse_command, spec_parse_command, Command};
use crate::config::Config;
use crate::text::{
    is_space, is_space_char, spec_trim, str_matches_ci, trim_spaces, lemma_trim_idempotent,
};

verus! {

/// What one submitted line means: nothing, a command, or a chat message.
#[derive(Debug)]
pub enum Input {
    Message(String),
    Command(Command),
    Invalid,
}

/// Which key bindings the line editor uses.
#[derive(Debug, PartialEq, Eq, Structural, Clone, Copy)]
pub enum ReedlineEditMode {
    Emacs,
    Vi,
}

pub const DEFAULT_HISTORY_MAX_SIZE: usize = 100;

/// The edit mode a configuration string names: `vi` or `vim` ask for Vi
/// bindings, anything else falls back to Emacs.
pub open spec fn spec_edit_mode_of(s: Seq<char>) -> ReedlineEditMode {
    if word_matches_vi(s) {
        ReedlineEditMode::Vi
    } else {
        ReedlineEditMode::Emacs
    }
}

pub open spec fn word_matches_vi(s: Seq<char>) -> bool {
    crate::text::word_matches(s, "vi"@) || crate::text::word_matches(s, "vim"@)
}

/// The line editor's settings.
pub struct EditorConfig {
    pub edit_mode: ReedlineEditMode,
    pub use_kitty_keyboard_enhancement: bool,
    pub use_bracketed_paste: bool,
    pub ansi_colors: bool,
    pub history_file_path: Option<String>,
    pub history_max_size: usize,
}

impl EditorConfig {
    /// Derives the editor's settings from the configuration. The history
    /// file path, where history is wanted, is resolved by the caller.
    pub fn from_config(config: &Config, history_file_path: Option<String>) -> (r: EditorConfig)
        ensures
            r.edit_mode == spec_edit_mode_of(config.edit_mode@),
            r.use_kitty_keyboard_enhancement == true,
            r.use_bracketed_paste == config.bracketed_paste,
            r.ansi_colors == config.ansi_colors,
            r.history_file_path == history_file_path,
            r.history_max_size == DEFAULT_HISTORY_MAX_SIZE,
    {
        let vi = str_matches_ci(config.edit_mode.as_str(), "vi") || str_matches_ci(
            config.edit_mode.as_str(),
            "vim",
        );
        let edit_mode = if vi {
            ReedlineEditMode::Vi
        } else {
            ReedlineEditMode::Emacs
        };
        EditorConfig {
            edit_mode,
            use_kitty_keyboard_enhancement: true,
            use_bracketed_paste: config.bracketed_paste,
            ansi_colors: config.ansi_colors,
            history_file_path,
            history_max_size: DEFAULT_HISTORY_MAX_SIZE,
        }
    }
}

/// Classifies one submitted line: whitespace only is nothing, a line whose
/// trimmed text parses as a slash command is that command, anything else is
/// a message holding the trimmed text.
pub fn classify_input(line: &str) -> (r: Input)
    ensures
        match r {
            Input::Invalid => spec_trim(line@).len() == 0,
            Input::Command(c) => spec_trim(line@).len() > 0 && spec_parse_command(line@)
                == Some(c),
            Input::Message(m) => m@ == spec_trim(line@) && m@.len() > 0 && spec_parse_command(
                line@,
            ) is None,
        },
{
    let t = trim_spaces(line);
    proof {
        lemma_trim_idempotent(line@);
    }
    if t.as_str().is_empty() {
        return Input::Invalid;
    }
    match parse_command(t.as_str()) {
        Some(cmd) => Input::Command(cmd),
        None => Input::Message(t),
    }
}

/// One completion the prompt offers.
pub struct Suggestion {
    pub value: String,
    pub span_start: usize,
    pub span_end: usize,
}

/// The mathematical image of a suggestion.
pub struct SuggestionView {
    pub value: Seq<char>,
    pub span_start: int,
    pub span_end: int,
}

impl View for Suggestion {
    type V = SuggestionView;

    open spec fn view(&self) -> SuggestionView {
        SuggestionView {
            value: self.value@,
            span_start: self.span_start as int,
            span_end: self.span_end as int,
        }
    }
}

impl DeepView for Suggestion {
    type V = SuggestionView;

    open spec fn deep_view(&self) -> SuggestionView {
        self@
    }
}

/// `p` is a prefix of `s`.
pub open spec fn spec_prefix(p: Seq<char>, s: Seq<char>) -> bool {
    p.len() <= s.len() && s.take(p.len() as int) == p
}

/// Executable prefix test.
pub fn has_prefix(s: &str, p: &str) -> (r: bool)
    ensures
        r == spec_prefix(p@, s@),
{
    let pn: usize = p.unicode_len();
    let sn: usize = s.unicode_len();
    if pn > sn {
        return false;
    }
    let mut i: usize = 0;
    while i < pn
        invariant
            i <= pn,
            pn <= sn,
            pn == p@.len(),
            sn == s@.len(),
            forall|j: int| 0 <= j < i ==> s@[j] == p@[j],
        decreases pn - i,
    {
        if s.get_char(i) != p.get_char(i) {
            proof {
                assert(s@.take(pn as int)[i as int] == s@[i as int]);
            }
            return false;
        }
        i = i + 1;
    }
    proof {
        assert(s@.take(pn as int) =~= p@);
    }
    true
}

/// The suggestions, in order, for the candidate words that begin with `l`,
/// each spanning the `l.len()` characters before the cursor at `pos`.
pub open spec fn spec_completion_suggestions(cmds: Seq<Seq<char>>, l: Seq<char>, pos: int) -> Seq<
    SuggestionView,
>
    decreases cmds.len(),
{
    if cmds.len() == 0 {
        Seq::empty()
    } else {
        (if spec_prefix(l, cmds[0]) {
            seq![SuggestionView { value: cmds[0], span_start: pos - l.len(), span_end: pos }]
        } else {
            Seq::empty()
        }) + spec_completion_suggestions(cmds.drop_first(), l, pos)
    }
}

/// What completion offers on `line` with the cursor at `pos`: nothing
/// unless the text up to the cursor starts with a slash, else every
/// candidate that begins with that text, all spanning it.
pub open spec fn spec_complete(cmds: Seq<Seq<char>>, line: Seq<char>, pos: int) -> Seq<
    SuggestionView,
> {
    let l = if pos <= line.len() {
        line.take(pos)
    } else {
        line
    };
    if l.len() == 0 || l[0] != '/' {
        Seq::empty()
    } else {
        spec_completion_suggestions(cmds, l, pos)
    }
}

/// Completes slash commands at the prompt.
pub struct CommandCompleter {
    commands: Vec<String>,
}

impl CommandCompleter {
    /// The candidate words offered.
    pub closed spec fn commands_view(&self) -> Seq<Seq<char>> {
        self.commands.deep_view()
    }

    pub fn new(commands: Vec<String>) -> (r: CommandCompleter)
        ensures
            r.commands_view() == commands.deep_view(),
    {
        CommandCompleter { commands }
    }

    /// The suggestions for `line` with the cursor at character `pos`.
    pub fn complete(&self, line: &str, pos: usize) -> (r: Vec<Suggestion>)
        ensures
            r.deep_view() == spec_complete(self.commands_view(), line@, pos as int),
    {
        let n: usize = line.unicode_len();
        let cut: usize = if pos <= n {
            pos
        } else {
            n
        };
        let l = String::from_str(line.substring_char(0, cut));
        proof {
            if pos <= n {
                assert(l@ =~= line@.take(pos as int));
            } else {
                assert(l@ =~= line@);
            }
        }
        let mut r: Vec<Suggestion> = Vec::new();
        if l.as_str().is_empty() || l.as_str().get_char(0) != '/' {
            proof {
                assert(r.deep_view() =~= spec_complete(self.commands_view(), line@, pos as int));
            }
            return r;
        }
        let ghost lv = l@;
        proof {
            assert(self.commands_view().skip(0) =~= self.commands_view());
            assert(r.deep_view() =~= Seq::<SuggestionView>::empty());
            assert(Seq::<SuggestionView>::empty() + spec_completion_suggestions(
                self.commands_view(),
                lv,
                pos as int,
            ) =~= spec_completion_suggestions(self.commands_view(), lv, pos as int));
        }
        let start: usize = pos - l.unicode_len();
        let m: usize = self.commands.len();
        let mut i: usize = 0;
        while i < m
            invariant
                i <= m,
                m == self.commands_view().len(),
                m == self.commands@.len(),
                lv == l@,
                lv.len() <= pos,
                start == pos - lv.len(),
                spec_completion_suggestions(self.commands_view(), lv, pos as int) == r.deep_view()
                    + spec_completion_suggestions(
                    self.commands_view().skip(i as int),
                    lv,
                    pos as int,
                ),
            decreases m - i,
        {
            let ghost pre = r.deep_view();
            let ghost suffix = self.commands_view().skip(i as int);
            let ghost tail = spec_completion_suggestions(
                self.commands_view().skip(i + 1),
                lv,
                pos as int,
            );
            proof {
                assert(suffix[0] == self.commands_view()[i as int]);
                assert(suffix.drop_first() =~= self.commands_view().skip(i + 1));
                assert(self.commands_view()[i as int] == self.commands@[i as int]@);
            }
            if has_prefix(self.commands[i].as_str(), l.as_str()) {
                let ghost sv = SuggestionView {
                    value: suffix[0],
                    span_start: pos - lv.len(),
                    span_end: pos as int,
                };
                let s = Suggestion {
                    value: self.commands[i].clone(),
                    span_start: start,
                    span_end: pos,
                };
                r.push(s);
                proof {
                    assert(spec_completion_suggestions(suffix, lv, pos as int) == seq![sv] + tail);
                    assert(r.deep_view() =~= pre.push(sv));
                    assert(pre + (seq![sv] + tail) =~= pre.push(sv) + tail);
                }
            } else {
                proof {
                    assert(spec_completion_suggestions(suffix, lv, pos as int)
                        =~= Seq::<SuggestionView>::empty() + tail);
                    assert(Seq::<SuggestionView>::empty() + tail =~= tail);
                }
            }
            i = i + 1;
        }
        proof {
            assert(spec_completion_suggestions(self.commands_view().skip(m as int), lv, pos as int)
                =~= Seq::<SuggestionView>::empty());
            assert(r.deep_view() =~= r.deep_view() + Seq::<SuggestionView>::empty());
            assert(r.deep_view() =~= spec_complete(self.commands_view(), line@, pos as int));
        }
        r
    }
}

/// The prompt shown at the input line.
pub struct EditorPrompt {}

impl EditorPrompt {
    pub fn new() -> (r: EditorPrompt) {
        EditorPrompt {  }
    }

    /// The indicator before the cursor.
    pub fn indicator(&self) -> (r: &'static str)
        ensures
            r@ == "> "@,
    {
        "> "
    }

    /// The indicator while searching the history.
    pub fn history_search_indicator(&self) -> (r: &'static str)
        ensures
            r@ == "? "@,
    {
        "? "
    }
}

/// The role one stretch of the prompt line plays, for styling.
#[derive(Debug, PartialEq, Eq, Structural, Clone, Copy)]
pub enum InputPart {
    Whitespace,
    Slash,
    MessageText,
    ValidCommand(Command),
    InvalidCommand,
    ValidArgument,
    InvalidArgument,
}

impl View for InputPart {
    type V = InputPart;

    open spec fn view(&self) -> InputPart {
        *self
    }
}

impl DeepView for InputPart {
    type V = InputPart;

    open spec fn deep_view(&self) -> InputPart {
        *self
    }
}

/// A display color for a part of the prompt line.
#[derive(Debug, PartialEq, Eq, Structural, Clone, Copy)]
pub enum StyleColor {
    Green,
    Cyan,
    Yellow,
    Blue,
    Red,
}

/// Foreground and background of a part of the prompt line.
#[derive(Debug, PartialEq, Eq, Clone, Copy)]
pub struct PartStyle {
    pub foreground: Option<StyleColor>,
    pub background: Option<StyleColor>,
}

/// The style each part of the prompt line is shown in.
pub open spec fn spec_style(p: InputPart) -> PartStyle {
    match p {
        InputPart::Whitespace => PartStyle { foreground: None, background: None },
        InputPart::Slash => PartStyle { foreground: None, background: None },
        InputPart::MessageText => PartStyle {
            foreground: Some(StyleColor::Green),
            background: None,
        },
        InputPart::ValidCommand(_) => PartStyle {
            foreground: Some(StyleColor::Cyan),
            background: None,
        },
        InputPart::InvalidCommand => PartStyle {
            foreground: Some(StyleColor::Yellow),
            background: None,
        },
        InputPart::ValidArgument => PartStyle {
            foreground: Some(StyleColor::Blue),
            background: None,
        },
        InputPart::InvalidArgument => PartStyle {
            foreground: None,
            background: Some(StyleColor::Red),
        },
    }
}

impl InputPart {
    /// The style this part is shown in.
    pub fn style(&self) -> (r: PartStyle)
        ensures
            r == spec_style(*self),
    {
        match self {
            InputPart::Whitespace => PartStyle { foreground: None, background: None },
            InputPart::Slash => PartStyle { foreground: None, background: None },
            InputPart::MessageText => PartStyle {
                foreground: Some(StyleColor::Green),
                background: None,
            },
            InputPart::ValidCommand(_) => PartStyle {
                foreground: Some(StyleColor::Cyan),
                background: None,
            },
            InputPart::InvalidCommand => PartStyle {
                foreground: Some(StyleColor::Yellow),
                background: None,
            },
            InputPart::ValidArgument => PartStyle {
                foreground: Some(StyleColor::Blue),
                background: None,
            },
            InputPart::InvalidArgument => PartStyle {
                foreground: None,
                background: Some(StyleColor::Red),
            },
        }
    }
}

/// How far the prompt's analysis has come along the line.
#[derive(Debug, PartialEq, Eq, Structural, Clone, Copy)]
pub enum ParseState {
    Start,
    Message,
    CommandParsed,
    Invalid,
}

/// Length of the first whitespace-inclusive piece of `s`: a run of
/// non-whitespace characters together with the whitespace character that
/// ends it, or a single whitespace character, or the bare final run.
pub open spec fn spec_piece_len(s: Seq<char>) -> nat
    decreases s.len(),
{
    if s.len() == 0 {
        0
    } else if is_space_char(s[0]) {
        1
    } else {
        1 + spec_piece_len(s.drop_first())
    }
}

/// The first piece of a non-empty text is non-empty and no longer than the
/// text.
pub proof fn lemma_piece_len_bounds(s: Seq<char>)
    ensures
        s.len() > 0 ==> 1 <= spec_piece_len(s) <= s.len(),
    decreases s.len(),
{
    if s.len() > 0 {
        if is_space_char(s[0]) {
            assert(spec_piece_len(s) == 1);
        } else {
            lemma_piece_len_bounds(s.drop_first());
            assert(spec_piece_len(s) == 1 + spec_piece_len(s.drop_first()));
            assert(s.drop_first().len() == s.len() - 1);
            if s.drop_first().len() == 0 {
                assert(spec_piece_len(s.drop_first()) == 0);
            }
        }
    }
}

/// The whitespace-inclusive pieces of `s`, in order.
pub open spec fn spec_splits(s: Seq<char>) -> Seq<Seq<char>>
    decreases s.len(),
    via spec_splits_decreases
{
    if s.len() == 0 {
        Seq::empty()
    } else {
        seq![s.take(spec_piece_len(s) as int)] + spec_splits(s.skip(spec_piece_len(s) as int))
    }
}

#[via_fn]
proof fn spec_splits_decreases(s: Seq<char>) {
    lemma_piece_len_bounds(s);
}

/// Every character of `s` is whitespace.
pub open spec fn is_all_space(s: Seq<char>) -> bool {
    forall|i: int| 0 <= i < s.len() ==> is_space_char(s[i])
}

/// The state the analysis is in after one more piece.
pub open spec fn spec_step_state(st: ParseState, piece: Seq<char>) -> ParseState {
    match st {
        ParseState::Start => match spec_parse_command(piece) {
            Some(cmd) => if cmd == Command::Invalid {
                ParseState::Invalid
            } else {
                ParseState::CommandParsed
            },
            None => if is_all_space(piece) {
                ParseState::Start
            } else {
                ParseState::Message
            },
        },
        ParseState::Message => ParseState::Message,
        ParseState::CommandParsed => ParseState::CommandParsed,
        ParseState::Invalid => ParseState::Invalid,
    }
}

/// The styled parts one more piece contributes: at the start, a piece that
/// parses as a command splits into its slash and the command word, a
/// whitespace piece stays plain, and anything else begins the message; after
/// that, every piece keeps the role the line has taken on.
pub open spec fn spec_step_parts(st: ParseState, piece: Seq<char>) -> Seq<(InputPart, Seq<char>)> {
    match st {
        ParseState::Start => match spec_parse_command(piece) {
            Some(cmd) => if cmd == Command::Invalid {
                seq![
                    (InputPart::Slash, piece.take(1)),
                    (InputPart::InvalidCommand, piece.skip(1)),
                ]
            } else {
                seq![
                    (InputPart::Slash, piece.take(1)),
                    (InputPart::ValidCommand(cmd), piece.skip(1)),
                ]
            },
            None => if is_all_space(piece) {
                seq![(InputPart::Whitespace, piece)]
            } else {
                seq![(InputPart::MessageText, piece)]
            },
        },
        ParseState::Message => seq![(InputPart::MessageText, piece)],
        ParseState::CommandParsed => seq![(InputPart::ValidArgument, piece)],
        ParseState::Invalid => seq![(InputPart::InvalidArgument, piece)],
    }
}

/// The styled parts of a sequence of pieces, starting from `st`.
pub open spec fn spec_parse_parts(splits: Seq<Seq<char>>, st: ParseState) -> Seq<
    (InputPart, Seq<char>),
>
    decreases splits.len(),
{
    if splits.len() == 0 {
        Seq::empty()
    } else {
        spec_step_parts(st, splits[0]) + spec_parse_parts(
            splits.drop_first(),
            spec_step_state(st, splits[0]),
        )
    }
}

/// The styled parts of a whole prompt line.
pub open spec fn spec_parse_line(line: Seq<char>) -> Seq<(InputPart, Seq<char>)> {
    spec_parse_parts(spec_splits(line), ParseState::Start)
}

/// Analyzes the prompt line as it is typed, to style it.
pub struct PromptHighlighter {}

impl PromptHighlighter {
    pub fn new() -> (r: PromptHighlighter) {
        PromptHighlighter {  }
    }

    /// Splits the line into whitespace-inclusive pieces and assigns each its
    /// role: leading whitespace, then either a slash command with its
    /// arguments — valid or not — or plain message text.
    pub fn parse_line(&self, line: &str) -> (r: Vec<(InputPart, String)>)
        ensures
            r.deep_view() == spec_parse_line(line@),
    {
        let n: usize = line.unicode_len();
        let mut parts: Vec<(InputPart, String)> = Vec::new();
        let mut st = ParseState::Start;
        let mut pos: usize = 0;
        proof {
            assert(line@.skip(0) =~= line@);
            assert(parts.deep_view() =~= Seq::<(InputPart, Seq<char>)>::empty());
            assert(Seq::<(InputPart, Seq<char>)>::empty() + spec_parse_parts(
                spec_splits(line@),
                ParseState::Start,
            ) =~= spec_parse_line(line@));
        }
        while pos < n
            invariant
                pos <= n,
                n == line@.len(),
                spec_parse_line(line@) == parts.deep_view() + spec_parse_parts(
                    spec_splits(line@.skip(pos as int)),
                    st,
                ),
            decreases n - pos,
        {
            let ghost u = line@.skip(pos as int);
            let ghost pre = parts.deep_view();
            let mut e: usize = pos;
            while e < n && !is_space(line.get_char(e))
                invariant
                    pos <= e <= n,
                    n == line@.len(),
                    forall|j: int| pos <= j < e ==> !is_space_char(line@[j]),
                decreases n - e,
            {
                e = e + 1;
            }
            let pl: usize = if e < n {
                e - pos + 1
            } else {
                e - pos
            };
            proof {
                lemma_piece_len_at(line@, pos as int, e as int);
                assert(u.take(pl as int) =~= line@.subrange(pos as int, pos + pl));
                assert(u.skip(pl as int) =~= line@.skip(pos + pl));
                assert(spec_splits(u) == seq![u.take(pl as int)] + spec_splits(u.skip(pl as int)));
                assert(spec_splits(u)[0] == u.take(pl as int));
                assert(spec_splits(u).drop_first() =~= spec_splits(u.skip(pl as int)));
            }
            let ghost piece = u.take(pl as int);
            let ghost step = spec_step_parts(st, piece);
            let ghost tail = spec_parse_parts(
                spec_splits(line@.skip(pos + pl)),
                spec_step_state(st, piece),
            );
            proof {
                assert(spec_parse_parts(spec_splits(u), st) == step + tail);
            }
            let piece_str = String::from_str(line.substring_char(pos, pos + pl));
            match st {
                ParseState::Start => {
                    match parse_command(piece_str.as_str()) {
                        Some(cmd) => {
                            let slash = String::from_str(line.substring_char(pos, pos + 1));
                            let word = String::from_str(line.substring_char(pos + 1, pos + pl));
                            proof {
                                assert(slash@ =~= piece.take(1));
                                assert(word@ =~= piece.skip(1));
                            }
                            parts.push((InputPart::Slash, slash));
                            if cmd == Command::Invalid {
                                parts.push((InputPart::InvalidCommand, word));
                                st = ParseState::Invalid;
                            } else {
                                parts.push((InputPart::ValidCommand(cmd), word));
                                st = ParseState::CommandParsed;
                            }
                        },
                        None => {
                            if all_space(piece_str.as_str()) {
                                parts.push((InputPart::Whitespace, piece_str));
                            } else {
                                parts.push((InputPart::MessageText, piece_str));
                                st = ParseState::Message;
                            }
                        },
                    }
                },
                ParseState::Message => {
                    parts.push((InputPart::MessageText, piece_str));
                },
                ParseState::CommandParsed => {
                    parts.push((InputPart::ValidArgument, piece_str));
                },
                ParseState::Invalid => {
                    parts.push((InputPart::InvalidArgument, piece_str));
                },
            }
            proof {
                assert(parts.deep_view() =~= pre + step);
                assert(pre + (step + tail) =~= (pre + step) + tail);
            }
            pos = pos + pl;
        }
        proof {
            assert(line@.skip(n as int) =~= Seq::<char>::empty());
            assert(spec_parse_parts(spec_splits(line@.skip(pos as int)), st)
                =~= Seq::<(InputPart, Seq<char>)>::empty());
            assert(parts.deep_view() =~= parts.deep_view() + Seq::<(InputPart, Seq<char>)>::empty());
        }
        parts
    }
}

/// The piece starting at `from` runs to `stop`, and takes in the whitespace
/// character there when there is one.
proof fn lemma_piece_len_at(s: Seq<char>, from: int, stop: int)
    requires
        0 <= from <= stop <= s.len(),
        from < s.len(),
        forall|j: int| from <= j < stop ==> !is_space_char(s[j]),
        stop == s.len() || is_space_char(s[stop]),
    ensures
        spec_piece_len(s.skip(from)) == if stop < s.len() {
            stop - from + 1
        } else {
            stop - from
        },
    decreases stop - from,
{
    let u = s.skip(from);
    if from == stop {
        assert(u[0] == s[from]);
    } else {
        assert(u[0] == s[from]);
        assert(!is_space_char(u[0]));
        assert(u.drop_first() =~= s.skip(from + 1));
        if from + 1 < s.len() {
            lemma_piece_len_at(s, from + 1, stop);
        } else {
            assert(s.skip(from + 1).len() == 0);
            assert(spec_piece_len(s.skip(from + 1)) == 0);
        }
    }
}

/// Executable test matching `is_all_space`.
fn all_space(s: &str) -> (r: bool)
    ensures
        r == is_all_space(s@),
{
    let n: usize = s.unicode_len();
    let mut i: usize = 0;
    while i < n
        invariant
            i <= n,
            n == s@.len(),
            forall|j: int| 0 <= j < i ==> is_space_char(s@[j]),
        decreases n - i,
    {
        if !is_space(s.get_char(i)) {
            return false;
        }
        i = i + 1;
    }
    true
}

/// Accepts a line once it holds anything but whitespace.
#[derive(Debug, PartialEq, Eq, Structural, Clone, Copy)]
pub enum LineValidation {
    Incomplete,
    Complete,
}

pub struct PromptValidator {}

impl PromptValidator {
    pub fn new() -> (r: PromptValidator) {
        PromptValidator {  }
    }

    /// A line of nothing but whitespace is not yet complete.
    pub fn validate(&self, line: &str) -> (r: LineValidation)
        ensures
            r == (if spec_trim(line@).len() == 0 {
                LineValidation::Incomplete
            } else {
                LineValidation::Complete
            }),
    {
        let t = trim_spaces(line);
        if t.as_str().is_empty() {
            LineValidation::Incomplete
        } else {
            LineValidation::Complete
        }
    }
}

} // verus!
