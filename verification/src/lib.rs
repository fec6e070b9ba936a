//! Incremental streaming-response renderer for a line-oriented chat client.
//!
//! The library accumulates arbitrarily split text fragments into complete
//! lines, highlights each line, wraps it to a column width, and plans paced
//! character-by-character output in which terminal escape sequences pass
//! through undelayed. Around that core stand the client's verified pieces:
//! slash-command parsing, prompt analysis, configuration resolution, and the
//! conversation transcript.

use vstd::prelude::*;

mod buffer;
mod commands;
mod config;
mod conversation;
mod editor;
mod highlight;
mod pace;
mod render;
mod stream;
mod text;
mod utils;
mod wrap;

pub use buffer::{has_no_newline, is_complete_line, lemma_line_completeness, ResponseBuffer};
pub use commands::{all_commands, completion_strings, parse_command, spec_parse_command, Command};
pub use config::{Config, ConfigToml};
pub use conversation::{spec_transcript, Conversation, Message, MessageView, Role};
pub use editor::{
    classify_input, CommandCompleter, EditorConfig, EditorPrompt, Input, InputPart, LineValidation,
    ParseState, PartStyle, PromptHighlighter, PromptValidator, ReedlineEditMode, StyleColor,
    Suggestion, SuggestionView,
};
pub use highlight::{
    lemma_highlight_preserves_content, spec_highlight_line, theme_names, Highlighter, Theme,
    ThemeView,
};
pub use pace::{
    has_no_escape, lemma_pace_plan_emits_all, pace_plan, spec_pace_plan, spec_strip_ansi,
    strip_ansi, PacedUnit, PacedUnitView,
};
pub use render::{
    lemma_screen_content_invariance, render_line, render_line_units, spec_render_line,
    spec_render_lines,
};
pub use stream::{
    lemma_split_boundary_invariance, spec_lines_of, RenderPhase, StreamRenderer,
};
pub use text::spec_trim;
pub use utils::{default_model_index, filename_from_title, model_options, separator_line};
pub use wrap::{
    lemma_wrap_preserves_words, lemma_wrap_width_bound, spec_all_lines_fit, spec_line_fits,
    spec_visible_width, spec_words, spec_wrap, visible_width, wrap_line,
};

verus! {

} // verus!
