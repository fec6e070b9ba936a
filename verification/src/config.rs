//! Runtime configuration of the client, resolved from optional file values.

use vstd::prelude::*;

verus! {

pub const DEFAULT_ENTER_REPL: bool = false;

pub const DEFAULT_ANIMATIONS: bool = false;

pub const DEFAULT_MAX_TOKENS: u32 = 2048;

pub const DEFAULT_BRACKETED_PASTE: bool = true;

pub const DEFAULT_ANSI_COLORS: bool = true;

pub const DEFAULT_SYNTAX_HIGHLIGHTING: bool = true;

pub const DEFAULT_WRAP_WIDTH: u32 = 100;

/// The system prompt used when none is configured.
pub open spec fn default_system_prompt() -> Seq<char> {
    "You are a helpful assistant."@
}

/// The model used when none is configured.
pub open spec fn default_model() -> Seq<char> {
    "gpt-4o"@
}

/// The edit mode used when none is configured.
pub open spec fn default_edit_mode() -> Seq<char> {
    "emacs"@
}

/// The theme used when none is configured.
pub open spec fn default_theme() -> Seq<char> {
    "ansi"@
}

/// Resolved configuration.
pub struct Config {
    pub system_prompt: String,
    pub model: String,
    pub max_tokens: u32,
    pub enter_repl: bool,
    pub animations: bool,
    pub bracketed_paste: bool,
    pub ansi_colors: bool,
    pub edit_mode: String,
    pub syntax_highlighting: bool,
    pub theme: String,
    pub wrap_width: u32,
}

/// Optional values as read from the configuration file.
pub struct ConfigToml {
    pub system_prompt: Option<String>,
    pub model: Option<String>,
    pub max_tokens: Option<u32>,
    pub enter_repl: Option<bool>,
    pub auto_save: Option<bool>,
    pub auto_load: Option<bool>,
    pub animations: Option<bool>,
    pub bracketed_paste: Option<bool>,
    pub ansi_colors: Option<bool>,
    pub edit_mode: Option<String>,
    pub syntax_highlighting: Option<bool>,
    pub theme: Option<String>,
    pub wrap_width: Option<u32>,
}

impl Default for ConfigToml {
    /// A file with no values set.
    fn default() -> (r: ConfigToml)
        ensures
            r.system_prompt is None,
            r.model is None,
            r.max_tokens is None,
            r.enter_repl is None,
            r.auto_save is None,
            r.auto_load is None,
            r.animations is None,
            r.bracketed_paste is None,
            r.ansi_colors is None,
            r.edit_mode is None,
            r.syntax_highlighting is None,
            r.theme is None,
            r.wrap_width is None,
    {
        ConfigToml {
            system_prompt: None,
            model: None,
            max_tokens: None,
            enter_repl: None,
            auto_save: None,
            auto_load: None,
            animations: None,
            bracketed_paste: None,
            ansi_colors: None,
            edit_mode: None,
            syntax_highlighting: None,
            theme: None,
            wrap_width: None,
        }
    }
}

impl Default for Config {
    /// The configuration used when there is no configuration file.
    fn default() -> (r: Config)
        ensures
            r.system_prompt@ == default_system_prompt(),
            r.model@ == default_model(),
            r.max_tokens == DEFAULT_MAX_TOKENS,
            r.enter_repl == DEFAULT_ENTER_REPL,
            r.animations == DEFAULT_ANIMATIONS,
            r.bracketed_paste == DEFAULT_BRACKETED_PASTE,
            r.ansi_colors == DEFAULT_ANSI_COLORS,
            r.edit_mode@ == default_edit_mode(),
            r.syntax_highlighting == DEFAULT_SYNTAX_HIGHLIGHTING,
            r.theme@ == default_theme(),
            r.wrap_width == DEFAULT_WRAP_WIDTH,
    {
        Config {
            system_prompt: String::from_str("You are a helpful assistant."),
            model: String::from_str("gpt-4o"),
            max_tokens: DEFAULT_MAX_TOKENS,
            enter_repl: DEFAULT_ENTER_REPL,
            animations: DEFAULT_ANIMATIONS,
            bracketed_paste: DEFAULT_BRACKETED_PASTE,
            ansi_colors: DEFAULT_ANSI_COLORS,
            edit_mode: String::from_str("emacs"),
            syntax_highlighting: DEFAULT_SYNTAX_HIGHLIGHTING,
            theme: String::from_str("ansi"),
            wrap_width: DEFAULT_WRAP_WIDTH,
        }
    }
}

impl Config {
    /// Resolves a configuration from file values and an optional system
    /// prompt given on the command line, which takes precedence. Every
    /// missing value falls back to its default.
    pub fn from_toml(config_toml: ConfigToml, prompt: Option<String>) -> (r: Config)
        ensures
            r.system_prompt@ == match prompt {
                Some(p) => p@,
                None => match config_toml.system_prompt {
                    Some(sp) => sp@,
                    None => default_system_prompt(),
                },
            },
            r.model@ == match config_toml.model {
                Some(m) => m@,
                None => default_model(),
            },
            r.max_tokens == match config_toml.max_tokens {
                Some(t) => t,
                None => DEFAULT_MAX_TOKENS,
            },
            r.enter_repl == match config_toml.enter_repl {
                Some(b) => b,
                None => DEFAULT_ENTER_REPL,
            },
            r.animations == match config_toml.animations {
                Some(b) => b,
                None => DEFAULT_ANIMATIONS,
            },
            r.bracketed_paste == match config_toml.bracketed_paste {
                Some(b) => b,
                None => DEFAULT_BRACKETED_PASTE,
            },
            r.ansi_colors == match config_toml.ansi_colors {
                Some(b) => b,
                None => DEFAULT_ANSI_COLORS,
            },
            r.edit_mode@ == match config_toml.edit_mode {
                Some(m) => m@,
                None => default_edit_mode(),
            },
            r.syntax_highlighting == match config_toml.syntax_highlighting {
                Some(b) => b,
                None => DEFAULT_SYNTAX_HIGHLIGHTING,
            },
            r.theme@ == match config_toml.theme {
                Some(t) => t@,
                None => default_theme(),
            },
            r.wrap_width == match config_toml.wrap_width {
                Some(w) => w,
                None => DEFAULT_WRAP_WIDTH,
            },
    {
        let system_prompt = match prompt {
            Some(p) => p,
            None => match config_toml.system_prompt {
                Some(sp) => sp,
                None => String::from_str("You are a helpful assistant."),
            },
        };
        let model = match config_toml.model {
            Some(m) => m,
            None => String::from_str("gpt-4o"),
        };
        let max_tokens = match config_toml.max_tokens {
            Some(t) => t,
            None => DEFAULT_MAX_TOKENS,
        };
        let enter_repl = match config_toml.enter_repl {
            Some(b) => b,
            None => DEFAULT_ENTER_REPL,
        };
        let animations = match config_toml.animations {
            Some(b) => b,
            None => DEFAULT_ANIMATIONS,
        };
        let bracketed_paste = match config_toml.bracketed_paste {
            Some(b) => b,
            None => DEFAULT_BRACKETED_PASTE,
        };
        let ansi_colors = match config_toml.ansi_colors {
            Some(b) => b,
            None => DEFAULT_ANSI_COLORS,
        };
        let edit_mode = match config_toml.edit_mode {
            Some(m) => m,
            None => String::from_str("emacs"),
        };
        let syntax_highlighting = match config_toml.syntax_highlighting {
            Some(b) => b,
            None => DEFAULT_SYNTAX_HIGHLIGHTING,
        };
        let theme = match config_toml.theme {
            Some(t) => t,
            None => String::from_str("ansi"),
        };
        let wrap_width = match config_toml.wrap_width {
            Some(w) => w,
            None => DEFAULT_WRAP_WIDTH,
        };
        Config {
            system_prompt,
            model,
            max_tokens,
            enter_repl,
            animations,
            bracketed_paste,
            ansi_colors,
            edit_mode,
            syntax_highlighting,
            theme,
            wrap_width,
        }
    }
}

} // verus!
