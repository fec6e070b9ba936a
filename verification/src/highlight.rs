//! Markdown-ish syntax highlighting, one line at a time. The highlighter is
//! stateful: a fence line toggles a code block that colors the following
//! lines. A theme maps each semantic class — heading, code, plain text — to
//! a color, either one of the eight indexed terminal colors or an explicit
//! RGB value.

use vstd::prelude::*;

use crate::pace::{
    esc_char, has_no_escape, is_csi_final, lemma_strip_esc_free_prefix, lemma_strip_id_no_esc,
    lemma_strip_skips_csi, spec_strip_ansi,
};
use crate::text::{spec_trim, str_eq, trim_spaces};
use crate::editor::{has_prefix, spec_prefix};

verus! {

/// A theme: a name and the color of each semantic class. For an indexed
/// theme the first component of each color is a palette index from zero to
/// seven — zero keeps the terminal's default — mirroring how indexed themes
/// ride the red channel; for a true-color theme all three components are
/// the literal RGB channels.
pub struct Theme {
    pub name: String,
    pub indexed: bool,
    pub heading: (u8, u8, u8),
    pub code: (u8, u8, u8),
    pub text: (u8, u8, u8),
}

/// The mathematical image of a theme.
pub struct ThemeView {
    pub name: Seq<char>,
    pub indexed: bool,
    pub heading: (u8, u8, u8),
    pub code: (u8, u8, u8),
    pub text: (u8, u8, u8),
}

impl View for Theme {
    type V = ThemeView;

    open spec fn view(&self) -> ThemeView {
        ThemeView {
            name: self.name@,
            indexed: self.indexed,
            heading: self.heading,
            code: self.code,
            text: self.text,
        }
    }
}

/// The theme names on offer.
pub open spec fn spec_theme_known(n: Seq<char>) -> bool {
    n == "ansi"@ || n == "base16"@ || n == "base16-256"@ || n == "rgb"@
}

/// The theme each known name denotes: the indexed family shares one class
/// table, and `rgb` is the true-color theme.
pub open spec fn spec_theme_of(n: Seq<char>) -> ThemeView {
    if n == "rgb"@ {
        ThemeView {
            name: n,
            indexed: false,
            heading: (255, 215, 0),
            code: (0, 215, 135),
            text: (230, 230, 230),
        }
    } else {
        ThemeView { name: n, indexed: true, heading: (4, 0, 0), code: (2, 0, 0), text: (0, 0, 0) }
    }
}

/// The names of the themes on offer, in the order they are listed.
pub fn theme_names() -> (r: Vec<String>)
    ensures
        r.deep_view() == seq!["ansi"@, "base16"@, "base16-256"@, "rgb"@],
        forall|i: int| 0 <= i < r.deep_view().len() ==> spec_theme_known(#[trigger] r.deep_view()[i]),
{
    let mut r: Vec<String> = Vec::new();
    r.push(String::from_str("ansi"));
    r.push(String::from_str("base16"));
    r.push(String::from_str("base16-256"));
    r.push(String::from_str("rgb"));
    proof {
        assert(r.deep_view() =~= seq!["ansi"@, "base16"@, "base16-256"@, "rgb"@]);
    }
    r
}

/// The decimal digit `d` as a character.
pub open spec fn spec_digit(d: u8) -> char {
    if d == 0 {
        '0'
    } else if d == 1 {
        '1'
    } else if d == 2 {
        '2'
    } else if d == 3 {
        '3'
    } else if d == 4 {
        '4'
    } else if d == 5 {
        '5'
    } else if d == 6 {
        '6'
    } else if d == 7 {
        '7'
    } else if d == 8 {
        '8'
    } else {
        '9'
    }
}

/// `n` in decimal, without leading zeros.
pub open spec fn spec_u8_dec(n: u8) -> Seq<char> {
    if n >= 100 {
        seq![spec_digit(n / 100), spec_digit((n / 10) % 10), spec_digit(n % 10)]
    } else if n >= 10 {
        seq![spec_digit(n / 10), spec_digit(n % 10)]
    } else {
        seq![spec_digit(n)]
    }
}

fn digit_str(d: u8) -> (r: &'static str)
    requires
        d <= 9,
    ensures
        r@ == seq![spec_digit(d)],
{
    let r = if d == 0 {
        "0"
    } else if d == 1 {
        "1"
    } else if d == 2 {
        "2"
    } else if d == 3 {
        "3"
    } else if d == 4 {
        "4"
    } else if d == 5 {
        "5"
    } else if d == 6 {
        "6"
    } else if d == 7 {
        "7"
    } else if d == 8 {
        "8"
    } else {
        "9"
    };
    proof {
        reveal_strlit("0");
        reveal_strlit("1");
        reveal_strlit("2");
        reveal_strlit("3");
        reveal_strlit("4");
        reveal_strlit("5");
        reveal_strlit("6");
        reveal_strlit("7");
        reveal_strlit("8");
        reveal_strlit("9");
        assert(r@ =~= seq![spec_digit(d)]);
    }
    r
}

fn append_u8_dec(out: &mut String, n: u8)
    ensures
        final(out)@ == old(out)@ + spec_u8_dec(n),
{
    let ghost pre = out@;
    if n >= 100 {
        out.append(digit_str(n / 100));
        out.append(digit_str((n / 10) % 10));
        out.append(digit_str(n % 10));
        proof {
            assert(out@ =~= pre + spec_u8_dec(n));
        }
    } else if n >= 10 {
        out.append(digit_str(n / 10));
        out.append(digit_str(n % 10));
        proof {
            assert(out@ =~= pre + spec_u8_dec(n));
        }
    } else {
        out.append(digit_str(n));
        proof {
            assert(out@ =~= pre + spec_u8_dec(n));
        }
    }
}

/// The escape sequence that restores default styling.
pub open spec fn spec_reset() -> Seq<char> {
    "\u{1b}[0m"@
}

/// The escape sequence that selects indexed color `idx`, per the fixed
/// palette: one is red, two green, three yellow, four blue, five magenta,
/// six white, seven black.
pub open spec fn spec_sgr_prefix(idx: u8) -> Seq<char> {
    if idx == 1 {
        "\u{1b}[31m"@
    } else if idx == 2 {
        "\u{1b}[32m"@
    } else if idx == 3 {
        "\u{1b}[33m"@
    } else if idx == 4 {
        "\u{1b}[34m"@
    } else if idx == 5 {
        "\u{1b}[35m"@
    } else if idx == 6 {
        "\u{1b}[37m"@
    } else {
        "\u{1b}[30m"@
    }
}

fn sgr_prefix_str(idx: u8) -> (r: &'static str)
    requires
        1 <= idx <= 7,
    ensures
        r@ == spec_sgr_prefix(idx),
{
    if idx == 1 {
        "\u{1b}[31m"
    } else if idx == 2 {
        "\u{1b}[32m"
    } else if idx == 3 {
        "\u{1b}[33m"
    } else if idx == 4 {
        "\u{1b}[34m"
    } else if idx == 5 {
        "\u{1b}[35m"
    } else if idx == 6 {
        "\u{1b}[37m"
    } else {
        "\u{1b}[30m"
    }
}

/// `text` under color `color`: unchanged when empty, or when an indexed
/// theme maps it to the default or an unrecognized index; otherwise wrapped
/// in the color's escape sequence and a reset.
pub open spec fn spec_paint(indexed: bool, color: (u8, u8, u8), text: Seq<char>) -> Seq<char> {
    if text.len() == 0 {
        Seq::empty()
    } else if indexed {
        if color.0 == 0 || color.0 > 7 {
            text
        } else {
            spec_sgr_prefix(color.0) + text + spec_reset()
        }
    } else {
        "\u{1b}[38;2;"@ + spec_u8_dec(color.0) + ";"@ + spec_u8_dec(color.1) + ";"@ + spec_u8_dec(
            color.2,
        ) + "m"@ + text + spec_reset()
    }
}

/// Paints `text` with `color`.
fn paint(indexed: bool, color: (u8, u8, u8), text: &str) -> (r: String)
    ensures
        r@ == spec_paint(indexed, color, text@),
{
    if text.is_empty() {
        let r = String::new();
        proof {
            assert(r@ =~= spec_paint(indexed, color, text@));
        }
        return r;
    }
    if indexed {
        if color.0 == 0 || color.0 > 7 {
            String::from_str(text)
        } else {
            let mut out = String::from_str(sgr_prefix_str(color.0));
            out.append(text);
            out.append("\u{1b}[0m");
            proof {
                assert(out@ =~= spec_paint(indexed, color, text@));
            }
            out
        }
    } else {
        let mut out = String::from_str("\u{1b}[38;2;");
        append_u8_dec(&mut out, color.0);
        out.append(";");
        append_u8_dec(&mut out, color.1);
        out.append(";");
        append_u8_dec(&mut out, color.2);
        out.append("m");
        out.append(text);
        out.append("\u{1b}[0m");
        proof {
            assert(out@ =~= spec_paint(indexed, color, text@));
        }
        out
    }
}

/// `s` with every newline removed: what a single line offers for styling.
pub open spec fn spec_remove_newlines(s: Seq<char>) -> Seq<char>
    decreases s.len(),
{
    if s.len() == 0 {
        Seq::empty()
    } else if s[0] == '\n' {
        spec_remove_newlines(s.drop_first())
    } else {
        seq![s[0]] + spec_remove_newlines(s.drop_first())
    }
}

fn remove_newlines(s: &str) -> (r: String)
    ensures
        r@ == spec_remove_newlines(s@),
{
    let n: usize = s.unicode_len();
    let mut r = String::new();
    let mut pos: usize = 0;
    proof {
        assert(s@.skip(0) =~= s@);
        assert(r@ =~= Seq::<char>::empty());
        assert(Seq::<char>::empty() + spec_remove_newlines(s@) =~= spec_remove_newlines(s@));
    }
    while pos < n
        invariant
            pos <= n,
            n == s@.len(),
            spec_remove_newlines(s@) == r@ + spec_remove_newlines(s@.skip(pos as int)),
        decreases n - pos,
    {
        let ghost u = s@.skip(pos as int);
        let ghost pre = r@;
        let c = s.get_char(pos);
        proof {
            assert(u[0] == s@[pos as int]);
            assert(u.drop_first() =~= s@.skip(pos + 1));
        }
        if c != '\n' {
            let seg = s.substring_char(pos, pos + 1);
            r.append(seg);
            proof {
                assert(seg@ =~= seq![u[0]]);
                assert(pre + (seq![u[0]] + spec_remove_newlines(u.drop_first())) =~= (pre + seq![
                    u[0],
                ]) + spec_remove_newlines(u.drop_first()));
            }
        }
        pos = pos + 1;
    }
    proof {
        assert(spec_remove_newlines(s@.skip(n as int)) =~= Seq::<char>::empty());
        assert(r@ =~= r@ + Seq::<char>::empty());
    }
    r
}

/// Length of the run of non-backtick characters at the start of `s`.
pub open spec fn spec_tick_free_len(s: Seq<char>) -> nat
    decreases s.len(),
{
    if s.len() == 0 || s[0] == '`' {
        0
    } else {
        1 + spec_tick_free_len(s.drop_first())
    }
}

proof fn lemma_tick_free_len_le(s: Seq<char>)
    ensures
        spec_tick_free_len(s) <= s.len(),
    decreases s.len(),
{
    if s.len() > 0 && s[0] != '`' {
        lemma_tick_free_len_le(s.drop_first());
    }
}

/// Length of the inline span at the start of `s`: a backtick-code span runs
/// from its opening backtick through its closing one — or to the end when
/// left unterminated — and a plain span runs to the next backtick.
pub open spec fn spec_span_len(s: Seq<char>) -> nat {
    if s.len() == 0 {
        0
    } else if s[0] == '`' {
        if 1 + spec_tick_free_len(s.skip(1)) < s.len() {
            2 + spec_tick_free_len(s.skip(1))
        } else {
            s.len()
        }
    } else {
        spec_tick_free_len(s)
    }
}

proof fn lemma_span_len_bounds(s: Seq<char>)
    requires
        s.len() > 0,
    ensures
        1 <= spec_span_len(s) <= s.len(),
{
    if s[0] == '`' {
        lemma_tick_free_len_le(s.skip(1));
    } else {
        lemma_tick_free_len_le(s);
        assert(spec_tick_free_len(s) == 1 + spec_tick_free_len(s.drop_first()));
    }
}

/// A plain line styled span by span: backtick-code spans take the code
/// color, everything else the text color.
pub open spec fn spec_inline(th: ThemeView, s: Seq<char>) -> Seq<char>
    decreases s.len(),
    via spec_inline_decreases
{
    if s.len() == 0 {
        Seq::empty()
    } else if s[0] == '`' {
        spec_paint(th.indexed, th.code, s.take(spec_span_len(s) as int)) + spec_inline(
            th,
            s.skip(spec_span_len(s) as int),
        )
    } else {
        spec_paint(th.indexed, th.text, s.take(spec_span_len(s) as int)) + spec_inline(
            th,
            s.skip(spec_span_len(s) as int),
        )
    }
}

#[via_fn]
proof fn spec_inline_decreases(th: ThemeView, s: Seq<char>) {
    if s.len() > 0 {
        lemma_span_len_bounds(s);
    }
}

/// A fence line — its trimmed text starts with three backticks — toggles
/// the code block; other lines leave it as it stands.
pub open spec fn spec_next_state(in_code: bool, line: Seq<char>) -> bool {
    if spec_prefix("```"@, spec_trim(line)) {
        !in_code
    } else {
        in_code
    }
}

/// One line styled: newlines are stripped first; a fence line and every
/// line inside a code block take the code color whole; a heading line — its
/// trimmed text starts with a hash — takes the heading color whole; any
/// other line is styled span by span.
pub open spec fn spec_highlight_line(th: ThemeView, in_code: bool, line: Seq<char>) -> Seq<char> {
    let s = spec_remove_newlines(line);
    let t = spec_trim(line);
    if spec_prefix("```"@, t) || in_code {
        spec_paint(th.indexed, th.code, s)
    } else if t.len() > 0 && t[0] == '#' {
        spec_paint(th.indexed, th.heading, s)
    } else {
        spec_inline(th, s)
    }
}

/// The stateful highlighter: a theme plus whether the lines seen so far
/// have left an open code block.
pub struct Highlighter {
    theme: Theme,
    in_code_block: bool,
}

/// The mathematical image of a highlighter.
pub struct HighlighterView {
    pub theme: ThemeView,
    pub in_code: bool,
}

impl View for Highlighter {
    type V = HighlighterView;

    closed spec fn view(&self) -> HighlighterView {
        HighlighterView { theme: self.theme@, in_code: self.in_code_block }
    }
}

impl Highlighter {
    /// A fresh highlighter for the named theme, or nothing when the name is
    /// unknown.
    pub fn new(theme_name: &str) -> (r: Option<Highlighter>)
        ensures
            match r {
                Some(h) => spec_theme_known(theme_name@) && h@.theme == spec_theme_of(theme_name@)
                    && h@.in_code == false,
                None => !spec_theme_known(theme_name@),
            },
    {
        let known = str_eq(theme_name, "ansi") || str_eq(theme_name, "base16") || str_eq(
            theme_name,
            "base16-256",
        ) || str_eq(theme_name, "rgb");
        if !known {
            return None;
        }
        let theme = if str_eq(theme_name, "rgb") {
            Theme {
                name: String::from_str(theme_name),
                indexed: false,
                heading: (255, 215, 0),
                code: (0, 215, 135),
                text: (230, 230, 230),
            }
        } else {
            Theme {
                name: String::from_str(theme_name),
                indexed: true,
                heading: (4, 0, 0),
                code: (2, 0, 0),
                text: (0, 0, 0),
            }
        };
        Some(Highlighter { theme, in_code_block: false })
    }

    /// Styles one line and advances the grammar state: fence lines toggle
    /// the code block for the lines after them. Lines must be fed in order,
    /// each exactly once.
    pub fn highlight_line(&mut self, line: &str) -> (r: String)
        ensures
            final(self)@.theme == old(self)@.theme,
            final(self)@.in_code == spec_next_state(old(self)@.in_code, line@),
            r@ == spec_highlight_line(old(self)@.theme, old(self)@.in_code, line@),
    {
        let trimmed = trim_spaces(line);
        let fence = has_prefix(trimmed.as_str(), "```");
        let heading = !trimmed.as_str().is_empty() && trimmed.as_str().get_char(0) == '#';
        let s = remove_newlines(line);
        let was = self.in_code_block;
        if fence {
            self.in_code_block = !self.in_code_block;
        }
        if fence || was {
            paint(self.theme.indexed, self.theme.code, s.as_str())
        } else if heading {
            paint(self.theme.indexed, self.theme.heading, s.as_str())
        } else {
            inline_highlight(&self.theme, s.as_str())
        }
    }
}

/// Styles a plain line span by span.
#[verifier::rlimit(50)]
fn inline_highlight(theme: &Theme, s: &str) -> (r: String)
    ensures
        r@ == spec_inline(theme@, s@),
{
    let n: usize = s.unicode_len();
    let mut r = String::new();
    let mut pos: usize = 0;
    proof {
        assert(s@.skip(0) =~= s@);
        assert(r@ =~= Seq::<char>::empty());
        assert(Seq::<char>::empty() + spec_inline(theme@, s@) =~= spec_inline(theme@, s@));
    }
    while pos < n
        invariant
            pos <= n,
            n == s@.len(),
            spec_inline(theme@, s@) == r@ + spec_inline(theme@, s@.skip(pos as int)),
        decreases n - pos,
    {
        let ghost u = s@.skip(pos as int);
        let ghost pre = r@;
        let c = s.get_char(pos);
        proof {
            assert(u[0] == s@[pos as int]);
        }
        let is_code = c == '`';
        let mut e: usize = pos + 1;
        while e < n && s.get_char(e) != '`'
            invariant
                pos + 1 <= e <= n,
                n == s@.len(),
                forall|j: int| pos + 1 <= j < e ==> s@[j] != '`',
            decreases n - e,
        {
            e = e + 1;
        }
        let ghost stop = e as int;
        let endpos: usize = if is_code {
            if e < n {
                e + 1
            } else {
                e
            }
        } else {
            e
        };
        let ghost k = spec_span_len(u);
        proof {
            lemma_tick_free_at(s@, pos + 1, stop);
            assert(u.skip(1) =~= s@.skip(pos + 1));
            assert(spec_tick_free_len(u.skip(1)) == stop - pos - 1);
            if !is_code {
                assert(u.drop_first() =~= u.skip(1));
                assert(spec_tick_free_len(u) == 1 + spec_tick_free_len(u.drop_first()));
            }
            assert(k == endpos - pos);
            lemma_span_len_bounds(u);
            assert(u.take(k as int) =~= s@.subrange(pos as int, endpos as int));
            assert(u.skip(k as int) =~= s@.skip(endpos as int));
        }
        let span = s.substring_char(pos, endpos);
        let color = if is_code {
            theme.code
        } else {
            theme.text
        };
        let painted = paint(theme.indexed, color, span);
        r.append(painted.as_str());
        proof {
            let ghost target = spec_paint(
                theme@.indexed,
                if is_code {
                    theme@.code
                } else {
                    theme@.text
                },
                u.take(k as int),
            );
            assert(spec_inline(theme@, u) == target + spec_inline(theme@, u.skip(k as int)));
            assert(r@ == pre + target);
            assert(pre + (target + spec_inline(theme@, u.skip(k as int))) =~= (pre + target)
                + spec_inline(theme@, u.skip(k as int)));
        }
        pos = endpos;
    }
    proof {
        assert(spec_inline(theme@, s@.skip(n as int)) =~= Seq::<char>::empty());
        assert(r@ =~= r@ + Seq::<char>::empty());
    }
    r
}

/// Each indexed-color prefix, and the reset, is one whole control sequence.
proof fn lemma_sgr_prefix_shape(p: Seq<char>)
    requires
        (exists|idx: u8| 1 <= idx <= 7 && p == spec_sgr_prefix(idx)) || p == spec_reset(),
    ensures
        p.len() >= 3,
        p[0] == esc_char(),
        p[1] == '[',
        forall|j: int| 2 <= j < p.len() - 1 ==> !is_csi_final(p[j]),
        is_csi_final(p[p.len() - 1]),
{
    reveal_strlit("\u{1b}[31m");
    reveal_strlit("\u{1b}[32m");
    reveal_strlit("\u{1b}[33m");
    reveal_strlit("\u{1b}[34m");
    reveal_strlit("\u{1b}[35m");
    reveal_strlit("\u{1b}[37m");
    reveal_strlit("\u{1b}[30m");
    reveal_strlit("\u{1b}[0m");
    if p == spec_reset() {
        assert(p =~= seq!['\u{1b}', '[', '0', 'm']);
    } else {
        let idx = choose|idx: u8| 1 <= idx <= 7 && p == spec_sgr_prefix(idx);
        if idx == 1 {
            assert(p =~= seq!['\u{1b}', '[', '3', '1', 'm']);
        } else if idx == 2 {
            assert(p =~= seq!['\u{1b}', '[', '3', '2', 'm']);
        } else if idx == 3 {
            assert(p =~= seq!['\u{1b}', '[', '3', '3', 'm']);
        } else if idx == 4 {
            assert(p =~= seq!['\u{1b}', '[', '3', '4', 'm']);
        } else if idx == 5 {
            assert(p =~= seq!['\u{1b}', '[', '3', '5', 'm']);
        } else if idx == 6 {
            assert(p =~= seq!['\u{1b}', '[', '3', '7', 'm']);
        } else {
            assert(p =~= seq!['\u{1b}', '[', '3', '0', 'm']);
        }
    }
}

/// Under an indexed theme, painting adds only escape sequences: stripping a
/// painted span followed by anything gives the span's text back.
proof fn lemma_strip_paint_concat(color: (u8, u8, u8), text: Seq<char>, rest: Seq<char>)
    requires
        has_no_escape(text),
    ensures
        spec_strip_ansi(spec_paint(true, color, text) + rest) == text + spec_strip_ansi(rest),
{
    if text.len() == 0 {
        assert(spec_paint(true, color, text) + rest =~= rest);
        assert(text + spec_strip_ansi(rest) =~= spec_strip_ansi(rest));
    } else if color.0 == 0 || color.0 > 7 {
        lemma_strip_esc_free_prefix(text, rest);
    } else {
        let pre = spec_sgr_prefix(color.0);
        let reset = spec_reset();
        lemma_sgr_prefix_shape(pre);
        lemma_sgr_prefix_shape(reset);
        assert(spec_paint(true, color, text) + rest =~= pre + (text + (reset + rest)));
        lemma_strip_skips_csi(pre, text + (reset + rest));
        lemma_strip_esc_free_prefix(text, reset + rest);
        lemma_strip_skips_csi(reset, rest);
    }
}

/// Under an indexed theme, span styling never changes the screen content.
proof fn lemma_strip_inline(th: ThemeView, s: Seq<char>)
    requires
        th.indexed,
        has_no_escape(s),
    ensures
        spec_strip_ansi(spec_inline(th, s)) == s,
    decreases s.len(),
{
    if s.len() == 0 {
        assert(spec_strip_ansi(spec_inline(th, s)) =~= s);
    } else {
        lemma_span_len_bounds(s);
        let k = spec_span_len(s) as int;
        assert forall|j: int| 0 <= j < s.take(k).len() implies s.take(k)[j] != esc_char() by {
            assert(s.take(k)[j] == s[j]);
        }
        assert forall|j: int| 0 <= j < s.skip(k).len() implies s.skip(k)[j] != esc_char() by {
            assert(s.skip(k)[j] == s[j + k]);
        }
        lemma_strip_inline(th, s.skip(k));
        let color = if s[0] == '`' {
            th.code
        } else {
            th.text
        };
        assert(spec_inline(th, s) == spec_paint(true, color, s.take(k)) + spec_inline(
            th,
            s.skip(k),
        ));
        lemma_strip_paint_concat(color, s.take(k), spec_inline(th, s.skip(k)));
        assert(s.take(k) + s.skip(k) =~= s);
    }
}

/// A line keeps its characters when its newlines go.
proof fn lemma_remove_newlines_no_esc(line: Seq<char>)
    requires
        has_no_escape(line),
    ensures
        has_no_escape(spec_remove_newlines(line)),
    decreases line.len(),
{
    if line.len() > 0 {
        assert forall|j: int| 0 <= j < line.drop_first().len() implies line.drop_first()[j]
            != esc_char() by {
            assert(line.drop_first()[j] == line[j + 1]);
        }
        lemma_remove_newlines_no_esc(line.drop_first());
        if line[0] != '\n' {
            let r = seq![line[0]] + spec_remove_newlines(line.drop_first());
            assert forall|j: int| 0 <= j < r.len() implies r[j] != esc_char() by {
                if j > 0 {
                    assert(r[j] == spec_remove_newlines(line.drop_first())[j - 1]);
                }
            }
        }
    }
}

/// Highlighting fallback, made exact for the indexed theme family: styling
/// a line never raises and never touches its screen content — stripping the
/// styled line gives back the line, minus its newlines, whatever grammar
/// state the highlighter is in.
pub proof fn lemma_highlight_preserves_content(th: ThemeView, in_code: bool, line: Seq<char>)
    requires
        th.indexed,
        has_no_escape(line),
    ensures
        spec_strip_ansi(spec_highlight_line(th, in_code, line)) == spec_remove_newlines(line),
{
    let s = spec_remove_newlines(line);
    let t = spec_trim(line);
    lemma_remove_newlines_no_esc(line);
    if spec_prefix("```"@, t) || in_code {
        lemma_strip_paint_concat(th.code, s, Seq::empty());
        assert(spec_paint(true, th.code, s) + Seq::<char>::empty() =~= spec_paint(
            true,
            th.code,
            s,
        ));
        assert(spec_strip_ansi(Seq::<char>::empty()) =~= Seq::<char>::empty());
        assert(s + Seq::<char>::empty() =~= s);
    } else if t.len() > 0 && t[0] == '#' {
        lemma_strip_paint_concat(th.heading, s, Seq::empty());
        assert(spec_paint(true, th.heading, s) + Seq::<char>::empty() =~= spec_paint(
            true,
            th.heading,
            s,
        ));
        assert(spec_strip_ansi(Seq::<char>::empty()) =~= Seq::<char>::empty());
        assert(s + Seq::<char>::empty() =~= s);
    } else {
        lemma_strip_inline(th, s);
    }
}

/// The run of non-backtick characters starting at `from` runs to `stop`.
proof fn lemma_tick_free_at(s: Seq<char>, from: int, stop: int)
    requires
        0 <= from <= stop <= s.len(),
        forall|j: int| from <= j < stop ==> s[j] != '`',
        stop == s.len() || s[stop] == '`',
    ensures
        spec_tick_free_len(s.skip(from)) == stop - from,
    decreases stop - from,
{
    let u = s.skip(from);
    if from == stop {
        if u.len() > 0 {
            assert(u[0] == s[from]);
        }
    } else {
        assert(u[0] == s[from]);
        lemma_tick_free_at(s, from + 1, stop);
        assert(u.drop_first() =~= s.skip(from + 1));
    }
}

} // verus!
