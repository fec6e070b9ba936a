//! Rendering one completed line: highlight it, wrap it to the width, put
//! its line terminator back, and plan its paced output.

use vstd::prelude::*;

use crate::highlight::{spec_highlight_line, spec_next_state, Highlighter, ThemeView};
use crate::pace::{pace_plan, spec_pace_plan, PacedUnit};
use crate::stream::{lemma_split_boundary_invariance, StreamRenderer};
use crate::wrap::{spec_wrap, wrap_line};

verus! {

/// The rendered form of one line: its styled text wrapped to `width`, with
/// the newline it ended in reattached after wrapping.
pub open spec fn spec_render_line(th: ThemeView, in_code: bool, line: Seq<char>, width: int) -> Seq<
    char,
> {
    let styled = spec_highlight_line(th, in_code, line);
    let wrapped = spec_wrap(styled, width);
    if line.len() > 0 && line[line.len() - 1] == '\n' {
        wrapped + seq!['\n']
    } else {
        wrapped
    }
}

/// Renders one line: styles it with the highlighter — advancing its grammar
/// state — wraps it, and reattaches its terminator.
pub fn render_line(line: &str, highlighter: &mut Highlighter, width: u32) -> (r: String)
    ensures
        final(highlighter)@.theme == old(highlighter)@.theme,
        final(highlighter)@.in_code == spec_next_state(old(highlighter)@.in_code, line@),
        r@ == spec_render_line(
            old(highlighter)@.theme,
            old(highlighter)@.in_code,
            line@,
            width as int,
        ),
{
    let styled = highlighter.highlight_line(line);
    let mut out = wrap_line(styled.as_str(), width);
    let n: usize = line.unicode_len();
    if n > 0 && line.get_char(n - 1) == '\n' {
        out.append("\n");
        proof {
            reveal_strlit("\n");
            assert("\n"@ =~= seq!['\n']);
        }
    }
    out
}

/// The whole screen content one rendering pass paints: each line rendered
/// in order, the highlighter's grammar state folding through them.
pub open spec fn spec_render_lines(
    th: ThemeView,
    in_code: bool,
    lines: Seq<Seq<char>>,
    width: int,
) -> Seq<char>
    decreases lines.len(),
{
    if lines.len() == 0 {
        Seq::empty()
    } else {
        spec_render_line(th, in_code, lines[0], width) + spec_render_lines(
            th,
            spec_next_state(in_code, lines[0]),
            lines.drop_first(),
            width,
        )
    }
}

/// Split-boundary invariance, carried to the screen: once two streams have
/// finished, equal consumed texts paint the same final screen content under
/// any theme and width, however differently the two streams were chunked.
pub proof fn lemma_screen_content_invariance(
    a: &StreamRenderer,
    b: &StreamRenderer,
    th: ThemeView,
    width: int,
)
    requires
        a.wf(),
        b.wf(),
        a.is_done(),
        b.is_done(),
        a.consumed() == b.consumed(),
    ensures
        spec_render_lines(th, false, a.lines_out(), width) == spec_render_lines(
            th,
            false,
            b.lines_out(),
            width,
        ),
{
    lemma_split_boundary_invariance(a, b);
}

/// Renders one line and plans its paced emission: every escape sequence one
/// undelayed unit, every visible character one delayed unit.
pub fn render_line_units(line: &str, highlighter: &mut Highlighter, width: u32) -> (r: Vec<
    PacedUnit,
>)
    ensures
        final(highlighter)@.theme == old(highlighter)@.theme,
        final(highlighter)@.in_code == spec_next_state(old(highlighter)@.in_code, line@),
        r.deep_view() == spec_pace_plan(
            spec_render_line(
                old(highlighter)@.theme,
                old(highlighter)@.in_code,
                line@,
                width as int,
            ),
        ),
{
    let rendered = render_line(line, highlighter, width);
    pace_plan(rendered.as_str())
}

} // verus!
