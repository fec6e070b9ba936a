//! The streaming renderer's state machine: chunks go in, complete lines come
//! out at once, the bare remainder comes out at the end of the stream, and
//! the full response text is accumulated for the caller.

use vstd::prelude::*;

use vstd::seq_lib::lemma_flatten_concat;

use crate::buffer::{has_no_newline, is_complete_line, ResponseBuffer};

verus! {

/// Where a rendering pass stands.
#[derive(Debug, PartialEq, Eq, Structural, Clone, Copy)]
pub enum RenderPhase {
    Streaming,
    Draining,
    Done,
}

/// Length of the first line of `t`: up to and including the first newline,
/// or all of `t` when no newline remains.
pub open spec fn spec_line_len(t: Seq<char>) -> nat
    decreases t.len(),
{
    if t.len() == 0 {
        0
    } else if t[0] == '\n' {
        1
    } else {
        1 + spec_line_len(t.drop_first())
    }
}

/// The first line of a non-empty text is non-empty and no longer than the
/// text.
pub proof fn lemma_line_len_bounds(t: Seq<char>)
    ensures
        t.len() > 0 ==> 1 <= spec_line_len(t) <= t.len(),
    decreases t.len(),
{
    if t.len() > 0 {
        if t[0] == '\n' {
            assert(spec_line_len(t) == 1);
        } else {
            lemma_line_len_bounds(t.drop_first());
            assert(spec_line_len(t) == 1 + spec_line_len(t.drop_first()));
            assert(t.drop_first().len() == t.len() - 1);
            if t.drop_first().len() == 0 {
                assert(spec_line_len(t.drop_first()) == 0);
            }
        }
    }
}

/// The lines of `t`, in order: each up to and including its newline, the
/// last possibly left bare when `t` does not end with one.
pub open spec fn spec_lines_of(t: Seq<char>) -> Seq<Seq<char>>
    decreases t.len(),
    via spec_lines_of_decreases
{
    if t.len() == 0 {
        Seq::empty()
    } else {
        seq![t.take(spec_line_len(t) as int)] + spec_lines_of(t.skip(spec_line_len(t) as int))
    }
}

#[via_fn]
proof fn spec_lines_of_decreases(t: Seq<char>) {
    lemma_line_len_bounds(t);
}

/// The shape the emitted lines always have: every line is complete, except
/// that once the stream has been drained the last may be a bare, non-empty
/// remainder without a newline.
pub open spec fn emitted_shape(lines: Seq<Seq<char>>, drained: bool) -> bool {
    forall|i: int|
        0 <= i < lines.len() ==> is_complete_line(#[trigger] lines[i]) || (drained && i
            == lines.len() - 1 && lines[i].len() > 0 && has_no_newline(lines[i]))
}

/// Consumes a streamed response chunk by chunk, handing out each completed
/// line as soon as its newline arrives and the unterminated remainder once
/// the stream ends.
pub struct StreamRenderer {
    buffer: ResponseBuffer,
    full_response: String,
    phase: RenderPhase,
    emitted: Ghost<Seq<Seq<char>>>,
}

impl StreamRenderer {
    /// Everything consumed from the stream so far.
    pub closed spec fn consumed(&self) -> Seq<char> {
        self.full_response@
    }

    /// Every line handed out so far, in order.
    pub closed spec fn lines_out(&self) -> Seq<Seq<char>> {
        self.emitted@
    }

    /// The text still waiting for its newline.
    pub closed spec fn pending(&self) -> Seq<char> {
        self.buffer.pending()
    }

    pub closed spec fn phase(&self) -> RenderPhase {
        self.phase
    }

    pub open spec fn is_streaming(&self) -> bool {
        self.phase() == RenderPhase::Streaming
    }

    pub open spec fn is_done(&self) -> bool {
        self.phase() == RenderPhase::Done
    }

    /// The renderer's invariant: no text is lost or duplicated — what was
    /// consumed is exactly what was handed out followed by what is pending —
    /// every line handed out is complete (but for a bare final remainder),
    /// pending text holds no newline, and nothing is pending once done.
    pub closed spec fn wf(&self) -> bool {
        &&& self.buffer.wf()
        &&& self.buffer.appended() == self.consumed()
        &&& self.buffer.yielded() == self.lines_out().flatten()
        &&& has_no_newline(self.buffer.pending())
        &&& match self.phase {
            RenderPhase::Streaming => emitted_shape(self.lines_out(), false),
            RenderPhase::Draining => emitted_shape(self.lines_out(), true),
            RenderPhase::Done => emitted_shape(self.lines_out(), true) && self.pending().len()
                == 0,
        }
    }

    /// Everything handed out so far followed by the pending text equals
    /// everything consumed.
    pub proof fn lemma_conservation(&self)
        requires
            self.wf(),
        ensures
            self.lines_out().flatten() + self.pending() == self.consumed(),
    {
    }

    pub fn new() -> (r: StreamRenderer)
        ensures
            r.wf(),
            r.is_streaming(),
            r.consumed() == Seq::<char>::empty(),
            r.lines_out() == Seq::<Seq<char>>::empty(),
    {
        let r = StreamRenderer {
            buffer: ResponseBuffer::new(),
            full_response: String::new(),
            phase: RenderPhase::Streaming,
            emitted: Ghost(Seq::empty()),
        };
        proof {
            assert(r.lines_out().flatten() =~= Seq::<char>::empty());
        }
        r
    }

    /// Takes one chunk from the stream: accumulates it and returns every
    /// line completed by it, in order. An empty chunk yields no line.
    pub fn on_chunk(&mut self, chunk: &str) -> (lines: Vec<String>)
        requires
            old(self).wf(),
            old(self).is_streaming(),
        ensures
            final(self).wf(),
            final(self).is_streaming(),
            final(self).consumed() == old(self).consumed() + chunk@,
            final(self).lines_out() == old(self).lines_out() + lines.deep_view(),
            forall|i: int|
                0 <= i < lines.deep_view().len() ==> is_complete_line(
                    #[trigger] lines.deep_view()[i],
                ),
            chunk@.len() == 0 ==> lines@.len() == 0 && final(self).consumed() == old(self).consumed()
                && final(self).lines_out() == old(self).lines_out(),
    {
        self.full_response.append(chunk);
        self.buffer.append(chunk);
        proof {
            if chunk@.len() == 0 {
                assert(self.buffer.pending() =~= old(self).pending());
            }
        }
        let ghost yielded0 = self.buffer.yielded();
        let mut lines: Vec<String> = Vec::new();
        loop
            invariant
                old(self).wf(),
                self.buffer.wf(),
                self.phase == RenderPhase::Streaming,
                self.emitted@ == old(self).emitted@,
                self.full_response@ == old(self).consumed() + chunk@,
                self.buffer.appended() == self.full_response@,
                self.buffer.yielded() == yielded0 + lines.deep_view().flatten(),
                yielded0 == old(self).lines_out().flatten(),
                forall|i: int|
                    0 <= i < lines.deep_view().len() ==> is_complete_line(
                        #[trigger] lines.deep_view()[i],
                    ),
                chunk@.len() == 0 ==> lines@.len() == 0 && self.buffer.pending() == old(
                    self,
                ).pending(),
            ensures
                has_no_newline(self.buffer.pending()),
            decreases self.buffer.pending().len(),
        {
            let ghost lines_pre = lines.deep_view();
            match self.buffer.get_line_with_ending() {
                None => { break ; },
                Some(line) => {
                    proof {
                        if chunk@.len() == 0 {
                            let p = old(self).pending();
                            assert(p == line@ + self.buffer.pending());
                            assert(line@[line@.len() - 1] == '\n');
                            assert(p[line@.len() - 1] == line@[line@.len() - 1]);
                            assert(p[line@.len() - 1] != '\n');
                            assert(false);
                        }
                    }
                    lines.push(line);
                    proof {
                        assert(lines.deep_view() =~= lines_pre.push(lines@.last()@));
                        lines_pre.lemma_flatten_push(lines@.last()@);
                        assert(yielded0 + lines_pre.flatten() + lines@.last()@ =~= yielded0 + (
                        lines_pre.flatten() + lines@.last()@));
                    }
                },
            }
        }
        proof {
            self.emitted@ = self.emitted@ + lines.deep_view();
            lemma_flatten_concat(old(self).lines_out(), lines.deep_view());
            assert(emitted_shape(self.lines_out(), false));
            if chunk@.len() == 0 {
                assert(old(self).consumed() + chunk@ =~= old(self).consumed());
                assert(old(self).lines_out() + lines.deep_view() =~= old(self).lines_out());
            }
        }
        lines
    }

    /// Ends the stream: drains and returns the unterminated remainder, if
    /// any, and moves to `Done`. What has been handed out then decomposes
    /// the consumed text into its lines exactly.
    pub fn finish(&mut self) -> (rem: Option<String>)
        requires
            old(self).wf(),
            old(self).is_streaming(),
        ensures
            final(self).wf(),
            final(self).is_done(),
            final(self).consumed() == old(self).consumed(),
            match rem {
                Some(r) => {
                    &&& r@ == old(self).pending()
                    &&& r@.len() > 0
                    &&& final(self).lines_out() == old(self).lines_out().push(r@)
                },
                None => {
                    &&& old(self).pending().len() == 0
                    &&& final(self).lines_out() == old(self).lines_out()
                },
            },
            final(self).lines_out() == spec_lines_of(final(self).consumed()),
    {
        self.phase = RenderPhase::Draining;
        let rem = self.buffer.get_remaining();
        match &rem {
            Some(r) => {
                proof {
                    self.emitted@ = self.emitted@.push(r@);
                    self.emitted@.drop_last().lemma_flatten_push(r@);
                    assert(self.emitted@.drop_last() =~= old(self).emitted@);
                    assert(emitted_shape(self.lines_out(), true));
                }
            },
            None => {},
        }
        self.phase = RenderPhase::Done;
        proof {
            assert(self.buffer.yielded() == self.lines_out().flatten());
            assert(self.lines_out().flatten() + self.pending() =~= self.lines_out().flatten());
            lemma_lines_decomposition(self.lines_out(), self.consumed());
        }
        rem
    }

    /// The full accumulated response text.
    pub fn response(&self) -> (r: &String)
        ensures
            r@ == self.consumed(),
    {
        &self.full_response
    }
}

/// Split-boundary invariance: once two renderers have finished, equal
/// consumed texts mean equal emitted lines, however differently the two
/// streams were chunked.
pub proof fn lemma_split_boundary_invariance(a: &StreamRenderer, b: &StreamRenderer)
    requires
        a.wf(),
        b.wf(),
        a.is_done(),
        b.is_done(),
        a.consumed() == b.consumed(),
    ensures
        a.lines_out() == b.lines_out(),
{
    a.lemma_conservation();
    b.lemma_conservation();
    assert(a.lines_out().flatten() + a.pending() =~= a.lines_out().flatten());
    assert(b.lines_out().flatten() + b.pending() =~= b.lines_out().flatten());
    lemma_lines_decomposition(a.lines_out(), a.consumed());
    lemma_lines_decomposition(b.lines_out(), b.consumed());
}

/// A sequence of complete lines, the last possibly bare, that concatenates
/// to `t` is exactly the line decomposition of `t`.
proof fn lemma_lines_decomposition(lines: Seq<Seq<char>>, t: Seq<char>)
    requires
        lines.flatten() == t,
        forall|i: int|
            0 <= i < lines.len() ==> is_complete_line(#[trigger] lines[i]) || (i == lines.len() - 1
                && lines[i].len() > 0 && has_no_newline(lines[i])),
    ensures
        lines == spec_lines_of(t),
    decreases lines.len(),
{
    if lines.len() == 0 {
        assert(lines =~= spec_lines_of(t));
    } else {
        let head = lines[0];
        let rest = lines.drop_first();
        assert(lines.flatten() == head + rest.flatten());
        if is_complete_line(head) {
            lemma_line_len_of_concat(head, rest.flatten());
            assert(t.take(head.len() as int) =~= head);
            assert(t.skip(head.len() as int) =~= rest.flatten());
            assert forall|i: int|
                0 <= i < rest.len() implies is_complete_line(#[trigger] rest[i]) || (i
                == rest.len() - 1 && rest[i].len() > 0 && has_no_newline(rest[i])) by {
                assert(rest[i] == lines[i + 1]);
            }
            lemma_lines_decomposition(rest, rest.flatten());
            assert(lines =~= seq![head] + rest);
            assert(lines =~= spec_lines_of(t));
        } else {
            assert(lines.len() == 1);
            assert(rest.flatten() =~= Seq::<char>::empty());
            assert(t =~= head);
            lemma_line_len_no_newline(t);
            assert(spec_lines_of(t.skip(t.len() as int)) =~= Seq::<Seq<char>>::empty());
            assert(t.take(t.len() as int) =~= t);
            assert(lines =~= spec_lines_of(t));
        }
    }
}

/// The first line of `head + rest` is `head` when `head` is complete.
pub(crate) proof fn lemma_line_len_of_concat(head: Seq<char>, rest: Seq<char>)
    requires
        is_complete_line(head),
    ensures
        spec_line_len(head + rest) == head.len(),
    decreases head.len(),
{
    let t = head + rest;
    if head.len() == 1 {
        assert(t[0] == '\n');
    } else {
        assert(head.take(head.len() - 1)[0] == head[0]);
        assert(t[0] == head[0]);
        assert(t[0] != '\n');
        let h2 = head.drop_first();
        assert forall|j: int| 0 <= j < h2.len() - 1 implies h2[j] != '\n' by {
            assert(h2[j] == head.take(head.len() - 1)[j + 1]);
        }
        assert(h2[h2.len() - 1] == '\n');
        assert(is_complete_line(h2));
        lemma_line_len_of_concat(h2, rest);
        assert(t.drop_first() =~= h2 + rest);
    }
}

/// A text with no newline is one single bare line.
pub(crate) proof fn lemma_line_len_no_newline(t: Seq<char>)
    requires
        has_no_newline(t),
    ensures
        spec_line_len(t) == t.len(),
    decreases t.len(),
{
    if t.len() > 0 {
        lemma_line_len_no_newline(t.drop_first());
    }
}

} // verus!
