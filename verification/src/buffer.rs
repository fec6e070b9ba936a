//! Accumulates arbitrarily sized text fragments and yields complete,
//! newline-terminated lines, retaining an incomplete tail.

use vstd::prelude::*;

verus! {

/// True when `s` holds no newline character.
pub open spec fn has_no_newline(s: Seq<char>) -> bool {
    forall|i: int| 0 <= i < s.len() ==> s[i] != '\n'
}

/// True when `s` is one complete line: it ends with a newline and holds no
/// other newline.
pub open spec fn is_complete_line(s: Seq<char>) -> bool {
    &&& s.len() >= 1
    &&& s[s.len() - 1] == '\n'
    &&& has_no_newline(s.take(s.len() - 1))
}

/// Buffer for a streamed response: fragments go in through `append`,
/// complete lines come out through `get_line_with_ending`, and the final
/// unterminated tail comes out through `get_remaining`.
pub struct ResponseBuffer {
    buffer: String,
    appended: Ghost<Seq<char>>,
    yielded: Ghost<Seq<char>>,
}

impl ResponseBuffer {
    /// The text currently held back, waiting for its terminating newline.
    pub closed spec fn pending(&self) -> Seq<char> {
        self.buffer@
    }

    /// Everything ever handed to `append`, in order.
    pub closed spec fn appended(&self) -> Seq<char> {
        self.appended@
    }

    /// Everything ever handed back, popped lines and remainders, in order.
    pub closed spec fn yielded(&self) -> Seq<char> {
        self.yielded@
    }

    /// No text is ever dropped or duplicated: what came in is what went out
    /// followed by what is still pending.
    pub open spec fn wf(&self) -> bool {
        self.yielded() + self.pending() == self.appended()
    }

    pub fn new() -> (r: ResponseBuffer)
        ensures
            r.wf(),
            r.pending() == Seq::<char>::empty(),
            r.appended() == Seq::<char>::empty(),
            r.yielded() == Seq::<char>::empty(),
    {
        let r = ResponseBuffer {
            buffer: String::new(),
            appended: Ghost(Seq::empty()),
            yielded: Ghost(Seq::empty()),
        };
        proof {
            assert(r.yielded() + r.pending() =~= r.appended());
        }
        r
    }

    /// Appends a fragment to the pending tail. An empty fragment changes
    /// nothing.
    pub fn append(&mut self, chunk: &str)
        requires
            old(self).wf(),
        ensures
            final(self).wf(),
            final(self).pending() == old(self).pending() + chunk@,
            final(self).appended() == old(self).appended() + chunk@,
            final(self).yielded() == old(self).yielded(),
            chunk@.len() == 0 ==> final(self).pending() == old(self).pending()
                && final(self).appended() == old(self).appended(),
    {
        self.buffer.append(chunk);
        proof {
            self.appended@ = self.appended@ + chunk@;
            assert(self.yielded() + self.pending() =~= self.appended());
            if chunk@.len() == 0 {
                assert(old(self).pending() + chunk@ =~= old(self).pending());
                assert(old(self).appended() + chunk@ =~= old(self).appended());
            }
        }
    }

    /// If the pending tail holds a newline, removes and returns everything up
    /// to and including the first one; otherwise returns nothing and changes
    /// nothing.
    pub fn get_line_with_ending(&mut self) -> (r: Option<String>)
        requires
            old(self).wf(),
        ensures
            final(self).wf(),
            final(self).appended() == old(self).appended(),
            match r {
                Some(line) => {
                    &&& is_complete_line(line@)
                    &&& old(self).pending() == line@ + final(self).pending()
                    &&& final(self).yielded() == old(self).yielded() + line@
                },
                None => {
                    &&& *final(self) == *old(self)
                    &&& has_no_newline(old(self).pending())
                },
            },
    {
        let ghost s = self.buffer@;
        let n: usize = self.buffer.as_str().unicode_len();
        let mut i: usize = 0;
        while i < n && self.buffer.as_str().get_char(i) != '\n'
            invariant
                i <= n,
                n == s.len(),
                self.buffer@ == s,
                forall|j: int| 0 <= j < i ==> s[j] != '\n',
            decreases n - i,
        {
            i = i + 1;
        }
        if i == n {
            None
        } else {
            let line = String::from_str(self.buffer.as_str().substring_char(0, i + 1));
            let rest = String::from_str(self.buffer.as_str().substring_char(i + 1, n));
            self.buffer = rest;
            proof {
                self.yielded@ = self.yielded@ + line@;
                assert(s =~= s.subrange(0, i + 1) + s.subrange(i + 1, n as int));
                assert(line@.take(line@.len() - 1) =~= s.subrange(0, i as int));
                assert(self.yielded() + self.pending() =~= self.appended());
            }
            Some(line)
        }
    }

    /// If the pending tail is non-empty, returns and clears it; used once at
    /// end of stream to flush a final unterminated line.
    pub fn get_remaining(&mut self) -> (r: Option<String>)
        requires
            old(self).wf(),
        ensures
            final(self).wf(),
            final(self).appended() == old(self).appended(),
            final(self).pending() == Seq::<char>::empty(),
            match r {
                Some(rem) => {
                    &&& rem@ == old(self).pending()
                    &&& rem@.len() > 0
                    &&& final(self).yielded() == old(self).yielded() + rem@
                },
                None => {
                    &&& *final(self) == *old(self)
                    &&& old(self).pending().len() == 0
                },
            },
    {
        if self.buffer.as_str().is_empty() {
            proof {
                assert(self.pending() =~= Seq::<char>::empty());
            }
            None
        } else {
            let rem = self.buffer.clone();
            self.buffer = String::new();
            proof {
                self.yielded@ = self.yielded@ + rem@;
                assert(self.yielded() + self.pending() =~= self.appended());
            }
            Some(rem)
        }
    }
}

/// Line completeness: at every reachable state, the concatenation of all
/// values ever returned by `get_line_with_ending` and `get_remaining`,
/// followed by the still-pending tail, equals the concatenation of all
/// appended fragments exactly.
pub proof fn lemma_line_completeness(b: &ResponseBuffer)
    requires
        b.wf(),
    ensures
        b.yielded() + b.pending() == b.appended(),
{
}

} // verus!
