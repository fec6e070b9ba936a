//! The conversation transcript: role-tagged messages in order.

use vstd::prelude::*;

verus! {

/// Who spoke a message.
#[derive(Debug, PartialEq, Eq, Structural, Clone, Copy)]
pub enum Role {
    System,
    User,
    Assistant,
}

/// One role-tagged message.
pub struct Message {
    pub role: Role,
    pub content: String,
}

/// The mathematical image of a message.
pub struct MessageView {
    pub role: Role,
    pub content: Seq<char>,
}

impl View for Message {
    type V = MessageView;

    open spec fn view(&self) -> MessageView {
        MessageView { role: self.role, content: self.content@ }
    }
}

impl DeepView for Message {
    type V = MessageView;

    open spec fn deep_view(&self) -> MessageView {
        self@
    }
}

impl Message {
    pub fn new_system(content: String) -> (r: Message)
        ensures
            r@.role == Role::System,
            r@.content == content@,
    {
        Message { role: Role::System, content }
    }

    pub fn new_user(content: String) -> (r: Message)
        ensures
            r@.role == Role::User,
            r@.content == content@,
    {
        Message { role: Role::User, content }
    }

    pub fn new_assistant(content: String) -> (r: Message)
        ensures
            r@.role == Role::Assistant,
            r@.content == content@,
    {
        Message { role: Role::Assistant, content }
    }
}

/// The line a message contributes to a plain-text transcript.
pub open spec fn spec_transcript_line(m: MessageView) -> Seq<char> {
    match m.role {
        Role::User => "User: "@ + m.content + "\n"@,
        Role::Assistant => "Assistant: "@ + m.content + "\n"@,
        Role::System => Seq::empty(),
    }
}

/// The plain-text transcript of a sequence of messages.
pub open spec fn spec_transcript(ms: Seq<MessageView>) -> Seq<char>
    decreases ms.len(),
{
    if ms.len() == 0 {
        Seq::empty()
    } else {
        spec_transcript_line(ms[0]) + spec_transcript(ms.drop_first())
    }
}

/// A conversation: the leading system message followed by the exchanged
/// user and assistant messages.
pub struct Conversation {
    pub messages: Vec<Message>,
}

impl Conversation {
    /// The conversation's messages as mathematical values.
    pub open spec fn msgs(&self) -> Seq<MessageView> {
        self.messages.deep_view()
    }

    /// A fresh conversation holding only the system prompt.
    pub fn new(system_prompt: String) -> (r: Conversation)
        ensures
            r.msgs().len() == 1,
            r.msgs()[0].role == Role::System,
            r.msgs()[0].content == system_prompt@,
    {
        let mut messages: Vec<Message> = Vec::new();
        messages.push(Message::new_system(system_prompt));
        Conversation { messages }
    }

    /// Wraps an already loaded list of messages.
    pub fn from_messages(messages: Vec<Message>) -> (r: Conversation)
        ensures
            r.msgs() == messages.deep_view(),
    {
        Conversation { messages }
    }

    /// Appends a user message.
    pub fn add_user_message(&mut self, content: String)
        ensures
            final(self).msgs().len() == old(self).msgs().len() + 1,
            final(self).msgs() == old(self).msgs().push(
                MessageView { role: Role::User, content: content@ },
            ),
    {
        let ghost c = content@;
        self.messages.push(Message::new_user(content));
        proof {
            lemma_msgs_elementwise(old(self), self);
            assert(self.msgs() =~= old(self).msgs().push(
                MessageView { role: Role::User, content: c },
            ));
        }
    }

    /// Appends an assistant message.
    pub fn add_assistant_message(&mut self, content: String)
        ensures
            final(self).msgs().len() == old(self).msgs().len() + 1,
            final(self).msgs() == old(self).msgs().push(
                MessageView { role: Role::Assistant, content: content@ },
            ),
    {
        let ghost c = content@;
        self.messages.push(Message::new_assistant(content));
        proof {
            lemma_msgs_elementwise(old(self), self);
            assert(self.msgs() =~= old(self).msgs().push(
                MessageView { role: Role::Assistant, content: c },
            ));
        }
    }

    /// Drops everything but the leading system message.
    pub fn reset(&mut self)
        requires
            old(self).msgs().len() >= 1,
        ensures
            final(self).msgs() == old(self).msgs().take(1),
    {
        self.messages.truncate(1);
        proof {
            lemma_msgs_elementwise(old(self), self);
            assert(self.msgs() =~= old(self).msgs().take(1));
        }
    }

    /// The plain-text transcript of everything after the system message:
    /// one `User:` or `Assistant:` line per message.
    pub fn transcript(&self) -> (r: String)
        requires
            self.msgs().len() >= 1,
        ensures
            r@ == spec_transcript(self.msgs().skip(1)),
    {
        let n: usize = self.messages.len();
        let mut r = String::new();
        let mut i: usize = 1;
        while i < n
            invariant
                1 <= i <= n,
                n == self.msgs().len(),
                n == self.messages@.len(),
                spec_transcript(self.msgs().skip(1)) == r@ + spec_transcript(self.msgs().skip(
                    i as int,
                )),
            decreases n - i,
        {
            let ghost pre = r@;
            let ghost line = spec_transcript_line(self.msgs()[i as int]);
            proof {
                let rest = self.msgs().skip(i as int);
                assert(rest[0] == self.msgs()[i as int]);
                assert(rest.drop_first() =~= self.msgs().skip(i + 1));
            }
            let m = &self.messages[i];
            proof {
                assert(self.msgs()[i as int] == self.messages@[i as int]@);
            }
            match m.role {
                Role::User => {
                    r.append("User: ");
                    r.append(m.content.as_str());
                    r.append("\n");
                    proof {
                        assert(r@ =~= pre + line);
                    }
                },
                Role::Assistant => {
                    r.append("Assistant: ");
                    r.append(m.content.as_str());
                    r.append("\n");
                    proof {
                        assert(r@ =~= pre + line);
                    }
                },
                Role::System => {
                    proof {
                        assert(r@ =~= pre + line);
                    }
                },
            }
            proof {
                assert(pre + (line + spec_transcript(self.msgs().skip(i + 1))) =~= (pre + line)
                    + spec_transcript(self.msgs().skip(i + 1)));
            }
            i = i + 1;
        }
        proof {
            assert(r@ =~= r@ + spec_transcript(self.msgs().skip(n as int)));
        }
        r
    }
}

/// The messages of `b` seen as mathematical values, element by element.
proof fn lemma_msgs_elementwise(a: &Conversation, b: &Conversation)
    ensures
        forall|j: int|
            0 <= j < a.messages@.len() ==> a.msgs()[j] == #[trigger] a.messages@[j]@,
        forall|j: int|
            0 <= j < b.messages@.len() ==> b.msgs()[j] == #[trigger] b.messages@[j]@,
{
}

} // verus!
