//! The message history: a bounded FIFO of chat lines.

use crate::shared::Message;
use vstd::prelude::*;

verus! {

/// How many messages the history keeps.
pub const MAX_MESSAGES: usize = 1000;

/// The last `MAX_MESSAGES` entries of `s`, or all of `s` when it is no longer.
pub open spec fn most_recent<A>(s: Seq<A>) -> Seq<A> {
    if s.len() > MAX_MESSAGES {
        s.subrange(s.len() - MAX_MESSAGES, s.len() as int)
    } else {
        s
    }
}

/// The history that appending each of `appended`, in order, leaves in an
/// empty store.
pub open spec fn history_after(appended: Seq<Seq<char>>) -> Seq<Seq<char>>
    decreases appended.len(),
{
    if appended.len() == 0 {
        Seq::empty()
    } else {
        most_recent(history_after(appended.drop_last()).push(appended.last()))
    }
}

/// Each line followed by a newline, concatenated in order.
pub open spec fn lines_text(lines: Seq<Seq<char>>) -> Seq<char>
    decreases lines.len(),
{
    if lines.len() == 0 {
        Seq::empty()
    } else {
        lines_text(lines.drop_last()) + lines.last() + seq!['\n']
    }
}

/// The texts of a sequence of messages.
pub open spec fn texts_of(messages: Seq<Message>) -> Seq<Seq<char>> {
    messages.map_values(|m: Message| m@)
}

/// The chat history, oldest first, holding at most `MAX_MESSAGES` messages.
pub struct MessageStore {
    messages: Vec<Message>,
}

impl View for MessageStore {
    type V = Seq<Seq<char>>;

    closed spec fn view(&self) -> Seq<Seq<char>> {
        texts_of(self.messages@)
    }
}

impl MessageStore {
    #[verifier::type_invariant]
    spec fn within_capacity(&self) -> bool {
        self.messages@.len() <= MAX_MESSAGES
    }

    /// An empty history.
    pub fn new() -> (s: MessageStore)
        ensures
            s@ == Seq::<Seq<char>>::empty(),
    {
        let s = MessageStore { messages: Vec::new() };
        proof {
            assert(s@ =~= Seq::<Seq<char>>::empty());
        }
        s
    }

    /// Appends `msg` at the end, then drops the oldest messages until at most
    /// `MAX_MESSAGES` remain.
    pub fn append(&mut self, msg: Message)
        ensures
            final(self)@ == most_recent(old(self)@.push(msg@)),
            final(self)@.len() <= MAX_MESSAGES,
    {
        proof {
            use_type_invariant(&*self);
        }
        let ghost before = self@;
        let mut messages: Vec<Message> = Vec::new();
        std::mem::swap(&mut messages, &mut self.messages);
        proof {
            assert(texts_of(messages@) == before);
        }
        messages.push(msg);
        let ghost pushed = texts_of(messages@);
        assert(pushed =~= before.push(msg@));
        let ghost mut dropped: int = 0;
        while messages.len() > MAX_MESSAGES
            invariant
                0 <= dropped <= pushed.len(),
                dropped > 0 ==> pushed.len() - dropped >= MAX_MESSAGES,
                texts_of(messages@) =~= pushed.subrange(dropped, pushed.len() as int),
            decreases messages@.len(),
        {
            let ghost prev = messages@;
            assert(texts_of(prev).len() == prev.len());
            assert(prev.len() == pushed.len() - dropped);
            messages.remove(0);
            proof {
                assert(texts_of(messages@) =~= texts_of(prev).subrange(1, prev.len() as int));
                dropped = dropped + 1;
            }
        }
        self.messages = messages;
        proof {
            assert(self@ =~= most_recent(pushed));
        }
    }

    /// How many messages the history holds.
    pub fn len(&self) -> (n: usize)
        ensures
            n == self@.len(),
    {
        self.messages.len()
    }

    /// A copy of the history, oldest first.
    pub fn list(&self) -> (r: Vec<Message>)
        ensures
            texts_of(r@) == self@,
    {
        let mut copies: Vec<Message> = Vec::new();
        let mut i: usize = 0;
        while i < self.messages.len()
            invariant
                i <= self.messages@.len(),
                texts_of(copies@) =~= texts_of(self.messages@).subrange(0, i as int),
            decreases self.messages@.len() - i,
        {
            let copy = self.messages[i].duplicate();
            let ghost prev = copies@;
            copies.push(copy);
            proof {
                assert(texts_of(copies@) =~= texts_of(prev).push(self.messages@[i as int]@));
            }
            i += 1;
        }
        proof {
            assert(texts_of(self.messages@).subrange(0, i as int) =~= texts_of(self.messages@));
        }
        copies
    }

    /// The whole history as text: each message followed by a newline.
    pub fn render(&self) -> (r: String)
        ensures
            r@ == lines_text(self@),
    {
        let mut body = String::new();
        let mut i: usize = 0;
        proof {
            reveal_strlit("\n");
        }
        while i < self.messages.len()
            invariant
                i <= self.messages@.len(),
                body@ == lines_text(texts_of(self.messages@).subrange(0, i as int)),
                "\n"@ == seq!['\n'],
            decreases self.messages@.len() - i,
        {
            let ghost prefix = texts_of(self.messages@).subrange(0, i as int);
            let ghost next = texts_of(self.messages@).subrange(0, i + 1);
            assert(next.drop_last() =~= prefix);
            body.append(self.messages[i].text.as_str());
            body.append("\n");
            i += 1;
        }
        proof {
            assert(texts_of(self.messages@).subrange(0, i as int) =~= texts_of(self.messages@));
        }
        body
    }
}

/// After any sequence of appends to an empty store, the store holds exactly
/// the most recent `min(n, MAX_MESSAGES)` of the `n` appended messages, in the
/// order they were appended; so it never holds more than `MAX_MESSAGES`.
pub proof fn lemma_history_keeps_most_recent(appended: Seq<Seq<char>>)
    ensures
        history_after(appended) == most_recent(appended),
        history_after(appended).len() <= MAX_MESSAGES,
    decreases appended.len(),
{
    if appended.len() > 0 {
        let prefix = appended.drop_last();
        lemma_history_keeps_most_recent(prefix);
        assert(prefix.push(appended.last()) =~= appended);
        assert(history_after(appended) =~= most_recent(appended));
    }
}

} // verus!
