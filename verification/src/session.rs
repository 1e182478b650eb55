//! The in-memory session and its persistence rules.
//!
//! A session holds one conversation's ordered message list. It is
//! hydrated from the persisted sources in a fixed priority order —
//! summary first, then history, then empty — where a source counts
//! only if its bytes parse to a non-empty transcript; anything else
//! is treated as absence. Mutations return the exact bytes to
//! persist, so durable state can only ever hold a serialized form of
//! the in-memory list.

use vstd::prelude::*;

use crate::ascii::ascii_seq;
use crate::ascii::ascii_bytes;
use crate::ascii::append_bytes;
use crate::codec::spec_parse_msgs;
use crate::codec::spec_ser_msgs;
use crate::codec::parse_msgs;
use crate::codec::ser_msgs;
use crate::msg::Message;
use crate::msg::MsgV;
use crate::msg::Role;

verus! {

/// Which persisted source a session was hydrated from.
#[derive(Clone, Copy, PartialEq, Eq, Structural, Debug)]
pub enum LoadSource {
    Summary,
    History,
    Fresh,
}

/// The transcript a persisted source yields, if its bytes parse to a
/// non-empty message list; anything else counts as absence.
pub open spec fn spec_loadable(d: Option<Seq<u8>>) -> Option<Seq<MsgV>> {
    match d {
        Some(bytes) => match spec_parse_msgs(bytes) {
            Some(ms) => if ms.len() > 0 {
                Some(ms)
            } else {
                None
            },
            None => None,
        },
        None => None,
    }
}

/// The load priority chain: summary over history over empty.
pub open spec fn spec_load(sm: Option<Seq<u8>>, hs: Option<Seq<u8>>) -> (Seq<MsgV>, LoadSource) {
    match spec_loadable(sm) {
        Some(ms) => (ms, LoadSource::Summary),
        None => match spec_loadable(hs) {
            Some(ms) => (ms, LoadSource::History),
            None => (Seq::<MsgV>::empty(), LoadSource::Fresh),
        },
    }
}

/// Load priority: when both the summary and the history hold a
/// non-empty transcript, loading yields the summary's content, never
/// the history's.
pub proof fn lemma_load_priority(sm: Option<Seq<u8>>, hs: Option<Seq<u8>>)
    requires
        spec_loadable(sm) is Some,
    ensures
        spec_load(sm, hs).0 == spec_loadable(sm)->Some_0,
        spec_load(sm, hs).1 == LoadSource::Summary,
{
}

/// The bytes of a persisted source as handed in, if it was readable.
pub open spec fn opt_bytes(o: &Option<Vec<u8>>) -> Option<Seq<u8>> {
    match o {
        Some(v) => Some(v@),
        None => None,
    }
}

/// The in-memory session: the ordered message list of the active
/// conversation.
pub struct Session {
    pub messages: Vec<Message>,
}

/// A clone of a message list, element for element.
pub fn clone_msgs(v: &Vec<Message>) -> (r: Vec<Message>)
    ensures
        r.deep_view() == v.deep_view(),
{
    let mut r: Vec<Message> = Vec::new();
    let mut i: usize = 0;
    while i < v.len()
        invariant
            0 <= i <= v@.len(),
            r.deep_view() == v.deep_view().take(i as int),
        decreases v@.len() - i,
    {
        let ghost rdv = r.deep_view();
        let m = v[i].clone();
        proof {
            assert(m.deep_view() == v.deep_view()[i as int]);
        }
        r.push(m);
        proof {
            assert(r.deep_view() =~= rdv.push(v.deep_view()[i as int]));
            assert(v.deep_view().take(i + 1 as int) =~= v.deep_view().take(i as int).push(
                v.deep_view()[i as int],
            ));
        }
        i += 1;
    }
    proof {
        assert(v.deep_view().take(v@.len() as int) =~= v.deep_view());
    }
    r
}

/// The synthetic instruction appended to the transcript for a
/// summarization exchange.
pub fn summarize_prompt() -> (r: Vec<u8>)
    ensures
        r@ == ascii_seq("Summarize our conversation into 4 bullet points for your memory."@),
{
    proof {
        reveal_strlit("Summarize our conversation into 4 bullet points for your memory.");
    }
    ascii_bytes("Summarize our conversation into 4 bullet points for your memory.")
}

/// The marker with which a stored summary's content begins.
pub fn memory_block_prefix() -> (r: Vec<u8>)
    ensures
        r@ == ascii_seq("MEMORY_BLOCK:\n"@),
{
    proof {
        reveal_strlit("MEMORY_BLOCK:\n");
    }
    ascii_bytes("MEMORY_BLOCK:\n")
}

/// The total content length of a transcript.
pub open spec fn spec_char_count(ms: Seq<MsgV>) -> nat
    decreases ms.len(),
{
    if ms.len() == 0 {
        0
    } else {
        spec_char_count(ms.drop_last()) + ms.last().content.len()
    }
}

impl Session {
    /// Hydrates a session from the persisted sources, in priority
    /// order: a non-empty summary, else a non-empty history, else a
    /// new empty conversation. Unreadable or unparseable bytes are
    /// handed in as their raw form and count as absence here.
    pub fn load_from_sources(summary_data: Option<Vec<u8>>, history_data: Option<Vec<u8>>) -> (r:
        (Session, LoadSource))
        ensures
            r.0.messages.deep_view() == spec_load(opt_bytes(&summary_data), opt_bytes(&history_data)).0,
            r.1 == spec_load(opt_bytes(&summary_data), opt_bytes(&history_data)).1,
    {
        if let Some(bytes) = &summary_data {
            if let Some(msgs) = parse_msgs(bytes) {
                if msgs.len() > 0 {
                    return (Session { messages: msgs }, LoadSource::Summary);
                }
            }
        }
        if let Some(bytes) = &history_data {
            if let Some(msgs) = parse_msgs(bytes) {
                if msgs.len() > 0 {
                    return (Session { messages: msgs }, LoadSource::History);
                }
            }
        }
        let empty: Vec<Message> = Vec::new();
        proof {
            assert(empty.deep_view() =~= Seq::<MsgV>::empty());
        }
        (Session { messages: empty }, LoadSource::Fresh)
    }

    /// The messages of one exchange request: the transcript so far
    /// plus the staged user message. The session itself is not
    /// changed: a failed exchange leaves nothing behind.
    pub fn request_messages(&self, user_text: &Vec<u8>) -> (r: Vec<Message>)
        ensures
            r.deep_view() == self.messages.deep_view().push(
                MsgV { role: Role::User, content: user_text@ },
            ),
    {
        let mut r = clone_msgs(&self.messages);
        let ghost rdv = r.deep_view();
        let m = Message { role: Role::User, content: crate::ascii::vec_skip(user_text, 0) };
        proof {
            assert(user_text@.skip(0) =~= user_text@);
        }
        r.push(m);
        proof {
            assert(r.deep_view() =~= rdv.push(MsgV { role: Role::User, content: user_text@ }));
        }
        r
    }

    /// Commits one successful exchange: appends the user message and
    /// the assistant reply, and returns the exact bytes to persist as
    /// the new history. Nothing is handed out for persistence unless
    /// the reply was in fact obtained.
    pub fn commit_turn(&mut self, user_text: Vec<u8>, reply: Vec<u8>) -> (hist: Vec<u8>)
        ensures
            final(self).messages.deep_view() == old(self).messages.deep_view() + seq![
                MsgV { role: Role::User, content: user_text@ },
                MsgV { role: Role::Assistant, content: reply@ },
            ],
            hist@ == spec_ser_msgs(final(self).messages.deep_view()),
    {
        let ghost dv0 = self.messages.deep_view();
        let ghost uv = user_text@;
        let ghost rv = reply@;
        self.messages.push(Message { role: Role::User, content: user_text });
        proof {
            assert(self.messages.deep_view() =~= dv0.push(MsgV { role: Role::User, content: uv }));
        }
        self.messages.push(Message { role: Role::Assistant, content: reply });
        proof {
            assert(self.messages.deep_view() =~= dv0.push(MsgV { role: Role::User, content: uv }).push(
                MsgV { role: Role::Assistant, content: rv },
            ));
            assert(dv0.push(MsgV { role: Role::User, content: uv }).push(
                MsgV { role: Role::Assistant, content: rv },
            ) =~= dv0 + seq![
                MsgV { role: Role::User, content: uv },
                MsgV { role: Role::Assistant, content: rv },
            ]);
        }
        ser_msgs(&self.messages)
    }

    /// Empties the in-memory transcript, as a clear does.
    pub fn apply_clear(&mut self)
        ensures
            final(self).messages.deep_view() == Seq::<MsgV>::empty(),
    {
        self.messages = Vec::new();
        proof {
            assert(self.messages.deep_view() =~= Seq::<MsgV>::empty());
        }
    }

    /// The messages of a summarization exchange: the transcript so
    /// far plus the fixed synthetic instruction.
    pub fn summarize_request(&self) -> (r: Vec<Message>)
        ensures
            r.deep_view() == self.messages.deep_view().push(
                MsgV {
                    role: Role::User,
                    content: ascii_seq(
                        "Summarize our conversation into 4 bullet points for your memory."@,
                    ),
                },
            ),
    {
        self.request_messages(&summarize_prompt())
    }

    /// Replaces the transcript with the single compacted-memory
    /// message built from the summarization reply, and returns the
    /// exact bytes to persist as the new summary.
    pub fn apply_summary(&mut self, reply: &Vec<u8>) -> (summ: Vec<u8>)
        ensures
            final(self).messages.deep_view() == seq![
                MsgV {
                    role: Role::Assistant,
                    content: ascii_seq("MEMORY_BLOCK:\n"@) + reply@,
                },
            ],
            summ@ == spec_ser_msgs(final(self).messages.deep_view()),
    {
        let mut content = memory_block_prefix();
        append_bytes(&mut content, reply);
        let mut msgs: Vec<Message> = Vec::new();
        msgs.push(Message { role: Role::Assistant, content });
        proof {
            assert(msgs.deep_view() =~= seq![
                MsgV {
                    role: Role::Assistant,
                    content: ascii_seq("MEMORY_BLOCK:\n"@) + reply@,
                },
            ]);
        }
        self.messages = msgs;
        ser_msgs(&self.messages)
    }

    /// The exact bytes of the current transcript, for persistence.
    pub fn history_bytes(&self) -> (r: Vec<u8>)
        ensures
            r@ == spec_ser_msgs(self.messages.deep_view()),
    {
        ser_msgs(&self.messages)
    }

    /// The total content length of the transcript, saturating at the
    /// machine limit.
    pub fn char_count(&self) -> (r: usize)
        ensures
            spec_char_count(self.messages.deep_view()) <= usize::MAX ==> r == spec_char_count(
                self.messages.deep_view(),
            ),
            spec_char_count(self.messages.deep_view()) > usize::MAX ==> r == usize::MAX,
    {
        let ghost dv = self.messages.deep_view();
        let mut acc: usize = 0;
        let mut i: usize = 0;
        while i < self.messages.len()
            invariant
                0 <= i <= self.messages@.len(),
                dv == self.messages.deep_view(),
                dv.len() == self.messages@.len(),
                spec_char_count(dv.take(i as int)) <= usize::MAX ==> acc == spec_char_count(
                    dv.take(i as int),
                ),
                spec_char_count(dv.take(i as int)) > usize::MAX ==> acc == usize::MAX,
            decreases self.messages@.len() - i,
        {
            let n = self.messages[i].content.len();
            proof {
                assert(dv.take(i + 1 as int).drop_last() =~= dv.take(i as int));
                assert(dv.take(i + 1 as int).last() == dv[i as int]);
                assert(dv[i as int].content == self.messages@[i as int].content@);
            }
            if usize::MAX - acc < n {
                acc = usize::MAX;
            } else {
                acc = acc + n;
            }
            i += 1;
        }
        proof {
            assert(dv.take(dv.len() as int) =~= dv);
        }
        acc
    }
}

} // verus!
