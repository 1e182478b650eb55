//! Stream events and the outbound request body.
//!
//! Each payload line of the streaming response carries one event of
//! the fixed shape `{"choices":[{"delta":{"content":<string>}}]}`.
//! `spec_parse_event` extracts the content fragment of such a payload
//! and rejects anything else; events without a content field or with
//! any other shape yield no fragment and are skipped by the decoder.
//! `spec_encode_event` is the canonical event text for a fragment and
//! is proved to parse back to it.

use vstd::prelude::*;

use crate::ascii::ascii_seq;
use crate::ascii::ascii_bytes;
use crate::ascii::append_bytes;
use crate::ascii::match_lit;
use crate::jsonstr::QUOTE;
use crate::jsonstr::spec_escape;
use crate::jsonstr::spec_parse_string;
use crate::jsonstr::escape_append;
use crate::jsonstr::parse_string;
use crate::jsonstr::lemma_escape_parse;
use crate::codec::spec_ser_msgs;
use crate::codec::ser_msgs;
use crate::codec::lemma_prefix_concat;
use crate::msg::Message;
use crate::msg::MsgV;

verus! {

/// The event text up to the content field's opening quote.
pub open spec fn spec_event_prefix() -> Seq<u8> {
    ascii_seq("{\"choices\":[{\"delta\":{\"content\":\""@)
}

/// The event text after the content field's closing quote.
pub open spec fn spec_event_tail() -> Seq<u8> {
    ascii_seq("}}]}"@)
}

/// The canonical event text carrying one content fragment.
pub open spec fn spec_encode_event(f: Seq<u8>) -> Seq<u8> {
    spec_event_prefix() + spec_escape(f) + seq![QUOTE] + spec_event_tail()
}

/// The content fragment of an event payload; `None` for any payload
/// that is not a well-formed event carrying a content field.
pub open spec fn spec_parse_event(s: Seq<u8>) -> Option<Seq<u8>> {
    if spec_event_prefix().is_prefix_of(s) {
        match spec_parse_string(s.skip(spec_event_prefix().len() as int)) {
            Some((c, r)) => if r == spec_event_tail() {
                Some(c)
            } else {
                None
            },
            None => None,
        }
    } else {
        None
    }
}

/// Parsing inverts encoding: the canonical event text for a fragment
/// parses back to that fragment.
pub proof fn lemma_event_round_trip(f: Seq<u8>)
    ensures
        spec_parse_event(spec_encode_event(f)) == Some(f),
{
    let s = spec_encode_event(f);
    let rest = spec_event_tail();
    assert(s =~= spec_event_prefix() + (spec_escape(f) + seq![QUOTE] + rest));
    lemma_prefix_concat(spec_event_prefix(), spec_escape(f) + seq![QUOTE] + rest);
    lemma_escape_parse(f, rest);
}

/// The opening of the event text, as bytes.
pub fn event_prefix_vec() -> (v: Vec<u8>)
    ensures
        v@ == spec_event_prefix(),
{
    proof {
        reveal_strlit("{\"choices\":[{\"delta\":{\"content\":\"");
    }
    ascii_bytes("{\"choices\":[{\"delta\":{\"content\":\"")
}

/// The closing of the event text, as bytes.
pub fn event_tail_vec() -> (v: Vec<u8>)
    ensures
        v@ == spec_event_tail(),
{
    proof {
        reveal_strlit("}}]}");
    }
    ascii_bytes("}}]}")
}

/// The canonical event text for a fragment.
pub fn encode_event(f: &Vec<u8>) -> (r: Vec<u8>)
    ensures
        r@ == spec_encode_event(f@),
{
    let mut out = event_prefix_vec();
    escape_append(&mut out, f);
    out.push(QUOTE);
    append_bytes(&mut out, &event_tail_vec());
    proof {
        assert(out@ =~= spec_encode_event(f@));
    }
    out
}

/// Extracts the content fragment of an event payload.
pub fn parse_event(v: &Vec<u8>) -> (r: Option<Vec<u8>>)
    ensures
        match r {
            Some(c) => spec_parse_event(v@) == Some(c@),
            None => spec_parse_event(v@) is None,
        },
{
    proof {
        assert(v@.skip(0) =~= v@);
    }
    let p1 = match match_lit(v, 0, &event_prefix_vec()) {
        Some(p) => p,
        None => {
            return None;
        },
    };
    let (c, p2) = match parse_string(v, p1) {
        Some(cp) => cp,
        None => {
            return None;
        },
    };
    let ghost r2 = v@.skip(p2 as int);
    match match_lit(v, p2, &event_tail_vec()) {
        Some(p3) => {
            if p3 == v.len() {
                proof {
                    assert(r2.len() == spec_event_tail().len());
                    assert(r2.subrange(0, r2.len() as int) =~= r2);
                    assert(r2 =~= spec_event_tail());
                }
                Some(c)
            } else {
                proof {
                    assert(r2.len() == v@.len() - p2);
                    if r2 == spec_event_tail() {
                        assert(false);
                    }
                }
                None
            }
        },
        None => {
            proof {
                if r2 == spec_event_tail() {
                    assert(spec_event_tail() =~= r2.subrange(0, spec_event_tail().len() as int));
                    assert(spec_event_tail().is_prefix_of(r2));
                }
            }
            None
        },
    }
}

/// The request text before the message list.
pub open spec fn spec_request_head() -> Seq<u8> {
    ascii_seq("{\"model\":\"local\",\"messages\":"@)
}

/// The request text after the message list.
pub open spec fn spec_request_foot() -> Seq<u8> {
    ascii_seq(",\"stream\":true}"@)
}

/// The body of one chat-completion request: the fixed model, the
/// full ordered message list, and the streaming flag.
pub open spec fn spec_request_body(ms: Seq<MsgV>) -> Seq<u8> {
    spec_request_head() + spec_ser_msgs(ms) + spec_request_foot()
}

/// Builds the body of one chat-completion request.
pub fn request_body(msgs: &Vec<Message>) -> (r: Vec<u8>)
    ensures
        r@ == spec_request_body(msgs.deep_view()),
{
    proof {
        reveal_strlit("{\"model\":\"local\",\"messages\":");
        reveal_strlit(",\"stream\":true}");
    }
    let mut out = ascii_bytes("{\"model\":\"local\",\"messages\":");
    append_bytes(&mut out, &ser_msgs(msgs));
    append_bytes(&mut out, &ascii_bytes(",\"stream\":true}"));
    proof {
        assert(out@ =~= spec_request_body(msgs.deep_view()));
    }
    out
}

} // verus!
