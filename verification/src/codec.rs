//! The persistence codec for conversation transcripts.
//!
//! A transcript is written as a structured, human-readable text: a
//! bracketed list of records, each tagging a role and an escaped
//! content field. The parser is strict: it accepts exactly the texts
//! the serializer produces, and parsing is proved to invert
//! serialization exactly, content and order preserved.

use vstd::prelude::*;

use crate::ascii::ascii_seq;
use crate::ascii::ascii_bytes;
use crate::ascii::append_bytes;
use crate::ascii::match_lit;
use crate::ascii::bytes_eq;
use crate::jsonstr::QUOTE;
use crate::jsonstr::spec_escape;
use crate::jsonstr::spec_parse_string;
use crate::jsonstr::escape_append;
use crate::jsonstr::parse_string;
use crate::jsonstr::is_plain;
use crate::jsonstr::lemma_escape_plain;
use crate::jsonstr::lemma_escape_parse;
use crate::jsonstr::lemma_parse_string_consumes;
use crate::msg::Role;
use crate::msg::MsgV;
use crate::msg::Message;
use crate::msg::spec_role_bytes;
use crate::msg::role_bytes;
use crate::msg::lemma_role_bytes_distinct;

verus! {

pub const LBRACK: u8 = 0x5b;
pub const RBRACK: u8 = 0x5d;
pub const RBRACE: u8 = 0x7d;
pub const COMMA: u8 = 0x2c;

/// The opening of a record, up to the role field's opening quote.
pub open spec fn spec_role_tag() -> Seq<u8> {
    ascii_seq("{\"role\":\""@)
}

/// The text between the role field's closing quote and the content
/// field's opening quote.
pub open spec fn spec_content_sep() -> Seq<u8> {
    ascii_seq(",\"content\":\""@)
}

/// The serialized form of one message record.
pub open spec fn spec_ser_msg(m: MsgV) -> Seq<u8> {
    spec_role_tag() + spec_role_bytes(m.role) + seq![QUOTE] + spec_content_sep() + spec_escape(
        m.content,
    ) + seq![QUOTE, RBRACE]
}

/// The serialized records of a non-empty list, comma separated.
pub open spec fn spec_ser_items(ms: Seq<MsgV>) -> Seq<u8>
    recommends
        ms.len() >= 1,
    decreases ms.len(),
{
    if ms.len() <= 1 {
        spec_ser_msg(ms[0])
    } else {
        spec_ser_msg(ms[0]) + seq![COMMA] + spec_ser_items(ms.skip(1))
    }
}

/// The serialized form of a whole transcript.
pub open spec fn spec_ser_msgs(ms: Seq<MsgV>) -> Seq<u8> {
    seq![LBRACK] + (if ms.len() == 0 {
        Seq::<u8>::empty()
    } else {
        spec_ser_items(ms)
    }) + seq![RBRACK]
}

/// The role named by a role field's bytes, if any.
pub open spec fn spec_role_of_bytes(b: Seq<u8>) -> Option<Role> {
    if b == spec_role_bytes(Role::System) {
        Some(Role::System)
    } else if b == spec_role_bytes(Role::User) {
        Some(Role::User)
    } else if b == spec_role_bytes(Role::Assistant) {
        Some(Role::Assistant)
    } else {
        None
    }
}

/// Consumes one message record from the front of `s`.
pub open spec fn spec_parse_msg(s: Seq<u8>) -> Option<(MsgV, Seq<u8>)> {
    if spec_role_tag().is_prefix_of(s) {
        let s1 = s.skip(spec_role_tag().len() as int);
        match spec_parse_string(s1) {
            Some((rb, s2)) => match spec_role_of_bytes(rb) {
                Some(role) => if spec_content_sep().is_prefix_of(s2) {
                    let s3 = s2.skip(spec_content_sep().len() as int);
                    match spec_parse_string(s3) {
                        Some((c, s4)) => if s4.len() >= 1 && s4[0] == RBRACE {
                            Some((MsgV { role, content: c }, s4.skip(1)))
                        } else {
                            None
                        },
                        None => None,
                    }
                } else {
                    None
                },
                None => None,
            },
            None => None,
        }
    } else {
        None
    }
}

/// A successful record parse consumes at least one byte.
pub proof fn lemma_parse_msg_consumes(s: Seq<u8>)
    ensures
        spec_parse_msg(s) matches Some((m, r)) ==> r.len() < s.len(),
{
    if spec_role_tag().is_prefix_of(s) {
        let s1 = s.skip(spec_role_tag().len() as int);
        lemma_parse_string_consumes(s1);
        if let Some((rb, s2)) = spec_parse_string(s1) {
            if spec_content_sep().is_prefix_of(s2) {
                let s3 = s2.skip(spec_content_sep().len() as int);
                lemma_parse_string_consumes(s3);
            }
        }
    }
}

/// Consumes one or more comma-separated records from the front of `s`.
pub open spec fn spec_parse_items(s: Seq<u8>) -> Option<(Seq<MsgV>, Seq<u8>)>
    decreases s.len(),
    via spec_parse_items_dec
{
    match spec_parse_msg(s) {
        Some((m, r)) => if r.len() >= 1 && r[0] == COMMA {
            match spec_parse_items(r.skip(1)) {
                Some((ms, r2)) => Some((seq![m] + ms, r2)),
                None => None,
            }
        } else {
            Some((seq![m], r))
        },
        None => None,
    }
}

#[via_fn]
proof fn spec_parse_items_dec(s: Seq<u8>) {
    lemma_parse_msg_consumes(s);
}

/// Parses a whole transcript; `Some` exactly when all of `s` is one
/// well-formed serialized transcript.
pub open spec fn spec_parse_msgs(s: Seq<u8>) -> Option<Seq<MsgV>> {
    if s.len() >= 1 && s[0] == LBRACK {
        let r = s.skip(1);
        if r == seq![RBRACK] {
            Some(Seq::<MsgV>::empty())
        } else {
            match spec_parse_items(r) {
                Some((ms, rest)) => if rest == seq![RBRACK] {
                    Some(ms)
                } else {
                    None
                },
                None => None,
            }
        }
    } else {
        None
    }
}

/// Every byte of a role tag is written as itself when escaped.
pub proof fn lemma_role_bytes_plain(r: Role)
    ensures
        forall|i: int|
            0 <= i < spec_role_bytes(r).len() ==> is_plain(#[trigger] spec_role_bytes(r)[i]),
        spec_escape(spec_role_bytes(r)) == spec_role_bytes(r),
{
    reveal_strlit("system");
    reveal_strlit("user");
    reveal_strlit("assistant");
    assert forall|i: int|
        0 <= i < spec_role_bytes(r).len() implies is_plain(#[trigger] spec_role_bytes(r)[i]) by {
        match r {
            Role::System => {
                assert(spec_role_bytes(r)[i] == "system"@[i] as u8);
            },
            Role::User => {
                assert(spec_role_bytes(r)[i] == "user"@[i] as u8);
            },
            Role::Assistant => {
                assert(spec_role_bytes(r)[i] == "assistant"@[i] as u8);
            },
        }
    }
    lemma_escape_plain(spec_role_bytes(r));
}

/// A sequence is a prefix of itself followed by anything.
pub proof fn lemma_prefix_concat(a: Seq<u8>, b: Seq<u8>)
    ensures
        a.is_prefix_of(a + b),
        (a + b).skip(a.len() as int) == b,
{
    assert(a =~= (a + b).subrange(0, a.len() as int));
    assert((a + b).skip(a.len() as int) =~= b);
}

/// A serialized record followed by anything parses back to the
/// record, leaving the rest.
pub proof fn lemma_parse_msg_of_ser(m: MsgV, rest: Seq<u8>)
    ensures
        spec_parse_msg(spec_ser_msg(m) + rest) == Some((m, rest)),
{
    let s = spec_ser_msg(m) + rest;
    let rb = spec_role_bytes(m.role);
    let e = spec_escape(m.content);
    let rest1 = spec_content_sep() + e + seq![QUOTE, RBRACE] + rest;
    let rest2 = seq![RBRACE] + rest;

    assert(s =~= spec_role_tag() + (rb + seq![QUOTE] + rest1));
    lemma_prefix_concat(spec_role_tag(), rb + seq![QUOTE] + rest1);
    let s1 = s.skip(spec_role_tag().len() as int);
    assert(s1 == rb + seq![QUOTE] + rest1);

    lemma_role_bytes_plain(m.role);
    lemma_escape_parse(rb, rest1);
    assert(spec_escape(rb) + seq![QUOTE] + rest1 =~= s1);
    assert(spec_parse_string(s1) == Some((rb, rest1)));

    lemma_role_bytes_distinct(Role::System, Role::User);
    lemma_role_bytes_distinct(Role::System, Role::Assistant);
    lemma_role_bytes_distinct(Role::User, Role::Assistant);
    lemma_role_bytes_distinct(Role::User, Role::System);
    lemma_role_bytes_distinct(Role::Assistant, Role::System);
    lemma_role_bytes_distinct(Role::Assistant, Role::User);
    assert(spec_role_of_bytes(rb) == Some(m.role));

    assert(rest1 =~= spec_content_sep() + (e + seq![QUOTE] + rest2));
    lemma_prefix_concat(spec_content_sep(), e + seq![QUOTE] + rest2);
    let s3 = rest1.skip(spec_content_sep().len() as int);
    assert(s3 == e + seq![QUOTE] + rest2);

    lemma_escape_parse(m.content, rest2);
    assert(spec_parse_string(s3) == Some((m.content, rest2)));

    assert(rest2[0] == RBRACE);
    assert(rest2.skip(1) =~= rest);
    assert(spec_parse_msg(s) == Some((MsgV { role: m.role, content: m.content }, rest)));
    assert(MsgV { role: m.role, content: m.content } == m);
}

/// Serialized records followed by the closing bracket parse back to
/// the records.
pub proof fn lemma_parse_items_of_ser(ms: Seq<MsgV>)
    requires
        ms.len() >= 1,
    ensures
        spec_parse_items(spec_ser_items(ms) + seq![RBRACK]) == Some((ms, seq![RBRACK])),
    decreases ms.len(),
{
    if ms.len() == 1 {
        lemma_parse_msg_of_ser(ms[0], seq![RBRACK]);
        assert(spec_ser_items(ms) + seq![RBRACK] =~= spec_ser_msg(ms[0]) + seq![RBRACK]);
        assert(seq![ms[0]] =~= ms);
    } else {
        let tail = spec_ser_items(ms.skip(1)) + seq![RBRACK];
        let r = seq![COMMA] + tail;
        assert(spec_ser_items(ms) + seq![RBRACK] =~= spec_ser_msg(ms[0]) + r);
        lemma_parse_msg_of_ser(ms[0], r);
        assert(r[0] == COMMA);
        assert(r.skip(1) =~= tail);
        lemma_parse_items_of_ser(ms.skip(1));
        assert(seq![ms[0]] + ms.skip(1) =~= ms);
    }
}

/// Round trip: serializing an ordered list of messages and parsing
/// the result yields the same list, content and order preserved.
pub proof fn lemma_codec_round_trip(ms: Seq<MsgV>)
    ensures
        spec_parse_msgs(spec_ser_msgs(ms)) == Some(ms),
{
    let s = spec_ser_msgs(ms);
    assert(s[0] == LBRACK);
    if ms.len() == 0 {
        assert(s.skip(1) =~= seq![RBRACK]);
        assert(spec_parse_msgs(s) == Some(Seq::<MsgV>::empty()));
        assert(Seq::<MsgV>::empty() =~= ms);
    } else {
        let items = spec_ser_items(ms);
        assert(s.skip(1) =~= items + seq![RBRACK]);
        lemma_ser_items_len(ms);
        assert(s.skip(1).len() > 1);
        assert(s.skip(1) != seq![RBRACK]);
        lemma_parse_items_of_ser(ms);
    }
}

/// A non-empty list serializes to at least one record's length.
pub proof fn lemma_ser_items_len(ms: Seq<MsgV>)
    requires
        ms.len() >= 1,
    ensures
        spec_ser_items(ms).len() >= spec_role_tag().len(),
    decreases ms.len(),
{
    reveal_strlit("{\"role\":\"");
}

/// Appending one record to a non-empty list appends a comma and the
/// record to its serialized form.
pub proof fn lemma_ser_items_snoc(ms: Seq<MsgV>, m: MsgV)
    requires
        ms.len() >= 1,
    ensures
        spec_ser_items(ms.push(m)) == spec_ser_items(ms) + seq![COMMA] + spec_ser_msg(m),
    decreases ms.len(),
{
    if ms.len() == 1 {
        reveal_with_fuel(spec_ser_items, 3);
        assert(ms.push(m).skip(1) =~= seq![m]);
        assert(ms.push(m)[0] == ms[0]);
        assert(seq![m][0] == m);
        assert(spec_ser_items(ms.push(m)) =~= spec_ser_msg(ms[0]) + seq![COMMA] + spec_ser_msg(m));
    } else {
        assert(ms.push(m).skip(1) =~= ms.skip(1).push(m));
        lemma_ser_items_snoc(ms.skip(1), m);
        assert(ms.push(m)[0] == ms[0]);
        assert(spec_ser_items(ms.push(m)) =~= spec_ser_items(ms) + seq![COMMA] + spec_ser_msg(m));
    }
}

/// The record opening, as bytes.
pub fn role_tag_vec() -> (v: Vec<u8>)
    ensures
        v@ == spec_role_tag(),
{
    proof {
        reveal_strlit("{\"role\":\"");
    }
    ascii_bytes("{\"role\":\"")
}

/// The separator between role and content fields, as bytes.
pub fn content_sep_vec() -> (v: Vec<u8>)
    ensures
        v@ == spec_content_sep(),
{
    proof {
        reveal_strlit(",\"content\":\"");
    }
    ascii_bytes(",\"content\":\"")
}

/// The role named by a role field's bytes, if any.
pub fn role_from_bytes(b: &Vec<u8>) -> (r: Option<Role>)
    ensures
        r == spec_role_of_bytes(b@),
{
    if bytes_eq(b, &role_bytes(Role::System)) {
        Some(Role::System)
    } else if bytes_eq(b, &role_bytes(Role::User)) {
        Some(Role::User)
    } else if bytes_eq(b, &role_bytes(Role::Assistant)) {
        Some(Role::Assistant)
    } else {
        None
    }
}

/// Appends the serialized form of one message to `out`.
pub fn ser_msg_append(out: &mut Vec<u8>, m: &Message)
    ensures
        final(out)@ == old(out)@ + spec_ser_msg(m.deep_view()),
{
    append_bytes(out, &role_tag_vec());
    append_bytes(out, &role_bytes(m.role));
    out.push(QUOTE);
    append_bytes(out, &content_sep_vec());
    escape_append(out, &m.content);
    out.push(QUOTE);
    out.push(RBRACE);
    proof {
        assert(final(out)@ =~= old(out)@ + spec_ser_msg(m.deep_view()));
    }
}

/// Serializes an ordered list of messages into transcript bytes.
pub fn ser_msgs(msgs: &Vec<Message>) -> (r: Vec<u8>)
    ensures
        r@ == spec_ser_msgs(msgs.deep_view()),
{
    let ghost dv = msgs.deep_view();
    let mut out: Vec<u8> = Vec::new();
    out.push(LBRACK);
    proof {
        assert(out@ =~= seq![LBRACK]);
    }
    let mut i: usize = 0;
    while i < msgs.len()
        invariant
            0 <= i <= msgs@.len(),
            dv == msgs.deep_view(),
            dv.len() == msgs@.len(),
            i == 0 ==> out@ == seq![LBRACK],
            i >= 1 ==> out@ == seq![LBRACK] + spec_ser_items(dv.take(i as int)),
        decreases msgs@.len() - i,
    {
        if i > 0 {
            out.push(COMMA);
        }
        ser_msg_append(&mut out, &msgs[i]);
        proof {
            assert(msgs@[i as int].deep_view() == dv[i as int]);
            assert(dv.take(i + 1 as int) =~= dv.take(i as int).push(dv[i as int]));
            if i == 0 {
                assert(dv.take(1)[0] == dv[0]);
                assert(out@ =~= seq![LBRACK] + spec_ser_items(dv.take(1)));
            } else {
                lemma_ser_items_snoc(dv.take(i as int), dv[i as int]);
                assert(out@ =~= seq![LBRACK] + spec_ser_items(dv.take(i + 1 as int)));
            }
        }
        i += 1;
    }
    out.push(RBRACK);
    proof {
        assert(dv.take(dv.len() as int) =~= dv);
        assert(out@ =~= spec_ser_msgs(dv));
    }
    out
}

/// Parses one message record of `v` starting at `pos`.
pub fn parse_msg(v: &Vec<u8>, pos: usize) -> (r: Option<(Message, usize)>)
    requires
        pos <= v@.len(),
    ensures
        match r {
            Some(mp) => {
                &&& pos < mp.1 <= v@.len()
                &&& spec_parse_msg(v@.skip(pos as int)) == Some(
                    (mp.0.deep_view(), v@.skip(mp.1 as int)),
                )
            },
            None => spec_parse_msg(v@.skip(pos as int)) is None,
        },
{
    let ghost s = v@.skip(pos as int);
    let p1 = match match_lit(v, pos, &role_tag_vec()) {
        Some(p) => p,
        None => {
            return None;
        },
    };
    let (rb, p2) = match parse_string(v, p1) {
        Some(cp) => cp,
        None => {
            return None;
        },
    };
    let role = match role_from_bytes(&rb) {
        Some(role) => role,
        None => {
            return None;
        },
    };
    let p3 = match match_lit(v, p2, &content_sep_vec()) {
        Some(p) => p,
        None => {
            return None;
        },
    };
    let (content, p4) = match parse_string(v, p3) {
        Some(cp) => cp,
        None => {
            return None;
        },
    };
    if p4 == v.len() || v[p4] != RBRACE {
        proof {
            let s4 = v@.skip(p4 as int);
            if p4 < v@.len() {
                assert(s4[0] == v@[p4 as int]);
            }
        }
        return None;
    }
    proof {
        let s4 = v@.skip(p4 as int);
        assert(s4[0] == v@[p4 as int]);
        assert(s4.skip(1) =~= v@.skip(p4 + 1 as int));
    }
    Some((Message { role, content }, p4 + 1))
}

/// Parses transcript bytes; `Some` exactly when all of `v` is one
/// well-formed serialized transcript.
pub fn parse_msgs(v: &Vec<u8>) -> (r: Option<Vec<Message>>)
    ensures
        match r {
            Some(msgs) => spec_parse_msgs(v@) == Some(msgs.deep_view()),
            None => spec_parse_msgs(v@) is None,
        },
{
    if v.len() == 0 {
        return None;
    }
    if v[0] != LBRACK {
        return None;
    }
    if v.len() == 2 && v[1] == RBRACK {
        let empty: Vec<Message> = Vec::new();
        proof {
            assert(v@.skip(1) =~= seq![RBRACK]);
            assert(empty.deep_view() =~= Seq::<MsgV>::empty());
        }
        return Some(empty);
    }
    proof {
        if v@.skip(1) == seq![RBRACK] {
            assert(v@.skip(1).len() == v@.len() - 1);
            assert(v@.skip(1)[0] == v@[1]);
            assert(false);
        }
    }
    let mut acc: Vec<Message> = Vec::new();
    let mut i: usize = 1;
    proof {
        if let Some((ms, r0)) = spec_parse_items(v@.skip(1)) {
            assert(acc.deep_view() + ms =~= ms);
        }
    }
    loop
        invariant
            1 <= i <= v@.len(),
            v@.len() >= 1 && v@[0] == LBRACK,
            v@.skip(1) != seq![RBRACK],
            match spec_parse_items(v@.skip(i as int)) {
                Some((ms, r)) => spec_parse_items(v@.skip(1)) == Some((acc.deep_view() + ms, r)),
                None => spec_parse_items(v@.skip(1)) is None,
            },
        decreases v@.len() - i,
    {
        let (m, p) = match parse_msg(v, i) {
            Some(mp) => mp,
            None => {
                return None;
            },
        };
        let ghost mdv = m.deep_view();
        let ghost rp = v@.skip(p as int);
        let ghost accdv = acc.deep_view();
        if p < v.len() && v[p] == COMMA {
            proof {
                assert(rp[0] == v@[p as int]);
                assert(rp.skip(1) =~= v@.skip(p + 1 as int));
            }
            acc.push(m);
            proof {
                assert(acc.deep_view() =~= accdv.push(mdv));
                if let Some((ms2, r2)) = spec_parse_items(v@.skip(p + 1 as int)) {
                    assert(spec_parse_items(v@.skip(i as int)) == Some((seq![mdv] + ms2, r2)));
                    assert(accdv + (seq![mdv] + ms2) =~= accdv.push(mdv) + ms2);
                }
            }
            i = p + 1;
        } else if p < v.len() && v[p] == RBRACK && p + 1 == v.len() {
            proof {
                assert(rp[0] == v@[p as int]);
                assert(RBRACK != COMMA);
                assert(spec_parse_items(v@.skip(i as int)) == Some((seq![mdv], rp)));
                assert(rp =~= seq![RBRACK]);
            }
            acc.push(m);
            proof {
                assert(acc.deep_view() =~= accdv.push(mdv));
                assert(accdv + seq![mdv] =~= accdv.push(mdv));
            }
            return Some(acc);
        } else {
            proof {
                assert(seq![RBRACK].len() == 1);
                assert(seq![RBRACK][0] == RBRACK);
                if p < v@.len() {
                    assert(rp[0] == v@[p as int]);
                    assert(rp[0] != COMMA);
                    assert(spec_parse_items(v@.skip(i as int)) == Some((seq![mdv], rp)));
                    assert(rp.len() == v@.len() - p);
                    assert(rp != seq![RBRACK]);
                } else {
                    assert(rp.len() == 0);
                    assert(spec_parse_items(v@.skip(i as int)) == Some((seq![mdv], rp)));
                    assert(rp != seq![RBRACK]);
                }
            }
            return None;
        }
    }
}

} // verus!
