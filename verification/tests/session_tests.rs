use yuki_client::codec::{parse_msgs, ser_msgs};
use yuki_client::decoder::StreamDecoder;
use yuki_client::event::encode_event;
use yuki_client::msg::{Message, Role};
use yuki_client::session::{LoadSource, Session};
use yuki_client::store::{plan_destroy, DestroyOp};

fn msg(role: Role, content: &[u8]) -> Message {
    Message::new(role, content.to_vec())
}

fn transcript(n: usize) -> Vec<Message> {
    let mut msgs = Vec::new();
    for i in 0..n {
        let role = if i % 2 == 0 { Role::User } else { Role::Assistant };
        msgs.push(msg(role, format!("m{}", i).as_bytes()));
    }
    msgs
}

#[test]
fn load_priority_prefers_summary() {
    let summary = ser_msgs(&vec![msg(Role::Assistant, b"MEMORY_BLOCK:\ncompact")]);
    let history = ser_msgs(&transcript(4));
    let (s, src) = Session::load_from_sources(Some(summary), Some(history));
    assert_eq!(src, LoadSource::Summary);
    assert_eq!(s.messages.len(), 1);
    assert_eq!(s.messages[0].content, b"MEMORY_BLOCK:\ncompact".to_vec());
}

#[test]
fn load_falls_back_to_history() {
    let history = ser_msgs(&transcript(2));
    let (s, src) = Session::load_from_sources(None, Some(history));
    assert_eq!(src, LoadSource::History);
    assert_eq!(s.messages.len(), 2);

    let (s2, src2) = Session::load_from_sources(Some(b"corrupt".to_vec()), Some(ser_msgs(&transcript(2))));
    assert_eq!(src2, LoadSource::History);
    assert_eq!(s2.messages.len(), 2);
}

#[test]
fn load_treats_empty_lists_as_absence() {
    let empty = ser_msgs(&Vec::new());
    let history = ser_msgs(&transcript(2));
    let (s, src) = Session::load_from_sources(Some(empty), Some(history));
    assert_eq!(src, LoadSource::History);
    assert_eq!(s.messages.len(), 2);
}

#[test]
fn load_fresh_when_nothing_usable() {
    let (s, src) = Session::load_from_sources(None, None);
    assert_eq!(src, LoadSource::Fresh);
    assert_eq!(s.messages.len(), 0);

    let (s2, src2) = Session::load_from_sources(Some(b"junk".to_vec()), Some(b"junk".to_vec()));
    assert_eq!(src2, LoadSource::Fresh);
    assert_eq!(s2.messages.len(), 0);
}

#[test]
fn backup_made_exactly_when_history_exists() {
    for op in [DestroyOp::Clear, DestroyOp::Summarize] {
        let p = plan_destroy(op, true);
        assert!(p.make_backup);
        assert!(p.remove_history);
        let p = plan_destroy(op, false);
        assert!(!p.make_backup);
    }
    assert!(plan_destroy(DestroyOp::Clear, true).remove_summary);
    assert!(!plan_destroy(DestroyOp::Summarize, true).remove_summary);
}

#[test]
fn scenario_new_conversation_turn() {
    // a new conversation: nothing on disk yet
    let (mut s, src) = Session::load_from_sources(None, None);
    assert_eq!(src, LoadSource::Fresh);
    assert_eq!(s.messages.len(), 0);

    // the user sends "hi"; the staged request carries it last
    let req = s.request_messages(&b"hi".to_vec());
    assert_eq!(req.len(), 1);
    assert!(req[0].role == Role::User);
    assert_eq!(req[0].content, b"hi".to_vec());

    // the mocked exchange streams two fragments, then the sentinel
    let mut stream = Vec::new();
    for f in [&b"Hel"[..], &b"lo!"[..]] {
        stream.extend_from_slice(b"data: ");
        stream.extend_from_slice(&encode_event(&f.to_vec()));
        stream.push(b'\n');
    }
    stream.extend_from_slice(b"data: [DONE]\n");
    let mut d = StreamDecoder::new();
    d.push_chunk(&stream[..10].to_vec());
    d.push_chunk(&stream[10..].to_vec());
    assert!(d.is_done());
    let reply = d.into_output();
    assert_eq!(reply, b"Hello!".to_vec());

    // the turn commits and hands out the bytes persisted as history
    let hist = s.commit_turn(b"hi".to_vec(), reply);
    let back = parse_msgs(&hist).expect("persisted history parses");
    assert_eq!(back.len(), 2);
    assert!(back[0].role == Role::User);
    assert_eq!(back[0].content, b"hi".to_vec());
    assert!(back[1].role == Role::Assistant);
    assert_eq!(back[1].content, b"Hello!".to_vec());
}

#[test]
fn scenario_summarize() {
    let mut s = Session { messages: transcript(10) };

    // history exists, so the plan makes exactly one backup first
    let plan = plan_destroy(DestroyOp::Summarize, true);
    assert!(plan.make_backup);
    assert!(plan.remove_history);

    // the summarization request is the transcript plus the fixed instruction
    let req = s.summarize_request();
    assert_eq!(req.len(), 11);
    assert!(req[10].role == Role::User);
    assert_eq!(
        req[10].content,
        b"Summarize our conversation into 4 bullet points for your memory.".to_vec()
    );

    // the mocked reply replaces the transcript with one memory message
    let summ = s.apply_summary(&b"- a\n- b".to_vec());
    assert_eq!(s.messages.len(), 1);
    assert!(s.messages[0].role == Role::Assistant);
    assert_eq!(s.messages[0].content, b"MEMORY_BLOCK:\n- a\n- b".to_vec());
    let back = parse_msgs(&summ).expect("persisted summary parses");
    assert_eq!(back.len(), 1);
    assert_eq!(back[0].content, b"MEMORY_BLOCK:\n- a\n- b".to_vec());
}

#[test]
fn scenario_transport_failure_mid_turn() {
    let mut s = Session { messages: transcript(2) };
    let before = s.history_bytes();

    // the user message is staged for the request only
    let req = s.request_messages(&b"question".to_vec());
    assert_eq!(req.len(), 3);

    // the exchange fails: nothing is committed, nothing new to persist
    assert_eq!(s.messages.len(), 2);
    assert_eq!(s.history_bytes(), before);
    drop(req);
    let _ = s.char_count();
    assert_eq!(s.history_bytes(), before);
}

#[test]
fn clear_empties_transcript() {
    let mut s = Session { messages: transcript(6) };
    s.apply_clear();
    assert_eq!(s.messages.len(), 0);
    assert_eq!(s.history_bytes(), b"[]".to_vec());
}

#[test]
fn char_count_totals_content() {
    let s = Session { messages: vec![msg(Role::User, b"abc"), msg(Role::Assistant, b"defgh")] };
    assert_eq!(s.char_count(), 8);
    let empty = Session { messages: Vec::new() };
    assert_eq!(empty.char_count(), 0);
}
