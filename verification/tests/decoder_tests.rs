use yuki_client::decoder::StreamDecoder;
use yuki_client::event::{encode_event, parse_event, request_body};
use yuki_client::msg::{Message, Role};

fn data_line(frag: &[u8]) -> Vec<u8> {
    let mut l = b"data: ".to_vec();
    l.extend_from_slice(&encode_event(&frag.to_vec()));
    l.push(b'\n');
    l
}

fn done_line() -> Vec<u8> {
    b"data: [DONE]\n".to_vec()
}

fn well_formed_stream(frags: &[&[u8]]) -> Vec<u8> {
    let mut s = Vec::new();
    for f in frags {
        s.extend_from_slice(&data_line(f));
    }
    s.extend_from_slice(&done_line());
    s
}

fn feed_in_chunks(stream: &[u8], cuts: &[usize]) -> (Vec<Vec<u8>>, bool, Vec<u8>) {
    let mut d = StreamDecoder::new();
    let mut emitted = Vec::new();
    let mut last = 0;
    for &c in cuts {
        assert!(last <= c && c <= stream.len());
        emitted.extend(d.push_chunk(&stream[last..c].to_vec()));
        last = c;
    }
    emitted.extend(d.push_chunk(&stream[last..].to_vec()));
    let done = d.is_done();
    (emitted, done, d.into_output())
}

#[test]
fn whole_stream_in_one_chunk() {
    let s = well_formed_stream(&[b"Hel", b"lo!"]);
    let (emitted, done, out) = feed_in_chunks(&s, &[]);
    assert_eq!(emitted, vec![b"Hel".to_vec(), b"lo!".to_vec()]);
    assert!(done);
    assert_eq!(out, b"Hello!".to_vec());
}

#[test]
fn reconstruction_at_every_boundary() {
    let s = well_formed_stream(&[b"one ", b"two ", b"three"]);
    for cut in 0..=s.len() {
        let (emitted, done, out) = feed_in_chunks(&s, &[cut]);
        assert_eq!(emitted, vec![b"one ".to_vec(), b"two ".to_vec(), b"three".to_vec()]);
        assert!(done);
        assert_eq!(out, b"one two three".to_vec());
    }
}

#[test]
fn reconstruction_byte_by_byte() {
    let s = well_formed_stream(&[b"a", b"bc"]);
    let cuts: Vec<usize> = (1..s.len()).collect();
    let (emitted, done, out) = feed_in_chunks(&s, &cuts);
    assert_eq!(emitted, vec![b"a".to_vec(), b"bc".to_vec()]);
    assert!(done);
    assert_eq!(out, b"abc".to_vec());
}

#[test]
fn noise_lines_are_ignored() {
    let mut s = b": keepalive\nevent: ping\n\n".to_vec();
    s.extend_from_slice(&data_line(b"ok"));
    s.extend_from_slice(&done_line());
    let (emitted, done, out) = feed_in_chunks(&s, &[7]);
    assert_eq!(emitted, vec![b"ok".to_vec()]);
    assert!(done);
    assert_eq!(out, b"ok".to_vec());
}

#[test]
fn malformed_payload_is_skipped_not_fatal() {
    let mut s = data_line(b"keep ");
    s.extend_from_slice(b"data: {not json}\n");
    s.extend_from_slice(&data_line(b"going"));
    s.extend_from_slice(&done_line());
    let (emitted, done, out) = feed_in_chunks(&s, &[3, 9]);
    assert_eq!(emitted, vec![b"keep ".to_vec(), b"going".to_vec()]);
    assert!(done);
    assert_eq!(out, b"keep going".to_vec());
}

#[test]
fn event_without_content_is_skipped() {
    let mut s = data_line(b"x");
    s.extend_from_slice(b"data: {\"choices\":[{\"delta\":{}}]}\n");
    s.extend_from_slice(&done_line());
    let (emitted, done, out) = feed_in_chunks(&s, &[]);
    assert_eq!(emitted, vec![b"x".to_vec()]);
    assert!(done);
    assert_eq!(out, b"x".to_vec());
}

#[test]
fn exhaustion_without_sentinel_keeps_output() {
    let mut s = data_line(b"partial ");
    s.extend_from_slice(&data_line(b"answer"));
    let (emitted, done, out) = feed_in_chunks(&s, &[5]);
    assert_eq!(emitted, vec![b"partial ".to_vec(), b"answer".to_vec()]);
    assert!(!done);
    assert_eq!(out, b"partial answer".to_vec());
}

#[test]
fn input_after_sentinel_is_ignored() {
    let mut s = data_line(b"yes");
    s.extend_from_slice(&done_line());
    s.extend_from_slice(&data_line(b"no"));
    let (emitted, done, out) = feed_in_chunks(&s, &[1, 2]);
    assert_eq!(emitted, vec![b"yes".to_vec()]);
    assert!(done);
    assert_eq!(out, b"yes".to_vec());
}

#[test]
fn crlf_lines_are_accepted() {
    let mut s = b"data: ".to_vec();
    s.extend_from_slice(&encode_event(&b"win".to_vec()));
    s.extend_from_slice(b"\r\n");
    s.extend_from_slice(b"data: [DONE]\r\n");
    let (emitted, done, out) = feed_in_chunks(&s, &[4]);
    assert_eq!(emitted, vec![b"win".to_vec()]);
    assert!(done);
    assert_eq!(out, b"win".to_vec());
}

#[test]
fn fragments_with_escapes_survive() {
    let s = well_formed_stream(&[b"quote \"q\" ", b"back\\slash\nnewline"]);
    let (emitted, done, out) = feed_in_chunks(&s, &[11, 23, 24]);
    assert_eq!(emitted.len(), 2);
    assert!(done);
    assert_eq!(out, b"quote \"q\" back\\slash\nnewline".to_vec());
}

#[test]
fn request_body_has_the_fixed_shape() {
    let msgs = vec![Message::new(Role::User, b"hi".to_vec())];
    assert_eq!(
        request_body(&msgs),
        b"{\"model\":\"local\",\"messages\":[{\"role\":\"user\",\"content\":\"hi\"}],\"stream\":true}"
            .to_vec()
    );
}

#[test]
fn parse_event_exact_shape() {
    let p = b"{\"choices\":[{\"delta\":{\"content\":\"Hel\"}}]}".to_vec();
    assert_eq!(parse_event(&p), Some(b"Hel".to_vec()));
    assert_eq!(parse_event(&b"[DONE]".to_vec()), None);
    assert_eq!(parse_event(&b"{}".to_vec()), None);
    assert_eq!(parse_event(&b"{\"choices\":[{\"delta\":{}}]}".to_vec()), None);
    let trailing = b"{\"choices\":[{\"delta\":{\"content\":\"x\"}}]}extra".to_vec();
    assert_eq!(parse_event(&trailing), None);
}

#[test]
fn encode_event_parses_back() {
    let frags: [&[u8]; 4] = [b"", b"plain", b"with \"quotes\" and \\", b"ctl\x02\tend"];
    for f in frags {
        let e = encode_event(&f.to_vec());
        assert_eq!(parse_event(&e), Some(f.to_vec()));
    }
}
