//! The incremental decoder for the streaming response.
//!
//! The response body arrives as byte chunks of arbitrary size; the
//! protocol boundary is lines. The decoder buffers across chunk
//! boundaries, and on each complete line either ignores it (no
//! payload prefix), stops (the end-of-stream sentinel), or extracts a
//! content fragment from its event payload. The decoder's behaviour
//! is a fold over single bytes, so how the stream was cut into
//! chunks cannot change what it emits; that is proved below.

use vstd::prelude::*;

use crate::ascii::ascii_seq;
use crate::ascii::ascii_bytes;
use crate::ascii::bytes_eq;
use crate::ascii::bytes_start_with;
use crate::jsonstr::LF;
use crate::jsonstr::CR;
use crate::event::spec_parse_event;
use crate::event::parse_event;

verus! {

/// The state of the decoder: the pending partial line, the fragments
/// emitted so far, and whether the end-of-stream sentinel was seen.
pub struct DecSt {
    pub buf: Seq<u8>,
    pub frags: Seq<Seq<u8>>,
    pub done: bool,
}

/// The payload marker at the start of a meaningful line.
pub open spec fn spec_data_prefix() -> Seq<u8> {
    ascii_seq("data: "@)
}

/// The end-of-stream sentinel payload.
pub open spec fn spec_done_payload() -> Seq<u8> {
    ascii_seq("[DONE]"@)
}

/// A complete line with a trailing carriage return stripped.
pub open spec fn spec_strip_cr(line: Seq<u8>) -> Seq<u8> {
    if line.len() >= 1 && line[line.len() - 1] == CR {
        line.take(line.len() - 1)
    } else {
        line
    }
}

/// The payload of a line, when it carries one.
pub open spec fn spec_line_payload(line: Seq<u8>) -> Option<Seq<u8>> {
    let l = spec_strip_cr(line);
    if spec_data_prefix().is_prefix_of(l) {
        Some(l.skip(spec_data_prefix().len() as int))
    } else {
        None
    }
}

/// Whether a complete line is the end-of-stream sentinel.
pub open spec fn spec_line_done(line: Seq<u8>) -> bool {
    spec_line_payload(line) == Some(spec_done_payload())
}

/// The fragment carried by a complete line, if any.
pub open spec fn spec_line_frag(line: Seq<u8>) -> Option<Seq<u8>> {
    match spec_line_payload(line) {
        Some(p) => spec_parse_event(p),
        None => None,
    }
}

/// The decoder state before any input.
pub open spec fn spec_init() -> DecSt {
    DecSt { buf: Seq::empty(), frags: Seq::empty(), done: false }
}

/// One byte of input. A line feed completes the buffered line and
/// classifies it; any other byte is buffered. After the sentinel the
/// state absorbs all further input.
pub open spec fn spec_step(st: DecSt, b: u8) -> DecSt {
    if st.done {
        st
    } else if b == LF {
        if spec_line_done(st.buf) {
            DecSt { buf: Seq::empty(), frags: st.frags, done: true }
        } else {
            match spec_line_frag(st.buf) {
                Some(f) => DecSt { buf: Seq::empty(), frags: st.frags.push(f), done: false },
                None => DecSt { buf: Seq::empty(), frags: st.frags, done: false },
            }
        }
    } else {
        DecSt { buf: st.buf.push(b), frags: st.frags, done: st.done }
    }
}

/// A byte sequence of input, folded one byte at a time.
pub open spec fn spec_feed(st: DecSt, s: Seq<u8>) -> DecSt
    decreases s.len(),
{
    if s.len() == 0 {
        st
    } else {
        spec_feed(spec_step(st, s[0]), s.skip(1))
    }
}

/// Feeding a concatenation equals feeding the parts in order: the
/// decoder cannot observe chunk boundaries.
pub proof fn lemma_feed_concat(st: DecSt, a: Seq<u8>, b: Seq<u8>)
    ensures
        spec_feed(st, a + b) == spec_feed(spec_feed(st, a), b),
    decreases a.len(),
{
    if a.len() == 0 {
        assert(a + b =~= b);
    } else {
        assert((a + b)[0] == a[0]);
        assert((a + b).skip(1) =~= a.skip(1) + b);
        lemma_feed_concat(spec_step(st, a[0]), a.skip(1), b);
    }
}

/// A sequence of chunks, folded chunk by chunk.
pub open spec fn spec_feed_chunks(st: DecSt, chunks: Seq<Seq<u8>>) -> DecSt
    decreases chunks.len(),
{
    if chunks.len() == 0 {
        st
    } else {
        spec_feed_chunks(spec_feed(st, chunks[0]), chunks.skip(1))
    }
}

/// Feeding chunk by chunk equals feeding the whole stream at once.
pub proof fn lemma_feed_chunks_flatten(st: DecSt, chunks: Seq<Seq<u8>>)
    ensures
        spec_feed_chunks(st, chunks) == spec_feed(st, chunks.flatten()),
    decreases chunks.len(),
{
    if chunks.len() == 0 {
        assert(chunks.flatten() =~= Seq::<u8>::empty());
    } else {
        assert(chunks.flatten() == chunks[0] + chunks.skip(1).flatten()) by {
            assert(chunks.first() == chunks[0]);
            assert(chunks.drop_first() =~= chunks.skip(1));
        }
        lemma_feed_concat(st, chunks[0], chunks.skip(1).flatten());
        lemma_feed_chunks_flatten(spec_feed(st, chunks[0]), chunks.skip(1));
    }
}

/// Bytes that contain no line feed only extend the pending line.
pub proof fn lemma_feed_no_lf(st: DecSt, s: Seq<u8>)
    requires
        !st.done,
        forall|i: int| 0 <= i < s.len() ==> s[i] != LF,
    ensures
        spec_feed(st, s) == (DecSt { buf: st.buf + s, frags: st.frags, done: false }),
    decreases s.len(),
{
    if s.len() == 0 {
        assert(st.buf + s =~= st.buf);
    } else {
        let st1 = spec_step(st, s[0]);
        assert(st1.buf =~= st.buf.push(s[0]));
        lemma_feed_no_lf(st1, s.skip(1));
        assert(st.buf.push(s[0]) + s.skip(1) =~= st.buf + s);
    }
}

/// Feeding one more byte steps the state once more.
pub proof fn lemma_feed_snoc(st: DecSt, s: Seq<u8>, b: u8)
    ensures
        spec_feed(st, s.push(b)) == spec_step(spec_feed(st, s), b),
    decreases s.len(),
{
    if s.len() == 0 {
        assert(s.push(b)[0] == b);
        assert(s.push(b).skip(1) =~= Seq::<u8>::empty());
        assert(spec_feed(spec_step(st, b), Seq::<u8>::empty()) == spec_step(st, b));
    } else {
        assert(s.push(b)[0] == s[0]);
        assert(s.push(b).skip(1) =~= s.skip(1).push(b));
        lemma_feed_snoc(spec_step(st, s[0]), s.skip(1), b);
    }
}

/// One payload line of a well-formed stream, carrying a fragment.
pub open spec fn spec_data_line(f: Seq<u8>) -> Seq<u8> {
    spec_data_prefix() + crate::event::spec_encode_event(f) + seq![LF]
}

/// The closing sentinel line of a well-formed stream.
pub open spec fn spec_done_line() -> Seq<u8> {
    spec_data_prefix() + spec_done_payload() + seq![LF]
}

/// A well-formed stream: one payload line per fragment, in order,
/// closed by the sentinel line.
pub open spec fn spec_build_stream(frags: Seq<Seq<u8>>) -> Seq<u8>
    decreases frags.len(),
{
    if frags.len() == 0 {
        spec_done_line()
    } else {
        spec_data_line(frags[0]) + spec_build_stream(frags.skip(1))
    }
}

/// A payload line's bytes before its line feed: no line feed inside,
/// no trailing carriage return, and its payload is the event text.
proof fn lemma_data_line_shape(f: Seq<u8>)
    ensures
        ({
            let l = spec_data_prefix() + crate::event::spec_encode_event(f);
            &&& forall|i: int| 0 <= i < l.len() ==> l[i] != LF
            &&& spec_strip_cr(l) == l
            &&& spec_line_payload(l) == Some(crate::event::spec_encode_event(f))
            &&& !spec_line_done(l)
            &&& spec_line_frag(l) == Some(f)
        }),
{
    reveal_strlit("data: ");
    reveal_strlit("{\"choices\":[{\"delta\":{\"content\":\"");
    reveal_strlit("}}]}");
    reveal_strlit("[DONE]");
    let e = crate::event::spec_encode_event(f);
    let l = spec_data_prefix() + e;
    let pre = crate::event::spec_event_prefix();
    let tail = crate::event::spec_event_tail();
    let esc = crate::jsonstr::spec_escape(f);

    crate::jsonstr::lemma_escape_no_lf(f);
    assert forall|i: int| 0 <= i < l.len() implies l[i] != LF by {
        if i < spec_data_prefix().len() {
            assert(l[i] == spec_data_prefix()[i]);
        } else {
            let j = i - spec_data_prefix().len();
            assert(l[i] == e[j]);
            if j < pre.len() {
                assert(e[j] == pre[j]);
            } else if j < pre.len() + esc.len() {
                assert(e[j] == esc[j - pre.len()]);
            } else if j == pre.len() + esc.len() {
                assert(e[j] == crate::jsonstr::QUOTE);
            } else {
                assert(e[j] == tail[j - (pre.len() + esc.len() + 1)]);
            }
        }
    }

    assert(l[l.len() - 1] == tail[tail.len() - 1]);
    assert(tail[tail.len() - 1] != CR);
    assert(spec_strip_cr(l) == l);

    crate::codec::lemma_prefix_concat(spec_data_prefix(), e);
    assert(spec_line_payload(l) == Some(e));

    assert(e.len() >= pre.len());
    assert(pre.len() > spec_done_payload().len());
    assert(e != spec_done_payload());
    assert(!spec_line_done(l));

    crate::event::lemma_event_round_trip(f);
    assert(spec_line_frag(l) == Some(f));
}

/// Feeding one payload line appends exactly its fragment.
#[verifier::rlimit(50)]
proof fn lemma_feed_data_line(frags: Seq<Seq<u8>>, f: Seq<u8>)
    ensures
        spec_feed(
            DecSt { buf: Seq::empty(), frags, done: false },
            spec_data_line(f),
        ) == (DecSt { buf: Seq::empty(), frags: frags.push(f), done: false }),
{
    let st = DecSt { buf: Seq::empty(), frags, done: false };
    let l = spec_data_prefix() + crate::event::spec_encode_event(f);
    lemma_data_line_shape(f);
    assert(spec_data_line(f) =~= l + seq![LF]);
    lemma_feed_concat(st, l, seq![LF]);
    lemma_feed_no_lf(st, l);
    let st1 = spec_feed(st, l);
    assert(st1.buf =~= l);
    assert(seq![LF].skip(1) =~= Seq::<u8>::empty());
    assert(seq![LF][0] == LF);
    assert(spec_feed(spec_step(st1, LF), Seq::<u8>::empty()) == spec_step(st1, LF));
    assert(spec_feed(st1, seq![LF]) == spec_step(st1, LF));
}

/// Feeding the sentinel line finishes the decoder.
proof fn lemma_feed_done_line(frags: Seq<Seq<u8>>)
    ensures
        spec_feed(
            DecSt { buf: Seq::empty(), frags, done: false },
            spec_done_line(),
        ) == (DecSt { buf: Seq::empty(), frags, done: true }),
{
    reveal_strlit("data: ");
    reveal_strlit("[DONE]");
    let st = DecSt { buf: Seq::empty(), frags, done: false };
    let l = spec_data_prefix() + spec_done_payload();
    assert forall|i: int| 0 <= i < l.len() implies l[i] != LF by {
        if i < spec_data_prefix().len() {
            assert(l[i] == spec_data_prefix()[i]);
        } else {
            assert(l[i] == spec_done_payload()[i - spec_data_prefix().len()]);
        }
    }
    assert(l[l.len() - 1] == spec_done_payload()[spec_done_payload().len() - 1]);
    assert(spec_strip_cr(l) == l);
    crate::codec::lemma_prefix_concat(spec_data_prefix(), spec_done_payload());
    assert(spec_line_payload(l) == Some(spec_done_payload()));
    assert(spec_done_line() =~= l + seq![LF]);
    lemma_feed_concat(st, l, seq![LF]);
    lemma_feed_no_lf(st, l);
    let st1 = spec_feed(st, l);
    assert(st1.buf =~= l);
    assert(seq![LF].skip(1) =~= Seq::<u8>::empty());
    assert(seq![LF][0] == LF);
    assert(spec_feed(spec_step(st1, LF), Seq::<u8>::empty()) == spec_step(st1, LF));
    assert(spec_feed(st1, seq![LF]) == spec_step(st1, LF));
}

/// Feeding a whole well-formed stream appends its fragments in order
/// and finishes the decoder.
proof fn lemma_feed_stream(frags: Seq<Seq<u8>>, more: Seq<Seq<u8>>)
    ensures
        spec_feed(
            DecSt { buf: Seq::empty(), frags, done: false },
            spec_build_stream(more),
        ) == (DecSt { buf: Seq::empty(), frags: frags + more, done: true }),
    decreases more.len(),
{
    let st = DecSt { buf: Seq::empty(), frags, done: false };
    if more.len() == 0 {
        lemma_feed_done_line(frags);
        assert(frags + more =~= frags);
    } else {
        lemma_feed_concat(st, spec_data_line(more[0]), spec_build_stream(more.skip(1)));
        lemma_feed_data_line(frags, more[0]);
        lemma_feed_stream(frags.push(more[0]), more.skip(1));
        assert(frags.push(more[0]) + more.skip(1) =~= frags + more);
    }
}

/// Stream reconstruction: for any cut of a well-formed stream into
/// chunks, feeding the chunks in order emits exactly the original
/// fragments, in their original order, and reports completion.
pub proof fn lemma_stream_reconstruction(frags: Seq<Seq<u8>>, chunks: Seq<Seq<u8>>)
    requires
        chunks.flatten() == spec_build_stream(frags),
    ensures
        spec_feed_chunks(spec_init(), chunks) == (DecSt {
            buf: Seq::empty(),
            frags,
            done: true,
        }),
{
    lemma_feed_chunks_flatten(spec_init(), chunks);
    lemma_feed_stream(Seq::empty(), frags);
    assert(Seq::<Seq<u8>>::empty() + frags =~= frags);
}

/// The outcome of one complete line.
pub enum LineAction {
    Done,
    Frag(Vec<u8>),
    Ignore,
}

/// The payload marker, as bytes.
pub fn data_prefix_vec() -> (v: Vec<u8>)
    ensures
        v@ == spec_data_prefix(),
{
    proof {
        reveal_strlit("data: ");
    }
    ascii_bytes("data: ")
}

/// The sentinel payload, as bytes.
pub fn done_payload_vec() -> (v: Vec<u8>)
    ensures
        v@ == spec_done_payload(),
{
    proof {
        reveal_strlit("[DONE]");
    }
    ascii_bytes("[DONE]")
}

/// Classifies one complete line: the sentinel, a line carrying a
/// fragment, or a line to ignore.
pub fn classify_line(line: &Vec<u8>) -> (r: LineAction)
    ensures
        (r is Done) == spec_line_done(line@),
        r matches LineAction::Frag(f) ==> spec_line_frag(line@) == Some(f@),
        r is Ignore ==> spec_line_frag(line@) is None,
{
    let n = line.len();
    let stripped_len = if n >= 1 && line[n - 1] == crate::jsonstr::CR {
        n - 1
    } else {
        n
    };
    let l = crate::ascii::vec_take(line, stripped_len);
    proof {
        assert(l@ == spec_strip_cr(line@));
    }
    let prefix = data_prefix_vec();
    if !bytes_start_with(&l, &prefix) {
        return LineAction::Ignore;
    }
    let payload = crate::ascii::vec_skip(&l, prefix.len());
    if bytes_eq(&payload, &done_payload_vec()) {
        return LineAction::Done;
    }
    match parse_event(&payload) {
        Some(f) => LineAction::Frag(f),
        None => LineAction::Ignore,
    }
}

/// The incremental decoder. It is fed byte chunks as they arrive and
/// hands back the fragments completed by each chunk; `out` carries
/// the concatenation of everything emitted so far.
pub struct StreamDecoder {
    buf: Vec<u8>,
    out: Vec<u8>,
    done: bool,
    frags: Ghost<Seq<Seq<u8>>>,
}

impl View for StreamDecoder {
    type V = DecSt;

    closed spec fn view(&self) -> DecSt {
        DecSt { buf: self.buf@, frags: self.frags@, done: self.done }
    }
}

impl StreamDecoder {
    /// The accumulated output is the concatenation of the fragments.
    pub closed spec fn wf(&self) -> bool {
        self.out@ == self.frags@.flatten()
    }

    pub fn new() -> (d: StreamDecoder)
        ensures
            d@ == spec_init(),
            d.wf(),
    {
        let d = StreamDecoder {
            buf: Vec::new(),
            out: Vec::new(),
            done: false,
            frags: Ghost(Seq::empty()),
        };
        proof {
            assert(d.frags@.flatten() =~= Seq::<u8>::empty());
        }
        d
    }

    /// Whether the end-of-stream sentinel has been seen.
    pub fn is_done(&self) -> (r: bool)
        ensures
            r == self@.done,
    {
        self.done
    }

    /// The concatenation of all fragments emitted so far, in arrival
    /// order.
    pub fn into_output(self) -> (r: Vec<u8>)
        requires
            self.wf(),
        ensures
            r@ == self@.frags.flatten(),
    {
        self.out
    }

    /// Feeds one arrived chunk, of arbitrary size and alignment, and
    /// returns the fragments completed by it, in order.
    pub fn push_chunk(&mut self, chunk: &Vec<u8>) -> (newfrags: Vec<Vec<u8>>)
        requires
            old(self).wf(),
        ensures
            final(self).wf(),
            final(self)@ == spec_feed(old(self)@, chunk@),
            final(self)@.frags == old(self)@.frags + newfrags.deep_view(),
    {
        let ghost st0 = self@;
        let mut res: Vec<Vec<u8>> = Vec::new();
        proof {
            assert(st0.frags + res.deep_view() =~= st0.frags);
            assert(spec_feed(st0, chunk@.take(0)) == st0) by {
                assert(chunk@.take(0).len() == 0);
            }
        }
        let mut i: usize = 0;
        while i < chunk.len()
            invariant
                0 <= i <= chunk@.len(),
                self.wf(),
                self@ == spec_feed(st0, chunk@.take(i as int)),
                self@.frags == st0.frags + res.deep_view(),
            decreases chunk@.len() - i,
        {
            let b = chunk[i];
            proof {
                assert(chunk@.take(i + 1 as int) =~= chunk@.take(i as int).push(chunk@[i as int]));
                lemma_feed_snoc(st0, chunk@.take(i as int), chunk@[i as int]);
            }
            if self.done {
                // the sentinel has been seen; the rest of the input is absorbed
            } else if b == LF {
                let ghost resdv = res.deep_view();
                match classify_line(&self.buf) {
                    LineAction::Done => {
                        self.buf = Vec::new();
                        self.done = true;
                    },
                    LineAction::Frag(f) => {
                        let ghost frags_old = self.frags@;
                        let ghost fv = f@;
                        proof {
                            assert(f.deep_view() =~= fv);
                        }
                        self.buf = Vec::new();
                        crate::ascii::append_bytes(&mut self.out, &f);
                        self.frags = Ghost(frags_old.push(fv));
                        res.push(f);
                        proof {
                            frags_old.lemma_flatten_push(fv);
                            assert(res.deep_view() =~= resdv.push(fv));
                            assert(st0.frags + resdv.push(fv) =~= (st0.frags + resdv).push(fv));
                        }
                    },
                    LineAction::Ignore => {
                        self.buf = Vec::new();
                    },
                }
            } else {
                self.buf.push(b);
            }
            i += 1;
        }
        proof {
            assert(chunk@.take(chunk@.len() as int) =~= chunk@);
        }
        res
    }
}

} // verus!
