//! Escaped string fields of the structured text formats.
//!
//! Transcript files, request bodies and stream events all carry byte
//! strings inside double quotes, with backslash escapes for the quote,
//! the backslash itself, the common control bytes, and a `\u00XY` form
//! for the remaining control bytes. `spec_escape` is the canonical
//! escaping; `spec_parse_string` consumes an escaped field up to its
//! closing quote and is proved to invert `spec_escape`.

use vstd::prelude::*;

verus! {

pub const QUOTE: u8 = 0x22;
pub const BACKSLASH: u8 = 0x5c;
pub const LF: u8 = 0x0a;
pub const CR: u8 = 0x0d;
pub const TAB: u8 = 0x09;

/// Bytes that are written as themselves inside a quoted field.
pub open spec fn is_plain(b: u8) -> bool {
    b >= 0x20 && b != QUOTE && b != BACKSLASH
}

/// The byte for one hexadecimal digit, lower case.
pub open spec fn spec_hex_digit(n: u8) -> u8
    recommends
        n < 16,
{
    if n < 10 {
        (0x30 + n) as u8
    } else {
        (0x57 + n) as u8
    }
}

/// The value of one hexadecimal digit byte, if it is one.
pub open spec fn spec_hex_val(b: u8) -> Option<u8> {
    if 0x30 <= b && b <= 0x39 {
        Some((b - 0x30) as u8)
    } else if 0x61 <= b && b <= 0x66 {
        Some((b - 0x57) as u8)
    } else {
        None
    }
}

/// The escaped form of one byte.
pub open spec fn esc_byte(b: u8) -> Seq<u8> {
    if b == QUOTE {
        seq![BACKSLASH, QUOTE]
    } else if b == BACKSLASH {
        seq![BACKSLASH, BACKSLASH]
    } else if b == LF {
        seq![BACKSLASH, 0x6e]
    } else if b == CR {
        seq![BACKSLASH, 0x72]
    } else if b == TAB {
        seq![BACKSLASH, 0x74]
    } else if b < 0x20 {
        seq![BACKSLASH, 0x75, 0x30, 0x30, spec_hex_digit(b / 16), spec_hex_digit(b % 16)]
    } else {
        seq![b]
    }
}

/// The escaped form of a byte string.
pub open spec fn spec_escape(s: Seq<u8>) -> Seq<u8>
    decreases s.len(),
{
    if s.len() == 0 {
        Seq::empty()
    } else {
        esc_byte(s[0]) + spec_escape(s.skip(1))
    }
}

/// Escaping distributes over concatenation.
pub proof fn lemma_escape_concat(a: Seq<u8>, b: Seq<u8>)
    ensures
        spec_escape(a + b) == spec_escape(a) + spec_escape(b),
    decreases a.len(),
{
    if a.len() == 0 {
        assert(a + b =~= b);
        assert(spec_escape(a) + spec_escape(b) =~= spec_escape(b));
    } else {
        assert((a + b).skip(1) =~= a.skip(1) + b);
        lemma_escape_concat(a.skip(1), b);
        assert(spec_escape(a + b) =~= spec_escape(a) + spec_escape(b));
    }
}

/// A string of plain bytes escapes to itself.
pub proof fn lemma_escape_plain(s: Seq<u8>)
    requires
        forall|i: int| 0 <= i < s.len() ==> is_plain(#[trigger] s[i]),
    ensures
        spec_escape(s) == s,
    decreases s.len(),
{
    if s.len() == 0 {
        assert(spec_escape(s) =~= s);
    } else {
        lemma_escape_plain(s.skip(1));
        assert(esc_byte(s[0]) =~= seq![s[0]]);
        assert(spec_escape(s) =~= s);
    }
}

/// The escaped form never contains a raw line feed.
pub proof fn lemma_escape_no_lf(s: Seq<u8>)
    ensures
        forall|i: int| 0 <= i < spec_escape(s).len() ==> spec_escape(s)[i] != LF,
    decreases s.len(),
{
    if s.len() == 0 {
    } else {
        lemma_escape_no_lf(s.skip(1));
        assert forall|i: int| 0 <= i < spec_escape(s).len() implies spec_escape(s)[i] != LF by {
            if i < esc_byte(s[0]).len() {
                assert(spec_escape(s)[i] == esc_byte(s[0])[i]);
            } else {
                assert(spec_escape(s)[i] == spec_escape(s.skip(1))[i - esc_byte(s[0]).len()]);
            }
        }
    }
}

/// Consumes an escaped field up to its closing quote; yields the
/// unescaped content and the input after the quote. `None` when the
/// input ends before the quote or holds an unknown escape.
pub open spec fn spec_parse_string(s: Seq<u8>) -> Option<(Seq<u8>, Seq<u8>)>
    decreases s.len(),
{
    if s.len() == 0 {
        None
    } else if s[0] == QUOTE {
        Some((Seq::empty(), s.skip(1)))
    } else if s[0] == BACKSLASH {
        if s.len() < 2 {
            None
        } else {
            let e = s[1];
            if e == QUOTE || e == BACKSLASH || e == 0x6e || e == 0x72 || e == 0x74 {
                let b = unesc_char(e);
                match spec_parse_string(s.skip(2)) {
                    Some((c, r)) => Some((seq![b] + c, r)),
                    None => None,
                }
            } else if e == 0x75 {
                if s.len() < 6 {
                    None
                } else {
                    match spec_hex_quad(s[2], s[3], s[4], s[5]) {
                        Some(v) => match spec_parse_string(s.skip(6)) {
                            Some((c, r)) => Some((seq![v] + c, r)),
                            None => None,
                        },
                        None => None,
                    }
                }
            } else {
                None
            }
        }
    } else {
        match spec_parse_string(s.skip(1)) {
            Some((c, r)) => Some((seq![s[0]] + c, r)),
            None => None,
        }
    }
}

/// The byte denoted by a single-character escape.
pub open spec fn unesc_char(e: u8) -> u8 {
    if e == QUOTE {
        QUOTE
    } else if e == BACKSLASH {
        BACKSLASH
    } else if e == 0x6e {
        LF
    } else if e == 0x72 {
        CR
    } else {
        TAB
    }
}

/// The byte denoted by four hexadecimal digits, when they name one
/// byte below 0x80; larger code points are not accepted.
pub open spec fn spec_hex_quad(a: u8, b: u8, c: u8, d: u8) -> Option<u8> {
    match (spec_hex_val(a), spec_hex_val(b), spec_hex_val(c), spec_hex_val(d)) {
        (Some(va), Some(vb), Some(vc), Some(vd)) => {
            let v = va * 4096 + vb * 256 + vc * 16 + vd;
            if v < 0x80 {
                Some(v as u8)
            } else {
                None
            }
        },
        _ => None,
    }
}

/// A successful string parse consumes at least one byte.
pub proof fn lemma_parse_string_consumes(s: Seq<u8>)
    ensures
        spec_parse_string(s) matches Some((c, r)) ==> r.len() < s.len(),
    decreases s.len(),
{
    if s.len() == 0 {
    } else if s[0] == QUOTE {
    } else if s[0] == BACKSLASH {
        if s.len() >= 2 {
            lemma_parse_string_consumes(s.skip(2));
            if s.len() >= 6 {
                lemma_parse_string_consumes(s.skip(6));
            }
        }
    } else {
        lemma_parse_string_consumes(s.skip(1));
    }
}

/// Parsing inverts escaping: an escaped field followed by its closing
/// quote parses back to the original content, leaving the rest.
pub proof fn lemma_escape_parse(c: Seq<u8>, rest: Seq<u8>)
    ensures
        spec_parse_string(spec_escape(c) + seq![QUOTE] + rest) == Some((c, rest)),
    decreases c.len(),
{
    let s = spec_escape(c) + seq![QUOTE] + rest;
    if c.len() == 0 {
        assert(s =~= seq![QUOTE] + rest);
        assert(s[0] == QUOTE);
        assert(s.skip(1) =~= rest);
    } else {
        let b = c[0];
        let tail = spec_escape(c.skip(1)) + seq![QUOTE] + rest;
        lemma_escape_parse(c.skip(1), rest);
        assert(spec_escape(c) =~= esc_byte(b) + spec_escape(c.skip(1)));
        if b == QUOTE || b == BACKSLASH || b == LF || b == CR || b == TAB {
            assert(s =~= seq![BACKSLASH, esc_byte(b)[1]] + tail);
            assert(s[0] == BACKSLASH);
            assert(s.len() >= 2);
            assert(s.skip(2) =~= tail);
            assert(unesc_char(esc_byte(b)[1]) == b);
            assert(seq![b] + c.skip(1) =~= c);
        } else if b < 0x20 {
            assert(s =~= seq![
                BACKSLASH,
                0x75u8,
                0x30u8,
                0x30u8,
                spec_hex_digit(b / 16),
                spec_hex_digit(b % 16),
            ] + tail);
            assert(s[0] == BACKSLASH && s[1] == 0x75);
            assert(s.len() >= 6);
            assert(s.skip(6) =~= tail);
            assert(spec_hex_val(0x30) == Some(0u8));
            assert(spec_hex_val(spec_hex_digit(b / 16)) == Some((b / 16) as u8));
            assert(spec_hex_val(spec_hex_digit(b % 16)) == Some((b % 16) as u8));
            assert(spec_hex_quad(0x30, 0x30, spec_hex_digit(b / 16), spec_hex_digit(b % 16))
                == Some(b));
            assert(seq![b] + c.skip(1) =~= c);
        } else {
            assert(s =~= seq![b] + tail);
            assert(s[0] == b);
            assert(b != QUOTE && b != BACKSLASH);
            assert(s.skip(1) =~= tail);
            assert(seq![b] + c.skip(1) =~= c);
        }
    }
}

/// Prepends already-unescaped content to the outcome of a string parse.
pub open spec fn prepend_parse(a: Seq<u8>, o: Option<(Seq<u8>, Seq<u8>)>) -> Option<
    (Seq<u8>, Seq<u8>),
> {
    match o {
        Some((c, r)) => Some((a + c, r)),
        None => None,
    }
}

/// One hexadecimal digit byte, lower case.
pub fn hex_digit(n: u8) -> (r: u8)
    requires
        n < 16,
    ensures
        r == spec_hex_digit(n),
{
    if n < 10 {
        0x30 + n
    } else {
        0x57 + n
    }
}

/// The value of one hexadecimal digit byte.
pub fn hex_val(b: u8) -> (r: Option<u8>)
    ensures
        r == spec_hex_val(b),
{
    if 0x30 <= b && b <= 0x39 {
        Some(b - 0x30)
    } else if 0x61 <= b && b <= 0x66 {
        Some(b - 0x57)
    } else {
        None
    }
}

/// Appends the escaped form of `src` to `out`.
pub fn escape_append(out: &mut Vec<u8>, src: &Vec<u8>)
    ensures
        final(out)@ == old(out)@ + spec_escape(src@),
{
    let ghost base = out@;
    let mut i: usize = 0;
    while i < src.len()
        invariant
            0 <= i <= src@.len(),
            out@ == base + spec_escape(src@.take(i as int)),
        decreases src@.len() - i,
    {
        let b = src[i];
        if b == QUOTE {
            out.push(BACKSLASH);
            out.push(QUOTE);
        } else if b == BACKSLASH {
            out.push(BACKSLASH);
            out.push(BACKSLASH);
        } else if b == LF {
            out.push(BACKSLASH);
            out.push(0x6e);
        } else if b == CR {
            out.push(BACKSLASH);
            out.push(0x72);
        } else if b == TAB {
            out.push(BACKSLASH);
            out.push(0x74);
        } else if b < 0x20 {
            out.push(BACKSLASH);
            out.push(0x75);
            out.push(0x30);
            out.push(0x30);
            out.push(hex_digit(b / 16));
            out.push(hex_digit(b % 16));
        } else {
            out.push(b);
        }
        proof {
            let pre = src@.take(i as int);
            assert(src@.take(i + 1 as int) =~= pre + seq![src@[i as int]]);
            lemma_escape_concat(pre, seq![src@[i as int]]);
            reveal_with_fuel(spec_escape, 3);
            assert(seq![src@[i as int]].skip(1) =~= Seq::<u8>::empty());
            assert(esc_byte(src@[i as int]) + Seq::<u8>::empty() =~= esc_byte(src@[i as int]));
            assert(spec_escape(seq![src@[i as int]]) =~= esc_byte(src@[i as int]));
            assert(out@ =~= base + spec_escape(src@.take(i + 1 as int)));
        }
        i += 1;
    }
    proof {
        assert(src@.take(src@.len() as int) =~= src@);
    }
}

/// Parses an escaped field of `v` starting at `pos`, up to and past
/// its closing quote; yields the content and the position after the
/// quote.
pub fn parse_string(v: &Vec<u8>, pos: usize) -> (r: Option<(Vec<u8>, usize)>)
    requires
        pos <= v@.len(),
    ensures
        match r {
            Some(cp) => {
                &&& pos < cp.1 <= v@.len()
                &&& spec_parse_string(v@.skip(pos as int)) == Some(
                    (cp.0@, v@.skip(cp.1 as int)),
                )
            },
            None => spec_parse_string(v@.skip(pos as int)) is None,
        },
{
    let mut acc: Vec<u8> = Vec::new();
    let mut i: usize = pos;
    proof {
        if let Some((c, r)) = spec_parse_string(v@.skip(pos as int)) {
            assert(Seq::<u8>::empty() + c =~= c);
        }
    }
    loop
        invariant
            pos <= i <= v@.len(),
            spec_parse_string(v@.skip(pos as int)) == prepend_parse(
                acc@,
                spec_parse_string(v@.skip(i as int)),
            ),
        decreases v@.len() - i,
    {
        let ghost suf = v@.skip(i as int);
        if i == v.len() {
            proof {
                assert(suf.len() == 0);
            }
            return None;
        }
        let b = v[i];
        proof {
            assert(suf[0] == b);
        }
        if b == QUOTE {
            proof {
                assert(suf.skip(1) =~= v@.skip(i + 1 as int));
                assert(acc@ + Seq::<u8>::empty() =~= acc@);
            }
            return Some((acc, i + 1));
        } else if b == BACKSLASH {
            if v.len() - i < 2 {
                proof {
                    assert(suf.len() < 2);
                }
                return None;
            }
            let e = v[i + 1];
            proof {
                assert(suf[1] == e);
            }
            if e == QUOTE || e == BACKSLASH || e == 0x6e || e == 0x72 || e == 0x74 {
                let u = if e == QUOTE {
                    QUOTE
                } else if e == BACKSLASH {
                    BACKSLASH
                } else if e == 0x6e {
                    LF
                } else if e == 0x72 {
                    CR
                } else {
                    TAB
                };
                proof {
                    assert(u == unesc_char(e));
                    assert(suf.skip(2) =~= v@.skip(i + 2 as int));
                    if let Some((c, r)) = spec_parse_string(v@.skip(i + 2 as int)) {
                        assert((acc@ + seq![u]) + c =~= acc@ + (seq![u] + c));
                    }
                }
                acc.push(u);
                i += 2;
            } else if e == 0x75 {
                if v.len() - i < 6 {
                    proof {
                        assert(suf.len() < 6);
                    }
                    return None;
                }
                proof {
                    assert(suf[2] == v@[i + 2] && suf[3] == v@[i + 3] && suf[4] == v@[i + 4]
                        && suf[5] == v@[i + 5]);
                }
                let (va, vb, vc, vd) = match (
                    hex_val(v[i + 2]),
                    hex_val(v[i + 3]),
                    hex_val(v[i + 4]),
                    hex_val(v[i + 5]),
                ) {
                    (Some(va), Some(vb), Some(vc), Some(vd)) => (va, vb, vc, vd),
                    _ => {
                        return None;
                    },
                };
                let val: u32 = va as u32 * 4096 + vb as u32 * 256 + vc as u32 * 16 + vd as u32;
                if val >= 0x80 {
                    return None;
                }
                let u = val as u8;
                proof {
                    assert(spec_hex_quad(v@[i + 2], v@[i + 3], v@[i + 4], v@[i + 5]) == Some(u));
                    assert(suf.skip(6) =~= v@.skip(i + 6 as int));
                    if let Some((c, r)) = spec_parse_string(v@.skip(i + 6 as int)) {
                        assert((acc@ + seq![u]) + c =~= acc@ + (seq![u] + c));
                    }
                }
                acc.push(u);
                i += 6;
            } else {
                return None;
            }
        } else {
            proof {
                assert(suf.skip(1) =~= v@.skip(i + 1 as int));
                if let Some((c, r)) = spec_parse_string(v@.skip(i + 1 as int)) {
                    assert((acc@ + seq![b]) + c =~= acc@ + (seq![b] + c));
                }
            }
            acc.push(b);
            i += 1;
        }
    }
}

} // verus!
