//! Bridging between ASCII string literals and byte sequences.
//!
//! The wire and file formats of this crate are byte-oriented, while the
//! fixed tokens of those formats (field tags, command words, sentinels)
//! are written as string literals. `ascii_seq` gives the byte sequence
//! of such a literal, and `ascii_bytes` materializes it as a vector.

use vstd::prelude::*;

verus! {

/// The bytes of an ASCII character sequence, one byte per character.
pub open spec fn ascii_seq(s: Seq<char>) -> Seq<u8> {
    Seq::new(s.len(), |i: int| s[i] as u8)
}

/// Copies the bytes of an ASCII string into a vector.
pub fn ascii_bytes(s: &str) -> (v: Vec<u8>)
    requires
        s.is_ascii(),
    ensures
        v@ == ascii_seq(s@),
{
    broadcast use vstd::string::is_ascii_spec_bytes;

    let b = s.as_bytes();
    let v = vstd::slice::slice_to_vec(b);
    proof {
        assert(v@ =~= ascii_seq(s@));
    }
    v
}

/// Whether `p` is a prefix of `s`, byte for byte.
pub fn bytes_start_with(s: &Vec<u8>, p: &Vec<u8>) -> (r: bool)
    ensures
        r == p@.is_prefix_of(s@),
{
    if p.len() > s.len() {
        proof {
            assert(!p@.is_prefix_of(s@));
        }
        return false;
    }
    let mut i: usize = 0;
    while i < p.len()
        invariant
            0 <= i <= p@.len() <= s@.len(),
            forall|j: int| 0 <= j < i ==> s@[j] == p@[j],
        decreases p@.len() - i,
    {
        if s[i] != p[i] {
            proof {
                assert(!p@.is_prefix_of(s@));
            }
            return false;
        }
        i += 1;
    }
    proof {
        assert(p@ =~= s@.subrange(0, p@.len() as int));
    }
    true
}

/// A copy of a byte vector.
pub fn clone_bytes(v: &Vec<u8>) -> (r: Vec<u8>)
    ensures
        r@ == v@,
{
    vstd::slice::slice_to_vec(v.as_slice())
}

/// Appends all bytes of `src` to `out`.
pub fn append_bytes(out: &mut Vec<u8>, src: &Vec<u8>)
    ensures
        final(out)@ == old(out)@ + src@,
{
    let ghost base = out@;
    let mut i: usize = 0;
    while i < src.len()
        invariant
            0 <= i <= src@.len(),
            out@ == base + src@.take(i as int),
        decreases src@.len() - i,
    {
        out.push(src[i]);
        proof {
            assert(src@.take(i + 1 as int) =~= src@.take(i as int) + seq![src@[i as int]]);
            assert(out@ =~= base + src@.take(i + 1 as int));
        }
        i += 1;
    }
    proof {
        assert(src@.take(src@.len() as int) =~= src@);
    }
}

/// Matches the literal `lit` at position `pos` of `v`; yields the
/// position just past it.
pub fn match_lit(v: &Vec<u8>, pos: usize, lit: &Vec<u8>) -> (r: Option<usize>)
    requires
        pos <= v@.len(),
    ensures
        match r {
            Some(p2) => {
                &&& p2 == pos + lit@.len()
                &&& p2 <= v@.len()
                &&& lit@.is_prefix_of(v@.skip(pos as int))
                &&& v@.skip(pos as int).skip(lit@.len() as int) == v@.skip(p2 as int)
            },
            None => !lit@.is_prefix_of(v@.skip(pos as int)),
        },
{
    let ghost suf = v@.skip(pos as int);
    if v.len() - pos < lit.len() {
        proof {
            assert(suf.len() < lit@.len());
            assert(!lit@.is_prefix_of(suf));
        }
        return None;
    }
    let mut i: usize = 0;
    while i < lit.len()
        invariant
            0 <= i <= lit@.len(),
            pos + lit@.len() <= v@.len() <= usize::MAX,
            suf == v@.skip(pos as int),
            forall|j: int| 0 <= j < i ==> v@[pos + j] == lit@[j],
        decreases lit@.len() - i,
    {
        proof {
            assert(pos + i < v@.len());
        }
        if v[pos + i] != lit[i] {
            proof {
                assert(suf[i as int] == v@[pos + i]);
                assert(!lit@.is_prefix_of(suf));
            }
            return None;
        }
        i += 1;
    }
    proof {
        assert(lit@ =~= suf.subrange(0, lit@.len() as int));
        assert(suf.skip(lit@.len() as int) =~= v@.skip((pos + lit@.len()) as int));
    }
    Some(pos + lit.len())
}

/// The first `n` bytes of `v`, as a new vector.
pub fn vec_take(v: &Vec<u8>, n: usize) -> (r: Vec<u8>)
    requires
        n <= v@.len(),
    ensures
        r@ == v@.take(n as int),
{
    let mut r: Vec<u8> = Vec::new();
    let mut i: usize = 0;
    while i < n
        invariant
            0 <= i <= n <= v@.len(),
            r@ == v@.take(n as int).take(i as int),
        decreases n - i,
    {
        r.push(v[i]);
        proof {
            assert(v@.take(n as int).take(i + 1 as int) =~= v@.take(n as int).take(i as int).push(
                v@[i as int],
            ));
        }
        i += 1;
    }
    proof {
        assert(v@.take(n as int).take(n as int) =~= v@.take(n as int));
    }
    r
}

/// The bytes of `v` from position `n` on, as a new vector.
pub fn vec_skip(v: &Vec<u8>, n: usize) -> (r: Vec<u8>)
    requires
        n <= v@.len(),
    ensures
        r@ == v@.skip(n as int),
{
    let mut r: Vec<u8> = Vec::new();
    let mut i: usize = n;
    while i < v.len()
        invariant
            n <= i <= v@.len(),
            r@ == v@.skip(n as int).take(i - n),
        decreases v@.len() - i,
    {
        r.push(v[i]);
        proof {
            assert(v@.skip(n as int).take(i + 1 - n) =~= v@.skip(n as int).take(i - n).push(
                v@[i as int],
            ));
        }
        i += 1;
    }
    proof {
        assert(v@.skip(n as int).take(v@.len() - n) =~= v@.skip(n as int));
    }
    r
}

/// Whether two byte vectors hold the same bytes.
pub fn bytes_eq(a: &Vec<u8>, b: &Vec<u8>) -> (r: bool)
    ensures
        r == (a@ == b@),
{
    if a.len() != b.len() {
        return false;
    }
    let mut i: usize = 0;
    while i < a.len()
        invariant
            0 <= i <= a@.len(),
            a@.len() == b@.len(),
            forall|j: int| 0 <= j < i ==> a@[j] == b@[j],
        decreases a@.len() - i,
    {
        if a[i] != b[i] {
            return false;
        }
        i += 1;
    }
    proof {
        assert(a@ =~= b@);
    }
    true
}

} // verus!
