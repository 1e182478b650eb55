//! The context-sensitive completion engine.
//!
//! Completion is a pure function of the current input line and the
//! listings handed in by the caller. An explicit classification step
//! picks the mode from the line's literal prefix: a path-completion
//! trigger command puts the engine in path mode over a directory
//! listing; every other line falls through to conversation-name mode
//! over the known names — including a bare prefix of a name typed
//! directly. Candidates keep the listing order; replacements carry
//! the same prefix the line had, so re-insertion is exact.

use vstd::prelude::*;

use crate::ascii::ascii_seq;
use crate::ascii::ascii_bytes;
use crate::ascii::append_bytes;
use crate::ascii::bytes_start_with;
use crate::ascii::clone_bytes;
use crate::ascii::vec_take;
use crate::ascii::vec_skip;
use crate::dispatch::SLASH;

verus! {

pub const TILDE: u8 = 0x7e;

/// One completion candidate: what is shown, and what replaces the
/// completed fragment.
pub struct Candidate {
    pub display: Vec<u8>,
    pub replacement: Vec<u8>,
}

/// The mathematical model of a candidate.
pub struct CandV {
    pub display: Seq<u8>,
    pub replacement: Seq<u8>,
}

impl DeepView for Candidate {
    type V = CandV;

    open spec fn deep_view(&self) -> CandV {
        CandV { display: self.display@, replacement: self.replacement@ }
    }
}

/// One entry of a directory listing, as handed in by the caller.
pub struct DirEntry {
    pub name: Vec<u8>,
    pub is_dir: bool,
}

/// The mathematical model of a directory entry.
pub struct DirEntryV {
    pub name: Seq<u8>,
    pub is_dir: bool,
}

impl DeepView for DirEntry {
    type V = DirEntryV;

    open spec fn deep_view(&self) -> DirEntryV {
        DirEntryV { name: self.name@, is_dir: self.is_dir }
    }
}

/// The mathematical model of a classified completion request.
pub struct ReqV {
    pub path_mode: bool,
    pub prefix: Seq<u8>,
    pub fragment: Seq<u8>,
}

/// A classified completion request: path completion over a
/// directory, or conversation-name completion.
pub enum CompletionRequest {
    PathReq { prefix: Vec<u8>, fragment: Vec<u8> },
    NameReq { prefix: Vec<u8>, fragment: Vec<u8> },
}

impl DeepView for CompletionRequest {
    type V = ReqV;

    open spec fn deep_view(&self) -> ReqV {
        match self {
            CompletionRequest::PathReq { prefix, fragment } => ReqV {
                path_mode: true,
                prefix: prefix@,
                fragment: fragment@,
            },
            CompletionRequest::NameReq { prefix, fragment } => ReqV {
                path_mode: false,
                prefix: prefix@,
                fragment: fragment@,
            },
        }
    }
}

/// How a line is classified: a path-completion trigger command
/// selects path mode on the rest of the line; a name-listing trigger
/// keeps its prefix in name mode; any other line is a bare
/// name-completion attempt on the whole line.
pub open spec fn spec_classify(l: Seq<u8>) -> ReqV {
    if ascii_seq("/read "@).is_prefix_of(l) {
        ReqV { path_mode: true, prefix: l.take(6), fragment: l.skip(6) }
    } else if ascii_seq("read "@).is_prefix_of(l) {
        ReqV { path_mode: true, prefix: l.take(5), fragment: l.skip(5) }
    } else if ascii_seq("/load "@).is_prefix_of(l) {
        ReqV { path_mode: false, prefix: l.take(6), fragment: l.skip(6) }
    } else if ascii_seq("load "@).is_prefix_of(l) {
        ReqV { path_mode: false, prefix: l.take(5), fragment: l.skip(5) }
    } else {
        ReqV { path_mode: false, prefix: Seq::empty(), fragment: l }
    }
}

/// Classifies the current line into a completion request.
pub fn classify(line: &Vec<u8>) -> (r: CompletionRequest)
    ensures
        r.deep_view() == spec_classify(line@),
{
    proof {
        reveal_strlit("/read ");
        reveal_strlit("read ");
        reveal_strlit("/load ");
        reveal_strlit("load ");
    }
    if bytes_start_with(line, &ascii_bytes("/read ")) {
        CompletionRequest::PathReq { prefix: vec_take(line, 6), fragment: vec_skip(line, 6) }
    } else if bytes_start_with(line, &ascii_bytes("read ")) {
        CompletionRequest::PathReq { prefix: vec_take(line, 5), fragment: vec_skip(line, 5) }
    } else if bytes_start_with(line, &ascii_bytes("/load ")) {
        CompletionRequest::NameReq { prefix: vec_take(line, 6), fragment: vec_skip(line, 6) }
    } else if bytes_start_with(line, &ascii_bytes("load ")) {
        CompletionRequest::NameReq { prefix: vec_take(line, 5), fragment: vec_skip(line, 5) }
    } else {
        let empty: Vec<u8> = Vec::new();
        CompletionRequest::NameReq { prefix: empty, fragment: clone_bytes(line) }
    }
}

/// Splits a path fragment at its last separator into the directory
/// portion (separator included) and the trailing partial name.
pub open spec fn spec_split_frag(f: Seq<u8>) -> (Seq<u8>, Seq<u8>)
    decreases f.len(),
{
    if f.len() == 0 {
        (Seq::empty(), Seq::empty())
    } else if f.last() == SLASH {
        (f, Seq::empty())
    } else {
        let dp = spec_split_frag(f.drop_last());
        (dp.0, dp.1.push(f.last()))
    }
}

/// Splits a path fragment at its last separator.
pub fn split_path_fragment(f: &Vec<u8>) -> (r: (Vec<u8>, Vec<u8>))
    ensures
        (r.0@, r.1@) == spec_split_frag(f@),
{
    let mut k: usize = f.len();
    while k > 0 && f[k - 1] != SLASH
        invariant
            0 <= k <= f@.len(),
            forall|j: int| k <= j < f@.len() ==> f@[j] != SLASH,
        decreases k,
    {
        k -= 1;
    }
    proof {
        lemma_split_frag_at(f@, k as int);
    }
    (vec_take(f, k), vec_skip(f, k))
}

/// The split of a fragment whose last separator stands just before
/// position `k`.
proof fn lemma_split_frag_at(f: Seq<u8>, k: int)
    requires
        0 <= k <= f.len(),
        k == 0 || f[k - 1] == SLASH,
        forall|j: int| k <= j < f.len() ==> f[j] != SLASH,
    ensures
        spec_split_frag(f) == (f.take(k), f.skip(k)),
    decreases f.len(),
{
    if k == f.len() {
        if f.len() == 0 {
            assert(f.take(k) =~= Seq::<u8>::empty());
            assert(f.skip(k) =~= Seq::<u8>::empty());
        } else {
            assert(f.last() == SLASH);
            assert(f.take(k) =~= f);
            assert(f.skip(k) =~= Seq::<u8>::empty());
        }
    } else {
        assert(f.last() != SLASH);
        let d = f.drop_last();
        lemma_split_frag_at(d, k);
        assert(d.take(k) =~= f.take(k));
        assert(d.skip(k).push(f.last()) =~= f.skip(k));
    }
}

/// Expands a leading home shorthand to the home directory.
pub open spec fn spec_expand_home(p: Seq<u8>, home: Seq<u8>) -> Seq<u8> {
    if p.len() >= 1 && p[0] == TILDE && (p.len() == 1 || p[1] == SLASH) {
        home + p.skip(1)
    } else {
        p
    }
}

/// Expands a leading home shorthand to the home directory.
pub fn expand_home(p: &Vec<u8>, home: &Vec<u8>) -> (r: Vec<u8>)
    ensures
        r@ == spec_expand_home(p@, home@),
{
    if p.len() >= 1 && p[0] == TILDE && (p.len() == 1 || p[1] == SLASH) {
        let mut r = clone_bytes(home);
        append_bytes(&mut r, &vec_skip(p, 1));
        r
    } else {
        clone_bytes(p)
    }
}

/// The candidate built from one matching directory entry: directory
/// names gain a trailing separator in both the label and the
/// replacement, so completion can be chained.
pub open spec fn spec_path_cand(prefix: Seq<u8>, dir: Seq<u8>, e: DirEntryV) -> CandV {
    let shown = if e.is_dir {
        e.name + seq![SLASH]
    } else {
        e.name
    };
    CandV { display: shown, replacement: prefix + dir + shown }
}

/// Path-mode candidates: the entries whose names start with the
/// partial name, in listing order.
pub open spec fn spec_path_cands(
    prefix: Seq<u8>,
    dir: Seq<u8>,
    partial: Seq<u8>,
    es: Seq<DirEntryV>,
) -> Seq<CandV>
    decreases es.len(),
{
    if es.len() == 0 {
        Seq::empty()
    } else {
        spec_path_cands(prefix, dir, partial, es.drop_last()) + (if partial.is_prefix_of(
            es.last().name,
        ) {
            seq![spec_path_cand(prefix, dir, es.last())]
        } else {
            Seq::empty()
        })
    }
}

/// Computes path-mode candidates over a directory listing.
pub fn path_candidates(
    prefix: &Vec<u8>,
    dir: &Vec<u8>,
    partial: &Vec<u8>,
    entries: &Vec<DirEntry>,
) -> (r: Vec<Candidate>)
    ensures
        r.deep_view() == spec_path_cands(prefix@, dir@, partial@, entries.deep_view()),
{
    let ghost es = entries.deep_view();
    let mut r: Vec<Candidate> = Vec::new();
    proof {
        assert(r.deep_view() =~= spec_path_cands(prefix@, dir@, partial@, es.take(0)));
    }
    let mut i: usize = 0;
    while i < entries.len()
        invariant
            0 <= i <= entries@.len(),
            es == entries.deep_view(),
            es.len() == entries@.len(),
            r.deep_view() == spec_path_cands(prefix@, dir@, partial@, es.take(i as int)),
        decreases entries@.len() - i,
    {
        let ghost rdv = r.deep_view();
        proof {
            assert(es.take(i + 1 as int).drop_last() =~= es.take(i as int));
            assert(es.take(i + 1 as int).last() == es[i as int]);
            assert(es[i as int] == entries@[i as int].deep_view());
        }
        let e = &entries[i];
        if bytes_start_with(&e.name, partial) {
            let mut shown = clone_bytes(&e.name);
            if e.is_dir {
                shown.push(SLASH);
            }
            let mut repl = clone_bytes(prefix);
            append_bytes(&mut repl, dir);
            append_bytes(&mut repl, &shown);
            let c = Candidate { display: shown, replacement: repl };
            proof {
                assert(c.deep_view() == spec_path_cand(prefix@, dir@, es[i as int])) by {
                    if es[i as int].is_dir {
                        assert(c.display@ =~= es[i as int].name + seq![SLASH]);
                    }
                }
            }
            r.push(c);
            proof {
                assert(r.deep_view() =~= rdv.push(spec_path_cand(prefix@, dir@, es[i as int])));
                assert(rdv.push(spec_path_cand(prefix@, dir@, es[i as int])) =~= rdv + seq![
                    spec_path_cand(prefix@, dir@, es[i as int]),
                ]);
            }
        } else {
            proof {
                assert(rdv + Seq::<CandV>::empty() =~= rdv);
            }
        }
        i += 1;
    }
    proof {
        assert(es.take(es.len() as int) =~= es);
    }
    r
}

/// Name-mode candidates: the known conversation names that start
/// with the fragment, in listing order; replacements keep the line's
/// own prefix.
pub open spec fn spec_name_cands(prefix: Seq<u8>, frag: Seq<u8>, names: Seq<Seq<u8>>) -> Seq<
    CandV,
>
    decreases names.len(),
{
    if names.len() == 0 {
        Seq::empty()
    } else {
        spec_name_cands(prefix, frag, names.drop_last()) + (if frag.is_prefix_of(names.last()) {
            seq![CandV { display: names.last(), replacement: prefix + names.last() }]
        } else {
            Seq::empty()
        })
    }
}

/// Computes name-mode candidates over the known conversation names.
pub fn name_candidates(prefix: &Vec<u8>, frag: &Vec<u8>, names: &Vec<Vec<u8>>) -> (r: Vec<
    Candidate,
>)
    ensures
        r.deep_view() == spec_name_cands(prefix@, frag@, names.deep_view()),
{
    let ghost ns = names.deep_view();
    let mut r: Vec<Candidate> = Vec::new();
    proof {
        assert(r.deep_view() =~= spec_name_cands(prefix@, frag@, ns.take(0)));
    }
    let mut i: usize = 0;
    while i < names.len()
        invariant
            0 <= i <= names@.len(),
            ns == names.deep_view(),
            ns.len() == names@.len(),
            r.deep_view() == spec_name_cands(prefix@, frag@, ns.take(i as int)),
        decreases names@.len() - i,
    {
        let ghost rdv = r.deep_view();
        proof {
            assert(ns.take(i + 1 as int).drop_last() =~= ns.take(i as int));
            assert(ns.take(i + 1 as int).last() == ns[i as int]);
            assert(ns[i as int] == names@[i as int]@);
        }
        let name = &names[i];
        if bytes_start_with(name, frag) {
            let shown = clone_bytes(name);
            let mut repl = clone_bytes(prefix);
            append_bytes(&mut repl, name);
            let c = Candidate { display: shown, replacement: repl };
            r.push(c);
            proof {
                let cv = CandV { display: ns[i as int], replacement: prefix@ + ns[i as int] };
                assert(r.deep_view() =~= rdv.push(cv));
                assert(rdv.push(cv) =~= rdv + seq![cv]);
            }
        } else {
            proof {
                assert(rdv + Seq::<CandV>::empty() =~= rdv);
            }
        }
        i += 1;
    }
    proof {
        assert(ns.take(ns.len() as int) =~= ns);
    }
    r
}

} // verus!
