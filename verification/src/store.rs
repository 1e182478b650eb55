//! The on-disk layout of conversations.
//!
//! Each conversation name maps to a fixed triad: a history file, a
//! summary file, and timestamped backup files. The derivation is
//! injective in the name, so no two conversations collide. Backups
//! are planned here: one is made exactly when a history file exists
//! and the operation about to run destroys history. Destructive
//! operations remove files outright rather than overwriting them
//! with an empty transcript; loading treats a missing file as
//! absence, so the two come to the same resume behaviour.

use vstd::prelude::*;
use vstd::string::StringExecFns;

use crate::ascii::ascii_seq;
use crate::ascii::bytes_start_with;
use crate::ascii::ascii_bytes;
use crate::ascii::vec_take;
use crate::ascii::vec_skip;

verus! {

/// The history file of a conversation, under the history root.
pub open spec fn spec_history_path(name: Seq<char>) -> Seq<char> {
    "yuki_client/history/history_"@ + name + ".json"@
}

/// The summary file of a conversation, under the summary root.
pub open spec fn spec_summary_path(name: Seq<char>) -> Seq<char> {
    "yuki_client/chats/summary_"@ + name + ".json"@
}

/// The backup file of a conversation for one timestamp text.
pub open spec fn spec_backup_path(name: Seq<char>, ts: Seq<char>) -> Seq<char> {
    "yuki_client/backups/log_"@ + name + "_"@ + ts + ".json"@
}

/// Resolves the history and summary paths of a conversation.
pub fn get_file_paths(chat_name: &str) -> (r: (String, String))
    ensures
        r.0@ == spec_history_path(chat_name@),
        r.1@ == spec_summary_path(chat_name@),
{
    let mut h = String::new();
    h.append("yuki_client/history/history_");
    h.append(chat_name);
    h.append(".json");
    let mut s = String::new();
    s.append("yuki_client/chats/summary_");
    s.append(chat_name);
    s.append(".json");
    (h, s)
}

/// Resolves the backup path of a conversation for one timestamp
/// text.
pub fn backup_path(chat_name: &str, ts: &str) -> (r: String)
    ensures
        r@ == spec_backup_path(chat_name@, ts@),
{
    let mut b = String::new();
    b.append("yuki_client/backups/log_");
    b.append(chat_name);
    b.append("_");
    b.append(ts);
    b.append(".json");
    b
}

/// The naming scheme is collision-free: distinct conversation names
/// resolve to distinct history files and distinct summary files, so
/// no two conversations can share an artifact.
pub proof fn lemma_paths_injective(n1: Seq<char>, n2: Seq<char>)
    requires
        n1 != n2,
    ensures
        spec_history_path(n1) != spec_history_path(n2),
        spec_summary_path(n1) != spec_summary_path(n2),
{
    reveal_strlit("yuki_client/history/history_");
    reveal_strlit("yuki_client/chats/summary_");
    reveal_strlit(".json");
    let hp = "yuki_client/history/history_"@;
    let sp = "yuki_client/chats/summary_"@;
    if n1.len() == n2.len() {
        if forall|i: int| 0 <= i < n1.len() ==> n1[i] == #[trigger] n2[i] {
            assert(n1 =~= n2);
        }
        let i = choose|i: int| 0 <= i < n1.len() && n1[i] != n2[i];
        assert(spec_history_path(n1)[hp.len() + i] == n1[i]);
        assert(spec_history_path(n2)[hp.len() + i] == n2[i]);
        assert(spec_summary_path(n1)[sp.len() + i] == n1[i]);
        assert(spec_summary_path(n2)[sp.len() + i] == n2[i]);
    } else {
        assert(spec_history_path(n1).len() != spec_history_path(n2).len());
        assert(spec_summary_path(n1).len() != spec_summary_path(n2).len());
    }
}

/// The conversation name encoded in a history file's name, if the
/// file name follows the fixed scheme.
pub open spec fn spec_chat_name_of(f: Seq<u8>) -> Option<Seq<u8>> {
    if f.len() >= 13 && ascii_seq("history_"@).is_prefix_of(f) && ascii_seq(".json"@).is_suffix_of(
        f,
    ) {
        Some(f.subrange(8, f.len() - 5))
    } else {
        None
    }
}

/// Extracts the conversation name from a history file's name.
pub fn chat_name_of_filename(filename: &Vec<u8>) -> (r: Option<Vec<u8>>)
    ensures
        match r {
            Some(n) => spec_chat_name_of(filename@) == Some(n@),
            None => spec_chat_name_of(filename@) is None,
        },
{
    proof {
        reveal_strlit("history_");
        reveal_strlit(".json");
    }
    let prefix = ascii_bytes("history_");
    let suffix = ascii_bytes(".json");
    if filename.len() < 13 {
        return None;
    }
    if !bytes_start_with(filename, &prefix) {
        proof {
            assert(filename@.skip(0) =~= filename@);
        }
        return None;
    }
    let tail = vec_skip(filename, filename.len() - 5);
    if !crate::ascii::bytes_eq(&tail, &suffix) {
        proof {
            assert(tail@ =~= filename@.subrange(filename@.len() - 5, filename@.len() as int));
            if ascii_seq(".json"@).is_suffix_of(filename@) {
                assert(ascii_seq(".json"@) =~= tail@);
                assert(false);
            }
        }
        return None;
    }
    proof {
        assert(tail@ =~= filename@.subrange(filename@.len() - 5, filename@.len() as int));
        assert(ascii_seq(".json"@).is_suffix_of(filename@));
        assert(filename@.skip(0) =~= filename@);
    }
    let name = vec_skip(&vec_take(filename, filename.len() - 5), 8);
    proof {
        assert(name@ =~= filename@.subrange(8, filename@.len() - 5));
    }
    Some(name)
}

/// The conversation names named by a listing of the history root,
/// in listing order: one name per file that follows the scheme.
pub open spec fn spec_chat_names(fs: Seq<Seq<u8>>) -> Seq<Seq<u8>>
    decreases fs.len(),
{
    if fs.len() == 0 {
        Seq::empty()
    } else {
        spec_chat_names(fs.drop_last()) + (match spec_chat_name_of(fs.last()) {
            Some(n) => seq![n],
            None => Seq::empty(),
        })
    }
}

/// Extracts the known conversation names from a listing of the
/// history root.
pub fn chat_names_of_listing(filenames: &Vec<Vec<u8>>) -> (r: Vec<Vec<u8>>)
    ensures
        r.deep_view() == spec_chat_names(filenames.deep_view()),
{
    let ghost fsv = filenames.deep_view();
    let mut r: Vec<Vec<u8>> = Vec::new();
    proof {
        assert(r.deep_view() =~= spec_chat_names(fsv.take(0)));
    }
    let mut i: usize = 0;
    while i < filenames.len()
        invariant
            0 <= i <= filenames@.len(),
            fsv == filenames.deep_view(),
            fsv.len() == filenames@.len(),
            r.deep_view() == spec_chat_names(fsv.take(i as int)),
        decreases filenames@.len() - i,
    {
        let ghost rdv = r.deep_view();
        proof {
            assert(fsv.take(i + 1 as int).drop_last() =~= fsv.take(i as int));
            assert(fsv.take(i + 1 as int).last() == fsv[i as int]);
            assert(fsv[i as int] == filenames@[i as int]@);
        }
        if let Some(name) = chat_name_of_filename(&filenames[i]) {
            let ghost nv = name@;
            proof {
                assert(name.deep_view() =~= nv);
            }
            r.push(name);
            proof {
                assert(r.deep_view() =~= rdv.push(nv));
                assert(rdv.push(nv) =~= rdv + seq![nv]);
            }
        } else {
            proof {
                assert(rdv + Seq::<Seq<u8>>::empty() =~= rdv);
            }
        }
        i += 1;
    }
    proof {
        assert(fsv.take(fsv.len() as int) =~= fsv);
    }
    r
}

/// An operation that destroys the current history.
#[derive(Clone, Copy, PartialEq, Eq, Structural, Debug)]
pub enum DestroyOp {
    Clear,
    Summarize,
}

/// What a destructive operation does to the stored artifacts.
pub struct DestroyPlan {
    pub make_backup: bool,
    pub remove_history: bool,
    pub remove_summary: bool,
}

/// Plans a destructive operation. A backup is made exactly when a
/// history file exists, for both operations; history is always
/// removed; the summary is removed by a clear and replaced (not
/// removed here) by a summarize.
pub fn plan_destroy(op: DestroyOp, history_exists: bool) -> (p: DestroyPlan)
    ensures
        p.make_backup == history_exists,
        p.remove_history,
        p.remove_summary == (op is Clear),
{
    DestroyPlan {
        make_backup: history_exists,
        remove_history: true,
        remove_summary: match op {
            DestroyOp::Clear => true,
            DestroyOp::Summarize => false,
        },
    }
}

} // verus!
