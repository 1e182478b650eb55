use yuki_client::complete::{
    classify, expand_home, name_candidates, path_candidates, split_path_fragment,
    CompletionRequest, DirEntry,
};
use yuki_client::dispatch::{parse_command, Command};
use yuki_client::store::{backup_path, chat_name_of_filename, chat_names_of_listing, get_file_paths};

#[test]
fn classify_dispatches_path_and_name_modes() {
    match classify(&b"/read ~/doc".to_vec()) {
        CompletionRequest::PathReq { prefix, fragment } => {
            assert_eq!(prefix, b"/read ".to_vec());
            assert_eq!(fragment, b"~/doc".to_vec());
        },
        _ => panic!("path trigger must select path mode"),
    }
    match classify(&b"read notes.txt".to_vec()) {
        CompletionRequest::PathReq { prefix, fragment } => {
            assert_eq!(prefix, b"read ".to_vec());
            assert_eq!(fragment, b"notes.txt".to_vec());
        },
        _ => panic!("bare read trigger must select path mode"),
    }
    match classify(&b"load alp".to_vec()) {
        CompletionRequest::NameReq { prefix, fragment } => {
            assert_eq!(prefix, b"load ".to_vec());
            assert_eq!(fragment, b"alp".to_vec());
        },
        _ => panic!("load trigger stays in name mode"),
    }
    match classify(&b"abc".to_vec()) {
        CompletionRequest::NameReq { prefix, fragment } => {
            assert_eq!(prefix, b"".to_vec());
            assert_eq!(fragment, b"abc".to_vec());
        },
        _ => panic!("a bare line falls through to name mode"),
    }
}

#[test]
fn scenario_path_completion_for_read() {
    // input "/read ~/doc", home directory holding document.txt
    let line = b"/read ~/doc".to_vec();
    let (prefix, fragment) = match classify(&line) {
        CompletionRequest::PathReq { prefix, fragment } => (prefix, fragment),
        _ => panic!("path trigger must select path mode"),
    };
    let (dir, partial) = split_path_fragment(&fragment);
    assert_eq!(dir, b"~/".to_vec());
    assert_eq!(partial, b"doc".to_vec());

    // the resolved directory is listed by the caller
    let resolved = expand_home(&dir, &b"/home/user".to_vec());
    assert_eq!(resolved, b"/home/user/".to_vec());
    let entries = vec![
        DirEntry { name: b"document.txt".to_vec(), is_dir: false },
        DirEntry { name: b"docs".to_vec(), is_dir: true },
        DirEntry { name: b"other.txt".to_vec(), is_dir: false },
    ];
    let cands = path_candidates(&prefix, &dir, &partial, &entries);
    assert_eq!(cands.len(), 2);
    assert_eq!(cands[0].display, b"document.txt".to_vec());
    assert!(cands[0].replacement.ends_with(b"document.txt"));
    assert_eq!(cands[0].replacement, b"/read ~/document.txt".to_vec());
    assert_eq!(cands[1].display, b"docs/".to_vec());
    assert_eq!(cands[1].replacement, b"/read ~/docs/".to_vec());
}

#[test]
fn scenario_name_completion_for_bare_prefix() {
    let line = b"abc".to_vec();
    let (prefix, fragment) = match classify(&line) {
        CompletionRequest::NameReq { prefix, fragment } => (prefix, fragment),
        _ => panic!("a bare line falls through to name mode"),
    };
    let names = vec![b"abcdef".to_vec(), b"zeta".to_vec(), b"abx".to_vec()];
    let cands = name_candidates(&prefix, &fragment, &names);
    assert_eq!(cands.len(), 1);
    assert_eq!(cands[0].display, b"abcdef".to_vec());
    assert_eq!(cands[0].replacement, b"abcdef".to_vec());
}

#[test]
fn name_completion_keeps_listing_order_and_prefix() {
    let names = vec![b"beta".to_vec(), b"bet".to_vec(), b"alpha".to_vec()];
    let cands = name_candidates(&b"load ".to_vec(), &b"bet".to_vec(), &names);
    assert_eq!(cands.len(), 2);
    assert_eq!(cands[0].display, b"beta".to_vec());
    assert_eq!(cands[0].replacement, b"load beta".to_vec());
    assert_eq!(cands[1].display, b"bet".to_vec());
    assert_eq!(cands[1].replacement, b"load bet".to_vec());
}

#[test]
fn split_fragment_edges() {
    let (d, p) = split_path_fragment(&b"plain".to_vec());
    assert_eq!(d, b"".to_vec());
    assert_eq!(p, b"plain".to_vec());
    let (d, p) = split_path_fragment(&b"a/b/c".to_vec());
    assert_eq!(d, b"a/b/".to_vec());
    assert_eq!(p, b"c".to_vec());
    let (d, p) = split_path_fragment(&b"a/b/".to_vec());
    assert_eq!(d, b"a/b/".to_vec());
    assert_eq!(p, b"".to_vec());
    let (d, p) = split_path_fragment(&b"".to_vec());
    assert_eq!(d, b"".to_vec());
    assert_eq!(p, b"".to_vec());
}

#[test]
fn expand_home_only_at_shorthand() {
    let home = b"/home/u".to_vec();
    assert_eq!(expand_home(&b"~/x".to_vec(), &home), b"/home/u/x".to_vec());
    assert_eq!(expand_home(&b"~".to_vec(), &home), b"/home/u".to_vec());
    assert_eq!(expand_home(&b"~x".to_vec(), &home), b"~x".to_vec());
    assert_eq!(expand_home(&b"/etc".to_vec(), &home), b"/etc".to_vec());
}

#[test]
fn commands_match_literal_spellings() {
    assert!(matches!(parse_command(&b"exit".to_vec()), Command::Exit));
    assert!(matches!(parse_command(&b"quit".to_vec()), Command::Exit));
    assert!(matches!(parse_command(&b"  exit  ".to_vec()), Command::Exit));
    assert!(matches!(parse_command(&b"clear".to_vec()), Command::Clear));
    assert!(matches!(parse_command(&b"summarize".to_vec()), Command::Summarize));
    assert!(matches!(parse_command(&b"/clear".to_vec()), Command::Clear));
    assert!(matches!(parse_command(&b"".to_vec()), Command::Empty));
    assert!(matches!(parse_command(&b"   \t ".to_vec()), Command::Empty));
}

#[test]
fn commands_with_arguments() {
    match parse_command(&b"load alpha".to_vec()) {
        Command::Load(n) => assert_eq!(n, b"alpha".to_vec()),
        _ => panic!("load takes its argument"),
    }
    match parse_command(&b"/read ~/notes.txt".to_vec()) {
        Command::Read(p) => assert_eq!(p, b"~/notes.txt".to_vec()),
        _ => panic!("read takes its argument"),
    }
    assert!(matches!(parse_command(&b"load   ".to_vec()), Command::Unknown(_)));
    assert!(matches!(parse_command(&b"read".to_vec()), Command::Unknown(_)));
    assert!(matches!(parse_command(&b"/read ".to_vec()), Command::Unknown(_)));
}

#[test]
fn unknown_slash_token_is_an_error_plain_text_is_chat() {
    assert!(matches!(parse_command(&b"/frobnicate".to_vec()), Command::Unknown(_)));
    match parse_command(&b"  tell me a story  ".to_vec()) {
        Command::Chat(t) => assert_eq!(t, b"tell me a story".to_vec()),
        _ => panic!("plain text is a chat turn"),
    }
    match parse_command(&b"loader question".to_vec()) {
        Command::Chat(t) => assert_eq!(t, b"loader question".to_vec()),
        _ => panic!("near-command words are still chat"),
    }
}

#[test]
fn paths_follow_the_fixed_scheme() {
    let (h, s) = get_file_paths("alpha");
    assert_eq!(h, "yuki_client/history/history_alpha.json");
    assert_eq!(s, "yuki_client/chats/summary_alpha.json");
    let b = backup_path("alpha", "1700000000");
    assert_eq!(b, "yuki_client/backups/log_alpha_1700000000.json");
}

#[test]
fn listing_yields_names_in_listing_order() {
    let files = vec![
        b"history_beta.json".to_vec(),
        b"notes.txt".to_vec(),
        b"history_alpha.json".to_vec(),
        b"summary_x.json".to_vec(),
    ];
    let names = chat_names_of_listing(&files);
    assert_eq!(names, vec![b"beta".to_vec(), b"alpha".to_vec()]);
}

#[test]
fn chat_names_come_from_history_filenames() {
    assert_eq!(
        chat_name_of_filename(&b"history_alpha.json".to_vec()),
        Some(b"alpha".to_vec())
    );
    assert_eq!(chat_name_of_filename(&b"summary_alpha.json".to_vec()), None);
    assert_eq!(chat_name_of_filename(&b"history_alpha.txt".to_vec()), None);
    assert_eq!(chat_name_of_filename(&b"history_.json".to_vec()), Some(b"".to_vec()));
    assert_eq!(chat_name_of_filename(&b"notes.json".to_vec()), None);
}
