use yuki_client::codec::{parse_msgs, ser_msgs};
use yuki_client::msg::{Message, Role};

fn msg(role: Role, content: &[u8]) -> Message {
    Message::new(role, content.to_vec())
}

fn assert_msgs_eq(a: &Vec<Message>, b: &Vec<Message>) {
    assert_eq!(a.len(), b.len());
    for i in 0..a.len() {
        assert!(a[i].role == b[i].role);
        assert_eq!(a[i].content, b[i].content);
    }
}

#[test]
fn round_trip_empty() {
    let msgs: Vec<Message> = Vec::new();
    let bytes = ser_msgs(&msgs);
    assert_eq!(bytes, b"[]".to_vec());
    let back = parse_msgs(&bytes).expect("empty transcript parses");
    assert_eq!(back.len(), 0);
}

#[test]
fn round_trip_simple() {
    let msgs = vec![msg(Role::User, b"hi"), msg(Role::Assistant, b"Hello!")];
    let bytes = ser_msgs(&msgs);
    assert_eq!(
        bytes,
        b"[{\"role\":\"user\",\"content\":\"hi\"},{\"role\":\"assistant\",\"content\":\"Hello!\"}]"
            .to_vec()
    );
    let back = parse_msgs(&bytes).expect("transcript parses");
    assert_msgs_eq(&back, &msgs);
}

#[test]
fn round_trip_all_roles_and_escapes() {
    let msgs = vec![
        msg(Role::System, b"be \"nice\"\n\talways"),
        msg(Role::User, b"back\\slash and \r return"),
        msg(Role::Assistant, b"ctl \x01\x1f byte"),
        msg(Role::User, b""),
    ];
    let bytes = ser_msgs(&msgs);
    let back = parse_msgs(&bytes).expect("escaped transcript parses");
    assert_msgs_eq(&back, &msgs);
}

#[test]
fn round_trip_preserves_order() {
    let mut msgs = Vec::new();
    for i in 0..10u8 {
        let role = if i % 2 == 0 { Role::User } else { Role::Assistant };
        msgs.push(msg(role, format!("message {}", i).as_bytes()));
    }
    let bytes = ser_msgs(&msgs);
    let back = parse_msgs(&bytes).expect("long transcript parses");
    assert_msgs_eq(&back, &msgs);
}

#[test]
fn escaped_content_is_readable_text() {
    let msgs = vec![msg(Role::User, b"line one\nline two")];
    let bytes = ser_msgs(&msgs);
    assert_eq!(
        bytes,
        b"[{\"role\":\"user\",\"content\":\"line one\\nline two\"}]".to_vec()
    );
}

#[test]
fn control_bytes_use_the_hex_escape() {
    let msgs = vec![msg(Role::User, b"\x01")];
    let bytes = ser_msgs(&msgs);
    assert_eq!(bytes, b"[{\"role\":\"user\",\"content\":\"\\u0001\"}]".to_vec());
    let back = parse_msgs(&bytes).expect("hex escape parses");
    assert_eq!(back[0].content, b"\x01".to_vec());
    assert!(parse_msgs(&b"[{\"role\":\"user\",\"content\":\"\\u0080\"}]".to_vec()).is_none());
}

#[test]
fn parse_rejects_garbage() {
    assert!(parse_msgs(&b"garbage".to_vec()).is_none());
    assert!(parse_msgs(&b"".to_vec()).is_none());
    assert!(parse_msgs(&b"[".to_vec()).is_none());
    assert!(parse_msgs(&b"[]x".to_vec()).is_none());
    assert!(parse_msgs(&b"[{\"role\":\"user\",\"content\":\"hi\"}".to_vec()).is_none());
    assert!(parse_msgs(&b"[{\"role\":\"wizard\",\"content\":\"hi\"}]".to_vec()).is_none());
    assert!(parse_msgs(&b"[{\"role\":\"user\",\"content\":\"hi\"},]".to_vec()).is_none());
}

#[test]
fn parse_rejects_unterminated_string() {
    assert!(parse_msgs(&b"[{\"role\":\"user\",\"content\":\"hi}]".to_vec()).is_none());
    assert!(parse_msgs(&b"[{\"role\":\"user\",\"content\":\"hi\\\"}]".to_vec()).is_none());
}
