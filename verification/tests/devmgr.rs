use wshowkeys::devmgr::{classify_request, open_reply, open_request, ChildAction, OpenReply, MSG_END, MSG_OPEN};

#[test]
fn open_request_frames_path() {
    assert_eq!(open_request("/dev/input/event3"), [&[MSG_OPEN][..], b"/dev/input/event3"].concat());
    assert_eq!(open_request(""), vec![MSG_OPEN]);
}

#[test]
fn open_request_truncates_long_paths() {
    let long = "x".repeat(2000);
    let msg = open_request(&long);
    assert_eq!(msg.len(), 1024);
    assert_eq!(msg[0], MSG_OPEN);
}

#[test]
fn child_opens_request_under_devpath() {
    let msg = open_request("/dev/input/event3");
    match classify_request(&msg, "/dev/input/") {
        ChildAction::Open(p) => assert_eq!(p, "/dev/input/event3"),
        other => panic!("unexpected {:?}", other),
    }
}

#[test]
fn child_refuses_other_requests() {
    assert!(matches!(classify_request(&open_request("/etc/shadow"), "/dev/input/"), ChildAction::Exit(1)));
    assert!(matches!(classify_request(&[MSG_OPEN, 0xff], "/dev/input/"), ChildAction::Exit(1)));
    assert!(matches!(classify_request(&[MSG_END], "/dev/input/"), ChildAction::End));
    assert!(matches!(classify_request(&[], "/dev/input/"), ChildAction::Exit(0)));
    assert!(matches!(classify_request(&[7, 1, 2], "/dev/input/"), ChildAction::Exit(1)));
}

#[test]
fn child_refuses_truncated_multibyte_path() {
    // 1022 bytes of path and then a two-byte character cut in half
    let path = format!("/dev/input/{}é", "a".repeat(1011));
    let msg = open_request(&path);
    assert_eq!(msg.len(), 1024);
    assert!(matches!(classify_request(&msg, "/dev/input/"), ChildAction::Exit(1)));
}

#[test]
fn open_reply_reading() {
    assert_eq!(open_reply(0, Some(5)), OpenReply::Opened(5));
    assert_eq!(open_reply(13, Some(5)), OpenReply::Failed(13));
    assert_eq!(open_reply(2, None), OpenReply::Failed(2));
    assert_eq!(open_reply(0, None), OpenReply::NoDescriptor);
}
