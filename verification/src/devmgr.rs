//! The messages between the unprivileged process and the privileged child
//! that opens input devices for it: an open request carries a device path,
//! and the child opens only paths under its device directory.

use vstd::prelude::*;
use crate::text::{has_prefix, starts_with, str_from_utf8};

verus! {

/// Request tag: open the device whose path follows.
pub const MSG_OPEN: u8 = 1;

/// Request tag: the child should exit.
pub const MSG_END: u8 = 2;

/// The most path bytes an open request carries.
pub const MAX_PATH_BYTES: usize = 1023;

/// The open request for `path`: the tag, then the path's UTF-8 bytes, cut
/// after `MAX_PATH_BYTES`.
pub open spec fn open_request_bytes(path: Seq<char>) -> Seq<u8> {
    let b = vstd::utf8::encode_utf8(path);
    let n = if b.len() < MAX_PATH_BYTES {
        b.len() as int
    } else {
        MAX_PATH_BYTES as int
    };
    seq![MSG_OPEN] + b.subrange(0, n)
}

/// Builds the open request for `path`.
pub fn open_request(path: &str) -> (r: Vec<u8>)
    ensures
        r@ == open_request_bytes(path@),
{
    let bytes = path.as_bytes();
    let copy_len = if bytes.len() < MAX_PATH_BYTES {
        bytes.len()
    } else {
        MAX_PATH_BYTES
    };
    let mut msg: Vec<u8> = Vec::new();
    msg.push(MSG_OPEN);
    let mut i: usize = 0;
    while i < copy_len
        invariant
            copy_len <= bytes@.len(),
            i <= copy_len,
            msg@ == seq![MSG_OPEN] + bytes@.subrange(0, i as int),
        decreases copy_len - i,
    {
        msg.push(bytes[i]);
        proof {
            assert(bytes@.subrange(0, i + 1) =~= bytes@.subrange(0, i as int).push(bytes@[i as int]));
            assert(seq![MSG_OPEN] + bytes@.subrange(0, i + 1) =~= (seq![MSG_OPEN] + bytes@.subrange(
                0,
                i as int,
            )).push(bytes@[i as int]));
        }
        i = i + 1;
    }
    msg
}

/// What the privileged child does with one received message.
#[derive(Debug)]
pub enum ChildAction {
    /// Open this device path and send back the result.
    Open(String),
    /// Acknowledge and exit with status 0.
    End,
    /// Exit at once with this status.
    Exit(i32),
}

/// The mathematical value of a [`ChildAction`].
pub enum ChildActionView {
    Open(Seq<char>),
    End,
    Exit(i32),
}

impl View for ChildAction {
    type V = ChildActionView;

    open spec fn view(&self) -> ChildActionView {
        match self {
            ChildAction::Open(p) => ChildActionView::Open(p@),
            ChildAction::End => ChildActionView::End,
            ChildAction::Exit(c) => ChildActionView::Exit(*c),
        }
    }
}

/// The child's decision on a received message: an empty message (the
/// other end is gone) ends it quietly; an open request is honoured only for
/// a UTF-8 path under `devpath`; an end request is acknowledged; anything
/// else ends it with status 1.
pub open spec fn child_action(msg: Seq<u8>, devpath: Seq<char>) -> ChildActionView {
    if msg.len() == 0 {
        ChildActionView::Exit(0)
    } else if msg[0] == MSG_OPEN {
        let rest = msg.subrange(1, msg.len() as int);
        if !vstd::utf8::valid_utf8(rest) {
            ChildActionView::Exit(1)
        } else if !has_prefix(vstd::utf8::decode_utf8(rest), devpath) {
            ChildActionView::Exit(1)
        } else {
            ChildActionView::Open(vstd::utf8::decode_utf8(rest))
        }
    } else if msg[0] == MSG_END {
        ChildActionView::End
    } else {
        ChildActionView::Exit(1)
    }
}

/// Decides what the privileged child does with the message `msg`.
pub fn classify_request(msg: &[u8], devpath: &str) -> (r: ChildAction)
    ensures
        r@ == child_action(msg@, devpath@),
{
    if msg.len() == 0 {
        return ChildAction::Exit(0);
    }
    if msg[0] == MSG_OPEN {
        let rest = &msg[1..msg.len()];
        match str_from_utf8(rest) {
            Some(path) => {
                if !starts_with(path, devpath) {
                    ChildAction::Exit(1)
                } else {
                    ChildAction::Open(path.to_owned())
                }
            },
            None => ChildAction::Exit(1),
        }
    } else if msg[0] == MSG_END {
        ChildAction::End
    } else {
        ChildAction::Exit(1)
    }
}

/// How an open request turned out, from the child's reply.
#[derive(Debug, Clone, Copy, PartialEq, Eq, Structural)]
pub enum OpenReply {
    /// The device was opened; this is the received descriptor.
    Opened(i32),
    /// The child could not open it; this is the `errno`.
    Failed(i32),
    /// The child reported success but sent no descriptor.
    NoDescriptor,
}

/// Reads the child's reply: a nonzero `errno` is a failure, whatever came
/// with it; otherwise the received descriptor, if there is one.
pub fn open_reply(errno: i32, fd: Option<i32>) -> (r: OpenReply)
    ensures
        errno != 0 ==> r == OpenReply::Failed(errno),
        errno == 0 ==> r == match fd {
            Some(f) => OpenReply::Opened(f),
            None => OpenReply::NoDescriptor,
        },
{
    if errno != 0 {
        return OpenReply::Failed(errno);
    }
    match fd {
        Some(f) => OpenReply::Opened(f),
        None => OpenReply::NoDescriptor,
    }
}

/// A device path that fits in an open request and lies under `devpath`
/// comes out of the child's decoding as an open of exactly that path.
pub proof fn lemma_open_request_round_trip(path: Seq<char>, devpath: Seq<char>)
    requires
        vstd::utf8::encode_utf8(path).len() <= MAX_PATH_BYTES,
        has_prefix(path, devpath),
    ensures
        child_action(open_request_bytes(path), devpath) == ChildActionView::Open(path),
{
    let b = vstd::utf8::encode_utf8(path);
    let msg = open_request_bytes(path);
    assert(b.subrange(0, b.len() as int) =~= b);
    assert(msg.subrange(1, msg.len() as int) =~= b);
    vstd::utf8::encode_utf8_valid_utf8(path);
    vstd::utf8::encode_utf8_decode_utf8(path);
}

/// Whatever message it receives, the child opens only paths that lie under
/// its device directory.
pub proof fn lemma_child_opens_only_under_devpath(msg: Seq<u8>, devpath: Seq<char>)
    ensures
        child_action(msg, devpath) matches ChildActionView::Open(p) ==> has_prefix(p, devpath),
{
}

} // verus!
