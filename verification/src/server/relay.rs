//! The relay of the standalone server program: how a read from a peer's
//! socket becomes a message, and how a message is framed before it is
//! written to every open socket.

use vstd::prelude::*;
use vstd::string::*;
use vstd::utf8::{decode_utf8, encode_utf8, encode_utf8_decode_utf8};
use crate::text::{concat2, concat3, lemma_between, lemma_between_injective};

verus! {

/// The size of the buffer that one read from a socket fills.
pub const MAX_MSG_SIZE: usize = 4096;

/// The outcome of one attempt to read from a peer's socket.
pub enum TryRead {
    /// The read filled this many bytes of the buffer.
    Read(usize),
    /// No data was ready.
    WouldBlock,
    /// The read failed; the text describes the failure.
    Failed(String),
}

/// What the reader does after one attempt.
pub enum ReadStep {
    /// Wait until the socket is readable and try again.
    Retry,
    /// The peer closed its side: stop reading.
    Closed,
    /// Report the failure, then try again.
    Complain(String),
    /// The message that was read.
    Message(Vec<u8>),
}

/// The decision after one attempt to read into `buf`: a read of nothing
/// means the peer closed its side, not ready means try again, a failure is
/// reported and retried, and a read of some bytes yields those bytes as the
/// message.
pub fn read_step(outcome: TryRead, buf: &[u8]) -> (step: ReadStep)
    requires
        outcome matches TryRead::Read(n) ==> n <= buf@.len(),
    ensures
        match outcome {
            TryRead::Read(n) => if n == 0 {
                step is Closed
            } else {
                step matches ReadStep::Message(m) && m@ == buf@.subrange(0, n as int)
            },
            TryRead::WouldBlock => step is Retry,
            TryRead::Failed(e) => step matches ReadStep::Complain(c) && c@ == e@,
        },
{
    match outcome {
        TryRead::Read(n) => {
            if n == 0 {
                ReadStep::Closed
            } else {
                ReadStep::Message(vstd::slice::slice_to_vec(vstd::slice::slice_subrange(buf, 0, n)))
            }
        },
        TryRead::WouldBlock => ReadStep::Retry,
        TryRead::Failed(e) => ReadStep::Complain(e),
    }
}

/// The bytes that go out for `msg`: when it comes from a peer, led by the
/// UTF-8 text of the peer's address and a colon and a space.
pub open spec fn framed(msg: Seq<u8>, from: Option<Seq<char>>) -> Seq<u8> {
    match from {
        Some(addr) => encode_utf8(addr + ": "@) + msg,
        None => msg,
    }
}

/// Frames `msg` for sending to every peer, as `framed` says.
pub fn frame_message(msg: Vec<u8>, from: Option<&String>) -> (out: Vec<u8>)
    ensures
        match from {
            Some(a) => out@ == encode_utf8(a@ + ": "@) + msg@,
            None => out@ == msg@,
        },
        out@ == framed(msg@, match from { Some(a) => Some(a@), None => None }),
{
    match from {
        Some(addr) => {
            let lead = concat2(addr.as_str(), ": ");
            let mut out = vstd::slice::slice_to_vec(lead.as_str().as_bytes());
            let mut rest = msg;
            out.append(&mut rest);
            out
        },
        None => msg,
    }
}

/// The notice sent to everyone when a peer's connection is gone.
pub open spec fn disconnect_notice_text(addr: Seq<char>) -> Seq<char> {
    "user "@ + addr + " disconnected"@
}

/// The bytes of the notice that the peer at `addr` disconnected.
pub fn disconnect_notice(addr: &String) -> (out: Vec<u8>)
    ensures
        out@ == encode_utf8("user "@ + addr@ + " disconnected"@),
        out@ == encode_utf8(disconnect_notice_text(addr@)),
{
    let notice = concat3("user ", addr.as_str(), " disconnected");
    vstd::slice::slice_to_vec(notice.as_str().as_bytes())
}

/// A message from an author is framed as the UTF-8 text of the whole of the
/// author's address and ": ", followed by the message unchanged; without an
/// author it is left as it is. The frame gives the author back, so the same
/// message from two different authors is never framed alike.
pub proof fn law_framed(msg: Seq<u8>, author: Seq<char>, other: Seq<char>)
    ensures
        framed(msg, Some(author)) == encode_utf8(author + ": "@) + msg,
        framed(msg, None) == msg,
        ({
            let f = framed(msg, Some(author));
            &&& f.subrange((f.len() - msg.len()) as int, f.len() as int) == msg
            &&& decode_utf8(f.subrange(0, (f.len() - msg.len()) as int)) == author + ": "@
        }),
        framed(msg, Some(author)) == framed(msg, Some(other)) ==> author == other,
{
    reveal_strlit(": ");
    let lead = encode_utf8(author + ": "@);
    let f = lead + msg;
    assert(f.subrange((f.len() - msg.len()) as int, f.len() as int) =~= msg);
    assert(f.subrange(0, (f.len() - msg.len()) as int) =~= lead);
    encode_utf8_decode_utf8(author + ": "@);
    if framed(msg, Some(author)) == framed(msg, Some(other)) {
        let lead2 = encode_utf8(other + ": "@);
        assert((lead2 + msg).subrange(0, ((lead2 + msg).len() - msg.len()) as int) =~= lead2);
        encode_utf8_decode_utf8(other + ": "@);
        assert(author + ": "@ == other + ": "@);
        let e = Seq::<char>::empty();
        assert(e + author + ": "@ =~= author + ": "@);
        assert(e + other + ": "@ =~= other + ": "@);
        lemma_between_injective(e, author, other, ": "@);
    }
}

/// The disconnect notice for `addr` is the UTF-8 text of "user ", the whole
/// of `addr`, and " disconnected"; the bytes give the address back, so two
/// different addresses never get the same notice.
pub proof fn law_disconnect_notice(addr: Seq<char>, other: Seq<char>)
    ensures
        disconnect_notice_text(addr) == "user "@ + addr + " disconnected"@,
        decode_utf8(encode_utf8(disconnect_notice_text(addr))).subrange(5, (5 + addr.len()) as int) == addr,
        encode_utf8(disconnect_notice_text(addr)) == encode_utf8(disconnect_notice_text(other)) ==> addr == other,
{
    reveal_strlit("user ");
    reveal_strlit(" disconnected");
    encode_utf8_decode_utf8(disconnect_notice_text(addr));
    encode_utf8_decode_utf8(disconnect_notice_text(other));
    lemma_between("user "@, addr, " disconnected"@);
    if encode_utf8(disconnect_notice_text(addr)) == encode_utf8(disconnect_notice_text(other)) {
        lemma_between_injective("user "@, addr, other, " disconnected"@);
    }
}

} // verus!
