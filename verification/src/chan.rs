//! Channels of text between the server and its peers' sessions. The outbox
//! opens them, numbering both halves of each alike, and is the only way to
//! send on them: every message it hands to a channel is recorded.

use vstd::prelude::*;
use crate::ShutdownSignal;
use tokio::sync::mpsc::{Receiver, Sender, UnboundedReceiver, UnboundedSender};

verus! {

/// Declares `tokio::sync::mpsc::UnboundedSender`, the sending half of an unbounded channel; opaque here.
#[verifier::external_type_specification]
#[verifier::external_body]
#[verifier::reject_recursive_types(T)]
pub struct ExUnboundedSender<T>(tokio::sync::mpsc::UnboundedSender<T>);

/// Declares `tokio::sync::mpsc::UnboundedReceiver`, the receiving half of an unbounded channel; opaque here.
#[verifier::external_type_specification]
#[verifier::external_body]
#[verifier::reject_recursive_types(T)]
pub struct ExUnboundedReceiver<T>(tokio::sync::mpsc::UnboundedReceiver<T>);

/// Declares `tokio::sync::mpsc::Sender`, the sending half of a bounded channel; opaque here.
#[verifier::external_type_specification]
#[verifier::external_body]
#[verifier::reject_recursive_types(T)]
pub struct ExSender<T>(tokio::sync::mpsc::Sender<T>);

/// Declares `tokio::sync::mpsc::Receiver`, the receiving half of a bounded channel; opaque here.
#[verifier::external_type_specification]
#[verifier::external_body]
#[verifier::reject_recursive_types(T)]
pub struct ExReceiver<T>(tokio::sync::mpsc::Receiver<T>);

/// Opens a bounded channel with `tokio::sync::mpsc::channel`. tokio panics
/// when the capacity is zero or above its semaphore limit (`usize::MAX >> 3`),
/// so both are ruled out; nothing is claimed of the two handles.
#[verifier::external_body]
pub(crate) fn open_shutdown_channel(capacity: usize) -> (Sender<ShutdownSignal>, Receiver<ShutdownSignal>)
    requires
        0 < capacity <= usize::MAX / 8,
{
    tokio::sync::mpsc::channel(capacity)
}

/// The sending half of a channel of text, with the number of the channel it
/// belongs to.
pub struct TextSender {
    tx: UnboundedSender<String>,
    channel: Ghost<nat>,
}

/// The receiving half of a channel of text, with the number of the channel it
/// belongs to.
pub struct TextReceiver {
    rx: UnboundedReceiver<String>,
    channel: Ghost<nat>,
}

impl TextSender {
    /// The number of the channel this sender feeds.
    pub closed spec fn channel(&self) -> nat {
        self.channel@
    }
}

impl TextReceiver {
    /// The number of the channel this receiver drains.
    pub closed spec fn channel(&self) -> nat {
        self.channel@
    }

    /// The tokio receiver, for the session that waits on it.
    pub fn into_inner(self) -> UnboundedReceiver<String> {
        self.rx
    }
}

/// One message handed to one channel: to whom, what, through which channel,
/// and whether the channel took it.
pub struct Handover {
    pub to: Seq<char>,
    pub message: Seq<char>,
    pub channel: nat,
    pub accepted: bool,
}

/// What became of one message handed to one peer's channel.
pub struct Delivery {
    /// The address of the peer.
    pub to: String,
    /// The message handed to its channel.
    pub message: String,
    /// Whether the channel took it (it refuses once the peer's side is gone).
    pub accepted: bool,
}

/// The record of `report`, sent through the channels `channels` in order.
pub open spec fn handovers(report: Seq<Delivery>, channels: Seq<nat>) -> Seq<Handover> {
    Seq::new(
        report.len(),
        |i: int|
            Handover {
                to: report[i].to@,
                message: report[i].message@,
                channel: channels[i],
                accepted: report[i].accepted,
            },
    )
}

/// `report` holds one hand-over of `message` to each of `addrs`, in order.
pub open spec fn one_each(report: Seq<Delivery>, addrs: Seq<Seq<char>>, message: Seq<char>) -> bool {
    &&& report.len() == addrs.len()
    &&& forall|i: int|
        0 <= i < report.len() ==> (#[trigger] report[i]).to@ == addrs[i] && report[i].message@ == message
}

/// Where channels come from and where messages go: it numbers the channels
/// it opens, and records every message handed to a channel. Only `deliver`
/// sends, and every send it makes is recorded.
pub struct Outbox {
    sent: Ghost<Seq<Handover>>,
    opened: Ghost<nat>,
}

/// Opens a channel with one call of `tokio::sync::mpsc::unbounded_channel`
/// and labels both of its halves with the next channel number of `outbox`;
/// the two halves tokio returns belong to one channel. The handles are
/// otherwise opaque.
#[verifier::external_body]
fn open_logged(outbox: &mut Outbox) -> (pair: (TextSender, TextReceiver))
    ensures
        pair.0.channel() == old(outbox).opened(),
        pair.1.channel() == old(outbox).opened(),
        final(outbox).opened() == old(outbox).opened() + 1,
        final(outbox).sent() == old(outbox).sent(),
{
    let (tx, rx) = tokio::sync::mpsc::unbounded_channel();
    (TextSender { tx, channel: Ghost(outbox.opened@) }, TextReceiver { rx, channel: Ghost(outbox.opened@) })
}

/// Hands `message` to `tokio::sync::mpsc::UnboundedSender::send` on the
/// channel of `tx`, and records in `outbox` that exactly `message` was handed
/// to that channel for the peer at `to`, with whether it was taken. Whether
/// the channel takes it depends on whether its receiving half is still open,
/// which is not stated. When tokio refuses the message it returns it inside
/// the error; this wrapper gives that same message back as `Err`.
#[verifier::external_body]
fn send_logged(outbox: &mut Outbox, to: &String, tx: &TextSender, message: String) -> (r: Result<(), String>)
    ensures
        r matches Err(back) ==> back@ == message@,
        final(outbox).sent() == old(outbox).sent().push(
            Handover { to: to@, message: message@, channel: tx.channel(), accepted: r is Ok },
        ),
        final(outbox).opened() == old(outbox).opened(),
{
    match tx.tx.send(message) {
        Ok(()) => Ok(()),
        Err(refused) => Err(refused.0),
    }
}

impl Outbox {
    /// Every hand-over so far, in order.
    pub closed spec fn sent(&self) -> Seq<Handover> {
        self.sent@
    }

    /// How many channels of text were opened so far; the next one gets this
    /// number.
    pub closed spec fn opened(&self) -> nat {
        self.opened@
    }

    /// Nothing opened, nothing sent.
    pub fn new() -> (o: Outbox)
        ensures
            o.sent() == Seq::<Handover>::empty(),
            o.opened() == 0,
    {
        Outbox { sent: Ghost(Seq::empty()), opened: Ghost(0) }
    }

    /// Opens a channel of text; both halves carry the next channel number.
    pub fn open_channel(&mut self) -> (pair: (TextSender, TextReceiver))
        ensures
            pair.0.channel() == old(self).opened(),
            pair.1.channel() == old(self).opened(),
            final(self).opened() == old(self).opened() + 1,
            final(self).sent() == old(self).sent(),
    {
        open_logged(self)
    }

    /// Hands a copy of `message` to `tx`, for the peer at `to`, records the
    /// hand-over, and reports whether the channel took it.
    pub fn deliver(&mut self, to: &String, tx: &TextSender, message: &String) -> (d: Delivery)
        ensures
            d.to@ == to@,
            d.message@ == message@,
            final(self).sent() == old(self).sent().push(
                Handover { to: to@, message: message@, channel: tx.channel(), accepted: d.accepted },
            ),
            final(self).opened() == old(self).opened(),
    {
        let outcome = send_logged(self, to, tx, message.clone());
        Delivery { to: to.clone(), message: message.clone(), accepted: outcome.is_ok() }
    }
}

} // verus!
