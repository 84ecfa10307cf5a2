//! The server's roster of connected peers and its handling of events.
//!
//! The roster maps the text of each peer's address to the channel handles of
//! its session. Addresses are kept in the order the peers joined, and none
//! occurs twice.

use vstd::prelude::*;
use crate::ShutdownSignal;
use crate::chan::{handovers, one_each, open_shutdown_channel, Delivery, Handover, Outbox, TextReceiver, TextSender};
use crate::roster::{lemma_push_keeps_distinct, lemma_remove_keeps_distinct, Mailbox, Roster};
use crate::text::{concat2, concat3, lemma_between, lemma_between_injective};
use vstd::string::*;
use tokio::sync::mpsc::Sender;

verus! {

/// What reaches the server's event loop.
pub enum Event {
    /// A peer connected from `addr`.
    NewPeer { addr: String },
    /// The peer at `addr` went away.
    PeerDisconnect { addr: String },
    /// `from` wrote `content` for the peers in `to` only.
    NewPrivateMessage { from: String, to: Vec<String>, content: String },
    /// `from` wrote the line `contents` for everyone.
    NewMessage { contents: String, from: String },
    /// A session failed while reading; `err` describes the failure.
    ServerErrorLogRequest { err: String },
}

/// The channel handles of one connected peer.
pub struct Peer {
    /// Carries the lines that the peer's session writes to its socket.
    pub message_tx: TextSender,
    /// Carries a request to stop the session.
    pub shutdown_tx: Sender<ShutdownSignal>,
}

impl Mailbox for Peer {
    open spec fn mailbox(&self) -> nat {
        self.message_tx.channel()
    }

    fn sender(&self) -> (tx: &TextSender) {
        &self.message_tx
    }
}

/// The connected peers, by address, and the outbox through which they are
/// sent their messages.
pub struct ServerState {
    peers: Roster<Peer>,
    outbox: Outbox,
}

/// What the event loop does next, after the state has handled an event.
pub enum Action {
    /// Nothing but the hand-overs already made.
    Done { deliveries: Vec<Delivery> },
    /// A peer was admitted: run its session, which receives on `messages`,
    /// and call `end_session` with `addr` once it returns.
    RunSession { addr: String, messages: TextReceiver, deliveries: Vec<Delivery> },
}

/// The roster after a peer at `addr` connects: a new address is added at the
/// end, a known one changes nothing.
pub open spec fn joined(peers: Seq<Seq<char>>, addr: Seq<char>) -> Seq<Seq<char>> {
    if peers.contains(addr) {
        peers
    } else {
        peers.push(addr)
    }
}

/// The roster after the session of `addr` ends: its entry is taken out.
pub open spec fn departed(peers: Seq<Seq<char>>, addr: Seq<char>) -> Seq<Seq<char>> {
    if peers.contains(addr) {
        peers.remove(peers.index_of(addr))
    } else {
        peers
    }
}

/// The announcement of a newcomer.
pub open spec fn join_notice(addr: Seq<char>) -> Seq<char> {
    "User "@ + addr + " has joined the session"@
}

/// The announcement of a departure.
pub open spec fn leave_notice(addr: Seq<char>) -> Seq<char> {
    addr + " has been terminated"@
}

/// A line relayed to everyone, led by its author's address.
pub open spec fn chat_line(from: Seq<char>, contents: Seq<char>) -> Seq<char> {
    from + ": "@ + contents
}

impl View for ServerState {
    type V = Seq<Seq<char>>;

    closed spec fn view(&self) -> Seq<Seq<char>> {
        self.peers.addrs()
    }
}

impl ServerState {
    /// The channel numbers of the peers, in roster order.
    pub closed spec fn mailboxes(&self) -> Seq<nat> {
        self.peers.mailboxes()
    }

    /// Every message handed to a peer's channel so far, in order.
    pub closed spec fn sent(&self) -> Seq<Handover> {
        self.outbox.sent()
    }

    /// How many channels of text were opened so far.
    pub closed spec fn opened(&self) -> nat {
        self.outbox.opened()
    }

    /// An empty roster; nothing opened, nothing sent.
    pub fn new() -> (s: Self)
        ensures
            s@ == Seq::<Seq<char>>::empty(),
            s.mailboxes() == Seq::<nat>::empty(),
            s.sent() == Seq::<Handover>::empty(),
            s.opened() == 0,
    {
        let s = ServerState { peers: Roster::new(), outbox: Outbox::new() };
        assert(s.mailboxes() =~= Seq::<nat>::empty());
        s
    }

    /// The number of connected peers.
    pub fn len(&self) -> (n: usize)
        ensures
            n == self@.len(),
            self@.no_duplicates(),
            self@.len() == self.mailboxes().len(),
    {
        self.peers.distinct_addrs();
        self.peers.len()
    }

    /// Where `addr` stands in the roster, if it is there.
    pub fn position(&self, addr: &String) -> (r: Option<usize>)
        ensures
            match r {
                Some(i) => i < self@.len() && self@[i as int] == addr@,
                None => !self@.contains(addr@),
            },
    {
        self.peers.position(addr)
    }

    /// Hands `contents` to the channel of every connected peer, in roster
    /// order, records each hand-over, and reports what became of it.
    pub fn server_broadcast(&mut self, contents: String) -> (report: Vec<Delivery>)
        ensures
            final(self)@ == old(self)@,
            final(self).mailboxes() == old(self).mailboxes(),
            final(self).opened() == old(self).opened(),
            one_each(report@, old(self)@, contents@),
            final(self).sent() == old(self).sent() + handovers(report@, old(self).mailboxes()),
    {
        self.peers.broadcast(&mut self.outbox, &contents)
    }

    /// Welcomes the peer at `addr` unless it is already connected. A newcomer
    /// gets a fresh channel and is announced to everyone, itself included.
    fn welcome(&mut self, addr: String) -> (action: Action)
        ensures
            final(self)@ == joined(old(self)@, addr@),
            final(self)@.no_duplicates(),
            if old(self)@.contains(addr@) {
                &&& final(self).mailboxes() == old(self).mailboxes()
                &&& final(self).sent() == old(self).sent()
                &&& final(self).opened() == old(self).opened()
                &&& action matches Action::Done { deliveries } && deliveries@.len() == 0
            } else {
                &&& final(self).mailboxes() == old(self).mailboxes().push(old(self).opened())
                &&& final(self).opened() == old(self).opened() + 1
                &&& action matches Action::RunSession { addr: a, messages, deliveries }
                &&& a@ == addr@
                &&& messages.channel() == old(self).opened()
                &&& one_each(deliveries@, final(self)@, "User "@ + addr@ + " has joined the session"@)
                &&& final(self).sent() == old(self).sent() + handovers(deliveries@, final(self).mailboxes())
            },
    {
        self.peers.distinct_addrs();
        let contents = concat3("User ", addr.as_str(), " has joined the session");
        match self.peers.position(&addr) {
            Some(_) => Action::Done { deliveries: Vec::new() },
            None => {
                let (client_tx, client_rx) = self.outbox.open_channel();
                let (shutdown_tx, _shutdown_rx) = open_shutdown_channel(1);
                let ghost addr_view = addr@;
                self.peers.add(addr.clone(), Peer { message_tx: client_tx, shutdown_tx: shutdown_tx });
                self.peers.distinct_addrs();
                let deliveries = self.peers.broadcast(&mut self.outbox, &contents);
                Action::RunSession { addr, messages: client_rx, deliveries }
            },
        }
    }

    /// Relays a line written by `from` to every connected peer.
    fn relay(&mut self, from: &String, contents: &String) -> (deliveries: Vec<Delivery>)
        ensures
            final(self)@ == old(self)@,
            final(self).mailboxes() == old(self).mailboxes(),
            final(self).opened() == old(self).opened(),
            one_each(deliveries@, old(self)@, from@ + ": "@ + contents@),
            final(self).sent() == old(self).sent() + handovers(deliveries@, old(self).mailboxes()),
    {
        let mut line = concat2(from.as_str(), ": ");
        line.append(contents.as_str());
        self.server_broadcast(line)
    }

    /// Handles one event of the server's loop. Only arrivals and chat lines
    /// are handled; the other events are not, and are left to the caller.
    pub fn handle_event(&mut self, event: Event) -> (action: Action)
        requires
            event is NewPeer || event is NewMessage,
        ensures
            final(self)@.no_duplicates(),
            match event {
                Event::NewPeer { addr } => {
                    &&& final(self)@ == joined(old(self)@, addr@)
                    &&& if old(self)@.contains(addr@) {
                        &&& final(self).mailboxes() == old(self).mailboxes()
                        &&& final(self).sent() == old(self).sent()
                        &&& final(self).opened() == old(self).opened()
                        &&& action matches Action::Done { deliveries } && deliveries@.len() == 0
                    } else {
                        &&& final(self).mailboxes() == old(self).mailboxes().push(old(self).opened())
                        &&& final(self).opened() == old(self).opened() + 1
                        &&& action matches Action::RunSession { addr: a, messages, deliveries }
                        &&& a@ == addr@
                        &&& messages.channel() == old(self).opened()
                        &&& one_each(deliveries@, final(self)@, "User "@ + addr@ + " has joined the session"@)
                        &&& final(self).sent() == old(self).sent() + handovers(deliveries@, final(self).mailboxes())
                    }
                },
                Event::NewMessage { contents, from } => {
                    &&& final(self)@ == old(self)@
                    &&& final(self).mailboxes() == old(self).mailboxes()
                    &&& final(self).opened() == old(self).opened()
                    &&& action matches Action::Done { deliveries }
                    &&& one_each(deliveries@, old(self)@, from@ + ": "@ + contents@)
                    &&& final(self).sent() == old(self).sent() + handovers(deliveries@, old(self).mailboxes())
                },
                _ => false,
            },
    {
        match event {
            Event::NewPeer { addr } => self.welcome(addr),
            Event::NewMessage { contents, from } => {
                let deliveries = self.relay(&from, &contents);
                self.peers.distinct_addrs();
                Action::Done { deliveries }
            },
            _ => Action::Done { deliveries: Vec::new() },
        }
    }

    /// Takes the peer at `addr` off the roster once its session has ended,
    /// and tells the remaining peers.
    pub fn end_session(&mut self, addr: &String) -> (deliveries: Vec<Delivery>)
        ensures
            final(self)@ == departed(old(self)@, addr@),
            final(self)@.no_duplicates(),
            old(self)@.contains(addr@) ==> final(self).mailboxes() == old(self).mailboxes().remove(
                old(self)@.index_of(addr@),
            ),
            !old(self)@.contains(addr@) ==> final(self).mailboxes() == old(self).mailboxes(),
            final(self).opened() == old(self).opened(),
            one_each(deliveries@, final(self)@, addr@ + " has been terminated"@),
            final(self).sent() == old(self).sent() + handovers(deliveries@, final(self).mailboxes()),
    {
        let notice = concat2(addr.as_str(), " has been terminated");
        match self.peers.position(addr) {
            Some(i) => {
                self.peers.remove(i);
            },
            None => {},
        }
        self.peers.distinct_addrs();
        self.peers.broadcast(&mut self.outbox, &notice)
    }
}

/// What a peer's session has just observed.
pub enum SessionInput {
    /// The peer wrote a line.
    Line(String),
    /// The peer's socket reported the end of its input.
    LinesEnded,
    /// Reading from the peer's socket failed; the text describes the failure.
    ReadFailed(String),
    /// A line arrived on the session's channel, to be written to the peer.
    Outgoing(String),
    /// Every sender of the session's channel is gone.
    OutboxClosed,
}

/// What a peer's session does next.
pub enum SessionStep {
    /// Post this event to the server's loop, then go on.
    Forward(Event),
    /// Write this line to the peer's socket, then go on.
    Write(String),
    /// Post this event to the server's loop, then end the session.
    Fail(Event),
    /// End the session.
    Stop,
}

impl ServerState {
    /// The decision of the session of the peer at `addr` on one observation.
    pub fn connection_step(addr: &String, input: SessionInput) -> (step: SessionStep)
        ensures
            match input {
                SessionInput::Line(line) => step matches SessionStep::Forward(
                    Event::NewMessage { contents, from },
                ) && contents@ == line@ && from@ == addr@,
                SessionInput::LinesEnded => step is Stop,
                SessionInput::ReadFailed(err) => step matches SessionStep::Fail(
                    Event::ServerErrorLogRequest { err: e },
                ) && e@ == err@,
                SessionInput::Outgoing(msg) => step matches SessionStep::Write(out) && out@ == msg@,
                SessionInput::OutboxClosed => step is Stop,
            },
    {
        match input {
            SessionInput::Line(line) => SessionStep::Forward(Event::NewMessage { contents: line, from: addr.clone() }),
            SessionInput::LinesEnded => SessionStep::Stop,
            SessionInput::ReadFailed(err) => SessionStep::Fail(Event::ServerErrorLogRequest { err }),
            SessionInput::Outgoing(msg) => SessionStep::Write(msg),
            SessionInput::OutboxClosed => SessionStep::Stop,
        }
    }
}

/// The announcement of a newcomer at `addr` reads "User ", then the whole of
/// `addr`, then " has joined the session"; two different addresses are never
/// announced alike.
pub proof fn law_join_notice(addr: Seq<char>, other: Seq<char>)
    ensures
        join_notice(addr) == "User "@ + addr + " has joined the session"@,
        join_notice(addr).len() == addr.len() + 28,
        join_notice(addr).subrange(5, (5 + addr.len()) as int) == addr,
        join_notice(addr) == join_notice(other) ==> addr == other,
{
    reveal_strlit("User ");
    reveal_strlit(" has joined the session");
    lemma_between("User "@, addr, " has joined the session"@);
    if join_notice(addr) == join_notice(other) {
        lemma_between_injective("User "@, addr, other, " has joined the session"@);
    }
}

/// The announcement of a departure from `addr` reads the whole of `addr`,
/// then " has been terminated"; two different addresses are never announced
/// alike.
pub proof fn law_leave_notice(addr: Seq<char>, other: Seq<char>)
    ensures
        leave_notice(addr) == addr + " has been terminated"@,
        leave_notice(addr).len() == addr.len() + 20,
        leave_notice(addr).subrange(0, addr.len() as int) == addr,
        leave_notice(addr) == leave_notice(other) ==> addr == other,
{
    reveal_strlit(" has been terminated");
    let e = Seq::<char>::empty();
    assert(e + addr =~= addr);
    assert(e + other =~= other);
    lemma_between(e, addr, " has been terminated"@);
    if leave_notice(addr) == leave_notice(other) {
        lemma_between_injective(e, addr, other, " has been terminated"@);
    }
}

/// A relayed line reads the whole of its author's address, then ": ", then
/// the whole of what was written.
pub proof fn law_chat_line(from: Seq<char>, contents: Seq<char>)
    ensures
        chat_line(from, contents) == from + ": "@ + contents,
        chat_line(from, contents).len() == from.len() + 2 + contents.len(),
        chat_line(from, contents).subrange(0, from.len() as int) == from,
        chat_line(from, contents).subrange((from.len() + 2) as int, (from.len() + 2 + contents.len()) as int) == contents,
{
    reveal_strlit(": ");
    let line = chat_line(from, contents);
    assert(line.subrange(0, from.len() as int) =~= from);
    assert(line.subrange((from.len() + 2) as int, (from.len() + 2 + contents.len()) as int) =~= contents);
}

/// When a newcomer's session ends, the roster is as it was before it joined.
pub proof fn lemma_session_end_undoes_arrival(peers: Seq<Seq<char>>, addr: Seq<char>)
    requires
        peers.no_duplicates(),
        !peers.contains(addr),
    ensures
        departed(joined(peers, addr), addr) == peers,
{
    let with = peers.push(addr);
    assert(with[peers.len() as int] == addr);
    assert(with.contains(addr));
    let k = with.index_of(addr);
    if k < peers.len() {
        assert(peers[k] == addr);
        assert(peers.contains(addr));
    }
    assert(k == peers.len());
    assert(with.remove(k) =~= peers);
}

/// A second arrival from a connected address changes nothing.
pub proof fn lemma_arrival_is_idempotent(peers: Seq<Seq<char>>, addr: Seq<char>)
    ensures
        joined(joined(peers, addr), addr) == joined(peers, addr),
{
    if !peers.contains(addr) {
        assert(peers.push(addr)[peers.len() as int] == addr);
    }
}

/// After an arrival or a departure, no address occurs twice.
pub proof fn lemma_roster_stays_distinct(peers: Seq<Seq<char>>, addr: Seq<char>)
    requires
        peers.no_duplicates(),
    ensures
        joined(peers, addr).no_duplicates(),
        departed(peers, addr).no_duplicates(),
        departed(peers, addr).len() <= peers.len(),
{
    if !peers.contains(addr) {
        lemma_push_keeps_distinct(peers, addr);
    } else {
        let k = peers.index_of(addr);
        assert(peers[k] == addr);
        lemma_remove_keeps_distinct(peers, k);
    }
}

/// A departure takes out exactly the departing address: every other peer
/// stays, and the departed one is gone.
pub proof fn lemma_departure_keeps_the_others(peers: Seq<Seq<char>>, addr: Seq<char>, other: Seq<char>)
    requires
        peers.no_duplicates(),
    ensures
        departed(peers, addr).contains(other) <==> (peers.contains(other) && other != addr),
{
    if peers.contains(addr) {
        let k = peers.index_of(addr);
        let d = peers.remove(k);
        assert(peers[k] == addr);
        if d.contains(other) {
            let i = choose|i: int| 0 <= i < d.len() && d[i] == other;
            let i2 = if i < k { i } else { i + 1 };
            assert(d[i] == peers[i2]);
            assert(i2 != k);
            assert(peers.contains(other));
        }
        if peers.contains(other) && other != addr {
            let i = choose|i: int| 0 <= i < peers.len() && peers[i] == other;
            assert(i != k);
            let i2 = if i < k { i } else { i - 1 };
            assert(d[i2] == other);
        }
    }
}

/// The announcement of a newcomer is handed to the newcomer too, last, and
/// through the newcomer's own channel (the last of `channels`, which the
/// roster gives the newcomer and whose receiver its session gets).
pub proof fn lemma_newcomer_hears_its_arrival(
    report: Seq<Delivery>,
    peers: Seq<Seq<char>>,
    channels: Seq<nat>,
    addr: Seq<char>,
)
    requires
        !peers.contains(addr),
        one_each(report, joined(peers, addr), join_notice(addr)),
        channels.len() == peers.len() + 1,
    ensures
        handovers(report, channels).last() == (Handover {
            to: addr,
            message: join_notice(addr),
            channel: channels.last(),
            accepted: report.last().accepted,
        }),
{
    let i = peers.len() as int;
    assert(report[i].to@ == joined(peers, addr)[i]);
}

/// A line for everyone is handed to its author too, when the author is
/// connected.
pub proof fn lemma_author_hears_its_line(
    report: Seq<Delivery>,
    peers: Seq<Seq<char>>,
    from: Seq<char>,
    contents: Seq<char>,
)
    requires
        peers.contains(from),
        one_each(report, peers, chat_line(from, contents)),
    ensures
        exists|i: int| 0 <= i < report.len() && report[i].to@ == from && report[i].message@ == chat_line(from, contents),
{
    let i = choose|i: int| 0 <= i < peers.len() && peers[i] == from;
    assert(report[i].to@ == peers[i]);
}

/// The announcement of a departure is not handed to the departed peer; it is
/// handed to each peer that stays.
pub proof fn lemma_departure_told_to_the_rest(report: Seq<Delivery>, peers: Seq<Seq<char>>, addr: Seq<char>)
    requires
        peers.no_duplicates(),
        one_each(report, departed(peers, addr), leave_notice(addr)),
    ensures
        forall|i: int| 0 <= i < report.len() ==> report[i].to@ != addr,
        forall|other: Seq<char>| peers.contains(other) && other != addr ==>
            exists|i: int| 0 <= i < report.len() && (#[trigger] report[i]).to@ == other,
{
    let d = departed(peers, addr);
    assert forall|i: int| 0 <= i < report.len() implies report[i].to@ != addr by {
        lemma_departure_keeps_the_others(peers, addr, addr);
        assert(report[i].to@ == d[i]);
        assert(d.contains(d[i]));
    }
    assert forall|other: Seq<char>| peers.contains(other) && other != addr implies
        exists|i: int| 0 <= i < report.len() && (#[trigger] report[i]).to@ == other by {
        lemma_departure_keeps_the_others(peers, addr, other);
        let i = choose|i: int| 0 <= i < d.len() && d[i] == other;
        assert(report[i].to@ == other);
    }
}

} // verus!
