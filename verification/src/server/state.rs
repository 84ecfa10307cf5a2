//! The roster of the standalone server: each peer's address with the sender
//! of its session's channel, in the order the peers were added, no address
//! twice; and the session of one peer.

use vstd::prelude::*;
use vstd::string::*;
use crate::chan::{handovers, one_each, Delivery, Handover, Outbox, TextReceiver, TextSender};
use crate::roster::{lemma_index_of_unique, lemma_push_keeps_distinct, Mailbox, Roster};
use crate::text::{concat3, lemma_between, lemma_between_injective};

verus! {

/// What reaches the standalone server's event loop.
pub enum Event {
    /// A peer connected from `addr`.
    NewPeer { addr: String },
    /// The session of the peer at `addr` ended.
    DropUser { addr: String },
    /// `from` wrote `content` for the peers in `to` only.
    NewPrivateMessage { from: String, to: Vec<String>, content: String },
    /// `from` wrote `contents` for everyone.
    AllMessage { contents: String, from: String },
    /// The session of the peer at `usr_addr` is ready to receive on the
    /// channel that `sender` feeds.
    UserAppend { usr_addr: String, sender: TextSender },
}

/// The connected peers of the standalone server, and the outbox through
/// which they are sent their messages.
pub struct ServerState {
    peers: Roster<TextSender>,
    outbox: Outbox,
}

/// What the standalone server's loop does next.
pub enum Action {
    /// Nothing but the hand-overs already made.
    Done { deliveries: Vec<Delivery> },
    /// Run `session` in a task of its own: write `greeting` to the peer,
    /// post `append` to this loop, then serve the peer, receiving on
    /// `messages`.
    SpawnSession { session: Session, greeting: String, append: Event, messages: TextReceiver },
}

/// The announcement of a peer that was added to the roster.
pub open spec fn joined_notice(addr: Seq<char>) -> Seq<char> {
    "User "@ + addr + " joined"@
}

/// The addresses of roster entries (address, channel number).
pub open spec fn addrs_of(r: Seq<(Seq<char>, nat)>) -> Seq<Seq<char>> {
    r.map_values(|e: (Seq<char>, nat)| e.0)
}

/// The entries after the channel numbered `channel` is recorded for `addr`:
/// a known address has its channel replaced in place, a new one is added at
/// the end.
pub open spec fn appended(r: Seq<(Seq<char>, nat)>, addr: Seq<char>, channel: nat) -> Seq<(Seq<char>, nat)> {
    if addrs_of(r).contains(addr) {
        r.update(addrs_of(r).index_of(addr), (addr, channel))
    } else {
        r.push((addr, channel))
    }
}

/// The entries after one event: only an append changes them.
pub open spec fn after_event(r: Seq<(Seq<char>, nat)>, e: Event) -> Seq<(Seq<char>, nat)> {
    match e {
        Event::UserAppend { usr_addr, sender } => appended(r, usr_addr@, sender.channel()),
        _ => r,
    }
}

/// The entries after the events `evs`, handled in order.
pub open spec fn after_events(r: Seq<(Seq<char>, nat)>, evs: Seq<Event>) -> Seq<(Seq<char>, nat)>
    decreases evs.len(),
{
    if evs.len() == 0 {
        r
    } else {
        after_event(after_events(r, evs.drop_last()), evs.last())
    }
}

/// The channel number kept for `addr`.
pub open spec fn channel_for(r: Seq<(Seq<char>, nat)>, addr: Seq<char>) -> nat {
    r[addrs_of(r).index_of(addr)].1
}

/// Event `e` records a channel for `addr`.
pub open spec fn appends_to(e: Event, addr: Seq<char>) -> bool {
    e matches Event::UserAppend { usr_addr, .. } && usr_addr@ == addr
}

impl View for ServerState {
    type V = Seq<Seq<char>>;

    closed spec fn view(&self) -> Seq<Seq<char>> {
        self.peers.addrs()
    }
}

impl ServerState {
    /// The channel numbers of the peers, in roster order.
    pub closed spec fn mailboxes(&self) -> Seq<nat> {
        self.peers.mailboxes()
    }

    /// Each peer's address with its channel number, in roster order.
    pub open spec fn entries(&self) -> Seq<(Seq<char>, nat)> {
        Seq::new(self@.len(), |i: int| (self@[i], self.mailboxes()[i]))
    }

    /// Every message handed to a peer's channel so far, in order.
    pub closed spec fn sent(&self) -> Seq<Handover> {
        self.outbox.sent()
    }

    /// How many channels of text were opened so far.
    pub closed spec fn opened(&self) -> nat {
        self.outbox.opened()
    }

    /// An empty roster; nothing opened, nothing sent.
    pub fn new() -> (s: Self)
        ensures
            s@ == Seq::<Seq<char>>::empty(),
            s.mailboxes() == Seq::<nat>::empty(),
            s.entries() == Seq::<(Seq<char>, nat)>::empty(),
            s.sent() == Seq::<Handover>::empty(),
            s.opened() == 0,
    {
        let s = ServerState { peers: Roster::new(), outbox: Outbox::new() };
        assert(s.mailboxes() =~= Seq::<nat>::empty());
        assert(s.entries() =~= Seq::<(Seq<char>, nat)>::empty());
        s
    }

    /// The number of peers on the roster.
    pub fn len(&self) -> (n: usize)
        ensures
            n == self@.len(),
            self@.no_duplicates(),
            self@.len() == self.mailboxes().len(),
    {
        self.peers.distinct_addrs();
        self.peers.len()
    }

    /// Where `addr` stands in the roster, if it is there.
    pub fn position(&self, addr: &String) -> (r: Option<usize>)
        ensures
            match r {
                Some(i) => i < self@.len() && self@[i as int] == addr@,
                None => !self@.contains(addr@),
            },
    {
        self.peers.position(addr)
    }

    /// Hands `contents` to every peer's channel, in roster order, records
    /// each hand-over, and reports what became of it.
    pub fn server_broadcast(&mut self, contents: String) -> (report: Vec<Delivery>)
        ensures
            final(self)@ == old(self)@,
            final(self).mailboxes() == old(self).mailboxes(),
            final(self).opened() == old(self).opened(),
            one_each(report@, old(self)@, contents@),
            final(self).sent() == old(self).sent() + handovers(report@, old(self).mailboxes()),
    {
        self.peers.broadcast(&mut self.outbox, &contents)
    }

    /// Records `sender` as the channel of the peer at `addr`: a known address
    /// has its channel replaced in place and nothing is sent; a new one is
    /// added at the end and announced to every peer, itself included.
    fn append_user(&mut self, addr: String, sender: TextSender) -> (deliveries: Vec<Delivery>)
        ensures
            final(self).entries() == appended(old(self).entries(), addr@, sender.channel()),
            final(self)@.no_duplicates(),
            final(self).opened() == old(self).opened(),
            old(self)@.contains(addr@) ==> {
                &&& final(self).sent() == old(self).sent()
                &&& deliveries@.len() == 0
            },
            !old(self)@.contains(addr@) ==> {
                &&& one_each(deliveries@, final(self)@, "User "@ + addr@ + " joined"@)
                &&& final(self).sent() == old(self).sent() + handovers(deliveries@, final(self).mailboxes())
            },
    {
        self.peers.distinct_addrs();
        let ghost before = self.entries();
        let ghost a = addr@;
        let ghost ch = sender.channel();
        proof {
            assert(addrs_of(before) =~= self@);
        }
        match self.peers.position(&addr) {
            Some(i) => {
                self.peers.replace(i, sender);
                self.peers.distinct_addrs();
                assert(self.entries() =~= before.update(i as int, (a, ch)));
                Vec::new()
            },
            None => {
                let notice = concat3("User ", addr.as_str(), " joined");
                self.peers.add(addr, sender);
                self.peers.distinct_addrs();
                assert(self.entries() =~= before.push((a, ch)));
                self.peers.broadcast(&mut self.outbox, &notice)
            },
        }
    }

    /// Handles one event of the standalone server's loop. Departures and
    /// private messages are not handled, and are left to the caller; a line
    /// for everyone is not passed on by this loop. An arrival gets a session
    /// with a fresh channel, whose sender reaches the roster when the
    /// session posts its append.
    pub fn handle_event(&mut self, event: Event) -> (action: Action)
        requires
            event is NewPeer || event is AllMessage || event is UserAppend,
        ensures
            final(self).entries() == after_event(old(self).entries(), event),
            final(self)@.no_duplicates(),
            match event {
                Event::NewPeer { addr } => {
                    &&& final(self).sent() == old(self).sent()
                    &&& final(self).opened() == old(self).opened() + 1
                    &&& action matches Action::SpawnSession { session, greeting, append, messages }
                    &&& session.addr() == addr@
                    &&& session.fresh(greeting@)
                    &&& greeting@ == "hello"@
                    &&& append matches Event::UserAppend { usr_addr, sender }
                    &&& usr_addr@ == addr@
                    &&& sender.channel() == old(self).opened()
                    &&& messages.channel() == old(self).opened()
                },
                Event::AllMessage { .. } => {
                    &&& final(self).sent() == old(self).sent()
                    &&& final(self).opened() == old(self).opened()
                    &&& action matches Action::Done { deliveries } && deliveries@.len() == 0
                },
                Event::UserAppend { usr_addr, sender } => {
                    &&& final(self).opened() == old(self).opened()
                    &&& action matches Action::Done { deliveries }
                    &&& old(self)@.contains(usr_addr@) ==> {
                        &&& final(self).sent() == old(self).sent()
                        &&& deliveries@.len() == 0
                    }
                    &&& !old(self)@.contains(usr_addr@) ==> {
                        &&& one_each(deliveries@, final(self)@, "User "@ + usr_addr@ + " joined"@)
                        &&& final(self).sent() == old(self).sent() + handovers(deliveries@, final(self).mailboxes())
                    }
                },
                _ => false,
            },
    {
        self.peers.distinct_addrs();
        match event {
            Event::NewPeer { addr } => {
                let (session, greeting, append, messages) = Session::open(&mut self.outbox, addr);
                Action::SpawnSession { session, greeting, append, messages }
            },
            Event::AllMessage { .. } => Action::Done { deliveries: Vec::new() },
            Event::UserAppend { usr_addr, sender } => {
                let deliveries = self.append_user(usr_addr, sender);
                Action::Done { deliveries }
            },
            _ => Action::Done { deliveries: Vec::new() },
        }
    }
}

/// The announcement of a user added at `addr` reads "User ", then the whole
/// of `addr`, then " joined"; two different addresses are never announced
/// alike.
pub proof fn law_joined_notice(addr: Seq<char>, other: Seq<char>)
    ensures
        joined_notice(addr) == "User "@ + addr + " joined"@,
        joined_notice(addr).len() == addr.len() + 12,
        joined_notice(addr).subrange(5, (5 + addr.len()) as int) == addr,
        joined_notice(addr) == joined_notice(other) ==> addr == other,
{
    reveal_strlit("User ");
    reveal_strlit(" joined");
    lemma_between("User "@, addr, " joined"@);
    if joined_notice(addr) == joined_notice(other) {
        lemma_between_injective("User "@, addr, other, " joined"@);
    }
}

/// Recording a channel for `addr` keeps addresses distinct, adds `addr` and
/// nothing else, keeps `channel` for it, and keeps every other channel.
proof fn lemma_appended(r: Seq<(Seq<char>, nat)>, addr: Seq<char>, channel: nat)
    requires
        addrs_of(r).no_duplicates(),
    ensures
        addrs_of(appended(r, addr, channel)).no_duplicates(),
        forall|x: Seq<char>|
            #![trigger addrs_of(appended(r, addr, channel)).contains(x)]
            addrs_of(appended(r, addr, channel)).contains(x) <==> (addrs_of(r).contains(x) || x == addr),
        channel_for(appended(r, addr, channel), addr) == channel,
        forall|x: Seq<char>|
            #![trigger channel_for(appended(r, addr, channel), x)]
            x != addr && addrs_of(r).contains(x) ==> channel_for(appended(r, addr, channel), x)
                == channel_for(r, x),
{
    let a = addrs_of(r);
    let n = appended(r, addr, channel);
    if a.contains(addr) {
        let k = a.index_of(addr);
        assert(a[k] == addr);
        assert(addrs_of(n) =~= a);
        assert forall|x: Seq<char>| x != addr && a.contains(x) implies channel_for(n, x) == channel_for(r, x) by {
            let i = a.index_of(x);
            assert(a[i] == x);
            assert(i != k);
        }
    } else {
        assert(addrs_of(n) =~= a.push(addr));
        lemma_push_keeps_distinct(a, addr);
        lemma_index_of_unique(a.push(addr), a.len() as int);
        assert(a.push(addr)[a.len() as int] == addr);
        assert forall|x: Seq<char>| x != addr && a.contains(x) implies channel_for(n, x) == channel_for(r, x) by {
            let i = a.index_of(x);
            assert(a[i] == x);
            assert(a.push(addr)[i] == x);
            lemma_index_of_unique(a.push(addr), i);
        }
        assert forall|x: Seq<char>| addrs_of(n).contains(x) <==> (a.contains(x) || x == addr) by {
            if a.contains(x) {
                let i = choose|i: int| 0 <= i < a.len() && a[i] == x;
                assert(a.push(addr)[i] == x);
            }
            if addrs_of(n).contains(x) && x != addr {
                let i = choose|i: int| 0 <= i < a.push(addr).len() && a.push(addr)[i] == x;
                assert(a[i] == x);
            }
        }
    }
}

/// Over any sequence of events, the roster holds the addresses it held and
/// those of every append, none twice; each address appended has the channel
/// of its last append, and every other keeps its channel.
#[verifier::rlimit(60)]
#[verifier::spinoff_prover]
pub proof fn lemma_roster_after_events(r: Seq<(Seq<char>, nat)>, evs: Seq<Event>)
    requires
        addrs_of(r).no_duplicates(),
    ensures
        addrs_of(after_events(r, evs)).no_duplicates(),
        forall|x: Seq<char>|
            #![trigger addrs_of(after_events(r, evs)).contains(x)]
            addrs_of(after_events(r, evs)).contains(x) <==> (addrs_of(r).contains(x) || exists|j: int|
                0 <= j < evs.len() && appends_to(#[trigger] evs[j], x)),
        forall|x: Seq<char>, k: int|
            #![trigger appends_to(evs[k], x)]
            0 <= k < evs.len() && appends_to(evs[k], x) && (forall|j: int|
                k < j < evs.len() ==> !appends_to(#[trigger] evs[j], x)) ==> channel_for(
                after_events(r, evs),
                x,
            ) == evs[k]->sender.channel(),
        forall|x: Seq<char>|
            #![trigger channel_for(after_events(r, evs), x)]
            addrs_of(r).contains(x) && (forall|j: int| 0 <= j < evs.len() ==> !appends_to(#[trigger] evs[j], x))
                ==> channel_for(after_events(r, evs), x) == channel_for(r, x),
    decreases evs.len(),
{
    if evs.len() > 0 {
        let prev = evs.drop_last();
        let e = evs.last();
        let p = after_events(r, prev);
        lemma_roster_after_events(r, prev);
        assert(after_events(r, evs) == after_event(p, e));
        assert forall|j: int| 0 <= j < prev.len() implies prev[j] == evs[j] by {}
        match e {
            Event::UserAppend { usr_addr, sender } => {
                lemma_appended(p, usr_addr@, sender.channel());
                assert(appends_to(evs[evs.len() - 1], usr_addr@));
                assert forall|x: Seq<char>|
                    addrs_of(after_events(r, evs)).contains(x) <==> (addrs_of(r).contains(x) || exists|j: int|
                        0 <= j < evs.len() && appends_to(#[trigger] evs[j], x)) by {
                    if exists|j: int| 0 <= j < evs.len() && appends_to(#[trigger] evs[j], x) {
                        let j = choose|j: int| 0 <= j < evs.len() && appends_to(#[trigger] evs[j], x);
                        if j < prev.len() {
                            assert(appends_to(prev[j], x));
                        }
                    }
                    if exists|j: int| 0 <= j < prev.len() && appends_to(#[trigger] prev[j], x) {
                        let j = choose|j: int| 0 <= j < prev.len() && appends_to(#[trigger] prev[j], x);
                        assert(appends_to(evs[j], x));
                    }
                }
                assert forall|x: Seq<char>, k: int|
                    0 <= k < evs.len() && appends_to(evs[k], x) && (forall|j: int|
                        k < j < evs.len() ==> !appends_to(#[trigger] evs[j], x)) implies channel_for(
                    after_events(r, evs),
                    x,
                ) == evs[k]->sender.channel() by {
                    if k < prev.len() {
                        assert(!appends_to(evs[evs.len() - 1], x));
                        assert(x != usr_addr@);
                        assert(appends_to(prev[k], x));
                        assert forall|j: int| k < j < prev.len() implies !appends_to(#[trigger] prev[j], x) by {
                            assert(prev[j] == evs[j]);
                        }
                        assert(addrs_of(p).contains(x));
                    }
                }
                assert forall|x: Seq<char>|
                    addrs_of(r).contains(x) && (forall|j: int| 0 <= j < evs.len() ==> !appends_to(#[trigger] evs[j], x))
                    implies channel_for(after_events(r, evs), x) == channel_for(r, x) by {
                    assert(!appends_to(evs[evs.len() - 1], x));
                    assert forall|j: int| 0 <= j < prev.len() implies !appends_to(#[trigger] prev[j], x) by {
                        assert(prev[j] == evs[j]);
                    }
                    assert(addrs_of(p).contains(x));
                }
            },
            _ => {
                assert(after_events(r, evs) == p);
                assert forall|x: Seq<char>|
                    addrs_of(after_events(r, evs)).contains(x) <==> (addrs_of(r).contains(x) || exists|j: int|
                        0 <= j < evs.len() && appends_to(#[trigger] evs[j], x)) by {
                    if exists|j: int| 0 <= j < evs.len() && appends_to(#[trigger] evs[j], x) {
                        let j = choose|j: int| 0 <= j < evs.len() && appends_to(#[trigger] evs[j], x);
                        assert(j < prev.len());
                        assert(appends_to(prev[j], x));
                    }
                    if exists|j: int| 0 <= j < prev.len() && appends_to(#[trigger] prev[j], x) {
                        let j = choose|j: int| 0 <= j < prev.len() && appends_to(#[trigger] prev[j], x);
                        assert(appends_to(evs[j], x));
                    }
                }
                assert forall|x: Seq<char>, k: int|
                    0 <= k < evs.len() && appends_to(evs[k], x) && (forall|j: int|
                        k < j < evs.len() ==> !appends_to(#[trigger] evs[j], x)) implies channel_for(
                    after_events(r, evs),
                    x,
                ) == evs[k]->sender.channel() by {
                    assert(k < prev.len());
                    assert(appends_to(prev[k], x));
                    assert forall|j: int| k < j < prev.len() implies !appends_to(#[trigger] prev[j], x) by {
                        assert(prev[j] == evs[j]);
                    }
                }
                assert forall|x: Seq<char>|
                    addrs_of(r).contains(x) && (forall|j: int| 0 <= j < evs.len() ==> !appends_to(#[trigger] evs[j], x))
                    implies channel_for(after_events(r, evs), x) == channel_for(r, x) by {
                    assert forall|j: int| 0 <= j < prev.len() implies !appends_to(#[trigger] prev[j], x) by {
                        assert(prev[j] == evs[j]);
                    }
                }
            },
        }
    }
}

/// Handling events one after another gives the roster `after_events` says.
pub proof fn lemma_after_events_step(r: Seq<(Seq<char>, nat)>, evs: Seq<Event>, e: Event)
    ensures
        after_events(r, evs.push(e)) == after_event(after_events(r, evs), e),
{
    assert(evs.push(e).drop_last() =~= evs);
}

/// What a session has posted to the server's loop.
pub enum Post {
    /// The sender of its channel, for its address.
    Append(Seq<char>),
    /// A line for everyone.
    Line(Seq<char>),
    /// Its end, for its address.
    Drop(Seq<char>),
}

/// One peer's session in the standalone server: its address, the text read
/// from its socket that the server's loop has not taken yet, whether it has
/// ended, and the record of what it has written to the peer and posted to
/// the loop.
pub struct Session {
    addr: String,
    line: String,
    ended: bool,
    written: Ghost<Seq<Seq<char>>>,
    posted: Ghost<Seq<Post>>,
}

/// What a session does after reading from its socket.
pub enum ReadStep {
    /// The peer's input has ended: post this departure, then end the session.
    Stop(Event),
    /// Post this event to the server's loop, then report with
    /// `after_forward` whether the loop took it.
    Forward(Event),
}

/// What a session does with what arrived on its channel.
pub enum OutgoingStep {
    /// Write this text to the peer's socket, then go on.
    Write(String),
    /// Go on waiting.
    Wait,
}

impl Session {
    /// The address of the session's peer.
    pub closed spec fn addr(&self) -> Seq<char> {
        self.addr@
    }

    /// The text read and not yet taken by the server's loop.
    pub closed spec fn pending(&self) -> Seq<char> {
        self.line@
    }

    /// Whether the peer's input has ended.
    pub closed spec fn ended(&self) -> bool {
        self.ended
    }

    /// Everything the session has had written to its peer, in order.
    pub closed spec fn written(&self) -> Seq<Seq<char>> {
        self.written@
    }

    /// Everything the session has posted to the server's loop, in order.
    pub closed spec fn posted(&self) -> Seq<Post> {
        self.posted@
    }

    /// A session just opened with `greeting`: it has written only the
    /// greeting, "hello", posted only its append, and read nothing.
    pub open spec fn fresh(&self, greeting: Seq<char>) -> bool {
        &&& greeting == "hello"@
        &&& self.written() == seq![greeting]
        &&& self.posted() == seq![Post::Append(self.addr())]
        &&& self.pending() == Seq::<char>::empty()
        &&& !self.ended()
    }

    /// The order a session keeps: the greeting is the first thing written,
    /// and the rest are the messages from its channel; the append is the
    /// first thing posted, then lines, then at most one departure, which is
    /// last, and posted exactly when the session has ended.
    pub open spec fn in_order(&self) -> bool {
        &&& self.written().len() >= 1
        &&& self.written()[0] == "hello"@
        &&& self.posted().len() >= 1
        &&& self.posted()[0] == Post::Append(self.addr())
        &&& forall|i: int|
            0 < i < self.posted().len() ==> (#[trigger] self.posted()[i]) is Line || (self.posted()[i]
                == Post::Drop(self.addr()) && i == self.posted().len() - 1)
        &&& self.ended() <==> self.posted().last() == Post::Drop(self.addr())
    }

    /// Opens the session of the peer at `addr` with a fresh channel from
    /// `outbox`: the session itself, the greeting it writes first, the event
    /// that hands its channel's sender to the server's loop, and the
    /// receiver that it reads from.
    pub fn open(outbox: &mut Outbox, addr: String) -> (r: (Session, String, Event, TextReceiver))
        ensures
            r.0.addr() == addr@,
            r.0.fresh(r.1@),
            r.1@ == "hello"@,
            r.0.in_order(),
            r.2 matches Event::UserAppend { usr_addr, sender } && usr_addr@ == addr@ && sender.channel()
                == old(outbox).opened(),
            r.3.channel() == old(outbox).opened(),
            final(outbox).opened() == old(outbox).opened() + 1,
            final(outbox).sent() == old(outbox).sent(),
    {
        let (client_tx, client_rx) = outbox.open_channel();
        let event = Event::UserAppend { usr_addr: addr.clone(), sender: client_tx };
        let greeting = String::from_str("hello");
        let ghost w = seq![greeting@];
        let ghost p = seq![Post::Append(addr@)];
        let session = Session { addr, line: String::new(), ended: false, written: Ghost(w), posted: Ghost(p) };
        (session, greeting, event, client_rx)
    }

    /// Takes in `chunk`, the text that one read from the socket produced.
    /// An empty read means the input has ended, and the session posts its
    /// departure; otherwise the chunk joins the pending text, and all of it
    /// is posted as a line for everyone.
    pub fn on_read(&mut self, chunk: &str) -> (step: ReadStep)
        requires
            !old(self).ended(),
        ensures
            final(self).addr() == old(self).addr(),
            final(self).written() == old(self).written(),
            old(self).in_order() ==> final(self).in_order(),
            chunk@.len() == 0 ==> {
                &&& final(self).ended()
                &&& final(self).pending() == old(self).pending()
                &&& final(self).posted() == old(self).posted().push(Post::Drop(old(self).addr()))
                &&& step matches ReadStep::Stop(Event::DropUser { addr })
                &&& addr@ == old(self).addr()
            },
            chunk@.len() > 0 ==> {
                &&& !final(self).ended()
                &&& final(self).pending() == old(self).pending() + chunk@
                &&& final(self).posted() == old(self).posted().push(Post::Line(final(self).pending()))
                &&& step matches ReadStep::Forward(Event::AllMessage { contents, from })
                &&& contents@ == final(self).pending()
                &&& from@ == old(self).addr()
            },
    {
        if chunk.is_empty() {
            self.ended = true;
            self.posted = Ghost(self.posted@.push(Post::Drop(self.addr@)));
            ReadStep::Stop(Event::DropUser { addr: self.addr.clone() })
        } else {
            self.line.append(chunk);
            self.posted = Ghost(self.posted@.push(Post::Line(self.line@)));
            ReadStep::Forward(Event::AllMessage { contents: self.line.clone(), from: self.addr.clone() })
        }
    }

    /// Reports whether the server's loop took the last posted line: if it
    /// did, the pending text is cleared; if not, it is kept, and the next read
    /// adds to it.
    pub fn after_forward(&mut self, accepted: bool)
        ensures
            final(self).addr() == old(self).addr(),
            final(self).ended() == old(self).ended(),
            final(self).written() == old(self).written(),
            final(self).posted() == old(self).posted(),
            accepted ==> final(self).pending() == Seq::<char>::empty(),
            !accepted ==> final(self).pending() == old(self).pending(),
    {
        if accepted {
            self.line = String::new();
        }
    }

    /// What the session does with `msg`, the outcome of waiting on its
    /// channel: a message is written to the peer; a closed channel is waited
    /// on again.
    pub fn on_outgoing(&mut self, msg: Option<String>) -> (step: OutgoingStep)
        ensures
            final(self).addr() == old(self).addr(),
            final(self).ended() == old(self).ended(),
            final(self).pending() == old(self).pending(),
            final(self).posted() == old(self).posted(),
            old(self).in_order() ==> final(self).in_order(),
            match msg {
                Some(m) => {
                    &&& step matches OutgoingStep::Write(out)
                    &&& out@ == m@
                    &&& final(self).written() == old(self).written().push(m@)
                },
                None => step is Wait && final(self).written() == old(self).written(),
            },
    {
        match msg {
            Some(m) => {
                self.written = Ghost(self.written@.push(m@));
                OutgoingStep::Write(m)
            },
            None => OutgoingStep::Wait,
        }
    }
}

} // verus!
