//! A roster of connected peers: their addresses in the order they were
//! added, none twice, each with what the server keeps for that peer, whose
//! channel of text carries what the peer is sent.

use vstd::prelude::*;
use crate::chan::{handovers, one_each, Delivery, Outbox, TextSender};

verus! {

/// What the server keeps for a peer, through whose channel the peer is sent
/// its messages.
pub trait Mailbox {
    /// The number of the channel that carries the peer's messages.
    spec fn mailbox(&self) -> nat;

    /// The sender of that channel.
    fn sender(&self) -> (tx: &TextSender)
        ensures
            tx.channel() == self.mailbox(),
    ;
}

impl Mailbox for TextSender {
    open spec fn mailbox(&self) -> nat {
        self.channel()
    }

    fn sender(&self) -> (tx: &TextSender) {
        self
    }
}

/// Peers by address.
pub struct Roster<T: Mailbox> {
    entries: Vec<(String, T)>,
}

/// Taking out entry `i` of a sequence without duplicates leaves none.
pub proof fn lemma_remove_keeps_distinct<A>(s: Seq<A>, i: int)
    requires
        s.no_duplicates(),
        0 <= i < s.len(),
    ensures
        s.remove(i).no_duplicates(),
{
    let d = s.remove(i);
    assert forall|a: int, b: int| 0 <= a < d.len() && 0 <= b < d.len() && a != b implies d[a] != d[b] by {
        let a2 = if a < i { a } else { a + 1 };
        let b2 = if b < i { b } else { b + 1 };
        assert(d[a] == s[a2]);
        assert(d[b] == s[b2]);
    }
}

/// Adding a new element to a sequence without duplicates leaves none.
pub proof fn lemma_push_keeps_distinct<A>(s: Seq<A>, x: A)
    requires
        s.no_duplicates(),
        !s.contains(x),
    ensures
        s.push(x).no_duplicates(),
{
    let p = s.push(x);
    assert forall|a: int, b: int| 0 <= a < p.len() && 0 <= b < p.len() && a != b implies p[a] != p[b] by {
        if a < s.len() && b < s.len() {
        } else if a == s.len() {
            assert(s.contains(s[b]));
        } else {
            assert(s.contains(s[a]));
        }
    }
}

/// In a sequence without duplicates, an element stands at one place only.
pub proof fn lemma_index_of_unique<A>(s: Seq<A>, i: int)
    requires
        s.no_duplicates(),
        0 <= i < s.len(),
    ensures
        s.index_of(s[i]) == i,
{
    assert(s.contains(s[i]));
    let k = s.index_of(s[i]);
    assert(s[k] == s[i]);
}

impl<T: Mailbox> Roster<T> {
    #[verifier::type_invariant]
    spec fn distinct(self) -> bool {
        self.addrs().no_duplicates()
    }

    /// The addresses, in order.
    pub closed spec fn addrs(&self) -> Seq<Seq<char>> {
        self.entries@.map_values(|e: (String, T)| e.0@)
    }

    /// What is kept for each peer, in the same order.
    pub closed spec fn items(&self) -> Seq<T> {
        self.entries@.map_values(|e: (String, T)| e.1)
    }

    /// The channel numbers of the peers, in the same order.
    pub open spec fn mailboxes(&self) -> Seq<nat> {
        Seq::new(self.items().len(), |i: int| self.items()[i].mailbox())
    }

    /// No peers.
    pub fn new() -> (r: Self)
        ensures
            r.addrs() == Seq::<Seq<char>>::empty(),
            r.items() == Seq::<T>::empty(),
    {
        let r = Roster { entries: Vec::new() };
        assert(r.addrs() =~= Seq::<Seq<char>>::empty());
        assert(r.items() =~= Seq::<T>::empty());
        r
    }

    /// No address occurs twice.
    pub fn distinct_addrs(&self)
        ensures
            self.addrs().no_duplicates(),
            self.addrs().len() == self.items().len(),
    {
        proof {
            use_type_invariant(self);
        }
    }

    /// The number of peers.
    pub fn len(&self) -> (n: usize)
        ensures
            n == self.addrs().len(),
            n == self.items().len(),
    {
        self.entries.len()
    }

    /// Where `addr` stands, if it is there.
    pub fn position(&self, addr: &String) -> (r: Option<usize>)
        ensures
            match r {
                Some(i) => i < self.addrs().len() && self.addrs()[i as int] == addr@ && i
                    == self.addrs().index_of(addr@),
                None => !self.addrs().contains(addr@),
            },
    {
        proof {
            use_type_invariant(self);
        }
        let mut i: usize = 0;
        while i < self.entries.len()
            invariant
                i <= self.entries.len(),
                self.addrs().len() == self.entries@.len(),
                self.addrs().no_duplicates(),
                forall|j: int| 0 <= j < i ==> self.addrs()[j] != addr@,
            decreases self.entries.len() - i,
        {
            assert(self.addrs()[i as int] == self.entries@[i as int].0@);
            if self.entries[i].0.eq(addr) {
                proof {
                    lemma_index_of_unique(self.addrs(), i as int);
                }
                return Some(i);
            }
            i += 1;
        }
        None
    }

    /// Adds a peer at a new address, at the end.
    pub fn add(&mut self, addr: String, item: T)
        requires
            !old(self).addrs().contains(addr@),
        ensures
            final(self).addrs() == old(self).addrs().push(addr@),
            final(self).items() == old(self).items().push(item),
            final(self).mailboxes() == old(self).mailboxes().push(item.mailbox()),
    {
        proof {
            use_type_invariant(&*self);
        }
        let ghost before = self.addrs();
        let ghost before_items = self.items();
        let ghost a = addr@;
        let mut entries = Vec::new();
        std::mem::swap(&mut entries, &mut self.entries);
        entries.push((addr, item));
        proof {
            assert(entries@.map_values(|e: (String, T)| e.0@) =~= before.push(a));
            assert(entries@.map_values(|e: (String, T)| e.1) =~= before_items.push(item));
            lemma_push_keeps_distinct(before, a);
        }
        self.entries = entries;
        assert(self.mailboxes() =~= old(self).mailboxes().push(item.mailbox()));
    }

    /// Puts `item` in place of what is kept for the peer at position `i`.
    pub fn replace(&mut self, i: usize, item: T)
        requires
            i < old(self).addrs().len(),
        ensures
            final(self).addrs() == old(self).addrs(),
            final(self).items() == old(self).items().update(i as int, item),
            final(self).mailboxes() == old(self).mailboxes().update(i as int, item.mailbox()),
    {
        proof {
            use_type_invariant(&*self);
        }
        let ghost before = self.addrs();
        let ghost before_items = self.items();
        let mut entries = Vec::new();
        std::mem::swap(&mut entries, &mut self.entries);
        let name = entries[i].0.clone();
        entries.set(i, (name, item));
        proof {
            assert(entries@.map_values(|e: (String, T)| e.0@) =~= before);
            assert(entries@.map_values(|e: (String, T)| e.1) =~= before_items.update(i as int, item));
        }
        self.entries = entries;
        assert(self.mailboxes() =~= old(self).mailboxes().update(i as int, item.mailbox()));
    }

    /// Takes out the peer at position `i`.
    pub fn remove(&mut self, i: usize)
        requires
            i < old(self).addrs().len(),
        ensures
            final(self).addrs() == old(self).addrs().remove(i as int),
            final(self).items() == old(self).items().remove(i as int),
            final(self).mailboxes() == old(self).mailboxes().remove(i as int),
    {
        proof {
            use_type_invariant(&*self);
        }
        let ghost before = self.addrs();
        let ghost before_items = self.items();
        let mut entries = Vec::new();
        std::mem::swap(&mut entries, &mut self.entries);
        let _gone = entries.remove(i);
        proof {
            assert(entries@.map_values(|e: (String, T)| e.0@) =~= before.remove(i as int));
            assert(entries@.map_values(|e: (String, T)| e.1) =~= before_items.remove(i as int));
            lemma_remove_keeps_distinct(before, i as int);
        }
        self.entries = entries;
        assert(self.mailboxes() =~= old(self).mailboxes().remove(i as int));
    }

    /// Hands `message` to the channel of every peer, in order, through
    /// `outbox`, and reports what became of each hand-over.
    pub fn broadcast(&self, outbox: &mut Outbox, message: &String) -> (report: Vec<Delivery>)
        ensures
            one_each(report@, self.addrs(), message@),
            final(outbox).sent() == old(outbox).sent() + handovers(report@, self.mailboxes()),
            final(outbox).opened() == old(outbox).opened(),
    {
        let mut report: Vec<Delivery> = Vec::new();
        let mut i: usize = 0;
        while i < self.entries.len()
            invariant
                i <= self.entries.len(),
                self.addrs().len() == self.entries@.len(),
                self.items().len() == self.entries@.len(),
                report@.len() == i,
                forall|j: int|
                    0 <= j < i ==> (#[trigger] report@[j]).to@ == self.addrs()[j] && report@[j].message@
                        == message@,
                outbox.sent() == old(outbox).sent() + handovers(report@, self.mailboxes()),
                outbox.opened() == old(outbox).opened(),
            decreases self.entries.len() - i,
        {
            let entry = &self.entries[i];
            let tx = entry.1.sender();
            assert(self.items()[i as int] == entry.1);
            let ghost sent_before = outbox.sent();
            let ghost report_before = report@;
            let d = outbox.deliver(&entry.0, tx, message);
            report.push(d);
            proof {
                assert(report@ == report_before.push(d));
                assert(self.mailboxes()[i as int] == tx.channel());
                assert(outbox.sent() =~= old(outbox).sent() + handovers(report@, self.mailboxes()));
            }
            i += 1;
        }
        report
    }
}

} // verus!
