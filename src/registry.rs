//! The subscription registry: one delivery channel per client data-plane
//! address, and the per-generation fan-out of snapshots to all of them.
use vstd::prelude::*;
use std::sync::Arc;
use crossbeam_channel::Sender;
use crate::quote::StockQuote;
use crate::request::string_views;

verus! {

#[verifier::external_type_specification]
#[verifier::external_body]
#[verifier::reject_recursive_types(T)]
pub struct ExSender<T>(crossbeam_channel::Sender<T>);

/// One generation's quotes, shared read-only by all subscriptions.
pub type Snapshot = Arc<Vec<StockQuote>>;

/// Addresses of a sequence of entries are pairwise distinct.
pub open spec fn unique_keys<S>(s: Seq<(Seq<char>, S)>) -> bool {
    forall|i: int, j: int| 0 <= i < j < s.len() ==> #[trigger] s[i].0 != #[trigger] s[j].0
}

/// `address` is the key of some entry.
pub open spec fn has_key<S>(s: Seq<(Seq<char>, S)>, address: Seq<char>) -> bool {
    exists|i: int| 0 <= i < s.len() && #[trigger] s[i].0 == address
}

/// Where `address` stands, when it is a key.
pub open spec fn key_index<S>(s: Seq<(Seq<char>, S)>, address: Seq<char>) -> int {
    choose|i: int| 0 <= i < s.len() && #[trigger] s[i].0 == address
}

/// Registered subscriptions: an address and the producer side of its
/// channel, in order of first registration.
pub struct Registry<S> {
    entries: Vec<(String, S)>,
}

impl<S> View for Registry<S> {
    type V = Seq<(Seq<char>, S)>;

    closed spec fn view(&self) -> Seq<(Seq<char>, S)> {
        self.entries@.map_values(|e: (String, S)| (e.0@, e.1))
    }
}

impl<S> Registry<S> {
    /// Addresses are unique.
    pub open spec fn wf(&self) -> bool {
        unique_keys(self@)
    }

    /// An empty registry.
    pub fn new() -> (r: Registry<S>)
        ensures
            r.wf(),
            r@ == Seq::<(Seq<char>, S)>::empty(),
    {
        let r = Registry { entries: Vec::new() };
        assert(r@ =~= Seq::<(Seq<char>, S)>::empty());
        r
    }

    /// The number of subscriptions.
    pub fn len(&self) -> (n: usize)
        ensures
            n == self@.len(),
    {
        self.entries.len()
    }

    /// Where `address` is registered.
    pub fn find(&self, address: &String) -> (r: Option<usize>)
        ensures
            r matches Some(i) ==> i < self@.len() && self@[i as int].0 == address@,
            r is None ==> !has_key(self@, address@),
    {
        let mut i: usize = 0;
        while i < self.entries.len()
            invariant
                0 <= i <= self@.len(),
                self@.len() == self.entries@.len(),
                forall|j: int| 0 <= j < i ==> #[trigger] self@[j].0 != address@,
            decreases self@.len() - i,
        {
            assert(self@[i as int].0 == self.entries@[i as int].0@);
            if self.entries[i].0.eq(address) {
                return Some(i);
            }
            i = i + 1;
        }
        None
    }

    /// The registered addresses, in order.
    pub fn addresses(&self) -> (r: Vec<String>)
        ensures
            string_views(r@) == self@.map_values(|e: (Seq<char>, S)| e.0),
    {
        let mut r: Vec<String> = Vec::new();
        let mut i: usize = 0;
        while i < self.entries.len()
            invariant
                0 <= i <= self@.len(),
                self@.len() == self.entries@.len(),
                string_views(r@) =~= self@.map_values(|e: (Seq<char>, S)| e.0).subrange(
                    0,
                    i as int,
                ),
            decreases self@.len() - i,
        {
            let ghost before = r@;
            r.push(self.entries[i].0.clone());
            assert(string_views(r@) =~= string_views(before).push(self@[i as int].0));
            i = i + 1;
        }
        assert(self@.map_values(|e: (Seq<char>, S)| e.0).subrange(0, i as int) =~= self@.map_values(
            |e: (Seq<char>, S)| e.0,
        ));
        r
    }

    /// Registers `sender` for `address`. A registered address keeps its place
    /// and gets the new sender; the old one is handed back. A new address goes last.
    pub fn create(&mut self, address: String, sender: S) -> (replaced: Option<S>)
        requires
            old(self).wf(),
        ensures
            final(self).wf(),
            has_key(old(self)@, address@) ==> {
                let i = key_index(old(self)@, address@);
                &&& final(self)@ == old(self)@.update(i, (address@, sender))
                &&& replaced == Some(old(self)@[i].1)
            },
            !has_key(old(self)@, address@) ==> {
                &&& final(self)@ == old(self)@.push((address@, sender))
                &&& replaced is None
            },
    {
        let ghost a = address@;
        let ghost before = self@;
        match self.find(&address) {
            Some(i) => {
                let ghost k = key_index(before, a);
                assert(k == i as int) by {
                    if k != i as int {
                        if k < i as int {
                            assert(before[k].0 != before[i as int].0);
                        } else {
                            assert(before[i as int].0 != before[k].0);
                        }
                    }
                }
                let old_entry = self.entries.remove(i);
                self.entries.insert(i, (address, sender));
                assert(self@ =~= before.update(i as int, (a, sender)));
                assert forall|x: int, y: int| 0 <= x < y < self@.len() implies #[trigger] self@[x].0
                    != #[trigger] self@[y].0 by {
                    assert(before[x].0 != before[y].0);
                }
                Some(old_entry.1)
            },
            None => {
                self.entries.push((address, sender));
                assert(self@ =~= before.push((a, sender)));
                assert forall|x: int, y: int| 0 <= x < y < self@.len() implies #[trigger] self@[x].0
                    != #[trigger] self@[y].0 by {
                    if y == before.len() {
                        assert(before[x].0 == self@[x].0);
                    } else {
                        assert(before[x].0 != before[y].0);
                    }
                }
                None
            },
        }
    }

    /// Removes the subscription of `address`, handing back its sender; the
    /// others keep their order.
    pub fn remove(&mut self, address: &String) -> (removed: Option<S>)
        requires
            old(self).wf(),
        ensures
            final(self).wf(),
            has_key(old(self)@, address@) ==> {
                let i = key_index(old(self)@, address@);
                &&& final(self)@ == old(self)@.remove(i)
                &&& removed == Some(old(self)@[i].1)
            },
            !has_key(old(self)@, address@) ==> {
                &&& final(self)@ == old(self)@
                &&& removed is None
            },
    {
        let ghost a = address@;
        let ghost before = self@;
        match self.find(address) {
            Some(i) => {
                let ghost k = key_index(before, a);
                assert(k == i as int) by {
                    if k != i as int {
                        if k < i as int {
                            assert(before[k].0 != before[i as int].0);
                        } else {
                            assert(before[i as int].0 != before[k].0);
                        }
                    }
                }
                let old_entry = self.entries.remove(i);
                assert(self@ =~= before.remove(i as int));
                assert forall|x: int, y: int| 0 <= x < y < self@.len() implies #[trigger] self@[x].0
                    != #[trigger] self@[y].0 by {
                    if x < i {
                        if y < i {
                            assert(before[x].0 != before[y].0);
                        } else {
                            assert(before[x].0 != before[y + 1].0);
                        }
                    } else {
                        assert(before[x + 1].0 != before[y + 1].0);
                    }
                }
                Some(old_entry.1)
            },
            None => None,
        }
    }
}

/// Relies on `crossbeam_channel::Sender::try_send`: it never blocks, and
/// delivers the snapshot unless the channel is full or disconnected.
/// Which of these happens depends on the consumer, so nothing is promised.
#[verifier::external_body]
fn offer(s: &Sender<Snapshot>, snap: &Snapshot) -> (delivered: bool) {
    s.try_send(Arc::clone(snap)).is_ok()
}

impl Registry<Sender<Snapshot>> {
    /// Offers the snapshot to every subscription once, in order, without
    /// blocking; a full channel loses this one delivery and no other. Tells,
    /// per subscription in order, whether the delivery was taken.
    pub fn publish(&self, snap: &Snapshot) -> (delivered: Vec<bool>)
        ensures
            delivered@.len() == self@.len(),
    {
        let mut delivered: Vec<bool> = Vec::new();
        let mut i: usize = 0;
        while i < self.entries.len()
            invariant
                0 <= i <= self@.len(),
                self@.len() == self.entries@.len(),
                delivered@.len() == i,
            decreases self@.len() - i,
        {
            let ok = offer(&self.entries[i].1, snap);
            delivered.push(ok);
            i = i + 1;
        }
        delivered
    }
}

} // verus!
