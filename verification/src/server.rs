//! Session bookkeeping for the dispatcher: classifying inbound messages,
//! the pending-request table that correlates replies with sent commands,
//! fresh id generation, and the fan-out queue that hands pushed event batches
//! to every subscriber in order.
//!
//! The socket, the channels and the task scheduling live outside; these are
//! the decisions they drive.
use crate::message::{copy_bytes, Message, MessageView};
use vstd::prelude::*;

verus! {

broadcast use crate::message::lemma_bytes_deep_view;

/// Errors of the session layer.
#[derive(Clone, Copy, PartialEq, Eq, Structural, Debug)]
pub enum ServerError {
    /// The connection ended while a reply was outstanding.
    ConnectionClosed,
    /// The command could not be written.
    WriteFailed,
    /// A response-expecting command carried an id that is already in flight.
    DuplicateId,
}

/// The reserved ping-reply id, `_pong`.
pub open spec fn pong_id() -> Seq<u8> {
    seq!['_' as u8, 'p' as u8, 'o' as u8, 'n' as u8, 'g' as u8]
}

/// A pushed sync event: the id starts with `_` and is not exactly `_pong`.
/// An empty id (a normalized null id) routes as a response.
pub open spec fn is_sync_id(id: Seq<u8>) -> bool {
    id.len() > 0 && id[0] == '_' as u8 && id != pong_id()
}

/// Whether two byte strings hold the same bytes.
pub fn bytes_equal(a: &Vec<u8>, b: &Vec<u8>) -> (r: bool)
    ensures
        r == (a@ == b@),
{
    if a.len() != b.len() {
        return false;
    }
    let mut i: usize = 0;
    while i < a.len()
        invariant
            a@.len() == b@.len(),
            i <= a@.len(),
            forall|k: int| 0 <= k < i ==> a@[k] == b@[k],
        decreases a@.len() - i,
    {
        if a[i] != b[i] {
            return false;
        }
        i = i + 1;
    }
    proof {
        assert(a@ =~= b@);
    }
    true
}

/// Classifies an inbound message id: `true` for a pushed sync event, `false`
/// for a response.
pub fn is_sync_message(id: &Vec<u8>) -> (r: bool)
    ensures
        r == is_sync_id(id@),
{
    if id.len() == 0 {
        return false;
    }
    if id[0] != '_' as u8 {
        return false;
    }
    if id.len() == 5 && id[1] == 'p' as u8 && id[2] == 'o' as u8 && id[3] == 'n' as u8 && id[4]
        == 'g' as u8 {
        proof {
            assert(id@ =~= pong_id());
        }
        return false;
    }
    proof {
        assert(id@ != pong_id());
    }
    true
}

/// An ASCII letter or digit.
pub open spec fn is_alnum(b: u8) -> bool {
    ||| '0' as u8 <= b <= '9' as u8
    ||| 'a' as u8 <= b <= 'z' as u8
    ||| 'A' as u8 <= b <= 'Z' as u8
}

/// Relies on rand: `rand::rng` is the thread's generator, and sampling the
/// `Alphanumeric` distribution yields one ASCII letter or digit per draw.
/// Nothing is assumed about which ones.
#[verifier::external_body]
fn random_alphanumeric(len: usize) -> (r: Vec<u8>)
    ensures
        r@.len() == len,
        forall|i: int| 0 <= i < r@.len() ==> is_alnum(#[trigger] r@[i]),
{
    let mut rng = rand::rng();
    let mut out: Vec<u8> = Vec::with_capacity(len);
    for _ in 0..len {
        out.push(rand::distr::Distribution::sample(&rand::distr::Alphanumeric, &mut rng));
    }
    out
}

/// The pending-request table: the ids of in-flight commands and the replies
/// that have arrived and wait to be collected.
pub struct PendingList {
    ids: Vec<Vec<u8>>,
    messages: Vec<(Vec<u8>, Message)>,
}

impl PendingList {
    /// The in-flight ids, in registration order.
    pub closed spec fn pending(&self) -> Seq<Seq<u8>> {
        self.ids.deep_view()
    }

    /// The stored replies, in arrival order.
    pub closed spec fn responses(&self) -> Seq<(Seq<u8>, MessageView)> {
        self.messages.deep_view()
    }

    /// No id is in flight twice.
    pub closed spec fn inv(&self) -> bool {
        forall|i: int, j: int|
            0 <= i < j < self.pending().len() ==> self.pending()[i] != self.pending()[j]
    }

    /// An empty table.
    pub fn new() -> (r: PendingList)
        ensures
            r.inv(),
            r.pending() == Seq::<Seq<u8>>::empty(),
            r.responses() == Seq::<(Seq<u8>, MessageView)>::empty(),
    {
        let r = PendingList { ids: Vec::new(), messages: Vec::new() };
        proof {
            assert(r.pending() =~= Seq::<Seq<u8>>::empty());
            assert(r.responses() =~= Seq::<(Seq<u8>, MessageView)>::empty());
        }
        r
    }

    /// Whether `id` is in flight.
    pub fn is_pending(&self, id: &Vec<u8>) -> (r: bool)
        ensures
            r == self.pending().contains(id@),
    {
        let mut i: usize = 0;
        while i < self.ids.len()
            invariant
                i <= self.ids@.len(),
                forall|k: int| 0 <= k < i ==> self.pending()[k] != id@,
            decreases self.ids@.len() - i,
        {
            if bytes_equal(&self.ids[i], id) {
                proof {
                    assert(self.pending()[i as int] == id@);
                }
                return true;
            }
            i = i + 1;
        }
        proof {
            if self.pending().contains(id@) {
                let k = choose|k: int| 0 <= k < self.pending().len() && self.pending()[k] == id@;
                assert(self.pending()[k] != id@);
            }
        }
        false
    }

    /// Marks `id` as in flight; refuses an id that already is, so that two
    /// unresolved commands never share an id.
    pub fn register(&mut self, id: &Vec<u8>) -> (r: bool)
        requires
            old(self).inv(),
        ensures
            final(self).inv(),
            final(self).responses() == old(self).responses(),
            old(self).pending().contains(id@) ==> (r == false && final(self).pending() == old(
                self,
            ).pending()),
            !old(self).pending().contains(id@) ==> (r == true && final(self).pending() == old(
                self,
            ).pending().push(id@)),
    {
        if self.is_pending(id) {
            return false;
        }
        self.ids.push(copy_bytes(id));
        proof {
            assert(self.pending() =~= old(self).pending().push(id@));
            assert forall|i: int, j: int|
                0 <= i < j < self.pending().len() implies self.pending()[i]
                != self.pending()[j] by {
                if j == self.pending().len() - 1 {
                    assert(old(self).pending().contains(self.pending()[i]) == false || old(
                        self,
                    ).pending()[i] != id@);
                    assert(self.pending()[i] == old(self).pending()[i]);
                    if self.pending()[i] == id@ {
                        assert(old(self).pending().contains(id@));
                    }
                }
            }
        }
        true
    }

    /// Chooses a fresh id for a command the caller left unnamed: ten random
    /// letters or digits, and never an id already in flight. A collision
    /// falls back to an id longer than every pending one.
    pub fn generate_id(&self) -> (r: Vec<u8>)
        requires
            self.inv(),
        ensures
            !self.pending().contains(r@),
            r@.len() >= 10,
            forall|i: int| 0 <= i < r@.len() ==> is_alnum(#[trigger] r@[i]),
    {
        let candidate = random_alphanumeric(10);
        if !self.is_pending(&candidate) {
            return candidate;
        }
        let mut longest: usize = 10;
        let mut i: usize = 0;
        while i < self.ids.len()
            invariant
                i <= self.ids@.len(),
                longest >= 10,
                forall|k: int| 0 <= k < i ==> self.pending()[k].len() <= longest,
            decreases self.ids@.len() - i,
        {
            if self.ids[i].len() > longest {
                longest = self.ids[i].len();
            }
            i = i + 1;
        }
        let mut fallback: Vec<u8> = Vec::new();
        let mut j: usize = 0;
        while j < longest
            invariant
                j <= longest,
                fallback@.len() == j,
                forall|k: int| 0 <= k < j ==> fallback@[k] == 'z' as u8,
            decreases longest - j,
        {
            fallback.push('z' as u8);
            j = j + 1;
        }
        fallback.push('z' as u8);
        proof {
            if self.pending().contains(fallback@) {
                let k = choose|k: int|
                    0 <= k < self.pending().len() && self.pending()[k] == fallback@;
                assert(self.pending()[k].len() <= longest);
            }
        }
        fallback
    }

    /// Decides the id of an outgoing command and registers it when a reply is
    /// expected: a caller-set id is kept (and refused while it is still in
    /// flight); an unnamed command gets a fresh generated id.
    pub fn register_send(&mut self, caller_id: Option<&Vec<u8>>, has_response: bool) -> (r: Result<
        Vec<u8>,
        ServerError,
    >)
        requires
            old(self).inv(),
        ensures
            final(self).inv(),
            final(self).responses() == old(self).responses(),
            match r {
                Ok(id) => {
                    &&& (caller_id matches Some(x) ==> id@ == x@)
                    &&& (has_response ==> !old(self).pending().contains(id@) && final(self).pending()
                        == old(self).pending().push(id@))
                    &&& (!has_response ==> final(self).pending() == old(self).pending())
                },
                Err(e) => {
                    &&& e == ServerError::DuplicateId
                    &&& has_response
                    &&& caller_id matches Some(x) && old(self).pending().contains(x@)
                    &&& final(self).pending() == old(self).pending()
                },
            },
    {
        let id: Vec<u8> = match caller_id {
            Some(x) => {
                if has_response && self.is_pending(x) {
                    return Err(ServerError::DuplicateId);
                }
                copy_bytes(x)
            },
            None => self.generate_id(),
        };
        if has_response {
            let fresh = self.register(&id);
            proof {
                assert(fresh);
            }
        }
        Ok(id)
    }

    /// Files an inbound response. An expected reply leaves the pending set
    /// and waits in the reply store; an unexpected one is discarded, and the
    /// table is unchanged.
    pub fn deliver(&mut self, msg: Message) -> (r: bool)
        requires
            old(self).inv(),
        ensures
            final(self).inv(),
            old(self).pending().contains(msg.id@) ==> {
                &&& r == true
                &&& !final(self).pending().contains(msg.id@)
                &&& exists|k: int|
                    0 <= k < old(self).pending().len() && old(self).pending()[k] == msg.id@
                        && final(self).pending() == old(self).pending().remove(k)
                &&& final(self).responses() == old(self).responses().push((msg.id@, msg@))
            },
            !old(self).pending().contains(msg.id@) ==> {
                &&& r == false
                &&& final(self).pending() == old(self).pending()
                &&& final(self).responses() == old(self).responses()
            },
    {
        let mut i: usize = 0;
        while i < self.ids.len()
            invariant
                old(self) == self,
                old(self).inv(),
                i <= self.ids@.len(),
                forall|k: int| 0 <= k < i ==> self.pending()[k] != msg.id@,
            decreases self.ids@.len() - i,
        {
            if bytes_equal(&self.ids[i], &msg.id) {
                proof {
                    assert(self.pending()[i as int] == msg.id@);
                    assert(self.pending().contains(msg.id@));
                }
                self.ids.remove(i);
                proof {
                    old(self).pending().remove_ensures(i as int);
                    assert(self.pending() =~= old(self).pending().remove(i as int));
                    assert forall|a: int, b: int|
                        0 <= a < b < self.pending().len() implies self.pending()[a]
                        != self.pending()[b] by {
                        let p0 = old(self).pending();
                        let a0: int = if a < i { a } else { a + 1 };
                        let b0: int = if b < i { b } else { b + 1 };
                        assert(self.pending()[a] == p0.remove(i as int)[a]);
                        assert(self.pending()[b] == p0.remove(i as int)[b]);
                        assert(self.pending()[a] == p0[a0]);
                        assert(self.pending()[b] == p0[b0]);
                    }
                    assert forall|k: int|
                        0 <= k < self.pending().len() implies self.pending()[k] != msg.id@ by {
                        let p0 = old(self).pending();
                        let k0: int = if k < i { k } else { k + 1 };
                        assert(self.pending()[k] == p0.remove(i as int)[k]);
                        assert(self.pending()[k] == p0[k0]);
                        if p0[k0] == msg.id@ {
                            assert(p0[k0] == p0[i as int]);
                        }
                    }
                    if self.pending().contains(msg.id@) {
                        let k = choose|k: int|
                            0 <= k < self.pending().len() && self.pending()[k] == msg.id@;
                        assert(self.pending()[k] != msg.id@);
                    }
                }
                let ghost old_responses = self.responses();
                let id_copy = copy_bytes(&msg.id);
                let ghost mid = msg.id@;
                let ghost mview = msg@;
                self.messages.push((id_copy, msg));
                proof {
                    assert(self.responses() =~= old_responses.push((mid, mview)));
                }
                return true;
            }
            i = i + 1;
        }
        proof {
            if self.pending().contains(msg.id@) {
                let k = choose|k: int| 0 <= k < self.pending().len() && self.pending()[k] == msg.id@;
                assert(self.pending()[k] != msg.id@);
            }
        }
        false
    }

    /// Collects the stored reply for `id`, if one has arrived: the earliest
    /// such reply leaves the store.
    pub fn take_message(&mut self, id: &Vec<u8>) -> (r: Option<Message>)
        requires
            old(self).inv(),
        ensures
            final(self).inv(),
            final(self).pending() == old(self).pending(),
            match r {
                Some(m) => exists|k: int|
                    {
                        &&& 0 <= k < old(self).responses().len()
                        &&& old(self).responses()[k].0 == id@
                        &&& old(self).responses()[k].1 == m@
                        &&& final(self).responses() == old(self).responses().remove(k)
                        &&& forall|j: int| 0 <= j < k ==> old(self).responses()[j].0 != id@
                    },
                None => {
                    &&& final(self).responses() == old(self).responses()
                    &&& forall|j: int|
                        0 <= j < final(self).responses().len()
                            ==> (#[trigger] final(self).responses()[j]).0 != id@
                },
            },
    {
        let mut i: usize = 0;
        while i < self.messages.len()
            invariant
                old(self) == self,
                old(self).inv(),
                i <= self.messages@.len(),
                forall|k: int| 0 <= k < i ==> (#[trigger] self.responses()[k]).0 != id@,
            decreases self.messages@.len() - i,
        {
            if bytes_equal(&self.messages[i].0, id) {
                proof {
                    assert(self.responses()[i as int].0 == id@);
                }
                let (_, m) = self.messages.remove(i);
                proof {
                    assert(self.responses() =~= old(self).responses().remove(i as int));
                    assert(self.pending() =~= old(self).pending());
                    assert forall|a: int, b: int|
                        0 <= a < b < self.pending().len() implies self.pending()[a]
                        != self.pending()[b] by {
                        assert(self.pending()[a] == old(self).pending()[a]);
                        assert(self.pending()[b] == old(self).pending()[b]);
                    }
                }
                return Some(m);
            }
            i = i + 1;
        }
        None
    }
}

/// The pending set never holds two equal ids at once.
pub proof fn lemma_pending_unique(p: &PendingList)
    requires
        p.inv(),
    ensures
        forall|i: int, j: int|
            0 <= i < j < p.pending().len() ==> p.pending()[i] != p.pending()[j],
{
}

/// The fan-out queue for pushed events: every published batch reaches every
/// subscriber, in publication order; subscribers advance independently.
pub struct Fanout<T> {
    batches: Vec<T>,
    cursors: Vec<usize>,
}

impl<T> Fanout<T> {
    /// The batches published so far, in order.
    pub closed spec fn published(&self) -> Seq<T> {
        self.batches@
    }

    /// How far each subscriber has read.
    pub closed spec fn positions(&self) -> Seq<usize> {
        self.cursors@
    }

    /// Every cursor stays within the published batches.
    pub closed spec fn inv(&self) -> bool {
        forall|i: int|
            0 <= i < self.positions().len() ==> (#[trigger] self.positions()[i]) as int
                <= self.published().len()
    }

    /// An empty queue with no subscribers.
    pub fn new() -> (r: Fanout<T>)
        ensures
            r.inv(),
            r.published() == Seq::<T>::empty(),
            r.positions() == Seq::<usize>::empty(),
    {
        let r = Fanout { batches: Vec::new(), cursors: Vec::new() };
        proof {
            assert(r.published() =~= Seq::<T>::empty());
            assert(r.positions() =~= Seq::<usize>::empty());
        }
        r
    }

    /// Adds a subscriber, who will see every batch published from now on.
    pub fn subscribe(&mut self) -> (r: usize)
        requires
            old(self).inv(),
        ensures
            final(self).inv(),
            final(self).published() == old(self).published(),
            final(self).positions() == old(self).positions().push(final(self).published().len() as usize),
            r == old(self).positions().len(),
    {
        let pos = self.batches.len();
        let r = self.cursors.len();
        self.cursors.push(pos);
        proof {
            assert(self.positions() =~= old(self).positions().push(pos));
        }
        r
    }

    /// Publishes one batch to every subscriber.
    pub fn publish(&mut self, batch: T)
        requires
            old(self).inv(),
        ensures
            final(self).inv(),
            final(self).published() == old(self).published().push(batch),
            final(self).positions() == old(self).positions(),
    {
        self.batches.push(batch);
        proof {
            assert(self.published() =~= old(self).published().push(batch));
            assert forall|i: int|
                0 <= i < self.positions().len() implies (#[trigger] self.positions()[i]) as int
                <= self.published().len() by {
                assert(self.positions()[i] == old(self).positions()[i]);
            }
        }
    }

    /// The next unread batch of subscriber `i`, if any; the cursor stays.
    pub fn peek(&self, i: usize) -> (r: Option<&T>)
        requires
            self.inv(),
            i < self.positions().len(),
        ensures
            match r {
                Some(b) => (self.positions()[i as int] as int) < self.published().len() && *b
                    == self.published()[self.positions()[i as int] as int],
                None => self.positions()[i as int] as int == self.published().len(),
            },
    {
        let c = self.cursors[i];
        if c < self.batches.len() {
            Some(&self.batches[c])
        } else {
            None
        }
    }

    /// Moves subscriber `i` past its current batch.
    pub fn advance(&mut self, i: usize)
        requires
            old(self).inv(),
            i < old(self).positions().len(),
            (old(self).positions()[i as int] as int) < old(self).published().len(),
        ensures
            final(self).inv(),
            final(self).published() == old(self).published(),
            final(self).positions() == old(self).positions().update(
                i as int,
                (old(self).positions()[i as int] + 1) as usize,
            ),
    {
        let c = self.cursors[i];
        if c < self.batches.len() {
            self.cursors[i] = c + 1;
        }
        proof {
            assert(self.positions() =~= old(self).positions().update(i as int, (c + 1) as usize));
        }
    }
}

/// Fan-out is shared and ordered: two subscribers standing at the same
/// position read the very same batch, whatever they read before.
pub proof fn lemma_fanout_agree<T>(f: &Fanout<T>, i: int, j: int)
    requires
        f.inv(),
        0 <= i < f.positions().len(),
        0 <= j < f.positions().len(),
        f.positions()[i] == f.positions()[j],
        (f.positions()[i] as int) < f.published().len(),
    ensures
        f.published()[f.positions()[i] as int] == f.published()[f.positions()[j] as int],
{
}

} // verus!
