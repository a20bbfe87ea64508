//! The shared connection registry: the ordered collection of live peer
//! connections, keyed by peer address.
//!
//! A connection is inserted once its handshake completes and removed on read
//! failure or an explicit disconnect. The registry's invariant is that at
//! most one live connection exists per peer address; insertion itself does
//! not check, callers test `contains` first. The caller wraps the registry
//! in its own lock; every operation here is a plain sequential step.

use crate::connection::{Connection, ReaderEvent, ReaderInput};
use crate::connection::spec_expected_len;
use crate::lines;
use crate::crypto::{CryptoError, MAX_BLOCKS};
use crate::connection::spec_sealed_frame;
use vstd::prelude::*;

verus! {

/// The ordered collection of live peer connections.
pub struct Registry {
    pub(crate) connections: Vec<Connection>,
}

impl Registry {
    /// The registered connections, in insertion order.
    pub open(crate) spec fn conns(self) -> Seq<Connection> {
        self.connections@
    }

    /// Whether some registered connection has this peer address.
    pub open spec fn contains_addr(self, addr: Seq<u8>) -> bool {
        exists|i: int|
            0 <= i < self.conns().len() && (#[trigger] self.conns()[i]).peer_addr_view() == addr
    }

    /// At most one live connection per distinct peer address.
    pub open spec fn wf(self) -> bool {
        forall|i: int, j: int|
            0 <= i < j < self.conns().len() ==> (#[trigger] self.conns()[i]).peer_addr_view() != (
            #[trigger] self.conns()[j]).peer_addr_view()
    }

    /// An empty registry.
    pub fn new() -> (r: Registry)
        ensures
            r.conns() == Seq::<Connection>::empty(),
            r.wf(),
    {
        Registry { connections: Vec::new() }
    }

    /// How many connections are registered.
    pub fn len(&self) -> (n: usize)
        ensures
            n == self.conns().len(),
    {
        self.connections.len()
    }

    /// Appends a connection. No duplicate-address check happens here; a
    /// caller that checked `addr_position` first keeps the registry's
    /// one-connection-per-address invariant.
    pub fn insert(&mut self, c: Connection)
        ensures
            final (self).conns() == old(self).conns().push(c),
            old(self).wf() && !old(self).contains_addr(c.peer_addr_view()) ==> final (self).wf(),
    {
        self.connections.push(c);
        proof {
            let pre = old(self).conns();
            let post = self.conns();
            if old(self).wf() && !old(self).contains_addr(c.peer_addr_view()) {
                assert forall|i: int, j: int|
                    0 <= i < j < post.len() implies (#[trigger] post[i]).peer_addr_view() != (
                #[trigger] post[j]).peer_addr_view() by {
                    if j < pre.len() {
                        assert(post[i] == pre[i] && post[j] == pre[j]);
                    } else {
                        assert(post[j] == c && post[i] == pre[i]);
                        if pre[i].peer_addr_view() == c.peer_addr_view() {
                            assert(0 <= i < pre.len() && pre[i].peer_addr_view()
                                == c.peer_addr_view());
                        }
                    }
                }
            }
        }
    }

    /// The position of the first connection with this peer address: the
    /// duplicate check before a connect, and the lookup key for point-to-point
    /// sends.
    pub fn addr_position(&self, addr: &Vec<u8>) -> (r: Option<usize>)
        ensures
            match r {
                Some(i) => {
                    &&& i < self.conns().len()
                    &&& self.conns()[i as int].peer_addr_view() == addr@
                    &&& forall|k: int|
                        0 <= k < i ==> (#[trigger] self.conns()[k]).peer_addr_view() != addr@
                },
                None => !self.contains_addr(addr@),
            },
            r is Some <==> self.contains_addr(addr@),
    {
        let mut i: usize = 0;
        let n = self.connections.len();
        while i < n
            invariant
                i <= n,
                n == self.conns().len(),
                forall|k: int| 0 <= k < i ==> (#[trigger] self.conns()[k]).peer_addr_view() != addr@,
            decreases n - i,
        {
            if bytes_eq(&self.connections[i].peer_addr, addr) {
                return Some(i);
            }
            i = i + 1;
        }
        None
    }

    /// A shared borrow of the connection registered at this peer address,
    /// for point-to-point sends.
    pub fn lookup(&self, addr: &Vec<u8>) -> (r: Option<&Connection>)
        ensures
            r is Some <==> self.contains_addr(addr@),
            match r {
                Some(c) => c.peer_addr_view() == addr@ && exists|i: int|
                    {
                        &&& 0 <= i < self.conns().len()
                        &&& #[trigger] self.conns()[i] == *c
                        &&& forall|k: int|
                            0 <= k < i ==> (#[trigger] self.conns()[k]).peer_addr_view() != addr@
                    },
                None => true,
            },
    {
        match self.addr_position(addr) {
            Some(i) => Some(&self.connections[i]),
            None => None,
        }
    }

    /// The peer addresses of all registered connections, in registry order:
    /// the iteration key for broadcasts and peer listings.
    pub fn addrs(&self) -> (r: Vec<Vec<u8>>)
        ensures
            r.deep_view().len() == self.conns().len(),
            forall|i: int|
                0 <= i < self.conns().len() ==> (#[trigger] r.deep_view()[i])
                    == self.conns()[i].peer_addr_view(),
    {
        let mut r: Vec<Vec<u8>> = Vec::new();
        let mut i: usize = 0;
        let n = self.connections.len();
        while i < n
            invariant
                i <= n,
                n == self.conns().len(),
                r.deep_view().len() == i,
                forall|k: int|
                    0 <= k < i ==> (#[trigger] r.deep_view()[k])
                        == self.conns()[k].peer_addr_view(),
            decreases n - i,
        {
            let ghost before = r.deep_view();
            let a = clone_bytes(&self.connections[i].peer_addr);
            r.push(a);
            proof {
                assert(r.deep_view() =~~= before.push(a@));
            }
            i = i + 1;
        }
        r
    }

    /// The duplicate check that precedes a connect attempt: a dial to an
    /// address that is already registered is rejected, with no side effects,
    /// so no address ever gets a second live connection.
    pub fn connect_allowed(&self, addr: &Vec<u8>) -> (r: bool)
        ensures
            r <==> !self.contains_addr(addr@),
    {
        match self.addr_position(addr) {
            Some(_) => false,
            None => true,
        }
    }

    /// Removes the connection registered at this peer address and reports
    /// whether one was found, so callers can surface "no such peer". All
    /// other connections stay, in order, untouched.
    pub fn disconnect(&mut self, addr: &Vec<u8>) -> (found: bool)
        requires
            old(self).wf(),
        ensures
            found == old(self).contains_addr(addr@),
            final (self).wf(),
            !found ==> final (self).conns() == old(self).conns(),
            found ==> exists|i: int|
                0 <= i < old(self).conns().len() && (#[trigger] old(
                    self,
                ).conns()[i]).peer_addr_view() == addr@ && final (self).conns() == old(
                    self,
                ).conns().remove(i),
            !final (self).contains_addr(addr@),
    {
        match self.addr_position(addr) {
            Some(i) => {
                self.connections.remove(i);
                proof {
                    let pre = old(self).conns();
                    let post = self.conns();
                    assert forall|j: int|
                        0 <= j < post.len() implies (#[trigger] post[j]).peer_addr_view()
                        != addr@ by {
                        if j < i {
                            assert(post[j] == pre[j]);
                            assert(pre[j].peer_addr_view() != pre[i as int].peer_addr_view());
                        } else {
                            assert(post[j] == pre[j + 1]);
                            assert(pre[j + 1].peer_addr_view() != pre[
                                i as int].peer_addr_view());
                        }
                    }
                    assert forall|a: int, b: int|
                        0 <= a < b < post.len() implies (#[trigger] post[a]).peer_addr_view() != (
                    #[trigger] post[b]).peer_addr_view() by {
                        let pa: int = if a < i { a } else { a + 1 };
                        let pb: int = if b < i { b } else { b + 1 };
                        assert(post[a] == pre[pa]);
                        assert(post[b] == pre[pb]);
                        assert(pre[pa].peer_addr_view() != pre[pb].peer_addr_view());
                    }
                }
                true
            },
            None => false,
        }
    }

    /// Stores the peer-reported nickname on the connection registered at
    /// this address, leaving every other connection untouched. Reports
    /// whether the address was found.
    pub fn set_peer_nick(&mut self, addr: &Vec<u8>, nick: &Vec<u8>) -> (found: bool)
        ensures
            found == old(self).contains_addr(addr@),
            final (self).conns().len() == old(self).conns().len(),
            old(self).wf() ==> final (self).wf(),
            forall|k: int|
                0 <= k < old(self).conns().len() && (#[trigger] old(
                    self,
                ).conns()[k]).peer_addr_view() != addr@ ==> final (self).conns()[k] == old(
                    self,
                ).conns()[k],
            old(self).wf() ==> forall|k: int|
                0 <= k < old(self).conns().len() && (#[trigger] old(
                    self,
                ).conns()[k]).peer_addr_view() == addr@ ==> {
                    let pre = old(self).conns()[k];
                    let post = final (self).conns()[k];
                    &&& post.nick_view() == Some(nick@)
                    &&& pre.same_identity(post)
                    &&& post.sent() == pre.sent()
                    &&& post.received() == pre.received()
                    &&& post.reader_state() == pre.reader_state()
                    &&& post.wf() == pre.wf()
                },
    {
        match self.addr_position(addr) {
            Some(i) => {
                let mut c = self.connections.remove(i);
                c.peer_nick = Some(clone_bytes(nick));
                proof {
                    assert(old(self).conns().remove(i as int).insert(i as int, c) =~= old(
                        self,
                    ).conns().update(i as int, c));
                }
                self.connections.insert(i, c);
                proof {
                    let pre = old(self).conns();
                    let post = self.conns();
                    assert(post =~= pre.update(i as int, post[i as int]));
                    if old(self).wf() {
                        assert forall|k: int|
                            0 <= k < pre.len() && (#[trigger] pre[k]).peer_addr_view()
                                == addr@ implies k == i by {
                            if k != i {
                                assert(pre[k].peer_addr_view() != pre[i as int].peer_addr_view());
                            }
                        }
                    }
                }
                true
            },
            None => false,
        }
    }

    /// Seals `line` as one frame on the connection registered at this peer
    /// address: the point-to-point send. Every other connection stays
    /// untouched; the result is absent when no such peer is registered, so
    /// callers can surface "no such peer".
    pub fn seal_to(&mut self, addr: &Vec<u8>, line: &[u8]) -> (r: Option<
        Result<Vec<u8>, CryptoError>,
    >)
        requires
            old(self).wf(),
            forall|i: int|
                0 <= i < old(self).conns().len() && (#[trigger] old(
                    self,
                ).conns()[i]).peer_addr_view() == addr@ ==> old(self).conns()[i].sent() < u128::MAX,
        ensures
            final (self).wf(),
            r is Some <==> old(self).contains_addr(addr@),
            r is None ==> final (self).conns() == old(self).conns(),
            r matches Some(sealed) ==> exists|i: int|
                {
                    &&& 0 <= i < old(self).conns().len()
                    &&& (#[trigger] old(self).conns()[i]).peer_addr_view() == addr@
                    &&& final (self).conns() == old(self).conns().update(
                        i,
                        final (self).conns()[i],
                    )
                    &&& Connection::spec_seal_post(
                        old(self).conns()[i],
                        final (self).conns()[i],
                        line@,
                        sealed,
                    )
                },
    {
        match self.addr_position(addr) {
            Some(i) => {
                let mut c = self.connections.remove(i);
                let sealed = c.seal_frame(line);
                proof {
                    assert(old(self).conns().remove(i as int).insert(i as int, c) =~= old(
                        self,
                    ).conns().update(i as int, c));
                }
                self.connections.insert(i, c);
                proof {
                    let pre = old(self).conns();
                    let post = self.conns();
                    assert(post =~= pre.update(i as int, post[i as int]));
                    assert forall|a: int, b: int|
                        0 <= a < b < post.len() implies (#[trigger] post[a]).peer_addr_view() != (
                    #[trigger] post[b]).peer_addr_view() by {
                        assert(post[a].peer_addr_view() == pre[a].peer_addr_view());
                        assert(post[b].peer_addr_view() == pre[b].peer_addr_view());
                    }
                }
                Some(sealed)
            },
            None => None,
        }
    }

    /// Feeds one unit of stream input to the reader of the connection
    /// registered at this peer address. Every other connection stays
    /// untouched; the result is absent when no such peer is registered.
    pub fn read_step_at(&mut self, addr: &Vec<u8>, input: ReaderInput) -> (r: Option<
        Option<ReaderEvent>,
    >)
        requires
            old(self).wf(),
            forall|i: int|
                0 <= i < old(self).conns().len() && (#[trigger] old(
                    self,
                ).conns()[i]).peer_addr_view() == addr@ ==> {
                    &&& old(self).conns()[i].wf()
                    &&& old(self).conns()[i].received() < u128::MAX
                    &&& (input matches ReaderInput::Bytes(d) ==> d@.len() == spec_expected_len(
                        old(self).conns()[i].reader_state(),
                    ))
                },
        ensures
            final (self).wf(),
            r is Some <==> old(self).contains_addr(addr@),
            r is None ==> final (self).conns() == old(self).conns(),
            r matches Some(event) ==> exists|i: int|
                {
                    &&& 0 <= i < old(self).conns().len()
                    &&& (#[trigger] old(self).conns()[i]).peer_addr_view() == addr@
                    &&& final (self).conns() == old(self).conns().update(
                        i,
                        final (self).conns()[i],
                    )
                    &&& Connection::spec_read_step_post(
                        old(self).conns()[i],
                        final (self).conns()[i],
                        input,
                        event,
                    )
                },
    {
        match self.addr_position(addr) {
            Some(i) => {
                let mut c = self.connections.remove(i);
                let event = c.read_step(input);
                proof {
                    assert(old(self).conns().remove(i as int).insert(i as int, c) =~= old(
                        self,
                    ).conns().update(i as int, c));
                }
                self.connections.insert(i, c);
                proof {
                    let pre = old(self).conns();
                    let post = self.conns();
                    assert(post =~= pre.update(i as int, post[i as int]));
                    assert forall|a: int, b: int|
                        0 <= a < b < post.len() implies (#[trigger] post[a]).peer_addr_view() != (
                    #[trigger] post[b]).peer_addr_view() by {
                        assert(post[a].peer_addr_view() == pre[a].peer_addr_view());
                        assert(post[b].peer_addr_view() == pre[b].peer_addr_view());
                    }
                }
                Some(event)
            },
            None => None,
        }
    }

    /// Seals `line` once per registered connection, each under that
    /// connection's own key and counter, and returns the frames in registry
    /// order: one independent send per peer, so no peer's counter depends on
    /// another's.
    pub fn broadcast_seal(&mut self, line: &[u8]) -> (frames: Vec<Vec<u8>>)
        requires
            line@.len() / 64 < MAX_BLOCKS,
            forall|k: int|
                0 <= k < old(self).conns().len() ==> (#[trigger] old(self).conns()[k]).sent()
                    < u128::MAX,
        ensures
            frames.deep_view().len() == old(self).conns().len(),
            final (self).conns().len() == old(self).conns().len(),
            old(self).wf() ==> final (self).wf(),
            forall|k: int|
                0 <= k < old(self).conns().len() ==> (#[trigger] frames.deep_view()[k])
                    == spec_sealed_frame(
                    old(self).conns()[k].key(),
                    old(self).conns()[k].sent(),
                    line@,
                ),
            forall|k: int|
                0 <= k < old(self).conns().len() ==> {
                    let pre = old(self).conns()[k];
                    let post = (#[trigger] final (self).conns()[k]);
                    &&& pre.same_identity(post)
                    &&& post.sent() == pre.sent() + 1
                    &&& post.received() == pre.received()
                    &&& post.nick_view() == pre.nick_view()
                    &&& post.reader_state() == pre.reader_state()
                    &&& post.wf() == pre.wf()
                },
    {
        let ghost orig = self.conns();
        let mut updated: Vec<Connection> = Vec::new();
        let mut frames: Vec<Vec<u8>> = Vec::new();
        let n = self.connections.len();
        let mut i: usize = 0;
        while i < n
            invariant
                i <= n,
                n == orig.len(),
                self.conns() =~= orig.skip(i as int),
                line@.len() / 64 < MAX_BLOCKS,
                forall|k: int| 0 <= k < orig.len() ==> (#[trigger] orig[k]).sent() < u128::MAX,
                updated@.len() == i,
                frames.deep_view().len() == i,
                forall|k: int|
                    0 <= k < i ==> (#[trigger] frames.deep_view()[k]) == spec_sealed_frame(
                        orig[k].key(),
                        orig[k].sent(),
                        line@,
                    ),
                forall|k: int|
                    0 <= k < i ==> {
                        let pre = orig[k];
                        let post = (#[trigger] updated@[k]);
                        &&& pre.same_identity(post)
                        &&& post.sent() == pre.sent() + 1
                        &&& post.received() == pre.received()
                        &&& post.nick_view() == pre.nick_view()
                        &&& post.reader_state() == pre.reader_state()
                        &&& post.wf() == pre.wf()
                    },
            decreases n - i,
        {
            let ghost uframes = frames.deep_view();
            let mut c = self.connections.remove(0);
            proof {
                assert(c == orig[i as int]);
                assert(self.conns() =~= orig.skip(i + 1));
            }
            let frame = match c.seal_frame(line) {
                Ok(f) => f,
                Err(_) => {
                    proof {
                        assert(false);
                    }
                    Vec::new()
                },
            };
            frames.push(frame);
            updated.push(c);
            proof {
                assert(frames.deep_view() =~~= uframes.push(frame@));
            }
            i = i + 1;
        }
        self.connections = updated;
        proof {
            assert forall|a: int, b: int|
                0 <= a < b < self.conns().len() && old(self).wf() implies self.conns()[
                a].peer_addr_view() != self.conns()[b].peer_addr_view() by {
                assert(orig[a].peer_addr_view() != orig[b].peer_addr_view());
            }
        }
        frames
    }

    /// Announces a nickname change to every peer: seals the nickname-change
    /// command line once per connection, through the same text path a single
    /// `update_nick` uses, and returns the frames in registry order.
    pub fn broadcast_nick(&mut self, nick: &[u8]) -> (frames: Vec<Vec<u8>>)
        requires
            (nick@.len() + 7) / 64 < MAX_BLOCKS,
            forall|k: int|
                0 <= k < old(self).conns().len() ==> (#[trigger] old(self).conns()[k]).sent()
                    < u128::MAX,
        ensures
            frames.deep_view().len() == old(self).conns().len(),
            final (self).conns().len() == old(self).conns().len(),
            old(self).wf() ==> final (self).wf(),
            forall|k: int|
                0 <= k < old(self).conns().len() ==> (#[trigger] frames.deep_view()[k])
                    == spec_sealed_frame(
                    old(self).conns()[k].key(),
                    old(self).conns()[k].sent(),
                    lines::spec_nick_command(nick@),
                ),
            forall|k: int|
                0 <= k < old(self).conns().len() ==> {
                    let pre = old(self).conns()[k];
                    let post = (#[trigger] final (self).conns()[k]);
                    &&& pre.same_identity(post)
                    &&& post.sent() == pre.sent() + 1
                    &&& post.received() == pre.received()
                    &&& post.nick_view() == pre.nick_view()
                    &&& post.reader_state() == pre.reader_state()
                    &&& post.wf() == pre.wf()
                },
    {
        let line = lines::nick_command(nick);
        proof {
            assert(line@.len() == nick@.len() + 7);
        }
        self.broadcast_seal(line.as_slice())
    }
}

/// In a well-formed registry every registered connection can be found at
/// its own peer address, and a connect attempt to any registered address
/// fails the pre-connect check: however many handshakes have completed, to
/// however many distinct addresses, lookup reaches each of them and no
/// duplicate can be added.
pub proof fn lemma_registry_reaches_every_peer(r: Registry)
    requires
        r.wf(),
    ensures
        forall|i: int|
            0 <= i < r.conns().len() ==> r.contains_addr(
                (#[trigger] r.conns()[i]).peer_addr_view(),
            ),
{
    assert forall|i: int|
        0 <= i < r.conns().len() implies r.contains_addr(
        (#[trigger] r.conns()[i]).peer_addr_view(),
    ) by {
        assert(r.conns()[i].peer_addr_view() == r.conns()[i].peer_addr_view());
    }
}

/// Whether two byte vectors hold the same bytes.
fn bytes_eq(a: &Vec<u8>, b: &Vec<u8>) -> (r: bool)
    ensures
        r == (a@ == b@),
{
    if a.len() != b.len() {
        return false;
    }
    let mut i: usize = 0;
    while i < a.len()
        invariant
            i <= a@.len(),
            a@.len() == b@.len(),
            forall|k: int| 0 <= k < i ==> a@[k] == b@[k],
        decreases a@.len() - i,
    {
        if a[i] != b[i] {
            return false;
        }
        i = i + 1;
    }
    proof {
        assert(a@ =~= b@);
    }
    true
}

/// An owned copy of a byte vector.
fn clone_bytes(v: &Vec<u8>) -> (r: Vec<u8>)
    ensures
        r@ == v@,
{
    let mut r: Vec<u8> = Vec::new();
    r.extend_from_slice(v.as_slice());
    r
}

} // verus!
