//! The connection registry: the single source of truth for who is currently
//! reachable.
//!
//! It maps the network identity of each live connection to a `ClientHandle`
//! owning that connection's outbound sender.  An entry exists exactly while
//! the connection is between "handshake succeeded" and "loop exited"; it is
//! inserted once on handshake success and removed once on loop exit, by the
//! same connection's task, so there is never a duplicate or dangling entry.
//! Every mutation entry point is a single atomic map operation; nothing here
//! can block on a peer.

use vstd::prelude::*;

use crate::messages::Message;
use crate::outbound::channel_send;

verus! {

/// The network identity of one live connection: the peer's address.  Unique
/// per live connection; the operating system may recycle an address after
/// the connection closes, so an identity is only meaningful while its
/// connection lives.
#[derive(Debug, Clone, Copy, PartialEq, Eq, Structural)]
pub struct ConnId {
    /// The peer's IP address as the integer value of its 128 bits; a 32-bit
    /// address is carried in the low bits.
    pub ip: u128,
    /// The peer's port.
    pub port: u16,
}

/// What the registry records of one client, mathematically.
#[verifier::ext_equal]
pub struct ClientInfo {
    /// The durable user identity bound by the handshake; zero while unset.
    pub steam_id: u64,
    /// The display name; empty until set.
    pub name: Seq<char>,
}

/// One connected peer, from the registry's point of view.  It owns the
/// sender half of the connection's outbound channel; the connection's own
/// task holds only the receiver half, so no two owners can race on the
/// identity fields.
pub struct ClientHandle {
    tx: tokio::sync::mpsc::UnboundedSender<Message>,
    steam_id: u64,
    name: String,
}

impl View for ClientHandle {
    type V = ClientInfo;

    closed spec fn view(&self) -> ClientInfo {
        ClientInfo { steam_id: self.steam_id, name: self.name@ }
    }
}

impl ClientHandle {
    /// A fresh handle owning `tx`: identity unset, name empty.
    pub fn new(tx: tokio::sync::mpsc::UnboundedSender<Message>) -> (r: ClientHandle)
        ensures
            r@ == (ClientInfo { steam_id: 0, name: Seq::<char>::empty() }),
    {
        ClientHandle { tx, steam_id: 0, name: String::new() }
    }

    /// Binds the durable user identity; done exactly once, by a successful
    /// handshake, before the handle enters the registry.
    pub fn bind_identity(&mut self, steam_id: u64)
        ensures
            final(self)@ == (ClientInfo { steam_id, name: old(self)@.name }),
    {
        self.steam_id = steam_id;
    }

    /// Replaces the display name.
    pub fn set_name(&mut self, name: String)
        ensures
            final(self)@ == (ClientInfo { steam_id: old(self)@.steam_id, name: name@ }),
    {
        self.name = name;
    }

    /// The durable user identity bound to this connection.
    pub fn steam_id(&self) -> (r: u64)
        ensures
            r == self@.steam_id,
    {
        self.steam_id
    }

    /// The display name.
    pub fn name(&self) -> (r: &String)
        ensures
            r@ == self@.name,
    {
        &self.name
    }

    /// Enqueues one message on this connection's outbound channel, never
    /// blocking.  Failure means the owning connection task is gone and its
    /// entry is about to disappear; the rejected message comes back
    /// unchanged.
    pub fn enqueue(&self, m: Message) -> (r: Result<(), Message>)
        ensures
            r matches Err(e) ==> e == m,
    {
        channel_send(&self.tx, m)
    }
}

/// No two entries share a key.
spec fn nodup_keys(s: Seq<(ConnId, ClientHandle)>) -> bool {
    forall|i: int, j: int|
        0 <= i < j < s.len() ==> (#[trigger] s[i]).0 != (#[trigger] s[j]).0
}

/// The mapping an entry sequence stands for; later entries would win, but
/// the registry keeps keys unique.
spec fn entries_map(s: Seq<(ConnId, ClientHandle)>) -> Map<ConnId, ClientInfo>
    decreases s.len(),
{
    if s.len() == 0 {
        Map::empty()
    } else {
        entries_map(s.drop_last()).insert(s.last().0, s.last().1@)
    }
}

proof fn lemma_nodup_drop_last(s: Seq<(ConnId, ClientHandle)>)
    requires
        nodup_keys(s),
        s.len() > 0,
    ensures
        nodup_keys(s.drop_last()),
{
    assert forall|i: int, j: int|
        0 <= i < j < s.drop_last().len() implies (#[trigger] s.drop_last()[i]).0 != (
    #[trigger] s.drop_last()[j]).0 by {
        assert(s.drop_last()[i] == s[i]);
        assert(s.drop_last()[j] == s[j]);
    }
}

/// A key is in the mapping exactly when some entry carries it.
proof fn lemma_contains(s: Seq<(ConnId, ClientHandle)>, k: ConnId)
    ensures
        entries_map(s).contains_key(k) <==> exists|i: int|
            0 <= i < s.len() && (#[trigger] s[i]).0 == k,
    decreases s.len(),
{
    if s.len() == 0 {
    } else {
        let s0 = s.drop_last();
        lemma_contains(s0, k);
        if s.last().0 == k {
            assert((s[s.len() - 1]).0 == k);
        } else if entries_map(s0).contains_key(k) {
            let i = choose|i: int| 0 <= i < s0.len() && (#[trigger] s0[i]).0 == k;
            assert((s[i]).0 == k);
        } else if exists|i: int| 0 <= i < s.len() && (#[trigger] s[i]).0 == k {
            let i = choose|i: int| 0 <= i < s.len() && (#[trigger] s[i]).0 == k;
            assert(i < s.len() - 1);
            assert((s0[i]).0 == k);
        }
    }
}

/// With unique keys, the entry at any index is what the mapping holds for
/// its key.
proof fn lemma_at(s: Seq<(ConnId, ClientHandle)>, i: int)
    requires
        nodup_keys(s),
        0 <= i < s.len(),
    ensures
        entries_map(s).contains_key((s[i]).0),
        entries_map(s)[(s[i]).0] == (s[i]).1@,
    decreases s.len(),
{
    if i == s.len() - 1 {
    } else {
        lemma_nodup_drop_last(s);
        lemma_at(s.drop_last(), i);
        assert(s.drop_last()[i] == s[i]);
        assert((s[i]).0 != (s[s.len() - 1]).0);
    }
}

/// With unique keys, the mapping is finite and has one member per entry.
proof fn lemma_len(s: Seq<(ConnId, ClientHandle)>)
    requires
        nodup_keys(s),
    ensures
        entries_map(s).dom().finite(),
        entries_map(s).len() == s.len(),
    decreases s.len(),
{
    if s.len() == 0 {
        broadcast use vstd::set::axiom_set_empty_len;

        assert(entries_map(s).dom() =~= Set::<ConnId>::empty());
    } else {
        let s0 = s.drop_last();
        let k = s.last().0;
        lemma_nodup_drop_last(s);
        lemma_len(s0);
        lemma_contains(s0, k);
        assert(!entries_map(s0).contains_key(k)) by {
            if exists|i: int| 0 <= i < s0.len() && (#[trigger] s0[i]).0 == k {
                let i = choose|i: int| 0 <= i < s0.len() && (#[trigger] s0[i]).0 == k;
                assert((s[i]).0 == (s[s.len() - 1]).0);
            }
        }
        assert(entries_map(s).dom() =~= entries_map(s0).dom().insert(k));
        vstd::set::axiom_set_insert_len(entries_map(s0).dom(), k);
    }
}

/// Removing the entry that carries a key removes exactly that key from the
/// mapping.
proof fn lemma_remove_at(s: Seq<(ConnId, ClientHandle)>, i: int)
    requires
        nodup_keys(s),
        0 <= i < s.len(),
    ensures
        nodup_keys(s.remove(i)),
        entries_map(s.remove(i)) == entries_map(s).remove((s[i]).0),
    decreases s.len(),
{
    let k = (s[i]).0;
    assert forall|a: int, b: int|
        0 <= a < b < s.remove(i).len() implies (#[trigger] s.remove(i)[a]).0 != (
    #[trigger] s.remove(i)[b]).0 by {
        let a0: int = if a < i { a } else { a + 1 };
        let b0: int = if b < i { b } else { b + 1 };
        assert(s.remove(i)[a] == s[a0]);
        assert(s.remove(i)[b] == s[b0]);
    }
    lemma_nodup_drop_last(s);
    if i == s.len() - 1 {
        let s0 = s.drop_last();
        lemma_contains(s0, k);
        assert(!entries_map(s0).contains_key(k)) by {
            if exists|j: int| 0 <= j < s0.len() && (#[trigger] s0[j]).0 == k {
                let j = choose|j: int| 0 <= j < s0.len() && (#[trigger] s0[j]).0 == k;
                assert((s[j]).0 == (s[s.len() - 1]).0);
            }
        }
        assert(s.remove(i) =~= s0);
        assert(entries_map(s.remove(i)) =~= entries_map(s).remove(k));
    } else {
        lemma_remove_at(s.drop_last(), i);
        assert(s.remove(i).drop_last() =~= s.drop_last().remove(i));
        assert(s.remove(i).last() == s.last());
        assert(s.remove(i).len() == s.len() - 1 > 0);
        assert((s[i]).0 != s.last().0);
        assert(entries_map(s.remove(i)) == entries_map(s.drop_last().remove(i)).insert(
            s.last().0,
            s.last().1@,
        ));
        assert(entries_map(s.remove(i)) =~= entries_map(s).remove(k));
    }
}

/// The shared mapping from live connection identities to their handles.
/// Each operation is one atomic critical section when the registry stands
/// behind a lock; none of them can block.
pub struct Registry {
    entries: Vec<(ConnId, ClientHandle)>,
}

impl View for Registry {
    type V = Map<ConnId, ClientInfo>;

    closed spec fn view(&self) -> Map<ConnId, ClientInfo> {
        entries_map(self.entries@)
    }
}

impl Registry {
    /// The registry's internal invariant: one entry per identity.
    pub closed spec fn wf(&self) -> bool {
        nodup_keys(self.entries@)
    }

    /// An empty registry.
    pub fn new() -> (r: Registry)
        ensures
            r.wf(),
            r@ == Map::<ConnId, ClientInfo>::empty(),
    {
        let r = Registry { entries: Vec::new() };
        proof {
            assert(r@ =~= Map::<ConnId, ClientInfo>::empty());
        }
        r
    }

    /// How many connections are currently reachable.
    pub fn len(&self) -> (r: usize)
        requires
            self.wf(),
        ensures
            r == self@.len(),
    {
        proof {
            lemma_len(self.entries@);
        }
        self.entries.len()
    }

    /// The handle registered for `id`, for enqueueing to its outbound
    /// channel; not to be held past the current operation.
    pub fn lookup(&self, id: ConnId) -> (r: Option<&ClientHandle>)
        requires
            self.wf(),
        ensures
            match r {
                Some(h) => self@.contains_key(id) && h@ == self@[id],
                None => !self@.contains_key(id),
            },
    {
        let n = self.entries.len();
        let mut i: usize = 0;
        while i < n
            invariant
                self.wf(),
                n == self.entries.len(),
                i <= n,
                forall|j: int| 0 <= j < i ==> (#[trigger] self.entries@[j]).0 != id,
            decreases n - i,
        {
            if self.entries[i].0 == id {
                proof {
                    lemma_at(self.entries@, i as int);
                }
                return Some(&self.entries[i].1);
            }
            i = i + 1;
        }
        proof {
            lemma_contains(self.entries@, id);
        }
        None
    }

    /// Whether `id` currently has a live entry.
    pub fn contains(&self, id: ConnId) -> (r: bool)
        requires
            self.wf(),
        ensures
            r == self@.contains_key(id),
    {
        self.lookup(id).is_some()
    }

    /// Registers a handle under a live identity.  Fails — a programming
    /// error condition, identities are never reused while live — exactly
    /// when `id` already has an entry, handing the handle back and changing
    /// nothing.
    pub fn insert(&mut self, id: ConnId, h: ClientHandle) -> (r: Result<(), ClientHandle>)
        requires
            old(self).wf(),
        ensures
            final(self).wf(),
            old(self)@.contains_key(id) ==> r == Err::<(), ClientHandle>(h) && final(self)@
                == old(self)@,
            !old(self)@.contains_key(id) ==> r == Ok::<(), ClientHandle>(()) && final(self)@
                == old(self)@.insert(id, h@),
    {
        if self.contains(id) {
            return Err(h);
        }
        let ghost s0 = self.entries@;
        proof {
            lemma_contains(s0, id);
        }
        self.entries.push((id, h));
        proof {
            let s1 = self.entries@;
            assert(s1.drop_last() =~= s0);
            assert forall|a: int, b: int|
                0 <= a < b < s1.len() implies (#[trigger] s1[a]).0 != (#[trigger] s1[b]).0 by {
                if b < s1.len() - 1 {
                    assert(s1[a] == s0[a]);
                    assert(s1[b] == s0[b]);
                } else {
                    assert(s1[a] == s0[a]);
                    assert((s1[b]).0 == id);
                    if (s0[a]).0 == id {
                        assert(exists|i: int| 0 <= i < s0.len() && (#[trigger] s0[i]).0 == id);
                    }
                }
            }
        }
        Ok(())
    }

    /// Deregisters `id`: a no-op when the identity is absent, so the path
    /// where a handshake never completed needs no special case.  Reports
    /// whether an entry was there.
    pub fn remove(&mut self, id: ConnId) -> (r: bool)
        requires
            old(self).wf(),
        ensures
            final(self).wf(),
            r == old(self)@.contains_key(id),
            final(self)@ == old(self)@.remove(id),
            r ==> final(self)@.len() == old(self)@.len() - 1,
            !r ==> final(self)@ == old(self)@,
    {
        let n = self.entries.len();
        let mut i: usize = 0;
        while i < n
            invariant
                old(self).wf(),
                self == old(self),
                n == self.entries.len(),
                i <= n,
                forall|j: int| 0 <= j < i ==> (#[trigger] self.entries@[j]).0 != id,
            decreases n - i,
        {
            if self.entries[i].0 == id {
                proof {
                    lemma_at(self.entries@, i as int);
                    lemma_remove_at(self.entries@, i as int);
                    lemma_len(self.entries@);
                    lemma_len(self.entries@.remove(i as int));
                }
                self.entries.remove(i);
                return true;
            }
            i = i + 1;
        }
        proof {
            lemma_contains(self.entries@, id);
            assert(entries_map(self.entries@).remove(id) =~= entries_map(self.entries@));
        }
        false
    }

    /// Replaces the display name recorded for `id`, leaving its identity
    /// and every other entry untouched.  Reports whether `id` was live.
    pub fn set_name(&mut self, id: ConnId, name: String) -> (r: bool)
        requires
            old(self).wf(),
        ensures
            final(self).wf(),
            r == old(self)@.contains_key(id),
            old(self)@.contains_key(id) ==> final(self)@ == old(self)@.insert(
                id,
                ClientInfo { steam_id: old(self)@[id].steam_id, name: name@ },
            ),
            !old(self)@.contains_key(id) ==> final(self)@ == old(self)@,
    {
        let n = self.entries.len();
        let mut i: usize = 0;
        while i < n
            invariant
                old(self).wf(),
                self == old(self),
                n == self.entries.len(),
                i <= n,
                forall|j: int| 0 <= j < i ==> (#[trigger] self.entries@[j]).0 != id,
            decreases n - i,
        {
            if self.entries[i].0 == id {
                proof {
                    lemma_at(self.entries@, i as int);
                    lemma_remove_at(self.entries@, i as int);
                }
                let ghost s0 = self.entries@;
                let (k, mut h) = self.entries.remove(i);
                h.set_name(name);
                proof {
                    lemma_contains(s0.remove(i as int), id);
                    assert(!entries_map(s0.remove(i as int)).contains_key(id)) by {
                        if exists|j: int|
                            0 <= j < s0.remove(i as int).len() && (#[trigger] s0.remove(
                                i as int,
                            )[j]).0 == id {
                            let j = choose|j: int|
                                0 <= j < s0.remove(i as int).len() && (#[trigger] s0.remove(
                                    i as int,
                                )[j]).0 == id;
                            let j0: int = if j < i { j } else { j + 1 };
                            assert(s0.remove(i as int)[j] == s0[j0]);
                            assert((s0[j0]).0 == (s0[i as int]).0);
                        }
                    }
                }
                self.entries.push((k, h));
                proof {
                    let s1 = self.entries@;
                    let s2 = s0.remove(i as int);
                    assert(s1.drop_last() =~= s2);
                    lemma_contains(s2, id);
                    assert forall|a: int, b: int|
                        0 <= a < b < s1.len() implies (#[trigger] s1[a]).0 != (
                    #[trigger] s1[b]).0 by {
                        if b < s1.len() - 1 {
                            assert(s1[a] == s2[a]);
                            assert(s1[b] == s2[b]);
                        } else {
                            assert(s1[a] == s2[a]);
                            assert((s1[b]).0 == id);
                            if (s2[a]).0 == id {
                                assert(exists|j: int|
                                    0 <= j < s2.len() && (#[trigger] s2[j]).0 == id);
                            }
                        }
                    }
                    assert(entries_map(s1) =~= old(self)@.insert(
                        id,
                        ClientInfo { steam_id: old(self)@[id].steam_id, name: name@ },
                    ));
                }
                return true;
            }
            i = i + 1;
        }
        proof {
            lemma_contains(self.entries@, id);
        }
        false
    }
}

} // verus!
