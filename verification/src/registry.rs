//! The session registry: the ground truth for which clients are subscribed
//! to which tickers and when each was last heard from. Time enters every
//! operation as an explicit seconds-since-epoch argument, so the rules below
//! hold for every clock reading.

use vstd::prelude::*;

verus! {

/// One subscribed client: its identifier, its subscription set (fixed at
/// creation), and the time it was last heard from.
pub struct ClientSession {
    pub id: u64,
    pub subscribed_tickers: Vec<String>,
    pub last_ping: u64,
}

/// A session is inactive at `now` when its last probe is older than
/// `timeout` seconds.
pub open spec fn is_inactive(s: ClientSession, now: u64, timeout: u64) -> bool {
    now - s.last_ping > timeout
}

/// The identifiers of the inactive sessions of `ss`, in registry order.
pub open spec fn inactive_ids(ss: Seq<ClientSession>, now: u64, timeout: u64) -> Seq<u64>
    decreases ss.len(),
{
    if ss.len() == 0 {
        Seq::empty()
    } else {
        inactive_ids(ss.drop_last(), now, timeout) + (if is_inactive(ss.last(), now, timeout) {
            seq![ss.last().id]
        } else {
            Seq::empty()
        })
    }
}

/// The sessions of `ss` that are still active, in registry order.
pub open spec fn active_sessions(ss: Seq<ClientSession>, now: u64, timeout: u64) -> Seq<
    ClientSession,
>
    decreases ss.len(),
{
    if ss.len() == 0 {
        Seq::empty()
    } else {
        active_sessions(ss.drop_last(), now, timeout) + (if is_inactive(ss.last(), now, timeout) {
            Seq::empty()
        } else {
            seq![ss.last()]
        })
    }
}

/// The registry of live sessions. Identifiers are assigned from a counter
/// that never goes back, so an identifier is never reused while the process
/// runs.
pub struct ClientManager {
    pub sessions: Vec<ClientSession>,
    pub next_client_id: u64,
}

impl ClientManager {
    /// Well-formedness: identifiers are pairwise distinct and all below the
    /// assignment counter.
    pub open spec fn wf(self) -> bool {
        &&& forall|i: int, j: int|
            0 <= i < j < self.sessions@.len() ==> #[trigger] self.sessions@[i].id
                != #[trigger] self.sessions@[j].id
        &&& forall|i: int|
            0 <= i < self.sessions@.len() ==> #[trigger] self.sessions@[i].id
                < self.next_client_id
        &&& self.next_client_id >= 1
    }

    /// Whether a session with this identifier is present.
    pub open spec fn has_session(self, id: u64) -> bool {
        exists|i: int| 0 <= i < self.sessions@.len() && #[trigger] self.sessions@[i].id == id
    }

    /// The position of the session with this identifier.
    pub open spec fn index_of(self, id: u64) -> int {
        choose|i: int| 0 <= i < self.sessions@.len() && #[trigger] self.sessions@[i].id == id
    }

    /// The session with this identifier.
    pub open spec fn session_at(self, id: u64) -> ClientSession {
        self.sessions@[self.index_of(id)]
    }

    /// An empty registry, with identifiers starting at one.
    pub fn new() -> (m: ClientManager)
        ensures
            m.wf(),
            m.sessions@.len() == 0,
            m.next_client_id == 1,
    {
        ClientManager { sessions: Vec::new(), next_client_id: 1 }
    }

    /// Creates a session for a freshly accepted client, subscribed to
    /// `subscribed_tickers` and last seen `now`, and returns its fresh
    /// identifier.
    pub fn add_client(&mut self, subscribed_tickers: Vec<String>, now: u64) -> (id: u64)
        requires
            old(self).wf(),
            old(self).next_client_id < u64::MAX,
        ensures
            final(self).wf(),
            id == old(self).next_client_id,
            final(self).next_client_id == old(self).next_client_id + 1,
            final(self).sessions@ == old(self).sessions@.push(
                (ClientSession { id, subscribed_tickers, last_ping: now }),
            ),
            final(self).has_session(id),
            final(self).session_at(id) == (ClientSession { id, subscribed_tickers, last_ping: now }),
            forall|o: u64| o != id ==> (final(self).has_session(o) <==> old(self).has_session(o)),
            forall|o: u64|
                o != id && old(self).has_session(o) ==> final(self).session_at(o) == old(self).session_at(
                    o,
                ),
    {
        let ghost old_m = *self;
        let id = self.next_client_id;
        self.next_client_id = self.next_client_id + 1;
        let session = ClientSession { id, subscribed_tickers, last_ping: now };
        self.sessions.push(session);
        proof {
            let n = old_m.sessions@.len() as int;
            assert(self.sessions@ =~= old_m.sessions@.push(self.sessions@[n]));
            assert(self.sessions@[n].id == id);
            lemma_found_session(*self, id, n);
            assert forall|o: u64| o != id implies (self.has_session(o) <==> old_m.has_session(o))
                by {
                if self.has_session(o) {
                    let i = choose|i: int|
                        0 <= i < self.sessions@.len() && #[trigger] self.sessions@[i].id == o;
                    assert(i != n);
                    assert(old_m.sessions@[i].id == o);
                }
                if old_m.has_session(o) {
                    let i = choose|i: int|
                        0 <= i < old_m.sessions@.len() && #[trigger] old_m.sessions@[i].id == o;
                    assert(self.sessions@[i].id == o);
                }
            }
            assert forall|o: u64| o != id && old_m.has_session(o) implies self.session_at(o)
                == old_m.session_at(o) by {
                let i = choose|i: int|
                    0 <= i < old_m.sessions@.len() && #[trigger] old_m.sessions@[i].id == o;
                assert(old_m.wf());
                lemma_found_session(old_m, o, i);
                assert(self.sessions@[i].id == o);
                lemma_found_session(*self, o, i);
            }
        }
        id
    }

    /// Removes the session with this identifier, if it is present.
    pub fn remove_client(&mut self, id: u64)
        requires
            old(self).wf(),
        ensures
            final(self).wf(),
            final(self).next_client_id == old(self).next_client_id,
            !final(self).has_session(id),
            !old(self).has_session(id) ==> final(self).sessions@ == old(self).sessions@,
            old(self).has_session(id) ==> final(self).sessions@ == old(self).sessions@.remove(
                old(self).index_of(id),
            ),
            forall|o: u64| o != id ==> (final(self).has_session(o) <==> old(self).has_session(o)),
            forall|o: u64|
                o != id && old(self).has_session(o) ==> final(self).session_at(o) == old(self).session_at(
                    o,
                ),
    {
        let ghost old_m = *self;
        let n = self.sessions.len();
        let mut i: usize = 0;
        while i < n
            invariant
                i <= n,
                n == self.sessions@.len(),
                *self == old_m,
                old_m == *old(self),
                old_m.wf(),
                forall|j: int| 0 <= j < i ==> #[trigger] self.sessions@[j].id != id,
            decreases n - i,
        {
            if self.sessions[i].id == id {
                proof {
                    lemma_found_session(old_m, id, i as int);
                }
                self.sessions.remove(i);
                proof {
                    lemma_removed_session(old_m, id, i as int, *self);
                }
                return ;
            }
            i = i + 1;
        }
        proof {
            assert(!old_m.has_session(id));
        }
    }

    /// Marks the session as heard from at `now`. Returns false exactly when
    /// the identifier is unknown, in which case nothing changes.
    pub fn update_ping(&mut self, id: u64, now: u64) -> (r: bool)
        requires
            old(self).wf(),
        ensures
            final(self).wf(),
            final(self).next_client_id == old(self).next_client_id,
            r == old(self).has_session(id),
            !r ==> final(self).sessions@ == old(self).sessions@,
            r ==> final(self).sessions@ == old(self).sessions@.update(
                old(self).index_of(id),
                (ClientSession { last_ping: now, ..old(self).session_at(id) }),
            ),
            r ==> final(self).has_session(id) && final(self).session_at(id) == (ClientSession {
                last_ping: now,
                ..old(self).session_at(id)
            }),
            forall|o: u64| o != id ==> (final(self).has_session(o) <==> old(self).has_session(o)),
            forall|o: u64|
                o != id && old(self).has_session(o) ==> final(self).session_at(o) == old(self).session_at(
                    o,
                ),
    {
        let ghost old_m = *self;
        let n = self.sessions.len();
        let mut i: usize = 0;
        while i < n
            invariant
                i <= n,
                n == self.sessions@.len(),
                *self == old_m,
                old_m == *old(self),
                old_m.wf(),
                forall|j: int| 0 <= j < i ==> #[trigger] self.sessions@[j].id != id,
            decreases n - i,
        {
            if self.sessions[i].id == id {
                proof {
                    lemma_found_session(old_m, id, i as int);
                }
                self.sessions[i].last_ping = now;
                proof {
                    let new_s = (ClientSession { last_ping: now, ..old_m.session_at(id) });
                    assert(self.sessions@ =~= old_m.sessions@.update(i as int, new_s));
                    assert(self.sessions@[i as int].id == id);
                    lemma_found_session(*self, id, i as int);
                    assert forall|o: u64| o != id implies (self.has_session(o)
                        <==> old_m.has_session(o)) by {
                        if self.has_session(o) {
                            let j = choose|j: int|
                                0 <= j < self.sessions@.len() && #[trigger] self.sessions@[j].id
                                    == o;
                            assert(old_m.sessions@[j].id == o);
                        }
                        if old_m.has_session(o) {
                            let j = choose|j: int|
                                0 <= j < old_m.sessions@.len() && #[trigger] old_m.sessions@[j].id
                                    == o;
                            assert(self.sessions@[j].id == o);
                        }
                    }
                    assert forall|o: u64| o != id && old_m.has_session(o) implies self.session_at(
                        o,
                    ) == old_m.session_at(o) by {
                        let j = choose|j: int|
                            0 <= j < old_m.sessions@.len() && #[trigger] old_m.sessions@[j].id
                                == o;
                        lemma_found_session(old_m, o, j);
                        assert(self.sessions@[j].id == o);
                        lemma_found_session(*self, o, j);
                    }
                }
                return true;
            }
            i = i + 1;
        }
        proof {
            assert(!old_m.has_session(id));
        }
        false
    }

    /// Whether the session with this identifier is still present.
    pub fn has_client(&self, id: u64) -> (r: bool)
        ensures
            r == self.has_session(id),
    {
        let n = self.sessions.len();
        let mut i: usize = 0;
        while i < n
            invariant
                i <= n,
                n == self.sessions@.len(),
                forall|j: int| 0 <= j < i ==> #[trigger] self.sessions@[j].id != id,
            decreases n - i,
        {
            if self.sessions[i].id == id {
                return true;
            }
            i = i + 1;
        }
        false
    }

    /// The identifiers of every session whose last probe is more than
    /// `timeout` seconds before `now`, in registry order.
    pub fn get_inactive_clients(&self, now: u64, timeout: u64) -> (r: Vec<u64>)
        ensures
            r@ == inactive_ids(self.sessions@, now, timeout),
    {
        let n = self.sessions.len();
        let mut r: Vec<u64> = Vec::new();
        let mut i: usize = 0;
        proof {
            assert(self.sessions@.take(0) =~= Seq::<ClientSession>::empty());
        }
        while i < n
            invariant
                i <= n,
                n == self.sessions@.len(),
                r@ == inactive_ids(self.sessions@.take(i as int), now, timeout),
            decreases n - i,
        {
            let last_ping = self.sessions[i].last_ping;
            let ghost pre = self.sessions@.take(i as int);
            proof {
                assert(self.sessions@.take(i + 1).drop_last() =~= pre);
                assert(self.sessions@.take(i + 1).last() == self.sessions@[i as int]);
            }
            if last_ping < now && now - last_ping > timeout {
                r.push(self.sessions[i].id);
            } else {
                proof {
                    assert(r@ + Seq::<u64>::empty() =~= r@);
                }
            }
            i = i + 1;
        }
        proof {
            assert(self.sessions@.take(n as int) =~= self.sessions@);
        }
        r
    }

    /// Whether the session subscribes to `ticker`: absent when the
    /// identifier is unknown.
    pub fn check_client_ticker(&self, id: u64, ticker: &String) -> (r: Option<bool>)
        requires
            self.wf(),
        ensures
            r is Some <==> self.has_session(id),
            r matches Some(b) ==> b == crate::strutil::views_of(
                self.session_at(id).subscribed_tickers@,
            ).contains(ticker@),
    {
        let n = self.sessions.len();
        let mut i: usize = 0;
        while i < n
            invariant
                i <= n,
                n == self.sessions@.len(),
                self.wf(),
                forall|j: int| 0 <= j < i ==> #[trigger] self.sessions@[j].id != id,
            decreases n - i,
        {
            if self.sessions[i].id == id {
                proof {
                    lemma_found_session(*self, id, i as int);
                }
                let b = crate::strutil::contains_str(&self.sessions[i].subscribed_tickers, ticker);
                return Some(b);
            }
            i = i + 1;
        }
        None
    }

    /// One reaper pass: removes every session that is inactive at `now` and
    /// returns their identifiers. Afterwards the registry holds exactly the
    /// sessions that were active, unchanged and in their old order.
    pub fn reap_inactive(&mut self, now: u64, timeout: u64) -> (removed: Vec<u64>)
        requires
            old(self).wf(),
        ensures
            final(self).wf(),
            final(self).next_client_id == old(self).next_client_id,
            final(self).sessions@ == active_sessions(old(self).sessions@, now, timeout),
            removed@ == inactive_ids(old(self).sessions@, now, timeout),
            forall|o: u64|
                final(self).has_session(o) <==> (old(self).has_session(o) && !is_inactive(
                    old(self).session_at(o),
                    now,
                    timeout,
                )),
            forall|o: u64|
                final(self).has_session(o) ==> final(self).session_at(o) == old(self).session_at(o),
    {
        let ghost old_m = *self;
        let mut rest: Vec<ClientSession> = Vec::new();
        core::mem::swap(&mut self.sessions, &mut rest);
        let mut kept: Vec<ClientSession> = Vec::new();
        let mut removed: Vec<u64> = Vec::new();
        let ghost orig = rest@;
        let ghost k: int = 0;
        proof {
            assert(orig.take(0) =~= Seq::<ClientSession>::empty());
        }
        while rest.len() > 0
            invariant
                0 <= k <= orig.len(),
                rest@ == orig.skip(k),
                kept@ == active_sessions(orig.take(k), now, timeout),
                removed@ == inactive_ids(orig.take(k), now, timeout),
            decreases rest@.len(),
    {
            proof {
                assert(orig.skip(k).len() > 0);
                assert(k < orig.len());
            }
            let s = rest.remove(0);
            proof {
                assert(s == orig.skip(k)[0]);
                assert(orig.skip(k)[0] == orig[k]);
                assert(rest@ =~= orig.skip(k + 1));
                assert(orig.take(k + 1).drop_last() =~= orig.take(k));
                assert(orig.take(k + 1).last() == orig[k]);
            }
            let inactive = s.last_ping < now && now - s.last_ping > timeout;
            if inactive {
                removed.push(s.id);
                proof {
                    assert(kept@ + Seq::<ClientSession>::empty() =~= kept@);
                }
            } else {
                kept.push(s);
                proof {
                    assert(removed@ + Seq::<u64>::empty() =~= removed@);
                }
            }
            proof {
                k = k + 1;
            }
        }
        proof {
            assert(orig.take(orig.len() as int) =~= orig);
        }
        self.sessions = kept;
        proof {
            lemma_active_sessions_props(orig, now, timeout);
            lemma_reap_membership(old_m, *self, 0, now, timeout);
            assert forall|o: u64|
                self.has_session(o) <==> (old_m.has_session(o) && !is_inactive(
                    old_m.session_at(o),
                    now,
                    timeout,
                )) by {
                lemma_reap_membership(old_m, *self, o, now, timeout);
            }
            assert forall|o: u64| self.has_session(o) implies self.session_at(o)
                == old_m.session_at(o) by {
                lemma_reap_membership(old_m, *self, o, now, timeout);
            }
        }
        removed
    }
}

/// Seeing the session with identifier `id` at position `i` pins down
/// `index_of` and `session_at`, since identifiers are unique.
pub proof fn lemma_found_session(m: ClientManager, id: u64, i: int)
    requires
        m.wf(),
        0 <= i < m.sessions@.len(),
        m.sessions@[i].id == id,
    ensures
        m.has_session(id),
        m.index_of(id) == i,
        m.session_at(id) == m.sessions@[i],
{
    assert(m.has_session(id));
    let j = m.index_of(id);
    assert(0 <= j < m.sessions@.len() && m.sessions@[j].id == id);
    if j < i {
        assert(m.sessions@[j].id != m.sessions@[i].id);
    } else if i < j {
        assert(m.sessions@[i].id != m.sessions@[j].id);
    }
}

/// What removing position `i` (holding identifier `id`) does to session
/// lookup: the identifier is gone, every other session keeps its state.
proof fn lemma_removed_session(old_m: ClientManager, id: u64, i: int, new_m: ClientManager)
    requires
        old_m.wf(),
        0 <= i < old_m.sessions@.len(),
        old_m.sessions@[i].id == id,
        new_m.sessions@ == old_m.sessions@.remove(i),
        new_m.next_client_id == old_m.next_client_id,
    ensures
        new_m.wf(),
        !new_m.has_session(id),
        old_m.has_session(id),
        old_m.index_of(id) == i,
        forall|o: u64| o != id ==> (new_m.has_session(o) <==> old_m.has_session(o)),
        forall|o: u64|
            o != id && old_m.has_session(o) ==> new_m.session_at(o) == old_m.session_at(o),
{
    lemma_found_session(old_m, id, i);
    assert(forall|j: int|
        0 <= j < new_m.sessions@.len() ==> #[trigger] new_m.sessions@[j] == (if j < i {
            old_m.sessions@[j]
        } else {
            old_m.sessions@[j + 1]
        }));
    assert(new_m.wf());
    assert(!new_m.has_session(id)) by {
        if new_m.has_session(id) {
            let j = choose|j: int|
                0 <= j < new_m.sessions@.len() && #[trigger] new_m.sessions@[j].id == id;
            if j < i {
                assert(old_m.sessions@[j].id == id);
                lemma_found_session(old_m, id, j);
            } else {
                assert(old_m.sessions@[j + 1].id == id);
                lemma_found_session(old_m, id, j + 1);
            }
        }
    }
    assert forall|o: u64| o != id implies (new_m.has_session(o) <==> old_m.has_session(o)) by {
        if new_m.has_session(o) {
            let j = choose|j: int|
                0 <= j < new_m.sessions@.len() && #[trigger] new_m.sessions@[j].id == o;
            if j < i {
                assert(old_m.sessions@[j].id == o);
            } else {
                assert(old_m.sessions@[j + 1].id == o);
            }
        }
        if old_m.has_session(o) {
            let j = choose|j: int|
                0 <= j < old_m.sessions@.len() && #[trigger] old_m.sessions@[j].id == o;
            assert(j != i);
            if j < i {
                assert(new_m.sessions@[j].id == o);
            } else {
                assert(new_m.sessions@[j - 1].id == o);
            }
        }
    }
    assert forall|o: u64| o != id && old_m.has_session(o) implies new_m.session_at(o)
        == old_m.session_at(o) by {
        let j = choose|j: int|
            0 <= j < old_m.sessions@.len() && #[trigger] old_m.sessions@[j].id == o;
        lemma_found_session(old_m, o, j);
        if j < i {
            assert(new_m.sessions@[j].id == o);
            lemma_found_session(new_m, o, j);
        } else {
            assert(j != i);
            assert(new_m.sessions@[j - 1].id == o);
            lemma_found_session(new_m, o, j - 1);
        }
    }
}

/// The active subset keeps exactly the active elements: every element of
/// `active_sessions` occurs in `ss` and is active, and every active element
/// of `ss` occurs in it.
proof fn lemma_active_sessions_props(ss: Seq<ClientSession>, now: u64, timeout: u64)
    ensures
        forall|i: int|
            0 <= i < active_sessions(ss, now, timeout).len() ==> ss.contains(
                #[trigger] active_sessions(ss, now, timeout)[i],
            ) && !is_inactive(active_sessions(ss, now, timeout)[i], now, timeout),
        forall|j: int|
            0 <= j < ss.len() && !is_inactive(#[trigger] ss[j], now, timeout)
                ==> active_sessions(ss, now, timeout).contains(ss[j]),
    decreases ss.len(),
{
    if ss.len() > 0 {
        lemma_active_sessions_props(ss.drop_last(), now, timeout);
        let a = active_sessions(ss, now, timeout);
        let ap = active_sessions(ss.drop_last(), now, timeout);
        assert forall|i: int|
            0 <= i < a.len() implies ss.contains(#[trigger] a[i]) && !is_inactive(
            a[i],
            now,
            timeout,
        ) by {
            if i < ap.len() {
                assert(a[i] == ap[i]);
                let j = choose|j: int| 0 <= j < ss.drop_last().len() && ss.drop_last()[j] == ap[i];
                assert(ss[j] == ap[i]);
            } else {
                assert(a[i] == ss.last());
                assert(ss[ss.len() - 1] == ss.last());
            }
        }
        assert forall|j: int|
            0 <= j < ss.len() && !is_inactive(#[trigger] ss[j], now, timeout) implies a.contains(
            ss[j],
        ) by {
            if j < ss.len() - 1 {
                assert(ss.drop_last()[j] == ss[j]);
                assert(ap.contains(ss[j]));
                let i = choose|i: int| 0 <= i < ap.len() && ap[i] == ss[j];
                assert(a[i] == ss[j]);
            } else {
                assert(a[a.len() - 1] == ss.last());
            }
        }
    }
}

/// Relates session lookup before and after a reaper pass.
proof fn lemma_reap_membership(
    old_m: ClientManager,
    new_m: ClientManager,
    o: u64,
    now: u64,
    timeout: u64,
)
    requires
        old_m.wf(),
        new_m.sessions@ == active_sessions(old_m.sessions@, now, timeout),
        new_m.next_client_id == old_m.next_client_id,
    ensures
        new_m.has_session(o) <==> (old_m.has_session(o) && !is_inactive(
            old_m.session_at(o),
            now,
            timeout,
        )),
        new_m.has_session(o) ==> new_m.session_at(o) == old_m.session_at(o),
        new_m.wf(),
    decreases old_m.sessions@.len(),
{
    lemma_active_sessions_props(old_m.sessions@, now, timeout);
    lemma_active_distinct(old_m.sessions@, now, timeout);
    assert(new_m.wf()) by {
        assert forall|i: int|
            0 <= i < new_m.sessions@.len() implies #[trigger] new_m.sessions@[i].id
            < new_m.next_client_id by {
            let j = choose|j: int|
                0 <= j < old_m.sessions@.len() && old_m.sessions@[j] == new_m.sessions@[i];
            assert(old_m.sessions@[j].id < old_m.next_client_id);
        }
    }
    if new_m.has_session(o) {
        let i = choose|i: int|
            0 <= i < new_m.sessions@.len() && #[trigger] new_m.sessions@[i].id == o;
        let j = choose|j: int|
            0 <= j < old_m.sessions@.len() && old_m.sessions@[j] == new_m.sessions@[i];
        lemma_found_session(old_m, o, j);
        lemma_found_session(new_m, o, i);
        assert(!is_inactive(old_m.session_at(o), now, timeout));
    }
    if old_m.has_session(o) && !is_inactive(old_m.session_at(o), now, timeout) {
        let j = old_m.index_of(o);
        assert(0 <= j < old_m.sessions@.len() && old_m.sessions@[j].id == o);
        assert(new_m.sessions@.contains(old_m.sessions@[j]));
        let i = choose|i: int|
            0 <= i < new_m.sessions@.len() && new_m.sessions@[i] == old_m.sessions@[j];
        assert(new_m.sessions@[i].id == o);
    }
}

/// Distinct identifiers survive taking the active subset.
proof fn lemma_active_distinct(ss: Seq<ClientSession>, now: u64, timeout: u64)
    requires
        forall|i: int, j: int|
            0 <= i < j < ss.len() ==> #[trigger] ss[i].id != #[trigger] ss[j].id,
    ensures
        forall|i: int, j: int|
            0 <= i < j < active_sessions(ss, now, timeout).len() ==> #[trigger] active_sessions(
                ss,
                now,
                timeout,
            )[i].id != #[trigger] active_sessions(ss, now, timeout)[j].id,
    decreases ss.len(),
{
    if ss.len() > 0 {
        assert(forall|i: int, j: int|
            0 <= i < j < ss.drop_last().len() ==> #[trigger] ss.drop_last()[i].id
                != #[trigger] ss.drop_last()[j].id);
        lemma_active_distinct(ss.drop_last(), now, timeout);
        lemma_active_sessions_props(ss.drop_last(), now, timeout);
        let a = active_sessions(ss, now, timeout);
        let ap = active_sessions(ss.drop_last(), now, timeout);
        assert forall|i: int, j: int|
            0 <= i < j < a.len() implies #[trigger] a[i].id != #[trigger] a[j].id by {
            if j < ap.len() {
                assert(a[i] == ap[i] && a[j] == ap[j]);
            } else {
                assert(a[j] == ss.last());
                assert(a[i] == ap[i]);
                let p = choose|p: int| 0 <= p < ss.drop_last().len() && ss.drop_last()[p] == ap[i];
                assert(ss[p] == ap[i]);
                assert(ss[p].id != ss[ss.len() - 1].id);
            }
        }
    }
}

/// An inactive session's identifier is among the inactive identifiers.
proof fn lemma_inactive_ids_contains(ss: Seq<ClientSession>, now: u64, timeout: u64, j: int)
    requires
        0 <= j < ss.len(),
        is_inactive(ss[j], now, timeout),
    ensures
        inactive_ids(ss, now, timeout).contains(ss[j].id),
    decreases ss.len(),
{
    let ids = inactive_ids(ss, now, timeout);
    if j == ss.len() - 1 {
        assert(ss.last() == ss[j]);
        assert(ids[ids.len() - 1] == ss[j].id);
    } else {
        lemma_inactive_ids_contains(ss.drop_last(), now, timeout, j);
        let pre = inactive_ids(ss.drop_last(), now, timeout);
        let i = choose|i: int| 0 <= i < pre.len() && pre[i] == ss.drop_last()[j].id;
        assert(ss.drop_last()[j] == ss[j]);
        assert(ids[i] == ss[j].id);
    }
}

/// After a reaper pass, an overdue session is gone and its identifier is
/// among the removed ones; dispatcher and monitor observe the eviction on
/// their next poll.
pub proof fn lemma_reaper_evicts(
    before: ClientManager,
    after: ClientManager,
    removed: Seq<u64>,
    id: u64,
    now: u64,
    timeout: u64,
)
    requires
        before.wf(),
        after.sessions@ == active_sessions(before.sessions@, now, timeout),
        after.next_client_id == before.next_client_id,
        removed == inactive_ids(before.sessions@, now, timeout),
        before.has_session(id),
        is_inactive(before.session_at(id), now, timeout),
    ensures
        !after.has_session(id),
        removed.contains(id),
{
    lemma_reap_membership(before, after, id, now, timeout);
    let j = before.index_of(id);
    assert(0 <= j < before.sessions@.len() && before.sessions@[j].id == id);
    lemma_inactive_ids_contains(before.sessions@, now, timeout, j);
}

/// A fresh identifier is never already present: everything in the registry
/// is below the assignment counter, so an identifier, once removed, cannot
/// come back.
pub proof fn lemma_fresh_id(m: ClientManager)
    requires
        m.wf(),
    ensures
        !m.has_session(m.next_client_id),
{
    if m.has_session(m.next_client_id) {
        let i = choose|i: int|
            0 <= i < m.sessions@.len() && #[trigger] m.sessions@[i].id == m.next_client_id;
        assert(m.sessions@[i].id < m.next_client_id);
    }
}

} // verus!
