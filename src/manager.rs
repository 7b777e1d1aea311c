use vstd::prelude::*;

use crate::session::{Session, SlotConfig};

verus! {

/// Whether a table entry survives closing the sessions of slot `slot_id`.
pub open spec fn outside_slot(slot_id: u64) -> spec_fn((u64, Session)) -> bool {
    |e: (u64, Session)| e.1.slot_id != slot_id
}

/// The open sessions by handle, and the handle that the next one receives.
///
/// The table is a vector kept in increasing handle order: handles are given
/// in increasing order, so opening a session appends, and closing the
/// sessions of a slot is a walk whose result is the table filtered in order,
/// which a hash map's unspecified iteration order would not let a contract
/// state.
pub struct SessionManager {
    pub sessions: Vec<(u64, Session)>,
    pub next_session_handle: u64,
}

impl SessionManager {
    /// Handles increase strictly along the table and stay below the next one.
    pub open spec fn wf(&self) -> bool {
        &&& forall|i: int, j: int|
            0 <= i < j < self.sessions@.len() ==> #[trigger] self.sessions@[i].0
                < #[trigger] self.sessions@[j].0
        &&& forall|i: int|
            0 <= i < self.sessions@.len() ==> #[trigger] self.sessions@[i].0
                < self.next_session_handle
        &&& self.next_session_handle >= 1
    }

    pub open spec fn has(&self, handle: u64) -> bool {
        exists|i: int| 0 <= i < self.sessions@.len() && #[trigger] self.sessions@[i].0 == handle
    }

    /// The place of `handle` in the table, where it is open.
    pub open spec fn position(&self, handle: u64) -> int {
        choose|i: int| 0 <= i < self.sessions@.len() && #[trigger] self.sessions@[i].0 == handle
    }

    /// `after` is `self` with one more session, opened under `handle` on
    /// `slot_id`, and the counter moved past it.
    pub open spec fn created(&self, handle: u64, after: &SessionManager, slot_id: u64) -> bool {
        &&& handle == self.next_session_handle
        &&& after.next_session_handle == self.next_session_handle + 1
        &&& after.sessions@.len() == self.sessions@.len() + 1
        &&& after.sessions@.drop_last() == self.sessions@
        &&& after.sessions@.last().0 == handle
        &&& after.sessions@.last().1.slot_id == slot_id
        &&& forall|g: u64| #[trigger] after.has(g) <==> (self.has(g) || g == handle)
    }

    /// `after` is `self` without the session under `handle`.
    pub open spec fn deleted(&self, handle: u64, after: &SessionManager) -> bool {
        &&& self.has(handle)
        &&& after.next_session_handle == self.next_session_handle
        &&& after.sessions@ == self.sessions@.remove(self.position(handle))
    }

    /// `after` is `self` without the sessions of slot `slot_id`.
    pub open spec fn slot_closed(&self, slot_id: u64, after: &SessionManager) -> bool {
        &&& after.next_session_handle == self.next_session_handle
        &&& after.sessions@ == self.sessions@.filter(outside_slot(slot_id))
    }

    pub proof fn lemma_position(&self, handle: u64, i: int)
        requires
            self.wf(),
            0 <= i < self.sessions@.len(),
            self.sessions@[i].0 == handle,
        ensures
            self.has(handle),
            self.position(handle) == i,
    {
        let p = self.position(handle);
        assert(0 <= p < self.sessions@.len() && self.sessions@[p].0 == handle);
        if p < i {
            assert(self.sessions@[p].0 < self.sessions@[i].0);
        } else if i < p {
            assert(self.sessions@[i].0 < self.sessions@[p].0);
        }
    }

    pub fn new() -> (r: SessionManager)
        ensures
            r.wf(),
            r.sessions@.len() == 0,
            r.next_session_handle == 1,
    {
        SessionManager { sessions: Vec::new(), next_session_handle: 1 }
    }

    /// Opens a session on `slot_id` under a handle never given before.
    pub fn create_session(&mut self, slot_id: u64, slot: SlotConfig, flags: u64) -> (handle: u64)
        requires
            old(self).wf(),
            old(self).next_session_handle < u64::MAX,
        ensures
            final(self).wf(),
            old(self).created(handle, final(self), slot_id),
            !old(self).has(handle),
            final(self).sessions@.last().1.is_fresh(slot_id, slot, flags),
            final(self).sessions@.last().1.wf(),
    {
        let session = Session::new(slot_id, slot, flags);
        let handle = self.next_session_handle;
        self.sessions.push((handle, session));
        self.next_session_handle = handle + 1;
        assert(self.sessions@.drop_last() =~= old(self).sessions@);
        proof {
            let n = old(self).sessions@.len() as int;
            assert(self.sessions@.last().0 == handle);
            assert forall|g: u64| #[trigger] self.has(g) <==> (old(self).has(g) || g == handle) by {
                if self.has(g) {
                    let a = choose|a: int| 0 <= a < self.sessions@.len() && #[trigger] self.sessions@[a].0 == g;
                    if a < n {
                        assert(old(self).sessions@[a].0 == g);
                    }
                }
                if old(self).has(g) {
                    let a = choose|a: int| 0 <= a < n && #[trigger] old(self).sessions@[a].0 == g;
                    assert(self.sessions@[a].0 == g);
                }
                if g == handle {
                    assert(self.sessions@[n].0 == g);
                }
            }
        }
        handle
    }

    /// The session under `handle`, if it is open.
    pub fn get_session(&self, handle: u64) -> (r: Option<&Session>)
        requires
            self.wf(),
        ensures
            r is Some <==> self.has(handle),
            r is Some ==> *r.unwrap() == self.sessions@[self.position(handle)].1,
    {
        let mut i: usize = 0;
        while i < self.sessions.len()
            invariant
                0 <= i <= self.sessions.len(),
                self.wf(),
                forall|j: int| 0 <= j < i ==> (#[trigger] self.sessions@[j]).0 != handle,
            decreases self.sessions.len() - i,
        {
            if self.sessions[i].0 == handle {
                proof {
                    self.lemma_position(handle, i as int);
                }
                return Some(&self.sessions[i].1);
            }
            i += 1;
        }
        None
    }

    /// The session under `handle`, for change, if it is open.
    pub fn get_session_mut(&mut self, handle: u64) -> (r: Option<&mut Session>)
        requires
            old(self).wf(),
        ensures
            r is Some <==> old(self).has(handle),
            final(self).next_session_handle == old(self).next_session_handle,
            r is None ==> final(self).sessions@ == old(self).sessions@,
            r is Some ==> {
                &&& *r.unwrap() == old(self).sessions@[old(self).position(handle)].1
                &&& final(self).sessions@ == old(self).sessions@.update(
                    old(self).position(handle),
                    (handle, *final(r.unwrap())),
                )
            },
    {
        let mut i: usize = 0;
        while i < self.sessions.len()
            invariant
                0 <= i <= self.sessions.len(),
                *self == *old(self),
                old(self).wf(),
                forall|j: int| 0 <= j < i ==> (#[trigger] self.sessions@[j]).0 != handle,
            decreases self.sessions.len() - i,
        {
            if self.sessions[i].0 == handle {
                proof {
                    old(self).lemma_position(handle, i as int);
                }
                let entry = &mut self.sessions[i];
                return Some(&mut entry.1);
            }
            i += 1;
        }
        None
    }

    /// Removes the session under `handle` and hands it back with its handle.
    pub fn delete_session(&mut self, handle: u64) -> (r: Option<(u64, Session)>)
        requires
            old(self).wf(),
        ensures
            final(self).wf(),
            r is Some <==> old(self).has(handle),
            r is Some ==> old(self).deleted(handle, final(self)) && r.unwrap() == old(
                self,
            ).sessions@[old(self).position(handle)],
            r is None ==> *final(self) == *old(self),
            forall|g: u64| #[trigger] final(self).has(g) <==> (old(self).has(g) && g != handle),
    {
        let mut i: usize = 0;
        while i < self.sessions.len()
            invariant
                0 <= i <= self.sessions.len(),
                *self == *old(self),
                old(self).wf(),
                forall|j: int| 0 <= j < i ==> (#[trigger] self.sessions@[j]).0 != handle,
            decreases self.sessions.len() - i,
        {
            if self.sessions[i].0 == handle {
                proof {
                    old(self).lemma_position(handle, i as int);
                }
                let entry = self.sessions.remove(i);
                proof {
                    let s0 = old(self).sessions@;
                    assert forall|a: int, b: int|
                        0 <= a < b < self.sessions@.len() implies #[trigger] self.sessions@[a].0
                        < #[trigger] self.sessions@[b].0 by {
                        let oa = if a < i { a } else { a + 1 };
                        let ob = if b < i { b } else { b + 1 };
                        assert(self.sessions@[a] == s0[oa]);
                        assert(self.sessions@[b] == s0[ob]);
                        assert(s0[oa].0 < s0[ob].0);
                    }
                    assert forall|a: int| 0 <= a < self.sessions@.len() implies #[trigger] self.sessions@[a].0 != handle by {
                        let oa = if a < i { a } else { a + 1 };
                        assert(self.sessions@[a] == s0[oa]);
                        if oa < i {
                            assert(s0[oa].0 < s0[i as int].0);
                        } else {
                            assert(s0[i as int].0 < s0[oa].0);
                        }
                    }
                    assert(old(self).deleted(handle, self));
                    lemma_delete_removes_exactly(*old(self), handle, *self);
                }
                return Some(entry);
            }
            i += 1;
        }
        None
    }

    /// Closes every session of slot `slot_id`; the others stay as they are, in
    /// the same order.
    pub fn delete_all_slot_sessions(&mut self, slot_id: u64)
        requires
            old(self).wf(),
        ensures
            final(self).wf(),
            old(self).slot_closed(slot_id, final(self)),
            forall|h: u64| #[trigger]
                final(self).has(h) ==> old(self).has(h),
            forall|i: int|
                0 <= i < final(self).sessions@.len() ==> (#[trigger] final(self).sessions@[i]).1.slot_id
                    != slot_id,
    {
        let ghost s0 = self.sessions@;
        let ghost p = outside_slot(slot_id);
        let ghost mut j: int = 0;
        let mut i: usize = 0;
        proof {
            assert forall|a: int| 0 <= a < self.sessions@.len() implies s0.contains(
                #[trigger] self.sessions@[a],
            ) by {
                assert(self.sessions@[a] == s0[a]);
            }
            assert(self.sessions@.take(0) =~= s0.take(0).filter(p)) by {
                reveal(Seq::filter);
            }
            assert(self.sessions@.skip(0) =~= s0.skip(0));
        }
        while i < self.sessions.len()
            invariant
                0 <= i <= self.sessions.len(),
                0 <= j <= s0.len(),
                old(self).wf(),
                s0 == old(self).sessions@,
                p == outside_slot(slot_id),
                self.sessions@.take(i as int) == s0.take(j).filter(p),
                self.sessions@.skip(i as int) == s0.skip(j),
                self.next_session_handle == old(self).next_session_handle,
                forall|a: int|
                    0 <= a < self.sessions@.len() ==> s0.contains(#[trigger] self.sessions@[a]),
                forall|a: int, b: int|
                    0 <= a < b < self.sessions@.len() ==> #[trigger] self.sessions@[a].0
                        < #[trigger] self.sessions@[b].0,
                forall|a: int|
                    0 <= a < i ==> (#[trigger] self.sessions@[a]).1.slot_id != slot_id,
            decreases self.sessions.len() - i,
        {
            let ghost before = self.sessions@;
            proof {
                assert(before.skip(i as int).len() == s0.skip(j).len());
                assert(j < s0.len());
                assert(before[i as int] == s0[j]) by {
                    assert(before.skip(i as int)[0] == s0.skip(j)[0]);
                }
                assert(s0.take(j + 1).drop_last() =~= s0.take(j));
                reveal(Seq::filter);
            }
            if self.sessions[i].1.slot_id == slot_id {
                self.sessions.remove(i);
                proof {
                    assert(self.sessions@.take(i as int) =~= before.take(i as int));
                    assert(self.sessions@.skip(i as int) =~= s0.skip(j + 1)) by {
                        assert(s0.skip(j + 1) =~= s0.skip(j).skip(1));
                        assert(before.skip(i as int).skip(1) =~= before.skip(i + 1));
                    }
                    assert forall|a: int| 0 <= a < self.sessions@.len() implies s0.contains(
                        #[trigger] self.sessions@[a],
                    ) by {
                        let oa = if a < i { a } else { a + 1 };
                        assert(self.sessions@[a] == before[oa]);
                    }
                    assert forall|a: int, b: int|
                        0 <= a < b < self.sessions@.len() implies #[trigger] self.sessions@[a].0
                        < #[trigger] self.sessions@[b].0 by {
                        let oa = if a < i { a } else { a + 1 };
                        let ob = if b < i { b } else { b + 1 };
                        assert(self.sessions@[a] == before[oa]);
                        assert(self.sessions@[b] == before[ob]);
                    }
                }
            } else {
                i += 1;
                proof {
                    assert(self.sessions@.take(i as int) =~= before.take(i - 1).push(before[i - 1]));
                    assert(self.sessions@.skip(i as int) =~= s0.skip(j + 1)) by {
                        assert(s0.skip(j + 1) =~= s0.skip(j).skip(1));
                        assert(before.skip(i - 1).skip(1) =~= before.skip(i as int));
                    }
                }
            }
            proof {
                j = j + 1;
            }
        }
        proof {
            assert(s0.skip(j).len() == 0);
            assert(j == s0.len());
            assert(s0.take(j) =~= s0);
            assert(self.sessions@.take(i as int) =~= self.sessions@);
            assert forall|h: u64| #[trigger] self.has(h) implies old(self).has(h) by {
                let a = choose|a: int| 0 <= a < self.sessions@.len() && #[trigger] self.sessions@[a].0 == h;
                assert(s0.contains(self.sessions@[a]));
                let b = choose|b: int| 0 <= b < s0.len() && s0[b] == self.sessions@[a];
                assert(s0[b].0 == h);
            }
            assert forall|a: int| 0 <= a < self.sessions@.len() implies #[trigger] self.sessions@[a].0
                < self.next_session_handle by {
                assert(s0.contains(self.sessions@[a]));
                let b = choose|b: int| 0 <= b < s0.len() && s0[b] == self.sessions@[a];
                assert(s0[b].0 < old(self).next_session_handle);
            }
        }
    }
}

/// Dropping the elements that fail `p` and then those that fail `q` keeps the
/// same elements, in the same order, as doing it the other way round.
pub proof fn lemma_filter_commutes<A>(s: Seq<A>, p: spec_fn(A) -> bool, q: spec_fn(A) -> bool)
    ensures
        s.filter(p).filter(q) == s.filter(q).filter(p),
    decreases s.len(),
{
    reveal(Seq::filter);
    if s.len() > 0 {
        lemma_filter_commutes(s.drop_last(), p, q);
        let x = s.last();
        let fp = s.drop_last().filter(p);
        let fq = s.drop_last().filter(q);
        if p(x) {
            assert(fp.push(x).drop_last() =~= fp);
        }
        if q(x) {
            assert(fq.push(x).drop_last() =~= fq);
        }
    }
}

/// A session handle is never given twice: a handle given later, after any
/// changes that leave the counter where it was or move it on, is greater.
pub proof fn lemma_handles_increase(
    m0: SessionManager,
    h1: u64,
    m1: SessionManager,
    slot1: u64,
    m2: SessionManager,
    h2: u64,
    m3: SessionManager,
    slot2: u64,
)
    requires
        m0.wf(),
        m0.created(h1, &m1, slot1),
        m1.next_session_handle <= m2.next_session_handle,
        m2.created(h2, &m3, slot2),
    ensures
        h1 < h2,
        !m0.has(h1),
        forall|h: u64| m0.has(h) ==> h < h1,
{
    assert forall|h: u64| m0.has(h) implies h < h1 by {
        let i = choose|i: int| 0 <= i < m0.sessions@.len() && #[trigger] m0.sessions@[i].0 == h;
    }
}

/// A handle that is closed stays closed when another session is opened: the
/// new one gets a handle at or above the counter.
pub proof fn lemma_closed_stays_closed(
    m0: SessionManager,
    h: u64,
    h2: u64,
    m1: SessionManager,
    slot_id: u64,
)
    requires
        h < m0.next_session_handle,
        !m0.has(h),
        m0.created(h2, &m1, slot_id),
    ensures
        !m1.has(h),
        h < m1.next_session_handle,
{
}

/// Closing a session removes that session only: its handle is no longer
/// found, and every other handle is found exactly when it was before.
pub proof fn lemma_delete_removes_exactly(m0: SessionManager, h: u64, m1: SessionManager)
    requires
        m0.wf(),
        m0.deleted(h, &m1),
    ensures
        !m1.has(h),
        forall|g: u64| g != h ==> (m1.has(g) <==> m0.has(g)),
{
    let p = m0.position(h);
    let s0 = m0.sessions@;
    assert forall|a: int| 0 <= a < m1.sessions@.len() implies #[trigger] m1.sessions@[a].0 != h by {
        let oa = if a < p { a } else { a + 1 };
        assert(m1.sessions@[a] == s0[oa]);
        if oa < p {
            assert(s0[oa].0 < s0[p].0);
        } else {
            assert(s0[p].0 < s0[oa].0);
        }
    }
    assert forall|g: u64| g != h implies (m1.has(g) <==> m0.has(g)) by {
        if m1.has(g) {
            let a = choose|a: int| 0 <= a < m1.sessions@.len() && #[trigger] m1.sessions@[a].0 == g;
            let oa = if a < p { a } else { a + 1 };
            assert(m1.sessions@[a] == s0[oa]);
        }
        if m0.has(g) {
            let b = choose|b: int| 0 <= b < s0.len() && #[trigger] s0[b].0 == g;
            assert(b != p);
            let nb = if b < p { b } else { b - 1 };
            assert(m1.sessions@[nb] == s0[b]);
        }
    }
}

/// Closing the sessions of slot `s` keeps exactly the sessions of the other
/// slots, whatever was closed before.
pub proof fn lemma_slot_close_keeps_others(m0: SessionManager, s: u64, m1: SessionManager)
    requires
        m0.slot_closed(s, &m1),
    ensures
        forall|i: int|
            0 <= i < m1.sessions@.len() ==> (#[trigger] m1.sessions@[i]).1.slot_id != s,
        forall|i: int|
            0 <= i < m0.sessions@.len() && (#[trigger] m0.sessions@[i]).1.slot_id != s
                ==> m1.sessions@.contains(m0.sessions@[i]),
        forall|i: int|
            0 <= i < m1.sessions@.len() ==> m0.sessions@.contains(#[trigger] m1.sessions@[i]),
{
    let f = outside_slot(s);
    assert forall|i: int| 0 <= i < m1.sessions@.len() implies (#[trigger] m1.sessions@[i]).1.slot_id != s by {
        m0.sessions@.lemma_filter_pred(f, i);
    }
    assert forall|i: int| 0 <= i < m1.sessions@.len() implies m0.sessions@.contains(#[trigger] m1.sessions@[i]) by {
        assert(m1.sessions@[i] == m0.sessions@.filter(f)[i]);
        assert(m0.sessions@.filter(f).contains(m1.sessions@[i]));
        m0.sessions@.lemma_filter_contains_rev(f, m1.sessions@[i]);
    }
    assert forall|i: int|
        0 <= i < m0.sessions@.len() && (#[trigger] m0.sessions@[i]).1.slot_id != s implies m1.sessions@.contains(
        m0.sessions@[i],
    ) by {
        m0.sessions@.lemma_filter_contains(f, i);
    }
}

/// Closing the sessions of two slots leaves the same table in either order.
pub proof fn lemma_slot_close_order_free(
    m0: SessionManager,
    s: u64,
    t: u64,
    ms: SessionManager,
    mst: SessionManager,
    mt: SessionManager,
    mts: SessionManager,
)
    requires
        m0.slot_closed(s, &ms),
        ms.slot_closed(t, &mst),
        m0.slot_closed(t, &mt),
        mt.slot_closed(s, &mts),
    ensures
        mst.sessions@ == mts.sessions@,
        mst.next_session_handle == mts.next_session_handle,
{
    lemma_filter_commutes(m0.sessions@, outside_slot(s), outside_slot(t));
}

} // verus!
