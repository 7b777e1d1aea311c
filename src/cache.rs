use vstd::prelude::*;

verus! {

/// What the remote key service returns for one key.
pub struct KeyRecord {
    pub key_type: String,
    pub mechanisms: Vec<String>,
    pub public_data: Vec<u8>,
}

/// A key held in a session's cache: the remote id it was fetched under and
/// the record that came back.
pub struct KeyObject {
    pub id: String,
    pub record: KeyRecord,
}

pub struct CachedObject {
    pub handle: u64,
    pub object: KeyObject,
}

/// The objects that one session has fetched, in the order of insertion, each
/// under a handle that the cache never hands out twice.
pub struct ObjectCache {
    entries: Vec<CachedObject>,
    next_handle: u64,
}

impl View for ObjectCache {
    type V = Seq<(u64, Seq<char>, KeyRecord)>;

    closed spec fn view(&self) -> Self::V {
        self.entries@.map_values(
            |e: CachedObject| (e.handle, e.object.id@, e.object.record),
        )
    }
}

impl ObjectCache {
    /// The handle that the next insertion receives.
    pub closed spec fn next(&self) -> u64 {
        self.next_handle
    }

    /// Handles increase strictly along the cache and stay below the next one.
    /// So every handle in the cache names exactly one object.
    pub open spec fn wf(&self) -> bool {
        &&& forall|i: int, j: int|
            0 <= i < j < self@.len() ==> #[trigger] self@[i].0 < #[trigger] self@[j].0
        &&& forall|i: int| 0 <= i < self@.len() ==> #[trigger] self@[i].0 < self.next()
        &&& self.next() >= 1
    }

    /// `handle` names no object of the cache.
    pub open spec fn is_free(&self, handle: u64) -> bool {
        forall|i: int| 0 <= i < self@.len() ==> #[trigger] self@[i].0 != handle
    }

    pub open spec fn handle_seq(&self) -> Seq<u64> {
        self@.map_values(|e: (u64, Seq<char>, KeyRecord)| e.0)
    }

    pub open spec fn id_seq(&self) -> Seq<Seq<char>> {
        self@.map_values(|e: (u64, Seq<char>, KeyRecord)| e.1)
    }

    /// The handle that the next insertion receives names no object yet.
    pub proof fn lemma_next_is_free(&self)
        requires
            self.wf(),
        ensures
            self.is_free(self.next()),
    {
    }

    pub fn new() -> (r: Self)
        ensures
            r.wf(),
            r@.len() == 0,
            r.next() == 1,
    {
        ObjectCache { entries: Vec::new(), next_handle: 1 }
    }

    pub fn len(&self) -> (r: usize)
        ensures
            r == self@.len(),
    {
        self.entries.len()
    }

    /// Whether another object can still receive a fresh handle.
    pub fn has_room(&self) -> (r: bool)
        ensures
            r == (self.next() < u64::MAX),
    {
        self.next_handle < u64::MAX
    }

    /// Stores `object` under a fresh handle, after every object already held.
    pub fn add_object(&mut self, object: KeyObject) -> (h: u64)
        requires
            old(self).wf(),
            old(self).next() < u64::MAX,
        ensures
            final(self).wf(),
            h == old(self).next(),
            old(self).is_free(h),
            final(self).next() == old(self).next() + 1,
            final(self)@ == old(self)@.push((h, object.id@, object.record)),
    {
        let h = self.next_handle;
        let ghost id = object.id@;
        let ghost record = object.record;
        self.entries.push(CachedObject { handle: h, object });
        self.next_handle = h + 1;
        assert(self@ =~= old(self)@.push((h, id, record)));
        h
    }

    /// Drops every object; handles already given out are not given again.
    pub fn clear(&mut self)
        requires
            old(self).wf(),
        ensures
            final(self).wf(),
            final(self)@.len() == 0,
            final(self).next() == old(self).next(),
    {
        self.entries.clear();
    }

    /// The handles of all cached objects, in cache order.
    pub fn handles(&self) -> (r: Vec<u64>)
        ensures
            r@ == self.handle_seq(),
    {
        let mut r: Vec<u64> = Vec::new();
        let mut i: usize = 0;
        while i < self.entries.len()
            invariant
                0 <= i <= self.entries.len(),
                r@ == self.handle_seq().take(i as int),
            decreases self.entries.len() - i,
        {
            r.push(self.entries[i].handle);
            i += 1;
            assert(r@ =~= self.handle_seq().take(i as int));
        }
        assert(r@ =~= self.handle_seq());
        r
    }

    /// The object stored under `handle`, if any.
    pub fn get(&self, handle: u64) -> (r: Option<&KeyObject>)
        requires
            self.wf(),
        ensures
            r is None ==> forall|i: int| 0 <= i < self@.len() ==> (#[trigger] self@[i]).0 != handle,
            r is Some ==> exists|i: int|
                0 <= i < self@.len() && (#[trigger] self@[i]).0 == handle && self@[i].1
                    == r->0.id@ && self@[i].2 == r->0.record,
    {
        let mut i: usize = 0;
        while i < self.entries.len()
            invariant
                0 <= i <= self.entries.len(),
                forall|j: int| 0 <= j < i ==> (#[trigger] self@[j]).0 != handle,
            decreases self.entries.len() - i,
        {
            if self.entries[i].handle == handle {
                assert(self@[i as int].0 == handle);
                return Some(&self.entries[i].object);
            }
            i += 1;
        }
        None
    }
}

} // verus!
