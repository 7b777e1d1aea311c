use vstd::prelude::*;

use crate::attr::{
    bytes_view, find_key_id, is_filter_kind, key_filter, lemma_undecodable_rejected, template_view,
    value_text, RawAttr, ATTR_ID,
};
use crate::cache::{KeyObject, KeyRecord, ObjectCache};
use crate::error::SessionError;

verus! {

/// The state of a freshly opened session (`CKS_RO_PUBLIC_SESSION`).
pub const STATE_RO_PUBLIC: u64 = 0;

/// The device-error code of a session on which nothing has failed (`CKR_OK`).
pub const NO_DEVICE_ERROR: u64 = 0;

/// How a session reaches the remote key service of its slot. The session
/// only carries it and hands it back.
pub struct SlotConfig {
    pub label: String,
    pub api_url: String,
}

/// The record reported by a session-info query.
pub struct SessionInfo {
    pub slot_id: u64,
    pub state: u64,
    pub flags: u64,
    pub device_error: u64,
}

pub struct SignCtx {}

pub struct EncryptCtx {}

pub struct DecryptCtx {}

/// The result of the last search: object handles, in order.
pub struct EnumCtx {
    pub handles: Vec<u64>,
}

/// What a search asks of its driver next.
pub enum SearchAction {
    /// The search is over, with this outcome.
    Finished(Result<(), SessionError>),
    /// List the keys of the remote key service and hand back the reply.
    ListKeys,
    /// Get the key with this id and hand back the reply.
    FetchKey(String),
}

/// What the remote key service answered.
pub enum RemoteReply {
    /// The ids of all keys, in the service's order.
    KeyList(Vec<String>),
    /// The record of the requested key.
    Key(KeyRecord),
    /// The request failed.
    Failed,
}

/// A search that waits for the remote key service.
pub enum PendingSearch {
    Single(String),
    Listing,
    Full(Vec<String>, Vec<u64>),
}

/// Where a search stands between two remote requests.
pub ghost enum SearchStage {
    Idle,
    /// Waiting for the key with this id.
    Single(Seq<char>),
    /// Waiting for the list of keys; the cache has been cleared.
    Listing,
    /// Fetching all listed keys: the ids listed and the handles of the keys
    /// fetched so far; the next request is for the id after those.
    Full(Seq<Seq<char>>, Seq<u64>),
}

pub open spec fn strings_view(v: Seq<String>) -> Seq<Seq<char>> {
    v.map_values(|s: String| s@)
}

pub open spec fn fetch_target(a: SearchAction) -> Option<Seq<char>> {
    match a {
        SearchAction::FetchKey(id) => Some(id@),
        _ => None,
    }
}

/// `enum_init` on session `o` with `template` gave `r` and left `n`.
pub open spec fn init_step(o: Session, template: Option<Seq<RawAttr>>, r: SearchAction, n: Session) -> bool {
    &&& (n.wf())
    &&& (n.same_settings(&o))
    &&& (o.search_active() ==> r == SearchAction::Finished(
        Err(SessionError::OperationActive),
    ) && n == o)
    &&& (!o.search_active() ==> match key_filter(template) {
        Err(e) => r == SearchAction::Finished(Err(e)) && n == o,
        Ok(Some(id)) => {
            &&& fetch_target(r) == Some(id)
            &&& n.stage() == SearchStage::Single(id)
            &&& n.db == o.db
            &&& n.enum_ctx is None
            &&& n.fetched_all_keys == o.fetched_all_keys
        },
        Ok(None) => if o.fetched_all_keys {
            &&& r == SearchAction::Finished(Ok(()))
            &&& n.ctx_handles() == Some(o.db.handle_seq())
            &&& n.db == o.db
            &&& n.stage() is Idle
            &&& n.fetched_all_keys
        } else {
            &&& r == SearchAction::ListKeys
            &&& n.stage() is Listing
            &&& n.db@.len() == 0
            &&& n.db.next() == o.db.next()
            &&& n.enum_ctx is None
            &&& !n.fetched_all_keys
        },
    })
}

/// `handle_reply` on session `o` with `reply` gave `r` and left `n`.
pub open spec fn reply_step(o: Session, reply: RemoteReply, r: SearchAction, n: Session) -> bool {
    &&& (n.wf())
    &&& (n.same_settings(&o))
    &&& (r is ListKeys ==> false)
    &&& (r is Finished ==> n.stage() is Idle)
    &&& (r == SearchAction::Finished(Err(SessionError::DeviceError)) ==> {
        &&& n.db == o.db
        &&& n.enum_ctx == o.enum_ctx
        &&& n.fetched_all_keys == o.fetched_all_keys
    })
    &&& (match o.stage() {
        SearchStage::Single(id) => match reply {
            RemoteReply::Key(record) => {
                &&& r == SearchAction::Finished(Ok(()))
                &&& o.db.is_free(o.db.next())
                &&& n.db@ == o.db@.push((o.db.next(), id, record))
                &&& n.db.next() == o.db.next() + 1
                &&& n.ctx_handles() == Some(seq![o.db.next()])
                &&& n.fetched_all_keys == o.fetched_all_keys
            },
            _ => r == SearchAction::Finished(Err(SessionError::DeviceError)),
        },
        SearchStage::Listing => match reply {
            RemoteReply::KeyList(ids) => if ids.len() == 0 {
                &&& r == SearchAction::Finished(Ok(()))
                &&& n.ctx_handles() == Some(Seq::<u64>::empty())
                &&& n.db == o.db
                &&& n.fetched_all_keys
            } else {
                &&& fetch_target(r) == Some(ids@[0]@)
                &&& n.stage() == SearchStage::Full(
                    strings_view(ids@),
                    Seq::empty(),
                )
                &&& n.db == o.db
                &&& n.enum_ctx == o.enum_ctx
                &&& n.fetched_all_keys == o.fetched_all_keys
            },
            _ => r == SearchAction::Finished(Err(SessionError::DeviceError)),
        },
        SearchStage::Full(ids, hs) => match reply {
            RemoteReply::Key(record) => {
                &&& o.db.is_free(o.db.next())
                &&& n.db@ == o.db@.push(
                    (o.db.next(), ids[hs.len() as int], record),
                )
                &&& n.db.next() == o.db.next() + 1
                &&& if hs.len() + 1 == ids.len() {
                    &&& r == SearchAction::Finished(Ok(()))
                    &&& n.ctx_handles() == Some(hs.push(o.db.next()))
                    &&& n.ctx_handles() == Some(n.db.handle_seq())
                    &&& n.db.id_seq() == ids
                    &&& n.fetched_all_keys
                } else {
                    &&& fetch_target(r) == Some(ids[hs.len() as int + 1])
                    &&& n.stage() == SearchStage::Full(
                        ids,
                        hs.push(o.db.next()),
                    )
                    &&& n.enum_ctx == o.enum_ctx
                    &&& n.fetched_all_keys == o.fetched_all_keys
                }
            },
            _ => r == SearchAction::Finished(Err(SessionError::DeviceError)),
        },
        SearchStage::Idle => false,
    })
}

/// One caller connection to one slot, with its own object cache.
pub struct Session {
    pub slot_id: u64,
    pub slot: SlotConfig,
    pub flags: u64,
    pub state: u64,
    pub device_error: u64,
    pub fetched_all_keys: bool,
    pub db: ObjectCache,
    pub search: Option<PendingSearch>,
    pub sign_ctx: Option<SignCtx>,
    pub encrypt_ctx: Option<EncryptCtx>,
    pub decrypt_ctx: Option<DecryptCtx>,
    pub enum_ctx: Option<EnumCtx>,
}

impl Session {
    pub open spec fn slot_config(&self) -> SlotConfig {
        self.slot
    }

    pub open spec fn cache(&self) -> ObjectCache {
        self.db
    }

    pub open spec fn stage(&self) -> SearchStage {
        match self.search {
            None => SearchStage::Idle,
            Some(PendingSearch::Single(id)) => SearchStage::Single(id@),
            Some(PendingSearch::Listing) => SearchStage::Listing,
            Some(PendingSearch::Full(ids, hs)) => SearchStage::Full(strings_view(ids@), hs@),
        }
    }

    /// The handles of the search context, if there is one.
    pub open spec fn ctx_handles(&self) -> Option<Seq<u64>> {
        match self.enum_ctx {
            Some(c) => Some(c.handles@),
            None => None,
        }
    }

    /// A search is under way or its result has not been taken yet.
    pub open spec fn search_active(&self) -> bool {
        self.enum_ctx is Some || !(self.stage() is Idle)
    }

    /// The fields that a search leaves alone.
    pub open spec fn same_settings(&self, o: &Session) -> bool {
        &&& self.slot_id == o.slot_id
        &&& self.slot_config() == o.slot_config()
        &&& self.flags == o.flags
        &&& self.state == o.state
        &&& self.device_error == o.device_error
        &&& self.sign_ctx == o.sign_ctx
        &&& self.encrypt_ctx == o.encrypt_ctx
        &&& self.decrypt_ctx == o.decrypt_ctx
    }

    /// The cache is well formed; while all keys are being fetched, it holds
    /// exactly the keys fetched so far, in the order listed.
    pub open spec fn wf(&self) -> bool {
        &&& self.db.wf()
        &&& match self.stage() {
            SearchStage::Listing => self.db@.len() == 0,
            SearchStage::Full(ids, hs) => {
                &&& hs.len() < ids.len()
                &&& self.db.handle_seq() == hs
                &&& self.db.id_seq() == ids.take(hs.len() as int)
            },
            _ => true,
        }
    }

    /// A session just opened on `slot_id`: read-only public state, no device
    /// error, an empty cache whose first handle is 1, no search and no
    /// operation under way.
    pub open spec fn is_fresh(&self, slot_id: u64, slot: SlotConfig, flags: u64) -> bool {
        &&& self.slot_id == slot_id
        &&& self.slot_config() == slot
        &&& self.flags == flags
        &&& self.state == STATE_RO_PUBLIC
        &&& self.device_error == NO_DEVICE_ERROR
        &&& !self.fetched_all_keys
        &&& self.cache()@.len() == 0
        &&& self.cache().next() == 1
        &&& self.stage() is Idle
        &&& self.sign_ctx is None
        &&& self.encrypt_ctx is None
        &&& self.decrypt_ctx is None
        &&& self.enum_ctx is None
    }

    pub fn new(slot_id: u64, slot: SlotConfig, flags: u64) -> (r: Session)
        ensures
            r.wf(),
            r.is_fresh(slot_id, slot, flags),
    {
        Session {
            slot,
            slot_id,
            flags,
            state: STATE_RO_PUBLIC,
            fetched_all_keys: false,
            db: ObjectCache::new(),
            search: None,
            device_error: NO_DEVICE_ERROR,
            sign_ctx: None,
            encrypt_ctx: None,
            decrypt_ctx: None,
            enum_ctx: None,
        }
    }

    pub fn get_ck_info(&self) -> (r: SessionInfo)
        ensures
            r.slot_id == self.slot_id,
            r.state == self.state,
            r.flags == self.flags,
            r.device_error == self.device_error,
    {
        SessionInfo {
            slot_id: self.slot_id,
            state: self.state,
            flags: self.flags,
            device_error: self.device_error,
        }
    }

    /// The slot configuration given when the session was opened.
    pub fn slot(&self) -> (r: &SlotConfig)
        ensures
            *r == self.slot_config(),
    {
        &self.slot
    }

    /// The session's object cache.
    pub fn db(&self) -> (r: &ObjectCache)
        ensures
            *r == self.cache(),
    {
        &self.db
    }

    /// Whether a search waits for a reply of the remote key service.
    pub fn search_pending(&self) -> (r: bool)
        ensures
            r == !(self.stage() is Idle),
    {
        self.search.is_some()
    }

    /// Whether the cache can take one more object.
    pub fn can_store_object(&self) -> (r: bool)
        ensures
            r == (self.cache().next() < u64::MAX),
    {
        self.db.has_room()
    }
    /// Starts a search for the objects that `template` selects. Without a
    /// filter and with a complete cache, the search ends at once on the cached
    /// handles; otherwise it asks for a remote request, whose reply goes to
    /// `handle_reply`.
    pub fn enum_init(&mut self, template: Option<&Vec<RawAttr>>) -> (r: SearchAction)
        requires
            old(self).wf(),
        ensures
            init_step(*old(self), template_view(template), r, *final(self)),
    {
        if self.enum_ctx.is_some() || self.search.is_some() {
            return SearchAction::Finished(Err(SessionError::OperationActive));
        }
        let key_id = match find_key_id(template) {
            Ok(key_id) => key_id,
            Err(err) => {
                return SearchAction::Finished(Err(err));
            },
        };
        match key_id {
            Some(id) => {
                let target = id.clone();
                self.search = Some(PendingSearch::Single(id));
                SearchAction::FetchKey(target)
            },
            None => {
                if self.fetched_all_keys {
                    let handles = self.db.handles();
                    self.enum_ctx = Some(EnumCtx { handles });
                    SearchAction::Finished(Ok(()))
                } else {
                    // a full fetch fills the cache anew: no key may be held twice
                    self.db.clear();
                    self.search = Some(PendingSearch::Listing);
                    SearchAction::ListKeys
                }
            },
        }
    }

    /// Takes the reply to the request that the pending search asked for and
    /// says what to do next. Any failure, or a reply of another kind than the
    /// one asked for, ends the search with a device error and no context;
    /// keys stored before it stay in the cache.
    pub fn handle_reply(&mut self, reply: RemoteReply) -> (r: SearchAction)
        requires
            old(self).wf(),
            !(old(self).stage() is Idle),
            old(self).db.next() < u64::MAX,
        ensures
            reply_step(*old(self), reply, r, *final(self)),
    {
        let pending = self.search.take();
        match pending {
            // excluded by the precondition: a search is pending
            None => SearchAction::Finished(Err(SessionError::DeviceError)),
            Some(PendingSearch::Single(id)) => match reply {
                RemoteReply::Key(record) => {
                    let h = self.fetch_key(id, record);
                    let mut handles: Vec<u64> = Vec::new();
                    handles.push(h);
                    self.enum_ctx = Some(EnumCtx { handles });
                    SearchAction::Finished(Ok(()))
                },
                _ => SearchAction::Finished(Err(SessionError::DeviceError)),
            },
            Some(PendingSearch::Listing) => match reply {
                RemoteReply::KeyList(ids) => {
                    if ids.len() == 0 {
                        self.enum_ctx = Some(EnumCtx { handles: Vec::new() });
                        self.fetched_all_keys = true;
                        SearchAction::Finished(Ok(()))
                    } else {
                        let first = ids[0].clone();
                        proof {
                            assert(self.db.handle_seq() =~= Seq::<u64>::empty());
                            assert(self.db.id_seq() =~= strings_view(ids@).take(0));
                        }
                        self.search = Some(PendingSearch::Full(ids, Vec::new()));
                        SearchAction::FetchKey(first)
                    }
                },
                _ => SearchAction::Finished(Err(SessionError::DeviceError)),
            },
            Some(PendingSearch::Full(ids, hs)) => match reply {
                RemoteReply::Key(record) => self.fetch_all_keys(ids, hs, record),
                _ => SearchAction::Finished(Err(SessionError::DeviceError)),
            },
        }
    }

    /// Stores the key fetched under `id` as a new object and returns its handle.
    fn fetch_key(&mut self, id: String, record: KeyRecord) -> (h: u64)
        requires
            old(self).db.wf(),
            old(self).db.next() < u64::MAX,
        ensures
            final(self).db.wf(),
            h == old(self).db.next(),
            old(self).db.is_free(h),
            final(self).db.next() == old(self).db.next() + 1,
            final(self).db@ == old(self).db@.push((h, id@, record)),
            final(self).slot == old(self).slot,
            final(self).search == old(self).search,
            final(self).enum_ctx == old(self).enum_ctx,
            final(self).fetched_all_keys == old(self).fetched_all_keys,
            final(self).same_settings(old(self)),
    {
        self.db.add_object(KeyObject { id, record })
    }

    /// One step of a full fetch: stores the key for the next listed id, then
    /// asks for the one after it or ends the search on all fetched handles.
    fn fetch_all_keys(&mut self, ids: Vec<String>, hs: Vec<u64>, record: KeyRecord) -> (r: SearchAction)
        requires
            old(self).db.wf(),
            old(self).db.next() < u64::MAX,
            old(self).search is None,
            hs.len() < ids.len(),
            old(self).db.handle_seq() == hs@,
            old(self).db.id_seq() == strings_view(ids@).take(hs.len() as int),
        ensures
            final(self).wf(),
            final(self).same_settings(old(self)),
            old(self).db.is_free(old(self).db.next()),
            final(self).db@ == old(self).db@.push(
                (old(self).db.next(), ids@[hs.len() as int]@, record),
            ),
            final(self).db.next() == old(self).db.next() + 1,
            if hs.len() + 1 == ids.len() {
                &&& r == SearchAction::Finished(Ok(()))
                &&& final(self).stage() is Idle
                &&& final(self).ctx_handles() == Some(hs@.push(old(self).db.next()))
                &&& final(self).ctx_handles() == Some(final(self).db.handle_seq())
                &&& final(self).db.id_seq() == strings_view(ids@)
                &&& final(self).fetched_all_keys
            } else {
                &&& fetch_target(r) == Some(ids@[hs.len() + 1]@)
                &&& final(self).stage() == SearchStage::Full(
                    strings_view(ids@),
                    hs@.push(old(self).db.next()),
                )
                &&& final(self).enum_ctx == old(self).enum_ctx
                &&& final(self).fetched_all_keys == old(self).fetched_all_keys
            },
    {
        let mut hs = hs;
        let k = hs.len();
        let id = ids[k].clone();
        let h = self.fetch_key(id, record);
        hs.push(h);
        proof {
            let old_db = old(self).db;
            assert(self.db.handle_seq() =~= old_db.handle_seq().push(h));
            assert(self.db.id_seq() =~= old_db.id_seq().push(ids@[k as int]@));
            assert(strings_view(ids@).take(k + 1) =~= strings_view(ids@).take(k as int).push(
                ids@[k as int]@,
            ));
        }
        if k + 1 == ids.len() {
            proof {
                assert(strings_view(ids@).take(ids.len() as int) =~= strings_view(ids@));
            }
            self.enum_ctx = Some(EnumCtx { handles: hs });
            self.fetched_all_keys = true;
            SearchAction::Finished(Ok(()))
        } else {
            let next = ids[k + 1].clone();
            self.search = Some(PendingSearch::Full(ids, hs));
            SearchAction::FetchKey(next)
        }
    }
}

/// A search by key id whose key the remote service returns ends with exactly
/// one handle, new to the cache, naming the object built from that key; the
/// only request made is for that id.
pub proof fn lemma_search_by_id_found(
    s0: Session,
    template: Seq<RawAttr>,
    id: Seq<char>,
    r0: SearchAction,
    s1: Session,
    record: KeyRecord,
    r1: SearchAction,
    s2: Session,
)
    requires
        !s0.search_active(),
        key_filter(Some(template)) == Ok::<Option<Seq<char>>, SessionError>(Some(id)),
        init_step(s0, Some(template), r0, s1),
        reply_step(s1, RemoteReply::Key(record), r1, s2),
    ensures
        fetch_target(r0) == Some(id),
        r1 == SearchAction::Finished(Ok(())),
        s0.db.is_free(s0.db.next()),
        s2.ctx_handles() == Some(seq![s0.db.next()]),
        s2.db@ == s0.db@.push((s0.db.next(), id, record)),
        s2.fetched_all_keys == s0.fetched_all_keys,
{
}

/// A search by key id whose request fails ends with a device error, no
/// search context, and the cache as it was.
pub proof fn lemma_search_by_id_failed(
    s0: Session,
    template: Seq<RawAttr>,
    id: Seq<char>,
    r0: SearchAction,
    s1: Session,
    reply: RemoteReply,
    r1: SearchAction,
    s2: Session,
)
    requires
        !s0.search_active(),
        key_filter(Some(template)) == Ok::<Option<Seq<char>>, SessionError>(Some(id)),
        init_step(s0, Some(template), r0, s1),
        !(reply is Key),
        reply_step(s1, reply, r1, s2),
    ensures
        fetch_target(r0) == Some(id),
        r1 == SearchAction::Finished(Err(SessionError::DeviceError)),
        s2.enum_ctx is None,
        s2.db == s0.db,
        s2.fetched_all_keys == s0.fetched_all_keys,
        !s2.search_active(),
{
}

/// Once the cache is complete, a search without filter makes no request and
/// gives the cached handles, in cache order, leaving the cache as it is.
pub proof fn lemma_complete_cache_reused(s0: Session, r: SearchAction, s1: Session)
    requires
        !s0.search_active(),
        s0.fetched_all_keys,
        init_step(s0, None, r, s1),
    ensures
        r == SearchAction::Finished(Ok(())),
        s1.ctx_handles() == Some(s0.db.handle_seq()),
        s1.db == s0.db,
        s1.fetched_all_keys,
{
}

/// The last key of a full fetch ends the search on the handles of all
/// fetched keys, which are the whole cache, held under the listed ids in the
/// listed order, and marks the cache complete.
pub proof fn lemma_full_fetch_completes(
    s0: Session,
    ids: Seq<Seq<char>>,
    hs: Seq<u64>,
    record: KeyRecord,
    r: SearchAction,
    s1: Session,
)
    requires
        s0.wf(),
        s0.stage() == SearchStage::Full(ids, hs),
        hs.len() + 1 == ids.len(),
        reply_step(s0, RemoteReply::Key(record), r, s1),
    ensures
        r == SearchAction::Finished(Ok(())),
        s1.ctx_handles() == Some(s1.db.handle_seq()),
        s1.db.id_seq() == ids,
        s1.db.wf(),
        s1.fetched_all_keys,
{
}

/// A second search on a session whose first search is under way or still
/// holds its result is refused, and the session is left as it was.
pub proof fn lemma_second_search_refused(
    s0: Session,
    template: Option<Seq<RawAttr>>,
    r: SearchAction,
    s1: Session,
)
    requires
        s0.search_active(),
        init_step(s0, template, r, s1),
    ensures
        r == SearchAction::Finished(Err(SessionError::OperationActive)),
        s1 == s0,
{
}

/// A search whose template holds an ID or LABEL entry, reached by the scan,
/// whose value is absent or not text is refused as invalid, with no request
/// and no change to the session.
pub proof fn lemma_undecodable_search_refused(
    s0: Session,
    template: Seq<RawAttr>,
    i: int,
    r: SearchAction,
    s1: Session,
)
    requires
        !s0.search_active(),
        0 <= i < template.len(),
        is_filter_kind(template[i].kind),
        value_text(bytes_view(template[i].value)) is None,
        forall|m: int| 0 <= m < i ==> (#[trigger] template[m]).kind != ATTR_ID,
        init_step(s0, Some(template), r, s1),
    ensures
        r == SearchAction::Finished(Err(SessionError::ArgumentsInvalid)),
        s1 == s0,
{
    lemma_undecodable_rejected(template, i);
}

} // verus!
