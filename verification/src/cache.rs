//! The request cache: a map from upload identifier to in-flight upload state.
//!
//! Entries carry a version stamp so that callers holding a snapshot can apply
//! a compare-and-update instead of a racy read-then-save; the surrounding
//! system serialises access to the cache itself (one lock around the whole
//! structure suffices), and per-identifier read-modify-write cycles go through
//! `compare_and_update` or happen within one `&mut` borrow.

use vstd::prelude::*;
use vstd::slice::slice_to_vec;

use crate::assoc::{
    assoc_map, find_index, lemma_assoc_map_absent, lemma_assoc_map_index, lemma_assoc_map_len,
    lemma_assoc_map_push, lemma_assoc_map_remove, lemma_assoc_map_update, unique_keys,
};

verus! {

/// The state of one in-progress upload.
pub struct Request {
    /// The server-generated upload identifier.
    pub uuid: String,
    /// The most recently accepted chunk index.
    pub chunk_num: u32,
    /// The fixed payload length of every chunk of this upload.
    pub chunk_length: u32,
    /// The number of distinct chunks the upload consists of.
    pub chunk_amount: u32,
    /// The distinct chunk indices received so far.
    pub chunk_pos: Vec<u32>,
    /// The client-supplied target file name.
    pub file_name: String,
    /// The derived target file path.
    pub file_path: String,
}

/// The mathematical view of an upload state.
pub struct RequestView {
    pub uuid: Seq<char>,
    pub chunk_num: u32,
    pub chunk_length: u32,
    pub chunk_amount: u32,
    pub chunk_pos: Seq<u32>,
    pub file_name: Seq<char>,
    pub file_path: Seq<char>,
}

impl View for Request {
    type V = RequestView;

    open spec fn view(&self) -> RequestView {
        RequestView {
            uuid: self.uuid@,
            chunk_num: self.chunk_num,
            chunk_length: self.chunk_length,
            chunk_amount: self.chunk_amount,
            chunk_pos: self.chunk_pos@,
            file_name: self.file_name@,
            file_path: self.file_path@,
        }
    }
}

/// Well-formedness of an upload state: the received chunk indices are
/// distinct — duplicates must not advance completion — and each lies below
/// the expected chunk count.
pub open spec fn req_wf(r: RequestView) -> bool {
    &&& forall|i: int, j: int|
        0 <= i < j < r.chunk_pos.len() ==> r.chunk_pos[i] != r.chunk_pos[j]
    &&& forall|i: int| 0 <= i < r.chunk_pos.len() ==> r.chunk_pos[i] < r.chunk_amount
}

impl Clone for Request {
    /// An equal-view copy of the upload state.
    fn clone(&self) -> (r: Self)
        ensures
            r@ == self@,
    {
        Request {
            uuid: self.uuid.clone(),
            chunk_num: self.chunk_num,
            chunk_length: self.chunk_length,
            chunk_amount: self.chunk_amount,
            chunk_pos: slice_to_vec(self.chunk_pos.as_slice()),
            file_name: self.file_name.clone(),
            file_path: self.file_path.clone(),
        }
    }
}

impl Request {
    /// Whether every expected chunk has been received: the received set's
    /// size equals the expected chunk count.
    pub fn is_last_request(&self) -> (r: bool)
        ensures
            r == (self@.chunk_pos.len() == self@.chunk_amount),
    {
        self.chunk_pos.len() == self.chunk_amount as usize
    }

    /// Whether chunk index `n` has already been received.
    pub fn has_chunk(&self, n: u32) -> (r: bool)
        ensures
            r == self@.chunk_pos.contains(n),
    {
        let mut i: usize = 0;
        while i < self.chunk_pos.len()
            invariant
                i <= self@.chunk_pos.len(),
                forall|j: int| 0 <= j < i ==> self@.chunk_pos[j] != n,
            decreases self@.chunk_pos.len() - i,
        {
            if self.chunk_pos[i] == n {
                assert(self@.chunk_pos.contains(n));
                return true;
            }
            i = i + 1;
        }
        false
    }
}

/// The version stamp after one more mutation of a slot.
pub open spec fn next_version(v: u64) -> u64 {
    if v == u64::MAX {
        0
    } else {
        (v + 1) as u64
    }
}

/// One cache slot: the upload state with its version stamp.
pub struct CacheEntry {
    /// Bumped on every mutation of this slot.
    pub version: u64,
    /// The upload state held in this slot.
    pub request: Request,
}

/// The mathematical view of a cache slot.
pub struct CacheEntryView {
    pub version: u64,
    pub request: RequestView,
}

impl View for CacheEntry {
    type V = CacheEntryView;

    open spec fn view(&self) -> CacheEntryView {
        CacheEntryView { version: self.version, request: self.request@ }
    }
}

/// The concurrent request cache: at most one upload state per identifier.
pub struct AppCache {
    requests: Vec<(String, CacheEntry)>,
}

impl View for AppCache {
    type V = Map<Seq<char>, CacheEntryView>;

    closed spec fn view(&self) -> Map<Seq<char>, CacheEntryView> {
        assoc_map(self.requests@)
    }
}

impl AppCache {
    /// Well-formedness: one slot per identifier, each slot's state naming
    /// exactly the identifier it is filed under, each state well formed.
    pub closed spec fn inv(&self) -> bool {
        &&& unique_keys(self.requests@)
        &&& forall|i: int|
            0 <= i < self.requests@.len() ==> (#[trigger] self.requests@[i]).1@.request.uuid
                == self.requests@[i].0@
        &&& forall|i: int|
            0 <= i < self.requests@.len() ==> req_wf((#[trigger] self.requests@[i]).1@.request)
    }

    /// Every cached state is filed under its own identifier and well formed.
    pub proof fn lemma_inv_entry(&self, uuid: Seq<char>)
        requires
            self.inv(),
            self@.contains_key(uuid),
        ensures
            self@[uuid].request.uuid == uuid,
            req_wf(self@[uuid].request),
    {
        let s = self.requests@;
        if forall|i: int| 0 <= i < s.len() ==> (#[trigger] s[i]).0@ != uuid {
            lemma_assoc_map_absent(s, uuid);
        }
        assert(exists|i: int| 0 <= i < s.len() && (#[trigger] s[i]).0@ == uuid);
        let i = choose|i: int| 0 <= i < s.len() && (#[trigger] s[i]).0@ == uuid;
        lemma_assoc_map_index(s, i);
    }

    /// The cache holds finitely many uploads, so counts taken from
    /// `active_requests` compose with the insert/remove contracts of the
    /// mutating operations.
    pub proof fn lemma_finite(&self)
        requires
            self.inv(),
        ensures
            self@.dom().finite(),
    {
        lemma_assoc_map_len(self.requests@);
    }

    /// An empty cache.
    pub fn new() -> (r: Self)
        ensures
            r.inv(),
            r@ == Map::<Seq<char>, CacheEntryView>::empty(),
    {
        AppCache { requests: Vec::new() }
    }

    /// Stores `request` under `uuid`, replacing any state already there; a
    /// replaced slot's version is bumped, a fresh slot starts at version 0.
    pub fn save_request(&mut self, uuid: String, request: Request)
        requires
            old(self).inv(),
            request@.uuid == uuid@,
            req_wf(request@),
        ensures
            final(self).inv(),
            final(self)@ == old(self)@.insert(
                uuid@,
                CacheEntryView {
                    version: if old(self)@.contains_key(uuid@) {
                        next_version(old(self)@[uuid@].version)
                    } else {
                        0u64
                    },
                    request: request@,
                },
            ),
    {
        match find_index(&self.requests, &uuid) {
            Some(i) => {
                proof {
                    lemma_assoc_map_index(self.requests@, i as int);
                }
                let ghost pre = self.requests@;
                let v = self.requests[i].1.version;
                let nv = if v == u64::MAX { 0 } else { v + 1 };
                let newentry = CacheEntry { version: nv, request };
                let ghost gentry = newentry;
                let slot = &mut self.requests[i];
                slot.1 = newentry;
                proof {
                    assert(self.requests@ == pre.update(i as int, (pre[i as int].0, gentry)));
                    lemma_assoc_map_update(pre, i as int, gentry);
                }
            },
            None => {
                let ghost pre = self.requests@;
                let newentry = CacheEntry { version: 0, request };
                let ghost gentry = newentry;
                self.requests.push((uuid, newentry));
                proof {
                    lemma_assoc_map_absent(pre, self.requests@.last().0@);
                    lemma_assoc_map_push(pre, self.requests@.last().0, gentry);
                }
            },
        }
    }

    /// A snapshot of the state stored under `uuid`, if one is stored.
    pub fn get_request(&self, uuid: &String) -> (r: Option<Request>)
        requires
            self.inv(),
        ensures
            r is Some <==> self@.contains_key(uuid@),
            r matches Some(req) ==> req@ == self@[uuid@].request,
    {
        match find_index(&self.requests, uuid) {
            Some(i) => {
                proof {
                    lemma_assoc_map_index(self.requests@, i as int);
                }
                Some(self.requests[i].1.request.clone())
            },
            None => {
                proof {
                    lemma_assoc_map_absent(self.requests@, uuid@);
                }
                None
            },
        }
    }

    /// A snapshot of the state stored under `uuid` with its version stamp,
    /// for a later `compare_and_update`.
    pub fn get_versioned(&self, uuid: &String) -> (r: Option<(u64, Request)>)
        requires
            self.inv(),
        ensures
            r is Some <==> self@.contains_key(uuid@),
            r matches Some(p) ==> p.0 == self@[uuid@].version && p.1@ == self@[uuid@].request,
    {
        match find_index(&self.requests, uuid) {
            Some(i) => {
                proof {
                    lemma_assoc_map_index(self.requests@, i as int);
                }
                Some((self.requests[i].1.version, self.requests[i].1.request.clone()))
            },
            None => {
                proof {
                    lemma_assoc_map_absent(self.requests@, uuid@);
                }
                None
            },
        }
    }

    /// Replaces the state under `uuid` only if the slot still carries
    /// `expected_version`; returns whether the update was applied. A `false`
    /// result is a conflict: another update or a removal intervened since the
    /// version was read, and the cache is unchanged.
    pub fn compare_and_update(&mut self, uuid: &String, expected_version: u64, request: Request)
        -> (r: bool)
        requires
            old(self).inv(),
            request@.uuid == uuid@,
            req_wf(request@),
        ensures
            final(self).inv(),
            r == (old(self)@.contains_key(uuid@) && old(self)@[uuid@].version == expected_version),
            r ==> final(self)@ == old(self)@.insert(
                uuid@,
                CacheEntryView { version: next_version(expected_version), request: request@ },
            ),
            !r ==> final(self)@ == old(self)@,
    {
        match find_index(&self.requests, uuid) {
            Some(i) => {
                proof {
                    lemma_assoc_map_index(self.requests@, i as int);
                }
                if self.requests[i].1.version == expected_version {
                    let ghost pre = self.requests@;
                    let nv = if expected_version == u64::MAX { 0 } else { expected_version + 1 };
                    let newentry = CacheEntry { version: nv, request };
                    let ghost gentry = newentry;
                    let slot = &mut self.requests[i];
                    slot.1 = newentry;
                    proof {
                        assert(self.requests@ == pre.update(i as int, (pre[i as int].0, gentry)));
                        lemma_assoc_map_update(pre, i as int, gentry);
                    }
                    true
                } else {
                    false
                }
            },
            None => {
                proof {
                    lemma_assoc_map_absent(self.requests@, uuid@);
                }
                false
            },
        }
    }

    /// Removes the state stored under `uuid`, if any.
    pub fn drop_request(&mut self, uuid: &String)
        requires
            old(self).inv(),
        ensures
            final(self).inv(),
            final(self)@ == old(self)@.remove(uuid@),
    {
        match find_index(&self.requests, uuid) {
            Some(i) => {
                let ghost pre = self.requests@;
                self.requests.remove(i);
                proof {
                    lemma_assoc_map_remove(pre, i as int);
                }
            },
            None => {
                proof {
                    lemma_assoc_map_absent(self.requests@, uuid@);
                    assert(self@.remove(uuid@) =~= self@);
                }
            },
        }
    }

    /// The number of uploads currently in flight: a point-in-time count for
    /// observability.
    pub fn active_requests(&self) -> (r: usize)
        requires
            self.inv(),
        ensures
            r == self@.len(),
    {
        proof {
            lemma_assoc_map_len(self.requests@);
        }
        self.requests.len()
    }
}

/// Cache isolation: storing state for two distinct upload identifiers never
/// loses either update — after both stores, each identifier maps to its own
/// state, in whichever order the stores happened.
pub proof fn lemma_cache_isolation(
    m: Map<Seq<char>, CacheEntryView>,
    id1: Seq<char>,
    e1: CacheEntryView,
    id2: Seq<char>,
    e2: CacheEntryView,
)
    requires
        id1 != id2,
    ensures
        m.insert(id1, e1).insert(id2, e2)[id1] == e1,
        m.insert(id1, e1).insert(id2, e2)[id2] == e2,
        m.insert(id1, e1).insert(id2, e2) == m.insert(id2, e2).insert(id1, e1),
{
    assert(m.insert(id1, e1).insert(id2, e2) =~= m.insert(id2, e2).insert(id1, e1));
}

} // verus!
