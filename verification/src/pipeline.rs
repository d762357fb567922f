//! The upload state machine: decides, from a parsed header, whether a request
//! starts a new upload or continues one, validates it against the cached
//! state, and drives the transitions — registration, per-chunk acceptance,
//! and finalization.
//!
//! The surrounding system owns the connection: it decodes one header from the
//! stream, asks `plan_request` what to do, reads the payload the plan calls
//! for, and hands it to `accept_chunk`. Any failure is fatal for that
//! connection alone.

use vstd::prelude::*;
use vstd::string::StringExecFns;

use crate::cache::{next_version, AppCache, CacheEntryView, Request, RequestView};
use crate::errors::Errors;
use crate::headers::{spec_is_chunk_request, spec_is_new_request, HeaderView, Headers};
use crate::store::{spec_file_at, spec_write_at, FileStore};

verus! {

/// The target path of an upload: the storage root, then the upload
/// identifier and the file name joined by an underscore — collision-free
/// because identifiers are unique.
pub open spec fn spec_file_path(root: Seq<char>, id: Seq<char>, name: Seq<char>) -> Seq<char> {
    root + id + "_"@ + name
}

/// Derives the target path of an upload.
pub fn file_path_for(root: &str, id: &str, name: &str) -> (r: String)
    ensures
        r@ == spec_file_path(root@, id@, name@),
{
    let mut p = root.to_owned();
    p.append(id);
    p.append("_");
    p.append(name);
    p
}

/// Relies on `uuid::Uuid::new_v4` and its `Display` form: a freshly drawn
/// random identifier, formatted as 32 lowercase hexadecimal digits in five
/// hyphen-separated groups — 36 characters. Randomness promises nothing
/// about the value itself, in particular not that it is unused. Like an
/// allocation failure, a failure of the operating system's random source is
/// environmental and aborts the worker inside the call.
#[verifier::external_body]
fn fresh_uuid() -> (r: String)
    ensures
        r@.len() == 36,
        forall|i: int|
            0 <= i < r@.len() ==> (r@[i] == '-' || ('0' <= r@[i] && r@[i] <= '9') || ('a' <= r@[i]
                && r@[i] <= 'f')),
{
    uuid::Uuid::new_v4().to_string()
}

/// The upload state registered for a fresh identifier: nothing received yet.
pub open spec fn spec_fresh_request(h: HeaderView, id: Seq<char>, root: Seq<char>) -> RequestView {
    RequestView {
        uuid: id,
        chunk_num: 0,
        chunk_length: h.chunk_length->0,
        chunk_amount: h.chunk_amount->0,
        chunk_pos: Seq::empty(),
        file_name: h.file_name->0,
        file_path: spec_file_path(root, id, h.file_name->0),
    }
}

/// Registers a new upload under `uuid`. Succeeds exactly when the header has
/// the new-upload shape and `uuid` names no active upload; on success the
/// cache gains a fresh entry for `uuid` and nothing else changes.
pub fn register_upload(
    cache: &mut AppCache,
    headers: &Headers,
    uuid: String,
    storage_root: &str,
) -> (r: Result<(), Errors>)
    requires
        old(cache).inv(),
    ensures
        final(cache).inv(),
        r is Ok <==> (spec_is_new_request(headers@) && !old(cache)@.contains_key(uuid@)),
        r is Ok ==> final(cache)@ == old(cache)@.insert(
            uuid@,
            CacheEntryView {
                version: 0,
                request: spec_fresh_request(headers@, uuid@, storage_root@),
            },
        ),
        r is Err ==> r == Err::<(), Errors>(Errors::InvalidRequest) && final(cache)@ == old(
            cache,
        )@,
{
    if !headers.is_new_request() {
        return Err(Errors::InvalidRequest);
    }
    if cache.get_request(&uuid).is_some() {
        return Err(Errors::InvalidRequest);
    }
    let nh = headers.get_new_request_headers();
    let path = file_path_for(storage_root, uuid.as_str(), nh.file_name.as_str());
    let request = Request {
        uuid: uuid.clone(),
        chunk_num: 0,
        chunk_length: nh.chunk_length,
        chunk_amount: nh.chunk_amount,
        chunk_pos: Vec::new(),
        file_name: nh.file_name,
        file_path: path,
    };
    assert(request@ == spec_fresh_request(headers@, uuid@, storage_root@));
    cache.save_request(uuid, request);
    Ok(())
}

/// On a new-upload header, generates an identifier, registers the upload and
/// returns the identifier to be sent back to the client; on any other header
/// the cache is untouched. `None` on a valid new-upload header means the
/// freshly generated identifier collided with an active upload — whatever the
/// generator returned, the cache is then unchanged and no upload was lost.
/// Every generated identifier is 36 characters, so whenever no cached key is
/// 36 characters long — the empty cache above all — no collision is possible
/// and registration is owed.
pub fn save_if_new_request(cache: &mut AppCache, headers: &Headers, storage_root: &str) -> (r:
    Option<String>)
    requires
        old(cache).inv(),
    ensures
        final(cache).inv(),
        (spec_is_new_request(headers@) && (forall|k: Seq<char>|
            old(cache)@.contains_key(k) ==> k.len() != 36)) ==> r is Some,
        r is None ==> final(cache)@ == old(cache)@,
        r matches Some(id) ==> spec_is_new_request(headers@) && id@.len() == 36 && !old(
            cache,
        )@.contains_key(id@) && final(cache)@ == old(cache)@.insert(
            id@,
            CacheEntryView {
                version: 0,
                request: spec_fresh_request(headers@, id@, storage_root@),
            },
        ),
{
    if !headers.is_new_request() {
        return None;
    }
    let id = fresh_uuid();
    match register_upload(cache, headers, id.clone(), storage_root) {
        Ok(()) => Some(id),
        Err(_) => None,
    }
}

/// What the connection loop should do for one decoded header.
#[derive(Debug)]
pub enum Plan {
    /// Register a new upload and reply with the generated identifier.
    NewUpload,
    /// Read exactly `chunk_length` payload bytes, then accept the chunk.
    Continuation { uuid: String, chunk_num: u32, chunk_length: u32 },
}

/// Classifies one decoded header against the cache: a new-upload header is
/// always accepted; a chunk-continuation header is accepted exactly when its
/// identifier names an active upload, and then carries that upload's expected
/// payload length. Every other header — a malformed shape, or an identifier
/// never issued or already completed — is an `InvalidRequest`.
pub fn plan_request(cache: &AppCache, headers: &Headers) -> (r: Result<Plan, Errors>)
    requires
        cache.inv(),
    ensures
        r is Ok <==> (spec_is_new_request(headers@) || (spec_is_chunk_request(headers@)
            && cache@.contains_key(headers@.uuid->0))),
        r matches Ok(p) ==> (p is NewUpload <==> spec_is_new_request(headers@)),
        r matches Ok(p) ==> (p matches Plan::Continuation { uuid, chunk_num, chunk_length } ==> {
            &&& spec_is_chunk_request(headers@)
            &&& uuid@ == headers@.uuid->0
            &&& chunk_num == headers@.chunk_num->0
            &&& chunk_length == cache@[uuid@].request.chunk_length
        }),
        r is Err ==> r == Err::<Plan, Errors>(Errors::InvalidRequest),
{
    if headers.is_new_request() {
        return Ok(Plan::NewUpload);
    }
    if !headers.is_chunk_request() {
        return Err(Errors::InvalidRequest);
    }
    let ch = headers.get_chunk_headers();
    match cache.get_request(&ch.uuid) {
        Some(req) => Ok(
            Plan::Continuation {
                uuid: ch.uuid,
                chunk_num: ch.chunk_num,
                chunk_length: req.chunk_length,
            },
        ),
        None => Err(Errors::InvalidRequest),
    }
}

/// Whether a chunk fits the upload it continues: the payload is exactly one
/// chunk long and the index lies below the expected chunk count.
pub open spec fn chunk_acceptable(req: RequestView, chunk_num: u32, payload_len: nat) -> bool {
    payload_len == req.chunk_length && chunk_num < req.chunk_amount
}

/// The byte offset at which chunk `n` of this upload is stored.
pub open spec fn spec_chunk_offset(req: RequestView, n: u32) -> int {
    n as int * req.chunk_length as int
}

/// The upload state after accepting chunk `n`: the index joins the received
/// set unless already there — a duplicate must not advance completion.
pub open spec fn spec_after_chunk(req: RequestView, n: u32) -> RequestView {
    RequestView {
        chunk_num: n,
        chunk_pos: if req.chunk_pos.contains(n) {
            req.chunk_pos
        } else {
            req.chunk_pos.push(n)
        },
        ..req
    }
}

/// Out-of-order completion, in full: for a fresh two-chunk upload, accepting
/// index 1 and then index 0 fills the received set to the expected count —
/// completing the upload — exactly as accepting 0 then 1 does, and the file
/// bytes are identical in both orders: chunk 0's payload followed by chunk
/// 1's, whatever the chunk length.
pub proof fn lemma_out_of_order_completion(req: RequestView, p0: Seq<u8>, p1: Seq<u8>)
    requires
        req.chunk_amount == 2,
        req.chunk_pos == Seq::<u32>::empty(),
        p0.len() == req.chunk_length,
        p1.len() == req.chunk_length,
    ensures
        spec_after_chunk(spec_after_chunk(req, 1), 0).chunk_pos.len() == req.chunk_amount,
        spec_after_chunk(spec_after_chunk(req, 0), 1).chunk_pos.len() == req.chunk_amount,
        spec_write_at(
            spec_write_at(Seq::<u8>::empty(), spec_chunk_offset(req, 1) as nat, p1),
            spec_chunk_offset(req, 0) as nat,
            p0,
        ) == p0 + p1,
        spec_write_at(
            spec_write_at(Seq::<u8>::empty(), spec_chunk_offset(req, 0) as nat, p0),
            spec_chunk_offset(req, 1) as nat,
            p1,
        ) == p0 + p1,
{
    assert(!req.chunk_pos.push(1u32).contains(0u32)) by {
        assert(forall|i: int|
            0 <= i < req.chunk_pos.push(1u32).len() ==> req.chunk_pos.push(1u32)[i] == 1u32);
    }
    assert(!req.chunk_pos.push(0u32).contains(1u32)) by {
        assert(forall|i: int|
            0 <= i < req.chunk_pos.push(0u32).len() ==> req.chunk_pos.push(0u32)[i] == 0u32);
    }
    assert(spec_write_at(
        spec_write_at(Seq::<u8>::empty(), spec_chunk_offset(req, 1) as nat, p1),
        spec_chunk_offset(req, 0) as nat,
        p0,
    ) =~= p0 + p1);
    assert(spec_write_at(
        spec_write_at(Seq::<u8>::empty(), spec_chunk_offset(req, 0) as nat, p0),
        spec_chunk_offset(req, 1) as nat,
        p1,
    ) =~= p0 + p1);
}

/// Accepting the same chunk index twice leaves the same upload state as
/// accepting it once: the index is already in the received set, so the
/// duplicate changes nothing — completion never advances on retransmissions.
/// Together with the write model's idempotence, accepting the same
/// `(uploadId, chunkIndex, payload)` twice also leaves the same file bytes.
pub proof fn lemma_duplicate_chunk_ignored(req: RequestView, n: u32)
    ensures
        spec_after_chunk(spec_after_chunk(req, n), n) == spec_after_chunk(req, n),
{
    let once = spec_after_chunk(req, n);
    if !req.chunk_pos.contains(n) {
        assert(once.chunk_pos[req.chunk_pos.len() as int] == n);
        assert(once.chunk_pos.contains(n));
    }
}

/// Accepts one chunk for the upload named `uuid`: writes the payload at the
/// chunk's byte offset of the upload's target file, records the index, and —
/// the instant the received set's size equals the expected chunk count —
/// finalizes the upload by dropping it from the cache. Returns whether that
/// finalization happened.
///
/// An identifier naming no active upload (never issued, or already completed
/// — indistinguishable by design) and a chunk that does not fit the upload
/// are each an `InvalidRequest`; a chunk whose byte range lies beyond what
/// this machine can address is a `FileIOError`. On any error nothing changes.
pub fn accept_chunk(
    cache: &mut AppCache,
    store: &mut FileStore,
    uuid: &String,
    chunk_num: u32,
    payload: &Vec<u8>,
) -> (r: Result<bool, Errors>)
    requires
        old(cache).inv(),
        old(store).inv(),
    ensures
        final(cache).inv(),
        final(store).inv(),
        r is Err ==> final(cache)@ == old(cache)@ && final(store)@ == old(store)@,
        !old(cache)@.contains_key(uuid@) ==> r == Err::<bool, Errors>(Errors::InvalidRequest),
        old(cache)@.contains_key(uuid@) && !chunk_acceptable(
            old(cache)@[uuid@].request,
            chunk_num,
            payload@.len(),
        ) ==> r == Err::<bool, Errors>(Errors::InvalidRequest),
        old(cache)@.contains_key(uuid@) && chunk_acceptable(
            old(cache)@[uuid@].request,
            chunk_num,
            payload@.len(),
        ) ==> {
            let req = old(cache)@[uuid@].request;
            let after = spec_after_chunk(req, chunk_num);
            &&& (spec_chunk_offset(req, chunk_num) + payload@.len() > usize::MAX ==> r == Err::<
                bool,
                Errors,
            >(Errors::FileIOError))
            &&& (spec_chunk_offset(req, chunk_num) + payload@.len() <= usize::MAX ==> {
                &&& r is Ok
                &&& r->Ok_0 == (after.chunk_pos.len() == req.chunk_amount)
                &&& final(store)@ == old(store)@.insert(
                    req.file_path,
                    spec_write_at(
                        spec_file_at(old(store)@, req.file_path),
                        spec_chunk_offset(req, chunk_num) as nat,
                        payload@,
                    ),
                )
                &&& (r->Ok_0 ==> final(cache)@ == old(cache)@.remove(uuid@))
                &&& (!r->Ok_0 ==> final(cache)@ == old(cache)@.insert(
                    uuid@,
                    CacheEntryView {
                        version: next_version(old(cache)@[uuid@].version),
                        request: after,
                    },
                ))
            })
        },
{
    let got = cache.get_request(uuid);
    let mut req = match got {
        Some(req) => req,
        None => {
            return Err(Errors::InvalidRequest);
        },
    };
    proof {
        cache.lemma_inv_entry(uuid@);
    }
    if payload.len() != req.chunk_length as usize {
        return Err(Errors::InvalidRequest);
    }
    if chunk_num >= req.chunk_amount {
        return Err(Errors::InvalidRequest);
    }
    proof {
        assert((chunk_num as int) * (req@.chunk_length as int) + (req@.chunk_length as int)
            <= u64::MAX as int) by (nonlinear_arith)
            requires
                chunk_num as int <= 0xffff_ffff,
                req@.chunk_length as int <= 0xffff_ffff,
        ;
    }
    let offset64 = (chunk_num as u64) * (req.chunk_length as u64);
    assert(offset64 == spec_chunk_offset(req@, chunk_num));
    let end64 = offset64 + payload.len() as u64;
    if end64 > usize::MAX as u64 {
        return Err(Errors::FileIOError);
    }
    let offset = offset64 as usize;
    store.write_at(&req.file_path, offset, payload);
    if !req.has_chunk(chunk_num) {
        req.chunk_pos.push(chunk_num);
    }
    req.chunk_num = chunk_num;
    assert(req@ == spec_after_chunk(old(cache)@[uuid@].request, chunk_num));
    if req.is_last_request() {
        cache.drop_request(uuid);
        Ok(true)
    } else {
        cache.save_request(uuid.clone(), req);
        Ok(false)
    }
}

} // verus!
