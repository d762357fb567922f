use chunker::cache::AppCache;
use chunker::errors::Errors;
use chunker::headers::Headers;
use chunker::pipeline::{
    accept_chunk, file_path_for, plan_request, register_upload, save_if_new_request, Plan,
};
use chunker::store::FileStore;

fn new_upload_header(chunk_length: u32, chunk_amount: u32, file_name: &str) -> Headers {
    let mut h = Headers::new();
    h.chunk_length = Some(chunk_length);
    h.chunk_amount = Some(chunk_amount);
    h.file_name = Some(file_name.to_string());
    h
}

fn chunk_header(uuid: &str, chunk_num: u32) -> Headers {
    let mut h = Headers::new();
    h.uuid = Some(uuid.to_string());
    h.chunk_num = Some(chunk_num);
    h
}

#[test]
fn file_path_is_root_id_underscore_name() {
    let p = file_path_for("/data/", "some-id", "a.txt");
    assert_eq!(p, "/data/some-id_a.txt".to_string());
}

#[test]
fn end_to_end_upload() {
    let mut cache = AppCache::new();
    let mut store = FileStore::new();

    // The client announces an upload of two 4-byte chunks of "a.txt"; the
    // server generates and returns the upload identifier.
    let hello = new_upload_header(4, 2, "a.txt");
    let id = save_if_new_request(&mut cache, &hello, "/data/").expect("registered");
    assert_eq!(id.len(), 36);
    assert_eq!(cache.active_requests(), 1);

    // The chunk headers travel over the wire; decode what the client encoded.
    let bytes = chunk_header(&id, 0).encode().expect("fits");
    let (h0, _) = Headers::decode(&bytes).expect("decodes");
    match plan_request(&cache, &h0).expect("planned") {
        Plan::Continuation { uuid, chunk_num, chunk_length } => {
            assert_eq!(uuid, id);
            assert_eq!(chunk_num, 0);
            assert_eq!(chunk_length, 4);
        }
        Plan::NewUpload => panic!("a chunk continuation was planned as a new upload"),
    }
    let done = accept_chunk(&mut cache, &mut store, &id, 0, &b"ABCD".to_vec()).unwrap();
    assert!(!done);

    let done = accept_chunk(&mut cache, &mut store, &id, 1, &b"WXYZ".to_vec()).unwrap();
    assert!(done);

    // The stored file holds both chunks in order, and the finalized upload
    // has left the cache.
    let path = file_path_for("/data/", &id, "a.txt");
    assert_eq!(store.read_file(&path).unwrap(), b"ABCDWXYZ".to_vec());
    assert_eq!(cache.active_requests(), 0);
    assert!(cache.get_request(&id).is_none());

    // A further chunk for the completed upload is indistinguishable from one
    // for an upload that never existed.
    assert_eq!(
        accept_chunk(&mut cache, &mut store, &id, 0, &b"ABCD".to_vec()).unwrap_err(),
        Errors::InvalidRequest
    );
}

#[test]
fn unknown_identifier_is_invalid_and_writes_nothing() {
    let mut cache = AppCache::new();
    let mut store = FileStore::new();
    let ghost_id = "never-issued".to_string();

    let h = chunk_header(&ghost_id, 0);
    assert_eq!(plan_request(&cache, &h).unwrap_err(), Errors::InvalidRequest);
    assert_eq!(
        accept_chunk(&mut cache, &mut store, &ghost_id, 0, &b"ABCD".to_vec()).unwrap_err(),
        Errors::InvalidRequest
    );
    // No file was created.
    let path = file_path_for("/data/", &ghost_id, "a.txt");
    assert!(!store.file_exists(&path));
}

#[test]
fn out_of_order_completion_matches_in_order() {
    let run = |first: u32, second: u32| -> Vec<u8> {
        let mut cache = AppCache::new();
        let mut store = FileStore::new();
        let hello = new_upload_header(4, 2, "a.txt");
        let id = register_and_get_id(&mut cache, &hello);
        let payload_of = |i: u32| if i == 0 { b"ABCD".to_vec() } else { b"WXYZ".to_vec() };
        assert!(!accept_chunk(&mut cache, &mut store, &id, first, &payload_of(first)).unwrap());
        assert!(accept_chunk(&mut cache, &mut store, &id, second, &payload_of(second)).unwrap());
        assert_eq!(cache.active_requests(), 0);
        let path = file_path_for("/data/", &id, "a.txt");
        store.read_file(&path).unwrap()
    };
    assert_eq!(run(1, 0), b"ABCDWXYZ".to_vec());
    assert_eq!(run(0, 1), b"ABCDWXYZ".to_vec());
}

fn register_and_get_id(cache: &mut AppCache, hello: &Headers) -> String {
    let id = "fixed-0000-aaaa-bbbb-cccc".to_string();
    register_upload(cache, hello, id.clone(), "/data/").expect("registered");
    id
}

#[test]
fn duplicate_chunk_does_not_advance_completion() {
    let mut cache = AppCache::new();
    let mut store = FileStore::new();
    let hello = new_upload_header(4, 2, "a.txt");
    let id = register_and_get_id(&mut cache, &hello);

    assert!(!accept_chunk(&mut cache, &mut store, &id, 0, &b"ABCD".to_vec()).unwrap());
    // The retransmitted chunk rewrites the same range and counts nothing.
    assert!(!accept_chunk(&mut cache, &mut store, &id, 0, &b"ABCD".to_vec()).unwrap());
    assert_eq!(cache.active_requests(), 1);
    let path = file_path_for("/data/", &id, "a.txt");
    assert_eq!(store.read_file(&path).unwrap(), b"ABCD".to_vec());

    assert!(accept_chunk(&mut cache, &mut store, &id, 1, &b"WXYZ".to_vec()).unwrap());
    assert_eq!(store.read_file(&path).unwrap(), b"ABCDWXYZ".to_vec());
}

#[test]
fn misfitting_chunks_are_invalid() {
    let mut cache = AppCache::new();
    let mut store = FileStore::new();
    let hello = new_upload_header(4, 2, "a.txt");
    let id = register_and_get_id(&mut cache, &hello);

    // A payload of the wrong length is rejected before anything changes.
    assert_eq!(
        accept_chunk(&mut cache, &mut store, &id, 0, &b"ABC".to_vec()).unwrap_err(),
        Errors::InvalidRequest
    );
    // So is an index at or past the expected chunk count.
    assert_eq!(
        accept_chunk(&mut cache, &mut store, &id, 2, &b"ABCD".to_vec()).unwrap_err(),
        Errors::InvalidRequest
    );
    let path = file_path_for("/data/", &id, "a.txt");
    assert!(!store.file_exists(&path));
    assert_eq!(cache.active_requests(), 1);
}

#[test]
fn register_upload_rejects_wrong_shape_and_taken_id() {
    let mut cache = AppCache::new();
    let hello = new_upload_header(4, 2, "a.txt");
    let id = "taken".to_string();
    register_upload(&mut cache, &hello, id.clone(), "/data/").expect("registered");
    // The same identifier cannot name a second active upload.
    assert_eq!(
        register_upload(&mut cache, &hello, id.clone(), "/data/").unwrap_err(),
        Errors::InvalidRequest
    );
    // A chunk-continuation header registers nothing.
    let cont = chunk_header("x", 0);
    assert_eq!(
        register_upload(&mut cache, &cont, "y".to_string(), "/data/").unwrap_err(),
        Errors::InvalidRequest
    );
    assert!(save_if_new_request(&mut cache, &cont, "/data/").is_none());
    assert_eq!(cache.active_requests(), 1);
}

#[test]
fn generated_identifiers_differ_per_upload() {
    let mut cache = AppCache::new();
    let hello = new_upload_header(4, 2, "a.txt");
    let id1 = save_if_new_request(&mut cache, &hello, "/data/").expect("registered");
    let id2 = save_if_new_request(&mut cache, &hello, "/data/").expect("registered");
    assert_ne!(id1, id2);
    assert_eq!(cache.active_requests(), 2);
}
