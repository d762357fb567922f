use chunker::cache::{AppCache, Request};
use chunker::data::DataHandler;
use chunker::store::FileStore;

fn request(uuid: &str, chunk_length: u32, chunk_amount: u32) -> Request {
    Request {
        uuid: uuid.to_string(),
        chunk_num: 0,
        chunk_length,
        chunk_amount,
        chunk_pos: Vec::new(),
        file_name: "f".to_string(),
        file_path: format!("/tmp/{}_f", uuid),
    }
}

#[test]
fn write_at_creates_and_extends() {
    let mut s = FileStore::new();
    let path = "p".to_string();
    assert!(!s.file_exists(&path));
    assert!(s.read_file(&path).is_none());
    s.write_at(&path, 4, &b"WXYZ".to_vec());
    assert!(s.file_exists(&path));
    // The gap before the written range is zero-filled.
    assert_eq!(s.read_file(&path).unwrap(), b"\0\0\0\0WXYZ".to_vec());
    s.write_at(&path, 0, &b"ABCD".to_vec());
    assert_eq!(s.read_file(&path).unwrap(), b"ABCDWXYZ".to_vec());
}

#[test]
fn write_at_never_truncates() {
    let mut s = FileStore::new();
    let path = "p".to_string();
    s.write_at(&path, 0, &b"ABCDWXYZ".to_vec());
    s.write_at(&path, 0, &b"1234".to_vec());
    assert_eq!(s.read_file(&path).unwrap(), b"1234WXYZ".to_vec());
}

#[test]
fn idempotent_chunk_write() {
    let mut once = FileStore::new();
    let mut twice = FileStore::new();
    let path = "p".to_string();
    once.write_at(&path, 4, &b"WXYZ".to_vec());
    twice.write_at(&path, 4, &b"WXYZ".to_vec());
    twice.write_at(&path, 4, &b"WXYZ".to_vec());
    assert_eq!(once.read_file(&path).unwrap(), twice.read_file(&path).unwrap());
}

#[test]
fn out_of_order_writes_give_identical_bytes() {
    let mut in_order = FileStore::new();
    let mut reversed = FileStore::new();
    let path = "p".to_string();
    in_order.write_at(&path, 0, &b"ABCD".to_vec());
    in_order.write_at(&path, 4, &b"WXYZ".to_vec());
    reversed.write_at(&path, 4, &b"WXYZ".to_vec());
    reversed.write_at(&path, 0, &b"ABCD".to_vec());
    assert_eq!(in_order.read_file(&path).unwrap(), b"ABCDWXYZ".to_vec());
    assert_eq!(reversed.read_file(&path).unwrap(), b"ABCDWXYZ".to_vec());
}

#[test]
fn cache_save_get_drop() {
    let mut c = AppCache::new();
    assert_eq!(c.active_requests(), 0);
    c.save_request("a".to_string(), request("a", 4, 2));
    assert_eq!(c.active_requests(), 1);
    let got = c.get_request(&"a".to_string()).unwrap();
    assert_eq!(got.uuid, "a".to_string());
    assert_eq!(got.chunk_length, 4);
    assert!(c.get_request(&"b".to_string()).is_none());
    c.drop_request(&"a".to_string());
    assert!(c.get_request(&"a".to_string()).is_none());
    assert_eq!(c.active_requests(), 0);
}

#[test]
fn cache_isolation_between_identifiers() {
    // Interleaved updates for two distinct identifiers lose neither.
    let mut c = AppCache::new();
    c.save_request("a".to_string(), request("a", 4, 2));
    c.save_request("b".to_string(), request("b", 8, 3));
    let mut a = c.get_request(&"a".to_string()).unwrap();
    a.chunk_pos.push(0);
    c.save_request("a".to_string(), a);
    let mut b = c.get_request(&"b".to_string()).unwrap();
    b.chunk_pos.push(2);
    c.save_request("b".to_string(), b);
    assert_eq!(c.get_request(&"a".to_string()).unwrap().chunk_pos, vec![0]);
    assert_eq!(c.get_request(&"b".to_string()).unwrap().chunk_pos, vec![2]);
    assert_eq!(c.active_requests(), 2);
}

#[test]
fn compare_and_update_applies_once() {
    let mut c = AppCache::new();
    c.save_request("a".to_string(), request("a", 4, 2));
    let (v, mut snap) = c.get_versioned(&"a".to_string()).unwrap();
    snap.chunk_pos.push(0);
    assert!(c.compare_and_update(&"a".to_string(), v, snap.clone()));
    // A second update from the same stale version is a conflict.
    let mut stale = snap.clone();
    stale.chunk_pos.push(1);
    assert!(!c.compare_and_update(&"a".to_string(), v, stale));
    assert_eq!(c.get_request(&"a".to_string()).unwrap().chunk_pos, vec![0]);
}

#[test]
fn compare_and_update_absent_is_conflict() {
    let mut c = AppCache::new();
    assert!(!c.compare_and_update(&"ghost-id".to_string(), 0, request("ghost-id", 4, 2)));
    assert_eq!(c.active_requests(), 0);
}

#[test]
fn data_handler_sizes_the_frame_for_one_chunk() {
    let handler = DataHandler::new();
    let r = request("a", 4, 2);
    let mut frame = handler.read_chunk(&r);
    assert_eq!(frame.needed(), 4);
    assert!(!frame.push_chunk(&vec![1, 2, 3]));
    assert!(frame.push_chunk(&vec![4]));
    assert_eq!(frame.take_frame().unwrap(), vec![1, 2, 3, 4]);
}

#[test]
fn request_completion_counts_distinct_indices() {
    let mut r = request("a", 4, 2);
    assert!(!r.is_last_request());
    assert!(!r.has_chunk(0));
    r.chunk_pos.push(0);
    assert!(r.has_chunk(0));
    assert!(!r.is_last_request());
    r.chunk_pos.push(1);
    assert!(r.is_last_request());
}
