use chunker::errors::Errors;
use chunker::headers::{header_len, Headers};

fn new_upload_header(chunk_length: u32, chunk_amount: u32, file_name: &str) -> Headers {
    let mut h = Headers::new();
    h.chunk_length = Some(chunk_length);
    h.chunk_amount = Some(chunk_amount);
    h.file_name = Some(file_name.to_string());
    h
}

fn chunk_header(uuid: &str, chunk_num: u32) -> Headers {
    let mut h = Headers::new();
    h.uuid = Some(uuid.to_string());
    h.chunk_num = Some(chunk_num);
    h
}

#[test]
fn round_trip_new_upload() {
    let h = new_upload_header(4, 2, "a.txt");
    let bytes = h.encode().expect("fits");
    assert_eq!(bytes.len(), 1 + 32 + 32 + 128);
    assert_eq!(bytes[0], 0b11100);
    let (d, consumed) = Headers::decode(&bytes).expect("decodes");
    assert_eq!(consumed, bytes.len());
    assert_eq!(d.uuid, None);
    assert_eq!(d.chunk_num, None);
    assert_eq!(d.chunk_length, Some(4));
    assert_eq!(d.chunk_amount, Some(2));
    assert_eq!(d.file_name, Some("a.txt".to_string()));
}

#[test]
fn round_trip_chunk_continuation() {
    let h = chunk_header("0f32e840-aaaa-bbbb-cccc-0123456789ab", 7);
    let bytes = h.encode().expect("fits");
    assert_eq!(bytes.len(), 1 + 128 + 32);
    assert_eq!(bytes[0], 0b00011);
    let (d, consumed) = Headers::decode(&bytes).expect("decodes");
    assert_eq!(consumed, bytes.len());
    assert_eq!(d.uuid, Some("0f32e840-aaaa-bbbb-cccc-0123456789ab".to_string()));
    assert_eq!(d.chunk_num, Some(7));
    assert_eq!(d.chunk_length, None);
    assert_eq!(d.chunk_amount, None);
    assert_eq!(d.file_name, None);
}

#[test]
fn round_trip_non_ascii_file_name() {
    let h = new_upload_header(16, 1, "r\u{e9}sum\u{e9}.txt");
    let bytes = h.encode().expect("fits");
    let (d, _) = Headers::decode(&bytes).expect("decodes");
    assert_eq!(d.file_name, Some("r\u{e9}sum\u{e9}.txt".to_string()));
}

#[test]
fn decode_reads_only_flagged_fields() {
    // Flag byte selects the upload id alone; the id field is NUL-padded.
    let mut bytes = vec![0b00001u8];
    let mut id = b"abc".to_vec();
    id.resize(128, 0);
    bytes.extend_from_slice(&id);
    // Trailing bytes past the flagged fields must be left unread.
    bytes.extend_from_slice(b"leftover");
    let (d, consumed) = Headers::decode(&bytes).expect("decodes");
    assert_eq!(consumed, 129);
    assert_eq!(d.uuid, Some("abc".to_string()));
    assert_eq!(d.chunk_num, None);
    assert_eq!(d.chunk_length, None);
    assert_eq!(d.chunk_amount, None);
    assert_eq!(d.file_name, None);
}

#[test]
fn decode_trims_space_and_nul_padding() {
    let mut bytes = vec![0b00001u8];
    let mut id = b"abc \0 ".to_vec();
    id.resize(128, 0x20);
    bytes.extend_from_slice(&id);
    let (d, _) = Headers::decode(&bytes).expect("decodes");
    assert_eq!(d.uuid, Some("abc".to_string()));
}

#[test]
fn decode_ignores_reserved_integer_bytes() {
    // Chunk index field: 4 little-endian bytes, then 28 reserved bytes that
    // must be ignored even when nonzero.
    let mut bytes = vec![0b00010u8];
    let mut field = vec![0x78u8, 0x56, 0x34, 0x12];
    field.resize(32, 0xff);
    bytes.extend_from_slice(&field);
    let (d, consumed) = Headers::decode(&bytes).expect("decodes");
    assert_eq!(consumed, 33);
    assert_eq!(d.chunk_num, Some(0x12345678));
}

#[test]
fn decode_is_lenient_on_invalid_utf8() {
    // An invalid byte inside a string field is replaced, never fatal, and
    // two decodes of the same bytes agree.
    let mut bytes = vec![0b00001u8];
    let mut id = vec![b'a', 0xff, b'b'];
    id.resize(128, 0);
    bytes.extend_from_slice(&id);
    let (d, _) = Headers::decode(&bytes).expect("decodes");
    assert_eq!(d.uuid, Some("a\u{fffd}b".to_string()));
    let (d2, _) = Headers::decode(&bytes).expect("decodes");
    assert_eq!(d.uuid, d2.uuid);
}

#[test]
fn decode_short_header_is_short_read() {
    let mut bytes = vec![0b00001u8];
    bytes.extend_from_slice(&[0u8; 100]);
    assert_eq!(Headers::decode(&bytes).unwrap_err(), Errors::ShortRead);
    let empty: Vec<u8> = Vec::new();
    assert_eq!(Headers::decode(&empty).unwrap_err(), Errors::ShortRead);
}

#[test]
fn encode_rejects_oversized_file_name() {
    let long = "x".repeat(129);
    let h = new_upload_header(4, 2, &long);
    assert_eq!(h.encode().unwrap_err(), Errors::InvalidRequest);
}

#[test]
fn header_len_follows_flag_bits() {
    assert_eq!(header_len(0), 1);
    assert_eq!(header_len(0b00011), 1 + 128 + 32);
    assert_eq!(header_len(0b11100), 1 + 32 + 32 + 128);
    assert_eq!(header_len(0b11111), 1 + 128 + 32 + 32 + 32 + 128);
}

#[test]
fn exactly_two_shapes() {
    let new_upload = new_upload_header(4, 2, "a.txt");
    assert!(new_upload.is_new_request());
    assert!(!new_upload.is_chunk_request());
    assert!(new_upload.is_valid());

    let continuation = chunk_header("u", 0);
    assert!(continuation.is_chunk_request());
    assert!(!continuation.is_new_request());
    assert!(continuation.is_valid());

    // Every field present is no accepted shape.
    let mut all = chunk_header("u", 0);
    all.chunk_length = Some(4);
    all.chunk_amount = Some(2);
    all.file_name = Some("a.txt".to_string());
    assert!(!all.is_new_request());
    assert!(!all.is_chunk_request());
    assert!(!all.is_valid());

    // No field present is no accepted shape either.
    let none = Headers::new();
    assert!(!none.is_valid());
}

#[test]
fn field_accessors_return_the_fields() {
    let h = new_upload_header(4, 2, "a.txt");
    let nh = h.get_new_request_headers();
    assert_eq!(nh.chunk_length, 4);
    assert_eq!(nh.chunk_amount, 2);
    assert_eq!(nh.file_name, "a.txt".to_string());

    let c = chunk_header("some-id", 9);
    let ch = c.get_chunk_headers();
    assert_eq!(ch.uuid, "some-id".to_string());
    assert_eq!(ch.chunk_num, 9);
}
