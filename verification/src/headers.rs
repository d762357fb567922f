//! The header codec: a compact binary header that multiplexes two request
//! kinds over one wire shape.
//!
//! A header starts with one flag byte; each set bit selects one fixed-width
//! field, and the selected fields follow in ascending bit-position order.
//! Integer fields occupy the first 4 bytes of their 32-byte slot as a
//! little-endian unsigned 32-bit value; the remaining 28 bytes are reserved,
//! ignored on decode and zero-filled on encode. String fields are UTF-8,
//! NUL/space-padded to 128 bytes; decoding trims the trailing padding and is
//! lenient about invalid sequences (they are replaced, never fatal).

use vstd::prelude::*;
use vstd::bytes::{lemma_auto_spec_u32_to_from_le_bytes, spec_u32_to_le_bytes, u32_to_le_bytes};
use vstd::slice::{slice_index_get, slice_subrange, slice_to_vec};
use vstd::utf8::{decode_utf8, encode_utf8, encode_utf8_decode_utf8, valid_utf8};

use crate::errors::Errors;
use crate::util::{bit_at, read_u32, spec_bit_at, spec_read_u32};

verus! {

/// Width in bytes of the upload-identifier field.
pub const UUID_BYTES: usize = 128;

/// Flag-byte bit position of the upload-identifier field.
pub const UUID_POS: u8 = 0;

/// Width in bytes of the chunk-index field.
pub const CHUNK_BYTES: usize = 32;

/// Flag-byte bit position of the chunk-index field.
pub const CHUNK_POS: u8 = 1;

/// Width in bytes of the chunk-length field.
pub const CHUNK_LENGTH_BYTES: usize = 32;

/// Flag-byte bit position of the chunk-length field.
pub const CHUNK_LENGTH_POS: u8 = 2;

/// Width in bytes of the chunk-count field.
pub const CHUNK_AMOUNT_BYTES: usize = 32;

/// Flag-byte bit position of the chunk-count field.
pub const CHUNK_AMOUNT_POS: u8 = 3;

/// Width in bytes of the file-name field.
pub const FILE_NAME_BYTES: usize = 128;

/// Flag-byte bit position of the file-name field.
pub const FILE_NAME_POS: u8 = 4;

/// A decoded request header: each field is present exactly when its flag bit
/// was set on the wire.
#[derive(Debug)]
pub struct Headers {
    pub uuid: Option<String>,
    pub chunk_num: Option<u32>,
    pub chunk_length: Option<u32>,
    pub chunk_amount: Option<u32>,
    pub file_name: Option<String>,
}

/// The mathematical view of a header: strings as character sequences.
pub struct HeaderView {
    pub uuid: Option<Seq<char>>,
    pub chunk_num: Option<u32>,
    pub chunk_length: Option<u32>,
    pub chunk_amount: Option<u32>,
    pub file_name: Option<Seq<char>>,
}

impl View for Headers {
    type V = HeaderView;

    open spec fn view(&self) -> HeaderView {
        HeaderView {
            uuid: match self.uuid {
                Some(s) => Some(s@),
                None => None,
            },
            chunk_num: self.chunk_num,
            chunk_length: self.chunk_length,
            chunk_amount: self.chunk_amount,
            file_name: match self.file_name {
                Some(s) => Some(s@),
                None => None,
            },
        }
    }
}

/// The header fields of a valid new-upload request.
pub struct NewRequestHeaders {
    pub chunk_length: u32,
    pub chunk_amount: u32,
    pub file_name: String,
}

/// The header fields of a valid chunk-continuation request.
pub struct ChunkHeaders {
    pub uuid: String,
    pub chunk_num: u32,
}

/// Whether a byte is wire padding: NUL or space.
pub open spec fn is_pad_byte(b: u8) -> bool {
    b == 0 || b == 0x20
}

/// `s` with every trailing padding byte removed.
pub open spec fn spec_trim_pad(s: Seq<u8>) -> Seq<u8>
    decreases s.len(),
{
    if s.len() > 0 && is_pad_byte(s.last()) {
        spec_trim_pad(s.drop_last())
    } else {
        s
    }
}

/// Width in bytes of the field at flag-bit `bit`.
pub open spec fn spec_field_width(bit: u8) -> nat {
    if bit == 0 || bit == 4 {
        128
    } else {
        32
    }
}

/// Byte offset, within an encoded header whose flag byte is `flags`, of the
/// field at flag-bit `bit`: one flag byte plus the widths of all selected
/// fields at lower bit positions.
pub open spec fn spec_field_offset(flags: u8, bit: u8) -> nat
    recommends
        bit <= 5,
{
    (1 + if bit >= 1 && spec_bit_at(flags, 0) {
        128nat
    } else {
        0nat
    } + if bit >= 2 && spec_bit_at(flags, 1) {
        32nat
    } else {
        0nat
    } + if bit >= 3 && spec_bit_at(flags, 2) {
        32nat
    } else {
        0nat
    } + if bit >= 4 && spec_bit_at(flags, 3) {
        32nat
    } else {
        0nat
    } + if bit >= 5 && spec_bit_at(flags, 4) {
        128nat
    } else {
        0nat
    }) as nat
}

/// Total byte length of an encoded header whose flag byte is `flags`.
pub open spec fn spec_header_len(flags: u8) -> nat {
    spec_field_offset(flags, 5)
}

/// The bytes of the field at flag-bit `bit` within the encoded header `bytes`.
pub open spec fn spec_field_seg(bytes: Seq<u8>, bit: u8) -> Seq<u8>
    recommends
        bytes.len() >= spec_header_len(bytes[0]),
        spec_bit_at(bytes[0], bit),
{
    bytes.subrange(
        spec_field_offset(bytes[0], bit) as int,
        spec_field_offset(bytes[0], bit) as int + spec_field_width(bit) as int,
    )
}

/// The header value described by the encoded bytes: `Err(ShortRead)` when the
/// bytes end before the fields their own flag byte selects, otherwise exactly
/// the selected fields, integer slots read little-endian, string slots trimmed
/// of padding and decoded from UTF-8.
pub open spec fn spec_decode(bytes: Seq<u8>) -> Result<HeaderView, Errors> {
    if bytes.len() < 1 || bytes.len() < spec_header_len(bytes[0]) {
        Err(Errors::ShortRead)
    } else {
        let flags = bytes[0];
        Ok(
            HeaderView {
                uuid: if spec_bit_at(flags, 0) {
                    Some(decode_utf8(spec_trim_pad(spec_field_seg(bytes, 0))))
                } else {
                    None
                },
                chunk_num: if spec_bit_at(flags, 1) {
                    Some(spec_read_u32(spec_field_seg(bytes, 1)))
                } else {
                    None
                },
                chunk_length: if spec_bit_at(flags, 2) {
                    Some(spec_read_u32(spec_field_seg(bytes, 2)))
                } else {
                    None
                },
                chunk_amount: if spec_bit_at(flags, 3) {
                    Some(spec_read_u32(spec_field_seg(bytes, 3)))
                } else {
                    None
                },
                file_name: if spec_bit_at(flags, 4) {
                    Some(decode_utf8(spec_trim_pad(spec_field_seg(bytes, 4))))
                } else {
                    None
                },
            },
        )
    }
}

/// The characters `String::from_utf8_lossy` decodes the given bytes to:
/// replacement characters stand in for invalid sequences, whose exact
/// placement is the lossy decoder's own; the result depends on the bytes
/// alone.
pub uninterp spec fn lossy_of(bytes: Seq<u8>) -> Seq<char>;

/// Relies on `String::from_utf8_lossy`: the result is a function of the bytes
/// alone, and bytes that are a valid UTF-8 encoding decode to exactly the
/// characters they encode.
#[verifier::external_body]
fn lossy_utf8(bytes: &Vec<u8>) -> (r: String)
    ensures
        r@ == lossy_of(bytes@),
        valid_utf8(bytes@) ==> r@ == decode_utf8(bytes@),
{
    String::from_utf8_lossy(bytes.as_slice()).into_owned()
}

/// Removes every trailing padding byte of `s`.
fn trim_pad(s: &[u8]) -> (r: Vec<u8>)
    ensures
        r@ == spec_trim_pad(s@),
{
    let mut end: usize = s.len();
    assert(s@.take(end as int) =~= s@);
    while end > 0 && (s[end - 1] == 0 || s[end - 1] == 0x20)
        invariant
            end <= s@.len(),
            spec_trim_pad(s@) == spec_trim_pad(s@.take(end as int)),
        decreases end,
    {
        assert(s@.take(end as int).drop_last() =~= s@.take(end as int - 1));
        end = end - 1;
    }
    assert(s@.take(end as int) == spec_trim_pad(s@.take(end as int)));
    let r = slice_to_vec(slice_subrange(s, 0, end));
    assert(r@ =~= s@.take(end as int));
    r
}

impl Headers {
    /// An empty header: no field present.
    pub fn new() -> (r: Self)
        ensures
            r@.uuid is None,
            r@.chunk_num is None,
            r@.chunk_length is None,
            r@.chunk_amount is None,
            r@.file_name is None,
    {
        Headers {
            uuid: None,
            file_name: None,
            chunk_num: None,
            chunk_length: None,
            chunk_amount: None,
        }
    }

    /// Decodes one header from the front of `bytes`: the flag byte, then the
    /// field of each set bit in ascending bit order. Returns the header and
    /// the number of bytes consumed; never reads beyond the fields the flags
    /// select. Fails with `ShortRead` exactly when `bytes` ends before the
    /// selected fields do.
    pub fn decode(bytes: &Vec<u8>) -> (r: Result<(Headers, usize), Errors>)
        ensures
            r is Ok <==> bytes@.len() >= 1 && bytes@.len() >= spec_header_len(bytes@[0]),
            r is Err ==> r == Err::<(Headers, usize), Errors>(Errors::ShortRead),
            r matches Ok(p) ==> {
                let hv = spec_decode(bytes@)->Ok_0;
                &&& p.1 == spec_header_len(bytes@[0])
                &&& (p.0@.uuid is Some) == spec_bit_at(bytes@[0], 0)
                &&& (p.0@.chunk_num is Some) == spec_bit_at(bytes@[0], 1)
                &&& (p.0@.chunk_length is Some) == spec_bit_at(bytes@[0], 2)
                &&& (p.0@.chunk_amount is Some) == spec_bit_at(bytes@[0], 3)
                &&& (p.0@.file_name is Some) == spec_bit_at(bytes@[0], 4)
                &&& p.0@.chunk_num == hv.chunk_num
                &&& p.0@.chunk_length == hv.chunk_length
                &&& p.0@.chunk_amount == hv.chunk_amount
                &&& spec_bit_at(bytes@[0], 0) ==> p.0@.uuid == Some(
                    lossy_of(spec_trim_pad(spec_field_seg(bytes@, 0))),
                )
                &&& spec_bit_at(bytes@[0], 4) ==> p.0@.file_name == Some(
                    lossy_of(spec_trim_pad(spec_field_seg(bytes@, 4))),
                )
                &&& (hv.uuid is Some && valid_utf8(spec_trim_pad(spec_field_seg(bytes@, 0))))
                    ==> p.0@.uuid == hv.uuid
                &&& (hv.file_name is Some && valid_utf8(spec_trim_pad(spec_field_seg(bytes@, 4))))
                    ==> p.0@.file_name == hv.file_name
            },
    {
        if bytes.len() == 0 {
            return Err(Errors::ShortRead);
        }
        let flags = bytes[0];
        let ghost bs = bytes@;
        let mut pos: usize = 1;
        let mut h = Headers::new();
        assert(pos == spec_field_offset(flags, 0));

        if bit_at(flags, UUID_POS) {
            if bytes.len() - pos < UUID_BYTES {
                assert(bs.len() < spec_header_len(flags));
                return Err(Errors::ShortRead);
            }
            let seg = slice_subrange(bytes.as_slice(), pos, pos + UUID_BYTES);
            assert(seg@ =~= spec_field_seg(bs, 0));
            let trimmed = trim_pad(seg);
            h.uuid = Some(lossy_utf8(&trimmed));
            pos = pos + UUID_BYTES;
        }
        assert(pos == spec_field_offset(flags, 1));

        if bit_at(flags, CHUNK_POS) {
            if bytes.len() - pos < CHUNK_BYTES {
                assert(bs.len() < spec_header_len(flags));
                return Err(Errors::ShortRead);
            }
            let seg = slice_subrange(bytes.as_slice(), pos, pos + CHUNK_BYTES);
            assert(seg@ =~= spec_field_seg(bs, 1));
            let seg = slice_to_vec(seg);
            match read_u32(&seg) {
                Ok(v) => {
                    h.chunk_num = Some(v);
                },
                Err(_) => {
                    return Err(Errors::ParseError);
                },
            }
            pos = pos + CHUNK_BYTES;
        }
        assert(pos == spec_field_offset(flags, 2));

        if bit_at(flags, CHUNK_LENGTH_POS) {
            if bytes.len() - pos < CHUNK_LENGTH_BYTES {
                assert(bs.len() < spec_header_len(flags));
                return Err(Errors::ShortRead);
            }
            let seg = slice_subrange(bytes.as_slice(), pos, pos + CHUNK_LENGTH_BYTES);
            assert(seg@ =~= spec_field_seg(bs, 2));
            let seg = slice_to_vec(seg);
            match read_u32(&seg) {
                Ok(v) => {
                    h.chunk_length = Some(v);
                },
                Err(_) => {
                    return Err(Errors::ParseError);
                },
            }
            pos = pos + CHUNK_LENGTH_BYTES;
        }
        assert(pos == spec_field_offset(flags, 3));

        if bit_at(flags, CHUNK_AMOUNT_POS) {
            if bytes.len() - pos < CHUNK_AMOUNT_BYTES {
                assert(bs.len() < spec_header_len(flags));
                return Err(Errors::ShortRead);
            }
            let seg = slice_subrange(bytes.as_slice(), pos, pos + CHUNK_AMOUNT_BYTES);
            assert(seg@ =~= spec_field_seg(bs, 3));
            let seg = slice_to_vec(seg);
            match read_u32(&seg) {
                Ok(v) => {
                    h.chunk_amount = Some(v);
                },
                Err(_) => {
                    return Err(Errors::ParseError);
                },
            }
            pos = pos + CHUNK_AMOUNT_BYTES;
        }
        assert(pos == spec_field_offset(flags, 4));

        if bit_at(flags, FILE_NAME_POS) {
            if bytes.len() - pos < FILE_NAME_BYTES {
                assert(bs.len() < spec_header_len(flags));
                return Err(Errors::ShortRead);
            }
            let seg = slice_subrange(bytes.as_slice(), pos, pos + FILE_NAME_BYTES);
            assert(seg@ =~= spec_field_seg(bs, 4));
            let trimmed = trim_pad(seg);
            h.file_name = Some(lossy_utf8(&trimmed));
            pos = pos + FILE_NAME_BYTES;
        }
        assert(pos == spec_header_len(flags));

        Ok((h, pos))
    }
}

/// The total byte length of the header a flag byte announces: the flag byte
/// itself plus each selected field's fixed width. The connection loop uses it
/// to know how many header bytes to collect after the flag byte.
pub fn header_len(flags: u8) -> (r: usize)
    ensures
        r == spec_header_len(flags),
{
    let mut n: usize = 1;
    if bit_at(flags, UUID_POS) {
        n = n + UUID_BYTES;
    }
    if bit_at(flags, CHUNK_POS) {
        n = n + CHUNK_BYTES;
    }
    if bit_at(flags, CHUNK_LENGTH_POS) {
        n = n + CHUNK_LENGTH_BYTES;
    }
    if bit_at(flags, CHUNK_AMOUNT_POS) {
        n = n + CHUNK_AMOUNT_BYTES;
    }
    if bit_at(flags, FILE_NAME_POS) {
        n = n + FILE_NAME_BYTES;
    }
    n
}

/// The flag byte announcing exactly the fields present in `h`.
pub open spec fn spec_flags(h: HeaderView) -> u8 {
    ((if h.uuid is Some {
        1int
    } else {
        0int
    }) + (if h.chunk_num is Some {
        2int
    } else {
        0int
    }) + (if h.chunk_length is Some {
        4int
    } else {
        0int
    }) + (if h.chunk_amount is Some {
        8int
    } else {
        0int
    }) + (if h.file_name is Some {
        16int
    } else {
        0int
    })) as u8
}

/// `b` zero-filled at the end up to `width` bytes.
pub open spec fn spec_pad_zeros(b: Seq<u8>, width: nat) -> Seq<u8>
    recommends
        b.len() <= width,
{
    b + Seq::new((width - b.len()) as nat, |i: int| 0u8)
}

/// The wire encoding of `h`: its flag byte, then each present field in
/// ascending bit order, integers little-endian in the first 4 bytes of their
/// slot, strings as UTF-8, every slot zero-filled to its fixed width.
pub open spec fn spec_encode(h: HeaderView) -> Seq<u8> {
    seq![spec_flags(h)] + (if h.uuid is Some {
        spec_pad_zeros(encode_utf8(h.uuid->0), 128)
    } else {
        Seq::empty()
    }) + (if h.chunk_num is Some {
        spec_pad_zeros(spec_u32_to_le_bytes(h.chunk_num->0), 32)
    } else {
        Seq::empty()
    }) + (if h.chunk_length is Some {
        spec_pad_zeros(spec_u32_to_le_bytes(h.chunk_length->0), 32)
    } else {
        Seq::empty()
    }) + (if h.chunk_amount is Some {
        spec_pad_zeros(spec_u32_to_le_bytes(h.chunk_amount->0), 32)
    } else {
        Seq::empty()
    }) + (if h.file_name is Some {
        spec_pad_zeros(encode_utf8(h.file_name->0), 128)
    } else {
        Seq::empty()
    })
}

/// Whether `h` fits the wire format: each present string field's UTF-8
/// encoding fits its 128-byte slot.
pub open spec fn spec_encodable(h: HeaderView) -> bool {
    &&& h.uuid is Some ==> encode_utf8(h.uuid->0).len() <= 128
    &&& h.file_name is Some ==> encode_utf8(h.file_name->0).len() <= 128
}

/// Whether the UTF-8 encoding of `s` ends in no padding byte, so that the
/// decoder's padding trim leaves it intact.
pub open spec fn encodes_without_trailing_pad(s: Seq<char>) -> bool {
    let b = encode_utf8(s);
    b.len() == 0 || !is_pad_byte(b.last())
}

/// The flag byte of `h` has exactly the bits of the present fields set.
proof fn lemma_flags_bits(h: HeaderView)
    ensures
        spec_bit_at(spec_flags(h), 0) == (h.uuid is Some),
        spec_bit_at(spec_flags(h), 1) == (h.chunk_num is Some),
        spec_bit_at(spec_flags(h), 2) == (h.chunk_length is Some),
        spec_bit_at(spec_flags(h), 3) == (h.chunk_amount is Some),
        spec_bit_at(spec_flags(h), 4) == (h.file_name is Some),
{
    let a: u8 = if h.uuid is Some { 1 } else { 0 };
    let b: u8 = if h.chunk_num is Some { 1 } else { 0 };
    let c: u8 = if h.chunk_length is Some { 1 } else { 0 };
    let d: u8 = if h.chunk_amount is Some { 1 } else { 0 };
    let e: u8 = if h.file_name is Some { 1 } else { 0 };
    assert(spec_flags(h) == (a + 2 * b + 4 * c + 8 * d + 16 * e) as u8);
    let f: u8 = (a + 2 * b + 4 * c + 8 * d + 16 * e) as u8;
    assert(((f >> 0u8) & 1 == a) && ((f >> 1u8) & 1 == b) && ((f >> 2u8) & 1 == c) && ((f >> 3u8)
        & 1 == d) && ((f >> 4u8) & 1 == e)) by (bit_vector)
        requires
            a <= 1 && b <= 1 && c <= 1 && d <= 1 && e <= 1 && f == (a + 2 * b + 4 * c + 8 * d + 16
                * e) as u8,
    ;
}

impl Headers {
    /// Encodes this header for the wire. Succeeds exactly when each present
    /// string field's UTF-8 encoding fits its 128-byte slot; a field too long
    /// for its slot is an `InvalidRequest`.
    pub fn encode(&self) -> (r: Result<Vec<u8>, Errors>)
        ensures
            r is Ok <==> spec_encodable(self@),
            r matches Ok(v) ==> v@ == spec_encode(self@),
            r is Err ==> r == Err::<Vec<u8>, Errors>(Errors::InvalidRequest),
    {
        proof {
            lemma_flags_bits(self@);
        }
        let mut flags: u8 = 0;
        if self.uuid.is_some() {
            flags = flags + 1;
        }
        if self.chunk_num.is_some() {
            flags = flags + 2;
        }
        if self.chunk_length.is_some() {
            flags = flags + 4;
        }
        if self.chunk_amount.is_some() {
            flags = flags + 8;
        }
        if self.file_name.is_some() {
            flags = flags + 16;
        }
        assert(flags == spec_flags(self@));

        let mut out: Vec<u8> = Vec::new();
        out.push(flags);
        let ghost done0 = out@;
        assert(done0 =~= seq![spec_flags(self@)]);

        if let Some(u) = &self.uuid {
            let b = u.as_str().as_bytes();
            if b.len() > UUID_BYTES {
                return Err(Errors::InvalidRequest);
            }
            push_padded(&mut out, b, UUID_BYTES);
        }
        let ghost seg1 = if self@.uuid is Some {
            spec_pad_zeros(encode_utf8(self@.uuid->0), 128)
        } else {
            Seq::<u8>::empty()
        };
        let ghost done1 = done0 + seg1;
        assert(out@ =~= done1);

        if let Some(n) = &self.chunk_num {
            let b = u32_to_le_bytes(*n);
            push_padded(&mut out, b.as_slice(), CHUNK_BYTES);
        }
        let ghost seg2 = if self@.chunk_num is Some {
            spec_pad_zeros(spec_u32_to_le_bytes(self@.chunk_num->0), 32)
        } else {
            Seq::<u8>::empty()
        };
        let ghost done2 = done1 + seg2;
        assert(out@ =~= done2);

        if let Some(n) = &self.chunk_length {
            let b = u32_to_le_bytes(*n);
            push_padded(&mut out, b.as_slice(), CHUNK_LENGTH_BYTES);
        }
        let ghost seg3 = if self@.chunk_length is Some {
            spec_pad_zeros(spec_u32_to_le_bytes(self@.chunk_length->0), 32)
        } else {
            Seq::<u8>::empty()
        };
        let ghost done3 = done2 + seg3;
        assert(out@ =~= done3);

        if let Some(n) = &self.chunk_amount {
            let b = u32_to_le_bytes(*n);
            push_padded(&mut out, b.as_slice(), CHUNK_AMOUNT_BYTES);
        }
        let ghost seg4 = if self@.chunk_amount is Some {
            spec_pad_zeros(spec_u32_to_le_bytes(self@.chunk_amount->0), 32)
        } else {
            Seq::<u8>::empty()
        };
        let ghost done4 = done3 + seg4;
        assert(out@ =~= done4);

        if let Some(f) = &self.file_name {
            let b = f.as_str().as_bytes();
            if b.len() > FILE_NAME_BYTES {
                return Err(Errors::InvalidRequest);
            }
            push_padded(&mut out, b, FILE_NAME_BYTES);
        }
        let ghost seg5 = if self@.file_name is Some {
            spec_pad_zeros(encode_utf8(self@.file_name->0), 128)
        } else {
            Seq::<u8>::empty()
        };
        assert(out@ =~= done4 + seg5);
        assert(out@ =~= spec_encode(self@));

        Ok(out)
    }

    /// Whether this header has the new-upload shape: chunk length, chunk
    /// count and file name present, identifier and chunk index absent.
    pub fn is_new_request(&self) -> (r: bool)
        ensures
            r == spec_is_new_request(self@),
    {
        self.uuid.is_none() && self.chunk_num.is_none() && self.chunk_length.is_some()
            && self.chunk_amount.is_some() && self.file_name.is_some()
    }

    /// The fields of a new-upload header.
    pub fn get_new_request_headers(&self) -> (r: NewRequestHeaders)
        requires
            spec_is_new_request(self@),
        ensures
            r.chunk_length == self@.chunk_length->0,
            r.chunk_amount == self@.chunk_amount->0,
            r.file_name@ == self@.file_name->0,
    {
        NewRequestHeaders {
            chunk_length: *self.chunk_length.as_ref().unwrap(),
            chunk_amount: *self.chunk_amount.as_ref().unwrap(),
            file_name: self.file_name.as_ref().unwrap().clone(),
        }
    }

    /// Whether this header has the chunk-continuation shape: identifier and
    /// chunk index present, chunk length, chunk count and file name absent.
    pub fn is_chunk_request(&self) -> (r: bool)
        ensures
            r == spec_is_chunk_request(self@),
    {
        self.uuid.is_some() && self.chunk_num.is_some() && self.chunk_length.is_none()
            && self.chunk_amount.is_none() && self.file_name.is_none()
    }

    /// The fields of a chunk-continuation header.
    pub fn get_chunk_headers(&self) -> (r: ChunkHeaders)
        requires
            spec_is_chunk_request(self@),
        ensures
            r.uuid@ == self@.uuid->0,
            r.chunk_num == self@.chunk_num->0,
    {
        ChunkHeaders {
            uuid: self.uuid.as_ref().unwrap().clone(),
            chunk_num: *self.chunk_num.as_ref().unwrap(),
        }
    }

    /// Whether this header has one of the two valid shapes.
    pub fn is_valid(&self) -> (r: bool)
        ensures
            r == spec_is_valid(self@),
    {
        self.is_chunk_request() || self.is_new_request()
    }
}

/// The new-upload shape: chunk length, chunk count and file name present,
/// identifier and chunk index absent.
pub open spec fn spec_is_new_request(h: HeaderView) -> bool {
    &&& h.uuid is None
    &&& h.chunk_num is None
    &&& h.chunk_length is Some
    &&& h.chunk_amount is Some
    &&& h.file_name is Some
}

/// The chunk-continuation shape: identifier and chunk index present, chunk
/// length, chunk count and file name absent.
pub open spec fn spec_is_chunk_request(h: HeaderView) -> bool {
    &&& h.uuid is Some
    &&& h.chunk_num is Some
    &&& h.chunk_length is None
    &&& h.chunk_amount is None
    &&& h.file_name is None
}

/// Whether `h` has one of the two valid shapes.
pub open spec fn spec_is_valid(h: HeaderView) -> bool {
    spec_is_new_request(h) || spec_is_chunk_request(h)
}

/// Appends `b` to `out`, zero-filled at the end up to `width` bytes.
fn push_padded(out: &mut Vec<u8>, b: &[u8], width: usize)
    requires
        b@.len() <= width,
    ensures
        final(out)@ == old(out)@ + spec_pad_zeros(b@, width as nat),
{
    let ghost base = out@;
    let mut i: usize = 0;
    while i < b.len()
        invariant
            i <= b@.len(),
            out@ == base + b@.take(i as int),
        decreases b@.len() - i,
    {
        out.push(*slice_index_get(b, i));
        assert(out@ =~= base + b@.take(i as int + 1));
        i = i + 1;
    }
    assert(out@ =~= base + b@);
    let mut j: usize = b.len();
    while j < width
        invariant
            b@.len() <= j <= width,
            out@ == base + b@ + Seq::new((j - b@.len()) as nat, |k: int| 0u8),
        decreases width - j,
    {
        out.push(0);
        assert(out@ =~= base + b@ + Seq::new((j + 1 - b@.len()) as nat, |k: int| 0u8));
        j = j + 1;
    }
    assert(out@ =~= base + spec_pad_zeros(b@, width as nat));
}

/// Exactly two shapes: no header is at once a new-upload and a
/// chunk-continuation request, and a header is valid exactly when it is one of
/// the two — no third accepted shape exists.
pub proof fn lemma_exactly_two_shapes(h: HeaderView)
    ensures
        !(spec_is_new_request(h) && spec_is_chunk_request(h)),
        spec_is_valid(h) <==> (spec_is_new_request(h) != spec_is_chunk_request(h)),
{
}

/// Flag/field consistency: a decoded header has a field present exactly when
/// the flag byte had that field's bit set, and absent exactly when unset.
pub proof fn lemma_flag_field_consistency(bytes: Seq<u8>)
    requires
        spec_decode(bytes) is Ok,
    ensures
        ({
            let h = spec_decode(bytes)->Ok_0;
            &&& (h.uuid is Some) == spec_bit_at(bytes[0], 0)
            &&& (h.chunk_num is Some) == spec_bit_at(bytes[0], 1)
            &&& (h.chunk_length is Some) == spec_bit_at(bytes[0], 2)
            &&& (h.chunk_amount is Some) == spec_bit_at(bytes[0], 3)
            &&& (h.file_name is Some) == spec_bit_at(bytes[0], 4)
        }),
{
}

/// Trimming padding from a byte sequence that ends in no padding byte and was
/// zero-filled at the end recovers the sequence exactly.
proof fn lemma_trim_pad_zeros(b: Seq<u8>, k: nat)
    requires
        b.len() == 0 || !is_pad_byte(b.last()),
    ensures
        spec_trim_pad(b + Seq::new(k, |i: int| 0u8)) == b,
    decreases k,
{
    if k == 0 {
        assert(b + Seq::new(0, |i: int| 0u8) =~= b);
    } else {
        let s = b + Seq::new(k, |i: int| 0u8);
        assert(s.last() == 0);
        assert(s.drop_last() =~= b + Seq::new((k - 1) as nat, |i: int| 0u8));
        lemma_trim_pad_zeros(b, (k - 1) as nat);
    }
}

/// Header round-trip: a valid header whose string fields fit their slots and
/// end in no padding byte encodes to bytes that decode back to exactly the
/// same header, every present field preserved.
pub proof fn lemma_header_round_trip(h: HeaderView)
    requires
        spec_is_valid(h),
        spec_encodable(h),
        h.uuid is Some ==> encodes_without_trailing_pad(h.uuid->0),
        h.file_name is Some ==> encodes_without_trailing_pad(h.file_name->0),
    ensures
        spec_decode(spec_encode(h)) == Ok::<HeaderView, Errors>(h),
{
    lemma_flags_bits(h);
    lemma_auto_spec_u32_to_from_le_bytes();
    let bytes = spec_encode(h);
    let flags = spec_flags(h);
    assert(bytes[0] == flags);
    assert(bytes.len() == spec_header_len(flags));
    if spec_is_new_request(h) {
        let lenb = spec_pad_zeros(spec_u32_to_le_bytes(h.chunk_length->0), 32);
        let amtb = spec_pad_zeros(spec_u32_to_le_bytes(h.chunk_amount->0), 32);
        let nameb = spec_pad_zeros(encode_utf8(h.file_name->0), 128);
        assert(spec_field_offset(flags, 2) == 1);
        assert(spec_field_offset(flags, 3) == 33);
        assert(spec_field_offset(flags, 4) == 65);
        assert(spec_field_seg(bytes, 2) =~= lenb);
        assert(spec_field_seg(bytes, 3) =~= amtb);
        assert(spec_field_seg(bytes, 4) =~= nameb);
        assert(lenb.take(4) =~= spec_u32_to_le_bytes(h.chunk_length->0));
        assert(amtb.take(4) =~= spec_u32_to_le_bytes(h.chunk_amount->0));
        assert(spec_read_u32(spec_field_seg(bytes, 2)) == h.chunk_length->0);
        assert(spec_read_u32(spec_field_seg(bytes, 3)) == h.chunk_amount->0);
        lemma_trim_pad_zeros(
            encode_utf8(h.file_name->0),
            (128 - encode_utf8(h.file_name->0).len()) as nat,
        );
        assert(spec_trim_pad(spec_field_seg(bytes, 4)) == encode_utf8(h.file_name->0));
        encode_utf8_decode_utf8(h.file_name->0);
        assert(spec_decode(bytes)->Ok_0 =~= h);
    } else {
        let idb = spec_pad_zeros(encode_utf8(h.uuid->0), 128);
        let numb = spec_pad_zeros(spec_u32_to_le_bytes(h.chunk_num->0), 32);
        assert(spec_field_offset(flags, 0) == 1);
        assert(spec_field_offset(flags, 1) == 129);
        assert(spec_field_seg(bytes, 0) =~= idb);
        assert(spec_field_seg(bytes, 1) =~= numb);
        assert(numb.take(4) =~= spec_u32_to_le_bytes(h.chunk_num->0));
        assert(spec_read_u32(spec_field_seg(bytes, 1)) == h.chunk_num->0);
        lemma_trim_pad_zeros(encode_utf8(h.uuid->0), (128 - encode_utf8(h.uuid->0).len()) as nat);
        assert(spec_trim_pad(spec_field_seg(bytes, 0)) == encode_utf8(h.uuid->0));
        encode_utf8_decode_utf8(h.uuid->0);
        assert(spec_decode(bytes)->Ok_0 =~= h);
    }
}

} // verus!
