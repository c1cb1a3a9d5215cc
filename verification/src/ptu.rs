//! PicoQuant PTU file structures: the header tag records (48-byte
//! name/index/type/payload cells), the record-type table, and the framing
//! of the packed 32-bit record body.
use crate::errors::Error;
use crate::headers::RecordType;
use vstd::prelude::*;

verus! {

/// A little-endian byte sequence read as an unsigned integer.
pub open spec fn le_bytes_spec(b: Seq<u8>) -> int
    decreases b.len(),
{
    if b.len() == 0 {
        0
    } else {
        b[0] + 256 * le_bytes_spec(b.skip(1))
    }
}

/// Unfold the value of a sequence that starts with four bytes.
pub proof fn lemma_le_bytes4(b: Seq<u8>)
    requires
        b.len() >= 4,
    ensures
        le_bytes_spec(b) == b[0] + 256 * b[1] + 65536 * b[2] + 16777216 * b[3] + 0x1_0000_0000
            * le_bytes_spec(b.skip(4)),
{
    let s1 = b.skip(1);
    let s2 = s1.skip(1);
    let s3 = s2.skip(1);
    let s4 = s3.skip(1);
    assert(s4 =~= b.skip(4));
    assert(s1[0] == b[1] && s2[0] == b[2] && s3[0] == b[3]);
    assert(le_bytes_spec(b) == b[0] + 256 * le_bytes_spec(s1));
    assert(le_bytes_spec(s1) == s1[0] + 256 * le_bytes_spec(s2));
    assert(le_bytes_spec(s2) == s2[0] + 256 * le_bytes_spec(s3));
    assert(le_bytes_spec(s3) == s3[0] + 256 * le_bytes_spec(s4));
}

/// A four-byte little-endian value lies below 2^32.
pub proof fn lemma_le_bytes_bound4(b: Seq<u8>)
    requires
        b.len() == 4,
    ensures
        0 <= le_bytes_spec(b) < 0x1_0000_0000,
{
    lemma_le_bytes4(b);
    assert(le_bytes_spec(b.skip(4)) == 0);
}

/// An eight-byte little-endian value splits into two four-byte halves,
/// and lies below 2^64.
pub proof fn lemma_le_bytes8(b: Seq<u8>)
    requires
        b.len() == 8,
    ensures
        le_bytes_spec(b) == le_bytes_spec(b.subrange(0, 4)) + 0x1_0000_0000 * le_bytes_spec(
            b.subrange(4, 8),
        ),
        0 <= le_bytes_spec(b) < 0x1_0000_0000_0000_0000,
{
    lemma_le_bytes4(b);
    let lo = b.subrange(0, 4);
    let hi = b.subrange(4, 8);
    assert(hi =~= b.skip(4));
    lemma_le_bytes4(lo);
    assert(le_bytes_spec(lo.skip(4)) == 0);
    assert(lo[0] == b[0] && lo[1] == b[1] && lo[2] == b[2] && lo[3] == b[3]);
    lemma_le_bytes_bound4(lo);
    lemma_le_bytes_bound4(hi);
}

/// Four little-endian bytes at offset `at` of a slice.
pub fn le_u32_at(b: &[u8], at: usize) -> (r: u32)
    requires
        at + 4 <= b@.len(),
    ensures
        r == le_bytes_spec(b@.subrange(at as int, at + 4)),
{
    let ghost s = b@.subrange(at as int, at + 4);
    proof {
        lemma_le_bytes4(s);
        assert(le_bytes_spec(s.skip(4)) == 0);
        assert(s[0] == b@[at as int] && s[1] == b@[at + 1] && s[2] == b@[at + 2] && s[3] == b@[at
            + 3]);
    }
    b[at] as u32 + 256 * (b[at + 1] as u32) + 65536 * (b[at + 2] as u32) + 16777216 * (b[at
        + 3] as u32)
}

/// Four little-endian bytes as an unsigned 32-bit integer.
pub fn le_u32(b: &[u8]) -> (r: u32)
    requires
        b@.len() == 4,
    ensures
        r == le_bytes_spec(b@),
{
    proof {
        assert(b@.subrange(0, 4) =~= b@);
    }
    le_u32_at(b, 0)
}

/// Eight little-endian bytes as an unsigned 64-bit integer.
pub fn le_u64(b: &[u8]) -> (r: u64)
    requires
        b@.len() == 8,
    ensures
        r == le_bytes_spec(b@),
{
    let lo = le_u32_at(b, 0);
    let hi = le_u32_at(b, 4);
    proof {
        lemma_le_bytes8(b@);
        lemma_le_bytes_bound4(b@.subrange(0, 4));
        lemma_le_bytes_bound4(b@.subrange(4, 8));
    }
    lo as u64 + 0x1_0000_0000 * (hi as u64)
}

/// Eight little-endian bytes as a signed 64-bit two's-complement integer.
pub open spec fn le_i64_spec(b: Seq<u8>) -> int {
    let v = le_bytes_spec(b);
    if v < 0x8000_0000_0000_0000 {
        v
    } else {
        v - 0x1_0000_0000_0000_0000
    }
}

pub fn le_i64(b: &[u8]) -> (r: i64)
    requires
        b@.len() == 8,
    ensures
        r == le_i64_spec(b@),
{
    proof {
        lemma_le_bytes8(b@);
    }
    let u = le_u64(b);
    if u >= 0x8000_0000_0000_0000 {
        ((u - 0x8000_0000_0000_0000) as i64) - 0x7FFF_FFFF_FFFF_FFFF - 1
    } else {
        u as i64
    }
}

/// Four little-endian bytes as a signed 32-bit two's-complement integer.
pub open spec fn le_i32_spec(b: Seq<u8>) -> int {
    let v = le_bytes_spec(b);
    if v < 0x8000_0000 {
        v
    } else {
        v - 0x1_0000_0000
    }
}

pub fn le_i32(b: &[u8]) -> (r: i32)
    requires
        b@.len() == 4,
    ensures
        r == le_i32_spec(b@),
{
    proof {
        lemma_le_bytes_bound4(b@);
    }
    let u = le_u32(b);
    if u >= 0x8000_0000 {
        ((u - 0x8000_0000) as i32) - 0x7FFF_FFFF - 1
    } else {
        u as i32
    }
}

/// The packed record body: every full little-endian 32-bit word, in file
/// order; a trailing partial word (a short read) is dropped.
pub fn records_from_bytes(bytes: &[u8]) -> (r: Vec<u32>)
    ensures
        r@.len() == bytes@.len() / 4,
        forall|i: int|
            0 <= i < r@.len() ==> r@[i] == le_bytes_spec(bytes@.subrange(4 * i, 4 * i + 4)),
{
    let blen = bytes.len();
    let n = blen / 4;
    proof {
        assert(4 * (bytes@.len() as int / 4) <= bytes@.len() as int) by (nonlinear_arith);
    }
    let mut r: Vec<u32> = Vec::new();
    let mut i: usize = 0;
    while i < n
        invariant
            n == bytes@.len() / 4,
            blen == bytes@.len(),
            4 * (n as int) <= blen as int,
            i <= n,
            r@.len() == i,
            forall|k: int|
                0 <= k < i ==> r@[k] == le_bytes_spec(bytes@.subrange(4 * k, 4 * k + 4)),
        decreases n - i,
    {
        proof {
            assert(4 * (i as int) + 4 <= 4 * (n as int));
        }
        let w = le_u32_at(bytes, 4 * i);
        r.push(w);
        i = i + 1;
    }
    r
}

/// The records of a `[start, stop)` range: the byte offset where it
/// begins and how many records it holds. An absent start defaults to the
/// first record, an absent stop to the file's declared record count.
pub open spec fn range_first(start_record: Option<usize>) -> int {
    match start_record {
        Some(s) => s as int,
        None => 0,
    }
}

pub open spec fn range_last(stop_record: Option<usize>, num_records: u64) -> int {
    match stop_record {
        Some(s) => s as int,
        None => num_records as int,
    }
}

pub fn record_range(
    num_records: u64,
    data_offset: u64,
    start_record: Option<usize>,
    stop_record: Option<usize>,
) -> (r: (u64, u64))
    requires
        range_first(start_record) <= range_last(stop_record, num_records),
        range_last(stop_record, num_records) <= u64::MAX,
        data_offset + 4 * range_first(start_record) <= u64::MAX,
    ensures
        r.0 == data_offset + 4 * range_first(start_record),
        r.1 == range_last(stop_record, num_records) - range_first(start_record),
{
    let first: u64 = match start_record {
        Some(s) => s as u64,
        None => 0,
    };
    let last: u64 = match stop_record {
        Some(s) => s as u64,
        None => num_records,
    };
    (data_offset + 4 * first, last - first)
}

/// A header tag value. Floating-point payloads are carried as their raw
/// IEEE bit patterns; interpreting them is the caller's concern.
pub enum PTUTag {
    Empty8,
    Bool8(bool),
    Int8(i64),
    BitSet64(i64),
    Color8(i64),
    Float8(u64),
    TDateTime(u64),
    Float8Array(Vec<u64>),
    AnsiString8(String),
    WideString(String),
    BinaryBlob(Vec<u8>),
}

pub const TYPE_EMPTY8: u32 = 0xFFFF0008;

pub const TYPE_BOOL8: u32 = 0x00000008;

pub const TYPE_INT8: u32 = 0x10000008;

pub const TYPE_BITSET64: u32 = 0x11000008;

pub const TYPE_COLOR8: u32 = 0x12000008;

pub const TYPE_FLOAT8: u32 = 0x20000008;

pub const TYPE_TDATETIME: u32 = 0x21000008;

pub const TYPE_FLOAT8ARRAY: u32 = 0x2001FFFF;

pub const TYPE_ANSISTRING8: u32 = 0x4001FFFF;

pub const TYPE_WIDESTRING: u32 = 0x4002FFFF;

pub const TYPE_BINARYBLOB: u32 = 0xFFFFFFFF;

pub open spec fn known_tag_type(c: u32) -> bool {
    ||| c == TYPE_EMPTY8
    ||| c == TYPE_BOOL8
    ||| c == TYPE_INT8
    ||| c == TYPE_BITSET64
    ||| c == TYPE_COLOR8
    ||| c == TYPE_FLOAT8
    ||| c == TYPE_TDATETIME
    ||| c == TYPE_FLOAT8ARRAY
    ||| c == TYPE_ANSISTRING8
    ||| c == TYPE_WIDESTRING
    ||| c == TYPE_BINARYBLOB
}

pub open spec fn trim_trailing<T>(s: Seq<T>, zero: T) -> Seq<T>
    decreases s.len(),
{
    if s.len() > 0 && s.last() == zero {
        trim_trailing(s.drop_last(), zero)
    } else {
        s
    }
}

pub open spec fn trim_leading<T>(s: Seq<T>, zero: T) -> Seq<T>
    decreases s.len(),
{
    if s.len() > 0 && s[0] == zero {
        trim_leading(s.skip(1), zero)
    } else {
        s
    }
}

/// The sequence with its leading and trailing zero elements removed.
pub open spec fn trim_zeros<T>(s: Seq<T>, zero: T) -> Seq<T> {
    trim_leading(trim_trailing(s, zero), zero)
}

pub proof fn lemma_trim_trailing_at<T>(s: Seq<T>, zero: T, h: int)
    requires
        0 <= h <= s.len(),
        forall|k: int| h <= k < s.len() ==> s[k] == zero,
        h > 0 ==> s[h - 1] != zero,
    ensures
        trim_trailing(s, zero) == s.take(h),
    decreases s.len(),
{
    if s.len() == h {
        assert(s.take(h) =~= s);
    } else {
        assert(s[s.len() - 1] == zero);
        lemma_trim_trailing_at(s.drop_last(), zero, h);
        assert(s.drop_last().take(h) =~= s.take(h));
    }
}

pub proof fn lemma_trim_leading_at<T>(s: Seq<T>, zero: T, l: int)
    requires
        0 <= l <= s.len(),
        forall|k: int| 0 <= k < l ==> s[k] == zero,
        l < s.len() ==> s[l] != zero,
    ensures
        trim_leading(s, zero) == s.skip(l),
    decreases l,
{
    if l == 0 {
        assert(s.skip(0) =~= s);
    } else {
        assert(s[0] == zero);
        lemma_trim_leading_at(s.skip(1), zero, l - 1);
        assert(s.skip(1).skip(l - 1) =~= s.skip(l));
    }
}

/// Strip NUL bytes from both ends (tag names are NUL-padded to their
/// cell, and string payloads carry trailing NULs).
fn trim_nul_bytes(b: &[u8]) -> (r: Vec<u8>)
    ensures
        r@ == trim_zeros(b@, 0u8),
{
    let blen = b.len();
    let mut hi = blen;
    while hi > 0 && b[hi - 1] == 0
        invariant
            hi <= blen,
            blen == b@.len(),
            forall|k: int| hi <= k < blen ==> b@[k] == 0u8,
        decreases hi,
    {
        hi = hi - 1;
    }
    let mut lo: usize = 0;
    while lo < hi && b[lo] == 0
        invariant
            lo <= hi,
            hi <= blen,
            blen == b@.len(),
            forall|k: int| 0 <= k < lo ==> b@[k] == 0u8,
        decreases hi - lo,
    {
        lo = lo + 1;
    }
    let mut r: Vec<u8> = Vec::new();
    let mut k = lo;
    while k < hi
        invariant
            lo <= k <= hi,
            hi <= blen,
            blen == b@.len(),
            r@.len() == k - lo,
            forall|t: int| 0 <= t < r@.len() ==> r@[t] == b@[lo + t],
        decreases hi - k,
    {
        r.push(b[k]);
        k = k + 1;
    }
    proof {
        lemma_trim_trailing_at(b@, 0u8, hi as int);
        lemma_trim_leading_at(b@.take(hi as int), 0u8, lo as int);
        assert(r@ =~= b@.take(hi as int).skip(lo as int));
    }
    r
}

/// Strip NUL units from both ends of a UTF-16 unit sequence.
fn trim_nul_units(b: &[u16]) -> (r: Vec<u16>)
    ensures
        r@ == trim_zeros(b@, 0u16),
{
    let blen = b.len();
    let mut hi = blen;
    while hi > 0 && b[hi - 1] == 0
        invariant
            hi <= blen,
            blen == b@.len(),
            forall|k: int| hi <= k < blen ==> b@[k] == 0u16,
        decreases hi,
    {
        hi = hi - 1;
    }
    let mut lo: usize = 0;
    while lo < hi && b[lo] == 0
        invariant
            lo <= hi,
            hi <= blen,
            blen == b@.len(),
            forall|k: int| 0 <= k < lo ==> b@[k] == 0u16,
        decreases hi - lo,
    {
        lo = lo + 1;
    }
    let mut r: Vec<u16> = Vec::new();
    let mut k = lo;
    while k < hi
        invariant
            lo <= k <= hi,
            hi <= blen,
            blen == b@.len(),
            r@.len() == k - lo,
            forall|t: int| 0 <= t < r@.len() ==> r@[t] == b@[lo + t],
        decreases hi - k,
    {
        r.push(b[k]);
        k = k + 1;
    }
    proof {
        lemma_trim_trailing_at(b@, 0u16, hi as int);
        lemma_trim_leading_at(b@.take(hi as int), 0u16, lo as int);
        assert(r@ =~= b@.take(hi as int).skip(lo as int));
    }
    r
}

/// The big-endian 16-bit units of a byte sequence, one per byte pair; a
/// trailing odd byte is dropped.
pub open spec fn be_units_spec(b: Seq<u8>) -> Seq<u16> {
    Seq::new((b.len() / 2) as nat, |i: int| (256 * b[2 * i] + b[2 * i + 1]) as u16)
}

fn be_units(b: &[u8]) -> (r: Vec<u16>)
    ensures
        r@ == be_units_spec(b@),
{
    let blen = b.len();
    let n = blen / 2;
    proof {
        assert(2 * (b@.len() as int / 2) <= b@.len() as int) by (nonlinear_arith);
    }
    let mut r: Vec<u16> = Vec::new();
    let mut i: usize = 0;
    while i < n
        invariant
            n == b@.len() / 2,
            blen == b@.len(),
            2 * (n as int) <= blen as int,
            i <= n,
            r@.len() == i,
            forall|k: int| 0 <= k < i ==> r@[k] == (256 * b@[2 * k] + b@[2 * k + 1]) as u16,
        decreases n - i,
    {
        let u: u16 = 256 * (b[2 * i] as u16) + (b[2 * i + 1] as u16);
        r.push(u);
        i = i + 1;
    }
    proof {
        assert(r@ =~= be_units_spec(b@));
    }
    r
}

/// The decoded characters of a UTF-8 byte sequence, or nothing where the
/// bytes are not valid UTF-8.
pub uninterp spec fn utf8_chars(bytes: Seq<u8>) -> Option<Seq<char>>;

/// Relies on str::from_utf8: it succeeds exactly on valid UTF-8 and the
/// decoded characters depend on the bytes alone; empty input is valid.
#[verifier::external_body]
fn utf8_decode(bytes: &[u8]) -> (r: Option<String>)
    ensures
        r matches Some(s) ==> utf8_chars(bytes@) == Some(s@),
        r is None ==> utf8_chars(bytes@) is None,
        bytes@.len() == 0 ==> r is Some,
{
    std::str::from_utf8(bytes).ok().map(|s| s.to_string())
}

/// The decoded characters of a UTF-16 unit sequence, or nothing where the
/// units are not valid UTF-16.
pub uninterp spec fn utf16_chars(units: Seq<u16>) -> Option<Seq<char>>;

/// Relies on char::decode_utf16: it succeeds exactly on valid UTF-16 and
/// the decoded characters depend on the units alone; empty input is valid.
#[verifier::external_body]
fn utf16_decode(units: &[u16]) -> (r: Option<String>)
    ensures
        r matches Some(s) ==> utf16_chars(units@) == Some(s@),
        r is None ==> utf16_chars(units@) is None,
        units@.len() == 0 ==> r is Some,
{
    char::decode_utf16(units.iter().copied()).collect::<Result<String, _>>().ok()
}

/// The key of an indexed tag: its name with the decimal index appended.
pub uninterp spec fn indexed_key(name: Seq<char>, index: int) -> Seq<char>;

/// Relies on the format macro: the key depends on name and index alone.
#[verifier::external_body]
fn format_indexed_key(name: &String, index: i32) -> (r: String)
    ensures
        r@ == indexed_key(name@, index as int),
{
    format!("{}{}", name, index)
}

/// Parse the fixed head of one 48-byte header tag: the NUL-padded ASCII
/// name (with the index appended when it is not the scalar marker -1),
/// the index, and the type code.
pub fn read_tag(tagname_buffer: &[u8], index_buffer: &[u8], type_buffer: &[u8]) -> (r: Result<
    (String, i32, u32),
    Error,
>)
    requires
        tagname_buffer@.len() == 32,
        index_buffer@.len() == 4,
        type_buffer@.len() == 4,
    ensures
        ({
            let idx = le_i32_spec(index_buffer@);
            let code = le_bytes_spec(type_buffer@);
            match utf8_chars(trim_zeros(tagname_buffer@, 0u8)) {
                Option::None => r matches Err(e) && e matches Error::InvalidHeader(_),
                Option::Some(cs) => if !known_tag_type(code as u32) {
                    r matches Err(e) && e matches Error::InvalidHeader(_)
                } else {
                    r matches Ok(t) && t.1 == idx && t.2 == code && t.0@ == (if idx > -1 {
                        indexed_key(cs, idx)
                    } else {
                        cs
                    })
                },
            }
        }),
{
    let tag_index = le_i32(index_buffer);
    let trimmed = trim_nul_bytes(tagname_buffer);
    let name = match utf8_decode(trimmed.as_slice()) {
        Some(s) => s,
        None => {
            return Err(Error::InvalidHeader("Invalid utf8 string in header.".to_owned()));
        },
    };
    let code = le_u32(type_buffer);
    if !(code == TYPE_EMPTY8 || code == TYPE_BOOL8 || code == TYPE_INT8 || code == TYPE_BITSET64
        || code == TYPE_COLOR8 || code == TYPE_FLOAT8 || code == TYPE_TDATETIME || code
        == TYPE_FLOAT8ARRAY || code == TYPE_ANSISTRING8 || code == TYPE_WIDESTRING || code
        == TYPE_BINARYBLOB) {
        return Err(Error::InvalidHeader("Invalid PTUTag type".to_owned()));
    }
    let key = if tag_index > -1 {
        format_indexed_key(&name, tag_index)
    } else {
        name
    };
    Ok((key, tag_index, code))
}

/// How many payload bytes follow a tag of the given type: the length the
/// 8-byte value field declares for array, string and blob tags, nothing
/// for scalar tags.
pub open spec fn tag_payload_len(code: u32, value: Seq<u8>) -> int {
    if code == TYPE_FLOAT8ARRAY {
        (le_bytes_spec(value) / 8) * 8
    } else if code == TYPE_ANSISTRING8 || code == TYPE_WIDESTRING || code == TYPE_BINARYBLOB {
        le_bytes_spec(value)
    } else {
        0
    }
}

/// Decode one header tag from its 8-byte value field and, for the
/// variable-length types, the payload bytes that followed it. A payload
/// of the wrong length reads as a short file.
pub fn process_tag(tag_type: u32, value_buffer: &[u8], payload: &[u8]) -> (r: Result<
    PTUTag,
    Error,
>)
    requires
        value_buffer@.len() == 8,
    ensures
        !known_tag_type(tag_type) ==> (r matches Err(e) && e matches Error::InvalidHeader(_)),
        known_tag_type(tag_type) && payload@.len() != tag_payload_len(tag_type, value_buffer@)
            ==> r == Err::<PTUTag, Error>(Error::IOError),
        known_tag_type(tag_type) && payload@.len() == tag_payload_len(tag_type, value_buffer@)
            ==> ({
            let v = value_buffer@;
            if tag_type == TYPE_EMPTY8 {
                r == Ok::<PTUTag, Error>(PTUTag::Empty8)
            } else if tag_type == TYPE_BOOL8 {
                r matches Ok(PTUTag::Bool8(x)) && x == (le_i64_spec(v) != 0)
            } else if tag_type == TYPE_INT8 {
                r matches Ok(PTUTag::Int8(x)) && x == le_i64_spec(v)
            } else if tag_type == TYPE_BITSET64 {
                r matches Ok(PTUTag::BitSet64(x)) && x == le_i64_spec(v)
            } else if tag_type == TYPE_COLOR8 {
                r matches Ok(PTUTag::Color8(x)) && x == le_i64_spec(v)
            } else if tag_type == TYPE_FLOAT8 {
                r matches Ok(PTUTag::Float8(x)) && x == le_bytes_spec(v)
            } else if tag_type == TYPE_TDATETIME {
                r matches Ok(PTUTag::TDateTime(x)) && x == le_bytes_spec(v)
            } else if tag_type == TYPE_FLOAT8ARRAY {
                r matches Ok(PTUTag::Float8Array(a)) && a@.len() == le_bytes_spec(v) / 8
                    && (forall|i: int|
                    0 <= i < a@.len() ==> a@[i] == le_bytes_spec(
                        payload@.subrange(8 * i, 8 * i + 8),
                    ))
            } else if tag_type == TYPE_ANSISTRING8 {
                match utf8_chars(trim_zeros(payload@, 0u8)) {
                    Option::Some(cs) => r matches Ok(PTUTag::AnsiString8(s)) && s@ == cs,
                    Option::None => r matches Err(e) && e matches Error::InvalidHeader(_),
                }
            } else if tag_type == TYPE_WIDESTRING {
                match utf16_chars(trim_zeros(be_units_spec(payload@), 0u16)) {
                    Option::Some(cs) => r matches Ok(PTUTag::WideString(s)) && s@ == cs,
                    Option::None => r matches Err(e) && e matches Error::InvalidHeader(_),
                }
            } else {
                r matches Ok(PTUTag::BinaryBlob(bb)) && bb@ == payload@
            }
        }),
{
    if !(tag_type == TYPE_EMPTY8 || tag_type == TYPE_BOOL8 || tag_type == TYPE_INT8 || tag_type
        == TYPE_BITSET64 || tag_type == TYPE_COLOR8 || tag_type == TYPE_FLOAT8 || tag_type
        == TYPE_TDATETIME || tag_type == TYPE_FLOAT8ARRAY || tag_type == TYPE_ANSISTRING8
        || tag_type == TYPE_WIDESTRING || tag_type == TYPE_BINARYBLOB) {
        return Err(Error::InvalidHeader("Invalid PTUTag type".to_owned()));
    }
    proof {
        lemma_le_bytes8(value_buffer@);
    }
    let declared = le_u64(value_buffer);
    let need: u64 = if tag_type == TYPE_FLOAT8ARRAY {
        (declared / 8) * 8
    } else if tag_type == TYPE_ANSISTRING8 || tag_type == TYPE_WIDESTRING || tag_type
        == TYPE_BINARYBLOB {
        declared
    } else {
        0
    };
    proof {
        assert(8 * (declared as int / 8) <= declared as int) by (nonlinear_arith);
        assert((declared as int / 8) * 8 == 8 * (declared as int / 8));
    }
    if payload.len() as u64 != need {
        return Err(Error::IOError);
    }
    if tag_type == TYPE_EMPTY8 {
        Ok(PTUTag::Empty8)
    } else if tag_type == TYPE_BOOL8 {
        let x = le_i64(value_buffer);
        Ok(PTUTag::Bool8(x != 0))
    } else if tag_type == TYPE_INT8 {
        Ok(PTUTag::Int8(le_i64(value_buffer)))
    } else if tag_type == TYPE_BITSET64 {
        Ok(PTUTag::BitSet64(le_i64(value_buffer)))
    } else if tag_type == TYPE_COLOR8 {
        Ok(PTUTag::Color8(le_i64(value_buffer)))
    } else if tag_type == TYPE_FLOAT8 {
        Ok(PTUTag::Float8(le_u64(value_buffer)))
    } else if tag_type == TYPE_TDATETIME {
        Ok(PTUTag::TDateTime(le_u64(value_buffer)))
    } else if tag_type == TYPE_FLOAT8ARRAY {
        let count = (declared / 8) as usize;
        let payload_len = payload.len();
        let mut floats: Vec<u64> = Vec::new();
        let mut i: usize = 0;
        while i < count
            invariant
                payload@.len() == 8 * (count as int),
                payload_len == payload@.len(),
                i <= count,
                floats@.len() == i,
                forall|k: int|
                    0 <= k < i ==> floats@[k] == le_bytes_spec(payload@.subrange(8 * k, 8 * k + 8)),
            decreases count - i,
        {
            let ghost chunk = payload@.subrange(8 * (i as int), 8 * (i as int) + 8);
            let lo = le_u32_at(payload, 8 * i);
            let hi = le_u32_at(payload, 8 * i + 4);
            proof {
                lemma_le_bytes8(chunk);
                assert(chunk.subrange(0, 4) =~= payload@.subrange(
                    8 * (i as int),
                    8 * (i as int) + 4,
                ));
                assert(chunk.subrange(4, 8) =~= payload@.subrange(
                    8 * (i as int) + 4,
                    8 * (i as int) + 8,
                ));
                lemma_le_bytes_bound4(chunk.subrange(0, 4));
                lemma_le_bytes_bound4(chunk.subrange(4, 8));
            }
            let w = lo as u64 + 0x1_0000_0000 * (hi as u64);
            floats.push(w);
            i = i + 1;
        }
        Ok(PTUTag::Float8Array(floats))
    } else if tag_type == TYPE_ANSISTRING8 {
        let trimmed = trim_nul_bytes(payload);
        match utf8_decode(trimmed.as_slice()) {
            Some(s) => Ok(PTUTag::AnsiString8(s)),
            None => Err(Error::InvalidHeader("Invalid utf8 string in header.".to_owned())),
        }
    } else if tag_type == TYPE_WIDESTRING {
        let units = be_units(payload);
        let trimmed = trim_nul_units(units.as_slice());
        match utf16_decode(trimmed.as_slice()) {
            Some(s) => Ok(PTUTag::WideString(s)),
            None => Err(Error::InvalidHeader("Invalid utf16 string in header.".to_owned())),
        }
    } else {
        let mut blob: Vec<u8> = Vec::new();
        let mut i: usize = 0;
        let plen = payload.len();
        while i < plen
            invariant
                plen == payload@.len(),
                i <= plen,
                blob@.len() == i,
                forall|k: int| 0 <= k < i ==> blob@[k] == payload@[k],
            decreases plen - i,
        {
            blob.push(payload[i]);
            i = i + 1;
        }
        proof {
            assert(blob@ =~= payload@);
        }
        Ok(PTUTag::BinaryBlob(blob))
    }
}

/// Metadata of one PTU file, as plain header-derived values: the declared
/// record-type code, the record count, the byte offset of the record
/// body, and — meaningful for T3 formats only — the sync period and the
/// dtime resolution, both in picoseconds.
pub struct PTUFile {
    pub rec_type_code: i64,
    pub num_records: u64,
    pub data_offset: u64,
    pub sync_period_ps: u64,
    pub dtime_res_ps: u64,
}

/// The record-type table: which decoder a declared code selects. `None`
/// is an invalid code; recognised codes without a decoder map to
/// `NotImplemented`.
pub open spec fn record_type_of_code(code: i64) -> Option<RecordType> {
    if code == 0x00010303 {
        Some(RecordType::NotImplemented)  // PicoHarp T3
    } else if code == 0x00010203 {
        Some(RecordType::PHT2)  // PicoHarp T2
    } else if code == 0x00010304 {
        Some(RecordType::NotImplemented)  // HydraHarp V1 T3
    } else if code == 0x00010204 {
        Some(RecordType::HHT2_HH1)  // HydraHarp V1 T2
    } else if code == 0x01010304 {
        Some(RecordType::NotImplemented)  // HydraHarp V2 T3
    } else if code == 0x01010204 {
        Some(RecordType::HHT2_HH2)  // HydraHarp V2 T2
    } else if code == 0x00010305 || code == 0x00010306 {
        Some(RecordType::NotImplemented)  // TimeHarp260 N/P T3
    } else if code == 0x00010205 || code == 0x00010206 {
        Some(RecordType::HHT2_HH2)  // TimeHarp260 N/P T2
    } else {
        None
    }
}

/// The record type a file declares, or `NotImplemented` when its code is
/// invalid; dispatchers only accept files whose code maps to a decoder.
pub open spec fn file_record_type(f: PTUFile) -> RecordType {
    match record_type_of_code(f.rec_type_code) {
        Some(rt) => rt,
        None => RecordType::NotImplemented,
    }
}

impl PTUFile {
    /// The decoder selected by the file's record-type code, per the
    /// record-type table.
    pub fn record_type(&self) -> (r: Result<RecordType, Error>)
        ensures
            match record_type_of_code(self.rec_type_code) {
                Some(rt) => r matches Ok(x) && x == rt,
                None => r matches Err(e) && e matches Error::InvalidHeader(_),
            },
    {
        let code = self.rec_type_code;
        if code == 0x00010303 {
            Ok(RecordType::NotImplemented)
        } else if code == 0x00010203 {
            Ok(RecordType::PHT2)
        } else if code == 0x00010304 {
            Ok(RecordType::NotImplemented)
        } else if code == 0x00010204 {
            Ok(RecordType::HHT2_HH1)
        } else if code == 0x01010304 {
            Ok(RecordType::NotImplemented)
        } else if code == 0x01010204 {
            Ok(RecordType::HHT2_HH2)
        } else if code == 0x00010305 || code == 0x00010306 {
            Ok(RecordType::NotImplemented)
        } else if code == 0x00010205 || code == 0x00010206 {
            Ok(RecordType::HHT2_HH2)
        } else {
            Err(Error::InvalidHeader("Invalid RecordType type".to_owned()))
        }
    }
}

} // verus!
