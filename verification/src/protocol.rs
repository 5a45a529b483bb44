//! The wire codec: big-endian integers, the 10-byte header, fixed-width
//! zero-padded fields, file identifiers, file extensions, and metadata
//! records.
//!
//! Every encoder and decoder is specified against a spec-level picture of the
//! byte format, so that the round-trip laws of the protocol can be stated and
//! proved once and reused by every operation.

use vstd::prelude::*;
use vstd::slice::{slice_subrange, slice_to_vec};
use vstd::string::StringSliceAdditionalSpecFns;
use vstd::utf8::{decode_utf8, encode_utf8, valid_utf8};

use crate::errors::FastDFSError;
use crate::types::{TrackerHeader, FDFS_PROTO_HEADER_LEN};

verus! {

// ---------------------------------------------------------------------------
// Strings as bytes
// ---------------------------------------------------------------------------
/// What `String::from_utf8_lossy` yields on bytes that are not valid UTF-8: a
/// fixed function of the bytes alone.
pub uninterp spec fn lossy_decode(bytes: Seq<u8>) -> Seq<char>;

/// The characters a lossy UTF-8 decoding of `bytes` yields: the exact decoding
/// where the bytes are valid UTF-8.
pub open spec fn utf8_chars(bytes: Seq<u8>) -> Seq<char> {
    if valid_utf8(bytes) {
        decode_utf8(bytes)
    } else {
        lossy_decode(bytes)
    }
}

/// Relies on `String::from_utf8_lossy`: valid UTF-8 decodes to exactly its
/// characters, and what replaces invalid sequences depends on the bytes alone.
#[verifier::external_body]
pub fn bytes_to_string(data: &[u8]) -> (r: String)
    ensures
        r@ == utf8_chars(data@),
        !valid_utf8(data@) ==> r@ == lossy_decode(data@),
{
    String::from_utf8_lossy(data).into_owned()
}

/// Two character sequences with the same UTF-8 encoding are the same.
pub proof fn lemma_encode_utf8_injective(a: Seq<char>, b: Seq<char>)
    requires
        encode_utf8(a) == encode_utf8(b),
    ensures
        a == b,
{
    vstd::utf8::encode_utf8_decode_utf8(a);
    vstd::utf8::encode_utf8_decode_utf8(b);
}

/// Whether two strings hold the same characters.
pub fn str_eq(a: &str, b: &str) -> (r: bool)
    ensures
        r == (a@ == b@),
{
    let ab = a.as_bytes();
    let bb = b.as_bytes();
    let n = ab.len();
    if n != bb.len() {
        proof {
            if a@ == b@ {
                assert(a.spec_bytes() == b.spec_bytes());
            }
        }
        return false;
    }
    let mut i: usize = 0;
    while i < n
        invariant
            0 <= i <= n,
            n == ab@.len(),
            n == bb@.len(),
            ab@ == a.spec_bytes(),
            bb@ == b.spec_bytes(),
            forall|j: int| 0 <= j < i ==> ab@[j] == bb@[j],
        decreases n - i,
    {
        if ab[i] != bb[i] {
            proof {
                if a@ == b@ {
                    assert(a.spec_bytes() == b.spec_bytes());
                }
            }
            return false;
        }
        i = i + 1;
    }
    proof {
        assert(ab@ =~= bb@);
        lemma_encode_utf8_injective(a@, b@);
    }
    true
}

// ---------------------------------------------------------------------------
// Big-endian integers
// ---------------------------------------------------------------------------
/// The 8-byte big-endian picture of a 64-bit integer.
pub open spec fn spec_u64_to_be_bytes(x: u64) -> Seq<u8> {
    seq![
        ((x >> 56) & 0xff) as u8,
        ((x >> 48) & 0xff) as u8,
        ((x >> 40) & 0xff) as u8,
        ((x >> 32) & 0xff) as u8,
        ((x >> 24) & 0xff) as u8,
        ((x >> 16) & 0xff) as u8,
        ((x >> 8) & 0xff) as u8,
        (x & 0xff) as u8,
    ]
}

/// The 64-bit integer whose big-endian picture the first 8 bytes are.
pub open spec fn spec_u64_from_be_bytes(b: Seq<u8>) -> u64
    recommends
        b.len() >= 8,
{
    ((b[0] as u64) << 56) | ((b[1] as u64) << 48) | ((b[2] as u64) << 40) | ((b[3] as u64) << 32)
        | ((b[4] as u64) << 24) | ((b[5] as u64) << 16) | ((b[6] as u64) << 8) | (b[7] as u64)
}

/// The 4-byte big-endian picture of a 32-bit integer.
pub open spec fn spec_u32_to_be_bytes(x: u32) -> Seq<u8> {
    seq![
        ((x >> 24) & 0xff) as u8,
        ((x >> 16) & 0xff) as u8,
        ((x >> 8) & 0xff) as u8,
        (x & 0xff) as u8,
    ]
}

/// The 32-bit integer whose big-endian picture the first 4 bytes are.
pub open spec fn spec_u32_from_be_bytes(b: Seq<u8>) -> u32
    recommends
        b.len() >= 4,
{
    ((b[0] as u32) << 24) | ((b[1] as u32) << 16) | ((b[2] as u32) << 8) | (b[3] as u32)
}

/// Law: reading back the big-endian bytes of a 64-bit integer yields the
/// integer.
pub proof fn lemma_u64_be_round_trip(x: u64)
    ensures
        spec_u64_from_be_bytes(spec_u64_to_be_bytes(x)) == x,
{
    let b = spec_u64_to_be_bytes(x);
    assert(((((x >> 56) & 0xff) as u8) as u64) << 56 | ((((x >> 48) & 0xff) as u8) as u64) << 48
        | ((((x >> 40) & 0xff) as u8) as u64) << 40 | ((((x >> 32) & 0xff) as u8) as u64) << 32 | ((((x
        >> 24) & 0xff) as u8) as u64) << 24 | ((((x >> 16) & 0xff) as u8) as u64) << 16 | ((((x >> 8)
        & 0xff) as u8) as u64) << 8 | (((x & 0xff) as u8) as u64) == x) by (bit_vector);
}

/// Law: reading back the big-endian bytes of a 32-bit integer yields the
/// integer.
pub proof fn lemma_u32_be_round_trip(x: u32)
    ensures
        spec_u32_from_be_bytes(spec_u32_to_be_bytes(x)) == x,
{
    let b = spec_u32_to_be_bytes(x);
    assert(((((x >> 24) & 0xff) as u8) as u32) << 24 | ((((x >> 16) & 0xff) as u8) as u32) << 16
        | ((((x >> 8) & 0xff) as u8) as u32) << 8 | (((x & 0xff) as u8) as u32) == x)
        by (bit_vector);
}

fn low_byte_u64(x: u64) -> (b: u8)
    ensures
        b == (x & 0xff) as u8,
{
    proof {
        assert((x & 0xff) < 256) by (bit_vector);
    }
    (x & 0xff) as u8
}

fn low_byte_u32(x: u32) -> (b: u8)
    ensures
        b == (x & 0xff) as u8,
{
    proof {
        assert((x & 0xff) < 256) by (bit_vector);
    }
    (x & 0xff) as u8
}

/// Encodes a 64-bit integer as 8 big-endian bytes.
pub fn encode_int64(n: u64) -> (r: Vec<u8>)
    ensures
        r@ == spec_u64_to_be_bytes(n),
        r@.len() == 8,
{
    let mut buf: Vec<u8> = Vec::with_capacity(8);
    buf.push(low_byte_u64(n >> 56));
    buf.push(low_byte_u64(n >> 48));
    buf.push(low_byte_u64(n >> 40));
    buf.push(low_byte_u64(n >> 32));
    buf.push(low_byte_u64(n >> 24));
    buf.push(low_byte_u64(n >> 16));
    buf.push(low_byte_u64(n >> 8));
    buf.push(low_byte_u64(n));
    proof {
        assert(n & 0xff == (n >> 0) & 0xff) by (bit_vector);
        assert(buf@ =~= spec_u64_to_be_bytes(n));
    }
    buf
}

/// Decodes the first 8 bytes as a big-endian 64-bit integer; yields 0 instead
/// of failing when fewer than 8 bytes are given.
pub fn decode_int64(data: &[u8]) -> (r: u64)
    ensures
        data@.len() < 8 ==> r == 0,
        data@.len() >= 8 ==> r == spec_u64_from_be_bytes(data@),
{
    if data.len() < 8 {
        return 0;
    }
    ((data[0] as u64) << 56) | ((data[1] as u64) << 48) | ((data[2] as u64) << 40) | ((
    data[3] as u64) << 32) | ((data[4] as u64) << 24) | ((data[5] as u64) << 16) | ((
    data[6] as u64) << 8) | (data[7] as u64)
}

/// Encodes a 32-bit integer as 4 big-endian bytes.
pub fn encode_int32(n: u32) -> (r: Vec<u8>)
    ensures
        r@ == spec_u32_to_be_bytes(n),
        r@.len() == 4,
{
    let mut buf: Vec<u8> = Vec::with_capacity(4);
    buf.push(low_byte_u32(n >> 24));
    buf.push(low_byte_u32(n >> 16));
    buf.push(low_byte_u32(n >> 8));
    buf.push(low_byte_u32(n));
    proof {
        assert(n & 0xff == (n >> 0) & 0xff) by (bit_vector);
        assert(buf@ =~= spec_u32_to_be_bytes(n));
    }
    buf
}

/// Decodes the first 4 bytes as a big-endian 32-bit integer; yields 0 instead
/// of failing when fewer than 4 bytes are given.
pub fn decode_int32(data: &[u8]) -> (r: u32)
    ensures
        data@.len() < 4 ==> r == 0,
        data@.len() >= 4 ==> r == spec_u32_from_be_bytes(data@),
{
    if data.len() < 4 {
        return 0;
    }
    ((data[0] as u32) << 24) | ((data[1] as u32) << 16) | ((data[2] as u32) << 8) | (data[3] as u32)
}

// ---------------------------------------------------------------------------
// The 10-byte header
// ---------------------------------------------------------------------------
/// The wire picture of a header: 8 big-endian length bytes, the command byte,
/// the status byte.
pub open spec fn spec_encode_header(length: u64, cmd: u8, status: u8) -> Seq<u8> {
    spec_u64_to_be_bytes(length) + seq![cmd, status]
}

/// Encodes a header into its 10-byte wire picture.
pub fn encode_header(length: u64, cmd: u8, status: u8) -> (r: Vec<u8>)
    ensures
        r@ == spec_encode_header(length, cmd, status),
        r@.len() == FDFS_PROTO_HEADER_LEN,
{
    let mut buf = encode_int64(length);
    buf.push(cmd);
    buf.push(status);
    proof {
        assert(buf@ =~= spec_encode_header(length, cmd, status));
    }
    buf
}

/// Decodes the leading 10 bytes as a header; fails on fewer than 10 bytes and
/// succeeds on exactly 10 or more, leaving trailing bytes untouched.
pub fn decode_header(data: &[u8]) -> (r: Result<TrackerHeader, FastDFSError>)
    ensures
        data@.len() < FDFS_PROTO_HEADER_LEN ==> (r matches Err(FastDFSError::InvalidResponse(m))
            && m@ == "Header too short"@),
        data@.len() >= FDFS_PROTO_HEADER_LEN ==> (r matches Ok(h) && h.length
            == spec_u64_from_be_bytes(data@) && h.cmd == data@[8] && h.status == data@[9]),
{
    if data.len() < FDFS_PROTO_HEADER_LEN {
        return Err(FastDFSError::InvalidResponse(String::from_str("Header too short")));
    }
    let length = decode_int64(data);
    Ok(TrackerHeader { length, cmd: data[8], status: data[9] })
}

/// Law: decoding the encoded header of any `(length, cmd, status)` yields the
/// original triple, and the encoding is exactly 10 bytes.
pub proof fn lemma_header_round_trip(length: u64, cmd: u8, status: u8)
    ensures
        ({
            let b = spec_encode_header(length, cmd, status);
            &&& b.len() == FDFS_PROTO_HEADER_LEN
            &&& spec_u64_from_be_bytes(b) == length
            &&& b[8] == cmd
            &&& b[9] == status
        }),
{
    let b = spec_encode_header(length, cmd, status);
    assert(b =~= spec_u64_to_be_bytes(length) + seq![cmd, status]);
    assert(forall|i: int| 0 <= i < 8 ==> b[i] == spec_u64_to_be_bytes(length)[i]);
    assert(spec_u64_from_be_bytes(b) == spec_u64_from_be_bytes(spec_u64_to_be_bytes(length)));
    lemma_u64_be_round_trip(length);
}

// ---------------------------------------------------------------------------
// Fixed-width zero-padded fields
// ---------------------------------------------------------------------------
/// The fixed-width picture of a byte string: truncated to `n` bytes when
/// longer, filled with zero bytes to `n` when shorter.
pub open spec fn spec_pad_bytes(b: Seq<u8>, n: nat) -> Seq<u8> {
    if b.len() >= n {
        b.take(n as int)
    } else {
        b + Seq::new((n - b.len()) as nat, |i: int| 0u8)
    }
}

/// Pads the bytes of a string to exactly `length` bytes with trailing zero
/// bytes, truncating a longer string silently.
pub fn pad_string(s: &str, length: usize) -> (r: Vec<u8>)
    ensures
        r@ == spec_pad_bytes(s.spec_bytes(), length as nat),
        r@.len() == length,
{
    let bytes = s.as_bytes();
    let copy_len = if bytes.len() < length {
        bytes.len()
    } else {
        length
    };
    let mut buf = slice_to_vec(slice_subrange(bytes, 0, copy_len));
    while buf.len() < length
        invariant
            copy_len <= length,
            buf@.len() >= copy_len,
            buf@.len() <= length,
            buf@.subrange(0, copy_len as int) == bytes@.subrange(0, copy_len as int),
            forall|i: int| copy_len <= i < buf@.len() ==> buf@[i] == 0u8,
        decreases length - buf@.len(),
    {
        buf.push(0);
    }
    proof {
        assert forall|i: int| 0 <= i < copy_len implies buf@[i] == s.spec_bytes()[i] by {
            assert(buf@.subrange(0, copy_len as int)[i] == bytes@.subrange(0, copy_len as int)[i]);
        }
        assert(buf@ =~= spec_pad_bytes(s.spec_bytes(), length as nat));
    }
    buf
}

/// The index one past the last non-zero byte; 0 when every byte is zero.
pub open spec fn spec_unpad_end(b: Seq<u8>) -> int
    decreases b.len(),
{
    if b.len() == 0 {
        0
    } else if b[b.len() - 1] != 0 {
        b.len() as int
    } else {
        spec_unpad_end(b.drop_last())
    }
}

/// The characters of a fixed-width field: everything up to and including the
/// last non-zero byte, lossily decoded.
pub open spec fn spec_unpad_chars(b: Seq<u8>) -> Seq<char> {
    utf8_chars(b.take(spec_unpad_end(b)))
}

/// Strips trailing zero bytes and decodes what remains as a string.
pub fn unpad_string(data: &[u8]) -> (r: String)
    ensures
        r@ == spec_unpad_chars(data@),
{
    let mut end = data.len();
    proof {
        assert(data@.take(end as int) =~= data@);
    }
    while end > 0 && data[end - 1] == 0
        invariant
            0 <= end <= data@.len(),
            spec_unpad_end(data@.take(end as int)) == spec_unpad_end(data@),
        decreases end,
    {
        proof {
            let t = data@.take(end as int);
            assert(t[t.len() - 1] == 0);
            assert(t.drop_last() =~= data@.take(end - 1));
        }
        end = end - 1;
    }
    proof {
        if end > 0 {
            let t = data@.take(end as int);
            assert(t[t.len() - 1] != 0);
        }
        assert(spec_unpad_end(data@) == end);
    }
    bytes_to_string(slice_subrange(data, 0, end))
}

/// Law: padding a string of at most `n` bytes to width `n` and stripping the
/// padding yields the original string, provided its last byte is not the pad
/// byte itself; and the padded field is exactly `n` bytes.
pub proof fn lemma_pad_unpad(s: Seq<char>, n: nat)
    requires
        encode_utf8(s).len() <= n,
        encode_utf8(s).len() > 0 ==> encode_utf8(s).last() != 0,
    ensures
        spec_pad_bytes(encode_utf8(s), n).len() == n,
        spec_unpad_chars(spec_pad_bytes(encode_utf8(s), n)) == s,
{
    let b = encode_utf8(s);
    let p = spec_pad_bytes(b, n);
    lemma_unpad_end_zero_suffix(b, (n - b.len()) as nat);
    assert(p.take(spec_unpad_end(p)) =~= b);
    vstd::utf8::encode_utf8_valid_utf8(s);
    vstd::utf8::encode_utf8_decode_utf8(s);
}

/// Stripping `k` trailing zero bytes finds the end of `b` when `b` does not
/// itself end in zero.
proof fn lemma_unpad_end_zero_suffix(b: Seq<u8>, k: nat)
    requires
        b.len() > 0 ==> b.last() != 0,
    ensures
        spec_unpad_end(b + Seq::new(k, |i: int| 0u8)) == b.len(),
    decreases k,
{
    if k == 0 {
        assert(b + Seq::new(0, |i: int| 0u8) =~= b);
    } else {
        let w = b + Seq::new(k, |i: int| 0u8);
        assert(w[w.len() - 1] == 0);
        assert(w.drop_last() =~= b + Seq::new((k - 1) as nat, |i: int| 0u8));
        lemma_unpad_end_zero_suffix(b, (k - 1) as nat);
    }
}

/// Law: padding a string of more than `n` bytes yields exactly the first `n`
/// bytes of the string.
pub proof fn lemma_pad_truncates(s: Seq<char>, n: nat)
    requires
        encode_utf8(s).len() > n,
    ensures
        spec_pad_bytes(encode_utf8(s), n).len() == n,
        spec_pad_bytes(encode_utf8(s), n) == encode_utf8(s).take(n as int),
{
}

// ---------------------------------------------------------------------------
// Scanning helpers
// ---------------------------------------------------------------------------
/// The index of the first occurrence of `sep`; the length when there is none.
pub open spec fn spec_first_sep(b: Seq<u8>, sep: u8) -> int
    decreases b.len(),
{
    if b.len() == 0 {
        0
    } else if b[0] == sep {
        0
    } else {
        1 + spec_first_sep(b.drop_first(), sep)
    }
}

/// The index just after the last occurrence of `sep`; 0 when there is none.
pub open spec fn spec_after_last(b: Seq<u8>, sep: u8) -> int
    decreases b.len(),
{
    if b.len() == 0 {
        0
    } else if b[b.len() - 1] == sep {
        b.len() as int
    } else {
        spec_after_last(b.drop_last(), sep)
    }
}

pub(crate) proof fn lemma_first_sep_props(b: Seq<u8>, sep: u8)
    ensures
        0 <= spec_first_sep(b, sep) <= b.len(),
        spec_first_sep(b, sep) < b.len() ==> b[spec_first_sep(b, sep)] == sep,
        forall|j: int| 0 <= j < spec_first_sep(b, sep) ==> b[j] != sep,
    decreases b.len(),
{
    if b.len() > 0 && b[0] != sep {
        lemma_first_sep_props(b.drop_first(), sep);
        assert forall|j: int| 0 <= j < spec_first_sep(b, sep) implies b[j] != sep by {
            if j > 0 {
                assert(b.drop_first()[j - 1] != sep);
            }
        }
    }
}

/// A forward scan that saw no `sep` before `i`, and `sep` at `i` unless it ran
/// off the end, found the first occurrence.
pub(crate) proof fn lemma_first_sep_from_scan(b: Seq<u8>, sep: u8, i: int)
    requires
        0 <= i <= b.len(),
        forall|j: int| 0 <= j < i ==> b[j] != sep,
        i < b.len() ==> b[i] == sep,
    ensures
        spec_first_sep(b, sep) == i,
    decreases b.len(),
{
    if b.len() > 0 && b[0] != sep {
        lemma_first_sep_from_scan(b.drop_first(), sep, i - 1);
    }
}

proof fn lemma_after_last_bounds(b: Seq<u8>, sep: u8)
    ensures
        0 <= spec_after_last(b, sep) <= b.len(),
        spec_after_last(b, sep) > 0 ==> b[spec_after_last(b, sep) - 1] == sep,
    decreases b.len(),
{
    if b.len() > 0 && b[b.len() - 1] != sep {
        lemma_after_last_bounds(b.drop_last(), sep);
    }
}

// ---------------------------------------------------------------------------
// Character boundaries after ASCII bytes
// ---------------------------------------------------------------------------
/// In valid UTF-8, the position just after an ASCII byte starts a new
/// character (or ends the sequence).
proof fn lemma_boundary_after_ascii(b: Seq<u8>, p: int)
    requires
        valid_utf8(b),
        1 <= p <= b.len(),
        b[p - 1] < 0x80,
    ensures
        vstd::utf8::is_char_boundary(b, p),
{
    broadcast use vstd::utf8::is_char_boundary_start_end_of_seq;

    if p == b.len() {
    } else {
        vstd::utf8::is_char_boundary_iff_not_is_continuation_byte(b, p - 1);
        vstd::utf8::valid_utf8_split(b, p - 1);
        let s2 = b.subrange(p - 1, b.len() as int);
        assert(valid_utf8(s2));
        assert(vstd::utf8::valid_first_scalar(s2));
        assert(vstd::utf8::length_of_first_scalar(s2) == 1);
        let t = vstd::utf8::pop_first_scalar(s2);
        assert(t =~= b.subrange(p, b.len() as int));
        assert(valid_utf8(t));
        assert(vstd::utf8::valid_first_scalar(t));
        assert(!vstd::utf8::is_continuation_byte(t[0]));
        vstd::utf8::is_char_boundary_iff_not_is_continuation_byte(b, p);
    }
}

// ---------------------------------------------------------------------------
// File identifiers
// ---------------------------------------------------------------------------
/// Splits the bytes of a file identifier at the first `/`: the group must be
/// 1 to 16 bytes and the remainder non-empty, otherwise nothing.
pub open spec fn spec_split_file_id(b: Seq<u8>) -> Option<(Seq<u8>, Seq<u8>)> {
    let f = spec_first_sep(b, 47);
    if f < b.len() && 1 <= f <= 16 && f + 1 < b.len() {
        Some((b.take(f), b.skip(f + 1)))
    } else {
        None
    }
}

/// A group name and a remote filename joined with `/`.
pub open spec fn spec_join_file_id(group: Seq<char>, remote: Seq<char>) -> Seq<char> {
    group + seq!['/'] + remote
}

/// Splits a file identifier `group/remote_filename` into its two components.
/// Fails exactly on: an empty string, a string without `/`, an empty group, a
/// group longer than 16 bytes, and an empty remainder.
pub fn split_file_id(file_id: &str) -> (r: Result<(String, String), FastDFSError>)
    ensures
        (r matches Ok(p)) <==> spec_split_file_id(file_id.spec_bytes()) is Some,
        spec_split_file_id(file_id.spec_bytes()) matches Some(parts) ==> (r matches Ok(p) && p.0@
            == utf8_chars(parts.0) && p.1@ == utf8_chars(parts.1)),
        spec_split_file_id(file_id.spec_bytes()) is None ==> (r matches Err(
            FastDFSError::InvalidFileId(raw),
        ) && raw@ == file_id@),
{
    let bytes = file_id.as_bytes();
    let n = bytes.len();
    let mut i: usize = 0;
    while i < n && bytes[i] != 47
        invariant
            0 <= i <= n,
            n == bytes@.len(),
            forall|j: int| 0 <= j < i ==> bytes@[j] != 47,
        decreases n - i,
    {
        i = i + 1;
    }
    proof {
        lemma_first_sep_from_scan(bytes@, 47, i as int);
    }
    if i >= n || i == 0 || i > 16 || i + 1 >= n {
        return Err(FastDFSError::InvalidFileId(file_id.to_owned()));
    }
    let group = bytes_to_string(slice_subrange(bytes, 0, i));
    let rest = bytes_to_string(slice_subrange(bytes, i + 1, n));
    Ok((group, rest))
}

/// Joins a group name and a remote filename into a file identifier with `/`.
pub fn join_file_id(group_name: &str, remote_filename: &str) -> (r: String)
    ensures
        r@ == spec_join_file_id(group_name@, remote_filename@),
{
    let mut out = String::from_str(group_name);
    out.append("/");
    out.append(remote_filename);
    proof {
        reveal_strlit("/");
        assert(r"/"@ =~= seq!['/']);
        assert(out@ =~= spec_join_file_id(group_name@, remote_filename@));
    }
    out
}

/// Law: joining the two components that a valid file identifier splits into
/// yields the identifier back.
pub proof fn lemma_file_id_round_trip(id: Seq<char>)
    requires
        spec_split_file_id(encode_utf8(id)) is Some,
    ensures
        ({
            let parts = spec_split_file_id(encode_utf8(id)).unwrap();
            spec_join_file_id(utf8_chars(parts.0), utf8_chars(parts.1)) == id
        }),
{
    let b = encode_utf8(id);
    vstd::utf8::encode_utf8_valid_utf8(id);
    vstd::utf8::encode_utf8_decode_utf8(id);
    let f = spec_first_sep(b, 47);
    lemma_first_sep_props(b, 47);
    let g = b.take(f);
    let rest = b.skip(f + 1);
    vstd::utf8::is_char_boundary_iff_not_is_continuation_byte(b, f);
    vstd::utf8::valid_utf8_split(b, f);
    vstd::utf8::decode_utf8_split(b, f);
    let s2 = b.subrange(f, b.len() as int);
    assert(valid_utf8(s2));
    assert(vstd::utf8::valid_first_scalar(s2));
    assert(s2[0] == 47);
    assert(vstd::utf8::length_of_first_scalar(s2) == 1);
    let t = vstd::utf8::pop_first_scalar(s2);
    assert(t =~= rest);
    assert(valid_utf8(rest));
    assert(47u8 & 0x7f == 47) by (bit_vector);
    assert(vstd::utf8::decode_first_scalar(s2) == 47);
    assert(decode_utf8(s2) == seq![(47u32 as char)] + decode_utf8(rest));
    assert((47u32 as char) == '/');
    assert(g =~= b.subrange(0, f));
    assert(decode_utf8(b) =~= decode_utf8(g) + seq!['/'] + decode_utf8(rest));
    assert(utf8_chars(g) == decode_utf8(g));
    assert(utf8_chars(rest) == decode_utf8(rest));
    assert(spec_join_file_id(utf8_chars(g), utf8_chars(rest)) =~= id);
}

// ---------------------------------------------------------------------------
// File extensions
// ---------------------------------------------------------------------------
/// The largest index at most `n` that does not point into the middle of a
/// character's encoding.
pub open spec fn spec_trunc_point(b: Seq<u8>, n: int) -> int
    decreases n,
{
    if n <= 0 {
        0
    } else if !vstd::utf8::is_continuation_byte(b[n]) {
        n
    } else {
        spec_trunc_point(b, n - 1)
    }
}

/// The bytes of a filename's extension: what follows the last `.` of the final
/// path component, empty when there is no `.`, cut back to at most 6 bytes
/// without splitting a character.
pub open spec fn spec_ext_bytes(b: Seq<u8>) -> Seq<u8> {
    let fc = b.skip(spec_after_last(b, 47));
    let d = spec_after_last(fc, 46);
    if d == 0 {
        Seq::empty()
    } else {
        let raw = fc.skip(d);
        if raw.len() <= 6 {
            raw
        } else {
            raw.take(spec_trunc_point(raw, 6))
        }
    }
}

/// Extracts the extension of a filename: the characters after the last `.` in
/// the final path component, empty when there is none, truncated to at most 6
/// bytes.
#[verifier::rlimit(60)]
pub fn get_file_ext_name(filename: &str) -> (r: String)
    ensures
        r@ == utf8_chars(spec_ext_bytes(filename.spec_bytes())),
        encode_utf8(r@) == spec_ext_bytes(filename.spec_bytes()),
        encode_utf8(r@).len() <= 6,
{
    let ghost b = filename.spec_bytes();
    let bytes = filename.as_bytes();
    let n = bytes.len();
    proof {
        vstd::utf8::encode_utf8_valid_utf8(filename@);
    }
    // Find the position just after the last `/`.
    let mut sl = n;
    proof {
        assert(b.take(n as int) =~= b);
    }
    while sl > 0 && bytes[sl - 1] != 47
        invariant
            0 <= sl <= n,
            n == b.len(),
            bytes@ == b,
            spec_after_last(b.take(sl as int), 47) == spec_after_last(b, 47),
        decreases sl,
    {
        proof {
            let t = b.take(sl as int);
            assert(t[t.len() - 1] != 47);
            assert(t.drop_last() =~= b.take(sl - 1));
        }
        sl = sl - 1;
    }
    proof {
        if sl > 0 {
            let t = b.take(sl as int);
            assert(t[t.len() - 1] == 47);
        }
        assert(spec_after_last(b, 47) == sl);
    }
    let ghost fc = b.skip(sl as int);
    // Find the position just after the last `.` of the final component.
    let mut d = n;
    proof {
        assert(fc.take((n - sl) as int) =~= fc);
    }
    while d > sl && bytes[d - 1] != 46
        invariant
            sl <= d <= n,
            n == b.len(),
            bytes@ == b,
            fc == b.skip(sl as int),
            spec_after_last(fc.take((d - sl) as int), 46) == spec_after_last(fc, 46),
        decreases d,
    {
        proof {
            let t = fc.take((d - sl) as int);
            assert(t[t.len() - 1] == b[d - 1]);
            assert(t[t.len() - 1] != 46);
            assert(t.drop_last() =~= fc.take((d - 1 - sl) as int));
        }
        d = d - 1;
    }
    proof {
        if d > sl {
            let t = fc.take((d - sl) as int);
            assert(t[t.len() - 1] == b[d - 1]);
            assert(t[t.len() - 1] == 46);
        }
        assert(spec_after_last(fc, 46) == d - sl);
    }
    if d == sl {
        // No dot: the extension is empty.
        let r = String::new();
        proof {
            assert(spec_ext_bytes(b) =~= Seq::<u8>::empty());
            assert(valid_utf8(Seq::<u8>::empty()));
            assert(r@ =~= utf8_chars(spec_ext_bytes(b)));
            assert(encode_utf8(r@) =~= Seq::<u8>::empty());
        }
        return r;
    }
    proof {
        // The final component and the raw extension are valid UTF-8.
        if sl > 0 {
            lemma_boundary_after_ascii(b, sl as int);
        } else {
            broadcast use vstd::utf8::is_char_boundary_start_end_of_seq;

        }
        vstd::utf8::valid_utf8_split(b, sl as int);
        assert(fc =~= b.subrange(sl as int, b.len() as int));
        assert(valid_utf8(fc));
        lemma_boundary_after_ascii(fc, (d - sl) as int);
        vstd::utf8::valid_utf8_split(fc, (d - sl) as int);
        assert(fc.skip((d - sl) as int) =~= fc.subrange((d - sl) as int, fc.len() as int));
        assert(valid_utf8(fc.skip((d - sl) as int)));
    }
    let ghost raw = fc.skip((d - sl) as int);
    let end: usize;
    if n - d <= 6 {
        end = n;
        proof {
            assert(spec_ext_bytes(b) == raw);
        }
    } else {
        // Cut back from 6 bytes to the nearest character boundary.
        let mut e: usize = 6;
        while e > 0 && bytes[d + e] >= 0x80 && bytes[d + e] <= 0xbf
            invariant
                0 <= e <= 6,
                n == b.len(),
                bytes@ == b,
                d + 6 < n,
                spec_trunc_point(raw, e as int) == spec_trunc_point(raw, 6),
                raw == fc.skip((d - sl) as int),
                fc == b.skip(sl as int),
                sl <= d,
            decreases e,
        {
            proof {
                assert(raw[e as int] == b[d + e]);
                assert(vstd::utf8::is_continuation_byte(raw[e as int]));
            }
            e = e - 1;
        }
        proof {
            if e > 0 {
                assert(raw[e as int] == b[d + e]);
                assert(!vstd::utf8::is_continuation_byte(raw[e as int]));
            }
            assert(spec_trunc_point(raw, 6) == e);
            assert(spec_ext_bytes(b) == raw.take(e as int));
            if e > 0 {
                vstd::utf8::is_char_boundary_iff_not_is_continuation_byte(raw, e as int);
            } else {
                broadcast use vstd::utf8::is_char_boundary_start_end_of_seq;

            }
            vstd::utf8::valid_utf8_split(raw, e as int);
            assert(raw.take(e as int) =~= raw.subrange(0, e as int));
            assert(valid_utf8(raw.take(e as int)));
        }
        end = d + e;
    }
    let r = bytes_to_string(slice_subrange(bytes, d, end));
    proof {
        assert(b.subrange(d as int, end as int) =~= spec_ext_bytes(b));
        assert(valid_utf8(spec_ext_bytes(b)));
        vstd::utf8::decode_utf8_encode_utf8(spec_ext_bytes(b));
    }
    r
}

} // verus!
