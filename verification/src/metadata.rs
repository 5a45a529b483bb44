//! File metadata: an insertion-ordered map from string keys to string values
//! with unique keys, and its wire codec.
//!
//! On the wire each record is `key 0x02 value 0x01`; keys are truncated to 64
//! bytes and values to 256 bytes; parsing splits on the record separator,
//! drops empty records and records without exactly two fields, and lets a
//! later record win over an earlier one with the same key.

use vstd::prelude::*;
use vstd::slice::{slice_subrange, slice_to_vec};
use vstd::string::StringSliceAdditionalSpecFns;
use vstd::utf8::{encode_utf8, valid_utf8};

use crate::errors::FastDFSError;
use crate::protocol::{
    bytes_to_string, lemma_first_sep_from_scan, lemma_first_sep_props, spec_first_sep, str_eq,
    utf8_chars,
};
use crate::types::{
    FDFS_FIELD_SEPARATOR, FDFS_MAX_META_NAME_LEN, FDFS_MAX_META_VALUE_LEN, FDFS_RECORD_SEPARATOR,
};

verus! {

// ---------------------------------------------------------------------------
// The map model
// ---------------------------------------------------------------------------
/// Unique keys: no two entries share a key.
pub open spec fn spec_meta_wf(m: Seq<(Seq<char>, Seq<char>)>) -> bool {
    forall|i: int, j: int| 0 <= i < j < m.len() ==> m[i].0 != m[j].0
}

/// The index of the first entry with key `k`; the length when there is none.
pub open spec fn spec_meta_find(m: Seq<(Seq<char>, Seq<char>)>, k: Seq<char>) -> int
    decreases m.len(),
{
    if m.len() == 0 {
        0
    } else if m[0].0 == k {
        0
    } else {
        1 + spec_meta_find(m.drop_first(), k)
    }
}

/// Inserting replaces the value of an existing key in place and appends a new
/// key at the end.
pub open spec fn spec_meta_insert(
    m: Seq<(Seq<char>, Seq<char>)>,
    k: Seq<char>,
    v: Seq<char>,
) -> Seq<(Seq<char>, Seq<char>)> {
    let f = spec_meta_find(m, k);
    if f < m.len() {
        m.update(f, (k, v))
    } else {
        m.push((k, v))
    }
}

/// Two distinct positions of a well-formed map hold distinct keys.
proof fn lemma_wf_pair(m: Seq<(Seq<char>, Seq<char>)>, p: int, q: int)
    requires
        spec_meta_wf(m),
        0 <= p < q < m.len(),
    ensures
        m[p].0 != m[q].0,
{
}

pub(crate) proof fn lemma_meta_find_props(m: Seq<(Seq<char>, Seq<char>)>, k: Seq<char>)
    ensures
        0 <= spec_meta_find(m, k) <= m.len(),
        spec_meta_find(m, k) < m.len() ==> m[spec_meta_find(m, k)].0 == k,
        forall|j: int| 0 <= j < spec_meta_find(m, k) ==> m[j].0 != k,
    decreases m.len(),
{
    if m.len() > 0 && m[0].0 != k {
        lemma_meta_find_props(m.drop_first(), k);
        assert forall|j: int| 0 <= j < spec_meta_find(m, k) implies m[j].0 != k by {
            if j > 0 {
                assert(m.drop_first()[j - 1].0 != k);
            }
        }
    }
}

pub(crate) proof fn lemma_meta_find_from_scan(m: Seq<(Seq<char>, Seq<char>)>, k: Seq<char>, i: int)
    requires
        0 <= i <= m.len(),
        forall|j: int| 0 <= j < i ==> m[j].0 != k,
        i < m.len() ==> m[i].0 == k,
    ensures
        spec_meta_find(m, k) == i,
    decreases m.len(),
{
    if m.len() > 0 && m[0].0 != k {
        lemma_meta_find_from_scan(m.drop_first(), k, i - 1);
    }
}

/// An insertion-ordered map from string keys to string values; later inserts
/// of an existing key replace its value in place.
#[derive(Debug, Clone)]
pub struct Metadata {
    entries: Vec<(String, String)>,
}

impl View for Metadata {
    type V = Seq<(Seq<char>, Seq<char>)>;

    closed spec fn view(&self) -> Seq<(Seq<char>, Seq<char>)> {
        Seq::new(self.entries@.len(), |i: int| (self.entries@[i].0@, self.entries@[i].1@))
    }
}

impl Metadata {
    /// No two entries share a key.
    pub open spec fn wf(&self) -> bool {
        spec_meta_wf(self@)
    }

    /// An empty map.
    pub fn new() -> (m: Self)
        ensures
            m@ =~= Seq::<(Seq<char>, Seq<char>)>::empty(),
            m.wf(),
    {
        Metadata { entries: Vec::new() }
    }

    /// How many entries the map holds.
    pub fn len(&self) -> (n: usize)
        ensures
            n == self@.len(),
    {
        self.entries.len()
    }

    /// Whether the map holds no entry.
    pub fn is_empty(&self) -> (b: bool)
        ensures
            b == (self@.len() == 0),
    {
        self.entries.is_empty()
    }

    /// The entries in insertion order.
    pub fn entries(&self) -> (r: &Vec<(String, String)>)
        ensures
            r@.len() == self@.len(),
            forall|i: int| 0 <= i < r@.len() ==> r@[i].0@ == self@[i].0 && r@[i].1@ == self@[i].1,
    {
        &self.entries
    }

    /// Binds `value` to `key`: replaces the value in place when the key is
    /// present, appends the pair otherwise.
    pub fn insert(&mut self, key: String, value: String)
        requires
            old(self).wf(),
        ensures
            final(self)@ == spec_meta_insert(old(self)@, key@, value@),
            final(self).wf(),
    {
        let n = self.entries.len();
        let mut i: usize = 0;
        while i < n
            invariant
                0 <= i <= n,
                n == self.entries@.len(),
                *self == *old(self),
                old(self).wf(),
                forall|j: int| 0 <= j < i ==> self@[j].0 != key@,
            decreases n - i,
        {
            if str_eq(self.entries[i].0.as_str(), key.as_str()) {
                proof {
                    lemma_meta_find_from_scan(self@, key@, i as int);
                }
                self.entries[i] = (key, value);
                proof {
                    assert(self@ =~= spec_meta_insert(old(self)@, key@, value@));
                    assert forall|p: int, q: int|
                        0 <= p < q < self@.len() implies self@[p].0 != self@[q].0 by {
                        lemma_wf_pair(old(self)@, p, q);
                        assert(self@[p].0 == old(self)@[p].0);
                        assert(self@[q].0 == old(self)@[q].0);
                    }
                }
                return ;
            }
            i = i + 1;
        }
        proof {
            lemma_meta_find_from_scan(self@, key@, n as int);
        }
        self.entries.push((key, value));
        proof {
            assert(self@ =~= spec_meta_insert(old(self)@, key@, value@));
            assert forall|p: int, q: int|
                0 <= p < q < self@.len() implies self@[p].0 != self@[q].0 by {
                if q < self@.len() - 1 {
                    lemma_wf_pair(old(self)@, p, q);
                    assert(self@[p].0 == old(self)@[p].0);
                    assert(self@[q].0 == old(self)@[q].0);
                } else {
                    assert(self@[p].0 == old(self)@[p].0);
                    assert(old(self)@[p].0 != key@);
                }
            }
        }
    }

    /// The value bound to `key`, if any.
    pub fn get(&self, key: &str) -> (r: Option<&String>)
        ensures
            ({
                let f = spec_meta_find(self@, key@);
                &&& (f < self@.len() ==> (r matches Some(v) && v@ == self@[f].1))
                &&& (f == self@.len() ==> r is None)
            }),
    {
        let n = self.entries.len();
        let mut i: usize = 0;
        while i < n
            invariant
                0 <= i <= n,
                n == self.entries@.len(),
                forall|j: int| 0 <= j < i ==> self@[j].0 != key@,
            decreases n - i,
        {
            if str_eq(self.entries[i].0.as_str(), key) {
                proof {
                    lemma_meta_find_from_scan(self@, key@, i as int);
                }
                return Some(&self.entries[i].1);
            }
            i = i + 1;
        }
        proof {
            lemma_meta_find_from_scan(self@, key@, n as int);
        }
        None
    }

    /// Whether the map binds `key`.
    pub fn contains_key(&self, key: &str) -> (b: bool)
        ensures
            b == (spec_meta_find(self@, key@) < self@.len()),
    {
        proof {
            lemma_meta_find_props(self@, key@);
        }
        self.get(key).is_some()
    }
}

// ---------------------------------------------------------------------------
// The wire picture
// ---------------------------------------------------------------------------
/// At most the first `n` elements.
pub open spec fn spec_take_at_most(b: Seq<u8>, n: int) -> Seq<u8> {
    if b.len() <= n {
        b
    } else {
        b.take(n)
    }
}

/// One record: the key truncated to 64 bytes, the field separator, the value
/// truncated to 256 bytes, the record separator.
pub open spec fn spec_meta_record_body(k: Seq<char>, v: Seq<char>) -> Seq<u8> {
    spec_take_at_most(encode_utf8(k), FDFS_MAX_META_NAME_LEN as int) + seq![FDFS_FIELD_SEPARATOR]
        + spec_take_at_most(encode_utf8(v), FDFS_MAX_META_VALUE_LEN as int)
}

/// The wire picture of a whole map: every record in order, each followed by
/// the record separator.
pub open spec fn spec_encode_metadata(m: Seq<(Seq<char>, Seq<char>)>) -> Seq<u8>
    decreases m.len(),
{
    if m.len() == 0 {
        Seq::empty()
    } else {
        spec_meta_record_body(m[0].0, m[0].1) + seq![FDFS_RECORD_SEPARATOR] + spec_encode_metadata(
            m.drop_first(),
        )
    }
}

/// The segments between occurrences of `sep`, in order; one more segment than
/// separators, so a trailing separator yields a trailing empty segment.
pub open spec fn spec_split_bytes(b: Seq<u8>, sep: u8) -> Seq<Seq<u8>>
    decreases b.len(),
    via spec_split_bytes_decreases
{
    let f = spec_first_sep(b, sep);
    if f == b.len() {
        seq![b]
    } else {
        seq![b.take(f)] + spec_split_bytes(b.skip(f + 1), sep)
    }
}

#[via_fn]
proof fn spec_split_bytes_decreases(b: Seq<u8>, sep: u8) {
    lemma_first_sep_props(b, sep);
}

/// The key and value a record parses to: nothing for an empty record or one
/// without exactly two fields.
pub open spec fn spec_record_entry(rec: Seq<u8>) -> Option<(Seq<char>, Seq<char>)> {
    if rec.len() == 0 {
        None
    } else {
        let fields = spec_split_bytes(rec, FDFS_FIELD_SEPARATOR);
        if fields.len() == 2 {
            Some((utf8_chars(fields[0]), utf8_chars(fields[1])))
        } else {
            None
        }
    }
}

/// The map the records build up in order, later records winning on equal keys.
pub open spec fn spec_meta_fold(recs: Seq<Seq<u8>>) -> Seq<(Seq<char>, Seq<char>)>
    decreases recs.len(),
{
    if recs.len() == 0 {
        Seq::empty()
    } else {
        let prev = spec_meta_fold(recs.drop_last());
        match spec_record_entry(recs.last()) {
            Some(e) => spec_meta_insert(prev, e.0, e.1),
            None => prev,
        }
    }
}

/// The map a metadata body parses to.
pub open spec fn spec_decode_metadata(data: Seq<u8>) -> Seq<(Seq<char>, Seq<char>)> {
    if data.len() == 0 {
        Seq::empty()
    } else {
        spec_meta_fold(spec_split_bytes(data, FDFS_RECORD_SEPARATOR))
    }
}

// ---------------------------------------------------------------------------
// The executable codec
// ---------------------------------------------------------------------------
/// The segments of `data` between occurrences of `sep`.
fn split_bytes(data: &[u8], sep: u8) -> (r: Vec<Vec<u8>>)
    ensures
        r.deep_view() == spec_split_bytes(data@, sep),
{
    let n = data.len();
    let mut out: Vec<Vec<u8>> = Vec::new();
    let mut start: usize = 0;
    let mut i: usize = 0;
    proof {
        assert(data@.skip(0) =~= data@);
        assert(out.deep_view() + spec_split_bytes(data@, sep) =~~= spec_split_bytes(data@, sep));
    }
    while i < n
        invariant
            0 <= start <= i <= n,
            n == data@.len(),
            forall|j: int| start <= j < i ==> data@[j] != sep,
            spec_split_bytes(data@, sep) == out.deep_view() + spec_split_bytes(
                data@.skip(start as int),
                sep,
            ),
        decreases n - i,
    {
        if data[i] == sep {
            let seg = slice_to_vec(slice_subrange(data, start, i));
            let ghost old_deep = out.deep_view();
            proof {
                let rest = data@.skip(start as int);
                lemma_first_sep_from_scan(rest, sep, i - start);
                assert(rest.take(i - start) =~= data@.subrange(start as int, i as int));
                assert(rest.skip(i - start + 1) =~= data@.skip(i + 1));
            }
            out.push(seg);
            proof {
                assert(out.deep_view() =~~= old_deep + seq![seg@]);
                assert(old_deep + (seq![seg@] + spec_split_bytes(data@.skip(i + 1), sep)) =~~= (
                old_deep + seq![seg@]) + spec_split_bytes(data@.skip(i + 1), sep));
            }
            start = i + 1;
        }
        i = i + 1;
    }
    let seg = slice_to_vec(slice_subrange(data, start, n));
    let ghost old_deep = out.deep_view();
    proof {
        let rest = data@.skip(start as int);
        lemma_first_sep_from_scan(rest, sep, n - start);
        assert(seg@ =~= rest);
    }
    out.push(seg);
    proof {
        assert(out.deep_view() =~~= old_deep + seq![seg@]);
        assert(out.deep_view() =~~= spec_split_bytes(data@, sep));
    }
    out
}

/// Encodes a map into its wire picture: `key 0x02 value 0x01` for each entry
/// in order, keys truncated to 64 and values to 256 bytes; an empty map
/// encodes to no bytes.
pub fn encode_metadata(metadata: &Metadata) -> (r: Vec<u8>)
    ensures
        r@ == spec_encode_metadata(metadata@),
{
    let entries = metadata.entries();
    let n = entries.len();
    let mut out: Vec<u8> = Vec::new();
    let mut i: usize = 0;
    while i < n
        invariant
            0 <= i <= n,
            n == entries@.len(),
            n == metadata@.len(),
            forall|k: int|
                0 <= k < n ==> entries@[k].0@ == metadata@[k].0 && entries@[k].1@ == metadata@[k].1,
            out@ == spec_encode_metadata(metadata@.take(i as int)),
        decreases n - i,
    {
        let key_bytes = entries[i].0.as_str().as_bytes();
        let value_bytes = entries[i].1.as_str().as_bytes();
        let key_len = if key_bytes.len() < FDFS_MAX_META_NAME_LEN {
            key_bytes.len()
        } else {
            FDFS_MAX_META_NAME_LEN
        };
        let value_len = if value_bytes.len() < FDFS_MAX_META_VALUE_LEN {
            value_bytes.len()
        } else {
            FDFS_MAX_META_VALUE_LEN
        };
        out.extend_from_slice(slice_subrange(key_bytes, 0, key_len));
        out.push(FDFS_FIELD_SEPARATOR);
        out.extend_from_slice(slice_subrange(value_bytes, 0, value_len));
        out.push(FDFS_RECORD_SEPARATOR);
        proof {
            lemma_encode_metadata_snoc(metadata@.take(i + 1));
            assert(metadata@.take(i + 1).drop_last() =~= metadata@.take(i as int));
            assert(key_bytes@.subrange(0, key_len as int) =~= spec_take_at_most(
                encode_utf8(metadata@[i as int].0),
                FDFS_MAX_META_NAME_LEN as int,
            ));
            assert(value_bytes@.subrange(0, value_len as int) =~= spec_take_at_most(
                encode_utf8(metadata@[i as int].1),
                FDFS_MAX_META_VALUE_LEN as int,
            ));
            assert(out@ =~= spec_encode_metadata(metadata@.take(i + 1)));
        }
        i = i + 1;
    }
    proof {
        assert(metadata@.take(n as int) =~= metadata@);
    }
    out
}

/// The wire picture of a map ends with the record of its last entry.
proof fn lemma_encode_metadata_snoc(m: Seq<(Seq<char>, Seq<char>)>)
    requires
        m.len() > 0,
    ensures
        spec_encode_metadata(m) == spec_encode_metadata(m.drop_last()) + spec_meta_record_body(
            m.last().0,
            m.last().1,
        ) + seq![FDFS_RECORD_SEPARATOR],
    decreases m.len(),
{
    if m.len() == 1 {
        assert(m.drop_last() =~= Seq::<(Seq<char>, Seq<char>)>::empty());
        assert(m[0] == m.last());
        assert(spec_encode_metadata(m.drop_last()) + spec_meta_record_body(m.last().0, m.last().1)
            + seq![FDFS_RECORD_SEPARATOR] =~= spec_meta_record_body(m[0].0, m[0].1) + seq![
            FDFS_RECORD_SEPARATOR,
        ] + spec_encode_metadata(m.drop_first()));
    } else {
        let d = m.drop_first();
        lemma_encode_metadata_snoc(d);
        assert(d.drop_last() =~= m.drop_last().drop_first());
        assert(d.last() == m.last());
        assert(m.drop_last()[0] == m[0]);
        assert(spec_encode_metadata(m.drop_last()) == spec_meta_record_body(m[0].0, m[0].1) + seq![
            FDFS_RECORD_SEPARATOR,
        ] + spec_encode_metadata(m.drop_last().drop_first()));
        assert(spec_encode_metadata(m) == spec_meta_record_body(m[0].0, m[0].1) + seq![
            FDFS_RECORD_SEPARATOR,
        ] + spec_encode_metadata(d));
        assert(spec_encode_metadata(m.drop_last()) + spec_meta_record_body(m.last().0, m.last().1)
            + seq![FDFS_RECORD_SEPARATOR] =~= spec_meta_record_body(m[0].0, m[0].1) + seq![
            FDFS_RECORD_SEPARATOR,
        ] + (spec_encode_metadata(d.drop_last()) + spec_meta_record_body(d.last().0, d.last().1)
            + seq![FDFS_RECORD_SEPARATOR]));
    }
}

/// Decodes a metadata body: splits on the record separator, drops empty
/// records and records without exactly two fields, and lets a later record
/// win over an earlier one with the same key. Never fails.
pub fn decode_metadata(data: &[u8]) -> (r: Result<Metadata, FastDFSError>)
    ensures
        r matches Ok(m) && m@ == spec_decode_metadata(data@) && m.wf(),
{
    let mut meta = Metadata::new();
    if data.len() == 0 {
        return Ok(meta);
    }
    let records = split_bytes(data, FDFS_RECORD_SEPARATOR);
    let n = records.len();
    let ghost recs = records.deep_view();
    let mut i: usize = 0;
    while i < n
        invariant
            0 <= i <= n,
            n == records@.len(),
            recs == records.deep_view(),
            recs.len() == n,
            meta@ == spec_meta_fold(recs.take(i as int)),
            meta.wf(),
        decreases n - i,
    {
        proof {
            assert(recs.take(i + 1).drop_last() =~= recs.take(i as int));
            assert(recs.take(i + 1).last() == recs[i as int]);
            assert(records@[i as int]@ == recs[i as int]);
        }
        let rec = &records[i];
        if rec.len() != 0 {
            let fields = split_bytes(rec.as_slice(), FDFS_FIELD_SEPARATOR);
            if fields.len() == 2 {
                proof {
                    assert(fields@[0]@ == fields.deep_view()[0]);
                    assert(fields@[1]@ == fields.deep_view()[1]);
                }
                let key = bytes_to_string(fields[0].as_slice());
                let value = bytes_to_string(fields[1].as_slice());
                meta.insert(key, value);
            }
        }
        i = i + 1;
    }
    proof {
        assert(recs.take(n as int) =~= recs);
    }
    Ok(meta)
}

// ---------------------------------------------------------------------------
// The round-trip law
// ---------------------------------------------------------------------------
/// No record or field separator among the bytes.
pub open spec fn spec_meta_bytes_clean(b: Seq<u8>) -> bool {
    forall|j: int|
        0 <= j < b.len() ==> b[j] != FDFS_RECORD_SEPARATOR && b[j] != FDFS_FIELD_SEPARATOR
}

/// An entry that encodes within the wire limits and avoids the separators.
pub open spec fn spec_meta_entry_clean(k: Seq<char>, v: Seq<char>) -> bool {
    &&& encode_utf8(k).len() <= FDFS_MAX_META_NAME_LEN
    &&& encode_utf8(v).len() <= FDFS_MAX_META_VALUE_LEN
    &&& spec_meta_bytes_clean(encode_utf8(k))
    &&& spec_meta_bytes_clean(encode_utf8(v))
}

/// The record of each entry, in order.
pub open spec fn spec_meta_records(m: Seq<(Seq<char>, Seq<char>)>) -> Seq<Seq<u8>> {
    Seq::new(m.len(), |i: int| spec_meta_record_body(m[i].0, m[i].1))
}

/// Splitting bytes without the separator yields one segment.
proof fn lemma_split_no_sep(b: Seq<u8>, sep: u8)
    requires
        forall|j: int| 0 <= j < b.len() ==> b[j] != sep,
    ensures
        spec_split_bytes(b, sep) == seq![b],
{
    lemma_first_sep_from_scan(b, sep, b.len() as int);
}

/// Splitting at a separator that the leading segment avoids peels that segment
/// off.
proof fn lemma_split_concat(a: Seq<u8>, c: Seq<u8>, sep: u8)
    requires
        forall|j: int| 0 <= j < a.len() ==> a[j] != sep,
    ensures
        spec_split_bytes(a + seq![sep] + c, sep) == seq![a] + spec_split_bytes(c, sep),
{
    let w = a + seq![sep] + c;
    assert forall|j: int| 0 <= j < a.len() implies w[j] != sep by {
        assert(w[j] == a[j]);
    }
    assert(w[a.len() as int] == sep);
    lemma_first_sep_from_scan(w, sep, a.len() as int);
    assert(w.take(a.len() as int) =~= a);
    assert(w.skip(a.len() as int + 1) =~= c);
}

/// A record built from a clean entry parses back to that entry.
proof fn lemma_record_entry_round_trip(k: Seq<char>, v: Seq<char>)
    requires
        spec_meta_entry_clean(k, v),
    ensures
        spec_record_entry(spec_meta_record_body(k, v)) == Some((k, v)),
{
    let kb = encode_utf8(k);
    let vb = encode_utf8(v);
    let body = spec_meta_record_body(k, v);
    assert(spec_take_at_most(kb, FDFS_MAX_META_NAME_LEN as int) == kb);
    assert(spec_take_at_most(vb, FDFS_MAX_META_VALUE_LEN as int) == vb);
    lemma_split_concat(kb, vb, FDFS_FIELD_SEPARATOR);
    lemma_split_no_sep(vb, FDFS_FIELD_SEPARATOR);
    let fields = spec_split_bytes(body, FDFS_FIELD_SEPARATOR);
    assert(fields =~= seq![kb, vb]);
    assert(body.len() > 0);
    vstd::utf8::encode_utf8_valid_utf8(k);
    vstd::utf8::encode_utf8_valid_utf8(v);
    vstd::utf8::encode_utf8_decode_utf8(k);
    vstd::utf8::encode_utf8_decode_utf8(v);
    assert(utf8_chars(fields[0]) == k);
    assert(utf8_chars(fields[1]) == v);
}

/// The record of a clean entry holds no record separator.
proof fn lemma_record_body_clean(k: Seq<char>, v: Seq<char>)
    requires
        spec_meta_entry_clean(k, v),
    ensures
        forall|j: int|
            0 <= j < spec_meta_record_body(k, v).len() ==> spec_meta_record_body(k, v)[j]
                != FDFS_RECORD_SEPARATOR,
{
    let kb = encode_utf8(k);
    let vb = encode_utf8(v);
    let body = spec_meta_record_body(k, v);
    assert(body =~= kb + seq![FDFS_FIELD_SEPARATOR] + vb);
    assert forall|j: int| 0 <= j < body.len() implies body[j] != FDFS_RECORD_SEPARATOR by {
        if j < kb.len() {
            assert(body[j] == kb[j]);
        } else if j == kb.len() {
            assert(body[j] == FDFS_FIELD_SEPARATOR);
        } else {
            assert(body[j] == vb[j - kb.len() - 1]);
        }
    }
}

/// Splitting the wire picture of clean entries on the record separator yields
/// the records in order, plus one trailing empty segment.
proof fn lemma_split_encoded(m: Seq<(Seq<char>, Seq<char>)>)
    requires
        forall|i: int| 0 <= i < m.len() ==> spec_meta_entry_clean(m[i].0, m[i].1),
    ensures
        spec_split_bytes(spec_encode_metadata(m), FDFS_RECORD_SEPARATOR) == spec_meta_records(m)
            + seq![Seq::<u8>::empty()],
    decreases m.len(),
{
    if m.len() == 0 {
        assert(spec_encode_metadata(m).len() == 0);
        lemma_split_no_sep(spec_encode_metadata(m), FDFS_RECORD_SEPARATOR);
        assert(seq![spec_encode_metadata(m)] =~= spec_meta_records(m) + seq![Seq::<u8>::empty()]);
    } else {
        let rest = m.drop_first();
        let body0 = spec_meta_record_body(m[0].0, m[0].1);
        lemma_record_body_clean(m[0].0, m[0].1);
        assert(spec_encode_metadata(m) == body0 + seq![FDFS_RECORD_SEPARATOR]
            + spec_encode_metadata(rest));
        lemma_split_concat(body0, spec_encode_metadata(rest), FDFS_RECORD_SEPARATOR);
        assert forall|i: int| 0 <= i < rest.len() implies spec_meta_entry_clean(
            rest[i].0,
            rest[i].1,
        ) by {
            assert(rest[i] == m[i + 1]);
        }
        lemma_split_encoded(rest);
        assert(seq![body0] + (spec_meta_records(rest) + seq![Seq::<u8>::empty()])
            =~= spec_meta_records(m) + seq![Seq::<u8>::empty()]);
    }
}

/// Folding the records of a well-formed map of clean entries rebuilds the map.
proof fn lemma_fold_records(m: Seq<(Seq<char>, Seq<char>)>)
    requires
        spec_meta_wf(m),
        forall|i: int| 0 <= i < m.len() ==> spec_meta_entry_clean(m[i].0, m[i].1),
    ensures
        spec_meta_fold(spec_meta_records(m)) == m,
    decreases m.len(),
{
    if m.len() == 0 {
        assert(spec_meta_records(m) =~= Seq::<Seq<u8>>::empty());
        assert(spec_meta_fold(spec_meta_records(m)) =~= m);
    } else {
        let recs = spec_meta_records(m);
        let prev = m.drop_last();
        assert(recs.drop_last() =~= spec_meta_records(prev));
        assert(recs.last() == spec_meta_record_body(m.last().0, m.last().1));
        lemma_record_entry_round_trip(m.last().0, m.last().1);
        assert forall|i: int, j: int| 0 <= i < j < prev.len() implies prev[i].0 != prev[j].0 by {
            lemma_wf_pair(m, i, j);
        }
        assert forall|i: int| 0 <= i < prev.len() implies spec_meta_entry_clean(
            prev[i].0,
            prev[i].1,
        ) by {
            assert(prev[i] == m[i]);
        }
        lemma_fold_records(prev);
        assert forall|j: int| 0 <= j < prev.len() implies prev[j].0 != m.last().0 by {
            lemma_wf_pair(m, j, m.len() - 1);
        }
        lemma_meta_find_from_scan(prev, m.last().0, prev.len() as int);
        assert(spec_meta_insert(prev, m.last().0, m.last().1) =~= m);
        assert(spec_meta_fold(recs) == spec_meta_insert(prev, m.last().0, m.last().1));
    }
}

/// Law: decoding the wire picture of a well-formed map yields the map back,
/// provided every key is at most 64 bytes, every value at most 256 bytes, and
/// neither holds a separator byte.
pub proof fn lemma_metadata_round_trip(m: Seq<(Seq<char>, Seq<char>)>)
    requires
        spec_meta_wf(m),
        forall|i: int| 0 <= i < m.len() ==> spec_meta_entry_clean(m[i].0, m[i].1),
    ensures
        spec_decode_metadata(spec_encode_metadata(m)) == m,
{
    if m.len() == 0 {
        assert(spec_encode_metadata(m).len() == 0);
        assert(spec_decode_metadata(spec_encode_metadata(m)) =~= m);
    } else {
        let e = spec_encode_metadata(m);
        assert(e.len() > 0);
        lemma_split_encoded(m);
        let recs = spec_meta_records(m) + seq![Seq::<u8>::empty()];
        assert(recs.drop_last() =~= spec_meta_records(m));
        assert(recs.last() == Seq::<u8>::empty());
        assert(spec_record_entry(recs.last()) is None);
        lemma_fold_records(m);
    }
}

} // verus!
