//! On-disk record layout: `crc | timestamp | key_size | value_size | key | value`,
//! every integer big-endian.
use byteorder::ByteOrder;
use vstd::prelude::*;

verus! {

/// Size in bytes of the fixed record header.
pub const HEADER_SIZE: u64 = 28;

/// Value of a big-endian byte string read as an unsigned number.
pub open spec fn be_value(s: Seq<u8>) -> nat
    decreases s.len(),
{
    if s.len() == 0 {
        0
    } else {
        be_value(s.drop_last()) * 256 + s.last() as nat
    }
}

/// The CRC-32 (IEEE) checksum of a byte string.
pub uninterp spec fn crc32_of(b: Seq<u8>) -> u32;

/// Relies on crc32fast::hash: the IEEE CRC-32 of the bytes `buf[start..end]`.
#[verifier::external_body]
fn crc32_range(buf: &[u8], start: usize, end: usize) -> (r: u32)
    requires
        start <= end <= buf@.len(),
    ensures
        r == crc32_of(buf@.subrange(start as int, end as int)),
{
    crc32fast::hash(&buf[start..end])
}

/// Relies on byteorder's BigEndian::read_u64: the eight bytes at `pos`, most significant first.
#[verifier::external_body]
fn read_u64_at(buf: &[u8], pos: usize) -> (r: u64)
    requires
        pos + 8 <= buf@.len(),
    ensures
        r as nat == be_value(buf@.subrange(pos as int, pos + 8)),
{
    byteorder::BigEndian::read_u64(&buf[pos..])
}

/// Relies on byteorder's BigEndian::read_u32: the four bytes at `pos`, most significant first.
#[verifier::external_body]
fn read_u32_at(buf: &[u8], pos: usize) -> (r: u32)
    requires
        pos + 4 <= buf@.len(),
    ensures
        r as nat == be_value(buf@.subrange(pos as int, pos + 4)),
{
    byteorder::BigEndian::read_u32(&buf[pos..])
}

/// Relies on byteorder's BigEndian::write_u64: overwrites `buf[pos..pos + 8]` with `n`,
/// most significant byte first, and leaves the other bytes alone.
#[verifier::external_body]
fn write_u64_at(buf: &mut Vec<u8>, pos: usize, n: u64)
    requires
        pos + 8 <= old(buf)@.len(),
    ensures
        final(buf)@.len() == old(buf)@.len(),
        be_value(final(buf)@.subrange(pos as int, pos + 8)) == n as nat,
        forall|i: int| 0 <= i < old(buf)@.len() && !(pos <= i < pos + 8)
            ==> final(buf)@[i] == old(buf)@[i],
{
    byteorder::BigEndian::write_u64(&mut buf[pos..], n)
}

/// Relies on byteorder's BigEndian::write_u32: overwrites `buf[pos..pos + 4]` with `n`,
/// most significant byte first, and leaves the other bytes alone.
#[verifier::external_body]
fn write_u32_at(buf: &mut Vec<u8>, pos: usize, n: u32)
    requires
        pos + 4 <= old(buf)@.len(),
    ensures
        final(buf)@.len() == old(buf)@.len(),
        be_value(final(buf)@.subrange(pos as int, pos + 4)) == n as nat,
        forall|i: int| 0 <= i < old(buf)@.len() && !(pos <= i < pos + 4)
            ==> final(buf)@[i] == old(buf)@[i],
{
    byteorder::BigEndian::write_u32(&mut buf[pos..], n)
}


/// A record held in memory: the fields of its header, with `crc` the checksum computed
/// over everything after it.
pub struct RecordData {
    pub crc: u32,
    pub timestamp: u64,
    pub key_size: u64,
    pub value_size: u64,
    pub key: Vec<u8>,
    pub value: Vec<u8>,
}

/// The bytes `b` are exactly one encoded record of `timestamp`, `key` and `value`.
pub open spec fn is_record_bytes(b: Seq<u8>, timestamp: u64, key: Seq<u8>, value: Seq<u8>) -> bool {
    &&& b.len() == HEADER_SIZE + key.len() + value.len()
    &&& be_value(b.subrange(4, 12)) == timestamp as nat
    &&& be_value(b.subrange(12, 20)) == key.len()
    &&& be_value(b.subrange(20, 28)) == value.len()
    &&& b.subrange(28, 28 + key.len() as int) == key
    &&& b.subrange(28 + key.len() as int, b.len() as int) == value
    &&& be_value(b.subrange(0, 4)) == crc32_of(b.subrange(4, b.len() as int)) as nat
}

/// The stored checksum at the start of `s`.
pub open spec fn stored_crc(s: Seq<u8>) -> nat {
    be_value(s.subrange(0, 4))
}

/// The stored timestamp of the record at the start of `s`.
pub open spec fn stored_timestamp(s: Seq<u8>) -> nat {
    be_value(s.subrange(4, 12))
}

/// The stored key length of the record at the start of `s`.
pub open spec fn stored_key_size(s: Seq<u8>) -> nat {
    be_value(s.subrange(12, 20))
}

/// The stored value length of the record at the start of `s`.
pub open spec fn stored_value_size(s: Seq<u8>) -> nat {
    be_value(s.subrange(20, 28))
}

/// The size that the header at the start of `s` gives its record.
pub open spec fn stored_size(s: Seq<u8>) -> nat {
    (HEADER_SIZE + stored_key_size(s) + stored_value_size(s)) as nat
}

/// `s` starts with a whole record: its header and the payload the header announces.
pub open spec fn record_complete(s: Seq<u8>) -> bool {
    s.len() >= HEADER_SIZE && stored_size(s) <= s.len()
}

/// The stored checksum of the whole record at the start of `s` matches its bytes.
pub open spec fn crc_matches(s: Seq<u8>) -> bool {
    stored_crc(s) == crc32_of(s.subrange(4, stored_size(s) as int)) as nat
}

/// The key of the record at the start of `s`.
pub open spec fn stored_key(s: Seq<u8>) -> Seq<u8> {
    s.subrange(28, 28 + stored_key_size(s) as int)
}

/// The value of the record at the start of `s`.
pub open spec fn stored_value(s: Seq<u8>) -> Seq<u8> {
    s.subrange(28 + stored_key_size(s) as int, stored_size(s) as int)
}

/// What reading one record from the start of `s` gives.
pub enum Decoded {
    /// A whole record whose checksum matches.
    Record(RecordData),
    /// The bytes end before the header or the payload is complete.
    EndOfFile,
    /// A whole record whose checksum does not match; the value is its size, to skip it.
    Corrupt(u64),
}

/// `d` is what reading a record from the start of `s` yields.
pub open spec fn decodes_to(s: Seq<u8>, d: Decoded) -> bool {
    match d {
        Decoded::EndOfFile => !record_complete(s),
        Decoded::Corrupt(n) => record_complete(s) && !crc_matches(s) && n as nat == stored_size(s),
        Decoded::Record(r) => {
            &&& record_complete(s)
            &&& crc_matches(s)
            &&& r.crc as nat == stored_crc(s)
            &&& r.timestamp as nat == stored_timestamp(s)
            &&& r.key_size as nat == stored_key_size(s)
            &&& r.value_size as nat == stored_value_size(s)
            &&& r.key@ == stored_key(s)
            &&& r.value@ == stored_value(s)
        },
    }
}

/// Tombstone value: a single zero byte marks a deletion.
pub open spec fn is_tombstone_value(v: Seq<u8>) -> bool {
    v.len() == 1 && v[0] == 0u8
}

impl RecordData {
    /// A record of `key` and `value` written at `timestamp` (seconds since the epoch).
    pub fn new(key: Vec<u8>, value: Vec<u8>, timestamp: u64) -> (r: RecordData)
        ensures
            r.timestamp == timestamp,
            r.key@ == key@,
            r.value@ == value@,
            r.key_size == key@.len(),
            r.value_size == value@.len(),
            r.crc == 0,
    {
        let key_size = key.len() as u64;
        let value_size = value.len() as u64;
        RecordData { crc: 0, timestamp, key_size, value_size, key, value }
    }

    /// A tombstone for `key`: the record that deletes it.
    pub fn tombstone(key: Vec<u8>, timestamp: u64) -> (r: RecordData)
        ensures
            r.timestamp == timestamp,
            r.key@ == key@,
            r.key_size == key@.len(),
            r.value_size == 1,
            is_tombstone_value(r.value@),
            r.crc == 0,
    {
        RecordData::new(key, vec![0u8], timestamp)
    }

    /// Whether this record marks a deletion.
    pub fn is_tombstone(&self) -> (r: bool)
        ensures
            r == is_tombstone_value(self.value@),
    {
        self.value.len() == 1 && self.value[0] == 0
    }

    /// Size in bytes of the encoded record.
    pub fn total_size(&self) -> (r: u64)
        requires
            HEADER_SIZE + self.key_size + self.value_size <= u64::MAX,
        ensures
            r == HEADER_SIZE + self.key_size + self.value_size,
    {
        HEADER_SIZE + self.key_size + self.value_size
    }

    /// The record's bytes as they stand in a data file; the checksum is computed
    /// over everything after its own four bytes.
    pub fn encode(&self) -> (r: Vec<u8>)
        requires
            self.key_size == self.key@.len(),
            self.value_size == self.value@.len(),
            HEADER_SIZE + self.key@.len() + self.value@.len() <= usize::MAX,
        ensures
            is_record_bytes(r@, self.timestamp, self.key@, self.value@),
    {
        encode_record(self.timestamp, &self.key, &self.value)
    }
}

/// Encodes one record of `timestamp`, `key` and `value`.
pub fn encode_record(timestamp: u64, key: &[u8], value: &[u8]) -> (r: Vec<u8>)
    requires
        HEADER_SIZE + key@.len() + value@.len() <= usize::MAX,
    ensures
        is_record_bytes(r@, timestamp, key@, value@),
{
    let klen = key.len();
    let vlen = value.len();
    let mut buf: Vec<u8> = Vec::new();
    let mut i: usize = 0;
    while i < 28
        invariant
            i <= 28,
            buf@.len() == i,
        decreases 28 - i,
    {
        buf.push(0u8);
        i = i + 1;
    }
    let mut j: usize = 0;
    while j < klen
        invariant
            klen == key@.len(),
            j <= klen,
            buf@.len() == 28 + j,
            buf@.subrange(28, 28 + j as int) == key@.subrange(0, j as int),
        decreases klen - j,
    {
        buf.push(key[j]);
        j = j + 1;
        assert(buf@.subrange(28, 28 + j as int) =~= key@.subrange(0, j as int));
    }
    let mut m: usize = 0;
    while m < vlen
        invariant
            klen == key@.len(),
            vlen == value@.len(),
            HEADER_SIZE + klen + vlen <= usize::MAX,
            m <= vlen,
            buf@.len() == 28 + klen + m,
            buf@.subrange(28, 28 + klen as int) == key@,
            buf@.subrange(28 + klen, 28 + klen + m as int) == value@.subrange(0, m as int),
        decreases vlen - m,
    {
        buf.push(value[m]);
        m = m + 1;
        assert(buf@.subrange(28, 28 + klen as int) =~= key@);
        assert(buf@.subrange(28 + klen, 28 + klen + m as int) =~= value@.subrange(0, m as int));
    }
    assert(key@.subrange(0, klen as int) =~= key@);
    assert(value@.subrange(0, vlen as int) =~= value@);
    let total: usize = buf.len();
    let ghost body = buf@.subrange(28, total as int);
    write_u64_at(&mut buf, 4, timestamp);
    let ghost b1 = buf@;
    write_u64_at(&mut buf, 12, klen as u64);
    assert(buf@.subrange(4, 12) =~= b1.subrange(4, 12));
    let ghost b2 = buf@;
    write_u64_at(&mut buf, 20, vlen as u64);
    assert(buf@.subrange(4, 12) =~= b2.subrange(4, 12));
    assert(buf@.subrange(12, 20) =~= b2.subrange(12, 20));
    assert(buf@.subrange(28, total as int) =~= body);
    let crc = crc32_range(&buf, 4, total);
    let ghost before = buf@;
    write_u32_at(&mut buf, 0, crc);
    assert(buf@.subrange(4, total as int) =~= before.subrange(4, total as int));
    assert(buf@.subrange(4, 12) =~= before.subrange(4, 12));
    assert(buf@.subrange(12, 20) =~= before.subrange(12, 20));
    assert(buf@.subrange(20, 28) =~= before.subrange(20, 28));
    assert(buf@.subrange(28, 28 + klen as int) =~= key@);
    assert(buf@.subrange(28 + klen, total as int) =~= value@);
    buf
}


/// A copy of the bytes `buf[start..end]`.
pub fn copy_range(buf: &[u8], start: usize, end: usize) -> (r: Vec<u8>)
    requires
        start <= end <= buf@.len(),
    ensures
        r@ == buf@.subrange(start as int, end as int),
{
    let mut out: Vec<u8> = Vec::new();
    let mut i: usize = start;
    while i < end
        invariant
            start <= i <= end <= buf@.len(),
            out@ == buf@.subrange(start as int, i as int),
        decreases end - i,
    {
        out.push(buf[i]);
        i = i + 1;
        assert(out@ =~= buf@.subrange(start as int, i as int));
    }
    out
}

/// Reads the record that starts at byte `pos` of `buf`, checking its checksum.
pub fn decode_record(buf: &[u8], pos: usize) -> (r: Decoded)
    requires
        pos <= buf@.len(),
    ensures
        decodes_to(buf@.subrange(pos as int, buf@.len() as int), r),
{
    let ghost s = buf@.subrange(pos as int, buf@.len() as int);
    let len = buf.len();
    if len - pos < 28 {
        return Decoded::EndOfFile;
    }
    let stored = read_u32_at(buf, pos);
    let timestamp = read_u64_at(buf, pos + 4);
    let key_size = read_u64_at(buf, pos + 12);
    let value_size = read_u64_at(buf, pos + 20);
    assert(s.subrange(0, 4) =~= buf@.subrange(pos as int, pos + 4));
    assert(s.subrange(4, 12) =~= buf@.subrange(pos + 4, pos + 12));
    assert(s.subrange(12, 20) =~= buf@.subrange(pos + 12, pos + 20));
    assert(s.subrange(20, 28) =~= buf@.subrange(pos + 20, pos + 28));
    let rest = (len - pos - 28) as u64;
    if key_size > rest || value_size > rest - key_size {
        return Decoded::EndOfFile;
    }
    let total = 28 + key_size + value_size;
    let key_end = pos + 28 + key_size as usize;
    let end = pos + total as usize;
    let key = copy_range(buf, pos + 28, key_end);
    let value = copy_range(buf, key_end, end);
    let crc = crc32_range(buf, pos + 4, end);
    assert(s.subrange(4, total as int) =~= buf@.subrange(pos + 4, end as int));
    assert(stored_key(s) =~= buf@.subrange(pos + 28, key_end as int));
    assert(stored_value(s) =~= buf@.subrange(key_end as int, end as int));
    if crc != stored {
        Decoded::Corrupt(total)
    } else {
        Decoded::Record(RecordData { crc, timestamp, key_size, value_size, key, value })
    }
}

/// Encoding a record and then reading it back, with any bytes after it, gives back its
/// timestamp, key and value, and its stored checksum matches.
pub proof fn lemma_codec_round_trip(
    bytes: Seq<u8>,
    rest: Seq<u8>,
    timestamp: u64,
    key: Seq<u8>,
    value: Seq<u8>,
    d: Decoded,
)
    requires
        is_record_bytes(bytes, timestamp, key, value),
        decodes_to(bytes + rest, d),
    ensures
        d matches Decoded::Record(r) && r.timestamp == timestamp && r.key@ == key
            && r.value@ == value && r.key_size == key.len() && r.value_size == value.len()
            && r.crc == crc32_of(bytes.subrange(4, bytes.len() as int)),
{
    lemma_read_encoded(bytes, rest, timestamp, key, value);
}

/// The header and payload fields of an encoded record, read from the start of a byte
/// string that begins with it.
pub proof fn lemma_read_encoded(bytes: Seq<u8>, rest: Seq<u8>, timestamp: u64, key: Seq<u8>, value: Seq<u8>)
    requires
        is_record_bytes(bytes, timestamp, key, value),
    ensures
        record_complete(bytes + rest),
        crc_matches(bytes + rest),
        stored_size(bytes + rest) == bytes.len(),
        stored_timestamp(bytes + rest) == timestamp as nat,
        stored_key(bytes + rest) == key,
        stored_value(bytes + rest) == value,
        stored_crc(bytes + rest) == crc32_of(bytes.subrange(4, bytes.len() as int)) as nat,
{
    let s = bytes + rest;
    assert(s.subrange(0, 4) =~= bytes.subrange(0, 4));
    assert(s.subrange(4, 12) =~= bytes.subrange(4, 12));
    assert(s.subrange(12, 20) =~= bytes.subrange(12, 20));
    assert(s.subrange(20, 28) =~= bytes.subrange(20, 28));
    assert(s.subrange(4, bytes.len() as int) =~= bytes.subrange(4, bytes.len() as int));
    assert(stored_key(s) =~= bytes.subrange(28, 28 + key.len() as int));
    assert(stored_value(s) =~= bytes.subrange(28 + key.len() as int, bytes.len() as int));
}

} // verus!
