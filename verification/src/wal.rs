//! Write-ahead-log codec: a logical entry is serialized to one payload, which is
//! split into checksummed physical records of at most `MAX_CHUNK` bytes each.
//!
//! Record layout, little-endian:
//! `[crc32:4][payload_len:2][record_type:1][log_number:4][payload bytes]`.

use vstd::prelude::*;

verus! {

/// Size of one log block in bytes.
pub const BLOCK_SIZE: usize = 32768;

/// Size of a record header in bytes.
pub const HEADER_SIZE: usize = 11;

/// Largest number of payload bytes that one record carries.
pub const MAX_CHUNK: usize = 32757;

/// One logical write: a timestamp in nanoseconds, a key and a value.
#[derive(Debug)]
pub struct WalEntry {
    pub timestamp: i64,
    pub key: Vec<u8>,
    pub value: Vec<u8>,
}

impl View for WalEntry {
    type V = (i64, Seq<u8>, Seq<u8>);

    open spec fn view(&self) -> (i64, Seq<u8>, Seq<u8>) {
        (self.timestamp, self.key@, self.value@)
    }
}

/// Position of a physical record inside its logical entry.
#[derive(Debug, Clone, Copy, PartialEq, Eq, Structural)]
pub enum RecordType {
    ZeroType,
    FullType,
    FirstType,
    MiddleType,
    LastType,
}

/// Why a log read or write produced no entry.
#[derive(Debug, Clone, Copy, PartialEq, Eq, Structural)]
pub enum WalError {
    /// The stream ended before any record was read.
    NoEntry,
    /// The stream ended inside a record.
    Truncated,
    /// The stored checksum does not match the record's content.
    CrcMismatch,
    /// The record type byte names no record type.
    InvalidRecordType,
    /// The record type byte is the reserved zero type.
    ReservedRecordType,
    /// The payload serializer refused the entry or the payload.
    Codec,
}

impl WalError {
    /// The error in words.
    pub fn message(&self) -> (r: String)
        ensures
            r@ == match *self {
                WalError::NoEntry => "No WAL entry found"@,
                WalError::Truncated => "WAL record is truncated"@,
                WalError::CrcMismatch => "CRC mismatch"@,
                WalError::InvalidRecordType => "Invalid record type"@,
                WalError::ReservedRecordType => "ZeroType is reserved"@,
                WalError::Codec => "WAL payload is not an entry"@,
            },
    {
        match self {
            WalError::NoEntry => String::from_str("No WAL entry found"),
            WalError::Truncated => String::from_str("WAL record is truncated"),
            WalError::CrcMismatch => String::from_str("CRC mismatch"),
            WalError::InvalidRecordType => String::from_str("Invalid record type"),
            WalError::ReservedRecordType => String::from_str("ZeroType is reserved"),
            WalError::Codec => String::from_str("WAL payload is not an entry"),
        }
    }

    /// True for the errors that report damaged log content: a truncated
    /// record, a checksum mismatch, an unknown or reserved record type.
    pub open spec fn spec_is_corruption(self) -> bool {
        self == WalError::Truncated || self == WalError::CrcMismatch
            || self == WalError::InvalidRecordType || self == WalError::ReservedRecordType
    }

    /// Whether the error reports damaged log content.
    pub fn is_corruption(&self) -> (r: bool)
        ensures
            r == self.spec_is_corruption(),
    {
        match self {
            WalError::Truncated | WalError::CrcMismatch | WalError::InvalidRecordType
            | WalError::ReservedRecordType => true,
            WalError::NoEntry | WalError::Codec => false,
        }
    }
}

impl RecordType {
    /// The wire byte of a record type.
    pub open spec fn spec_to_u8(self) -> u8 {
        match self {
            RecordType::ZeroType => 0,
            RecordType::FullType => 1,
            RecordType::FirstType => 2,
            RecordType::MiddleType => 3,
            RecordType::LastType => 4,
        }
    }

    /// The record type that a wire byte names, if any.
    pub open spec fn spec_from_u8(byte: u8) -> Option<RecordType> {
        if byte == 0 {
            Some(RecordType::ZeroType)
        } else if byte == 1 {
            Some(RecordType::FullType)
        } else if byte == 2 {
            Some(RecordType::FirstType)
        } else if byte == 3 {
            Some(RecordType::MiddleType)
        } else if byte == 4 {
            Some(RecordType::LastType)
        } else {
            None
        }
    }

    /// The type of the record that carries `payload[start..end]` of a payload
    /// of `len` bytes.
    pub open spec fn spec_classify(start: int, end: int, len: int) -> RecordType {
        if start == 0 && end == len {
            RecordType::FullType
        } else if start == 0 {
            RecordType::FirstType
        } else if end == len {
            RecordType::LastType
        } else {
            RecordType::MiddleType
        }
    }

    /// The record type that a wire byte names, if any.
    pub fn from_u8(byte: u8) -> (r: Option<RecordType>)
        ensures
            r == Self::spec_from_u8(byte),
    {
        match byte {
            0 => Some(RecordType::ZeroType),
            1 => Some(RecordType::FullType),
            2 => Some(RecordType::FirstType),
            3 => Some(RecordType::MiddleType),
            4 => Some(RecordType::LastType),
            _ => None,
        }
    }

    /// The wire byte of the record type.
    pub fn to_u8(self) -> (r: u8)
        ensures
            r == self.spec_to_u8(),
            Self::spec_from_u8(r) == Some(self),
    {
        match self {
            RecordType::ZeroType => 0,
            RecordType::FullType => 1,
            RecordType::FirstType => 2,
            RecordType::MiddleType => 3,
            RecordType::LastType => 4,
        }
    }

    /// The type of the record that carries `payload[start..end]` of a payload
    /// of `len` bytes.
    pub fn classify(start: usize, end: usize, len: usize) -> (r: RecordType)
        ensures
            r == Self::spec_classify(start as int, end as int, len as int),
    {
        if start == 0 && end == len {
            RecordType::FullType
        } else if start == 0 {
            RecordType::FirstType
        } else if end == len {
            RecordType::LastType
        } else {
            RecordType::MiddleType
        }
    }
}

/// The CRC-32 checksum of a byte string, as `crc32fast` computes it.
pub uninterp spec fn crc32_of(data: Seq<u8>) -> u32;

/// Calls `crc32fast::hash`. The contract names its result: the checksum is a
/// function of the bytes alone.
#[verifier::external_body]
fn crc32(data: &Vec<u8>) -> (r: u32)
    ensures
        r == crc32_of(data@),
{
    crc32fast::hash(data.as_slice())
}

/// The four little-endian bytes of a 32-bit number.
pub open spec fn le_bytes_u32(x: u32) -> Seq<u8> {
    seq![
        (x % 256) as u8,
        ((x / 256) % 256) as u8,
        ((x / 65536) % 256) as u8,
        ((x / 16777216) % 256) as u8,
    ]
}

/// The two little-endian bytes of a 16-bit number.
pub open spec fn le_bytes_u16(x: u16) -> Seq<u8> {
    seq![(x % 256) as u8, ((x / 256) % 256) as u8]
}

/// The 32-bit number that four little-endian bytes at `at` spell.
pub open spec fn le_u32_at(s: Seq<u8>, at: int) -> u32 {
    (s[at] as int + 256 * (s[at + 1] as int) + 65536 * (s[at + 2] as int) + 16777216 * (s[at + 3] as int)) as u32
}

/// The 16-bit number that two little-endian bytes at `at` spell.
pub open spec fn le_u16_at(s: Seq<u8>, at: int) -> u16 {
    (s[at] as int + 256 * (s[at + 1] as int)) as u16
}

/// The bytes that a record's checksum covers: the log number, then the chunk.
pub open spec fn crc_input(log_number: u32, chunk: Seq<u8>) -> Seq<u8> {
    le_bytes_u32(log_number) + chunk
}

/// The bytes of a record with the given header fields, whether they fit the
/// chunk or not.
pub open spec fn raw_record(
    crc: u32,
    len: u16,
    type_byte: u8,
    log_number: u32,
    chunk: Seq<u8>,
) -> Seq<u8> {
    le_bytes_u32(crc) + le_bytes_u16(len) + seq![type_byte] + le_bytes_u32(log_number) + chunk
}

/// One physical record: header, then chunk.
pub open spec fn record(ty: RecordType, log_number: u32, chunk: Seq<u8>) -> Seq<u8>
    recommends
        chunk.len() <= MAX_CHUNK,
{
    raw_record(
        crc32_of(crc_input(log_number, chunk)),
        chunk.len() as u16,
        ty.spec_to_u8(),
        log_number,
        chunk,
    )
}

/// End of the chunk that starts at `start` in a payload of `len` bytes.
pub open spec fn chunk_end(start: int, len: int) -> int {
    if len - start <= MAX_CHUNK {
        len
    } else {
        start + MAX_CHUNK
    }
}

/// The records that carry `payload[start..]`.
pub open spec fn encoded_from(payload: Seq<u8>, log_number: u32, start: int) -> Seq<u8>
    decreases payload.len() - start,
{
    if start < 0 || start >= payload.len() {
        Seq::empty()
    } else {
        let end = chunk_end(start, payload.len() as int);
        record(
            RecordType::spec_classify(start, end, payload.len() as int),
            log_number,
            payload.subrange(start, end),
        ) + encoded_from(payload, log_number, end)
    }
}

/// The records that carry a whole payload. An empty payload gives no record.
pub open spec fn encoded_payload(payload: Seq<u8>, log_number: u32) -> Seq<u8> {
    encoded_from(payload, log_number, 0)
}

fn push_le_u32(out: &mut Vec<u8>, x: u32)
    ensures
        final(out)@ == old(out)@ + le_bytes_u32(x),
{
    out.push((x % 256) as u8);
    out.push(((x / 256) % 256) as u8);
    out.push(((x / 65536) % 256) as u8);
    out.push(((x / 16777216) % 256) as u8);
    assert(out@ =~= old(out)@ + le_bytes_u32(x));
}

fn push_le_u16(out: &mut Vec<u8>, x: u16)
    ensures
        final(out)@ == old(out)@ + le_bytes_u16(x),
{
    out.push((x % 256) as u8);
    out.push(((x / 256) % 256) as u8);
    assert(out@ =~= old(out)@ + le_bytes_u16(x));
}

fn push_range(out: &mut Vec<u8>, src: &Vec<u8>, start: usize, end: usize)
    requires
        start <= end <= src.len(),
    ensures
        final(out)@ == old(out)@ + src@.subrange(start as int, end as int),
{
    let mut i: usize = start;
    while i < end
        invariant
            start <= i <= end <= src.len(),
            out@ == old(out)@ + src@.subrange(start as int, i as int),
        decreases end - i,
    {
        out.push(src[i]);
        i = i + 1;
        assert(out@ =~= old(out)@ + src@.subrange(start as int, i as int));
    }
}


fn read_le_u32(s: &Vec<u8>, at: usize) -> (r: u32)
    requires
        at + 4 <= s.len(),
    ensures
        r == le_u32_at(s@, at as int),
{
    let b0: u32 = s[at] as u32;
    let b1: u32 = s[at + 1] as u32;
    let b2: u32 = s[at + 2] as u32;
    let b3: u32 = s[at + 3] as u32;
    b0 + 256 * b1 + 65536 * b2 + 16777216 * b3
}

fn read_le_u16(s: &Vec<u8>, at: usize) -> (r: u16)
    requires
        at + 2 <= s.len(),
    ensures
        r == le_u16_at(s@, at as int),
{
    let b0: u16 = s[at] as u16;
    let b1: u16 = s[at + 1] as u16;
    b0 + 256 * b1
}

/// What reading records from `stream[pos..]` gives, when `acc` holds the
/// chunks read so far and `first_log` the log number of the first of them.
/// The result is the log number and the payload of one logical entry, and the
/// position in the stream at which reading stopped. Where the stream ends
/// between two records of an entry, the entry is what was read so far.
pub open spec fn decoded_from(
    stream: Seq<u8>,
    pos: int,
    acc: Seq<u8>,
    first_log: Option<u32>,
) -> Result<(u32, Seq<u8>, int), WalError>
    decreases stream.len() - pos,
{
    if pos < 0 || stream.len() - pos < 4 {
        if acc.len() == 0 || first_log is None {
            Err(WalError::NoEntry)
        } else {
            Ok((first_log.unwrap(), acc, stream.len() as int))
        }
    } else if stream.len() - pos < HEADER_SIZE {
        Err(WalError::Truncated)
    } else {
        let crc = le_u32_at(stream, pos);
        let size = le_u16_at(stream, pos + 4) as int;
        let log = le_u32_at(stream, pos + 7);
        if stream.len() - pos - HEADER_SIZE < size {
            Err(WalError::Truncated)
        } else {
            let chunk = stream.subrange(pos + 11, pos + 11 + size);
            let log2 = if first_log is Some {
                first_log.unwrap()
            } else {
                log
            };
            if crc32_of(stream.subrange(pos + 7, pos + 11) + chunk) != crc {
                Err(WalError::CrcMismatch)
            } else {
                match RecordType::spec_from_u8(stream[pos + 6]) {
                    None => Err(WalError::InvalidRecordType),
                    Some(RecordType::ZeroType) => Err(WalError::ReservedRecordType),
                    Some(RecordType::FullType) | Some(RecordType::LastType) => Ok(
                        (log2, acc + chunk, pos + 11 + size),
                    ),
                    Some(_) => decoded_from(stream, pos + 11 + size, acc + chunk, Some(log2)),
                }
            }
        }
    }
}

/// The log number and payload of the logical entry that starts at `start`
/// in a stream, and the position at which the entry ends.
pub open spec fn decoded_payload_at(stream: Seq<u8>, start: int) -> Result<
    (u32, Seq<u8>, int),
    WalError,
> {
    decoded_from(stream, start, Seq::empty(), None)
}

/// The log number and payload of the first logical entry of a stream.
pub open spec fn decoded_payload(stream: Seq<u8>) -> Result<(u32, Seq<u8>), WalError> {
    match decoded_payload_at(stream, 0) {
        Ok((log_number, payload, _)) => Ok((log_number, payload)),
        Err(e) => Err(e),
    }
}

/// The eight little-endian bytes of a 64-bit number: those of its low half,
/// then those of its high half.
#[verifier::opaque]
pub open spec fn le_bytes_u64(x: u64) -> Seq<u8> {
    le_bytes_u32((x % 4294967296) as u32) + le_bytes_u32((x / 4294967296) as u32)
}

/// The 64-bit number that eight little-endian bytes at `at` spell.
#[verifier::opaque]
pub open spec fn le_u64_at(s: Seq<u8>, at: int) -> u64 {
    (le_u32_at(s, at) + 4294967296 * le_u32_at(s, at + 4)) as u64
}

/// The 64 bits of a signed number, in two's complement.
pub open spec fn bits_of(x: i64) -> u64 {
    if x >= 0 {
        x as u64
    } else {
        (x + 18446744073709551616) as u64
    }
}

/// The signed number that 64 bits spell in two's complement.
pub open spec fn signed_of(bits: u64) -> i64 {
    if bits < 9223372036854775808 {
        bits as i64
    } else {
        (bits - 18446744073709551616) as i64
    }
}

/// The payload of an entry, as `bincode::serialize` writes it: the timestamp
/// in eight little-endian bytes, then the key and the value, each behind its
/// length in eight little-endian bytes.
#[verifier::opaque]
pub open spec fn bincode_serialized(timestamp: i64, key: Seq<u8>, value: Seq<u8>) -> Option<
    Seq<u8>,
> {
    Some(
        le_bytes_u64(bits_of(timestamp)) + le_bytes_u64(key.len() as u64) + key + le_bytes_u64(
            value.len() as u64,
        ) + value,
    )
}

/// The entry that `bincode::deserialize` reads from the front of a payload:
/// the inverse of `bincode_serialized`, with any bytes allowed behind the
/// value; `None` where the payload ends before the value does.
#[verifier::opaque]
pub open spec fn bincode_deserialized(payload: Seq<u8>) -> Option<(i64, Seq<u8>, Seq<u8>)> {
    if payload.len() < 16 {
        None
    } else {
        let key_len = le_u64_at(payload, 8) as int;
        if payload.len() - 16 - 8 < key_len {
            None
        } else {
            let value_len = le_u64_at(payload, 16 + key_len) as int;
            if payload.len() - 24 - key_len < value_len {
                None
            } else {
                Some(
                    (
                        signed_of(le_u64_at(payload, 0)),
                        payload.subrange(16, 16 + key_len),
                        payload.subrange(24 + key_len, 24 + key_len + value_len),
                    ),
                )
            }
        }
    }
}

/// Calls `bincode::serialize` on the entry's three fields in order, key and
/// value as `bytes::Bytes`. The contract states the bytes that it writes with
/// fixed-width little-endian numbers; it does not fail for these fields.
#[verifier::external_body]
fn serialize_entry(entry: &WalEntry) -> (r: Option<Vec<u8>>)
    ensures
        (r is Some) == (bincode_serialized(entry.timestamp, entry.key@, entry.value@) is Some),
        r is Some ==> r.unwrap()@ == bincode_serialized(
            entry.timestamp,
            entry.key@,
            entry.value@,
        ).unwrap(),
{
    let key = bytes::Bytes::copy_from_slice(&entry.key);
    let value = bytes::Bytes::copy_from_slice(&entry.value);
    bincode::serialize(&(entry.timestamp, key, value)).ok()
}

/// Calls `bincode::deserialize` for a timestamp and two `bytes::Bytes`. The
/// contract states what it reads from the front of the payload, and that it
/// fails exactly where the payload ends too early.
#[verifier::external_body]
fn deserialize_entry(payload: &Vec<u8>) -> (r: Option<WalEntry>)
    ensures
        (r is Some) == (bincode_deserialized(payload@) is Some),
        r is Some ==> r.unwrap()@ == bincode_deserialized(payload@).unwrap(),
{
    match bincode::deserialize::<(i64, bytes::Bytes, bytes::Bytes)>(payload.as_slice()) {
        Ok((timestamp, key, value)) => Some(
            WalEntry { timestamp, key: key.to_vec(), value: value.to_vec() },
        ),
        Err(_) => None,
    }
}

/// Reads the wall clock with `std::time::SystemTime::now` and turns the time
/// since the epoch into nanoseconds with `chrono::DateTime::from_timestamp`
/// and `DateTime::timestamp_nanos_opt`. `None` where the clock stands before
/// the epoch or the time does not fit in 64 bits. Nothing is claimed of a
/// clock reading.
#[verifier::external_body]
fn now_nanos() -> Option<i64> {
    let since = std::time::SystemTime::now().duration_since(std::time::UNIX_EPOCH).ok()?;
    let secs = i64::try_from(since.as_secs()).ok()?;
    chrono::DateTime::from_timestamp(secs, since.subsec_nanos())?.timestamp_nanos_opt()
}

impl WalEntry {
    /// An entry stamped with the given time.
    pub fn with_timestamp(timestamp: i64, key: Vec<u8>, value: Vec<u8>) -> (r: WalEntry)
        ensures
            r.timestamp == timestamp,
            r.key == key,
            r.value == value,
    {
        WalEntry { timestamp, key, value }
    }

    /// An entry stamped with the current time: what `from_reading` gives for
    /// the clock's reading, so `None` only where the clock gave none.
    pub fn new(key: Vec<u8>, value: Vec<u8>) -> (r: Option<WalEntry>)
        ensures
            r is Some ==> r.unwrap().key == key && r.unwrap().value == value,
    {
        Self::from_reading(now_nanos(), key, value)
    }

    /// The entry for a clock reading: stamped with the reading where the
    /// clock gave one, and none where it gave none.
    pub fn from_reading(reading: Option<i64>, key: Vec<u8>, value: Vec<u8>) -> (r: Option<
        WalEntry,
    >)
        ensures
            (r is Some) == (reading is Some),
            r is Some ==> r.unwrap().timestamp == reading.unwrap() && r.unwrap().key == key
                && r.unwrap().value == value,
    {
        match reading {
            Some(timestamp) => Some(Self::with_timestamp(timestamp, key, value)),
            None => None,
        }
    }
}

/// Turns entries into records.
pub struct WalEncoder;

impl WalEncoder {
    /// The bytes that encoding an entry appends; `None` where the serializer
    /// refuses the entry.
    pub open spec fn spec_encode(entry: (i64, Seq<u8>, Seq<u8>), log_number: u32) -> Option<
        Seq<u8>,
    > {
        match bincode_serialized(entry.0, entry.1, entry.2) {
            Some(payload) => Some(encoded_payload(payload, log_number)),
            None => None,
        }
    }

    /// Appends to `out` the records that carry `payload`.
    pub fn encode_payload(payload: &Vec<u8>, log_number: u32, out: &mut Vec<u8>)
        ensures
            final(out)@ == old(out)@ + encoded_payload(payload@, log_number),
    {
        let mut start: usize = 0;
        assert(out@ + encoded_from(payload@, log_number, 0) == old(out)@ + encoded_payload(
            payload@,
            log_number,
        ));
        while start < payload.len()
            invariant
                start <= payload.len(),
                out@ + encoded_from(payload@, log_number, start as int) == old(out)@
                    + encoded_payload(payload@, log_number),
            decreases payload.len() - start,
        {
            let remaining: usize = payload.len() - start;
            let chunk_size: usize = if remaining <= MAX_CHUNK {
                remaining
            } else {
                MAX_CHUNK
            };
            let end: usize = start + chunk_size;
            let ty = RecordType::classify(start, end, payload.len());
            let mut crc_data: Vec<u8> = Vec::new();
            push_le_u32(&mut crc_data, log_number);
            push_range(&mut crc_data, payload, start, end);
            let ghost chunk = payload@.subrange(start as int, end as int);
            assert(crc_data@ =~= crc_input(log_number, chunk));
            let crc = crc32(&crc_data);
            let ghost before = out@;
            push_le_u32(out, crc);
            push_le_u16(out, chunk_size as u16);
            out.push(ty.to_u8());
            push_le_u32(out, log_number);
            push_range(out, payload, start, end);
            proof {
                let rec = record(ty, log_number, chunk);
                let rest = encoded_from(payload@, log_number, end as int);
                assert(end as int == chunk_end(start as int, payload@.len() as int));
                assert(out@ =~= before + rec);
                assert(encoded_from(payload@, log_number, start as int) == rec + rest);
                assert((before + rec) + rest =~= before + (rec + rest));
            }
            start = end;
        }
        assert(encoded_from(payload@, log_number, start as int) =~= Seq::<u8>::empty());
        assert(out@ + Seq::<u8>::empty() =~= out@);
    }

    /// Serializes `entry` and appends its records to `out`. The serializer
    /// refuses no entry, so this succeeds.
    pub fn encode(entry: &WalEntry, log_number: u32, out: &mut Vec<u8>) -> (r: Result<
        (),
        WalError,
    >)
        ensures
            r is Ok,
            final(out)@ == old(out)@ + Self::spec_encode(entry@, log_number).unwrap(),
            WalDecoder::spec_decode_at(final(out)@, old(out)@.len() as int) == Ok::<
                (u32, (i64, Seq<u8>, Seq<u8>), int),
                WalError,
            >((log_number, entry@, final(out)@.len() as int)),
    {
        let key_len: usize = entry.key.len();
        let value_len: usize = entry.value.len();
        proof {
            assert(entry@.1.len() == key_len && entry@.2.len() == value_len);
            crate::wal_laws::lemma_serializer_reads_back(entry@);
        }
        match serialize_entry(entry) {
            Some(payload) => {
                Self::encode_payload(&payload, log_number, out);
                proof {
                    crate::wal_laws::lemma_entry_round_trip(
                        old(out)@,
                        entry@,
                        log_number,
                        Seq::empty(),
                    );
                    assert(old(out)@ + encoded_payload(payload@, log_number) + Seq::<u8>::empty()
                        =~= out@);
                }
                Ok(())
            },
            None => Err(WalError::Codec),
        }
    }

    /// Whether the serializer reads an entry back from its own payload: the
    /// payload is not empty and reads as the entry.
    pub open spec fn reads_back(entry: (i64, Seq<u8>, Seq<u8>)) -> bool {
        match bincode_serialized(entry.0, entry.1, entry.2) {
            Some(payload) => payload.len() > 0 && bincode_deserialized(payload) == Some(entry),
            None => false,
        }
    }
}

/// Turns records back into entries.
pub struct WalDecoder;

impl WalDecoder {
    /// The log number and entry that decoding at `start` gives, and the
    /// position at which the entry ends.
    pub open spec fn spec_decode_at(stream: Seq<u8>, start: int) -> Result<
        (u32, (i64, Seq<u8>, Seq<u8>), int),
        WalError,
    > {
        match decoded_payload_at(stream, start) {
            Err(e) => Err(e),
            Ok((log_number, payload, next)) => match bincode_deserialized(payload) {
                Some(entry) => Ok((log_number, entry, next)),
                None => Err(WalError::Codec),
            },
        }
    }

    /// The log number and entry that decoding a stream gives.
    pub open spec fn spec_decode(stream: Seq<u8>) -> Result<
        (u32, (i64, Seq<u8>, Seq<u8>)),
        WalError,
    > {
        match Self::spec_decode_at(stream, 0) {
            Ok((log_number, entry, _)) => Ok((log_number, entry)),
            Err(e) => Err(e),
        }
    }

    /// Reads records from `stream[start..]` until one logical entry is
    /// complete, and returns its log number, its payload and the position at
    /// which it ends, from where the next entry is read. A `start` behind the
    /// end of the stream finds no entry.
    pub fn decode_payload_at(stream: &Vec<u8>, start: usize) -> (r: Result<
        (u32, Vec<u8>, usize),
        WalError,
    >)
        ensures
            match decoded_payload_at(stream@, start as int) {
                Ok((log_number, payload, next)) => r is Ok && r.unwrap().0 == log_number
                    && r.unwrap().1@ == payload && r.unwrap().2 == next,
                Err(e) => r is Err && r.unwrap_err() == e,
            },
            r is Ok ==> start <= r.unwrap().2 <= stream.len(),
    {
        if start > stream.len() {
            return Err(WalError::NoEntry);
        }
        let mut acc: Vec<u8> = Vec::new();
        let mut found: Option<u32> = None;
        let mut pos: usize = start;
        assert(acc@ =~= Seq::<u8>::empty());
        loop
            invariant
                start <= pos <= stream.len(),
                decoded_from(stream@, pos as int, acc@, found) == decoded_payload_at(
                    stream@,
                    start as int,
                ),
            decreases stream.len() - pos,
        {
            let left: usize = stream.len() - pos;
            if left < 4 {
                if acc.len() == 0 {
                    return Err(WalError::NoEntry);
                }
                match found {
                    Some(log_number) => {
                        return Ok((log_number, acc, stream.len()));
                    },
                    None => {
                        return Err(WalError::NoEntry);
                    },
                }
            }
            if left < HEADER_SIZE {
                return Err(WalError::Truncated);
            }
            let expected_crc = read_le_u32(stream, pos);
            let size: usize = read_le_u16(stream, pos + 4) as usize;
            let type_byte: u8 = stream[pos + 6];
            let log_number = read_le_u32(stream, pos + 7);
            if left - HEADER_SIZE < size {
                return Err(WalError::Truncated);
            }
            let log2: u32 = match found {
                Some(first) => first,
                None => log_number,
            };
            let mut crc_data: Vec<u8> = Vec::new();
            push_range(&mut crc_data, stream, pos + 7, pos + 11);
            push_range(&mut crc_data, stream, pos + 11, pos + 11 + size);
            let ghost chunk = stream@.subrange(pos + 11, pos + 11 + size);
            assert(crc_data@ =~= stream@.subrange(pos + 7, pos + 11) + chunk);
            let actual_crc = crc32(&crc_data);
            if actual_crc != expected_crc {
                return Err(WalError::CrcMismatch);
            }
            let record_type = match RecordType::from_u8(type_byte) {
                Some(t) => t,
                None => {
                    return Err(WalError::InvalidRecordType);
                },
            };
            push_range(&mut acc, stream, pos + 11, pos + 11 + size);
            match record_type {
                RecordType::FullType | RecordType::LastType => {
                    return Ok((log2, acc, pos + 11 + size));
                },
                RecordType::ZeroType => {
                    return Err(WalError::ReservedRecordType);
                },
                RecordType::FirstType | RecordType::MiddleType => {
                    found = Some(log2);
                    pos = pos + 11 + size;
                },
            }
        }
    }

    /// Reads records from the start of `stream` until one logical entry is
    /// complete, and returns its log number and payload.
    pub fn decode_payload(stream: &Vec<u8>) -> (r: Result<(u32, Vec<u8>), WalError>)
        ensures
            match decoded_payload(stream@) {
                Ok((log_number, payload)) => r is Ok && r.unwrap().0 == log_number
                    && r.unwrap().1@ == payload,
                Err(e) => r is Err && r.unwrap_err() == e,
            },
    {
        match Self::decode_payload_at(stream, 0) {
            Ok((log_number, payload, _)) => Ok((log_number, payload)),
            Err(e) => Err(e),
        }
    }

    /// Reads the logical entry that starts at `start` in `stream`, and returns
    /// its log number, the entry and the position at which it ends.
    pub fn decode_at(stream: &Vec<u8>, start: usize) -> (r: Result<
        (u32, WalEntry, usize),
        WalError,
    >)
        ensures
            match Self::spec_decode_at(stream@, start as int) {
                Ok((log_number, entry, next)) => r is Ok && r.unwrap().0 == log_number
                    && r.unwrap().1@ == entry && r.unwrap().2 == next,
                Err(e) => r is Err && r.unwrap_err() == e,
            },
            r is Ok ==> start <= r.unwrap().2 <= stream.len(),
    {
        match Self::decode_payload_at(stream, start) {
            Err(e) => Err(e),
            Ok((log_number, payload, next)) => match deserialize_entry(&payload) {
                Some(entry) => Ok((log_number, entry, next)),
                None => Err(WalError::Codec),
            },
        }
    }

    /// Reads one logical entry from the start of `stream`.
    pub fn decode(stream: &Vec<u8>) -> (r: Result<(u32, WalEntry), WalError>)
        ensures
            match Self::spec_decode(stream@) {
                Ok((log_number, entry)) => r is Ok && r.unwrap().0 == log_number
                    && r.unwrap().1@ == entry,
                Err(e) => r is Err && r.unwrap_err() == e,
            },
    {
        match Self::decode_at(stream, 0) {
            Ok((log_number, entry, _)) => Ok((log_number, entry)),
            Err(e) => Err(e),
        }
    }
}

} // verus!
