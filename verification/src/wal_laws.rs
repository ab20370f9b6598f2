//! Laws of the write-ahead-log codec: what was encoded is what decoding reads.

use crate::wal::{
    bincode_deserialized, bincode_serialized, bits_of, le_bytes_u64, le_u64_at, signed_of, chunk_end, crc32_of, crc_input, decoded_from,
    decoded_payload, decoded_payload_at, encoded_from, encoded_payload, le_bytes_u16, le_bytes_u32, le_u16_at,
    le_u32_at, raw_record, record, RecordType, WalDecoder, WalEncoder, WalError, HEADER_SIZE, MAX_CHUNK,
};
use vstd::prelude::*;

verus! {

/// Four little-endian bytes spell the number they were made from.
pub proof fn lemma_le_u32_round_trip(x: u32, s: Seq<u8>, at: int)
    requires
        0 <= at,
        at + 4 <= s.len(),
        s.subrange(at, at + 4) == le_bytes_u32(x),
    ensures
        le_u32_at(s, at) == x,
{
    let b = s.subrange(at, at + 4);
    assert(s[at] == b[0] && s[at + 1] == b[1] && s[at + 2] == b[2] && s[at + 3] == b[3]);
    let v = x as int;
    assert(v == (v % 256) + 256 * ((v / 256) % 256) + 65536 * ((v / 65536) % 256) + 16777216 * ((v
        / 16777216) % 256));
}

/// Two little-endian bytes spell the number they were made from.
pub proof fn lemma_le_u16_round_trip(x: u16, s: Seq<u8>, at: int)
    requires
        0 <= at,
        at + 2 <= s.len(),
        s.subrange(at, at + 2) == le_bytes_u16(x),
    ensures
        le_u16_at(s, at) == x,
{
    let b = s.subrange(at, at + 2);
    assert(s[at] == b[0] && s[at + 1] == b[1]);
    let v = x as int;
    assert(v == (v % 256) + 256 * ((v / 256) % 256));
}

/// Reading resumes correctly in the middle of an encoded payload: where the
/// stream holds at `pos` the records of `payload[start..]`, and the chunks
/// before `start` have been read, decoding gives the log number and the whole
/// payload and stops behind its last record, whatever follows the records in
/// the stream.
pub proof fn lemma_decode_encoded_from(
    payload: Seq<u8>,
    log_number: u32,
    start: int,
    stream: Seq<u8>,
    pos: int,
)
    requires
        0 <= start < payload.len(),
        0 <= pos,
        pos + encoded_from(payload, log_number, start).len() <= stream.len(),
        stream.subrange(pos, pos + encoded_from(payload, log_number, start).len())
            == encoded_from(payload, log_number, start),
    ensures
        decoded_from(
            stream,
            pos,
            payload.subrange(0, start),
            if start == 0 {
                None
            } else {
                Some(log_number)
            },
        ) == Ok::<(u32, Seq<u8>, int), WalError>(
            (log_number, payload, pos + encoded_from(payload, log_number, start).len()),
        ),
    decreases payload.len() - start,
{
    let len = payload.len() as int;
    let end = chunk_end(start, len);
    let chunk = payload.subrange(start, end);
    let ty = RecordType::spec_classify(start, end, len);
    let rec = record(ty, log_number, chunk);
    let rest = encoded_from(payload, log_number, end);
    let enc = encoded_from(payload, log_number, start);
    let crc = crc32_of(crc_input(log_number, chunk));
    let size = chunk.len() as int;
    assert(enc == rec + rest);
    assert(rec.len() == 11 + size);
    assert(forall|i: int| 0 <= i < rec.len() ==> stream[pos + i] == #[trigger] rec[i]) by {
        assert forall|i: int| 0 <= i < rec.len() implies stream[pos + i] == #[trigger] rec[i] by {
            assert(stream.subrange(pos, pos + enc.len())[i] == enc[i]);
        }
    }
    assert(stream.subrange(pos, pos + 4) =~= le_bytes_u32(crc)) by {
        assert forall|i: int| 0 <= i < 4 implies #[trigger] stream.subrange(pos, pos + 4)[i] == le_bytes_u32(
            crc,
        )[i] by {
            assert(rec[i] == le_bytes_u32(crc)[i]);
        }
    }
    assert(stream.subrange(pos + 4, pos + 6) =~= le_bytes_u16(size as u16)) by {
        assert forall|i: int| 0 <= i < 2 implies #[trigger] stream.subrange(pos + 4, pos + 6)[i]
            == le_bytes_u16(size as u16)[i] by {
            assert(rec[4 + i] == le_bytes_u16(size as u16)[i]);
        }
    }
    assert(stream[pos + 6] == ty.spec_to_u8()) by {
        assert(rec[6] == ty.spec_to_u8());
    }
    assert(stream.subrange(pos + 7, pos + 11) =~= le_bytes_u32(log_number)) by {
        assert forall|i: int| 0 <= i < 4 implies #[trigger] stream.subrange(pos + 7, pos + 11)[i]
            == le_bytes_u32(log_number)[i] by {
            assert(rec[7 + i] == le_bytes_u32(log_number)[i]);
        }
    }
    assert(stream.subrange(pos + 11, pos + 11 + size) =~= chunk) by {
        assert forall|i: int| 0 <= i < size implies #[trigger] stream.subrange(pos + 11, pos + 11 + size)[i]
            == chunk[i] by {
            assert(rec[11 + i] == chunk[i]);
        }
    }
    lemma_le_u32_round_trip(crc, stream, pos);
    lemma_le_u16_round_trip(size as u16, stream, pos + 4);
    lemma_le_u32_round_trip(log_number, stream, pos + 7);
    assert(le_u16_at(stream, pos + 4) as int == size);
    assert(payload.subrange(0, start) + chunk =~= payload.subrange(0, end));
    assert(RecordType::spec_from_u8(ty.spec_to_u8()) == Some(ty));
    if end == len {
        assert(payload.subrange(0, end) =~= payload);
        assert(rest =~= Seq::<u8>::empty());
    } else {
        assert(stream.subrange(pos + 11 + size, pos + 11 + size + rest.len()) =~= rest) by {
            assert forall|i: int| 0 <= i < rest.len() implies #[trigger] stream.subrange(
                pos + 11 + size,
                pos + 11 + size + rest.len(),
            )[i] == rest[i] by {
                assert(stream.subrange(pos, pos + enc.len())[11 + size + i] == enc[11 + size + i]);
            }
        }
        lemma_decode_encoded_from(payload, log_number, end, stream, pos + 11 + size);
    }
}

/// Framing round trip: where a stream holds, behind any bytes `head`, the
/// records of a non-empty payload, decoding at the end of `head` gives back
/// the log number and the payload, for one record and for many, and stops
/// behind the records, whatever bytes `tail` follow them.
pub proof fn lemma_payload_round_trip_at(
    head: Seq<u8>,
    payload: Seq<u8>,
    log_number: u32,
    tail: Seq<u8>,
)
    requires
        payload.len() > 0,
    ensures
        decoded_payload_at(
            head + encoded_payload(payload, log_number) + tail,
            head.len() as int,
        ) == Ok::<(u32, Seq<u8>, int), WalError>(
            (
                log_number,
                payload,
                (head.len() + encoded_payload(payload, log_number).len()) as int,
            ),
        ),
{
    let enc = encoded_payload(payload, log_number);
    let stream = head + enc + tail;
    assert(stream.subrange(head.len() as int, (head.len() + enc.len()) as int) =~= enc);
    assert(payload.subrange(0, 0) =~= Seq::<u8>::empty());
    lemma_decode_encoded_from(payload, log_number, 0, stream, head.len() as int);
}

/// Framing round trip from the start of a stream: decoding the records of a
/// non-empty payload gives back its log number and the payload, whatever
/// follows the records.
pub proof fn lemma_payload_round_trip(payload: Seq<u8>, log_number: u32, tail: Seq<u8>)
    requires
        payload.len() > 0,
    ensures
        decoded_payload(encoded_payload(payload, log_number) + tail) == Ok::<
            (u32, Seq<u8>),
            WalError,
        >((log_number, payload)),
{
    let enc = encoded_payload(payload, log_number);
    lemma_payload_round_trip_at(Seq::empty(), payload, log_number, tail);
    assert(Seq::<u8>::empty() + enc + tail =~= enc + tail);
}

/// Eight little-endian bytes spell the number they were made from.
pub proof fn lemma_le_u64_round_trip(x: u64, s: Seq<u8>, at: int)
    requires
        0 <= at,
        at + 8 <= s.len(),
        s.subrange(at, at + 8) == le_bytes_u64(x),
    ensures
        le_u64_at(s, at) == x,
{
    reveal(le_bytes_u64);
    reveal(le_u64_at);
    let low = (x % 4294967296) as u32;
    let high = (x / 4294967296) as u32;
    let b = s.subrange(at, at + 8);
    assert(s.subrange(at, at + 4) =~= b.subrange(0, 4));
    assert(s.subrange(at + 4, at + 8) =~= b.subrange(4, 8));
    assert(b.subrange(0, 4) =~= le_bytes_u32(low));
    assert(b.subrange(4, 8) =~= le_bytes_u32(high));
    lemma_le_u32_round_trip(low, s, at);
    lemma_le_u32_round_trip(high, s, at + 4);
}

/// A 64-bit number has eight little-endian bytes.
pub proof fn lemma_le_bytes_u64_len(x: u64)
    ensures
        le_bytes_u64(x).len() == 8,
{
    reveal(le_bytes_u64);
}

/// The serializer reads every entry back from its own payload: the payload
/// is never empty, and what is read from it is the entry.
pub proof fn lemma_serializer_reads_back(entry: (i64, Seq<u8>, Seq<u8>))
    requires
        entry.1.len() <= usize::MAX,
        entry.2.len() <= usize::MAX,
    ensures
        WalEncoder::reads_back(entry),
{
    let key = entry.1;
    let value = entry.2;
    let kl = key.len() as int;
    let vl = value.len() as int;
    reveal(bincode_serialized);
    reveal(bincode_deserialized);
    let payload = bincode_serialized(entry.0, key, value).unwrap();
    lemma_le_bytes_u64_len(bits_of(entry.0));
    lemma_le_bytes_u64_len(kl as u64);
    lemma_le_bytes_u64_len(vl as u64);
    assert(payload.len() == 24 + kl + vl);
    assert(payload.subrange(0, 8) =~= le_bytes_u64(bits_of(entry.0)));
    assert(payload.subrange(8, 16) =~= le_bytes_u64(kl as u64));
    assert(payload.subrange(16, 16 + kl) =~= key);
    assert(payload.subrange(16 + kl, 24 + kl) =~= le_bytes_u64(vl as u64));
    assert(payload.subrange(24 + kl, 24 + kl + vl) =~= value);
    lemma_le_u64_round_trip(bits_of(entry.0), payload, 0);
    lemma_le_u64_round_trip(kl as u64, payload, 8);
    lemma_le_u64_round_trip(vl as u64, payload, 16 + kl);
    assert(signed_of(bits_of(entry.0)) == entry.0);
}

/// Entry round trip: where the serializer reads an entry back from its own
/// payload, decoding at the place where the entry's records stand gives the
/// log number and the entry, and stops behind the records, whatever bytes
/// stand before and behind them, for a payload of one record and of many.
pub proof fn lemma_entry_round_trip(
    head: Seq<u8>,
    entry: (i64, Seq<u8>, Seq<u8>),
    log_number: u32,
    tail: Seq<u8>,
)
    requires
        WalEncoder::reads_back(entry),
    ensures
        WalEncoder::spec_encode(entry, log_number) is Some,
        WalDecoder::spec_decode_at(
            head + WalEncoder::spec_encode(entry, log_number).unwrap() + tail,
            head.len() as int,
        ) == Ok::<(u32, (i64, Seq<u8>, Seq<u8>), int), WalError>(
            (
                log_number,
                entry,
                (head.len() + WalEncoder::spec_encode(entry, log_number).unwrap().len()) as int,
            ),
        ),
        head.len() == 0 ==> WalDecoder::spec_decode(
            WalEncoder::spec_encode(entry, log_number).unwrap() + tail,
        ) == Ok::<(u32, (i64, Seq<u8>, Seq<u8>)), WalError>((log_number, entry)),
{
    let payload = bincode_serialized(entry.0, entry.1, entry.2).unwrap();
    let enc = encoded_payload(payload, log_number);
    lemma_payload_round_trip_at(head, payload, log_number, tail);
    if head.len() == 0 {
        assert(head + enc + tail =~= enc + tail);
    }
}

/// Round trip: decoding what was encoded gives back the log number and the
/// entry, timestamp, key and value, for an entry whose payload fits one
/// record and for one that is split into many, whatever bytes stand before
/// and behind its records.
pub proof fn lemma_round_trip(
    head: Seq<u8>,
    entry: (i64, Seq<u8>, Seq<u8>),
    log_number: u32,
    tail: Seq<u8>,
)
    requires
        entry.1.len() <= usize::MAX,
        entry.2.len() <= usize::MAX,
    ensures
        WalEncoder::spec_encode(entry, log_number) is Some,
        WalDecoder::spec_decode_at(
            head + WalEncoder::spec_encode(entry, log_number).unwrap() + tail,
            head.len() as int,
        ) == Ok::<(u32, (i64, Seq<u8>, Seq<u8>), int), WalError>(
            (
                log_number,
                entry,
                (head.len() + WalEncoder::spec_encode(entry, log_number).unwrap().len()) as int,
            ),
        ),
        head.len() == 0 ==> WalDecoder::spec_decode(
            WalEncoder::spec_encode(entry, log_number).unwrap() + tail,
        ) == Ok::<(u32, (i64, Seq<u8>, Seq<u8>)), WalError>((log_number, entry)),
{
    lemma_serializer_reads_back(entry);
    lemma_entry_round_trip(head, entry, log_number, tail);
}

/// Record types by position: the record of the chunk that starts at `start`
/// in a payload of `len` bytes is a full record where it is the only one, a
/// first record where it starts the payload and more follows, a last record
/// where it ends the payload, and a middle record otherwise. No record has
/// the reserved type, and no chunk is longer than `MAX_CHUNK`.
pub proof fn lemma_record_types(start: int, len: int)
    requires
        0 <= start < len,
    ensures
        RecordType::spec_classify(start, chunk_end(start, len), len) == (if start == 0 && len
            <= MAX_CHUNK {
            RecordType::FullType
        } else if start == 0 {
            RecordType::FirstType
        } else if len - start <= MAX_CHUNK {
            RecordType::LastType
        } else {
            RecordType::MiddleType
        }),
        RecordType::spec_classify(start, chunk_end(start, len), len) != RecordType::ZeroType,
        start < chunk_end(start, len) <= len,
        chunk_end(start, len) - start <= MAX_CHUNK,
{
}

/// A payload of at most `MAX_CHUNK` bytes is carried by one full record.
pub proof fn lemma_single_record(payload: Seq<u8>, log_number: u32)
    requires
        0 < payload.len() <= MAX_CHUNK,
    ensures
        encoded_payload(payload, log_number) == record(RecordType::FullType, log_number, payload),
{
    let len = payload.len() as int;
    assert(chunk_end(0, len) == len);
    assert(payload.subrange(0, len) =~= payload);
    assert(encoded_from(payload, log_number, len) =~= Seq::<u8>::empty());
    assert(record(RecordType::FullType, log_number, payload) + Seq::<u8>::empty() =~= record(
        RecordType::FullType,
        log_number,
        payload,
    ));
}

/// What one record decodes to, whatever its header says: a stream that is
/// one record whose stored checksum differs from the checksum of its log
/// number and chunk gives `CrcMismatch`; with the right checksum, an unknown
/// type byte gives `InvalidRecordType` and the reserved one
/// `ReservedRecordType`, and every other type byte gives the log number and
/// the chunk (for a first or middle record, of a chunk that is not empty, by
/// the clean stop at the end of the stream). So damage to the type byte, or
/// damage to the log number or the chunk that changes their checksum, gives
/// an error or the payload that was written, never another payload.
pub proof fn lemma_decode_one_record(crc: u32, type_byte: u8, log_number: u32, chunk: Seq<u8>)
    requires
        chunk.len() <= u16::MAX,
    ensures
        decoded_payload(raw_record(crc, chunk.len() as u16, type_byte, log_number, chunk)) == (
        if crc != crc32_of(crc_input(log_number, chunk)) {
            Err::<(u32, Seq<u8>), WalError>(WalError::CrcMismatch)
        } else {
            match RecordType::spec_from_u8(type_byte) {
                None => Err(WalError::InvalidRecordType),
                Some(RecordType::ZeroType) => Err(WalError::ReservedRecordType),
                Some(RecordType::FullType) | Some(RecordType::LastType) => Ok(
                    (log_number, chunk),
                ),
                Some(_) => if chunk.len() == 0 {
                    Err(WalError::NoEntry)
                } else {
                    Ok((log_number, chunk))
                },
            }
        }),
{
    let size = chunk.len() as int;
    let stream = raw_record(crc, size as u16, type_byte, log_number, chunk);
    assert(stream.len() == 11 + size);
    assert(stream.subrange(0, 4) =~= le_bytes_u32(crc));
    assert(stream.subrange(4, 6) =~= le_bytes_u16(size as u16));
    assert(stream[6] == type_byte);
    assert(stream.subrange(7, 11) =~= le_bytes_u32(log_number));
    assert(stream.subrange(11, 11 + size) =~= chunk);
    lemma_le_u32_round_trip(crc, stream, 0);
    lemma_le_u16_round_trip(size as u16, stream, 4);
    lemma_le_u32_round_trip(log_number, stream, 7);
    assert(Seq::<u8>::empty() + chunk =~= chunk);
    assert(stream.subrange(7, 11) + chunk == crc_input(log_number, chunk));
    assert(decoded_from(stream, 11 + size, chunk, Some(log_number)) == (if chunk.len() == 0 {
        Err::<(u32, Seq<u8>, int), WalError>(WalError::NoEntry)
    } else {
        Ok((log_number, chunk, stream.len() as int))
    }));
}

/// A length field that claims more bytes than follow is detected: a stream
/// that is one header and fewer bytes than its length field says decodes to
/// `Truncated`, whatever its other fields say.
pub proof fn lemma_overlong_length_rejected(
    crc: u32,
    len: u16,
    type_byte: u8,
    log_number: u32,
    chunk: Seq<u8>,
)
    requires
        chunk.len() < len,
    ensures
        decoded_payload(raw_record(crc, len, type_byte, log_number, chunk)) == Err::<
            (u32, Seq<u8>),
            WalError,
        >(WalError::Truncated),
        WalError::Truncated.spec_is_corruption(),
{
    let stream = raw_record(crc, len, type_byte, log_number, chunk);
    assert(stream.len() == 11 + chunk.len());
    assert(stream.subrange(4, 6) =~= le_bytes_u16(len));
    lemma_le_u16_round_trip(len, stream, 4);
}

/// Checksum mismatch is never passed over, in the first record of an entry
/// or in a later one: where the stream holds at `pos` a whole record whose
/// stored checksum differs from the checksum of its log number and chunk,
/// reading on from `pos` gives `CrcMismatch`, a corruption error, whatever
/// was read before, whatever the record's type byte says and whatever
/// follows it.
pub proof fn lemma_checksum_mismatch_rejected(
    stream: Seq<u8>,
    pos: int,
    acc: Seq<u8>,
    first_log: Option<u32>,
)
    requires
        0 <= pos,
        stream.len() - pos >= HEADER_SIZE,
        stream.len() - pos - HEADER_SIZE >= le_u16_at(stream, pos + 4),
        crc32_of(stream.subrange(pos + 7, pos + 11 + le_u16_at(stream, pos + 4))) != le_u32_at(
            stream,
            pos,
        ),
    ensures
        decoded_from(stream, pos, acc, first_log) == Err::<(u32, Seq<u8>, int), WalError>(
            WalError::CrcMismatch,
        ),
        pos == 0 ==> WalDecoder::spec_decode(stream) == Err::<
            (u32, (i64, Seq<u8>, Seq<u8>)),
            WalError,
        >(WalError::CrcMismatch),
        WalError::CrcMismatch.spec_is_corruption(),
{
    let size = le_u16_at(stream, pos + 4) as int;
    assert(stream.subrange(pos + 7, pos + 11) + stream.subrange(pos + 11, pos + 11 + size)
        =~= stream.subrange(pos + 7, pos + 11 + size));
    if pos == 0 {
        let start = decoded_from(stream, 0, Seq::empty(), None);
        assert(start == Err::<(u32, Seq<u8>, int), WalError>(WalError::CrcMismatch));
        assert(decoded_payload_at(stream, 0) == start);
    }
}

} // verus!
