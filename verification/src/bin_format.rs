//! The length-framed binary format.
//!
//! Each record is one frame: the four magic bytes `YPBN`, a big-endian 32-bit
//! body length, and the body itself.  The body holds, in order: transaction id
//! (u64), type (u8), initiator id (u64), receiver id (u64), amount (64 bits,
//! written as a signed value whose two's-complement bytes coincide with the
//! unsigned ones), timestamp (u64), status (u8), description length (u32) and
//! the description's UTF-8 bytes.  All multi-byte fields are big-endian.

use vstd::prelude::*;

use crate::errors::{ConvertingError, ParsingError, ParsingErrorV};
use crate::text::{chars_to_string, string_to_chars, string_utf8_bytes, utf8_to_string};
use crate::{Converter, Record, RecordV, TxStatus, TxType, MIN_FIXED_SIZE};
use vstd::utf8::{decode_utf8, encode_utf8, valid_utf8};

verus! {

/// The magic bytes `YPBN` that open every frame.
pub open spec fn spec_magic() -> Seq<u8> {
    seq![0x59u8, 0x50u8, 0x42u8, 0x4eu8]
}

/// The big-endian bytes of a 32-bit value.
pub open spec fn spec_u32_be(x: u32) -> Seq<u8> {
    seq![
        ((x >> 24) & 0xff) as u8,
        ((x >> 16) & 0xff) as u8,
        ((x >> 8) & 0xff) as u8,
        (x & 0xff) as u8,
    ]
}

/// The 32-bit value four big-endian bytes denote.
pub open spec fn spec_be32(s: Seq<u8>) -> u32
    recommends
        s.len() == 4,
{
    (((s[0] as u32) << 24) | ((s[1] as u32) << 16) | ((s[2] as u32) << 8) | (s[3] as u32)) as u32
}

/// The big-endian bytes of a 64-bit value.
pub open spec fn spec_u64_be(x: u64) -> Seq<u8> {
    seq![
        ((x >> 56) & 0xff) as u8,
        ((x >> 48) & 0xff) as u8,
        ((x >> 40) & 0xff) as u8,
        ((x >> 32) & 0xff) as u8,
        ((x >> 24) & 0xff) as u8,
        ((x >> 16) & 0xff) as u8,
        ((x >> 8) & 0xff) as u8,
        (x & 0xff) as u8,
    ]
}

/// The 64-bit value eight big-endian bytes denote.
pub open spec fn spec_be64(s: Seq<u8>) -> u64
    recommends
        s.len() == 8,
{
    (((s[0] as u64) << 56) | ((s[1] as u64) << 48) | ((s[2] as u64) << 40) | ((s[3] as u64) << 32)
        | ((s[4] as u64) << 24) | ((s[5] as u64) << 16) | ((s[6] as u64) << 8) | (s[7] as u64)) as u64
}

/// Reading back the big-endian bytes of a 32-bit value gives the value.
pub proof fn lemma_u32_be_round(x: u32)
    ensures
        spec_be32(spec_u32_be(x)) == x,
{
    let s = spec_u32_be(x);
    let b0 = ((x >> 24) & 0xff) as u8;
    let b1 = ((x >> 16) & 0xff) as u8;
    let b2 = ((x >> 8) & 0xff) as u8;
    let b3 = (x & 0xff) as u8;
    assert((((b0 as u32) << 24) | ((b1 as u32) << 16) | ((b2 as u32) << 8) | (b3 as u32)) == x)
        by (bit_vector)
        requires
            b0 == ((x >> 24) & 0xff) as u8,
            b1 == ((x >> 16) & 0xff) as u8,
            b2 == ((x >> 8) & 0xff) as u8,
            b3 == (x & 0xff) as u8;
    assert(s[0] == b0 && s[1] == b1 && s[2] == b2 && s[3] == b3);
}

/// Reading back the big-endian bytes of a 64-bit value gives the value.
pub proof fn lemma_u64_be_round(x: u64)
    ensures
        spec_be64(spec_u64_be(x)) == x,
{
    let s = spec_u64_be(x);
    let b0 = ((x >> 56) & 0xff) as u8;
    let b1 = ((x >> 48) & 0xff) as u8;
    let b2 = ((x >> 40) & 0xff) as u8;
    let b3 = ((x >> 32) & 0xff) as u8;
    let b4 = ((x >> 24) & 0xff) as u8;
    let b5 = ((x >> 16) & 0xff) as u8;
    let b6 = ((x >> 8) & 0xff) as u8;
    let b7 = (x & 0xff) as u8;
    assert((((b0 as u64) << 56) | ((b1 as u64) << 48) | ((b2 as u64) << 40) | ((b3 as u64) << 32)
        | ((b4 as u64) << 24) | ((b5 as u64) << 16) | ((b6 as u64) << 8) | (b7 as u64)) == x)
        by (bit_vector)
        requires
            b0 == ((x >> 56) & 0xff) as u8,
            b1 == ((x >> 48) & 0xff) as u8,
            b2 == ((x >> 40) & 0xff) as u8,
            b3 == ((x >> 32) & 0xff) as u8,
            b4 == ((x >> 24) & 0xff) as u8,
            b5 == ((x >> 16) & 0xff) as u8,
            b6 == ((x >> 8) & 0xff) as u8,
            b7 == (x & 0xff) as u8;
    assert(s[0] == b0 && s[1] == b1 && s[2] == b2 && s[3] == b3 && s[4] == b4 && s[5] == b5 && s[6]
        == b6 && s[7] == b7);
}

/// The wire byte for a transaction type.
pub open spec fn spec_tx_type_byte(t: TxType) -> u8 {
    match t {
        TxType::DEPOSIT => 0,
        TxType::TRANSFER => 1,
        TxType::WITHDRAWAL => 2,
    }
}

/// The transaction type a wire byte denotes, if any.
pub open spec fn spec_tx_type_of_byte(b: u8) -> Option<TxType> {
    if b == 0 {
        Some(TxType::DEPOSIT)
    } else if b == 1 {
        Some(TxType::TRANSFER)
    } else if b == 2 {
        Some(TxType::WITHDRAWAL)
    } else {
        None
    }
}

/// The wire byte for a transaction status.
pub open spec fn spec_tx_status_byte(t: TxStatus) -> u8 {
    match t {
        TxStatus::SUCCESS => 0,
        TxStatus::FAILURE => 1,
        TxStatus::PENDING => 2,
    }
}

/// The transaction status a wire byte denotes, if any.
pub open spec fn spec_tx_status_of_byte(b: u8) -> Option<TxStatus> {
    if b == 0 {
        Some(TxStatus::SUCCESS)
    } else if b == 1 {
        Some(TxStatus::FAILURE)
    } else if b == 2 {
        Some(TxStatus::PENDING)
    } else {
        None
    }
}

/// `s` with every double quote removed, as decoding applies to descriptions.
pub open spec fn spec_remove_dq(s: Seq<char>) -> Seq<char>
    decreases s.len(),
{
    if s.len() == 0 {
        Seq::empty()
    } else if s.last() == '"' {
        spec_remove_dq(s.drop_last())
    } else {
        spec_remove_dq(s.drop_last()).push(s.last())
    }
}

/// Removing double quotes from a string without any leaves it unchanged.
pub proof fn lemma_remove_dq_id(s: Seq<char>)
    requires
        forall|i: int| 0 <= i < s.len() ==> s[i] != '"',
    ensures
        spec_remove_dq(s) == s,
    decreases s.len(),
{
    if s.len() == 0 {
        assert(spec_remove_dq(s) =~= s);
    } else {
        lemma_remove_dq_id(s.drop_last());
        assert(spec_remove_dq(s) =~= s);
    }
}

/// The body bytes of one record: the fixed-width fields, then the
/// description's length and UTF-8 bytes.
pub open spec fn spec_record_body(r: RecordV) -> Seq<u8> {
    let desc = encode_utf8(r.description);
    spec_u64_be(r.tx_id) + seq![spec_tx_type_byte(r.tx_type)] + spec_u64_be(r.from_user_id)
        + spec_u64_be(r.to_user_id) + spec_u64_be(r.amount) + spec_u64_be(r.timestamp) + seq![
        spec_tx_status_byte(r.tx_status),
    ] + spec_u32_be(desc.len() as u32) + desc
}

/// Whether one record's description fits a frame: together with the fixed
/// fields its UTF-8 byte length must stay within the 32-bit body length.
pub open spec fn spec_bin_encodable_rec(r: RecordV) -> bool {
    encode_utf8(r.description).len() + (MIN_FIXED_SIZE as int) <= u32::MAX
}

/// Whether every record of `rs` fits its frame.
pub open spec fn spec_bin_encodable(rs: Seq<RecordV>) -> bool {
    forall|i: int| 0 <= i < rs.len() ==> spec_bin_encodable_rec(#[trigger] rs[i])
}

/// The full frame of one record: magic, body length, body.
pub open spec fn spec_encode_rec(r: RecordV) -> Seq<u8> {
    let body = spec_record_body(r);
    spec_magic() + spec_u32_be(body.len() as u32) + body
}

/// The bytes that encode `rs`: the concatenation of the records' frames.
pub open spec fn spec_encode_bin(rs: Seq<RecordV>) -> Seq<u8>
    decreases rs.len(),
{
    if rs.len() == 0 {
        Seq::empty()
    } else {
        spec_encode_rec(rs[0]) + spec_encode_bin(rs.drop_first())
    }
}

/// Encoding one more record appends one more frame.
pub proof fn lemma_encode_bin_snoc(rs: Seq<RecordV>, r: RecordV)
    ensures
        spec_encode_bin(rs.push(r)) == spec_encode_bin(rs) + spec_encode_rec(r),
    decreases rs.len(),
{
    if rs.len() == 0 {
        assert(rs.push(r)[0] == r);
        assert(rs.push(r).drop_first() =~= Seq::<RecordV>::empty());
        assert(spec_encode_bin(Seq::<RecordV>::empty()) =~= Seq::<u8>::empty());
        assert(spec_encode_bin(rs.push(r)) =~= spec_encode_bin(rs) + spec_encode_rec(r));
    } else {
        assert(rs.push(r).drop_first() =~= rs.drop_first().push(r));
        lemma_encode_bin_snoc(rs.drop_first(), r);
        assert(rs.push(r)[0] == rs[0]);
        assert(spec_encode_rec(rs[0]) + (spec_encode_bin(rs.drop_first()) + spec_encode_rec(r))
            =~= (spec_encode_rec(rs[0]) + spec_encode_bin(rs.drop_first())) + spec_encode_rec(r));
        assert(spec_encode_bin(rs.push(r)) =~= spec_encode_bin(rs) + spec_encode_rec(r));
    }
}

/// What parsing the body bytes of one frame yields.  The checks come in the
/// order the decoder makes them: type byte, status byte, declared description
/// length against the body, then UTF-8 validity of the description.
pub open spec fn spec_parse_body(body: Seq<u8>) -> Result<RecordV, ParsingErrorV>
    recommends
        body.len() >= MIN_FIXED_SIZE as int,
{
    let tb = body[8];
    if spec_tx_type_of_byte(tb) is None {
        Err(ParsingErrorV::WrongTxType)
    } else {
        let sb = body[41];
        if spec_tx_status_of_byte(sb) is None {
            Err(ParsingErrorV::WrongStatusType)
        } else {
            let desc_len = spec_be32(body.subrange(42, 46)) as int;
            if (MIN_FIXED_SIZE as int) + desc_len > body.len() {
                Err(ParsingErrorV::WrongRecordData)
            } else {
                let desc = body.subrange(46, 46 + desc_len);
                if !valid_utf8(desc) {
                    Err(ParsingErrorV::Utf8Error)
                } else {
                    Ok(
                        RecordV {
                            tx_type: spec_tx_type_of_byte(tb)->0,
                            tx_status: spec_tx_status_of_byte(sb)->0,
                            to_user_id: spec_be64(body.subrange(17, 25)),
                            from_user_id: spec_be64(body.subrange(9, 17)),
                            timestamp: spec_be64(body.subrange(33, 41)),
                            description: spec_remove_dq(decode_utf8(desc)),
                            tx_id: spec_be64(body.subrange(0, 8)),
                            amount: spec_be64(body.subrange(25, 33)),
                        },
                    )
                }
            }
        }
    }
}

/// What parsing a binary stream yields.  Fewer than four remaining bytes are
/// a clean end of stream; after a complete magic header, any shortage or
/// inconsistency is an error.
pub open spec fn spec_parse_bin(bytes: Seq<u8>) -> Result<Seq<RecordV>, ParsingErrorV>
    decreases bytes.len(),
{
    if bytes.len() < 4 {
        Ok(Seq::empty())
    } else if bytes.subrange(0, 4) != spec_magic() {
        Err(ParsingErrorV::InvalidMagicHeader)
    } else if bytes.len() < 8 {
        Err(ParsingErrorV::WrongRecordData)
    } else {
        let size = spec_be32(bytes.subrange(4, 8)) as int;
        if size < MIN_FIXED_SIZE as int {
            Err(ParsingErrorV::WrongRecordData)
        } else if bytes.len() < 8 + size {
            Err(ParsingErrorV::WrongRecordData)
        } else {
            match spec_parse_body(bytes.subrange(8, 8 + size)) {
                Err(e) => Err(e),
                Ok(r) => match spec_parse_bin(bytes.skip(8 + size)) {
                    Err(e) => Err(e),
                    Ok(rest) => Ok(seq![r] + rest),
                },
            }
        }
    }
}

/// Appends all bytes of `src` to `out`.
pub fn push_bytes(out: &mut Vec<u8>, src: &Vec<u8>)
    ensures
        final(out)@ == old(out)@ + src@,
{
    let mut i: usize = 0;
    proof {
        assert(out@ =~= old(out)@ + src@.take(0));
    }
    while i < src.len()
        invariant
            i <= src@.len(),
            out@ == old(out)@ + src@.take(i as int),
        decreases src@.len() - i,
    {
        out.push(src[i]);
        proof {
            assert(out@ =~= old(out)@ + src@.take(i + 1 as int));
        }
        i = i + 1;
    }
    proof {
        assert(src@.take(src@.len() as int) =~= src@);
    }
}

/// Copies the bytes of `v` between `from` and `to` into a fresh vector.
fn copy_bytes(v: &Vec<u8>, from: usize, to: usize) -> (out: Vec<u8>)
    requires
        from <= to <= v@.len(),
    ensures
        out@ == v@.subrange(from as int, to as int),
{
    let mut out: Vec<u8> = Vec::new();
    let mut i: usize = from;
    while i < to
        invariant
            from <= i <= to <= v@.len(),
            out@ == v@.subrange(from as int, i as int),
        decreases to - i,
    {
        out.push(v[i]);
        proof {
            assert(out@ =~= v@.subrange(from as int, i + 1 as int));
        }
        i = i + 1;
    }
    out
}

/// Appends the big-endian bytes of `x` to `out`.
fn push_u32_be(out: &mut Vec<u8>, x: u32)
    ensures
        final(out)@ == old(out)@ + spec_u32_be(x),
{
    out.push(((x >> 24) & 0xff) as u8);
    out.push(((x >> 16) & 0xff) as u8);
    out.push(((x >> 8) & 0xff) as u8);
    out.push((x & 0xff) as u8);
    proof {
        assert(out@ =~= old(out)@ + spec_u32_be(x));
    }
}

/// Appends the big-endian bytes of `x` to `out`.
fn push_u64_be(out: &mut Vec<u8>, x: u64)
    ensures
        final(out)@ == old(out)@ + spec_u64_be(x),
{
    out.push(((x >> 56) & 0xff) as u8);
    out.push(((x >> 48) & 0xff) as u8);
    out.push(((x >> 40) & 0xff) as u8);
    out.push(((x >> 32) & 0xff) as u8);
    out.push(((x >> 24) & 0xff) as u8);
    out.push(((x >> 16) & 0xff) as u8);
    out.push(((x >> 8) & 0xff) as u8);
    out.push((x & 0xff) as u8);
    proof {
        assert(out@ =~= old(out)@ + spec_u64_be(x));
    }
}

/// Reads a big-endian 32-bit value at offset `off`.
fn read_u32_be(v: &Vec<u8>, off: usize) -> (x: u32)
    requires
        off + 4 <= v@.len(),
    ensures
        x == spec_be32(v@.subrange(off as int, off + 4)),
{
    let n = v.len();
    proof {
        assert(off + 4 <= n);
    }
    let x = ((v[off] as u32) << 24) | ((v[off + 1] as u32) << 16) | ((v[off + 2] as u32) << 8) | (
    v[off + 3] as u32);
    proof {
        let s = v@.subrange(off as int, off + 4);
        assert(s[0] == v@[off as int] && s[1] == v@[off + 1] && s[2] == v@[off + 2] && s[3] == v@[
            off + 3
        ]);
    }
    x
}

/// Reads a big-endian 64-bit value at offset `off`.
fn read_u64_be(v: &Vec<u8>, off: usize) -> (x: u64)
    requires
        off + 8 <= v@.len(),
    ensures
        x == spec_be64(v@.subrange(off as int, off + 8)),
{
    let n = v.len();
    proof {
        assert(off + 8 <= n);
    }
    let x = ((v[off] as u64) << 56) | ((v[off + 1] as u64) << 48) | ((v[off + 2] as u64) << 40) | ((
    v[off + 3] as u64) << 32) | ((v[off + 4] as u64) << 24) | ((v[off + 5] as u64) << 16) | ((v[off
        + 6] as u64) << 8) | (v[off + 7] as u64);
    proof {
        let s = v@.subrange(off as int, off + 8);
        assert(s[0] == v@[off as int] && s[1] == v@[off + 1] && s[2] == v@[off + 2] && s[3] == v@[
            off + 3
        ] && s[4] == v@[off + 4] && s[5] == v@[off + 5] && s[6] == v@[off + 6] && s[7] == v@[off
            + 7]);
    }
    x
}

/// Removes every double quote from `v`.
fn remove_dq(v: &Vec<char>) -> (out: Vec<char>)
    ensures
        out@ == spec_remove_dq(v@),
{
    let mut out: Vec<char> = Vec::new();
    let mut i: usize = 0;
    proof {
        assert(v@.take(0) =~= Seq::<char>::empty());
        assert(out@ =~= spec_remove_dq(v@.take(0)));
    }
    while i < v.len()
        invariant
            i <= v@.len(),
            out@ == spec_remove_dq(v@.take(i as int)),
        decreases v@.len() - i,
    {
        proof {
            let t = v@.take(i + 1 as int);
            assert(t.drop_last() =~= v@.take(i as int));
            assert(t.last() == v@[i as int]);
        }
        let c = v[i];
        if c != '"' {
            out.push(c);
        }
        i = i + 1;
    }
    proof {
        assert(v@.take(v@.len() as int) =~= v@);
    }
    out
}


/// Parses one frame body lying at `bs..bs + size` in `data`.
#[verifier::rlimit(50)]
fn parse_body_at(data: &Vec<u8>, bs: usize, size: usize) -> (res: Result<Record, ParsingError>)
    requires
        bs + size <= data@.len(),
        MIN_FIXED_SIZE as usize <= size,
    ensures
        match res {
            Ok(rec) => spec_parse_body(data@.subrange(bs as int, bs + size as int))
                == Ok::<RecordV, ParsingErrorV>(rec@),
            Err(e) => spec_parse_body(data@.subrange(bs as int, bs + size as int))
                == Err::<RecordV, ParsingErrorV>(e@),
        },
{
    let n = data.len();
    let ghost body = data@.subrange(bs as int, bs + size as int);
    proof {
        assert(bs + size <= n);
        assert(forall|k: int| 0 <= k < body.len() ==> body[k] == data@[k + bs]);
    }
    let tx_id = read_u64_be(data, bs);
    let tb = data[bs + 8];
    proof {
        assert(body.subrange(0, 8) =~= data@.subrange(bs as int, bs + 8));
        assert(body[8] == tb);
    }
    let tx_type = if tb == 0 {
        TxType::DEPOSIT
    } else if tb == 1 {
        TxType::TRANSFER
    } else if tb == 2 {
        TxType::WITHDRAWAL
    } else {
        return Err(ParsingError::WrongTxType);
    };
    let from_user_id = read_u64_be(data, bs + 9);
    let to_user_id = read_u64_be(data, bs + 17);
    let amount = read_u64_be(data, bs + 25);
    let timestamp = read_u64_be(data, bs + 33);
    let sb = data[bs + 41];
    proof {
        assert(body.subrange(9, 17) =~= data@.subrange(bs + 9, bs + 17));
        assert(body.subrange(17, 25) =~= data@.subrange(bs + 17, bs + 25));
        assert(body.subrange(25, 33) =~= data@.subrange(bs + 25, bs + 33));
        assert(body.subrange(33, 41) =~= data@.subrange(bs + 33, bs + 41));
        assert(body[41] == sb);
    }
    let tx_status = if sb == 0 {
        TxStatus::SUCCESS
    } else if sb == 1 {
        TxStatus::FAILURE
    } else if sb == 2 {
        TxStatus::PENDING
    } else {
        return Err(ParsingError::WrongStatusType);
    };
    let desc_len_u32 = read_u32_be(data, bs + 42);
    let desc_len = desc_len_u32 as usize;
    proof {
        assert(body.subrange(42, 46) =~= data@.subrange(bs + 42, bs + 46));
    }
    if desc_len > size - (MIN_FIXED_SIZE as usize) {
        return Err(ParsingError::WrongRecordData);
    }
    let desc_bytes = copy_bytes(data, bs + 46, bs + 46 + desc_len);
    proof {
        assert(body.subrange(46, 46 + desc_len as int) =~= data@.subrange(
            bs + 46,
            bs + 46 + desc_len as int,
        ));
    }
    let desc_string = match utf8_to_string(&desc_bytes) {
        Some(s) => s,
        None => {
            return Err(ParsingError::Utf8Error);
        },
    };
    let desc_chars = string_to_chars(desc_string.as_str());
    let stripped = remove_dq(&desc_chars);
    let description = chars_to_string(&stripped);
    let rec = Record {
        tx_type,
        tx_status,
        to_user_id,
        from_user_id,
        timestamp,
        description,
        tx_id,
        amount,
    };
    proof {
        assert(spec_parse_body(body) is Ok);
        assert(rec@ =~= spec_parse_body(body)->Ok_0);
    }
    Ok(rec)
}

/// One unfolding of [`spec_parse_bin`] at a complete frame.
proof fn lemma_parse_bin_unfold(rem: Seq<u8>, size: int)
    requires
        rem.len() >= 8,
        rem.subrange(0, 4) == spec_magic(),
        size == spec_be32(rem.subrange(4, 8)) as int,
        MIN_FIXED_SIZE as int <= size,
        8 + size <= rem.len(),
    ensures
        spec_parse_bin(rem) == (match spec_parse_body(rem.subrange(8, 8 + size)) {
            Err(e) => Err::<Seq<RecordV>, ParsingErrorV>(e),
            Ok(r) => match spec_parse_bin(rem.skip(8 + size)) {
                Err(e) => Err::<Seq<RecordV>, ParsingErrorV>(e),
                Ok(rest) => Ok::<Seq<RecordV>, ParsingErrorV>(seq![r] + rest),
            },
        }),
{
}

/// A parse already holding `prefix`, continued by `rest`.
pub open spec fn spec_compose_parse(
    prefix: Seq<RecordV>,
    rest: Result<Seq<RecordV>, ParsingErrorV>,
) -> Result<Seq<RecordV>, ParsingErrorV> {
    match rest {
        Ok(t) => Ok(prefix + t),
        Err(e) => Err(e),
    }
}

/// Consuming one complete frame moves its record from the remainder to the
/// prefix.
proof fn lemma_parse_step(data: Seq<u8>, pos: int, pos2: int, size: int, prefix: Seq<RecordV>, rv: RecordV)
    requires
        0 <= pos <= data.len(),
        data.skip(pos).len() >= 8,
        data.skip(pos).subrange(0, 4) == spec_magic(),
        size == spec_be32(data.skip(pos).subrange(4, 8)) as int,
        MIN_FIXED_SIZE as int <= size,
        8 + size <= data.skip(pos).len(),
        spec_parse_body(data.skip(pos).subrange(8, 8 + size)) == Ok::<RecordV, ParsingErrorV>(rv),
        pos2 == pos + 8 + size,
        spec_parse_bin(data) == spec_compose_parse(prefix, spec_parse_bin(data.skip(pos))),
    ensures
        spec_parse_bin(data) == spec_compose_parse(prefix.push(rv), spec_parse_bin(data.skip(pos2))),
{
    lemma_parse_bin_unfold(data.skip(pos), size);
    assert(data.skip(pos).skip(8 + size) =~= data.skip(pos2));
    match spec_parse_bin(data.skip(pos2)) {
        Ok(rest) => {
            assert(prefix + (seq![rv] + rest) =~= prefix.push(rv) + rest);
        },
        Err(_) => {},
    }
}

/// Whether the four bytes at `pos` are the magic header.
fn has_magic(data: &Vec<u8>, pos: usize) -> (r: bool)
    requires
        pos + 4 <= data@.len(),
    ensures
        r == (data@.skip(pos as int).subrange(0, 4) == spec_magic()),
{
    let n = data.len();
    proof {
        assert(pos + 4 <= n);
    }
    let r = data[pos] == 0x59 && data[pos + 1] == 0x50 && data[pos + 2] == 0x42 && data[pos + 3]
        == 0x4e;
    proof {
        let rem = data@.skip(pos as int);
        assert(forall|k: int| 0 <= k < rem.len() ==> rem[k] == data@[k + pos]);
        if r {
            assert(rem.subrange(0, 4) =~= spec_magic());
        } else {
            assert(rem.subrange(0, 4) != spec_magic());
        }
    }
    r
}

/// The header errors of one frame: a short length field, an undersized body
/// length, or a body that overruns the stream.
proof fn lemma_parse_bin_header_err(rem: Seq<u8>)
    requires
        rem.len() >= 4,
        rem.subrange(0, 4) == spec_magic(),
    ensures
        rem.len() < 8 ==> spec_parse_bin(rem) == Err::<Seq<RecordV>, ParsingErrorV>(
            ParsingErrorV::WrongRecordData,
        ),
        rem.len() >= 8 && ((spec_be32(rem.subrange(4, 8)) as int) < MIN_FIXED_SIZE as int
            || rem.len() < 8 + spec_be32(rem.subrange(4, 8)) as int) ==> spec_parse_bin(rem)
            == Err::<Seq<RecordV>, ParsingErrorV>(ParsingErrorV::WrongRecordData),
{
}

/// Records structure for the binary format.
pub struct BinRecords {
    /// Records
    pub records: Vec<Record>,
}

impl Converter for BinRecords {
    open spec fn spec_parse(data: Seq<u8>) -> Result<Seq<RecordV>, ParsingErrorV> {
        spec_parse_bin(data)
    }

    open spec fn spec_encode(records: Seq<RecordV>) -> Seq<u8> {
        spec_encode_bin(records)
    }

    open spec fn spec_encodable(records: Seq<RecordV>) -> bool {
        spec_bin_encodable(records)
    }

    open spec fn records_view(&self) -> Seq<RecordV> {
        self.records.deep_view()
    }

    #[verifier::rlimit(100)]
    fn from_read(data: &Vec<u8>) -> (res: Result<Self, ParsingError>) {
        let mut records: Vec<Record> = Vec::new();
        let mut pos: usize = 0;
        proof {
            assert(data@.skip(0) =~= data@);
            assert(records.deep_view() =~~= Seq::<RecordV>::empty());
            if spec_parse_bin(data@) is Ok {
                assert(records.deep_view() + spec_parse_bin(data@)->Ok_0 =~= spec_parse_bin(
                    data@,
                )->Ok_0);
            }
        }
        while data.len() - pos >= 4
            invariant
                pos <= data@.len(),
                spec_parse_bin(data@) == spec_compose_parse(
                    records.deep_view(),
                    spec_parse_bin(data@.skip(pos as int)),
                ),
            decreases data@.len() - pos,
        {
            let ghost rem = data@.skip(pos as int);
            if !has_magic(data, pos) {
                return Err(ParsingError::InvalidMagicHeader);
            }
            if data.len() - pos < 8 {
                proof {
                    lemma_parse_bin_header_err(rem);
                }
                return Err(ParsingError::WrongRecordData);
            }
            let size_u32 = read_u32_be(data, pos + 4);
            let size = size_u32 as usize;
            proof {
                assert(forall|k: int| 0 <= k < rem.len() ==> rem[k] == data@[k + pos]);
                assert(rem.subrange(4, 8) =~= data@.subrange(pos + 4, pos + 8));
            }
            if size < MIN_FIXED_SIZE as usize {
                proof {
                    lemma_parse_bin_header_err(rem);
                }
                return Err(ParsingError::WrongRecordData);
            }
            if data.len() - (pos + 8) < size {
                proof {
                    lemma_parse_bin_header_err(rem);
                }
                return Err(ParsingError::WrongRecordData);
            }
            let bs = pos + 8;
            let ghost body = rem.subrange(8, 8 + size as int);
            proof {
                assert(body =~= data@.subrange(bs as int, bs + size as int));
            }
            let rec = match parse_body_at(data, bs, size) {
                Ok(rec) => rec,
                Err(e) => {
                    proof {
                        lemma_parse_bin_unfold(rem, size as int);
                        assert(spec_parse_bin(rem) == Err::<Seq<RecordV>, ParsingErrorV>(e@));
                    }
                    return Err(e);
                },
            };
            let ghost rv = rec@;
            let ghost old_recs = records.deep_view();
            records.push(rec);
            pos = bs + size;
            proof {
                assert(records.deep_view() =~~= old_recs.push(rv));
                lemma_parse_step(data@, bs - 8, pos as int, size as int, old_recs, rv);
            }
        }
        proof {
            let rem = data@.skip(pos as int);
            assert(rem.len() < 4);
            assert(spec_parse_bin(rem) == Ok::<Seq<RecordV>, ParsingErrorV>(Seq::<RecordV>::empty()));
            assert(records.deep_view() + Seq::<RecordV>::empty() =~= records.deep_view());
        }
        Ok(BinRecords { records })
    }

    #[verifier::rlimit(100)]
    fn write_to(records: &Vec<Record>, out: &mut Vec<u8>) -> (res: Result<(), ConvertingError>) {
        let mut buf: Vec<u8> = Vec::new();
        let mut i: usize = 0;
        proof {
            assert(records.deep_view().take(0) =~= Seq::<RecordV>::empty());
            assert(buf@ =~= spec_encode_bin(records.deep_view().take(0)));
        }
        while i < records.len()
            invariant
                i <= records@.len(),
                spec_bin_encodable(records.deep_view().take(i as int)),
                buf@ == spec_encode_bin(records.deep_view().take(i as int)),
            decreases records@.len() - i,
        {
            let r = &records[i];
            let ghost rv = records.deep_view()[i as int];
            let desc_bytes = string_utf8_bytes(&r.description);
            if desc_bytes.len() > (u32::MAX - MIN_FIXED_SIZE) as usize {
                proof {
                    assert(!spec_bin_encodable_rec(rv));
                }
                return Err(ConvertingError::Unknown);
            }
            let desc_len_u32 = desc_bytes.len() as u32;
            let body_len: u32 = MIN_FIXED_SIZE + desc_len_u32;
            let ghost buf0 = buf@;
            buf.push(0x59);
            buf.push(0x50);
            buf.push(0x42);
            buf.push(0x4e);
            proof {
                assert(buf@ =~= buf0 + spec_magic());
            }
            push_u32_be(&mut buf, body_len);
            let ghost buf1 = buf@;
            push_u64_be(&mut buf, r.tx_id);
            buf.push(
                match r.tx_type {
                    TxType::DEPOSIT => 0,
                    TxType::TRANSFER => 1,
                    TxType::WITHDRAWAL => 2,
                },
            );
            push_u64_be(&mut buf, r.from_user_id);
            push_u64_be(&mut buf, r.to_user_id);
            push_u64_be(&mut buf, r.amount);
            push_u64_be(&mut buf, r.timestamp);
            buf.push(
                match r.tx_status {
                    TxStatus::SUCCESS => 0,
                    TxStatus::FAILURE => 1,
                    TxStatus::PENDING => 2,
                },
            );
            push_u32_be(&mut buf, desc_len_u32);
            push_bytes(&mut buf, &desc_bytes);
            proof {
                let body = spec_record_body(rv);
                assert(encode_utf8(rv.description) == desc_bytes@);
                assert(buf@ =~= buf1 + body);
                assert(body.len() == body_len);
                assert(spec_u32_be(body.len() as u32) == spec_u32_be(body_len));
                assert(buf@ =~= buf0 + spec_encode_rec(rv));
                assert(records.deep_view().take(i + 1 as int) =~= records.deep_view().take(
                    i as int,
                ).push(rv));
                lemma_encode_bin_snoc(records.deep_view().take(i as int), rv);
            }
            i = i + 1;
        }
        proof {
            assert(records.deep_view().take(records@.len() as int) =~= records.deep_view());
        }
        push_bytes(out, &buf);
        Ok(())
    }

    fn as_records(&self) -> (r: &Vec<Record>) {
        &self.records
    }
}


/// Whether the binary format carries `r` without loss: the description holds
/// no double quote (decoding strips them) and fits one frame.
pub open spec fn spec_bin_lossless(r: RecordV) -> bool {
    &&& forall|i: int| 0 <= i < r.description.len() ==> r.description[i] != '"'
    &&& spec_bin_encodable_rec(r)
}

/// Parsing the body bytes of a lossless record gives the record back.
#[verifier::rlimit(100)]
pub proof fn lemma_parse_body_of_record(r: RecordV)
    requires
        spec_bin_lossless(r),
    ensures
        spec_parse_body(spec_record_body(r)) == Ok::<RecordV, ParsingErrorV>(r),
{
    let desc = encode_utf8(r.description);
    let body = spec_record_body(r);
    assert(body.len() == 46 + desc.len());
    assert(body.subrange(0, 8) =~= spec_u64_be(r.tx_id));
    lemma_u64_be_round(r.tx_id);
    assert(body[8] == spec_tx_type_byte(r.tx_type));
    assert(spec_tx_type_of_byte(spec_tx_type_byte(r.tx_type)) == Some(r.tx_type));
    assert(body.subrange(9, 17) =~= spec_u64_be(r.from_user_id));
    lemma_u64_be_round(r.from_user_id);
    assert(body.subrange(17, 25) =~= spec_u64_be(r.to_user_id));
    lemma_u64_be_round(r.to_user_id);
    assert(body.subrange(25, 33) =~= spec_u64_be(r.amount));
    lemma_u64_be_round(r.amount);
    assert(body.subrange(33, 41) =~= spec_u64_be(r.timestamp));
    lemma_u64_be_round(r.timestamp);
    assert(body[41] == spec_tx_status_byte(r.tx_status));
    assert(spec_tx_status_of_byte(spec_tx_status_byte(r.tx_status)) == Some(r.tx_status));
    assert(body.subrange(42, 46) =~= spec_u32_be(desc.len() as u32));
    lemma_u32_be_round(desc.len() as u32);
    let desc_len = spec_be32(body.subrange(42, 46)) as int;
    assert(desc_len == desc.len());
    assert(body.subrange(46, 46 + desc_len) =~= desc);
    vstd::utf8::encode_utf8_valid_utf8(r.description);
    vstd::utf8::encode_utf8_decode_utf8(r.description);
    lemma_remove_dq_id(r.description);
    assert(spec_parse_body(body)->Ok_0 =~= r);
}

/// Round trip: parsing what encoding produced yields the original records,
/// for every record set the binary format carries without loss.
#[verifier::rlimit(100)]
pub proof fn lemma_bin_round_trip(rs: Seq<RecordV>)
    requires
        forall|i: int| 0 <= i < rs.len() ==> spec_bin_lossless(#[trigger] rs[i]),
    ensures
        spec_parse_bin(spec_encode_bin(rs)) == Ok::<Seq<RecordV>, ParsingErrorV>(rs),
    decreases rs.len(),
{
    if rs.len() == 0 {
        assert(spec_encode_bin(rs).len() == 0);
        assert(rs =~= Seq::<RecordV>::empty());
    } else {
        let r = rs[0];
        let body = spec_record_body(r);
        let frame = spec_encode_rec(r);
        let rest = spec_encode_bin(rs.drop_first());
        let bytes = spec_encode_bin(rs);
        assert(bytes == frame + rest);
        assert(body.len() == 46 + encode_utf8(r.description).len());
        assert(frame.len() == 8 + body.len());
        assert(bytes.subrange(0, 4) =~= spec_magic());
        assert(bytes.subrange(4, 8) =~= spec_u32_be(body.len() as u32));
        lemma_u32_be_round(body.len() as u32);
        let size = spec_be32(bytes.subrange(4, 8)) as int;
        assert(size == body.len());
        assert(bytes.subrange(8, 8 + size) =~= body);
        lemma_parse_body_of_record(r);
        assert(bytes.skip(8 + size) =~= rest);
        assert(forall|i: int|
            0 <= i < rs.drop_first().len() ==> spec_bin_lossless(#[trigger] rs.drop_first()[i]));
        lemma_bin_round_trip(rs.drop_first());
        lemma_parse_bin_unfold(bytes, size);
        assert(seq![r] + rs.drop_first() =~= rs);
    }
}


/// Encoding a concatenation concatenates the encodings.
pub proof fn lemma_encode_bin_concat(a: Seq<RecordV>, b: Seq<RecordV>)
    ensures
        spec_encode_bin(a + b) == spec_encode_bin(a) + spec_encode_bin(b),
    decreases a.len(),
{
    if a.len() == 0 {
        assert(a + b =~= b);
        assert(spec_encode_bin(a) =~= Seq::<u8>::empty());
        assert(spec_encode_bin(a) + spec_encode_bin(b) =~= spec_encode_bin(b));
    } else {
        assert((a + b)[0] == a[0]);
        assert((a + b).drop_first() =~= a.drop_first() + b);
        lemma_encode_bin_concat(a.drop_first(), b);
        assert(spec_encode_rec(a[0]) + (spec_encode_bin(a.drop_first()) + spec_encode_bin(b))
            =~= (spec_encode_rec(a[0]) + spec_encode_bin(a.drop_first())) + spec_encode_bin(b));
        assert(spec_encode_bin(a + b) =~= spec_encode_bin(a) + spec_encode_bin(b));
    }
}

/// Clean end of stream: a stream cut exactly at a frame boundary parses to
/// all records before the cut.
pub proof fn lemma_bin_clean_eof(rs: Seq<RecordV>, k: int)
    requires
        forall|i: int| 0 <= i < rs.len() ==> spec_bin_lossless(#[trigger] rs[i]),
        0 <= k <= rs.len(),
    ensures
        spec_parse_bin(spec_encode_bin(rs).take(spec_encode_bin(rs.take(k)).len() as int)) == Ok::<
            Seq<RecordV>,
            ParsingErrorV,
        >(rs.take(k)),
{
    assert(rs =~= rs.take(k) + rs.skip(k));
    lemma_encode_bin_concat(rs.take(k), rs.skip(k));
    assert(spec_encode_bin(rs).take(spec_encode_bin(rs.take(k)).len() as int) =~= spec_encode_bin(
        rs.take(k),
    ));
    assert(forall|i: int| 0 <= i < rs.take(k).len() ==> spec_bin_lossless(#[trigger] rs.take(k)[i]));
    lemma_bin_round_trip(rs.take(k));
}

/// Truncation: a stream cut strictly inside a frame, past that frame's magic
/// header, fails to parse.
#[verifier::rlimit(100)]
pub proof fn lemma_bin_truncation(rs: Seq<RecordV>, k: int, cut: int)
    requires
        forall|i: int| 0 <= i < rs.len() ==> spec_bin_lossless(#[trigger] rs[i]),
        0 <= k < rs.len(),
        spec_encode_bin(rs.take(k)).len() + 4 <= cut,
        cut < spec_encode_bin(rs.take(k)).len() + spec_encode_rec(rs[k]).len(),
    ensures
        spec_parse_bin(spec_encode_bin(rs).take(cut)) is Err,
    decreases k,
{
    let bytes = spec_encode_bin(rs);
    let r = rs[0];
    let body = spec_record_body(r);
    let frame = spec_encode_rec(r);
    let rest = spec_encode_bin(rs.drop_first());
    assert(bytes == frame + rest);
    assert(body.len() == 46 + encode_utf8(r.description).len());
    assert(frame.len() == 8 + body.len());
    assert(rs.take(k + 1) =~= rs.take(k).push(rs[k]));
    lemma_encode_bin_snoc(rs.take(k), rs[k]);
    assert(rs =~= rs.take(k + 1) + rs.skip(k + 1));
    lemma_encode_bin_concat(rs.take(k + 1), rs.skip(k + 1));
    assert(cut <= bytes.len());
    let t = bytes.take(cut);
    if k == 0 {
        assert(rs.take(0) =~= Seq::<RecordV>::empty());
        assert(spec_encode_bin(rs.take(0)).len() == 0);
        assert(4 <= cut < frame.len());
        assert(t.subrange(0, 4) =~= spec_magic());
        if cut < 8 {
            assert(spec_parse_bin(t) is Err);
        } else {
            assert(t.subrange(4, 8) =~= spec_u32_be(body.len() as u32));
            lemma_u32_be_round(body.len() as u32);
            let size = spec_be32(t.subrange(4, 8)) as int;
            assert(size == body.len());
            assert(t.len() < 8 + size);
            assert(spec_parse_bin(t) is Err);
        }
    } else {
        assert(rs.take(k)[0] == rs[0]);
        assert(rs.take(k).drop_first() =~= rs.drop_first().take(k - 1));
        let prefix2 = spec_encode_bin(rs.drop_first().take(k - 1));
        assert(spec_encode_bin(rs.take(k)) == frame + prefix2) by {
            assert(spec_encode_bin(rs.take(k)) == spec_encode_rec(rs.take(k)[0]) + spec_encode_bin(
                rs.take(k).drop_first(),
            ));
        }
        assert(cut >= frame.len() + prefix2.len() + 4);
        assert(t.subrange(0, 4) =~= spec_magic());
        assert(t.subrange(4, 8) =~= spec_u32_be(body.len() as u32));
        lemma_u32_be_round(body.len() as u32);
        let size = spec_be32(t.subrange(4, 8)) as int;
        assert(size == body.len());
        assert(t.len() >= 8 + size);
        assert(t.subrange(8, 8 + size) =~= body);
        lemma_parse_body_of_record(r);
        lemma_parse_bin_unfold(t, size);
        assert(t.skip(8 + size) =~= rest.take(cut - frame.len()));
        assert(forall|i: int|
            0 <= i < rs.drop_first().len() ==> spec_bin_lossless(#[trigger] rs.drop_first()[i]));
        assert(rs.drop_first()[k - 1] == rs[k]);
        lemma_bin_truncation(rs.drop_first(), k - 1, cut - frame.len());
        assert(spec_parse_bin(t) is Err);
    }
}


} // verus!
