//! Decoding of the particle sensor's 32-byte reading frame.
//!
//! A frame is sixteen big-endian words: the start marker `BM`, the declared
//! length, twelve measurement words, one reserved word and a checksum. The
//! checksum is the sum of every byte that precedes it, modulo 2^16.
use vstd::prelude::*;
use vstd::slice::slice_subrange;

verus! {

/// The start marker, `BM`.
pub const FRAME_START: u16 = 0x424D;

/// The only declared length a frame may carry: the bytes after the length word.
pub const FRAME_LEN: u16 = 0x1C;

/// Size of a whole frame in bytes.
pub const FRAME_SIZE: usize = 32;

/// Number of measurement words in a frame.
pub const DATA_WORDS: usize = 12;

/// Why a buffer does not start with a valid frame.
#[derive(Debug, Clone, Copy, PartialEq, Eq, Structural)]
pub enum DecodeError {
    /// Not enough bytes yet; more may arrive.
    Incomplete,
    /// Wrong start marker or declared length.
    Framing,
    /// The frame is well formed but its checksum does not match.
    Checksum,
}

/// One decoded reading of the sensor.
#[derive(Debug, Default, Clone, Copy)]
pub struct Payload {
    /// Always `FRAME_START` once decoded.
    pub start: u16,
    /// Always `FRAME_LEN` once decoded.
    pub len: u16,
    /// The twelve measurements (PM1.0, PM2.5, PM10 first).
    pub data: [u16; 12],
    /// Carried for the checksum only.
    pub reserved_data: u16,
    /// The checksum of the fields above.
    pub check: u16,
}

/// The big-endian word at byte offset `i`.
pub open spec fn be_word(s: Seq<u8>, i: int) -> int {
    s[i] as int * 256 + s[i + 1] as int
}

/// Sum of all bytes of `s`.
pub open spec fn byte_sum(s: Seq<u8>) -> int
    decreases s.len(),
{
    if s.len() == 0 {
        0
    } else {
        byte_sum(s.drop_last()) + s.last() as int
    }
}

/// Sum of the high byte and the low byte of a 16-bit word.
pub open spec fn hi_lo_sum(x: u16) -> int {
    (x / 256) as int + (x % 256) as int
}

/// Sum of `hi_lo_sum` over a sequence of words.
pub open spec fn words_sum(w: Seq<u16>) -> int
    decreases w.len(),
{
    if w.len() == 0 {
        0
    } else {
        words_sum(w.drop_last()) + hi_lo_sum(w.last())
    }
}

/// The fields of a payload that the checksum covers, in wire order.
pub open spec fn field_words(p: Payload) -> Seq<u16> {
    seq![p.start, p.len] + p.data@ + seq![p.reserved_data]
}

/// The checksum of a payload's fields.
pub open spec fn fields_checksum(p: Payload) -> int {
    words_sum(field_words(p)) % 0x10000
}

/// The twelve measurement words of a frame starting at offset 0.
pub open spec fn data_words(s: Seq<u8>) -> Seq<u16> {
    Seq::new(12, |j: int| be_word(s, 4 + 2 * j) as u16)
}

/// What decoding the start of `s` fails with, or `None` when `s` starts with a
/// valid frame.
pub open spec fn frame_error(s: Seq<u8>) -> Option<DecodeError> {
    if s.len() < 2 {
        Some(DecodeError::Incomplete)
    } else if be_word(s, 0) != FRAME_START {
        Some(DecodeError::Framing)
    } else if s.len() < 4 {
        Some(DecodeError::Incomplete)
    } else if be_word(s, 2) != FRAME_LEN {
        Some(DecodeError::Framing)
    } else if s.len() < FRAME_SIZE {
        Some(DecodeError::Incomplete)
    } else if byte_sum(s.take(30)) % 0x10000 != be_word(s, 30) {
        Some(DecodeError::Checksum)
    } else {
        None
    }
}

/// `p` holds the fields of the frame at the start of `s`.
pub open spec fn decodes_to(s: Seq<u8>, p: Payload) -> bool {
    &&& p.start == FRAME_START
    &&& p.len == FRAME_LEN
    &&& p.data@ == data_words(s)
    &&& p.reserved_data as int == be_word(s, 28)
    &&& p.check as int == be_word(s, 30)
}

/// Adds the two bytes of a word; the frame checksum is built from these sums.
pub fn add_hi_lo_bytes(x: u16) -> (r: u16)
    ensures
        r == hi_lo_sum(x),
        r <= 510,
{
    let hi: u16 = (x & 0xFF00) >> 8;
    let lo: u16 = x & 0x00FF;
    assert(hi == x / 256 && lo == x % 256) by (bit_vector)
        requires
            hi == (x & 0xFF00) >> 8,
            lo == x & 0x00FF,
    ;
    hi + lo
}

/// The checksum of a payload: the byte-wise sum of start, length, data and
/// reserved fields.
pub fn checksum(p: &Payload) -> (r: u16)
    ensures
        r == fields_checksum(*p),
{
    let ghost f = field_words(*p);
    let mut sum: u16 = add_hi_lo_bytes(p.start);
    sum = sum + add_hi_lo_bytes(p.len);
    assert(f.take(1).drop_last() =~= f.take(0));
    assert(f.take(0) =~= Seq::<u16>::empty());
    assert(f.take(2).drop_last() =~= f.take(1));
    assert(f[0] == p.start && f[1] == p.len);
    assert(f.take(1).last() == p.start && f.take(2).last() == p.len);
    assert(words_sum(f.take(0)) == 0);
    assert(words_sum(f.take(1)) == hi_lo_sum(p.start));
    assert(words_sum(f.take(2)) == hi_lo_sum(p.start) + hi_lo_sum(p.len));
    let mut i: usize = 0;
    while i < DATA_WORDS
        invariant
            0 <= i <= DATA_WORDS,
            f == field_words(*p),
            sum as int == words_sum(f.take(2 + i)),
            sum <= 510 * (2 + i),
        decreases DATA_WORDS - i,
    {
        let x = p.data[i];
        sum = sum + add_hi_lo_bytes(x);
        assert(f.take(3 + i).drop_last() =~= f.take(2 + i));
        assert(f[2 + i] == x);
        i = i + 1;
    }
    sum = sum + add_hi_lo_bytes(p.reserved_data);
    assert(f.take(15).drop_last() =~= f.take(14));
    assert(f[14] == p.reserved_data);
    assert(f.take(15) =~= f);
    sum
}

/// Reads the big-endian word at offset `i`.
fn u16_at(s: &[u8], i: usize) -> (r: u16)
    requires
        i + 1 < s@.len(),
    ensures
        r as int == be_word(s@, i as int),
{
    (s[i] as u16) * 256 + (s[i + 1] as u16)
}

/// The byte sum of the first `2 * n` bytes is the sum of `hi_lo_sum` over the
/// first `n` words.
proof fn lemma_bytes_as_words(s: Seq<u8>, n: nat)
    requires
        2 * n <= s.len(),
    ensures
        byte_sum(s.take(2 * n as int)) == words_sum(
            Seq::new(n, |j: int| be_word(s, 2 * j) as u16),
        ),
    decreases n,
{
    let w = Seq::new(n, |j: int| be_word(s, 2 * j) as u16);
    if n == 0 {
        assert(s.take(0) =~= Seq::<u8>::empty());
    } else {
        let m = (n - 1) as nat;
        lemma_bytes_as_words(s, m);
        assert(w.drop_last() =~= Seq::new(m, |j: int| be_word(s, 2 * j) as u16));
        assert(s.take(2 * n as int).drop_last() =~= s.take(2 * n - 1));
        assert(s.take(2 * n - 1).drop_last() =~= s.take(2 * m as int));
        let k = 2 * m as int;
        let x = w.last();
        assert(x as int == s[k] as int * 256 + s[k + 1] as int);
        assert(x / 256 == s[k] && x % 256 == s[k + 1]);
        assert(s.take(2 * n as int).last() == s[k + 1]);
        assert(s.take(2 * n - 1).last() == s[k]);
        assert(byte_sum(s.take(2 * n as int)) == byte_sum(s.take(2 * n - 1)) + s[k + 1]);
        assert(byte_sum(s.take(2 * n - 1)) == byte_sum(s.take(k)) + s[k]);
    }
}

/// Decodes the frame at the start of `input`, returning the bytes after it and
/// the decoded payload.
pub fn parse_stream_to_payload(input: &[u8]) -> (r: Result<(&[u8], Payload), DecodeError>)
    ensures
        match r {
            Ok((rest, p)) => {
                &&& frame_error(input@) is None
                &&& decodes_to(input@, p)
                &&& rest@ == input@.skip(FRAME_SIZE as int)
            },
            Err(e) => frame_error(input@) == Some(e),
        },
{
    if input.len() < 2 {
        return Err(DecodeError::Incomplete);
    }
    if u16_at(input, 0) != FRAME_START {
        return Err(DecodeError::Framing);
    }
    if input.len() < 4 {
        return Err(DecodeError::Incomplete);
    }
    let len = u16_at(input, 2);
    if len != FRAME_LEN {
        return Err(DecodeError::Framing);
    }
    if input.len() < FRAME_SIZE {
        return Err(DecodeError::Incomplete);
    }
    let mut data: [u16; 12] = [0u16; 12];
    let mut i: usize = 0;
    while i < DATA_WORDS
        invariant
            0 <= i <= DATA_WORDS,
            input@.len() >= FRAME_SIZE,
            data@.len() == DATA_WORDS,
            forall|j: int| 0 <= j < i ==> data@[j] == data_words(input@)[j],
        decreases DATA_WORDS - i,
    {
        data[i] = u16_at(input, 4 + 2 * i);
        i = i + 1;
    }
    assert(data@ =~= data_words(input@));
    let reserved = u16_at(input, 28);
    let mut p = Payload { start: FRAME_START, len, data, reserved_data: reserved, check: 0 };
    p.check = checksum(&p);
    proof {
        lemma_bytes_as_words(input@, 15);
        assert(field_words(p) =~= Seq::new(15, |j: int| be_word(input@, 2 * j) as u16));
    }
    let check = u16_at(input, 30);
    if p.check != check {
        return Err(DecodeError::Checksum);
    }
    Ok((slice_subrange(input, FRAME_SIZE, input.len()), p))
}

/// The bytes of a sequence of words, each high byte first.
pub open spec fn words_to_bytes(w: Seq<u16>) -> Seq<u8> {
    Seq::new(
        2 * w.len(),
        |i: int|
            if i % 2 == 0 {
                (w[i / 2] / 256) as u8
            } else {
                (w[i / 2] % 256) as u8
            },
    )
}

/// A frame written as sixteen words, with the right start marker, length and
/// checksum, decodes, and its data are its twelve measurement words in order.
pub proof fn lemma_valid_frame_decodes(w: Seq<u16>)
    requires
        w.len() == 16,
        w[0] == FRAME_START,
        w[1] == FRAME_LEN,
        w[15] as int == words_sum(w.take(15)) % 0x10000,
    ensures
        frame_error(words_to_bytes(w)) is None,
        data_words(words_to_bytes(w)) == w.subrange(2, 14),
{
    let b = words_to_bytes(w);
    assert forall|j: int| 0 <= j < 16 implies be_word(b, 2 * j) == w[j] as int by {
        assert((2 * j) / 2 == j && (2 * j + 1) / 2 == j);
        assert((2 * j) % 2 == 0 && (2 * j + 1) % 2 == 1);
    }
    lemma_bytes_as_words(b, 15);
    assert(Seq::new(15, |j: int| be_word(b, 2 * j) as u16) =~= w.take(15));
    assert(data_words(b) =~= w.subrange(2, 14));
}

/// Byte sum of a sequence with one byte replaced.
proof fn lemma_byte_sum_update(t: Seq<u8>, i: int, v: u8)
    requires
        0 <= i < t.len(),
    ensures
        byte_sum(t.update(i, v)) == byte_sum(t) - t[i] + v,
    decreases t.len(),
{
    let u = t.update(i, v);
    if i == t.len() - 1 {
        assert(u.drop_last() =~= t.drop_last());
    } else {
        lemma_byte_sum_update(t.drop_last(), i, v);
        assert(u.drop_last() =~= t.drop_last().update(i, v));
    }
}

/// A byte sum lies between zero and 255 times the length.
proof fn lemma_byte_sum_bounds(t: Seq<u8>)
    ensures
        0 <= byte_sum(t) <= 255 * t.len(),
    decreases t.len(),
{
    if t.len() > 0 {
        lemma_byte_sum_bounds(t.drop_last());
    }
}

/// Flipping any one bit of a measurement byte of a valid frame makes decoding
/// fail with a checksum error.
pub proof fn lemma_bit_flip_detected(s: Seq<u8>, i: int, k: u8)
    requires
        frame_error(s) is None,
        4 <= i < 28,
        k < 8,
    ensures
        frame_error(s.update(i, s[i] ^ (1u8 << k))) == Some(DecodeError::Checksum),
{
    let x = s[i];
    let y = x ^ (1u8 << k);
    assert(y != x) by (bit_vector)
        requires
            y == x ^ (1u8 << k),
            k < 8,
    ;
    let s2 = s.update(i, y);
    assert(s2.take(30) =~= s.take(30).update(i, y));
    lemma_byte_sum_update(s.take(30), i, y);
    lemma_byte_sum_bounds(s.take(30));
    lemma_byte_sum_bounds(s2.take(30));
    assert(be_word(s2, 0) == be_word(s, 0));
    assert(be_word(s2, 2) == be_word(s, 2));
    assert(be_word(s2, 30) == be_word(s, 30));
}

/// A buffer that does not open with the start marker is a framing error.
pub proof fn lemma_wrong_start_is_framing(s: Seq<u8>)
    requires
        s.len() >= 2,
        be_word(s, 0) != FRAME_START,
    ensures
        frame_error(s) == Some(DecodeError::Framing),
{
}

/// A buffer whose declared length runs past its end never decodes: it is
/// incomplete, or a framing error.
pub proof fn lemma_overlong_length_rejected(s: Seq<u8>)
    requires
        s.len() >= 4,
        be_word(s, 0) == FRAME_START,
        4 + be_word(s, 2) > s.len(),
    ensures
        frame_error(s) == Some(DecodeError::Incomplete) || frame_error(s) == Some(
            DecodeError::Framing,
        ),
{
}

} // verus!
