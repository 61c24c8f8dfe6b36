//! Turning the sensor's byte stream into readings, and publishing readings in
//! the input register bank.
//!
//! Register map of the input bank:
//! - `AQI` (0): air quality index, truncated to an integer
//! - `PM_1_0`, `PM_2_5`, `PM_10` (1, 2, 3): particle concentrations
//! - `AQI_TICK_HW` (4, 5): seconds since the Unix epoch of the last reading,
//!   low 32 bits, high word first
//! - `TEMP_HW`, `HUM_HW` (6, 7 and 8, 9): temperature and humidity as IEEE-754
//!   single-precision bit patterns, high word first
//! - `TEMP_HUM_TICK_HW` (10, 11): seconds of the last temperature sample, as above
use std::collections::HashMap;
use vstd::prelude::*;
use crate::payload::{be_word, decodes_to, frame_error, parse_stream_to_payload, Payload, FRAME_SIZE, FRAME_START};
use crate::registers::{with_long, write_long_register, write_register, zeroed, zeroed_registers};

verus! {

pub const AQI: u16 = 0;
pub const PM_1_0: u16 = 1;
pub const PM_2_5: u16 = 2;
pub const PM_10: u16 = 3;
pub const AQI_TICK_HW: u16 = 4;
pub const TEMP_HW: u16 = 6;
pub const HUM_HW: u16 = 8;
pub const TEMP_HUM_TICK_HW: u16 = 10;

/// Number of registers in the input bank.
pub const INPUT_REGISTER_COUNT: u16 = 12;

/// Capacity of the accumulation buffer: four frames.
pub const BUFFER_SIZE: usize = 128;

/// The input bank as it is at startup: every register present and zero.
pub fn initial_input_registers() -> (r: HashMap<u16, u16>)
    ensures
        r@ == zeroed(INPUT_REGISTER_COUNT as int),
{
    zeroed_registers(INPUT_REGISTER_COUNT)
}

/// The low 32 bits of a timestamp.
pub open spec fn low_ticks(ticks: u64) -> u32 {
    (ticks % 0x1_0000_0000) as u32
}

/// The input bank after publishing a decoded reading with its air quality
/// index, at time `ticks`.
pub open spec fn published_reading(m: Map<u16, u16>, p: Payload, aqi: u16, ticks: u64) -> Map<
    u16,
    u16,
> {
    with_long(
        m.insert(AQI, aqi).insert(PM_1_0, p.data@[0]).insert(PM_2_5, p.data@[1]).insert(
            PM_10,
            p.data@[2],
        ),
        AQI_TICK_HW as int,
        low_ticks(ticks),
    )
}

/// The input bank after publishing a temperature and humidity sample, given as
/// bit patterns, at time `ticks`.
pub open spec fn published_climate(m: Map<u16, u16>, temp_bits: u32, hum_bits: u32, ticks: u64) -> Map<
    u16,
    u16,
> {
    with_long(
        with_long(with_long(m, TEMP_HW as int, temp_bits), HUM_HW as int, hum_bits),
        TEMP_HUM_TICK_HW as int,
        low_ticks(ticks),
    )
}

/// Writes a decoded reading, its air quality index and its time to the input
/// bank.
pub fn publish_reading(registers: &mut HashMap<u16, u16>, p: &Payload, aqi: u16, ticks: u64)
    ensures
        final(registers)@ == published_reading(old(registers)@, *p, aqi, ticks),
{
    write_register(registers, AQI, aqi);
    write_register(registers, PM_1_0, p.data[0]);
    write_register(registers, PM_2_5, p.data[1]);
    write_register(registers, PM_10, p.data[2]);
    let t: u32 = (ticks & 0xFFFF_FFFF) as u32;
    assert(t == ticks % 0x1_0000_0000) by (bit_vector)
        requires
            t == (ticks & 0xFFFF_FFFF) as u32,
    ;
    write_long_register(registers, AQI_TICK_HW, t);
}

/// Writes a temperature and humidity sample, as bit patterns, and its time to
/// the input bank.
pub fn publish_climate(registers: &mut HashMap<u16, u16>, temp_bits: u32, hum_bits: u32, ticks: u64)
    ensures
        final(registers)@ == published_climate(old(registers)@, temp_bits, hum_bits, ticks),
{
    write_long_register(registers, TEMP_HW, temp_bits);
    write_long_register(registers, HUM_HW, hum_bits);
    let t: u32 = (ticks & 0xFFFF_FFFF) as u32;
    assert(t == ticks % 0x1_0000_0000) by (bit_vector)
        requires
            t == (ticks & 0xFFFF_FFFF) as u32,
    ;
    write_long_register(registers, TEMP_HUM_TICK_HW, t);
}

/// Where the next search for a start marker lands in `b`, looking from
/// offset `k` on: the first offset at which `BM` starts, or the last byte of
/// `b` when no marker starts before it.
pub open spec fn next_start_from(b: Seq<u8>, k: int) -> int
    decreases b.len() - k,
{
    if k + 1 >= b.len() {
        b.len() - 1
    } else if be_word(b, k) == FRAME_START {
        k
    } else {
        next_start_from(b, k + 1)
    }
}

/// How many leading bytes are dropped after a failed decode: up to the next
/// start marker after offset 0.
pub open spec fn resync_offset(b: Seq<u8>) -> int {
    next_start_from(b, 1)
}

/// Time left to sleep in a polling period of `period` once `elapsed` of it is
/// spent: the difference, and never a negative amount.
pub fn remaining_sleep(period: u64, elapsed: u64) -> (r: u64)
    ensures
        r == if elapsed < period {
            period - elapsed
        } else {
            0
        },
{
    if elapsed < period {
        period - elapsed
    } else {
        0
    }
}

/// `t@` from offset `k` on.
fn tail_from(t: &Vec<u8>, k: usize) -> (r: Vec<u8>)
    requires
        k <= t@.len(),
    ensures
        r@ == t@.skip(k as int),
{
    let mut r: Vec<u8> = Vec::new();
    let mut i: usize = k;
    while i < t.len()
        invariant
            k <= i <= t@.len(),
            r@ == t@.subrange(k as int, i as int),
        decreases t@.len() - i,
    {
        r.push(t[i]);
        i = i + 1;
        assert(r@ =~= t@.subrange(k as int, i as int));
    }
    assert(r@ =~= t@.skip(k as int));
    r
}

/// Bytes read from the sensor that have not yet formed a frame.
pub struct FrameAccumulator {
    buf: Vec<u8>,
}

impl View for FrameAccumulator {
    type V = Seq<u8>;

    closed spec fn view(&self) -> Seq<u8> {
        self.buf@
    }
}

impl FrameAccumulator {
    /// The buffer never holds more than `BUFFER_SIZE` bytes.
    pub open spec fn wf(&self) -> bool {
        self@.len() <= BUFFER_SIZE
    }

    /// An empty accumulator.
    pub fn new() -> (r: FrameAccumulator)
        ensures
            r.wf(),
            r@ == Seq::<u8>::empty(),
    {
        FrameAccumulator { buf: Vec::new() }
    }

    /// How many bytes wait in the buffer.
    pub fn pending(&self) -> (r: usize)
        ensures
            r == self@.len(),
    {
        self.buf.len()
    }

    /// How many more bytes the buffer takes.
    pub fn space_left(&self) -> (r: usize)
        requires
            self.wf(),
        ensures
            r == BUFFER_SIZE - self@.len(),
    {
        BUFFER_SIZE - self.buf.len()
    }

    /// Adds bytes read from the sensor. Under one frame's worth of bytes the
    /// buffer keeps accumulating. From there on a decode is tried at its start:
    /// a decoded frame leaves the buffer, and on a failure the leading bytes
    /// up to the next start marker are dropped, so that each call with a full
    /// frame's worth shortens the buffer.
    pub fn push_bytes(&mut self, incoming: &[u8]) -> (r: Option<Payload>)
        requires
            old(self).wf(),
            old(self)@.len() + incoming@.len() <= BUFFER_SIZE,
        ensures
            final(self).wf(),
            ({
                let b = old(self)@ + incoming@;
                if b.len() < FRAME_SIZE {
                    r is None && final(self)@ == b
                } else {
                    match frame_error(b) {
                        None => r matches Some(p) && decodes_to(b, p) && final(self)@ == b.skip(
                            FRAME_SIZE as int,
                        ),
                        Some(_) => r is None && final(self)@ == b.skip(resync_offset(b)),
                    }
                }
            }),
    {
        let mut i: usize = 0;
        let ghost start = self.buf@;
        while i < incoming.len()
            invariant
                i <= incoming@.len(),
                self.buf@ == start + incoming@.take(i as int),
            decreases incoming@.len() - i,
        {
            self.buf.push(incoming[i]);
            i = i + 1;
            assert(self.buf@ =~= start + incoming@.take(i as int));
        }
        assert(incoming@.take(incoming@.len() as int) =~= incoming@);
        if self.buf.len() < FRAME_SIZE {
            return None;
        }
        let found = match parse_stream_to_payload(self.buf.as_slice()) {
            Ok((_, p)) => Some(p),
            Err(_) => None,
        };
        if found.is_some() {
            self.buf = tail_from(&self.buf, FRAME_SIZE);
        } else {
            let ghost b = self.buf@;
            let n = self.buf.len();
            let mut k: usize = 1;
            while k + 1 < n && !(self.buf[k] == 0x42 && self.buf[k + 1] == 0x4D)
                invariant
                    1 <= k < n,
                    n == b.len(),
                    self.buf@ == b,
                    next_start_from(b, k as int) == resync_offset(b),
                decreases n - k,
            {
                k = k + 1;
            }
            self.buf = tail_from(&self.buf, k);
        }
        found
    }
}

/// After a failed decode at least one byte is dropped and at least one stays,
/// no start marker is passed over, and what stays opens with a start marker
/// unless it is a single byte.
pub proof fn lemma_resync_progress(b: Seq<u8>)
    requires
        b.len() >= 2,
    ensures
        1 <= resync_offset(b) < b.len(),
        forall|j: int| 1 <= j < resync_offset(b) ==> be_word(b, j) != FRAME_START,
        resync_offset(b) + 1 < b.len() ==> be_word(b, resync_offset(b)) == FRAME_START,
{
    lemma_next_start_from(b, 1);
}

proof fn lemma_next_start_from(b: Seq<u8>, k: int)
    requires
        1 <= k < b.len(),
    ensures
        k <= next_start_from(b, k) < b.len(),
        forall|j: int| k <= j < next_start_from(b, k) ==> be_word(b, j) != FRAME_START,
        next_start_from(b, k) + 1 < b.len() ==> be_word(b, next_start_from(b, k)) == FRAME_START,
    decreases b.len() - k,
{
    if k + 1 < b.len() && be_word(b, k) != FRAME_START {
        lemma_next_start_from(b, k + 1);
    }
}

} // verus!
