//! A bank of 16-bit registers keyed by address, with 32-bit composite values
//! stored high word first, and the range reads and writes that protocol
//! clients issue.
use std::collections::HashMap;
use vstd::prelude::*;

verus! {

broadcast use vstd::std_specs::hash::group_hash_axioms;

/// Exceptions a protocol client can receive.
#[derive(Debug, Clone, Copy, PartialEq, Eq, Structural)]
pub enum RegisterException {
    /// The request's function is not served.
    IllegalFunction,
    /// The request reaches past the last register address.
    IllegalDataAddress,
    /// The request carries more values than one request may.
    IllegalDataValue,
}

/// The word stored at `a`; never-written addresses read as zero.
pub open spec fn word_at(m: Map<u16, u16>, a: int) -> u16 {
    if m.contains_key(a as u16) {
        m[a as u16]
    } else {
        0
    }
}

/// The 32-bit value held by the registers `a` (high word) and `a + 1`.
pub open spec fn long_at(m: Map<u16, u16>, a: int) -> int {
    word_at(m, a) as int * 0x10000 + word_at(m, a + 1) as int
}

/// `m` after storing the 32-bit value `u` at `a` and `a + 1`, high word first.
pub open spec fn with_long(m: Map<u16, u16>, a: int, u: u32) -> Map<u16, u16> {
    m.insert(a as u16, (u / 0x10000) as u16).insert((a + 1) as u16, (u % 0x10000) as u16)
}

/// The `cnt` words starting at `addr`.
pub open spec fn read_range(m: Map<u16, u16>, addr: int, cnt: int) -> Seq<u16> {
    Seq::new(cnt as nat, |i: int| word_at(m, addr + i))
}

/// `m` after storing `vals` at consecutive addresses from `addr`.
pub open spec fn write_range(m: Map<u16, u16>, addr: int, vals: Seq<u16>) -> Map<u16, u16> {
    Map::new(
        |k: u16| m.contains_key(k) || (addr <= k < addr + vals.len()),
        |k: u16|
            if addr <= k < addr + vals.len() {
                vals[k - addr]
            } else {
                m[k]
            },
    )
}

/// A bank with the addresses `0 .. n` present and holding zero.
pub open spec fn zeroed(n: int) -> Map<u16, u16> {
    Map::new(|k: u16| k < n, |k: u16| 0u16)
}

/// Reads one register; an address never written reads as zero.
pub fn read_register(registers: &HashMap<u16, u16>, addr: u16) -> (r: u16)
    ensures
        r == word_at(registers@, addr as int),
{
    match registers.get(&addr) {
        Some(x) => *x,
        None => 0,
    }
}

/// Stores one register, adding the address if it was absent.
pub fn write_register(registers: &mut HashMap<u16, u16>, addr: u16, value: u16)
    ensures
        final(registers)@ == old(registers)@.insert(addr, value),
{
    registers.insert(addr, value);
}

/// Reads the 32-bit value at `addr` and `addr + 1`, high word first.
pub fn read_long_register(registers: &HashMap<u16, u16>, addr: u16) -> (r: u32)
    requires
        addr < 0xFFFF,
    ensures
        r as int == long_at(registers@, addr as int),
{
    let hi = read_register(registers, addr);
    let lo = read_register(registers, addr + 1);
    let r: u32 = (hi as u32) << 16 | (lo as u32);
    assert(r == hi as u32 * 0x10000 + lo as u32) by (bit_vector)
        requires
            r == (hi as u32) << 16 | (lo as u32),
    ;
    r
}

/// Stores a 32-bit value at `addr` and `addr + 1`, high word first.
pub fn write_long_register(registers: &mut HashMap<u16, u16>, addr: u16, u: u32)
    requires
        addr < 0xFFFF,
    ensures
        final(registers)@ == with_long(old(registers)@, addr as int, u),
{
    let hw: u16 = (u >> 16) as u16;
    let lw: u16 = (u & 0xFFFF) as u16;
    assert(hw == u / 0x10000 && lw == u % 0x10000) by (bit_vector)
        requires
            hw == (u >> 16) as u16,
            lw == (u & 0xFFFF) as u16,
    ;
    write_register(registers, addr, hw);
    write_register(registers, addr + 1, lw);
}

/// A bank whose addresses `0 .. count` are present and zero.
pub fn zeroed_registers(count: u16) -> (r: HashMap<u16, u16>)
    ensures
        r@ == zeroed(count as int),
{
    let mut m: HashMap<u16, u16> = HashMap::new();
    let mut k: u16 = 0;
    while k < count
        invariant
            k <= count,
            m@ == zeroed(k as int),
        decreases count - k,
    {
        m.insert(k, 0);
        k = k + 1;
        assert(m@ =~= zeroed(k as int));
    }
    m
}

/// Reads `cnt` registers from `addr`; fails only where the range runs past
/// the last address.
pub fn register_read(registers: &HashMap<u16, u16>, addr: u16, cnt: u16) -> (r: Result<
    Vec<u16>,
    RegisterException,
>)
    ensures
        match r {
            Ok(v) => addr + cnt <= 0x10000 && v@ == read_range(registers@, addr as int, cnt as int),
            Err(e) => addr + cnt > 0x10000 && e == RegisterException::IllegalDataAddress,
        },
{
    if addr as u32 + cnt as u32 > 0x10000 {
        return Err(RegisterException::IllegalDataAddress);
    }
    let mut response_values: Vec<u16> = Vec::new();
    let mut i: u16 = 0;
    while i < cnt
        invariant
            i <= cnt,
            addr + cnt <= 0x10000,
            response_values@ == read_range(registers@, addr as int, i as int),
        decreases cnt - i,
    {
        let v = read_register(registers, addr + i);
        response_values.push(v);
        i = i + 1;
        assert(response_values@ =~= read_range(registers@, addr as int, i as int));
    }
    Ok(response_values)
}

/// Writes `values` to consecutive registers from `addr`, adding addresses that
/// were absent; fails, and writes nothing, where the range runs past the last
/// address.
pub fn register_write(registers: &mut HashMap<u16, u16>, addr: u16, values: &[u16]) -> (r: Result<
    (),
    RegisterException,
>)
    ensures
        match r {
            Ok(()) => addr + values@.len() <= 0x10000 && final(registers)@ == write_range(
                old(registers)@,
                addr as int,
                values@,
            ),
            Err(e) => addr + values@.len() > 0x10000 && e == RegisterException::IllegalDataAddress
                && final(registers)@ == old(registers)@,
        },
{
    if values.len() > 0x10000 - addr as usize {
        return Err(RegisterException::IllegalDataAddress);
    }
    let ghost start = registers@;
    let mut i: usize = 0;
    assert(registers@ =~= write_range(start, addr as int, values@.take(0)));
    while i < values.len()
        invariant
            i <= values@.len(),
            addr + values@.len() <= 0x10000,
            registers@ == write_range(start, addr as int, values@.take(i as int)),
        decreases values@.len() - i,
    {
        let a: u16 = (addr as usize + i) as u16;
        write_register(registers, a, values[i]);
        i = i + 1;
        assert(registers@ =~= write_range(start, addr as int, values@.take(i as int)));
    }
    assert(values@.take(values@.len() as int) =~= values@);
    Ok(())
}

/// Storing a 32-bit value and reading it back gives the same value, over the
/// whole 32-bit range.
pub proof fn lemma_long_round_trip(m: Map<u16, u16>, addr: u16, u: u32)
    requires
        addr < 0xFFFF,
    ensures
        long_at(with_long(m, addr as int, u), addr as int) == u,
{
}

/// Reading back a range just written gives exactly the values written.
pub proof fn lemma_read_after_write(m: Map<u16, u16>, addr: u16, vals: Seq<u16>)
    requires
        addr + vals.len() <= 0x10000,
    ensures
        read_range(write_range(m, addr as int, vals), addr as int, vals.len() as int) == vals,
{
    assert(read_range(write_range(m, addr as int, vals), addr as int, vals.len() as int) =~= vals);
}

} // verus!
