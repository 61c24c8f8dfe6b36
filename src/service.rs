//! Serving register requests against an input bank, read-only to clients,
//! and a holding bank that clients read and write.
use std::collections::HashMap;
use vstd::prelude::*;
use crate::registers::{
    lemma_read_after_write, read_range, register_read, register_write, write_range, zeroed, zeroed_registers,
    RegisterException,
};

verus! {

/// Number of holding registers present when the server starts.
pub const HOLDING_REGISTER_COUNT: u16 = 16;

/// Most registers that one write request may carry.
pub const MAX_WRITE_REGISTERS: usize = 123;

/// A client request, as far as the register server tells requests apart.
#[derive(Debug)]
pub enum RegisterRequest {
    /// Read `count` input registers from an address.
    ReadInputRegisters(u16, u16),
    /// Read `count` holding registers from an address.
    ReadHoldingRegisters(u16, u16),
    /// Write one holding register.
    WriteSingleRegister(u16, u16),
    /// Write consecutive holding registers from an address.
    WriteMultipleRegisters(u16, Vec<u16>),
    /// Any function the server does not serve.
    Unsupported,
}

/// The reply to a request that was served.
#[derive(Debug)]
pub enum RegisterResponse {
    ReadInputRegisters(Vec<u16>),
    ReadHoldingRegisters(Vec<u16>),
    /// Address and value written.
    WriteSingleRegister(u16, u16),
    /// First address and number of registers written.
    WriteMultipleRegisters(u16, u16),
}

/// The holding bank as it is before any client connects.
pub fn initial_holding_registers() -> (r: HashMap<u16, u16>)
    ensures
        r@ == zeroed(HOLDING_REGISTER_COUNT as int),
{
    zeroed_registers(HOLDING_REGISTER_COUNT)
}

/// Serves one request. Reads of either bank return the stored words, zero
/// where nothing was written; writes go to the holding bank only; a range past
/// the last address is an illegal data address, and any other function is an
/// illegal function. A write of more than `MAX_WRITE_REGISTERS` values is an
/// illegal data value.
pub fn serve_request(
    input: &HashMap<u16, u16>,
    holding: &mut HashMap<u16, u16>,
    req: &RegisterRequest,
) -> (r: Result<RegisterResponse, RegisterException>)
    ensures
        match *req {
            RegisterRequest::ReadInputRegisters(a, c) => {
                &&& final(holding)@ == old(holding)@
                &&& if a + c <= 0x10000 {
                    r matches Ok(RegisterResponse::ReadInputRegisters(v)) && v@ == read_range(
                        input@,
                        a as int,
                        c as int,
                    )
                } else {
                    r == Err::<RegisterResponse, _>(RegisterException::IllegalDataAddress)
                }
            },
            RegisterRequest::ReadHoldingRegisters(a, c) => {
                &&& final(holding)@ == old(holding)@
                &&& if a + c <= 0x10000 {
                    r matches Ok(RegisterResponse::ReadHoldingRegisters(v)) && v@ == read_range(
                        old(holding)@,
                        a as int,
                        c as int,
                    )
                } else {
                    r == Err::<RegisterResponse, _>(RegisterException::IllegalDataAddress)
                }
            },
            RegisterRequest::WriteSingleRegister(a, v) => {
                &&& final(holding)@ == old(holding)@.insert(a, v)
                &&& r == Ok::<_, RegisterException>(RegisterResponse::WriteSingleRegister(a, v))
            },
            RegisterRequest::WriteMultipleRegisters(a, vals) => if vals@.len() > MAX_WRITE_REGISTERS {
                &&& final(holding)@ == old(holding)@
                &&& r == Err::<RegisterResponse, _>(RegisterException::IllegalDataValue)
            } else if a + vals@.len() <= 0x10000 {
                &&& final(holding)@ == write_range(old(holding)@, a as int, vals@)
                &&& r == Ok::<_, RegisterException>(
                    RegisterResponse::WriteMultipleRegisters(a, vals@.len() as u16),
                )
            } else {
                &&& final(holding)@ == old(holding)@
                &&& r == Err::<RegisterResponse, _>(RegisterException::IllegalDataAddress)
            },
            RegisterRequest::Unsupported => {
                &&& final(holding)@ == old(holding)@
                &&& r == Err::<RegisterResponse, _>(RegisterException::IllegalFunction)
            },
        },
{
    match req {
        RegisterRequest::ReadInputRegisters(addr, cnt) => match register_read(input, *addr, *cnt) {
            Ok(v) => Ok(RegisterResponse::ReadInputRegisters(v)),
            Err(e) => Err(e),
        },
        RegisterRequest::ReadHoldingRegisters(addr, cnt) => match register_read(
            holding,
            *addr,
            *cnt,
        ) {
            Ok(v) => Ok(RegisterResponse::ReadHoldingRegisters(v)),
            Err(e) => Err(e),
        },
        RegisterRequest::WriteMultipleRegisters(addr, values) => {
            if values.len() > MAX_WRITE_REGISTERS {
                return Err(RegisterException::IllegalDataValue);
            }
            match register_write(holding, *addr, values.as_slice()) {
                Ok(()) => Ok(RegisterResponse::WriteMultipleRegisters(*addr, values.len() as u16)),
                Err(e) => Err(e),
            }
        },
        RegisterRequest::WriteSingleRegister(addr, value) => {
            let one: Vec<u16> = vec![*value];
            let res = register_write(holding, *addr, one.as_slice());
            assert(write_range(old(holding)@, *addr as int, one@) =~= old(holding)@.insert(
                *addr,
                *value,
            ));
            match res {
                Ok(()) => Ok(RegisterResponse::WriteSingleRegister(*addr, *value)),
                Err(e) => Err(e),
            }
        },
        RegisterRequest::Unsupported => Err(RegisterException::IllegalFunction),
    }
}

/// A holding write that was served is read back exactly: reading the same
/// range after it gives the values written, and the count in the reply is
/// their number.
pub proof fn lemma_holding_read_after_write(holding: Map<u16, u16>, addr: u16, vals: Seq<u16>)
    requires
        vals.len() <= MAX_WRITE_REGISTERS,
        addr + vals.len() <= 0x10000,
    ensures
        read_range(write_range(holding, addr as int, vals), addr as int, vals.len() as int) == vals,
        vals.len() as u16 == vals.len(),
{
    lemma_read_after_write(holding, addr, vals);
}

} // verus!
