use std::collections::HashMap;

use pms_modbus::registers::{write_register, RegisterException};
use pms_modbus::service::{initial_holding_registers, serve_request, RegisterRequest, RegisterResponse};

fn input_bank() -> HashMap<u16, u16> {
    let mut m = HashMap::new();
    write_register(&mut m, 0, 16);
    write_register(&mut m, 1, 4);
    m
}

#[test]
fn holding_read_after_multiple_write() {
    let input = input_bank();
    let mut holding = initial_holding_registers();
    let w = serve_request(&input, &mut holding, &RegisterRequest::WriteMultipleRegisters(3, vec![9, 8, 7]));
    assert!(matches!(w, Ok(RegisterResponse::WriteMultipleRegisters(3, 3))));
    match serve_request(&input, &mut holding, &RegisterRequest::ReadHoldingRegisters(3, 3)) {
        Ok(RegisterResponse::ReadHoldingRegisters(v)) => assert_eq!(v, vec![9, 8, 7]),
        other => panic!("unexpected {:?}", other),
    }
    match serve_request(&input, &mut holding, &RegisterRequest::ReadInputRegisters(0, 6)) {
        Ok(RegisterResponse::ReadInputRegisters(v)) => assert_eq!(v, vec![16, 4, 0, 0, 0, 0]),
        other => panic!("unexpected {:?}", other),
    }
}

#[test]
fn single_write_reaches_holding_bank_only() {
    let input = input_bank();
    let mut holding = initial_holding_registers();
    let w = serve_request(&input, &mut holding, &RegisterRequest::WriteSingleRegister(0, 77));
    assert!(matches!(w, Ok(RegisterResponse::WriteSingleRegister(0, 77))));
    assert_eq!(holding.get(&0), Some(&77));
    assert_eq!(input.get(&0), Some(&16));
    match serve_request(&input, &mut holding, &RegisterRequest::ReadInputRegisters(0, 1)) {
        Ok(RegisterResponse::ReadInputRegisters(v)) => assert_eq!(v, vec![16]),
        other => panic!("unexpected {:?}", other),
    }
}

#[test]
fn unsupported_function_is_illegal_function() {
    let input = input_bank();
    let mut holding = initial_holding_registers();
    let r = serve_request(&input, &mut holding, &RegisterRequest::Unsupported);
    assert!(matches!(r, Err(RegisterException::IllegalFunction)));
    assert_eq!(holding.len(), 16);
}

#[test]
fn range_past_last_address_is_illegal_data_address() {
    let input = input_bank();
    let mut holding = initial_holding_registers();
    let r = serve_request(&input, &mut holding, &RegisterRequest::ReadInputRegisters(65530, 10));
    assert!(matches!(r, Err(RegisterException::IllegalDataAddress)));
    let r = serve_request(&input, &mut holding, &RegisterRequest::WriteMultipleRegisters(65535, vec![1, 2]));
    assert!(matches!(r, Err(RegisterException::IllegalDataAddress)));
    assert_eq!(holding.len(), 16);
}

#[test]
fn initial_holding_bank_is_zero() {
    let h = initial_holding_registers();
    assert_eq!(h.len(), 16);
    assert!((0..16u16).all(|k| h.get(&k) == Some(&0)));
}

#[test]
fn oversized_write_is_illegal_data_value() {
    let input = input_bank();
    let mut holding = initial_holding_registers();
    let r = serve_request(&input, &mut holding, &RegisterRequest::WriteMultipleRegisters(0, vec![1; 124]));
    assert!(matches!(r, Err(RegisterException::IllegalDataValue)));
    assert_eq!(holding.len(), 16);
    let r = serve_request(&input, &mut holding, &RegisterRequest::WriteMultipleRegisters(0, vec![1; 123]));
    assert!(matches!(r, Ok(RegisterResponse::WriteMultipleRegisters(0, 123))));
}
