use mwrt::opcode::{Binary, Opcode, Unary, FIRST_N1_OPCODE, FIRST_N2_OPCODE, LAST_N_OPCODE};

#[test]
fn opcode_bytes() {
    let table = [
        (0x00, Opcode::Break), (0x01, Opcode::Nop), (0x02, Opcode::Dup), (0x03, Opcode::Drop),
        (0x04, Opcode::Call), (0x05, Opcode::Return), (0x06, Opcode::New), (0x07, Opcode::Size),
        (0x08, Opcode::LoadSlot), (0x09, Opcode::StoreSlot), (0x0a, Opcode::If),
        (0x10, Opcode::Immediate), (0x11, Opcode::Constant), (0x12, Opcode::LoadSlotN),
        (0x13, Opcode::StoreSlotN), (0x14, Opcode::LoadLocalN), (0x15, Opcode::StoreLocalN),
        (0x16, Opcode::LoadGlobalN), (0x17, Opcode::StoreGlobalN), (0x18, Opcode::Unary),
        (0x19, Opcode::Binary), (0x1a, Opcode::CallN), (0x1b, Opcode::ReturnN), (0x1c, Opcode::Jump),
        (0x20, Opcode::NewNN), (0xff, Opcode::Unknown),
    ];
    for (byte, opcode) in table {
        assert_eq!(opcode.to_u8(), byte);
        assert_eq!(Opcode::from_u8(byte), opcode);
    }
    // every other byte names nothing
    for byte in 0 ..= 255u8 {
        if !table.iter().any(|(b, _)| *b == byte) {
            assert_eq!(Opcode::from_u8(byte), Opcode::Unknown);
        }
    }
    assert_eq!((FIRST_N1_OPCODE, FIRST_N2_OPCODE, LAST_N_OPCODE), (0x10, 0x20, 0x30));
}

#[test]
fn unary_numbers() {
    let table = [ (0, Unary::Not), (1, Unary::Negative), (2, Unary::BitNot), (0xff, Unary::Unknown) ];
    for (n, op) in table {
        assert_eq!(op.to_usize(), n);
        assert_eq!(Unary::from_usize(n), op);
    }
    assert_eq!(Unary::from_usize(3), Unary::Unknown);
    assert_eq!(Unary::from_usize(usize::MAX), Unary::Unknown);
}

#[test]
fn binary_numbers() {
    let table = [
        (0, Binary::Add), (1, Binary::Subtract), (2, Binary::Multiply), (3, Binary::Divide),
        (4, Binary::Modulo), (5, Binary::Equals), (6, Binary::LessThan), (7, Binary::LessOrEqual),
        (8, Binary::BitOr), (9, Binary::BitAnd), (10, Binary::BitXor), (11, Binary::ShiftLeft),
        (12, Binary::ShiftRight), (13, Binary::SignShiftRight), (0xff, Binary::Unknown),
    ];
    for (n, op) in table {
        assert_eq!(op.to_usize(), n);
        assert_eq!(Binary::from_usize(n), op);
    }
    assert_eq!(Binary::from_usize(14), Binary::Unknown);
    assert_eq!(Binary::from_usize(usize::MAX), Binary::Unknown);
}
