use mwrt::disassembler::disassemble_to_string;
use mwrt::opcode::Opcode;

#[test]
fn disassemble() {
    let bytes: &[u8] = &[
        Opcode::Break.to_u8(), Opcode::Nop.to_u8(), Opcode::Return.to_u8(), Opcode::LoadSlot.to_u8(),
        Opcode::Immediate.to_u8(), 2, Opcode::Constant.to_u8(), 0x80, 2,
        Opcode::LoadSlotN.to_u8(), 0x82, 4,
    ];
    assert_eq!(
        disassemble_to_string(&bytes),
        "0000: BREAK\n0001: NOP\n0002: RET\n0003: LD [*]\n0004: LD #1\n0006: LD %128\n0009: LD [#257]\n"
    );

    let bytes: &[u8] = &[
        Opcode::Drop.to_u8(), Opcode::StoreSlot.to_u8(), Opcode::If.to_u8(),
        Opcode::Jump.to_u8(), 0xfe, 7
    ];
    assert_eq!(
        disassemble_to_string(&bytes),
        "0000: DROP\n0001: ST [*]\n0002: IF\n0003: JUMP 01ff\n"
    );

    let bytes: &[u8] = &[
        Opcode::Dup.to_u8(), Opcode::New.to_u8(), Opcode::Size.to_u8(), Opcode::StoreSlotN.to_u8(), 0x84, 4,
        Opcode::LoadLocalN.to_u8(), 0x80, 0x80, 1, Opcode::StoreLocalN.to_u8(), 6,
        Opcode::ReturnN.to_u8(), 2,
    ];
    assert_eq!(
        disassemble_to_string(&bytes),
        "0000: DUP\n0001: NEW\n0002: SIZE\n0003: ST [#258]\n0006: LD @8192\n000a: ST @3\n000c: RET #1\n"
    );

    let bytes: &[u8] = &[
        Opcode::NewNN.to_u8(), 0x80, 0x80, 0x80, 1, 0x82, 0x80, 0x80, 1,
        Opcode::LoadGlobalN.to_u8(), 12, Opcode::StoreGlobalN.to_u8(), 100, Opcode::Call.to_u8(),
        Opcode::CallN.to_u8(), 0x80, 1,
    ];
    assert_eq!(
        disassemble_to_string(&bytes),
        "0000: NEW #1048576, #1048577\n0009: LD $6\n000b: ST $50\n000d: CALL\n000e: CALL #64\n"
    );

    let bytes: &[u8] = &[
        Opcode::Unary.to_u8(), 0,
        Opcode::Unary.to_u8(), 2,
        Opcode::Unary.to_u8(), 4,
    ];
    assert_eq!(
        disassemble_to_string(&bytes),
        "0000: NOT\n0002: NEG\n0004: INV\n"
    );

    let bytes: &[u8] = &[
        Opcode::Binary.to_u8(), 0,
        Opcode::Binary.to_u8(), 2,
        Opcode::Binary.to_u8(), 4,
        Opcode::Binary.to_u8(), 6,
        Opcode::Binary.to_u8(), 8,
        Opcode::Binary.to_u8(), 10,
        Opcode::Binary.to_u8(), 12,
        Opcode::Binary.to_u8(), 14,
        Opcode::Binary.to_u8(), 16,
    ];
    assert_eq!(
        disassemble_to_string(&bytes),
        "0000: ADD\n0002: SUB\n0004: MUL\n0006: DIV\n0008: MOD\n000a: EQ\n000c: LT\n000e: LE\n0010: OR\n"
    );

    let bytes: &[u8] = &[
        Opcode::Binary.to_u8(), 18,
        Opcode::Binary.to_u8(), 20,
        Opcode::Binary.to_u8(), 22,
        Opcode::Binary.to_u8(), 24,
        Opcode::Binary.to_u8(), 26,
    ];
    assert_eq!(
        disassemble_to_string(&bytes),
        "0000: AND\n0002: XOR\n0004: LSL\n0006: LSR\n0008: ASR\n"
    );
}
