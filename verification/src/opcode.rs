//! The opcode byte space and the operation tables of `UNARY` and `BINARY`.
//!
//! The high nibble of an opcode byte gives the number of immediates that
//! follow it: none below `0x10`, one below `0x20`, two below `0x30`.

use vstd::prelude::*;

verus! {

#[derive(Clone, Copy, Debug, PartialEq, Eq, Structural)]
pub enum Opcode {
    // no immediates:
    Break,
    Nop,
    Dup,
    Drop,
    /// call S2 with S1 arguments preceding
    Call,
    /// return S1 items from the stack
    Return,
    /// S1 (fill from stack), S2 (slots) -> object
    New,
    /// number of slots of S1
    Size,
    /// S2[S1]
    LoadSlot,
    /// S3[S2] := S1
    StoreSlot,
    If,
    // one immediate:
    /// N1 -> S1
    Immediate,
    /// address of constant N1 -> S1
    Constant,
    /// S1[N1]
    LoadSlotN,
    /// S2[N1] := S1
    StoreSlotN,
    LoadLocalN,
    StoreLocalN,
    LoadGlobalN,
    StoreGlobalN,
    Unary,
    Binary,
    /// call S1 with N1 arguments preceding
    CallN,
    /// return N1 items from the stack
    ReturnN,
    Jump,
    // two immediates:
    /// N1 (slots), N2 (fill from stack) -> object
    NewNN,
    /// any byte that names no operation
    Unknown,
}

/// Opcodes from here on carry one immediate.
pub const FIRST_N1_OPCODE: u8 = 0x10;

/// Opcodes from here on carry two immediates.
pub const FIRST_N2_OPCODE: u8 = 0x20;

/// Opcodes from here on carry none again, and name no operation.
pub const LAST_N_OPCODE: u8 = 0x30;

/// Number of immediates that follow the opcode byte `n`.
pub open spec fn immediate_count(n: u8) -> nat {
    if n < FIRST_N1_OPCODE || n >= LAST_N_OPCODE {
        0
    } else if n < FIRST_N2_OPCODE {
        1
    } else {
        2
    }
}

impl Opcode {
    /// The operation that the byte `n` names.
    pub open spec fn spec_from_u8(n: u8) -> Opcode {
        if n == 0x00 {
            Opcode::Break
        } else if n == 0x01 {
            Opcode::Nop
        } else if n == 0x02 {
            Opcode::Dup
        } else if n == 0x03 {
            Opcode::Drop
        } else if n == 0x04 {
            Opcode::Call
        } else if n == 0x05 {
            Opcode::Return
        } else if n == 0x06 {
            Opcode::New
        } else if n == 0x07 {
            Opcode::Size
        } else if n == 0x08 {
            Opcode::LoadSlot
        } else if n == 0x09 {
            Opcode::StoreSlot
        } else if n == 0x0a {
            Opcode::If
        } else if n == 0x10 {
            Opcode::Immediate
        } else if n == 0x11 {
            Opcode::Constant
        } else if n == 0x12 {
            Opcode::LoadSlotN
        } else if n == 0x13 {
            Opcode::StoreSlotN
        } else if n == 0x14 {
            Opcode::LoadLocalN
        } else if n == 0x15 {
            Opcode::StoreLocalN
        } else if n == 0x16 {
            Opcode::LoadGlobalN
        } else if n == 0x17 {
            Opcode::StoreGlobalN
        } else if n == 0x18 {
            Opcode::Unary
        } else if n == 0x19 {
            Opcode::Binary
        } else if n == 0x1a {
            Opcode::CallN
        } else if n == 0x1b {
            Opcode::ReturnN
        } else if n == 0x1c {
            Opcode::Jump
        } else if n == 0x20 {
            Opcode::NewNN
        } else {
            Opcode::Unknown
        }
    }

    /// The byte that encodes this operation; `0xff` for `Unknown`.
    pub open spec fn spec_to_u8(self) -> u8 {
        match self {
            Opcode::Break => 0x00,
            Opcode::Nop => 0x01,
            Opcode::Dup => 0x02,
            Opcode::Drop => 0x03,
            Opcode::Call => 0x04,
            Opcode::Return => 0x05,
            Opcode::New => 0x06,
            Opcode::Size => 0x07,
            Opcode::LoadSlot => 0x08,
            Opcode::StoreSlot => 0x09,
            Opcode::If => 0x0a,
            Opcode::Immediate => 0x10,
            Opcode::Constant => 0x11,
            Opcode::LoadSlotN => 0x12,
            Opcode::StoreSlotN => 0x13,
            Opcode::LoadLocalN => 0x14,
            Opcode::StoreLocalN => 0x15,
            Opcode::LoadGlobalN => 0x16,
            Opcode::StoreGlobalN => 0x17,
            Opcode::Unary => 0x18,
            Opcode::Binary => 0x19,
            Opcode::CallN => 0x1a,
            Opcode::ReturnN => 0x1b,
            Opcode::Jump => 0x1c,
            Opcode::NewNN => 0x20,
            Opcode::Unknown => 0xff,
        }
    }

    /// Decodes an opcode byte. Every byte that the table does not list gives
    /// `Unknown`.
    pub fn from_u8(n: u8) -> (op: Opcode)
        ensures
            op == Opcode::spec_from_u8(n),
    {
        match n {
            0x00 => Opcode::Break,
            0x01 => Opcode::Nop,
            0x02 => Opcode::Dup,
            0x03 => Opcode::Drop,
            0x04 => Opcode::Call,
            0x05 => Opcode::Return,
            0x06 => Opcode::New,
            0x07 => Opcode::Size,
            0x08 => Opcode::LoadSlot,
            0x09 => Opcode::StoreSlot,
            0x0a => Opcode::If,
            0x10 => Opcode::Immediate,
            0x11 => Opcode::Constant,
            0x12 => Opcode::LoadSlotN,
            0x13 => Opcode::StoreSlotN,
            0x14 => Opcode::LoadLocalN,
            0x15 => Opcode::StoreLocalN,
            0x16 => Opcode::LoadGlobalN,
            0x17 => Opcode::StoreGlobalN,
            0x18 => Opcode::Unary,
            0x19 => Opcode::Binary,
            0x1a => Opcode::CallN,
            0x1b => Opcode::ReturnN,
            0x1c => Opcode::Jump,
            0x20 => Opcode::NewNN,
            _ => Opcode::Unknown,
        }
    }

    /// The byte that encodes this operation.
    pub fn to_u8(self) -> (n: u8)
        ensures
            n == self.spec_to_u8(),
            Opcode::spec_from_u8(n) == self,
    {
        match self {
            Opcode::Break => 0x00,
            Opcode::Nop => 0x01,
            Opcode::Dup => 0x02,
            Opcode::Drop => 0x03,
            Opcode::Call => 0x04,
            Opcode::Return => 0x05,
            Opcode::New => 0x06,
            Opcode::Size => 0x07,
            Opcode::LoadSlot => 0x08,
            Opcode::StoreSlot => 0x09,
            Opcode::If => 0x0a,
            Opcode::Immediate => 0x10,
            Opcode::Constant => 0x11,
            Opcode::LoadSlotN => 0x12,
            Opcode::StoreSlotN => 0x13,
            Opcode::LoadLocalN => 0x14,
            Opcode::StoreLocalN => 0x15,
            Opcode::LoadGlobalN => 0x16,
            Opcode::StoreGlobalN => 0x17,
            Opcode::Unary => 0x18,
            Opcode::Binary => 0x19,
            Opcode::CallN => 0x1a,
            Opcode::ReturnN => 0x1b,
            Opcode::Jump => 0x1c,
            Opcode::NewNN => 0x20,
            Opcode::Unknown => 0xff,
        }
    }
}

/// The operations of `UNARY`, selected by its immediate.
#[derive(Clone, Copy, Debug, PartialEq, Eq, Structural)]
pub enum Unary {
    Not,
    Negative,
    BitNot,
    Unknown,
}

impl Unary {
    pub open spec fn spec_from_usize(n: usize) -> Unary {
        if n == 0 {
            Unary::Not
        } else if n == 1 {
            Unary::Negative
        } else if n == 2 {
            Unary::BitNot
        } else {
            Unary::Unknown
        }
    }

    /// The number that selects this operation; `0xff` for `Unknown`.
    pub open spec fn spec_to_usize(self) -> usize {
        match self {
            Unary::Not => 0,
            Unary::Negative => 1,
            Unary::BitNot => 2,
            Unary::Unknown => 0xff,
        }
    }

    /// The operation that `n` selects; `Unknown` for a number outside the table.
    pub fn from_usize(n: usize) -> (op: Unary)
        ensures
            op == Unary::spec_from_usize(n),
    {
        match n {
            0 => Unary::Not,
            1 => Unary::Negative,
            2 => Unary::BitNot,
            _ => Unary::Unknown,
        }
    }

    /// The number that selects this operation.
    pub fn to_usize(self) -> (n: usize)
        ensures
            n == self.spec_to_usize(),
            Unary::spec_from_usize(n) == self,
    {
        match self {
            Unary::Not => 0,
            Unary::Negative => 1,
            Unary::BitNot => 2,
            Unary::Unknown => 0xff,
        }
    }
}

/// The operations of `BINARY`, selected by its immediate. All of them read
/// their operands as signed two's-complement words.
#[derive(Clone, Copy, Debug, PartialEq, Eq, Structural)]
pub enum Binary {
    Add,
    Subtract,
    Multiply,
    Divide,
    Modulo,
    Equals,
    LessThan,
    LessOrEqual,
    BitOr,
    BitAnd,
    BitXor,
    ShiftLeft,
    ShiftRight,
    SignShiftRight,
    Unknown,
}

impl Binary {
    pub open spec fn spec_from_usize(n: usize) -> Binary {
        if n == 0 {
            Binary::Add
        } else if n == 1 {
            Binary::Subtract
        } else if n == 2 {
            Binary::Multiply
        } else if n == 3 {
            Binary::Divide
        } else if n == 4 {
            Binary::Modulo
        } else if n == 5 {
            Binary::Equals
        } else if n == 6 {
            Binary::LessThan
        } else if n == 7 {
            Binary::LessOrEqual
        } else if n == 8 {
            Binary::BitOr
        } else if n == 9 {
            Binary::BitAnd
        } else if n == 10 {
            Binary::BitXor
        } else if n == 11 {
            Binary::ShiftLeft
        } else if n == 12 {
            Binary::ShiftRight
        } else if n == 13 {
            Binary::SignShiftRight
        } else {
            Binary::Unknown
        }
    }

    /// The number that selects this operation; `0xff` for `Unknown`.
    pub open spec fn spec_to_usize(self) -> usize {
        match self {
            Binary::Add => 0,
            Binary::Subtract => 1,
            Binary::Multiply => 2,
            Binary::Divide => 3,
            Binary::Modulo => 4,
            Binary::Equals => 5,
            Binary::LessThan => 6,
            Binary::LessOrEqual => 7,
            Binary::BitOr => 8,
            Binary::BitAnd => 9,
            Binary::BitXor => 10,
            Binary::ShiftLeft => 11,
            Binary::ShiftRight => 12,
            Binary::SignShiftRight => 13,
            Binary::Unknown => 0xff,
        }
    }

    /// The operation that `n` selects; `Unknown` for a number outside the table.
    pub fn from_usize(n: usize) -> (op: Binary)
        ensures
            op == Binary::spec_from_usize(n),
    {
        match n {
            0 => Binary::Add,
            1 => Binary::Subtract,
            2 => Binary::Multiply,
            3 => Binary::Divide,
            4 => Binary::Modulo,
            5 => Binary::Equals,
            6 => Binary::LessThan,
            7 => Binary::LessOrEqual,
            8 => Binary::BitOr,
            9 => Binary::BitAnd,
            10 => Binary::BitXor,
            11 => Binary::ShiftLeft,
            12 => Binary::ShiftRight,
            13 => Binary::SignShiftRight,
            _ => Binary::Unknown,
        }
    }

    /// The number that selects this operation.
    pub fn to_usize(self) -> (n: usize)
        ensures
            n == self.spec_to_usize(),
            Binary::spec_from_usize(n) == self,
    {
        match self {
            Binary::Add => 0,
            Binary::Subtract => 1,
            Binary::Multiply => 2,
            Binary::Divide => 3,
            Binary::Modulo => 4,
            Binary::Equals => 5,
            Binary::LessThan => 6,
            Binary::LessOrEqual => 7,
            Binary::BitOr => 8,
            Binary::BitAnd => 9,
            Binary::BitXor => 10,
            Binary::ShiftLeft => 11,
            Binary::ShiftRight => 12,
            Binary::SignShiftRight => 13,
            Binary::Unknown => 0xff,
        }
    }
}

} // verus!
