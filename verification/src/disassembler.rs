//! Decoding of single instructions, and a listing of a whole bytecode block.

use vstd::prelude::*;
use vstd::string::StringExecFns;
use crate::decode_int::{decode_sint, spec_decode_sint, varint_length};
use crate::error::ErrorCode;
use crate::opcode::{
    immediate_count, Binary, Opcode, Unary, FIRST_N1_OPCODE, FIRST_N2_OPCODE, LAST_N_OPCODE,
};
use crate::text::{
    decimal_text, hex_digits, padded_to_four, push_decimal, push_hex_padded,
};

verus! {

/// One decoded instruction: the operation, its immediates (zero where it has
/// none), and the index of its opcode byte.
#[derive(Clone, Copy, Debug, PartialEq, Eq, Structural)]
pub struct Instruction {
    pub offset: usize,
    pub opcode: Opcode,
    pub n1: isize,
    pub n2: isize,
}

/// The instruction whose opcode byte stands at `index`, and the index of the
/// byte after its last immediate. `None` where the opcode byte or one of the
/// immediates is missing or cannot be decoded.
pub open spec fn spec_decode_at(bytes: Seq<u8>, index: int) -> Option<(Instruction, int)> {
    if index < 0 || index >= bytes.len() {
        None
    } else {
        let op = bytes[index];
        let plain = Instruction {
            offset: index as usize,
            opcode: Opcode::spec_from_u8(op),
            n1: 0,
            n2: 0,
        };
        if immediate_count(op) == 0 {
            Some((plain, index + 1))
        } else {
            match spec_decode_sint(bytes, index + 1) {
                None => None,
                Some(d1) => if immediate_count(op) == 1 {
                    Some((Instruction { n1: d1.value, ..plain }, d1.new_index as int))
                } else {
                    match spec_decode_sint(bytes, d1.new_index as int) {
                        None => None,
                        Some(d2) => Some(
                            (
                                Instruction { n1: d1.value, n2: d2.value, ..plain },
                                d2.new_index as int,
                            ),
                        ),
                    }
                },
            }
        }
    }
}

/// Number of bytes that the instruction at `index` takes: its opcode byte
/// and the varints of as many immediates as the opcode byte announces.
pub open spec fn encoded_len(bytes: Seq<u8>, index: int) -> int {
    let first = varint_length(bytes, index + 1);
    if immediate_count(bytes[index]) == 0 {
        1
    } else if immediate_count(bytes[index]) == 1 {
        1 + first
    } else {
        1 + first + varint_length(bytes, index + 1 + first)
    }
}

/// What `decode_next` returns. An instruction is truncated where
/// `spec_decode_at` finds none, and where the next index does not fit in 16
/// bits.
pub open spec fn spec_decode_next(bytes: Seq<u8>, index: u16) -> Result<(Instruction, u16), ErrorCode> {
    match spec_decode_at(bytes, index as int) {
        Some((instruction, next)) => if next <= u16::MAX {
            Ok((instruction, next as u16))
        } else {
            Err(ErrorCode::TruncatedCode)
        },
        None => Err(ErrorCode::TruncatedCode),
    }
}

/// Decodes the instruction whose opcode byte stands at `index`.
pub fn decode_next(bytes: &[u8], index: u16) -> (r: Result<(Instruction, u16), ErrorCode>)
    ensures
        r == spec_decode_next(bytes@, index),
        r matches Ok((_, next)) ==> index < next <= bytes@.len() && next - index == encoded_len(
            bytes@,
            index as int,
        ),
{
    let mut i: usize = index as usize;
    if i >= bytes.len() {
        return Err(ErrorCode::TruncatedCode);
    }
    let op = bytes[i];
    i += 1;
    let mut n1: isize = 0;
    let mut n2: isize = 0;
    if op >= FIRST_N1_OPCODE && op < LAST_N_OPCODE {
        match decode_sint(bytes, i) {
            Some(d1) => {
                n1 = d1.value;
                i = d1.new_index;
                if op >= FIRST_N2_OPCODE {
                    match decode_sint(bytes, i) {
                        Some(d2) => {
                            n2 = d2.value;
                            i = d2.new_index;
                        },
                        None => {
                            return Err(ErrorCode::TruncatedCode);
                        },
                    }
                }
            },
            None => {
                return Err(ErrorCode::TruncatedCode);
            },
        }
    }
    if i > u16::MAX as usize {
        return Err(ErrorCode::TruncatedCode);
    }
    let instruction = Instruction { opcode: Opcode::from_u8(op), n1, n2, offset: index as usize };
    Ok((instruction, i as u16))
}

/// The name of a unary operation in a listing.
pub open spec fn spec_unary_name(op: Unary) -> Seq<char> {
    match op {
        Unary::Not => "NOT"@,
        Unary::Negative => "NEG"@,
        Unary::BitNot => "INV"@,
        Unary::Unknown => "?unary?"@,
    }
}

/// The name of a binary operation in a listing.
pub open spec fn spec_binary_name(op: Binary) -> Seq<char> {
    match op {
        Binary::Add => "ADD"@,
        Binary::Subtract => "SUB"@,
        Binary::Multiply => "MUL"@,
        Binary::Divide => "DIV"@,
        Binary::Modulo => "MOD"@,
        Binary::Equals => "EQ"@,
        Binary::LessThan => "LT"@,
        Binary::LessOrEqual => "LE"@,
        Binary::BitOr => "OR"@,
        Binary::BitAnd => "AND"@,
        Binary::BitXor => "XOR"@,
        Binary::ShiftLeft => "LSL"@,
        Binary::ShiftRight => "LSR"@,
        Binary::SignShiftRight => "ASR"@,
        Binary::Unknown => "?binary?"@,
    }
}

/// What stands before the first immediate of an instruction in a listing;
/// for an instruction without immediates, all of it.
pub open spec fn spec_mnemonic(opcode: Opcode) -> Seq<char> {
    match opcode {
        Opcode::Break => "BREAK"@,
        Opcode::Nop => "NOP"@,
        Opcode::Dup => "DUP"@,
        Opcode::Drop => "DROP"@,
        Opcode::Call => "CALL"@,
        Opcode::Return => "RET"@,
        Opcode::New => "NEW"@,
        Opcode::Size => "SIZE"@,
        Opcode::LoadSlot => "LD [*]"@,
        Opcode::StoreSlot => "ST [*]"@,
        Opcode::If => "IF"@,
        Opcode::Immediate => "LD #"@,
        Opcode::Constant => "LD %"@,
        Opcode::LoadSlotN => "LD [#"@,
        Opcode::StoreSlotN => "ST [#"@,
        Opcode::LoadLocalN => "LD @"@,
        Opcode::StoreLocalN => "ST @"@,
        Opcode::LoadGlobalN => "LD $"@,
        Opcode::StoreGlobalN => "ST $"@,
        Opcode::Unary => Seq::empty(),
        Opcode::Binary => Seq::empty(),
        Opcode::CallN => "CALL #"@,
        Opcode::ReturnN => "RET #"@,
        Opcode::Jump => "JUMP "@,
        Opcode::NewNN => "NEW #"@,
        Opcode::Unknown => "???(ff)"@,
    }
}

impl Instruction {
    /// The instruction as a listing shows it: its offset in four digits of
    /// base sixteen, a colon, and the operation with its immediates. The
    /// immediates are in base ten, but for the target of a jump, which is
    /// written like an offset.
    pub open spec fn text(self) -> Seq<char> {
        let head = padded_to_four(hex_digits(self.offset as nat)) + ": "@ + spec_mnemonic(
            self.opcode,
        );
        match self.opcode {
            Opcode::Immediate
            | Opcode::Constant
            | Opcode::LoadLocalN
            | Opcode::StoreLocalN
            | Opcode::LoadGlobalN
            | Opcode::StoreGlobalN
            | Opcode::CallN
            | Opcode::ReturnN => head + decimal_text(self.n1 as int),
            Opcode::LoadSlotN | Opcode::StoreSlotN => head + decimal_text(self.n1 as int) + "]"@,
            Opcode::Unary => head + spec_unary_name(Unary::spec_from_usize(self.n1 as usize)),
            Opcode::Binary => head + spec_binary_name(Binary::spec_from_usize(self.n1 as usize)),
            Opcode::Jump => head + padded_to_four(hex_digits((self.n1 as usize) as nat)),
            Opcode::NewNN => head + decimal_text(self.n1 as int) + ", #"@ + decimal_text(
                self.n2 as int,
            ),
            _ => head,
        }
    }

    /// The instruction as a listing shows it.
    pub fn to_text(&self) -> (s: String)
        ensures
            s@ == self.text(),
    {
        let mut out = String::new();
        push_hex_padded(&mut out, self.offset);
        out.append(": ");
        out.append(mnemonic(self.opcode));
        let n1: usize = #[verifier::truncate] (self.n1 as usize);
        match self.opcode {
            Opcode::Immediate
            | Opcode::Constant
            | Opcode::LoadLocalN
            | Opcode::StoreLocalN
            | Opcode::LoadGlobalN
            | Opcode::StoreGlobalN
            | Opcode::CallN
            | Opcode::ReturnN => {
                push_decimal(&mut out, self.n1);
            },
            Opcode::LoadSlotN | Opcode::StoreSlotN => {
                push_decimal(&mut out, self.n1);
                out.append("]");
            },
            Opcode::Unary => {
                out.append(unary_name(Unary::from_usize(n1)));
            },
            Opcode::Binary => {
                out.append(binary_name(Binary::from_usize(n1)));
            },
            Opcode::Jump => {
                push_hex_padded(&mut out, n1);
            },
            Opcode::NewNN => {
                push_decimal(&mut out, self.n1);
                out.append(", #");
                push_decimal(&mut out, self.n2);
            },
            _ => {},
        }
        proof {
            assert(out@ =~= self.text());
        }
        out
    }
}

fn unary_name(op: Unary) -> (s: &'static str)
    ensures
        s@ == spec_unary_name(op),
{
    match op {
        Unary::Not => "NOT",
        Unary::Negative => "NEG",
        Unary::BitNot => "INV",
        Unary::Unknown => "?unary?",
    }
}

fn binary_name(op: Binary) -> (s: &'static str)
    ensures
        s@ == spec_binary_name(op),
{
    match op {
        Binary::Add => "ADD",
        Binary::Subtract => "SUB",
        Binary::Multiply => "MUL",
        Binary::Divide => "DIV",
        Binary::Modulo => "MOD",
        Binary::Equals => "EQ",
        Binary::LessThan => "LT",
        Binary::LessOrEqual => "LE",
        Binary::BitOr => "OR",
        Binary::BitAnd => "AND",
        Binary::BitXor => "XOR",
        Binary::ShiftLeft => "LSL",
        Binary::ShiftRight => "LSR",
        Binary::SignShiftRight => "ASR",
        Binary::Unknown => "?binary?",
    }
}

fn mnemonic(opcode: Opcode) -> (s: &'static str)
    ensures
        s@ == spec_mnemonic(opcode),
{
    proof {
        reveal_strlit("");
    }
    let s = match opcode {
        Opcode::Break => "BREAK",
        Opcode::Nop => "NOP",
        Opcode::Dup => "DUP",
        Opcode::Drop => "DROP",
        Opcode::Call => "CALL",
        Opcode::Return => "RET",
        Opcode::New => "NEW",
        Opcode::Size => "SIZE",
        Opcode::LoadSlot => "LD [*]",
        Opcode::StoreSlot => "ST [*]",
        Opcode::If => "IF",
        Opcode::Immediate => "LD #",
        Opcode::Constant => "LD %",
        Opcode::LoadSlotN => "LD [#",
        Opcode::StoreSlotN => "ST [#",
        Opcode::LoadLocalN => "LD @",
        Opcode::StoreLocalN => "ST @",
        Opcode::LoadGlobalN => "LD $",
        Opcode::StoreGlobalN => "ST $",
        Opcode::Unary => "",
        Opcode::Binary => "",
        Opcode::CallN => "CALL #",
        Opcode::ReturnN => "RET #",
        Opcode::Jump => "JUMP ",
        Opcode::NewNN => "NEW #",
        Opcode::Unknown => "???(ff)",
    };
    assert(s@ =~= spec_mnemonic(opcode));
    s
}

/// The instructions of a bytecode block, one after another, up to the first
/// that cannot be decoded.
pub struct Disassembler<'a> {
    pub bytecode: &'a [u8],
    pub index: u16,
}

/// The listing of `bytes` from `index` on: the text of each instruction and
/// a line end, up to the end of the bytes or the first instruction that
/// cannot be decoded.
pub open spec fn spec_listing(bytes: Seq<u8>, index: u16) -> Seq<char>
    decreases bytes.len() - index,
{
    if index >= bytes.len() {
        Seq::empty()
    } else {
        match spec_decode_next(bytes, index) {
            Ok((instruction, next)) => if index < next <= bytes.len() {
                instruction.text() + "\n"@ + spec_listing(bytes, next)
            } else {
                Seq::empty()
            },
            Err(_) => Seq::empty(),
        }
    }
}

impl<'a> Disassembler<'a> {
    /// The next instruction, if the bytes have not run out and it can be
    /// decoded. After the first `None` all further results are `None`.
    pub fn next(&mut self) -> (r: Option<Instruction>)
        ensures
            final(self).bytecode@ == old(self).bytecode@,
            match r {
                Some(instruction) => old(self).index < old(self).bytecode@.len() && spec_decode_next(
                    old(self).bytecode@,
                    old(self).index,
                ) == Ok::<(Instruction, u16), ErrorCode>((instruction, final(self).index))
                    && old(self).index < final(self).index <= old(self).bytecode@.len(),
                None => (old(self).index >= old(self).bytecode@.len() || spec_decode_next(
                    old(self).bytecode@,
                    old(self).index,
                ) is Err) && final(self).index == old(self).index,
            },
    {
        if (self.index as usize) >= self.bytecode.len() {
            return None;
        }
        match decode_next(self.bytecode, self.index) {
            Ok((instruction, new_index)) => {
                self.index = new_index;
                Some(instruction)
            },
            Err(_) => None,
        }
    }
}

/// Starts a listing of `bytes` at their first byte.
pub fn disassemble<'a>(bytes: &'a [u8]) -> (d: Disassembler<'a>)
    ensures
        d.bytecode@ == bytes@,
        d.index == 0,
{
    Disassembler { bytecode: bytes, index: 0 }
}

/// The listing of `bytes`: one line for each instruction.
pub fn disassemble_to_string(bytes: &[u8]) -> (s: String)
    ensures
        s@ == spec_listing(bytes@, 0),
{
    let mut out = String::new();
    let mut d = disassemble(bytes);
    proof {
        assert(out@ + spec_listing(bytes@, 0) =~= spec_listing(bytes@, 0));
    }
    loop
        invariant
            d.bytecode@ == bytes@,
            out@ + spec_listing(bytes@, d.index) == spec_listing(bytes@, 0),
        decreases bytes@.len() - d.index,
    {
        let ghost before = out@;
        let ghost at = d.index;
        match d.next() {
            Some(instruction) => {
                let line = instruction.to_text();
                out.append(line.as_str());
                out.append("\n");
                proof {
                    assert(out@ + spec_listing(bytes@, d.index) =~= before + spec_listing(bytes@, at));
                }
            },
            None => {
                proof {
                    assert(out@ + spec_listing(bytes@, at) =~= out@);
                }
                return out;
            },
        }
    }
}

} // verus!
