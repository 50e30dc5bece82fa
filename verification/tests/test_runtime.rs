use core::cell::Cell;
use mwrt::{Binary, Opcode, Runtime, RuntimeError, Unary};

// bytecode fragments

fn binary_op(op: Binary) -> Vec<u8> {
    vec![ Opcode::Binary.to_u8(), (op.to_usize() as u8) << 1 ]
}

fn unary_op(op: Unary) -> Vec<u8> {
    vec![ Opcode::Unary.to_u8(), (op.to_usize() as u8) << 1 ]
}

fn jump(offset: u8) -> Vec<u8> {
    vec![ Opcode::Jump.to_u8(), offset << 1 ]
}

fn constant(offset: u8) -> Vec<u8> {
    vec![ Opcode::Constant.to_u8(), offset << 1 ]
}

const BREAK: &[u8] = &[ 0x00 ];
const CALL: &[u8] = &[ 0x04 ];
const CALL_1: &[u8] = &[ 0x1a, 2 ];
const DROP: &[u8] = &[ 0x03 ];
const DUP: &[u8] = &[ 0x02 ];
const IF: &[u8] = &[ 0x0a ];
const LOAD_GLOBAL_0: &[u8] = &[ 0x16, 0 ];
const LOAD_GLOBAL_1: &[u8] = &[ 0x16, 2 ];
const LOAD_LOCAL_0: &[u8] = &[ 0x14, 0 ];
const LOAD_LOCAL_1: &[u8] = &[ 0x14, 2 ];
const NEW: &[u8] = &[ 0x06 ];
const NEW_3_2: &[u8] = &[ 0x20, 6, 4 ];
const NOP: &[u8] = &[ 0x01 ];
const NUM_N30: &[u8] = &[ 0x10, 59 ];
const NUM_N1: &[u8] = &[ 0x10, 1 ];
const NUM_0: &[u8] = &[ 0x10, 0 ];
const NUM_1: &[u8] = &[ 0x10, 2 ];
const NUM_2: &[u8] = &[ 0x10, 4 ];
const NUM_30: &[u8] = &[ 0x10, 60 ];
const NUM_64: &[u8] = &[ 0x10, 0x80, 1 ];
const NUM_128: &[u8] = &[ 0x10, 0x80, 2 ];
const RETURN: &[u8] = &[ 0x05 ];
const RETURN_1: &[u8] = &[ 0x1b, 2 ];
const SIZE: &[u8] = &[ 0x07 ];
const SLOT: &[u8] = &[ 0x08 ];
const SLOT_0: &[u8] = &[ 0x12, 0 ];
const SLOT_1: &[u8] = &[ 0x12, 2 ];
const SLOT_2: &[u8] = &[ 0x12, 4 ];
const STORE_LOCAL_0: &[u8] = &[ 0x15, 0 ];
const STORE_LOCAL_1: &[u8] = &[ 0x15, 2 ];
const STORE_LOCAL_10: &[u8] = &[ 0x15, 20 ];
const STORE_GLOBAL_0: &[u8] = &[ 0x17, 0 ];
const STORE_GLOBAL_1: &[u8] = &[ 0x17, 2 ];
const STORE_GLOBAL_10: &[u8] = &[ 0x17, 20 ];
const STORE_SLOT: &[u8] = &[ 0x09 ];
const STORE_SLOT_0: &[u8] = &[ 0x13, 0 ];
const STORE_SLOT_2: &[u8] = &[ 0x13, 4 ];

// helpers to make a runtime

const DEFAULT_GLOBALS: usize = 2;
const DEFAULT_LOCALS: usize = 8;
const DEFAULT_STACK: usize = 8;
const HEAP_SIZE: usize = 512;

fn code(local_count: usize, stack_count: usize, codes: &[&[u8]]) -> Vec<u8> {
    assert!(local_count < 128);
    assert!(stack_count < 128);
    let len = codes.iter().map(|code| code.len()).fold(0, |a, b| a + b);
    let mut data = vec![ local_count as u8, stack_count as u8, (len & 0xff) as u8, ((len >> 8) & 0xff) as u8 ];
    for c in codes { data.extend_from_slice(c) }
    data
}

fn basic_code(codes: &[&[u8]]) -> Vec<u8> {
    code(DEFAULT_LOCALS, DEFAULT_STACK, codes)
}

fn word(mut n: usize) -> Vec<u8> {
    let mut data = Vec::new();
    for _i in 0 .. core::mem::size_of::<usize>() {
        data.push((n & 0xff) as u8);
        n = n >> 8;
    }
    data
}

struct Platform {
    constant_data: Vec<u8>,
    constant_offsets: Vec<u32>,
}

impl Platform {
    fn with(constants: &[Vec<u8>]) -> Platform {
        let mut p = Platform { constant_data: Vec::new(), constant_offsets: Vec::new() };
        for c in constants { p.add_constant(c) }
        p
    }

    fn add_constant(&mut self, data: &[u8]) {
        // align:
        while self.constant_data.len() % core::mem::size_of::<usize>() != 0 { self.constant_data.push(0) }
        self.constant_offsets.push(self.constant_data.len() as u32);
        self.constant_data.extend_from_slice(data);
    }

    fn get_constant(&self, index: usize) -> u32 {
        self.constant_offsets[index] >> 2
    }

    fn to_runtime(&self) -> Result<Runtime<'_, fn() -> usize>, RuntimeError> {
        Runtime::new(&self.constant_data, HEAP_SIZE, DEFAULT_GLOBALS, None)
    }

    fn execute0(&self, code_index: u32, args: &[usize]) -> Result<(), RuntimeError> {
        let mut results: [usize; 16] = [ 0; 16 ];
        self.to_runtime().and_then(|mut r| r.execute(code_index, args, &mut results, None, None)).map(|count| {
            assert_eq!(count, 0);
            ()
        })
    }

    fn execute1(&self, code_index: u32, args: &[usize]) -> Result<usize, RuntimeError> {
        let mut results: [usize; 16] = [ 0; 16 ];
        self.to_runtime().and_then(|mut r| r.execute(code_index, args, &mut results, None, None)).map(|count| {
            assert_eq!(count, 1);
            results[0]
        })
    }

    fn execute2(&self, code_index: u32, args: &[usize]) -> Result<(usize, usize), RuntimeError> {
        let mut results: [usize; 16] = [ 0; 16 ];
        self.to_runtime().and_then(|mut r| r.execute(code_index, args, &mut results, None, None)).map(|count| {
            assert_eq!(count, 2);
            (results[0], results[1])
        })
    }
}

fn show<T: core::fmt::Debug>(r: Result<T, RuntimeError>) -> String {
    match r {
        Ok(v) => format!("Ok({:?})", v),
        Err(e) => format!("Err({})", e.to_text()),
    }
}


#[test]
fn out_of_memory() {
    let p = Platform::with(&[ code(63, 63, &[ NOP ]) ]);
    assert_eq!(show(p.execute0(0, &[])), "Err(OutOfMemory)");
}

#[test]
fn unknown() {
    let p = Platform::with(&[ basic_code(&[ &[ 0xff ] ]) ]);
    assert_eq!(show(p.execute0(0, &[])), "Err(UnknownOpcode at [frame code=0 pc=0 sp=0])");
}

#[test]
fn incomplete_immediate() {
    let p = Platform::with(&[ basic_code(&[ &[ Opcode::Immediate.to_u8(), 0x80 ] ]) ]);
    assert_eq!(show(p.execute0(0, &[])), "Err(TruncatedCode at [frame code=0 pc=0 sp=0])");
}

#[test]
fn debugger_break() {
    let p = Platform::with(&[ basic_code(&[ BREAK ]) ]);
    assert_eq!(show(p.execute0(0, &[])), "Err(Break at [frame code=0 pc=0 sp=0])");
}

#[test]
fn skip_nop() {
    let p = Platform::with(&[ basic_code(&[ NOP, BREAK ]) ]);
    assert_eq!(show(p.execute0(0, &[])), "Err(Break at [frame code=0 pc=1 sp=0])");
}

#[test]
fn immediate_and_return() {
    let p = Platform::with(&[ basic_code(&[ NUM_128, NUM_1, RETURN ]) ]);
    assert_eq!(p.execute1(0, &[]).ok(), Some(128));
}

#[test]
fn immediate_dup_and_return() {
    let p = Platform::with(&[ basic_code(&[ NUM_128, DUP, NUM_2, RETURN ]) ]);
    assert_eq!(p.execute2(0, &[]).ok(), Some((128, 128)));
}

#[test]
fn immediate_drop_and_return() {
    let p = Platform::with(&[ basic_code(&[ NUM_128, NUM_30, DROP, NUM_1, RETURN ]) ]);
    assert_eq!(p.execute1(0, &[]).ok(), Some(128));
}

#[test]
fn constant_and_return() {
    // the constant stands at the second word-aligned place of the pool
    let p = Platform::with(&[ basic_code(&[ &constant(4), SLOT_0, NUM_1, RETURN ]), word(300) ]);
    assert_eq!(p.get_constant(1), 4);
    assert_eq!(p.execute1(0, &[]).ok(), Some(300));
}

#[test]
fn new_object_and_load_slot() {
    let p = Platform::with(&[ basic_code(&[ NUM_128, NUM_2, NEW_3_2, SLOT_0, NUM_1, RETURN ]) ]);
    assert_eq!(p.execute1(0, &[]).ok(), Some(128));

    let p = Platform::with(&[ basic_code(&[ NUM_128, NUM_2, NEW_3_2, SLOT_1, NUM_1, RETURN ]) ]);
    assert_eq!(p.execute1(0, &[]).ok(), Some(2));

    let p = Platform::with(&[ basic_code(&[ NUM_128, NUM_2, NEW_3_2, SLOT_2, NUM_1, RETURN ]) ]);
    assert_eq!(p.execute1(0, &[]).ok(), Some(0));

    let p = Platform::with(&[ basic_code(&[ NUM_128, NUM_2, NEW_3_2, NUM_0, SLOT, NUM_1, RETURN ]) ]);
    assert_eq!(p.execute1(0, &[]).ok(), Some(128));

    let p = Platform::with(&[ basic_code(&[ NUM_128, NUM_2, NEW_3_2, NUM_1, SLOT, NUM_1, RETURN ]) ]);
    assert_eq!(p.execute1(0, &[]).ok(), Some(2));

    let p = Platform::with(&[ basic_code(&[ NUM_128, NUM_2, NEW_3_2, NUM_2, SLOT, NUM_1, RETURN ]) ]);
    assert_eq!(p.execute1(0, &[]).ok(), Some(0));
}

#[test]
fn new_object_errors() {
    // 128 is too big
    let p = Platform::with(&[ basic_code(&[ NUM_128, NUM_0, NEW, SLOT_0, NUM_1, RETURN ]) ]);
    assert_eq!(show(p.execute1(0, &[])), "Err(InvalidSize at [frame code=0 pc=5 sp=0])");

    // more slots to fill than are allocated
    let p = Platform::with(&[ basic_code(&[ NUM_1, NUM_2, NEW, SLOT_0, NUM_1, RETURN ]) ]);
    assert_eq!(show(p.execute1(0, &[])), "Err(OutOfBounds at [frame code=0 pc=4 sp=0])");

    // we made a heap that can't actually hold a 64-slot object and also any stack frame at all
    let p = Platform::with(&[ basic_code(&[ NUM_64, NUM_0, NEW, SLOT_0, NUM_1, RETURN ]) ]);
    assert_eq!(show(p.execute1(0, &[])), "Err(OutOfMemory at [frame code=0 pc=5 sp=0])");

    // there aren't enough fields on the stack
    let p = Platform::with(&[ basic_code(&[ NUM_64, NUM_2, NUM_2, NEW, SLOT_0, NUM_1, RETURN ]) ]);
    assert_eq!(show(p.execute1(0, &[])), "Err(StackUnderflow at [frame code=0 pc=7 sp=1])");
}

#[test]
fn new_object_and_store_slot() {
    let p = Platform::with(&[ basic_code(&[
        NUM_128, NUM_2, NEW_3_2, DUP, NUM_1, STORE_SLOT_0, SLOT_0, NUM_1, RETURN
    ]) ]);
    assert_eq!(p.execute1(0, &[]).ok(), Some(1));

    let p = Platform::with(&[ basic_code(&[
        NUM_128, NUM_2, NEW_3_2, DUP, NUM_1, STORE_SLOT_0, SLOT_1, NUM_1, RETURN
    ]) ]);
    assert_eq!(p.execute1(0, &[]).ok(), Some(2));

    let p = Platform::with(&[ basic_code(&[
        NUM_128, NUM_2, NEW_3_2, DUP, NUM_1, STORE_SLOT_2, SLOT_2, NUM_1, RETURN
    ]) ]);
    assert_eq!(p.execute1(0, &[]).ok(), Some(1));

    let p = Platform::with(&[ basic_code(&[
        NUM_128, NUM_2, NEW_3_2, DUP, NUM_1, STORE_SLOT_2, SLOT_1, NUM_1, RETURN
    ]) ]);
    assert_eq!(p.execute1(0, &[]).ok(), Some(2));

    let p = Platform::with(&[ basic_code(&[
        NUM_128, NUM_2, NEW_3_2, DUP, NUM_0, NUM_1, STORE_SLOT, SLOT_0, RETURN_1
    ]) ]);
    assert_eq!(p.execute1(0, &[]).ok(), Some(1));

    let p = Platform::with(&[ basic_code(&[
        NUM_128, NUM_2, NEW_3_2, DUP, NUM_2, NUM_1, STORE_SLOT, SLOT_1, RETURN_1
    ]) ]);
    assert_eq!(p.execute1(0, &[]).ok(), Some(2));
}

#[test]
fn constant_object_and_load_slot() {
    let p = Platform::with(&[
        basic_code(&[ &constant(4), SLOT_0, NUM_1, RETURN ]),
        vec![ 5, 0, 0, 0, 0, 0, 0, 0 ],
    ]);
    assert_eq!(p.execute1(0, &[]).ok(), Some(5));

    let p = Platform::with(&[
        basic_code(&[ &constant(4), SLOT_2, NUM_1, RETURN ]),
        vec![ 5, 0, 0, 0, 0, 0, 0, 0, 6, 0, 0, 0, 1, 1, 1, 1, 6, 0, 0, 0, 0, 0, 0, 0 ],
    ]);
    assert_eq!(p.execute1(0, &[]).ok(), Some(6));
}

#[test]
fn object_size() {
    let p = Platform::with(&[ basic_code(&[ NUM_128, NUM_2, NEW_3_2, SIZE, NUM_1, RETURN ]) ]);
    assert_eq!(p.execute1(0, &[]).ok(), Some(4));

    // only heap objects have a size
    let p = Platform::with(&[
        basic_code(&[ &constant(4), SIZE, NUM_1, RETURN ]),
        vec![ 0, 0, 0, 0, 1, 0, 0, 0 ],
    ]);
    assert_eq!(show(p.execute1(0, &[])), "Err(InvalidAddress at [frame code=0 pc=2 sp=0])");
}

#[test]
fn load_and_store_local() {
    let p = Platform::with(&[ basic_code(&[ NUM_128, STORE_LOCAL_0, NUM_2, LOAD_LOCAL_0, RETURN_1 ]) ]);
    assert_eq!(p.execute1(0, &[]).ok(), Some(128));

    let p = Platform::with(&[ basic_code(&[ NUM_128, STORE_LOCAL_0, NUM_2, STORE_LOCAL_1, LOAD_LOCAL_0, RETURN_1 ]) ]);
    assert_eq!(p.execute1(0, &[]).ok(), Some(128));

    let p = Platform::with(&[ basic_code(&[ NUM_128, STORE_LOCAL_0, NUM_2, STORE_LOCAL_1, LOAD_LOCAL_1, RETURN_1 ]) ]);
    assert_eq!(p.execute1(0, &[]).ok(), Some(2));

    let p = Platform::with(&[ basic_code(&[ NUM_128, STORE_LOCAL_10 ]) ]);
    assert_eq!(show(p.execute1(0, &[])), "Err(OutOfBounds at [frame code=0 pc=3 sp=1])");
}

#[test]
fn load_and_store_global() {
    let p = Platform::with(&[ basic_code(&[ NUM_128, STORE_GLOBAL_0, NUM_2, LOAD_GLOBAL_0, RETURN_1 ]) ]);
    assert_eq!(p.execute1(0, &[]).ok(), Some(128));

    let p = Platform::with(&[ basic_code(&[ NUM_128, STORE_GLOBAL_0, NUM_2, STORE_GLOBAL_1, LOAD_GLOBAL_0, RETURN_1 ]) ]);
    assert_eq!(p.execute1(0, &[]).ok(), Some(128));

    let p = Platform::with(&[ basic_code(&[ NUM_128, STORE_GLOBAL_0, NUM_2, STORE_GLOBAL_1, LOAD_GLOBAL_1, RETURN_1 ]) ]);
    assert_eq!(p.execute1(0, &[]).ok(), Some(2));

    let p = Platform::with(&[ basic_code(&[ NUM_128, STORE_GLOBAL_10 ]) ]);
    assert_eq!(show(p.execute1(0, &[])), "Err(OutOfBounds at [frame code=0 pc=3 sp=1])");
}

#[test]
fn unary() {
    let p = Platform::with(&[ basic_code(&[ NUM_128, &unary_op(Unary::Not), RETURN_1 ]) ]);
    assert_eq!(p.execute1(0, &[]).ok(), Some(0));

    let p = Platform::with(&[ basic_code(&[ NUM_128, &unary_op(Unary::Not), &unary_op(Unary::Not), RETURN_1 ]) ]);
    assert_eq!(p.execute1(0, &[]).ok(), Some(1));

    let p = Platform::with(&[ basic_code(&[ NUM_128, &unary_op(Unary::Negative), RETURN_1 ]) ]);
    assert_eq!(p.execute1(0, &[]).ok(), Some((-128 as isize) as usize));

    let p = Platform::with(&[ basic_code(&[ NUM_0, &unary_op(Unary::BitNot), RETURN_1 ]) ]);
    assert_eq!(p.execute1(0, &[]).ok(), Some((-1 as isize) as usize));

    let p = Platform::with(&[ basic_code(&[ NUM_1, &unary_op(Unary::BitNot), RETURN_1 ]) ]);
    assert_eq!(p.execute1(0, &[]).ok(), Some((-2 as isize) as usize));

    let p = Platform::with(&[ basic_code(&[ NUM_1, &[ Opcode::Unary.to_u8(), 50 ], RETURN_1 ]) ]);
    assert_eq!(show(p.execute1(0, &[])), "Err(UnknownOpcode at [frame code=0 pc=2 sp=0])");
}

#[test]
fn binary_math() {
    let p = Platform::with(&[ basic_code(&[ NUM_128, NUM_30, &binary_op(Binary::Add), RETURN_1 ]) ]);
    assert_eq!(p.execute1(0, &[]).ok(), Some(158));

    let p = Platform::with(&[ basic_code(&[ NUM_128, NUM_N30, &binary_op(Binary::Add), RETURN_1 ]) ]);
    assert_eq!(p.execute1(0, &[]).ok(), Some(98));

    let p = Platform::with(&[ basic_code(&[ NUM_128, NUM_30, &binary_op(Binary::Subtract), RETURN_1 ]) ]);
    assert_eq!(p.execute1(0, &[]).ok(), Some(98));

    let p = Platform::with(&[ basic_code(&[ NUM_128, NUM_N30, &binary_op(Binary::Subtract), RETURN_1 ]) ]);
    assert_eq!(p.execute1(0, &[]).ok(), Some(158));

    let p = Platform::with(&[ basic_code(&[ NUM_N30, NUM_128, &binary_op(Binary::Subtract), RETURN_1 ]) ]);
    assert_eq!(p.execute1(0, &[]).ok(), Some((-158 as isize) as usize));

    let p = Platform::with(&[ basic_code(&[ NUM_128, NUM_30, &binary_op(Binary::Multiply), RETURN_1 ]) ]);
    assert_eq!(p.execute1(0, &[]).ok(), Some(3840));

    let p = Platform::with(&[ basic_code(&[ NUM_128, NUM_N30, &binary_op(Binary::Multiply), RETURN_1 ]) ]);
    assert_eq!(p.execute1(0, &[]).ok(), Some((-3840 as isize) as usize));

    let p = Platform::with(&[ basic_code(&[ NUM_128, NUM_30, &binary_op(Binary::Divide), RETURN_1 ]) ]);
    assert_eq!(p.execute1(0, &[]).ok(), Some(4));

    let p = Platform::with(&[ basic_code(&[ NUM_128, NUM_30, &binary_op(Binary::Modulo), RETURN_1 ]) ]);
    assert_eq!(p.execute1(0, &[]).ok(), Some(8));

    let p = Platform::with(&[ basic_code(&[ NUM_1, NUM_1, &[ Opcode::Binary.to_u8(), 50 ], RETURN_1 ]) ]);
    assert_eq!(show(p.execute1(0, &[])), "Err(UnknownOpcode at [frame code=0 pc=4 sp=0])");
}

#[test]
fn binary_compare() {
    let p = Platform::with(&[ basic_code(&[ NUM_128, NUM_30, &binary_op(Binary::Equals), RETURN_1 ]) ]);
    assert_eq!(p.execute1(0, &[]).ok(), Some(0));

    let p = Platform::with(&[ basic_code(&[ NUM_30, NUM_30, &binary_op(Binary::Equals), RETURN_1 ]) ]);
    assert_eq!(p.execute1(0, &[]).ok(), Some(1));

    let p = Platform::with(&[ basic_code(&[ NUM_128, NUM_30, &binary_op(Binary::LessThan), RETURN_1 ]) ]);
    assert_eq!(p.execute1(0, &[]).ok(), Some(0));

    let p = Platform::with(&[ basic_code(&[ NUM_128, NUM_30, &binary_op(Binary::LessThan), &unary_op(Unary::Not), RETURN_1 ]) ]);
    assert_eq!(p.execute1(0, &[]).ok(), Some(1));

    let p = Platform::with(&[ basic_code(&[ NUM_30, NUM_128, &binary_op(Binary::LessThan), RETURN_1 ]) ]);
    assert_eq!(p.execute1(0, &[]).ok(), Some(1));

    let p = Platform::with(&[ basic_code(&[ NUM_N30, NUM_30, &binary_op(Binary::LessThan), RETURN_1 ]) ]);
    assert_eq!(p.execute1(0, &[]).ok(), Some(1));

    let p = Platform::with(&[ basic_code(&[ NUM_30, NUM_30, &binary_op(Binary::LessOrEqual), RETURN_1 ]) ]);
    assert_eq!(p.execute1(0, &[]).ok(), Some(1));

    let p = Platform::with(&[ basic_code(&[ NUM_30, NUM_128, &binary_op(Binary::LessOrEqual), RETURN_1 ]) ]);
    assert_eq!(p.execute1(0, &[]).ok(), Some(1));
}

#[test]
fn binary_bit() {
    let p = Platform::with(&[ basic_code(&[ NUM_128, NUM_30, &binary_op(Binary::BitOr), RETURN_1 ]) ]);
    assert_eq!(p.execute1(0, &[]).ok(), Some(158));

    let p = Platform::with(&[ basic_code(&[ NUM_N1, NUM_30, &binary_op(Binary::BitOr), RETURN_1 ]) ]);
    assert_eq!(p.execute1(0, &[]).ok(), Some((-1 as isize) as usize));

    let p = Platform::with(&[ basic_code(&[ NUM_128, NUM_30, &binary_op(Binary::BitAnd), RETURN_1 ]) ]);
    assert_eq!(p.execute1(0, &[]).ok(), Some(0));

    let p = Platform::with(&[ basic_code(&[ NUM_N1, NUM_30, &binary_op(Binary::BitAnd), RETURN_1 ]) ]);
    assert_eq!(p.execute1(0, &[]).ok(), Some(30));

    let p = Platform::with(&[ basic_code(&[ NUM_128, NUM_30, &binary_op(Binary::BitXor), RETURN_1 ]) ]);
    assert_eq!(p.execute1(0, &[]).ok(), Some(158));

    let p = Platform::with(&[ basic_code(&[ NUM_N1, NUM_30, &binary_op(Binary::BitXor), RETURN_1 ]) ]);
    assert_eq!(p.execute1(0, &[]).ok(), Some((-31 as isize) as usize));
}

#[test]
fn binary_shift() {
    let p = Platform::with(&[ basic_code(&[ NUM_30, NUM_2, &binary_op(Binary::ShiftLeft), RETURN_1 ]) ]);
    assert_eq!(p.execute1(0, &[]).ok(), Some(120));

    let p = Platform::with(&[ basic_code(&[ NUM_30, NUM_2, &binary_op(Binary::ShiftRight), RETURN_1 ]) ]);
    assert_eq!(p.execute1(0, &[]).ok(), Some(7));

    let p = Platform::with(&[ basic_code(&[ NUM_N30, NUM_2, &binary_op(Binary::SignShiftRight), RETURN_1 ]) ]);
    assert_eq!(p.execute1(0, &[]).ok(), Some((-8 as isize) as usize));

    let p = Platform::with(&[ basic_code(&[ NUM_30, NUM_2, &binary_op(Binary::SignShiftRight), RETURN_1 ]) ]);
    assert_eq!(p.execute1(0, &[]).ok(), Some(7));
}

#[test]
fn call_double_and_return() {
    // the subroutine is the second constant; its pool address comes from its offset
    let p = Platform::with(&[
        basic_code(&[ NUM_30, &constant(4), NUM_1, CALL, NUM_1, RETURN ]),
        // double:
        basic_code(&[ LOAD_LOCAL_0, NUM_2, &binary_op(Binary::Multiply), NUM_1, RETURN ]),
    ]);
    assert_eq!(p.get_constant(1), 4);
    assert_eq!(p.execute1(0, &[]).ok(), Some(60));

    let p = Platform::with(&[
        basic_code(&[ NUM_30, &constant(4), CALL_1, RETURN_1 ]),
        // double:
        basic_code(&[ LOAD_LOCAL_0, NUM_2, &binary_op(Binary::Multiply), RETURN_1 ]),
    ]);
    assert_eq!(p.get_constant(1), 4);
    assert_eq!(p.execute1(0, &[]).ok(), Some(60));
}

#[test]
fn conditional() {
    let p = Platform::with(&[ basic_code(&[ NUM_30, NUM_1, IF, RETURN_1, NUM_2, RETURN_1 ]) ]);
    assert_eq!(p.execute1(0, &[]).ok(), Some(30));

    let p = Platform::with(&[ basic_code(&[ NUM_30, NUM_0, IF, RETURN_1, NUM_2, RETURN_1 ]) ]);
    assert_eq!(p.execute1(0, &[]).ok(), Some(2));
}

#[test]
fn jump_around() {
    let p = Platform::with(&[ basic_code(&[ NUM_1, &jump(6), NUM_2, RETURN_1 ]) ]);
    assert_eq!(p.execute1(0, &[]).ok(), Some(1));

    let p = Platform::with(&[ basic_code(&[ &jump(4), RETURN_1, NUM_30, &jump(2) ]) ]);
    assert_eq!(p.execute1(0, &[]).ok(), Some(30));

    // if/else
    let p = Platform::with(&[ basic_code(&[ NUM_1, IF, &jump(9), NUM_30, RETURN_1, NUM_128, RETURN_1 ]) ]);
    assert_eq!(p.execute1(0, &[]).ok(), Some(128));
    let p = Platform::with(&[ basic_code(&[ NUM_0, IF, &jump(9), NUM_30, RETURN_1, NUM_128, RETURN_1 ]) ]);
    assert_eq!(p.execute1(0, &[]).ok(), Some(30));

    let p = Platform::with(&[ basic_code(&[ &jump(9) ]) ]);
    assert_eq!(show(p.execute1(0, &[])), "Err(OutOfBounds at [frame code=0 pc=0 sp=0])");
}

#[test]
fn cycle_limit() {
    let p = Platform::with(&[ basic_code(&[ &jump(0) ]) ]);
    let mut results = [ 0 as usize; 4 ];
    let rv = p.to_runtime().and_then(|mut r| r.execute(0, &[], &mut results, Some(1000), None));
    assert_eq!(show(rv), "Err(CyclesExceeded at [frame code=0 pc=0 sp=0])");
}

#[test]
fn time_limit() {
    let p = Platform::with(&[ basic_code(&[ &jump(0) ]) ]);
    let mut results = [ 0 as usize; 4 ];
    let timer = Cell::new(0usize);
    let current_time = || {
        timer.set(timer.get() + 1);
        timer.get()
    };

    let rv = Runtime::new(&p.constant_data, HEAP_SIZE, DEFAULT_GLOBALS, Some(current_time)).and_then(|mut r| {
        r.execute(0, &[], &mut results, None, Some(1000))
    });
    assert_eq!(show(rv), "Err(TimeExceeded at [frame code=0 pc=0 sp=0])");
    assert_eq!(timer.get(), 1000);
}
