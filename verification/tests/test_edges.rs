use core::cell::Cell;
use mwrt::decode_int::encode_sint;
use mwrt::error::ErrorCode;
use mwrt::{Runtime, RuntimeError};

fn block(local_count: u8, max_stack: u8, body: &[u8]) -> Vec<u8> {
    let mut data = vec![ local_count, max_stack, (body.len() & 0xff) as u8, (body.len() >> 8) as u8 ];
    data.extend_from_slice(body);
    data
}

fn run_in(heap_size: usize, data: &[u8]) -> (Result<usize, RuntimeError>, [usize; 4]) {
    let mut out = [ 0usize; 4 ];
    let r = Runtime::<fn() -> usize>::new(data, heap_size, 2, None).and_then(|mut runtime| {
        runtime.execute(0, &[], &mut out, None, None)
    });
    (r, out)
}

fn fault(data: &[u8]) -> String {
    match run_in(512, data).0 {
        Ok(count) => format!("Ok({})", count),
        Err(e) => e.to_text(),
    }
}

fn value(data: &[u8]) -> usize {
    let (r, out) = run_in(512, data);
    assert_eq!(r.map_err(|e| e.to_text()), Ok(1));
    out[0]
}

// I n
fn imm(n: isize) -> Vec<u8> {
    let mut bytes = vec![ 0x10 ];
    bytes.extend_from_slice(&encode_sint(n));
    bytes
}

// where a fault in the operation of `binary(op, a, b)` is reported
fn at_operation(a: &[u8], b: &[u8]) -> String {
    format!(" at [frame code=0 pc={:x} sp=0]", a.len() + b.len())
}

fn binary(op: u8, a: &[u8], b: &[u8]) -> Vec<u8> {
    let mut body = Vec::new();
    body.extend_from_slice(a);
    body.extend_from_slice(b);
    body.extend_from_slice(&[ 0x19, op << 1, 0x1b, 0x02 ]);
    block(0, 4, &body)
}

const ONE_LESS_THAN_NOTHING: [u8; 2] = [ 0x10, 0x01 ];

// the least word: -1 shifted to the top bit
fn least_word() -> Vec<u8> {
    let bits = (core::mem::size_of::<usize>() * 8 - 1) as u8;
    vec![ 0x10, 0x01, 0x10, bits << 1, 0x19, 11 << 1 ]
}

#[test]
fn zero_length_bytecode_returns_nothing() {
    let (r, out) = run_in(512, &block(0, 0, &[]));
    assert_eq!(r.map_err(|e| e.to_text()), Ok(0));
    assert_eq!(out, [ 0, 0, 0, 0 ]);
}

#[test]
fn falling_off_the_end_returns_nothing() {
    let (r, _) = run_in(512, &block(0, 2, &[ 0x10, 0x02, 0x01 ]));
    assert_eq!(r.map_err(|e| e.to_text()), Ok(0));
}

#[test]
fn largest_frame() {
    // 63 locals and 63 stack slots need a heap of a kibibyte and more
    let body: &[u8] = &[ 0x10, 0x0e, 0x15, 0x7c, 0x14, 0x7c, 0x1b, 0x02 ];
    let (r, out) = run_in(2048, &block(63, 63, body));
    assert_eq!(r.map_err(|e| e.to_text()), Ok(1));
    assert_eq!(out[0], 7);
    assert_eq!(fault(&block(63, 63, body)), "OutOfMemory");

    // the 64th push overflows
    let mut body: Vec<u8> = Vec::new();
    for _ in 0 .. 64 { body.extend_from_slice(&[ 0x10, 0x02 ]) }
    let (r, _) = run_in(2048, &block(63, 63, &body));
    assert_eq!(r.map_err(|e| e.to_text()), Err("StackOverflow at [frame code=0 pc=7e sp=3f]".to_string()));
}

#[test]
fn too_many_locals_or_slots() {
    assert_eq!(fault(&block(64, 0, &[])), "InvalidCodeObject");
    assert_eq!(fault(&block(0, 64, &[])), "InvalidCodeObject");
}

#[test]
fn code_outside_the_pool() {
    // the header announces more bytecode than the pool holds
    assert_eq!(fault(&[ 0, 0, 1, 0 ]), "InvalidAddress");
    // no header at all
    assert_eq!(fault(&[ 0, 0 ]), "InvalidAddress");
    // an offset beyond the pool
    let mut out = [ 0usize; 4 ];
    let data = block(0, 0, &[]);
    let mut runtime = Runtime::<fn() -> usize>::new(&data, 512, 2, None).unwrap();
    assert_eq!(runtime.execute(1, &[], &mut out, None, None).map_err(|e| e.to_text()), Err("InvalidAddress".to_string()));
    assert_eq!(runtime.execute(u32::MAX, &[], &mut out, None, None).map_err(|e| e.to_text()), Err("InvalidAddress".to_string()));
}

#[test]
fn new_with_the_most_slots() {
    // 64 slots, none filled; SIZE says 64
    let body: &[u8] = &[ 0x20, 0x80, 0x01, 0x00, 0x07, 0x1b, 0x02 ];
    let (r, out) = run_in(2048, &block(0, 2, body));
    assert_eq!(r.map_err(|e| e.to_text()), Ok(1));
    assert_eq!(out[0], 64);

    // 65 slots
    let body: &[u8] = &[ 0x20, 0x82, 0x01, 0x00, 0x07, 0x1b, 0x02 ];
    let (r, _) = run_in(2048, &block(0, 2, body));
    assert_eq!(r.map_err(|e| e.to_text()), Err("InvalidSize at [frame code=0 pc=0 sp=0]".to_string()));

    // a negative number of slots is a very large one
    let body: &[u8] = &[ 0x20, 0x01, 0x00 ];
    assert_eq!(fault(&block(0, 2, body)), "InvalidSize at [frame code=0 pc=0 sp=0]");

    // more to fill than there are slots
    let body: &[u8] = &[ 0x20, 0x02, 0x04 ];
    assert_eq!(fault(&block(0, 2, body)), "OutOfBounds at [frame code=0 pc=0 sp=0]");
}

#[test]
fn new_without_slots() {
    // an object without slots still has an address and a block of its own
    let body: &[u8] = &[ 0x20, 0x00, 0x00, 0x20, 0x00, 0x00, 0x19, 0x0a, 0x1b, 0x02 ];
    assert_eq!(value(&block(0, 2, body)), 0);
}

#[test]
fn jump_targets() {
    // to the last instruction
    assert_eq!(value(&block(0, 2, &[ 0x10, 0x0e, 0x1c, 0x0a, 0x00, 0x1b, 0x02 ])), 7);
    // to the end of the bytecode
    assert_eq!(fault(&block(0, 2, &[ 0x1c, 0x04 ])), "OutOfBounds at [frame code=0 pc=0 sp=0]");
    // to before the bytecode
    assert_eq!(fault(&block(0, 2, &[ 0x1c, 0x01 ])), "OutOfBounds at [frame code=0 pc=0 sp=0]");
    // to far behind it: 65536 is not taken for 0
    assert_eq!(fault(&block(0, 2, &[ 0x1c, 0x80, 0x80, 0x08 ])), "OutOfBounds at [frame code=0 pc=0 sp=0]");
}

#[test]
fn truncated_instructions() {
    assert_eq!(fault(&block(0, 2, &[ 0x20 ])), "TruncatedCode at [frame code=0 pc=0 sp=0]");
    assert_eq!(fault(&block(0, 2, &[ 0x20, 0x02 ])), "TruncatedCode at [frame code=0 pc=0 sp=0]");
    assert_eq!(fault(&block(0, 2, &[ 0x01, 0x10, 0x80 ])), "TruncatedCode at [frame code=0 pc=1 sp=0]");
    // an immediate of eleven bytes
    let body: &[u8] = &[ 0x10, 0x80, 0x80, 0x80, 0x80, 0x80, 0x80, 0x80, 0x80, 0x80, 0x80, 0x01 ];
    assert_eq!(fault(&block(0, 2, body)), "TruncatedCode at [frame code=0 pc=0 sp=0]");
}

#[test]
fn a_skipped_instruction_is_still_decoded() {
    // IF passes over a whole instruction, however long
    assert_eq!(value(&block(0, 4, &[ 0x10, 0x0e, 0x10, 0x00, 0x0a, 0x20, 0x06, 0x04, 0x1b, 0x02 ])), 7);
    // and over a jump
    assert_eq!(value(&block(0, 4, &[ 0x10, 0x0e, 0x10, 0x00, 0x0a, 0x1c, 0x00, 0x1b, 0x02 ])), 7);
    // but not over one that is cut short
    assert_eq!(fault(&block(0, 4, &[ 0x10, 0x00, 0x0a, 0x10, 0x80 ])), "TruncatedCode at [frame code=0 pc=3 sp=0]");
    // nor over one that names nothing: that one is passed over like any other
    assert_eq!(value(&block(0, 4, &[ 0x10, 0x0e, 0x10, 0x00, 0x0a, 0xff, 0x1b, 0x02 ])), 7);
}

#[test]
fn a_skipped_instruction_counts_as_a_cycle() {
    // I 0 ; IF ; NOP ; RETURN_N 0: four instructions are decoded
    let data = block(0, 4, &[ 0x10, 0x00, 0x0a, 0x01, 0x1b, 0x00 ]);
    let mut out = [ 0usize; 4 ];
    let mut runtime = Runtime::<fn() -> usize>::new(&data, 512, 2, None).unwrap();
    assert_eq!(runtime.execute(0, &[], &mut out, Some(4), None).map_err(|e| e.to_text()), Ok(0));
    assert_eq!(
        runtime.execute(0, &[], &mut out, Some(3), None).map_err(|e| e.to_text()),
        Err("CyclesExceeded at [frame code=0 pc=4 sp=0]".to_string())
    );
    assert_eq!(
        runtime.execute(0, &[], &mut out, Some(0), None).map_err(|e| e.to_text()),
        Err("CyclesExceeded at [frame code=0 pc=0 sp=0]".to_string())
    );
}

#[test]
fn the_deadline_is_checked_before_every_instruction() {
    let data = block(0, 4, &[ 0x10, 0x00, 0x0a, 0x01, 0x1b, 0x00 ]);
    let mut out = [ 0usize; 4 ];
    let timer = Cell::new(0usize);
    let clock = || {
        timer.set(timer.get() + 1);
        timer.get()
    };
    let mut runtime = Runtime::new(&data, 512, 2, Some(clock)).unwrap();
    // the clock shows 1, 2, 3, 4 before the four instructions
    assert_eq!(runtime.execute(0, &[], &mut out, None, Some(5)).map_err(|e| e.to_text()), Ok(0));
    assert_eq!(timer.get(), 4);
    timer.set(0);
    assert_eq!(
        runtime.execute(0, &[], &mut out, None, Some(4)).map_err(|e| e.to_text()),
        Err("TimeExceeded at [frame code=0 pc=4 sp=0]".to_string())
    );
    // without a deadline the clock is not read
    timer.set(0);
    assert_eq!(runtime.execute(0, &[], &mut out, None, None).map_err(|e| e.to_text()), Ok(0));
    assert_eq!(timer.get(), 0);
    // when both limits are reached the deadline comes first
    assert_eq!(
        runtime.execute(0, &[], &mut out, Some(0), Some(1)).map_err(|e| e.to_text()),
        Err("TimeExceeded at [frame code=0 pc=0 sp=0]".to_string())
    );
}

#[test]
fn without_a_clock_the_deadline_is_ignored() {
    let data = block(0, 4, &[ 0x1b, 0x00 ]);
    let mut out = [ 0usize; 4 ];
    let mut runtime = Runtime::<fn() -> usize>::new(&data, 512, 2, None).unwrap();
    assert_eq!(runtime.execute(0, &[], &mut out, None, Some(1)).map_err(|e| e.to_text()), Ok(0));
}

#[test]
fn stack_underflow_and_overflow() {
    assert_eq!(fault(&block(0, 1, &[ 0x03 ])), "StackUnderflow at [frame code=0 pc=0 sp=0]");
    assert_eq!(fault(&block(0, 1, &[ 0x10, 0x02, 0x10, 0x02 ])), "StackOverflow at [frame code=0 pc=2 sp=1]");
    // DUP needs a free slot
    assert_eq!(fault(&block(0, 1, &[ 0x10, 0x02, 0x02 ])), "StackOverflow at [frame code=0 pc=2 sp=1]");
    // returning more than there is
    assert_eq!(fault(&block(0, 1, &[ 0x1b, 0x02 ])), "StackUnderflow at [frame code=0 pc=0 sp=0]");
    assert_eq!(fault(&block(0, 1, &[ 0x1b, 0x01 ])), "StackUnderflow at [frame code=0 pc=0 sp=0]");
}

#[test]
fn slots_by_address() {
    // an address that is no multiple of the word size
    let body: &[u8] = &[ 0x20, 0x02, 0x00, 0x10, 0x02, 0x19, 0x00, 0x12, 0x00 ];
    assert_eq!(fault(&block(0, 2, body)), "Unaligned at [frame code=0 pc=7 sp=0]");
    // an address outside pool and heap
    assert_eq!(fault(&block(0, 2, &[ 0x10, 0x00, 0x12, 0x00 ])), "InvalidAddress at [frame code=0 pc=2 sp=0]");
    assert_eq!(fault(&block(0, 2, &[ 0x10, 0x00, 0x10, 0x02, 0x13, 0x00 ])), "InvalidAddress at [frame code=0 pc=4 sp=0]");
    assert_eq!(fault(&block(0, 2, &[ 0x10, 0x00, 0x07 ])), "InvalidAddress at [frame code=0 pc=2 sp=0]");
    // the last word of the address space
    assert_eq!(fault(&block(0, 2, &[ 0x10, 0x0f, 0x12, 0x00 ])), "InvalidAddress at [frame code=0 pc=2 sp=0]");
    // a slot index that wraps around the address space comes back to the object
    let body: &[u8] = &[ 0x10, 0x0e, 0x20, 0x04, 0x02, 0x10, 0x10, 0x19, 0x00, 0x12, 0x01, 0x1b, 0x02 ];
    let word = core::mem::size_of::<usize>() as u8;
    let mut body = body.to_vec();
    body[6] = word << 1;
    assert_eq!(value(&block(0, 4, &body)), 7);
}

#[test]
fn stores_into_the_constant_pool_fail() {
    // STORE_SLOT_N into the word behind the code block
    let mut data = block(0, 4, &[ 0x11, 0x04, 0x10, 0x0e, 0x13, 0x00 ]);
    while data.len() < 16 { data.push(0) }
    data.extend_from_slice(&[ 0x11; 8 ]);
    assert_eq!(fault(&data), "InvalidAddress at [frame code=0 pc=4 sp=0]");
    // STORE_SLOT likewise
    let mut data = block(0, 4, &[ 0x11, 0x04, 0x10, 0x02, 0x10, 0x0e, 0x09 ]);
    while data.len() < 16 { data.push(0) }
    data.extend_from_slice(&[ 0x11; 8 ]);
    assert_eq!(fault(&data), "InvalidAddress at [frame code=0 pc=6 sp=0]");
    // the word can still be read, and is what it was
    let mut data = block(0, 4, &[ 0x11, 0x08, 0x12, 0x00, 0x1b, 0x02 ]);
    while data.len() < 16 { data.push(0) }
    data.extend_from_slice(&[ 0x11, 0, 0, 0, 0, 0, 0, 0 ]);
    assert_eq!(value(&data), 0x11);
    // an address in the pool that is not aligned is refused for that
    let mut data = block(0, 4, &[ 0x11, 0x04, 0x10, 0x02, 0x19, 0x00, 0x10, 0x0e, 0x13, 0x00 ]);
    while data.len() < 24 { data.push(0) }
    assert_eq!(fault(&data), "Unaligned at [frame code=0 pc=8 sp=0]");
}

#[test]
fn arithmetic_faults() {
    assert_eq!(fault(&binary(3, &imm(7), &imm(0))), "OutOfBounds at [frame code=0 pc=4 sp=0]");
    assert_eq!(fault(&binary(4, &imm(7), &imm(0))), "OutOfBounds at [frame code=0 pc=4 sp=0]");
    let width = (core::mem::size_of::<usize>() * 8) as isize;
    for op in [ 11, 12, 13 ] {
        assert_eq!(fault(&binary(op, &imm(1), &imm(width))), format!("OutOfBounds{}", at_operation(&imm(1), &imm(width))));
        assert_eq!(fault(&binary(op, &imm(1), &imm(-1))), "OutOfBounds at [frame code=0 pc=4 sp=0]");
    }
    assert_eq!(value(&binary(11, &imm(1), &imm(width - 1))), 1 << (width - 1));
    assert_eq!(value(&binary(12, &imm(-1), &imm(width - 1))), 1);
    assert_eq!(value(&binary(13, &imm(-1), &imm(width - 1))), usize::MAX);
    assert_eq!(fault(&binary(14, &imm(1), &imm(1))), "UnknownOpcode at [frame code=0 pc=4 sp=0]");
    assert_eq!(fault(&block(0, 2, &[ 0x10, 0x02, 0x18, 0x06 ])), "UnknownOpcode at [frame code=0 pc=2 sp=0]");
}

#[test]
fn division_rounds_towards_zero() {
    assert_eq!(value(&binary(3, &imm(-7), &imm(2))), (-3 as isize) as usize);
    assert_eq!(value(&binary(4, &imm(-7), &imm(2))), (-1 as isize) as usize);
    assert_eq!(value(&binary(3, &imm(7), &imm(-2))), (-3 as isize) as usize);
    assert_eq!(value(&binary(4, &imm(7), &imm(-2))), 1);
    assert_eq!(value(&binary(3, &imm(-7), &imm(-2))), 3);
    assert_eq!(value(&binary(4, &imm(-7), &imm(-2))), (-1 as isize) as usize);
    // the least word by -1: the quotient wraps, the remainder is 0
    assert_eq!(value(&binary(3, &least_word(), &ONE_LESS_THAN_NOTHING)), isize::MIN as usize);
    assert_eq!(value(&binary(4, &least_word(), &ONE_LESS_THAN_NOTHING)), 0);
    // and by 1
    assert_eq!(value(&binary(3, &least_word(), &imm(1))), isize::MIN as usize);
}

#[test]
fn arithmetic_wraps() {
    // the least word minus 1, negated, times 2
    assert_eq!(value(&binary(1, &least_word(), &imm(1))), isize::MAX as usize);
    assert_eq!(value(&binary(2, &least_word(), &imm(2))), 0);
    let mut body = least_word();
    body.extend_from_slice(&[ 0x18, 0x02, 0x1b, 0x02 ]);
    assert_eq!(value(&block(0, 4, &body)), isize::MIN as usize);
}

#[test]
fn every_fault_has_a_number_and_a_name() {
    let all = [
        ErrorCode::InvalidCodeObject, ErrorCode::Unaligned, ErrorCode::InvalidAddress, ErrorCode::InvalidSize,
        ErrorCode::OutOfBounds, ErrorCode::UnknownOpcode, ErrorCode::TruncatedCode, ErrorCode::StackUnderflow,
        ErrorCode::StackOverflow, ErrorCode::LocalsOverflow, ErrorCode::OutOfMemory, ErrorCode::TimeExceeded,
        ErrorCode::CyclesExceeded, ErrorCode::Break, ErrorCode::InvalidConstant,
    ];
    for (i, code) in all.iter().enumerate() {
        assert_eq!(code.number() as usize, i + 1);
        assert_eq!(code.name(), format!("{:?}", code));
        assert_eq!(RuntimeError::new(*code).to_text(), code.name());
    }
}

#[test]
fn a_machine_that_does_not_fit() {
    // the globals alone fill the heap
    assert_eq!(Runtime::<fn() -> usize>::new(&[], 512, 65, None).err().map(|e| e.to_text()), Some("OutOfMemory".to_string()));
    assert!(Runtime::<fn() -> usize>::new(&[], 512, 64, None).is_ok());
    // a heap that ends behind the address space
    assert_eq!(Runtime::<fn() -> usize>::new(&[], usize::MAX, 0, None).err().map(|e| e.to_text()), Some("OutOfMemory".to_string()));
    // even no globals take a block
    assert_eq!(Runtime::<fn() -> usize>::new(&[], 0, 0, None).err().map(|e| e.to_text()), Some("OutOfMemory".to_string()));
    // a heap of one block: the globals fit, and no frame
    let data = block(0, 0, &[]);
    let mut runtime = Runtime::<fn() -> usize>::new(&data, 16, 0, None).unwrap();
    let mut out = [ 0usize; 1 ];
    assert_eq!(runtime.execute(0, &[], &mut out, None, None).map_err(|e| e.to_text()), Err("OutOfMemory".to_string()));
}
