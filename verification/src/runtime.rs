//! The interpreter: what each instruction does, and the loop that runs a
//! code block until it returns, faults, or exhausts its budget.

use vstd::prelude::*;
use vstd::wrapping::{isize_specs, usize_specs};
use crate::constant_pool::{ConstantPool, PoolView, POOL_BASE};
use crate::disassembler::{decode_next, spec_decode_next, Instruction};
use crate::error::{ErrorCode, ErrorView, RuntimeError};
use crate::heap::{lemma_allocate_wf, lemma_rounded_words, Heap, HeapView, BLOCK_BYTES};
use crate::opcode::{Binary, Opcode, Unary};
use crate::stack_frame::{spec_start, ContextView, PreviousContext, RuntimeContext};
use crate::word::{bytes_past_word, is_word_multiple, word_bytes, word_size};

verus! {

/// What the loop has to do after an instruction.
#[derive(Clone, Copy, Debug, PartialEq, Eq, Structural)]
pub enum Disposition {
    /// go on with the next instruction
    Continue,
    /// pass over the next instruction
    Skip,
    /// enter the code block at this address with this many arguments
    Call(usize, usize),
    /// leave the frame with this many results
    Return(usize),
    /// go on at this index of the bytecode
    Jump(u16),
}

/// Most slots that `NEW` gives an object.
pub const MAX_OBJECT_SLOTS: usize = 64;

/// The machine's memory as a plain value: the constant pool, the heap, and
/// where in the heap the globals stand.
pub struct RuntimeView {
    pub pool: PoolView,
    pub heap: HeapView,
    /// index in the heap of the word that holds the first global
    pub globals: usize,
    pub global_count: usize,
}

impl RuntimeView {
    /// Pool and heap are well formed, the pool ends before the heap starts,
    /// and the globals lie in the heap.
    pub open spec fn wf(self) -> bool {
        &&& self.pool.wf()
        &&& self.heap.wf()
        &&& self.pool.end() <= self.heap.base
        &&& self.globals + self.global_count <= self.heap.words.len()
    }

    pub open spec fn with_heap(self, heap: HeapView) -> RuntimeView {
        RuntimeView { heap, ..self }
    }
}

/// The quotient of `a` by `b` rounded towards zero.
pub open spec fn truncated_quotient(a: int, b: int) -> int {
    let q = (if a >= 0 {
        a
    } else {
        -a
    }) / (if b >= 0 {
        b
    } else {
        -b
    });
    if (a >= 0) == (b >= 0) {
        q
    } else {
        -q
    }
}

/// The remainder that goes with `truncated_quotient`: it has the sign of `a`.
pub open spec fn truncated_remainder(a: int, b: int) -> int {
    let r = (if a >= 0 {
        a
    } else {
        -a
    }) % (if b >= 0 {
        b
    } else {
        -b
    });
    if a >= 0 {
        r
    } else {
        -r
    }
}

/// What `UNARY` computes. Negation wraps.
pub open spec fn spec_unary(op: Unary, n1: isize) -> Result<isize, ErrorCode> {
    match op {
        Unary::Not => Ok(
            if n1 == 0 {
                1isize
            } else {
                0isize
            },
        ),
        Unary::Negative => Ok(isize_specs::wrapping_sub(0, n1)),
        Unary::BitNot => Ok(!n1),
        Unary::Unknown => Err(ErrorCode::UnknownOpcode),
    }
}

/// What `BINARY` computes. Sum, difference and product wrap. A division by
/// zero is out of bounds, and so is a shift by a negative count or by the
/// width of a word or more. The one quotient that does not fit a word, that
/// of the least word by -1, wraps to the least word.
pub open spec fn spec_binary(op: Binary, n1: isize, n2: isize) -> Result<isize, ErrorCode> {
    match op {
        Binary::Add => Ok(isize_specs::wrapping_add(n1, n2)),
        Binary::Subtract => Ok(isize_specs::wrapping_sub(n1, n2)),
        Binary::Multiply => Ok(isize_specs::wrapping_mul(n1, n2)),
        Binary::Divide => if n2 == 0 {
            Err(ErrorCode::OutOfBounds)
        } else if truncated_quotient(n1 as int, n2 as int) > isize::MAX {
            Ok(isize::MIN)
        } else {
            Ok(truncated_quotient(n1 as int, n2 as int) as isize)
        },
        Binary::Modulo => if n2 == 0 {
            Err(ErrorCode::OutOfBounds)
        } else {
            Ok(truncated_remainder(n1 as int, n2 as int) as isize)
        },
        Binary::Equals => Ok(
            if n1 == n2 {
                1isize
            } else {
                0isize
            },
        ),
        Binary::LessThan => Ok(
            if n1 < n2 {
                1isize
            } else {
                0isize
            },
        ),
        Binary::LessOrEqual => Ok(
            if n1 <= n2 {
                1isize
            } else {
                0isize
            },
        ),
        Binary::BitOr => Ok(n1 | n2),
        Binary::BitAnd => Ok(n1 & n2),
        Binary::BitXor => Ok(n1 ^ n2),
        Binary::ShiftLeft => if 0 <= n2 < usize::BITS {
            Ok(n1 << (n2 as usize))
        } else {
            Err(ErrorCode::OutOfBounds)
        },
        Binary::ShiftRight => if 0 <= n2 < usize::BITS {
            Ok(((n1 as usize) >> (n2 as usize)) as isize)
        } else {
            Err(ErrorCode::OutOfBounds)
        },
        Binary::SignShiftRight => if 0 <= n2 < usize::BITS {
            Ok(n1 >> (n2 as usize))
        } else {
            Err(ErrorCode::OutOfBounds)
        },
        Binary::Unknown => Err(ErrorCode::UnknownOpcode),
    }
}

/// Address of slot `slot` of the object at `addr`. The arithmetic wraps.
pub open spec fn slot_address(addr: usize, slot: usize) -> usize {
    usize_specs::wrapping_add(addr, usize_specs::wrapping_mul(slot, word_size() as usize))
}

/// The magnitude of `a`.
fn magnitude(a: isize) -> (m: usize)
    ensures
        m == (if a >= 0 {
            a as int
        } else {
            -a
        }),
{
    if a >= 0 {
        a as usize
    } else {
        ((-(a + 1)) as usize) + 1
    }
}

/// The word with magnitude `m` and the given sign; the least word where the
/// magnitude is too large for a word of either sign.
fn signed(negative: bool, m: usize) -> (r: isize)
    ensures
        m <= isize::MAX ==> r == (if negative {
            -m
        } else {
            m as int
        }),
        m > isize::MAX ==> r == isize::MIN,
{
    if m > isize::MAX as usize {
        isize::MIN
    } else if negative {
        -(m as isize)
    } else {
        m as isize
    }
}

/// The outcome of an object operation that reads memory.
pub open spec fn spec_object_size(heap: HeapView, addr: usize) -> Result<usize, ErrorCode> {
    match heap.size_at(addr) {
        Some(words) => Ok(words),
        None => Err(ErrorCode::InvalidAddress),
    }
}

impl RuntimeView {
    /// The word in slot `slot` of the object at `addr`. The slot's address
    /// must be a multiple of the word size, and must be that of a word of
    /// the constant pool or of the heap.
    pub open spec fn load_slot(self, addr: usize, slot: usize) -> Result<usize, ErrorCode> {
        let slot_addr = slot_address(addr, slot);
        if bytes_past_word(slot_addr as int) != 0 {
            Err(ErrorCode::Unaligned)
        } else {
            match self.pool.word(slot_addr) {
                Some(word) => Ok(word),
                None => match self.heap.load(slot_addr) {
                    Some(word) => Ok(word),
                    None => Err(ErrorCode::InvalidAddress),
                },
            }
        }
    }

    /// Writes `value` to slot `slot` of the object at `addr`. The slot's
    /// address must be a multiple of the word size, and must be that of a
    /// word of the heap. Where it is not, the heap stays as it is.
    pub open spec fn store_slot(self, addr: usize, slot: usize, value: usize) -> (
        Result<(), ErrorCode>,
        HeapView,
    ) {
        let slot_addr = slot_address(addr, slot);
        if bytes_past_word(slot_addr as int) != 0 {
            (Err(ErrorCode::Unaligned), self.heap)
        } else if self.heap.contains_word(slot_addr) {
            (Ok(()), self.heap.store(slot_addr, value))
        } else {
            (Err(ErrorCode::InvalidAddress), self.heap)
        }
    }
}

/// What an instruction did: how it ended, and the heap and the chain of
/// frames after it. A fault leaves both as they were when it was raised.
pub struct Effect {
    pub result: Result<Disposition, ErrorCode>,
    pub heap: HeapView,
    pub context: ContextView,
}

/// What `NEW` does: `slots` may not be more than 64, nor `from_stack` more
/// than `slots`; the object is allocated; then `from_stack` words are popped
/// and written to its first slots in the order in which they were pushed.
pub open spec fn spec_new_object(
    heap: HeapView,
    context: ContextView,
    slots: usize,
    from_stack: usize,
) -> (Result<usize, ErrorCode>, HeapView, ContextView) {
    if slots > MAX_OBJECT_SLOTS {
        (Err(ErrorCode::InvalidSize), heap, context)
    } else if from_stack > slots {
        (Err(ErrorCode::OutOfBounds), heap, context)
    } else if !heap.can_allocate(slots) {
        (Err(ErrorCode::OutOfMemory), heap, context)
    } else {
        let addr = heap.next_addr();
        let allocated = heap.allocate(slots);
        match context.get_n(from_stack) {
            (Err(e), after) => (Err(e), allocated, after),
            (Ok(values), after) => (Ok(addr), allocated.store_all(addr, values), after),
        }
    }
}

/// Pushes the word that an operation gave, or passes its fault on.
pub open spec fn push_outcome(outcome: Result<usize, ErrorCode>, heap: HeapView, context: ContextView) -> Effect {
    match outcome {
        Err(e) => Effect { result: Err(e), heap, context },
        Ok(word) => match context.put(word) {
            (Err(e), after) => Effect { result: Err(e), heap, context: after },
            (Ok(()), after) => Effect { result: Ok(Disposition::Continue), heap, context: after },
        },
    }
}

/// What the instruction `instruction` does in the current frame of
/// `context`, with the memory `rt`.
pub open spec fn spec_execute_one(rt: RuntimeView, context: ContextView, instruction: Instruction) -> Effect {
    let heap = rt.heap;
    let n1 = instruction.n1;
    let n2 = instruction.n2;
    match instruction.opcode {
        Opcode::Break => Effect { result: Err(ErrorCode::Break), heap, context },
        Opcode::Nop => Effect { result: Ok(Disposition::Continue), heap, context },
        Opcode::Dup => match context.get() {
            (Err(e), c1) => Effect { result: Err(e), heap, context: c1 },
            (Ok(v), c1) => match c1.put(v) {
                (Err(e), c2) => Effect { result: Err(e), heap, context: c2 },
                (Ok(()), c2) => push_outcome(Ok(v), heap, c2),
            },
        },
        Opcode::Drop => match context.get() {
            (Err(e), c1) => Effect { result: Err(e), heap, context: c1 },
            (Ok(_), c1) => Effect { result: Ok(Disposition::Continue), heap, context: c1 },
        },
        Opcode::Call => match context.get() {
            (Err(e), c1) => Effect { result: Err(e), heap, context: c1 },
            (Ok(count), c1) => match c1.get() {
                (Err(e), c2) => Effect { result: Err(e), heap, context: c2 },
                (Ok(addr), c2) => Effect {
                    result: Ok(Disposition::Call(addr, count)),
                    heap,
                    context: c2,
                },
            },
        },
        Opcode::Return => match context.get() {
            (Err(e), c1) => Effect { result: Err(e), heap, context: c1 },
            (Ok(count), c1) => Effect { result: Ok(Disposition::Return(count)), heap, context: c1 },
        },
        Opcode::New => match context.get() {
            (Err(e), c1) => Effect { result: Err(e), heap, context: c1 },
            (Ok(fill), c1) => match c1.get() {
                (Err(e), c2) => Effect { result: Err(e), heap, context: c2 },
                (Ok(slots), c2) => {
                    let (made, h3, c3) = spec_new_object(heap, c2, slots, fill);
                    push_outcome(made, h3, c3)
                },
            },
        },
        Opcode::Size => match context.get() {
            (Err(e), c1) => Effect { result: Err(e), heap, context: c1 },
            (Ok(addr), c1) => push_outcome(spec_object_size(heap, addr), heap, c1),
        },
        Opcode::LoadSlot => match context.get() {
            (Err(e), c1) => Effect { result: Err(e), heap, context: c1 },
            (Ok(slot), c1) => match c1.get() {
                (Err(e), c2) => Effect { result: Err(e), heap, context: c2 },
                (Ok(addr), c2) => push_outcome(rt.load_slot(addr, slot), heap, c2),
            },
        },
        Opcode::StoreSlot => match context.get() {
            (Err(e), c1) => Effect { result: Err(e), heap, context: c1 },
            (Ok(v), c1) => match c1.get() {
                (Err(e), c2) => Effect { result: Err(e), heap, context: c2 },
                (Ok(slot), c2) => match c2.get() {
                    (Err(e), c3) => Effect { result: Err(e), heap, context: c3 },
                    (Ok(addr), c3) => match rt.store_slot(addr, slot, v) {
                        (Err(e), h4) => Effect { result: Err(e), heap: h4, context: c3 },
                        (Ok(()), h4) => Effect {
                            result: Ok(Disposition::Continue),
                            heap: h4,
                            context: c3,
                        },
                    },
                },
            },
        },
        Opcode::If => match context.get() {
            (Err(e), c1) => Effect { result: Err(e), heap, context: c1 },
            (Ok(v), c1) => Effect {
                result: Ok(
                    if v == 0 {
                        Disposition::Skip
                    } else {
                        Disposition::Continue
                    },
                ),
                heap,
                context: c1,
            },
        },
        Opcode::Immediate => push_outcome(Ok(n1 as usize), heap, context),
        Opcode::Constant => push_outcome(Ok(rt.pool.addr_from_offset(n1 as u32)), heap, context),
        Opcode::LoadSlotN => match context.get() {
            (Err(e), c1) => Effect { result: Err(e), heap, context: c1 },
            (Ok(addr), c1) => push_outcome(rt.load_slot(addr, n1 as usize), heap, c1),
        },
        Opcode::StoreSlotN => match context.get() {
            (Err(e), c1) => Effect { result: Err(e), heap, context: c1 },
            (Ok(v), c1) => match c1.get() {
                (Err(e), c2) => Effect { result: Err(e), heap, context: c2 },
                (Ok(addr), c2) => match rt.store_slot(addr, n1 as usize, v) {
                    (Err(e), h3) => Effect { result: Err(e), heap: h3, context: c2 },
                    (Ok(()), h3) => Effect {
                        result: Ok(Disposition::Continue),
                        heap: h3,
                        context: c2,
                    },
                },
            },
        },
        Opcode::LoadLocalN => if (n1 as usize) >= context.frame.locals.len() {
            Effect { result: Err(ErrorCode::OutOfBounds), heap, context }
        } else {
            push_outcome(Ok(context.frame.locals[(n1 as usize) as int]), heap, context)
        },
        Opcode::StoreLocalN => if (n1 as usize) >= context.frame.locals.len() {
            Effect { result: Err(ErrorCode::OutOfBounds), heap, context }
        } else {
            match context.get() {
                (Err(e), c1) => Effect { result: Err(e), heap, context: c1 },
                (Ok(v), c1) => Effect {
                    result: Ok(Disposition::Continue),
                    heap,
                    context: c1.with_locals(c1.frame.locals.update((n1 as usize) as int, v)),
                },
            }
        },
        Opcode::LoadGlobalN => if (n1 as usize) >= rt.global_count {
            Effect { result: Err(ErrorCode::OutOfBounds), heap, context }
        } else {
            push_outcome(Ok(heap.words[rt.globals + (n1 as usize)]), heap, context)
        },
        Opcode::StoreGlobalN => if (n1 as usize) >= rt.global_count {
            Effect { result: Err(ErrorCode::OutOfBounds), heap, context }
        } else {
            match context.get() {
                (Err(e), c1) => Effect { result: Err(e), heap, context: c1 },
                (Ok(v), c1) => Effect {
                    result: Ok(Disposition::Continue),
                    heap: HeapView { words: heap.words.update(rt.globals + (n1 as usize), v), ..heap },
                    context: c1,
                },
            }
        },
        Opcode::Unary => match context.get() {
            (Err(e), c1) => Effect { result: Err(e), heap, context: c1 },
            (Ok(v), c1) => match spec_unary(Unary::spec_from_usize(n1 as usize), v as isize) {
                Err(e) => Effect { result: Err(e), heap, context: c1 },
                Ok(r) => push_outcome(Ok(r as usize), heap, c1),
            },
        },
        Opcode::Binary => match context.get() {
            (Err(e), c1) => Effect { result: Err(e), heap, context: c1 },
            (Ok(v2), c1) => match c1.get() {
                (Err(e), c2) => Effect { result: Err(e), heap, context: c2 },
                (Ok(v1), c2) => match spec_binary(
                    Binary::spec_from_usize(n1 as usize),
                    v1 as isize,
                    v2 as isize,
                ) {
                    Err(e) => Effect { result: Err(e), heap, context: c2 },
                    Ok(r) => push_outcome(Ok(r as usize), heap, c2),
                },
            },
        },
        Opcode::CallN => match context.get() {
            (Err(e), c1) => Effect { result: Err(e), heap, context: c1 },
            (Ok(addr), c1) => Effect {
                result: Ok(Disposition::Call(addr, n1 as usize)),
                heap,
                context: c1,
            },
        },
        Opcode::ReturnN => Effect { result: Ok(Disposition::Return(n1 as usize)), heap, context },
        Opcode::Jump => if 0 <= n1 <= u16::MAX {
            Effect { result: Ok(Disposition::Jump(n1 as u16)), heap, context }
        } else {
            Effect { result: Err(ErrorCode::OutOfBounds), heap, context }
        },
        Opcode::NewNN => {
            let (made, h1, c1) = spec_new_object(heap, context, n1 as usize, n2 as usize);
            push_outcome(made, h1, c1)
        },
        Opcode::Unknown => Effect { result: Err(ErrorCode::UnknownOpcode), heap, context },
    }
}

/// A run between two instructions: the memory, the chain of frames, and
/// whether the next instruction is to be passed over.
pub struct Machine {
    pub rt: RuntimeView,
    pub context: ContextView,
    pub skip: bool,
}

impl Machine {
    /// The memory is well formed and so is the chain of frames: in every
    /// frame the stack is no deeper than its code block allows, and the
    /// program counter is not past the end of the bytecode.
    pub open spec fn wf(self) -> bool {
        self.rt.wf() && self.context.wf(self.rt.pool)
    }
}

/// How a run ended: with the words that its first frame returned, or with a
/// fault; and the heap that it left.
pub struct Finish {
    pub result: Result<Seq<usize>, ErrorView>,
    pub heap: HeapView,
}

/// A run after one more instruction.
pub enum Progress {
    Running(Machine),
    Finished(Finish),
}

/// A run's end in a fault that is raised in the current frame of `context`.
pub open spec fn fault(code: ErrorCode, context: ContextView, heap: HeapView) -> Finish {
    Finish { result: Err(ErrorView { code, frames: context.trace() }), heap }
}

/// One turn of the loop, from the decoding of an instruction on. The
/// instruction at the program counter is decoded. Where the one before asked
/// for it, it is passed over. Else it is carried out, and the loop does what
/// it asks for: it goes on behind it, enters a code block, leaves the frame,
/// or jumps.
#[verifier::opaque]
pub open spec fn spec_step(m: Machine) -> Progress {
    let pool = m.rt.pool;
    match spec_decode_next(m.context.code.bytecode, m.context.frame.pc) {
        Err(e) => Progress::Finished(fault(e, m.context, m.rt.heap)),
        Ok((instruction, next_pc)) => if m.skip {
            Progress::Running(Machine { context: m.context.with_pc(next_pc), skip: false, ..m })
        } else {
            let effect = spec_execute_one(m.rt, m.context, instruction);
            let rt = m.rt.with_heap(effect.heap);
            match effect.result {
                Err(e) => Progress::Finished(fault(e, effect.context, effect.heap)),
                Ok(Disposition::Continue) => Progress::Running(
                    Machine { rt, context: effect.context.with_pc(next_pc), skip: false },
                ),
                Ok(Disposition::Skip) => Progress::Running(
                    Machine { rt, context: effect.context.with_pc(next_pc), skip: true },
                ),
                Ok(Disposition::Call(addr, count)) => match effect.context.with_pc(next_pc).push(
                    pool,
                    effect.heap,
                    addr,
                    count,
                ) {
                    (Err(e), context, heap) => Progress::Finished(fault(e, context, heap)),
                    (Ok(()), context, heap) => Progress::Running(
                        Machine { rt: m.rt.with_heap(heap), context, skip: false },
                    ),
                },
                Ok(Disposition::Return(count)) => match effect.context.pop(pool, count) {
                    (Err(e), context) => Progress::Finished(fault(e, context, effect.heap)),
                    (Ok(Some(values)), _) => Progress::Finished(
                        Finish { result: Ok(values), heap: effect.heap },
                    ),
                    (Ok(None), context) => Progress::Running(Machine { rt, context, skip: false }),
                },
                Ok(Disposition::Jump(new_pc)) => if new_pc >= effect.context.code.bytecode.len() {
                    Progress::Finished(fault(ErrorCode::OutOfBounds, effect.context, effect.heap))
                } else {
                    Progress::Running(
                        Machine { rt, context: effect.context.with_pc(new_pc), skip: false },
                    )
                },
            }
        },
    }
}

/// The run from `m` on, with `fuel` instructions left in its budget.
/// `times` holds what the clock shows at each turn from here on; it counts
/// only where a deadline is given. A turn ends the run with no result where the program counter has
/// reached the end of the bytecode; in a fault where the clock has reached
/// the deadline; in a fault where the budget is spent; and else decodes an
/// instruction, which counts against the budget whether or not it is passed
/// over.
pub open spec fn spec_run(m: Machine, fuel: nat, deadline: Option<usize>, times: Seq<usize>) -> Finish
    decreases fuel,
{
    if m.context.frame.pc == m.context.code.bytecode.len() {
        Finish { result: Ok(Seq::empty()), heap: m.rt.heap }
    } else if deadline is Some && times.len() > 0 && times[0] >= deadline->Some_0 {
        fault(ErrorCode::TimeExceeded, m.context, m.rt.heap)
    } else if fuel == 0 {
        fault(ErrorCode::CyclesExceeded, m.context, m.rt.heap)
    } else {
        match spec_step(m) {
            Progress::Finished(finish) => finish,
            Progress::Running(next) => spec_run(
                next,
                (fuel - 1) as nat,
                deadline,
                if times.len() > 0 {
                    times.drop_first()
                } else {
                    times
                },
            ),
        }
    }
}

/// Number of instructions that a run may decode: the cap where one is given,
/// and else as many as can be counted in 64 bits.
pub open spec fn spec_budget(max_cycles: Option<usize>) -> nat {
    match max_cycles {
        Some(cap) => cap as nat,
        None => u64::MAX as nat,
    }
}

/// A whole run of the code block at offset `code_offset` with the arguments
/// `args`: a first frame is made, the arguments become its first locals, and
/// the loop runs from its first instruction on.
pub open spec fn spec_execute(
    rt: RuntimeView,
    code_offset: u32,
    args: Seq<usize>,
    fuel: nat,
    deadline: Option<usize>,
    times: Seq<usize>,
) -> Finish {
    match spec_start(rt.pool, rt.heap, rt.pool.addr_from_offset(code_offset)) {
        (Err(e), heap) => Finish { result: Err(ErrorView { code: e, frames: Seq::empty() }), heap },
        (Ok(context), heap) => match context.start_locals(args) {
            (Err(e), after) => fault(e, after, heap),
            (Ok(()), after) => spec_run(
                Machine { rt: rt.with_heap(heap), context: after, skip: false },
                fuel,
                deadline,
                times,
            ),
        },
    }
}

/// The caller's buffer after a run that returned `values`: as many of them
/// as fit stand at its start, and the rest of it is as before.
pub open spec fn spec_copy_results(buffer: Seq<usize>, values: Seq<usize>) -> Seq<usize> {
    Seq::new(
        buffer.len(),
        |i: int|
            if i < values.len() {
                values[i]
            } else {
                buffer[i]
            },
    )
}

/// The place of the heap of a machine whose pool ends at `pool_end`: the
/// next block boundary.
pub open spec fn spec_heap_base(pool_end: int) -> int {
    ((pool_end + BLOCK_BYTES - 1) / BLOCK_BYTES as int) * BLOCK_BYTES
}

/// The memory of a new machine: the pool at `POOL_BASE`, a heap of
/// `heap_size` bytes behind it, and `global_count` globals, all zero, as the
/// heap's first allocation. There is no such machine where the pool, the
/// rest of its last block and the heap do not fit in the address space, or
/// the globals do not fit in the heap.
pub open spec fn spec_new_runtime(data: Seq<u8>, heap_size: usize, global_count: usize) -> Option<
    RuntimeView,
> {
    let pool = PoolView { base: POOL_BASE, data };
    let base = spec_heap_base(pool.end());
    if pool.end() + BLOCK_BYTES > usize::MAX || base + heap_size > usize::MAX {
        None
    } else {
        let heap = HeapView::empty(base as usize, heap_size);
        if heap.can_allocate(global_count) {
            Some(RuntimeView { pool, heap: heap.allocate(global_count), globals: 0, global_count })
        } else {
            None
        }
    }
}

/// What one turn of the loop gave.
#[derive(Debug)]
pub enum Step {
    /// the run goes on; the flag says whether the next instruction is to be
    /// passed over
    Running(bool),
    /// the first frame returned these words
    Returned(Vec<usize>),
    /// the run ended in this fault
    Failed(RuntimeError),
}

/// `step` is what `progress` says, where the machine after the turn has the
/// memory `rt` and the chain of frames `context`.
pub open spec fn step_matches(step: Step, progress: Progress, rt: RuntimeView, context: ContextView) -> bool {
    match progress {
        Progress::Running(m) => step matches Step::Running(skip) && m == (Machine {
            rt,
            context,
            skip,
        }),
        Progress::Finished(finish) => finish.heap == rt.heap && match finish.result {
            Ok(values) => step matches Step::Returned(returned) && returned@ == values,
            Err(error) => step matches Step::Failed(e) && e@ == error,
        },
    }
}

/// The result of `execute` and the caller's buffer after it are what
/// `finish` says.
pub open spec fn finish_matches(
    finish: Finish,
    r: Result<usize, RuntimeError>,
    heap: HeapView,
    buffer_before: Seq<usize>,
    buffer_after: Seq<usize>,
) -> bool {
    finish.heap == heap && match finish.result {
        Ok(values) => r matches Ok(count) && count == values.len() && buffer_after
            == spec_copy_results(buffer_before, values),
        Err(error) => r matches Err(e) && e@ == error && buffer_after == buffer_before,
    }
}

/// The run from `first` with the budget `total`, given the clock readings
/// `seen` and then any others, goes on as the run from `m` with the budget
/// `fuel`, given the others.
#[verifier::opaque]
spec fn run_reaches(
    first: Machine,
    total: nat,
    deadline: Option<usize>,
    seen: Seq<usize>,
    m: Machine,
    fuel: nat,
) -> bool {
    forall|rest: Seq<usize>| #[trigger]
        spec_run(first, total, deadline, seen + rest) == spec_run(m, fuel, deadline, rest)
}

proof fn lemma_reaches_start(first: Machine, total: nat, deadline: Option<usize>)
    ensures
        run_reaches(first, total, deadline, Seq::empty(), first, total),
{
    reveal(run_reaches);
    assert forall|rest: Seq<usize>| #[trigger]
        spec_run(first, total, deadline, Seq::<usize>::empty() + rest) == spec_run(
            first,
            total,
            deadline,
            rest,
        ) by {
        assert(Seq::<usize>::empty() + rest =~= rest);
    }
}

proof fn lemma_reaches_now(
    first: Machine,
    total: nat,
    deadline: Option<usize>,
    seen: Seq<usize>,
    m: Machine,
    fuel: nat,
)
    requires
        run_reaches(first, total, deadline, seen, m, fuel),
    ensures
        spec_run(first, total, deadline, seen) == spec_run(m, fuel, deadline, Seq::empty()),
{
    reveal(run_reaches);
    assert(seen + Seq::<usize>::empty() =~= seen);
}

proof fn lemma_reaches_reading(
    first: Machine,
    total: nat,
    deadline: Option<usize>,
    seen: Seq<usize>,
    m: Machine,
    fuel: nat,
    now: usize,
)
    requires
        run_reaches(first, total, deadline, seen, m, fuel),
    ensures
        spec_run(first, total, deadline, seen.push(now)) == spec_run(m, fuel, deadline, seq![now]),
{
    reveal(run_reaches);
    assert(seen + seq![now] =~= seen.push(now));
}

proof fn lemma_reaches_turn(
    first: Machine,
    total: nat,
    deadline: Option<usize>,
    seen: Seq<usize>,
    m: Machine,
    fuel: nat,
    now: usize,
    next: Machine,
)
    requires
        run_reaches(first, total, deadline, seen, m, fuel),
        m.context.frame.pc != m.context.code.bytecode.len(),
        deadline matches Some(d) ==> now < d,
        fuel > 0,
        spec_step(m) == Progress::Running(next),
    ensures
        run_reaches(first, total, deadline, seen.push(now), next, (fuel - 1) as nat),
{
    reveal(run_reaches);
    assert forall|rest: Seq<usize>| #[trigger]
        spec_run(first, total, deadline, seen.push(now) + rest) == spec_run(
            next,
            (fuel - 1) as nat,
            deadline,
            rest,
        ) by {
        let times = seq![now] + rest;
        assert(seen.push(now) + rest =~= seen + times);
        assert(times.drop_first() =~= rest);
        assert(spec_run(first, total, deadline, seen + times) == spec_run(m, fuel, deadline, times));
    }
}

/// A run without a deadline is the same whatever the clock shows.
proof fn lemma_untimed_run(m: Machine, fuel: nat, times: Seq<usize>)
    ensures
        spec_run(m, fuel, None, times) == spec_run(m, fuel, None, Seq::empty()),
    decreases fuel,
{
    if m.context.frame.pc != m.context.code.bytecode.len() && fuel > 0 {
        match spec_step(m) {
            Progress::Finished(_) => {},
            Progress::Running(next) => {
                let rest = if times.len() > 0 {
                    times.drop_first()
                } else {
                    times
                };
                lemma_untimed_run(next, (fuel - 1) as nat, rest);
            },
        }
    }
}

/// Every one of `times` is something that `clock` may show.
pub open spec fn clock_shows<F: Fn() -> usize>(clock: Option<F>, times: Seq<usize>) -> bool {
    clock matches Some(read) ==> forall|i: int|
        0 <= i < times.len() ==> call_ensures(read, (), #[trigger] times[i])
}

/// Writes as many of `values` as fit to the start of `results`.
fn copy_results(results: &mut [usize], values: &Vec<usize>)
    ensures
        final(results)@ == spec_copy_results(old(results)@, values@),
{
    let count: usize = if results.len() < values.len() {
        results.len()
    } else {
        values.len()
    };
    let mut i: usize = 0;
    while i < count
        invariant
            i <= count,
            count <= values@.len(),
            count <= results@.len(),
            count == values@.len() || count == results@.len(),
            results@.len() == old(results)@.len(),
            forall|k: int| 0 <= k < i ==> results@[k] == values@[k],
            forall|k: int| i <= k < results@.len() ==> results@[k] == old(results)@[k],
        decreases count - i,
    {
        results[i] = values[i];
        i += 1;
    }
    proof {
        assert(results@ =~= spec_copy_results(old(results)@, values@));
    }
}

/// The machine: a constant pool, a heap with the globals in it, and a clock
/// if the host has one.
pub struct Runtime<'rom, F: Fn() -> usize> {
    pub constant_pool: ConstantPool<'rom>,
    pub heap: Heap,
    /// index in the heap of the word that holds the first global
    pub globals: usize,
    pub global_count: usize,
    pub current_time: Option<F>,
}

impl<'rom, F: Fn() -> usize> View for Runtime<'rom, F> {
    type V = RuntimeView;

    open spec fn view(&self) -> RuntimeView {
        RuntimeView {
            pool: self.constant_pool@,
            heap: self.heap@,
            globals: self.globals,
            global_count: self.global_count,
        }
    }
}

impl<'rom, F: Fn() -> usize> Runtime<'rom, F> {
    /// The memory is well formed, and the clock can be read at any time.
    pub open spec fn wf(&self) -> bool {
        &&& self@.wf()
        &&& self.heap.wf()
        &&& self.current_time matches Some(clock) ==> call_requires(clock, ())
    }

    /// A machine with the constant pool `constant_pool_data`, a heap of
    /// `heap_size` bytes, `global_count` globals, and the clock
    /// `current_time` if there is one. The only fault is `OutOfMemory`.
    pub fn new(
        constant_pool_data: &'rom [u8],
        heap_size: usize,
        global_count: usize,
        current_time: Option<F>,
    ) -> (r: Result<Runtime<'rom, F>, RuntimeError>)
        requires
            current_time matches Some(clock) ==> call_requires(clock, ()),
        ensures
            match r {
                Ok(runtime) => {
                    &&& runtime.wf()
                    &&& spec_new_runtime(constant_pool_data@, heap_size, global_count) == Some(
                        runtime@,
                    )
                    &&& runtime.current_time == current_time
                },
                Err(e) => {
                    &&& spec_new_runtime(constant_pool_data@, heap_size, global_count) is None
                    &&& e@ == (ErrorView { code: ErrorCode::OutOfMemory, frames: Seq::empty() })
                },
            },
    {
        if constant_pool_data.len() > usize::MAX - POOL_BASE - BLOCK_BYTES {
            return Err(RuntimeError::new(ErrorCode::OutOfMemory));
        }
        let constant_pool = ConstantPool::new(constant_pool_data);
        let pool_end: usize = POOL_BASE + constant_pool_data.len();
        let base: usize = ((pool_end + (BLOCK_BYTES - 1)) / BLOCK_BYTES) * BLOCK_BYTES;
        assert(base == spec_heap_base(pool_end as int));
        assert(pool_end <= base && base % BLOCK_BYTES == 0);
        let mut heap = match Heap::new(base, heap_size) {
            Some(heap) => heap,
            None => {
                return Err(RuntimeError::new(ErrorCode::OutOfMemory));
            },
        };
        // the globals are just an object in the heap
        match heap.allocate_array(global_count) {
            Some(_) => {},
            None => {
                return Err(RuntimeError::new(ErrorCode::OutOfMemory));
            },
        }
        proof {
            lemma_rounded_words(global_count as int);
        }
        Ok(Runtime { constant_pool, heap, globals: 0, global_count, current_time })
    }

    /// Runs the code block at offset `code_offset` of the constant pool with
    /// the arguments `args`, until it returns, faults, or exhausts its
    /// budget: `max_cycles` decoded instructions where that is given, and
    /// else as many as can be counted in 64 bits. Where a deadline and a
    /// clock are given, the clock is read before every instruction, and the
    /// run ends in a fault as soon as it shows the deadline or more. The
    /// result is the number of words that the code block returned; as many
    /// of them as fit are written to the start of `results`.
    pub fn execute(
        &mut self,
        code_offset: u32,
        args: &[usize],
        results: &mut [usize],
        max_cycles: Option<usize>,
        deadline: Option<usize>,
    ) -> (r: Result<usize, RuntimeError>)
        requires
            old(self).wf(),
        ensures
            final(self).wf(),
            final(self)@ == old(self)@.with_heap(final(self)@.heap),
            final(self).current_time == old(self).current_time,
            old(self).current_time is None || deadline is None ==> finish_matches(
                spec_execute(
                    old(self)@,
                    code_offset,
                    args@,
                    spec_budget(max_cycles),
                    None,
                    Seq::empty(),
                ),
                r,
                final(self)@.heap,
                old(results)@,
                final(results)@,
            ),
            old(self).current_time is Some && deadline is Some ==> exists|times: Seq<usize>|
                finish_matches(
                    #[trigger] spec_execute(
                        old(self)@,
                        code_offset,
                        args@,
                        spec_budget(max_cycles),
                        deadline,
                        times,
                    ),
                    r,
                    final(self)@.heap,
                    old(results)@,
                    final(results)@,
                ) && clock_shows(old(self).current_time, times),
    {
        let timed: bool = deadline.is_some() && self.current_time.is_some();
        let ghost total = spec_budget(max_cycles);
        let ghost due: Option<usize> = if timed {
            deadline
        } else {
            None
        };
        let code_addr = self.constant_pool.addr_from_offset(code_offset);
        let mut context = match RuntimeContext::start(&self.constant_pool, &mut self.heap, code_addr) {
            Ok(context) => context,
            Err(e) => {
                let error = RuntimeError::new(e);
                proof {
                    let finish = spec_execute(old(self)@, code_offset, args@, total, due, Seq::empty());
                    assert(finish_matches(finish, Err(error), self@.heap, old(results)@, results@));
                }
                return Err(error);
            },
        };
        match context.start_locals(args) {
            Ok(()) => {},
            Err(e) => {
                let error = RuntimeError::from(e, &context);
                proof {
                    let finish = spec_execute(old(self)@, code_offset, args@, total, due, Seq::empty());
                    assert(finish_matches(finish, Err(error), self@.heap, old(results)@, results@));
                }
                return Err(error);
            },
        }
        let limit: usize = match deadline {
            Some(limit) => limit,
            None => 0,
        };
        let mut skip = false;
        let mut remaining: u64 = match max_cycles {
            Some(cap) => cap as u64,
            None => u64::MAX,
        };
        let ghost first = Machine { rt: self@, context: context@, skip: false };
        let ghost mut seen: Seq<usize> = Seq::empty();
        proof {
            lemma_reaches_start(first, total, due);
        }
        loop
            invariant
                self.wf(),
                context.wf(self@.pool),
                self@ == old(self)@.with_heap(self@.heap),
                self.current_time == old(self).current_time,
                results@ == old(results)@,
                timed == (deadline is Some && self.current_time is Some),
                total == spec_budget(max_cycles),
                due == (if timed {
                    deadline
                } else {
                    None
                }),
                deadline matches Some(d) ==> limit == d,
                forall|times: Seq<usize>|
                    #![trigger spec_execute(old(self)@, code_offset, args@, total, due, times)]
                    spec_execute(old(self)@, code_offset, args@, total, due, times) == spec_run(
                        first,
                        total,
                        due,
                        times,
                    ),
                run_reaches(
                    first,
                    total,
                    due,
                    seen,
                    Machine { rt: self@, context: context@, skip },
                    remaining as nat,
                ),
                timed ==> clock_shows(self.current_time, seen),
            decreases remaining,
        {
            let ghost here = Machine { rt: self@, context: context@, skip };
            let ghost fuel = remaining as nat;
            if context.frame.pc as usize == context.code.bytecode.len() {
                // ran out of bytecode: nothing to return
                proof {
                    lemma_reaches_now(first, total, due, seen, here, fuel);
                    assert(spec_copy_results(results@, Seq::empty()) =~= results@);
                    let finish = spec_execute(old(self)@, code_offset, args@, total, due, seen);
                    assert(finish_matches(finish, Ok(0), self@.heap, old(results)@, results@));
                    if !timed {
                        lemma_untimed_run(first, total, seen);
                    }
                }
                return Ok(0);
            }
            let now: usize = if timed {
                match &self.current_time {
                    Some(clock) => clock(),
                    None => 0,
                }
            } else {
                0
            };
            let ghost seen_before = seen;
            proof {
                lemma_reaches_reading(first, total, due, seen, here, fuel, now);
                seen = seen.push(now);
                if !timed {
                    lemma_untimed_run(first, total, seen);
                }
            }
            let ghost finish = spec_execute(old(self)@, code_offset, args@, total, due, seen);
            assert(finish == spec_run(here, fuel, due, seq![now]));
            if timed && now >= limit {
                let error = RuntimeError::from(ErrorCode::TimeExceeded, &context);
                proof {
                    assert(finish_matches(finish, Err(error), self@.heap, old(results)@, results@));
                }
                return Err(error);
            }
            if remaining == 0 {
                let error = RuntimeError::from(ErrorCode::CyclesExceeded, &context);
                proof {
                    assert(finish_matches(finish, Err(error), self@.heap, old(results)@, results@));
                }
                return Err(error);
            }
            match self.step(&mut context, skip) {
                Step::Running(next_skip) => {
                    proof {
                        lemma_reaches_turn(
                            first,
                            total,
                            due,
                            seen_before,
                            here,
                            fuel,
                            now,
                            Machine { rt: self@, context: context@, skip: next_skip },
                        );
                    }
                    skip = next_skip;
                    remaining -= 1;
                },
                Step::Returned(values) => {
                    copy_results(results, &values);
                    let count = values.len();
                    proof {
                        assert(spec_step(here) matches Progress::Finished(done) && finish == done);
                        assert(finish_matches(finish, Ok(count), self@.heap, old(results)@, results@));
                    }
                    return Ok(count);
                },
                Step::Failed(error) => {
                    proof {
                        assert(spec_step(here) matches Progress::Finished(done) && finish == done);
                        assert(finish_matches(
                            finish,
                            Err(error),
                            self@.heap,
                            old(results)@,
                            results@,
                        ));
                    }
                    return Err(error);
                },
            }
        }
    }

    /// One turn of the loop, from the decoding of an instruction on: decodes
    /// the instruction at the program counter of the current frame and, unless
    /// `skip` says to pass over it, carries it out and does what it asks for.
    #[verifier::rlimit(30)]
    pub fn step(&mut self, context: &mut RuntimeContext<'rom>, skip: bool) -> (r: Step)
        requires
            old(self).wf(),
            old(context).wf(old(self)@.pool),
        ensures
            final(self).wf(),
            final(context).wf(final(self)@.pool),
            final(self)@ == old(self)@.with_heap(final(self)@.heap),
            final(self).current_time == old(self).current_time,
            step_matches(
                r,
                spec_step(Machine { rt: old(self)@, context: old(context)@, skip }),
                final(self)@,
                final(context)@,
            ),
    {
        proof {
            reveal(spec_step);
        }
        let (instruction, next_pc) = match decode_next(context.code.bytecode, context.frame.pc) {
            Ok(decoded) => decoded,
            Err(e) => {
                return Step::Failed(RuntimeError::from(e, context));
            },
        };
        if skip {
            context.frame.pc = next_pc;
            return Step::Running(false);
        }
        let disposition = match self.execute_one(instruction, context) {
            Ok(disposition) => disposition,
            Err(e) => {
                return Step::Failed(RuntimeError::from(e, context));
            },
        };
        match disposition {
            Disposition::Continue => {
                context.frame.pc = next_pc;
                Step::Running(false)
            },
            Disposition::Skip => {
                context.frame.pc = next_pc;
                Step::Running(true)
            },
            Disposition::Call(addr, count) => {
                context.frame.pc = next_pc;
                match context.push(&self.constant_pool, &mut self.heap, addr, count) {
                    Ok(()) => Step::Running(false),
                    Err(e) => Step::Failed(RuntimeError::from(e, context)),
                }
            },
            Disposition::Return(count) => {
                match context.pop(&self.constant_pool, count) {
                    Ok(PreviousContext::Done(values)) => Step::Returned(values),
                    Ok(PreviousContext::Frame) => Step::Running(false),
                    Err(e) => Step::Failed(RuntimeError::from(e, context)),
                }
            },
            Disposition::Jump(new_pc) => {
                if new_pc as usize >= context.code.bytecode.len() {
                    return Step::Failed(RuntimeError::from(ErrorCode::OutOfBounds, context));
                }
                context.frame.pc = new_pc;
                Step::Running(false)
            },
        }
    }

    /// Carries out one instruction in the current frame of `context`. The
    /// program counter is left to the caller, who knows where the next
    /// instruction starts.
    pub fn execute_one(&mut self, instruction: Instruction, context: &mut RuntimeContext<'rom>) -> (r:
        Result<Disposition, ErrorCode>)
        requires
            old(self).wf(),
            old(context).frame.wf(),
        ensures
            final(self).wf(),
            final(context).frame.wf(),
            final(context).callers == old(context).callers,
            final(context).code == old(context).code,
            old(context)@.same_shape(final(context)@),
            final(self)@ == old(self)@.with_heap(final(self)@.heap),
            final(self).current_time == old(self).current_time,
            (Effect { result: r, heap: final(self)@.heap, context: final(context)@ })
                == spec_execute_one(old(self)@, old(context)@, instruction),
    {
        let n1: usize = #[verifier::truncate] (instruction.n1 as usize);
        match instruction.opcode {
            // no immediates:
            Opcode::Break => {
                return Err(ErrorCode::Break);
            },
            Opcode::Nop => {
                // nothing
            },
            Opcode::Dup => {
                let v = context.get()?;
                context.put(v)?;
                context.put(v)?;
            },
            Opcode::Drop => {
                context.get()?;
            },
            Opcode::Call => {
                let count = context.get()?;
                let addr = context.get()?;
                return Ok(Disposition::Call(addr, count));
            },
            Opcode::Return => {
                let count = context.get()?;
                return Ok(Disposition::Return(count));
            },
            Opcode::New => {
                let fill = context.get()?;
                let slots = context.get()?;
                let obj = self.new_object(slots, fill, context)?;
                context.put(obj)?;
            },
            Opcode::Size => {
                let addr = context.get()?;
                let size = self.object_size(addr)?;
                context.put(size)?;
            },
            Opcode::LoadSlot => {
                let slot = context.get()?;
                let addr = context.get()?;
                let v = self.load_slot(addr, slot)?;
                context.put(v)?;
            },
            Opcode::StoreSlot => {
                let v = context.get()?;
                let slot = context.get()?;
                let addr = context.get()?;
                self.store_slot(addr, slot, v)?;
            },
            Opcode::If => {
                if context.get()? == 0 {
                    return Ok(Disposition::Skip);
                }
            },
            // one immediate:
            Opcode::Immediate => {
                context.put(n1)?;
            },
            Opcode::Constant => {
                let offset: u32 = #[verifier::truncate] (instruction.n1 as u32);
                context.put(self.constant_pool.addr_from_offset(offset))?;
            },
            Opcode::LoadSlotN => {
                let addr = context.get()?;
                let v = self.load_slot(addr, n1)?;
                context.put(v)?;
            },
            Opcode::StoreSlotN => {
                let v = context.get()?;
                let addr = context.get()?;
                self.store_slot(addr, n1, v)?;
            },
            Opcode::LoadLocalN => {
                if n1 >= context.frame.locals.len() {
                    return Err(ErrorCode::OutOfBounds);
                }
                let v = context.frame.locals[n1];
                context.put(v)?;
            },
            Opcode::StoreLocalN => {
                if n1 >= context.frame.locals.len() {
                    return Err(ErrorCode::OutOfBounds);
                }
                let v = context.get()?;
                context.frame.locals[n1] = v;
            },
            Opcode::LoadGlobalN => {
                if n1 >= self.global_count {
                    return Err(ErrorCode::OutOfBounds);
                }
                let v = self.heap.words[self.globals + n1];
                context.put(v)?;
            },
            Opcode::StoreGlobalN => {
                if n1 >= self.global_count {
                    return Err(ErrorCode::OutOfBounds);
                }
                let v = context.get()?;
                self.heap.words[self.globals + n1] = v;
            },
            Opcode::Unary => {
                let v = context.get()?;
                let op = Unary::from_usize(n1);
                let r = self.unary(op, #[verifier::truncate] (v as isize))?;
                context.put(#[verifier::truncate] (r as usize))?;
            },
            Opcode::Binary => {
                let v2 = context.get()?;
                let v1 = context.get()?;
                let op = Binary::from_usize(n1);
                let r = self.binary(
                    op,
                    #[verifier::truncate] (v1 as isize),
                    #[verifier::truncate] (v2 as isize),
                )?;
                context.put(#[verifier::truncate] (r as usize))?;
            },
            Opcode::CallN => {
                let addr = context.get()?;
                return Ok(Disposition::Call(addr, n1));
            },
            Opcode::ReturnN => {
                return Ok(Disposition::Return(n1));
            },
            Opcode::Jump => {
                if instruction.n1 < 0 || instruction.n1 > u16::MAX as isize {
                    return Err(ErrorCode::OutOfBounds);
                }
                return Ok(Disposition::Jump(instruction.n1 as u16));
            },
            // two immediates:
            Opcode::NewNN => {
                let fill: usize = #[verifier::truncate] (instruction.n2 as usize);
                let obj = self.new_object(n1, fill, context)?;
                context.put(obj)?;
            },
            _ => {
                return Err(ErrorCode::UnknownOpcode);
            },
        }
        Ok(Disposition::Continue)
    }

    /// Number of slots of the object that holds the byte at `addr`.
    pub fn object_size(&self, addr: usize) -> (r: Result<usize, ErrorCode>)
        requires
            self.wf(),
        ensures
            r == spec_object_size(self@.heap, addr),
    {
        match self.heap.size_of_ptr(addr) {
            Some(words) => Ok(words),
            // only heap addresses have a size
            None => Err(ErrorCode::InvalidAddress),
        }
    }

    /// The word in slot `slot` of the object at `addr`.
    pub fn load_slot(&self, addr: usize, slot: usize) -> (r: Result<usize, ErrorCode>)
        requires
            self.wf(),
        ensures
            r == self@.load_slot(addr, slot),
    {
        // must be aligned
        let slot_addr = addr.wrapping_add(slot.wrapping_mul(word_bytes()));
        if !is_word_multiple(slot_addr) {
            return Err(ErrorCode::Unaligned);
        }
        match self.constant_pool.safe_ref(slot_addr) {
            Some(word) => Ok(word),
            None => match self.heap.safe_ref(slot_addr) {
                Some(word) => Ok(word),
                None => Err(ErrorCode::InvalidAddress),
            },
        }
    }

    /// Writes `value` to slot `slot` of the object at `addr`.
    pub fn store_slot(&mut self, addr: usize, slot: usize, value: usize) -> (r: Result<(), ErrorCode>)
        requires
            old(self).wf(),
        ensures
            final(self).wf(),
            (r, final(self)@.heap) == old(self)@.store_slot(addr, slot, value),
            final(self)@ == old(self)@.with_heap(final(self)@.heap),
            final(self).current_time == old(self).current_time,
    {
        // must be a heap address, and aligned
        let slot_addr = addr.wrapping_add(slot.wrapping_mul(word_bytes()));
        if !is_word_multiple(slot_addr) {
            return Err(ErrorCode::Unaligned);
        }
        if self.heap.safe_set(slot_addr, value) {
            Ok(())
        } else {
            Err(ErrorCode::InvalidAddress)
        }
    }

    /// Allocates an object of `slots` slots and fills its first `from_stack`
    /// slots from the stack. The result is the object's address.
    pub fn new_object(&mut self, slots: usize, from_stack: usize, context: &mut RuntimeContext<'rom>) -> (r:
        Result<usize, ErrorCode>)
        requires
            old(self).wf(),
            old(context).frame.wf(),
        ensures
            final(self).wf(),
            final(context).frame.wf(),
            final(context).callers == old(context).callers,
            final(context).code == old(context).code,
            old(context)@.same_shape(final(context)@),
            (r, final(self)@.heap, final(context)@) == spec_new_object(
                old(self)@.heap,
                old(context)@,
                slots,
                from_stack,
            ),
            final(self)@ == old(self)@.with_heap(final(self)@.heap),
            final(self).current_time == old(self).current_time,
    {
        if slots > MAX_OBJECT_SLOTS {
            return Err(ErrorCode::InvalidSize);
        }
        if from_stack > slots {
            return Err(ErrorCode::OutOfBounds);
        }
        let obj = match self.heap.allocate_array(slots) {
            Some(obj) => obj,
            None => {
                return Err(ErrorCode::OutOfMemory);
            },
        };
        let fields = match context.get_n(from_stack) {
            Ok(fields) => fields,
            Err(e) => {
                return Err(e);
            },
        };
        let filled = self.heap.write_words(obj, fields.as_slice());
        assert(filled) by {
            lemma_allocate_wf(old(self)@.heap, slots);
            lemma_rounded_words(slots as int);
        }
        Ok(obj)
    }

    /// Applies a unary operation.
    pub fn unary(&self, op: Unary, n1: isize) -> (r: Result<isize, ErrorCode>)
        ensures
            r == spec_unary(op, n1),
    {
        match op {
            Unary::Not => Ok(
                if n1 == 0 {
                    1
                } else {
                    0
                },
            ),
            Unary::Negative => Ok(0isize.wrapping_sub(n1)),
            Unary::BitNot => Ok(!n1),
            _ => Err(ErrorCode::UnknownOpcode),
        }
    }

    /// Applies a binary operation.
    pub fn binary(&self, op: Binary, n1: isize, n2: isize) -> (r: Result<isize, ErrorCode>)
        ensures
            r == spec_binary(op, n1, n2),
    {
        match op {
            Binary::Add => Ok(n1.wrapping_add(n2)),
            Binary::Subtract => Ok(n1.wrapping_sub(n2)),
            Binary::Multiply => Ok(n1.wrapping_mul(n2)),
            Binary::Divide => {
                if n2 == 0 {
                    return Err(ErrorCode::OutOfBounds);
                }
                let q: usize = magnitude(n1) / magnitude(n2);
                Ok(signed((n1 >= 0) != (n2 >= 0), q))
            },
            Binary::Modulo => {
                if n2 == 0 {
                    return Err(ErrorCode::OutOfBounds);
                }
                let m: usize = magnitude(n1) % magnitude(n2);
                Ok(signed(n1 < 0, m))
            },
            Binary::Equals => Ok(
                if n1 == n2 {
                    1
                } else {
                    0
                },
            ),
            Binary::LessThan => Ok(
                if n1 < n2 {
                    1
                } else {
                    0
                },
            ),
            Binary::LessOrEqual => Ok(
                if n1 <= n2 {
                    1
                } else {
                    0
                },
            ),
            Binary::BitOr => Ok(n1 | n2),
            Binary::BitAnd => Ok(n1 & n2),
            Binary::BitXor => Ok(n1 ^ n2),
            Binary::ShiftLeft => {
                if n2 < 0 || n2 >= usize::BITS as isize {
                    return Err(ErrorCode::OutOfBounds);
                }
                Ok(n1 << (n2 as usize))
            },
            Binary::ShiftRight => {
                if n2 < 0 || n2 >= usize::BITS as isize {
                    return Err(ErrorCode::OutOfBounds);
                }
                Ok(#[verifier::truncate] (((#[verifier::truncate] (n1 as usize)) >> (n2 as usize)) as isize))
            },
            Binary::SignShiftRight => {
                if n2 < 0 || n2 >= usize::BITS as isize {
                    return Err(ErrorCode::OutOfBounds);
                }
                Ok(n1 >> (n2 as usize))
            },
            _ => Err(ErrorCode::UnknownOpcode),
        }
    }
}

} // verus!
