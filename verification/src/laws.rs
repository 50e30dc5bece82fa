//! What holds of every run, stated over the machine as a plain value.

use vstd::prelude::*;
use crate::constant_pool::PoolView;
use crate::decode_int::{lemma_varint_last_bounds, varint_length};
use crate::disassembler::{encoded_len, spec_decode_next, Instruction};
use crate::error::ErrorCode;
use crate::heap::{lemma_allocate_wf, lemma_rounded_words, HeapView};
use crate::opcode::{immediate_count, Binary, Opcode, Unary};
use crate::runtime::{
    slot_address, spec_binary, spec_execute_one, spec_new_object, spec_step, spec_unary,
    Disposition, Effect, Machine, Progress, RuntimeView, MAX_OBJECT_SLOTS,
};
use crate::stack_frame::{frame_words, lemma_pop_wf, lemma_push_wf, spec_start, ContextView};
use crate::word::{bytes_of, bytes_past_word, word_size};

verus! {

/// `BINARY(Add)` and then `BINARY(Subtract)` with the same second operand
/// gives the first operand back.
pub proof fn lemma_add_then_subtract(a: isize, b: isize)
    ensures
        spec_binary(Binary::Add, a, b) is Ok,
        spec_binary(Binary::Subtract, spec_binary(Binary::Add, a, b)->Ok_0, b) == Ok::<
            isize,
            ErrorCode,
        >(a),
{
}

/// `UNARY(Not)` gives 0 or 1 whatever it is applied to, and applied twice to
/// one of its results it gives that result back.
pub proof fn lemma_not_twice(x: isize)
    ensures
        spec_unary(Unary::Not, x) is Ok,
        ({
            let once = spec_unary(Unary::Not, x)->Ok_0;
            let twice = spec_unary(Unary::Not, once)->Ok_0;
            &&& once == 0 || once == 1
            &&& twice == 0 || twice == 1
            &&& spec_unary(Unary::Not, twice) == Ok::<isize, ErrorCode>(once)
        }),
{
}

/// A word read as a signed number and written back as a word is the word
/// that it was, and so the other way round.
pub proof fn lemma_word_round_trip(word: usize, number: isize)
    ensures
        (word as isize) as usize == word,
        (number as usize) as isize == number,
        (word as isize == 0) == (word == 0),
        0isize as usize == 0,
        1isize as usize == 1,
{
    assert((word as isize) as usize == word) by (bit_vector);
    assert((number as usize) as isize == number) by (bit_vector);
    assert((word as isize == 0) == (word == 0)) by (bit_vector);
    assert(0isize as usize == 0) by (bit_vector);
    assert(1isize as usize == 1) by (bit_vector);
}

/// The instruction `UNARY(Not)` replaces the word on top of the stack by 1
/// where it is 0, and by 0 where it is anything else.
pub proof fn lemma_not_instruction(rt: RuntimeView, context: ContextView, not: Instruction)
    requires
        not.opcode == Opcode::Unary,
        Unary::spec_from_usize(not.n1 as usize) == Unary::Not,
        0 < context.frame.stack.len() <= context.frame.max_stack,
    ensures
        spec_execute_one(rt, context, not) == (Effect {
            result: Ok(Disposition::Continue),
            heap: rt.heap,
            context: context.with_stack(
                context.frame.stack.drop_last().push(
                    if context.frame.stack.last() == 0 {
                        1usize
                    } else {
                        0usize
                    },
                ),
            ),
        }),
{
    lemma_word_round_trip(context.frame.stack.last(), 0);
}

/// The instructions `BINARY(Add)` and then, with the second operand pushed
/// again, `BINARY(Subtract)` leave the first operand where it was.
pub proof fn lemma_add_then_subtract_instructions(
    rt: RuntimeView,
    context: ContextView,
    add: Instruction,
    subtract: Instruction,
)
    requires
        add.opcode == Opcode::Binary,
        Binary::spec_from_usize(add.n1 as usize) == Binary::Add,
        subtract.opcode == Opcode::Binary,
        Binary::spec_from_usize(subtract.n1 as usize) == Binary::Subtract,
        2 <= context.frame.stack.len() <= context.frame.max_stack,
    ensures
        ({
            let stack = context.frame.stack;
            let second = stack.last();
            let added = spec_execute_one(rt, context, add);
            let again = added.context.put(second).1;
            let subtracted = spec_execute_one(rt, again, subtract);
            &&& added.result == Ok::<Disposition, ErrorCode>(Disposition::Continue)
            &&& added.context.put(second).0 is Ok
            &&& subtracted.result == Ok::<Disposition, ErrorCode>(Disposition::Continue)
            &&& subtracted.context == context.with_stack(stack.drop_last())
            &&& subtracted.heap == rt.heap
        }),
{
    let stack = context.frame.stack;
    let first = stack[stack.len() - 2];
    let second = stack.last();
    let sum = spec_binary(Binary::Add, first as isize, second as isize)->Ok_0;
    lemma_add_then_subtract(first as isize, second as isize);
    lemma_word_round_trip(first, sum);
    lemma_word_round_trip(second, 0);
    let added = spec_execute_one(rt, context, add);
    let rest = stack.drop_last().drop_last();
    assert(added.context.frame.stack =~= rest.push(sum as usize));
    let again = added.context.put(second).1;
    assert(again.frame.stack =~= rest.push(sum as usize).push(second));
    assert(again.frame.stack.drop_last().drop_last() =~= rest);
    assert(rest.push(first) =~= stack.drop_last());
}

/// `DUP` and then `DROP` leaves the chain of frames and the heap as they
/// were, wherever `DUP` succeeds.
pub proof fn lemma_dup_then_drop(rt: RuntimeView, context: ContextView, dup: Instruction, drop: Instruction)
    requires
        dup.opcode == Opcode::Dup,
        drop.opcode == Opcode::Drop,
        spec_execute_one(rt, context, dup).result is Ok,
    ensures
        ({
            let first = spec_execute_one(rt, context, dup);
            let second = spec_execute_one(rt.with_heap(first.heap), first.context, drop);
            &&& first.result == Ok::<Disposition, ErrorCode>(Disposition::Continue)
            &&& second.result == Ok::<Disposition, ErrorCode>(Disposition::Continue)
            &&& second.context == context
            &&& second.heap == rt.heap
        }),
{
    let first = spec_execute_one(rt, context, dup);
    let stack = context.frame.stack;
    let v = stack.last();
    assert(stack.drop_last().push(v) =~= stack);
    assert(stack.push(v).drop_last() =~= stack);
}

/// A store to a word-aligned address in the constant pool fails with
/// `InvalidAddress` and leaves the heap as it was.
pub proof fn lemma_store_into_pool(rt: RuntimeView, addr: usize, slot: usize, value: usize)
    requires
        rt.wf(),
        rt.pool.contains_range(slot_address(addr, slot), 1),
        bytes_past_word(slot_address(addr, slot) as int) == 0,
    ensures
        rt.store_slot(addr, slot, value) == (Err::<(), ErrorCode>(ErrorCode::InvalidAddress), rt.heap),
{
}

/// `STORE_SLOT` and `STORE_SLOT_N` to a word-aligned address in the constant
/// pool fail with `InvalidAddress` and leave the heap as it was.
pub proof fn lemma_store_instruction_into_pool(rt: RuntimeView, context: ContextView, store: Instruction)
    requires
        rt.wf(),
        store.opcode == Opcode::StoreSlot || store.opcode == Opcode::StoreSlotN,
        ({
            let stack = context.frame.stack;
            let target = if store.opcode == Opcode::StoreSlot {
                slot_address(stack[stack.len() - 3], stack[stack.len() - 2])
            } else {
                slot_address(stack[stack.len() - 2], store.n1 as usize)
            };
            &&& stack.len() >= (if store.opcode == Opcode::StoreSlot {
                3int
            } else {
                2int
            })
            &&& rt.pool.contains_range(target, 1)
            &&& bytes_past_word(target as int) == 0
        }),
    ensures
        spec_execute_one(rt, context, store).result == Err::<Disposition, ErrorCode>(
            ErrorCode::InvalidAddress,
        ),
        spec_execute_one(rt, context, store).heap == rt.heap,
{
}

/// The address of a slot, where the arithmetic does not wrap.
pub proof fn lemma_slot_address(addr: usize, slot: usize)
    requires
        addr + bytes_of(slot as int) <= usize::MAX,
    ensures
        slot_address(addr, slot) == addr + bytes_of(slot as int),
{
    let width = word_size() as usize;
    assert(slot as nat * width as nat == bytes_of(slot as int)) by (nonlinear_arith)
        requires
            width == 4 || width == 8,
            bytes_of(slot as int) == width * slot,
    ;
    vstd::arithmetic::div_mod::lemma_small_mod(
        (slot as nat * width as nat) as nat,
        (usize::MAX - usize::MIN + 1) as nat,
    );
}

/// After `NEW` has made an object of `slots` slots and filled `from_stack`
/// of them from the stack, each of the first `from_stack` slots holds the
/// word that was pushed as that many before the last of them, and each of
/// the others holds 0.
pub proof fn lemma_new_object_slots(
    rt: RuntimeView,
    context: ContextView,
    slots: usize,
    from_stack: usize,
    i: usize,
)
    requires
        rt.wf(),
        spec_new_object(rt.heap, context, slots, from_stack).0 is Ok,
        i < slots,
    ensures
        ({
            let (made, heap, _) = spec_new_object(rt.heap, context, slots, from_stack);
            let stack = context.frame.stack;
            rt.with_heap(heap).load_slot(made->Ok_0, i) == Ok::<usize, ErrorCode>(
                if i < from_stack {
                    stack[stack.len() - from_stack + i]
                } else {
                    0
                },
            )
        }),
{
    let (made, heap, _) = spec_new_object(rt.heap, context, slots, from_stack);
    let addr = made->Ok_0;
    let start = rt.heap.used();
    lemma_rounded_words(slots as int);
    assert(addr == rt.heap.base + bytes_of(start));
    lemma_slot_address(addr, i);
    let slot_addr = slot_address(addr, i);
    assert(heap.index_of(slot_addr) == start + i);
    assert(heap.index_of(addr) == start);
}

/// A call and the return that matches it amount to pushing the returned
/// words onto the caller's stack. `callee` is any state of the frame that
/// the call entered; the chain of frames below it is as the call left it.
pub proof fn lemma_call_then_return(
    pool: PoolView,
    heap: HeapView,
    context: ContextView,
    code_addr: usize,
    arg_count: usize,
    callee: ContextView,
    return_count: usize,
)
    requires
        context.wf(pool),
        context.push(pool, heap, code_addr, arg_count).0 is Ok,
        callee.callers == context.push(pool, heap, code_addr, arg_count).1.callers,
        callee.get_n(return_count).0 is Ok,
        return_count <= context.get_n(arg_count).1.room(),
    ensures
        ({
            let caller = context.get_n(arg_count).1;
            let values = callee.get_n(return_count).0->Ok_0;
            &&& caller.put_n(values).0 is Ok
            &&& callee.pop(pool, return_count) == (
                Ok::<Option<Seq<usize>>, ErrorCode>(None),
                caller.put_n(values).1,
            )
        }),
{
    let caller = context.get_n(arg_count).1;
    assert(caller.callers.push(caller.frame).drop_last() =~= caller.callers);
}

/// What `spec_decode_next` gives as the next index is the index of the
/// instruction plus the number of bytes that the instruction takes.
pub proof fn lemma_decoded_length(bytes: Seq<u8>, index: u16)
    requires
        bytes.len() <= usize::MAX,
        spec_decode_next(bytes, index) is Ok,
    ensures
        spec_decode_next(bytes, index)->Ok_0.1 == index + encoded_len(bytes, index as int),
{
    lemma_varint_last_bounds(bytes, index + 1);
    if immediate_count(bytes[index as int]) == 2 {
        lemma_varint_last_bounds(bytes, index + 1 + varint_length(bytes, index + 1));
    }
}

/// `IF` pops one word and does nothing else but to ask, where the word is 0,
/// that the next instruction be passed over.
pub proof fn lemma_if_takes_one(m: Machine)
    requires
        !m.skip,
        spec_decode_next(m.context.code.bytecode, m.context.frame.pc) is Ok,
        spec_decode_next(m.context.code.bytecode, m.context.frame.pc)->Ok_0.0.opcode == Opcode::If,
        m.context.frame.stack.len() > 0,
    ensures
        spec_step(m) == Progress::Running(
            Machine {
                rt: m.rt,
                context: m.context.with_stack(m.context.frame.stack.drop_last()).with_pc(
                    spec_decode_next(m.context.code.bytecode, m.context.frame.pc)->Ok_0.1,
                ),
                skip: m.context.frame.stack.last() == 0,
            },
        ),
{
    reveal(spec_step);
}

/// An instruction that is passed over changes nothing but the program
/// counter, whatever it is and however long, and the one after it is not
/// passed over.
pub proof fn lemma_skip_passes_one(m: Machine)
    requires
        m.skip,
        spec_decode_next(m.context.code.bytecode, m.context.frame.pc) is Ok,
    ensures
        spec_step(m) == Progress::Running(
            Machine {
                rt: m.rt,
                context: m.context.with_pc(
                    spec_decode_next(m.context.code.bytecode, m.context.frame.pc)->Ok_0.1,
                ),
                skip: false,
            },
        ),
{
    reveal(spec_step);
}

/// A turn of the loop that ends neither in a call, nor in a return, nor in a
/// jump moves the program counter on by the length of the instruction.
pub proof fn lemma_step_advances(m: Machine)
    requires
        m.wf(),
        spec_step(m) is Running,
        spec_decode_next(m.context.code.bytecode, m.context.frame.pc) is Ok,
        ({
            let instruction = spec_decode_next(m.context.code.bytecode, m.context.frame.pc)->Ok_0.0;
            let result = spec_execute_one(m.rt, m.context, instruction).result;
            m.skip || result == Ok::<Disposition, ErrorCode>(Disposition::Continue) || result == Ok::<
                Disposition,
                ErrorCode,
            >(Disposition::Skip)
        }),
    ensures
        spec_step(m)->Running_0.context.frame.pc == m.context.frame.pc + encoded_len(
            m.context.code.bytecode,
            m.context.frame.pc as int,
        ),
{
    reveal(spec_step);
    lemma_decoded_length(m.context.code.bytecode, m.context.frame.pc);
}

/// What an instruction keeps: the heap stays well formed, where it was and
/// as large as it was, and the chain of frames changes at most in the locals
/// and the stack of the current frame, whose stack stays within its slots.
pub open spec fn effect_is_tame(rt: RuntimeView, context: ContextView, instruction: Instruction) -> bool {
    let effect = spec_execute_one(rt, context, instruction);
    &&& context.same_shape(effect.context)
    &&& effect.context.frame.stack.len() <= context.frame.max_stack
    &&& effect.heap.wf()
    &&& effect.heap.base == rt.heap.base
    &&& effect.heap.words.len() == rt.heap.words.len()
}

proof fn lemma_tame_plain(rt: RuntimeView, context: ContextView, instruction: Instruction)
    requires
        rt.wf(),
        context.frame.stack.len() <= context.frame.max_stack,
        match instruction.opcode {
            Opcode::Break
            | Opcode::Nop
            | Opcode::Dup
            | Opcode::Drop
            | Opcode::Call
            | Opcode::Return
            | Opcode::If
            | Opcode::Immediate
            | Opcode::Constant
            | Opcode::CallN
            | Opcode::ReturnN
            | Opcode::Jump
            | Opcode::Unknown => true,
            _ => false,
        },
    ensures
        effect_is_tame(rt, context, instruction),
{
}

proof fn lemma_tame_loads(rt: RuntimeView, context: ContextView, instruction: Instruction)
    requires
        rt.wf(),
        context.frame.stack.len() <= context.frame.max_stack,
        match instruction.opcode {
            Opcode::Size
            | Opcode::LoadSlot
            | Opcode::LoadSlotN
            | Opcode::LoadLocalN
            | Opcode::LoadGlobalN => true,
            _ => false,
        },
    ensures
        effect_is_tame(rt, context, instruction),
{
}

proof fn lemma_tame_stores(rt: RuntimeView, context: ContextView, instruction: Instruction)
    requires
        rt.wf(),
        context.frame.stack.len() <= context.frame.max_stack,
        match instruction.opcode {
            Opcode::StoreSlot
            | Opcode::StoreSlotN
            | Opcode::StoreLocalN
            | Opcode::StoreGlobalN => true,
            _ => false,
        },
    ensures
        effect_is_tame(rt, context, instruction),
{
}

proof fn lemma_tame_arithmetic(rt: RuntimeView, context: ContextView, instruction: Instruction)
    requires
        rt.wf(),
        context.frame.stack.len() <= context.frame.max_stack,
        instruction.opcode == Opcode::Unary || instruction.opcode == Opcode::Binary,
    ensures
        effect_is_tame(rt, context, instruction),
{
}

proof fn lemma_new_object_tame(heap: HeapView, context: ContextView, slots: usize, from_stack: usize)
    requires
        heap.wf(),
        context.frame.stack.len() <= context.frame.max_stack,
    ensures
        ({
            let (made, after, left) = spec_new_object(heap, context, slots, from_stack);
            &&& context.same_shape(left)
            &&& left.frame.stack.len() <= context.frame.stack.len()
            &&& after.wf()
            &&& after.base == heap.base
            &&& after.words.len() == heap.words.len()
        }),
{
    if slots <= MAX_OBJECT_SLOTS && from_stack <= slots && heap.can_allocate(slots) {
        lemma_allocate_wf(heap, slots);
    }
}

#[verifier::rlimit(30)]
proof fn lemma_tame_objects(rt: RuntimeView, context: ContextView, instruction: Instruction)
    requires
        rt.wf(),
        context.frame.stack.len() <= context.frame.max_stack,
        instruction.opcode == Opcode::New || instruction.opcode == Opcode::NewNN,
    ensures
        effect_is_tame(rt, context, instruction),
{
    if instruction.opcode == Opcode::New {
        let (r1, c1) = context.get();
        if r1 is Ok {
            let (r2, c2) = c1.get();
            if r2 is Ok {
                lemma_new_object_tame(rt.heap, c2, r2->Ok_0, r1->Ok_0);
            }
        }
    } else {
        lemma_new_object_tame(rt.heap, context, instruction.n1 as usize, instruction.n2 as usize);
    }
}

/// An instruction leaves the memory and the chain of frames well formed,
/// whether or not it succeeds.
pub proof fn lemma_execute_one_wf(rt: RuntimeView, context: ContextView, instruction: Instruction)
    requires
        rt.wf(),
        context.wf(rt.pool),
    ensures
        spec_execute_one(rt, context, instruction).context.wf(rt.pool),
        rt.with_heap(spec_execute_one(rt, context, instruction).heap).wf(),
        effect_is_tame(rt, context, instruction),
{
    match instruction.opcode {
        Opcode::Size
        | Opcode::LoadSlot
        | Opcode::LoadSlotN
        | Opcode::LoadLocalN
        | Opcode::LoadGlobalN => lemma_tame_loads(rt, context, instruction),
        Opcode::StoreSlot
        | Opcode::StoreSlotN
        | Opcode::StoreLocalN
        | Opcode::StoreGlobalN => lemma_tame_stores(rt, context, instruction),
        Opcode::Unary | Opcode::Binary => lemma_tame_arithmetic(rt, context, instruction),
        Opcode::New | Opcode::NewNN => lemma_tame_objects(rt, context, instruction),
        _ => lemma_tame_plain(rt, context, instruction),
    }
}

/// The invariant of the loop: where a turn starts with well-formed memory
/// and a well-formed chain of frames, the next turn does too. So at every
/// instruction the stack of every frame is no deeper than its code block
/// allows, and no program counter is past the end of its bytecode.
pub proof fn lemma_step_keeps_wf(m: Machine)
    requires
        m.wf(),
    ensures
        spec_step(m) matches Progress::Running(next) ==> next.wf(),
{
    reveal(spec_step);
    match spec_decode_next(m.context.code.bytecode, m.context.frame.pc) {
        Err(_) => {},
        Ok((instruction, next_pc)) => {
            lemma_decoded_length(m.context.code.bytecode, m.context.frame.pc);
            lemma_decode_in_bounds(m.context.code.bytecode, m.context.frame.pc);
            if !m.skip {
                lemma_execute_one_wf(m.rt, m.context, instruction);
                let effect = spec_execute_one(m.rt, m.context, instruction);
                match effect.result {
                    Ok(Disposition::Call(addr, count)) => {
                        lemma_push_wf(
                            effect.context.with_pc(next_pc),
                            m.rt.pool,
                            effect.heap,
                            addr,
                            count,
                        );
                    },
                    Ok(Disposition::Return(count)) => {
                        lemma_pop_wf(effect.context, m.rt.pool, count);
                    },
                    _ => {},
                }
            }
        },
    }
}

/// A run starts with well-formed memory and a well-formed chain of frames,
/// where the memory it is given is well formed.
pub proof fn lemma_start_wf(rt: RuntimeView, code_offset: u32, args: Seq<usize>)
    requires
        rt.wf(),
    ensures
        ({
            let (started, heap) = spec_start(rt.pool, rt.heap, rt.pool.addr_from_offset(code_offset));
            &&& rt.with_heap(heap).wf()
            &&& started matches Ok(context) ==> {
                &&& context.wf(rt.pool)
                &&& context.start_locals(args).1.wf(rt.pool)
            }
        }),
{
    let code_addr = rt.pool.addr_from_offset(code_offset);
    match rt.pool.offset_from_addr(code_addr) {
        None => {},
        Some(offset) => {
            crate::constant_pool::lemma_addr_round_trip(rt.pool, code_addr);
            match rt.pool.code(code_addr) {
                Err(_) => {},
                Ok(code) => {
                    let words = frame_words(code) as usize;
                    if rt.heap.can_allocate(words) {
                        lemma_allocate_wf(rt.heap, words);
                    }
                },
            }
        },
    }
}

/// The next index that `spec_decode_next` gives is not past the end of the
/// bytes.
pub proof fn lemma_decode_in_bounds(bytes: Seq<u8>, index: u16)
    requires
        bytes.len() <= usize::MAX,
        spec_decode_next(bytes, index) is Ok,
    ensures
        index < spec_decode_next(bytes, index)->Ok_0.1 <= bytes.len(),
{
    lemma_varint_last_bounds(bytes, index + 1);
    if immediate_count(bytes[index as int]) == 2 {
        lemma_varint_last_bounds(bytes, index + 1 + varint_length(bytes, index + 1));
    }
}

} // verus!
