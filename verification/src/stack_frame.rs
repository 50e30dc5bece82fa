//! Activation records, and the chain of them that a run builds.
//!
//! A frame holds a small header, the locals of its code block and the slots
//! of its operand stack. It accounts for that much room in the heap, and is
//! known by the address of that room. The code block itself is not kept in
//! the frame: it is recovered from the frame's code offset whenever the
//! frame is resumed.

use vstd::prelude::*;
use vstd::slice::slice_subrange;
use crate::constant_pool::{Code, CodeView, ConstantPool, PoolView, MAX_STACK};
use crate::error::{ErrorCode, ErrorView, FrameTrace, RuntimeError};
use crate::heap::{Heap, HeapView};

verus! {

/// One activation record.
#[derive(Debug)]
pub struct StackFrame {
    /// heap address of the caller's frame; 0 in the frame that a run starts with
    pub up_frame: usize,
    /// offset into the constant pool of this frame's code block
    pub code_offset: u32,
    /// index into the bytecode of the instruction to decode next
    pub pc: u16,
    /// number of operand-stack slots in use
    pub sp: u8,
    /// heap address of this frame
    pub address: usize,
    /// as many as the code block declares; zero at first
    pub locals: Vec<usize>,
    /// as many slots as the code block declares; those below `sp` are in use
    pub stack: Vec<usize>,
}

/// Number of words in a frame's header: one for the link to the caller, and
/// eight bytes for code offset, program counter and stack depth.
pub open spec fn spec_frame_header_words() -> int {
    if usize::BITS == 64 {
        2
    } else {
        3
    }
}

/// Number of words in a frame's header.
pub const FRAME_HEADER_WORDS: usize = 1 + 64 / usize::BITS as usize;

/// Number of words in a frame's header.
pub fn frame_header_words() -> (n: usize)
    ensures
        n == spec_frame_header_words(),
        n == FRAME_HEADER_WORDS,
{
    assert(64usize / 64 == 1 && 64usize / 32 == 2);
    FRAME_HEADER_WORDS
}

/// Number of words that a frame for `code` takes: its header, its locals and
/// its stack slots.
pub open spec fn frame_words(code: CodeView) -> int {
    spec_frame_header_words() + code.local_count + code.max_stack
}

/// A frame as a plain value. The stack holds the slots in use, the oldest
/// first.
pub struct FrameView {
    pub address: usize,
    pub up_frame: usize,
    pub code_offset: u32,
    pub pc: u16,
    pub locals: Seq<usize>,
    pub stack: Seq<usize>,
    pub max_stack: nat,
}

impl FrameView {
    /// The frame has the shape that `code` asks for, and its counters are in
    /// range: no deeper a stack than the code block declares, and a program
    /// counter that is not past the end of the bytecode.
    pub open spec fn fits(self, code: CodeView) -> bool {
        &&& self.address != 0
        &&& self.locals.len() == code.local_count
        &&& self.max_stack == code.max_stack
        &&& self.stack.len() <= self.max_stack
        &&& self.pc <= code.bytecode.len()
    }

    /// The frame's code offset names a code block of `pool`, and the frame
    /// fits it.
    pub open spec fn wf(self, pool: PoolView) -> bool {
        pool.code(pool.addr_from_offset(self.code_offset)) matches Ok(code) && self.fits(code)
    }

    /// What a diagnostic shows of the frame.
    pub open spec fn trace(self) -> FrameTrace {
        FrameTrace { code_offset: self.code_offset, pc: self.pc, sp: self.stack.len() as u8 }
    }
}

impl View for StackFrame {
    type V = FrameView;

    open spec fn view(&self) -> FrameView {
        FrameView {
            address: self.address,
            up_frame: self.up_frame,
            code_offset: self.code_offset,
            pc: self.pc,
            locals: self.locals@,
            stack: self.stack@.take(self.sp as int),
            max_stack: self.stack@.len(),
        }
    }
}

impl StackFrame {
    /// The stack depth is within the slots that the frame has.
    pub open spec fn wf(&self) -> bool {
        self.sp <= self.stack@.len() <= MAX_STACK
    }

    /// What a diagnostic shows of the frame.
    pub fn trace(&self) -> (t: FrameTrace)
        requires
            self.wf(),
        ensures
            t == self@.trace(),
    {
        FrameTrace { code_offset: self.code_offset, pc: self.pc, sp: self.sp }
    }
}

/// The views of a chain of frames.
pub open spec fn frame_views(frames: Seq<StackFrame>) -> Seq<FrameView> {
    frames.map_values(|f: StackFrame| f@)
}

/// The current frame with its code block, and the frames of its callers, the
/// outermost first.
pub struct ContextView {
    pub frame: FrameView,
    pub code: CodeView,
    pub callers: Seq<FrameView>,
}

impl ContextView {
    /// Address of the frame that the current one returns to; 0 where there is
    /// none.
    pub open spec fn parent_address(self) -> usize {
        if self.callers.len() == 0 {
            0
        } else {
            self.callers.last().address
        }
    }

    /// The current frame fits its code block, which is the one that its code
    /// offset names in `pool`; so does every caller's frame; and each frame's
    /// link holds the address of the frame before it, the outermost one's
    /// being 0.
    pub open spec fn wf(self, pool: PoolView) -> bool {
        &&& pool.code(pool.addr_from_offset(self.frame.code_offset)) == Ok::<CodeView, ErrorCode>(
            self.code,
        )
        &&& self.code.wf()
        &&& self.frame.fits(self.code)
        &&& self.frame.up_frame == self.parent_address()
        &&& forall|i: int| 0 <= i < self.callers.len() ==> (#[trigger] self.callers[i]).wf(pool)
        &&& self.callers.len() > 0 ==> self.callers[0].up_frame == 0
        &&& forall|i: int, j: int|
            0 <= i && j == i + 1 && j < self.callers.len() ==> (#[trigger] self.callers[j]).up_frame
                == (#[trigger] self.callers[i]).address
    }

    /// `other` differs from this chain at most in the locals and the stack
    /// of the current frame, and has as many locals.
    pub open spec fn same_shape(self, other: ContextView) -> bool {
        &&& self.code == other.code
        &&& self.callers == other.callers
        &&& self.frame.address == other.frame.address
        &&& self.frame.up_frame == other.frame.up_frame
        &&& self.frame.code_offset == other.frame.code_offset
        &&& self.frame.pc == other.frame.pc
        &&& self.frame.max_stack == other.frame.max_stack
        &&& self.frame.locals.len() == other.frame.locals.len()
    }

    pub open spec fn with_stack(self, stack: Seq<usize>) -> ContextView {
        ContextView { frame: FrameView { stack, ..self.frame }, ..self }
    }

    pub open spec fn with_locals(self, locals: Seq<usize>) -> ContextView {
        ContextView { frame: FrameView { locals, ..self.frame }, ..self }
    }

    pub open spec fn with_pc(self, pc: u16) -> ContextView {
        ContextView { frame: FrameView { pc, ..self.frame }, ..self }
    }

    /// Number of stack slots that are free.
    pub open spec fn room(self) -> int {
        self.frame.max_stack - self.frame.stack.len()
    }

    /// Pops one word.
    pub open spec fn get(self) -> (Result<usize, ErrorCode>, ContextView) {
        if self.frame.stack.len() == 0 {
            (Err(ErrorCode::StackUnderflow), self)
        } else {
            (Ok(self.frame.stack.last()), self.with_stack(self.frame.stack.drop_last()))
        }
    }

    /// Pops `n` words and gives them in the order in which they were pushed.
    pub open spec fn get_n(self, n: usize) -> (Result<Seq<usize>, ErrorCode>, ContextView) {
        let depth = self.frame.stack.len() as int;
        if n > depth {
            (Err(ErrorCode::StackUnderflow), self)
        } else {
            (
                Ok(self.frame.stack.subrange(depth - n, depth)),
                self.with_stack(self.frame.stack.take(depth - n)),
            )
        }
    }

    /// Pushes one word.
    pub open spec fn put(self, value: usize) -> (Result<(), ErrorCode>, ContextView) {
        if self.room() <= 0 {
            (Err(ErrorCode::StackOverflow), self)
        } else {
            (Ok(()), self.with_stack(self.frame.stack.push(value)))
        }
    }

    /// Pushes `items` one after another. Where they do not all fit, those
    /// that do are pushed.
    pub open spec fn put_n(self, items: Seq<usize>) -> (Result<(), ErrorCode>, ContextView) {
        if items.len() <= self.room() {
            (Ok(()), self.with_stack(self.frame.stack + items))
        } else {
            (
                Err(ErrorCode::StackOverflow),
                self.with_stack(self.frame.stack + items.take(self.room())),
            )
        }
    }

    /// Copies `values` into the first locals and leaves the others as they
    /// are.
    pub open spec fn start_locals(self, values: Seq<usize>) -> (Result<(), ErrorCode>, ContextView) {
        if values.len() > self.frame.locals.len() {
            (Err(ErrorCode::LocalsOverflow), self)
        } else {
            (Ok(()), self.with_locals(values + self.frame.locals.skip(values.len() as int)))
        }
    }

    pub open spec fn get_local(self, n: usize) -> Result<usize, ErrorCode> {
        if n >= self.frame.locals.len() {
            Err(ErrorCode::LocalsOverflow)
        } else {
            Ok(self.frame.locals[n as int])
        }
    }

    pub open spec fn put_local(self, n: usize, value: usize) -> (Result<(), ErrorCode>, ContextView) {
        if n >= self.frame.locals.len() {
            (Err(ErrorCode::LocalsOverflow), self)
        } else {
            (Ok(()), self.with_locals(self.frame.locals.update(n as int, value)))
        }
    }

    /// What a diagnostic shows of the chain: the current frame first, then
    /// its callers from the innermost to the outermost.
    pub open spec fn trace(self) -> Seq<FrameTrace> {
        Seq::new(
            self.callers.len() + 1,
            |i: int|
                if i == 0 {
                    self.frame.trace()
                } else {
                    self.callers[self.callers.len() - i].trace()
                },
        )
    }

    /// Enters the code block at `code_addr` with the `arg_count` words on
    /// top of the stack as its first locals. The arguments are popped first;
    /// then the new frame is made, which may fail; then the arguments must
    /// fit the new frame's locals. Only where all of it succeeds does the new
    /// frame become the current one.
    pub open spec fn push(self, pool: PoolView, heap: HeapView, code_addr: usize, arg_count: usize) -> (
        Result<(), ErrorCode>,
        ContextView,
        HeapView,
    ) {
        match self.get_n(arg_count) {
            (Err(e), _) => (Err(e), self, heap),
            (Ok(args), popped) => match spec_new_frame(
                pool,
                heap,
                code_addr,
                popped.frame.address,
            ) {
                (Err(e), after) => (Err(e), popped, after),
                (Ok((frame, code)), after) => if args.len() > frame.locals.len() {
                    (Err(ErrorCode::LocalsOverflow), popped, after)
                } else {
                    (
                        Ok(()),
                        ContextView {
                            frame: FrameView {
                                locals: args + frame.locals.skip(args.len() as int),
                                ..frame
                            },
                            code,
                            callers: popped.callers.push(popped.frame),
                        },
                        after,
                    )
                },
            },
        }
    }

    /// Leaves the current frame with the `return_count` words on top of its
    /// stack. Where the frame has no caller, the words are the run's result.
    /// Else the caller's code block is recovered from `pool`, the words are
    /// pushed onto the caller's stack, and the caller's frame becomes the
    /// current one, if they all fit.
    pub open spec fn pop(self, pool: PoolView, return_count: usize) -> (
        Result<Option<Seq<usize>>, ErrorCode>,
        ContextView,
    ) {
        match self.get_n(return_count) {
            (Err(e), _) => (Err(e), self),
            (Ok(values), popped) => if popped.callers.len() == 0 {
                (Ok(Some(values)), popped)
            } else {
                let caller = popped.callers.last();
                let rest = popped.callers.drop_last();
                let room = caller.max_stack - caller.stack.len();
                match pool.code(pool.addr_from_offset(caller.code_offset)) {
                    Err(e) => (Err(e), popped),
                    Ok(code) => if values.len() <= room {
                        (
                            Ok(None),
                            ContextView {
                                frame: FrameView { stack: caller.stack + values, ..caller },
                                code,
                                callers: rest,
                            },
                        )
                    } else {
                        (
                            Err(ErrorCode::StackOverflow),
                            ContextView {
                                callers: rest.push(
                                    FrameView { stack: caller.stack + values.take(room), ..caller },
                                ),
                                ..popped
                            },
                        )
                    },
                }
            },
        }
    }
}

/// A new frame for the code block at `code_addr`, linked to `up_frame`, and
/// the heap after room for it is taken. The address must be one that an
/// offset names, and must be the start of a code block; the heap must have
/// room for the frame. The frame starts with zeros in its locals and an
/// empty stack.
pub open spec fn spec_new_frame(
    pool: PoolView,
    heap: HeapView,
    code_addr: usize,
    up_frame: usize,
) -> (Result<(FrameView, CodeView), ErrorCode>, HeapView) {
    match pool.offset_from_addr(code_addr) {
        None => (Err(ErrorCode::InvalidAddress), heap),
        Some(code_offset) => match pool.code(code_addr) {
            Err(e) => (Err(e), heap),
            Ok(code) => if !heap.can_allocate(frame_words(code) as usize) {
                (Err(ErrorCode::OutOfMemory), heap)
            } else {
                (
                    Ok(
                        (
                            FrameView {
                                address: heap.next_addr(),
                                up_frame,
                                code_offset,
                                pc: 0,
                                locals: Seq::new(code.local_count as nat, |i: int| 0usize),
                                stack: Seq::empty(),
                                max_stack: code.max_stack as nat,
                            },
                            code,
                        ),
                    ),
                    heap.allocate(frame_words(code) as usize),
                )
            },
        },
    }
}

/// A run's start: a first frame for the code block at `code_addr`, with no
/// caller.
pub open spec fn spec_start(pool: PoolView, heap: HeapView, code_addr: usize) -> (
    Result<ContextView, ErrorCode>,
    HeapView,
) {
    match spec_new_frame(pool, heap, code_addr, 0) {
        (Err(e), after) => (Err(e), after),
        (Ok((frame, code)), after) => (
            Ok(ContextView { frame, code, callers: Seq::empty() }),
            after,
        ),
    }
}

/// Entering a code block leaves the chain of frames and the heap well
/// formed, whether or not it succeeds.
pub proof fn lemma_push_wf(
    context: ContextView,
    pool: PoolView,
    heap: HeapView,
    code_addr: usize,
    arg_count: usize,
)
    requires
        pool.wf(),
        heap.wf(),
        context.wf(pool),
    ensures
        context.push(pool, heap, code_addr, arg_count).1.wf(pool),
        context.push(pool, heap, code_addr, arg_count).2.wf(),
        context.push(pool, heap, code_addr, arg_count).2.base == heap.base,
        context.push(pool, heap, code_addr, arg_count).2.words.len() == heap.words.len(),
{
    let popped = context.get_n(arg_count).1;
    if context.get_n(arg_count).0 is Ok && pool.offset_from_addr(code_addr) is Some {
        crate::constant_pool::lemma_addr_round_trip(pool, code_addr);
        if pool.code(code_addr) is Ok {
            let words = frame_words(pool.code(code_addr)->Ok_0) as usize;
            if heap.can_allocate(words) {
                crate::heap::lemma_allocate_wf(heap, words);
            }
        }
    }
}

/// Leaving a frame leaves the chain of frames well formed, whether or not
/// it succeeds.
pub proof fn lemma_pop_wf(context: ContextView, pool: PoolView, return_count: usize)
    requires
        pool.wf(),
        context.wf(pool),
    ensures
        context.pop(pool, return_count).1.wf(pool),
{
    let popped = context.get_n(return_count).1;
    if context.get_n(return_count).0 is Ok && popped.callers.len() > 0 {
        let caller = popped.callers.last();
        crate::constant_pool::lemma_code_wf(pool, pool.addr_from_offset(caller.code_offset));
    }
}

/// The current frame of a run, with its code block, and the frames of its
/// callers, the outermost first.
pub struct RuntimeContext<'rom> {
    pub frame: StackFrame,
    pub code: Code<'rom>,
    pub callers: Vec<StackFrame>,
}

impl<'rom> View for RuntimeContext<'rom> {
    type V = ContextView;

    open spec fn view(&self) -> ContextView {
        ContextView { frame: self.frame@, code: self.code@, callers: frame_views(self.callers@) }
    }
}

/// How leaving a frame ended.
#[derive(Debug)]
pub enum PreviousContext {
    /// the caller's frame is the current one again
    Frame,
    /// the run's first frame returned these words
    Done(Vec<usize>),
}

/// Makes a frame for the code block at `code_addr` and takes room for it
/// from the heap.
fn new_frame<'rom>(
    constant_pool: &ConstantPool<'rom>,
    heap: &mut Heap,
    code_addr: usize,
    up_frame: usize,
) -> (r: Result<(StackFrame, Code<'rom>), ErrorCode>)
    requires
        constant_pool.wf(),
        old(heap).wf(),
    ensures
        final(heap).wf(),
        final(heap)@.base == old(heap)@.base,
        final(heap)@.words.len() == old(heap)@.words.len(),
        match r {
            Ok((frame, code)) => {
                &&& spec_new_frame(constant_pool@, old(heap)@, code_addr, up_frame) == (
                    Ok::<(FrameView, CodeView), ErrorCode>((frame@, code@)),
                    final(heap)@,
                )
                &&& frame.wf()
                &&& frame.sp == 0
                &&& frame@.fits(code@)
                &&& code@.wf()
                &&& constant_pool@.code(constant_pool@.addr_from_offset(frame.code_offset)) == Ok::<
                    CodeView,
                    ErrorCode,
                >(code@)
            },
            Err(e) => spec_new_frame(constant_pool@, old(heap)@, code_addr, up_frame) == (
                Err::<(FrameView, CodeView), ErrorCode>(e),
                final(heap)@,
            ),
        },
{
    let code_offset = match constant_pool.offset_from_addr(code_addr) {
        Some(offset) => offset,
        None => {
            return Err(ErrorCode::InvalidAddress);
        },
    };
    let code = match constant_pool.get_code(code_addr) {
        Ok(code) => code,
        Err(e) => {
            return Err(e);
        },
    };
    let total: usize = frame_header_words() + code.local_count as usize + code.max_stack as usize;
    let address = match heap.allocate_array(total) {
        Some(address) => address,
        None => {
            return Err(ErrorCode::OutOfMemory);
        },
    };
    let locals: Vec<usize> = vec![0usize; code.local_count as usize];
    let stack: Vec<usize> = vec![0usize; code.max_stack as usize];
    let frame = StackFrame { up_frame, code_offset, pc: 0, sp: 0, address, locals, stack };
    proof {
        assert(frame@.locals =~= Seq::new(code@.local_count as nat, |i: int| 0usize));
        assert(frame@.stack =~= Seq::<usize>::empty());
    }
    Ok((frame, code))
}

impl<'rom> RuntimeContext<'rom> {
    /// Every frame's stack depth is within the slots that the frame has.
    pub open spec fn frames_wf(&self) -> bool {
        &&& self.frame.wf()
        &&& forall|i: int| 0 <= i < self.callers@.len() ==> (#[trigger] self.callers@[i]).wf()
    }

    pub open spec fn wf(&self, pool: PoolView) -> bool {
        &&& self.frames_wf()
        &&& self@.wf(pool)
    }

    /// Makes the frame that a run starts with: one with no caller.
    pub fn start(constant_pool: &ConstantPool<'rom>, heap: &mut Heap, code_addr: usize) -> (r: Result<
        RuntimeContext<'rom>,
        ErrorCode,
    >)
        requires
            constant_pool.wf(),
            old(heap).wf(),
        ensures
            final(heap).wf(),
            final(heap)@.base == old(heap)@.base,
            final(heap)@.words.len() == old(heap)@.words.len(),
            match r {
                Ok(context) => spec_start(constant_pool@, old(heap)@, code_addr) == (
                    Ok::<ContextView, ErrorCode>(context@),
                    final(heap)@,
                ) && context.wf(constant_pool@),
                Err(e) => spec_start(constant_pool@, old(heap)@, code_addr) == (
                    Err::<ContextView, ErrorCode>(e),
                    final(heap)@,
                ),
            },
    {
        match new_frame(constant_pool, heap, code_addr, 0) {
            Ok((frame, code)) => {
                let context = RuntimeContext { frame, code, callers: Vec::new() };
                assert(context@.callers =~= Seq::empty());
                Ok(context)
            },
            Err(e) => Err(e),
        }
    }

    /// Enters the code block at `code_addr` with the `arg_count` words on
    /// top of the stack as its arguments. On success the new frame is the
    /// current one, and the frame that was current is the last of the
    /// callers.
    pub fn push(
        &mut self,
        constant_pool: &ConstantPool<'rom>,
        heap: &mut Heap,
        code_addr: usize,
        arg_count: usize,
    ) -> (r: Result<(), ErrorCode>)
        requires
            constant_pool.wf(),
            old(heap).wf(),
            old(self).wf(constant_pool@),
        ensures
            final(heap).wf(),
            final(heap)@.base == old(heap)@.base,
            final(heap)@.words.len() == old(heap)@.words.len(),
            final(self).wf(constant_pool@),
            (r, final(self)@, final(heap)@) == old(self)@.push(
                constant_pool@,
                old(heap)@,
                code_addr,
                arg_count,
            ),
    {
        let args = match self.get_n(arg_count) {
            Ok(args) => args,
            Err(e) => {
                return Err(e);
            },
        };
        let (mut frame, code) = match new_frame(constant_pool, heap, code_addr, self.frame.address) {
            Ok(made) => made,
            Err(e) => {
                return Err(e);
            },
        };
        if args.len() > frame.locals.len() {
            return Err(ErrorCode::LocalsOverflow);
        }
        let ghost fresh = frame@;
        let mut i: usize = 0;
        while i < args.len()
            invariant
                i <= args@.len() <= frame.locals@.len(),
                frame.locals@.len() == fresh.locals.len(),
                forall|k: int| 0 <= k < i ==> frame.locals@[k] == args@[k],
                forall|k: int| i <= k < frame.locals@.len() ==> frame.locals@[k] == fresh.locals[k],
                frame.wf(),
                frame.sp == 0,
                frame@ == (FrameView { locals: frame.locals@, ..fresh }),
            decreases args@.len() - i,
        {
            frame.locals[i] = args[i];
            i += 1;
        }
        proof {
            assert(frame.locals@ =~= args@ + fresh.locals.skip(args@.len() as int));
        }
        let ghost popped = self@;
        core::mem::swap(&mut self.frame, &mut frame);
        self.code = code;
        self.callers.push(frame);
        proof {
            assert(frame_views(self.callers@) =~= popped.callers.push(popped.frame));
            lemma_push_wf(old(self)@, constant_pool@, old(heap)@, code_addr, arg_count);
        }
        Ok(())
    }

    /// Leaves the current frame with the `return_count` words on top of its
    /// stack as its result. Where the frame has a caller, the words are
    /// pushed onto the caller's stack and the caller's frame is the current
    /// one again.
    pub fn pop(&mut self, constant_pool: &ConstantPool<'rom>, return_count: usize) -> (r: Result<
        PreviousContext,
        ErrorCode,
    >)
        requires
            constant_pool.wf(),
            old(self).wf(constant_pool@),
        ensures
            final(self).wf(constant_pool@),
            match r {
                Ok(PreviousContext::Frame) => old(self)@.pop(constant_pool@, return_count) == (
                    Ok::<Option<Seq<usize>>, ErrorCode>(None),
                    final(self)@,
                ),
                Ok(PreviousContext::Done(values)) => old(self)@.pop(constant_pool@, return_count) == (
                    Ok::<Option<Seq<usize>>, ErrorCode>(Some(values@)),
                    final(self)@,
                ) && values@.len() == return_count,
                Err(e) => old(self)@.pop(constant_pool@, return_count) == (
                    Err::<Option<Seq<usize>>, ErrorCode>(e),
                    final(self)@,
                ),
            },
    {
        let values = match self.get_n(return_count) {
            Ok(values) => values,
            Err(e) => {
                return Err(e);
            },
        };
        let ghost popped = self@;
        let mut caller = match self.callers.pop() {
            Some(caller) => caller,
            None => {
                assert(self@ == popped) by {
                    assert(self@.callers =~= popped.callers);
                }
                return Ok(PreviousContext::Done(values));
            },
        };
        proof {
            assert(frame_views(self.callers@) =~= popped.callers.drop_last());
            assert(popped.callers.last() == caller@);
            assert(caller@.wf(constant_pool@));
            lemma_pop_wf(old(self)@, constant_pool@, return_count);
        }
        // this cannot fail: it worked on the way in
        let code_addr = constant_pool.addr_from_offset(caller.code_offset);
        let code = match constant_pool.get_code(code_addr) {
            Ok(code) => code,
            Err(e) => {
                self.callers.push(caller);
                return Err(e);
            },
        };
        let ghost resumed = caller@;
        let room: usize = caller.stack.len() - caller.sp as usize;
        let count: usize = if values.len() <= room {
            values.len()
        } else {
            room
        };
        let mut i: usize = 0;
        while i < count
            invariant
                i <= count <= values@.len(),
                count <= caller.stack@.len() - resumed.stack.len(),
                caller.sp == resumed.stack.len() + i,
                caller.wf(),
                caller@ == (FrameView { stack: resumed.stack + values@.take(i as int), ..resumed }),
            decreases count - i,
        {
            let ghost slots = caller.stack@;
            let ghost depth = caller.sp as int;
            caller.stack[caller.sp as usize] = values[i];
            caller.sp += 1;
            proof {
                assert(caller.stack@.take(depth + 1) =~= slots.take(depth).push(values@[i as int]));
                assert(values@.take(i + 1) =~= values@.take(i as int).push(values@[i as int]));
                assert(caller@.stack =~= resumed.stack + values@.take(i + 1));
            }
            i += 1;
        }
        if count < values.len() {
            self.callers.push(caller);
            proof {
                let expected = popped.callers.drop_last().push(
                    FrameView { stack: resumed.stack + values@.take(room as int), ..resumed },
                );
                assert(frame_views(self.callers@) =~= expected);
            }
            return Err(ErrorCode::StackOverflow);
        }
        proof {
            assert(values@.take(values@.len() as int) =~= values@);
        }
        self.frame = caller;
        self.code = code;
        Ok(PreviousContext::Frame)
    }

    /// The locals of the current frame.
    pub fn locals(&self) -> (locals: &[usize])
        ensures
            locals@ == self@.frame.locals,
    {
        self.frame.locals.as_slice()
    }

    /// The locals of the current frame, to be written in place.
    pub fn locals_mut(&mut self) -> (locals: &mut [usize])
        ensures
            locals@ == old(self).frame.locals@,
            final(self).frame.locals@ == final(locals)@,
            final(self).frame.stack == old(self).frame.stack,
            final(self).frame.sp == old(self).frame.sp,
            final(self).frame.pc == old(self).frame.pc,
            final(self).frame.code_offset == old(self).frame.code_offset,
            final(self).frame.up_frame == old(self).frame.up_frame,
            final(self).frame.address == old(self).frame.address,
            final(self).callers == old(self).callers,
            final(self).code == old(self).code,
    {
        self.frame.locals.as_mut_slice()
    }

    /// All stack slots of the current frame, in use or not, to be written in
    /// place. The stack depth stays as it is.
    pub fn stack_mut(&mut self) -> (stack: &mut [usize])
        ensures
            stack@ == old(self).frame.stack@,
            final(self).frame.stack@ == final(stack)@,
            final(self).frame.locals == old(self).frame.locals,
            final(self).frame.sp == old(self).frame.sp,
            final(self).frame.pc == old(self).frame.pc,
            final(self).frame.code_offset == old(self).frame.code_offset,
            final(self).frame.up_frame == old(self).frame.up_frame,
            final(self).frame.address == old(self).frame.address,
            final(self).callers == old(self).callers,
            final(self).code == old(self).code,
    {
        self.frame.stack.as_mut_slice()
    }

    /// The stack slots of the current frame that are in use, the oldest
    /// first.
    pub fn stack(&self) -> (stack: &[usize])
        requires
            self.frame.wf(),
        ensures
            stack@ == self@.frame.stack,
    {
        slice_subrange(self.frame.stack.as_slice(), 0, self.frame.sp as usize)
    }

    /// Pops one word.
    pub fn get(&mut self) -> (r: Result<usize, ErrorCode>)
        requires
            old(self).frame.wf(),
        ensures
            final(self).frame.wf(),
            (r, final(self)@) == old(self)@.get(),
            final(self).callers == old(self).callers,
            final(self).code == old(self).code,
            old(self)@.same_shape(final(self)@),
    {
        if self.frame.sp < 1 {
            return Err(ErrorCode::StackUnderflow);
        }
        self.frame.sp -= 1;
        proof {
            assert(self@.frame.stack =~= old(self)@.frame.stack.drop_last());
        }
        Ok(self.frame.stack[self.frame.sp as usize])
    }

    /// Pops the last `n` words that were pushed, and gives them in the order
    /// in which they were pushed.
    pub fn get_n(&mut self, n: usize) -> (r: Result<Vec<usize>, ErrorCode>)
        requires
            old(self).frame.wf(),
        ensures
            final(self).frame.wf(),
            final(self).callers == old(self).callers,
            final(self).code == old(self).code,
            old(self)@.same_shape(final(self)@),
            match r {
                Ok(values) => old(self)@.get_n(n) == (
                    Ok::<Seq<usize>, ErrorCode>(values@),
                    final(self)@,
                ),
                Err(e) => old(self)@.get_n(n) == (Err::<Seq<usize>, ErrorCode>(e), final(self)@),
            },
    {
        if (self.frame.sp as usize) < n {
            return Err(ErrorCode::StackUnderflow);
        }
        let depth: usize = self.frame.sp as usize;
        let start: usize = depth - n;
        let mut values: Vec<usize> = Vec::new();
        let mut i: usize = start;
        while i < depth
            invariant
                start <= i <= depth <= self.frame.stack@.len(),
                values@ == self.frame.stack@.subrange(start as int, i as int),
            decreases depth - i,
        {
            values.push(self.frame.stack[i]);
            proof {
                assert(self.frame.stack@.subrange(start as int, i + 1) =~= self.frame.stack@.subrange(
                    start as int,
                    i as int,
                ).push(self.frame.stack@[i as int]));
            }
            i += 1;
        }
        self.frame.sp = start as u8;
        proof {
            let live = old(self)@.frame.stack;
            assert(values@ =~= live.subrange(depth - n, depth as int));
            assert(self@.frame.stack =~= live.take(depth - n));
        }
        Ok(values)
    }

    /// Pushes one word.
    pub fn put(&mut self, n: usize) -> (r: Result<(), ErrorCode>)
        requires
            old(self).frame.wf(),
        ensures
            final(self).frame.wf(),
            (r, final(self)@) == old(self)@.put(n),
            final(self).callers == old(self).callers,
            final(self).code == old(self).code,
            old(self)@.same_shape(final(self)@),
    {
        if (self.frame.sp as usize) >= self.frame.stack.len() {
            return Err(ErrorCode::StackOverflow);
        }
        self.frame.stack[self.frame.sp as usize] = n;
        self.frame.sp += 1;
        proof {
            assert(self@.frame.stack =~= old(self)@.frame.stack.push(n));
        }
        Ok(())
    }

    /// Pushes `items` one after another, and stops at the first that does
    /// not fit.
    pub fn put_n(&mut self, items: &[usize]) -> (r: Result<(), ErrorCode>)
        requires
            old(self).frame.wf(),
        ensures
            final(self).frame.wf(),
            (r, final(self)@) == old(self)@.put_n(items@),
            final(self).callers == old(self).callers,
            final(self).code == old(self).code,
            old(self)@.same_shape(final(self)@),
    {
        let ghost start = self@;
        let mut i: usize = 0;
        proof {
            assert(start.frame.stack + items@.take(0) =~= start.frame.stack);
        }
        while i < items.len()
            invariant
                i <= items@.len(),
                self.frame.wf(),
                i <= start.room(),
                start == old(self)@,
                self@ == start.with_stack(start.frame.stack + items@.take(i as int)),
                self.callers == old(self).callers,
                self.code == old(self).code,
                old(self)@.same_shape(self@),
            decreases items@.len() - i,
        {
            match self.put(items[i]) {
                Ok(()) => {},
                Err(e) => {
                    return Err(e);
                },
            }
            proof {
                assert(items@.take(i + 1) =~= items@.take(i as int).push(items@[i as int]));
                assert((start.frame.stack + items@.take(i as int)).push(items@[i as int])
                    =~= start.frame.stack + items@.take(i + 1));
            }
            i += 1;
        }
        proof {
            assert(items@.take(items@.len() as int) =~= items@);
        }
        Ok(())
    }

    /// Copies `values` into the first locals of the current frame.
    pub fn start_locals(&mut self, values: &[usize]) -> (r: Result<(), ErrorCode>)
        requires
            old(self).frame.wf(),
        ensures
            final(self).frame.wf(),
            (r, final(self)@) == old(self)@.start_locals(values@),
            final(self).callers == old(self).callers,
            final(self).code == old(self).code,
            old(self)@.same_shape(final(self)@),
    {
        if values.len() > self.frame.locals.len() {
            return Err(ErrorCode::LocalsOverflow);
        }
        let ghost start = self@;
        let mut i: usize = 0;
        while i < values.len()
            invariant
                i <= values@.len() <= self.frame.locals@.len(),
                self.frame.locals@.len() == start.frame.locals.len(),
                forall|k: int| 0 <= k < i ==> self.frame.locals@[k] == values@[k],
                forall|k: int|
                    i <= k < self.frame.locals@.len() ==> self.frame.locals@[k]
                        == start.frame.locals[k],
                self.frame.wf(),
                self@ == start.with_locals(self.frame.locals@),
                self.callers == old(self).callers,
                self.code == old(self).code,
                old(self)@.same_shape(self@),
            decreases values@.len() - i,
        {
            self.frame.locals[i] = values[i];
            i += 1;
        }
        proof {
            assert(self.frame.locals@ =~= values@ + start.frame.locals.skip(values@.len() as int));
        }
        Ok(())
    }

    /// The local with index `n`.
    pub fn get_local(&self, n: usize) -> (r: Result<usize, ErrorCode>)
        ensures
            r == self@.get_local(n),
    {
        if n >= self.frame.locals.len() {
            return Err(ErrorCode::LocalsOverflow);
        }
        Ok(self.frame.locals[n])
    }

    /// Sets the local with index `n`.
    pub fn put_local(&mut self, n: usize, value: usize) -> (r: Result<(), ErrorCode>)
        requires
            old(self).frame.wf(),
        ensures
            final(self).frame.wf(),
            (r, final(self)@) == old(self)@.put_local(n, value),
            final(self).callers == old(self).callers,
            final(self).code == old(self).code,
            old(self)@.same_shape(final(self)@),
    {
        if n >= self.frame.locals.len() {
            return Err(ErrorCode::LocalsOverflow);
        }
        self.frame.locals[n] = value;
        Ok(())
    }

    /// A fault of kind `code` in the current frame.
    pub fn to_error(&self, code: ErrorCode) -> (e: RuntimeError)
        requires
            self.frames_wf(),
        ensures
            e@ == (ErrorView { code, frames: self@.trace() }),
    {
        RuntimeError::from(code, self)
    }
}

} // verus!
