//! The faults that end a run.

use vstd::prelude::*;
use vstd::string::StringExecFns;
use crate::stack_frame::RuntimeContext;
use crate::text::{hex_digits, push_hex};

verus! {

/// The kinds of fault. Each one ends the run that raised it.
#[derive(Clone, Copy, Debug, PartialEq, Eq, Structural)]
pub enum ErrorCode {
    // these show that something is wrong with the bytecode generator:
    InvalidCodeObject,
    Unaligned,
    InvalidAddress,
    InvalidSize,
    OutOfBounds,
    UnknownOpcode,
    TruncatedCode,
    StackUnderflow,
    StackOverflow,
    LocalsOverflow,
    // these are resource constraints:
    OutOfMemory,
    TimeExceeded,
    CyclesExceeded,
    // this one the code object raised on purpose:
    Break,
    // a constant that is not what the code takes it for:
    InvalidConstant,
}

impl ErrorCode {
    /// The stable number of this kind of fault, from 1 on.
    pub open spec fn spec_number(self) -> u8 {
        match self {
            ErrorCode::InvalidCodeObject => 1,
            ErrorCode::Unaligned => 2,
            ErrorCode::InvalidAddress => 3,
            ErrorCode::InvalidSize => 4,
            ErrorCode::OutOfBounds => 5,
            ErrorCode::UnknownOpcode => 6,
            ErrorCode::TruncatedCode => 7,
            ErrorCode::StackUnderflow => 8,
            ErrorCode::StackOverflow => 9,
            ErrorCode::LocalsOverflow => 10,
            ErrorCode::OutOfMemory => 11,
            ErrorCode::TimeExceeded => 12,
            ErrorCode::CyclesExceeded => 13,
            ErrorCode::Break => 14,
            ErrorCode::InvalidConstant => 15,
        }
    }

    /// The name of this kind of fault, as it is written in diagnostics.
    pub open spec fn spec_name(self) -> Seq<char> {
        match self {
            ErrorCode::InvalidCodeObject => "InvalidCodeObject"@,
            ErrorCode::Unaligned => "Unaligned"@,
            ErrorCode::InvalidAddress => "InvalidAddress"@,
            ErrorCode::InvalidSize => "InvalidSize"@,
            ErrorCode::OutOfBounds => "OutOfBounds"@,
            ErrorCode::UnknownOpcode => "UnknownOpcode"@,
            ErrorCode::TruncatedCode => "TruncatedCode"@,
            ErrorCode::StackUnderflow => "StackUnderflow"@,
            ErrorCode::StackOverflow => "StackOverflow"@,
            ErrorCode::LocalsOverflow => "LocalsOverflow"@,
            ErrorCode::OutOfMemory => "OutOfMemory"@,
            ErrorCode::TimeExceeded => "TimeExceeded"@,
            ErrorCode::CyclesExceeded => "CyclesExceeded"@,
            ErrorCode::Break => "Break"@,
            ErrorCode::InvalidConstant => "InvalidConstant"@,
        }
    }

    pub fn number(&self) -> (n: u8)
        ensures
            n == self.spec_number(),
            1 <= n <= 15,
    {
        match self {
            ErrorCode::InvalidCodeObject => 1,
            ErrorCode::Unaligned => 2,
            ErrorCode::InvalidAddress => 3,
            ErrorCode::InvalidSize => 4,
            ErrorCode::OutOfBounds => 5,
            ErrorCode::UnknownOpcode => 6,
            ErrorCode::TruncatedCode => 7,
            ErrorCode::StackUnderflow => 8,
            ErrorCode::StackOverflow => 9,
            ErrorCode::LocalsOverflow => 10,
            ErrorCode::OutOfMemory => 11,
            ErrorCode::TimeExceeded => 12,
            ErrorCode::CyclesExceeded => 13,
            ErrorCode::Break => 14,
            ErrorCode::InvalidConstant => 15,
        }
    }

    pub fn name(&self) -> (s: &'static str)
        ensures
            s@ == self.spec_name(),
    {
        match self {
            ErrorCode::InvalidCodeObject => "InvalidCodeObject",
            ErrorCode::Unaligned => "Unaligned",
            ErrorCode::InvalidAddress => "InvalidAddress",
            ErrorCode::InvalidSize => "InvalidSize",
            ErrorCode::OutOfBounds => "OutOfBounds",
            ErrorCode::UnknownOpcode => "UnknownOpcode",
            ErrorCode::TruncatedCode => "TruncatedCode",
            ErrorCode::StackUnderflow => "StackUnderflow",
            ErrorCode::StackOverflow => "StackOverflow",
            ErrorCode::LocalsOverflow => "LocalsOverflow",
            ErrorCode::OutOfMemory => "OutOfMemory",
            ErrorCode::TimeExceeded => "TimeExceeded",
            ErrorCode::CyclesExceeded => "CyclesExceeded",
            ErrorCode::Break => "Break",
            ErrorCode::InvalidConstant => "InvalidConstant",
        }
    }
}

/// What a diagnostic shows of one frame.
#[derive(Clone, Copy, Debug, PartialEq, Eq, Structural)]
pub struct FrameTrace {
    pub code_offset: u32,
    pub pc: u16,
    pub sp: u8,
}

impl FrameTrace {
    /// The frame as a diagnostic shows it, with its numbers in base sixteen.
    pub open spec fn text(self) -> Seq<char> {
        "[frame code="@ + hex_digits(self.code_offset as nat) + " pc="@ + hex_digits(self.pc as nat)
            + " sp="@ + hex_digits(self.sp as nat) + "]"@
    }

    /// Appends the frame to `out` as a diagnostic shows it.
    pub fn push_text(&self, out: &mut String)
        ensures
            final(out)@ == old(out)@ + self.text(),
    {
        out.append("[frame code=");
        push_hex(out, self.code_offset as usize);
        out.append(" pc=");
        push_hex(out, self.pc as usize);
        out.append(" sp=");
        push_hex(out, self.sp as usize);
        out.append("]");
    }
}

/// The first `n` of `frames` as a diagnostic shows them, with an arrow from
/// each to the next.
pub open spec fn frames_text(frames: Seq<FrameTrace>, n: nat) -> Seq<char>
    decreases n,
{
    if n == 0 {
        Seq::empty()
    } else if n == 1 {
        frames[0].text()
    } else {
        frames_text(frames, (n - 1) as nat) + " -> "@ + frames[n - 1].text()
    }
}

/// A fault, and the chain of frames in which it was raised: the frame that
/// was current first, then its callers from the innermost to the outermost.
/// A fault that was raised before a run had a frame has none.
#[derive(Debug)]
pub struct RuntimeError {
    pub code: ErrorCode,
    pub frames: Vec<FrameTrace>,
}

/// A fault as a plain value.
pub struct ErrorView {
    pub code: ErrorCode,
    pub frames: Seq<FrameTrace>,
}

impl ErrorView {
    /// The fault as a diagnostic shows it: its name and, where it was raised
    /// in a frame, the chain of frames.
    pub open spec fn text(self) -> Seq<char> {
        if self.frames.len() == 0 {
            self.code.spec_name()
        } else {
            self.code.spec_name() + " at "@ + frames_text(self.frames, self.frames.len())
        }
    }
}

impl View for RuntimeError {
    type V = ErrorView;

    open spec fn view(&self) -> ErrorView {
        ErrorView { code: self.code, frames: self.frames@ }
    }
}

impl RuntimeError {
    /// A fault outside any frame.
    pub fn new(code: ErrorCode) -> (e: RuntimeError)
        ensures
            e@ == (ErrorView { code, frames: Seq::empty() }),
    {
        RuntimeError { code, frames: Vec::new() }
    }

    /// The fault as a diagnostic shows it.
    pub fn to_text(&self) -> (s: String)
        ensures
            s@ == self@.text(),
    {
        let mut out = String::from_str(self.code.name());
        if self.frames.len() == 0 {
            return out;
        }
        out.append(" at ");
        let ghost head = out@;
        self.frames[0].push_text(&mut out);
        let mut i: usize = 1;
        while i < self.frames.len()
            invariant
                1 <= i <= self.frames@.len(),
                out@ == head + frames_text(self.frames@, i as nat),
            decreases self.frames@.len() - i,
        {
            out.append(" -> ");
            self.frames[i].push_text(&mut out);
            i += 1;
        }
        out
    }

    /// A fault in the current frame of `context`.
    pub fn from<'rom>(code: ErrorCode, context: &RuntimeContext<'rom>) -> (e: RuntimeError)
        requires
            context.frames_wf(),
        ensures
            e@ == (ErrorView { code, frames: context@.trace() }),
    {
        let mut frames: Vec<FrameTrace> = Vec::new();
        frames.push(context.frame.trace());
        let mut i: usize = context.callers.len();
        while i > 0
            invariant
                context.frames_wf(),
                i <= context.callers@.len(),
                frames@.len() == context.callers@.len() - i + 1,
                forall|k: int| 0 <= k < frames@.len() ==> frames@[k] == context@.trace()[k],
            decreases i,
        {
            i -= 1;
            frames.push(context.callers[i].trace());
        }
        assert(frames@ =~= context@.trace());
        RuntimeError { code, frames }
    }
}

} // verus!
