//! The constant pool: a read-only byte region that holds code blocks and
//! literal objects, and the checked ways into it.
//!
//! The pool has a place in the machine's address space, from `base` on.
//! Every access names an address and is checked against the pool's bounds.

use vstd::prelude::*;
use vstd::slice::slice_subrange;
use crate::decode_int::{decode_unaligned, le_value};
use crate::word::{word_bytes, word_size};
use crate::error::ErrorCode;

verus! {

/// A code block's header, and its bytecode. It is recovered from the pool
/// whenever a frame is entered or resumed, and is not kept in the frame.
#[derive(Clone, Copy, Debug)]
pub struct Code<'rom> {
    pub local_count: u8,
    pub max_stack: u8,
    pub bytecode: &'rom [u8],
}

/// A code block as a plain value.
pub struct CodeView {
    pub local_count: u8,
    pub max_stack: u8,
    pub bytecode: Seq<u8>,
}

impl<'rom> View for Code<'rom> {
    type V = CodeView;

    open spec fn view(&self) -> CodeView {
        CodeView {
            local_count: self.local_count,
            max_stack: self.max_stack,
            bytecode: self.bytecode@,
        }
    }
}

impl CodeView {
    /// The limits that every code block in a pool keeps.
    pub open spec fn wf(self) -> bool {
        &&& self.local_count <= MAX_LOCALS
        &&& self.max_stack <= MAX_STACK
        &&& self.bytecode.len() <= u16::MAX
    }
}

impl<'rom> Code<'rom> {
    pub fn new(local_count: u8, max_stack: u8, bytecode: &'rom [u8]) -> (code: Code<'rom>)
        ensures
            code.local_count == local_count,
            code.max_stack == max_stack,
            code.bytecode@ == bytecode@,
    {
        Code { local_count, max_stack, bytecode }
    }
}

/// Most locals that a code block may declare.
pub const MAX_LOCALS: u8 = 63;

/// Most operand-stack slots that a code block may declare.
pub const MAX_STACK: u8 = 63;

/// Number of bytes in a code block's header.
pub const CODE_HEADER_BYTES: usize = 4;

/// Address of the first byte of every pool.
pub const POOL_BASE: usize = 0x1_0000;

/// The pool as a plain value: where it starts, and what it holds.
pub struct PoolView {
    pub base: usize,
    pub data: Seq<u8>,
}

impl PoolView {
    /// The pool starts on a four-byte boundary and ends inside the address
    /// space.
    pub open spec fn wf(self) -> bool {
        &&& self.base % 4 == 0
        &&& self.base + self.data.len() <= usize::MAX
    }

    /// Address of the first byte after the pool.
    pub open spec fn end(self) -> int {
        self.base + self.data.len()
    }

    /// The `len` bytes from `addr` on all lie in the pool.
    pub open spec fn contains_range(self, addr: usize, len: usize) -> bool {
        self.base <= addr && addr + len <= self.end()
    }

    /// The address that the offset `offset` stands for: the pool's start plus
    /// four times the offset. An offset that leads out of the address space
    /// gives the last address, which begins nothing in any pool.
    pub open spec fn addr_from_offset(self, offset: u32) -> usize {
        if self.base + 4 * offset <= usize::MAX {
            (self.base + 4 * offset) as usize
        } else {
            usize::MAX
        }
    }

    /// The offset that stands for `addr`, where there is one: `addr` lies at
    /// or after the pool's start, a multiple of four bytes from it, and the
    /// quotient fits in 32 bits.
    pub open spec fn offset_from_addr(self, addr: usize) -> Option<u32> {
        if addr >= self.base && (addr - self.base) % 4 == 0 && (addr - self.base) / 4 <= u32::MAX {
            Some(((addr - self.base) / 4) as u32)
        } else {
            None
        }
    }

    /// The bytes `len` from `addr` on, where they lie in the pool.
    pub open spec fn slice(self, addr: usize, len: usize) -> Option<Seq<u8>> {
        if self.contains_range(addr, len) {
            Some(self.data.subrange(addr - self.base, addr - self.base + len))
        } else {
            None
        }
    }

    /// The word at `addr`, least significant byte first, where all of it lies
    /// in the pool.
    pub open spec fn word(self, addr: usize) -> Option<usize> {
        if self.contains_range(addr, word_size() as usize) {
            Some(le_value(self.data, addr - self.base, addr - self.base + word_size()) as usize)
        } else {
            None
        }
    }

    /// The code block whose header starts at `addr`. The header has to lie
    /// in the pool, must declare no more than 63 locals and 63 stack slots,
    /// and the bytecode that it announces has to lie in the pool too.
    pub open spec fn code(self, addr: usize) -> Result<CodeView, ErrorCode> {
        if !self.contains_range(addr, CODE_HEADER_BYTES) {
            Err(ErrorCode::InvalidAddress)
        } else {
            let at = addr - self.base;
            let len = (self.data[at + 2] + 256 * self.data[at + 3]) as usize;
            if self.data[at] > MAX_LOCALS || self.data[at + 1] > MAX_STACK {
                Err(ErrorCode::InvalidCodeObject)
            } else if !self.contains_range((addr + CODE_HEADER_BYTES) as usize, len) {
                Err(ErrorCode::InvalidAddress)
            } else {
                Ok(
                    CodeView {
                        local_count: self.data[at],
                        max_stack: self.data[at + 1],
                        bytecode: self.data.subrange(at + 4, at + 4 + len),
                    },
                )
            }
        }
    }
}

/// Every code block that a well-formed pool yields keeps the limits.
pub proof fn lemma_code_wf(pool: PoolView, addr: usize)
    requires
        pool.wf(),
        pool.code(addr) is Ok,
    ensures
        pool.code(addr)->Ok_0.wf(),
{
}

/// An offset and the address that it stands for name each other.
pub proof fn lemma_offset_round_trip(pool: PoolView, offset: u32)
    requires
        pool.wf(),
        pool.base + 4 * offset <= usize::MAX,
    ensures
        pool.offset_from_addr(pool.addr_from_offset(offset)) == Some(offset),
{
}

/// An address that has an offset is the address that the offset stands for.
pub proof fn lemma_addr_round_trip(pool: PoolView, addr: usize)
    requires
        pool.wf(),
        pool.offset_from_addr(addr) is Some,
    ensures
        pool.addr_from_offset(pool.offset_from_addr(addr)->Some_0) == addr,
{
}

/// A caller-owned byte region with checked access to small parts of it.
#[derive(Clone, Copy, Debug)]
pub struct ConstantPool<'rom> {
    pub data: &'rom [u8],
    pub base: usize,
}

impl<'rom> View for ConstantPool<'rom> {
    type V = PoolView;

    open spec fn view(&self) -> PoolView {
        PoolView { base: self.base, data: self.data@ }
    }
}

impl<'rom> ConstantPool<'rom> {
    /// The pool starts on a four-byte boundary and ends inside the address
    /// space.
    pub open spec fn wf(&self) -> bool {
        self@.wf()
    }

    /// A pool that holds `data` and starts at `POOL_BASE`.
    pub fn new(data: &'rom [u8]) -> (pool: ConstantPool<'rom>)
        requires
            POOL_BASE + data@.len() <= usize::MAX,
        ensures
            pool@ == (PoolView { base: POOL_BASE, data: data@ }),
            pool.wf(),
    {
        ConstantPool { data, base: POOL_BASE }
    }

    /// A pool that holds `data` and starts at `base`; `None` where `base` is
    /// no multiple of four, or the pool would not end inside the address
    /// space.
    pub fn with_base(data: &'rom [u8], base: usize) -> (r: Option<ConstantPool<'rom>>)
        ensures
            match r {
                Some(pool) => pool@ == (PoolView { base, data: data@ }) && pool.wf(),
                None => !(PoolView { base, data: data@ }).wf(),
            },
    {
        if base % 4 != 0 || data.len() > usize::MAX - base {
            None
        } else {
            Some(ConstantPool { data, base })
        }
    }

    /// Offsets count in units of four bytes from the pool's start.
    pub fn addr_from_offset(&self, offset: u32) -> (addr: usize)
        requires
            self.wf(),
        ensures
            addr == self@.addr_from_offset(offset),
    {
        let room: usize = usize::MAX - self.base;
        if offset as usize > room / 4 {
            usize::MAX
        } else {
            self.base + 4 * (offset as usize)
        }
    }

    /// The offset that stands for `addr`, where there is one.
    pub fn offset_from_addr(&self, addr: usize) -> (offset: Option<u32>)
        requires
            self.wf(),
        ensures
            offset == self@.offset_from_addr(addr),
    {
        if addr < self.base {
            return None;
        }
        let distance: usize = addr - self.base;
        if distance % 4 != 0 || distance / 4 > u32::MAX as usize {
            None
        } else {
            Some((distance / 4) as u32)
        }
    }

    /// Parses the code block whose header starts at `addr`.
    pub fn get_code(&self, addr: usize) -> (r: Result<Code<'rom>, ErrorCode>)
        requires
            self.wf(),
        ensures
            match r {
                Ok(code) => self@.code(addr) == Ok::<CodeView, ErrorCode>(code@) && code@.wf(),
                Err(e) => self@.code(addr) == Err::<CodeView, ErrorCode>(e),
            },
    {
        // the header must be present and readable, to start with
        let header = match self.safe_slice(addr, CODE_HEADER_BYTES) {
            Some(header) => header,
            None => {
                return Err(ErrorCode::InvalidAddress);
            },
        };
        if header[0] > MAX_LOCALS || header[1] > MAX_STACK {
            return Err(ErrorCode::InvalidCodeObject);
        }
        let local_count = header[0];
        let max_stack = header[1];
        // the bytecode must lie in the pool too
        let len: usize = (header[2] as usize) + 256 * (header[3] as usize);
        match self.safe_slice(addr + CODE_HEADER_BYTES, len) {
            Some(bytecode) => Ok(Code { local_count, max_stack, bytecode }),
            None => Err(ErrorCode::InvalidAddress),
        }
    }

    /// The word at `addr`, where all of it lies in the pool.
    pub fn safe_ref(&self, addr: usize) -> (r: Option<usize>)
        requires
            self.wf(),
        ensures
            r == self@.word(addr),
    {
        let width = word_bytes();
        if !self.is_in_constant_pool_range(addr, width) {
            return None;
        }
        match decode_unaligned(self.data, addr - self.base) {
            Some(d) => {
                let value = d.value;
                let ghost word = le_value(
                    self.data@,
                    addr - self.base,
                    addr - self.base + word_size(),
                ) as usize;
                assert(#[verifier::truncate] ((word as isize) as usize) == word) by (bit_vector);
                Some(#[verifier::truncate] (value as usize))
            },
            None => None,
        }
    }

    /// The `len` bytes from `addr` on, where all of them lie in the pool.
    pub fn safe_slice(&self, addr: usize, len: usize) -> (r: Option<&'rom [u8]>)
        requires
            self.wf(),
        ensures
            match r {
                Some(bytes) => self@.slice(addr, len) == Some(bytes@),
                None => self@.slice(addr, len) is None,
            },
    {
        if self.is_in_constant_pool_range(addr, len) {
            let start: usize = addr - self.base;
            Some(slice_subrange(self.data, start, start + len))
        } else {
            None
        }
    }

    /// Whether one word from `addr` on lies in the pool.
    pub fn is_in_constant_pool(&self, addr: usize) -> (inside: bool)
        requires
            self.wf(),
        ensures
            inside == self@.contains_range(addr, word_size() as usize),
    {
        self.is_in_constant_pool_range(addr, word_bytes())
    }

    /// Whether the `len` bytes from `addr` on all lie in the pool.
    pub fn is_in_constant_pool_range(&self, addr: usize, len: usize) -> (inside: bool)
        requires
            self.wf(),
        ensures
            inside == self@.contains_range(addr, len),
    {
        addr >= self.base && len <= self.data.len() && addr - self.base <= self.data.len() - len
    }
}

} // verus!
