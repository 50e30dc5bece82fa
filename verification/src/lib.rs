//! A small stack-based bytecode machine for hosts that supply all of its
//! memory: a read-only constant pool and a bounded heap.
//!
//! The host hands over the bytes of the pool, which hold code blocks and
//! literal objects, and says how large the heap is to be. It then runs a
//! code block by its offset in the pool, with a list of machine words as
//! arguments, until the block returns, a fault is raised, or the budget of
//! instructions or time is spent.
//!
//! # Memory
//!
//! Bytecode sees memory as addresses. The pool stands at
//! `constant_pool::POOL_BASE`, the heap at the next block boundary behind
//! it. A word that bytecode uses as an address is checked against both
//! regions each time it is used: a load must hit a word of the pool or of
//! the heap, a store a word of the heap.
//!
//! The heap holds the globals and the objects that `NEW` makes. Frames take
//! room in the heap too, one allocation for each call, so that deep
//! recursion runs out of memory as it should; what a frame holds is kept
//! beside the heap, out of the reach of stores.
//!
//! # Contracts
//!
//! Every type has a view, a plain value that the contracts speak of:
//! `PoolView`, `HeapView`, `FrameView`, `ContextView`, `RuntimeView`. What an
//! instruction does is `runtime::spec_execute_one`, a turn of the loop is
//! `runtime::spec_step`, a whole run `runtime::spec_execute`. The module
//! `laws` holds what follows from them for every run.

pub mod constant_pool;
pub mod decode_int;
pub mod disassembler;
pub mod error;
pub mod heap;
pub mod laws;
pub mod opcode;
pub mod runtime;
pub mod stack_frame;
pub mod text;
pub mod word;
pub mod zigzag;

pub use constant_pool::ConstantPool;
pub use disassembler::{disassemble, disassemble_to_string};
pub use error::{ErrorCode, RuntimeError};
pub use opcode::{Binary, Opcode, Unary};
pub use runtime::Runtime;
