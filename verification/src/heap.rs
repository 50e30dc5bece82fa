//! The heap: a bounded arena of machine words with a place in the machine's
//! address space.
//!
//! Allocations are handed out in address order and are never taken back; the
//! host starts over with a fresh heap. Each allocation is a whole number of
//! sixteen-byte blocks and is filled with zeros. Words are read and written
//! by address, and every address is checked against the arena's bounds.

use vstd::prelude::*;
use crate::word::{
    bytes_of, bytes_past_word, bytes_to_words, is_word_multiple, words_in, words_to_bytes,
};

verus! {

/// Allocations are made in units of this many bytes.
pub const BLOCK_BYTES: usize = 16;

/// One allocation: the index of its first word in the arena, and its length
/// in words.
#[derive(Clone, Copy, Debug, PartialEq, Eq, Structural)]
pub struct Region {
    pub start: usize,
    pub words: usize,
}

/// Number of words in a block.
pub open spec fn block_words() -> int {
    if usize::BITS == 64 {
        2
    } else {
        4
    }
}

/// Number of words that an allocation of `n` words takes: `n` rounded up to
/// whole blocks, and one block where `n` is 0.
pub open spec fn rounded_words(n: int) -> int {
    if n <= 0 {
        block_words()
    } else if usize::BITS == 64 {
        ((n + 1) / 2) * 2
    } else {
        ((n + 3) / 4) * 4
    }
}

/// The first of `regions` that holds the word with index `w`.
pub open spec fn region_of(regions: Seq<Region>, w: int) -> Option<Region>
    decreases regions.len(),
{
    if regions.len() == 0 {
        None
    } else if regions[0].start <= w < regions[0].start + regions[0].words {
        Some(regions[0])
    } else {
        region_of(regions.drop_first(), w)
    }
}

/// The heap as a plain value.
pub struct HeapView {
    /// address of the first word
    pub base: usize,
    /// every word of the arena, allocated or not
    pub words: Seq<usize>,
    /// the allocations, in address order
    pub regions: Seq<Region>,
}

impl HeapView {
    /// A heap of `size` bytes at `base` with nothing allocated and zeros
    /// throughout. A last part of `size` that is less than a block is left
    /// out.
    pub open spec fn empty(base: usize, size: usize) -> HeapView {
        HeapView {
            base,
            words: Seq::new(((size / BLOCK_BYTES) * block_words()) as nat, |i: int| 0usize),
            regions: Seq::empty(),
        }
    }

    /// Number of words handed out so far.
    pub open spec fn used(self) -> int {
        if self.regions.len() == 0 {
            0
        } else {
            self.regions.last().start + self.regions.last().words
        }
    }

    /// The arena starts on a block boundary above address 0 and ends inside
    /// the address space; the allocations follow one another from its first
    /// word on and end inside it.
    pub open spec fn wf(self) -> bool {
        &&& self.base > 0
        &&& self.base % BLOCK_BYTES == 0
        &&& self.base + bytes_of(self.words.len() as int) <= usize::MAX
        &&& self.used() <= self.words.len()
        &&& forall|i: int| 0 <= i < self.regions.len() ==> (#[trigger] self.regions[i]).words > 0
        &&& self.regions.len() > 0 ==> self.regions[0].start == 0
        &&& forall|i: int, j: int|
            0 <= i && j == i + 1 && j < self.regions.len() ==> (#[trigger] self.regions[j]).start
                == (#[trigger] self.regions[i]).start + self.regions[i].words
    }

    /// Address of the first byte after the arena.
    pub open spec fn end(self) -> int {
        self.base + bytes_of(self.words.len() as int)
    }

    /// `addr` lies in the arena.
    pub open spec fn contains(self, addr: usize) -> bool {
        self.base <= addr < self.end()
    }

    /// `addr` is the address of a word of the arena.
    pub open spec fn contains_word(self, addr: usize) -> bool {
        self.contains(addr) && bytes_past_word(addr - self.base) == 0
    }

    /// Index in the arena of the word that holds the byte at `addr`.
    pub open spec fn index_of(self, addr: usize) -> int {
        words_in(addr - self.base)
    }

    /// Address of the word with index `w`.
    pub open spec fn addr_of(self, w: int) -> usize {
        (self.base + bytes_of(w)) as usize
    }

    /// `addr` is the address of a word of the arena, and `count` words from
    /// there on lie in the arena.
    pub open spec fn contains_words(self, addr: usize, count: int) -> bool {
        self.contains_word(addr) && self.index_of(addr) + count <= self.words.len()
    }

    /// The word at `addr`.
    pub open spec fn load(self, addr: usize) -> Option<usize> {
        if self.contains_word(addr) {
            Some(self.words[self.index_of(addr)])
        } else {
            None
        }
    }

    /// The heap after `value` is written to the word at `addr`.
    pub open spec fn store(self, addr: usize, value: usize) -> HeapView {
        HeapView { words: self.words.update(self.index_of(addr), value), ..self }
    }

    /// The heap after `values` are written to the words from `addr` on.
    pub open spec fn store_all(self, addr: usize, values: Seq<usize>) -> HeapView {
        let at = self.index_of(addr);
        HeapView {
            words: Seq::new(
                self.words.len(),
                |i: int|
                    if at <= i < at + values.len() {
                        values[i - at]
                    } else {
                        self.words[i]
                    },
            ),
            ..self
        }
    }

    /// Length in words of the allocation that holds the byte at `addr`.
    pub open spec fn size_at(self, addr: usize) -> Option<usize> {
        if self.contains(addr) {
            match region_of(self.regions, self.index_of(addr)) {
                Some(region) => Some(region.words),
                None => None,
            }
        } else {
            None
        }
    }

    /// There is room for an allocation of `n` words.
    pub open spec fn can_allocate(self, n: usize) -> bool {
        self.used() + rounded_words(n as int) <= self.words.len()
    }

    /// Address of the next allocation.
    pub open spec fn next_addr(self) -> usize {
        self.addr_of(self.used())
    }

    /// The heap after an allocation of `n` words: one more region, at the end
    /// of the ones before, with zeros in all of its words.
    pub open spec fn allocate(self, n: usize) -> HeapView {
        let start = self.used();
        let len = rounded_words(n as int);
        HeapView {
            words: Seq::new(
                self.words.len(),
                |i: int|
                    if start <= i < start + len {
                        0usize
                    } else {
                        self.words[i]
                    },
            ),
            regions: self.regions.push(Region { start: start as usize, words: len as usize }),
            ..self
        }
    }
}

/// A bounded arena of machine words.
pub struct Heap {
    pub base: usize,
    pub words: Vec<usize>,
    pub regions: Vec<Region>,
    pub used: usize,
}

impl View for Heap {
    type V = HeapView;

    open spec fn view(&self) -> HeapView {
        HeapView { base: self.base, words: self.words@, regions: self.regions@ }
    }
}

/// A word that none of the first regions holds is held by the first of the
/// others that holds it.
proof fn lemma_region_of_skip(regions: Seq<Region>, w: int, i: int)
    requires
        0 <= i < regions.len(),
        forall|j: int| 0 <= j <= i ==> !((#[trigger] regions[j]).start <= w < regions[j].start + regions[j].words),
    ensures
        region_of(regions, w) == region_of(regions.skip(i + 1), w),
    decreases i,
{
    if i == 0 {
        assert(regions.skip(1) =~= regions.drop_first());
    } else {
        lemma_region_of_skip(regions, w, i - 1);
        let rest = regions.skip(i);
        assert(rest[0] == regions[i]);
        assert(rest.drop_first() =~= regions.skip(i + 1));
    }
}

/// Rounding up to whole blocks takes nothing away and adds less than a
/// block.
pub proof fn lemma_rounded_words(n: int)
    requires
        0 <= n,
    ensures
        rounded_words(n) >= n,
        rounded_words(n) > 0,
        rounded_words(n) < n + block_words() || n == 0,
{
}

/// An allocation leaves the heap well formed, where it was, and as large as
/// it was; and what it hands out is not the address 0.
pub proof fn lemma_allocate_wf(heap: HeapView, n: usize)
    requires
        heap.wf(),
        heap.can_allocate(n),
    ensures
        heap.allocate(n).wf(),
        heap.allocate(n).base == heap.base,
        heap.allocate(n).words.len() == heap.words.len(),
        heap.next_addr() != 0,
        heap.next_addr() == heap.base + bytes_of(heap.used()),
{
    lemma_rounded_words(n as int);
    let after = heap.allocate(n);
    let count = heap.regions.len() as int;
    assert(after.regions.last() == (Region {
        start: heap.used() as usize,
        words: rounded_words(n as int) as usize,
    }));
    assert forall|i: int| 0 <= i < after.regions.len() implies (#[trigger] after.regions[i]).words
        > 0 by {
        if i < count {
            assert(after.regions[i] == heap.regions[i]);
        }
    }
    assert forall|i: int, j: int| 0 <= i && j == i + 1 && j < after.regions.len() implies (
    #[trigger] after.regions[j]).start == (#[trigger] after.regions[i]).start
        + after.regions[i].words by {
        assert(after.regions[i] == heap.regions[i]);
        if j < count {
            assert(after.regions[j] == heap.regions[j]);
        }
    }
}

/// Number of words that an allocation of `n` words takes.
fn round_to_blocks(n: usize) -> (len: usize)
    requires
        n + 4 <= usize::MAX,
    ensures
        len == rounded_words(n as int),
{
    if usize::BITS == 64 {
        if n == 0 {
            2
        } else {
            ((n + 1) / 2) * 2
        }
    } else {
        if n == 0 {
            4
        } else {
            ((n + 3) / 4) * 4
        }
    }
}

impl Heap {
    /// The heap's view is well formed, and `used` is the number of words
    /// handed out.
    pub open spec fn wf(&self) -> bool {
        &&& self@.wf()
        &&& self.used == self@.used()
    }

    /// A heap of `size` bytes that starts at `base`, with nothing allocated
    /// and zeros throughout. `None` where `base` is 0 or no multiple of the
    /// block size, or where the heap would not end inside the address space.
    pub fn new(base: usize, size: usize) -> (r: Option<Heap>)
        ensures
            r is None <==> base == 0 || base % BLOCK_BYTES != 0 || base + size > usize::MAX,
            r matches Some(heap) ==> heap.wf() && heap@ == HeapView::empty(base, size),
    {
        if base == 0 || base % BLOCK_BYTES != 0 || size > usize::MAX - base {
            return None;
        }
        let count: usize = bytes_to_words(size - size % BLOCK_BYTES);
        let words: Vec<usize> = vec![0usize; count];
        let heap = Heap { base, words, regions: Vec::new(), used: 0 };
        proof {
            assert(heap@.words =~= HeapView::empty(base, size).words);
            assert(heap@.regions =~= HeapView::empty(base, size).regions);
        }
        Some(heap)
    }

    /// Whether `addr` lies in the arena.
    pub fn is_ptr_inside(&self, addr: usize) -> (inside: bool)
        requires
            self.wf(),
        ensures
            inside == self@.contains(addr),
    {
        addr >= self.base && bytes_to_words(addr - self.base) < self.words.len()
    }

    /// Length in words of the allocation that holds the byte at `addr`;
    /// `None` where `addr` lies in no allocation.
    pub fn size_of_ptr(&self, addr: usize) -> (r: Option<usize>)
        requires
            self.wf(),
        ensures
            r == self@.size_at(addr),
    {
        if !self.is_ptr_inside(addr) {
            return None;
        }
        let w: usize = bytes_to_words(addr - self.base);
        let mut i: usize = 0;
        assert(self.regions@.skip(0) =~= self.regions@);
        while i < self.regions.len()
            invariant
                i <= self.regions@.len(),
                self@.contains(addr),
                w == self@.index_of(addr),
                region_of(self.regions@, w as int) == region_of(self.regions@.skip(i as int), w as int),
                forall|j: int|
                    0 <= j < i ==> !((#[trigger] self.regions@[j]).start <= w < self.regions@[j].start
                        + self.regions@[j].words),
            decreases self.regions@.len() - i,
        {
            let region = self.regions[i];
            proof {
                let rest = self.regions@.skip(i as int);
                assert(rest[0] == region);
            }
            if region.start <= w && w - region.start < region.words {
                return Some(region.words);
            }
            proof {
                lemma_region_of_skip(self.regions@, w as int, i as int);
            }
            i += 1;
        }
        assert(self.regions@.skip(i as int).len() == 0);
        None
    }

    /// The word at `addr`; `None` where `addr` is not the address of a word
    /// of the arena.
    pub fn safe_ref(&self, addr: usize) -> (r: Option<usize>)
        requires
            self.wf(),
        ensures
            r == self@.load(addr),
    {
        if addr < self.base || !is_word_multiple(addr - self.base) {
            return None;
        }
        let w: usize = bytes_to_words(addr - self.base);
        if w < self.words.len() {
            Some(self.words[w])
        } else {
            None
        }
    }

    /// Writes `value` to the word at `addr`. Where `addr` is not the address
    /// of a word of the arena, nothing is written and the result is `false`.
    pub fn safe_set(&mut self, addr: usize, value: usize) -> (written: bool)
        requires
            old(self).wf(),
        ensures
            final(self).wf(),
            written == old(self)@.contains_word(addr),
            written ==> final(self)@ == old(self)@.store(addr, value),
            !written ==> final(self)@ == old(self)@,
    {
        if addr < self.base || !is_word_multiple(addr - self.base) {
            return false;
        }
        let w: usize = bytes_to_words(addr - self.base);
        if w < self.words.len() {
            self.words[w] = value;
            true
        } else {
            false
        }
    }

    /// Writes `values` to the words from `addr` on. Where they are not all
    /// words of the arena, nothing is written and the result is `false`.
    pub fn write_words(&mut self, addr: usize, values: &[usize]) -> (written: bool)
        requires
            old(self).wf(),
        ensures
            final(self).wf(),
            written == old(self)@.contains_words(addr, values@.len() as int),
            written ==> final(self)@ == old(self)@.store_all(addr, values@),
            !written ==> final(self)@ == old(self)@,
    {
        if addr < self.base || !is_word_multiple(addr - self.base) {
            return false;
        }
        let at: usize = bytes_to_words(addr - self.base);
        let limit: usize = self.words.len();
        if at >= limit || values.len() > limit - at {
            return false;
        }
        let ghost before = self@;
        let mut i: usize = 0;
        while i < values.len()
            invariant
                i <= values@.len(),
                at + values@.len() <= self.words@.len() == limit,
                self.words@.len() == before.words.len(),
                self.base == before.base,
                self.regions@ == before.regions,
                self.used == old(self).used,
                forall|j: int| at <= j < at + i ==> self.words@[j] == values@[j - at],
                forall|j: int|
                    0 <= j < self.words@.len() && !(at <= j < at + i) ==> self.words@[j]
                        == before.words[j],
            decreases values@.len() - i,
        {
            self.words[at + i] = values[i];
            i += 1;
        }
        proof {
            assert(self@.words =~= before.store_all(addr, values@).words);
        }
        true
    }

    /// Allocates `n` words, rounded up to whole blocks, and fills them with
    /// zeros. The result is the address of the first of them, or `None`
    /// where so much room is not left; the heap is then unchanged.
    pub fn allocate_array(&mut self, n: usize) -> (r: Option<usize>)
        requires
            old(self).wf(),
        ensures
            final(self).wf(),
            match r {
                Some(addr) => {
                    &&& old(self)@.can_allocate(n)
                    &&& addr == old(self)@.next_addr()
                    &&& final(self)@ == old(self)@.allocate(n)
                    &&& final(self)@.contains_word(addr)
                    &&& addr + bytes_of(rounded_words(n as int)) <= final(self)@.end()
                },
                None => !old(self)@.can_allocate(n) && final(self)@ == old(self)@,
            },
    {
        let room: usize = self.words.len() - self.used;
        proof {
            lemma_rounded_words(n as int);
        }
        if n > room {
            return None;
        }
        let len: usize = round_to_blocks(n);
        if len > room {
            return None;
        }
        let start: usize = self.used;
        let end: usize = start + len;
        let ghost before = self@;
        let mut i: usize = start;
        while i < end
            invariant
                start <= i <= end <= self.words@.len(),
                end == start + len,
                self.words@.len() == before.words.len(),
                self.base == before.base,
                self.regions@ == before.regions,
                self.used == start,
                forall|j: int| start <= j < i ==> self.words@[j] == 0,
                forall|j: int|
                    0 <= j < self.words@.len() && !(start <= j < i) ==> self.words@[j]
                        == before.words[j],
            decreases end - i,
        {
            self.words[i] = 0;
            i += 1;
        }
        self.regions.push(Region { start, words: len });
        self.used = start + len;
        proof {
            assert(self@.words =~= before.allocate(n).words);
            assert(self@.regions =~= before.allocate(n).regions);
        }
        Some(self.base + words_to_bytes(start))
    }
}

} // verus!
