//! The arena: a fixed-capacity byte region filled by a bump allocator.
//!
//! Each block is laid out as a self-locator word, a length word and the
//! payload. The self-locator holds the offset of the length word right after
//! it, so the word that follows a payload leads to the next block's length
//! word: the chain of blocks needs no table of its own.
use vstd::prelude::*;
use crate::word::{pack, word_at, put_word, put_bytes, read_word, write_word, write_bytes, lemma_word_same};

verus! {

/// Offset of the first block's self-locator word. The region's first word is
/// reserved and belongs to no block, so offset 0 can stand for "no block".
pub const ROOT: u64 = 8;

/// Largest region an arena may be built with.
pub const MAX_CAPACITY: usize = 0xffff_0000;

/// Absolute cap on the bytes a single edit may write.
pub const MAX_EDIT_LEN: u64 = 40;

/// Why an edit left the region as it was.
#[derive(Debug, Clone, Copy, PartialEq, Eq, Structural)]
pub enum EditRejection {
    /// The block's length word, its payload or its continuation slot lies
    /// outside the region.
    OutOfRegion,
    /// The stored length exceeds the region's capacity.
    CorruptLength,
    /// The stored length is zero.
    EmptyBlock,
    /// More bytes than the stored length plus one word, or than the absolute cap.
    TooLong,
}

/// What an arena is: its bytes and its frontier (0 while unset).
pub ghost struct ArenaView {
    pub region: Seq<u8>,
    pub frontier: u64,
}

/// A fixed-capacity bump arena.
pub struct AllocatorHandler {
    region: Vec<u8>,
    frontier: u64,
}

impl View for AllocatorHandler {
    type V = ArenaView;

    closed spec fn view(&self) -> ArenaView {
        ArenaView { region: self.region@, frontier: self.frontier }
    }
}

/// Holds of every arena: its size is bounded and its frontier, once set,
/// lies between the first block and the end of the region.
pub open spec fn arena_wf(m: ArenaView) -> bool {
    &&& m.region.len() <= MAX_CAPACITY
    &&& (m.frontier == 0 || (ROOT <= m.frontier && m.frontier <= m.region.len()))
}

/// Where the next block starts: the frontier, or the root while it is unset.
pub open spec fn start_of(frontier: u64) -> int {
    if frontier == 0 { ROOT as int } else { frontier as int }
}

/// Stores `v` at `off` when the word fits in the region, else leaves it.
pub open spec fn put_word_if_fits(s: Seq<u8>, off: int, v: u64) -> Seq<u8> {
    if off + 8 <= s.len() { put_word(s, off, v) } else { s }
}

/// Allocating `size` bytes: the arena after it, and the payload offset, or
/// `None` when the block does not fit. The two header words are written where
/// they fit before the capacity check, and stay written when it fails.
pub open spec fn allocated(m: ArenaView, size: u64) -> (ArenaView, Option<u64>) {
    let pos = start_of(m.frontier);
    let r1 = put_word_if_fits(m.region, pos, (pos + 8) as u64);
    let r2 = put_word_if_fits(r1, pos + 8, size);
    let end = pos + 16 + size;
    if end > m.region.len() {
        (ArenaView { region: r2, frontier: m.frontier }, None)
    } else {
        (ArenaView { region: r2, frontier: end as u64 }, Some((pos + 16) as u64))
    }
}

/// The block whose length word is at `p` leads, through the word after its
/// payload, to the next block's length word; 0 where the chain ends or leaves
/// the region.
pub open spec fn follow(s: Seq<u8>, p: u64) -> u64 {
    match word_at(s, p as int) {
        None => 0,
        Some(len) => match word_at(s, p + 8 + len) {
            None => 0,
            Some(next) => next,
        },
    }
}

/// The offset of block `i`'s length word (blocks count from 1, and index 0
/// names block 1), or 0 once the chain has ended.
pub open spec fn block_pos(s: Seq<u8>, i: nat) -> u64
    decreases i,
{
    if i <= 1 {
        match word_at(s, ROOT as int) {
            None => 0,
            Some(p) => p,
        }
    } else {
        let p = block_pos(s, (i - 1) as nat);
        if p == 0 { 0 } else { follow(s, p) }
    }
}

/// What a search for block `i` reports: its length and payload offset, or
/// `(0, 0)` once the chain has ended or left the region.
pub open spec fn searched(s: Seq<u8>, i: nat) -> (u64, u64) {
    let p = block_pos(s, i);
    if p == 0 {
        (0, 0)
    } else {
        match word_at(s, p as int) {
            None => (0, 0),
            Some(len) => (len, (p + 8) as u64),
        }
    }
}

/// Editing the block whose payload starts at `pos`: the region after it and
/// the outcome.
pub open spec fn edited(s: Seq<u8>, pos: u64, data: Seq<u8>, resize: bool) -> (Seq<u8>, Result<(), EditRejection>) {
    if pos < 8 || word_at(s, pos - 8) is None {
        (s, Err(EditRejection::OutOfRegion))
    } else {
        let len = word_at(s, pos - 8)->Some_0;
        if len > s.len() {
            (s, Err(EditRejection::CorruptLength))
        } else if len == 0 {
            (s, Err(EditRejection::EmptyBlock))
        } else if data.len() > len + 8 || data.len() > MAX_EDIT_LEN {
            (s, Err(EditRejection::TooLong))
        } else if pos + data.len() > s.len() {
            (s, Err(EditRejection::OutOfRegion))
        } else if resize && data.len() < len {
            if pos + len + 8 > s.len() {
                (s, Err(EditRejection::OutOfRegion))
            } else {
                let r1 = put_bytes(s, pos as int, data);
                let next = pack(s, pos + len);
                let r2 = put_word(r1, pos + data.len(), next);
                (put_word(r2, pos - 8, data.len() as u64), Ok(()))
            }
        } else {
            (put_bytes(s, pos as int, data), Ok(()))
        }
    }
}

impl AllocatorHandler {
    /// The arena's invariant.
    pub open spec fn wf(&self) -> bool {
        arena_wf(self@)
    }

    /// An arena of `capacity` zero bytes with its frontier unset.
    pub fn new(capacity: usize) -> (r: Self)
        requires
            capacity <= MAX_CAPACITY,
        ensures
            r.wf(),
            r@.frontier == 0,
            r@.region == Seq::new(capacity as nat, |j: int| 0u8),
    {
        let mut region: Vec<u8> = Vec::new();
        let mut i: usize = 0;
        while i < capacity
            invariant
                i <= capacity,
                region@ == Seq::new(i as nat, |j: int| 0u8),
            decreases capacity - i,
        {
            region.push(0u8);
            i = i + 1;
        }
        AllocatorHandler { region, frontier: 0 }
    }

    /// The number of bytes in the region.
    pub fn capacity(&self) -> (r: usize)
        ensures
            r == self@.region.len(),
    {
        self.region.len()
    }

    /// The frontier: the end of the last committed block, 0 while unset.
    pub fn frontier(&self) -> (r: u64)
        ensures
            r == self@.frontier,
    {
        self.frontier
    }

    /// The bytes of the region.
    pub fn region(&self) -> (r: &Vec<u8>)
        ensures
            r@ == self@.region,
    {
        &self.region
    }

    /// Appends a block of `size` payload bytes at the frontier and returns
    /// the offset of its payload, or `None` when it does not fit.
    pub fn allocate(&mut self, size: u64) -> (r: Option<u64>)
        requires
            old(self).wf(),
        ensures
            final(self).wf(),
            (final(self)@, r) == allocated(old(self)@, size),
    {
        let n = self.region.len();
        let mut pos: u64 = self.frontier;
        if pos == 0 {
            pos = ROOT;
        }
        if pos <= n as u64 && 8 <= n as u64 - pos {
            write_word(&mut self.region, pos as usize, pos + 8);
        }
        let len_pos: u64 = pos + 8;
        if len_pos <= n as u64 && 8 <= n as u64 - len_pos {
            write_word(&mut self.region, len_pos as usize, size);
        }
        let payload: u64 = pos + 16;
        if payload > n as u64 || size > n as u64 - payload {
            return None;
        }
        self.frontier = payload + size;
        Some(payload)
    }

    /// Reads the word at `off`, or `None` when it lies outside the region.
    fn word(&self, off: u64) -> (r: Option<u64>)
        ensures
            r == word_at(self@.region, off as int),
    {
        let n = self.region.len();
        if off <= n as u64 && 8 <= n as u64 - off {
            Some(read_word(&self.region, off as usize))
        } else {
            None
        }
    }

    /// Walks the chain from the first block to block `idx` and reports its
    /// length and payload offset, or `(0, 0)` when the chain ends first.
    pub fn search(&self, idx: u64) -> (r: (u64, u64))
        requires
            self.wf(),
        ensures
            r == searched(self@.region, idx as nat),
    {
        let mut current: u64 = 1;
        let mut pos: u64 = match self.word(ROOT) {
            None => 0,
            Some(p) => p,
        };
        while current < idx
            invariant
                self.wf(),
                1 <= current,
                current <= idx || current == 1,
                pos == block_pos(self@.region, current as nat),
            decreases idx - current,
        {
            if pos == 0 {
                proof {
                    lemma_block_pos_ended(self@.region, current as nat, idx as nat);
                }
                return (0, 0);
            }
            let next: u64 = match self.word(pos) {
                None => 0,
                Some(len) => {
                    if len <= u64::MAX - 8 - pos {
                        match self.word(pos + 8 + len) {
                            None => 0,
                            Some(q) => q,
                        }
                    } else {
                        0
                    }
                },
            };
            proof {
                if let Some(len) = word_at(self@.region, pos as int) {
                    if len > u64::MAX - 8 - pos {
                        assert(word_at(self@.region, pos + 8 + len) is None);
                    }
                }
            }
            pos = next;
            current = current + 1;
        }
        if pos == 0 {
            return (0, 0);
        }
        match self.word(pos) {
            None => (0, 0),
            Some(len) => (len, pos + 8),
        }
    }

    /// Writes `data` over the payload that starts at `pos`; with `resize`, and
    /// fewer bytes than the block holds, the block is cut to `data`'s length
    /// and the word after its payload moves to the new end.
    pub fn edit(&mut self, pos: u64, data: &[u8], resize: bool) -> (r: Result<(), EditRejection>)
        requires
            old(self).wf(),
        ensures
            final(self).wf(),
            final(self)@.frontier == old(self)@.frontier,
            (final(self)@.region, r) == edited(old(self)@.region, pos, data@, resize),
            r is Err ==> final(self)@ == old(self)@,
    {
        let n = self.region.len();
        let dlen = data.len();
        if pos < 8 {
            return Err(EditRejection::OutOfRegion);
        }
        let len: u64 = match self.word(pos - 8) {
            None => {
                return Err(EditRejection::OutOfRegion);
            },
            Some(l) => l,
        };
        if len > n as u64 {
            return Err(EditRejection::CorruptLength);
        }
        if len == 0 {
            return Err(EditRejection::EmptyBlock);
        }
        if dlen as u64 > len + 8 || dlen as u64 > MAX_EDIT_LEN {
            return Err(EditRejection::TooLong);
        }
        if pos + dlen as u64 > n as u64 {
            return Err(EditRejection::OutOfRegion);
        }
        if resize && (dlen as u64) < len {
            if pos + len + 8 > n as u64 {
                return Err(EditRejection::OutOfRegion);
            }
            let next = read_word(&self.region, (pos + len) as usize);
            let ghost before = self.region@;
            write_bytes(&mut self.region, pos as usize, data);
            proof {
                lemma_word_same(before, self.region@, pos + len);
            }
            write_word(&mut self.region, pos as usize + dlen, next);
            write_word(&mut self.region, (pos - 8) as usize, dlen as u64);
        } else {
            write_bytes(&mut self.region, pos as usize, data);
        }
        Ok(())
    }
}

/// Once the chain has ended it stays ended.
proof fn lemma_block_pos_ended(s: Seq<u8>, i: nat, k: nat)
    requires
        1 <= i <= k,
        block_pos(s, i) == 0,
    ensures
        block_pos(s, k) == 0,
    decreases k - i,
{
    if i < k {
        lemma_block_pos_ended(s, i, (k - 1) as nat);
    }
}

} // verus!
