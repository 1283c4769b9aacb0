use vstd::prelude::*;

verus! {

/// Identifier of a block type.
pub type BlockId = u16;

/// The empty block.
pub const AIR: BlockId = 0;

/// Position of a chunk in chunk coordinates.
#[derive(Clone, Copy, Debug, PartialEq, Eq, Hash, Structural)]
pub struct ChunkPos {
    pub x: i32,
    pub y: i32,
    pub z: i32,
}

/// A cubic grid of blocks, `size` blocks along each axis.
pub struct Chunk {
    size: u32,
    blocks: Vec<BlockId>,
}

pub open spec fn block_index(size: int, x: int, y: int, z: int) -> int {
    x + size * (y + size * z)
}

pub proof fn lemma_block_index_bounds(s: int, x: int, y: int, z: int)
    by (nonlinear_arith)
    requires
        0 <= x < s,
        0 <= y < s,
        0 <= z < s,
    ensures
        0 <= s * z <= s * s - s,
        s * s <= s * s * s,
        0 <= y + s * z < s * s,
        0 <= s * (y + s * z) <= s * s * s - s,
        0 <= block_index(s, x, y, z) < s * s * s,
{
}

impl Chunk {
    /// A well-formed chunk stores exactly `size³` blocks.
    pub closed spec fn wf(&self) -> bool {
        self.blocks@.len() == (self.size as int) * (self.size as int) * (self.size as int)
    }

    pub closed spec fn spec_size(&self) -> u32 {
        self.size
    }

    /// The block at `(x, y, z)`; meaningful for coordinates inside the chunk.
    pub closed spec fn block_at(&self, x: int, y: int, z: int) -> BlockId {
        self.blocks@[block_index(self.size as int, x, y, z)]
    }

    /// Creates a chunk filled with air.
    pub fn new(size: u32) -> (chunk: Chunk)
        requires
            (size as int) * (size as int) * (size as int) <= usize::MAX,
        ensures
            chunk.wf(),
            chunk.spec_size() == size,
            forall|x: int, y: int, z: int|
                0 <= x < size && 0 <= y < size && 0 <= z < size ==> #[trigger] chunk.block_at(x, y, z)
                    == AIR,
    {
        let s = size as usize;
        proof {
            assert((s as int) * (s as int) <= (s as int) * (s as int) * (s as int) || s == 0) by (nonlinear_arith)
                requires s >= 0;
        }
        let total: usize = if s == 0 { 0 } else { s * s * s };
        let mut blocks: Vec<BlockId> = Vec::new();
        let mut k: usize = 0;
        while k < total
            invariant
                k <= total,
                blocks@.len() == k,
                forall|m: int| 0 <= m < k ==> blocks@[m] == AIR,
            decreases total - k,
        {
            blocks.push(AIR);
            k = k + 1;
        }
        let chunk = Chunk { size, blocks };
        proof {
            if s == 0 {
                assert((size as int) * (size as int) * (size as int) == 0) by (nonlinear_arith)
                    requires size == 0;
            }
            assert forall|x: int, y: int, z: int|
                0 <= x < size && 0 <= y < size && 0 <= z < size implies #[trigger] chunk.block_at(x, y, z)
                    == AIR by {
                lemma_block_index_bounds(size as int, x, y, z);
            }
        }
        chunk
    }

    /// Number of blocks along each axis.
    pub fn size(&self) -> (s: u32)
        ensures
            s == self.spec_size(),
    {
        self.size
    }

    /// Reads the block at `(x, y, z)`.
    pub fn get_block(&self, x: u32, y: u32, z: u32) -> (b: BlockId)
        requires
            self.wf(),
            x < self.spec_size(),
            y < self.spec_size(),
            z < self.spec_size(),
        ensures
            b == self.block_at(x as int, y as int, z as int),
    {
        proof {
            lemma_block_index_bounds(self.size as int, x as int, y as int, z as int);
        }
        let n = self.blocks.len();
        let s = self.size as usize;
        let idx = (x as usize) + s * ((y as usize) + s * (z as usize));
        self.blocks[idx]
    }

    /// Writes the block at `(x, y, z)`, leaving every other block unchanged.
    pub fn set_block(&mut self, x: u32, y: u32, z: u32, block: BlockId)
        requires
            old(self).wf(),
            x < old(self).spec_size(),
            y < old(self).spec_size(),
            z < old(self).spec_size(),
        ensures
            final(self).wf(),
            final(self).spec_size() == old(self).spec_size(),
            forall|a: int, b: int, c: int|
                0 <= a < old(self).spec_size() && 0 <= b < old(self).spec_size() && 0 <= c
                    < old(self).spec_size() ==> #[trigger] final(self).block_at(a, b, c) == if a
                    == x && b == y && c == z {
                    block
                } else {
                    old(self).block_at(a, b, c)
                },
    {
        let ghost s0 = self.size as int;
        proof {
            lemma_block_index_bounds(s0, x as int, y as int, z as int);
        }
        let n = self.blocks.len();
        let s = self.size as usize;
        let idx = (x as usize) + s * ((y as usize) + s * (z as usize));
        self.blocks.set(idx, block);
        proof {
            assert forall|a: int, b: int, c: int|
                0 <= a < s0 && 0 <= b < s0 && 0 <= c < s0 implies #[trigger] self.block_at(a, b, c)
                    == if a == x && b == y && c == z {
                    block
                } else {
                    old(self).block_at(a, b, c)
                } by {
                lemma_block_index_bounds(s0, a, b, c);
                if !(a == x && b == y && c == z) {
                    lemma_block_index_injective(s0, a, b, c, x as int, y as int, z as int);
                }
            }
        }
    }
}

pub proof fn lemma_block_index_injective(s: int, a: int, b: int, c: int, x: int, y: int, z: int)
    by (nonlinear_arith)
    requires
        0 <= a < s,
        0 <= b < s,
        0 <= c < s,
        0 <= x < s,
        0 <= y < s,
        0 <= z < s,
    ensures
        block_index(s, a, b, c) == block_index(s, x, y, z) ==> a == x && b == y && c == z,
{
}

} // verus!
