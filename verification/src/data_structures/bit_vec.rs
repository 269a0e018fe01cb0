//! A growable vector of bits.

use vstd::prelude::*;

verus! {

/// Whether bit `i` of `block` is set.
pub open spec fn block_bit(block: u64, i: int) -> bool {
    0 <= i < 64 && (block >> (i as u64)) & 1 == 1
}

/// A vector of bits, stored in blocks of 64 bits.
#[derive(Debug)]
pub struct BitVec {
    blocks: Vec<u64>,
}

impl View for BitVec {
    type V = Set<int>;

    /// The indices of the set bits.
    closed spec fn view(&self) -> Set<int> {
        Set::new(
            |i: int|
                0 <= i < 64 * self.blocks.len() && block_bit(self.blocks[i / 64], i % 64),
        )
    }
}

impl BitVec {
    /// The number of blocks.
    pub closed spec fn spec_block_count(self) -> nat {
        self.blocks@.len()
    }

    /// The blocks, the lowest indices first.
    pub closed spec fn spec_blocks(self) -> Seq<u64> {
        self.blocks@
    }

    /// The set bits lie in the blocks, and are those of the blocks.
    pub proof fn lemma_view(&self)
        ensures
            self.spec_blocks().len() == self.spec_block_count(),
            forall|i: int| #[trigger]
                self@.contains(i) <==> 0 <= i < 64 * self.spec_block_count() && block_bit(
                    self.spec_blocks()[i / 64],
                    i % 64,
                ),
    {
    }

    /// Creates a vector without any bits.
    pub fn new() -> (res: Self)
        ensures
            res@ == Set::<int>::empty(),
            res.spec_block_count() == 0,
    {
        let res = BitVec { blocks: Vec::new() };
        assert(res@ =~= Set::<int>::empty());
        res
    }

    /// Returns the number of blocks.
    pub fn block_count(&self) -> (res: usize)
        ensures
            res == self.spec_block_count(),
    {
        self.blocks.len()
    }

    /// Returns the block with the given index.
    pub fn block(&self, index: usize) -> (res: u64)
        requires
            index < self.spec_block_count(),
        ensures
            res == self.spec_blocks()[index as int],
    {
        self.blocks[index]
    }

    /// Makes room for `bit_count` bits, and clears all of them.
    pub fn set_bit_count_and_clear(&mut self, bit_count: usize)
        ensures
            final(self)@ == Set::<int>::empty(),
            final(self).spec_block_count() == (bit_count as int + 63) / 64,
    {
        let mut block_count: usize = bit_count / 64;
        if bit_count % 64 != 0 {
            block_count = block_count + 1;
        }
        self.blocks.clear();
        let mut i: usize = 0;
        while i < block_count
            invariant
                i <= block_count,
                self.blocks.len() == i,
                forall|j: int| 0 <= j < i ==> self.blocks[j] == 0,
            decreases block_count - i,
        {
            self.blocks.push(0);
            i = i + 1;
        }
        assert(self@ =~= Set::<int>::empty()) by {
            assert forall|j: int| self@.contains(j) implies false by {
                let b: u64 = (j % 64) as u64;
                assert((0u64 >> b) & 1 == 0) by (bit_vector);
            }
        }
    }

    /// Sets the bit with the given index.
    pub fn set(&mut self, index: usize)
        requires
            index < 64 * old(self).spec_block_count(),
        ensures
            final(self)@ == old(self)@.insert(index as int),
            final(self).spec_block_count() == old(self).spec_block_count(),
    {
        let block: usize = index / 64;
        let bit: u64 = (index % 64) as u64;
        let before: u64 = self.blocks[block];
        self.blocks.set(block, before | (1u64 << bit));
        assert(self@ =~= old(self)@.insert(index as int)) by {
            assert forall|j: int|
                self@.contains(j) <==> old(self)@.insert(index as int).contains(j) by {
                if 0 <= j < 64 * self.blocks.len() {
                    let b: u64 = (j % 64) as u64;
                    assert(((before | (1u64 << bit)) >> b) & 1 == 1 <==> (before >> b) & 1 == 1
                        || b == bit) by (bit_vector)
                        requires
                            b < 64,
                            bit < 64,
                    ;
                    if j / 64 == block as int && b == bit {
                        assert(j == index as int);
                    }
                }
            }
        }
    }

    /// Returns whether the bit with the given index is set.
    pub fn get(&self, index: usize) -> (res: bool)
        ensures
            res == self@.contains(index as int),
    {
        let block: usize = index / 64;
        if block < self.blocks.len() {
            (self.blocks[block] >> ((index % 64) as u64)) & 1 == 1
        } else {
            false
        }
    }

    /// Sets every bit that is set in `other`.
    pub fn or(&mut self, other: &BitVec)
        requires
            old(self).spec_block_count() == other.spec_block_count(),
        ensures
            final(self)@ == old(self)@.union(other@),
            final(self).spec_block_count() == old(self).spec_block_count(),
    {
        let count: usize = self.blocks.len();
        let mut i: usize = 0;
        while i < count
            invariant
                i <= count,
                count == self.blocks.len(),
                count == other.blocks.len(),
                count == old(self).blocks.len(),
                forall|j: int|
                    0 <= j < i ==> #[trigger] self.blocks[j] == old(self).blocks[j]
                        | other.blocks[j],
                forall|j: int| i <= j < count ==> #[trigger] self.blocks[j] == old(self).blocks[j],
            decreases count - i,
        {
            let block: u64 = self.blocks[i] | other.blocks[i];
            self.blocks.set(i, block);
            i = i + 1;
        }
        assert(self@ =~= old(self)@.union(other@)) by {
            assert forall|j: int| self@.contains(j) <==> old(self)@.union(other@).contains(j) by {
                if 0 <= j < 64 * self.blocks.len() {
                    let b: u64 = (j % 64) as u64;
                    let x: u64 = old(self).blocks[j / 64];
                    let y: u64 = other.blocks[j / 64];
                    assert(self.blocks[j / 64] == x | y);
                    assert(((x | y) >> b) & 1 == 1 <==> (x >> b) & 1 == 1 || (y >> b) & 1 == 1)
                        by (bit_vector);
                }
            }
        }
    }
}

} // verus!
