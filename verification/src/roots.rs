//! The record of committed roots: one for each child block, in the order of
//! the blocks.
use vstd::prelude::*;
use crate::primitives::{BlockNumber, Digest, ExitError};

verus! {

/// The roots that the operators committed. Block numbers start at 1 and
/// follow one another without a gap; a committed root is never changed or
/// taken out.
#[derive(Debug, PartialEq, Eq)]
pub struct RootCommitment {
    roots: Vec<Digest>,
}

impl View for RootCommitment {
    type V = Map<BlockNumber, Seq<u8>>;

    closed spec fn view(&self) -> Map<BlockNumber, Seq<u8>> {
        Map::new(
            |blk_num: BlockNumber| 1 <= blk_num <= self.roots.len(),
            |blk_num: BlockNumber| self.roots@[blk_num - 1]@,
        )
    }
}

impl Clone for RootCommitment {
    fn clone(&self) -> (copy: Self)
        ensures
            copy@ == self@,
            copy.spec_current_block() == self.spec_current_block(),
    {
        let roots = self.roots.clone();
        assert(forall|i: int| 0 <= i < roots@.len() ==> roots@[i]@ == self.roots@[i]@);
        let copy = RootCommitment { roots };
        assert(copy@ =~= self@);
        copy
    }
}

impl RootCommitment {
    /// The number of the last committed block; 0 before the first.
    pub closed spec fn spec_current_block(&self) -> BlockNumber {
        self.roots.len() as BlockNumber
    }

    /// The blocks with a root are those from 1 to the last committed one.
    pub proof fn lemma_no_gaps(&self)
        ensures
            forall|b: BlockNumber| self@.contains_key(b) <==> 1 <= b <= self.spec_current_block(),
    {
    }

    /// The record with no root in it.
    pub fn new() -> (record: RootCommitment)
        ensures
            record@ == Map::<BlockNumber, Seq<u8>>::empty(),
            record.spec_current_block() == 0,
    {
        let record = RootCommitment { roots: Vec::new() };
        assert(record@ =~= Map::<BlockNumber, Seq<u8>>::empty());
        record
    }

    /// The number of the last committed block; 0 before the first.
    pub fn current_block(&self) -> (blk_num: BlockNumber)
        ensures
            blk_num == self.spec_current_block(),
            forall|b: BlockNumber| self@.contains_key(b) <==> 1 <= b <= blk_num,
    {
        self.roots.len() as u64
    }

    /// The root committed for the block `blk_num`, if there is one.
    pub fn get(&self, blk_num: BlockNumber) -> (root: Option<Digest>)
        ensures
            match root {
                Some(digest) => self@.contains_key(blk_num) && self@[blk_num] == digest@,
                None => !self@.contains_key(blk_num),
            },
    {
        if blk_num == 0 || blk_num > self.roots.len() as u64 {
            return None;
        }
        Some(self.roots[(blk_num - 1) as usize])
    }

    /// Commits `root` for the block after the last committed one and gives
    /// that block's number. Where the number cannot be counted any further,
    /// nothing is committed.
    pub fn commit(&mut self, root: Digest) -> (r: Result<BlockNumber, ExitError>)
        ensures
            match r {
                Ok(blk_num) => old(self).spec_current_block() < u64::MAX
                    && blk_num == old(self).spec_current_block() + 1
                    && final(self).spec_current_block() == blk_num
                    && final(self)@ == old(self)@.insert(blk_num, root@),
                Err(e) => e == ExitError::ArithmeticOverflow && old(self).spec_current_block()
                    == u64::MAX && final(self)@ == old(self)@ && final(self).spec_current_block()
                    == old(self).spec_current_block(),
            },
    {
        let current: u64 = self.roots.len() as u64;
        let next = match current.checked_add(1) {
            Some(next) => next,
            None => { return Err(ExitError::ArithmeticOverflow); },
        };
        self.roots.push(root);
        assert(self@ =~= old(self)@.insert(next, root@));
        Ok(next)
    }
}

} // verus!
