//! The legal-move cache: one flag per board cell, with the number of flags
//! set, so that emptiness can be answered at once.

use vstd::prelude::*;
use crate::counting::{count, lemma_count_push, lemma_count_update, lemma_count_zero};
use crate::position::{BOARD_DIMENSION, BOARD_CELLS, Position, idx};

verus! {

/// A set of board coordinates, stored as one flag per cell (row-major)
/// beside the number of flags set.
pub struct BoardLUT {
    pub m_lut: Vec<bool>,
    pub m_num_set: usize,
}

impl View for BoardLUT {
    type V = Seq<bool>;

    open spec fn view(&self) -> Seq<bool> {
        self.m_lut@
    }
}

impl BoardLUT {
    /// One flag per cell, and the stored size is the number of set flags.
    pub open spec fn wf(&self) -> bool {
        &&& self@.len() == 64
        &&& self.m_num_set == count(self@, true)
    }

    /// The empty set.
    pub fn new() -> (lut: BoardLUT)
        ensures
            lut.wf(),
            forall|i: int| 0 <= i < 64 ==> lut@[i] == false,
    {
        let mut flags: Vec<bool> = Vec::new();
        let mut i: usize = 0;
        while i < BOARD_CELLS
            invariant
                i <= 64,
                flags@.len() == i,
                forall|j: int| 0 <= j < i ==> flags@[j] == false,
                count(flags@, true) == 0,
            decreases 64 - i,
        {
            proof {
                lemma_count_push(flags@, false, true);
            }
            flags.push(false);
            i = i + 1;
        }
        BoardLUT { m_lut: flags, m_num_set: 0 }
    }

    /// Add an in-bounds coordinate that is not yet in the set.
    pub fn insert(&mut self, pos: &Position)
        requires
            old(self).wf(),
            pos.spec_in_bound(),
            old(self)@[idx(pos.spec_row(), pos.spec_col())] == false,
        ensures
            final(self).wf(),
            final(self)@ == old(self)@.update(idx(pos.spec_row(), pos.spec_col()), true),
    {
        let row = pos.m_row as usize;
        let col = pos.m_col as usize;
        proof {
            lemma_count_update(self@, idx(pos.spec_row(), pos.spec_col()), true, true);
            crate::counting::lemma_count_le_len(self@, true);
        }
        self.m_lut[row * BOARD_DIMENSION + col] = true;
        self.m_num_set = self.m_num_set + 1;
    }

    /// Whether the coordinate is in the set.
    pub fn contains(&self, pos: &Position) -> (r: bool)
        requires
            self.wf(),
            pos.spec_in_bound(),
        ensures
            r == self@[idx(pos.spec_row(), pos.spec_col())],
    {
        let row = pos.m_row as usize;
        let col = pos.m_col as usize;
        self.m_lut[row * BOARD_DIMENSION + col]
    }

    /// Whether the set holds no coordinate at all.
    pub fn is_empty(&self) -> (r: bool)
        requires
            self.wf(),
        ensures
            r == (forall|i: int| 0 <= i < 64 ==> self@[i] == false),
    {
        proof {
            lemma_count_zero(self@, true);
        }
        0 == self.m_num_set
    }
}

} // verus!
