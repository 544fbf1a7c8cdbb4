//! The duplicate generator: mirrors another slot's current value verbatim;
//! no state of its own, cardinality one.
use vstd::prelude::*;
use crate::items::incrementer::GenSpec;
use crate::text::clone_chars;

verus! {

broadcast use crate::text::group_deep_text;

pub struct DuplicateIncrementer {
    pub source_seg_idx: usize,
}

impl View for DuplicateIncrementer {
    type V = GenSpec;

    open spec fn view(&self) -> GenSpec {
        GenSpec::Duplicate { src: self.source_seg_idx as int }
    }
}

impl DuplicateIncrementer {
    pub fn new(source_seg_idx: usize) -> (r: DuplicateIncrementer)
        ensures
            r@ == (GenSpec::Duplicate { src: source_seg_idx as int }),
    {
        DuplicateIncrementer { source_seg_idx }
    }

    pub fn increment(&mut self, segs: &Vec<Vec<char>>) -> (r: bool)
        ensures
            *final(self) == *old(self),
            !r,
    {
        false
    }

    pub fn reset(&mut self)
        ensures
            *final(self) == *old(self),
    {
    }

    pub fn output(&self, segs: &Vec<Vec<char>>) -> (r: Vec<Vec<char>>)
        requires
            self.source_seg_idx < segs@.len(),
        ensures
            r.deep_view() =~= seq![segs.deep_view()[self.source_seg_idx as int]],
    {
        let mut r: Vec<Vec<char>> = Vec::new();
        r.push(clone_chars(&segs[self.source_seg_idx]));
        proof {
            assert(r.deep_view() =~~= seq![segs.deep_view()[self.source_seg_idx as int]]);
        }
        r
    }
}

} // verus!
