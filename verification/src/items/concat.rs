//! The concat generator: always emits the concatenation of its source
//! slots' current values as one value; cardinality one.
use vstd::prelude::*;
use crate::items::incrementer::GenSpec;
use crate::text::append_chars;

verus! {

broadcast use crate::text::group_deep_text;

/// Concatenation of the values of the listed slots, in order.
pub open spec fn cat_values(srcs: Seq<int>, segs: Seq<Seq<char>>) -> Seq<char>
    decreases srcs.len(),
{
    if srcs.len() == 0 {
        Seq::empty()
    } else {
        cat_values(srcs.drop_last(), segs) + segs[srcs.last()]
    }
}

pub struct ConcatIncrementer {
    pub source_id_indices: Vec<usize>,
}

impl View for ConcatIncrementer {
    type V = GenSpec;

    open spec fn view(&self) -> GenSpec {
        GenSpec::Concat { srcs: crate::items::incrementer::to_ints(self.source_id_indices@) }
    }
}

impl ConcatIncrementer {
    pub fn new(source_id_indices: Vec<usize>) -> (r: ConcatIncrementer)
        ensures
            r@ == (GenSpec::Concat {
                srcs: crate::items::incrementer::to_ints(source_id_indices@),
            }),
    {
        ConcatIncrementer { source_id_indices }
    }

    pub fn increment(&mut self, segs: &Vec<Vec<char>>) -> (r: bool)
        ensures
            *final(self) == *old(self),
            !r,
    {
        false
    }

    pub fn reset(&mut self)
        ensures
            *final(self) == *old(self),
    {
    }

    pub fn output(&self, segs: &Vec<Vec<char>>) -> (r: Vec<Vec<char>>)
        requires
            forall|i: int|
                0 <= i < self.source_id_indices@.len()
                    ==> #[trigger] self.source_id_indices@[i] < segs@.len(),
        ensures
            r.deep_view() =~= seq![
                cat_values(
                    crate::items::incrementer::to_ints(self.source_id_indices@),
                    segs.deep_view(),
                ),
            ],
    {
        let ghost srcs = crate::items::incrementer::to_ints(self.source_id_indices@);
        let mut acc: Vec<char> = Vec::new();
        let mut i: usize = 0;
        while i < self.source_id_indices.len()
            invariant
                i <= self.source_id_indices@.len(),
                forall|j: int|
                    0 <= j < self.source_id_indices@.len()
                        ==> #[trigger] self.source_id_indices@[j] < segs@.len(),
                srcs == crate::items::incrementer::to_ints(self.source_id_indices@),
                acc@ == cat_values(srcs.take(i as int), segs.deep_view()),
            decreases self.source_id_indices@.len() - i,
        {
            append_chars(&mut acc, &segs[self.source_id_indices[i]]);
            proof {
                assert(srcs.take(i + 1).drop_last() =~= srcs.take(i as int));
                assert(segs.deep_view()[srcs.take(i + 1).last()] == segs.deep_view()[srcs[i as int]]);
            }
            i = i + 1;
        }
        proof {
            assert(srcs.take(srcs.len() as int) =~= srcs);
        }
        let mut r: Vec<Vec<char>> = Vec::new();
        r.push(acc);
        proof {
            assert(r.deep_view() =~~= seq![cat_values(srcs, segs.deep_view())]);
        }
        r
    }
}

} // verus!
