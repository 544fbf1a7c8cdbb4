//! The optional modifier: wraps a source slot; first the source text
//! unchanged, then the empty string. Cardinality two, always.
use vstd::prelude::*;
use crate::items::incrementer::GenSpec;
use crate::text::clone_chars;

verus! {

broadcast use crate::text::group_deep_text;

pub struct OptionalModifierIncrementer {
    pub source_seg_idx: usize,
    pub current_include: bool,
}

impl View for OptionalModifierIncrementer {
    type V = GenSpec;

    open spec fn view(&self) -> GenSpec {
        GenSpec::Optional { src: self.source_seg_idx as int }
    }
}

impl OptionalModifierIncrementer {
    pub fn new(source_seg_idx: usize) -> (r: OptionalModifierIncrementer)
        ensures
            r@ == (GenSpec::Optional { src: source_seg_idx as int }),
            r.cursor() == 0,
    {
        OptionalModifierIncrementer { source_seg_idx, current_include: true }
    }

    pub open spec fn cursor(&self) -> int {
        if self.current_include {
            0
        } else {
            1
        }
    }

    pub fn increment(&mut self, segs: &Vec<Vec<char>>) -> (r: bool)
        ensures
            final(self)@ == old(self)@,
            r == (old(self).cursor() + 1 < 2),
            r ==> final(self).cursor() == old(self).cursor() + 1,
            !r ==> final(self).cursor() == old(self).cursor(),
    {
        if self.current_include {
            self.current_include = false;
            true
        } else {
            false
        }
    }

    pub fn reset(&mut self)
        ensures
            final(self)@ == old(self)@,
            final(self).cursor() == 0,
    {
        self.current_include = true;
    }

    pub fn output(&self, segs: &Vec<Vec<char>>) -> (r: Vec<Vec<char>>)
        requires
            self.source_seg_idx < segs@.len(),
        ensures
            r.deep_view() =~= seq![
                optional_value(self@, self.cursor(), segs.deep_view()),
            ],
    {
        let mut r: Vec<Vec<char>> = Vec::new();
        if self.current_include {
            r.push(clone_chars(&segs[self.source_seg_idx]));
        } else {
            r.push(Vec::new());
        }
        proof {
            assert(r.deep_view() =~~= seq![
                optional_value(self@, self.cursor(), segs.deep_view()),
            ]);
        }
        r
    }
}

/// The value emitted at cursor `k`: the source text, then the empty string.
pub open spec fn optional_value(g: GenSpec, k: int, segs: Seq<Seq<char>>) -> Seq<char> {
    match g {
        GenSpec::Optional { src } => if k == 0 {
            segs[src]
        } else {
            Seq::empty()
        },
        _ => Seq::empty(),
    }
}

} // verus!
