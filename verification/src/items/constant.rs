//! The constant generator: one literal value, cardinality one.
use vstd::prelude::*;
use crate::items::incrementer::GenSpec;
use crate::text::{clone_chars, str_to_chars};

verus! {

broadcast use crate::text::group_deep_text;

pub struct ConstantIncrementer {
    pub value: Vec<char>,
}

impl View for ConstantIncrementer {
    type V = GenSpec;

    open spec fn view(&self) -> GenSpec {
        GenSpec::Constant { value: self.value@ }
    }
}

impl ConstantIncrementer {
    pub fn new(value: String) -> (r: ConstantIncrementer)
        ensures
            r@ == (GenSpec::Constant { value: value@ }),
    {
        ConstantIncrementer { value: str_to_chars(value.as_str()) }
    }

    pub fn increment(&mut self, segs: &Vec<Vec<char>>) -> (r: bool)
        ensures
            *final(self) == *old(self),
            !r,
    {
        false
    }

    pub fn reset(&mut self)
        ensures
            *final(self) == *old(self),
    {
    }

    pub fn output(&self, segs: &Vec<Vec<char>>) -> (r: Vec<Vec<char>>)
        ensures
            r.deep_view() =~= seq![self.value@],
    {
        let mut r: Vec<Vec<char>> = Vec::new();
        r.push(clone_chars(&self.value));
        proof {
            assert(r.deep_view() =~~= seq![self.value@]);
        }
        r
    }
}

} // verus!
