//! The case modifier: wraps a source slot and emits the source text under
//! each case variant of the user-selected subset, in the fixed variant
//! order (original, lowercase, uppercase, titlecase).
use vstd::prelude::*;
use crate::items::incrementer::GenSpec;
use crate::recipe_step::{case_from_index, case_selected, CaseModifiers};
use crate::text::{chars_to_string, clone_chars, lower_seq, lower_vec, str_to_chars, upper_seq,
    upper_vec};

verus! {

broadcast use crate::text::group_deep_text;

/// What `to_titlecase_lower_rest` returns: the first character titlecased,
/// the rest lowercased, by the full Unicode mapping. The result depends on
/// the characters alone.
pub uninterp spec fn title_lower_rest_of(s: Seq<char>) -> Seq<char>;

/// Relies on `unicode_titlecase::StrTitleCase::to_titlecase_lower_rest`:
/// titlecases the first character and lowercases the remainder, a function
/// of the input characters alone.
#[verifier::external_body]
fn titlecase_lower_rest(s: &String) -> (r: String)
    ensures
        r@ == title_lower_rest_of(s@),
{
    unicode_titlecase::StrTitleCase::to_titlecase_lower_rest(s.as_str())
}

/// How many case variants are selected.
pub open spec fn sel_count(m: CaseModifiers) -> int {
    (if m.originalcase {
        1int
    } else {
        0int
    }) + (if m.lowercase {
        1int
    } else {
        0int
    }) + (if m.uppercase {
        1int
    } else {
        0int
    }) + (if m.titlecase {
        1int
    } else {
        0int
    })
}

/// Cardinality of a case modifier: one value per selected variant, and a
/// single value (the untouched source) when nothing is selected.
pub open spec fn case_card(m: CaseModifiers) -> int {
    if sel_count(m) == 0 {
        1
    } else {
        sel_count(m)
    }
}

/// How many selected variants lie strictly below position `c`.
pub open spec fn sel_below(m: CaseModifiers, c: int) -> int {
    (if m.originalcase && 0 < c {
        1int
    } else {
        0int
    }) + (if m.lowercase && 1 < c {
        1int
    } else {
        0int
    }) + (if m.uppercase && 2 < c {
        1int
    } else {
        0int
    }) + (if m.titlecase && 3 < c {
        1int
    } else {
        0int
    })
}

/// The first selected variant position; original case when none is chosen.
pub open spec fn first_sel(m: CaseModifiers) -> int {
    if m.originalcase {
        0
    } else if m.lowercase {
        1
    } else if m.uppercase {
        2
    } else if m.titlecase {
        3
    } else {
        0
    }
}

/// The source text transformed by the case variant at position `i`.
pub open spec fn case_apply(i: int, text: Seq<char>) -> Seq<char> {
    if i == 1 {
        lower_seq(text)
    } else if i == 2 {
        upper_seq(text)
    } else if i == 3 {
        title_lower_rest_of(text)
    } else {
        text
    }
}

pub struct CaseModifierIncrementer {
    pub source_seg_idx: usize,
    pub modifiers: CaseModifiers,
    pub start_case: usize,
    pub cur_case: usize,
}

impl View for CaseModifierIncrementer {
    type V = GenSpec;

    open spec fn view(&self) -> GenSpec {
        GenSpec::Case { src: self.source_seg_idx as int, mods: self.modifiers }
    }
}

impl CaseModifierIncrementer {
    pub open spec fn sane(&self) -> bool {
        &&& self.cur_case <= 3
        &&& self.start_case == first_sel(self.modifiers)
        &&& if sel_count(self.modifiers) == 0 {
            self.cur_case == 0
        } else {
            case_selected(self.modifiers, self.cur_case as int)
        }
    }

    /// Position of the current variant within the selected subset.
    pub open spec fn cursor(&self) -> int {
        sel_below(self.modifiers, self.cur_case as int)
    }

    pub fn new(source_seg_idx: usize, modifiers: CaseModifiers) -> (r: CaseModifierIncrementer)
        ensures
            r@ == (GenSpec::Case { src: source_seg_idx as int, mods: modifiers }),
            r.sane(),
            r.cursor() == 0,
    {
        let start_case: usize = if modifiers.originalcase {
            0
        } else if modifiers.lowercase {
            1
        } else if modifiers.uppercase {
            2
        } else if modifiers.titlecase {
            3
        } else {
            0
        };
        CaseModifierIncrementer { source_seg_idx, modifiers, start_case, cur_case: start_case }
    }

    pub fn increment(&mut self, segs: &Vec<Vec<char>>) -> (r: bool)
        requires
            old(self).sane(),
        ensures
            final(self)@ == old(self)@,
            final(self).sane(),
            r == (old(self).cursor() + 1 < case_card(old(self).modifiers)),
            r ==> final(self).cursor() == old(self).cursor() + 1,
            !r ==> final(self).cursor() == old(self).cursor(),
    {
        let mut c: usize = self.cur_case + 1;
        while c <= 3 && !self.modifiers.includes_case(case_from_index(c))
            invariant
                old(self).cur_case < c <= 4,
                sel_below(old(self).modifiers, c as int) == sel_below(
                    old(self).modifiers,
                    old(self).cur_case + 1,
                ),
                *self == *old(self),
            decreases 4 - c,
        {
            c = c + 1;
        }
        if c <= 3 {
            self.cur_case = c;
            true
        } else {
            false
        }
    }

    pub fn reset(&mut self)
        requires
            old(self).sane(),
        ensures
            final(self)@ == old(self)@,
            final(self).sane(),
            final(self).cursor() == 0,
    {
        self.cur_case = self.start_case;
    }

    pub fn output(&self, segs: &Vec<Vec<char>>) -> (r: Vec<Vec<char>>)
        requires
            self.sane(),
            self.source_seg_idx < segs@.len(),
        ensures
            r.deep_view() =~= seq![
                case_apply(self.cur_case as int, segs.deep_view()[self.source_seg_idx as int]),
            ],
    {
        let text = &segs[self.source_seg_idx];
        let out: Vec<char> = if self.cur_case == 0 {
            clone_chars(text)
        } else if self.cur_case == 1 {
            lower_vec(text)
        } else if self.cur_case == 2 {
            upper_vec(text)
        } else {
            let s = chars_to_string(text);
            let t = titlecase_lower_rest(&s);
            str_to_chars(t.as_str())
        };
        let mut r: Vec<Vec<char>> = Vec::new();
        r.push(out);
        proof {
            assert(segs.deep_view()[self.source_seg_idx as int] =~= segs@[self.source_seg_idx as int]@);
            assert(out@ == case_apply(
                self.cur_case as int,
                segs.deep_view()[self.source_seg_idx as int],
            ));
            assert(r.deep_view() =~~= seq![
                case_apply(self.cur_case as int, segs.deep_view()[self.source_seg_idx as int]),
            ]);
        }
        r
    }
}

} // verus!
