//! The character-replace generator: wraps a source slot and a list of
//! (from, to) rules, and emits, one at a time, every single-occurrence
//! substitution, after an initial no-substitution value. Occurrence
//! positions are recomputed from the live source text on every advance.
use vstd::prelude::*;
use crate::items::incrementer::GenSpec;
use crate::text::clone_chars;

verus! {

broadcast use crate::text::group_deep_text;

/// The positions (in order) where `c` occurs in `text`.
pub open spec fn occ_positions(text: Seq<char>, c: char) -> Seq<int>
    decreases text.len(),
{
    if text.len() == 0 {
        Seq::empty()
    } else {
        let rest = occ_positions(text.drop_last(), c);
        if text.last() == c {
            rest.push(text.len() - 1)
        } else {
            rest
        }
    }
}

/// Occurrences of the first `t` rules' `from` characters, summed.
pub open spec fn sum_occ(text: Seq<char>, rules: Seq<(char, char)>, t: int) -> int
    decreases t,
{
    if t <= 0 {
        0
    } else {
        sum_occ(text, rules, t - 1) + occ_positions(text, rules[t - 1].0).len()
    }
}

/// Cardinality of a character-replace generator against the current source
/// text: one implicit no-substitution value plus one value per occurrence
/// of each rule's `from` character.
pub open spec fn replace_card(text: Seq<char>, rules: Seq<(char, char)>) -> int {
    1 + sum_occ(text, rules, rules.len() as int)
}

pub proof fn lemma_sum_occ_mono(text: Seq<char>, rules: Seq<(char, char)>, a: int, b: int)
    requires
        a <= b,
    ensures
        sum_occ(text, rules, a) <= sum_occ(text, rules, b),
    decreases b - a,
{
    if a < b {
        lemma_sum_occ_mono(text, rules, a, b - 1);
    }
}

pub struct ReplaceIncrementer {
    pub source_seg_idx: usize,
    pub replacements: Vec<(char, char)>,
    pub repl_type_idx: usize,
    pub repl_loc_idx: Option<usize>,
    pub repl_loc: Option<usize>,
}

impl View for ReplaceIncrementer {
    type V = GenSpec;

    open spec fn view(&self) -> GenSpec {
        GenSpec::Replace { src: self.source_seg_idx as int, rules: self.replacements@ }
    }
}

/// The positions where `c` occurs in `text`, as index values.
pub fn occ_positions_exec(text: &Vec<char>, c: char) -> (r: Vec<usize>)
    ensures
        crate::items::incrementer::to_ints(r@) == occ_positions(text@, c),
{
    let mut r: Vec<usize> = Vec::new();
    let mut i: usize = 0;
    while i < text.len()
        invariant
            i <= text@.len(),
            crate::items::incrementer::to_ints(r@) == occ_positions(text@.take(i as int), c),
        decreases text@.len() - i,
    {
        let ghost pre = crate::items::incrementer::to_ints(r@);
        if text[i] == c {
            r.push(i);
        }
        proof {
            assert(text@.take(i + 1).drop_last() =~= text@.take(i as int));
            if text@[i as int] == c {
                assert(crate::items::incrementer::to_ints(r@) =~= pre.push(i as int));
            }
            assert(crate::items::incrementer::to_ints(r@) =~= occ_positions(text@.take(i + 1), c));
        }
        i = i + 1;
    }
    proof {
        assert(text@.take(text@.len() as int) =~= text@);
    }
    r
}

impl ReplaceIncrementer {
    /// Internal consistency that does not look at the slot table.
    pub open spec fn sane(&self) -> bool {
        &&& self.repl_type_idx <= self.replacements@.len()
        &&& (self.repl_loc_idx is None ==> self.repl_type_idx == 0 && self.repl_loc is None)
        &&& (self.repl_loc_idx is Some ==> self.repl_type_idx < self.replacements@.len()
            && self.repl_loc is Some)
    }

    /// Consistency with the current source text: the stored occurrence
    /// index and position name a real occurrence of the current rule.
    pub open spec fn wf(&self, segs: Seq<Seq<char>>) -> bool {
        &&& self.sane()
        &&& self.source_seg_idx < segs.len()
        &&& (self.repl_loc_idx matches Some(l) ==> {
            let locs = occ_positions(
                segs[self.source_seg_idx as int],
                self.replacements@[self.repl_type_idx as int].0,
            );
            &&& (l as int) < locs.len()
            &&& self.repl_loc matches Some(p) && p == locs[l as int]
        })
    }

    pub open spec fn cursor(&self, segs: Seq<Seq<char>>) -> int {
        if self.repl_loc_idx is None {
            0
        } else {
            1 + sum_occ(
                segs[self.source_seg_idx as int],
                self.replacements@,
                self.repl_type_idx as int,
            ) + self.repl_loc_idx->Some_0
        }
    }

    /// The rendered value: the source text with the chosen occurrence
    /// substituted, or the source text itself in the no-substitution state.
    pub open spec fn out_spec(&self, segs: Seq<Seq<char>>) -> Seq<char> {
        let text = segs[self.source_seg_idx as int];
        if self.repl_loc is Some && (self.repl_loc->Some_0 as int) < text.len()
            && self.repl_type_idx < self.replacements@.len() {
            text.update(self.repl_loc->Some_0 as int, self.replacements@[self.repl_type_idx as int].1)
        } else {
            text
        }
    }

    pub fn new(source_seg_idx: usize, replacements: Vec<(char, char)>) -> (r: ReplaceIncrementer)
        ensures
            r@ == (GenSpec::Replace { src: source_seg_idx as int, rules: replacements@ }),
            r.sane(),
            forall|segs: Seq<Seq<char>>| r.cursor(segs) == 0,
            r.repl_loc is None,
    {
        ReplaceIncrementer {
            source_seg_idx,
            replacements,
            repl_type_idx: 0,
            repl_loc_idx: None,
            repl_loc: None,
        }
    }

    pub fn increment(&mut self, segs: &Vec<Vec<char>>) -> (r: bool)
        requires
            old(self).sane(),
            old(self).source_seg_idx < segs@.len(),
        ensures
            final(self)@ == old(self)@,
            final(self).source_seg_idx == old(self).source_seg_idx,
            final(self).sane(),
            old(self).wf(segs.deep_view()) ==> {
                let c = old(self).cursor(segs.deep_view());
                let n = replace_card(
                    segs.deep_view()[old(self).source_seg_idx as int],
                    old(self).replacements@,
                );
                &&& r == (c + 1 < n)
                &&& (r ==> final(self).wf(segs.deep_view()) && final(self).cursor(segs.deep_view())
                    == c + 1)
                &&& (!r ==> final(self).repl_loc_idx is None)
            },
            !r ==> forall|s: Seq<Seq<char>>| final(self).cursor(s) == 0,
    {
        let ghost dsegs = segs.deep_view();
        let ghost text0 = dsegs[self.source_seg_idx as int];
        let ghost rules = self.replacements@;
        let ghost oldc = old(self).cursor(dsegs);
        let text = &segs[self.source_seg_idx];
        proof {
            assert(text@ == text0);
        }
        let start_t = self.repl_type_idx;
        let mut t = self.repl_type_idx;
        let mut fresh_level: bool = self.repl_loc_idx.is_none();
        while t < self.replacements.len()
            invariant
                start_t <= t <= self.replacements@.len(),
                *self == *old(self),
                rules == self.replacements@,
                text@ == text0,
                self.source_seg_idx < segs@.len(),
                dsegs == segs.deep_view(),
                text0 == dsegs[self.source_seg_idx as int],
                oldc == old(self).cursor(dsegs),
                old(self).sane(),
                fresh_level ==> (t > start_t || self.repl_loc_idx is None),
                !fresh_level ==> t == start_t && self.repl_loc_idx is Some,
                old(self).wf(dsegs) ==> {
                    let lvl: int = if fresh_level {
                        0
                    } else {
                        self.repl_loc_idx->Some_0 + 1
                    };
                    &&& 1 + sum_occ(text0, rules, t as int) + lvl == oldc + 1
                    &&& (t < rules.len() ==> lvl <= occ_positions(text0, rules[t as int].0).len())
                },
            decreases self.replacements@.len() - t,
        {
            let locs = occ_positions_exec(text, self.replacements[t].0);
            let next_l: usize = if fresh_level {
                0
            } else {
                match self.repl_loc_idx {
                    Some(l) => {
                        if l < locs.len() {
                            l + 1
                        } else {
                            locs.len()
                        }
                    },
                    None => 0,
                }
            };
            if next_l < locs.len() {
                let p = locs[next_l];
                proof {
                    assert(crate::items::incrementer::to_ints(locs@).len() == locs@.len());
                    assert(locs@.len() == occ_positions(text0, rules[t as int].0).len());
                    if old(self).wf(dsegs) {
                        if !fresh_level {
                            let l = self.repl_loc_idx->Some_0;
                            assert((l as int) < occ_positions(text0, rules[t as int].0).len());
                            assert(next_l == l + 1);
                        }
                        assert(1 + sum_occ(text0, rules, t as int) + next_l == oldc + 1);
                        assert(sum_occ(text0, rules, t + 1) == sum_occ(text0, rules, t as int)
                            + occ_positions(text0, rules[t as int].0).len());
                        lemma_sum_occ_mono(text0, rules, t + 1, rules.len() as int);
                        assert(oldc + 1 < replace_card(text0, rules));
                    }
                }
                self.repl_type_idx = t;
                self.repl_loc_idx = Some(next_l);
                self.repl_loc = Some(p);
                proof {
                    if old(self).wf(dsegs) {
                        assert(crate::items::incrementer::to_ints(locs@)[next_l as int] == locs@[next_l as int] as int);
                        assert(self.cursor(dsegs) == oldc + 1);
                        assert(self.wf(dsegs));
                    }
                }
                return true;
            }
            fresh_level = true;
            t = t + 1;
        }
        self.repl_type_idx = 0;
        self.repl_loc_idx = None;
        self.repl_loc = None;
        false
    }

    pub fn reset(&mut self)
        ensures
            final(self)@ == old(self)@,
            final(self).source_seg_idx == old(self).source_seg_idx,
            final(self).sane(),
            final(self).repl_loc is None,
            forall|s: Seq<Seq<char>>| final(self).cursor(s) == 0,
    {
        self.repl_type_idx = 0;
        self.repl_loc_idx = None;
        self.repl_loc = None;
    }

    pub fn output(&self, segs: &Vec<Vec<char>>) -> (r: Vec<Vec<char>>)
        requires
            self.source_seg_idx < segs@.len(),
        ensures
            r.deep_view() =~= seq![self.out_spec(segs.deep_view())],
    {
        let text = &segs[self.source_seg_idx];
        let mut out = clone_chars(text);
        match self.repl_loc {
            Some(loc) => {
                if loc < out.len() && self.repl_type_idx < self.replacements.len() {
                    out[loc] = self.replacements[self.repl_type_idx].1;
                }
            },
            None => {},
        }
        let mut r: Vec<Vec<char>> = Vec::new();
        r.push(out);
        proof {
            assert(r.deep_view() =~~= seq![self.out_spec(segs.deep_view())]);
        }
        r
    }
}

} // verus!
