//! The closed set of generator variants, with one abstract model shared by
//! the pipeline builder and the enumeration driver: every generator has a
//! configuration (`GenSpec`), a cursor, a cardinality, and a rendered
//! output, and the three operations advance, reset and render.
use vstd::prelude::*;
use crate::items::case_modifier::{case_apply, case_card, CaseModifierIncrementer};
use crate::items::concat::{cat_values, ConcatIncrementer};
use crate::items::constant::ConstantIncrementer;
use crate::items::duplicate::DuplicateIncrementer;
use crate::items::mask::{mask_card, mask_output, MaskCharType, MaskIncrementer};
use crate::items::optional_modifier::{optional_value, OptionalModifierIncrementer};
use crate::items::rearrange::{fact, RearrangeIncrementer};
use crate::items::replace::{replace_card, ReplaceIncrementer};
use crate::items::wordlist::{wordlist_card, wordlist_value, WordlistIncrementer};
use crate::recipe_step::CaseModifiers;

verus! {

broadcast use crate::text::group_deep_text;

/// A sequence of slot indices, as mathematical integers.
pub open spec fn to_ints(v: Seq<usize>) -> Seq<int> {
    v.map_values(|x: usize| x as int)
}

/// The configuration of one generator, with all state stripped away.
pub enum GenSpec {
    Wordlist { lines: Seq<Seq<char>> },
    Mask { types: Seq<MaskCharType> },
    Constant { value: Seq<char> },
    Duplicate { src: int },
    Case { src: int, mods: CaseModifiers },
    Optional { src: int },
    Rearrange { srcs: Seq<int> },
    Concat { srcs: Seq<int> },
    Replace { src: int, rules: Seq<(char, char)> },
}

/// How many slots the generator writes per render.
pub open spec fn gen_arity(g: GenSpec) -> int {
    match g {
        GenSpec::Rearrange { srcs } => srcs.len() as int,
        _ => 1,
    }
}

/// All slots the generator reads lie below the bound.
pub open spec fn reads_below(g: GenSpec, b: int) -> bool {
    match g {
        GenSpec::Duplicate { src } => 0 <= src < b,
        GenSpec::Case { src, .. } => 0 <= src < b,
        GenSpec::Optional { src } => 0 <= src < b,
        GenSpec::Replace { src, .. } => 0 <= src < b,
        GenSpec::Rearrange { srcs } => forall|i: int| 0 <= i < srcs.len() ==> 0 <= #[trigger] srcs[i] < b,
        GenSpec::Concat { srcs } => forall|i: int| 0 <= i < srcs.len() ==> 0 <= #[trigger] srcs[i] < b,
        _ => true,
    }
}

/// The number of distinct values the generator emits before exhaustion,
/// against the current slot contents (only character replacement depends
/// on them).
pub open spec fn gen_card(g: GenSpec, segs: Seq<Seq<char>>) -> int {
    match g {
        GenSpec::Wordlist { .. } => wordlist_card(g),
        GenSpec::Mask { types } => mask_card(types),
        GenSpec::Constant { .. } => 1,
        GenSpec::Duplicate { .. } => 1,
        GenSpec::Case { src, mods } => case_card(mods),
        GenSpec::Optional { .. } => 2,
        GenSpec::Rearrange { srcs } => fact(srcs.len() as int),
        GenSpec::Concat { .. } => 1,
        GenSpec::Replace { src, rules } => replace_card(segs[src], rules),
    }
}

/// A generator whose cardinality does not depend on the slot contents.
pub open spec fn seg_free(g: GenSpec) -> bool {
    !(g is Replace)
}

pub proof fn lemma_seg_free_card(g: GenSpec, s1: Seq<Seq<char>>, s2: Seq<Seq<char>>)
    requires
        seg_free(g),
    ensures
        gen_card(g, s1) == gen_card(g, s2),
{
}

/// A bound on the slots read stays a bound when it grows.
pub proof fn lemma_reads_below_mono(g: GenSpec, a: int, b: int)
    requires
        reads_below(g, a),
        a <= b,
    ensures
        reads_below(g, b),
{
}

/// A generator with a content-free cardinality also has a content-free
/// cursor: only character replacement reads the slot table for either.
pub proof fn lemma_seg_free_cursor(inc: Incrementer, s1: Seq<Seq<char>>, s2: Seq<Seq<char>>)
    requires
        seg_free(inc@),
    ensures
        inc.cursor(s1) == inc.cursor(s2),
{
    match inc {
        Incrementer::Wordlist(g) => {},
        Incrementer::Mask(g) => {},
        Incrementer::Constant(g) => {},
        Incrementer::Duplicate(g) => {},
        Incrementer::Case(g) => {},
        Incrementer::Optional(g) => {},
        Incrementer::Rearrange(g) => {},
        Incrementer::Concat(g) => {},
        Incrementer::Replace(g) => {},
    }
}

pub enum Incrementer {
    Wordlist(WordlistIncrementer),
    Mask(MaskIncrementer),
    Constant(ConstantIncrementer),
    Duplicate(DuplicateIncrementer),
    Case(CaseModifierIncrementer),
    Optional(OptionalModifierIncrementer),
    Rearrange(RearrangeIncrementer),
    Concat(ConcatIncrementer),
    Replace(ReplaceIncrementer),
}

impl View for Incrementer {
    type V = GenSpec;

    open spec fn view(&self) -> GenSpec {
        match self {
            Incrementer::Wordlist(g) => g@,
            Incrementer::Mask(g) => g@,
            Incrementer::Constant(g) => g@,
            Incrementer::Duplicate(g) => g@,
            Incrementer::Case(g) => g@,
            Incrementer::Optional(g) => g@,
            Incrementer::Rearrange(g) => g@,
            Incrementer::Concat(g) => g@,
            Incrementer::Replace(g) => g@,
        }
    }
}

impl Incrementer {
    /// Internal consistency, independent of the slot table's contents.
    pub open spec fn sane(&self) -> bool {
        match self {
            Incrementer::Wordlist(g) => g.sane(),
            Incrementer::Mask(g) => g.sane(),
            Incrementer::Case(g) => g.sane(),
            Incrementer::Rearrange(g) => g.sane(),
            Incrementer::Replace(g) => g.sane(),
            _ => true,
        }
    }

    /// Position in the generator's own enumeration order.
    pub open spec fn cursor(&self, segs: Seq<Seq<char>>) -> int {
        match self {
            Incrementer::Wordlist(g) => g.cursor(),
            Incrementer::Mask(g) => g.cursor(),
            Incrementer::Case(g) => g.cursor(),
            Incrementer::Optional(g) => g.cursor(),
            Incrementer::Rearrange(g) => g.cursor(),
            Incrementer::Replace(g) => g.cursor(segs),
            _ => 0,
        }
    }

    /// Well-formed against the current slot table.
    pub open spec fn wf(&self, segs: Seq<Seq<char>>) -> bool {
        &&& self.sane()
        &&& reads_below(self@, segs.len() as int)
        &&& match self {
            Incrementer::Replace(g) => g.wf(segs),
            _ => true,
        }
    }

    /// What the generator writes to its slots, in write order.
    pub open spec fn out_view(&self, segs: Seq<Seq<char>>) -> Seq<Seq<char>> {
        match self {
            Incrementer::Wordlist(g) => seq![wordlist_value(g@, g.cursor())],
            Incrementer::Mask(g) => seq![mask_output(g.char_type@, g.digits())],
            Incrementer::Constant(g) => seq![g.value@],
            Incrementer::Duplicate(g) => seq![segs[g.source_seg_idx as int]],
            Incrementer::Case(g) => seq![
                case_apply(g.cur_case as int, segs[g.source_seg_idx as int]),
            ],
            Incrementer::Optional(g) => seq![optional_value(g@, g.cursor(), segs)],
            Incrementer::Rearrange(g) => g.out_spec(segs),
            Incrementer::Concat(g) => seq![
                cat_values(crate::items::incrementer::to_ints(g.source_id_indices@), segs),
            ],
            Incrementer::Replace(g) => seq![g.out_spec(segs)],
        }
    }

    /// A well-formed generator's cursor lies within its cardinality.
    pub proof fn lemma_cursor_in_range(&self, segs: Seq<Seq<char>>)
        requires
            self.wf(segs),
        ensures
            0 <= self.cursor(segs) < gen_card(self@, segs),
    {
        match self {
            Incrementer::Mask(g) => {
                crate::items::mask::lemma_mask_radixes_pos(*g);
                crate::odometer::lemma_odo_value_bounds(
                    g.digits(),
                    crate::items::mask::mask_radixes(g.char_type@),
                );
            },
            Incrementer::Rearrange(g) => {},
            Incrementer::Replace(g) => {
                let text = segs[g.source_seg_idx as int];
                if g.repl_loc_idx is Some {
                    let t = g.repl_type_idx as int;
                    crate::items::replace::lemma_sum_occ_mono(text, g.replacements@, 0, t);
                    crate::items::replace::lemma_sum_occ_mono(
                        text,
                        g.replacements@,
                        t + 1,
                        g.replacements@.len() as int,
                    );
                } else {
                    crate::items::replace::lemma_sum_occ_mono(
                        text,
                        g.replacements@,
                        0,
                        g.replacements@.len() as int,
                    );
                }
            },
            _ => {},
        }
    }

    pub fn increment(&mut self, segs: &Vec<Vec<char>>) -> (r: bool)
        requires
            old(self).sane(),
            reads_below(old(self)@, segs@.len() as int),
        ensures
            final(self)@ == old(self)@,
            final(self).sane(),
            old(self).wf(segs.deep_view()) ==> {
                let c = old(self).cursor(segs.deep_view());
                let n = gen_card(old(self)@, segs.deep_view());
                &&& r == (c + 1 < n)
                &&& final(self).wf(segs.deep_view())
                &&& (r ==> final(self).cursor(segs.deep_view()) == c + 1)
            },
    {
        proof {
            assert(segs.deep_view().len() == segs@.len());
        }
        match self {
            Incrementer::Wordlist(g) => g.increment(segs),
            Incrementer::Mask(g) => g.increment(segs),
            Incrementer::Constant(g) => g.increment(segs),
            Incrementer::Duplicate(g) => g.increment(segs),
            Incrementer::Case(g) => g.increment(segs),
            Incrementer::Optional(g) => g.increment(segs),
            Incrementer::Rearrange(g) => g.increment(segs),
            Incrementer::Concat(g) => g.increment(segs),
            Incrementer::Replace(g) => g.increment(segs),
        }
    }

    pub fn reset(&mut self)
        requires
            old(self).sane(),
        ensures
            final(self)@ == old(self)@,
            final(self).sane(),
            forall|segs: Seq<Seq<char>>| final(self).cursor(segs) == 0,
            forall|segs: Seq<Seq<char>>|
                reads_below(final(self)@, segs.len() as int) ==> final(self).wf(segs),
    {
        match self {
            Incrementer::Wordlist(g) => g.reset(),
            Incrementer::Mask(g) => g.reset(),
            Incrementer::Constant(g) => g.reset(),
            Incrementer::Duplicate(g) => g.reset(),
            Incrementer::Case(g) => g.reset(),
            Incrementer::Optional(g) => g.reset(),
            Incrementer::Rearrange(g) => g.reset(),
            Incrementer::Concat(g) => g.reset(),
            Incrementer::Replace(g) => g.reset(),
        }
    }

    pub fn output(&self, segs: &Vec<Vec<char>>) -> (r: Vec<Vec<char>>)
        requires
            self.sane(),
            reads_below(self@, segs@.len() as int),
        ensures
            r.deep_view() == self.out_view(segs.deep_view()),
            r@.len() == gen_arity(self@),
    {
        proof {
            assert(segs.deep_view().len() == segs@.len());
            match self {
                Incrementer::Rearrange(g) => {
                    let srcs = crate::items::incrementer::to_ints(g.source_id_indices@);
                    assert(reads_below(GenSpec::Rearrange { srcs }, segs@.len() as int));
                    assert forall|i: int|
                        0 <= i < g.source_id_indices@.len() implies #[trigger] g
                        .source_id_indices@[i] < segs@.len() by {
                        assert(srcs[i] == g.source_id_indices@[i] as int);
                        assert(0 <= srcs[i] < segs@.len());
                    }
                },
                Incrementer::Concat(g) => {
                    let srcs = crate::items::incrementer::to_ints(g.source_id_indices@);
                    assert(reads_below(GenSpec::Concat { srcs }, segs@.len() as int));
                    assert forall|i: int|
                        0 <= i < g.source_id_indices@.len() implies #[trigger] g
                        .source_id_indices@[i] < segs@.len() by {
                        assert(srcs[i] == g.source_id_indices@[i] as int);
                        assert(0 <= srcs[i] < segs@.len());
                    }
                },
                _ => {},
            }
        }
        let r = match self {
            Incrementer::Wordlist(g) => g.output(segs),
            Incrementer::Mask(g) => g.output(segs),
            Incrementer::Constant(g) => g.output(segs),
            Incrementer::Duplicate(g) => g.output(segs),
            Incrementer::Case(g) => g.output(segs),
            Incrementer::Optional(g) => g.output(segs),
            Incrementer::Rearrange(g) => g.output(segs),
            Incrementer::Concat(g) => g.output(segs),
            Incrementer::Replace(g) => g.output(segs),
        };
        proof {
            assert(r.deep_view().len() == r@.len());
        }
        r
    }
}

} // verus!
