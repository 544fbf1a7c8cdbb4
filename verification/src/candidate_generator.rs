//! The enumeration driver: a list of generators wired to a slot table.
//! Rendering walks the generators in build order, writing each one's
//! output into its slots and concatenating the output-order slots into one
//! candidate line. Advancing walks them in reverse build order with carry,
//! so the whole pipeline counts like a mixed-radix odometer whose digits
//! are the generators' cursors.
use vstd::prelude::*;
use crate::items::case_modifier::CaseModifierIncrementer;
use crate::items::concat::{cat_values, ConcatIncrementer};
use crate::items::constant::ConstantIncrementer;
use crate::items::duplicate::DuplicateIncrementer;
use crate::items::incrementer::{gen_arity, gen_card, reads_below, seg_free, to_ints, GenSpec,
    Incrementer};
use crate::items::mask::{mask_types_of, valid_mask_char, MaskCharType, MaskIncrementer};
use crate::items::optional_modifier::OptionalModifierIncrementer;
use crate::items::rearrange::RearrangeIncrementer;
use crate::items::replace::ReplaceIncrementer;
use crate::items::wordlist::{trim_all, WordlistIncrementer};
use crate::odometer::{digits_ok, lemma_odo_succ_at, lemma_odo_value_bounds, lemma_odo_value_max,
    lemma_odo_value_zero, odo_value, radix_prod, succ_at};
use crate::recipe_step::{CaseModifiers, CommonAttributes, GeneratorModifiers, RecipeStep};
use crate::text::chars_to_string;

verus! {

broadcast use crate::text::group_deep_text;

/// The configurations of a generator list.
pub open spec fn gviews(incs: Seq<Incrementer>) -> Seq<GenSpec> {
    incs.map_values(|g: Incrementer| g@)
}

/// The cursor of every generator, in build order: the odometer's digits.
pub open spec fn curs(incs: Seq<Incrementer>, ds: Seq<Seq<char>>) -> Seq<int> {
    incs.map_values(|g: Incrementer| g.cursor(ds))
}

/// The cardinality of every generator: the odometer's radixes.
pub open spec fn crds(gs: Seq<GenSpec>, ds: Seq<Seq<char>>) -> Seq<int> {
    gs.map_values(|g: GenSpec| gen_card(g, ds))
}

/// The views of the per-generator write-slot lists.
pub open spec fn wviews(ws: Seq<Vec<usize>>) -> Seq<Seq<usize>> {
    ws.map_values(|w: Vec<usize>| w@)
}

/// Slots held by the first `i` generators together.
pub open spec fn arity_sum(gs: Seq<GenSpec>, i: int) -> int
    decreases i,
{
    if i <= 0 {
        0
    } else {
        arity_sum(gs, i - 1) + gen_arity(gs[i - 1])
    }
}

pub proof fn lemma_arity_sum_mono(gs: Seq<GenSpec>, a: int, b: int)
    requires
        a <= b,
    ensures
        arity_sum(gs, a) <= arity_sum(gs, b),
    decreases b - a,
{
    if a < b {
        lemma_arity_sum_mono(gs, a, b - 1);
    }
}

/// The slot table after the first `k` values of `outs` have been written
/// to the slots named by `ws`.
pub open spec fn write_prefix(
    segs: Seq<Seq<char>>,
    ws: Seq<usize>,
    outs: Seq<Seq<char>>,
    k: int,
) -> Seq<Seq<char>>
    decreases k,
{
    if k <= 0 {
        segs
    } else {
        write_prefix(segs, ws, outs, k - 1).update(ws[k - 1] as int, outs[k - 1])
    }
}

/// The slot table after the first `i` generators have rendered, each one
/// reading the table as left by those before it.
pub open spec fn spec_render(
    incs: Seq<Incrementer>,
    ws: Seq<Seq<usize>>,
    segs0: Seq<Seq<char>>,
    i: int,
) -> Seq<Seq<char>>
    decreases i,
{
    if i <= 0 {
        segs0
    } else {
        let prev = spec_render(incs, ws, segs0, i - 1);
        write_prefix(prev, ws[i - 1], incs[i - 1].out_view(prev), ws[i - 1].len() as int)
    }
}

/// A fatal build-time fault in a recipe: the build aborts before any
/// candidate is produced.
#[derive(Debug, PartialEq, Eq, Structural, Clone, Copy)]
pub enum BuildError {
    DuplicateId,
    UnknownId,
    UnknownClass,
    InvalidMaskChar,
}

/// The builder's working state, abstractly: the generators made so far,
/// the output order, the tag maps, the next free slot, and how many word
/// lists have been consumed.
pub struct BuildState {
    pub gens: Seq<GenSpec>,
    pub out: Seq<int>,
    pub ids: Seq<(Seq<char>, int)>,
    pub classes: Seq<(Seq<char>, Seq<int>)>,
    pub nseg: int,
    pub wl: int,
}

/// Index of the first id entry with the given key, or -1.
pub open spec fn key_idx(ids: Seq<(Seq<char>, int)>, k: Seq<char>) -> int
    decreases ids.len(),
{
    if ids.len() == 0 {
        -1
    } else if ids[0].0 == k {
        0
    } else {
        let r = key_idx(ids.drop_first(), k);
        if r < 0 {
            -1
        } else {
            r + 1
        }
    }
}

pub open spec fn id_lookup(ids: Seq<(Seq<char>, int)>, k: Seq<char>) -> Option<int> {
    let i = key_idx(ids, k);
    if i >= 0 {
        Some(ids[i].1)
    } else {
        None
    }
}

/// Insert or overwrite the binding for `k`.
pub open spec fn id_upsert(ids: Seq<(Seq<char>, int)>, k: Seq<char>, v: int) -> Seq<
    (Seq<char>, int),
> {
    let i = key_idx(ids, k);
    if i >= 0 {
        ids.update(i, (k, v))
    } else {
        ids.push((k, v))
    }
}

pub proof fn lemma_key_idx(ids: Seq<(Seq<char>, int)>, k: Seq<char>)
    ensures
        key_idx(ids, k) >= 0 ==> {
            &&& key_idx(ids, k) < ids.len()
            &&& ids[key_idx(ids, k)].0 == k
            &&& forall|j: int| 0 <= j < key_idx(ids, k) ==> (#[trigger] ids[j]).0 != k
        },
        key_idx(ids, k) < 0 ==> forall|j: int| 0 <= j < ids.len() ==> (#[trigger] ids[j]).0 != k,
    decreases ids.len(),
{
    if ids.len() > 0 && ids[0].0 != k {
        let rest = ids.drop_first();
        lemma_key_idx(rest, k);
        assert(forall|j: int| 0 <= j < rest.len() ==> #[trigger] rest[j] == ids[j + 1]);
        let r = key_idx(rest, k);
        if r >= 0 {
            assert(ids[r + 1].0 == rest[r].0);
            assert forall|j: int| 0 <= j < r + 1 implies (#[trigger] ids[j]).0 != k by {
                if j > 0 {
                    assert(rest[j - 1].0 != k);
                    assert(rest[j - 1] == ids[j]);
                }
            }
        } else {
            assert forall|j: int| 0 <= j < ids.len() implies (#[trigger] ids[j]).0 != k by {
                if j > 0 {
                    assert(rest[j - 1].0 != k);
                    assert(rest[j - 1] == ids[j]);
                }
            }
        }
    }
}

/// Index of the first class entry with the given key, or -1.
pub open spec fn ckey_idx(cs: Seq<(Seq<char>, Seq<int>)>, k: Seq<char>) -> int
    decreases cs.len(),
{
    if cs.len() == 0 {
        -1
    } else if cs[0].0 == k {
        0
    } else {
        let r = ckey_idx(cs.drop_first(), k);
        if r < 0 {
            -1
        } else {
            r + 1
        }
    }
}

pub open spec fn class_lookup(cs: Seq<(Seq<char>, Seq<int>)>, k: Seq<char>) -> Option<Seq<int>> {
    let i = ckey_idx(cs, k);
    if i >= 0 {
        Some(cs[i].1)
    } else {
        None
    }
}

/// Append a slot to the class's list, creating the class on first use.
pub open spec fn class_append(cs: Seq<(Seq<char>, Seq<int>)>, k: Seq<char>, v: int) -> Seq<
    (Seq<char>, Seq<int>),
> {
    let i = ckey_idx(cs, k);
    if i >= 0 {
        cs.update(i, (k, cs[i].1.push(v)))
    } else {
        cs.push((k, seq![v]))
    }
}

pub proof fn lemma_ckey_idx(cs: Seq<(Seq<char>, Seq<int>)>, k: Seq<char>)
    ensures
        ckey_idx(cs, k) >= 0 ==> {
            &&& ckey_idx(cs, k) < cs.len()
            &&& cs[ckey_idx(cs, k)].0 == k
            &&& forall|j: int| 0 <= j < ckey_idx(cs, k) ==> (#[trigger] cs[j]).0 != k
        },
        ckey_idx(cs, k) < 0 ==> forall|j: int| 0 <= j < cs.len() ==> (#[trigger] cs[j]).0 != k,
    decreases cs.len(),
{
    if cs.len() > 0 && cs[0].0 != k {
        let rest = cs.drop_first();
        lemma_ckey_idx(rest, k);
        assert(forall|j: int| 0 <= j < rest.len() ==> #[trigger] rest[j] == cs[j + 1]);
        let r = ckey_idx(rest, k);
        if r >= 0 {
            assert(cs[r + 1].0 == rest[r].0);
            assert forall|j: int| 0 <= j < r + 1 implies (#[trigger] cs[j]).0 != k by {
                if j > 0 {
                    assert(rest[j - 1].0 != k);
                    assert(rest[j - 1] == cs[j]);
                }
            }
        } else {
            assert forall|j: int| 0 <= j < cs.len() implies (#[trigger] cs[j]).0 != k by {
                if j > 0 {
                    assert(rest[j - 1].0 != k);
                    assert(rest[j - 1] == cs[j]);
                }
            }
        }
    }
}

/// Every slot a class list names lies below the bound.
pub open spec fn cls_bounded(cs: Seq<(Seq<char>, Seq<int>)>, b: int) -> bool {
    forall|j: int, k: int|
        0 <= j < cs.len() && 0 <= k < cs[j].1.len() ==> 0 <= #[trigger] cs[j].1[k] < b
}

pub proof fn lemma_class_append_bounded(cs: Seq<(Seq<char>, Seq<int>)>, key: Seq<char>, v: int, b: int)
    requires
        cls_bounded(cs, b),
        0 <= v < b,
    ensures
        cls_bounded(class_append(cs, key, v), b),
{
    lemma_ckey_idx(cs, key);
    let cs2 = class_append(cs, key, v);
    let i = ckey_idx(cs, key);
    assert forall|j: int, k: int|
        0 <= j < cs2.len() && 0 <= k < cs2[j].1.len() implies 0 <= #[trigger] cs2[j].1[k]
        < b by {
        if i >= 0 {
            if j == i {
                if k < cs[i].1.len() {
                    assert(cs2[j].1[k] == cs[i].1[k]);
                } else {
                    assert(cs2[j].1[k] == v);
                }
            } else {
                assert(cs2[j] == cs[j]);
            }
        } else {
            if j < cs.len() {
                assert(cs2[j] == cs[j]);
            } else {
                assert(cs2[j].1 == seq![v]);
            }
        }
    }
}

/// Every id that pointed at the superseded slot now points at its
/// replacement.
pub open spec fn repoint_ids(ids: Seq<(Seq<char>, int)>, s: int, d: int) -> Seq<(Seq<char>, int)> {
    ids.map_values(
        |e: (Seq<char>, int)|
            if e.1 == s {
                (e.0, d)
            } else {
                e
            },
    )
}

pub open spec fn repoint_list(l: Seq<int>, s: int, d: int) -> Seq<int> {
    l.map_values(
        |x: int|
            if x == s {
                d
            } else {
                x
            },
    )
}

pub open spec fn repoint_cls(cs: Seq<(Seq<char>, Seq<int>)>, s: int, d: int) -> Seq<
    (Seq<char>, Seq<int>),
> {
    cs.map_values(|e: (Seq<char>, Seq<int>)| (e.0, repoint_list(e.1, s, d)))
}

/// Index of the first occurrence of `v`, or -1.
pub open spec fn first_idx(s: Seq<int>, v: int) -> int
    decreases s.len(),
{
    if s.len() == 0 {
        -1
    } else if s[0] == v {
        0
    } else {
        let r = first_idx(s.drop_first(), v);
        if r < 0 {
            -1
        } else {
            r + 1
        }
    }
}

pub proof fn lemma_first_idx(s: Seq<int>, v: int)
    ensures
        first_idx(s, v) >= 0 ==> {
            &&& first_idx(s, v) < s.len()
            &&& s[first_idx(s, v)] == v
            &&& forall|j: int| 0 <= j < first_idx(s, v) ==> #[trigger] s[j] != v
        },
        first_idx(s, v) < 0 ==> forall|j: int| 0 <= j < s.len() ==> #[trigger] s[j] != v,
    decreases s.len(),
{
    if s.len() > 0 && s[0] != v {
        let rest = s.drop_first();
        lemma_first_idx(rest, v);
        assert(forall|j: int| 0 <= j < rest.len() ==> #[trigger] rest[j] == s[j + 1]);
        let r = first_idx(rest, v);
        if r >= 0 {
            assert(s[r + 1] == rest[r]);
            assert forall|j: int| 0 <= j < r + 1 implies #[trigger] s[j] != v by {
                if j > 0 {
                    assert(rest[j - 1] != v);
                    assert(rest[j - 1] == s[j]);
                }
            }
        } else {
            assert forall|j: int| 0 <= j < s.len() implies #[trigger] s[j] != v by {
                if j > 0 {
                    assert(rest[j - 1] != v);
                    assert(rest[j - 1] == s[j]);
                }
            }
        }
    }
}

/// Remove the first occurrence of a superseded slot from the output order.
pub open spec fn out_remove(out: Seq<int>, v: int) -> Seq<int> {
    let i = first_idx(out, v);
    if i >= 0 {
        out.remove(i)
    } else {
        out
    }
}

/// Replace the first occurrence of a source slot in the output order.
pub open spec fn out_replace(out: Seq<int>, v: int, w: int) -> Seq<int> {
    let i = first_idx(out, v);
    if i >= 0 {
        out.update(i, w)
    } else {
        out
    }
}

pub open spec fn digit_ch(d: int) -> char {
    ((48 + d) as u32) as char
}

/// Decimal rendering of a non-negative number.
pub open spec fn dec_str(n: int) -> Seq<char>
    decreases n,
{
    if n < 10 {
        seq![digit_ch(n)]
    } else {
        dec_str(n / 10).push(digit_ch(n % 10))
    }
}

/// The positional tag every step registers: `#` followed by its 1-based
/// position in the recipe.
pub open spec fn pos_tag(n: int) -> Seq<char> {
    seq!['#'] + dec_str(n)
}

pub open spec fn default_case_mods() -> CaseModifiers {
    CaseModifiers { titlecase: false, uppercase: false, lowercase: false, originalcase: true }
}

pub open spec fn attr_id_view(a: CommonAttributes) -> Option<Seq<char>> {
    match a.id {
        Some(s) => Some(s@),
        None => None,
    }
}

pub open spec fn spec_init() -> BuildState {
    BuildState {
        gens: Seq::empty(),
        out: Seq::empty(),
        ids: Seq::empty(),
        classes: Seq::empty(),
        nseg: 0,
        wl: 0,
    }
}

/// A new generator with one output slot: the slot is appended to the
/// output order.
pub open spec fn spec_add_basic(m: BuildState, g: GenSpec) -> BuildState {
    BuildState {
        gens: m.gens.push(g),
        out: m.out.push(m.nseg),
        nseg: m.nseg + 1,
        ..m
    }
}

/// A modifier generator supersedes its source slot: the source leaves the
/// output order and every tag pointing at it is repointed.
pub open spec fn spec_add_modifier_gen(m: BuildState, g: GenSpec, src: int) -> BuildState {
    let m1 = spec_add_basic(m, g);
    BuildState {
        out: out_remove(m1.out, src),
        ids: repoint_ids(m1.ids, src, m.nseg),
        classes: repoint_cls(m1.classes, src, m.nseg),
        ..m1
    }
}

pub proof fn lemma_key_idx_repoint(ids: Seq<(Seq<char>, int)>, s: int, d: int, k: Seq<char>)
    ensures
        key_idx(repoint_ids(ids, s, d), k) == key_idx(ids, k),
    decreases ids.len(),
{
    if ids.len() > 0 {
        lemma_key_idx_repoint(ids.drop_first(), s, d, k);
        assert(repoint_ids(ids, s, d).drop_first() =~= repoint_ids(ids.drop_first(), s, d));
        assert(repoint_ids(ids, s, d)[0].0 == ids[0].0);
    }
}

/// Law of tag redirection: when a modifier supersedes a slot, every id
/// that resolved to the superseded slot resolves to the modifier's fresh
/// slot afterwards, and every other id is untouched. A step built after
/// the modifier therefore reads the modified value, never the original.
pub proof fn lemma_tag_redirection(m: BuildState, g: GenSpec, src: int, k: Seq<char>)
    ensures
        id_lookup(spec_add_modifier_gen(m, g, src).ids, k) == (match id_lookup(m.ids, k) {
            Some(v) => Some(
                if v == src {
                    m.nseg
                } else {
                    v
                },
            ),
            None => None,
        }),
{
    let ids2 = spec_add_modifier_gen(m, g, src).ids;
    assert(ids2 == repoint_ids(m.ids, src, m.nseg));
    lemma_key_idx_repoint(m.ids, src, m.nseg, k);
    lemma_key_idx(m.ids, k);
    let ki = key_idx(m.ids, k);
    if ki >= 0 {
        assert(ids2[ki].1 == (if m.ids[ki].1 == src {
            m.nseg
        } else {
            m.ids[ki].1
        }));
    }
}

/// Modifiers in fixed precedence: the case modifier first, then the
/// optional modifier, each wrapping the current newest slot.
pub open spec fn spec_add_modifiers(m: BuildState, mods: GeneratorModifiers) -> BuildState {
    let src = m.nseg - 1;
    let m1 = if mods.case != default_case_mods() {
        spec_add_modifier_gen(m, GenSpec::Case { src, mods: mods.case }, src)
    } else {
        m
    };
    let src1 = m1.nseg - 1;
    if mods.optional {
        spec_add_modifier_gen(m1, GenSpec::Optional { src: src1 }, src1)
    } else {
        m1
    }
}

/// Registers the positional tag and the step's explicit id and classes,
/// all on the newest slot; a second binding of an explicit id is fatal.
pub open spec fn spec_add_attr(m: BuildState, step_idx: int, attr: CommonAttributes) -> Result<
    BuildState,
    BuildError,
> {
    let seg = m.nseg - 1;
    let ids1 = id_upsert(m.ids, pos_tag(step_idx), seg);
    match attr_id_view(attr) {
        Some(k) => if id_lookup(ids1, k) is Some {
            Err(BuildError::DuplicateId)
        } else {
            Ok(
                BuildState {
                    ids: ids1.push((k, seg)),
                    classes: spec_add_classes(m.classes, attr.classes.deep_view(), seg, attr.classes.deep_view().len() as int),
                    ..m
                },
            )
        },
        None => Ok(
            BuildState {
                ids: ids1,
                classes: spec_add_classes(m.classes, attr.classes.deep_view(), seg, attr.classes.deep_view().len() as int),
                ..m
            },
        ),
    }
}

pub open spec fn spec_add_classes(
    cs: Seq<(Seq<char>, Seq<int>)>,
    classes: Seq<Seq<char>>,
    seg: int,
    k: int,
) -> Seq<(Seq<char>, Seq<int>)>
    decreases k,
{
    if k <= 0 {
        cs
    } else {
        class_append(spec_add_classes(cs, classes, seg, k - 1), classes[k - 1], seg)
    }
}

/// The base generator, its modifiers, then its tags.
pub open spec fn spec_add_inc(
    m: BuildState,
    g: GenSpec,
    attr: CommonAttributes,
    mods: GeneratorModifiers,
    step_idx: int,
) -> Result<BuildState, BuildError> {
    spec_add_attr(spec_add_modifiers(spec_add_basic(m, g), mods), step_idx, attr)
}

/// What one tag names: one slot for an id, all its slots for a class,
/// nothing for anything else.
pub open spec fn resolve_tag(
    ids: Seq<(Seq<char>, int)>,
    cs: Seq<(Seq<char>, Seq<int>)>,
    tag: Seq<char>,
) -> Result<Seq<int>, BuildError> {
    if tag.len() > 0 && tag[0] == '#' {
        match id_lookup(ids, tag) {
            Some(s) => Ok(seq![s]),
            None => Err(BuildError::UnknownId),
        }
    } else if tag.len() > 0 && tag[0] == '.' {
        match class_lookup(cs, tag) {
            Some(l) => Ok(l),
            None => Err(BuildError::UnknownClass),
        }
    } else {
        Ok(Seq::empty())
    }
}

pub open spec fn resolve_tags(
    ids: Seq<(Seq<char>, int)>,
    cs: Seq<(Seq<char>, Seq<int>)>,
    tags: Seq<Seq<char>>,
    k: int,
) -> Result<Seq<int>, BuildError>
    decreases k,
{
    if k <= 0 {
        Ok(Seq::empty())
    } else {
        match resolve_tags(ids, cs, tags, k - 1) {
            Ok(acc) => match resolve_tag(ids, cs, tags[k - 1]) {
                Ok(l) => Ok(acc + l),
                Err(e) => Err(e),
            },
            Err(e) => Err(e),
        }
    }
}

/// Output order and tag maps after the first `k` source slots of a
/// multi-output generator have been rewired to its fresh slots.
pub open spec fn spec_rewire(
    out: Seq<int>,
    ids: Seq<(Seq<char>, int)>,
    cs: Seq<(Seq<char>, Seq<int>)>,
    srcs: Seq<int>,
    base: int,
    k: int,
) -> (Seq<int>, Seq<(Seq<char>, int)>, Seq<(Seq<char>, Seq<int>)>)
    decreases k,
{
    if k <= 0 {
        (out, ids, cs)
    } else {
        let (o, i2, c2) = spec_rewire(out, ids, cs, srcs, base, k - 1);
        (
            out_replace(o, srcs[k - 1], base + k - 1),
            repoint_ids(i2, srcs[k - 1], base + k - 1),
            repoint_cls(c2, srcs[k - 1], base + k - 1),
        )
    }
}

/// A multi-output generator absorbs its sources: each source's first
/// occurrence in the output order becomes the matching fresh slot, and
/// tags follow.
pub open spec fn spec_add_multimod(m: BuildState, g: GenSpec, srcs: Seq<int>) -> BuildState {
    let n = srcs.len() as int;
    let (o, i2, c2) = spec_rewire(m.out, m.ids, m.classes, srcs, m.nseg, n);
    BuildState { gens: m.gens.push(g), out: o, ids: i2, classes: c2, nseg: m.nseg + n, ..m }
}

pub open spec fn valid_mask(s: Seq<char>) -> bool {
    forall|i: int| 0 <= i < s.len() ==> valid_mask_char(#[trigger] s[i])
}

/// One recipe step applied to the builder state; `step_idx` is the
/// 1-based position of the step and `wls` the word lists, in the order
/// the dictionary steps consume them.
pub open spec fn spec_build_step(
    m: BuildState,
    step: RecipeStep,
    step_idx: int,
    wls: Seq<Seq<Seq<char>>>,
) -> Result<BuildState, BuildError> {
    match step {
        RecipeStep::Wordlist { filename, attr, modifiers } => spec_add_inc(
            BuildState { wl: m.wl + 1, ..m },
            GenSpec::Wordlist { lines: wls[m.wl] },
            attr,
            modifiers,
            step_idx,
        ),
        RecipeStep::Mask { mask, attr, modifiers } => if valid_mask(mask@) {
            spec_add_inc(m, GenSpec::Mask { types: mask_types_of(mask@) }, attr, modifiers, step_idx)
        } else {
            Err(BuildError::InvalidMaskChar)
        },
        RecipeStep::Constant { value, attr, modifiers } => spec_add_inc(
            m,
            GenSpec::Constant { value: value@ },
            attr,
            modifiers,
            step_idx,
        ),
        RecipeStep::Duplicate { target_id, attr, modifiers } => match id_lookup(m.ids, target_id@) {
            Some(s) => spec_add_inc(m, GenSpec::Duplicate { src: s }, attr, modifiers, step_idx),
            None => Err(BuildError::UnknownId),
        },
        RecipeStep::Rearrange { target_list } => match resolve_tags(
            m.ids,
            m.classes,
            target_list.deep_view(),
            target_list.deep_view().len() as int,
        ) {
            Ok(srcs) => Ok(spec_add_multimod(m, GenSpec::Rearrange { srcs }, srcs)),
            Err(e) => Err(e),
        },
        RecipeStep::Concat { target_list, attr, modifiers } => match resolve_tags(
            m.ids,
            m.classes,
            target_list.deep_view(),
            target_list.deep_view().len() as int,
        ) {
            Ok(srcs) => spec_add_inc(m, GenSpec::Concat { srcs }, attr, modifiers, step_idx),
            Err(e) => Err(e),
        },
        RecipeStep::ReplaceChar { target_id, replacements, attr, modifiers } => match id_lookup(
            m.ids,
            target_id@,
        ) {
            Some(s) => spec_add_inc(
                m,
                GenSpec::Replace { src: s, rules: replacements@ },
                attr,
                modifiers,
                step_idx,
            ),
            None => Err(BuildError::UnknownId),
        },
        RecipeStep::MaskIncremental { .. } => Ok(m),
        RecipeStep::Location { .. } => Ok(m),
    }
}

/// The whole build: the first `i` steps of the recipe folded over the
/// empty state, aborting at the first fault.
pub open spec fn spec_build(steps: Seq<RecipeStep>, wls: Seq<Seq<Seq<char>>>, i: int) -> Result<
    BuildState,
    BuildError,
>
    decreases i,
{
    if i <= 0 {
        Ok(spec_init())
    } else {
        match spec_build(steps, wls, i - 1) {
            Ok(m) => spec_build_step(m, steps[i - 1], i, wls),
            Err(e) => Err(e),
        }
    }
}

/// How many of the first `i` steps are dictionary steps.
pub open spec fn wl_count(steps: Seq<RecipeStep>, i: int) -> int
    decreases i,
{
    if i <= 0 {
        0
    } else {
        wl_count(steps, i - 1) + (if steps[i - 1] is Wordlist {
            1int
        } else {
            0int
        })
    }
}

/// The word lists as the model sees them: each one's lines, trimmed.
pub open spec fn wl_model(wordlists: Seq<Vec<String>>) -> Seq<Seq<Seq<char>>> {
    wordlists.map_values(|w: Vec<String>| trim_all(w.deep_view()))
}

/// The id map as the model sees it.
pub open spec fn idsv(m: Seq<(String, usize)>) -> Seq<(Seq<char>, int)> {
    m.map_values(|e: (String, usize)| (e.0@, e.1 as int))
}

/// The class map as the model sees it.
pub open spec fn clsv(m: Seq<(String, Vec<usize>)>) -> Seq<(Seq<char>, Seq<int>)> {
    m.map_values(|e: (String, Vec<usize>)| (e.0@, to_ints(e.1@)))
}

fn digit_char(d: usize) -> (c: char)
    requires
        d < 10,
    ensures
        c == digit_ch(d as int),
{
    let c = crate::text::char_from_code(48 + (d as u32));
    proof {
        assert(c == digit_ch(d as int));
    }
    c
}

fn dec_chars(n: usize) -> (v: Vec<char>)
    ensures
        v@ == dec_str(n as int),
    decreases n,
{
    if n < 10 {
        let mut v: Vec<char> = Vec::new();
        v.push(digit_char(n));
        proof {
            assert(v@ =~= dec_str(n as int));
        }
        v
    } else {
        let mut v = dec_chars(n / 10);
        v.push(digit_char(n % 10));
        v
    }
}

/// The positional tag of the step at the given 1-based position.
fn step_tag(n: usize) -> (s: String)
    ensures
        s@ == pos_tag(n as int),
{
    let mut v: Vec<char> = Vec::new();
    v.push('#');
    let d = dec_chars(n);
    crate::text::append_chars(&mut v, &d);
    proof {
        assert(v@ =~= pos_tag(n as int));
    }
    chars_to_string(&v)
}

/// A copy of a list of slot indices.
fn copy_idxs(v: &Vec<usize>) -> (r: Vec<usize>)
    ensures
        r@ == v@,
{
    let mut r: Vec<usize> = Vec::new();
    let mut i: usize = 0;
    while i < v.len()
        invariant
            i <= v.len(),
            r@ == v@.take(i as int),
        decreases v.len() - i,
    {
        r.push(v[i]);
        proof {
            assert(v@.take(i + 1 as int) =~= v@.take(i as int).push(v@[i as int]));
        }
        i = i + 1;
    }
    proof {
        assert(v@.take(v@.len() as int) =~= v@);
    }
    r
}

/// Appends every index of `src` to `dst`.
fn append_idxs(dst: &mut Vec<usize>, src: &Vec<usize>)
    ensures
        final(dst)@ == old(dst)@ + src@,
{
    let mut i: usize = 0;
    while i < src.len()
        invariant
            i <= src.len(),
            dst@ == old(dst)@ + src@.take(i as int),
        decreases src.len() - i,
    {
        proof {
            assert(old(dst)@ + src@.take(i as int) + seq![src@[i as int]] =~= old(dst)@
                + src@.take(i + 1));
        }
        dst.push(src[i]);
        i = i + 1;
    }
    proof {
        assert(old(dst)@ + src@.take(src@.len() as int) =~= old(dst)@ + src@);
    }
}

/// At most one word list is consumed per step.
pub proof fn lemma_wl_count_le(steps: Seq<RecipeStep>, i: int)
    requires
        0 <= i,
    ensures
        0 <= wl_count(steps, i) <= i,
    decreases i,
{
    if i > 0 {
        lemma_wl_count_le(steps, i - 1);
    }
}

/// A failed tag resolution stays failed.
pub proof fn lemma_resolve_tags_err(
    ids: Seq<(Seq<char>, int)>,
    cs: Seq<(Seq<char>, Seq<int>)>,
    tags: Seq<Seq<char>>,
    i: int,
    j: int,
)
    requires
        i <= j,
        resolve_tags(ids, cs, tags, i) is Err,
    ensures
        resolve_tags(ids, cs, tags, j) == resolve_tags(ids, cs, tags, i),
    decreases j - i,
{
    if i < j {
        lemma_resolve_tags_err(ids, cs, tags, i, j - 1);
    }
}

/// Whether every character of the mask names a usable class.
fn mask_ok(mask: &String) -> (b: bool)
    ensures
        b == valid_mask(mask@),
{
    let chars = crate::text::str_to_chars(mask.as_str());
    let mut i: usize = 0;
    while i < chars.len()
        invariant
            i <= chars@.len(),
            chars@ == mask@,
            forall|j: int| 0 <= j < i ==> valid_mask_char(#[trigger] mask@[j]),
        decreases chars@.len() - i,
    {
        match MaskCharType::class_from_char(chars[i]) {
            Some(t) => {
                if MaskCharType::charset(&t).is_empty() {
                    return false;
                }
            },
            None => {
                return false;
            },
        }
        i = i + 1;
    }
    true
}

/// The builder's working state: the generators and wiring made so far,
/// the slot table grown one (still empty) slot per generator output, and
/// the tag maps.
struct PipelineBuilder {
    incrementers: Vec<Incrementer>,
    write_indices: Vec<Vec<usize>>,
    segments: Vec<Vec<char>>,
    output_indices: Vec<usize>,
    id_map: Vec<(String, usize)>,
    class_map: Vec<(String, Vec<usize>)>,
    wl_used: usize,
}

impl PipelineBuilder {
    spec fn bview(&self) -> BuildState {
        BuildState {
            gens: gviews(self.incrementers@),
            out: to_ints(self.output_indices@),
            ids: idsv(self.id_map@),
            classes: clsv(self.class_map@),
            nseg: self.segments@.len() as int,
            wl: self.wl_used as int,
        }
    }

    spec fn binv(&self) -> bool {
        let gs = gviews(self.incrementers@);
        let n = self.incrementers@.len() as int;
        let cur = self.segments@.len() as int;
        &&& self.write_indices@.len() == n
        &&& forall|i: int|
            0 <= i < n ==> #[trigger] self.write_indices@[i]@.len() == gen_arity(gs[i])
        &&& forall|i: int, k: int|
            0 <= i < n && 0 <= k < self.write_indices@[i]@.len()
                ==> #[trigger] self.write_indices@[i]@[k] == arity_sum(gs, i) + k
        &&& cur == arity_sum(gs, n)
        &&& forall|i: int| 0 <= i < n ==> (#[trigger] self.incrementers@[i]).sane()
        &&& forall|i: int|
            0 <= i < n ==> (forall|s: Seq<Seq<char>>|
                (#[trigger] self.incrementers@[i]).cursor(s) == 0)
        &&& forall|i: int| 0 <= i < n ==> reads_below(#[trigger] gs[i], arity_sum(gs, i))
        &&& forall|j: int|
            0 <= j < self.output_indices@.len() ==> #[trigger] self.output_indices@[j] < cur
        &&& forall|j: int| 0 <= j < self.id_map@.len() ==> (#[trigger] self.id_map@[j]).1 < cur
        &&& forall|j: int, k: int|
            0 <= j < self.class_map@.len() && 0 <= k < self.class_map@[j].1@.len()
                ==> #[trigger] self.class_map@[j].1@[k] < cur
        &&& forall|j: int|
            0 <= j < self.segments@.len() ==> (#[trigger] self.segments@[j])@.len() == 0
    }

    fn new() -> (b: PipelineBuilder)
        ensures
            b.binv(),
            b.bview() == spec_init(),
    {
        let b = PipelineBuilder {
            incrementers: Vec::new(),
            write_indices: Vec::new(),
            segments: Vec::new(),
            output_indices: Vec::new(),
            id_map: Vec::new(),
            class_map: Vec::new(),
            wl_used: 0,
        };
        proof {
            assert(gviews(b.incrementers@) =~= spec_init().gens);
            assert(to_ints(b.output_indices@) =~= spec_init().out);
            assert(idsv(b.id_map@) =~= spec_init().ids);
            assert(clsv(b.class_map@) =~= spec_init().classes);
        }
        b
    }

    /// Index of the id entry bound to this key, if any.
    fn find_id(&self, key: &String) -> (r: Option<usize>)
        ensures
            r is Some ==> key_idx(idsv(self.id_map@), key@) == r->Some_0 as int,
            r is Some ==> (r->Some_0 as int) < self.id_map@.len(),
            r is None ==> key_idx(idsv(self.id_map@), key@) < 0,
    {
        let ghost ids = idsv(self.id_map@);
        let mut j: usize = 0;
        while j < self.id_map.len()
            invariant
                j <= self.id_map@.len(),
                ids == idsv(self.id_map@),
                forall|k: int| 0 <= k < j ==> (#[trigger] ids[k]).0 != key@,
            decreases self.id_map@.len() - j,
        {
            let e = &self.id_map[j];
            if e.0 == *key {
                proof {
                    lemma_key_idx(ids, key@);
                    assert(ids[j as int].0 == key@);
                }
                return Some(j);
            }
            proof {
                assert(ids[j as int].0 == self.id_map@[j as int].0@);
            }
            j = j + 1;
        }
        proof {
            lemma_key_idx(ids, key@);
        }
        None
    }

    /// The slot an id resolves to, if the id is bound.
    fn lookup_id(&self, key: &String) -> (r: Option<usize>)
        requires
            self.binv(),
        ensures
            r is Some ==> id_lookup(idsv(self.id_map@), key@) == Some(r->Some_0 as int),
            r is Some ==> (r->Some_0 as int) < self.segments@.len(),
            r is None ==> id_lookup(idsv(self.id_map@), key@) is None,
    {
        match self.find_id(key) {
            Some(j) => {
                proof {
                    assert(idsv(self.id_map@)[j as int].1 == self.id_map@[j as int].1 as int);
                    assert(self.id_map@[j as int].1 < self.segments@.len());
                }
                Some(self.id_map[j].1)
            },
            None => None,
        }
    }

    /// Binds a key, overwriting an earlier binding of the same key.
    fn upsert_id(&mut self, key: String, v: usize)
        ensures
            final(self).id_map@.len() >= old(self).id_map@.len(),
            idsv(final(self).id_map@) == id_upsert(idsv(old(self).id_map@), key@, v as int),
            final(self).incrementers == old(self).incrementers,
            final(self).write_indices == old(self).write_indices,
            final(self).segments == old(self).segments,
            final(self).output_indices == old(self).output_indices,
            final(self).class_map == old(self).class_map,
            final(self).wl_used == old(self).wl_used,
            forall|j: int|
                0 <= j < final(self).id_map@.len() ==> (#[trigger] final(self).id_map@[j]).1
                    == v || exists|k: int|
                    0 <= k < old(self).id_map@.len() && final(self).id_map@[j]
                        == old(self).id_map@[k],
    {
        let ghost ids = idsv(self.id_map@);
        match self.find_id(&key) {
            Some(j) => {
                proof {
                    lemma_key_idx(ids, key@);
                }
                self.id_map[j] = (key, v);
                proof {
                    assert(idsv(self.id_map@) =~= ids.update(j as int, (key@, v as int)));
                }
            },
            None => {
                self.id_map.push((key, v));
                proof {
                    assert(idsv(self.id_map@) =~= ids.push((key@, v as int)));
                }
            },
        }
    }

    /// Adds a slot to a class, creating the class on first use.
    fn class_add(&mut self, key: String, v: usize)
        ensures
            clsv(final(self).class_map@) == class_append(clsv(old(self).class_map@), key@, v as int),
            final(self).incrementers == old(self).incrementers,
            final(self).write_indices == old(self).write_indices,
            final(self).segments == old(self).segments,
            final(self).output_indices == old(self).output_indices,
            final(self).id_map == old(self).id_map,
            final(self).wl_used == old(self).wl_used,
            forall|j: int, k: int|
                0 <= j < final(self).class_map@.len() && 0 <= k
                    < final(self).class_map@[j].1@.len() ==> #[trigger] final(self).class_map@[j].1@[k] == v || (exists|j2: int, k2: int|
                    0 <= j2 < old(self).class_map@.len() && 0 <= k2
                        < old(self).class_map@[j2].1@.len() && final(self).class_map@[j].1@[k]
                        == old(self).class_map@[j2].1@[k2]),
    {
        let ghost cs = clsv(self.class_map@);
        let mut j: usize = 0;
        while j < self.class_map.len()
            invariant
                j <= self.class_map@.len(),
                *self == *old(self),
                cs == clsv(self.class_map@),
                forall|k: int| 0 <= k < j ==> (#[trigger] cs[k]).0 != key@,
            decreases self.class_map@.len() - j,
        {
            let hit = self.class_map[j].0 == key;
            if hit {
                proof {
                    lemma_ckey_idx(cs, key@);
                    assert(cs[j as int].0 == key@);
                }
                let ghost oldlist = self.class_map@[j as int].1@;
                self.class_map[j].1.push(v);
                proof {
                    assert(to_ints(self.class_map@[j as int].1@) =~= to_ints(oldlist).push(
                        v as int,
                    ));
                    assert(clsv(self.class_map@) =~= cs.update(
                        j as int,
                        (key@, cs[j as int].1.push(v as int)),
                    ));
                }
                return ;
            }
            proof {
                assert(cs[j as int].0 == self.class_map@[j as int].0@);
            }
            j = j + 1;
        }
        proof {
            lemma_ckey_idx(cs, key@);
        }
        let mut l: Vec<usize> = Vec::new();
        l.push(v);
        self.class_map.push((key, l));
        proof {
            assert(to_ints(seq![v]) =~= seq![v as int]);
            assert(clsv(self.class_map@) =~= cs.push((key@, seq![v as int])));
        }
    }

    /// Repoints every tag that referenced the superseded slot.
    fn replace_tags_for_seg(&mut self, src: usize, dst: usize)
        ensures
            idsv(final(self).id_map@) == repoint_ids(idsv(old(self).id_map@), src as int, dst as int),
            clsv(final(self).class_map@) == repoint_cls(
                clsv(old(self).class_map@),
                src as int,
                dst as int,
            ),
            final(self).incrementers == old(self).incrementers,
            final(self).write_indices == old(self).write_indices,
            final(self).segments == old(self).segments,
            final(self).output_indices == old(self).output_indices,
            final(self).wl_used == old(self).wl_used,
            final(self).id_map@.len() == old(self).id_map@.len(),
            forall|j: int|
                0 <= j < final(self).id_map@.len() ==> (#[trigger] final(self).id_map@[j]).1 == dst
                    || final(self).id_map@[j].1 == old(self).id_map@[j].1,
            final(self).class_map@.len() == old(self).class_map@.len(),
            forall|j: int|
                0 <= j < final(self).class_map@.len() ==> #[trigger] final(self).class_map@[j].1@.len() == old(self).class_map@[j].1@.len(),
            forall|j: int, k: int|
                0 <= j < final(self).class_map@.len() && 0 <= k
                    < final(self).class_map@[j].1@.len() ==> #[trigger] final(self).class_map@[j].1@[k] == dst || final(self).class_map@[j].1@[k]
                    == old(self).class_map@[j].1@[k],
    {
        let ghost ids0 = idsv(old(self).id_map@);
        let mut j: usize = 0;
        while j < self.id_map.len()
            invariant
                j <= self.id_map@.len(),
                self.id_map@.len() == old(self).id_map@.len(),
                self.incrementers == old(self).incrementers,
                self.write_indices == old(self).write_indices,
                self.segments == old(self).segments,
                self.output_indices == old(self).output_indices,
                self.class_map == old(self).class_map,
                self.wl_used == old(self).wl_used,
                ids0 == idsv(old(self).id_map@),
                forall|k: int|
                    0 <= k < j ==> #[trigger] idsv(self.id_map@)[k] == repoint_ids(
                        ids0,
                        src as int,
                        dst as int,
                    )[k],
                forall|k: int|
                    j <= k < self.id_map@.len() ==> #[trigger] self.id_map@[k]
                        == old(self).id_map@[k],
            decreases self.id_map@.len() - j,
        {
            let ghost pre = self.id_map@;
            let is_src = self.id_map[j].1 == src;
            if is_src {
                self.id_map[j].1 = dst;
            }
            proof {
                assert forall|k: int|
                    0 <= k < j + 1 implies #[trigger] idsv(self.id_map@)[k] == repoint_ids(
                    ids0,
                    src as int,
                    dst as int,
                )[k] by {
                    assert(ids0.len() == old(self).id_map@.len());
                    if k < j {
                        assert(idsv(pre)[k] == repoint_ids(ids0, src as int, dst as int)[k]);
                        assert(idsv(pre)[k].0 == pre[k].0@);
                        assert(idsv(pre)[k].1 == pre[k].1 as int);
                        assert(self.id_map@[k] == pre[k]);
                    }
                    assert(idsv(self.id_map@)[k].0 == self.id_map@[k].0@);
                    assert(idsv(self.id_map@)[k].1 == self.id_map@[k].1 as int);
                    assert(ids0[k].0 == old(self).id_map@[k].0@);
                    assert(ids0[k].1 == old(self).id_map@[k].1 as int);
                    if ids0[k].1 == src as int {
                        assert(repoint_ids(ids0, src as int, dst as int)[k] == (ids0[k].0, dst as int));
                    } else {
                        assert(repoint_ids(ids0, src as int, dst as int)[k] == ids0[k]);
                    }
                }
            }
            j = j + 1;
        }
        proof {
            assert(idsv(self.id_map@) =~= repoint_ids(ids0, src as int, dst as int));
            assert forall|j2: int|
                0 <= j2 < self.id_map@.len() implies (#[trigger] self.id_map@[j2]).1 == dst
                || self.id_map@[j2].1 == old(self).id_map@[j2].1 by {
                assert(idsv(self.id_map@)[j2] == repoint_ids(ids0, src as int, dst as int)[j2]);
                assert(ids0[j2].0 == old(self).id_map@[j2].0@);
                assert(ids0[j2].1 == old(self).id_map@[j2].1 as int);
                assert(idsv(self.id_map@)[j2].1 == self.id_map@[j2].1 as int);
            }
        }
        let ghost cs0 = clsv(old(self).class_map@);
        let mut c: usize = 0;
        while c < self.class_map.len()
            invariant
                c <= self.class_map@.len(),
                self.class_map@.len() == old(self).class_map@.len(),
                self.incrementers == old(self).incrementers,
                self.write_indices == old(self).write_indices,
                self.segments == old(self).segments,
                self.output_indices == old(self).output_indices,
                self.wl_used == old(self).wl_used,
                ids0 == idsv(old(self).id_map@),
                idsv(self.id_map@) == repoint_ids(ids0, src as int, dst as int),
                self.id_map@.len() == old(self).id_map@.len(),
                forall|j2: int|
                    0 <= j2 < self.id_map@.len() ==> (#[trigger] self.id_map@[j2]).1 == dst
                        || self.id_map@[j2].1 == old(self).id_map@[j2].1,
                cs0 == clsv(old(self).class_map@),
                forall|k: int|
                    0 <= k < c ==> #[trigger] clsv(self.class_map@)[k] == repoint_cls(
                        cs0,
                        src as int,
                        dst as int,
                    )[k],
                forall|k: int|
                    c <= k < self.class_map@.len() ==> #[trigger] self.class_map@[k]
                        == old(self).class_map@[k],
                forall|j2: int|
                    0 <= j2 < self.class_map@.len() ==> #[trigger] self.class_map@[j2].1@.len()
                        == old(self).class_map@[j2].1@.len(),
                forall|j2: int, k2: int|
                    0 <= j2 < self.class_map@.len() && 0 <= k2 < self.class_map@[j2].1@.len()
                        ==> #[trigger] self.class_map@[j2].1@[k2] == dst
                        || self.class_map@[j2].1@[k2] == old(self).class_map@[j2].1@[k2],
            decreases self.class_map@.len() - c,
        {
            let ghost cmsnap = self.class_map@;
            let ghost listpre = self.class_map@[c as int].1@;
            proof {
                assert(self.class_map@[c as int].1@.len() == old(self).class_map@[
                    c as int
                ].1@.len());
                assert forall|k2: int|
                    0 <= k2 < listpre.len() implies #[trigger] listpre[k2] == dst || listpre[k2]
                    == old(self).class_map@[c as int].1@[k2] by {
                    assert(self.class_map@[c as int].1@[k2] == dst || self.class_map@[
                        c as int
                    ].1@[k2] == old(self).class_map@[c as int].1@[k2]);
                }
            }
            let m = self.class_map[c].1.len();
            let mut k: usize = 0;
            while k < m
                invariant
                    k <= m,
                    c < self.class_map@.len(),
                    self.class_map@.len() == cmsnap.len(),
                    cmsnap.len() == old(self).class_map@.len(),
                    cmsnap[c as int].1@ == listpre,
                    m == listpre.len(),
                    self.class_map@[c as int].1@.len() == listpre.len(),
                    self.class_map@[c as int].0 == cmsnap[c as int].0,
                    self.incrementers == old(self).incrementers,
                    self.write_indices == old(self).write_indices,
                    self.segments == old(self).segments,
                    self.output_indices == old(self).output_indices,
                    self.wl_used == old(self).wl_used,
                    ids0 == idsv(old(self).id_map@),
                    idsv(self.id_map@) == repoint_ids(ids0, src as int, dst as int),
                    self.id_map@.len() == old(self).id_map@.len(),
                    forall|j2: int|
                        0 <= j2 < self.id_map@.len() ==> (#[trigger] self.id_map@[j2]).1 == dst
                            || self.id_map@[j2].1 == old(self).id_map@[j2].1,
                    cs0 == clsv(old(self).class_map@),
                    forall|k2: int|
                        0 <= k2 < c ==> #[trigger] clsv(cmsnap)[k2] == repoint_cls(
                            cs0,
                            src as int,
                            dst as int,
                        )[k2],
                    forall|j2: int|
                        c < j2 < cmsnap.len() ==> #[trigger] cmsnap[j2]
                            == old(self).class_map@[j2],
                    listpre.len() == old(self).class_map@[c as int].1@.len(),
                    forall|k2: int|
                        0 <= k2 < m ==> #[trigger] listpre[k2] == dst || listpre[k2]
                            == old(self).class_map@[c as int].1@[k2],
                    forall|k2: int|
                        0 <= k2 < k ==> #[trigger] self.class_map@[c as int].1@[k2] == (if listpre[k2]
                            == src {
                            dst
                        } else {
                            listpre[k2]
                        }),
                    forall|k2: int|
                        k <= k2 < m ==> #[trigger] self.class_map@[c as int].1@[k2] == listpre[k2],
                    forall|j2: int|
                        0 <= j2 < self.class_map@.len() && j2 != c ==> #[trigger] self.class_map@[j2]
                            == cmsnap[j2],
                decreases m - k,
            {
                let is_src = self.class_map[c].1[k] == src;
                if is_src {
                    self.class_map[c].1[k] = dst;
                }
                k = k + 1;
            }
            proof {
                assert forall|k2: int|
                    0 <= k2 < c implies #[trigger] clsv(self.class_map@)[k2] == clsv(cmsnap)[k2] by {
                    assert(self.class_map@[k2] == cmsnap[k2]);
                }
                assert(to_ints(self.class_map@[c as int].1@) =~= repoint_list(
                    to_ints(listpre),
                    src as int,
                    dst as int,
                ));
                assert(clsv(self.class_map@)[c as int] == repoint_cls(cs0, src as int, dst as int)[c as int]);
                assert forall|k2: int|
                    0 <= k2 < c + 1 implies #[trigger] clsv(self.class_map@)[k2] == repoint_cls(
                    cs0,
                    src as int,
                    dst as int,
                )[k2] by {
                    if k2 < c {
                        assert(self.class_map@[k2] == cmsnap[k2]);
                    }
                }
            }
            c = c + 1;
        }
        proof {
            assert(clsv(self.class_map@) =~= repoint_cls(cs0, src as int, dst as int));
        }
    }

    /// Drops the first occurrence of a superseded slot from the output
    /// order.
    fn remove_seg_from_output(&mut self, src: usize)
        ensures
            to_ints(final(self).output_indices@) == out_remove(
                to_ints(old(self).output_indices@),
                src as int,
            ),
            final(self).incrementers == old(self).incrementers,
            final(self).write_indices == old(self).write_indices,
            final(self).segments == old(self).segments,
            final(self).id_map == old(self).id_map,
            final(self).class_map == old(self).class_map,
            final(self).wl_used == old(self).wl_used,
            forall|j: int|
                0 <= j < final(self).output_indices@.len() ==> (exists|k: int|
                    0 <= k < old(self).output_indices@.len() && #[trigger] final(self).output_indices@[j] == old(self).output_indices@[k]),
    {
        let ghost outs = to_ints(self.output_indices@);
        let mut j: usize = 0;
        while j < self.output_indices.len()
            invariant
                j <= self.output_indices@.len(),
                *self == *old(self),
                outs == to_ints(self.output_indices@),
                forall|k: int| 0 <= k < j ==> #[trigger] outs[k] != src as int,
            decreases self.output_indices@.len() - j,
        {
            let hit = self.output_indices[j] == src;
            if hit {
                proof {
                    lemma_first_idx(outs, src as int);
                    assert(outs[j as int] == src as int);
                    assert(first_idx(outs, src as int) == j as int);
                }
                self.output_indices.remove(j);
                proof {
                    assert forall|k: int|
                        0 <= k < to_ints(self.output_indices@).len() implies #[trigger] to_ints(
                        self.output_indices@,
                    )[k] == outs.remove(j as int)[k] by {
                        assert(to_ints(self.output_indices@)[k] == self.output_indices@[k] as int);
                        if k < j {
                            assert(self.output_indices@[k] == old(self).output_indices@[k]);
                            assert(outs[k] == old(self).output_indices@[k] as int);
                        } else {
                            assert(self.output_indices@[k] == old(self).output_indices@[k + 1]);
                            assert(outs[k + 1] == old(self).output_indices@[k + 1] as int);
                        }
                    }
                    assert(to_ints(self.output_indices@) =~= outs.remove(j as int));
                    assert forall|j2: int|
                        0 <= j2 < self.output_indices@.len() implies (exists|k: int|
                            0 <= k < old(self).output_indices@.len() && #[trigger] self
                                .output_indices@[j2] == old(self).output_indices@[k]) by {
                        if j2 < j {
                            assert(self.output_indices@[j2] == old(self).output_indices@[j2]);
                        } else {
                            assert(self.output_indices@[j2] == old(self).output_indices@[j2 + 1]);
                        }
                    }
                }
                return ;
            }
            proof {
                assert(outs[j as int] == self.output_indices@[j as int] as int);
            }
            j = j + 1;
        }
        proof {
            lemma_first_idx(outs, src as int);
        }
    }

    /// Replaces the first occurrence of a source slot in the output order
    /// with the slot that now stands for it.
    fn replace_seg_in_output(&mut self, src: usize, dst: usize)
        ensures
            to_ints(final(self).output_indices@) == out_replace(
                to_ints(old(self).output_indices@),
                src as int,
                dst as int,
            ),
            final(self).incrementers == old(self).incrementers,
            final(self).write_indices == old(self).write_indices,
            final(self).segments == old(self).segments,
            final(self).id_map == old(self).id_map,
            final(self).class_map == old(self).class_map,
            final(self).wl_used == old(self).wl_used,
            final(self).output_indices@.len() == old(self).output_indices@.len(),
            forall|j: int|
                0 <= j < final(self).output_indices@.len() ==> (#[trigger] final(self).output_indices@[j]) == dst || final(self).output_indices@[j]
                    == old(self).output_indices@[j],
    {
        let ghost outs = to_ints(self.output_indices@);
        let mut j: usize = 0;
        while j < self.output_indices.len()
            invariant
                j <= self.output_indices@.len(),
                *self == *old(self),
                outs == to_ints(self.output_indices@),
                forall|k: int| 0 <= k < j ==> #[trigger] outs[k] != src as int,
            decreases self.output_indices@.len() - j,
        {
            let hit = self.output_indices[j] == src;
            if hit {
                proof {
                    lemma_first_idx(outs, src as int);
                    assert(outs[j as int] == src as int);
                    assert(first_idx(outs, src as int) == j as int);
                }
                self.output_indices[j] = dst;
                proof {
                    assert forall|k: int|
                        0 <= k < to_ints(self.output_indices@).len() implies #[trigger] to_ints(
                        self.output_indices@,
                    )[k] == outs.update(j as int, dst as int)[k] by {
                        assert(to_ints(self.output_indices@)[k] == self.output_indices@[k] as int);
                        if k != j {
                            assert(self.output_indices@[k] == old(self).output_indices@[k]);
                            assert(outs[k] == old(self).output_indices@[k] as int);
                        }
                    }
                    assert(to_ints(self.output_indices@) =~= outs.update(j as int, dst as int));
                }
                return ;
            }
            proof {
                assert(outs[j as int] == self.output_indices@[j as int] as int);
            }
            j = j + 1;
        }
        proof {
            lemma_first_idx(outs, src as int);
        }
    }

    /// Wires in a generator with one output slot: the slot is appended to
    /// the output order.
    fn add_basic_incrementer(&mut self, inc: Incrementer)
        requires
            old(self).binv(),
            inc.sane(),
            forall|s: Seq<Seq<char>>| inc.cursor(s) == 0,
            reads_below(inc@, old(self).segments@.len() as int),
            gen_arity(inc@) == 1,
        ensures
            final(self).binv(),
            final(self).bview() == spec_add_basic(old(self).bview(), inc@),
            final(self).segments@.len() == old(self).segments@.len() + 1,
            final(self).wl_used == old(self).wl_used,
    {
        let ghost gs0 = gviews(old(self).incrementers@);
        let ghost n0 = old(self).incrementers@.len() as int;
        let seg = self.segments.len();
        self.incrementers.push(inc);
        let mut w: Vec<usize> = Vec::new();
        w.push(seg);
        self.write_indices.push(w);
        self.output_indices.push(seg);
        self.segments.push(Vec::new());
        proof {
            let gs = gviews(self.incrementers@);
            assert(gs =~= gs0.push(inc@));
            lemma_arity_sum_prefix(gs, gs0, n0);
            assert(arity_sum(gs, n0 + 1) == arity_sum(gs, n0) + gen_arity(inc@));
            assert forall|i: int, k: int|
                0 <= i < n0 + 1 && 0 <= k < self.write_indices@[i]@.len()
                    implies #[trigger] self.write_indices@[i]@[k] == arity_sum(gs, i) + k by {
                if i < n0 {
                    assert(self.write_indices@[i] == old(self).write_indices@[i]);
                    assert(gs[i] == gs0[i]);
                    lemma_arity_sum_prefix(gs, gs0, i);
                }
            }
            assert forall|i: int|
                0 <= i < n0 + 1 implies reads_below(#[trigger] gs[i], arity_sum(gs, i)) by {
                if i < n0 {
                    lemma_arity_sum_prefix(gs, gs0, i);
                }
            }
            assert(to_ints(self.output_indices@) =~= to_ints(old(self).output_indices@).push(
                seg as int,
            ));
            assert(final(self).bview().gens =~= spec_add_basic(old(self).bview(), inc@).gens);
        }
    }

    /// Applies the step's modifiers in fixed precedence: the case modifier
    /// first, then the optional modifier.
    #[verifier::rlimit(100)]
    fn add_modifiers(&mut self, modifiers: GeneratorModifiers)
        requires
            old(self).binv(),
            old(self).segments@.len() >= 1,
        ensures
            final(self).binv(),
            final(self).bview() == spec_add_modifiers(old(self).bview(), modifiers),
            final(self).segments@.len() >= 1,
            final(self).wl_used == old(self).wl_used,
    {
        let ghost m0 = self.bview();
        let mut source_seg_idx = self.segments.len() - 1;
        let dflt = CaseModifiers::default();
        if !(modifiers.case == dflt) {
            let ghost mpre = self.bview();
            let inc = CaseModifierIncrementer::new(source_seg_idx, modifiers.case);
            self.add_basic_incrementer(Incrementer::Case(inc));
            let new_seg = self.segments.len() - 1;
            self.remove_seg_from_output(source_seg_idx);
            self.replace_tags_for_seg(source_seg_idx, new_seg);
            proof {
                self.lemma_binv_after_rewire(mpre, source_seg_idx as int, new_seg as int);
                assert(self.bview() == spec_add_modifier_gen(
                    mpre,
                    GenSpec::Case { src: source_seg_idx as int, mods: modifiers.case },
                    source_seg_idx as int,
                ));
            }
            source_seg_idx = new_seg;
        }
        if modifiers.optional {
            let ghost mpre = self.bview();
            let inc = OptionalModifierIncrementer::new(source_seg_idx);
            self.add_basic_incrementer(Incrementer::Optional(inc));
            let new_seg = self.segments.len() - 1;
            self.remove_seg_from_output(source_seg_idx);
            self.replace_tags_for_seg(source_seg_idx, new_seg);
            proof {
                self.lemma_binv_after_rewire(mpre, source_seg_idx as int, new_seg as int);
                assert(self.bview() == spec_add_modifier_gen(
                    mpre,
                    GenSpec::Optional { src: source_seg_idx as int },
                    source_seg_idx as int,
                ));
            }
        }
    }

    /// After superseding a slot, the structural invariant still holds:
    /// the rewired maps name only slots that exist.
    proof fn lemma_binv_after_rewire(&self, mpre: BuildState, src: int, dst: int)
        requires
            self.write_indices@.len() == self.incrementers@.len(),
            forall|i: int|
                0 <= i < self.incrementers@.len() ==> #[trigger] self.write_indices@[i]@.len()
                    == gen_arity(gviews(self.incrementers@)[i]),
            forall|i: int, k: int|
                0 <= i < self.incrementers@.len() && 0 <= k < self.write_indices@[i]@.len()
                    ==> #[trigger] self.write_indices@[i]@[k] == arity_sum(
                    gviews(self.incrementers@),
                    i,
                ) + k,
            self.segments@.len() == arity_sum(
                gviews(self.incrementers@),
                self.incrementers@.len() as int,
            ),
            forall|i: int|
                0 <= i < self.incrementers@.len() ==> (#[trigger] self.incrementers@[i]).sane(),
            forall|i: int|
                0 <= i < self.incrementers@.len() ==> (forall|s: Seq<Seq<char>>|
                    (#[trigger] self.incrementers@[i]).cursor(s) == 0),
            forall|i: int|
                0 <= i < self.incrementers@.len() ==> reads_below(
                    #[trigger] gviews(self.incrementers@)[i],
                    arity_sum(gviews(self.incrementers@), i),
                ),
            0 <= dst < self.segments@.len(),
            forall|j: int|
                0 <= j < self.output_indices@.len() ==> #[trigger] self.output_indices@[j]
                    < self.segments@.len(),
            forall|j: int|
                0 <= j < self.id_map@.len() ==> (#[trigger] self.id_map@[j]).1
                    < self.segments@.len(),
            forall|j: int, k: int|
                0 <= j < self.class_map@.len() && 0 <= k < self.class_map@[j].1@.len()
                    ==> #[trigger] self.class_map@[j].1@[k] < self.segments@.len(),
            forall|j: int|
                0 <= j < self.segments@.len() ==> (#[trigger] self.segments@[j])@.len() == 0,
        ensures
            self.binv(),
    {
    }

    /// Registers the step's tags: the positional id, the optional explicit
    /// id (a second binding of which is fatal), and the classes.
    fn add_attr(&mut self, step_id_idx: usize, attr: CommonAttributes) -> (r: Result<
        (),
        BuildError,
    >)
        requires
            old(self).binv(),
            old(self).segments@.len() >= 1,
        ensures
            r is Ok ==> spec_add_attr(old(self).bview(), step_id_idx as int, attr) == Ok::<
                BuildState,
                BuildError,
            >(final(self).bview()) && final(self).binv() && final(self).segments@.len() == old(
                self,
            ).segments@.len() && final(self).wl_used == old(self).wl_used,
            r is Err ==> spec_add_attr(old(self).bview(), step_id_idx as int, attr) == Err::<
                BuildState,
                BuildError,
            >(r->Err_0),
    {
        let ghost m0 = old(self).bview();
        let ghost gattr = attr;
        let seg = self.segments.len() - 1;
        let tag = step_tag(step_id_idx);
        proof {
            assert(tag@ == pos_tag(step_id_idx as int));
        }
        self.upsert_id(tag, seg);
        let ghost ids1 = idsv(self.id_map@);
        proof {
            assert(ids1 == id_upsert(m0.ids, pos_tag(step_id_idx as int), seg as int));
        }
        let CommonAttributes { id, classes } = attr;
        match id {
            Some(idk) => {
                match self.find_id(&idk) {
                    Some(_) => {
                        proof {
                            assert(id_lookup(ids1, idk@) is Some);
                        }
                        return Err(BuildError::DuplicateId);
                    },
                    None => {
                        proof {
                            assert(id_lookup(ids1, idk@) is None);
                        }
                    },
                }
                self.id_map.push((idk, seg));
                proof {
                    assert(idsv(self.id_map@) =~= ids1.push((idk@, seg as int)));
                }
            },
            None => {},
        }
        let ghost fullc = gattr.classes.deep_view();
        let ghost cls0 = clsv(self.class_map@);
        proof {
            assert forall|j: int, k: int|
                0 <= j < cls0.len() && 0 <= k < cls0[j].1.len() implies 0 <= #[trigger] cls0[j].1[k]
                < self.segments@.len() as int by {
                assert(cls0[j].1 == to_ints(self.class_map@[j].1@));
                assert(cls0[j].1[k] == self.class_map@[j].1@[k] as int);
            }
        }
        let ghost clsfull = classes@;
        let mut cl = classes;
        let ghost mut consumed: int = 0;
        while cl.len() > 0
            invariant
                0 <= consumed,
                consumed + cl@.len() == clsfull.len(),
                forall|i: int| 0 <= i < cl@.len() ==> #[trigger] cl@[i] == clsfull[consumed + i],
                fullc == gattr.classes.deep_view(),
                clsfull == gattr.classes@,
                clsv(self.class_map@) == spec_add_classes(cls0, fullc, seg as int, consumed),
                self.incrementers == old(self).incrementers,
                self.write_indices == old(self).write_indices,
                self.segments == old(self).segments,
                self.output_indices == old(self).output_indices,
                self.wl_used == old(self).wl_used,
                idsv(self.id_map@) == (match attr_id_view(gattr) {
                    Some(k) => ids1.push((k, seg as int)),
                    None => ids1,
                }),
                forall|j: int|
                    0 <= j < self.id_map@.len() ==> (#[trigger] self.id_map@[j]).1
                        < self.segments@.len(),
                cls_bounded(clsv(self.class_map@), self.segments@.len() as int),
                seg == self.segments@.len() - 1,
            decreases cl@.len(),
        {
            let ghost clpre = cl@;
            let c = cl.remove(0);
            proof {
                assert(cl@ =~= clpre.drop_first());
                assert(c@ == clsfull[consumed]@);
                assert(fullc[consumed] == clsfull[consumed]@);
            }
            let ghost cmpre = clsv(self.class_map@);
            let ghost ckey = c@;
            proof {
                lemma_class_append_bounded(cmpre, ckey, seg as int, self.segments@.len() as int);
            }
            self.class_add(c, seg);
            proof {
                assert(clsv(self.class_map@) == spec_add_classes(
                    cls0,
                    fullc,
                    seg as int,
                    consumed + 1,
                ));
                assert(clsv(self.class_map@) == class_append(cmpre, ckey, seg as int));
                assert forall|i: int| 0 <= i < cl@.len() implies #[trigger] cl@[i] == clsfull[
                    consumed + 1 + i
                ] by {
                    assert(cl@[i] == clpre[i + 1]);
                }
                consumed = consumed + 1;
            }
        }
        proof {
            assert(consumed == fullc.len());
            assert forall|j: int, k: int|
                0 <= j < self.class_map@.len() && 0 <= k < self.class_map@[j].1@.len()
                    implies #[trigger] self.class_map@[j].1@[k] < self.segments@.len() by {
                let csn = clsv(self.class_map@);
                assert(csn[j].1 == to_ints(self.class_map@[j].1@));
                assert(csn[j].1[k] == self.class_map@[j].1@[k] as int);
                assert(0 <= csn[j].1[k] < self.segments@.len() as int);
            }
        }
        Ok(())
    }

    /// What one tag of a target list names: the slot of an id, the slots
    /// of a class, in registration order.
    fn tag_to_seg_indices(&self, tag: &String) -> (r: Result<Vec<usize>, BuildError>)
        requires
            self.binv(),
        ensures
            r is Ok ==> resolve_tag(idsv(self.id_map@), clsv(self.class_map@), tag@) == Ok::<
                Seq<int>,
                BuildError,
            >(to_ints(r->Ok_0@)) && (forall|i: int|
                0 <= i < r->Ok_0@.len() ==> #[trigger] r->Ok_0@[i] < self.segments@.len()),
            r is Err ==> resolve_tag(idsv(self.id_map@), clsv(self.class_map@), tag@) == Err::<
                Seq<int>,
                BuildError,
            >(r->Err_0),
    {
        if tag.as_str().unicode_len() == 0 {
            let v: Vec<usize> = Vec::new();
            proof {
                assert(to_ints(v@) =~= Seq::<int>::empty());
            }
            return Ok(v);
        }
        let c0 = tag.as_str().get_char(0);
        if c0 == '#' {
            match self.find_id(tag) {
                Some(j) => {
                    proof {
                        lemma_key_idx(idsv(self.id_map@), tag@);
                        assert(idsv(self.id_map@)[j as int].1 == self.id_map@[j as int].1 as int);
                    }
                    let s = self.id_map[j].1;
                    let mut v: Vec<usize> = Vec::new();
                    v.push(s);
                    proof {
                        assert(to_ints(v@) =~= seq![s as int]);
                        assert(self.id_map@[j as int].1 < self.segments@.len());
                    }
                    Ok(v)
                },
                None => Err(BuildError::UnknownId),
            }
        } else if c0 == '.' {
            let ghost cs = clsv(self.class_map@);
            let mut j: usize = 0;
            while j < self.class_map.len()
                invariant
                    j <= self.class_map@.len(),
                    self.binv(),
                    tag@.len() > 0,
                    tag@[0] == '.',
                    cs == clsv(self.class_map@),
                    forall|k: int| 0 <= k < j ==> (#[trigger] cs[k]).0 != tag@,
                decreases self.class_map@.len() - j,
            {
                let hit = self.class_map[j].0 == *tag;
                if hit {
                    proof {
                        lemma_ckey_idx(cs, tag@);
                        assert(cs[j as int].0 == tag@);
                        assert(ckey_idx(cs, tag@) == j as int);
                        assert(cs[j as int].1 == to_ints(self.class_map@[j as int].1@));
                    }
                    let v = copy_idxs(&self.class_map[j].1);
                    proof {
                        assert forall|i: int| 0 <= i < v@.len() implies #[trigger] v@[i]
                            < self.segments@.len() by {
                            assert(self.class_map@[j as int].1@[i] < self.segments@.len());
                        }
                        assert(tag@.len() > 0);
                        assert(tag@[0] == '.');
                        assert(class_lookup(clsv(self.class_map@), tag@) == Some(
                            cs[j as int].1,
                        ));
                        assert(to_ints(v@) == cs[j as int].1);
                        assert(resolve_tag(idsv(self.id_map@), clsv(self.class_map@), tag@)
                            == Ok::<Seq<int>, BuildError>(to_ints(v@)));
                    }
                    return Ok(v);
                }
                proof {
                    assert(cs[j as int].0 == self.class_map@[j as int].0@);
                }
                j = j + 1;
            }
            proof {
                lemma_ckey_idx(cs, tag@);
            }
            Err(BuildError::UnknownClass)
        } else {
            let v: Vec<usize> = Vec::new();
            proof {
                assert(to_ints(v@) =~= Seq::<int>::empty());
            }
            Ok(v)
        }
    }

    /// Wires in a rearrange generator: one fresh slot per source, the
    /// sources' places in the output order taken over by the fresh slots,
    /// and every tag repointed.
    #[verifier::rlimit(100)]
    fn add_multimod_incrementer(&mut self, source_seg_indices: Vec<usize>)
        requires
            old(self).binv(),
            forall|i: int|
                0 <= i < source_seg_indices@.len() ==> #[trigger] source_seg_indices@[i] < old(
                    self,
                ).segments@.len(),
        ensures
            final(self).binv(),
            final(self).bview() == spec_add_multimod(
                old(self).bview(),
                GenSpec::Rearrange { srcs: to_ints(source_seg_indices@) },
                to_ints(source_seg_indices@),
            ),
            final(self).wl_used == old(self).wl_used,
            final(self).segments@.len() >= old(self).segments@.len(),
    {
        let ghost m0 = old(self).bview();
        let ghost gs0 = gviews(old(self).incrementers@);
        let ghost n0 = old(self).incrementers@.len() as int;
        let ghost srcsv = to_ints(source_seg_indices@);
        let n = source_seg_indices.len();
        let base = self.segments.len();
        let inc = RearrangeIncrementer::new(copy_idxs(&source_seg_indices));
        self.incrementers.push(Incrementer::Rearrange(inc));
        let mut w: Vec<usize> = Vec::new();
        let mut k: usize = 0;
        while k < n
            invariant
                k <= n,
                n == source_seg_indices@.len(),
                base == old(self).segments@.len(),
                self.segments@.len() == base + k,
                w@.len() == k,
                forall|k2: int| 0 <= k2 < k ==> #[trigger] w@[k2] == base + k2,
                self.write_indices == old(self).write_indices,
                self.output_indices == old(self).output_indices,
                self.id_map == old(self).id_map,
                self.class_map == old(self).class_map,
                self.wl_used == old(self).wl_used,
                gviews(self.incrementers@) == gs0.push(
                    GenSpec::Rearrange { srcs: srcsv },
                ),
                self.incrementers@.len() == n0 + 1,
                forall|i: int|
                    0 <= i < n0 ==> #[trigger] self.incrementers@[i] == old(self).incrementers@[i],
                self.incrementers@[n0 as int].sane(),
                forall|s: Seq<Seq<char>>| self.incrementers@[n0 as int].cursor(s) == 0,
                forall|j: int|
                    0 <= j < self.segments@.len() ==> (#[trigger] self.segments@[j])@.len() == 0,
            decreases n - k,
        {
            self.segments.push(Vec::new());
            w.push(self.segments.len() - 1);
            k = k + 1;
        }
        self.write_indices.push(w);
        let total = self.segments.len();
        proof {
            assert(total == base + n);
            assert(to_ints(self.output_indices@) == to_ints(old(self).output_indices@));
            assert(idsv(self.id_map@) == idsv(old(self).id_map@));
            assert(clsv(self.class_map@) == clsv(old(self).class_map@));
        }
        let ghost outs0 = to_ints(old(self).output_indices@);
        let ghost ids0 = idsv(old(self).id_map@);
        let ghost cs0 = clsv(old(self).class_map@);
        let mut k2: usize = 0;
        while k2 < n
            invariant
                k2 <= n,
                n == source_seg_indices@.len(),
                srcsv == to_ints(source_seg_indices@),
                forall|i: int|
                    0 <= i < source_seg_indices@.len() ==> #[trigger] source_seg_indices@[i] < base,
                base == old(self).segments@.len(),
                base + n <= usize::MAX,
                self.segments@.len() == base + n,
                self.incrementers@.len() == n0 + 1,
                gviews(self.incrementers@) == gs0.push(GenSpec::Rearrange { srcs: srcsv }),
                forall|i: int|
                    0 <= i < n0 ==> #[trigger] self.incrementers@[i] == old(self).incrementers@[i],
                self.incrementers@[n0 as int].sane(),
                forall|s: Seq<Seq<char>>| self.incrementers@[n0 as int].cursor(s) == 0,
                self.write_indices@.len() == n0 + 1,
                forall|i: int|
                    0 <= i < n0 ==> #[trigger] self.write_indices@[i]
                        == old(self).write_indices@[i],
                self.write_indices@[n0 as int]@.len() == n,
                forall|j: int|
                    0 <= j < n ==> #[trigger] self.write_indices@[n0 as int]@[j] == base + j,
                self.wl_used == old(self).wl_used,
                outs0 == to_ints(old(self).output_indices@),
                ids0 == idsv(old(self).id_map@),
                cs0 == clsv(old(self).class_map@),
                (to_ints(self.output_indices@), idsv(self.id_map@), clsv(self.class_map@))
                    == spec_rewire(outs0, ids0, cs0, srcsv, base as int, k2 as int),
                self.output_indices@.len() <= old(self).output_indices@.len(),
                forall|j: int|
                    0 <= j < self.output_indices@.len() ==> #[trigger] self.output_indices@[j]
                        < base + n,
                forall|j: int|
                    0 <= j < self.id_map@.len() ==> (#[trigger] self.id_map@[j]).1 < base + n,
                forall|j: int, kk: int|
                    0 <= j < self.class_map@.len() && 0 <= kk < self.class_map@[j].1@.len()
                        ==> #[trigger] self.class_map@[j].1@[kk] < base + n,
                self.id_map@.len() == old(self).id_map@.len(),
                self.class_map@.len() == old(self).class_map@.len(),
                forall|j: int|
                    0 <= j < self.segments@.len() ==> (#[trigger] self.segments@[j])@.len() == 0,
            decreases n - k2,
        {
            let src = source_seg_indices[k2];
            let dst = base + k2;
            let ghost opre = to_ints(self.output_indices@);
            let ghost ipre = idsv(self.id_map@);
            let ghost cpre = clsv(self.class_map@);
            self.replace_seg_in_output(src, dst);
            self.replace_tags_for_seg(src, dst);
            proof {
                assert(to_ints(self.output_indices@) == out_replace(opre, src as int, dst as int));
                assert(idsv(self.id_map@) == repoint_ids(ipre, src as int, dst as int));
                assert(clsv(self.class_map@) == repoint_cls(cpre, src as int, dst as int));
                assert((to_ints(self.output_indices@), idsv(self.id_map@), clsv(self.class_map@))
                    == spec_rewire(outs0, ids0, cs0, srcsv, base as int, k2 + 1));
            }
            k2 = k2 + 1;
        }
        proof {
            let gs = gviews(self.incrementers@);
            lemma_arity_sum_prefix(gs, gs0, n0);
            assert(arity_sum(gs, n0 + 1) == arity_sum(gs, n0) + gen_arity(
                GenSpec::Rearrange { srcs: srcsv },
            ));
            assert(srcsv.len() == n);
            assert forall|i: int, kk: int|
                0 <= i < n0 + 1 && 0 <= kk < self.write_indices@[i]@.len()
                    implies #[trigger] self.write_indices@[i]@[kk] == arity_sum(gs, i) + kk by {
                if i < n0 {
                    assert(self.write_indices@[i] == old(self).write_indices@[i]);
                    assert(gs[i] == gs0[i]);
                    lemma_arity_sum_prefix(gs, gs0, i);
                }
            }
            assert forall|i: int|
                0 <= i < n0 + 1 implies reads_below(#[trigger] gs[i], arity_sum(gs, i)) by {
                if i < n0 {
                    lemma_arity_sum_prefix(gs, gs0, i);
                } else {
                    assert forall|q: int| 0 <= q < srcsv.len() implies 0 <= #[trigger] srcsv[q]
                        < arity_sum(gs, i) by {
                        assert(srcsv[q] == source_seg_indices@[q] as int);
                    }
                }
            }
            assert forall|i: int|
                0 <= i < n0 + 1 implies (#[trigger] self.incrementers@[i]).sane() by {
                if i < n0 {
                    assert(self.incrementers@[i] == old(self).incrementers@[i]);
                }
            }
            assert forall|i: int|
                0 <= i < n0 + 1 implies (forall|s: Seq<Seq<char>>|
                    (#[trigger] self.incrementers@[i]).cursor(s) == 0) by {
                if i < n0 {
                    assert(self.incrementers@[i] == old(self).incrementers@[i]);
                }
            }
        }
    }
}

pub proof fn lemma_arity_sum_prefix(g1: Seq<GenSpec>, g2: Seq<GenSpec>, i: int)
    requires
        forall|j: int| 0 <= j < i ==> g1[j] == g2[j],
    ensures
        arity_sum(g1, i) == arity_sum(g2, i),
    decreases i,
{
    if i > 0 {
        lemma_arity_sum_prefix(g1, g2, i - 1);
    }
}

/// A failed build stays failed: later steps never recover.
pub proof fn lemma_spec_build_err(steps: Seq<RecipeStep>, wls: Seq<Seq<Seq<char>>>, i: int, j: int)
    requires
        i <= j,
        spec_build(steps, wls, i) is Err,
    ensures
        spec_build(steps, wls, j) == spec_build(steps, wls, i),
    decreases j - i,
{
    if i < j {
        lemma_spec_build_err(steps, wls, i, j - 1);
    }
}

pub proof fn lemma_wl_count_mono(steps: Seq<RecipeStep>, a: int, b: int)
    requires
        a <= b,
    ensures
        wl_count(steps, a) <= wl_count(steps, b),
    decreases b - a,
{
    if a < b {
        lemma_wl_count_mono(steps, a, b - 1);
    }
}

pub struct CandidateGenerator {
    pub incrementers: Vec<Incrementer>,
    pub write_indices: Vec<Vec<usize>>,
    pub text_segments: Vec<Vec<char>>,
    pub output_indices: Vec<usize>,
}

impl CandidateGenerator {
    /// Structural well-formedness: generator `i` owns the contiguous slot
    /// block starting at the sum of the arities before it, reads only
    /// slots below that block, and the output order names real slots.
    pub open spec fn wf(&self) -> bool {
        let gs = gviews(self.incrementers@);
        let n = self.incrementers@.len() as int;
        &&& self.write_indices@.len() == n
        &&& forall|i: int|
            0 <= i < n ==> #[trigger] self.write_indices@[i]@.len() == gen_arity(gs[i])
        &&& forall|i: int, k: int|
            0 <= i < n && 0 <= k < self.write_indices@[i]@.len()
                ==> #[trigger] self.write_indices@[i]@[k] == arity_sum(gs, i) + k
        &&& self.text_segments@.len() == arity_sum(gs, n)
        &&& forall|i: int| 0 <= i < n ==> (#[trigger] self.incrementers@[i]).sane()
        &&& forall|i: int| 0 <= i < n ==> reads_below(#[trigger] gs[i], arity_sum(gs, i))
        &&& forall|j: int|
            0 <= j < self.output_indices@.len() ==> #[trigger] self.output_indices@[j]
                < self.text_segments@.len()
    }

    /// Every generator is consistent with the current slot table.
    pub open spec fn wf_all(&self) -> bool {
        forall|i: int|
            0 <= i < self.incrementers@.len() ==> (#[trigger] self.incrementers@[i]).wf(
                self.text_segments.deep_view(),
            )
    }

    /// Every generator still stands on its first value.
    pub open spec fn fresh(&self) -> bool {
        forall|i: int|
            0 <= i < self.incrementers@.len() ==> (forall|s: Seq<Seq<char>>|
                (#[trigger] self.incrementers@[i]).cursor(s) == 0)
    }

    /// No generator's cardinality depends on the slot contents.
    pub open spec fn all_seg_free(&self) -> bool {
        forall|i: int| 0 <= i < self.incrementers@.len() ==> seg_free(#[trigger] gviews(self.incrementers@)[i])
    }

    /// The odometer's current value: how many combinations lie before the
    /// current one.
    pub open spec fn odo(&self) -> int {
        odo_value(
            curs(self.incrementers@, self.text_segments.deep_view()),
            crds(gviews(self.incrementers@), self.text_segments.deep_view()),
        )
    }

    /// The total number of combinations: the product of the cardinalities.
    pub open spec fn total(&self) -> int {
        radix_prod(crds(gviews(self.incrementers@), self.text_segments.deep_view()))
    }

    /// The line the current slot table renders to.
    pub open spec fn line_of(&self, segs: Seq<Seq<char>>) -> Seq<char> {
        cat_values(to_ints(self.output_indices@), segs)
    }

    /// When no generator reads the slot contents for its cardinality, the
    /// structural invariant already makes every generator well-formed.
    pub proof fn lemma_wf_all_from_wf(&self)
        requires
            self.wf(),
            self.all_seg_free(),
        ensures
            self.wf_all(),
    {
        let gs = gviews(self.incrementers@);
        let n = self.incrementers@.len() as int;
        assert forall|i: int|
            0 <= i < n implies (#[trigger] self.incrementers@[i]).wf(
            self.text_segments.deep_view(),
        ) by {
            let inc = self.incrementers@[i];
            assert(gs[i] == inc@);
            lemma_arity_sum_mono(gs, i, n);
            crate::items::incrementer::lemma_reads_below_mono(
                gs[i],
                arity_sum(gs, i),
                arity_sum(gs, n),
            );
            assert(seg_free(gs[i]));
            match inc {
                Incrementer::Replace(g) => {
                    assert(false);
                },
                _ => {},
            }
        }
    }

    /// Renders the current combination: every generator writes its slots
    /// in build order, then the output-order slots are concatenated into
    /// one candidate line.
    pub fn update_buffer(&mut self) -> (line: String)
        requires
            old(self).wf(),
        ensures
            final(self).wf(),
            final(self).incrementers == old(self).incrementers,
            final(self).write_indices == old(self).write_indices,
            final(self).output_indices == old(self).output_indices,
            final(self).text_segments@.len() == old(self).text_segments@.len(),
            final(self).text_segments.deep_view() == spec_render(
                old(self).incrementers@,
                wviews(old(self).write_indices@),
                old(self).text_segments.deep_view(),
                old(self).incrementers@.len() as int,
            ),
            line@ == final(self).line_of(final(self).text_segments.deep_view()),
    {
        let ghost gs = gviews(old(self).incrementers@);
        let ghost ws = wviews(old(self).write_indices@);
        let ghost segs0 = old(self).text_segments.deep_view();
        let n = self.incrementers.len();
        let mut i: usize = 0;
        while i < n
            invariant
                i <= n,
                n == self.incrementers@.len(),
                self.incrementers == old(self).incrementers,
                self.write_indices == old(self).write_indices,
                self.output_indices == old(self).output_indices,
                old(self).wf(),
                gs == gviews(old(self).incrementers@),
                ws == wviews(old(self).write_indices@),
                segs0 == old(self).text_segments.deep_view(),
                self.text_segments@.len() == old(self).text_segments@.len(),
                self.text_segments.deep_view() == spec_render(
                    old(self).incrementers@,
                    ws,
                    segs0,
                    i as int,
                ),
            decreases n - i,
        {
            proof {
                assert(self.wf());
                lemma_arity_sum_mono(gs, i as int, n as int);
                crate::items::incrementer::lemma_reads_below_mono(
                    gs[i as int],
                    arity_sum(gs, i as int),
                    arity_sum(gs, n as int),
                );
                assert(reads_below(self.incrementers@[i as int]@, self.text_segments@.len() as int));
            }
            let outs = self.incrementers[i].output(&self.text_segments);
            let ghost prev = self.text_segments.deep_view();
            let ghost outsd = self.incrementers@[i as int].out_view(prev);
            proof {
                assert(outs.deep_view() == outsd);
                assert(outs@.len() == gen_arity(gs[i as int]));
            }
            let m = outs.len();
            let mut k: usize = 0;
            while k < m
                invariant
                    k <= m,
                    i < n,
                    n == self.incrementers@.len(),
                    m == outs@.len(),
                    self.incrementers == old(self).incrementers,
                    self.write_indices == old(self).write_indices,
                    self.output_indices == old(self).output_indices,
                    old(self).wf(),
                    gs == gviews(old(self).incrementers@),
                    ws == wviews(old(self).write_indices@),
                    outs.deep_view() == outsd,
                    outsd.len() == m,
                    m == gen_arity(gs[i as int]),
                    self.text_segments@.len() == old(self).text_segments@.len(),
                    self.text_segments.deep_view() == write_prefix(
                        prev,
                        ws[i as int],
                        outsd,
                        k as int,
                    ),
                    prev.len() == old(self).text_segments@.len(),
                decreases m - k,
            {
                let slot = self.write_indices[i][k];
                proof {
                    assert(self.wf());
                    assert(slot == arity_sum(gs, i as int) + k);
                    lemma_arity_sum_mono(gs, i + 1, n as int);
                    assert(arity_sum(gs, i + 1) == arity_sum(gs, i as int) + gen_arity(
                        gs[i as int],
                    ));
                    assert(slot < self.text_segments@.len());
                }
                let v = crate::text::clone_chars(&outs[k]);
                self.text_segments[slot] = v;
                proof {
                    assert(self.text_segments.deep_view() =~= write_prefix(
                        prev,
                        ws[i as int],
                        outsd,
                        k + 1,
                    ));
                }
                k = k + 1;
            }
            proof {
                assert(self.text_segments.deep_view() == spec_render(
                    old(self).incrementers@,
                    ws,
                    segs0,
                    i + 1,
                ));
            }
            i = i + 1;
        }
        let ghost finalsegs = self.text_segments.deep_view();
        let ghost outints = to_ints(self.output_indices@);
        let mut acc: Vec<char> = Vec::new();
        let mut j: usize = 0;
        while j < self.output_indices.len()
            invariant
                j <= self.output_indices@.len(),
                self.incrementers == old(self).incrementers,
                self.write_indices == old(self).write_indices,
                self.output_indices == old(self).output_indices,
                old(self).wf(),
                self.text_segments@.len() == old(self).text_segments@.len(),
                self.text_segments.deep_view() == finalsegs,
                outints == to_ints(self.output_indices@),
                acc@ == cat_values(outints.take(j as int), finalsegs),
            decreases self.output_indices@.len() - j,
        {
            let idx = self.output_indices[j];
            proof {
                assert(self.wf());
                assert(idx < self.text_segments@.len());
            }
            crate::text::append_chars(&mut acc, &self.text_segments[idx]);
            proof {
                assert(outints.take(j + 1).drop_last() =~= outints.take(j as int));
                assert(finalsegs[outints.take(j + 1).last()] == finalsegs[outints[j as int]]);
                assert(finalsegs[outints[j as int]] =~= self.text_segments@[idx as int]@);
            }
            j = j + 1;
        }
        proof {
            assert(outints.take(outints.len() as int) =~= outints);
        }
        chars_to_string(&acc)
    }

    /// Advances to the next combination: generators are visited in
    /// reverse build order; an exhausted one wraps to its first value and
    /// carries into its predecessor. Returns whether a new combination is
    /// ready; when every generator was exhausted, all stand reset.
    #[verifier::rlimit(80)]
    pub fn increment(&mut self) -> (more: bool)
        requires
            old(self).wf(),
        ensures
            final(self).wf(),
            final(self).write_indices == old(self).write_indices,
            final(self).output_indices == old(self).output_indices,
            final(self).text_segments == old(self).text_segments,
            gviews(final(self).incrementers@) == gviews(old(self).incrementers@),
            old(self).wf_all() ==> {
                &&& final(self).wf_all()
                &&& more == (old(self).odo() + 1 < old(self).total())
                &&& (more ==> final(self).odo() == old(self).odo() + 1)
                &&& (!more ==> final(self).odo() == 0)
            },
    {
        let ghost ds = old(self).text_segments.deep_view();
        let ghost gs = gviews(old(self).incrementers@);
        let ghost odigits = curs(old(self).incrementers@, ds);
        let ghost radixes = crds(gs, ds);
        let n = self.incrementers.len();
        proof {
            if old(self).wf_all() {
                assert forall|j: int| 0 <= j < n implies 0 <= #[trigger] odigits[j] < radixes[j] by {
                    old(self).incrementers@[j].lemma_cursor_in_range(ds);
                }
                lemma_odo_value_bounds(odigits, radixes);
            }
        }
        let mut i: usize = n;
        while i > 0
            invariant
                i <= n,
                n == self.incrementers@.len(),
                self.write_indices == old(self).write_indices,
                self.output_indices == old(self).output_indices,
                self.text_segments == old(self).text_segments,
                old(self).wf(),
                ds == old(self).text_segments.deep_view(),
                gs == gviews(old(self).incrementers@),
                odigits == curs(old(self).incrementers@, ds),
                radixes == crds(gs, ds),
                gviews(self.incrementers@) == gs,
                forall|j: int| 0 <= j < i ==> #[trigger] self.incrementers@[j] == old(
                    self,
                ).incrementers@[j],
                forall|j: int|
                    i <= j < n ==> (#[trigger] self.incrementers@[j]).sane(),
                old(self).wf_all() ==> {
                    &&& (forall|j: int|
                        i <= j < n ==> (#[trigger] self.incrementers@[j]).cursor(ds) == 0)
                    &&& (forall|j: int|
                        i <= j < n ==> #[trigger] odigits[j] == radixes[j] - 1)
                    &&& (forall|j: int|
                        i <= j < n ==> (#[trigger] self.incrementers@[j]).wf(ds))
                },
            decreases i,
        {
            i = i - 1;
            proof {
                assert(self.wf());
                let gsl = gviews(self.incrementers@);
                lemma_arity_sum_mono(gsl, i as int, n as int);
                crate::items::incrementer::lemma_reads_below_mono(
                    gsl[i as int],
                    arity_sum(gsl, i as int),
                    arity_sum(gsl, n as int),
                );
                assert(reads_below(self.incrementers@[i as int]@, self.text_segments@.len() as int));
            }
            let ok = self.incrementers[i].increment(&self.text_segments);
            if ok {
                proof {
                    assert(gviews(self.incrementers@) =~= gs);
                    if old(self).wf_all() {
                        assert(old(self).incrementers@[i as int].wf(ds));
                        let ndigits = curs(self.incrementers@, ds);
                        assert(ndigits =~= succ_at(odigits, i as int));
                        assert forall|j: int|
                            0 <= j < n implies 0 <= #[trigger] odigits[j] < radixes[j] by {
                            old(self).incrementers@[j].lemma_cursor_in_range(ds);
                        }
                        assert forall|j: int|
                            0 <= j < n implies #[trigger] radixes[j] >= 1 by {
                            old(self).incrementers@[j].lemma_cursor_in_range(ds);
                        }
                        lemma_odo_succ_at(odigits, radixes, i as int);
                        assert(digits_ok(ndigits, radixes));
                        lemma_odo_value_bounds(ndigits, radixes);
                        assert forall|j: int|
                            0 <= j < n implies (#[trigger] self.incrementers@[j]).wf(ds) by {
                            if j < i {
                                assert(self.incrementers@[j] == old(self).incrementers@[j]);
                            }
                        }
                        assert(final(self).odo() == odo_value(ndigits, radixes));
                    }
                }
                return true;
            }
            self.incrementers[i].reset();
            proof {
                assert(gviews(self.incrementers@) =~= gs);
                if old(self).wf_all() {
                    assert(old(self).incrementers@[i as int].wf(ds));
                    old(self).incrementers@[i as int].lemma_cursor_in_range(ds);
                    assert(odigits[i as int] == radixes[i as int] - 1);
                    assert(self.incrementers@[i as int].wf(ds));
                }
            }
        }
        proof {
            if old(self).wf_all() {
                assert forall|j: int| 0 <= j < n implies #[trigger] radixes[j] >= 1 by {
                    old(self).incrementers@[j].lemma_cursor_in_range(ds);
                }
                lemma_odo_value_max(odigits, radixes);
                let ndigits = curs(self.incrementers@, ds);
                assert forall|j: int| 0 <= j < n implies #[trigger] ndigits[j] == 0 by {}
                lemma_odo_value_zero(ndigits, radixes);
            }
        }
        false
    }

    /// Renders the current combination and advances: one enumeration
    /// step. The returned flag says whether another combination remains.
    pub fn next_candidate(&mut self) -> (r: (String, bool))
        requires
            old(self).wf(),
        ensures
            final(self).wf(),
            final(self).incrementers@.len() == old(self).incrementers@.len(),
            final(self).output_indices == old(self).output_indices,
            r.0@ == final(self).line_of(
                spec_render(
                    old(self).incrementers@,
                    wviews(old(self).write_indices@),
                    old(self).text_segments.deep_view(),
                    old(self).incrementers@.len() as int,
                ),
            ),
    {
        let line = self.update_buffer();
        let more = self.increment();
        (line, more)
    }

    /// Runs the whole enumeration from a fresh pipeline and returns every
    /// candidate: exactly the product of the generators' cardinalities,
    /// when no generator's cardinality depends on the slot contents.
    pub fn generate_all(&mut self) -> (lines: Vec<String>)
        requires
            old(self).wf(),
            old(self).fresh(),
            old(self).all_seg_free(),
        ensures
            lines@.len() == old(self).total(),
    {
        let ghost gs = gviews(old(self).incrementers@);
        let ghost ds0 = old(self).text_segments.deep_view();
        let ghost radixes = crds(gs, ds0);
        let ghost p = radix_prod(radixes);
        proof {
            old(self).lemma_wf_all_from_wf();
            assert forall|j: int|
                0 <= j < gs.len() implies 0 <= #[trigger] curs(old(self).incrementers@, ds0)[j]
                < radixes[j] by {
                old(self).incrementers@[j].lemma_cursor_in_range(ds0);
            }
            lemma_odo_value_zero(curs(old(self).incrementers@, ds0), radixes);
            lemma_odo_value_bounds(curs(old(self).incrementers@, ds0), radixes);
        }
        let mut lines: Vec<String> = Vec::new();
        let mut more = true;
        while more
            invariant
                self.wf(),
                self.wf_all(),
                self.all_seg_free(),
                gviews(self.incrementers@) == gs,
                self.text_segments@.len() == old(self).text_segments@.len(),
                self.output_indices == old(self).output_indices,
                self.write_indices@.len() == old(self).write_indices@.len(),
                crds(gs, self.text_segments.deep_view()) == radixes,
                radixes == crds(gs, ds0),
                p == radix_prod(radixes),
                more ==> self.odo() == lines@.len() && self.odo() < p,
                !more ==> lines@.len() == p,
            decreases (if more {
                p - self.odo() + 1
            } else {
                0
            }),
        {
            let ghost dpre = self.text_segments.deep_view();
            let ghost opre = self.odo();
            let line = self.update_buffer();
            proof {
                let dpost = self.text_segments.deep_view();
                assert forall|j: int|
                    0 <= j < gs.len() implies #[trigger] curs(self.incrementers@, dpost)[j] == curs(
                    self.incrementers@,
                    dpre,
                )[j] by {
                    assert(gviews(self.incrementers@)[j] == self.incrementers@[j]@);
                    assert(seg_free(gviews(self.incrementers@)[j]));
                    crate::items::incrementer::lemma_seg_free_cursor(
                        self.incrementers@[j],
                        dpost,
                        dpre,
                    );
                }
                assert(curs(self.incrementers@, dpost) =~= curs(self.incrementers@, dpre));
                assert forall|j: int|
                    0 <= j < gs.len() implies #[trigger] crds(gs, dpost)[j] == crds(gs, dpre)[j] by {
                    crate::items::incrementer::lemma_seg_free_card(gs[j], dpost, dpre);
                }
                assert(crds(gs, dpost) =~= crds(gs, dpre));
                assert(self.odo() == opre);
                self.lemma_wf_all_from_wf();
            }
            lines.push(line);
            let ghost omid = self.odo();
            more = self.increment();
            proof {
                let dpost = self.text_segments.deep_view();
                assert(crds(gviews(self.incrementers@), dpost) == radixes);
                if more {
                    assert(self.odo() == omid + 1);
                    assert(self.odo() == lines@.len());
                } else {
                    assert(omid + 1 == p);
                    assert(lines@.len() == p);
                }
            }
        }
        lines
    }
}

impl CandidateGenerator {
    /// Builds the pipeline from a recipe: one base generator per step, in
    /// order, with modifiers and tags applied, exactly as the abstract
    /// build describes; a malformed recipe yields the first fault and no
    /// pipeline. The word lists are the lines of each dictionary step's
    /// file, in step order.
    #[verifier::rlimit(100)]
    #[verifier::spinoff_prover]
    #[verifier::loop_isolation(false)]
    pub fn from_recipe(recipe: Vec<RecipeStep>, wordlists: Vec<Vec<String>>) -> (r: Result<
        CandidateGenerator,
        BuildError,
    >)
        requires
            wl_count(recipe@, recipe@.len() as int) <= wordlists@.len(),
        ensures
            r is Err ==> spec_build(recipe@, wl_model(wordlists@), recipe@.len() as int) == Err::<
                BuildState,
                BuildError,
            >(r->Err_0),
            r is Ok ==> {
                let sb = spec_build(recipe@, wl_model(wordlists@), recipe@.len() as int);
                let g = r->Ok_0;
                &&& sb is Ok
                &&& g.wf()
                &&& g.fresh()
                &&& g.all_seg_free() == (forall|i: int|
                    0 <= i < sb->Ok_0.gens.len() ==> seg_free(#[trigger] sb->Ok_0.gens[i]))
                &&& gviews(g.incrementers@) == sb->Ok_0.gens
                &&& to_ints(g.output_indices@) == sb->Ok_0.out
                &&& g.text_segments@.len() == sb->Ok_0.nseg
                &&& forall|j: int|
                    0 <= j < g.text_segments@.len() ==> (#[trigger] g.text_segments@[j])@.len()
                        == 0
            },
    {
        let ghost steps = recipe@;
        let ghost wlsfull = wordlists@;
        let ghost wlsd = wl_model(wordlists@);
        let ghost total = steps.len() as int;
        let mut b = PipelineBuilder::new();
        let total_e = recipe.len();
        let mut recipe = recipe;
        let mut wordlists = wordlists;
        let mut i: usize = 0;
        while recipe.len() > 0
            invariant
                i + recipe@.len() == steps.len(),
                recipe@ == steps.skip(i as int),
                wlsd == wl_model(wlsfull),
                total == steps.len() as int,
                wl_count(steps, total) <= wlsfull.len(),
                total == total_e as int,
                b.binv(),
                spec_build(steps, wlsd, i as int) == Ok::<BuildState, BuildError>(b.bview()),
                b.wl_used as int == wl_count(steps, i as int),
                wordlists@ == wlsfull.skip(b.wl_used as int),
            decreases recipe@.len(),
        {
            let ghost mpre = b.bview();
            let step = recipe.remove(0);
            proof {
                assert(recipe@ =~= steps.skip(i + 1));
                assert(step == steps[i as int]);
                lemma_wl_count_le(steps, i as int);
            }
            let step_id_idx = i + 1;
            match step {
                RecipeStep::Wordlist { filename, attr, modifiers } => {
                    let ghost gattr = attr;
                    proof {
                        lemma_wl_count_mono(steps, i + 1, total);
                        assert(wl_count(steps, i + 1) == wl_count(steps, i as int) + 1);
                    }
                    b.wl_used = b.wl_used + 1;
                    let lines = wordlists.remove(0);
                    proof {
                        assert(lines == wlsfull[mpre.wl]);
                        assert(wordlists@ =~= wlsfull.skip(b.wl_used as int));
                        assert(wlsd[mpre.wl] == trim_all(wlsfull[mpre.wl].deep_view()));
                    }
                    let inc = WordlistIncrementer::new(lines);
                    proof {
                        assert(Incrementer::Wordlist(inc).sane());
                        assert(forall|s: Seq<Seq<char>>|
                            (Incrementer::Wordlist(inc)).cursor(s) == 0);
                        assert(b.bview() == (BuildState { wl: mpre.wl + 1, ..mpre }));
                    }
                    let ghost mbumped = b.bview();
                    b.add_basic_incrementer(Incrementer::Wordlist(inc));
                    b.add_modifiers(modifiers);
                    match b.add_attr(step_id_idx, attr) {
                        Ok(()) => {
                            proof {
                                assert(spec_build_step(mpre, steps[i as int], i + 1, wlsd)
                                    == Ok::<BuildState, BuildError>(b.bview()));
                            }
                        },
                        Err(e) => {
                            proof {
                                assert(spec_build(steps, wlsd, i + 1) == Err::<
                                    BuildState,
                                    BuildError,
                                >(e));
                                lemma_spec_build_err(steps, wlsd, i + 1, total);
                            }
                            return Err(e);
                        },
                    }
                },
                RecipeStep::Mask { mask, attr, modifiers } => {
                    let ghost gmask = mask@;
                    if !mask_ok(&mask) {
                        proof {
                            assert(spec_build(steps, wlsd, i + 1) == Err::<BuildState, BuildError>(
                                BuildError::InvalidMaskChar,
                            ));
                            lemma_spec_build_err(steps, wlsd, i + 1, total);
                        }
                        return Err(BuildError::InvalidMaskChar);
                    }
                    let inc = MaskIncrementer::new(mask);
                    proof {
                        assert(Incrementer::Mask(inc).sane());
                        assert(forall|s: Seq<Seq<char>>| (Incrementer::Mask(inc)).cursor(s) == 0);
                    }
                    b.add_basic_incrementer(Incrementer::Mask(inc));
                    b.add_modifiers(modifiers);
                    match b.add_attr(step_id_idx, attr) {
                        Ok(()) => {
                            proof {
                                assert(spec_build_step(mpre, steps[i as int], i + 1, wlsd)
                                    == Ok::<BuildState, BuildError>(b.bview()));
                            }
                        },
                        Err(e) => {
                            proof {
                                lemma_spec_build_err(steps, wlsd, i + 1, total);
                            }
                            return Err(e);
                        },
                    }
                },
                RecipeStep::Constant { value, attr, modifiers } => {
                    let ghost gvalue = value@;
                    let inc = ConstantIncrementer::new(value);
                    b.add_basic_incrementer(Incrementer::Constant(inc));
                    b.add_modifiers(modifiers);
                    match b.add_attr(step_id_idx, attr) {
                        Ok(()) => {
                            proof {
                                assert(spec_build_step(mpre, steps[i as int], i + 1, wlsd)
                                    == Ok::<BuildState, BuildError>(b.bview()));
                            }
                        },
                        Err(e) => {
                            proof {
                                lemma_spec_build_err(steps, wlsd, i + 1, total);
                            }
                            return Err(e);
                        },
                    }
                },
                RecipeStep::Duplicate { target_id, attr, modifiers } => {
                    match b.lookup_id(&target_id) {
                        Some(src) => {
                            let inc = DuplicateIncrementer::new(src);
                            b.add_basic_incrementer(Incrementer::Duplicate(inc));
                            b.add_modifiers(modifiers);
                            match b.add_attr(step_id_idx, attr) {
                                Ok(()) => {
                                    proof {
                                        assert(spec_build_step(mpre, steps[i as int], i + 1, wlsd)
                                            == Ok::<BuildState, BuildError>(b.bview()));
                                    }
                                },
                                Err(e) => {
                                    proof {
                                        lemma_spec_build_err(steps, wlsd, i + 1, total);
                                    }
                                    return Err(e);
                                },
                            }
                        },
                        None => {
                            proof {
                                lemma_spec_build_err(steps, wlsd, i + 1, total);
                            }
                            return Err(BuildError::UnknownId);
                        },
                    }
                },
                RecipeStep::Rearrange { target_list } => {
                    let ghost tagsfull = target_list.deep_view();
                    let ghost tlsnap = target_list@;
                    proof {
                        assert(steps[i as int] matches RecipeStep::Rearrange { target_list: t }
                            && t.deep_view() == tagsfull);
                    }
                    let mut tl = target_list;
                    let mut srcs: Vec<usize> = Vec::new();
                    let ghost mut consumed: int = 0;
                    proof {
                        assert(to_ints(srcs@) =~= Seq::<int>::empty());
                        assert(resolve_tags(mpre.ids, mpre.classes, tagsfull, 0) == Ok::<
                            Seq<int>,
                            BuildError,
                        >(to_ints(srcs@)));
                    }
                    while tl.len() > 0
                        invariant
                            0 <= consumed,
                            consumed + tl@.len() == tagsfull.len(),
                            forall|q: int|
                                0 <= q < tl@.len() ==> #[trigger] tl@[q] == tlsnap[consumed + q],
                            tagsfull.len() == tlsnap.len(),
                            forall|q: int|
                                0 <= q < tlsnap.len() ==> #[trigger] tagsfull[q] == tlsnap[q]@,
                            b.binv(),
                            mpre == b.bview(),
                            spec_build(steps, wlsd, i as int) == Ok::<BuildState, BuildError>(
                                mpre,
                            ),
                            total == steps.len() as int,
                            i < steps.len(),
                            wlsd == wl_model(wlsfull),
                            wl_count(steps, total) <= wlsfull.len(),
                            (steps[i as int] matches RecipeStep::Rearrange { target_list: t }
                                && t.deep_view() == tagsfull),
                            resolve_tags(mpre.ids, mpre.classes, tagsfull, consumed) == Ok::<
                                Seq<int>,
                                BuildError,
                            >(to_ints(srcs@)),
                            forall|q: int|
                                0 <= q < srcs@.len() ==> #[trigger] srcs@[q]
                                    < b.segments@.len(),
                        decreases tl@.len(),
                    {
                        let ghost tlpre = tl@;
                        let tag = tl.remove(0);
                        proof {
                            assert(tl@ =~= tlpre.drop_first());
                            assert(tag@ == tagsfull[consumed]);
                        }
                        match b.tag_to_seg_indices(&tag) {
                            Ok(v) => {
                                let ghost spre = to_ints(srcs@);
                                append_idxs(&mut srcs, &v);
                                proof {
                                    assert(to_ints(srcs@) =~= spre + to_ints(v@));
                                    assert(resolve_tags(
                                        mpre.ids,
                                        mpre.classes,
                                        tagsfull,
                                        consumed + 1,
                                    ) == Ok::<Seq<int>, BuildError>(to_ints(srcs@)));
                                    assert forall|q: int|
                                        0 <= q < tl@.len() implies #[trigger] tl@[q] == tlsnap[
                                        consumed + 1 + q
                                    ] by {
                                        assert(tl@[q] == tlpre[q + 1]);
                                    }
                                    consumed = consumed + 1;
                                }
                            },
                            Err(e) => {
                                proof {
                                    lemma_resolve_tags_err(
                                        mpre.ids,
                                        mpre.classes,
                                        tagsfull,
                                        consumed + 1,
                                        tagsfull.len() as int,
                                    );
                                    assert(spec_build_step(mpre, steps[i as int], i + 1, wlsd)
                                        == Err::<BuildState, BuildError>(e));
                                    assert(spec_build(steps, wlsd, i + 1) == Err::<
                                        BuildState,
                                        BuildError,
                                    >(e));
                                    lemma_spec_build_err(steps, wlsd, i + 1, total);
                                }
                                return Err(e);
                            },
                        }
                    }
                    proof {
                        assert(consumed == tagsfull.len());
                    }
                    b.add_multimod_incrementer(srcs);
                    proof {
                        assert(spec_build_step(mpre, steps[i as int], i + 1, wlsd) == Ok::<
                            BuildState,
                            BuildError,
                        >(b.bview()));
                    }
                },
                RecipeStep::Concat { target_list, attr, modifiers } => {
                    let ghost tagsfull = target_list.deep_view();
                    let ghost tlsnap = target_list@;
                    let ghost gattr = attr;
                    let ghost gmods = modifiers;
                    proof {
                        assert(steps[i as int] matches RecipeStep::Concat {
                            target_list: t,
                            attr: a,
                            modifiers: m,
                        } && t.deep_view() == tagsfull && a == gattr && m == gmods);
                    }
                    let mut tl = target_list;
                    let mut srcs: Vec<usize> = Vec::new();
                    let ghost mut consumed: int = 0;
                    proof {
                        assert(to_ints(srcs@) =~= Seq::<int>::empty());
                    }
                    while tl.len() > 0
                        invariant
                            0 <= consumed,
                            consumed + tl@.len() == tagsfull.len(),
                            forall|q: int|
                                0 <= q < tl@.len() ==> #[trigger] tl@[q] == tlsnap[consumed + q],
                            tagsfull.len() == tlsnap.len(),
                            forall|q: int|
                                0 <= q < tlsnap.len() ==> #[trigger] tagsfull[q] == tlsnap[q]@,
                            b.binv(),
                            mpre == b.bview(),
                            spec_build(steps, wlsd, i as int) == Ok::<BuildState, BuildError>(
                                mpre,
                            ),
                            total == steps.len() as int,
                            i < steps.len(),
                            wlsd == wl_model(wlsfull),
                            wl_count(steps, total) <= wlsfull.len(),
                            (steps[i as int] matches RecipeStep::Concat {
                                target_list: t,
                                attr: a,
                                modifiers: m,
                            } && t.deep_view() == tagsfull && a == gattr && m == gmods),
                            attr == gattr,
                            modifiers == gmods,
                            step_id_idx == i + 1,
                            resolve_tags(mpre.ids, mpre.classes, tagsfull, consumed) == Ok::<
                                Seq<int>,
                                BuildError,
                            >(to_ints(srcs@)),
                            forall|q: int|
                                0 <= q < srcs@.len() ==> #[trigger] srcs@[q]
                                    < b.segments@.len(),
                        decreases tl@.len(),
                    {
                        let ghost tlpre = tl@;
                        let tag = tl.remove(0);
                        proof {
                            assert(tl@ =~= tlpre.drop_first());
                            assert(tag@ == tagsfull[consumed]);
                        }
                        match b.tag_to_seg_indices(&tag) {
                            Ok(v) => {
                                let ghost spre = to_ints(srcs@);
                                append_idxs(&mut srcs, &v);
                                proof {
                                    assert(to_ints(srcs@) =~= spre + to_ints(v@));
                                    assert(resolve_tags(
                                        mpre.ids,
                                        mpre.classes,
                                        tagsfull,
                                        consumed + 1,
                                    ) == Ok::<Seq<int>, BuildError>(to_ints(srcs@)));
                                    assert forall|q: int|
                                        0 <= q < tl@.len() implies #[trigger] tl@[q] == tlsnap[
                                        consumed + 1 + q
                                    ] by {
                                        assert(tl@[q] == tlpre[q + 1]);
                                    }
                                    consumed = consumed + 1;
                                }
                            },
                            Err(e) => {
                                proof {
                                    lemma_resolve_tags_err(
                                        mpre.ids,
                                        mpre.classes,
                                        tagsfull,
                                        consumed + 1,
                                        tagsfull.len() as int,
                                    );
                                    lemma_spec_build_err(steps, wlsd, i + 1, total);
                                }
                                return Err(e);
                            },
                        }
                    }
                    proof {
                        assert(consumed == tagsfull.len());
                    }
                    let inc = ConcatIncrementer::new(srcs);
                    proof {
                        assert forall|q: int|
                            0 <= q < inc.source_id_indices@.len()
                                implies 0 <= #[trigger] crate::items::incrementer::to_ints(
                                inc.source_id_indices@,
                            )[q] < b.segments@.len() as int by {
                            assert(crate::items::incrementer::to_ints(inc.source_id_indices@)[q]
                                == inc.source_id_indices@[q] as int);
                        }
                        assert(reads_below(Incrementer::Concat(inc)@, b.segments@.len() as int));
                    }
                    b.add_basic_incrementer(Incrementer::Concat(inc));
                    b.add_modifiers(modifiers);
                    match b.add_attr(step_id_idx, attr) {
                        Ok(()) => {
                            proof {
                                assert(spec_build_step(mpre, steps[i as int], i + 1, wlsd)
                                    == Ok::<BuildState, BuildError>(b.bview()));
                            }
                        },
                        Err(e) => {
                            proof {
                                lemma_spec_build_err(steps, wlsd, i + 1, total);
                            }
                            return Err(e);
                        },
                    }
                },
                RecipeStep::ReplaceChar { target_id, replacements, attr, modifiers } => {
                    match b.lookup_id(&target_id) {
                        Some(src) => {
                            let ghost grules = replacements@;
                            let inc = ReplaceIncrementer::new(src, replacements);
                            b.add_basic_incrementer(Incrementer::Replace(inc));
                            b.add_modifiers(modifiers);
                            match b.add_attr(step_id_idx, attr) {
                                Ok(()) => {
                                    proof {
                                        assert(spec_build_step(mpre, steps[i as int], i + 1, wlsd)
                                            == Ok::<BuildState, BuildError>(b.bview()));
                                    }
                                },
                                Err(e) => {
                                    proof {
                                        lemma_spec_build_err(steps, wlsd, i + 1, total);
                                    }
                                    return Err(e);
                                },
                            }
                        },
                        None => {
                            proof {
                                lemma_spec_build_err(steps, wlsd, i + 1, total);
                            }
                            return Err(BuildError::UnknownId);
                        },
                    }
                },
                RecipeStep::MaskIncremental { .. } => {
                    proof {
                        assert(spec_build_step(mpre, steps[i as int], i + 1, wlsd) == Ok::<
                            BuildState,
                            BuildError,
                        >(b.bview()));
                    }
                },
                RecipeStep::Location { .. } => {
                    proof {
                        assert(spec_build_step(mpre, steps[i as int], i + 1, wlsd) == Ok::<
                            BuildState,
                            BuildError,
                        >(b.bview()));
                    }
                },
            }
            i = i + 1;
        }
        proof {
            assert(i as int == total);
        }
        let g = CandidateGenerator {
            incrementers: b.incrementers,
            write_indices: b.write_indices,
            text_segments: b.segments,
            output_indices: b.output_indices,
        };
        proof {
            assert(g.wf());
            assert(g.fresh());
        }
        Ok(g)
    }
}

} // verus!
