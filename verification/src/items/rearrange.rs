//! The rearrange generator: wraps an ordered list of source slots and
//! emits their values under every permutation of positions, enumerated in
//! lexicographic order by position, starting from the identity.
//!
//! The permutation stream itself comes from `itertools`; its contracts are
//! stated against `perm_at`, the k-th permutation in lexicographic order.
use vstd::prelude::*;
use crate::items::incrementer::GenSpec;
use crate::text::clone_chars;

verus! {

broadcast use crate::text::group_deep_text;

pub open spec fn fact(n: int) -> int
    decreases n,
{
    if n <= 0 {
        1
    } else {
        n * fact(n - 1)
    }
}

pub proof fn lemma_fact_pos(n: int)
    ensures
        fact(n) >= 1,
    decreases n,
{
    if n > 0 {
        lemma_fact_pos(n - 1);
        assert(n * fact(n - 1) >= 1) by (nonlinear_arith)
            requires
                n >= 1,
                fact(n - 1) >= 1,
        ;
    }
}

/// The k-th permutation (in lexicographic order) of the values still
/// available, counted in the factorial number system.
pub open spec fn perm_at_of(avail: Seq<int>, k: int) -> Seq<int>
    decreases avail.len(),
{
    if avail.len() == 0 {
        Seq::empty()
    } else {
        let f = fact(avail.len() - 1);
        let i0 = k / f;
        let i = if 0 <= i0 < avail.len() {
            i0
        } else {
            0
        };
        seq![avail[i]] + perm_at_of(avail.remove(i), k % f)
    }
}

pub open spec fn identity_seq(n: int) -> Seq<int> {
    Seq::new(n as nat, |i: int| i)
}

/// The k-th permutation of positions `0 .. n`, in lexicographic order.
pub open spec fn perm_at(n: int, k: int) -> Seq<int> {
    perm_at_of(identity_seq(n), k)
}

pub proof fn lemma_perm_at_of_props(avail: Seq<int>, k: int)
    requires
        0 <= k < fact(avail.len() as int),
    ensures
        perm_at_of(avail, k).len() == avail.len(),
        forall|j: int|
            0 <= j < avail.len() ==> avail.contains(#[trigger] perm_at_of(avail, k)[j]),
    decreases avail.len(),
{
    if avail.len() > 0 {
        let n = avail.len() as int;
        let f = fact(n - 1);
        lemma_fact_pos(n - 1);
        let i = k / f;
        let k2 = k % f;
        assert(fact(n) == n * fact(n - 1));
        assert(n * f == f * n) by (nonlinear_arith);
        vstd::arithmetic::div_mod::lemma_multiply_divide_lt(k, f, n);
        vstd::arithmetic::div_mod::lemma_div_pos_is_pos(k, f);
        vstd::arithmetic::div_mod::lemma_mod_bound(k, f);
        assert(0 <= i < n && 0 <= k2 < f);
        let rest = avail.remove(i);
        lemma_perm_at_of_props(rest, k2);
        let p = perm_at_of(avail, k);
        assert(p == seq![avail[i]] + perm_at_of(rest, k2));
        assert forall|j: int| 0 <= j < avail.len() implies avail.contains(#[trigger] p[j]) by {
            if j == 0 {
                assert(p[0] == avail[i]);
            } else {
                assert(p[j] == perm_at_of(rest, k2)[j - 1]);
                assert(rest.contains(p[j]));
                let w = choose|w: int| 0 <= w < rest.len() && rest[w] == p[j];
                if w < i {
                    assert(avail[w] == rest[w]);
                } else {
                    assert(avail[w + 1] == rest[w]);
                }
            }
        }
    }
}

/// The number of positions the permutation stream permutes.
pub uninterp spec fn perm_width(it: itertools::Permutations<core::ops::Range<usize>>) -> int;

/// How many permutations the stream has yielded so far.
pub uninterp spec fn perm_cursor(it: itertools::Permutations<core::ops::Range<usize>>) -> int;

#[verifier::external_type_specification]
#[verifier::external_body]
#[verifier::reject_recursive_types(I)]
pub struct ExPermutations<I: Iterator>(itertools::Permutations<I>);

/// Relies on `itertools::Itertools::permutations` over `0..n` with size
/// `n`: a fresh stream of all `n!` permutations of the positions.
#[verifier::external_body]
fn make_perms(n: usize) -> (it: itertools::Permutations<core::ops::Range<usize>>)
    ensures
        perm_width(it) == n,
        perm_cursor(it) == 0,
{
    itertools::Itertools::permutations(0..n, n)
}

/// Relies on `<itertools::Permutations as Iterator>::next`: the stream
/// yields the `n!` permutations in lexicographic order by position, then
/// stays exhausted.
#[verifier::external_body]
fn perms_next(it: &mut itertools::Permutations<core::ops::Range<usize>>) -> (r: Option<Vec<usize>>)
    ensures
        perm_width(*final(it)) == perm_width(*old(it)),
        perm_cursor(*old(it)) < fact(perm_width(*old(it))) ==> {
            &&& r matches Some(p) && crate::items::incrementer::to_ints(p@) == perm_at(
                perm_width(*old(it)),
                perm_cursor(*old(it)),
            )
            &&& perm_cursor(*final(it)) == perm_cursor(*old(it)) + 1
        },
        perm_cursor(*old(it)) >= fact(perm_width(*old(it))) ==> r is None && perm_cursor(
            *final(it),
        ) == perm_cursor(*old(it)),
{
    it.next()
}

pub struct RearrangeIncrementer {
    pub source_id_indices: Vec<usize>,
    pub permute_iter: itertools::Permutations<core::ops::Range<usize>>,
    pub current_permutation: Vec<usize>,
}

impl View for RearrangeIncrementer {
    type V = GenSpec;

    open spec fn view(&self) -> GenSpec {
        GenSpec::Rearrange { srcs: crate::items::incrementer::to_ints(self.source_id_indices@) }
    }
}

impl RearrangeIncrementer {
    pub open spec fn n(&self) -> int {
        self.source_id_indices@.len() as int
    }

    pub open spec fn sane(&self) -> bool {
        &&& perm_width(self.permute_iter) == self.n()
        &&& 1 <= perm_cursor(self.permute_iter) <= fact(self.n())
        &&& crate::items::incrementer::to_ints(self.current_permutation@) == perm_at(
            self.n(),
            perm_cursor(self.permute_iter) - 1,
        )
        &&& self.current_permutation@.len() == self.n()
        &&& forall|j: int|
            0 <= j < self.current_permutation@.len()
                ==> #[trigger] self.current_permutation@[j] < self.n()
    }

    pub open spec fn cursor(&self) -> int {
        perm_cursor(self.permute_iter) - 1
    }

    /// The values of the source slots, permuted by the current permutation.
    pub open spec fn out_spec(&self, segs: Seq<Seq<char>>) -> Seq<Seq<char>> {
        Seq::new(
            self.current_permutation@.len(),
            |j: int| segs[self.source_id_indices@[self.current_permutation@[j] as int] as int],
        )
    }

    pub fn new(source_id_indices: Vec<usize>) -> (r: RearrangeIncrementer)
        ensures
            r@ == (GenSpec::Rearrange {
                srcs: crate::items::incrementer::to_ints(source_id_indices@),
            }),
            r.source_id_indices == source_id_indices,
            r.sane(),
            r.cursor() == 0,
    {
        let n = source_id_indices.len();
        proof {
            lemma_fact_pos(n as int);
        }
        let mut it = make_perms(n);
        let first = match perms_next(&mut it) {
            Some(p) => p,
            None => {
                proof {
                    assert(false);
                }
                Vec::new()
            },
        };
        proof {
            lemma_perm_at_of_props(identity_seq(n as int), 0);
            assert(forall|j: int|
                0 <= j < n ==> (identity_seq(n as int).contains(#[trigger] identity_seq(
                    n as int,
                )[j])));
        }
        let r = RearrangeIncrementer {
            source_id_indices,
            permute_iter: it,
            current_permutation: first,
        };
        proof {
            let pm = crate::items::incrementer::to_ints(r.current_permutation@);
            assert(pm.len() == r.current_permutation@.len());
            assert forall|j: int| 0 <= j < r.current_permutation@.len() implies #[trigger] r
                .current_permutation@[j] < r.n() by {
                assert(identity_seq(r.n()).contains(pm[j]));
            }
        }
        r
    }

    pub fn increment(&mut self, segs: &Vec<Vec<char>>) -> (r: bool)
        requires
            old(self).sane(),
        ensures
            final(self)@ == old(self)@,
            final(self).source_id_indices == old(self).source_id_indices,
            final(self).sane(),
            r == (old(self).cursor() + 1 < fact(old(self).n())),
            r ==> final(self).cursor() == old(self).cursor() + 1,
            !r ==> final(self).cursor() == old(self).cursor(),
    {
        match perms_next(&mut self.permute_iter) {
            Some(p) => {
                proof {
                    lemma_perm_at_of_props(identity_seq(self.n()), perm_cursor(self.permute_iter) - 1);
                }
                self.current_permutation = p;
                proof {
                    let pm = crate::items::incrementer::to_ints(self.current_permutation@);
                    assert forall|j: int| 0 <= j < self.current_permutation@.len() implies #[trigger] self
                        .current_permutation@[j] < self.n() by {
                        assert(identity_seq(self.n()).contains(pm[j]));
                    }
                }
                true
            },
            None => false,
        }
    }

    pub fn reset(&mut self)
        ensures
            final(self)@ == old(self)@,
            final(self).source_id_indices == old(self).source_id_indices,
            final(self).sane(),
            final(self).cursor() == 0,
    {
        let n = self.source_id_indices.len();
        proof {
            lemma_fact_pos(n as int);
        }
        let mut it = make_perms(n);
        let first = match perms_next(&mut it) {
            Some(p) => p,
            None => {
                proof {
                    assert(false);
                }
                Vec::new()
            },
        };
        self.permute_iter = it;
        self.current_permutation = first;
        proof {
            lemma_perm_at_of_props(identity_seq(n as int), 0);
            let pm = crate::items::incrementer::to_ints(self.current_permutation@);
            assert forall|j: int| 0 <= j < self.current_permutation@.len() implies #[trigger] self
                .current_permutation@[j] < self.n() by {
                assert(identity_seq(self.n()).contains(pm[j]));
            }
        }
    }

    pub fn output(&self, segs: &Vec<Vec<char>>) -> (r: Vec<Vec<char>>)
        requires
            self.sane(),
            forall|i: int|
                0 <= i < self.source_id_indices@.len()
                    ==> #[trigger] self.source_id_indices@[i] < segs@.len(),
        ensures
            r.deep_view() =~= self.out_spec(segs.deep_view()),
    {
        let mut r: Vec<Vec<char>> = Vec::new();
        let mut j: usize = 0;
        while j < self.current_permutation.len()
            invariant
                j <= self.current_permutation@.len(),
                r@.len() == j,
                self.sane(),
                forall|i: int|
                    0 <= i < self.source_id_indices@.len()
                        ==> #[trigger] self.source_id_indices@[i] < segs@.len(),
                r.deep_view() =~= self.out_spec(segs.deep_view()).take(j as int),
            decreases self.current_permutation@.len() - j,
        {
            let pi = self.current_permutation[j];
            let idx = self.source_id_indices[pi];
            r.push(clone_chars(&segs[idx]));
            proof {
                assert(segs.deep_view()[idx as int] =~= segs@[idx as int]@);
                assert(r@[j as int]@ == segs@[idx as int]@);
                assert(r@[j as int].deep_view() =~= self.out_spec(segs.deep_view())[j as int]);
                assert(r.deep_view() =~~= self.out_spec(segs.deep_view()).take(j + 1));
            }
            j = j + 1;
        }
        proof {
            assert(self.out_spec(segs.deep_view()).take(
                self.out_spec(segs.deep_view()).len() as int,
            ) =~= self.out_spec(segs.deep_view()));
        }
        r
    }
}

} // verus!
