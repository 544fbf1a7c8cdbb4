//! The mask generator: a fixed-length string whose positions each draw
//! from a named character class, advanced as a mixed-radix counter with
//! the rightmost position fastest.
use vstd::prelude::*;
use crate::items::incrementer::GenSpec;
use crate::odometer::{digits_ok, lemma_odo_succ_at, lemma_odo_value_bounds, lemma_odo_value_max,
    lemma_odo_value_zero, odo_value, radix_prod, succ_at};

verus! {

broadcast use crate::text::group_deep_text;

#[derive(Clone, Copy, PartialEq, Eq, Structural, Debug)]
pub enum MaskCharType {
    Lowercase,
    Uppercase,
    Letters,
    Digits,
    Alphanumeric,
    Special,
    SpecialSubset,
    Everything,
    EverythingAlmost,
    HexLower,
    HexUpper,
    Custom1,
}

/// The ordered character class a mask position of the given type draws from.
pub open spec fn charset_spec(t: MaskCharType) -> Seq<char> {
    match t {
        MaskCharType::Lowercase => "abcdefghijklmnopqrstuvwxyz"@,
        MaskCharType::Uppercase => "ABCDEFGHIJKLMNOPQRSTUVWXYZ"@,
        MaskCharType::Letters => "abcdefghijklmnopqrstuvwxyzABCDEFGHIJKLMNOPQRSTUVWXYZ"@,
        MaskCharType::Digits => "0123456789"@,
        MaskCharType::Alphanumeric => "abcdefghijklmnopqrstuvwxyzABCDEFGHIJKLMNOPQRSTUVWXYZ0123456789"@,
        MaskCharType::Special => "!\"#$%&'()*+,-./:;<=>?@[\\]^_`{|}~ "@,
        MaskCharType::SpecialSubset => "!@#$%^&*+-=_"@,
        MaskCharType::Everything => "abcdefghijklmnopqrstuvwxyzABCDEFGHIJKLMNOPQRSTUVWXYZ0123456789!\"#$%&'()*+,-./:;<=>?@[\\]^_`{|}~ "@,
        MaskCharType::EverythingAlmost => "abcdefghijklmnopqrstuvwxyzABCDEFGHIJKLMNOPQRSTUVWXYZ0123456789!@#$%^&*+-=_"@,
        MaskCharType::HexLower => "0123456789abcdef"@,
        MaskCharType::HexUpper => "0123456789ABCDEF"@,
        MaskCharType::Custom1 => ""@,
    }
}

/// Whether the letter names a mask character class.
pub open spec fn is_mask_letter(c: char) -> bool {
    c == 'l' || c == 'u' || c == 'L' || c == 'd' || c == 'A' || c == 's' || c == 'S' || c == 'e'
        || c == 'E' || c == 'h' || c == 'H' || c == '1'
}

/// The class a mask letter names (by the letter table of the mask syntax).
pub open spec fn mask_class_of(c: char) -> MaskCharType {
    if c == 'l' {
        MaskCharType::Lowercase
    } else if c == 'u' {
        MaskCharType::Uppercase
    } else if c == 'L' {
        MaskCharType::Letters
    } else if c == 'd' {
        MaskCharType::Digits
    } else if c == 'A' {
        MaskCharType::Alphanumeric
    } else if c == 's' {
        MaskCharType::Special
    } else if c == 'S' {
        MaskCharType::SpecialSubset
    } else if c == 'e' {
        MaskCharType::Everything
    } else if c == 'E' {
        MaskCharType::EverythingAlmost
    } else if c == 'h' {
        MaskCharType::HexLower
    } else if c == 'H' {
        MaskCharType::HexUpper
    } else {
        MaskCharType::Custom1
    }
}

/// A mask position is usable when its letter names a class and the class
/// is not empty (the reserved custom class has no characters yet).
pub open spec fn valid_mask_char(c: char) -> bool {
    is_mask_letter(c) && charset_spec(mask_class_of(c)).len() >= 1
}

pub open spec fn mask_types_of(s: Seq<char>) -> Seq<MaskCharType> {
    s.map_values(|c: char| mask_class_of(c))
}

pub struct MaskIncrementer {
    pub char_type: Vec<MaskCharType>,
    pub char_idx: Vec<usize>,
    pub char_max: Vec<usize>,
}

impl View for MaskIncrementer {
    type V = GenSpec;

    open spec fn view(&self) -> GenSpec {
        GenSpec::Mask { types: self.char_type@ }
    }
}

impl MaskCharType {
    /// The class a mask letter byte names, if any.
    pub fn mask_type_from_letter(char: &u8) -> (r: Option<MaskCharType>)
        ensures
            r is Some <==> is_mask_letter(*char as char),
            r is Some ==> r == Some(mask_class_of(*char as char)),
    {
        Self::class_from_char(*char as char)
    }

    /// The class named by a character of the mask string, if any.
    pub fn class_from_char(c: char) -> (r: Option<MaskCharType>)
        ensures
            r is Some <==> is_mask_letter(c),
            r is Some ==> r == Some(mask_class_of(c)),
    {
        match c {
            'l' => Some(MaskCharType::Lowercase),
            'u' => Some(MaskCharType::Uppercase),
            'L' => Some(MaskCharType::Letters),
            'd' => Some(MaskCharType::Digits),
            'A' => Some(MaskCharType::Alphanumeric),
            's' => Some(MaskCharType::Special),
            'S' => Some(MaskCharType::SpecialSubset),
            'e' => Some(MaskCharType::Everything),
            'E' => Some(MaskCharType::EverythingAlmost),
            'h' => Some(MaskCharType::HexLower),
            'H' => Some(MaskCharType::HexUpper),
            '1' => Some(MaskCharType::Custom1),
            _ => None,
        }
    }

    /// The characters of this class, in their enumeration order.
    pub fn charset(mask_char_type: &MaskCharType) -> (r: &'static str)
        ensures
            r@ == charset_spec(*mask_char_type),
    {
        match mask_char_type {
            MaskCharType::Lowercase => "abcdefghijklmnopqrstuvwxyz",
            MaskCharType::Uppercase => "ABCDEFGHIJKLMNOPQRSTUVWXYZ",
            MaskCharType::Letters => "abcdefghijklmnopqrstuvwxyzABCDEFGHIJKLMNOPQRSTUVWXYZ",
            MaskCharType::Digits => "0123456789",
            MaskCharType::Alphanumeric => "abcdefghijklmnopqrstuvwxyzABCDEFGHIJKLMNOPQRSTUVWXYZ0123456789",
            MaskCharType::Special => "!\"#$%&'()*+,-./:;<=>?@[\\]^_`{|}~ ",
            MaskCharType::SpecialSubset => "!@#$%^&*+-=_",
            MaskCharType::Everything => "abcdefghijklmnopqrstuvwxyzABCDEFGHIJKLMNOPQRSTUVWXYZ0123456789!\"#$%&'()*+,-./:;<=>?@[\\]^_`{|}~ ",
            MaskCharType::EverythingAlmost => "abcdefghijklmnopqrstuvwxyzABCDEFGHIJKLMNOPQRSTUVWXYZ0123456789!@#$%^&*+-=_",
            MaskCharType::HexLower => "0123456789abcdef",
            MaskCharType::HexUpper => "0123456789ABCDEF",
            MaskCharType::Custom1 => "",
        }
    }
}

/// Radix of each mask position: the size of its class.
pub open spec fn mask_radixes(types: Seq<MaskCharType>) -> Seq<int> {
    types.map_values(|t: MaskCharType| charset_spec(t).len() as int)
}

/// Cardinality of a mask: the product of its class sizes.
pub open spec fn mask_card(types: Seq<MaskCharType>) -> int {
    radix_prod(mask_radixes(types))
}

/// The string a mask renders from its current per-position indices.
pub open spec fn mask_output(types: Seq<MaskCharType>, idx: Seq<int>) -> Seq<char> {
    Seq::new(types.len(), |i: int| charset_spec(types[i])[idx[i]])
}

/// A well-formed mask's radixes are all positive.
pub proof fn lemma_mask_radixes_pos(m: MaskIncrementer)
    requires
        m.sane(),
    ensures
        forall|j: int|
            0 <= j < mask_radixes(m.char_type@).len() ==> #[trigger] mask_radixes(m.char_type@)[j]
                >= 1,
        crate::odometer::digits_ok(m.digits(), mask_radixes(m.char_type@)),
{
    assert forall|j: int|
        0 <= j < mask_radixes(m.char_type@).len() implies #[trigger] mask_radixes(m.char_type@)[j]
        >= 1 by {
        assert(m.char_idx@[j] < m.char_max@[j]);
    }
    assert forall|j: int|
        0 <= j < m.digits().len() implies 0 <= #[trigger] m.digits()[j] < mask_radixes(
        m.char_type@,
    )[j] by {
        assert(m.char_idx@[j] < m.char_max@[j]);
    }
}

impl MaskIncrementer {
    pub open spec fn digits(&self) -> Seq<int> {
        self.char_idx@.map_values(|x: usize| x as int)
    }

    pub open spec fn sane(&self) -> bool {
        &&& self.char_idx@.len() == self.char_type@.len()
        &&& self.char_max@.len() == self.char_type@.len()
        &&& forall|i: int|
            0 <= i < self.char_type@.len() ==> #[trigger] self.char_max@[i] == charset_spec(
                self.char_type@[i],
            ).len()
        &&& forall|i: int|
            0 <= i < self.char_type@.len() ==> #[trigger] self.char_idx@[i] < self.char_max@[i]
    }

    pub open spec fn cursor(&self) -> int {
        odo_value(self.digits(), mask_radixes(self.char_type@))
    }

    pub fn new(mask: String) -> (r: MaskIncrementer)
        requires
            forall|i: int| 0 <= i < mask@.len() ==> valid_mask_char(#[trigger] mask@[i]),
        ensures
            r@ == (GenSpec::Mask { types: mask_types_of(mask@) }),
            r.sane(),
            r.cursor() == 0,
    {
        let chars = crate::text::str_to_chars(mask.as_str());
        let mut char_type: Vec<MaskCharType> = Vec::new();
        let mut char_idx: Vec<usize> = Vec::new();
        let mut char_max: Vec<usize> = Vec::new();
        let mut i: usize = 0;
        while i < chars.len()
            invariant
                i <= chars@.len(),
                chars@ == mask@,
                forall|j: int| 0 <= j < mask@.len() ==> valid_mask_char(#[trigger] mask@[j]),
                char_type@ =~= mask_types_of(mask@.take(i as int)),
                char_idx@.len() == i,
                char_max@.len() == i,
                forall|j: int|
                    0 <= j < i ==> #[trigger] char_max@[j] == charset_spec(char_type@[j]).len(),
                forall|j: int| 0 <= j < i ==> #[trigger] char_idx@[j] == 0,
            decreases chars@.len() - i,
        {
            let c = chars[i];
            let t = match MaskCharType::class_from_char(c) {
                Some(t) => t,
                None => {
                    proof {
                        assert(valid_mask_char(mask@[i as int]));
                        assert(false);
                    }
                    MaskCharType::Lowercase
                },
            };
            char_type.push(t);
            char_idx.push(0);
            char_max.push(MaskCharType::charset(&t).unicode_len());
            proof {
                assert(mask_types_of(mask@.take(i + 1)) =~= mask_types_of(
                    mask@.take(i as int),
                ).push(mask_class_of(mask@[i as int])));
            }
            i = i + 1;
        }
        proof {
            assert(mask@.take(mask@.len() as int) =~= mask@);
        }
        let r = MaskIncrementer { char_type, char_idx, char_max };
        proof {
            lemma_odo_value_zero(r.digits(), mask_radixes(r.char_type@));
        }
        r
    }

    pub fn increment(&mut self, segs: &Vec<Vec<char>>) -> (r: bool)
        requires
            old(self).sane(),
        ensures
            final(self)@ == old(self)@,
            final(self).sane(),
            r == (old(self).cursor() + 1 < mask_card(old(self).char_type@)),
            r ==> final(self).cursor() == old(self).cursor() + 1,
            !r ==> final(self).cursor() == 0,
    {
        let ghost radixes = mask_radixes(old(self).char_type@);
        let ghost odigits = old(self).digits();
        proof {
            lemma_mask_radixes_pos(*old(self));
            assert(digits_ok(odigits, radixes));
            lemma_odo_value_bounds(odigits, radixes);
        }
        let mut i: usize = self.char_idx.len();
        while i > 0
            invariant
                i <= self.char_idx@.len(),
                self.char_type == old(self).char_type,
                self.char_max == old(self).char_max,
                self.char_idx@.len() == old(self).char_idx@.len(),
                old(self).sane(),
                self.sane(),
                radixes == mask_radixes(self.char_type@),
                odigits == old(self).digits(),
                forall|j: int|
                    0 <= j < i ==> #[trigger] self.char_idx@[j] == old(self).char_idx@[j],
                forall|j: int|
                    i <= j < self.char_idx@.len() ==> #[trigger] self.char_idx@[j] == 0,
                forall|j: int|
                    i <= j < self.char_idx@.len() ==> #[trigger] old(self).char_idx@[j] == old(
                        self,
                    ).char_max@[j] - 1,
            decreases i,
        {
            i = i - 1;
            let v = self.char_idx[i] + 1;
            if v < self.char_max[i] {
                self.char_idx[i] = v;
                proof {
                    lemma_mask_radixes_pos(*old(self));
                    assert(self.digits() =~= succ_at(odigits, i as int));
                    lemma_odo_succ_at(odigits, radixes, i as int);
                    lemma_mask_radixes_pos(*self);
                    lemma_odo_value_bounds(self.digits(), radixes);
                    lemma_odo_value_bounds(odigits, radixes);
                }
                return true;
            } else {
                self.char_idx[i] = 0;
            }
        }
        proof {
            lemma_odo_value_max(odigits, radixes);
            lemma_odo_value_zero(self.digits(), radixes);
        }
        false
    }

    pub fn reset(&mut self)
        requires
            old(self).sane(),
        ensures
            final(self)@ == old(self)@,
            final(self).sane(),
            final(self).cursor() == 0,
    {
        proof {
            lemma_mask_radixes_pos(*old(self));
        }
        let mut i: usize = 0;
        while i < self.char_idx.len()
            invariant
                i <= self.char_idx@.len(),
                self.char_type == old(self).char_type,
                self.char_max == old(self).char_max,
                self.char_idx@.len() == old(self).char_idx@.len(),
                old(self).sane(),
                forall|j: int| 0 <= j < i ==> #[trigger] self.char_idx@[j] == 0,
                forall|j: int|
                    i <= j < self.char_idx@.len() ==> #[trigger] self.char_idx@[j] == old(
                        self,
                    ).char_idx@[j],
            decreases self.char_idx@.len() - i,
        {
            self.char_idx[i] = 0;
            i = i + 1;
        }
        proof {
            assert forall|j: int| 0 <= j < self.char_type@.len() implies #[trigger] self.char_idx@[j]
                < self.char_max@[j] by {
                assert(old(self).char_idx@[j] < old(self).char_max@[j]);
            }
            lemma_odo_value_zero(self.digits(), mask_radixes(self.char_type@));
        }
    }

    pub fn output(&self, segs: &Vec<Vec<char>>) -> (r: Vec<Vec<char>>)
        requires
            self.sane(),
        ensures
            r.deep_view() =~= seq![mask_output(self.char_type@, self.digits())],
    {
        let mut out: Vec<char> = Vec::new();
        let mut i: usize = 0;
        while i < self.char_type.len()
            invariant
                i <= self.char_type@.len(),
                self.sane(),
                out@ =~= mask_output(self.char_type@.take(i as int), self.digits().take(i as int)),
            decreases self.char_type@.len() - i,
        {
            let s = MaskCharType::charset(&self.char_type[i]);
            out.push(s.get_char(self.char_idx[i]));
            proof {
                assert(mask_output(
                    self.char_type@.take(i + 1),
                    self.digits().take(i + 1),
                ) =~= mask_output(self.char_type@.take(i as int), self.digits().take(i as int)).push(
                    charset_spec(self.char_type@[i as int])[self.digits()[i as int]],
                ));
            }
            i = i + 1;
        }
        proof {
            assert(self.char_type@.take(self.char_type@.len() as int) =~= self.char_type@);
            assert(self.digits().take(self.digits().len() as int) =~= self.digits());
        }
        let mut r: Vec<Vec<char>> = Vec::new();
        r.push(out);
        proof {
            assert(r.deep_view() =~~= seq![mask_output(self.char_type@, self.digits())]);
        }
        r
    }
}

} // verus!
