//! The dictionary generator: plays back a list of lines, one per value.
//! The lines are handed in by the caller (reading the file is the caller's
//! business); each line is trimmed exactly as the original line source was.
use vstd::prelude::*;
use crate::items::incrementer::GenSpec;
use crate::text::{clone_chars, str_to_chars, trim_chars, trim_spec};

verus! {

broadcast use crate::text::group_deep_text;

pub struct WordlistIncrementer {
    pub lines: Vec<Vec<char>>,
    pub cur: usize,
}

impl View for WordlistIncrementer {
    type V = GenSpec;

    open spec fn view(&self) -> GenSpec {
        GenSpec::Wordlist { lines: self.lines.deep_view() }
    }
}

/// Every line trimmed of surrounding whitespace.
pub open spec fn trim_all(ls: Seq<Seq<char>>) -> Seq<Seq<char>> {
    ls.map_values(|l: Seq<char>| trim_spec(l))
}

impl WordlistIncrementer {
    /// Builds the generator from the raw lines of the word list, trimming
    /// each line of surrounding whitespace.
    pub fn new(lines: Vec<String>) -> (r: WordlistIncrementer)
        ensures
            r@ == (GenSpec::Wordlist { lines: trim_all(lines.deep_view()) }),
            r.cur == 0,
    {
        let mut trimmed: Vec<Vec<char>> = Vec::new();
        let mut i: usize = 0;
        while i < lines.len()
            invariant
                i <= lines.len(),
                trimmed@.len() == i,
                forall|j: int| 0 <= j < i ==> #[trigger] trimmed@[j]@ == trim_spec(lines@[j]@),
            decreases lines.len() - i,
        {
            let raw = str_to_chars(lines[i].as_str());
            trimmed.push(trim_chars(&raw));
            i = i + 1;
        }
        proof {
            let cooked = trim_all(lines.deep_view());
            assert forall|j: int| 0 <= j < trimmed@.len() implies trimmed.deep_view()[j] =~= cooked[j] by {
                assert(trimmed.deep_view()[j] == trimmed@[j]@);
                assert(lines.deep_view()[j] == lines@[j]@);
            }
            assert(trimmed.deep_view() =~~= cooked);
        }
        WordlistIncrementer { lines: trimmed, cur: 0 }
    }

    pub open spec fn sane(&self) -> bool {
        self.cur < self.lines@.len() || (self.lines@.len() == 0 && self.cur == 0)
    }

    pub open spec fn cursor(&self) -> int {
        self.cur as int
    }

    pub fn increment(&mut self, segs: &Vec<Vec<char>>) -> (r: bool)
        requires
            old(self).sane(),
        ensures
            final(self).sane(),
            final(self)@ == old(self)@,
            r == (old(self).cursor() + 1 < wordlist_card(old(self)@)),
            r ==> final(self).cursor() == old(self).cursor() + 1,
            !r ==> final(self).cursor() == old(self).cursor(),
    {
        if self.lines.len() > 0 && self.cur < self.lines.len() - 1 {
            self.cur = self.cur + 1;
            true
        } else {
            false
        }
    }

    pub fn reset(&mut self)
        ensures
            final(self)@ == old(self)@,
            final(self).sane(),
            final(self).cursor() == 0,
    {
        self.cur = 0;
    }

    pub fn output(&self, segs: &Vec<Vec<char>>) -> (r: Vec<Vec<char>>)
        requires
            self.sane(),
        ensures
            r.deep_view() =~= seq![wordlist_value(self@, self.cursor())],
    {
        let mut r: Vec<Vec<char>> = Vec::new();
        if self.lines.len() == 0 {
            r.push(Vec::new());
        } else {
            r.push(clone_chars(&self.lines[self.cur]));
        }
        proof {
            assert(r.deep_view() =~~= seq![wordlist_value(self@, self.cursor())]);
        }
        r
    }
}

/// Number of values a dictionary playback emits: one per line, and a single
/// empty value when the list is empty.
pub open spec fn wordlist_card(g: GenSpec) -> int {
    match g {
        GenSpec::Wordlist { lines } => if lines.len() == 0 {
            1
        } else {
            lines.len() as int
        },
        _ => 1,
    }
}

/// The line emitted at the given cursor position.
pub open spec fn wordlist_value(g: GenSpec, k: int) -> Seq<char> {
    match g {
        GenSpec::Wordlist { lines } => if lines.len() == 0 {
            Seq::empty()
        } else {
            lines[k]
        },
        _ => Seq::empty(),
    }
}

} // verus!
