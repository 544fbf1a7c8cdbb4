//! The recipe text parser: splits the recipe into step entries (one per
//! line or comma-separated field), reads each entry's step keyword,
//! attributes (`#id`, `.class`) and modifier flags (`+ulot`, `?`, `^`),
//! and yields the step descriptors the builder consumes. The textual
//! syntax is a boundary concern; the parser is verified not to fail in
//! any way other than by reporting a malformed entry.
use vstd::prelude::*;
use crate::recipe_step::{CaseModifiers, CommonAttributes, GeneratorModifiers, Recipe, RecipeStep};
use crate::text::{chars_to_string, is_space_exec, str_to_chars, trim_chars};

verus! {

/// A malformed recipe entry: an unknown step keyword, or a character
/// replacement step without a usable target and pair list.
#[derive(Debug, PartialEq, Eq, Structural, Clone, Copy)]
pub enum RecipeParseError {
    UnknownStepType,
    MalformedReplacementPair,
}

/// An ASCII word character, as an id or class name is made of.
fn is_word_char(c: char) -> bool {
    let u = c as u32;
    (48 <= u && u <= 57) || (65 <= u && u <= 90) || (97 <= u && u <= 122) || c == '_'
}

fn is_case_letter(c: char) -> bool {
    c == 'u' || c == 'l' || c == 'o' || c == 't'
}

/// A character that ends the step keyword and starts an attribute or
/// modifier mark.
fn is_mark_char(c: char) -> bool {
    c == '+' || c == '?' || c == '#' || c == '.' || c == '[' || c == '^'
}

/// The characters `v[a .. b]` as a `String`.
fn slice_string(v: &Vec<char>, a: usize, b: usize) -> (r: String)
    requires
        a <= b <= v@.len(),
    ensures
        r@ == v@.subrange(a as int, b as int),
{
    let mut out: Vec<char> = Vec::new();
    let mut i: usize = a;
    while i < b
        invariant
            a <= i <= b <= v@.len(),
            out@ == v@.subrange(a as int, i as int),
        decreases b - i,
    {
        out.push(v[i]);
        proof {
            assert(v@.subrange(a as int, i + 1) =~= v@.subrange(a as int, i as int).push(
                v@[i as int],
            ));
        }
        i = i + 1;
    }
    chars_to_string(&out)
}

fn eq_lit(v: &Vec<char>, lit: &str) -> (r: bool)
    ensures
        r == (v@ == lit@),
{
    let n = lit.unicode_len();
    if v.len() != n {
        proof {
            assert(v@.len() != lit@.len());
        }
        return false;
    }
    let mut i: usize = 0;
    while i < n
        invariant
            i <= n,
            n == lit@.len(),
            v@.len() == n,
            forall|j: int| 0 <= j < i ==> v@[j] == lit@[j],
        decreases n - i,
    {
        if v[i] != lit.get_char(i) {
            proof {
                assert(v@ != lit@);
            }
            return false;
        }
        i = i + 1;
    }
    proof {
        assert(v@ =~= lit@);
    }
    true
}

/// Splits on whitespace, dropping empty fields.
fn split_whitespace_chars(v: &Vec<char>) -> (r: Vec<Vec<char>>)
{
    let mut r: Vec<Vec<char>> = Vec::new();
    let mut cur: Vec<char> = Vec::new();
    let mut i: usize = 0;
    while i < v.len()
        invariant
            i <= v@.len(),
        decreases v@.len() - i,
    {
        let c = v[i];
        if is_space_exec(c) {
            if cur.len() > 0 {
                r.push(cur);
                cur = Vec::new();
            }
        } else {
            cur.push(c);
        }
        i = i + 1;
    }
    if cur.len() > 0 {
        r.push(cur);
    }
    r
}

pub struct RecipeParser {}

impl RecipeParser {
    /// Parses one recipe entry: the step keyword with its attached
    /// attributes, then the step's payload.
    pub fn parse_step(step_text: &Vec<char>) -> (r: Result<RecipeStep, RecipeParseError>) {
        // First token (up to the first space) and the trimmed remainder.
        let mut i: usize = 0;
        while i < step_text.len() && step_text[i] != ' '
            invariant
                i <= step_text@.len(),
            decreases step_text@.len() - i,
        {
            i = i + 1;
        }
        let sp = i;
        let mut first_token: Vec<char> = Vec::new();
        let mut j: usize = 0;
        while j < sp && j < step_text.len()
            invariant
                j <= step_text@.len(),
            decreases step_text@.len() - j,
        {
            first_token.push(step_text[j]);
            j = j + 1;
        }
        let mut rem_raw: Vec<char> = Vec::new();
        let mut k: usize = if sp < step_text.len() {
            sp + 1
        } else {
            step_text.len()
        };
        while k < step_text.len()
            invariant
                k <= step_text@.len(),
            decreases step_text@.len() - k,
        {
            rem_raw.push(step_text[k]);
            k = k + 1;
        }
        let remainder = trim_chars(&rem_raw);

        // The step keyword: the first token up to the first attribute or
        // modifier mark.
        let mut t: usize = 0;
        while t < first_token.len() && !is_mark_char(first_token[t])
            invariant
                t <= first_token@.len(),
            decreases first_token@.len() - t,
        {
            t = t + 1;
        }
        let te = t;
        let mut step_type: Vec<char> = Vec::new();
        let mut q: usize = 0;
        while q < te && q < first_token.len()
            invariant
                q <= first_token@.len(),
            decreases first_token@.len() - q,
        {
            step_type.push(first_token[q]);
            q = q + 1;
        }

        // Attributes and modifier flags attached to the first token.
        let mut attr = CommonAttributes::default();
        let mut modifiers = GeneratorModifiers::default();
        let mut first_modifier = true;
        let mut p: usize = 0;
        while p < first_token.len()
            invariant
                p <= first_token@.len(),
            decreases first_token@.len() - p,
        {
            let c = first_token[p];
            if c == '#' || c == '.' {
                let mut e: usize = p + 1;
                while e < first_token.len() && is_word_char(first_token[e])
                    invariant
                        p + 1 <= e <= first_token@.len(),
                    decreases first_token@.len() - e,
                {
                    e = e + 1;
                }
                if e > p + 1 {
                    let name = slice_string(&first_token, p, e);
                    if c == '#' {
                        attr.id = Some(name);
                    } else {
                        attr.classes.push(name);
                    }
                    p = e;
                } else {
                    p = p + 1;
                }
            } else if c == '+' {
                let mut e: usize = p + 1;
                while e < first_token.len() && is_case_letter(first_token[e])
                    invariant
                        p + 1 <= e <= first_token@.len(),
                    decreases first_token@.len() - e,
                {
                    e = e + 1;
                }
                if e > p + 1 {
                    if first_modifier {
                        modifiers.case.originalcase = false;
                        first_modifier = false;
                    }
                    let mut w: usize = p + 1;
                    while w < e && w < first_token.len()
                        invariant
                            w <= first_token@.len(),
                        decreases first_token@.len() - w,
                    {
                        let mc = first_token[w];
                        if mc == 'u' {
                            modifiers.case.uppercase = true;
                        } else if mc == 'l' {
                            modifiers.case.lowercase = true;
                        } else if mc == 'o' {
                            modifiers.case.originalcase = true;
                        } else if mc == 't' {
                            modifiers.case.titlecase = true;
                        }
                        w = w + 1;
                    }
                    p = e;
                } else {
                    p = p + 1;
                }
            } else if c == '?' {
                modifiers.optional = true;
                p = p + 1;
            } else if c == '^' {
                modifiers.hidden = true;
                p = p + 1;
            } else {
                p = p + 1;
            }
        }

        // The step keyword decides the step kind; the remainder is its
        // payload.
        if eq_lit(&step_type, "w") || eq_lit(&step_type, "word") || eq_lit(&step_type, "wl")
            || eq_lit(&step_type, "wordlist") {
            Ok(RecipeStep::Wordlist { filename: chars_to_string(&remainder), attr, modifiers })
        } else if eq_lit(&step_type, "m") || eq_lit(&step_type, "mask") {
            Ok(RecipeStep::Mask { mask: chars_to_string(&remainder), attr, modifiers })
        } else if eq_lit(&step_type, "mi") || eq_lit(&step_type, "maskinc") || eq_lit(
            &step_type,
            "maskincremental",
        ) {
            Ok(RecipeStep::MaskIncremental { mask: chars_to_string(&remainder), attr, modifiers })
        } else if eq_lit(&step_type, "c") || eq_lit(&step_type, "const") || eq_lit(
            &step_type,
            "constant",
        ) {
            Ok(RecipeStep::Constant { value: chars_to_string(&remainder), attr, modifiers })
        } else if eq_lit(&step_type, "d") || eq_lit(&step_type, "dup") || eq_lit(
            &step_type,
            "duplicate",
        ) {
            Ok(RecipeStep::Duplicate { target_id: chars_to_string(&remainder), attr, modifiers })
        } else if eq_lit(&step_type, "l") || eq_lit(&step_type, "loc") || eq_lit(
            &step_type,
            "location",
        ) {
            Ok(RecipeStep::Location { attr })
        } else if eq_lit(&step_type, "r") || eq_lit(&step_type, "rearr") || eq_lit(
            &step_type,
            "rearrange",
        ) {
            let parts = split_whitespace_chars(&remainder);
            let mut target_list: Vec<String> = Vec::new();
            let mut x: usize = 0;
            while x < parts.len()
                invariant
                    x <= parts@.len(),
                decreases parts@.len() - x,
            {
                target_list.push(chars_to_string(&parts[x]));
                x = x + 1;
            }
            Ok(RecipeStep::Rearrange { target_list })
        } else if eq_lit(&step_type, "cc") || eq_lit(&step_type, "concat") {
            let parts = split_whitespace_chars(&remainder);
            let mut target_list: Vec<String> = Vec::new();
            let mut x: usize = 0;
            while x < parts.len()
                invariant
                    x <= parts@.len(),
                decreases parts@.len() - x,
            {
                target_list.push(chars_to_string(&parts[x]));
                x = x + 1;
            }
            Ok(RecipeStep::Concat { target_list, attr, modifiers })
        } else if eq_lit(&step_type, "rep") || eq_lit(&step_type, "replace") {
            let parts = split_whitespace_chars(&remainder);
            if parts.len() == 0 {
                return Err(RecipeParseError::MalformedReplacementPair);
            }
            let target_id = chars_to_string(&parts[0]);
            let mut replacements: Vec<(char, char)> = Vec::new();
            let mut x: usize = 1;
            while x < parts.len()
                invariant
                    1 <= x <= parts@.len(),
                decreases parts@.len() - x,
            {
                let pair = &parts[x];
                if pair.len() < 2 {
                    return Err(RecipeParseError::MalformedReplacementPair);
                }
                replacements.push((pair[0], pair[1]));
                x = x + 1;
            }
            Ok(RecipeStep::ReplaceChar { target_id, replacements, attr, modifiers })
        } else if eq_lit(&step_type, "sp") || eq_lit(&step_type, "space") {
            Ok(RecipeStep::Constant { value: " ".to_string(), attr, modifiers })
        } else {
            Err(RecipeParseError::UnknownStepType)
        }
    }

    /// Parses a whole recipe: entries are separated by line breaks and
    /// commas; blank entries are skipped; the first malformed entry is
    /// fatal.
    pub fn parse(recipe_text: String) -> (r: Result<Recipe, RecipeParseError>) {
        let chars = str_to_chars(recipe_text.as_str());
        let mut entries: Vec<Vec<char>> = Vec::new();
        let mut cur: Vec<char> = Vec::new();
        let mut i: usize = 0;
        while i < chars.len()
            invariant
                i <= chars@.len(),
            decreases chars@.len() - i,
        {
            let c = chars[i];
            if c == '\n' || c == ',' {
                entries.push(cur);
                cur = Vec::new();
            } else {
                cur.push(c);
            }
            i = i + 1;
        }
        entries.push(cur);
        let mut steps: Vec<RecipeStep> = Vec::new();
        let mut e: usize = 0;
        while e < entries.len()
            invariant
                e <= entries@.len(),
            decreases entries@.len() - e,
        {
            let trimmed = trim_chars(&entries[e]);
            if trimmed.len() > 0 {
                match Self::parse_step(&trimmed) {
                    Ok(step) => steps.push(step),
                    Err(err) => {
                        return Err(err);
                    },
                }
            }
            e = e + 1;
        }
        Ok(steps)
    }
}

} // verus!
