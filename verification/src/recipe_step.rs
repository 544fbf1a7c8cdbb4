//! Step descriptors: the parsed form of one recipe entry, together with
//! the shared attributes (id, classes) and modifier flags each step carries.
use vstd::prelude::*;

verus! {

pub type Recipe = Vec<RecipeStep>;

pub type StepID = String;

pub enum RecipeStep {
    Wordlist { filename: String, attr: CommonAttributes, modifiers: GeneratorModifiers },
    Mask { mask: String, attr: CommonAttributes, modifiers: GeneratorModifiers },
    MaskIncremental { mask: String, attr: CommonAttributes, modifiers: GeneratorModifiers },
    Constant { value: String, attr: CommonAttributes, modifiers: GeneratorModifiers },
    Duplicate { target_id: StepID, attr: CommonAttributes, modifiers: GeneratorModifiers },
    Location { attr: CommonAttributes },
    Rearrange { target_list: Vec<StepID> },
    Concat { target_list: Vec<StepID>, attr: CommonAttributes, modifiers: GeneratorModifiers },
    ReplaceChar {
        target_id: StepID,
        replacements: Vec<(char, char)>,
        attr: CommonAttributes,
        modifiers: GeneratorModifiers,
    },
}

pub struct CommonAttributes {
    pub id: Option<String>,
    pub classes: Vec<String>,
}

impl Default for CommonAttributes {
    fn default() -> (r: CommonAttributes)
        ensures
            r.id is None,
            r.classes@.len() == 0,
    {
        CommonAttributes { id: None, classes: Vec::new() }
    }
}

#[derive(PartialEq, Eq, Structural, Clone, Copy, Debug)]
pub struct CaseModifiers {
    pub titlecase: bool,
    pub uppercase: bool,
    pub lowercase: bool,
    pub originalcase: bool,
}

impl Default for CaseModifiers {
    fn default() -> (r: CaseModifiers)
        ensures
            r == (CaseModifiers {
                titlecase: false,
                uppercase: false,
                lowercase: false,
                originalcase: true,
            }),
    {
        CaseModifiers { titlecase: false, uppercase: false, lowercase: false, originalcase: true }
    }
}

/// The four case variants, in the fixed order they are enumerated in.
#[derive(PartialEq, Eq, Structural, Clone, Copy, Debug)]
pub enum CaseModifierType {
    OriginalCase,
    Lowercase,
    Uppercase,
    TitleCase,
}

/// The enumeration position of a case variant.
pub open spec fn case_index(c: CaseModifierType) -> int {
    match c {
        CaseModifierType::OriginalCase => 0,
        CaseModifierType::Lowercase => 1,
        CaseModifierType::Uppercase => 2,
        CaseModifierType::TitleCase => 3,
    }
}

/// Whether the case variant at enumeration position `i` is selected.
pub open spec fn case_selected(m: CaseModifiers, i: int) -> bool {
    if i == 0 {
        m.originalcase
    } else if i == 1 {
        m.lowercase
    } else if i == 2 {
        m.uppercase
    } else if i == 3 {
        m.titlecase
    } else {
        false
    }
}

/// The case variant at enumeration position `i`.
pub fn case_from_index(i: usize) -> (c: CaseModifierType)
    requires
        i < 4,
    ensures
        case_index(c) == i,
{
    if i == 0 {
        CaseModifierType::OriginalCase
    } else if i == 1 {
        CaseModifierType::Lowercase
    } else if i == 2 {
        CaseModifierType::Uppercase
    } else {
        CaseModifierType::TitleCase
    }
}

impl CaseModifiers {
    pub fn includes_case(&self, case: CaseModifierType) -> (r: bool)
        ensures
            r == case_selected(*self, case_index(case)),
    {
        match case {
            CaseModifierType::OriginalCase => self.originalcase,
            CaseModifierType::Lowercase => self.lowercase,
            CaseModifierType::Uppercase => self.uppercase,
            CaseModifierType::TitleCase => self.titlecase,
        }
    }
}

#[derive(Clone, Copy)]
pub struct GeneratorModifiers {
    pub case: CaseModifiers,
    pub optional: bool,
    pub hidden: bool,
}

impl Default for GeneratorModifiers {
    fn default() -> (r: GeneratorModifiers)
        ensures
            r.case == (CaseModifiers {
                titlecase: false,
                uppercase: false,
                lowercase: false,
                originalcase: true,
            }),
            !r.optional,
            !r.hidden,
    {
        GeneratorModifiers { case: CaseModifiers::default(), optional: false, hidden: false }
    }
}

} // verus!
