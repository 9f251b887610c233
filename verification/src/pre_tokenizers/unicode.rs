//! The Unicode properties that the split patterns speak of, read from
//! `icu_properties`, and the character classes made of them.

use icu_properties::props::{GeneralCategory, GeneralCategoryGroup, Script, WhiteSpace};
use icu_properties::{CodePointMapData, CodePointSetData};
use vstd::prelude::*;

verus! {

/// The greatest code point.
pub const MAX_CP: u32 = 0x10_FFFF;

/// ICU's number for the `General_Category` of a code point.
pub uninterp spec fn general_category(cp: u32) -> u8;

/// Whether a code point has the `White_Space` property.
pub uninterp spec fn white_space(cp: u32) -> bool;

/// ICU's number for the `Script` of a code point.
pub uninterp spec fn script(cp: u32) -> u16;

/// Some range of the list holds `cp`; both ends belong to a range.
pub open spec fn covered(ranges: Seq<(u32, u32)>, cp: u32) -> bool {
    exists|i: int| 0 <= i < ranges.len() && (#[trigger] ranges[i]).0 <= cp <= ranges[i].1
}

/// Every range of the list lies inside the code point space.
pub open spec fn in_code_space(ranges: Seq<(u32, u32)>) -> bool {
    forall|i: int|
        0 <= i < ranges.len() ==> (#[trigger] ranges[i]).0 <= ranges[i].1 && ranges[i].1 <= MAX_CP
}

/// The letter categories that the case-structured schemes tell apart.
#[derive(Clone, Copy)]
pub enum LetterCategory {
    /// `\p{Lu}`
    Uppercase,
    /// `\p{Lt}`
    Titlecase,
    /// `\p{Ll}`
    Lowercase,
    /// `\p{Lm}`
    Modifier,
    /// `\p{Lo}`
    Other,
}

impl LetterCategory {
    /// ICU's number for the category.
    pub open spec fn number(self) -> u8 {
        match self {
            LetterCategory::Uppercase => 1,
            LetterCategory::Lowercase => 2,
            LetterCategory::Titlecase => 3,
            LetterCategory::Modifier => 4,
            LetterCategory::Other => 5,
        }
    }
}

/// The groups of categories that the split patterns use.
#[derive(Clone, Copy)]
pub enum CategoryGroup {
    /// `\p{L}`
    Letter,
    /// `\p{M}`
    Mark,
    /// `\p{N}`
    Number,
}

impl CategoryGroup {
    /// Whether the group holds the category with this ICU number.
    pub open spec fn holds(self, category: u8) -> bool {
        match self {
            CategoryGroup::Letter => 1 <= category <= 5,
            CategoryGroup::Mark => 6 <= category <= 8,
            CategoryGroup::Number => 9 <= category <= 11,
        }
    }
}

/// The scripts that the split patterns name.
#[derive(Clone, Copy)]
pub enum NamedScript {
    /// `\p{Han}`
    Han,
}

impl NamedScript {
    /// ICU's number for the script.
    pub open spec fn number(self) -> u16 {
        match self {
            NamedScript::Han => 17,
        }
    }
}

/// `CodePointMapData::<GeneralCategory>::iter_ranges_for_value`: the ranges
/// hold exactly the code points of that category.
#[verifier::external_body]
pub(crate) fn letter_category_ranges(category: LetterCategory) -> (ranges: Vec<(u32, u32)>)
    ensures
        in_code_space(ranges@),
        forall|cp: u32|
            cp <= MAX_CP ==> (#[trigger] covered(ranges@, cp) <==> general_category(cp)
                == category.number()),
{
    let value = match category {
        LetterCategory::Uppercase => GeneralCategory::UppercaseLetter,
        LetterCategory::Titlecase => GeneralCategory::TitlecaseLetter,
        LetterCategory::Lowercase => GeneralCategory::LowercaseLetter,
        LetterCategory::Modifier => GeneralCategory::ModifierLetter,
        LetterCategory::Other => GeneralCategory::OtherLetter,
    };
    let ranges = CodePointMapData::<GeneralCategory>::new().iter_ranges_for_value(value);
    ranges.map(|range| (*range.start(), *range.end())).collect()
}

/// `CodePointMapData::<GeneralCategory>::iter_ranges_for_group`: the ranges
/// hold exactly the code points whose category is in the group.
#[verifier::external_body]
pub(crate) fn category_group_ranges(group: CategoryGroup) -> (ranges: Vec<(u32, u32)>)
    ensures
        in_code_space(ranges@),
        forall|cp: u32|
            cp <= MAX_CP ==> (#[trigger] covered(ranges@, cp) <==> group.holds(
                general_category(cp),
            )),
{
    let group = match group {
        CategoryGroup::Letter => GeneralCategoryGroup::Letter,
        CategoryGroup::Mark => GeneralCategoryGroup::Mark,
        CategoryGroup::Number => GeneralCategoryGroup::Number,
    };
    let ranges = CodePointMapData::<GeneralCategory>::new().iter_ranges_for_group(group);
    ranges.map(|range| (*range.start(), *range.end())).collect()
}

/// `CodePointSetData::iter_ranges` of the `White_Space` property: the ranges
/// hold exactly the code points that have it.
#[verifier::external_body]
pub(crate) fn white_space_ranges() -> (ranges: Vec<(u32, u32)>)
    ensures
        in_code_space(ranges@),
        forall|cp: u32|
            cp <= MAX_CP ==> (#[trigger] covered(ranges@, cp) <==> white_space(cp)),
{
    let ranges = CodePointSetData::new::<WhiteSpace>().iter_ranges();
    ranges.map(|range| (*range.start(), *range.end())).collect()
}

/// The category of what has no case: neither `\p{Lu}` nor `\p{Ll}` nor `\p{Lt}`.
pub open spec fn is_uncased(category: u8) -> bool {
    !(1 <= category <= 3)
}

/// `CodePointMapData::<Script>::iter_ranges_for_value`: the ranges hold exactly
/// the code points of that script. In the data of the crate, no code point of the
/// Han script has a case or the `White_Space` property.
#[verifier::external_body]
pub(crate) fn script_ranges(script_name: NamedScript) -> (ranges: Vec<(u32, u32)>)
    ensures
        in_code_space(ranges@),
        forall|cp: u32|
            cp <= MAX_CP ==> (#[trigger] covered(ranges@, cp) <==> script(cp)
                == script_name.number()),
        script_name is Han ==> forall|cp: u32|
            cp <= MAX_CP && #[trigger] covered(ranges@, cp) ==> is_uncased(general_category(cp))
                && !white_space(cp),
{
    let value = match script_name {
        NamedScript::Han => Script::Han,
    };
    let ranges = CodePointMapData::<Script>::new().iter_ranges_for_value(value);
    ranges.map(|range| (*range.start(), *range.end())).collect()
}

/// Character class as used by the split patterns: `\p{L}`, `\p{N}`, `\s`
/// (the Unicode White_Space property), and everything else.
#[derive(Clone, Copy, Debug, PartialEq, Eq, Structural)]
pub enum CharClass {
    /// `\p{L}`
    Letter,
    /// `\p{N}`
    Number,
    /// `\s`
    Whitespace,
    /// Everything else.
    Other,
}

/// The letter-run classes of the o200k family: `Upper` is Lu|Lt, `Lower` is
/// Ll, `Caseless` is Lm|Lo. Marks (`\p{M}`) are their own class: they join
/// letter runs like `Caseless` but, being outside `\p{L}`, also continue
/// `[^\s\p{L}\p{N}]+`.
#[derive(Clone, Copy, Debug, PartialEq, Eq, Structural)]
pub enum O200kCharClass {
    /// `[\p{Lu}\p{Lt}]`
    Upper,
    /// `\p{Ll}`
    Lower,
    /// `[\p{Lm}\p{Lo}]`
    Caseless,
    /// `\p{M}`
    Mark,
    /// `\p{N}`
    Number,
    /// `\s`
    Whitespace,
    /// Everything else.
    Other,
}

/// The Kimi classes: the o200k classes with `\p{Han}` split out. Han runs get
/// their own leading alternative and are excluded from both letter brackets,
/// but the general-category rules are otherwise Han-blind (a Han numeral still
/// counts toward `\p{N}{1,3}`, a Han symbol still spans a `[^\s\p{L}\p{N}]+`
/// run). Each Han variant records the base class it behaves as outside a Han
/// run.
#[derive(Clone, Copy, Debug, PartialEq, Eq, Structural)]
pub enum KimiCharClass {
    /// `[\p{Lu}\p{Lt}]`, not Han.
    Upper,
    /// `\p{Ll}`, not Han.
    Lower,
    /// `[\p{Lm}\p{Lo}]`, not Han.
    Caseless,
    /// `\p{M}`, not Han.
    Mark,
    /// `\p{N}`, not Han.
    Number,
    /// `\s`, not Han.
    Whitespace,
    /// Everything else that is not Han.
    Other,
    /// A Han letter.
    Han,
    /// A Han numeral.
    HanNumber,
    /// A Han symbol or mark.
    HanOther,
}

/// The o200k class of a code point. `White_Space` is asked first; no code point
/// that has it is a letter, a mark or a number.
pub open spec fn o200k_class(cp: u32) -> O200kCharClass {
    let category = general_category(cp);
    if white_space(cp) {
        O200kCharClass::Whitespace
    } else if CategoryGroup::Number.holds(category) {
        O200kCharClass::Number
    } else if CategoryGroup::Mark.holds(category) {
        O200kCharClass::Mark
    } else if category == LetterCategory::Uppercase.number() || category
        == LetterCategory::Titlecase.number() {
        O200kCharClass::Upper
    } else if category == LetterCategory::Lowercase.number() {
        O200kCharClass::Lower
    } else if category == LetterCategory::Modifier.number() || category
        == LetterCategory::Other.number() {
        O200kCharClass::Caseless
    } else {
        O200kCharClass::Other
    }
}

/// The coarse class that an o200k class belongs to.
pub open spec fn coarse(class: O200kCharClass) -> CharClass {
    match class {
        O200kCharClass::Upper | O200kCharClass::Lower | O200kCharClass::Caseless =>
            CharClass::Letter,
        O200kCharClass::Number => CharClass::Number,
        O200kCharClass::Whitespace => CharClass::Whitespace,
        O200kCharClass::Mark | O200kCharClass::Other => CharClass::Other,
    }
}

/// The class of a code point as the Qwen2 patterns see it.
pub open spec fn char_class(cp: u32) -> CharClass {
    coarse(o200k_class(cp))
}

/// Whether a code point is `\p{Han}`.
pub open spec fn is_han_cp(cp: u32) -> bool {
    script(cp) == NamedScript::Han.number()
}

/// The Kimi class of a code point.
pub open spec fn kimi_class(cp: u32) -> KimiCharClass {
    let class = o200k_class(cp);
    if is_han_cp(cp) {
        match class {
            O200kCharClass::Number => KimiCharClass::HanNumber,
            O200kCharClass::Other | O200kCharClass::Mark => KimiCharClass::HanOther,
            _ => KimiCharClass::Han,
        }
    } else {
        match class {
            O200kCharClass::Upper => KimiCharClass::Upper,
            O200kCharClass::Lower => KimiCharClass::Lower,
            O200kCharClass::Caseless => KimiCharClass::Caseless,
            O200kCharClass::Mark => KimiCharClass::Mark,
            O200kCharClass::Number => KimiCharClass::Number,
            O200kCharClass::Whitespace => KimiCharClass::Whitespace,
            O200kCharClass::Other => KimiCharClass::Other,
        }
    }
}

impl KimiCharClass {
    /// The o200k class that this class behaves as outside a Han run.
    pub open spec fn base_spec(self) -> O200kCharClass {
        match self {
            KimiCharClass::Upper => O200kCharClass::Upper,
            KimiCharClass::Lower => O200kCharClass::Lower,
            KimiCharClass::Caseless | KimiCharClass::Han => O200kCharClass::Caseless,
            KimiCharClass::Mark => O200kCharClass::Mark,
            KimiCharClass::Number | KimiCharClass::HanNumber => O200kCharClass::Number,
            KimiCharClass::Whitespace => O200kCharClass::Whitespace,
            KimiCharClass::Other | KimiCharClass::HanOther => O200kCharClass::Other,
        }
    }

    /// Whether the class is one of the Han classes.
    pub open spec fn is_han_spec(self) -> bool {
        self is Han || self is HanNumber || self is HanOther
    }

    /// The o200k class that this class behaves as outside a Han run.
    pub fn base(self) -> (class: O200kCharClass)
        ensures
            class == self.base_spec(),
    {
        match self {
            KimiCharClass::Upper => O200kCharClass::Upper,
            KimiCharClass::Lower => O200kCharClass::Lower,
            KimiCharClass::Caseless | KimiCharClass::Han => O200kCharClass::Caseless,
            KimiCharClass::Mark => O200kCharClass::Mark,
            KimiCharClass::Number | KimiCharClass::HanNumber => O200kCharClass::Number,
            KimiCharClass::Whitespace => O200kCharClass::Whitespace,
            KimiCharClass::Other | KimiCharClass::HanOther => O200kCharClass::Other,
        }
    }

    /// Whether the class is one of the Han classes.
    pub fn is_han(self) -> (han: bool)
        ensures
            han == self.is_han_spec(),
    {
        matches!(self, KimiCharClass::Han | KimiCharClass::HanNumber | KimiCharClass::HanOther)
    }
}

/// The class of a code point for the o200k family and whether it belongs to a
/// `[\p{Han}]+` run, which only the Han-aware scheme (Kimi) has.
pub open spec fn family_class(han: bool, cp: u32) -> (O200kCharClass, bool) {
    if han {
        (kimi_class(cp).base_spec(), kimi_class(cp).is_han_spec())
    } else {
        (o200k_class(cp), false)
    }
}

/// A code point is in a Han class of the Kimi scheme exactly if it is
/// `\p{Han}`, and any other code point keeps its o200k class.
pub proof fn law_kimi_refines_o200k(cp: u32)
    ensures
        kimi_class(cp).is_han_spec() <==> is_han_cp(cp),
        !is_han_cp(cp) ==> kimi_class(cp).base_spec() == o200k_class(cp),
{
}

/// As the Unicode data has it: what is `\p{Han}` has no case and is no white
/// space.
pub open spec fn han_is_caseless(cp: u32) -> bool {
    is_han_cp(cp) ==> !(o200k_class(cp) is Upper) && !(o200k_class(cp) is Lower) && !(o200k_class(
        cp,
    ) is Whitespace)
}

/// Off the Han-aware scheme, the effective class of a code point is its o200k
/// class and no code point belongs to a Han run. On it, `\p{Han}` does, and the
/// class is the o200k class but for the marks of Han, which are no letters of
/// any run there.
pub proof fn law_family_class(cp: u32)
    ensures
        family_class(false, cp) == (o200k_class(cp), false),
        family_class(true, cp).1 == is_han_cp(cp),
        han_is_caseless(cp) ==> family_class(true, cp).0 == if is_han_cp(cp) && o200k_class(
            cp,
        ) is Mark {
            O200kCharClass::Other
        } else {
            o200k_class(cp)
        },
{
}

} // verus!
