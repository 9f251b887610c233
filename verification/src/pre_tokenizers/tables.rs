//! Packed class tables: one load per character in place of a property lookup.

use vstd::prelude::*;

use super::unicode::{
    category_group_ranges, char_class, covered, family_class, han_is_caseless, in_code_space,
    is_han_cp, kimi_class, law_family_class, letter_category_ranges, o200k_class, script_ranges, white_space_ranges, CategoryGroup,
    CharClass, KimiCharClass, LetterCategory, MAX_CP, NamedScript, O200kCharClass,
};

verus! {

/// The number of code points.
pub const CODE_SPACE: usize = 0x11_0000;

impl CharClass {
    /// The two-bit code of the class in a packed table.
    pub open spec fn code(self) -> u8 {
        match self {
            CharClass::Letter => 0,
            CharClass::Number => 1,
            CharClass::Whitespace => 2,
            CharClass::Other => 3,
        }
    }
}

impl O200kCharClass {
    /// The four-bit code of the class in a packed table.
    pub open spec fn code(self) -> u8 {
        match self {
            O200kCharClass::Upper => 0,
            O200kCharClass::Lower => 1,
            O200kCharClass::Caseless => 2,
            O200kCharClass::Mark => 3,
            O200kCharClass::Number => 4,
            O200kCharClass::Whitespace => 5,
            O200kCharClass::Other => 6,
        }
    }
}

impl KimiCharClass {
    /// The four-bit code of the class in a packed table.
    pub open spec fn code(self) -> u8 {
        match self {
            KimiCharClass::Upper => 0,
            KimiCharClass::Lower => 1,
            KimiCharClass::Caseless => 2,
            KimiCharClass::Mark => 3,
            KimiCharClass::Number => 4,
            KimiCharClass::Whitespace => 5,
            KimiCharClass::Other => 6,
            KimiCharClass::Han => 7,
            KimiCharClass::HanNumber => 8,
            KimiCharClass::HanOther => 9,
        }
    }
}

/// The code that a table with four two-bit codes per byte holds for `cp`.
pub open spec fn pair_code(table: Seq<u8>, cp: u32) -> u8 {
    (table[(cp / 4) as int] >> ((cp % 4) * 2) as u8) & 3
}

/// The code that a table with two four-bit codes per byte holds for `cp`.
pub open spec fn nibble_code(table: Seq<u8>, cp: u32) -> u8 {
    (table[(cp / 2) as int] >> ((cp % 2) * 4) as u8) & 0xF
}

/// Sets the entry of every code point in `ranges` to `class`.
fn fill_ranges(classes: &mut Vec<u8>, ranges: &Vec<(u32, u32)>, class: u8)
    requires
        old(classes).len() == CODE_SPACE,
        in_code_space(ranges@),
    ensures
        final(classes).len() == CODE_SPACE,
        forall|cp: u32|
            cp <= MAX_CP ==> #[trigger] final(classes)[cp as int] == if covered(ranges@, cp) {
                class
            } else {
                old(classes)[cp as int]
            },
{
    let ghost before = classes@;
    let mut i: usize = 0;
    while i < ranges.len()
        invariant
            i <= ranges.len(),
            classes.len() == CODE_SPACE,
            before.len() == CODE_SPACE,
            in_code_space(ranges@),
            forall|cp: u32|
                cp <= MAX_CP ==> #[trigger] classes[cp as int] == if covered(
                    ranges@.take(i as int),
                    cp,
                ) {
                    class
                } else {
                    before[cp as int]
                },
        decreases ranges.len() - i,
    {
        let (start, end): (u32, u32) = ranges[i];
        let ghost done = classes@;
        let mut cp: u32 = start;
        while cp <= end
            invariant
                start <= cp <= end + 1,
                end <= MAX_CP,
                done.len() == CODE_SPACE,
                classes.len() == CODE_SPACE,
                forall|c: int|
                    0 <= c < CODE_SPACE ==> #[trigger] classes[c] == if start <= c < cp {
                        class
                    } else {
                        done[c]
                    },
            decreases end + 1 - cp,
        {
            classes.set(cp as usize, class);
            cp += 1;
        }
        proof {
            let shorter = ranges@.take(i as int);
            let longer = ranges@.take(i + 1);
            assert forall|c: u32| c <= MAX_CP implies #[trigger] classes[c as int] == if covered(
                longer,
                c,
            ) {
                class
            } else {
                before[c as int]
            } by {
                if covered(shorter, c) {
                    let j = choose|j: int|
                        0 <= j < shorter.len() && (#[trigger] shorter[j]).0 <= c <= shorter[j].1;
                } else if start <= c <= end {
                    assert(longer[i as int] == (start, end));
                } else if covered(longer, c) {
                    let j = choose|j: int|
                        0 <= j < longer.len() && (#[trigger] longer[j]).0 <= c <= longer[j].1;
                }
            }
        }
        i += 1;
    }
    assert(ranges@.take(ranges.len() as int) =~= ranges@);
}

/// Builds the Qwen2 table: two bits per code point, four code points per byte.
pub fn build_class_table() -> (table: Vec<u8>)
    ensures
        table.len() == CODE_SPACE / 4,
        forall|cp: u32|
            cp <= MAX_CP ==> #[trigger] pair_code(table@, cp) == char_class(cp).code(),
{
    let mut classes: Vec<u8> = vec![3u8; CODE_SPACE];
    let letters = category_group_ranges(CategoryGroup::Letter);
    fill_ranges(&mut classes, &letters, 0);
    let numbers = category_group_ranges(CategoryGroup::Number);
    fill_ranges(&mut classes, &numbers, 1);
    let spaces = white_space_ranges();
    fill_ranges(&mut classes, &spaces, 2);

    let mut packed: Vec<u8> = Vec::new();
    let mut i: usize = 0;
    while i < CODE_SPACE / 4
        invariant
            i <= CODE_SPACE / 4,
            packed.len() == i,
            classes.len() == CODE_SPACE,
            forall|cp: u32|
                cp <= MAX_CP ==> #[trigger] classes[cp as int] == char_class(cp).code(),
            forall|cp: u32|
                cp < i * 4 ==> #[trigger] pair_code(packed@, cp) == char_class(cp).code(),
        decreases CODE_SPACE / 4 - i,
    {
        let a: u8 = classes[i * 4];
        let b: u8 = classes[i * 4 + 1];
        let c: u8 = classes[i * 4 + 2];
        let d: u8 = classes[i * 4 + 3];
        let byte: u8 = a | b << 2 | c << 4 | d << 6;
        let ghost before = packed@;
        packed.push(byte);
        proof {
            assert(a < 4 && b < 4 && c < 4 && d < 4 ==> {
                let w = a | b << 2 | c << 4 | d << 6;
                &&& (w >> 0u8) & 3 == a
                &&& (w >> 2u8) & 3 == b
                &&& (w >> 4u8) & 3 == c
                &&& (w >> 6u8) & 3 == d
            }) by (bit_vector);
            assert forall|cp: u32| cp < (i + 1) * 4 implies #[trigger] pair_code(packed@, cp)
                == char_class(cp).code() by {
                if cp < i * 4 {
                    assert(pair_code(before, cp) == char_class(cp).code());
                }
            }
        }
        i += 1;
    }
    packed
}

/// One o200k class code per code point: the unpacked form that both nibble
/// tables start from.
pub fn o200k_classes_unpacked() -> (classes: Vec<u8>)
    ensures
        classes.len() == CODE_SPACE,
        forall|cp: u32| cp <= MAX_CP ==> #[trigger] classes[cp as int] == o200k_class(cp).code(),
{
    let mut classes: Vec<u8> = vec![6u8; CODE_SPACE];
    let upper = letter_category_ranges(LetterCategory::Uppercase);
    fill_ranges(&mut classes, &upper, 0);
    let title = letter_category_ranges(LetterCategory::Titlecase);
    fill_ranges(&mut classes, &title, 0);
    let lower = letter_category_ranges(LetterCategory::Lowercase);
    fill_ranges(&mut classes, &lower, 1);
    let modifier = letter_category_ranges(LetterCategory::Modifier);
    fill_ranges(&mut classes, &modifier, 2);
    let other = letter_category_ranges(LetterCategory::Other);
    fill_ranges(&mut classes, &other, 2);
    let marks = category_group_ranges(CategoryGroup::Mark);
    fill_ranges(&mut classes, &marks, 3);
    let numbers = category_group_ranges(CategoryGroup::Number);
    fill_ranges(&mut classes, &numbers, 4);
    let spaces = white_space_ranges();
    fill_ranges(&mut classes, &spaces, 5);
    classes
}

/// Packs two four-bit codes per byte, the first one low; an odd last code is
/// dropped.
pub fn pack_nibbles(classes: &[u8]) -> (packed: Vec<u8>)
    ensures
        packed.len() == classes.len() / 2,
        forall|i: int|
            0 <= i < packed.len() ==> #[trigger] packed[i] == classes[2 * i] | classes[2 * i + 1]
                << 4,
{
    let mut packed: Vec<u8> = Vec::new();
    let mut i: usize = 0;
    while i < classes.len() / 2
        invariant
            i <= classes.len() / 2,
            packed.len() == i,
            forall|j: int|
                0 <= j < i ==> #[trigger] packed[j] == classes[2 * j] | classes[2 * j + 1] << 4,
        decreases classes.len() / 2 - i,
    {
        packed.push(classes[2 * i] | classes[2 * i + 1] << 4);
        i += 1;
    }
    packed
}

/// A nibble table holds the codes it was packed from.
proof fn lemma_nibbles(classes: Seq<u8>, packed: Seq<u8>, cp: u32)
    requires
        classes.len() == CODE_SPACE,
        packed.len() == CODE_SPACE / 2,
        forall|i: int|
            0 <= i < packed.len() ==> #[trigger] packed[i] == classes[2 * i] | classes[2 * i + 1]
                << 4,
        forall|i: int| 0 <= i < classes.len() ==> #[trigger] classes[i] < 16,
        cp <= MAX_CP,
    ensures
        nibble_code(packed, cp) == classes[cp as int],
{
    let i = (cp / 2) as int;
    let low = classes[2 * i];
    let high = classes[2 * i + 1];
    assert(low < 16 && high < 16 ==> ((low | high << 4) >> 0u8) & 0xF == low && ((low | high << 4)
        >> 4u8) & 0xF == high) by (bit_vector);
}

/// Builds the Kimi table: four bits per code point, two code points per byte.
pub fn build_kimi_class_table() -> (table: Vec<u8>)
    ensures
        table.len() == CODE_SPACE / 2,
        forall|cp: u32|
            cp <= MAX_CP ==> #[trigger] nibble_code(table@, cp) == kimi_class(cp).code(),
        forall|cp: u32| cp <= MAX_CP ==> #[trigger] han_is_caseless(cp),
{
    let mut classes = o200k_classes_unpacked();
    let han = script_ranges(NamedScript::Han);
    assert forall|cp: u32| cp <= MAX_CP implies #[trigger] han_is_caseless(cp) by {
        assert(covered(han@, cp) <==> is_han_cp(cp));
    }
    let ghost base = classes@;
    let mut i: usize = 0;
    while i < han.len()
        invariant
            i <= han.len(),
            classes.len() == CODE_SPACE,
            base.len() == CODE_SPACE,
            in_code_space(han@),
            forall|cp: u32| cp <= MAX_CP ==> #[trigger] base[cp as int] == o200k_class(cp).code(),
            forall|cp: u32|
                cp <= MAX_CP ==> #[trigger] classes[cp as int] == if covered(
                    han@.take(i as int),
                    cp,
                ) {
                    han_code(base[cp as int])
                } else {
                    base[cp as int]
                },
        decreases han.len() - i,
    {
        let (start, end): (u32, u32) = han[i];
        let ghost done = classes@;
        let mut cp: u32 = start;
        while cp <= end
            invariant
                start <= cp <= end + 1,
                end <= MAX_CP,
                done.len() == CODE_SPACE,
                classes.len() == CODE_SPACE,
                forall|c: int|
                    0 <= c < CODE_SPACE ==> #[trigger] classes[c] == if start <= c < cp {
                        han_code(done[c])
                    } else {
                        done[c]
                    },
            decreases end + 1 - cp,
        {
            let slot: u8 = classes[cp as usize];
            let code: u8 = if slot == 4 || slot == 8 {
                8
            } else if slot == 6 || slot == 3 || slot == 9 {
                9
            } else {
                7
            };
            classes.set(cp as usize, code);
            cp += 1;
        }
        proof {
            let shorter = han@.take(i as int);
            let longer = han@.take(i + 1);
            assert forall|c: u32| c <= MAX_CP implies #[trigger] classes[c as int] == if covered(
                longer,
                c,
            ) {
                han_code(base[c as int])
            } else {
                base[c as int]
            } by {
                if covered(shorter, c) {
                    let j = choose|j: int|
                        0 <= j < shorter.len() && (#[trigger] shorter[j]).0 <= c <= shorter[j].1;
                } else if start <= c <= end {
                    assert(longer[i as int] == (start, end));
                } else if covered(longer, c) {
                    let j = choose|j: int|
                        0 <= j < longer.len() && (#[trigger] longer[j]).0 <= c <= longer[j].1;
                }
            }
        }
        i += 1;
    }
    assert(han@.take(han.len() as int) =~= han@);
    let table = pack_nibbles(classes.as_slice());
    proof {
        assert forall|c: int| 0 <= c < CODE_SPACE implies #[trigger] classes[c] == kimi_class(
            c as u32,
        ).code() by {
            let cp = c as u32;
        }
        assert forall|cp: u32| cp <= MAX_CP implies #[trigger] nibble_code(table@, cp)
            == kimi_class(cp).code() by {
            lemma_nibbles(classes@, table@, cp);
        }
    }
    table
}

/// The code of a Han code point, from its o200k code. Marks land with the
/// symbols: `&&[^\p{Han}]` evicts them from the letter brackets, leaving only
/// their role in a punctuation run. Codes that are Han already stay.
spec fn han_code(code: u8) -> u8 {
    if code == 4 || code == 8 {
        8
    } else if code == 6 || code == 3 || code == 9 {
        9
    } else {
        7
    }
}

/// The class tables of all schemes.
pub struct ClassTables {
    class: Vec<u8>,
    o200k: Vec<u8>,
    kimi: Vec<u8>,
}

impl ClassTables {
    /// The code that the Qwen2 table holds for a code point.
    pub closed spec fn class_code(self, cp: u32) -> u8 {
        pair_code(self.class@, cp)
    }

    /// The code that the o200k table holds for a code point.
    pub closed spec fn o200k_code(self, cp: u32) -> u8 {
        nibble_code(self.o200k@, cp)
    }

    /// The code that the Kimi table holds for a code point.
    pub closed spec fn kimi_code(self, cp: u32) -> u8 {
        nibble_code(self.kimi@, cp)
    }

    #[verifier::type_invariant]
    spec fn well_formed(self) -> bool {
        &&& self.class.len() == CODE_SPACE / 4
        &&& self.o200k.len() == CODE_SPACE / 2
        &&& self.kimi.len() == CODE_SPACE / 2
        &&& forall|cp: u32|
            cp <= MAX_CP ==> #[trigger] self.class_code(cp) == char_class(cp).code()
        &&& forall|cp: u32|
            cp <= MAX_CP ==> #[trigger] self.o200k_code(cp) == o200k_class(cp).code()
        &&& forall|cp: u32| cp <= MAX_CP ==> #[trigger] self.kimi_code(cp) == kimi_class(cp).code()
        &&& forall|cp: u32| cp <= MAX_CP ==> #[trigger] han_is_caseless(cp)
    }

    /// Builds the tables from the Unicode data: for each code point they hold
    /// its class in each scheme.
    pub fn new() -> (tables: ClassTables)
        ensures
            forall|cp: u32|
                cp <= MAX_CP ==> #[trigger] tables.class_code(cp) == char_class(cp).code(),
            forall|cp: u32|
                cp <= MAX_CP ==> #[trigger] tables.o200k_code(cp) == o200k_class(cp).code(),
            forall|cp: u32|
                cp <= MAX_CP ==> #[trigger] tables.kimi_code(cp) == kimi_class(cp).code(),
    {
        let class = build_class_table();
        let unpacked = o200k_classes_unpacked();
        let o200k = pack_nibbles(unpacked.as_slice());
        proof {
            assert forall|cp: u32| cp <= MAX_CP implies #[trigger] nibble_code(o200k@, cp)
                == o200k_class(cp).code() by {
                lemma_nibbles(unpacked@, o200k@, cp);
            }
        }
        let kimi = build_kimi_class_table();
        ClassTables { class, o200k, kimi }
    }

    /// Class of a code point for the Qwen2 schemes, with one table load.
    pub fn class_of(&self, cp: u32) -> (class: CharClass)
        requires
            cp <= MAX_CP,
        ensures
            class == char_class(cp),
    {
        proof {
            use_type_invariant(self);
            assert(self.class_code(cp) == char_class(cp).code());
            assert(cp >> 2 == cp / 4) by (bit_vector);
            assert(cp & 3 == cp % 4) by (bit_vector);
        }
        let byte: u8 = self.class[(cp >> 2) as usize];
        match (byte >> ((cp & 3) * 2) as u8) & 3 {
            0 => CharClass::Letter,
            1 => CharClass::Number,
            2 => CharClass::Whitespace,
            _ => CharClass::Other,
        }
    }

    /// Class of a code point for the o200k scheme, with one table load.
    pub fn o200k_class_of(&self, cp: u32) -> (class: O200kCharClass)
        requires
            cp <= MAX_CP,
        ensures
            class == o200k_class(cp),
    {
        proof {
            use_type_invariant(self);
            assert(self.o200k_code(cp) == o200k_class(cp).code());
            assert(cp >> 1 == cp / 2) by (bit_vector);
            assert((cp & 1) << 2 == (cp % 2) * 4) by (bit_vector);
            assert((cp & 1) << 2 <= 4) by (bit_vector);
        }
        let byte: u8 = self.o200k[(cp >> 1) as usize];
        match (byte >> ((cp & 1) << 2) as u8) & 0xF {
            0 => O200kCharClass::Upper,
            1 => O200kCharClass::Lower,
            2 => O200kCharClass::Caseless,
            3 => O200kCharClass::Mark,
            4 => O200kCharClass::Number,
            5 => O200kCharClass::Whitespace,
            _ => O200kCharClass::Other,
        }
    }

    /// Class of a code point for the Kimi scheme, with one table load.
    pub fn kimi_class_of(&self, cp: u32) -> (class: KimiCharClass)
        requires
            cp <= MAX_CP,
        ensures
            class == kimi_class(cp),
    {
        proof {
            use_type_invariant(self);
            assert(self.kimi_code(cp) == kimi_class(cp).code());
            assert(cp >> 1 == cp / 2) by (bit_vector);
            assert((cp & 1) << 2 == (cp % 2) * 4) by (bit_vector);
            assert((cp & 1) << 2 <= 4) by (bit_vector);
        }
        let byte: u8 = self.kimi[(cp >> 1) as usize];
        match (byte >> ((cp & 1) << 2) as u8) & 0xF {
            0 => KimiCharClass::Upper,
            1 => KimiCharClass::Lower,
            2 => KimiCharClass::Caseless,
            3 => KimiCharClass::Mark,
            4 => KimiCharClass::Number,
            5 => KimiCharClass::Whitespace,
            6 => KimiCharClass::Other,
            7 => KimiCharClass::Han,
            8 => KimiCharClass::HanNumber,
            _ => KimiCharClass::HanOther,
        }
    }

    /// Effective o200k class of a code point plus whether it is a
    /// `[\p{Han}]+` member (always false off the Han-aware scheme). The class is
    /// the o200k class, but for the marks of Han on the Han-aware scheme.
    pub fn family_class_of<const HAN: bool>(&self, cp: u32) -> (class: (O200kCharClass, bool))
        requires
            cp <= MAX_CP,
        ensures
            class == family_class(HAN, cp),
            class.1 == (HAN && is_han_cp(cp)),
            class.0 == if HAN && is_han_cp(cp) && o200k_class(cp) is Mark {
                O200kCharClass::Other
            } else {
                o200k_class(cp)
            },
    {
        proof {
            use_type_invariant(self);
            assert(han_is_caseless(cp));
            law_family_class(cp);
        }
        if HAN {
            let k = self.kimi_class_of(cp);
            (k.base(), k.is_han())
        } else {
            (self.o200k_class_of(cp), false)
        }
    }
}

} // verus!
