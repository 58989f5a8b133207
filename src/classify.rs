//! Classification of characters as CJK ideographs by code point.
use vstd::prelude::*;

verus! {

/// The code point `cp` lies in one of the Unicode blocks of Han ideographs:
/// the unified ideographs, their extensions A to I, and the compatibility
/// ideographs supplement.
pub open spec fn is_cjk_code_point(cp: u32) -> bool {
    (0x3400 <= cp && cp <= 0x4DBF)          // Extension A
    || (0x4E00 <= cp && cp <= 0x9FFF)       // Unified Ideographs
    || (0x20000 <= cp && cp <= 0x2A6DF)     // Extension B
    || (0x2A700 <= cp && cp <= 0x2B73F)     // Extension C
    || (0x2B740 <= cp && cp <= 0x2B81F)     // Extension D
    || (0x2B820 <= cp && cp <= 0x2CEAF)     // Extension E
    || (0x2CEB0 <= cp && cp <= 0x2EBEF)     // Extension F
    || (0x2EBF0 <= cp && cp <= 0x2EE5F)     // Extension I
    || (0x2F800 <= cp && cp <= 0x2FA1F)     // Compatibility Ideographs Supplement
    || (0x30000 <= cp && cp <= 0x3134F)     // Extension G
    || (0x31350 <= cp && cp <= 0x323AF)     // Extension H
}

/// The character `c` is a CJK ideograph.
pub open spec fn is_cjk_ideograph(c: char) -> bool {
    is_cjk_code_point(c as u32)
}

/// Tells whether `c` is a CJK ideograph. Total and free of side effects.
pub fn is_chinese_character(c: &char) -> (r: bool)
    ensures
        r == is_cjk_ideograph(*c),
{
    let cp = *c as u32;
    (0x3400 <= cp && cp <= 0x4DBF)
    || (0x4E00 <= cp && cp <= 0x9FFF)
    || (0x20000 <= cp && cp <= 0x2A6DF)
    || (0x2A700 <= cp && cp <= 0x2B73F)
    || (0x2B740 <= cp && cp <= 0x2B81F)
    || (0x2B820 <= cp && cp <= 0x2CEAF)
    || (0x2CEB0 <= cp && cp <= 0x2EBEF)
    || (0x2EBF0 <= cp && cp <= 0x2EE5F)
    || (0x2F800 <= cp && cp <= 0x2FA1F)
    || (0x30000 <= cp && cp <= 0x3134F)
    || (0x31350 <= cp && cp <= 0x323AF)
}

/// Classification is a function of the character alone: two calls on the
/// same character give the same answer.
pub proof fn lemma_classification_is_pure(a: char, b: char)
    requires
        a == b,
    ensures
        is_cjk_ideograph(a) == is_cjk_ideograph(b),
{
}

} // verus!
