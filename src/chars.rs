//! Helpers on lists of characters: sorting, and reading one character from
//! each of a list of strings.
use vstd::prelude::*;

verus! {

broadcast use {vstd::seq_lib::group_to_multiset_ensures, vstd::string::axiom_spec_iter, vstd::string::next_postcondition};

/// `s` is in increasing order of code points.
pub open spec fn sorted_by_code_point(s: Seq<char>) -> bool {
    forall|i: int, j: int| 0 <= i < j < s.len() ==> (s[i] as u32) <= (s[j] as u32)
}

/// Relies on the standard library's `<[char]>::sort`: it reorders the slice so
/// that it is in increasing order, and `char` is ordered by code point.
#[verifier::external_body]
fn sort_slice(v: &mut Vec<char>)
    ensures
        final(v)@.to_multiset() == old(v)@.to_multiset(),
        sorted_by_code_point(final(v)@),
{
    v.as_mut_slice().sort();
}

/// Sorts the characters by code point.
pub fn sort_kanji(chars: &mut Vec<char>)
    ensures
        final(chars)@.to_multiset() == old(chars)@.to_multiset(),
        final(chars)@.len() == old(chars)@.len(),
        sorted_by_code_point(final(chars)@),
{
    sort_slice(chars);
    proof {
        assert(final(chars)@.len() == final(chars)@.to_multiset().len());
        assert(old(chars)@.len() == old(chars)@.to_multiset().len());
    }
}

/// A string was expected to hold exactly one character.
#[derive(Debug, Clone, Copy, PartialEq, Eq, Structural)]
pub struct InvalidArgument {
    /// The position, in the list, of the first string that does not.
    pub index: usize,
}

/// Every string of `strs` holds exactly one character.
pub open spec fn all_single(strs: Seq<String>) -> bool {
    forall|i: int| 0 <= i < strs.len() ==> (#[trigger] strs[i])@.len() == 1
}

/// The one character of `s`, if it holds exactly one.
fn single_char(s: &String) -> (r: Option<char>)
    ensures
        s@.len() == 1 ==> r == Some(s@[0]),
        s@.len() != 1 ==> r is None,
{
    let mut it = s.as_str().chars();
    let first = it.next();
    let second = it.next();
    match (first, second) {
        (Some(c), None) => Some(c),
        _ => None,
    }
}

/// The single character of each string, in order. A string that holds no
/// character or more than one is refused, and the first such one is named.
pub fn vec_string_to_vec_char(one_char_strings: Vec<String>) -> (r: Result<Vec<char>, InvalidArgument>)
    ensures
        r is Ok <==> all_single(one_char_strings@),
        r matches Ok(v) ==> v@.len() == one_char_strings@.len() && forall|i: int|
            0 <= i < v@.len() ==> #[trigger] v@[i] == one_char_strings@[i]@[0],
        r matches Err(e) ==> e.index < one_char_strings@.len()
            && one_char_strings@[e.index as int]@.len() != 1
            && all_single(one_char_strings@.take(e.index as int)),
{
    let mut out: Vec<char> = Vec::new();
    let mut i: usize = 0;
    while i < one_char_strings.len()
        invariant
            i <= one_char_strings.len(),
            out@.len() == i,
            all_single(one_char_strings@.take(i as int)),
            forall|j: int| 0 <= j < i ==> #[trigger] out@[j] == one_char_strings@[j]@[0],
        decreases one_char_strings.len() - i,
    {
        match single_char(&one_char_strings[i]) {
            Some(c) => {
                out.push(c);
                i = i + 1;
                assert(all_single(one_char_strings@.take(i as int))) by {
                    assert forall|j: int| 0 <= j < i implies (#[trigger] one_char_strings@.take(i as int)[j])@.len() == 1 by {
                        if j < i - 1 {
                            assert(one_char_strings@.take(i - 1)[j] == one_char_strings@[j]);
                        }
                    }
                }
            },
            None => {
                return Err(InvalidArgument { index: i });
            },
        }
    }
    assert(one_char_strings@.take(one_char_strings.len() as int) == one_char_strings@);
    Ok(out)
}

} // verus!
