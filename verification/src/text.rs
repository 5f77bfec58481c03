//! Character-level text helpers: prefixes and substrings.

use vstd::prelude::*;
use vstd::std_specs::iter::IteratorSpec;

verus! {

/// Whether `needle` occurs in `s` as a contiguous run of characters.
pub open spec fn has_substring(s: Seq<char>, needle: Seq<char>) -> bool {
    exists|i: int| 0 <= i && i + needle.len() <= s.len() && #[trigger] s.subrange(i, i + needle.len()) == needle
}

/// The characters of a string slice, in order.
pub fn chars_of(s: &str) -> (v: Vec<char>)
    ensures
        v@ == s@,
{
    let mut v: Vec<char> = Vec::new();
    for c in it: s.chars()
        invariant
            it.seq() == s@,
            v@ == it.seq().take(it.index() as int),
    {
        v.push(c);
    }
    assert(v@ =~= s@);
    v
}

/// Whether `prefix` starts `s`.
pub fn starts_with_chars(s: &Vec<char>, prefix: &Vec<char>) -> (r: bool)
    ensures
        r == prefix@.is_prefix_of(s@),
{
    if prefix.len() > s.len() {
        return false;
    }
    let mut i: usize = 0;
    while i < prefix.len()
        invariant
            prefix@.len() <= s@.len(),
            i <= prefix@.len(),
            forall|j: int| 0 <= j < i ==> prefix@[j] == s@[j],
        decreases prefix@.len() - i,
    {
        if prefix[i] != s[i] {
            return false;
        }
        i += 1;
    }
    assert(prefix@ =~= s@.subrange(0, prefix@.len() as int));
    true
}

/// Whether `needle` occurs in `s`.
pub fn contains_chars(s: &Vec<char>, needle: &Vec<char>) -> (r: bool)
    ensures
        r == has_substring(s@, needle@),
{
    if needle.len() > s.len() {
        return false;
    }
    if needle.len() == 0 {
        let ghost i: int = 0;
        assert(s@.subrange(i, i + needle@.len()) =~= needle@);
        return true;
    }
    let last = s.len() - needle.len();
    let mut start: usize = 0;
    while start <= last
        invariant
            last + needle@.len() == s@.len(),
            s@.len() <= usize::MAX,
            needle@.len() > 0,
            start <= last + 1,
            forall|i: int| 0 <= i < start ==> #[trigger] s@.subrange(i, i + needle@.len()) != needle@,
        decreases last + 1 - start,
    {
        let mut j: usize = 0;
        let mut same = true;
        while j < needle.len()
            invariant
                last + needle@.len() == s@.len(),
                s@.len() <= usize::MAX,
                start <= last,
                j <= needle@.len(),
                same == (forall|k: int| 0 <= k < j ==> s@[start + k] == needle@[k]),
            decreases needle@.len() - j,
        {
            if s[start + j] != needle[j] {
                same = false;
            }
            j += 1;
        }
        if same {
            assert(s@.subrange(start as int, start + needle@.len()) =~= needle@);
            return true;
        }
        assert(!(forall|k: int| 0 <= k < needle@.len() ==> s@[start + k] == needle@[k]));
        let ghost k = choose|k: int| 0 <= k < needle@.len() && s@[start + k] != needle@[k];
        assert(s@.subrange(start as int, start + needle@.len())[k] != needle@[k]);
        start += 1;
    }
    assert forall|i: int| 0 <= i && i + needle@.len() <= s@.len() implies #[trigger] s@.subrange(i, i + needle@.len()) != needle@ by {
        assert(i < start);
    }
    false
}

/// Whether two string slices hold the same characters.
pub fn str_eq(a: &str, b: &str) -> (r: bool)
    ensures
        r == (a@ == b@),
{
    let x = chars_of(a);
    let y = chars_of(b);
    if x.len() != y.len() {
        return false;
    }
    let mut i: usize = 0;
    while i < x.len()
        invariant
            x@ == a@,
            y@ == b@,
            x@.len() == y@.len(),
            i <= x@.len(),
            forall|j: int| 0 <= j < i ==> x@[j] == y@[j],
        decreases x@.len() - i,
    {
        if x[i] != y[i] {
            return false;
        }
        i += 1;
    }
    assert(x@ =~= y@);
    true
}

} // verus!
