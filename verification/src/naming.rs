//! Names of generated constructors: snake case, prefixes, collisions.

use vstd::prelude::*;
use crate::text::{chars_of, str_eq};
use crate::json::{push_char, push_str};

verus! {

/// Whether `c` is an ASCII upper-case letter.
pub open spec fn is_upper(c: char) -> bool {
    'A' <= c <= 'Z'
}

/// Whether `c` is an ASCII lower-case letter.
pub open spec fn is_lower(c: char) -> bool {
    'a' <= c <= 'z'
}

/// The lower-case form of an ASCII upper-case letter.
pub open spec fn lower_of(c: char) -> char {
    ((c as u32) + 32) as char
}

/// What character `i` of `s` becomes in snake case: an upper-case letter
/// becomes lower case, preceded by `_` when it follows a lower-case letter
/// or starts a new word before a lower-case one.
pub open spec fn snake_piece(s: Seq<char>, i: int) -> Seq<char> {
    if is_upper(s[i]) {
        if i > 0 && (is_lower(s[i - 1]) || (i + 1 < s.len() && is_lower(s[i + 1]))) {
            seq!['_', lower_of(s[i])]
        } else {
            seq![lower_of(s[i])]
        }
    } else {
        seq![s[i]]
    }
}

/// The snake-case form of the first `n` characters of `s`.
pub open spec fn snake_prefix(s: Seq<char>, n: nat) -> Seq<char>
    decreases n,
{
    if n == 0 || n > s.len() {
        Seq::empty()
    } else {
        snake_prefix(s, (n - 1) as nat) + snake_piece(s, n - 1)
    }
}

/// The snake-case form of `s`.
pub open spec fn snake_case(s: Seq<char>) -> Seq<char> {
    snake_prefix(s, s.len())
}

fn is_ascii_upper(c: char) -> (r: bool)
    ensures
        r == is_upper(c),
{
    'A' <= c && c <= 'Z'
}

fn is_ascii_lower(c: char) -> (r: bool)
    ensures
        r == is_lower(c),
{
    'a' <= c && c <= 'z'
}

fn to_ascii_lower(c: char) -> (r: char)
    requires
        is_upper(c),
    ensures
        r == lower_of(c),
{
    let v: u8 = ((c as u32) + 32) as u8;
    v as char
}

/// Converts a `CamelCase` name to `snake_case`.
pub fn to_snake_case(input: &str) -> (out: String)
    ensures
        out@ == snake_case(input@),
{
    let chars = chars_of(input);
    let mut out = String::new();
    let mut idx: usize = 0;
    while idx < chars.len()
        invariant
            chars@ == input@,
            idx <= chars@.len(),
            out@ == snake_prefix(chars@, idx as nat),
        decreases chars@.len() - idx,
    {
        let ch = chars[idx];
        if is_ascii_upper(ch) {
            if idx > 0 {
                let prev = chars[idx - 1];
                let next_is_lower = idx + 1 < chars.len() && is_ascii_lower(chars[idx + 1]);
                if is_ascii_lower(prev) || next_is_lower {
                    push_char(&mut out, '_');
                }
            }
            push_char(&mut out, to_ascii_lower(ch));
        } else {
            push_char(&mut out, ch);
        }
        assert(out@ =~= snake_prefix(chars@, idx as nat + 1));
        idx += 1;
    }
    out
}

/// The constructor name of a variant: its snake-case name, after
/// `prefix` and `_` when there is a prefix.
pub open spec fn spec_constructor_name(variant: Seq<char>, prefix: Seq<char>) -> Seq<char> {
    if prefix.len() == 0 {
        snake_case(variant)
    } else {
        prefix + seq!['_'] + snake_case(variant)
    }
}

/// The constructor name of a variant.
pub fn constructor_name(variant_name: &str, constructor_prefix: &str) -> (name: String)
    ensures
        name@ == spec_constructor_name(variant_name@, constructor_prefix@),
{
    let base = to_snake_case(variant_name);
    if constructor_prefix.is_empty() {
        base
    } else {
        let mut out = String::new();
        push_str(&mut out, constructor_prefix);
        push_char(&mut out, '_');
        push_str(&mut out, base.as_str());
        out
    }
}

/// The name of the constructor that wraps a variant in a report.
pub fn report_constructor_name(constructor: &str) -> (name: String)
    ensures
        name@ == constructor@ + "_report"@,
{
    let mut out = String::new();
    push_str(&mut out, constructor);
    push_str(&mut out, "_report");
    out
}

/// Whether a constructor prefix is acceptable: empty, or made of lower-case
/// letters, digits and underscores.
pub open spec fn valid_constructor_prefix(p: Seq<char>) -> bool {
    forall|i: int| 0 <= i < p.len() ==> is_lower(#[trigger] p[i]) || ('0' <= p[i] <= '9') || p[i] == '_'
}

/// Checks a constructor prefix.
pub fn is_valid_constructor_prefix(prefix: &str) -> (r: bool)
    ensures
        r == valid_constructor_prefix(prefix@),
{
    let chars = chars_of(prefix);
    let mut i: usize = 0;
    while i < chars.len()
        invariant
            chars@ == prefix@,
            i <= chars@.len(),
            forall|j: int| 0 <= j < i ==> is_lower(#[trigger] chars@[j]) || ('0' <= chars@[j] <= '9') || chars@[j] == '_',
        decreases chars@.len() - i,
    {
        let c = chars[i];
        if !(is_ascii_lower(c) || ('0' <= c && c <= '9') || c == '_') {
            return false;
        }
        i += 1;
    }
    true
}

/// The constructor names of `variants`, in order.
pub open spec fn constructor_names(variants: Seq<Seq<char>>, prefix: Seq<char>) -> Seq<Seq<char>> {
    variants.map_values(|v: Seq<char>| spec_constructor_name(v, prefix))
}

/// Names the constructors of `variants`; fails with the first name that an
/// earlier variant already took.
pub fn variant_constructor_names(variants: &Vec<String>, prefix: &str) -> (r: Result<Vec<String>, String>)
    ensures
        r matches Ok(names) ==> names@.map_values(|s: String| s@) == constructor_names(variants@.map_values(|s: String| s@), prefix@)
            && (forall|i: int, j: int| 0 <= i < j < names@.len() ==> names@[i]@ != names@[j]@),
        r is Ok <==> (forall|i: int, j: int| 0 <= i < j < variants@.len()
            ==> spec_constructor_name(variants@[i]@, prefix@) != spec_constructor_name(variants@[j]@, prefix@)),
        r matches Err(n) ==> exists|i: int, j: int| 0 <= i < j < variants@.len()
            && spec_constructor_name(variants@[i]@, prefix@) == n@ && spec_constructor_name(variants@[j]@, prefix@) == n@,
{
    let mut names: Vec<String> = Vec::new();
    let mut j: usize = 0;
    while j < variants.len()
        invariant
            j <= variants@.len(),
            names@.len() == j,
            forall|k: int| 0 <= k < j ==> (#[trigger] names@[k])@ == spec_constructor_name(variants@[k]@, prefix@),
            forall|a: int, b: int| 0 <= a < b < j ==> names@[a]@ != names@[b]@,
        decreases variants@.len() - j,
    {
        let name = constructor_name(variants[j].as_str(), prefix);
        let ghost names0 = names@;
        let mut i: usize = 0;
        while i < names.len()
            invariant
                j < variants@.len(),
                names@.len() == j,
                forall|k: int| 0 <= k < j ==> (#[trigger] names@[k])@ == spec_constructor_name(variants@[k]@, prefix@),
                name@ == spec_constructor_name(variants@[j as int]@, prefix@),
                i <= names@.len(),
                forall|k: int| 0 <= k < i ==> names@[k]@ != name@,
            decreases names@.len() - i,
        {
            if str_eq(names[i].as_str(), name.as_str()) {
                proof {
                    assert(names@[i as int]@ == spec_constructor_name(variants@[i as int]@, prefix@));
                    assert(!(forall|a: int, b: int| 0 <= a < b < variants@.len()
                        ==> spec_constructor_name(variants@[a]@, prefix@) != spec_constructor_name(variants@[b]@, prefix@))) by {
                        assert(spec_constructor_name(variants@[i as int]@, prefix@) == spec_constructor_name(variants@[j as int]@, prefix@));
                    }
                }
                return Err(name);
            }
            i += 1;
        }
        names.push(name);
        proof {
            assert forall|a: int, b: int| 0 <= a < b < j + 1 implies names@[a]@ != names@[b]@ by {
                if b == j {
                    assert(names@[a] == names0[a]);
                }
            }
        }
        j += 1;
    }
    proof {
        assert(names@.map_values(|s: String| s@) =~= constructor_names(variants@.map_values(|s: String| s@), prefix@));
        assert forall|a: int, b: int| 0 <= a < b < variants@.len() implies
            spec_constructor_name(variants@[a]@, prefix@) != spec_constructor_name(variants@[b]@, prefix@) by {
            assert(names@[a]@ == spec_constructor_name(variants@[a]@, prefix@));
            assert(names@[b]@ == spec_constructor_name(variants@[b]@, prefix@));
        }
    }
    Ok(names)
}

/// Snake case puts a word break before every capital that begins a word:
/// an upper-case letter after the first position that is followed by a
/// lower-case letter becomes `_` and its lower-case form, whatever comes
/// before it (a digit or a capital too), and an upper-case letter after a
/// lower-case one does the same. The output of the first `i` characters is
/// never changed by what follows.
pub proof fn law_snake_case_breaks_before_words(s: Seq<char>, i: int)
    requires
        0 < i < s.len(),
        is_upper(s[i]),
        is_lower(s[i - 1]) || (i + 1 < s.len() && is_lower(s[i + 1])),
    ensures
        snake_prefix(s, (i + 1) as nat) == snake_prefix(s, i as nat) + seq!['_', lower_of(s[i])],
        snake_prefix(s, (i + 1) as nat).is_prefix_of(snake_case(s)),
{
    lemma_snake_prefix_grows(s, (i + 1) as nat, s.len());
}

proof fn lemma_snake_prefix_grows(s: Seq<char>, n: nat, m: nat)
    requires
        n <= m <= s.len(),
    ensures
        snake_prefix(s, n).is_prefix_of(snake_prefix(s, m)),
    decreases m - n,
{
    if n < m {
        lemma_snake_prefix_grows(s, n, (m - 1) as nat);
        let a = snake_prefix(s, n);
        let b = snake_prefix(s, (m - 1) as nat);
        let c = snake_prefix(s, m);
        assert(c == b + snake_piece(s, m - 1));
        assert forall|k: int| 0 <= k < a.len() implies c[k] == a[k] by {
            assert(b[k] == a[k]);
        }
    }
}

/// Converting to snake case leaves no upper-case letter.
pub proof fn law_snake_case_has_no_capitals(s: Seq<char>)
    ensures
        forall|k: int| 0 <= k < snake_case(s).len() ==> !is_upper(#[trigger] snake_case(s)[k]),
{
    lemma_snake_prefix_lower(s, s.len());
}

proof fn lemma_snake_prefix_lower(s: Seq<char>, n: nat)
    ensures
        forall|k: int| 0 <= k < snake_prefix(s, n).len() ==> !is_upper(#[trigger] snake_prefix(s, n)[k]),
    decreases n,
{
    if n > 0 && n <= s.len() {
        lemma_snake_prefix_lower(s, (n - 1) as nat);
        let a = snake_prefix(s, (n - 1) as nat);
        let p = snake_piece(s, n - 1);
        assert forall|k: int| 0 <= k < snake_prefix(s, n).len() implies !is_upper(#[trigger] snake_prefix(s, n)[k]) by {
            if k < a.len() {
                assert(snake_prefix(s, n)[k] == a[k]);
            } else {
                assert(snake_prefix(s, n)[k] == p[k - a.len()]);
                if is_upper(s[n - 1]) {
                    let c = s[n - 1];
                    assert(('A' as u32) <= (c as u32) <= ('Z' as u32));
                    assert(!is_upper(lower_of(c)));
                }
            }
        }
    }
}

/// Every character other than an upper-case letter is copied as it is, and
/// an upper-case letter that starts no new word (the first character, or
/// one neither after a lower-case letter nor before one) becomes its
/// lower-case form with no `_` before it.
pub proof fn law_snake_case_copies_and_lowers(s: Seq<char>, i: int)
    requires
        0 <= i < s.len(),
    ensures
        !is_upper(s[i]) ==> snake_prefix(s, (i + 1) as nat) == snake_prefix(s, i as nat) + seq![s[i]],
        is_upper(s[i]) && (i == 0 || (!is_lower(s[i - 1]) && !(i + 1 < s.len() && is_lower(s[i + 1]))))
            ==> snake_prefix(s, (i + 1) as nat) == snake_prefix(s, i as nat) + seq![lower_of(s[i])],
{
}

/// The lower-case form of an upper-case letter is the letter at the same
/// place in the lower-case alphabet.
pub proof fn law_lower_of_keeps_the_letter(c: char)
    requires
        is_upper(c),
    ensures
        is_lower(lower_of(c)),
        (lower_of(c) as nat) - ('a' as nat) == (c as nat) - ('A' as nat),
{
}

} // verus!
