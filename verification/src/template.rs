//! `#[display("...")]` templates: placeholders name fields (or tuple
//! indices) and become positional `{}` arguments; `{{` and `}}` stay
//! escaped.

use vstd::prelude::*;
use crate::text::{chars_of, str_eq};
use crate::json::{push_char, push_str};

verus! {

/// Why a display template was refused.
#[derive(Debug, Clone, PartialEq, Eq)]
pub enum TemplateError {
    /// A `{` with no `}` after it.
    Unclosed,
    /// A `{}` with nothing inside.
    EmptyPlaceholder,
    /// A placeholder that names no field; the name.
    UnknownPlaceholder(String),
    /// A `}` that closes nothing.
    UnmatchedClose,
}

/// A template error as plain values: its kind, and the unknown name.
pub open spec fn error_view(e: TemplateError) -> (int, Seq<char>) {
    match e {
        TemplateError::Unclosed => (0, Seq::empty()),
        TemplateError::EmptyPlaceholder => (1, Seq::empty()),
        TemplateError::UnknownPlaceholder(n) => (2, n@),
        TemplateError::UnmatchedClose => (3, Seq::empty()),
    }
}

/// Index of the first `}` at or after `j`.
pub open spec fn first_close(s: Seq<char>, j: int) -> Option<int>
    decreases s.len() - j,
{
    if j < 0 || j >= s.len() {
        None
    } else if s[j] == '}' {
        Some(j)
    } else {
        first_close(s, j + 1)
    }
}

/// Index of the first name equal to `key`.
pub open spec fn first_name(names: Seq<Seq<char>>, key: Seq<char>) -> Option<int> {
    if exists|k: int| 0 <= k < names.len() && names[k] == key {
        Some(choose|k: int| 0 <= k < names.len() && names[k] == key && forall|m: int| 0 <= m < k ==> names[m] != key)
    } else {
        None
    }
}

/// A rendering result: the format string with positional placeholders and
/// the indices of the names they stand for, or the first error.
pub type Rendered = Result<(Seq<char>, Seq<int>), (int, Seq<char>)>;

/// Puts `out` and `ord` before a rendering of the rest.
pub open spec fn prepend(out: Seq<char>, ord: Seq<int>, r: Rendered) -> Rendered {
    match r {
        Ok((o, d)) => Ok((out + o, ord + d)),
        Err(e) => Err(e),
    }
}

/// One step of rendering at position `i`: the text it emits, the name
/// indices it uses and where the next step starts, or the error it meets.
pub open spec fn render_step(s: Seq<char>, i: int, names: Seq<Seq<char>>) -> Result<(Seq<char>, Seq<int>, int), (int, Seq<char>)> {
    if s[i] == '{' {
        if i + 1 < s.len() && s[i + 1] == '{' {
            Ok((seq!['{', '{'], Seq::empty(), i + 2))
        } else {
            match first_close(s, i + 1) {
                None => Err((0, Seq::empty())),
                Some(end) => {
                    let key = s.subrange(i + 1, end);
                    if key.len() == 0 {
                        Err((1, Seq::empty()))
                    } else {
                        match first_name(names, key) {
                            None => Err((2, key)),
                            Some(k) => Ok((seq!['{', '}'], seq![k], end + 1)),
                        }
                    }
                }
            }
        }
    } else if s[i] == '}' {
        if i + 1 < s.len() && s[i + 1] == '}' {
            Ok((seq!['}', '}'], Seq::empty(), i + 2))
        } else {
            Err((3, Seq::empty()))
        }
    } else {
        Ok((seq![s[i]], Seq::empty(), i + 1))
    }
}

/// Renders `s` from position `i`, step by step.
pub open spec fn render_from(s: Seq<char>, i: int, names: Seq<Seq<char>>) -> Rendered
    decreases s.len() - i,
{
    if i < 0 || i >= s.len() {
        Ok((Seq::empty(), Seq::empty()))
    } else {
        match render_step(s, i, names) {
            Ok((o, d, n)) => if i < n <= s.len() {
                prepend(o, d, render_from(s, n, names))
            } else {
                Ok((o, d))
            },
            Err(e) => Err(e),
        }
    }
}

proof fn lemma_first_close(s: Seq<char>, j: int, end: int)
    requires
        0 <= j <= end < s.len(),
        s[end] == '}',
        forall|q: int| j <= q < end ==> s[q] != '}',
    ensures
        first_close(s, j) == Some(end),
    decreases end - j,
{
    if j < end {
        lemma_first_close(s, j + 1, end);
    }
}

proof fn lemma_no_close(s: Seq<char>, j: int)
    requires
        0 <= j,
        forall|q: int| j <= q < s.len() ==> s[q] != '}',
    ensures
        first_close(s, j) is None,
    decreases s.len() - j,
{
    if j < s.len() {
        lemma_no_close(s, j + 1);
    }
}

proof fn lemma_prepend_assoc(o1: Seq<char>, d1: Seq<int>, o2: Seq<char>, d2: Seq<int>, r: Rendered)
    ensures
        prepend(o1, d1, prepend(o2, d2, r)) == prepend(o1 + o2, d1 + d2, r),
{
    match r {
        Ok((o, d)) => {
            assert(o1 + (o2 + o) =~= (o1 + o2) + o);
            assert(d1 + (d2 + d) =~= (d1 + d2) + d);
        },
        Err(_) => {},
    }
}

/// One rendering step at `i`: the text it emits, the name index it uses if
/// it is a placeholder, and where the next step starts.
fn next_step(chars: &Vec<char>, i: usize, names: &Vec<String>) -> (r: Result<(String, Option<usize>, usize), TemplateError>)
    requires
        i < chars@.len(),
    ensures
        match r {
            Ok((piece, k, next)) => render_step(chars@, i as int, names@.map_values(|n: String| n@))
                == Ok::<(Seq<char>, Seq<int>, int), (int, Seq<char>)>((piece@, match k {
                    Some(k) => seq![k as int],
                    None => Seq::<int>::empty(),
                }, next as int)) && i < next <= chars@.len(),
            Err(e) => render_step(chars@, i as int, names@.map_values(|n: String| n@)) == Err::<(Seq<char>, Seq<int>, int), (int, Seq<char>)>(error_view(e)),
        },
{
    let ghost s = chars@;
    let ghost nv = names@.map_values(|n: String| n@);
    let n = chars.len();
    let c = chars[i];
    let mut piece = String::new();
    if c == '{' {
        if i + 1 < n && chars[i + 1] == '{' {
            push_char(&mut piece, '{');
            push_char(&mut piece, '{');
            assert(piece@ =~= seq!['{', '{']);
            return Ok((piece, None, i + 2));
        }
        let start = i + 1;
        let mut end = start;
        while end < chars.len() && chars[end] != '}'
            invariant
                s == chars@,
                start <= end <= s.len(),
                forall|q: int| start <= q < end ==> s[q] != '}',
            decreases s.len() - end,
        {
            end += 1;
        }
        if end >= chars.len() {
            proof {
                lemma_no_close(s, start as int);
            }
            return Err(TemplateError::Unclosed);
        }
        proof {
            lemma_first_close(s, start as int, end as int);
        }
        if end == start {
            return Err(TemplateError::EmptyPlaceholder);
        }
        let mut key = String::new();
        let mut q: usize = start;
        while q < end
            invariant
                s == chars@,
                start <= q <= end < s.len(),
                key@ == s.subrange(start as int, q as int),
            decreases end - q,
        {
            push_char(&mut key, chars[q]);
            assert(key@ =~= s.subrange(start as int, q as int + 1));
            q += 1;
        }
        let mut k: usize = 0;
        #[verifier::loop_isolation(false)]
        while k < names.len()
            invariant
                nv == names@.map_values(|n: String| n@),
                k <= names@.len(),
                forall|m: int| 0 <= m < k ==> nv[m] != key@,
                piece@ == Seq::<char>::empty(),
                end < n,
                n == s.len(),
            decreases names@.len() - k,
        {
            if str_eq(names[k].as_str(), key.as_str()) {
                proof {
                    assert(nv[k as int] == key@);
                    assert(first_name(nv, key@) == Some(k as int)) by {
                        let c = choose|c: int| 0 <= c < nv.len() && nv[c] == key@ && forall|m: int| 0 <= m < c ==> nv[m] != key@;
                        if c > k {
                            assert(nv[k as int] != key@);
                        }
                    }
                }
                push_char(&mut piece, '{');
                push_char(&mut piece, '}');
                assert(piece@ =~= seq!['{', '}']);
                return Ok((piece, Some(k), end + 1));
            }
            k += 1;
        }
        proof {
            assert(first_name(nv, key@) is None);
        }
        return Err(TemplateError::UnknownPlaceholder(key));
    } else if c == '}' {
        if i + 1 < n && chars[i + 1] == '}' {
            push_char(&mut piece, '}');
            push_char(&mut piece, '}');
            assert(piece@ =~= seq!['}', '}']);
            return Ok((piece, None, i + 2));
        }
        return Err(TemplateError::UnmatchedClose);
    }
    push_char(&mut piece, c);
    assert(piece@ =~= seq![c]);
    Ok((piece, None, i + 1))
}

/// Renders a display template against the names of the fields it may use;
/// the result is the format string and, for each placeholder in order, the
/// index of the name it used.
pub fn render_display_template(template: &str, names: &Vec<String>) -> (r: Result<(String, Vec<usize>), TemplateError>)
    ensures
        match r {
            Ok((fmt, ord)) => render_from(template@, 0, names@.map_values(|n: String| n@))
                == Ok::<(Seq<char>, Seq<int>), (int, Seq<char>)>((fmt@, ord@.map_values(|k: usize| k as int))),
            Err(e) => render_from(template@, 0, names@.map_values(|n: String| n@)) == Err::<(Seq<char>, Seq<int>), (int, Seq<char>)>(error_view(e)),
        },
{
    let chars = chars_of(template);
    let ghost s = chars@;
    let ghost nv = names@.map_values(|n: String| n@);
    let mut output = String::new();
    let mut ordered: Vec<usize> = Vec::new();
    let mut i: usize = 0;
    proof {
        assert(output@ =~= Seq::<char>::empty());
        assert(ordered@.map_values(|k: usize| k as int) =~= Seq::<int>::empty());
        match render_from(s, 0, nv) {
            Ok((o, d)) => {
                assert(Seq::<char>::empty() + o =~= o);
                assert(Seq::<int>::empty() + d =~= d);
            },
            Err(_) => {},
        }
    }
    while i < chars.len()
        invariant
            s == chars@,
            s == template@,
            nv == names@.map_values(|n: String| n@),
            i <= s.len(),
            render_from(s, 0, nv) == prepend(output@, ordered@.map_values(|k: usize| k as int), render_from(s, i as int, nv)),
        decreases s.len() - i,
    {
        let ghost out0 = output@;
        let ghost ord0 = ordered@.map_values(|k: usize| k as int);
        let step = next_step(&chars, i, names);
        match step {
            Ok((piece, k, next)) => {
                let ghost d = match k {
                    Some(k) => seq![k as int],
                    None => Seq::<int>::empty(),
                };
                push_str(&mut output, piece.as_str());
                match k {
                    Some(k) => {
                        ordered.push(k);
                    },
                    None => {},
                }
                proof {
                    lemma_prepend_assoc(out0, ord0, piece@, d, render_from(s, next as int, nv));
                    assert(ordered@.map_values(|x: usize| x as int) =~= ord0 + d);
                }
                i = next;
            },
            Err(e) => {
                return Err(e);
            },
        }
    }
    proof {
        assert(output@ + Seq::<char>::empty() =~= output@);
        assert(ordered@.map_values(|k: usize| k as int) + Seq::<int>::empty() =~= ordered@.map_values(|k: usize| k as int));
    }
    Ok((output, ordered))
}

/// A template without braces is its own format string and uses no field.
pub proof fn law_template_without_braces(s: Seq<char>, names: Seq<Seq<char>>)
    requires
        forall|i: int| 0 <= i < s.len() ==> s[i] != '{' && s[i] != '}',
    ensures
        render_from(s, 0, names) == Ok::<(Seq<char>, Seq<int>), (int, Seq<char>)>((s, Seq::empty())),
{
    lemma_plain_suffix(s, 0, names);
    assert(s.subrange(0, s.len() as int) =~= s);
}

proof fn lemma_plain_suffix(s: Seq<char>, i: int, names: Seq<Seq<char>>)
    requires
        0 <= i <= s.len(),
        forall|k: int| 0 <= k < s.len() ==> s[k] != '{' && s[k] != '}',
    ensures
        render_from(s, i, names) == Ok::<(Seq<char>, Seq<int>), (int, Seq<char>)>((s.subrange(i, s.len() as int), Seq::empty())),
    decreases s.len() - i,
{
    if i < s.len() {
        lemma_plain_suffix(s, i + 1, names);
        assert(seq![s[i]] + s.subrange(i + 1, s.len() as int) =~= s.subrange(i, s.len() as int));
        assert(Seq::<int>::empty() + Seq::<int>::empty() =~= Seq::<int>::empty());
    } else {
        assert(s.subrange(i, s.len() as int) =~= Seq::<char>::empty());
    }
}

} // verus!
