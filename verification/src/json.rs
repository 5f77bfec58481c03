//! A JSON writer over a `String` buffer: escaped strings, indentation,
//! object fields and array items, integers and booleans.

use vstd::prelude::*;

verus! {

/// Appends one character.
#[verifier::external_body]
pub(crate) fn push_char(out: &mut String, c: char)
    ensures
        final(out)@ == old(out)@.push(c),
{
    out.push(c);
}

/// Appends a string slice.
pub fn push_str(out: &mut String, s: &str)
    ensures
        final(out)@ == old(out)@ + s@,
{
    out.append(s);
}

/// Uppercase hexadecimal digit of `v` (below 16).
pub open spec fn hex_digit(v: nat) -> char {
    if v < 10 {
        (('0' as nat) + v) as char
    } else {
        (('A' as nat) + (v - 10)) as char
    }
}

/// How one character is written inside a JSON string.
pub open spec fn escape_char(c: char) -> Seq<char> {
    if c == '"' {
        seq!['\\', '"']
    } else if c == '\\' {
        seq!['\\', '\\']
    } else if c == '\n' {
        seq!['\\', 'n']
    } else if c == '\r' {
        seq!['\\', 'r']
    } else if c == '\t' {
        seq!['\\', 't']
    } else if c == '\u{8}' {
        seq!['\\', 'b']
    } else if c == '\u{c}' {
        seq!['\\', 'f']
    } else if (c as nat) <= 0x1F {
        seq!['\\', 'u', '0', '0', hex_digit((c as nat) / 16), hex_digit((c as nat) % 16)]
    } else {
        seq![c]
    }
}

/// The escaped body of a JSON string.
pub open spec fn json_escape(s: Seq<char>) -> Seq<char>
    decreases s.len(),
{
    if s.len() == 0 {
        Seq::empty()
    } else {
        json_escape(s.drop_last()) + escape_char(s.last())
    }
}

/// A JSON string literal for `s`.
pub open spec fn json_string(s: Seq<char>) -> Seq<char> {
    seq!['"'] + json_escape(s) + seq!['"']
}

/// `n` spaces.
pub open spec fn spaces(n: nat) -> Seq<char> {
    Seq::new(n, |i: int| ' ')
}

/// Indentation for nesting depth `depth`: two spaces per level (the count
/// saturates at `usize::MAX`).
pub open spec fn indent(depth: nat) -> Seq<char> {
    spaces(if 2 * depth > usize::MAX { usize::MAX as nat } else { 2 * depth })
}

/// Line break and indentation when pretty-printing, nothing otherwise.
pub open spec fn newline_indent(pretty: bool, depth: nat) -> Seq<char> {
    if pretty {
        seq!['\n'] + indent(depth)
    } else {
        Seq::empty()
    }
}

/// The separator before an item: nothing for the first one, a comma otherwise.
pub open spec fn separator(first: bool) -> Seq<char> {
    if first {
        Seq::empty()
    } else {
        seq![',']
    }
}

/// What precedes the value of a field `key` of an object at depth `depth`.
pub open spec fn field_prefix(first: bool, pretty: bool, depth: nat, key: Seq<char>) -> Seq<char> {
    separator(first) + newline_indent(pretty, depth + 1) + json_string(key) + seq![':'] + (if pretty {
        seq![' ']
    } else {
        Seq::empty()
    })
}

/// What precedes an item of an array at depth `depth`.
pub open spec fn item_prefix(first: bool, pretty: bool, depth: nat) -> Seq<char> {
    separator(first) + newline_indent(pretty, depth + 1)
}

/// What closes a container at depth `depth` with the closing character `close`.
pub open spec fn closing(pretty: bool, depth: nat, empty: bool, close: char) -> Seq<char> {
    (if pretty && !empty {
        newline_indent(true, depth)
    } else {
        Seq::empty()
    }) + seq![close]
}

/// Decimal digits of `n`.
pub open spec fn decimal(n: nat) -> Seq<char>
    decreases n,
{
    if n < 10 {
        seq![hex_digit(n)]
    } else {
        decimal(n / 10) + seq![hex_digit(n % 10)]
    }
}

/// Decimal text of a signed integer.
pub open spec fn decimal_int(v: int) -> Seq<char> {
    if v < 0 {
        seq!['-'] + decimal((-v) as nat)
    } else {
        decimal(v as nat)
    }
}

/// `true` or `false`.
pub open spec fn bool_text(b: bool) -> Seq<char> {
    if b {
        seq!['t', 'r', 'u', 'e']
    } else {
        seq!['f', 'a', 'l', 's', 'e']
    }
}

fn digit_char(v: u64) -> (c: char)
    requires
        v < 16,
    ensures
        c == hex_digit(v as nat),
{
    if v < 10 {
        let n: u8 = 48u8 + (v as u8);
        n as char
    } else {
        let n: u8 = 65u8 + ((v - 10) as u8);
        n as char
    }
}

/// Writes `c` escaped for a JSON string.
pub fn write_escaped_char(out: &mut String, c: char)
    ensures
        final(out)@ == old(out)@ + escape_char(c),
{
    let ghost start = out@;
    if c == '"' {
        push_char(out, '\\');
        push_char(out, '"');
    } else if c == '\\' {
        push_char(out, '\\');
        push_char(out, '\\');
    } else if c == '\n' {
        push_char(out, '\\');
        push_char(out, 'n');
    } else if c == '\r' {
        push_char(out, '\\');
        push_char(out, 'r');
    } else if c == '\t' {
        push_char(out, '\\');
        push_char(out, 't');
    } else if c == '\u{8}' {
        push_char(out, '\\');
        push_char(out, 'b');
    } else if c == '\u{c}' {
        push_char(out, '\\');
        push_char(out, 'f');
    } else if (c as u32) <= 0x1F {
        let v = c as u32 as u64;
        push_char(out, '\\');
        push_char(out, 'u');
        push_char(out, '0');
        push_char(out, '0');
        let hi = digit_char(v / 16);
        let lo = digit_char(v % 16);
        push_char(out, hi);
        push_char(out, lo);
    } else {
        push_char(out, c);
    }
    assert(out@ =~= start + escape_char(c));
}

/// Writes `s` as a JSON string literal, escaping quotes, backslashes and
/// control characters.
pub fn write_json_string(out: &mut String, s: &str)
    ensures
        final(out)@ == old(out)@ + json_string(s@),
{
    let chars = crate::text::chars_of(s);
    let ghost start = out@;
    push_char(out, '"');
    let n = chars.len();
    let mut i: usize = 0;
    while i < n
        invariant
            n == chars@.len(),
            i <= n,
            out@ == start + seq!['"'] + json_escape(chars@.subrange(0, i as int)),
        decreases n - i,
    {
        write_escaped_char(out, chars[i]);
        proof {
            let t = chars@.subrange(0, i + 1);
            assert(t.drop_last() =~= chars@.subrange(0, i as int));
            assert(t.last() == chars@[i as int]);
        }
        i = i + 1;
    }
    assert(chars@.subrange(0, n as int) =~= chars@);
    push_char(out, '"');
    assert(out@ =~= start + json_string(s@));
}

/// Writes the displayed text of a value as a JSON string literal.
pub fn write_json_display(out: &mut String, text: &str)
    ensures
        final(out)@ == old(out)@ + json_string(text@),
{
    write_json_string(out, text);
}

/// Writes the indentation for `depth`.
pub fn write_indent(out: &mut String, depth: usize)
    ensures
        final(out)@ == old(out)@ + indent(depth as nat),
{
    let remaining: usize = if depth > usize::MAX / 2 {
        usize::MAX
    } else {
        depth * 2
    };
    let ghost start = out@;
    assert(remaining as nat == (if 2 * (depth as nat) > usize::MAX { usize::MAX as nat } else { 2 * (depth as nat) }));
    let mut k: usize = 0;
    while k < remaining
        invariant
            k <= remaining,
            out@ == start + spaces(k as nat),
        decreases remaining - k,
    {
        push_char(out, ' ');
        assert(spaces((k + 1) as nat) =~= spaces(k as nat).push(' '));
        k = k + 1;
    }
    assert(spaces(remaining as nat) =~= indent(depth as nat));
}

fn write_newline_indent(out: &mut String, pretty: bool, depth: usize)
    ensures
        final(out)@ == old(out)@ + newline_indent(pretty, depth as nat),
{
    let ghost start = out@;
    if pretty {
        push_char(out, '\n');
        write_indent(out, depth);
        assert(out@ =~= start + newline_indent(pretty, depth as nat));
    } else {
        assert(out@ =~= start + newline_indent(pretty, depth as nat));
    }
}

/// Writes the key part of an object field (separator, indentation, quoted key
/// and colon); the caller then writes the value.
pub fn write_object_field(out: &mut String, pretty: bool, depth: usize, first: &mut bool, key: &str)
    requires
        depth < usize::MAX,
    ensures
        final(out)@ == old(out)@ + field_prefix(*old(first), pretty, depth as nat, key@),
        !*final(first),
{
    let ghost start = out@;
    let ghost was_first = *first;
    if *first {
        *first = false;
    } else {
        push_char(out, ',');
    }
    write_newline_indent(out, pretty, depth + 1);
    write_json_string(out, key);
    push_char(out, ':');
    if pretty {
        push_char(out, ' ');
    }
    assert(out@ =~= start + field_prefix(was_first, pretty, depth as nat, key@));
}

/// Writes what precedes an array item (separator and indentation).
pub fn write_array_item_prefix(out: &mut String, pretty: bool, depth: usize, first: &mut bool)
    requires
        depth < usize::MAX,
    ensures
        final(out)@ == old(out)@ + item_prefix(*old(first), pretty, depth as nat),
        !*final(first),
{
    let ghost start = out@;
    let ghost was_first = *first;
    if *first {
        *first = false;
    } else {
        push_char(out, ',');
    }
    write_newline_indent(out, pretty, depth + 1);
    assert(out@ =~= start + item_prefix(was_first, pretty, depth as nat));
}

/// Closes an object at `depth` (`empty` when no field was written).
pub fn close_object(out: &mut String, pretty: bool, depth: usize, empty: bool)
    ensures
        final(out)@ == old(out)@ + closing(pretty, depth as nat, empty, '}'),
{
    let ghost start = out@;
    if pretty && !empty {
        write_newline_indent(out, true, depth);
    }
    push_char(out, '}');
    assert(out@ =~= start + closing(pretty, depth as nat, empty, '}'));
}

/// Closes an array at `depth` (`empty` when no item was written).
pub fn close_array(out: &mut String, pretty: bool, depth: usize, empty: bool)
    ensures
        final(out)@ == old(out)@ + closing(pretty, depth as nat, empty, ']'),
{
    let ghost start = out@;
    if pretty && !empty {
        write_newline_indent(out, true, depth);
    }
    push_char(out, ']');
    assert(out@ =~= start + closing(pretty, depth as nat, empty, ']'));
}

/// An optional string field: its key and quoted value, or nothing.
pub open spec fn opt_string_field(first: bool, pretty: bool, depth: nat, key: Seq<char>, value: Option<String>) -> Seq<char> {
    match value {
        Some(v) => field_prefix(first, pretty, depth, key) + json_string(v@),
        None => Seq::empty(),
    }
}

/// Writes the field `key` with the string `value` when there is one.
pub fn write_opt_string_field(out: &mut String, pretty: bool, depth: usize, first: &mut bool, key: &str, value: &Option<String>)
    requires
        depth < usize::MAX,
    ensures
        final(out)@ == old(out)@ + opt_string_field(*old(first), pretty, depth as nat, key@, *value),
        *final(first) == (*old(first) && value.is_none()),
{
    let ghost start = out@;
    let ghost f0 = *first;
    match value {
        Some(v) => {
            write_object_field(out, pretty, depth, first, key);
            write_json_string(out, v.as_str());
            assert(out@ =~= start + opt_string_field(f0, pretty, depth as nat, key@, *value));
        },
        None => {
            assert(out@ =~= start + opt_string_field(f0, pretty, depth as nat, key@, *value));
        },
    }
}

/// Writes the decimal digits of `v`.
pub fn write_u64(out: &mut String, v: u64)
    ensures
        final(out)@ == old(out)@ + decimal(v as nat),
    decreases v,
{
    let ghost start = out@;
    if v >= 10 {
        write_u64(out, v / 10);
        let d = digit_char(v % 10);
        push_char(out, d);
    } else {
        let d = digit_char(v);
        push_char(out, d);
    }
    assert(out@ =~= start + decimal(v as nat));
}

/// Writes the decimal text of `v`.
pub fn write_i64(out: &mut String, v: i64)
    ensures
        final(out)@ == old(out)@ + decimal_int(v as int),
{
    let ghost start = out@;
    if v < 0 {
        push_char(out, '-');
        let m: u64 = if v == i64::MIN {
            9223372036854775808u64
        } else {
            (-v) as u64
        };
        write_u64(out, m);
    } else {
        write_u64(out, v as u64);
    }
    assert(out@ =~= start + decimal_int(v as int));
}

/// Writes `true` or `false`.
pub fn write_bool(out: &mut String, b: bool)
    ensures
        final(out)@ == old(out)@ + bool_text(b),
{
    let ghost start = out@;
    if b {
        push_char(out, 't');
        push_char(out, 'r');
        push_char(out, 'u');
        push_char(out, 'e');
    } else {
        push_char(out, 'f');
        push_char(out, 'a');
        push_char(out, 'l');
        push_char(out, 's');
        push_char(out, 'e');
    }
    assert(out@ =~= start + bool_text(b));
}

/// Escaping leaves no raw control character: every character of the
/// escaped text of a string is above U+001F, so the written JSON string is
/// valid whatever the text holds.
pub proof fn law_escaped_text_has_no_control_chars(s: Seq<char>)
    ensures
        forall|k: int| 0 <= k < json_escape(s).len() ==> (#[trigger] json_escape(s)[k] as nat) > 0x1F,
    decreases s.len(),
{
    if s.len() > 0 {
        law_escaped_text_has_no_control_chars(s.drop_last());
        lemma_escape_char_no_control(s.last());
        let a = json_escape(s.drop_last());
        let b = escape_char(s.last());
        assert forall|k: int| 0 <= k < json_escape(s).len() implies (#[trigger] json_escape(s)[k] as nat) > 0x1F by {
            if k < a.len() {
                assert(json_escape(s)[k] == a[k]);
            } else {
                assert(json_escape(s)[k] == b[k - a.len()]);
            }
        }
    }
}

proof fn lemma_escape_char_no_control(c: char)
    ensures
        forall|k: int| 0 <= k < escape_char(c).len() ==> (#[trigger] escape_char(c)[k] as nat) > 0x1F,
{
    if (c as nat) <= 0x1F && c != '\n' && c != '\r' && c != '\t' && c != '\u{8}' && c != '\u{c}' {
        let v = c as nat;
        assert(v / 16 < 10);
        assert(hex_digit(v / 16) as nat >= 0x30);
        if v % 16 < 10 {
            assert(hex_digit(v % 16) as nat >= 0x30);
        } else {
            assert(hex_digit(v % 16) as nat >= 0x41);
        }
    }
}

/// The value of a hexadecimal digit, either case.
pub open spec fn hex_value(c: char) -> Option<nat> {
    if '0' <= c <= '9' {
        Some((c as nat - '0' as nat) as nat)
    } else if 'A' <= c <= 'F' {
        Some((c as nat - 'A' as nat + 10) as nat)
    } else if 'a' <= c <= 'f' {
        Some((c as nat - 'a' as nat + 10) as nat)
    } else {
        None
    }
}

/// The character a two-character escape `\e` stands for, as JSON reads it.
pub open spec fn short_escape(e: char) -> Option<char> {
    if e == '"' {
        Some('"')
    } else if e == '\\' {
        Some('\\')
    } else if e == '/' {
        Some('/')
    } else if e == 'b' {
        Some('\u{8}')
    } else if e == 'f' {
        Some('\u{c}')
    } else if e == 'n' {
        Some('\n')
    } else if e == 'r' {
        Some('\r')
    } else if e == 't' {
        Some('\t')
    } else {
        None
    }
}

/// How JSON reads the body of a string literal: the text it stands for, or
/// nothing when the body is not valid JSON (a raw quote or control
/// character, an unknown escape, a bad `\u` escape).
pub open spec fn json_unescape(t: Seq<char>) -> Option<Seq<char>>
    decreases t.len(),
{
    if t.len() == 0 {
        Some(Seq::empty())
    } else if t[0] == '\\' {
        if t.len() < 2 {
            None
        } else if short_escape(t[1]) is Some {
            match json_unescape(t.skip(2)) {
                Some(r) => Some(seq![short_escape(t[1])->0] + r),
                None => None,
            }
        } else if t[1] == 'u' && t.len() >= 6 && hex_value(t[2]) is Some && hex_value(t[3]) is Some
            && hex_value(t[4]) is Some && hex_value(t[5]) is Some {
            let code = 4096 * hex_value(t[2])->0 + 256 * hex_value(t[3])->0 + 16 * hex_value(t[4])->0 + hex_value(t[5])->0;
            if code < 0xD800 {
                match json_unescape(t.skip(6)) {
                    Some(r) => Some(seq![code as char] + r),
                    None => None,
                }
            } else {
                None
            }
        } else {
            None
        }
    } else if t[0] == '"' || (t[0] as nat) <= 0x1F {
        None
    } else {
        match json_unescape(t.skip(1)) {
            Some(r) => Some(seq![t[0]] + r),
            None => None,
        }
    }
}

proof fn lemma_escape_append(a: Seq<char>, b: Seq<char>)
    ensures
        json_escape(a + b) == json_escape(a) + json_escape(b),
    decreases b.len(),
{
    if b.len() == 0 {
        assert(a + b =~= a);
        assert(json_escape(a) + json_escape(b) =~= json_escape(a));
    } else {
        lemma_escape_append(a, b.drop_last());
        assert((a + b).drop_last() =~= a + b.drop_last());
        assert((a + b).last() == b.last());
    }
}

proof fn lemma_hex_round_trip(v: nat)
    requires
        v < 16,
    ensures
        hex_value(hex_digit(v)) == Some(v),
{
    if v < 10 {
        assert((('0' as nat) + v) as char as nat == ('0' as nat) + v);
    } else {
        assert((('A' as nat) + (v - 10)) as char as nat == ('A' as nat) + (v - 10));
    }
}

proof fn lemma_unescape_escaped_char(c: char, rest: Seq<char>)
    ensures
        json_unescape(escape_char(c) + rest) == match json_unescape(rest) {
            Some(r) => Some(seq![c] + r),
            None => None,
        },
{
    let t = escape_char(c) + rest;
    let e = escape_char(c);
    if e.len() == 2 {
        assert(t.skip(2) =~= rest);
    } else if e.len() == 6 {
        let v = c as nat;
        lemma_hex_round_trip(0);
        lemma_hex_round_trip(v / 16);
        lemma_hex_round_trip(v % 16);
        assert(t[2] == '0' && t[3] == '0' && t[4] == hex_digit(v / 16) && t[5] == hex_digit(v % 16));
        assert(16 * (v / 16) + v % 16 == v);
        assert(t.skip(6) =~= rest);
        assert((v as char) == c);
    } else {
        assert(t.skip(1) =~= rest);
    }
}

/// Escaping is undone by reading the result as JSON: the escaped body of
/// any text is a valid JSON string body that reads back as that text.
pub proof fn law_escaped_text_reads_back(s: Seq<char>)
    ensures
        json_unescape(json_escape(s)) == Some(s),
    decreases s.len(),
{
    if s.len() > 0 {
        let rest = s.drop_first();
        law_escaped_text_reads_back(rest);
        assert(s =~= seq![s[0]] + rest);
        lemma_escape_append(seq![s[0]], rest);
        assert(json_escape(seq![s[0]]) =~= escape_char(s[0])) by {
            let one = seq![s[0]];
            assert(one.drop_last() =~= Seq::<char>::empty());
            assert(one.last() == s[0]);
            assert(json_escape(one.drop_last()) =~= Seq::<char>::empty());
            assert(json_escape(one) == json_escape(one.drop_last()) + escape_char(one.last()));
        }
        lemma_unescape_escaped_char(s[0], json_escape(rest));
    }
}

/// The number that a run of decimal digits denotes, read left to right.
pub open spec fn digits_value(t: Seq<char>) -> int
    decreases t.len(),
{
    if t.len() == 0 {
        0
    } else {
        digits_value(t.drop_last()) * 10 + ((t.last() as int) - ('0' as int))
    }
}

/// Decimal text is the number written out: every character is a digit
/// `0`..`9`, only zero starts with `0`, and reading the text back gives the
/// number.
pub proof fn law_decimal_reads_back(n: nat)
    ensures
        decimal(n).len() > 0,
        forall|k: int| 0 <= k < decimal(n).len() ==> '0' <= #[trigger] decimal(n)[k] <= '9',
        n > 0 ==> decimal(n)[0] != '0',
        digits_value(decimal(n)) == n,
    decreases n,
{
    let t = decimal(n);
    if n < 10 {
        assert((('0' as nat) + n) as char as nat == ('0' as nat) + n);
        assert(t == seq![hex_digit(n)]);
        assert(t.drop_last() =~= Seq::<char>::empty());
        assert(t.last() == hex_digit(n));
        assert(digits_value(Seq::<char>::empty()) == 0);
    } else {
        law_decimal_reads_back(n / 10);
        let a = decimal(n / 10);
        let d = n % 10;
        assert((('0' as nat) + d) as char as nat == ('0' as nat) + d);
        assert(t == a + seq![hex_digit(d)]);
        assert(t.drop_last() =~= a);
        assert(t.last() == hex_digit(d));
        assert forall|k: int| 0 <= k < t.len() implies '0' <= #[trigger] t[k] <= '9' by {
            if k < a.len() {
                assert(t[k] == a[k]);
            }
        }
        assert(n / 10 > 0);
        assert(t[0] == a[0]);
        assert(n == (n / 10) * 10 + d);
    }
}

} // verus!
