//! Fixed-length, non-zero hexadecimal identifiers (trace and span ids).

use vstd::prelude::*;
use vstd::string::StringSliceAdditionalSpecFns;
use vstd::string::{is_ascii, is_ascii_spec_bytes};

verus! {

/// Whether `b` is an ASCII hexadecimal digit.
pub open spec fn is_hex_byte(b: u8) -> bool {
    (48 <= b <= 57) || (97 <= b <= 102) || (65 <= b <= 70)
}

/// Whether every byte is an ASCII hexadecimal digit.
pub open spec fn all_hex(s: Seq<u8>) -> bool {
    forall|i: int| 0 <= i < s.len() ==> is_hex_byte(#[trigger] s[i])
}

/// Whether every byte is the digit `0`.
pub open spec fn all_zero_digits(s: Seq<u8>) -> bool {
    forall|i: int| 0 <= i < s.len() ==> #[trigger] s[i] == 48u8
}

/// What a hexadecimal identifier holds: hex digits, not all of them `0`.
pub open spec fn valid_hex_id(s: Seq<u8>) -> bool {
    all_hex(s) && !all_zero_digits(s)
}

/// `n` copies of the digit `0`.
pub open spec fn zero_digits(n: nat) -> Seq<u8> {
    Seq::new(n, |i: int| 48u8)
}

/// Error text of [`HexId::new`] for bytes that it refuses.
pub open spec fn new_error(s: Seq<u8>) -> Seq<char> {
    if !all_hex(s) {
        "invalid hex id: contains non-hex characters"@
    } else {
        "invalid hex id: cannot be all zeros"@
    }
}

/// Error text of [`HexId::from_bytes`] for a slice that it refuses.
pub open spec fn from_bytes_error(s: Seq<u8>, n: nat) -> Seq<char> {
    if s.len() > n {
        "invalid hex id: input too long"@
    } else if s.len() == 0 {
        "invalid hex id: input is empty"@
    } else {
        new_error(s)
    }
}

/// Error text of [`HexId::from_str`] for bytes that it refuses.
pub open spec fn from_str_error(s: Seq<u8>, n: nat) -> Seq<char> {
    if s.len() != n {
        "invalid hex id: length mismatch"@
    } else {
        new_error(s)
    }
}

proof fn lemma_push(s: Seq<u8>, b: u8)
    ensures
        all_hex(s.push(b)) == (all_hex(s) && is_hex_byte(b)),
        all_zero_digits(s.push(b)) == (all_zero_digits(s) && b == 48u8),
{
    let t = s.push(b);
    assert(t[s.len() as int] == b);
    assert(forall|i: int| 0 <= i < s.len() ==> t[i] == s[i]);
}

proof fn lemma_padded(n: nat, s: Seq<u8>)
    ensures
        all_hex(zero_digits(n) + s) == all_hex(s),
        all_zero_digits(zero_digits(n) + s) == all_zero_digits(s),
{
    let t = zero_digits(n) + s;
    assert(forall|i: int| 0 <= i < s.len() ==> t[n + i] == s[i]);
    assert(forall|i: int| 0 <= i < n ==> t[i] == 48u8);
    if all_hex(s) {
        assert forall|i: int| 0 <= i < t.len() implies is_hex_byte(#[trigger] t[i]) by {
            if i >= n {
                assert(t[i] == s[i - n]);
            }
        }
    }
    if all_zero_digits(s) {
        assert forall|i: int| 0 <= i < t.len() implies #[trigger] t[i] == 48u8 by {
            if i >= n {
                assert(t[i] == s[i - n]);
            }
        }
    }
    if all_hex(t) {
        assert forall|i: int| 0 <= i < s.len() implies is_hex_byte(#[trigger] s[i]) by {
            assert(t[n + i] == s[i]);
        }
    }
    if all_zero_digits(t) {
        assert forall|i: int| 0 <= i < s.len() implies #[trigger] s[i] == 48u8 by {
            assert(t[n + i] == s[i]);
        }
    }
}

/// The characters of ASCII bytes.
pub open spec fn ascii_text(s: Seq<u8>) -> Seq<char> {
    s.map_values(|b: u8| b as char)
}

/// Fixed-length non-zero hexadecimal identifier.
#[derive(Debug, Clone, Copy, PartialEq, Eq)]
pub struct HexId<const N: usize>([u8; N]);

impl<const N: usize> View for HexId<N> {
    type V = Seq<u8>;

    closed spec fn view(&self) -> Seq<u8> {
        self.0@
    }
}

impl<const N: usize> HexId<N> {
    #[verifier::type_invariant]
    spec fn well_formed(self) -> bool {
        valid_hex_id(self.0@)
    }

    /// Creates a validated hexadecimal identifier.
    pub fn new(value: [u8; N]) -> (r: Result<Self, &'static str>)
        ensures
            r is Ok <==> valid_hex_id(value@),
            r matches Ok(id) ==> id@ == value@,
            r matches Err(e) ==> e@ == new_error(value@),
    {
        let mut i: usize = 0;
        let mut all_zeros = true;
        while i < N
            invariant
                value@.len() == N,
                i <= N,
                all_hex(value@.subrange(0, i as int)),
                all_zeros == all_zero_digits(value@.subrange(0, i as int)),
            decreases N - i,
        {
            let b = value[i];
            if !is_hex_digit(b) {
                assert(!is_hex_byte(value@[i as int]));
                return Err("invalid hex id: contains non-hex characters");
            }
            if b != 48u8 {
                all_zeros = false;
            }
            assert(value@.subrange(0, i as int + 1) =~= value@.subrange(0, i as int).push(b));
            proof {
                lemma_push(value@.subrange(0, i as int), b);
            }
            i += 1;
        }
        assert(value@.subrange(0, N as int) =~= value@);
        if all_zeros {
            return Err("invalid hex id: cannot be all zeros");
        }
        Ok(HexId(value))
    }

    /// Creates a validated hexadecimal identifier from a byte slice.
    ///
    /// If the slice length is less than N, the identifier is padded with '0'
    /// bytes at the beginning: with N=4, "ab" gives "00ab".
    pub fn from_bytes(value: &[u8]) -> (r: Result<Self, &'static str>)
        ensures
            r is Ok <==> 0 < value@.len() <= N && valid_hex_id(value@),
            r matches Ok(id) ==> id@ == zero_digits((N - value@.len()) as nat) + value@,
            r matches Err(e) ==> e@ == from_bytes_error(value@, N as nat),
    {
        let len = value.len();
        if len > N {
            return Err("invalid hex id: input too long");
        }
        if len == 0 {
            return Err("invalid hex id: input is empty");
        }
        let mut bytes: [u8; N] = [48u8; N];
        let offset = N - len;
        let mut i: usize = 0;
        let mut all_zeros = true;
        while i < len
            invariant
                len == value@.len(),
                offset + len == N,
                bytes@.len() == N,
                i <= len,
                all_hex(value@.subrange(0, i as int)),
                all_zeros == all_zero_digits(value@.subrange(0, i as int)),
                bytes@ =~= zero_digits(offset as nat) + value@.subrange(0, i as int) + zero_digits((len - i) as nat),
            decreases len - i,
        {
            let b = value[i];
            if !is_hex_digit(b) {
                assert(!is_hex_byte(value@[i as int]));
                return Err("invalid hex id: contains non-hex characters");
            }
            if b != 48u8 {
                all_zeros = false;
            }
            bytes[offset + i] = b;
            assert(value@.subrange(0, i as int + 1) =~= value@.subrange(0, i as int).push(b));
            proof {
                lemma_push(value@.subrange(0, i as int), b);
            }
            i += 1;
        }
        assert(value@.subrange(0, len as int) =~= value@);
        if all_zeros {
            return Err("invalid hex id: cannot be all zeros");
        }
        proof {
            assert(bytes@ =~= zero_digits(offset as nat) + value@);
            lemma_padded(offset as nat, value@);
        }
        Ok(HexId(bytes))
    }

    /// Creates a validated hexadecimal identifier from a str.
    pub fn from_str(value: &str) -> (r: Result<Self, &'static str>)
        ensures
            r is Ok <==> value.spec_bytes().len() == N && valid_hex_id(value.spec_bytes()),
            r matches Ok(id) ==> id@ == value.spec_bytes(),
            r matches Err(e) ==> e@ == from_str_error(value.spec_bytes(), N as nat),
    {
        let slice = value.as_bytes();
        if slice.len() != N {
            return Err("invalid hex id: length mismatch");
        }
        let mut bytes: [u8; N] = [0u8; N];
        let mut i: usize = 0;
        let mut all_zeros = true;
        while i < N
            invariant
                slice@ == value.spec_bytes(),
                slice@.len() == N,
                bytes@.len() == N,
                i <= N,
                all_hex(slice@.subrange(0, i as int)),
                all_zeros == all_zero_digits(slice@.subrange(0, i as int)),
                forall|j: int| 0 <= j < i ==> bytes@[j] == slice@[j],
            decreases N - i,
        {
            let b = slice[i];
            if !is_hex_digit(b) {
                assert(!is_hex_byte(slice@[i as int]));
                return Err("invalid hex id: contains non-hex characters");
            }
            if b != 48u8 {
                all_zeros = false;
            }
            bytes[i] = b;
            assert(slice@.subrange(0, i as int + 1) =~= slice@.subrange(0, i as int).push(b));
            proof {
                lemma_push(slice@.subrange(0, i as int), b);
            }
            i += 1;
        }
        assert(slice@.subrange(0, N as int) =~= slice@);
        if all_zeros {
            return Err("invalid hex id: cannot be all zeros");
        }
        assert(bytes@ =~= slice@);
        Ok(HexId(bytes))
    }

    /// The identifier's digits as text.
    pub fn to_text(&self) -> (s: String)
        ensures
            s@ == ascii_text(self@),
    {
        let mut out = String::new();
        let mut i: usize = 0;
        while i < N
            invariant
                self.0@.len() == N,
                i <= N,
                out@ == ascii_text(self.0@.subrange(0, i as int)),
            decreases N - i,
        {
            let b = self.0[i];
            crate::json::push_char(&mut out, b as char);
            assert(ascii_text(self.0@.subrange(0, i as int + 1)) =~= ascii_text(self.0@.subrange(0, i as int)).push(b as char));
            i += 1;
        }
        assert(self.0@.subrange(0, N as int) =~= self.0@);
        out
    }

    /// Returns the owned inner bytes: `N` hex digits, not all of them `0`.
    pub fn into_inner(self) -> (r: [u8; N])
        ensures
            r@ == self@,
            r@.len() == N,
            valid_hex_id(r@),
    {
        proof {
            use_type_invariant(&self);
        }
        self.0
    }
}

/// Whether `b` is an ASCII hexadecimal digit.
pub fn is_hex_digit(b: u8) -> (r: bool)
    ensures
        r == is_hex_byte(b),
{
    (48u8 <= b && b <= 57u8) || (97u8 <= b && b <= 102u8) || (65u8 <= b && b <= 70u8)
}

/// The text of an identifier's digits reads back as the same digits: a
/// text whose characters are the digits of a valid identifier holds exactly
/// those bytes, so [`HexId::from_str`] accepts the text of
/// [`HexId::to_text`] and gives back the same identifier.
pub proof fn law_hex_id_text_round_trip(digits: Seq<u8>, text: &str)
    requires
        valid_hex_id(digits),
        text@ == ascii_text(digits),
    ensures
        text.spec_bytes() == digits,
        valid_hex_id(text.spec_bytes()),
{
    assert(is_ascii(text)) by {
        assert forall|i: int| 0 <= i < text@.len() implies '\0' <= #[trigger] text@[i] <= '\u{7f}' by {
            assert(is_hex_byte(digits[i]));
        }
    }
    is_ascii_spec_bytes(text);
    assert(text.spec_bytes() =~= digits) by {
        assert forall|i: int| 0 <= i < digits.len() implies #[trigger] text.spec_bytes()[i] == digits[i] by {
            assert(is_hex_byte(digits[i]));
            assert(text@[i] == digits[i] as char);
        }
    }
}

} // verus!
