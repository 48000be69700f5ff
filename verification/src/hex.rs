//! Hexadecimal text, in which certificates, salts and challenges travel.
use vstd::prelude::*;
use vstd::string::*;
use vstd::utf8::{encode_utf8, is_ascii_chars, is_ascii_chars_encode_utf8};

use crate::text::{
    chars_of, decimal, decimal_string, is_white, lemma_trimmed_padded, string_of, trim, trimmed,
};

verus! {

/// Why a text is not hexadecimal.
#[derive(Debug, Clone, Copy, PartialEq, Eq, Structural)]
pub enum HexError {
    /// The number of bytes is odd.
    OddLength(usize),
    /// A byte that is no hexadecimal digit, and where it stands.
    InvalidChar(char, usize),
}

/// What the `Debug` format of a character shows.
pub uninterp spec fn quoted_char(c: char) -> Seq<char>;

/// Formats a character by its `Debug` implementation, which quotes it and escapes what cannot be
/// shown.
#[verifier::external_body]
fn quote_char(c: char) -> (r: String)
    ensures
        r@ == quoted_char(c),
{
    format!("{c:?}")
}

/// The text that describes an error.
pub open spec fn hex_error_text(e: HexError) -> Seq<char> {
    match e {
        HexError::OddLength(n) => "odd-length hex string ("@ + decimal(n as nat) + " chars)"@,
        HexError::InvalidChar(c, at) => "invalid hex char "@ + quoted_char(c) + " at offset "@
            + decimal(at as nat),
    }
}

impl HexError {
    /// The text that describes this error.
    pub fn message(&self) -> (r: String)
        ensures
            r@ == hex_error_text(*self),
    {
        match self {
            HexError::OddLength(n) => {
                let mut s = "odd-length hex string (".to_owned();
                s.append(decimal_string(*n as u64).as_str());
                s.append(" chars)");
                s
            },
            HexError::InvalidChar(c, at) => {
                let mut s = "invalid hex char ".to_owned();
                s.append(quote_char(*c).as_str());
                s.append(" at offset ");
                s.append(decimal_string(*at as u64).as_str());
                s
            },
        }
    }
}

/// The digit of a number below sixteen.
pub open spec fn hex_digit(n: int, upper: bool) -> char {
    if n < 10 {
        (48 + n) as char
    } else if upper {
        (55 + n) as char
    } else {
        (87 + n) as char
    }
}

/// Two digits for each byte, the high one first.
pub open spec fn hex_text(b: Seq<u8>, upper: bool) -> Seq<char> {
    Seq::new(
        2 * b.len(),
        |i: int|
            hex_digit(
                if i % 2 == 0 {
                    b[i / 2] / 16
                } else {
                    b[i / 2] % 16
                } as int,
                upper,
            ),
    )
}

/// Whether `c` is a hexadecimal digit of either case.
pub open spec fn is_hex_digit(c: u8) -> bool {
    48 <= c <= 57 || 97 <= c <= 102 || 65 <= c <= 70
}

/// What a hexadecimal digit stands for.
pub open spec fn digit_value(c: u8) -> int {
    if 48 <= c <= 57 {
        c - 48
    } else if 97 <= c <= 102 {
        c - 87
    } else {
        c - 55
    }
}

/// Every byte is a hexadecimal digit.
pub open spec fn all_hex(t: Seq<u8>) -> bool {
    forall|i: int| 0 <= i < t.len() ==> is_hex_digit(#[trigger] t[i])
}

/// The bytes that pairs of digits stand for.
pub open spec fn hex_value(t: Seq<u8>) -> Seq<u8> {
    Seq::new(
        t.len() / 2,
        |i: int| (16 * digit_value(t[2 * i]) + digit_value(t[2 * i + 1])) as u8,
    )
}

/// The index of the first byte that is no hexadecimal digit, or the length if there is none.
pub open spec fn first_bad(t: Seq<u8>) -> int
    decreases t.len(),
{
    if t.len() == 0 || !is_hex_digit(t[0]) {
        0
    } else {
        1 + first_bad(t.skip(1))
    }
}

/// What a text decodes to, white space around it aside.
pub open spec fn hex_decoded(s: Seq<char>) -> Result<Seq<u8>, HexError> {
    let t = encode_utf8(trimmed(s));
    if t.len() % 2 == 1 {
        Err(HexError::OddLength(t.len() as usize))
    } else if first_bad(t) < t.len() {
        Err(HexError::InvalidChar(t[first_bad(t)] as char, first_bad(t) as usize))
    } else {
        Ok(hex_value(t))
    }
}

/// What `first_bad` says of the bytes before and at it.
proof fn lemma_first_bad(t: Seq<u8>, i: int)
    requires
        0 <= i <= t.len(),
        all_hex(t.take(i)),
        i < t.len() ==> !is_hex_digit(t[i]),
    ensures
        first_bad(t) == i,
    decreases t.len(),
{
    if i > 0 {
        assert(t.take(i)[0] == t[0]);
        assert forall|j: int| 0 <= j < i - 1 implies is_hex_digit(#[trigger] t.skip(1).take(i - 1)[j]) by {
            assert(t.take(i)[j + 1] == t[j + 1]);
        }
        lemma_first_bad(t.skip(1), i - 1);
    }
}

/// Decoding gives back what was encoded, in either case and with any white space around it.
pub proof fn law_decode_of_encode(b: Seq<u8>, upper: bool, left: Seq<char>, right: Seq<char>)
    requires
        forall|i: int| 0 <= i < left.len() ==> is_white(#[trigger] left[i]),
        forall|i: int| 0 <= i < right.len() ==> is_white(#[trigger] right[i]),
    ensures
        hex_decoded(left + hex_text(b, upper) + right) == Ok::<Seq<u8>, HexError>(b),
{
    let s = hex_text(b, upper);
    assert forall|i: int| 0 <= i < s.len() implies !is_white(#[trigger] s[i]) && 0 <= s[i] as nat
        && (s[i] as nat) < 128 by {}
    lemma_trimmed_padded(left, s, right);
    assert(is_ascii_chars(s));
    is_ascii_chars_encode_utf8(s);
    let t = encode_utf8(s);
    assert forall|i: int| 0 <= i < t.len() implies is_hex_digit(#[trigger] t[i]) by {
        assert(t[i] == s[i] as u8);
    }
    assert forall|i: int| 0 <= i < b.len() implies hex_value(t)[i] == b[i] by {
        assert(t[2 * i] == s[2 * i] as u8);
        assert(t[2 * i + 1] == s[2 * i + 1] as u8);
        assert((2 * i) / 2 == i && (2 * i + 1) / 2 == i);
    }
    assert(hex_value(t) =~= b);
    assert(t.take(t.len() as int) =~= t);
    lemma_first_bad(t, t.len() as int);
}

fn nibble(n: u8, upper: bool) -> (r: char)
    requires
        n < 16,
    ensures
        r == hex_digit(n as int, upper),
{
    if n < 10 {
        (48 + n) as char
    } else if upper {
        (55 + n) as char
    } else {
        (87 + n) as char
    }
}

fn encode_case(bytes: &[u8], upper: bool) -> (r: String)
    ensures
        r@ == hex_text(bytes@, upper),
{
    let mut out: Vec<char> = Vec::new();
    let mut i: usize = 0;
    while i < bytes.len()
        invariant
            i <= bytes.len(),
            out@ == hex_text(bytes@.take(i as int), upper),
        decreases bytes.len() - i,
    {
        let b: u8 = bytes[i];
        out.push(nibble(b / 16, upper));
        out.push(nibble(b % 16, upper));
        i += 1;
        assert(out@ =~= hex_text(bytes@.take(i as int), upper));
    }
    assert(bytes@.take(i as int) =~= bytes@);
    string_of(&out)
}

/// Lower case hexadecimal.
pub fn encode(bytes: &[u8]) -> (r: String)
    ensures
        r@ == hex_text(bytes@, false),
{
    encode_case(bytes, false)
}

/// Upper case hexadecimal.
pub fn encode_upper(bytes: &[u8]) -> (r: String)
    ensures
        r@ == hex_text(bytes@, true),
{
    encode_case(bytes, true)
}

fn val(c: u8, offset: usize) -> (r: Result<u8, HexError>)
    ensures
        r == if is_hex_digit(c) {
            Ok(digit_value(c) as u8)
        } else {
            Err(HexError::InvalidChar(c as char, offset))
        },
{
    if 48 <= c && c <= 57 {
        Ok(c - 48)
    } else if 97 <= c && c <= 102 {
        Ok(c - 87)
    } else if 65 <= c && c <= 70 {
        Ok(c - 55)
    } else {
        Err(HexError::InvalidChar(c as char, offset))
    }
}

/// Decode hexadecimal text of either case, ignoring white space around it. Lengths and offsets
/// count the bytes of the trimmed text.
pub fn decode(s: &str) -> (r: Result<Vec<u8>, HexError>)
    ensures
        match hex_decoded(s@) {
            Ok(v) => r matches Ok(w) && w@ == v,
            Err(e) => r == Err::<Vec<u8>, HexError>(e),
        },
{
    let chars: Vec<char> = chars_of(s);
    let text = string_of(trim(&chars));
    let t = text.as_str().as_bytes();
    if t.len() % 2 != 0 {
        return Err(HexError::OddLength(t.len()));
    }
    let mut out: Vec<u8> = Vec::with_capacity(t.len() / 2);
    let mut i: usize = 0;
    while i < t.len()
        invariant
            i <= t.len(),
            i % 2 == 0,
            t.len() % 2 == 0,
            t@ == encode_utf8(trimmed(s@)),
            all_hex(t@.take(i as int)),
            out@ == hex_value(t@.take(i as int)),
        decreases t.len() - i,
    {
        let hi: u8 = match val(t[i], i) {
            Ok(v) => v,
            Err(e) => {
                proof {
                    lemma_first_bad(t@, i as int);
                }
                return Err(e);
            },
        };
        assert(all_hex(t@.take(i + 1)));
        let lo: u8 = match val(t[i + 1], i + 1) {
            Ok(v) => v,
            Err(e) => {
                proof {
                    lemma_first_bad(t@, i + 1);
                }
                return Err(e);
            },
        };
        assert(all_hex(t@.take(i + 2)));
        let ghost before = out@;
        out.push(16 * hi + lo);
        i += 2;
        assert(out@ =~= hex_value(t@.take(i as int))) by {
            let now = hex_value(t@.take(i as int));
            assert forall|j: int| 0 <= j < out@.len() implies out@[j] == now[j] by {
                if j < before.len() {
                    assert(before[j] == hex_value(t@.take(i - 2))[j]);
                }
            }
        }
    }
    assert(t@.take(i as int) =~= t@);
    proof {
        lemma_first_bad(t@, t@.len() as int);
    }
    Ok(out)
}

/// Whether a character is a digit that stands for a number below sixteen, letters being of one case.
pub open spec fn stands_for(c: char, n: nat, upper: bool) -> bool {
    if n < 10 {
        '0' <= c <= '9' && c as nat == '0' as nat + n
    } else if upper {
        'A' <= c <= 'F' && c as nat == 'A' as nat + n - 10
    } else {
        'a' <= c <= 'f' && c as nat == 'a' as nat + n - 10
    }
}

/// Each byte is spelled by two digits, that of the sixteens first.
pub proof fn law_hex_digits(b: Seq<u8>, upper: bool, i: int)
    requires
        0 <= i < b.len(),
    ensures
        hex_text(b, upper).len() == 2 * b.len(),
        stands_for(hex_text(b, upper)[2 * i], (b[i] / 16) as nat, upper),
        stands_for(hex_text(b, upper)[2 * i + 1], (b[i] % 16) as nat, upper),
{
    assert((2 * i) / 2 == i && (2 * i + 1) / 2 == i && (2 * i) % 2 == 0 && (2 * i + 1) % 2 == 1);
}

/// What is no text of digits in pairs is refused: for its length first, and then for its first byte
/// that is no digit. Every other text is accepted, and no text is accepted otherwise.
pub proof fn law_refused_hex(s: Seq<char>, t: Seq<u8>, i: int)
    requires
        t == encode_utf8(trimmed(s)),
        0 <= i <= t.len() <= usize::MAX,
        forall|j: int| 0 <= j < i ==> is_hex_digit(#[trigger] t[j]),
        i < t.len() ==> !is_hex_digit(t[i]),
    ensures
        hex_decoded(s) is Ok <==> t.len() % 2 == 0 && i == t.len(),
        t.len() % 2 == 1 ==> hex_decoded(s) == Err::<Seq<u8>, HexError>(
            HexError::OddLength(t.len() as usize),
        ),
        t.len() % 2 == 0 && i < t.len() ==> hex_decoded(s) == Err::<Seq<u8>, HexError>(
            HexError::InvalidChar(t[i] as char, i as usize),
        ),
        hex_decoded(s) matches Ok(b) ==> 2 * b.len() == t.len(),
{
    assert(all_hex(t.take(i)));
    lemma_first_bad(t, i);
}

} // verus!
