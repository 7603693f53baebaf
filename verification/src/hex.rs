//! Lower-case hexadecimal, as the relay-directory tooling writes keys and endpoint IDs.
use crate::primitives::string_from_chars;
use vstd::prelude::*;
use vstd::string::StringSliceAdditionalSpecFns;
use vstd::utf8::*;

verus! {

#[derive(Clone, Copy, Debug, PartialEq, Eq, Structural)]
pub enum HexError {
    /// The text has an odd number of bytes.
    OddLength,
    /// A byte is not a hexadecimal digit.
    InvalidDigit,
}

/// The value of an ASCII hexadecimal digit, either case.
pub open spec fn nibble_value(c: u8) -> Option<u8> {
    if 48 <= c <= 57 {
        Some((c - 48) as u8)
    } else if 97 <= c <= 102 {
        Some((c - 87) as u8)
    } else if 65 <= c <= 70 {
        Some((c - 55) as u8)
    } else {
        None
    }
}

/// The lower-case digit of a value below 16.
pub open spec fn hex_digit(n: u8) -> char {
    if n < 10 {
        (48 + n) as char
    } else {
        (87 + n) as char
    }
}

/// Two lower-case digits per byte, high half first.
pub open spec fn hex_text(b: Seq<u8>) -> Seq<char>
    decreases b.len(),
{
    if b.len() == 0 {
        Seq::empty()
    } else {
        hex_text(b.drop_last()) + seq![hex_digit(b.last() / 16), hex_digit(b.last() % 16)]
    }
}

/// Every byte of `s` is a hexadecimal digit.
pub open spec fn all_hex_digits(s: Seq<u8>) -> bool {
    forall|i: int| 0 <= i < s.len() ==> (#[trigger] nibble_value(s[i])) is Some
}

/// The bytes that pairs of hexadecimal digits spell.
pub open spec fn hex_bytes(s: Seq<u8>) -> Seq<u8> {
    Seq::new(
        s.len() / 2,
        |i: int| (nibble_value(s[2 * i])->Some_0 * 16 + nibble_value(s[2 * i + 1])->Some_0) as u8,
    )
}

/// What `decode_hex` gives for the UTF-8 bytes `s` of its argument.
pub open spec fn spec_decode_hex(s: Seq<u8>) -> Result<Seq<u8>, HexError> {
    if s.len() % 2 != 0 {
        Err(HexError::OddLength)
    } else if !all_hex_digits(s) {
        Err(HexError::InvalidDigit)
    } else {
        Ok(hex_bytes(s))
    }
}

/// The value of one hexadecimal digit.
pub fn hex_nibble(value: u8) -> (r: Result<u8, HexError>)
    ensures
        match nibble_value(value) {
            Some(n) => r == Ok::<u8, HexError>(n),
            None => r == Err::<u8, HexError>(HexError::InvalidDigit),
        },
{
    if 48 <= value && value <= 57 {
        Ok(value - 48)
    } else if 97 <= value && value <= 102 {
        Ok(value - 87)
    } else if 65 <= value && value <= 70 {
        Ok(value - 55)
    } else {
        Err(HexError::InvalidDigit)
    }
}

/// The bytes that a hexadecimal string spells, two digits per byte.
pub fn decode_hex(value: &str) -> (r: Result<Vec<u8>, HexError>)
    ensures
        match spec_decode_hex(value.spec_bytes()) {
            Ok(b) => r matches Ok(v) && v@ == b,
            Err(e) => r == Err::<Vec<u8>, HexError>(e),
        },
{
    let s = value.as_bytes();
    let n = s.len();
    if n % 2 != 0 {
        return Err(HexError::OddLength);
    }
    let mut out: Vec<u8> = Vec::new();
    let mut i: usize = 0;
    while i < n / 2
        invariant
            s@ == value.spec_bytes(),
            n == s@.len(),
            n % 2 == 0,
            0 <= i <= n / 2,
            out@.len() == i,
            forall|k: int| 0 <= k < 2 * i ==> (#[trigger] nibble_value(s@[k])) is Some,
            forall|k: int| 0 <= k < i ==> out@[k] == #[trigger] hex_bytes(s@)[k],
        decreases n / 2 - i,
    {
        let high = match hex_nibble(s[2 * i]) {
            Ok(v) => v,
            Err(e) => {
                assert(nibble_value(s@[2 * i as int]) is None);
                return Err(e);
            },
        };
        let low = match hex_nibble(s[2 * i + 1]) {
            Ok(v) => v,
            Err(e) => {
                assert(nibble_value(s@[2 * i + 1]) is None);
                return Err(e);
            },
        };
        assert(high < 16 && low < 16);
        out.push(high * 16 + low);
        i = i + 1;
    }
    assert(out@ =~= hex_bytes(s@));
    Ok(out)
}

fn digit(n: u8) -> (c: char)
    requires
        n < 16,
    ensures
        c == hex_digit(n),
{
    if n < 10 {
        (48 + n) as char
    } else {
        (87 + n) as char
    }
}

/// Two lower-case hexadecimal digits per byte.
pub fn encode_hex(value: &[u8]) -> (r: String)
    ensures
        r@ == hex_text(value@),
{
    let mut chars: Vec<char> = Vec::new();
    let mut i: usize = 0;
    while i < value.len()
        invariant
            0 <= i <= value@.len(),
            chars@ == hex_text(value@.take(i as int)),
        decreases value@.len() - i,
    {
        let b = value[i];
        chars.push(digit(b / 16));
        chars.push(digit(b % 16));
        assert(value@.take(i + 1).drop_last() =~= value@.take(i as int));
        assert(chars@ =~= hex_text(value@.take(i + 1)));
        i = i + 1;
    }
    assert(value@.take(value@.len() as int) =~= value@);
    string_from_chars(chars.as_slice())
}

proof fn lemma_hex_text_shape(b: Seq<u8>)
    ensures
        hex_text(b).len() == 2 * b.len(),
        forall|i: int|
            0 <= i < b.len() ==> #[trigger] hex_text(b)[2 * i] == hex_digit(b[i] / 16) && hex_text(
                b,
            )[2 * i + 1] == hex_digit(b[i] % 16),
    decreases b.len(),
{
    if b.len() > 0 {
        lemma_hex_text_shape(b.drop_last());
        assert forall|i: int| 0 <= i < b.len() implies #[trigger] hex_text(b)[2 * i] == hex_digit(
            b[i] / 16,
        ) && hex_text(b)[2 * i + 1] == hex_digit(b[i] % 16) by {
            if i < b.len() - 1 {
                assert(b.drop_last()[i] == b[i]);
            }
        }
    }
}

/// The digit of a nibble is ASCII, and reads back as the nibble.
proof fn lemma_hex_digit(n: u8)
    requires
        n < 16,
    ensures
        '\0' <= hex_digit(n) <= '\u{7f}',
        nibble_value(hex_digit(n) as u8) == Some(n),
{
}

/// Reading back the hexadecimal text of bytes gives the bytes.
pub proof fn lemma_hex_round_trip(b: Seq<u8>)
    ensures
        spec_decode_hex(encode_utf8(hex_text(b))) == Ok::<Seq<u8>, HexError>(b),
{
    let t = hex_text(b);
    lemma_hex_text_shape(b);
    assert forall|i: int| 0 <= i < t.len() implies '\0' <= #[trigger] t[i] <= '\u{7f}' && nibble_value(
        t[i] as u8,
    ) is Some by {
        let k = i / 2;
        assert(t[2 * k] == hex_digit(b[k] / 16));
        if i % 2 == 0 {
            assert(i == 2 * k);
            lemma_hex_digit(b[k] / 16);
        } else {
            assert(i == 2 * k + 1);
            lemma_hex_digit(b[k] % 16);
        }
    }
    assert(is_ascii_chars(t));
    is_ascii_chars_encode_utf8(t);
    let s = encode_utf8(t);
    assert forall|i: int| 0 <= i < s.len() implies (#[trigger] nibble_value(s[i])) is Some by {
        assert(s[i] == t[i] as u8);
    }
    assert forall|k: int| 0 <= k < b.len() implies #[trigger] hex_bytes(s)[k] == b[k] by {
        lemma_hex_digit(b[k] / 16);
        lemma_hex_digit(b[k] % 16);
        assert(s[2 * k] == t[2 * k] as u8);
        assert(s[2 * k + 1] == t[2 * k + 1] as u8);
        assert(b[k] / 16 * 16 + b[k] % 16 == b[k]);
    }
    assert(hex_bytes(s) =~= b);
}

} // verus!
