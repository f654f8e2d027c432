//! Conversion between hexadecimal text and byte buffers.
use vstd::prelude::*;
use crate::text::push_char;
use crate::XorError;

verus! {

/// `c` is one of `0-9`, `a-f`, `A-F`.
pub open spec fn is_hex_digit(c: char) -> bool {
    ('0' <= c && c <= '9') || ('a' <= c && c <= 'f') || ('A' <= c && c <= 'F')
}

/// Every character of `s` is a hex digit.
pub open spec fn all_hex(s: Seq<char>) -> bool {
    forall|i: int| 0 <= i < s.len() ==> is_hex_digit(#[trigger] s[i])
}

/// The value of a hex digit, in either case; zero for any other character.
pub open spec fn digit_value(c: char) -> int {
    if '0' <= c && c <= '9' {
        c as int - '0' as int
    } else if 'a' <= c && c <= 'f' {
        c as int - 'a' as int + 10
    } else if 'A' <= c && c <= 'F' {
        c as int - 'A' as int + 10
    } else {
        0
    }
}

/// The lower-case hex digit for a nibble `n < 16`.
pub open spec fn hex_char(n: int) -> char {
    if n < 10 {
        (n + '0' as int) as char
    } else {
        (n - 10 + 'a' as int) as char
    }
}

/// `c` with `A-F` turned to `a-f`.
pub open spec fn lower_hex_char(c: char) -> char {
    if 'A' <= c && c <= 'F' {
        (c as int - 'A' as int + 'a' as int) as char
    } else {
        c
    }
}

/// `s` with every `A-F` turned to `a-f`.
pub open spec fn lowercase(s: Seq<char>) -> Seq<char> {
    Seq::new(s.len(), |i: int| lower_hex_char(s[i]))
}

/// The low nibble of byte `i` of a decoded text: the digit after the high
/// one, or zero where the text ends first.
pub open spec fn low_nibble(s: Seq<char>, i: int) -> int {
    if 2 * i + 1 < s.len() {
        digit_value(s[2 * i + 1])
    } else {
        0
    }
}

/// The bytes a hex text stands for: one per pair of digits, high nibble
/// first, and an odd last digit taken as a high nibble over a zero.
pub open spec fn decoded(s: Seq<char>) -> Seq<u8> {
    Seq::new(
        ((s.len() + 1) / 2) as nat,
        |i: int| (16 * digit_value(s[2 * i]) + low_nibble(s, i)) as u8,
    )
}

/// Two lower-case hex digits per byte, high nibble first.
pub open spec fn encoded(b: Seq<u8>) -> Seq<char> {
    Seq::new(
        2 * b.len(),
        |i: int|
            if i % 2 == 0 {
                hex_char(b[i / 2] as int / 16)
            } else {
                hex_char(b[i / 2] as int % 16)
            },
    )
}

/// `j` is the first position of `s` that holds no hex digit.
pub open spec fn first_non_hex(s: Seq<char>, j: int) -> bool {
    &&& 0 <= j < s.len()
    &&& !is_hex_digit(s[j])
    &&& forall|k: int| 0 <= k < j ==> is_hex_digit(#[trigger] s[k])
}

/// The value of one hex digit.
pub fn hex_to_raw(h: char) -> (r: Result<u8, XorError>)
    ensures
        is_hex_digit(h) ==> r == Ok::<u8, XorError>(digit_value(h) as u8),
        !is_hex_digit(h) ==> r == Err::<u8, XorError>(XorError::InvalidHexDigit(h)),
        r matches Ok(v) ==> v < 16,
{
    if 'a' <= h && h <= 'f' {
        Ok(h as u8 - 'a' as u8 + 10)
    } else if 'A' <= h && h <= 'F' {
        Ok(h as u8 - 'A' as u8 + 10)
    } else if '0' <= h && h <= '9' {
        Ok(h as u8 - '0' as u8)
    } else {
        Err(XorError::InvalidHexDigit(h))
    }
}

fn nibble_to_char(nib: u8) -> (c: char)
    requires
        nib < 16,
    ensures
        c == hex_char(nib as int),
{
    if nib < 10 {
        (nib + '0' as u8) as char
    } else {
        (nib - 10 + 'a' as u8) as char
    }
}

/// The two lower-case hex digits of a byte, high nibble first.
pub fn raw_to_hex(raw: u8) -> (r: [char; 2])
    ensures
        r@ == seq![hex_char(raw as int / 16), hex_char(raw as int % 16)],
{
    let high = (raw & 0xF0) >> 4;
    let low = raw & 0xF;
    assert((raw & 0xF0) >> 4 == raw / 16 && raw & 0xF == raw % 16) by (bit_vector);
    let r = [nibble_to_char(high), nibble_to_char(low)];
    assert(r@ =~= seq![hex_char(raw as int / 16), hex_char(raw as int % 16)]);
    r
}

fn chars_of_string(s: &String) -> (r: Vec<char>)
    ensures
        r@ == s@,
{
    let text = s.as_str();
    let n = text.unicode_len();
    let mut chars: Vec<char> = Vec::new();
    for i in 0..n
        invariant
            n == text@.len(),
            text@ == s@,
            chars@ == s@.take(i as int),
    {
        chars.push(text.get_char(i));
        assert(s@.take(i + 1) =~= s@.take(i as int).push(s@[i as int]));
    }
    assert(s@.take(n as int) =~= s@);
    chars
}

/// Decodes hex text, in either case, into bytes; an odd last digit becomes
/// the high nibble of a last byte whose low nibble is zero. The first
/// character that is no hex digit makes it fail.
pub fn decode_hex(hex_string: String) -> (r: Result<Vec<u8>, XorError>)
    ensures
        all_hex(hex_string@) ==> (r matches Ok(v) && v@ == decoded(hex_string@)),
        !all_hex(hex_string@) ==> exists|j: int|
            first_non_hex(hex_string@, j) && r == Err::<Vec<u8>, XorError>(
                XorError::InvalidHexDigit(hex_string@[j]),
            ),
{
    let chars = chars_of_string(&hex_string);
    let ghost s = hex_string@;
    let n = chars.len();
    let pairs = n / 2 + n % 2;
    let mut decoded_bytes: Vec<u8> = Vec::new();
    for i in 0..pairs
        invariant
            chars@ == s,
            hex_string@ == s,
            n == s.len(),
            pairs == (s.len() + 1) / 2,
            decoded_bytes@ == decoded(s).take(i as int),
            forall|k: int| 0 <= k < 2 * i && k < s.len() ==> is_hex_digit(#[trigger] s[k]),
    {
        assert(2 * i < s.len());
        let at: usize = 2 * i;
        let upper = chars[at];
        let lower = if at + 1 < chars.len() {
            chars[at + 1]
        } else {
            '0'
        };
        let (hi, lo) = match (hex_to_raw(upper), hex_to_raw(lower)) {
            (Ok(hi), Ok(lo)) => (hi, lo),
            (Err(e), _) => {
                assert(first_non_hex(s, 2 * i));
                return Err(e);
            },
            (_, Err(e)) => {
                assert(first_non_hex(s, 2 * i + 1));
                return Err(e);
            },
        };
        assert((hi << 4) | lo == hi * 16 + lo) by (bit_vector)
            requires
                hi < 16,
                lo < 16,
        ;
        decoded_bytes.push((hi << 4) | lo);
        assert(decoded_bytes@ =~= decoded(s).take(i + 1));
    }
    assert(decoded_bytes@ =~= decoded(s));
    Ok(decoded_bytes)
}

/// Encodes bytes as lower-case hex text, two digits per byte.
pub fn encode_hex(raw_bytes: Vec<u8>) -> (r: String)
    ensures
        r@ == encoded(raw_bytes@),
{
    let mut hex_string = String::new();
    for i in 0..raw_bytes.len()
        invariant
            hex_string@ == encoded(raw_bytes@).take(2 * i),
    {
        let hex = raw_to_hex(raw_bytes[i]);
        push_char(&mut hex_string, hex[0]);
        push_char(&mut hex_string, hex[1]);
        assert(hex_string@ =~= encoded(raw_bytes@).take(2 * i + 2));
    }
    assert(hex_string@ =~= encoded(raw_bytes@));
    hex_string
}

proof fn lemma_hex_char_value(n: int)
    requires
        0 <= n < 16,
    ensures
        is_hex_digit(hex_char(n)),
        digit_value(hex_char(n)) == n,
{
}

proof fn lemma_value_hex_char(c: char)
    requires
        is_hex_digit(c),
    ensures
        0 <= digit_value(c) < 16,
        hex_char(digit_value(c)) == lower_hex_char(c),
{
}

/// Decoding what was encoded gives back the bytes.
pub proof fn lemma_decode_encode(b: Seq<u8>)
    ensures
        all_hex(encoded(b)),
        decoded(encoded(b)) == b,
{
    let e = encoded(b);
    assert forall|i: int| 0 <= i < e.len() implies is_hex_digit(#[trigger] e[i]) by {
        lemma_hex_char_value(b[i / 2] as int / 16);
        lemma_hex_char_value(b[i / 2] as int % 16);
    }
    assert forall|i: int| 0 <= i < b.len() implies #[trigger] decoded(e)[i] == b[i] by {
        assert((2 * i) / 2 == i);
        assert((2 * i + 1) / 2 == i);
        lemma_hex_char_value(b[i] as int / 16);
        lemma_hex_char_value(b[i] as int % 16);
    }
    assert(decoded(e) =~= b);
}

/// Encoding what was decoded from hex text of even length gives back that
/// text in lower case.
pub proof fn lemma_encode_decode(h: Seq<char>)
    requires
        all_hex(h),
        h.len() % 2 == 0,
    ensures
        encoded(decoded(h)) == lowercase(h),
{
    let d = decoded(h);
    assert forall|i: int| 0 <= i < h.len() implies #[trigger] encoded(d)[i] == lowercase(h)[i] by {
        let p = i / 2;
        lemma_value_hex_char(h[2 * p]);
        lemma_value_hex_char(h[2 * p + 1]);
        let v = 16 * digit_value(h[2 * p]) + digit_value(h[2 * p + 1]);
        assert(d[p] as int == v);
        assert(v / 16 == digit_value(h[2 * p]));
        assert(v % 16 == digit_value(h[2 * p + 1]));
    }
    assert(encoded(d) =~= lowercase(h));
}

} // verus!
