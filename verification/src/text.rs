//! Text and byte helpers shared by the request handling modules.

use vstd::prelude::*;
use vstd::string::*;
use vstd::utf8::*;

verus! {

/// The character for a decimal digit.
pub open spec fn digit(d: nat) -> char {
    (0x30 + d) as char
}

/// The decimal representation of a number, without leading zeros.
pub open spec fn decimal(n: nat) -> Seq<char>
    decreases n,
{
    if n < 10 {
        seq![digit(n)]
    } else {
        decimal(n / 10).push(digit(n % 10))
    }
}

/// Decimal representations consist of digits only.
pub proof fn lemma_decimal_digits(n: nat)
    ensures
        decimal(n).len() > 0,
        forall|i: int| 0 <= i < decimal(n).len() ==> '0' <= #[trigger] decimal(n)[i] <= '9',
    decreases n,
{
    if n >= 10 {
        lemma_decimal_digits(n / 10);
    }
}

/// A text consisting of a single digit.
fn digit_str(d: usize) -> (r: &'static str)
    requires
        d < 10,
    ensures
        r@ == seq![digit(d as nat)],
{
    proof {
        reveal_strlit("0");
        reveal_strlit("1");
        reveal_strlit("2");
        reveal_strlit("3");
        reveal_strlit("4");
        reveal_strlit("5");
        reveal_strlit("6");
        reveal_strlit("7");
        reveal_strlit("8");
        reveal_strlit("9");
    }
    match d {
        0 => "0",
        1 => "1",
        2 => "2",
        3 => "3",
        4 => "4",
        5 => "5",
        6 => "6",
        7 => "7",
        8 => "8",
        _ => "9",
    }
}

/// Formats a number in decimal notation.
pub fn decimal_string(n: usize) -> (r: String)
    ensures
        r@ == decimal(n as nat),
    decreases n,
{
    if n < 10 {
        digit_str(n).to_owned()
    } else {
        let mut text = decimal_string(n / 10);
        text.append(digit_str(n % 10));
        text
    }
}

/// The number of bytes before the first occurrence of the given byte, the number of all bytes if
/// there is none.
pub open spec fn position(bytes: Seq<u8>, byte: u8) -> nat
    decreases bytes.len(),
{
    if bytes.len() == 0 || bytes[0] == byte {
        0
    } else {
        1 + position(bytes.skip(1), byte)
    }
}

/// At the position of a byte stands this byte, and nowhere before it.
pub proof fn lemma_position(bytes: Seq<u8>, byte: u8)
    ensures
        position(bytes, byte) <= bytes.len(),
        position(bytes, byte) < bytes.len() ==> bytes[position(bytes, byte) as int] == byte,
        forall|i: int| 0 <= i < position(bytes, byte) ==> #[trigger] bytes[i] != byte,
    decreases bytes.len(),
{
    if bytes.len() > 0 && bytes[0] != byte {
        lemma_position(bytes.skip(1), byte);
        assert forall|i: int| 0 <= i < position(bytes, byte) implies #[trigger] bytes[i]
            != byte by {
            if i > 0 {
                assert(bytes[i] == bytes.skip(1)[i - 1]);
            }
        }
    }
}

/// Finds the first occurrence of a byte at or after the given offset. Without one, the result is
/// the end of the bytes.
pub fn find_byte(bytes: &[u8], from: usize, byte: u8) -> (r: usize)
    requires
        from <= bytes.len(),
    ensures
        from <= r <= bytes.len(),
        r == from + position(bytes@.skip(from as int), byte),
        r < bytes.len() ==> bytes[r as int] == byte,
        forall|i: int| from <= i < r ==> #[trigger] bytes@[i] != byte,
{
    let mut i: usize = from;
    while i < bytes.len() && bytes[i] != byte
        invariant
            from <= i <= bytes.len(),
            i + position(bytes@.skip(i as int), byte) == from + position(
                bytes@.skip(from as int),
                byte,
            ),
            forall|j: int| from <= j < i ==> #[trigger] bytes@[j] != byte,
        decreases bytes.len() - i,
    {
        assert(bytes@.skip(i as int).skip(1) =~= bytes@.skip(i + 1));
        i += 1;
    }
    i
}

/// Adds bytes to the end of a buffer.
pub fn append_bytes(buffer: &mut Vec<u8>, bytes: &[u8])
    ensures
        final(buffer)@ == old(buffer)@ + bytes@,
{
    buffer.extend_from_slice(bytes);
    assert(buffer@ =~= old(buffer)@ + bytes@);
}

/// Compares two byte sequences.
pub fn same_bytes(a: &[u8], b: &[u8]) -> (r: bool)
    ensures
        r == (a@ == b@),
{
    if a.len() != b.len() {
        return false;
    }
    let mut i: usize = 0;
    while i < a.len()
        invariant
            i <= a.len(),
            a.len() == b.len(),
            forall|j: int| 0 <= j < i ==> a@[j] == b@[j],
        decreases a.len() - i,
    {
        if a[i] != b[i] {
            return false;
        }
        i += 1;
    }
    assert(a@ =~= b@);
    true
}

/// Calls `String::from_utf8`, which turns bytes into the text that they encode in UTF-8. It
/// fails if the bytes are not valid UTF-8.
#[verifier::external_body]
pub(crate) fn utf8_text(bytes: Vec<u8>) -> (r: Option<String>)
    ensures
        match r {
            Some(text) => valid_utf8(bytes@) && text@ == decode_utf8(bytes@),
            None => !valid_utf8(bytes@),
        },
{
    String::from_utf8(bytes).ok()
}

/// The UTF-8 encoding of a text contains an ASCII byte only if the text contains the character.
pub proof fn lemma_no_ascii_byte(text: Seq<char>, byte: u8)
    requires
        byte < 0x80,
        forall|i: int| 0 <= i < text.len() ==> #[trigger] text[i] as u32 != byte,
    ensures
        forall|i: int| 0 <= i < encode_utf8(text).len() ==> #[trigger] encode_utf8(text)[i] != byte,
    decreases text.len(),
{
    if text.len() > 0 {
        let scalar = text[0] as u32;
        let head = encode_scalar(scalar);
        let rest = text.drop_first();
        assert forall|i: int| 0 <= i < rest.len() implies #[trigger] rest[i] as u32 != byte by {
            assert(rest[i] == text[i + 1]);
        }
        lemma_no_ascii_byte(rest, byte);
        assert(scalar < 0x80 ==> (scalar & 0x7F) as u8 == scalar) by (bit_vector);
        assert(0xC0 | ((scalar >> 6) & 0x1F) as u8 >= 0x80) by (bit_vector);
        assert(0xE0 | ((scalar >> 12) & 0x0F) as u8 >= 0x80) by (bit_vector);
        assert(0xF0 | ((scalar >> 18) & 0x7) as u8 >= 0x80) by (bit_vector);
        assert(0x80 | (scalar & 0x3F) as u8 >= 0x80) by (bit_vector);
        assert(0x80 | ((scalar >> 6) & 0x3F) as u8 >= 0x80) by (bit_vector);
        assert(0x80 | ((scalar >> 12) & 0x3F) as u8 >= 0x80) by (bit_vector);
        assert forall|i: int| 0 <= i < encode_utf8(text).len() implies #[trigger] encode_utf8(
            text,
        )[i] != byte by {
            if i < head.len() {
                assert(encode_utf8(text)[i] == head[i]);
            } else {
                assert(encode_utf8(text)[i] == encode_utf8(rest)[i - head.len()]);
            }
        }
    }
}

/// Compares two texts.
pub fn same_text(a: &str, b: &str) -> (r: bool)
    ensures
        r == (a@ == b@),
{
    proof {
        encode_utf8_decode_utf8(a@);
        encode_utf8_decode_utf8(b@);
    }
    same_bytes(a.as_bytes(), b.as_bytes())
}

/// Writing a digit behind the decimal representation of a number other than zero results in the
/// decimal representation of ten times the number plus the digit. A digit represents itself.
pub proof fn law_decimal(n: nat, d: nat)
    requires
        d < 10,
    ensures
        decimal(d) == seq![(('0' as u32) + d) as char],
        n > 0 ==> decimal(10 * n + d) == decimal(n).push((('0' as u32) + d) as char),
{
    if n > 0 {
        assert((10 * n + d) / 10 == n && (10 * n + d) % 10 == d);
    }
}

/// Different numbers have different decimal representations.
pub proof fn law_decimal_is_unique(a: nat, b: nat)
    requires
        decimal(a) == decimal(b),
    ensures
        a == b,
    decreases a,
{
    lemma_decimal_digits(a / 10);
    lemma_decimal_digits(b / 10);
    assert(decimal(a).last() == decimal(b).last());
    assert(decimal(a).last() as u32 == 0x30 + a % 10);
    assert(decimal(b).last() as u32 == 0x30 + b % 10);
    if a >= 10 && b >= 10 {
        assert(decimal(a).drop_last() =~= decimal(a / 10));
        assert(decimal(b).drop_last() =~= decimal(b / 10));
        law_decimal_is_unique(a / 10, b / 10);
    }
}

/// The position of a byte is the only one where this byte stands and nowhere before it.
pub proof fn lemma_position_is_first(bytes: Seq<u8>, byte: u8, pos: nat)
    requires
        pos <= bytes.len(),
        pos < bytes.len() ==> bytes[pos as int] == byte,
        forall|i: int| 0 <= i < pos ==> #[trigger] bytes[i] != byte,
    ensures
        position(bytes, byte) == pos,
{
    lemma_position(bytes, byte);
    let found = position(bytes, byte) as int;
    if found < pos {
        assert(bytes[found] != byte);
    }
    if found > pos {
        assert(bytes[pos as int] != byte);
    }
}

} // verus!
