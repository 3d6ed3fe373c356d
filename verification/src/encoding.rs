//! Base64 encoding.

use base64::engine::general_purpose::STANDARD as BASE64_STANDARD;
use base64::Engine as _;
use vstd::prelude::*;

verus! {

/// The byte that fills up incomplete groups.
pub const PADDING: u8 = 0x3d;

/// The byte for a six bit number: upper case letters, lower case letters, digits, `+` and `/`.
#[verifier::opaque]
pub open spec fn base64_digit(n: int) -> u8 {
    if n < 26 {
        (0x41 + n) as u8
    } else if n < 52 {
        (0x61 + n - 26) as u8
    } else if n < 62 {
        (0x30 + n - 52) as u8
    } else if n == 62 {
        0x2b
    } else {
        0x2f
    }
}

/// The byte at a position, zero behind the end.
pub open spec fn byte_at(bytes: Seq<u8>, i: int) -> int {
    if i < bytes.len() {
        bytes[i] as int
    } else {
        0
    }
}

/// The number of 24 bits that the first three bytes are, filled up with zero bits.
pub open spec fn group(bytes: Seq<u8>) -> int {
    byte_at(bytes, 0) * 0x10000 + byte_at(bytes, 1) * 0x100 + byte_at(bytes, 2)
}

/// The Base64 encoding of bytes: each group of three bytes is a number of 24 bits, written as
/// four digits of six bits. In an incomplete last group, padding takes the place of digits without
/// any bits of the group.
pub open spec fn base64_text(bytes: Seq<u8>) -> Seq<u8>
    decreases bytes.len(),
{
    if bytes.len() == 0 {
        Seq::empty()
    } else {
        let digits = seq![
            base64_digit(group(bytes) / 0x40000),
            base64_digit(group(bytes) / 0x1000 % 0x40),
            if bytes.len() >= 2 {
                base64_digit(group(bytes) / 0x40 % 0x40)
            } else {
                PADDING
            },
            if bytes.len() >= 3 {
                base64_digit(group(bytes) % 0x40)
            } else {
                PADDING
            },
        ];
        if bytes.len() <= 3 {
            digits
        } else {
            digits + base64_text(bytes.skip(3))
        }
    }
}

/// The bytes that a text is the Base64 encoding of, `None` if it is not a Base64 encoding.
pub open spec fn base64_decoded(text: Seq<u8>) -> Option<Seq<u8>> {
    if exists|bytes: Seq<u8>| text == #[trigger] base64_text(bytes) {
        Some(choose|bytes: Seq<u8>| text == #[trigger] base64_text(bytes))
    } else {
        None
    }
}

/// The error type of the `base64` crate.
#[verifier::external_type_specification]
#[verifier::external_body]
pub struct ExDecodeError(base64::DecodeError);

/// Calls `base64::Engine::decode` of the standard engine, which is strict: it accepts a text if
/// this is what encoding some bytes results in, with the usual alphabet, with padding, and without
/// bits left over. It returns these bytes.
#[verifier::external_body]
pub(crate) fn base64_decode(text: &[u8]) -> (r: Result<Vec<u8>, base64::DecodeError>)
    ensures
        match r {
            Ok(bytes) => text@ == base64_text(bytes@),
            Err(_) => forall|bytes: Seq<u8>| text@ != #[trigger] base64_text(bytes),
        },
{
    BASE64_STANDARD.decode(text)
}

/// Different digits are written differently, and none like padding. All of them are visible.
proof fn lemma_base64_digit(a: int, b: int)
    requires
        0 <= a < 0x40,
        0 <= b < 0x40,
    ensures
        base64_digit(a) == base64_digit(b) ==> a == b,
        base64_digit(a) != PADDING,
        base64_digit(b) != PADDING,
        0x2b <= base64_digit(a) <= 0x7a,
{
    reveal(base64_digit);
}

/// A number of 24 bits consists of four digits, and of three bytes.
proof fn lemma_group(bytes: Seq<u8>)
    ensures
        0 <= group(bytes) < 0x1000000,
        0 <= group(bytes) / 0x40000 < 0x40,
        group(bytes) == group(bytes) / 0x40000 * 0x40000 + group(bytes) / 0x1000 % 0x40 * 0x1000
            + group(bytes) / 0x40 % 0x40 * 0x40 + group(bytes) % 0x40,
        bytes.len() <= 1 ==> group(bytes) / 0x40 % 0x40 == 0,
        bytes.len() <= 2 ==> group(bytes) % 0x40 == 0,
        byte_at(bytes, 0) == group(bytes) / 0x10000,
        byte_at(bytes, 1) == group(bytes) / 0x100 % 0x100,
        byte_at(bytes, 2) == group(bytes) % 0x100,
{
    let x = byte_at(bytes, 0) as u8;
    let y = byte_at(bytes, 1) as u8;
    let z = byte_at(bytes, 2) as u8;
    let n = group(bytes) as u32;
    assert(n == x * 0x10000 + y * 0x100 + z);
    assert(n == x * 0x10000 + y * 0x100 + z ==> {
        &&& n == n / 0x40000 * 0x40000 + n / 0x1000 % 0x40 * 0x1000 + n / 0x40 % 0x40 * 0x40 + n
            % 0x40
        &&& n / 0x40000 < 0x40
        &&& y == 0 && z == 0 ==> n / 0x40 % 0x40 == 0
        &&& z == 0 ==> n % 0x40 == 0
        &&& x == n / 0x10000
        &&& y == n / 0x100 % 0x100
        &&& z == n % 0x100
    }) by (bit_vector);
}

/// A Base64 text consists of digits and padding.
pub proof fn lemma_base64_text_bytes(bytes: Seq<u8>)
    ensures
        forall|i: int|
            0 <= i < base64_text(bytes).len() ==> 0x2b <= #[trigger] base64_text(bytes)[i] <= 0x7a,
    decreases bytes.len(),
{
    if bytes.len() > 0 {
        lemma_group(bytes);
        let n = group(bytes);
        lemma_base64_digit(n / 0x40000, n / 0x1000 % 0x40);
        lemma_base64_digit(n / 0x1000 % 0x40, n / 0x40000);
        lemma_base64_digit(n / 0x40 % 0x40, n % 0x40);
        lemma_base64_digit(n % 0x40, n / 0x40 % 0x40);
    }
    if bytes.len() > 3 {
        lemma_base64_text_bytes(bytes.skip(3));
        assert forall|i: int| 4 <= i < base64_text(bytes).len() implies 0x2b
            <= #[trigger] base64_text(bytes)[i] <= 0x7a by {
            assert(base64_text(bytes)[i] == base64_text(bytes.skip(3))[i - 4]);
        }
    }
}

/// The first four bytes of a Base64 text determine the first three bytes it stands for.
proof fn lemma_first_group_is_unique(a: Seq<u8>, b: Seq<u8>)
    requires
        a.len() > 0,
        b.len() > 0,
        forall|i: int| 0 <= i < 4 ==> base64_text(a)[i] == base64_text(b)[i],
    ensures
        a.len() >= 2 <==> b.len() >= 2,
        a.len() >= 3 <==> b.len() >= 3,
        forall|i: int| 0 <= i < 3 ==> byte_at(a, i) == byte_at(b, i),
{
    let m = group(a);
    let n = group(b);
    lemma_group(a);
    lemma_group(b);
    lemma_base64_digit(m / 0x40000, n / 0x40000);
    lemma_base64_digit(m / 0x1000 % 0x40, n / 0x1000 % 0x40);
    lemma_base64_digit(m / 0x40 % 0x40, n / 0x40 % 0x40);
    lemma_base64_digit(m % 0x40, n % 0x40);
    assert(base64_text(a)[0] == base64_text(b)[0]);
    assert(base64_text(a)[1] == base64_text(b)[1]);
    assert(base64_text(a)[2] == base64_text(b)[2]);
    assert(base64_text(a)[3] == base64_text(b)[3]);
    assert(m == n);
}

/// No text is the Base64 encoding of different bytes.
pub proof fn lemma_base64_text_is_unique(a: Seq<u8>, b: Seq<u8>)
    requires
        base64_text(a) == base64_text(b),
    ensures
        a == b,
    decreases a.len(),
{
    if a.len() > 0 && b.len() > 0 {
        lemma_first_group_is_unique(a, b);
        assert(byte_at(a, 0) == byte_at(b, 0));
        assert(byte_at(a, 1) == byte_at(b, 1));
        assert(byte_at(a, 2) == byte_at(b, 2));
        if a.len() > 3 {
            assert(base64_text(a).skip(4) =~= base64_text(a.skip(3)));
            assert(base64_text(a.skip(3)).len() > 0);
        }
        if b.len() > 3 {
            assert(base64_text(b).skip(4) =~= base64_text(b.skip(3)));
            assert(base64_text(b.skip(3)).len() > 0);
        }
        if a.len() > 3 {
            lemma_base64_text_is_unique(a.skip(3), b.skip(3));
        }
        assert forall|i: int| 0 <= i < a.len() implies a[i] == b[i] by {
            if i >= 3 {
                assert(a[i] == a.skip(3)[i - 3]);
                assert(b[i] == b.skip(3)[i - 3]);
            }
        }
    }
    assert(base64_text(a).len() == 0 <==> a.len() == 0);
    assert(base64_text(b).len() == 0 <==> b.len() == 0);
    assert(a =~= b);
}

/// Decoding the Base64 encoding of bytes results in these bytes.
pub proof fn law_base64_is_decoded(bytes: Seq<u8>)
    ensures
        base64_decoded(base64_text(bytes)) == Some(bytes),
{
    let text = base64_text(bytes);
    let decoded = choose|decoded: Seq<u8>| text == #[trigger] base64_text(decoded);
    assert(text == base64_text(bytes));
    lemma_base64_text_is_unique(bytes, decoded);
}

/// The first three bytes are encoded on their own, as four digits that together are the number
/// which these bytes are. The lengths tell how much padding there is.
pub proof fn law_base64_groups(bytes: Seq<u8>, rest: Seq<u8>)
    requires
        bytes.len() == 3,
    ensures
        base64_text(bytes + rest) == base64_text(bytes) + base64_text(rest),
        base64_text(bytes).len() == 4,
        exists|a: int, b: int, c: int, d: int|
            {
                &&& 0 <= a < 64 && 0 <= b < 64 && 0 <= c < 64 && 0 <= d < 64
                &&& bytes[0] * 65536 + bytes[1] * 256 + bytes[2] == a * 262144 + b * 4096 + c * 64
                    + d
                &&& base64_text(bytes) == seq![
                    #[trigger] base64_digit(a),
                    #[trigger] base64_digit(b),
                    #[trigger] base64_digit(c),
                    #[trigger] base64_digit(d),
                ]
            },
        base64_text(bytes.take(2)) == base64_text(bytes.update(2, 0)).update(3, 0x3d),
        base64_text(bytes.take(1)) == base64_text(bytes.update(1, 0).update(2, 0)).update(
            2,
            0x3d,
        ).update(3, 0x3d),
        base64_text(Seq::empty()) == Seq::<u8>::empty(),
{
    lemma_group(bytes);
    let n = group(bytes);
    assert(base64_text(bytes) =~= seq![
        base64_digit(n / 0x40000),
        base64_digit(n / 0x1000 % 0x40),
        base64_digit(n / 0x40 % 0x40),
        base64_digit(n % 0x40),
    ]);
    if rest.len() == 0 {
        assert(bytes + rest =~= bytes);
        assert(base64_text(bytes) + base64_text(rest) =~= base64_text(bytes));
    } else {
        assert((bytes + rest).skip(3) =~= rest);
        assert(group(bytes + rest) == group(bytes));
        assert(base64_text(bytes + rest) =~= base64_text(bytes) + base64_text(rest));
    }
    assert(group(bytes.take(2)) == group(bytes.update(2, 0)));
    assert(base64_text(bytes.take(2)) =~= base64_text(bytes.update(2, 0)).update(3, 0x3d));
    let first = bytes.update(1, 0).update(2, 0);
    assert(group(bytes.take(1)) == group(first));
    assert(base64_text(bytes.take(1)) =~= base64_text(first).update(2, 0x3d).update(3, 0x3d));
}

/// The digits are the upper case letters, the lower case letters, the decimal digits, `+` and `/`.
pub proof fn law_base64_digits(n: int)
    requires
        0 <= n < 64,
    ensures
        base64_digit(n) == (if n < 26 {
            0x41 + n
        } else if n < 52 {
            0x61 + (n - 26)
        } else if n < 62 {
            0x30 + (n - 52)
        } else if n == 62 {
            0x2b
        } else {
            0x2f
        }),
{
    reveal(base64_digit);
}

/// Only Base64 encodings can be decoded.
pub proof fn law_only_base64_is_decoded(text: Seq<u8>)
    ensures
        base64_decoded(text) is Some <==> exists|bytes: Seq<u8>| text == #[trigger]
            base64_text(bytes),
        base64_decoded(text) matches Some(bytes) ==> text == base64_text(bytes),
{
}

} // verus!
