//! Boundary tokens: a fresh boundary is a block of random bytes rendered as
//! lowercase hexadecimal with a fixed two-character suffix, which makes a
//! collision with arbitrary part content vanishingly unlikely.

use vstd::prelude::*;
use rand::RngCore;

verus! {

/// A usable boundary token: nonempty, at most 70 characters, every
/// character printable ASCII and no whitespace.
pub open spec fn valid_boundary(s: Seq<char>) -> bool {
    &&& s.len() > 0
    &&& s.len() <= 70
    &&& forall|i: int| 0 <= i < s.len() ==> '!' <= #[trigger] s[i] <= '~'
}

/// The lowercase hexadecimal digit for a value below sixteen.
pub open spec fn hex_digit(n: u8) -> char {
    if n == 0 {
        '0'
    } else if n == 1 {
        '1'
    } else if n == 2 {
        '2'
    } else if n == 3 {
        '3'
    } else if n == 4 {
        '4'
    } else if n == 5 {
        '5'
    } else if n == 6 {
        '6'
    } else if n == 7 {
        '7'
    } else if n == 8 {
        '8'
    } else if n == 9 {
        '9'
    } else if n == 10 {
        'a'
    } else if n == 11 {
        'b'
    } else if n == 12 {
        'c'
    } else if n == 13 {
        'd'
    } else if n == 14 {
        'e'
    } else {
        'f'
    }
}

/// The lowercase hexadecimal rendering of a byte sequence, two digits per
/// byte, high nibble first.
pub open spec fn hex_chars(bytes: Seq<u8>) -> Seq<char>
    decreases bytes.len(),
{
    if bytes.len() == 0 {
        Seq::empty()
    } else {
        seq![hex_digit(bytes[0] / 16), hex_digit(bytes[0] % 16)] + hex_chars(bytes.drop_first())
    }
}

/// The boundary token derived from a block of bytes: its hexadecimal
/// rendering followed by the fixed suffix `xx`.
pub open spec fn boundary_of(bytes: Seq<u8>) -> Seq<char> {
    hex_chars(bytes) + seq!['x', 'x']
}

/// The hexadecimal rendering is two characters per byte.
pub proof fn lemma_hex_chars_len(bytes: Seq<u8>)
    ensures
        hex_chars(bytes).len() == 2 * bytes.len(),
    decreases bytes.len(),
{
    if bytes.len() > 0 {
        lemma_hex_chars_len(bytes.drop_first());
    }
}

proof fn lemma_hex_chars_take_step(bytes: Seq<u8>, i: int)
    requires
        0 <= i < bytes.len(),
    ensures
        hex_chars(bytes.take(i + 1)) == hex_chars(bytes.take(i)) + seq![
            hex_digit(bytes[i] / 16),
            hex_digit(bytes[i] % 16),
        ],
    decreases i,
{
    if i == 0 {
        assert(bytes.take(1)[0] == bytes[0]);
        assert(bytes.take(1).drop_first() =~= Seq::<u8>::empty());
        assert(bytes.take(0) =~= Seq::<u8>::empty());
        assert(hex_chars(bytes.take(1)) =~= hex_chars(bytes.take(0)) + seq![
            hex_digit(bytes[0] / 16),
            hex_digit(bytes[0] % 16),
        ]);
    } else {
        let t = bytes.drop_first();
        lemma_hex_chars_take_step(t, i - 1);
        assert(bytes.take(i + 1)[0] == bytes[0]);
        assert(bytes.take(i)[0] == bytes[0]);
        assert(bytes.take(i + 1).drop_first() =~= t.take(i));
        assert(bytes.take(i).drop_first() =~= t.take(i - 1));
        assert(t[i - 1] == bytes[i]);
        let d = seq![hex_digit(bytes[0] / 16), hex_digit(bytes[0] % 16)];
        let e = seq![hex_digit(bytes[i] / 16), hex_digit(bytes[i] % 16)];
        assert(d + (hex_chars(t.take(i - 1)) + e) =~= (d + hex_chars(t.take(i - 1))) + e);
    }
}

/// A lowercase hexadecimal digit.
pub open spec fn is_lower_hex(c: char) -> bool {
    ('0' <= c && c <= '9') || ('a' <= c && c <= 'f')
}

/// Every character of a hexadecimal rendering is a lowercase hexadecimal
/// digit, hence printable and not whitespace.
proof fn lemma_hex_chars_lower_hex(bytes: Seq<u8>)
    ensures
        forall|i: int| 0 <= i < hex_chars(bytes).len() ==> is_lower_hex(
            #[trigger] hex_chars(bytes)[i],
        ),
    decreases bytes.len(),
{
    if bytes.len() > 0 {
        lemma_hex_chars_lower_hex(bytes.drop_first());
        assert forall|i: int| 0 <= i < hex_chars(bytes).len() implies is_lower_hex(
            #[trigger] hex_chars(bytes)[i],
        ) by {
            if i == 0 {
                assert(hex_chars(bytes)[0] == hex_digit(bytes[0] / 16));
            } else if i == 1 {
                assert(hex_chars(bytes)[1] == hex_digit(bytes[0] % 16));
            } else {
                assert(hex_chars(bytes)[i] == hex_chars(bytes.drop_first())[i - 2]);
            }
        }
    }
}

/// The exact makeup of a boundary token: two lowercase hexadecimal digits
/// per byte, then the two-character suffix `xx` — and, for at most 34
/// bytes, a usable token.
pub proof fn lemma_boundary_of_shape(bytes: Seq<u8>)
    ensures
        boundary_of(bytes).len() == 2 * bytes.len() + 2,
        forall|i: int| 0 <= i < 2 * bytes.len() ==> is_lower_hex(#[trigger] boundary_of(bytes)[i]),
        boundary_of(bytes)[2 * bytes.len() as int] == 'x',
        boundary_of(bytes)[2 * bytes.len() as int + 1] == 'x',
        bytes.len() <= 34 ==> valid_boundary(boundary_of(bytes)),
{
    lemma_hex_chars_len(bytes);
    lemma_hex_chars_lower_hex(bytes);
    let b = boundary_of(bytes);
    assert forall|i: int| 0 <= i < 2 * bytes.len() implies is_lower_hex(#[trigger] b[i]) by {
        assert(b[i] == hex_chars(bytes)[i]);
    }
    assert forall|i: int| 0 <= i < b.len() implies '!' <= #[trigger] b[i] <= '~' by {
        if i < hex_chars(bytes).len() {
            assert(is_lower_hex(b[i]));
        } else {
            assert(b[i] == 'x');
        }
    }
}

/// The lowercase hexadecimal digit for a value below sixteen.
fn hex_digit_exec(n: u8) -> (c: char)
    requires
        n < 16,
    ensures
        c == hex_digit(n),
{
    if n == 0 {
        '0'
    } else if n == 1 {
        '1'
    } else if n == 2 {
        '2'
    } else if n == 3 {
        '3'
    } else if n == 4 {
        '4'
    } else if n == 5 {
        '5'
    } else if n == 6 {
        '6'
    } else if n == 7 {
        '7'
    } else if n == 8 {
        '8'
    } else if n == 9 {
        '9'
    } else if n == 10 {
        'a'
    } else if n == 11 {
        'b'
    } else if n == 12 {
        'c'
    } else if n == 13 {
        'd'
    } else if n == 14 {
        'e'
    } else {
        'f'
    }
}

/// Renders a block of bytes as a boundary token: lowercase hexadecimal,
/// high nibble first, with the fixed suffix `xx`.
pub fn boundary_from_bytes(bytes: &[u8]) -> (r: String)
    ensures
        r@ == boundary_of(bytes@),
{
    let len = bytes.len();
    let mut out = String::new();
    let mut i: usize = 0;
    while i < len
        invariant
            0 <= i <= len,
            len == bytes@.len(),
            out@ == hex_chars(bytes@.take(i as int)),
        decreases len - i,
    {
        let b = bytes[i];
        out.push(hex_digit_exec(b / 16));
        out.push(hex_digit_exec(b % 16));
        proof {
            lemma_hex_chars_take_step(bytes@, i as int);
            assert(out@ =~= hex_chars(bytes@.take(i as int)) + seq![
                hex_digit(bytes@[i as int] / 16),
                hex_digit(bytes@[i as int] % 16),
            ]);
        }
        i += 1;
    }
    out.push('x');
    out.push('x');
    proof {
        assert(bytes@.take(len as int) =~= bytes@);
        assert(out@ =~= boundary_of(bytes@));
    }
    out
}

/// Relies on `rand::thread_rng` and `rand::RngCore::fill_bytes`: fills the
/// buffer with cryptographically strong random bytes.
#[verifier::external_body]
fn random_block() -> (r: Vec<u8>)
    ensures
        r@.len() == 30,
{
    let mut bytes = [0u8; 30];
    rand::thread_rng().fill_bytes(&mut bytes);
    bytes.to_vec()
}

/// Returns a fresh boundary token: 30 random bytes in lowercase
/// hexadecimal, followed by the fixed suffix `xx`. Only the byte values are
/// left open — the token is the hexadecimal rendering of some 30-byte
/// block, so its first 60 characters are lowercase hexadecimal digits and
/// its last two are `xx`.
pub fn randomBoundary() -> (r: String)
    ensures
        valid_boundary(r@),
        r@.len() == 62,
        exists|bs: Seq<u8>| bs.len() == 30 && r@ == boundary_of(bs),
        forall|i: int| 0 <= i < 60 ==> is_lower_hex(#[trigger] r@[i]),
        r@[60] == 'x' && r@[61] == 'x',
{
    let block = random_block();
    let r = boundary_from_bytes(block.as_slice());
    proof {
        lemma_boundary_of_shape(block@);
        assert(block@.len() == 30 && r@ == boundary_of(block@));
    }
    r
}

} // verus!
