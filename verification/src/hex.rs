//! Lowercase hexadecimal rendering of byte strings, used by the directory
//! naming scheme.

use vstd::prelude::*;

verus! {

/// The lowercase hexadecimal digit for a value below sixteen.
pub open spec fn hex_digit(n: u8) -> char
    recommends
        n < 16,
{
    if n == 0 {
        '0'
    } else if n == 1 {
        '1'
    } else if n == 2 {
        '2'
    } else if n == 3 {
        '3'
    } else if n == 4 {
        '4'
    } else if n == 5 {
        '5'
    } else if n == 6 {
        '6'
    } else if n == 7 {
        '7'
    } else if n == 8 {
        '8'
    } else if n == 9 {
        '9'
    } else if n == 10 {
        'a'
    } else if n == 11 {
        'b'
    } else if n == 12 {
        'c'
    } else if n == 13 {
        'd'
    } else if n == 14 {
        'e'
    } else {
        'f'
    }
}

/// One byte becomes two digits, high nibble first.
pub open spec fn hex_of_byte(b: u8) -> Seq<char> {
    seq![hex_digit(b / 16), hex_digit(b % 16)]
}

/// The hexadecimal rendering of a byte string.
pub open spec fn hex_str_of(bs: Seq<u8>) -> Seq<char>
    decreases bs.len(),
{
    if bs.len() == 0 {
        Seq::empty()
    } else {
        hex_of_byte(bs[0]) + hex_str_of(bs.drop_first())
    }
}

pub proof fn lemma_hex_str_len(bs: Seq<u8>)
    ensures
        hex_str_of(bs).len() == 2 * bs.len(),
    decreases bs.len(),
{
    if bs.len() > 0 {
        lemma_hex_str_len(bs.drop_first());
    }
}

/// Relies on rustc_hex's `ToHex` for `[u8]`: each byte becomes two lowercase
/// hexadecimal digits, high nibble first, in input order.
#[verifier::external_body]
pub(crate) fn to_hex(bytes: &Vec<u8>) -> (r: String)
    ensures
        r@ == hex_str_of(bytes@),
{
    rustc_hex::ToHex::to_hex::<String>(bytes.as_slice())
}

pub proof fn lemma_hex_digit_injective(a: u8, b: u8)
    requires
        a < 16,
        b < 16,
        hex_digit(a) == hex_digit(b),
    ensures
        a == b,
{
}

pub proof fn lemma_hex_of_byte_injective(a: u8, b: u8)
    requires
        hex_of_byte(a) == hex_of_byte(b),
    ensures
        a == b,
{
    assert(hex_of_byte(a)[0] == hex_of_byte(b)[0]);
    assert(hex_of_byte(a)[1] == hex_of_byte(b)[1]);
    lemma_hex_digit_injective(a / 16, b / 16);
    lemma_hex_digit_injective(a % 16, b % 16);
}

/// Two byte strings with the same hexadecimal rendering are the same string.
pub proof fn lemma_hex_str_injective(xs: Seq<u8>, ys: Seq<u8>)
    requires
        hex_str_of(xs) == hex_str_of(ys),
    ensures
        xs == ys,
    decreases xs.len(),
{
    lemma_hex_str_len(xs);
    lemma_hex_str_len(ys);
    if xs.len() == 0 {
        assert(xs =~= ys);
    } else {
        assert(hex_str_of(xs)[0] == hex_str_of(ys)[0]);
        assert(hex_str_of(xs)[1] == hex_str_of(ys)[1]);
        assert(hex_str_of(xs)[0] == hex_digit(xs[0] / 16));
        assert(hex_str_of(xs)[1] == hex_digit(xs[0] % 16));
        assert(hex_str_of(ys)[0] == hex_digit(ys[0] / 16));
        assert(hex_str_of(ys)[1] == hex_digit(ys[0] % 16));
        lemma_hex_digit_injective(xs[0] / 16, ys[0] / 16);
        lemma_hex_digit_injective(xs[0] % 16, ys[0] % 16);
        assert(xs[0] == ys[0]);
        assert(hex_str_of(xs.drop_first()) =~= hex_str_of(xs).subrange(
            2,
            hex_str_of(xs).len() as int,
        )) by {
            assert forall|i: int| 0 <= i < hex_str_of(xs.drop_first()).len() implies hex_str_of(
                xs.drop_first(),
            )[i] == hex_str_of(xs)[i + 2] by {
                assert(hex_str_of(xs)[i + 2] == (hex_of_byte(xs[0]) + hex_str_of(
                    xs.drop_first(),
                ))[i + 2]);
            }
            lemma_hex_str_len(xs.drop_first());
        }
        assert(hex_str_of(ys.drop_first()) =~= hex_str_of(ys).subrange(
            2,
            hex_str_of(ys).len() as int,
        )) by {
            assert forall|i: int| 0 <= i < hex_str_of(ys.drop_first()).len() implies hex_str_of(
                ys.drop_first(),
            )[i] == hex_str_of(ys)[i + 2] by {
                assert(hex_str_of(ys)[i + 2] == (hex_of_byte(ys[0]) + hex_str_of(
                    ys.drop_first(),
                ))[i + 2]);
            }
            lemma_hex_str_len(ys.drop_first());
        }
        lemma_hex_str_injective(xs.drop_first(), ys.drop_first());
        assert forall|i: int| 0 <= i < xs.len() implies xs[i] == ys[i] by {
            if i > 0 {
                assert(xs[i] == xs.drop_first()[i - 1]);
                assert(ys[i] == ys.drop_first()[i - 1]);
            }
        }
        assert(xs =~= ys);
    }
}

} // verus!
