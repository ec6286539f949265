//! Bytes as lower-case hexadecimal digits.
use crate::text::{characters, from_characters};
use vstd::prelude::*;

verus! {

pub open spec fn lower_hex_digit(c: char) -> bool {
    '0' <= c <= '9' || 'a' <= c <= 'f'
}

/// The digit with a value below sixteen.
pub open spec fn digit(value: int) -> char {
    "0123456789abcdef"@[value]
}

/// Two digits for each byte, the upper half first.
pub open spec fn hex_of(bytes: Seq<u8>) -> Seq<char> {
    Seq::new(
        2 * bytes.len(),
        |i: int|
            if i % 2 == 0 {
                digit(bytes[i / 2] as int / 16)
            } else {
                digit(bytes[i / 2] as int % 16)
            },
    )
}

pub fn encode(bytes: &[u8]) -> (r: String)
    ensures
        r@ == hex_of(bytes@),
{
    let digits = characters("0123456789abcdef");
    proof {
        reveal_strlit("0123456789abcdef");
    }
    let mut list: Vec<char> = Vec::new();
    for i in 0..bytes.len()
        invariant
            digits@ == "0123456789abcdef"@,
            digits@.len() == 16,
            list@.len() == 2 * i,
            forall|j: int| 0 <= j < 2 * i ==> list@[j] == hex_of(bytes@)[j],
    {
        let byte: u8 = bytes[i];
        list.push(digits[(byte / 16) as usize]);
        list.push(digits[(byte % 16) as usize]);
    }
    assert(list@ =~= hex_of(bytes@));
    from_characters(&list)
}

/// Every character is a lower-case hexadecimal digit.
pub proof fn lemma_hex_digits(bytes: Seq<u8>)
    ensures
        hex_of(bytes).len() == 2 * bytes.len(),
        forall|i: int| 0 <= i < hex_of(bytes).len() ==> lower_hex_digit(#[trigger] hex_of(bytes)[i]),
{
    reveal_strlit("0123456789abcdef");
    assert forall|v: int| 0 <= v < 16 implies lower_hex_digit(#[trigger] digit(v)) by {
        if v < 8 {
            if v < 4 {
                assert(v == 0 || v == 1 || v == 2 || v == 3);
            }
        }
    }
    assert forall|i: int| 0 <= i < hex_of(bytes).len() implies lower_hex_digit(
        #[trigger] hex_of(bytes)[i],
    ) by {
        let byte = bytes[i / 2] as int;
        assert(0 <= byte / 16 < 16 && 0 <= byte % 16 < 16);
        assert(lower_hex_digit(digit(byte / 16)));
        assert(lower_hex_digit(digit(byte % 16)));
    }
}

/// Different bytes have different digits.
pub proof fn lemma_hex_injective(a: Seq<u8>, b: Seq<u8>)
    requires
        hex_of(a) == hex_of(b),
    ensures
        a == b,
{
    assert(hex_of(a).len() == 2 * a.len() && hex_of(b).len() == 2 * b.len());
    assert forall|i: int| 0 <= i < a.len() implies a[i] == b[i] by {
        assert(hex_of(a)[2 * i] == digit(a[i] as int / 16));
        assert(hex_of(b)[2 * i] == digit(b[i] as int / 16));
        assert(hex_of(a)[2 * i + 1] == digit(a[i] as int % 16));
        assert(hex_of(b)[2 * i + 1] == digit(b[i] as int % 16));
        lemma_digit_injective(a[i] as int / 16, b[i] as int / 16);
        lemma_digit_injective(a[i] as int % 16, b[i] as int % 16);
    }
    assert(a =~= b);
}

proof fn lemma_digit_injective(a: int, b: int)
    requires
        0 <= a < 16,
        0 <= b < 16,
        digit(a) == digit(b),
    ensures
        a == b,
{
    reveal_strlit("0123456789abcdef");
}

} // verus!
