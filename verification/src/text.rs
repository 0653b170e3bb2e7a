//! Text renderings: bytes as hexadecimal digits, numbers as decimal digits.

use vstd::prelude::*;

verus! {

/// The sixteen lower-case hexadecimal digits, in order of value.
pub open spec fn hex_digits() -> Seq<char> {
    seq!['0', '1', '2', '3', '4', '5', '6', '7', '8', '9', 'a', 'b', 'c', 'd', 'e', 'f']
}

/// The value of the hexadecimal digit at position `i` of the rendering of
/// `bytes`: the high half of a byte comes first.
pub open spec fn hex_nibble(bytes: Seq<u8>, i: int) -> int {
    if i % 2 == 0 {
        bytes[i / 2] as int / 16
    } else {
        bytes[i / 2] as int % 16
    }
}

/// The lower-case hexadecimal rendering of `bytes`, two digits per byte.
pub open spec fn hex_encoding(bytes: Seq<u8>) -> Seq<char> {
    Seq::new(2 * bytes.len(), |i: int| hex_digits()[hex_nibble(bytes, i)])
}

/// The rendering is lossless: two byte sequences with the same rendering are
/// the same sequence.
pub proof fn lemma_hex_encoding_injective(a: Seq<u8>, b: Seq<u8>)
    requires
        hex_encoding(a) == hex_encoding(b),
    ensures
        a == b,
{
    assert(hex_encoding(a).len() == 2 * a.len());
    assert(hex_encoding(b).len() == 2 * b.len());
    assert(a.len() == b.len());
    assert forall|k: int| 0 <= k < a.len() implies a[k] == b[k] by {
        let hi: int = 2 * k;
        let lo: int = 2 * k + 1;
        assert(hi % 2 == 0 && hi / 2 == k);
        assert(lo % 2 == 1 && lo / 2 == k);
        assert(hex_nibble(a, hi) == a[k] as int / 16 && hex_nibble(b, hi) == b[k] as int / 16);
        assert(hex_nibble(a, lo) == a[k] as int % 16 && hex_nibble(b, lo) == b[k] as int % 16);
        assert(hex_encoding(a)[hi] == hex_digits()[hex_nibble(a, hi)]);
        assert(hex_encoding(b)[hi] == hex_digits()[hex_nibble(b, hi)]);
        assert(hex_encoding(a)[lo] == hex_digits()[hex_nibble(a, lo)]);
        assert(hex_encoding(b)[lo] == hex_digits()[hex_nibble(b, lo)]);
        lemma_hex_digits_distinct(a[k] as int / 16, b[k] as int / 16);
        lemma_hex_digits_distinct(a[k] as int % 16, b[k] as int % 16);
    }
    assert(a =~= b);
}

proof fn lemma_hex_digits_distinct(m: int, n: int)
    requires
        0 <= m < 16,
        0 <= n < 16,
        hex_digits()[m] == hex_digits()[n],
    ensures
        m == n,
{
}

/// The one-character string of a hexadecimal digit.
pub(crate) fn hex_digit_str(value: u8) -> (digit: &'static str)
    requires
        value < 16,
    ensures
        digit@ == seq![hex_digits()[value as int]],
{
    proof {
        reveal_strlit("0");
        reveal_strlit("1");
        reveal_strlit("2");
        reveal_strlit("3");
        reveal_strlit("4");
        reveal_strlit("5");
        reveal_strlit("6");
        reveal_strlit("7");
        reveal_strlit("8");
        reveal_strlit("9");
        reveal_strlit("a");
        reveal_strlit("b");
        reveal_strlit("c");
        reveal_strlit("d");
        reveal_strlit("e");
        reveal_strlit("f");
    }
    let digit: &'static str = match value {
        0 => "0",
        1 => "1",
        2 => "2",
        3 => "3",
        4 => "4",
        5 => "5",
        6 => "6",
        7 => "7",
        8 => "8",
        9 => "9",
        10 => "a",
        11 => "b",
        12 => "c",
        13 => "d",
        14 => "e",
        _ => "f",
    };
    assert(digit@ =~= seq![hex_digits()[value as int]]);
    digit
}

/// Renders a byte vector as text: two lower-case hexadecimal digits per byte,
/// so that equal strings mean equal bytes.
pub fn byte_vector_to_string(arr: &Vec<u8>) -> (text: String)
    ensures
        text@ == hex_encoding(arr@),
{
    let mut text = String::new();
    let mut i: usize = 0;
    while i < arr.len()
        invariant
            i <= arr.len(),
            text@ == hex_encoding(arr@.take(i as int)),
        decreases arr.len() - i,
    {
        let byte: u8 = arr[i];
        text.append(hex_digit_str(byte / 16));
        text.append(hex_digit_str(byte % 16));
        proof {
            let before = arr@.take(i as int);
            let after = arr@.take(i + 1);
            let pair = seq![hex_digits()[byte as int / 16], hex_digits()[byte as int % 16]];
            assert forall|j: int| 0 <= j < 2 * after.len() implies hex_encoding(after)[j] == (
            hex_encoding(before) + pair)[j] by {
                if j < 2 * i {
                    assert(after[j / 2] == before[j / 2]);
                } else {
                    assert(j / 2 == i as int);
                    assert(after[j / 2] == byte);
                }
            }
            assert(hex_encoding(after) =~= hex_encoding(before) + pair);
        }
        i = i + 1;
    }
    assert(arr@.take(i as int) =~= arr@);
    text
}

/// The decimal rendering of `n`, without leading zeros. The decimal digits
/// are the first ten of the hexadecimal ones.
pub open spec fn decimal_digits(n: nat) -> Seq<char>
    decreases n,
{
    if n < 10 {
        seq![hex_digits()[n as int]]
    } else {
        decimal_digits(n / 10).push(hex_digits()[(n % 10) as int])
    }
}

/// Renders a number in decimal digits.
pub fn decimal(n: u128) -> (text: String)
    ensures
        text@ == decimal_digits(n as nat),
    decreases n,
{
    if n < 10 {
        let digit: u8 = n as u8;
        String::from_str(hex_digit_str(digit))
    } else {
        let mut text = decimal(n / 10);
        let digit: u8 = (n % 10) as u8;
        text.append(hex_digit_str(digit));
        assert(text@ =~= decimal_digits(n as nat));
        text
    }
}

} // verus!
