//! Verified rendering of machine integers: decimal text for envelope
//! timestamps and upper-case hex for certificate fingerprints.

use vstd::prelude::*;

verus! {

/// The decimal digit character for `d`.
pub open spec fn digit_char_of(d: int) -> char {
    if d == 0 {
        '0'
    } else if d == 1 {
        '1'
    } else if d == 2 {
        '2'
    } else if d == 3 {
        '3'
    } else if d == 4 {
        '4'
    } else if d == 5 {
        '5'
    } else if d == 6 {
        '6'
    } else if d == 7 {
        '7'
    } else if d == 8 {
        '8'
    } else {
        '9'
    }
}

/// The upper-case hexadecimal digit character for `d`.
pub open spec fn hex_char_of(d: int) -> char {
    if d < 10 {
        digit_char_of(d)
    } else if d == 10 {
        'A'
    } else if d == 11 {
        'B'
    } else if d == 12 {
        'C'
    } else if d == 13 {
        'D'
    } else if d == 14 {
        'E'
    } else {
        'F'
    }
}

/// The numeric value of a decimal digit character, `-1` for any other.
pub open spec fn digit_val(c: char) -> int {
    if c == '0' {
        0
    } else if c == '1' {
        1
    } else if c == '2' {
        2
    } else if c == '3' {
        3
    } else if c == '4' {
        4
    } else if c == '5' {
        5
    } else if c == '6' {
        6
    } else if c == '7' {
        7
    } else if c == '8' {
        8
    } else if c == '9' {
        9
    } else {
        -1
    }
}

/// Decimal digits of a positive number, empty for zero.
pub open spec fn dec_digits(n: int) -> Seq<char>
    decreases n,
{
    if n <= 0 {
        Seq::empty()
    } else {
        dec_digits(n / 10) + seq![digit_char_of(n % 10)]
    }
}

/// Decimal text of a non-negative number.
pub open spec fn spec_dec(n: int) -> Seq<char> {
    if n == 0 {
        seq!['0']
    } else {
        dec_digits(n)
    }
}

/// Upper-case hex text of a byte sequence, two digits per byte.
pub open spec fn hex_of(bytes: Seq<u8>) -> Seq<char>
    decreases bytes.len(),
{
    if bytes.len() == 0 {
        Seq::empty()
    } else {
        hex_of(bytes.drop_last()) + seq![
            hex_char_of(bytes.last() as int / 16),
            hex_char_of(bytes.last() as int % 16),
        ]
    }
}

/// Hex rendering yields two characters per byte.
pub proof fn lemma_hex_len(bytes: Seq<u8>)
    ensures
        hex_of(bytes).len() == 2 * bytes.len(),
    decreases bytes.len(),
{
    if bytes.len() > 0 {
        lemma_hex_len(bytes.drop_last());
    }
}

/// The number a digit sequence denotes.
pub open spec fn val_of_digits(s: Seq<char>) -> int
    decreases s.len(),
{
    if s.len() == 0 {
        0
    } else {
        val_of_digits(s.drop_last()) * 10 + digit_val(s.last())
    }
}

/// Decimal rendering round-trips through `val_of_digits`.
proof fn lemma_dec_digits_val(n: int)
    requires
        n >= 0,
    ensures
        val_of_digits(dec_digits(n)) == n,
    decreases n,
{
    if n > 0 {
        lemma_dec_digits_val(n / 10);
        assert(dec_digits(n).drop_last() =~= dec_digits(n / 10));
        assert(digit_val(digit_char_of(n % 10)) == n % 10);
    }
}

/// Decimal rendering is injective on non-negative numbers.
pub proof fn lemma_dec_injective(a: int, b: int)
    requires
        a >= 0,
        b >= 0,
        spec_dec(a) == spec_dec(b),
    ensures
        a == b,
{
    lemma_dec_digits_val(a);
    lemma_dec_digits_val(b);
    if a == 0 && b == 0 {
    } else if a == 0 {
        assert(val_of_digits(spec_dec(b)) == b);
        assert(val_of_digits(seq!['0']) == 0) by {
            assert(seq!['0'].drop_last() =~= Seq::<char>::empty());
        }
    } else if b == 0 {
        assert(val_of_digits(spec_dec(a)) == a);
        assert(val_of_digits(seq!['0']) == 0) by {
            assert(seq!['0'].drop_last() =~= Seq::<char>::empty());
        }
    } else {
        assert(val_of_digits(dec_digits(a)) == val_of_digits(dec_digits(b)));
    }
}

/// Appends one decimal digit character.
fn push_digit(out: &mut String, d: u8)
    requires
        d < 10,
    ensures
        final(out)@ == old(out)@ + seq![digit_char_of(d as int)],
{
    proof {
        reveal_strlit("0");
        reveal_strlit("1");
        reveal_strlit("2");
        reveal_strlit("3");
        reveal_strlit("4");
        reveal_strlit("5");
        reveal_strlit("6");
        reveal_strlit("7");
        reveal_strlit("8");
        reveal_strlit("9");
    }
    if d == 0 {
        out.append("0");
    } else if d == 1 {
        out.append("1");
    } else if d == 2 {
        out.append("2");
    } else if d == 3 {
        out.append("3");
    } else if d == 4 {
        out.append("4");
    } else if d == 5 {
        out.append("5");
    } else if d == 6 {
        out.append("6");
    } else if d == 7 {
        out.append("7");
    } else if d == 8 {
        out.append("8");
    } else {
        out.append("9");
    }
    assert(out@ =~= old(out)@ + seq![digit_char_of(d as int)]);
}

/// Appends one upper-case hex digit character.
fn push_hex_digit(out: &mut String, d: u8)
    requires
        d < 16,
    ensures
        final(out)@ == old(out)@ + seq![hex_char_of(d as int)],
{
    if d < 10 {
        push_digit(out, d);
    } else {
        proof {
            reveal_strlit("A");
            reveal_strlit("B");
            reveal_strlit("C");
            reveal_strlit("D");
            reveal_strlit("E");
            reveal_strlit("F");
        }
        if d == 10 {
            out.append("A");
        } else if d == 11 {
            out.append("B");
        } else if d == 12 {
            out.append("C");
        } else if d == 13 {
            out.append("D");
        } else if d == 14 {
            out.append("E");
        } else {
            out.append("F");
        }
        assert(out@ =~= old(out)@ + seq![hex_char_of(d as int)]);
    }
}

/// Renders a non-negative number in decimal; see [`spec_dec`].
pub fn dec_string(n: i64) -> (r: String)
    requires
        n >= 0,
    ensures
        r@ == spec_dec(n as int),
{
    let mut out = String::new();
    if n == 0 {
        push_digit(&mut out, 0);
        assert(out@ =~= spec_dec(0));
        return out;
    }
    let mut digits: Vec<u8> = Vec::new();
    let mut m: i64 = n;
    while m > 0
        invariant
            0 <= m <= n,
            forall|j: int| 0 <= j < digits@.len() ==> #[trigger] digits@[j] < 10,
            dec_digits(n as int) =~= dec_digits(m as int) + rev_digit_chars(digits@),
        decreases m,
    {
        let d: u8 = (m % 10) as u8;
        let ghost before = digits@;
        let ghost m0 = m as int;
        digits.push(d);
        m = m / 10;
        proof {
            assert(rev_digit_chars(digits@) =~= seq![digit_char_of(d as int)] + rev_digit_chars(
                before,
            ));
            assert(dec_digits(m0) =~= dec_digits(m as int) + seq![digit_char_of(d as int)]);
            assert(dec_digits(n as int) =~= dec_digits(m as int) + rev_digit_chars(digits@));
        }
    }
    let k: usize = digits.len();
    let mut i: usize = 0;
    while i < k
        invariant
            i <= k == digits@.len(),
            forall|j: int| 0 <= j < digits@.len() ==> #[trigger] digits@[j] < 10,
            dec_digits(n as int) =~= rev_digit_chars(digits@),
            out@ =~= rev_digit_chars(digits@).take(i as int),
        decreases k - i,
    {
        push_digit(&mut out, digits[k - 1 - i]);
        proof {
            assert(rev_digit_chars(digits@)[i as int] == digit_char_of(
                digits@[k - 1 - i] as int,
            ));
            assert(out@ =~= rev_digit_chars(digits@).take(i + 1));
        }
        i = i + 1;
    }
    proof {
        assert(rev_digit_chars(digits@).take(k as int) =~= rev_digit_chars(digits@));
        assert(out@ =~= spec_dec(n as int));
    }
    out
}

/// The digit characters of `ds` in reverse order.
pub open spec fn rev_digit_chars(ds: Seq<u8>) -> Seq<char> {
    Seq::new(ds.len(), |i: int| digit_char_of(ds[ds.len() - 1 - i] as int))
}

/// Renders bytes as upper-case hex; see [`hex_of`].
pub fn to_upper_hex(bytes: &[u8]) -> (r: String)
    ensures
        r@ == hex_of(bytes@),
{
    let n: usize = bytes.len();
    let mut out = String::new();
    let mut i: usize = 0;
    while i < n
        invariant
            i <= n == bytes@.len(),
            out@ =~= hex_of(bytes@.take(i as int)),
        decreases n - i,
    {
        let b: u8 = bytes[i];
        push_hex_digit(&mut out, b / 16);
        push_hex_digit(&mut out, b % 16);
        proof {
            assert(bytes@.take(i + 1).drop_last() =~= bytes@.take(i as int));
            assert(bytes@.take(i + 1).last() == bytes@[i as int]);
            assert(out@ =~= hex_of(bytes@.take(i + 1)));
        }
        i = i + 1;
    }
    proof {
        assert(bytes@.take(n as int) =~= bytes@);
    }
    out
}

} // verus!
