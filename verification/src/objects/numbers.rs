//! Decimal text of unsigned integers: the `{}` and `{:06}` formats, and
//! `str::parse` for unsigned types.
use vstd::prelude::*;

verus! {

/// `c` is an ASCII decimal digit.
pub open spec fn is_digit(c: u8) -> bool {
    48 <= c <= 57
}

/// Every byte of `d` is a decimal digit.
pub open spec fn all_digits(d: Seq<u8>) -> bool {
    forall|i: int| 0 <= i < d.len() ==> #[trigger] is_digit(d[i])
}

/// The decimal text of `n`, without leading zeros (as `format!("{}", n)`).
pub open spec fn decimal(n: nat) -> Seq<u8>
    decreases n,
{
    if n < 10 {
        seq![(48 + n) as u8]
    } else {
        decimal(n / 10).push((48 + n % 10) as u8)
    }
}

/// `digits` padded on the left with `0` up to `width` characters
/// (as `format!("{:06}", n)` does for width 6).
pub open spec fn zero_padded(digits: Seq<u8>, width: nat) -> Seq<u8> {
    if digits.len() < width {
        Seq::new((width - digits.len()) as nat, |i: int| 48u8) + digits
    } else {
        digits
    }
}

/// The number that decimal digits stand for, read from the left onto `acc`.
pub open spec fn value_from(acc: nat, d: Seq<u8>) -> nat
    decreases d.len(),
{
    if d.len() == 0 {
        acc
    } else {
        value_from(acc * 10 + (d[0] - 48) as nat, d.drop_first())
    }
}

/// The digits of an unsigned number's text: an optional leading `+` is dropped.
pub open spec fn unsigned_digits(s: Seq<u8>) -> Seq<u8> {
    if s.len() > 0 && s[0] == 43 {
        s.drop_first()
    } else {
        s
    }
}

/// Why a text does not read as an unsigned number (as `std::num::IntErrorKind`).
#[derive(Clone, Copy, Debug, PartialEq, Eq, Structural)]
pub enum IntErrorKind {
    Empty,
    InvalidDigit,
    PosOverflow,
}

/// Reads digits from the left onto the value `acc` read so far, as std does:
/// each character must be a digit, and each new value must stay at most `max`;
/// the first character that breaks either rule decides the error.
pub open spec fn scan_digits(d: Seq<u8>, max: nat, acc: nat) -> Result<nat, IntErrorKind>
    decreases d.len(),
{
    if d.len() == 0 {
        Ok(acc)
    } else if !is_digit(d[0]) {
        Err(IntErrorKind::InvalidDigit)
    } else if acc * 10 + (d[0] - 48) > max {
        Err(IntErrorKind::PosOverflow)
    } else {
        scan_digits(d.drop_first(), max, (acc * 10 + (d[0] - 48)) as nat)
    }
}

/// What `str::parse` gives for an unsigned integer type whose largest value
/// is `max`: an empty text is `Empty`; a lone `+` is an invalid digit;
/// otherwise an optional `+` is dropped and the digits are read from the left.
pub open spec fn parse_unsigned(s: Seq<u8>, max: nat) -> Result<nat, IntErrorKind> {
    if s.len() == 0 {
        Err(IntErrorKind::Empty)
    } else if s.len() == 1 && s[0] == 43 {
        Err(IntErrorKind::InvalidDigit)
    } else {
        scan_digits(unsigned_digits(s), max, 0)
    }
}

/// A value read without error is at most the largest value.
pub proof fn lemma_scan_digits_bound(d: Seq<u8>, max: nat, acc: nat)
    requires
        acc <= max,
    ensures
        scan_digits(d, max, acc) matches Ok(v) ==> v <= max,
    decreases d.len(),
{
    if d.len() > 0 && is_digit(d[0]) && acc * 10 + (d[0] - 48) <= max {
        lemma_scan_digits_bound(d.drop_first(), max, (acc * 10 + (d[0] - 48)) as nat);
    }
}

/// Reading one more digit multiplies by ten and adds it.
proof fn lemma_value_from_push(acc: nat, d: Seq<u8>, c: u8)
    ensures
        value_from(acc, d.push(c)) == value_from(acc, d) * 10 + (c - 48) as nat,
    decreases d.len(),
{
    if d.len() == 0 {
        assert(d.push(c).drop_first() =~= Seq::<u8>::empty());
        assert(d.push(c)[0] == c);
        assert(value_from(acc, d.push(c)) == value_from(acc * 10 + (c - 48) as nat, Seq::<u8>::empty()));
    } else {
        assert(d.push(c).drop_first() =~= d.drop_first().push(c));
        assert(d.push(c)[0] == d[0]);
        lemma_value_from_push(acc * 10 + (d[0] - 48) as nat, d.drop_first(), c);
    }
}

/// Reading digits never lowers the value.
proof fn lemma_value_from_grows(acc: nat, d: Seq<u8>)
    requires
        all_digits(d),
    ensures
        acc <= value_from(acc, d),
        d.len() > 0 ==> acc * 10 + (d[0] - 48) <= value_from(acc, d),
    decreases d.len(),
{
    if d.len() > 0 {
        assert(is_digit(d[0]));
        assert(all_digits(d.drop_first())) by {
            assert forall|j: int| 0 <= j < d.drop_first().len() implies #[trigger] is_digit(
                d.drop_first()[j],
            ) by {
                assert(is_digit(d[j + 1]));
            }
        }
        lemma_value_from_grows(acc * 10 + (d[0] - 48) as nat, d.drop_first());
        assert(acc <= acc * 10 + (d[0] - 48)) by (nonlinear_arith)
            requires
                48 <= d[0],
        ;
    }
}

/// Digits whose value fits read without error, as that value.
proof fn lemma_scan_digits(d: Seq<u8>, max: nat, acc: nat)
    requires
        all_digits(d),
        value_from(acc, d) <= max,
    ensures
        scan_digits(d, max, acc) == Ok::<nat, IntErrorKind>(value_from(acc, d)),
    decreases d.len(),
{
    if d.len() > 0 {
        lemma_value_from_grows(acc, d);
        assert(all_digits(d.drop_first())) by {
            assert forall|j: int| 0 <= j < d.drop_first().len() implies #[trigger] is_digit(
                d.drop_first()[j],
            ) by {
                assert(is_digit(d[j + 1]));
            }
        }
        lemma_scan_digits(d.drop_first(), max, (acc * 10 + (d[0] - 48)) as nat);
    }
}

/// The decimal text of a number is made of digits and reads back as the number.
pub proof fn lemma_decimal_digits(n: nat)
    ensures
        decimal(n).len() > 0,
        all_digits(decimal(n)),
        value_from(0, decimal(n)) == n,
        decimal(n)[0] != 43,
    decreases n,
{
    if n < 10 {
        assert(decimal(n).drop_first() =~= Seq::<u8>::empty());
        assert(decimal(n)[0] == 48 + n);
        assert(value_from(0, decimal(n)) == value_from(n, Seq::<u8>::empty()));
    } else {
        lemma_decimal_digits(n / 10);
        let d = decimal(n);
        let c = (48 + n % 10) as u8;
        assert(d =~= decimal(n / 10).push(c));
        lemma_value_from_push(0, decimal(n / 10), c);
        assert(n == (n / 10) * 10 + n % 10) by (nonlinear_arith);
        assert forall|i: int| 0 <= i < d.len() implies #[trigger] is_digit(d[i]) by {
            if i < d.len() - 1 {
                assert(d[i] == decimal(n / 10)[i]);
            }
        }
    }
}

/// Parsing the decimal text of a number gives the number back, for every
/// number that fits the target type.
pub proof fn law_decimal_roundtrip(n: nat, max: nat)
    requires
        n <= max,
    ensures
        parse_unsigned(decimal(n), max) == Ok::<nat, IntErrorKind>(n),
{
    lemma_decimal_digits(n);
    lemma_scan_digits(decimal(n), max, 0);
}

/// Zero-padded digits are still digits.
pub proof fn lemma_zero_padded_ascii(digits: Seq<u8>, width: nat)
    requires
        all_digits(digits),
    ensures
        all_digits(zero_padded(digits, width)),
{
    let z = zero_padded(digits, width);
    if digits.len() < width {
        let pad = (width - digits.len()) as nat;
        assert forall|i: int| 0 <= i < z.len() implies #[trigger] is_digit(z[i]) by {
            if i >= pad {
                assert(z[i] == digits[i - pad]);
            }
        }
    }
}

/// Appends the decimal text of `n` to `out`.
pub fn push_decimal(out: &mut Vec<u8>, n: u64)
    ensures
        final(out)@ == old(out)@ + decimal(n as nat),
    decreases n,
{
    if n >= 10 {
        push_decimal(out, n / 10);
    }
    out.push(48 + (n % 10) as u8);
    assert(final(out)@ =~= old(out)@ + decimal(n as nat));
}

/// The decimal text of `n` (as `format!("{}", n)`).
pub fn decimal_bytes(n: u64) -> (res: Vec<u8>)
    ensures
        res@ == decimal(n as nat),
{
    let mut out: Vec<u8> = Vec::new();
    push_decimal(&mut out, n);
    assert(out@ =~= decimal(n as nat));
    out
}

/// The decimal text of `n` padded with zeros to `width` characters
/// (as `format!("{:06}", n)` for width 6).
pub fn zero_padded_decimal(n: u64, width: usize) -> (res: Vec<u8>)
    ensures
        res@ == zero_padded(decimal(n as nat), width as nat),
{
    let digits = decimal_bytes(n);
    if digits.len() < width {
        let mut out: Vec<u8> = Vec::new();
        let pad = width - digits.len();
        for i in 0..pad
            invariant
                out@ =~= Seq::new(i as nat, |j: int| 48u8),
        {
            out.push(48);
        }
        out.extend_from_slice(digits.as_slice());
        assert(out@ =~= zero_padded(decimal(n as nat), width as nat));
        out
    } else {
        digits
    }
}

/// Parses unsigned decimal text as `str::parse` does for an unsigned type
/// whose largest value is `max`.
pub fn parse_unsigned_bytes(s: &[u8], max: u64) -> (res: Result<u64, IntErrorKind>)
    ensures
        match parse_unsigned(s@, max as nat) {
            Ok(v) => res == Ok::<u64, IntErrorKind>(v as u64),
            Err(k) => res == Err::<u64, IntErrorKind>(k),
        },
        res matches Ok(v) ==> v <= max,
        parse_unsigned(s@, max as nat) matches Ok(v) ==> v <= max,
{
    proof {
        lemma_scan_digits_bound(unsigned_digits(s@), max as nat, 0);
    }
    let n = s.len();
    if n == 0 {
        return Err(IntErrorKind::Empty);
    }
    if n == 1 && s[0] == 43 {
        return Err(IntErrorKind::InvalidDigit);
    }
    let start: usize = if s[0] == 43 { 1 } else { 0 };
    let ghost d = unsigned_digits(s@);
    assert(d =~= s@.skip(start as int));
    let mut acc: u128 = 0;
    let mut i = start;
    while i < n
        invariant
            start <= i <= n,
            n == s@.len(),
            d == unsigned_digits(s@),
            acc <= max,
            scan_digits(d, max as nat, 0) == scan_digits(s@.skip(i as int), max as nat, acc as nat),
        decreases n - i,
    {
        let c = s[i];
        assert(s@.skip(i as int)[0] == c);
        if !(48 <= c && c <= 57) {
            return Err(IntErrorKind::InvalidDigit);
        }
        let next = acc * 10 + (c - 48) as u128;
        if next > max as u128 {
            return Err(IntErrorKind::PosOverflow);
        }
        assert(s@.skip(i as int).drop_first() =~= s@.skip(i + 1));
        acc = next;
        i = i + 1;
    }
    assert(s@.skip(n as int).len() == 0);
    Ok(acc as u64)
}

} // verus!
