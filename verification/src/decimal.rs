//! Decimal numerals: reading integers from text and writing them.

use crate::text;
use vstd::prelude::*;

verus! {

/// Whether `c` is one of the ten decimal digits.
pub open spec fn is_digit(c: char) -> bool {
    '0' <= c <= '9'
}

/// Whether `s` is a run of decimal digits, with at least one of them.
pub open spec fn is_digits(s: Seq<char>) -> bool {
    s.len() > 0 && forall|i: int| 0 <= i < s.len() ==> is_digit(#[trigger] s[i])
}

/// The number that a run of decimal digits denotes.
pub open spec fn digits_value(s: Seq<char>) -> nat
    decreases s.len(),
{
    if s.len() == 0 {
        0
    } else {
        (digits_value(s.drop_last()) * 10 + (s.last() as u32 - '0' as u32)) as nat
    }
}

/// The unsigned numeral `s` as a number of at most `max`: an optional `+`, then digits.
pub open spec fn unsigned_value(s: Seq<char>, max: nat) -> Option<nat> {
    let d = if s.len() > 0 && s[0] == '+' {
        s.drop_first()
    } else {
        s
    };
    if is_digits(d) && digits_value(d) <= max {
        Some(digits_value(d))
    } else {
        None
    }
}

/// The signed numeral `s` as a number of 64 bits: an optional `+` or `-`, then digits.
pub open spec fn signed_value(s: Seq<char>) -> Option<int> {
    if s.len() > 0 && s[0] == '-' {
        let d = s.drop_first();
        if is_digits(d) && -(digits_value(d) as int) >= i64::MIN {
            Some(-(digits_value(d) as int))
        } else {
            None
        }
    } else {
        match unsigned_value(s, i64::MAX as nat) {
            Some(n) => Some(n as int),
            None => None,
        }
    }
}

/// The digit for a number below ten.
pub open spec fn digit_char(n: nat) -> char {
    ((n + '0' as u32) as u32) as char
}

/// The decimal numeral of `n`, without leading zeros.
pub open spec fn numeral(n: nat) -> Seq<char>
    decreases n,
{
    if n < 10 {
        seq![digit_char(n)]
    } else {
        numeral(n / 10).push(digit_char(n % 10))
    }
}

/// The decimal numeral of `n`, with a minus sign where `n` is negative.
pub open spec fn signed_numeral(n: int) -> Seq<char> {
    if n < 0 {
        seq!['-'] + numeral((-n) as nat)
    } else {
        numeral(n as nat)
    }
}

/// The decimal numeral of `n` with zeros in front, up to twenty digits.
pub open spec fn padded_numeral(n: nat) -> Seq<char> {
    let d = numeral(n);
    Seq::new((20 - d.len()) as nat, |i: int| '0') + d
}

proof fn lemma_digit_char(n: nat)
    requires
        n < 10,
    ensures
        is_digit(digit_char(n)),
        digit_char(n) as u32 - '0' as u32 == n,
{
}

/// The numeral of a number denotes that number.
pub proof fn lemma_numeral_value(n: nat)
    ensures
        is_digits(numeral(n)),
        digits_value(numeral(n)) == n,
    decreases n,
{
    if n < 10 {
        lemma_digit_char(n);
        let s = numeral(n);
        assert(s.drop_last() =~= Seq::<char>::empty());
        assert(digits_value(s.drop_last()) == 0);
    } else {
        lemma_numeral_value(n / 10);
        lemma_digit_char(n % 10);
        assert(numeral(n).drop_last() =~= numeral(n / 10));
    }
}

/// Zeros in front do not change what a run of digits denotes.
proof fn lemma_leading_zeros(k: nat, s: Seq<char>)
    ensures
        digits_value(Seq::new(k, |i: int| '0') + s) == digits_value(s),
    decreases k + s.len(),
{
    let z = Seq::new(k, |i: int| '0');
    if s.len() > 0 {
        lemma_leading_zeros(k, s.drop_last());
        assert((z + s).drop_last() =~= z + s.drop_last());
    } else {
        assert(z + s =~= z);
        if k > 0 {
            let y = Seq::new((k - 1) as nat, |i: int| '0');
            lemma_leading_zeros((k - 1) as nat, s);
            assert(z.drop_last() =~= y);
            assert(y + s =~= y);
        }
    }
}

/// The numeral of a number of 64 bits has at most twenty digits.
proof fn lemma_numeral_len(n: nat)
    requires
        n <= u64::MAX,
    ensures
        1 <= numeral(n).len() <= 20,
{
    assert(vstd::arithmetic::power::pow(10, 20) == 100_000_000_000_000_000_000int) by {
        reveal_with_fuel(vstd::arithmetic::power::pow, 21);
    }
    lemma_numeral_len_below(n, 20);
}

proof fn lemma_numeral_len_below(n: nat, k: nat)
    requires
        k >= 1,
        n < vstd::arithmetic::power::pow(10, k),
    ensures
        1 <= numeral(n).len() <= k,
    decreases k,
{
    reveal(vstd::arithmetic::power::pow);
    if n >= 10 {
        if k == 1 {
            assert(vstd::arithmetic::power::pow(10, 1) == 10 * vstd::arithmetic::power::pow(10, 0));
        } else {
            assert(vstd::arithmetic::power::pow(10, k) == 10 * vstd::arithmetic::power::pow(
                10,
                (k - 1) as nat,
            ));
            lemma_numeral_len_below(n / 10, (k - 1) as nat);
        }
    }
}

/// Reading the padded numeral of a number of 64 bits gives that number back.
pub proof fn padded_numeral_reads_back(n: u64)
    ensures
        padded_numeral(n as nat).len() == 20,
        unsigned_value(padded_numeral(n as nat), u64::MAX as nat) == Some(n as nat),
{
    lemma_numeral_value(n as nat);
    lemma_numeral_len(n as nat);
    let d = numeral(n as nat);
    let z = Seq::new((20 - d.len()) as nat, |i: int| '0');
    lemma_leading_zeros((20 - d.len()) as nat, d);
    let p = padded_numeral(n as nat);
    assert forall|i: int| 0 <= i < p.len() implies is_digit(#[trigger] p[i]) by {
        if i >= z.len() {
            assert(p[i] == d[i - z.len()]);
        }
    }
    assert(is_digit(p[0]));
}

/// Reading the numeral of a signed number of 64 bits gives that number back.
pub proof fn signed_numeral_reads_back(n: i64)
    ensures
        signed_value(signed_numeral(n as int)) == Some(n as int),
{
    if n < 0 {
        lemma_numeral_value((-n) as nat);
        assert(signed_numeral(n as int).drop_first() =~= numeral((-n) as nat));
    } else {
        lemma_numeral_value(n as nat);
        assert(is_digit(numeral(n as nat)[0]));
    }
}

/// Reading the numeral of an unsigned number gives that number back.
pub proof fn numeral_reads_back(n: nat, max: nat)
    requires
        n <= max,
    ensures
        unsigned_value(numeral(n), max) == Some(n),
{
    lemma_numeral_value(n);
    assert(is_digit(numeral(n)[0]));
}

/// The number that the characters from `from` on denote, where they are digits and it fits.
fn read_digits(x: &Vec<char>, from: usize) -> (r: Option<u64>)
    requires
        from <= x@.len(),
    ensures
        match r {
            Some(v) => is_digits(x@.skip(from as int)) && v == digits_value(x@.skip(from as int)),
            None => !is_digits(x@.skip(from as int)) || digits_value(x@.skip(from as int))
                > u64::MAX,
        },
{
    if from == x.len() {
        return None;
    }
    let ghost d = x@.skip(from as int);
    let mut value: u128 = 0;
    let mut over: bool = false;
    let mut i: usize = from;
    assert(d.take(0) =~= Seq::<char>::empty());
    while i < x.len()
        invariant
            from <= i <= x@.len(),
            d == x@.skip(from as int),
            forall|k: int| 0 <= k < i - from ==> is_digit(#[trigger] d[k]),
            !over ==> value == digits_value(d.take(i - from)) && value <= u64::MAX,
            over ==> digits_value(d.take(i - from)) > u64::MAX,
        decreases x@.len() - i,
    {
        let c = x[i];
        assert(d[i - from] == c);
        if !('0' <= c && c <= '9') {
            assert(!is_digit(d[i - from]));
            return None;
        }
        assert(d.take(i + 1 - from).drop_last() =~= d.take(i - from));
        let digit: u32 = c as u32 - '0' as u32;
        if !over {
            value = value * 10 + digit as u128;
            if value > u64::MAX as u128 {
                over = true;
            }
        }
        i += 1;
    }
    assert(d.take(x@.len() - from) =~= d);
    if over {
        None
    } else {
        Some(value as u64)
    }
}

/// Reads an unsigned number of 64 bits.
pub fn parse_u64(s: &str) -> (r: Option<u64>)
    ensures
        r is Some == unsigned_value(s@, u64::MAX as nat) is Some,
        r is Some ==> r->0 == unsigned_value(s@, u64::MAX as nat)->0,
{
    let x = text::chars_of(s);
    assert(x@.skip(0) =~= x@);
    if x.len() > 0 && x[0] == '+' {
        assert(x@.skip(1) =~= x@.drop_first());
        read_digits(&x, 1)
    } else {
        read_digits(&x, 0)
    }
}

/// Reads an unsigned number of the machine's word size.
pub fn parse_usize(s: &str) -> (r: Option<usize>)
    ensures
        r is Some == unsigned_value(s@, usize::MAX as nat) is Some,
        r is Some ==> r->0 == unsigned_value(s@, usize::MAX as nat)->0,
{
    match parse_u64(s) {
        Some(v) => if v <= usize::MAX as u64 {
            Some(v as usize)
        } else {
            None
        },
        None => None,
    }
}

/// Reads an unsigned number of 32 bits.
pub fn parse_u32(s: &str) -> (r: Option<u32>)
    ensures
        r is Some == unsigned_value(s@, u32::MAX as nat) is Some,
        r is Some ==> r->0 == unsigned_value(s@, u32::MAX as nat)->0,
{
    match parse_u64(s) {
        Some(v) => if v <= u32::MAX as u64 {
            Some(v as u32)
        } else {
            None
        },
        None => None,
    }
}

/// Reads a signed number of 64 bits.
pub fn parse_i64(s: &str) -> (r: Option<i64>)
    ensures
        r is Some == signed_value(s@) is Some,
        r is Some ==> r->0 == signed_value(s@)->0,
{
    let x = text::chars_of(s);
    if x.len() > 0 && x[0] == '-' {
        assert(x@.skip(1) =~= x@.drop_first());
        match read_digits(&x, 1) {
            Some(v) => if v <= 0x7fff_ffff_ffff_ffff {
                Some(-(v as i64))
            } else if v == 0x8000_0000_0000_0000 {
                Some(i64::MIN)
            } else {
                None
            },
            None => None,
        }
    } else {
        match parse_u64(s) {
            Some(v) => if v <= i64::MAX as u64 {
                Some(v as i64)
            } else {
                None
            },
            None => None,
        }
    }
}

/// Writes an unsigned number.
pub fn format_u64(n: u64) -> (r: String)
    ensures
        r@ == numeral(n as nat),
    decreases n,
{
    let digit: char = digit_of(n % 10);
    if n < 10 {
        let mut r = String::new();
        r.push(digit);
        assert(r@ =~= numeral(n as nat));
        r
    } else {
        let mut r = format_u64(n / 10);
        r.push(digit);
        r
    }
}

fn digit_of(n: u64) -> (r: char)
    requires
        n < 10,
    ensures
        r == digit_char(n as nat),
{
    if n == 0 {
        '0'
    } else if n == 1 {
        '1'
    } else if n == 2 {
        '2'
    } else if n == 3 {
        '3'
    } else if n == 4 {
        '4'
    } else if n == 5 {
        '5'
    } else if n == 6 {
        '6'
    } else if n == 7 {
        '7'
    } else if n == 8 {
        '8'
    } else {
        '9'
    }
}

/// Writes a signed number.
pub fn format_i64(n: i64) -> (r: String)
    ensures
        r@ == signed_numeral(n as int),
{
    if n < 0 {
        let mut r = String::new();
        r.push('-');
        let magnitude: u64 = if n == i64::MIN {
            0x8000_0000_0000_0000
        } else {
            (-n) as u64
        };
        let digits = format_u64(magnitude);
        r.append(digits.as_str());
        assert(r@ =~= seq!['-'] + numeral((-n) as nat));
        r
    } else {
        format_u64(n as u64)
    }
}

/// Writes an unsigned number with zeros in front, as twenty digits.
pub fn format_padded(n: u64) -> (r: String)
    ensures
        r@ == padded_numeral(n as nat),
{
    let digits = format_u64(n);
    let count: usize = digits.as_str().unicode_len();
    let mut r = String::new();
    let mut i: usize = count;
    proof {
        lemma_numeral_len(n as nat);
    }
    while i < 20
        invariant
            count <= i <= 20,
            r@ == Seq::new((i - count) as nat, |j: int| '0'),
        decreases 20 - i,
    {
        r.push('0');
        i += 1;
        assert(r@ =~= Seq::new((i - count) as nat, |j: int| '0'));
    }
    r.append(digits.as_str());
    r
}

} // verus!
