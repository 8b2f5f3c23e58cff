//! Decimal text of integers — rendering a note id into response bodies
//! and parsing an id out of a path segment — plus the conversions between
//! strings and character vectors that the codec works on.

use vstd::prelude::*;
use vstd::string::StrSliceExecFns;

verus! {

/// Digit character of a value in 0..10.
pub open spec fn digit_char(d: int) -> char {
    if d == 0 {
        '0'
    } else if d == 1 {
        '1'
    } else if d == 2 {
        '2'
    } else if d == 3 {
        '3'
    } else if d == 4 {
        '4'
    } else if d == 5 {
        '5'
    } else if d == 6 {
        '6'
    } else if d == 7 {
        '7'
    } else if d == 8 {
        '8'
    } else {
        '9'
    }
}

/// True for the ten decimal digit characters.
pub open spec fn is_digit(c: char) -> bool {
    c == '0' || c == '1' || c == '2' || c == '3' || c == '4' || c == '5' || c == '6' || c == '7'
        || c == '8' || c == '9'
}

/// Value of a decimal digit character.
pub open spec fn digit_val(c: char) -> int {
    if c == '0' {
        0
    } else if c == '1' {
        1
    } else if c == '2' {
        2
    } else if c == '3' {
        3
    } else if c == '4' {
        4
    } else if c == '5' {
        5
    } else if c == '6' {
        6
    } else if c == '7' {
        7
    } else if c == '8' {
        8
    } else {
        9
    }
}

/// Decimal digits of a nonnegative value, most significant first.
pub open spec fn udigits(n: nat) -> Seq<char>
    decreases n,
{
    if n < 10 {
        seq![digit_char(n as int)]
    } else {
        udigits(n / 10).push(digit_char((n % 10) as int))
    }
}

/// Decimal rendering of an integer: a '-' before the digits when negative.
pub open spec fn int_chars(n: int) -> Seq<char> {
    if n < 0 {
        seq!['-'] + udigits((-n) as nat)
    } else {
        udigits(n as nat)
    }
}

/// True when every character is a decimal digit.
pub open spec fn all_digits(s: Seq<char>) -> bool {
    forall|i: int| 0 <= i < s.len() ==> is_digit(#[trigger] s[i])
}

/// Value of a digit sequence, most significant first; 0 when empty.
pub open spec fn digits_val(s: Seq<char>) -> int
    decreases s.len(),
{
    if s.len() == 0 {
        0
    } else {
        digits_val(s.drop_last()) * 10 + digit_val(s.last())
    }
}

/// Powers of ten.
pub open spec fn pow10(n: nat) -> int
    decreases n,
{
    if n == 0 {
        1
    } else {
        10 * pow10((n - 1) as nat)
    }
}

/// What a decimal integer literal denotes: an optional sign, then at
/// least one digit (leading zeros allowed), with the value within the
/// bounds of an i32; anything else denotes nothing.
pub open spec fn spec_parse_i32(s: Seq<char>) -> Option<int> {
    let ds = if s.len() > 0 && (s[0] == '-' || s[0] == '+') {
        s.skip(1)
    } else {
        s
    };
    let neg = s.len() > 0 && s[0] == '-';
    if ds.len() == 0 || !all_digits(ds) {
        None
    } else {
        let v = if neg {
            -digits_val(ds)
        } else {
            digits_val(ds)
        };
        if i32::MIN <= v <= i32::MAX {
            Some(v)
        } else {
            None
        }
    }
}

/// The digits of a value are digits, and there is at least one.
pub proof fn lemma_udigits_digits(n: nat)
    ensures
        all_digits(udigits(n)),
        udigits(n).len() >= 1,
    decreases n,
{
    if n >= 10 {
        lemma_udigits_digits(n / 10);
        assert(udigits(n) == udigits(n / 10).push(digit_char((n % 10) as int)));
        assert forall|i: int| 0 <= i < udigits(n).len() implies is_digit(
            #[trigger] udigits(n)[i],
        ) by {
            if i < udigits(n / 10).len() {
                assert(udigits(n)[i] == udigits(n / 10)[i]);
            }
        }
    }
}

/// Rendering then valuing a nonnegative number gives the number back.
pub proof fn lemma_udigits_val(n: nat)
    ensures
        digits_val(udigits(n)) == n,
    decreases n,
{
    if n < 10 {
        assert(udigits(n).drop_last() =~= Seq::<char>::empty());
        assert(udigits(n).last() == digit_char(n as int));
        assert(digit_val(digit_char(n as int)) == n as int);
        assert(digits_val(udigits(n)) == digits_val(udigits(n).drop_last()) * 10 + digit_val(
            udigits(n).last(),
        ));
        assert(digits_val(udigits(n).drop_last()) == digits_val(Seq::<char>::empty()));
        assert(digits_val(Seq::<char>::empty()) == 0);
        assert(digits_val(udigits(n)) == n);
    } else {
        lemma_udigits_val(n / 10);
        assert(udigits(n).drop_last() =~= udigits(n / 10));
        assert(udigits(n).last() == digit_char((n % 10) as int));
        assert(digit_val(digit_char((n % 10) as int)) == n % 10);
        vstd::arithmetic::div_mod::lemma_fundamental_div_mod(n as int, 10);
        assert(digits_val(udigits(n)) == digits_val(udigits(n / 10)) * 10 + n % 10);
        assert(digits_val(udigits(n)) == n);
    }
}

/// A digit sequence values below pow10 of its length.
pub proof fn lemma_digits_val_upper(s: Seq<char>)
    requires
        all_digits(s),
    ensures
        0 <= digits_val(s) < pow10(s.len() as nat),
    decreases s.len(),
{
    if s.len() > 0 {
        assert(forall|i: int| 0 <= i < s.drop_last().len() ==> #[trigger] s.drop_last()[i]
            == s[i]);
        lemma_digits_val_upper(s.drop_last());
        assert(is_digit(s.last()));
        assert(digit_val(s.last()) <= 9);
    }
}

/// A digit sequence with a nonzero leading digit values at least pow10 of
/// its length less one.
pub proof fn lemma_digits_val_lower(s: Seq<char>)
    requires
        all_digits(s),
        s.len() >= 1,
        s[0] != '0',
    ensures
        digits_val(s) >= pow10((s.len() - 1) as nat),
    decreases s.len(),
{
    if s.len() == 1 {
        assert(s.drop_last() =~= Seq::<char>::empty());
        assert(digits_val(Seq::<char>::empty()) == 0);
        assert(s.last() == s[0]);
        assert(digit_val(s[0]) >= 1);
    } else {
        assert(forall|i: int| 0 <= i < s.drop_last().len() ==> #[trigger] s.drop_last()[i]
            == s[i]);
        lemma_digits_val_lower(s.drop_last());
        assert(is_digit(s.last()));
        assert(digit_val(s.last()) >= 0);
        assert(pow10((s.len() - 1) as nat) == 10 * pow10((s.len() - 2) as nat));
        assert(digits_val(s.drop_last()) * 10 >= pow10((s.len() - 2) as nat) * 10);
    }
}

/// Leading zeros do not change a digit sequence's value.
pub proof fn lemma_strip_zeros(s: Seq<char>, k: int)
    requires
        0 <= k <= s.len(),
        forall|i: int| 0 <= i < k ==> s[i] == '0',
    ensures
        digits_val(s) == digits_val(s.skip(k)),
    decreases s.len(),
{
    if k == s.len() {
        lemma_zeros_val(s);
        assert(s.skip(k) =~= Seq::<char>::empty());
    } else if s.len() > 0 {
        assert(forall|i: int| 0 <= i < s.drop_last().len() ==> #[trigger] s.drop_last()[i]
            == s[i]);
        lemma_strip_zeros(s.drop_last(), k);
        assert(s.skip(k).drop_last() =~= s.drop_last().skip(k));
        assert(s.skip(k).last() == s.last());
    }
}

/// A sequence of zeros values zero.
pub proof fn lemma_zeros_val(s: Seq<char>)
    requires
        forall|i: int| 0 <= i < s.len() ==> s[i] == '0',
    ensures
        digits_val(s) == 0,
    decreases s.len(),
{
    if s.len() > 0 {
        assert(forall|i: int| 0 <= i < s.drop_last().len() ==> #[trigger] s.drop_last()[i]
            == s[i]);
        lemma_zeros_val(s.drop_last());
        assert(s.last() == s[s.len() - 1]);
    }
}

/// Parsing the decimal rendering of an in-range integer gives it back.
pub proof fn lemma_parse_int_chars(n: int)
    requires
        i32::MIN <= n <= i32::MAX,
    ensures
        spec_parse_i32(int_chars(n)) == Some(n),
{
    let s = int_chars(n);
    if n < 0 {
        let m = (-n) as nat;
        lemma_udigits_digits(m);
        lemma_udigits_val(m);
        assert(s == seq!['-'] + udigits(m));
        assert(s[0] == '-');
        assert(s.skip(1) =~= udigits(m));
    } else {
        let m = n as nat;
        lemma_udigits_digits(m);
        lemma_udigits_val(m);
        assert(s == udigits(m));
        assert(is_digit(s[0]));
        assert(s[0] != '-' && s[0] != '+');
    }
}

/// Exec test matching is_digit.
pub(crate) fn is_digit_char(c: char) -> (r: bool)
    ensures
        r == is_digit(c),
{
    c == '0' || c == '1' || c == '2' || c == '3' || c == '4' || c == '5' || c == '6' || c == '7'
        || c == '8' || c == '9'
}

/// Exec value of a digit character.
pub(crate) fn digit_value(c: char) -> (r: u32)
    requires
        is_digit(c),
    ensures
        r == digit_val(c),
{
    if c == '0' {
        0
    } else if c == '1' {
        1
    } else if c == '2' {
        2
    } else if c == '3' {
        3
    } else if c == '4' {
        4
    } else if c == '5' {
        5
    } else if c == '6' {
        6
    } else if c == '7' {
        7
    } else if c == '8' {
        8
    } else {
        9
    }
}

/// Exec digit character of a value in 0..10.
pub(crate) fn digit_to_char(d: u64) -> (r: char)
    requires
        d < 10,
    ensures
        r == digit_char(d as int),
{
    if d == 0 {
        '0'
    } else if d == 1 {
        '1'
    } else if d == 2 {
        '2'
    } else if d == 3 {
        '3'
    } else if d == 4 {
        '4'
    } else if d == 5 {
        '5'
    } else if d == 6 {
        '6'
    } else if d == 7 {
        '7'
    } else if d == 8 {
        '8'
    } else {
        '9'
    }
}

/// Appends the decimal digits of a nonnegative value.
pub(crate) fn push_udigits(m: u64, out: &mut Vec<char>)
    ensures
        final(out)@ == old(out)@ + udigits(m as nat),
    decreases m,
{
    let ghost entry = out@;
    if m >= 10 {
        push_udigits(m / 10, out);
    }
    out.push(digit_to_char(m % 10));
    proof {
        if m >= 10 {
            assert(out@ =~= entry + udigits(m as nat));
        } else {
            assert(m % 10 == m as int);
            assert(out@ =~= entry + udigits(m as nat));
        }
    }
}

/// The decimal characters of an i32.
pub(crate) fn i32_to_chars(v: i32) -> (r: Vec<char>)
    ensures
        r@ == int_chars(v as int),
{
    let mut out: Vec<char> = Vec::new();
    if v < 0 {
        out.push('-');
        let m: u64 = (-(v as i64)) as u64;
        push_udigits(m, &mut out);
        proof {
            assert(out@ =~= seq!['-'] + udigits((-(v as int)) as nat));
        }
    } else {
        push_udigits(v as u64, &mut out);
        proof {
            assert(out@ =~= udigits(v as nat));
        }
    }
    out
}

/// Parses a decimal i32 from characters: exactly the literals that
/// spec_parse_i32 accepts, with the value it denotes.
#[verifier::loop_isolation(false)]
#[verifier::rlimit(60)]
pub(crate) fn parse_i32_chars(s: &Vec<char>) -> (r: Option<i32>)
    ensures
        match r {
            Some(v) => spec_parse_i32(s@) == Some(v as int),
            None => spec_parse_i32(s@) is None,
        },
{
    let n = s.len();
    let mut start: usize = 0;
    let mut neg = false;
    if n > 0 && (s[0] == '-' || s[0] == '+') {
        neg = s[0] == '-';
        start = 1;
    }
    if n == start {
        return None;
    }
    let ghost ds = if s@.len() > 0 && (s@[0] == '-' || s@[0] == '+') {
        s@.skip(1)
    } else {
        s@
    };
    proof {
        assert(ds =~= s@.subrange(start as int, n as int));
    }
    let mut i: usize = start;
    while i < n
        invariant
            start <= i <= n,
            n == s@.len(),
            forall|j: int| start <= j < i ==> is_digit(#[trigger] s@[j]),
        decreases n - i,
    {
        if !is_digit_char(s[i]) {
            proof {
                assert(ds[i as int - start as int] == s@[i as int]);
                assert(!is_digit(ds[i as int - start as int]));
                assert(!all_digits(ds));
            }
            return None;
        }
        i += 1;
    }
    proof {
        assert forall|j: int| 0 <= j < ds.len() implies is_digit(#[trigger] ds[j]) by {
            assert(ds[j] == s@[start + j]);
        }
        assert(all_digits(ds));
    }
    // skip leading zeros, whose presence does not change the value
    let mut z: usize = start;
    while z < n && s[z] == '0'
        invariant
            start <= z <= n,
            n == s@.len(),
            forall|j: int| start <= j < z ==> s@[j] == '0',
        decreases n - z,
    {
        z += 1;
    }
    let ghost core = s@.skip(z as int);
    proof {
        assert(core =~= ds.skip(z - start as int));
        assert forall|j: int| 0 <= j < core.len() implies is_digit(#[trigger] core[j]) by {
            assert(core[j] == s@[z + j]);
        }
        lemma_strip_zeros(ds, z - start as int);
        assert(digits_val(ds) == digits_val(core));
    }
    if n - z > 10 {
        // at least eleven digits with a nonzero lead: out of i32 range
        proof {
            assert(core[0] == s@[z as int]);
            assert(core[0] != '0');
            lemma_digits_val_lower(core);
            lemma_pow10_mono(10, (core.len() - 1) as nat);
            reveal_with_fuel(pow10, 11);
            assert(pow10(10) == 10000000000int);
            assert(digits_val(ds) >= 10000000000int);
        }
        return None;
    }
    let mut acc: u64 = 0;
    let mut k: usize = z;
    while k < n
        invariant
            z <= k <= n,
            n == s@.len(),
            n - z <= 10,
            core == s@.skip(z as int),
            all_digits(core),
            acc == digits_val(s@.subrange(z as int, k as int)),
            acc < pow10((k - z) as nat),
        decreases n - k,
    {
        let ghost before = s@.subrange(z as int, k as int);
        proof {
            assert(core[k as int - z as int] == s@[k as int]);
            assert(is_digit(s@[k as int]));
            lemma_pow10_mono((k - z) as nat, 10);
            reveal_with_fuel(pow10, 11);
            assert(pow10(10) == 10000000000int);
        }
        let d = digit_value(s[k]);
        acc = acc * 10 + (d as u64);
        k += 1;
        proof {
            let now = s@.subrange(z as int, k as int);
            assert(now.drop_last() =~= before);
            assert(now.last() == s@[k as int - 1]);
            assert(pow10((k - z) as nat) == 10 * pow10((k - z - 1) as nat));
            assert(acc < pow10((k - z) as nat));
        }
    }
    proof {
        assert(s@.subrange(z as int, n as int) =~= core);
        assert(acc == digits_val(core) == digits_val(ds));
        lemma_digits_val_upper(core);
    }
    if neg {
        if acc > 2147483648u64 {
            return None;
        }
        if acc == 2147483648u64 {
            Some(i32::MIN)
        } else {
            Some(-(acc as i32))
        }
    } else {
        if acc > 2147483647u64 {
            return None;
        }
        Some(acc as i32)
    }
}

/// Powers of ten are monotone in the exponent.
pub proof fn lemma_pow10_mono(a: nat, b: nat)
    requires
        a <= b,
    ensures
        1 <= pow10(a) <= pow10(b),
    decreases b,
{
    if b == 0 {
    } else if a == b {
        lemma_pow10_mono((b - 1) as nat, (b - 1) as nat);
        assert(pow10(b) == 10 * pow10((b - 1) as nat));
    } else {
        lemma_pow10_mono(a, (b - 1) as nat);
        assert(pow10(b) == 10 * pow10((b - 1) as nat));
    }
}

/// Builds the string of a character sequence.
///
/// Relies on std's FromIterator implementation for String: collecting
/// characters yields the string of exactly those characters in order.
#[verifier::external_body]
pub(crate) fn chars_to_string(v: &Vec<char>) -> (r: String)
    ensures
        r@ == v@,
{
    v.iter().collect()
}

/// The characters of a string, as a vector.
pub(crate) fn str_chars(s: &str) -> (r: Vec<char>)
    ensures
        r@ == s@,
{
    let n = s.unicode_len();
    let mut out: Vec<char> = Vec::new();
    let mut i: usize = 0;
    while i < n
        invariant
            i <= n,
            n == s@.len(),
            out@ =~= s@.subrange(0, i as int),
        decreases n - i,
    {
        out.push(s.get_char(i));
        i += 1;
        proof {
            assert(out@ =~= s@.subrange(0, i as int));
        }
    }
    proof {
        assert(out@ =~= s@);
    }
    out
}

} // verus!
