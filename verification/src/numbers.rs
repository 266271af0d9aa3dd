//! Numbers as decimal text: writing them and reading them back.
use crate::text;
use vstd::prelude::*;

verus! {

/// The character of a digit below ten.
pub open spec fn digit(d: nat) -> char {
    ((48 + d) as u8) as char
}

/// `n` in decimal, without leading zeros.
pub open spec fn decimal(n: nat) -> Seq<char>
    decreases n,
{
    if n < 10 {
        seq![digit(n)]
    } else {
        decimal(n / 10).push(digit(n % 10))
    }
}

/// `i` in decimal, with a sign if it is negative.
pub open spec fn signed_decimal(i: int) -> Seq<char> {
    if i < 0 {
        seq!['-'] + decimal((-i) as nat)
    } else {
        decimal(i as nat)
    }
}

/// `n` in decimal.
pub fn format_u64(n: u64) -> (r: String)
    ensures
        r@ == decimal(n as nat),
    decreases n,
{
    let d: u8 = 48 + (n % 10) as u8;
    if n < 10 {
        let mut out = String::new();
        out.push(d as char);
        assert(out@ =~= decimal(n as nat));
        out
    } else {
        let mut out = format_u64(n / 10);
        out.push(d as char);
        out
    }
}

/// `i` in decimal, with a sign if it is negative.
pub fn format_i64(i: i64) -> (r: String)
    ensures
        r@ == signed_decimal(i as int),
{
    if i < 0 {
        let magnitude: u64 = if i == i64::MIN {
            0x8000_0000_0000_0000
        } else {
            (-i) as u64
        };
        let digits = format_u64(magnitude);
        let mut out = String::new();
        out.push('-');
        out.append(digits.as_str());
        assert(out@ =~= seq!['-'] + decimal(magnitude as nat));
        out
    } else {
        format_u64(i as u64)
    }
}

/// Whether every character of `s` is an ASCII digit.
pub open spec fn all_digits(s: Seq<char>) -> bool {
    forall|i: int| 0 <= i < s.len() ==> '0' <= #[trigger] s[i] <= '9'
}

/// The number that a run of digits stands for.
pub open spec fn digits_value(s: Seq<char>) -> nat
    decreases s.len(),
{
    if s.len() == 0 {
        0
    } else {
        digits_value(s.drop_last()) * 10 + (s.last() as u32 - 48) as nat
    }
}

/// `s` without one plus sign in front.
pub open spec fn without_plus(s: Seq<char>) -> Seq<char> {
    if s.len() > 0 && s[0] == '+' {
        s.skip(1)
    } else {
        s
    }
}

/// The number that `s` reads as: an optional plus sign and one or more digits.
pub open spec fn unsigned_value(s: Seq<char>) -> Option<nat> {
    let digits = without_plus(s);
    if digits.len() > 0 && all_digits(digits) {
        Some(digits_value(digits))
    } else {
        None
    }
}

/// The number that `s` reads as: an optional sign and one or more digits.
pub open spec fn signed_value(s: Seq<char>) -> Option<int> {
    if s.len() > 0 && s[0] == '-' {
        let digits = s.skip(1);
        if digits.len() > 0 && all_digits(digits) {
            Some(-(digits_value(digits) as int))
        } else {
            None
        }
    } else {
        match unsigned_value(s) {
            Some(n) => Some(n as int),
            None => None,
        }
    }
}

proof fn lemma_value_grows(s: Seq<char>, i: int)
    requires
        0 <= i <= s.len(),
    ensures
        digits_value(s.take(i)) <= digits_value(s),
    decreases s.len(),
{
    if i == s.len() {
        assert(s.take(i) =~= s);
    } else {
        assert(s.drop_last().take(i) =~= s.take(i));
        lemma_value_grows(s.drop_last(), i);
    }
}

/// The number that the characters from `from` on stand for, if they are one or
/// more digits and the number is at most `max`.
fn parse_digits(x: &Vec<char>, from: usize, max: u64) -> (r: Option<u64>)
    requires
        from <= x@.len(),
    ensures
        ({
            let s = x@.skip(from as int);
            let fits = s.len() > 0 && all_digits(s) && digits_value(s) <= max;
            &&& r is Some <==> fits
            &&& fits ==> r == Some(digits_value(s) as u64)
        }),
{
    let ghost s = x@.skip(from as int);
    if from == x.len() {
        return None;
    }
    let mut value: u64 = 0;
    let mut i: usize = from;
    assert(s.take(0) =~= Seq::<char>::empty());
    while i < x.len()
        invariant
            s == x@.skip(from as int),
            from <= i <= x@.len(),
            all_digits(s.take(i - from)),
            value == digits_value(s.take(i - from)),
            value <= max,
        decreases x@.len() - i,
    {
        let c = x[i];
        assert(s[i - from] == c);
        if c < '0' || '9' < c {
            return None;
        }
        let d: u64 = (c as u32 - 48) as u64;
        let wide: u128 = (value as u128) * 10 + (d as u128);
        proof {
            let t = s.take(i - from + 1);
            assert(t.drop_last() =~= s.take(i - from));
            assert(t.last() == c);
            assert(wide == digits_value(t));
            lemma_value_grows(s, i - from + 1);
        }
        if wide > max as u128 {
            return None;
        }
        value = wide as u64;
        i = i + 1;
    }
    assert(s.take(i - from) =~= s);
    Some(value)
}

/// Reads an unsigned number of at most `max`.
pub fn parse_unsigned(s: &str, max: u64) -> (r: Option<u64>)
    ensures
        r is Some <==> (unsigned_value(s@) is Some && unsigned_value(s@)->0 <= max),
        r matches Some(v) ==> v == unsigned_value(s@)->0,
{
    let x = text::chars_of(s);
    if x.len() > 0 && x[0] == '+' {
        parse_digits(&x, 1, max)
    } else {
        assert(x@.skip(0) =~= s@);
        parse_digits(&x, 0, max)
    }
}

/// Reads a signed number that fits in 32 bits.
pub fn parse_i32(s: &str) -> (r: Option<i32>)
    ensures
        r is Some <==> (signed_value(s@) is Some && i32::MIN <= signed_value(s@)->0 <= i32::MAX),
        r matches Some(v) ==> v == signed_value(s@)->0,
{
    let x = text::chars_of(s);
    if x.len() > 0 && x[0] == '-' {
        match parse_digits(&x, 1, 0x8000_0000) {
            Some(v) => Some((-(v as i64)) as i32),
            None => None,
        }
    } else {
        match parse_unsigned(s, 0x7fff_ffff) {
            Some(v) => Some(v as i32),
            None => None,
        }
    }
}

/// The truth value that `s` reads as.
pub open spec fn bool_value(s: Seq<char>) -> Option<bool> {
    if s == "true"@ {
        Some(true)
    } else if s == "false"@ {
        Some(false)
    } else {
        None
    }
}

/// Reads a truth value.
pub fn parse_bool(s: &str) -> (r: Option<bool>)
    ensures
        r == bool_value(s@),
{
    if text::str_eq(s, "true") {
        Some(true)
    } else if text::str_eq(s, "false") {
        Some(false)
    } else {
        None
    }
}

/// A number in decimal is one or more digits that stand for it.
pub proof fn lemma_decimal_digits(n: nat)
    ensures
        decimal(n).len() > 0,
        all_digits(decimal(n)),
        digits_value(decimal(n)) == n,
    decreases n,
{
    if n < 10 {
        let s = decimal(n);
        assert(s.drop_last() =~= Seq::<char>::empty());
        assert(digits_value(s.drop_last()) == 0);
    } else {
        lemma_decimal_digits(n / 10);
        let s = decimal(n);
        assert(s.drop_last() =~= decimal(n / 10));
        assert forall|i: int| 0 <= i < s.len() implies '0' <= #[trigger] s[i] <= '9' by {
            if i < s.len() - 1 {
                assert(decimal(n / 10)[i] == s[i]);
            }
        }
    }
}

/// What is written in decimal reads back as the same number.
pub proof fn law_decimal_reads_back(n: nat)
    ensures
        unsigned_value(decimal(n)) == Some(n),
        signed_value(decimal(n)) == Some(n as int),
        signed_value(signed_decimal(-(n as int))) == Some(-(n as int)),
{
    lemma_decimal_digits(n);
    assert('0' <= decimal(n)[0] <= '9');
    if n > 0 {
        assert((seq!['-'] + decimal(n)).skip(1) =~= decimal(n));
    }
}

/// Different numbers are written differently.
pub proof fn law_decimal_is_one_to_one(a: int, b: int)
    requires
        signed_decimal(a) == signed_decimal(b),
    ensures
        a == b,
{
    let x = if a < 0 { -a } else { a };
    let y = if b < 0 { -b } else { b };
    law_decimal_reads_back(x as nat);
    law_decimal_reads_back(y as nat);
}

/// A number is read digit by digit: one digit stands for itself, and one more digit makes
/// ten times the number and that digit. A plus sign in front changes nothing, and nothing
/// else can be read.
pub proof fn law_number_is_read_digit_by_digit(s: Seq<char>, c: char)
    ensures
        unsigned_value(seq![]) is None,
        unsigned_value(seq!['+']) is None,
        '0' <= c <= '9' ==> unsigned_value(seq![c]) == Some((c as u32 - 48) as nat),
        '0' <= c <= '9' && unsigned_value(s) is Some ==> unsigned_value(s.push(c)) == Some(
            (10 * unsigned_value(s)->0 + (c as u32 - 48)) as nat,
        ),
        !('0' <= c <= '9') ==> unsigned_value(s.push(c)) is None,
        s.len() > 0 && s != seq!['+'] && unsigned_value(s) is None ==> unsigned_value(
            s.push(c),
        ) is None,
        s.len() > 0 && s[0] != '+' ==> unsigned_value(seq!['+'] + s) == unsigned_value(s),
{
    let t = s.push(c);
    let d = without_plus(s);
    let e = without_plus(t);
    assert(seq![c].drop_last() =~= Seq::<char>::empty());
    assert(digits_value(Seq::<char>::empty()) == 0);
    if '0' <= c <= '9' {
        assert(without_plus(seq![c]) =~= seq![c]);
        assert(all_digits(seq![c]));
    }
    if s.len() == 0 {
        assert(t =~= seq![c]);
        if c == '+' {
            assert(t.skip(1).len() == 0);
        } else if !('0' <= c <= '9') {
            assert(e[0] == c);
        }
    } else {
        assert(e =~= d.push(c));
        assert(e.last() == c);
        assert(e.drop_last() =~= d);
        if all_digits(d) && '0' <= c <= '9' {
            assert(all_digits(e));
        }
        if !all_digits(d) {
            let i = choose|i: int| 0 <= i < d.len() && !('0' <= #[trigger] d[i] <= '9');
            assert(e[i] == d[i]);
        }
        if !('0' <= c <= '9') {
            assert(!('0' <= e[e.len() - 1] <= '9'));
        }
        if d.len() == 0 {
            assert(s[0] == '+' && s.len() == 1);
            assert(s =~= seq!['+']);
        }
        if s[0] != '+' {
            assert((seq!['+'] + s).skip(1) =~= s);
            assert((seq!['+'] + s)[0] == '+');
        }
    }
    assert(seq!['+'].skip(1).len() == 0);
}

/// A minus sign turns a number without a sign into its negative; without it a number is
/// read as an unsigned one is.
pub proof fn law_sign_negates(s: Seq<char>)
    ensures
        s.len() > 0 && s[0] != '+' && unsigned_value(s) is Some ==> signed_value(seq!['-'] + s)
            == Some(-(unsigned_value(s)->0 as int)),
        s.len() == 0 || s[0] == '+' || unsigned_value(s) is None ==> signed_value(
            seq!['-'] + s,
        ) is None,
        s.len() == 0 || s[0] != '-' ==> (match unsigned_value(s) {
            Some(n) => signed_value(s) == Some(n as int),
            None => signed_value(s) is None,
        }),
{
    let t = seq!['-'] + s;
    assert(t[0] == '-');
    assert(t.skip(1) =~= s);
    if s.len() > 0 && s[0] == '+' {
        assert(!('0' <= s[0] <= '9'));
    }
}

/// Only `true` and `false` are truth values.
pub proof fn law_truth_values(s: Seq<char>)
    ensures
        bool_value(s) == Some(true) <==> s == seq!['t', 'r', 'u', 'e'],
        bool_value(s) == Some(false) <==> s == seq!['f', 'a', 'l', 's', 'e'],
{
    reveal_strlit("true");
    reveal_strlit("false");
    assert("true"@ =~= seq!['t', 'r', 'u', 'e']);
    assert("false"@ =~= seq!['f', 'a', 'l', 's', 'e']);
}

/// A number is written without leading zeros, as digits that are those of its tenth part
/// and one more; a sign stands before a negative number and no other.
pub proof fn law_decimal_has_no_leading_zero(n: nat)
    ensures
        decimal(0) == seq!['0'],
        n > 0 ==> decimal(n)[0] != '0' && decimal(n)[0] != '-',
        n > 0 ==> signed_decimal(-(n as int))[0] == '-',
        n >= 10 ==> decimal(n).drop_last() == decimal(n / 10),
        signed_decimal(n as int) == decimal(n),
    decreases n,
{
    lemma_decimal_digits(n);
    if n >= 10 {
        law_decimal_has_no_leading_zero(n / 10);
        lemma_decimal_digits(n / 10);
        assert(decimal(n)[0] == decimal(n / 10)[0]);
        assert(decimal(n).drop_last() =~= decimal(n / 10));
    }
}

} // verus!
