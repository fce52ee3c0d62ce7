//! Reading numbers from text buffers and writing them back.
//!
//! A node index is written as plain decimal digits, optionally after one
//! `+`. A weight is written as decimal digits with an optional fraction,
//! `12`, `12.5`, `.5` or `12.`, optionally after one `+`; it is read in
//! thousandths, and digits beyond the third fractional one are dropped.
//! Anything else does not denote a number.

use vstd::prelude::*;
use vstd::string::*;

verus! {

/// Whether `c` is one of the digits `0` to `9`.
pub open spec fn is_digit(c: char) -> bool {
    '0' <= c && c <= '9'
}

/// The value of a decimal digit; 0 for any other character.
pub open spec fn digit_value(c: char) -> nat {
    if is_digit(c) {
        (c as nat - '0' as nat) as nat
    } else {
        0
    }
}

/// The character that denotes the digit `d`.
pub open spec fn digit_char(d: nat) -> char {
    if d == 0 {
        '0'
    } else if d == 1 {
        '1'
    } else if d == 2 {
        '2'
    } else if d == 3 {
        '3'
    } else if d == 4 {
        '4'
    } else if d == 5 {
        '5'
    } else if d == 6 {
        '6'
    } else if d == 7 {
        '7'
    } else if d == 8 {
        '8'
    } else {
        '9'
    }
}

/// Whether `s` consists of digits only.
pub open spec fn all_digits(s: Seq<char>) -> bool {
    forall|i: int| 0 <= i < s.len() ==> is_digit(#[trigger] s[i])
}

/// The number that the digits of `s` denote, most significant digit first.
pub open spec fn digits_value(s: Seq<char>) -> nat
    decreases s.len(),
{
    if s.len() == 0 {
        0
    } else {
        digits_value(s.drop_last()) * 10 + digit_value(s.last())
    }
}

/// How many digits `s` begins with.
pub open spec fn leading_digits(s: Seq<char>) -> nat
    decreases s.len(),
{
    if s.len() == 0 || !is_digit(s[0]) {
        0
    } else {
        1 + leading_digits(s.skip(1))
    }
}

/// The decimal digits of `n`, without leading zeros.
pub open spec fn decimal(n: nat) -> Seq<char>
    decreases n,
{
    if n < 10 {
        seq![digit_char(n)]
    } else {
        decimal(n / 10).push(digit_char(n % 10))
    }
}

/// `s` without one leading `+`, if it has one.
pub open spec fn unsigned_part(s: Seq<char>) -> Seq<char> {
    if s.len() > 0 && s[0] == '+' {
        s.skip(1)
    } else {
        s
    }
}

/// The node index that `s` denotes, if it denotes one.
pub open spec fn index_of_text(s: Seq<char>) -> Option<nat> {
    let body = unsigned_part(s);
    if body.len() > 0 && all_digits(body) {
        Some(digits_value(body))
    } else {
        None
    }
}

/// The `i`-th fractional digit of `frac`, or 0 where it has none.
pub open spec fn frac_digit(frac: Seq<char>, i: int) -> nat {
    if 0 <= i < frac.len() {
        digit_value(frac[i])
    } else {
        0
    }
}

/// The first three fractional digits as a count of thousandths.
pub open spec fn thousandths(frac: Seq<char>) -> nat {
    frac_digit(frac, 0) * 100 + frac_digit(frac, 1) * 10 + frac_digit(frac, 2)
}

/// The weight in thousandths that `s` denotes, if it denotes one.
pub open spec fn weight_of_text(s: Seq<char>) -> Option<nat> {
    let body = unsigned_part(s);
    let n = leading_digits(body) as int;
    let whole = body.take(n);
    if n == body.len() {
        if n > 0 {
            Some(digits_value(whole) * 1000)
        } else {
            None
        }
    } else if body[n] == '.' {
        let frac = body.skip(n + 1);
        if all_digits(frac) && n + frac.len() > 0 {
            Some(digits_value(whole) * 1000 + thousandths(frac))
        } else {
            None
        }
    } else {
        None
    }
}

/// The fractional digits of a count `f` of thousandths below one unit: at
/// least one digit, and no trailing zero after it.
pub open spec fn frac_text(f: nat) -> Seq<char> {
    let a = digit_char(f / 100);
    let b = digit_char((f / 10) % 10);
    let c = digit_char(f % 10);
    if f % 10 != 0 {
        seq![a, b, c]
    } else if (f / 10) % 10 != 0 {
        seq![a, b]
    } else {
        seq![a]
    }
}

/// How a weight of `w` thousandths is written: the whole part, a point, and
/// one to three fractional digits.
pub open spec fn weight_decimal(w: nat) -> Seq<char> {
    decimal(w / 1000) + seq!['.'] + frac_text(w % 1000)
}

/// `v` as a machine number, or nothing when it exceeds `limit`.
pub open spec fn bounded(v: nat, limit: u64) -> Option<u64> {
    if v <= limit {
        Some(v as u64)
    } else {
        None
    }
}

/// The leading run of digits ends where the first non-digit stands.
pub proof fn lemma_leading_digits(s: Seq<char>, n: int)
    requires
        0 <= n <= s.len(),
        forall|i: int| 0 <= i < n ==> is_digit(#[trigger] s[i]),
        n < s.len() ==> !is_digit(s[n]),
    ensures
        leading_digits(s) == n,
    decreases n,
{
    if n > 0 {
        let rest = s.skip(1);
        assert(is_digit(s[0]));
        assert forall|i: int| 0 <= i < n - 1 implies is_digit(#[trigger] rest[i]) by {
            assert(rest[i] == s[i + 1]);
        }
        lemma_leading_digits(rest, n - 1);
    }
}

/// The leading run of digits stays within the text, consists of digits, and
/// ends before a non-digit.
pub proof fn lemma_leading_digits_props(s: Seq<char>)
    ensures
        leading_digits(s) <= s.len(),
        forall|i: int| 0 <= i < leading_digits(s) ==> is_digit(#[trigger] s[i]),
        leading_digits(s) < s.len() ==> !is_digit(s[leading_digits(s) as int]),
    decreases s.len(),
{
    if s.len() != 0 && is_digit(s[0]) {
        let rest = s.skip(1);
        lemma_leading_digits_props(rest);
        let n = leading_digits(rest) as int;
        assert(n < rest.len() ==> rest[n] == s[n + 1]);
        assert forall|i: int| 0 <= i < n + 1 implies is_digit(#[trigger] s[i]) by {
            if i > 0 {
                assert(s[i] == rest[i - 1]);
            }
        }
    }
}

/// The digits of `n` are digits, begin with no `+`, and denote `n`.
pub proof fn lemma_decimal_value(n: nat)
    ensures
        decimal(n).len() >= 1,
        all_digits(decimal(n)),
        digits_value(decimal(n)) == n,
    decreases n,
{
    if n < 10 {
        let s = decimal(n);
        assert(s.drop_last() =~= Seq::<char>::empty());
        assert(digits_value(s.drop_last()) == 0);
        assert(s.last() == digit_char(n));
    } else {
        lemma_decimal_value(n / 10);
        let s = decimal(n);
        assert(s.drop_last() =~= decimal(n / 10));
        assert(s.last() == digit_char(n % 10));
    }
}

/// An index written out in decimal reads back as itself.
pub proof fn lemma_index_round_trip(n: nat)
    ensures
        index_of_text(decimal(n)) == Some(n),
{
    lemma_decimal_value(n);
    assert(is_digit(decimal(n)[0]));
}

/// A weight written out in decimal reads back as itself.
pub proof fn lemma_weight_round_trip(w: nat)
    ensures
        weight_of_text(weight_decimal(w)) == Some(w),
{
    let whole = decimal(w / 1000);
    let frac = frac_text(w % 1000);
    let s = weight_decimal(w);
    lemma_decimal_value(w / 1000);
    assert(is_digit(whole[0]));
    assert(s[0] == whole[0]);
    assert(unsigned_part(s) == s);
    let n = whole.len() as int;
    assert(s[n] == '.');
    assert forall|i: int| 0 <= i < n implies is_digit(#[trigger] s[i]) by {
        assert(s[i] == whole[i]);
    }
    lemma_leading_digits(s, n);
    assert(s.take(n) =~= whole);
    assert(s.skip(n + 1) =~= frac);
    let f = w % 1000;
    assert(digit_value(digit_char(f / 100)) == f / 100);
    assert(digit_value(digit_char((f / 10) % 10)) == (f / 10) % 10);
    assert(digit_value(digit_char(f % 10)) == f % 10);
    assert(thousandths(frac) == f);
}

/// The text of a single decimal digit.
fn digit_str(d: u128) -> (s: &'static str)
    requires
        d < 10,
    ensures
        s@ == seq![digit_char(d as nat)],
{
    proof {
        reveal_strlit("0");
        reveal_strlit("1");
        reveal_strlit("2");
        reveal_strlit("3");
        reveal_strlit("4");
        reveal_strlit("5");
        reveal_strlit("6");
        reveal_strlit("7");
        reveal_strlit("8");
        reveal_strlit("9");
    }
    let s = if d == 0 {
        "0"
    } else if d == 1 {
        "1"
    } else if d == 2 {
        "2"
    } else if d == 3 {
        "3"
    } else if d == 4 {
        "4"
    } else if d == 5 {
        "5"
    } else if d == 6 {
        "6"
    } else if d == 7 {
        "7"
    } else if d == 8 {
        "8"
    } else {
        "9"
    };
    proof {
        assert(s@ =~= seq![digit_char(d as nat)]);
    }
    s
}

/// Writes `n` in decimal.
pub fn number_text(n: u128) -> (s: String)
    ensures
        s@ == decimal(n as nat),
    decreases n,
{
    if n < 10 {
        String::from_str(digit_str(n))
    } else {
        let mut s = number_text(n / 10);
        s.append(digit_str(n % 10));
        proof {
            assert(s@ =~= decimal(n as nat));
        }
        s
    }
}

/// Writes a node index in decimal.
pub fn index_text(n: usize) -> (s: String)
    ensures
        s@ == decimal(n as nat),
        index_of_text(s@) == Some(n as nat),
{
    proof {
        lemma_index_round_trip(n as nat);
    }
    number_text(n as u128)
}

/// Writes a weight of `w` thousandths with one to three fractional digits.
pub fn weight_text(w: u64) -> (s: String)
    ensures
        s@ == weight_decimal(w as nat),
        weight_of_text(s@) == Some(w as nat),
{
    cost_text(w as u128)
}

/// Writes a cost of `w` thousandths with one to three fractional digits.
pub fn cost_text(w: u128) -> (s: String)
    ensures
        s@ == weight_decimal(w as nat),
        weight_of_text(s@) == Some(w as nat),
{
    let f = w % 1000;
    let mut s = number_text(w / 1000);
    s.append(".");
    s.append(digit_str(f / 100));
    if f % 10 != 0 {
        s.append(digit_str((f / 10) % 10));
        s.append(digit_str(f % 10));
    } else if (f / 10) % 10 != 0 {
        s.append(digit_str((f / 10) % 10));
    }
    proof {
        reveal_strlit(".");
        assert("."@ =~= seq!['.']);
        assert(s@ =~= weight_decimal(w as nat));
        lemma_weight_round_trip(w as nat);
    }
    s
}

/// Reads the digits that `s` begins with: how many there are, and the number
/// they denote where it does not exceed `limit`.
fn scan_digits(s: &str, limit: u64) -> (r: (usize, Option<u64>))
    requires
        is_ascii(s),
        limit >= 9,
    ensures
        r.0 == leading_digits(s@),
        r.0 <= s@.len(),
        r.1 == bounded(digits_value(s@.take(r.0 as int)), limit),
{
    let len = s.unicode_len();
    let mut i: usize = 0;
    let mut acc: Option<u64> = Some(0);
    proof {
        assert(s@.take(0) =~= Seq::<char>::empty());
    }
    while i < len
        invariant
            is_ascii(s),
            limit >= 9,
            len == s@.len(),
            i <= len,
            forall|j: int| 0 <= j < i ==> is_digit(#[trigger] s@[j]),
            acc == bounded(digits_value(s@.take(i as int)), limit),
        ensures
            i <= len,
            forall|j: int| 0 <= j < i ==> is_digit(#[trigger] s@[j]),
            i < len ==> !is_digit(s@[i as int]),
            acc == bounded(digits_value(s@.take(i as int)), limit),
        decreases len - i,
    {
        let b = s.get_ascii(i);
        if b < 48 || b > 57 {
            break ;
        }
        let d: u64 = (b - 48) as u64;
        proof {
            let c = s@[i as int];
            assert(is_digit(c));
            assert(digit_value(c) == d);
            let next = s@.take(i + 1);
            assert(next.drop_last() =~= s@.take(i as int));
            assert(next.last() == c);
        }
        acc =
        match acc {
            Some(a) => if a <= (limit - d) / 10 {
                Some(a * 10 + d)
            } else {
                None
            },
            None => None,
        };
        i += 1;
    }
    proof {
        lemma_leading_digits(s@, i as int);
    }
    (i, acc)
}

/// Reads a node index: decimal digits, optionally after one `+`.
///
/// Returns `None` when the text is no such number or the number does not fit
/// in `usize`.
pub fn parse_index(s: &str) -> (r: Option<usize>)
    ensures
        r == match index_of_text(s@) {
            Some(v) => if v <= usize::MAX {
                Some(v as usize)
            } else {
                None
            },
            None => None,
        },
{
    if !s.is_ascii() {
        proof {
            lemma_not_ascii(s@);
        }
        return None;
    }
    let len = s.unicode_len();
    let start: usize = if len > 0 && s.get_ascii(0) == 43 {
        1
    } else {
        0
    };
    let body = s.substring_ascii(start, len);
    proof {
        assert(body@ =~= unsigned_part(s@));
    }
    let (n, value) = scan_digits(body, usize::MAX as u64);
    proof {
        lemma_leading_digits_props(body@);
        if n == body@.len() {
            assert(body@.take(n as int) =~= body@);
        }
    }
    if n == 0 || n != len - start {
        return None;
    }
    match value {
        Some(v) => Some(v as usize),
        None => None,
    }
}

/// Reads a weight in thousandths: decimal digits with an optional fraction,
/// optionally after one `+`.
///
/// Returns `None` when the text is no such number or the number does not fit
/// in `u64`.
pub fn parse_weight(s: &str) -> (r: Option<u64>)
    ensures
        r == match weight_of_text(s@) {
            Some(v) => bounded(v, u64::MAX),
            None => None,
        },
{
    if !s.is_ascii() {
        proof {
            lemma_not_ascii(s@);
        }
        return None;
    }
    let len = s.unicode_len();
    let start: usize = if len > 0 && s.get_ascii(0) == 43 {
        1
    } else {
        0
    };
    let body = s.substring_ascii(start, len);
    proof {
        assert(body@ =~= unsigned_part(s@));
    }
    let blen = len - start;
    let (n, whole) = scan_digits(body, u64::MAX / 1000);
    proof {
        lemma_leading_digits_props(body@);
    }
    let mut millis: u64 = 0;
    if n == blen {
        if n == 0 {
            return None;
        }
    } else {
        if body.get_ascii(n) != 46 {
            return None;
        }
        let frac = body.substring_ascii(n + 1, blen);
        let flen = blen - n - 1;
        proof {
            assert(frac@ =~= body@.skip(n + 1));
        }
        let (m, _) = scan_digits(frac, 9);
        proof {
            lemma_leading_digits_props(frac@);
        }
        if m != flen || n + flen == 0 {
            return None;
        }
        if flen > 0 {
            millis = millis + ((frac.get_ascii(0) - 48) as u64) * 100;
        }
        if flen > 1 {
            millis = millis + ((frac.get_ascii(1) - 48) as u64) * 10;
        }
        if flen > 2 {
            millis = millis + ((frac.get_ascii(2) - 48) as u64);
        }
        proof {
            assert(millis == thousandths(frac@));
        }
    }
    match whole {
        Some(v) => (v * 1000).checked_add(millis),
        None => None,
    }
}

/// Text with a character outside ASCII denotes neither an index nor a
/// weight.
proof fn lemma_not_ascii(s: Seq<char>)
    requires
        !vstd::utf8::is_ascii_chars(s),
    ensures
        index_of_text(s) is None,
        weight_of_text(s) is None,
{
    let i = choose|i: int| 0 <= i < s.len() && !('\0' <= #[trigger] s[i] <= '\u{7f}');
    let c = s[i];
    assert(!is_digit(c) && c != '+' && c != '.');
    let body = unsigned_part(s);
    let k = if s.len() > 0 && s[0] == '+' {
        i - 1
    } else {
        i
    };
    assert(body[k] == c);
    lemma_leading_digits_props(body);
    let n = leading_digits(body) as int;
    if n < body.len() && body[n] == '.' {
        let frac = body.skip(n + 1);
        assert(k > n);
        assert(frac[k - n - 1] == c);
    }
}

} // verus!
