//! Reading numbers out of command text.

use vstd::prelude::*;
use vstd::string::*;

verus! {

/// The value of `c` as a digit in base `radix`: `0`-`9`, then the letters of
/// either case from ten on. `None` where `c` is no digit of that base.
pub open spec fn digit_value(c: char, radix: int) -> Option<int> {
    let v = if '0' <= c <= '9' {
        c as int - '0' as int
    } else if 'a' <= c <= 'z' {
        c as int - 'a' as int + 10
    } else if 'A' <= c <= 'Z' {
        c as int - 'A' as int + 10
    } else {
        radix
    };
    if v < radix {
        Some(v)
    } else {
        None
    }
}

/// Every character of `s` is a digit in base `radix`.
pub open spec fn all_digits(s: Seq<char>, radix: int) -> bool {
    forall|i: int| 0 <= i < s.len() ==> digit_value(#[trigger] s[i], radix) is Some
}

/// The number that the digits `s` denote in base `radix`, most significant
/// digit first.
pub open spec fn digits_value(s: Seq<char>, radix: int) -> int
    decreases s.len(),
{
    if s.len() == 0 {
        0
    } else {
        digits_value(s.drop_last(), radix) * radix + match digit_value(s.last(), radix) {
            Some(v) => v,
            None => 0,
        }
    }
}

/// The digits of a number text: the text without a leading plus sign, where
/// something follows the sign.
pub open spec fn unsigned_part(s: Seq<char>) -> Seq<char> {
    if s.len() > 1 && s[0] == '+' {
        s.skip(1)
    } else {
        s
    }
}

/// The number that the text `s` denotes in base `radix`: an optional plus
/// sign, then one digit or more, and nothing else. `None` for any other text.
pub open spec fn number_of(s: Seq<char>, radix: int) -> Option<int> {
    let body = unsigned_part(s);
    if body.len() > 0 && all_digits(body, radix) {
        Some(digits_value(body, radix))
    } else {
        None
    }
}

/// What `parse_number` returns for the text `s`: the number it denotes, where
/// it denotes one that fits a `usize`.
pub open spec fn parsed(s: Seq<char>, radix: int) -> Option<usize> {
    match number_of(s, radix) {
        Some(v) => if v <= usize::MAX {
            Some(v as usize)
        } else {
            None
        },
        None => None,
    }
}

/// The value of a leading part of a digit string is at most the value of the
/// whole.
pub proof fn lemma_prefix_value_le(s: Seq<char>, k: int, radix: int)
    requires
        0 <= k <= s.len(),
        radix >= 1,
    ensures
        0 <= digits_value(s.take(k), radix) <= digits_value(s, radix),
    decreases s.len() - k,
{
    lemma_digits_value_nonnegative(s.take(k), radix);
    if k == s.len() {
        assert(s.take(k) =~= s);
    } else {
        lemma_prefix_value_le(s, k + 1, radix);
        let longer = s.take(k + 1);
        assert(longer.drop_last() =~= s.take(k));
        let low = match digit_value(longer.last(), radix) {
            Some(v) => v,
            None => 0,
        };
        assert(low >= 0);
        assert(digits_value(longer, radix) == digits_value(s.take(k), radix) * radix + low);
        assert(digits_value(s.take(k), radix) * radix >= digits_value(s.take(k), radix))
            by (nonlinear_arith)
            requires
                digits_value(s.take(k), radix) >= 0,
                radix >= 1,
        ;
    }
}

/// The value of a digit string is not negative.
pub proof fn lemma_digits_value_nonnegative(s: Seq<char>, radix: int)
    requires
        radix >= 1,
    ensures
        digits_value(s, radix) >= 0,
    decreases s.len(),
{
    if s.len() > 0 {
        lemma_digits_value_nonnegative(s.drop_last(), radix);
        assert(digits_value(s.drop_last(), radix) * radix >= 0) by (nonlinear_arith)
            requires
                digits_value(s.drop_last(), radix) >= 0,
                radix >= 1,
        ;
    }
}

/// Whether two texts consist of the same characters.
pub fn same_text(a: &str, b: &str) -> (same: bool)
    ensures
        same == (a@ == b@),
{
    let n = a.unicode_len();
    if n != b.unicode_len() {
        return false;
    }
    let mut i: usize = 0;
    while i < n
        invariant
            n == a@.len(),
            n == b@.len(),
            i <= n,
            forall|j: int| 0 <= j < i ==> a@[j] == b@[j],
        decreases n - i,
    {
        if a.get_char(i) != b.get_char(i) {
            return false;
        }
        i += 1;
    }
    assert(a@ =~= b@);
    true
}

/// The value of one character as a digit in base `radix`.
pub fn digit_of(c: char, radix: u32) -> (digit: Option<u32>)
    requires
        2 <= radix <= 36,
    ensures
        digit is Some <==> digit_value(c, radix as int) is Some,
        digit is Some ==> digit.unwrap() as int == digit_value(c, radix as int).unwrap(),
{
    let code: u32 = c as u32;
    let value: u32 = if 48 <= code && code <= 57 {
        code - 48
    } else if 97 <= code && code <= 122 {
        code - 97 + 10
    } else if 65 <= code && code <= 90 {
        code - 65 + 10
    } else {
        radix
    };
    if value < radix {
        Some(value)
    } else {
        None
    }
}

/// Reads the number that the characters of `s` from position `start` on
/// denote in base `radix`: an optional plus sign and then digits only.
/// Returns `None` where they denote no number, or one too large for a `usize`.
pub fn parse_number(s: &str, start: usize, radix: u32) -> (value: Option<usize>)
    requires
        start <= s@.len(),
        2 <= radix <= 36,
    ensures
        value == parsed(s@.skip(start as int), radix as int),
{
    let n = s.unicode_len();
    let ghost text = s@.skip(start as int);
    let mut i: usize = start;
    if n - start > 1 && s.get_char(start) == '+' {
        i = start + 1;
    }
    let first = i;
    let ghost body = unsigned_part(text);
    assert(body =~= s@.skip(first as int));
    if first == n {
        return None;
    }
    let mut acc: usize = 0;
    while i < n
        invariant
            first <= i <= n,
            n == s@.len(),
            2 <= radix <= 36,
            body == s@.skip(first as int),
            body == unsigned_part(s@.skip(start as int)),
            body.len() > 0,
            all_digits(body.take(i - first), radix as int),
            acc as int == digits_value(body.take(i - first), radix as int),
        decreases n - i,
    {
        let c = s.get_char(i);
        assert(body[i - first] == c);
        let ghost seen = body.take(i - first);
        let ghost longer = body.take(i - first + 1);
        assert(longer.drop_last() =~= seen);
        assert(longer.last() == c);
        match digit_of(c, radix) {
            None => {
                assert(!all_digits(body, radix as int));
                return None;
            },
            Some(d) => {
                assert(digits_value(longer, radix as int) == acc as int * radix as int + d as int);
                let limit: usize = (usize::MAX - d as usize) / (radix as usize);
                if acc > limit {
                    proof {
                        assert(acc as int * radix as int + d as int > usize::MAX as int)
                            by (nonlinear_arith)
                            requires
                                acc as int > (usize::MAX as int - d as int) / (radix as int),
                                radix as int >= 2,
                                d as int >= 0,
                        ;
                        lemma_prefix_value_le(body, i - first + 1, radix as int);
                    }
                    return None;
                }
                assert(acc as int * radix as int + d as int <= usize::MAX as int)
                    by (nonlinear_arith)
                    requires
                        acc as int <= (usize::MAX as int - d as int) / (radix as int),
                        radix as int >= 2,
                        d as int >= 0,
                        acc as int >= 0,
                        d as int <= usize::MAX as int,
                ;
                acc = acc * (radix as usize) + d as usize;
                assert forall|j: int| 0 <= j < longer.len() implies digit_value(
                    #[trigger] longer[j],
                    radix as int,
                ) is Some by {
                    if j < seen.len() {
                        assert(longer[j] == seen[j]);
                    }
                }
            },
        }
        i += 1;
    }
    assert(body.take(i - first) =~= body);
    Some(acc)
}

} // verus!
