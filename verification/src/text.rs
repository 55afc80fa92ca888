//! Text-level building blocks: uppercasing of key segments, string equality,
//! and the scalar parses used by the type-inference ladder.

use vstd::prelude::*;
use vstd::string::*;

verus! {

/// What `char::to_uppercase` yields for one character, as a sequence of
/// characters; the result depends on the character alone.
pub uninterp spec fn char_upper_of(c: char) -> Seq<char>;

/// Relies on `char::to_uppercase`: the uppercase mapping of a character,
/// yielded as one or more characters. A character with no uppercase mapping,
/// such as `'_'`, is yielded unchanged.
#[verifier::external_body]
fn char_upper(c: char) -> (r: String)
    ensures
        r@ == char_upper_of(c),
        c == '_' ==> r@ == seq!['_'],
{
    c.to_uppercase().collect()
}

/// The uppercase form of a character sequence: each character replaced by its
/// uppercase mapping, in order.
pub open spec fn upper_of(s: Seq<char>) -> Seq<char>
    decreases s.len(),
{
    if s.len() == 0 {
        Seq::empty()
    } else {
        char_upper_of(s[0]) + upper_of(s.drop_first())
    }
}

/// Appending one character uppercases to the uppercase form of the prefix
/// followed by the character's uppercase mapping.
pub proof fn lemma_upper_of_push(s: Seq<char>, c: char)
    ensures
        upper_of(s.push(c)) == upper_of(s) + char_upper_of(c),
    decreases s.len(),
{
    if s.len() == 0 {
        let t = s.push(c);
        assert(t.drop_first() =~= Seq::<char>::empty());
        assert(t[0] == c);
        assert(upper_of(t.drop_first()) =~= Seq::<char>::empty());
        assert(upper_of(t) == char_upper_of(c) + upper_of(t.drop_first()));
        assert(upper_of(t) =~= char_upper_of(c));
        assert(upper_of(s) + char_upper_of(c) =~= char_upper_of(c));
    } else {
        assert(s.push(c).drop_first() =~= s.drop_first().push(c));
        lemma_upper_of_push(s.drop_first(), c);
        assert(s.push(c)[0] == s[0]);
        assert(upper_of(s) + char_upper_of(c) =~= char_upper_of(s[0]) + (upper_of(
            s.drop_first(),
        ) + char_upper_of(c)));
    }
}

/// Uppercasing distributes over concatenation.
pub proof fn lemma_upper_of_concat(a: Seq<char>, b: Seq<char>)
    ensures
        upper_of(a + b) == upper_of(a) + upper_of(b),
    decreases a.len(),
{
    if a.len() == 0 {
        assert(a + b =~= b);
        assert(upper_of(a) + upper_of(b) =~= upper_of(b));
    } else {
        assert((a + b).drop_first() =~= a.drop_first() + b);
        lemma_upper_of_concat(a.drop_first(), b);
        assert((a + b)[0] == a[0]);
        assert(upper_of(a) + upper_of(b) =~= char_upper_of(a[0]) + (upper_of(a.drop_first())
            + upper_of(b)));
    }
}

/// Uppercases a string, character by character.
pub fn to_upper(s: &str) -> (r: String)
    ensures
        r@ == upper_of(s@),
{
    let n = s.unicode_len();
    let mut r = String::new();
    let mut i: usize = 0;
    proof {
        assert(s@.take(0) =~= Seq::<char>::empty());
    }
    while i < n
        invariant
            i <= n,
            n == s@.len(),
            r@ == upper_of(s@.take(i as int)),
        decreases n - i,
    {
        let c = s.get_char(i);
        let u = char_upper(c);
        r.append(u.as_str());
        proof {
            lemma_upper_of_push(s@.take(i as int), c);
            assert(s@.take(i + 1) =~= s@.take(i as int).push(s@[i as int]));
        }
        i = i + 1;
    }
    proof {
        assert(s@.take(n as int) =~= s@);
    }
    r
}

/// Compares two strings character by character.
pub fn str_eq(a: &str, b: &str) -> (r: bool)
    ensures
        r == (a@ == b@),
{
    let n = a.unicode_len();
    let m = b.unicode_len();
    if n != m {
        return false;
    }
    let mut i: usize = 0;
    while i < n
        invariant
            i <= n,
            n == a@.len(),
            n == b@.len(),
            forall|j: int| 0 <= j < i ==> a@[j] == b@[j],
        decreases n - i,
    {
        let ca = a.get_char(i);
        let cb = b.get_char(i);
        if ca != cb {
            return false;
        }
        i = i + 1;
    }
    proof {
        assert(a@ =~= b@);
    }
    true
}

/// The boolean parse of the ladder: exactly the literal forms `true` and
/// `false` are accepted.
pub open spec fn parse_bool_spec(s: Seq<char>) -> Option<bool> {
    if s == "true"@ {
        Some(true)
    } else if s == "false"@ {
        Some(false)
    } else {
        None
    }
}

/// Parses a boolean from its literal form.
pub fn parse_bool(s: &str) -> (r: Option<bool>)
    ensures
        r == parse_bool_spec(s@),
{
    if str_eq(s, "true") {
        Some(true)
    } else if str_eq(s, "false") {
        Some(false)
    } else {
        None
    }
}

/// An ASCII decimal digit.
pub open spec fn is_ascii_digit(c: char) -> bool {
    48 <= c as u32 <= 57
}

/// The numeric value of an ASCII decimal digit.
pub open spec fn digit_val(c: char) -> int {
    c as u32 - 48
}

/// Every character of the sequence is an ASCII decimal digit.
pub open spec fn all_digits(s: Seq<char>) -> bool {
    forall|i: int| 0 <= i < s.len() ==> is_ascii_digit(#[trigger] s[i])
}

/// The value of a digit sequence read in base ten.
pub open spec fn digits_value(s: Seq<char>) -> int
    decreases s.len(),
{
    if s.len() == 0 {
        0
    } else {
        digits_value(s.drop_last()) * 10 + digit_val(s.last())
    }
}

/// The value of a digit sequence is never negative.
pub proof fn lemma_digits_value_nonneg(s: Seq<char>)
    requires
        all_digits(s),
    ensures
        digits_value(s) >= 0,
    decreases s.len(),
{
    if s.len() > 0 {
        assert(all_digits(s.drop_last()));
        lemma_digits_value_nonneg(s.drop_last());
    }
}

/// A digit sequence is worth at least as much as any of its prefixes.
pub proof fn lemma_digits_value_prefix_le(s: Seq<char>, k: int)
    requires
        all_digits(s),
        0 <= k <= s.len(),
    ensures
        digits_value(s.take(k)) <= digits_value(s),
    decreases s.len() - k,
{
    if k < s.len() {
        lemma_digits_value_prefix_le(s, k + 1);
        assert(s.take(k + 1).drop_last() =~= s.take(k));
        assert(all_digits(s.take(k)));
        lemma_digits_value_nonneg(s.take(k));
        assert(digits_value(s.take(k + 1)) == digits_value(s.take(k)) * 10 + digit_val(
            s.take(k + 1).last(),
        ));
    } else {
        assert(s.take(k) =~= s);
    }
}

/// The integer parse applied to the digit part of the text, with the sign
/// already stripped: at least one digit, all characters digits, and the value
/// within the range of the target type.
pub open spec fn parse_digits_signed(ds: Seq<char>, neg: bool) -> Option<i64> {
    if ds.len() >= 1 && all_digits(ds) {
        let m = digits_value(ds);
        if neg {
            if m <= i64::MAX as int + 1 {
                Some((-m) as i64)
            } else {
                None
            }
        } else {
            if m <= i64::MAX as int {
                Some(m as i64)
            } else {
                None
            }
        }
    } else {
        None
    }
}

/// The integer parse of the ladder: an optional leading `+` or `-` followed by
/// one or more ASCII decimal digits, with the value in the range of `i64`.
pub open spec fn parse_i64_spec(s: Seq<char>) -> Option<i64> {
    if s.len() >= 1 && (s[0] == '+' || s[0] == '-') {
        parse_digits_signed(s.drop_first(), s[0] == '-')
    } else {
        parse_digits_signed(s, false)
    }
}

/// Relates the parse of the whole text to the parse of its digit part.
proof fn lemma_spec_of_stripped(s: Seq<char>, ds: Seq<char>, start: int, neg: bool)
    requires
        0 <= start <= 1,
        start <= s.len(),
        (start == 1) == (s.len() >= 1 && (s[0] == '+' || s[0] == '-')),
        neg == (start == 1 && s[0] == '-'),
        ds == s.subrange(start, s.len() as int),
    ensures
        parse_i64_spec(s) == parse_digits_signed(ds, neg),
{
    if start == 1 {
        assert(ds =~= s.drop_first());
    } else {
        assert(ds =~= s);
    }
}

/// Parses a signed 64-bit integer from decimal text.
pub fn parse_i64(s: &str) -> (r: Option<i64>)
    ensures
        r == parse_i64_spec(s@),
{
    let n = s.unicode_len();
    let mut start: usize = 0;
    let mut neg = false;
    if n >= 1 {
        let c0 = s.get_char(0);
        if c0 == '+' {
            start = 1;
        } else if c0 == '-' {
            start = 1;
            neg = true;
        }
    }
    let ghost ds: Seq<char> = s@.subrange(start as int, n as int);
    proof {
        if start == 1 {
            assert(ds =~= s@.drop_first());
        } else {
            assert(ds =~= s@);
        }
    }
    if start >= n {
        proof {
            lemma_spec_of_stripped(s@, ds, start as int, neg);
        }
        return None;
    }
    let mut mag: u64 = 0;
    let mut j = start;
    while j < n
        invariant
            start <= j <= n,
            n == s@.len(),
            start <= 1,
            (start == 1) == (s@.len() >= 1 && (s@[0] == '+' || s@[0] == '-')),
            neg == (start == 1 && s@[0] == '-'),
            ds == s@.subrange(start as int, n as int),
            ds.len() >= 1,
            all_digits(ds.take(j - start)),
            mag == digits_value(ds.take(j - start)),
        decreases n - j,
    {
        let ghost k: int = j - start;
        let c = s.get_char(j);
        let d = c as u32;
        proof {
            assert(ds[k] == s@[j as int]);
        }
        if d < 48 || d > 57 {
            proof {
                assert(!is_ascii_digit(ds[k]));
                lemma_spec_of_stripped(s@, ds, start as int, neg);
            }
            return None;
        }
        proof {
            assert(ds.take(k + 1).drop_last() =~= ds.take(k));
            assert(ds.take(k + 1).last() == ds[k]);
            assert(all_digits(ds.take(k + 1)));
            assert(digits_value(ds.take(k + 1)) == mag * 10 + digit_val(ds[k]));
        }
        let dv: u64 = (d - 48) as u64;
        let overflowed: bool;
        match mag.checked_mul(10) {
            Some(m) => {
                match m.checked_add(dv) {
                    Some(m2) => {
                        mag = m2;
                        overflowed = false;
                    },
                    None => {
                        overflowed = true;
                    },
                }
            },
            None => {
                overflowed = true;
            },
        }
        if overflowed {
            proof {
                assert(digit_val(ds[k]) == dv);
                assert(digits_value(ds.take(k + 1)) > u64::MAX);
                if all_digits(ds) {
                    lemma_digits_value_prefix_le(ds, k + 1);
                    assert(digits_value(ds) > i64::MAX as int + 1);
                }
                lemma_spec_of_stripped(s@, ds, start as int, neg);
            }
            return None;
        }
        j = j + 1;
    }
    proof {
        assert(ds.take(n - start) =~= ds);
        lemma_spec_of_stripped(s@, ds, start as int, neg);
    }
    if !neg {
        if mag <= i64::MAX as u64 {
            Some(mag as i64)
        } else {
            None
        }
    } else {
        if mag <= i64::MAX as u64 {
            Some(-(mag as i64))
        } else if mag == i64::MAX as u64 + 1 {
            Some(i64::MIN)
        } else {
            None
        }
    }
}

/// The character of one decimal digit.
pub open spec fn digit_char(d: int) -> char {
    if d == 0 {
        '0'
    } else if d == 1 {
        '1'
    } else if d == 2 {
        '2'
    } else if d == 3 {
        '3'
    } else if d == 4 {
        '4'
    } else if d == 5 {
        '5'
    } else if d == 6 {
        '6'
    } else if d == 7 {
        '7'
    } else if d == 8 {
        '8'
    } else {
        '9'
    }
}

/// The decimal digits of a non-negative number, most significant first.
pub open spec fn nat_digits(n: int) -> Seq<char>
    decreases n,
{
    if n < 10 {
        seq![digit_char(n)]
    } else {
        nat_digits(n / 10).push(digit_char(n % 10))
    }
}

/// The decimal rendering of a signed 64-bit integer.
pub open spec fn i64_text(i: i64) -> Seq<char> {
    if i < 0 {
        seq!['-'] + nat_digits(-(i as int))
    } else {
        nat_digits(i as int)
    }
}

/// The one-character string of a decimal digit.
fn digit_str(d: u64) -> (r: &'static str)
    requires
        d < 10,
    ensures
        r@ == seq![digit_char(d as int)],
{
    proof {
        reveal_strlit("0");
        reveal_strlit("1");
        reveal_strlit("2");
        reveal_strlit("3");
        reveal_strlit("4");
        reveal_strlit("5");
        reveal_strlit("6");
        reveal_strlit("7");
        reveal_strlit("8");
        reveal_strlit("9");
    }
    if d == 0 {
        proof {
            assert("0"@ =~= seq![digit_char(0)]);
        }
        "0"
    } else if d == 1 {
        proof {
            assert("1"@ =~= seq![digit_char(1)]);
        }
        "1"
    } else if d == 2 {
        proof {
            assert("2"@ =~= seq![digit_char(2)]);
        }
        "2"
    } else if d == 3 {
        proof {
            assert("3"@ =~= seq![digit_char(3)]);
        }
        "3"
    } else if d == 4 {
        proof {
            assert("4"@ =~= seq![digit_char(4)]);
        }
        "4"
    } else if d == 5 {
        proof {
            assert("5"@ =~= seq![digit_char(5)]);
        }
        "5"
    } else if d == 6 {
        proof {
            assert("6"@ =~= seq![digit_char(6)]);
        }
        "6"
    } else if d == 7 {
        proof {
            assert("7"@ =~= seq![digit_char(7)]);
        }
        "7"
    } else if d == 8 {
        proof {
            assert("8"@ =~= seq![digit_char(8)]);
        }
        "8"
    } else {
        proof {
            assert("9"@ =~= seq![digit_char(9)]);
        }
        "9"
    }
}

/// Renders the decimal digits of a non-negative number.
fn u64_digits(n: u64) -> (r: String)
    ensures
        r@ == nat_digits(n as int),
    decreases n,
{
    if n < 10 {
        digit_str(n).to_owned()
    } else {
        let mut s = u64_digits(n / 10);
        s.append(digit_str(n % 10));
        proof {
            assert(s@ =~= nat_digits((n / 10) as int).push(digit_char((n % 10) as int)));
        }
        s
    }
}

/// Renders a signed 64-bit integer in decimal.
pub fn i64_to_string(i: i64) -> (r: String)
    ensures
        r@ == i64_text(i),
{
    if i >= 0 {
        u64_digits(i as u64)
    } else {
        let mag: u64 = if i == i64::MIN {
            9223372036854775808u64
        } else {
            (-i) as u64
        };
        proof {
            assert(mag as int == -(i as int));
        }
        let mut s = "-".to_owned();
        s.append(u64_digits(mag).as_str());
        proof {
            reveal_strlit("-");
            assert("-"@ =~= seq!['-']);
            assert(s@ =~= seq!['-'] + nat_digits(-(i as int)));
        }
        s
    }
}

} // verus!
