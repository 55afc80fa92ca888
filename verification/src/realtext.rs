//! Acceptance of floating-point text.
//!
//! The standard library documents the exact grammar its floating-point parse
//! accepts:
//!
//! ```text
//! Float  ::= Sign? ( 'inf' | 'infinity' | 'nan' | Number )
//! Number ::= Count '.'? Count? Exp? | '.' Count Exp?
//! Exp    ::= ('e' | 'E') Sign? Count
//! Count  ::= Digit+
//! ```
//!
//! with the three keywords compared case-insensitively, and no text ever
//! rejected for describing a value out of range. Acceptance is therefore a
//! pure grammar check, stated and verified here. The loader never needs the
//! parsed value: float leaves carry their textual form.
//!
//! YAML real scalars are accepted on demand by the YAML library, which first
//! recognises the Core-schema forms of infinity and not-a-number and then
//! falls back to the standard parse; `yaml_real_accepted` states exactly that.

use crate::text::{all_digits, is_ascii_digit, str_eq};
use vstd::prelude::*;

verus! {

/// The character's code with ASCII capital letters folded to small ones.
pub open spec fn lower_code(c: char) -> int {
    if 65 <= c as u32 <= 90 {
        c as u32 + 32
    } else {
        c as u32 as int
    }
}

/// Character-wise equality up to ASCII case.
pub open spec fn eq_case_insensitive(s: Seq<char>, t: Seq<char>) -> bool {
    s.len() == t.len() && forall|i: int|
        0 <= i < s.len() ==> lower_code(#[trigger] s[i]) == lower_code(t[i])
}

/// The length of the longest prefix made of ASCII decimal digits.
pub open spec fn digits_prefix_len(s: Seq<char>) -> int
    decreases s.len(),
{
    if s.len() == 0 || !is_ascii_digit(s[0]) {
        0
    } else {
        1 + digits_prefix_len(s.drop_first())
    }
}

/// The digit prefix is within bounds and made of digits.
pub proof fn lemma_digits_prefix_len_bounds(s: Seq<char>)
    ensures
        0 <= digits_prefix_len(s) <= s.len(),
        all_digits(s.take(digits_prefix_len(s))),
    decreases s.len(),
{
    if s.len() == 0 || !is_ascii_digit(s[0]) {
        assert(s.take(0) =~= Seq::<char>::empty());
    } else {
        lemma_digits_prefix_len_bounds(s.drop_first());
        let d = digits_prefix_len(s);
        assert(s.take(d).drop_first() =~= s.drop_first().take(d - 1));
        assert forall|i: int| 0 <= i < d implies is_ascii_digit(#[trigger] s.take(d)[i]) by {
            if i > 0 {
                assert(s.take(d)[i] == s.drop_first().take(d - 1)[i - 1]);
            }
        }
    }
}

/// A position whose prefix is all digits and which sits at the end or at a
/// non-digit is the digit prefix length.
pub proof fn lemma_digits_prefix_len_is(s: Seq<char>, k: int)
    requires
        0 <= k <= s.len(),
        all_digits(s.take(k)),
        k == s.len() || !is_ascii_digit(s[k]),
    ensures
        digits_prefix_len(s) == k,
    decreases s.len(),
{
    if k == 0 {
        if s.len() > 0 {
            assert(!is_ascii_digit(s[0]));
        }
    } else {
        assert(is_ascii_digit(s.take(k)[0]));
        assert(s.drop_first().take(k - 1) =~= s.take(k).drop_first());
        assert(all_digits(s.drop_first().take(k - 1))) by {
            assert forall|i: int|
                0 <= i < k - 1 implies is_ascii_digit(
                #[trigger] s.drop_first().take(k - 1)[i],
            ) by {
                assert(s.drop_first().take(k - 1)[i] == s.take(k)[i + 1]);
            }
        }
        if k < s.len() {
            assert(s.drop_first()[k - 1] == s[k]);
        }
        lemma_digits_prefix_len_is(s.drop_first(), k - 1);
    }
}

/// The whole text is digits exactly when the digit prefix spans it.
pub proof fn lemma_digits_prefix_len_full(s: Seq<char>)
    ensures
        digits_prefix_len(s) == s.len() <==> all_digits(s),
{
    lemma_digits_prefix_len_bounds(s);
    if digits_prefix_len(s) == s.len() {
        assert(s.take(s.len() as int) =~= s);
    }
    if all_digits(s) {
        lemma_digits_prefix_len_is(s, s.len() as int);
    }
}

/// An exponent part: `e` or `E`, an optional sign, and at least one digit.
pub open spec fn exp_accepted(s: Seq<char>) -> bool {
    s.len() >= 1 && (s[0] == 'e' || s[0] == 'E') && {
        let t = if s.len() >= 2 && (s[1] == '+' || s[1] == '-') {
            s.subrange(2, s.len() as int)
        } else {
            s.drop_first()
        };
        t.len() >= 1 && all_digits(t)
    }
}

/// The `Number` production: digits, an optional point with optional further
/// digits, and an optional exponent; or a point followed by digits and an
/// optional exponent.
pub open spec fn number_accepted(s: Seq<char>) -> bool {
    let i = digits_prefix_len(s);
    if i > 0 {
        let rest = s.skip(i);
        if rest.len() == 0 {
            true
        } else if rest[0] == '.' {
            let frac = rest.drop_first();
            let tail = frac.skip(digits_prefix_len(frac));
            tail.len() == 0 || exp_accepted(tail)
        } else {
            exp_accepted(rest)
        }
    } else {
        s.len() >= 1 && s[0] == '.' && {
            let frac = s.drop_first();
            let j = digits_prefix_len(frac);
            j >= 1 && {
                let tail = frac.skip(j);
                tail.len() == 0 || exp_accepted(tail)
            }
        }
    }
}

/// The text with one leading sign removed.
pub open spec fn strip_sign(s: Seq<char>) -> Seq<char> {
    if s.len() >= 1 && (s[0] == '+' || s[0] == '-') {
        s.drop_first()
    } else {
        s
    }
}

/// Acceptance by the standard floating-point parse.
pub open spec fn float_text_accepted(s: Seq<char>) -> bool {
    let t = strip_sign(s);
    ||| eq_case_insensitive(t, "inf"@)
    ||| eq_case_insensitive(t, "infinity"@)
    ||| eq_case_insensitive(t, "nan"@)
    ||| number_accepted(t)
}

/// Acceptance of a YAML real scalar: the Core-schema forms of infinity and
/// not-a-number, else the standard floating-point grammar.
pub open spec fn yaml_real_accepted(s: Seq<char>) -> bool {
    ||| s == ".inf"@
    ||| s == ".Inf"@
    ||| s == ".INF"@
    ||| s == "+.inf"@
    ||| s == "+.Inf"@
    ||| s == "+.INF"@
    ||| s == "-.inf"@
    ||| s == "-.Inf"@
    ||| s == "-.INF"@
    ||| s == ".nan"@
    ||| s == "NaN"@
    ||| s == ".NAN"@
    ||| float_text_accepted(s)
}

/// Scans the run of ASCII digits beginning at `from`.
fn digits_run(s: &str, from: usize) -> (k: usize)
    requires
        from <= s@.len(),
    ensures
        from + k <= s@.len(),
        k == digits_prefix_len(s@.skip(from as int)),
{
    let n = s.unicode_len();
    let mut j = from;
    loop
        invariant
            from <= j <= n,
            n == s@.len(),
            all_digits(s@.subrange(from as int, j as int)),
        ensures
            from <= j <= n,
            all_digits(s@.subrange(from as int, j as int)),
            j == n || !is_ascii_digit(s@[j as int]),
        decreases n - j,
    {
        if j >= n {
            break ;
        }
        let c = s.get_char(j);
        let d = c as u32;
        if d < 48 || d > 57 {
            break ;
        }
        proof {
            assert(s@.subrange(from as int, j + 1) =~= s@.subrange(from as int, j as int).push(
                s@[j as int],
            ));
        }
        j = j + 1;
    }
    proof {
        let t = s@.skip(from as int);
        assert(t.take(j - from) =~= s@.subrange(from as int, j as int));
        if j < n {
            assert(t[j - from] == s@[j as int]);
        }
        lemma_digits_prefix_len_is(t, j - from);
    }
    j - from
}

/// Compares the tail of `s` beginning at `from` with `lit`, up to ASCII case.
fn eq_ci_from(s: &str, from: usize, lit: &str) -> (r: bool)
    requires
        from <= s@.len(),
    ensures
        r == eq_case_insensitive(s@.skip(from as int), lit@),
{
    let n = s.unicode_len();
    let m = lit.unicode_len();
    if n - from != m {
        return false;
    }
    let ghost t = s@.skip(from as int);
    let mut i: usize = 0;
    while i < m
        invariant
            0 <= i <= m,
            n == s@.len(),
            m == lit@.len(),
            n - from == m,
            t == s@.skip(from as int),
            forall|j: int| 0 <= j < i ==> lower_code(#[trigger] t[j]) == lower_code(lit@[j]),
        decreases m - i,
    {
        let ca = s.get_char(from + i);
        let cb = lit.get_char(i);
        let a = ca as u32;
        let la = if a >= 65 && a <= 90 {
            a + 32
        } else {
            a
        };
        let b = cb as u32;
        let lb = if b >= 65 && b <= 90 {
            b + 32
        } else {
            b
        };
        if la != lb {
            proof {
                assert(t[i as int] == s@[from + i]);
            }
            return false;
        }
        proof {
            assert(t[i as int] == s@[from + i]);
        }
        i = i + 1;
    }
    true
}

/// Decides acceptance by the standard floating-point parse.
pub fn is_float_text(s: &str) -> (r: bool)
    ensures
        r == float_text_accepted(s@),
{
    let n = s.unicode_len();
    let mut start: usize = 0;
    if n >= 1 {
        let c0 = s.get_char(0);
        if c0 == '+' || c0 == '-' {
            start = 1;
        }
    }
    let ghost t = strip_sign(s@);
    proof {
        assert(t =~= s@.skip(start as int));
    }
    if eq_ci_from(s, start, "inf") || eq_ci_from(s, start, "infinity") || eq_ci_from(
        s,
        start,
        "nan",
    ) {
        return true;
    }
    let i = digits_run(s, start);
    if i > 0 {
        let p = start + i;
        proof {
            assert(t.skip(i as int) =~= s@.skip(p as int));
        }
        if p == n {
            proof {
                assert(t.skip(i as int).len() == 0);
            }
            true
        } else {
            let c = s.get_char(p);
            proof {
                assert(t.skip(i as int)[0] == s@[p as int]);
            }
            if c == '.' {
                let ghost frac = t.skip(i as int).drop_first();
                proof {
                    assert(frac =~= s@.skip(p + 1));
                }
                let j = digits_run(s, p + 1);
                let q = p + 1 + j;
                proof {
                    assert(frac.skip(j as int) =~= s@.skip(q as int));
                }
                if q == n {
                    true
                } else {
                    exp_check(s, q)
                }
            } else {
                exp_check(s, p)
            }
        }
    } else {
        if start < n && {
            let c = s.get_char(start);
            c == '.'
        } {
            proof {
                assert(t[0] == s@[start as int]);
            }
            let ghost frac = t.drop_first();
            proof {
                assert(frac =~= s@.skip(start + 1));
            }
            let j = digits_run(s, start + 1);
            if j >= 1 {
                let q = start + 1 + j;
                proof {
                    assert(frac.skip(j as int) =~= s@.skip(q as int));
                }
                if q == n {
                    true
                } else {
                    exp_check(s, q)
                }
            } else {
                false
            }
        } else {
            false
        }
    }
}

/// Decides the exponent production beginning at `from`.
fn exp_check(s: &str, from: usize) -> (r: bool)
    requires
        from <= s@.len(),
    ensures
        r == exp_accepted(s@.skip(from as int)),
{
    let n = s.unicode_len();
    let ghost t = s@.skip(from as int);
    if from >= n {
        return false;
    }
    let c = s.get_char(from);
    proof {
        assert(t[0] == s@[from as int]);
    }
    if !(c == 'e' || c == 'E') {
        return false;
    }
    let mut d = from + 1;
    if d < n {
        let c1 = s.get_char(d);
        proof {
            assert(t[1] == s@[from + 1]);
        }
        if c1 == '+' || c1 == '-' {
            d = d + 1;
        }
    }
    let ghost inner = if t.len() >= 2 && (t[1] == '+' || t[1] == '-') {
        t.subrange(2, t.len() as int)
    } else {
        t.drop_first()
    };
    proof {
        assert(inner =~= s@.skip(d as int));
    }
    let k = digits_run(s, d);
    proof {
        lemma_digits_prefix_len_full(s@.skip(d as int));
    }
    d + k == n && n > d
}

/// Decides acceptance of a YAML real scalar.
pub fn is_yaml_real_text(s: &str) -> (r: bool)
    ensures
        r == yaml_real_accepted(s@),
{
    if str_eq(s, ".inf") || str_eq(s, ".Inf") || str_eq(s, ".INF") || str_eq(s, "+.inf") || str_eq(
        s,
        "+.Inf",
    ) || str_eq(s, "+.INF") || str_eq(s, "-.inf") || str_eq(s, "-.Inf") || str_eq(s, "-.INF")
        || str_eq(s, ".nan") || str_eq(s, "NaN") || str_eq(s, ".NAN") {
        true
    } else {
        is_float_text(s)
    }
}

} // verus!
