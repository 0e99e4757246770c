//! Exact comparison of texts and base-10 reading of signed integers.
use vstd::prelude::*;

verus! {

pub open spec fn is_digit(c: char) -> bool {
    '0' <= c && c <= '9'
}

pub open spec fn digit_value(c: char) -> int {
    c as int - '0' as int
}

pub open spec fn all_digits(s: Seq<char>) -> bool {
    forall|i: int| 0 <= i < s.len() ==> is_digit(#[trigger] s[i])
}

/// The number written by a sequence of decimal digits, most significant first.
pub open spec fn digits_value(s: Seq<char>) -> int
    decreases s.len(),
{
    if s.len() == 0 {
        0
    } else {
        digits_value(s.drop_last()) * 10 + digit_value(s.last())
    }
}

/// Whether the text opens with a sign character that is then skipped.
pub open spec fn has_sign(s: Seq<char>) -> bool {
    s.len() > 0 && (s[0] == '-' || s[0] == '+')
}

/// The digits of a signed decimal text, after its optional sign.
pub open spec fn unsigned_part(s: Seq<char>) -> Seq<char> {
    if has_sign(s) {
        s.subrange(1, s.len() as int)
    } else {
        s
    }
}

/// The value written by `s` as an optional `+` or `-` followed by one or more
/// decimal digits, covering the whole text; `None` for any other text and for
/// values outside the range of `isize`.
pub open spec fn int_of_text(s: Seq<char>) -> Option<isize> {
    let body = unsigned_part(s);
    let v = if s.len() > 0 && s[0] == '-' {
        -digits_value(body)
    } else {
        digits_value(body)
    };
    if body.len() == 0 || !all_digits(body) || v < isize::MIN || v > isize::MAX {
        None
    } else {
        Some(v as isize)
    }
}

proof fn lemma_digits_value_nonneg(s: Seq<char>)
    requires
        all_digits(s),
    ensures
        digits_value(s) >= 0,
    decreases s.len(),
{
    if s.len() > 0 {
        assert(is_digit(s[s.len() - 1]));
        lemma_digits_value_nonneg(s.drop_last());
    }
}

/// A longer prefix of a digit text never writes a smaller number.
proof fn lemma_digits_value_grows(s: Seq<char>, k: int, m: int)
    requires
        all_digits(s),
        0 <= k <= m <= s.len(),
    ensures
        digits_value(s.subrange(0, k)) <= digits_value(s.subrange(0, m)),
    decreases m - k,
{
    if k < m {
        lemma_digits_value_grows(s, k, m - 1);
        let p = s.subrange(0, m);
        assert(p.drop_last() =~= s.subrange(0, m - 1));
        assert(is_digit(s[m - 1]));
        assert(all_digits(s.subrange(0, m - 1)));
        lemma_digits_value_nonneg(s.subrange(0, m - 1));
    }
}

/// Whether two texts hold the same characters.
pub fn same_text(a: &str, b: &str) -> (r: bool)
    ensures
        r == (a@ == b@),
{
    let n = a.unicode_len();
    if n != b.unicode_len() {
        return false;
    }
    let mut i: usize = 0;
    while i < n
        invariant
            n == a@.len(),
            n == b@.len(),
            i <= n,
            a@.subrange(0, i as int) == b@.subrange(0, i as int),
        decreases n - i,
    {
        if a.get_char(i) != b.get_char(i) {
            assert(a@[i as int] != b@[i as int]);
            return false;
        }
        assert(a@.subrange(0, i + 1) =~= a@.subrange(0, i as int).push(a@[i as int]));
        assert(b@.subrange(0, i + 1) =~= b@.subrange(0, i as int).push(b@[i as int]));
        i = i + 1;
    }
    assert(a@ =~= a@.subrange(0, n as int));
    assert(b@ =~= b@.subrange(0, n as int));
    true
}

/// Reads a signed base-10 integer that spans the whole text.
pub fn read_int(s: &str) -> (r: Option<isize>)
    ensures
        r == int_of_text(s@),
{
    let n = s.unicode_len();
    let negative = n > 0 && s.get_char(0) == '-';
    let start: usize = if n > 0 && (s.get_char(0) == '-' || s.get_char(0) == '+') {
        1
    } else {
        0
    };
    let ghost body = unsigned_part(s@);
    assert(body =~= s@.subrange(start as int, n as int));
    if start == n {
        return None;
    }
    let mut acc: isize = 0;
    let mut i: usize = start;
    while i < n
        invariant
            n == s@.len(),
            body == s@.subrange(start as int, n as int),
            body == unsigned_part(s@),
            start <= i <= n,
            negative == (s@.len() > 0 && s@[0] == '-'),
            all_digits(body.subrange(0, i - start)),
            acc as int == if negative {
                -digits_value(body.subrange(0, i - start))
            } else {
                digits_value(body.subrange(0, i - start))
            },
        decreases n - i,
    {
        let c = s.get_char(i);
        let ghost k: int = i - start;
        assert(body[k] == s@[i as int]);
        if !('0' <= c && c <= '9') {
            assert(!is_digit(body[k]));
            assert(!all_digits(body));
            return None;
        }
        assert(body.subrange(0, k + 1).drop_last() =~= body.subrange(0, k));
        assert(body.subrange(0, k + 1).last() == c);
        assert(all_digits(body.subrange(0, k + 1))) by {
            assert forall|j: int| 0 <= j < k + 1 implies is_digit(
                #[trigger] body.subrange(0, k + 1)[j],
            ) by {
                if j < k {
                    assert(body.subrange(0, k + 1)[j] == body.subrange(0, k)[j]);
                }
            }
        }
        let ghost before = digits_value(body.subrange(0, k));
        let ghost after = digits_value(body.subrange(0, k + 1));
        assert(after == before * 10 + digit_value(c));
        proof {
            lemma_digits_value_nonneg(body.subrange(0, k));
        }
        let d = (c as u32 - '0' as u32) as isize;
        let next = match acc.checked_mul(10) {
            Some(t) => if negative {
                t.checked_sub(d)
            } else {
                t.checked_add(d)
            },
            None => None,
        };
        match next {
            Some(v) => {
                acc = v;
            },
            None => {
                proof {
                    if all_digits(body) {
                        lemma_digits_value_grows(body, k + 1, n - start);
                        assert(body.subrange(0, n - start) =~= body);
                    }
                }
                return None;
            },
        }
        i = i + 1;
    }
    assert(body.subrange(0, n - start) =~= body);
    Some(acc)
}

} // verus!
