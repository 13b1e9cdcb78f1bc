//! Parsing the refresh-interval field: the text is an unsigned integer, read
//! as `str::parse::<u32>` reads one (an optional leading `+`, then one or
//! more ASCII digits, value at most `u32::MAX`), or the edit is ignored.

use vstd::prelude::*;

verus! {

/// An ASCII decimal digit.
pub open spec fn is_ascii_digit(c: char) -> bool {
    48 <= (c as u32) <= 57
}

/// The numeric value of an ASCII digit.
pub open spec fn digit_value(c: char) -> int {
    (c as u32) - 48
}

/// The value of a digit string, most significant digit first.
pub open spec fn digits_value(s: Seq<char>) -> int
    decreases s.len(),
{
    if s.len() == 0 {
        0
    } else {
        digits_value(s.drop_last()) * 10 + digit_value(s.last())
    }
}

/// The digits of the text, after an optional leading `+` sign.
pub open spec fn digit_body(s: Seq<char>) -> Seq<char> {
    if s.len() > 0 && s[0] == '+' {
        s.drop_first()
    } else {
        s
    }
}

/// The text denotes an unsigned integer: an optional leading `+`, then one
/// or more ASCII digits.
pub open spec fn is_uint_string(s: Seq<char>) -> bool {
    &&& digit_body(s).len() > 0
    &&& forall|i: int| 0 <= i < digit_body(s).len() ==> is_ascii_digit(#[trigger] digit_body(s)[i])
}

/// The value the text denotes.
pub open spec fn uint_value(s: Seq<char>) -> int {
    digits_value(digit_body(s))
}

proof fn lemma_digits_value_nonneg(b: Seq<char>)
    requires
        forall|i: int| 0 <= i < b.len() ==> is_ascii_digit(#[trigger] b[i]),
    ensures
        digits_value(b) >= 0,
    decreases b.len(),
{
    if b.len() > 0 {
        assert(forall|i: int|
            0 <= i < b.drop_last().len() ==> is_ascii_digit(#[trigger] b.drop_last()[i]));
        lemma_digits_value_nonneg(b.drop_last());
    }
}

proof fn lemma_digits_value_prefix_le(b: Seq<char>, k: int)
    requires
        0 <= k <= b.len(),
        forall|i: int| 0 <= i < b.len() ==> is_ascii_digit(#[trigger] b[i]),
    ensures
        digits_value(b.subrange(0, k)) <= digits_value(b),
    decreases b.len() - k,
{
    if k == b.len() {
        assert(b.subrange(0, k) =~= b);
    } else {
        lemma_digits_value_prefix_le(b, k + 1);
        let p = b.subrange(0, k);
        let p1 = b.subrange(0, k + 1);
        assert(p1.drop_last() =~= p);
        assert(forall|i: int| 0 <= i < p.len() ==> is_ascii_digit(#[trigger] p[i]));
        lemma_digits_value_nonneg(p);
        assert(digits_value(p) * 10 >= digits_value(p)) by (nonlinear_arith)
            requires digits_value(p) >= 0;
        assert(digits_value(p1) >= digits_value(p));
    }
}

/// Parse the interval field's text as an unsigned integer, accepting exactly
/// what `str::parse::<u32>` accepts.
pub fn parse_u32(s: &str) -> (r: Option<u32>)
    ensures
        match r {
            Some(v) => is_uint_string(s@) && uint_value(s@) == v,
            None => !is_uint_string(s@) || uint_value(s@) > u32::MAX,
        },
{
    let n = s.unicode_len();
    let start: usize = if n > 0 && s.get_char(0) == '+' {
        1
    } else {
        0
    };
    let ghost b = digit_body(s@);
    proof {
        if n > 0 && s@[0] == '+' {
            assert(b =~= s@.skip(1));
        } else {
            assert(b =~= s@.skip(0));
        }
    }
    if n == start {
        return None;
    }
    let mut val: u32 = 0;
    let mut i = start;
    while i < n
        invariant
            n == s@.len(),
            start <= i <= n,
            start <= 1,
            b == digit_body(s@),
            b == s@.skip(start as int),
            b.len() == n - start,
            forall|k: int| 0 <= k < i - start ==> is_ascii_digit(#[trigger] b[k]),
            val == digits_value(b.subrange(0, i - start)),
        decreases n - i,
    {
        let c = s.get_char(i);
        let code = c as u32;
        proof {
            assert(b[i - start] == c);
        }
        if code < 48 || code > 57 {
            proof {
                assert(!is_ascii_digit(digit_body(s@)[i - start]));
            }
            return None;
        }
        let d = code - 48;
        let ghost p = b.subrange(0, i - start);
        let ghost p1 = b.subrange(0, i - start + 1);
        proof {
            assert(p1.drop_last() =~= p);
            assert(p1.last() == c);
            assert(digits_value(p1) == val * 10 + d);
        }
        if val > 429496729 || (val == 429496729 && d > 5) {
            proof {
                assert(digits_value(p1) > u32::MAX);
                if is_uint_string(s@) {
                    assert forall|k: int| 0 <= k < b.len() implies is_ascii_digit(
                        #[trigger] b[k],
                    ) by {
                        assert(is_ascii_digit(digit_body(s@)[k]));
                    }
                    lemma_digits_value_prefix_le(b, i - start + 1);
                }
            }
            return None;
        }
        val = val * 10 + d;
        i += 1;
    }
    proof {
        assert(b.subrange(0, n - start) =~= b);
    }
    Some(val)
}

} // verus!
