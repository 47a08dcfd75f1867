//! Integer conversion: a separately scanned number slice is turned into
//! a machine integer by repeated multiply-by-ten, after trailing
//! whitespace is stripped.

use vstd::prelude::*;
use vstd::string::StrSliceExecFns;

use crate::error::JSONParsingError;
use crate::scan::is_ws;

verus! {

/// A decimal digit.
pub open spec fn is_digit(c: char) -> bool {
    '0' as u32 <= c as u32 && c as u32 <= '9' as u32
}

/// The position at or before `i` where the run of trailing whitespace
/// ending at `i` begins.
pub open spec fn trim_end_pos(s: Seq<char>, i: int) -> int
    decreases i,
{
    if 0 < i <= s.len() && is_ws(s[i - 1]) {
        trim_end_pos(s, i - 1)
    } else {
        i
    }
}

/// Every character of `s` is a decimal digit.
pub open spec fn all_digits(s: Seq<char>) -> bool {
    forall|k: int| 0 <= k < s.len() ==> #[trigger] is_digit(s[k])
}

/// `s` spells an integer: an optional leading minus sign followed by
/// one or more decimal digits and nothing else.
pub open spec fn is_int_literal(s: Seq<char>) -> bool {
    if s.len() == 0 {
        false
    } else if s[0] == '-' {
        s.len() >= 2 && all_digits(s.subrange(1, s.len() as int))
    } else {
        all_digits(s)
    }
}

/// The value of a digit string, most significant first.
pub open spec fn digits_value(s: Seq<char>) -> int
    decreases s.len(),
{
    if s.len() == 0 {
        0
    } else {
        digits_value(s.drop_last()) * 10 + (s.last() as u32 - '0' as u32)
    }
}

/// The mathematical value of an integer literal.
pub open spec fn int_literal_value(s: Seq<char>) -> int {
    if s.len() > 0 && s[0] == '-' {
        -digits_value(s.subrange(1, s.len() as int))
    } else {
        digits_value(s)
    }
}

/// What integer conversion yields on the text `s`: the value of the
/// literal left after stripping trailing whitespace, provided it is an
/// integer literal whose value fits in an `isize`.
pub open spec fn spec_parse_int(s: Seq<char>) -> Result<int, JSONParsingError> {
    let t = s.subrange(0, trim_end_pos(s, s.len() as int));
    if is_int_literal(t) && isize::MIN <= int_literal_value(t) <= isize::MAX {
        Ok(int_literal_value(t))
    } else {
        Err(JSONParsingError::CannotParseInteger)
    }
}

/// A digit string never has a negative value.
proof fn lemma_digits_value_nonneg(s: Seq<char>)
    requires
        all_digits(s),
    ensures
        digits_value(s) >= 0,
    decreases s.len(),
{
    if s.len() > 0 {
        assert(is_digit(s[s.len() - 1]));
        assert(all_digits(s.drop_last())) by {
            assert(forall|k: int|
                0 <= k < s.drop_last().len() ==> s.drop_last()[k] == s[k] && #[trigger] is_digit(
                    s.drop_last()[k],
                ));
        }
        lemma_digits_value_nonneg(s.drop_last());
    }
}

fn digit_char(c: char) -> (b: bool)
    ensures
        b == is_digit(c),
{
    '0' as u32 <= c as u32 && c as u32 <= '9' as u32
}

/// Strip trailing whitespace: the position where the run of trailing
/// whitespace begins.
fn find_trim_end(s: &str, n: usize) -> (m: usize)
    requires
        n as int == s@.len(),
    ensures
        m as int == trim_end_pos(s@, n as int),
        m <= n,
{
    let mut m = n;
    loop
        invariant
            m <= n,
            n as int == s@.len(),
            trim_end_pos(s@, n as int) == trim_end_pos(s@, m as int),
        decreases m,
    {
        if m == 0 {
            return m;
        }
        let c = s.get_char(m - 1);
        if !crate::scan::ws_char(c) {
            return m;
        }
        m = m - 1;
    }
}

/// Convert the text to an integer: strip trailing whitespace, accept an
/// optional leading minus sign followed only by digits, and accumulate
/// by repeated multiply-by-ten.  Anything else, and a value that does
/// not fit in an `isize`, is rejected.
pub(crate) fn parse_int(s: &str) -> (r: Result<isize, JSONParsingError>)
    ensures
        match r {
            Ok(v) => spec_parse_int(s@) == Ok::<int, JSONParsingError>(v as int),
            Err(e) => spec_parse_int(s@) == Err::<int, JSONParsingError>(e),
        },
{
    let n = s.unicode_len();
    let m = find_trim_end(s, n);
    let ghost t = s@.subrange(0, m as int);
    let start: usize = if m > 0 && s.get_char(0) == '-' {
        1
    } else {
        0
    };
    if start >= m {
        // empty input, or a lone minus sign
        return Err(JSONParsingError::CannotParseInteger);
    }
    // accumulate the negated value so that isize::MIN is reachable
    let mut acc: isize = 0;
    let mut i = start;
    while i < m
        invariant
            start <= i <= m <= n,
            n as int == s@.len(),
            t == s@.subrange(0, m as int),
            m as int == trim_end_pos(s@, s@.len() as int),
            start == 0 || start == 1,
            start == 1 ==> m > 0 && s@[0] == '-',
            start == 0 ==> !(m > 0 && s@[0] == '-'),
            start < m,
            acc as int == -digits_value(s@.subrange(start as int, i as int)),
            all_digits(s@.subrange(start as int, i as int)),
        decreases m - i,
    {
        let c = s.get_char(i);
        if !digit_char(c) {
            proof {
                assert(t[0] == s@[0]);
                assert(t[i as int] == s@[i as int]);
                assert(!is_digit(t[i as int]));
                assert(!all_digits(t));
                if start == 1 {
                    let sub = t.subrange(1, t.len() as int);
                    assert(sub[i - 1] == s@[i as int]);
                    assert(!is_digit(sub[i - 1]));
                    assert(!all_digits(sub));
                }
                assert(!is_int_literal(t));
            }
            return Err(JSONParsingError::CannotParseInteger);
        }
        let d = (c as u32 - '0' as u32) as isize;
        let ghost prefix = s@.subrange(start as int, i as int);
        let ghost extended = s@.subrange(start as int, i + 1);
        proof {
            assert(extended.drop_last() =~= prefix);
            assert(extended.last() == s@[i as int]);
            lemma_digits_value_nonneg(prefix);
        }
        let next = match acc.checked_mul(10) {
            Some(a) => a,
            None => {
                proof {
                    assert(digits_value(extended) > -(isize::MIN as int));
                    lemma_out_of_range(s@, t, start as int, i + 1, m as int);
                }
                return Err(JSONParsingError::CannotParseInteger);
            },
        };
        let next = match next.checked_sub(d) {
            Some(a) => a,
            None => {
                proof {
                    assert(digits_value(extended) > -(isize::MIN as int));
                    lemma_out_of_range(s@, t, start as int, i + 1, m as int);
                }
                return Err(JSONParsingError::CannotParseInteger);
            },
        };
        acc = next;
        i = i + 1;
    }
    let ghost digits = s@.subrange(start as int, m as int);
    proof {
        assert(digits =~= t.subrange(start as int, t.len() as int));
        if start == 0 {
            assert(t =~= digits);
        }
        assert(is_int_literal(t));
        lemma_digits_value_nonneg(digits);
    }
    if start == 1 {
        // negative: the accumulator already holds the value
        Ok(acc)
    } else if acc == isize::MIN {
        // the digits spell exactly one more than isize::MAX
        Err(JSONParsingError::CannotParseInteger)
    } else {
        Ok(-acc)
    }
}

/// If some digit prefix already exceeds the `isize` range when negated,
/// the whole digit string's value is out of range too: appending digits
/// never shrinks the value.
proof fn lemma_digits_value_prefix(s: Seq<char>, i: int, j: int)
    requires
        0 <= i <= j <= s.len(),
        digits_value(s.subrange(0, i)) >= 0,
        forall|k: int| i <= k < j ==> #[trigger] is_digit(s[k]),
    ensures
        digits_value(s.subrange(0, i)) <= digits_value(s.subrange(0, j)),
    decreases j - i,
{
    if i < j {
        lemma_digits_value_prefix(s, i, j - 1);
        let shorter = s.subrange(0, j - 1);
        let longer = s.subrange(0, j);
        assert(longer.drop_last() =~= shorter);
        assert(is_digit(s[j - 1]));
        assert(longer.last() == s[j - 1]);
    }
}

/// Stripping trailing whitespace never leaves the text.
proof fn lemma_trim_end_bounds(s: Seq<char>, i: int)
    requires
        0 <= i,
    ensures
        0 <= trim_end_pos(s, i) <= i,
    decreases i,
{
    if 0 < i <= s.len() && is_ws(s[i - 1]) {
        lemma_trim_end_bounds(s, i - 1);
    }
}

/// Stripping trailing whitespace looks only at the characters before
/// the position it starts from.
proof fn lemma_trim_end_prefix(x: Seq<char>, y: Seq<char>, i: int)
    requires
        0 <= i <= x.len(),
        i <= y.len(),
        forall|k: int| 0 <= k < i ==> x[k] == #[trigger] y[k],
    ensures
        trim_end_pos(x, i) == trim_end_pos(y, i),
    decreases i,
{
    if 0 < i && is_ws(x[i - 1]) {
        lemma_trim_end_prefix(x, y, i - 1);
    }
}

/// Stripping trailing whitespace eats a whole appended whitespace run.
proof fn lemma_trim_end_peel(x: Seq<char>, n: int, k: int)
    requires
        0 <= n <= k <= x.len(),
        forall|j: int| n <= j < k ==> #[trigger] is_ws(x[j]),
    ensures
        trim_end_pos(x, k) == trim_end_pos(x, n),
    decreases k - n,
{
    if n < k {
        assert(is_ws(x[k - 1]));
        lemma_trim_end_peel(x, n, k - 1);
    }
}

/// Whitespace tolerance: surrounding a value with insignificant
/// whitespace changes neither the type tag guessed at load time nor the
/// integer that is read — loading consumes the leading run, and integer
/// conversion strips the trailing run.
pub proof fn lemma_read_integer_ws_tolerant(w1: Seq<char>, s: Seq<char>, w2: Seq<char>)
    requires
        forall|k: int| 0 <= k < w1.len() ==> #[trigger] is_ws(w1[k]),
        forall|k: int| 0 <= k < w2.len() ==> #[trigger] is_ws(w2[k]),
        s.len() > 0,
        !is_ws(s[0]),
    ensures
        ({
            let full = w1 + s + w2;
            let loaded = full.subrange(crate::scan::ws_end(full, 0), full.len() as int);
            crate::scan::peek_type(loaded) == crate::scan::peek_type(s) && spec_parse_int(loaded)
                == spec_parse_int(s)
        }),
{
    let full = w1 + s + w2;
    let tail = s + w2;
    assert(full[w1.len() as int] == s[0]);
    assert(forall|k: int|
        0 <= k < w1.len() ==> #[trigger] is_ws(full[k]) == is_ws(w1[k]) && full[k] == w1[k]);
    crate::scan::lemma_ws_end_is_run(full, 0, w1.len() as int);
    let loaded = full.subrange(w1.len() as int, full.len() as int);
    assert(loaded =~= tail);
    assert(loaded[0] == s[0]);
    // the type tag depends on the first character alone, which the
    // trailing whitespace leaves in place
    assert(crate::scan::peek_type(loaded) == crate::scan::peek_type(s));
    // the trailing run is stripped before conversion
    assert(forall|j: int|
        s.len() <= j < tail.len() ==> #[trigger] is_ws(tail[j]) == is_ws(w2[j - s.len()])
            && tail[j] == w2[j - s.len()]);
    lemma_trim_end_peel(tail, s.len() as int, tail.len() as int);
    assert(forall|k: int| 0 <= k < s.len() ==> tail[k] == #[trigger] s[k]);
    lemma_trim_end_prefix(tail, s, s.len() as int);
    lemma_trim_end_bounds(s, s.len() as int);
    let m = trim_end_pos(s, s.len() as int);
    assert(tail.subrange(0, m) =~= s.subrange(0, m));
}

/// When accumulation of the digits up to `i` overflows, the full
/// literal's value lies outside the `isize` range.
proof fn lemma_out_of_range(s: Seq<char>, t: Seq<char>, start: int, i: int, m: int)
    requires
        0 <= start <= i <= m <= s.len(),
        t == s.subrange(0, m),
        start == 0 || start == 1,
        start == 1 ==> m > 0 && s[0] == '-',
        start == 0 ==> !(m > 0 && s[0] == '-'),
        start < m,
        digits_value(s.subrange(start, i)) > -(isize::MIN as int),
    ensures
        !(is_int_literal(t) && isize::MIN <= int_literal_value(t) <= isize::MAX),
{
    let digits = s.subrange(start, m);
    assert(s.subrange(start, i) =~= digits.subrange(0, i - start));
    assert(digits.subrange(0, digits.len() as int) =~= digits);
    if is_int_literal(t) {
        assert(t[0] == s[0]);
        if start == 1 {
            assert(digits =~= t.subrange(1, t.len() as int));
        } else {
            assert(digits =~= t);
        }
        assert(all_digits(digits));
        assert(forall|k: int| i - start <= k < m - start ==> #[trigger] is_digit(digits[k]));
        lemma_digits_value_prefix(digits, i - start, m - start);
    }
}

} // verus!
