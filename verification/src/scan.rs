//! The scanner: classifies a value from one lookahead character and,
//! separately, determines its exact extent while validating structure.
//!
//! The specification-level scanner works over a `Seq<char>` and a start
//! position and returns the value's type together with the position just
//! past its end (leading insignificant whitespace is always part of what
//! a scan consumes).  The executable scanner mirrors it over `&str`.

use vstd::prelude::*;
use vstd::string::StrSliceExecFns;

use crate::JSONValueType;
use crate::error::JSONParsingError;

verus! {

/// The insignificant whitespace characters: space, tab, CR, LF.
pub open spec fn is_ws(c: char) -> bool {
    c == ' ' || c == '\t' || c == '\r' || c == '\n'
}

/// The first position at or after `i` that does not hold whitespace
/// (or the end of the text).
pub open spec fn ws_end(s: Seq<char>, i: int) -> int
    decreases s.len() - i,
{
    if 0 <= i < s.len() && is_ws(s[i]) {
        ws_end(s, i + 1)
    } else {
        i
    }
}

/// A character that may begin a number: a decimal digit or a minus sign.
pub open spec fn is_number_start(c: char) -> bool {
    ('0' as u32 <= c as u32 && c as u32 <= '9' as u32) || c == '-'
}

/// A character the loose lexical number scan consumes: digits, minus,
/// decimal point and exponent markers.  The scan does not itself reject
/// a misplaced repetition; conversion does.
pub open spec fn is_number_char(c: char) -> bool {
    is_number_start(c) || c == '.' || c == 'e' || c == 'E'
}

/// The position just past a loosely scanned number beginning at `i`.
pub open spec fn number_end(s: Seq<char>, i: int) -> int
    decreases s.len() - i,
{
    if 0 <= i < s.len() && is_number_char(s[i]) {
        number_end(s, i + 1)
    } else {
        i
    }
}

/// The position just past the closing quote of a string whose content
/// starts at `i` (the opening quote sits at `i - 1`).  An `escaped` flag
/// toggles on each backslash so that a quote preceded by an unpaired
/// backslash does not terminate the string.  If no unescaped quote
/// follows, the whole rest of the text is consumed.
pub open spec fn string_end(s: Seq<char>, i: int, escaped: bool) -> int
    decreases s.len() - i,
{
    if !(0 <= i < s.len()) {
        i
    } else if s[i] == '"' && !escaped {
        i + 1
    } else {
        string_end(s, i + 1, if s[i] == '\\' { !escaped } else { false })
    }
}

/// The type guessed from the first character of (already trimmed) text.
/// It is only a hint: it can be wrong about deeper structure, and only a
/// completed scan proves well-formedness.
pub open spec fn peek_type(s: Seq<char>) -> JSONValueType {
    if s.len() == 0 {
        JSONValueType::Error
    } else if s[0] == '{' {
        JSONValueType::Object
    } else if s[0] == '[' {
        JSONValueType::Array
    } else if s[0] == '"' {
        JSONValueType::String
    } else if is_number_start(s[0]) {
        JSONValueType::Number
    } else if s[0] == 't' || s[0] == 'f' {
        JSONValueType::Bool
    } else if s[0] == 'n' {
        JSONValueType::Null
    } else {
        JSONValueType::Error
    }
}

/// Scans one value beginning at `i` (leading whitespace included) and
/// returns its type and the position just past its end.
pub open spec fn spec_scan_at(s: Seq<char>, i: int) -> Result<
    (JSONValueType, int),
    JSONParsingError,
>
    decreases s.len() - i, 0int,
{
    let j = ws_end(s, i);
    if !(i <= j < s.len()) {
        Err(JSONParsingError::UnexpectedToken)
    } else if s[j] == '{' {
        match spec_scan_object_body(s, j + 1) {
            Ok(end) => Ok((JSONValueType::Object, end)),
            Err(e) => Err(e),
        }
    } else if s[j] == '[' {
        match spec_scan_array_body(s, j + 1) {
            Ok(end) => Ok((JSONValueType::Array, end)),
            Err(e) => Err(e),
        }
    } else if s[j] == '"' {
        Ok((JSONValueType::String, string_end(s, j + 1, false)))
    } else if is_number_start(s[j]) {
        Ok((JSONValueType::Number, number_end(s, j)))
    } else if s[j] == 't' {
        if j + 4 <= s.len() && s[j + 1] == 'r' && s[j + 2] == 'u' && s[j + 3] == 'e' {
            Ok((JSONValueType::Bool, j + 4))
        } else {
            Err(JSONParsingError::UnexpectedToken)
        }
    } else if s[j] == 'f' {
        if j + 5 <= s.len() && s[j + 1] == 'a' && s[j + 2] == 'l' && s[j + 3] == 's' && s[j + 4]
            == 'e' {
            Ok((JSONValueType::Bool, j + 5))
        } else {
            Err(JSONParsingError::UnexpectedToken)
        }
    } else if s[j] == 'n' {
        if j + 4 <= s.len() && s[j + 1] == 'u' && s[j + 2] == 'l' && s[j + 3] == 'l' {
            Ok((JSONValueType::Null, j + 4))
        } else {
            Err(JSONParsingError::UnexpectedToken)
        }
    } else {
        Err(JSONParsingError::UnexpectedToken)
    }
}

/// One turn of the object member loop, at position `i` just past `{` or
/// a separating comma.  Exhausted text at the top of the loop is
/// accepted as-is; a member is a string key, a colon and a value; after
/// the value a comma continues the loop and a closing brace ends it.
pub open spec fn spec_scan_object_body(s: Seq<char>, i: int) -> Result<int, JSONParsingError>
    decreases s.len() - i, 1int,
{
    if !(0 <= i < s.len()) {
        Ok(i)
    } else {
        let j = ws_end(s, i);
        if j < s.len() && s[j] == '}' {
            Ok(j + 1)
        } else {
            match spec_scan_at(s, i) {
                Err(e) => Err(e),
                Ok((key_type, key_end)) => {
                    if key_type != JSONValueType::String {
                        Err(JSONParsingError::CannotParseString)
                    } else {
                        let c = ws_end(s, key_end);
                        // a scan never moves backwards, so `i <= c` always holds;
                        // the test keeps the recursion visibly well-founded
                        if !(i <= c) {
                            Err(JSONParsingError::UnexpectedToken)
                        } else if c >= s.len() {
                            Err(JSONParsingError::EndOfStream)
                        } else if s[c] == ':' {
                            match spec_scan_at(s, c + 1) {
                                Err(e) => Err(e),
                                Ok((_, value_end)) => {
                                    let d = ws_end(s, value_end);
                                    if d >= s.len() {
                                        Err(JSONParsingError::EndOfStream)
                                    } else if s[d] == ',' && i < d + 1 {
                                        spec_scan_object_body(s, d + 1)
                                    } else if s[d] == '}' {
                                        Ok(d + 1)
                                    } else {
                                        Err(JSONParsingError::UnexpectedToken)
                                    }
                                },
                            }
                        } else {
                            Err(JSONParsingError::UnexpectedToken)
                        }
                    }
                },
            }
        }
    }
}

/// One turn of the array element loop, at position `i` just past `[` or
/// a separating comma: like the object loop without the key and colon.
pub open spec fn spec_scan_array_body(s: Seq<char>, i: int) -> Result<int, JSONParsingError>
    decreases s.len() - i, 1int,
{
    if !(0 <= i < s.len()) {
        Ok(i)
    } else {
        let j = ws_end(s, i);
        if j < s.len() && s[j] == ']' {
            Ok(j + 1)
        } else {
            match spec_scan_at(s, i) {
                Err(e) => Err(e),
                Ok((_, value_end)) => {
                    let d = ws_end(s, value_end);
                    if d >= s.len() {
                        Err(JSONParsingError::EndOfStream)
                    } else if s[d] == ',' && i < d + 1 {
                        spec_scan_array_body(s, d + 1)
                    } else if s[d] == ']' {
                        Ok(d + 1)
                    } else {
                        Err(JSONParsingError::UnexpectedToken)
                    }
                },
            }
        }
    }
}

/// Whitespace skipping stays within the text and stops at the first
/// character that is not whitespace.
pub proof fn lemma_ws_end(s: Seq<char>, i: int)
    requires
        0 <= i <= s.len(),
    ensures
        i <= ws_end(s, i) <= s.len(),
        ws_end(s, i) < s.len() ==> !is_ws(s[ws_end(s, i)]),
        forall|k: int| i <= k < ws_end(s, i) ==> is_ws(s[k]),
        ws_end(s, ws_end(s, i)) == ws_end(s, i),
    decreases s.len() - i,
{
    if i < s.len() && is_ws(s[i]) {
        lemma_ws_end(s, i + 1);
    }
}

/// The loose number scan stays within the text, consumes only number
/// characters and stops at the first character that is not one.
pub proof fn lemma_number_end(s: Seq<char>, i: int)
    requires
        0 <= i <= s.len(),
    ensures
        i <= number_end(s, i) <= s.len(),
        number_end(s, i) < s.len() ==> !is_number_char(s[number_end(s, i)]),
        forall|k: int| i <= k < number_end(s, i) ==> is_number_char(s[k]),
    decreases s.len() - i,
{
    if i < s.len() && is_number_char(s[i]) {
        lemma_number_end(s, i + 1);
    }
}

/// The string scan stays within the text, and always consumes at least
/// one character when any remain.
pub proof fn lemma_string_end(s: Seq<char>, i: int, escaped: bool)
    requires
        0 <= i <= s.len(),
    ensures
        i <= string_end(s, i, escaped) <= s.len(),
        i < s.len() ==> string_end(s, i, escaped) >= i + 1,
    decreases s.len() - i,
{
    if i < s.len() && !(s[i] == '"' && !escaped) {
        lemma_string_end(s, i + 1, if s[i] == '\\' { !escaped } else { false });
    }
}

/// A successful scan ends past the value's first character and within
/// the text.
pub proof fn lemma_scan_at_bounds(s: Seq<char>, i: int)
    requires
        0 <= i <= s.len(),
    ensures
        spec_scan_at(s, i) matches Ok((t, e)) ==> ws_end(s, i) < e <= s.len(),
    decreases s.len() - i, 0int,
{
    let j = ws_end(s, i);
    lemma_ws_end(s, i);
    if i <= j < s.len() {
        if s[j] == '{' {
            lemma_scan_object_body_bounds(s, j + 1);
        } else if s[j] == '[' {
            lemma_scan_array_body_bounds(s, j + 1);
        } else if s[j] == '"' {
            lemma_string_end(s, j + 1, false);
        } else if is_number_start(s[j]) {
            lemma_number_end(s, j);
            assert(number_end(s, j) > j);
        }
    }
}

/// A successful member loop never moves backwards and ends within the
/// text.
pub proof fn lemma_scan_object_body_bounds(s: Seq<char>, i: int)
    requires
        0 <= i <= s.len(),
    ensures
        spec_scan_object_body(s, i) matches Ok(e) ==> i <= e <= s.len(),
    decreases s.len() - i, 1int,
{
    if 0 <= i < s.len() {
        let j = ws_end(s, i);
        lemma_ws_end(s, i);
        if !(j < s.len() && s[j] == '}') {
            lemma_scan_at_bounds(s, i);
            if let Ok((key_type, key_end)) = spec_scan_at(s, i) {
                if key_type == JSONValueType::String {
                    let c = ws_end(s, key_end);
                    lemma_ws_end(s, key_end);
                    if i <= c < s.len() && s[c] == ':' {
                        lemma_scan_at_bounds(s, c + 1);
                        if let Ok((_, value_end)) = spec_scan_at(s, c + 1) {
                            let d = ws_end(s, value_end);
                            lemma_ws_end(s, value_end);
                            if d < s.len() && s[d] == ',' && i < d + 1 {
                                lemma_scan_object_body_bounds(s, d + 1);
                            }
                        }
                    }
                }
            }
        }
    }
}

/// A successful element loop never moves backwards and ends within the
/// text.
pub proof fn lemma_scan_array_body_bounds(s: Seq<char>, i: int)
    requires
        0 <= i <= s.len(),
    ensures
        spec_scan_array_body(s, i) matches Ok(e) ==> i <= e <= s.len(),
    decreases s.len() - i, 1int,
{
    if 0 <= i < s.len() {
        let j = ws_end(s, i);
        lemma_ws_end(s, i);
        if !(j < s.len() && s[j] == ']') {
            lemma_scan_at_bounds(s, i);
            if let Ok((_, value_end)) = spec_scan_at(s, i) {
                let d = ws_end(s, value_end);
                lemma_ws_end(s, value_end);
                if d < s.len() && s[d] == ',' && i < d + 1 {
                    lemma_scan_array_body_bounds(s, d + 1);
                }
            }
        }
    }
}

/// Whitespace skipping looks only at the text from the current position
/// onwards: dropping the first `k` characters shifts it by `k`.
pub proof fn lemma_ws_end_translate(s: Seq<char>, k: int, i: int)
    requires
        0 <= k <= i <= s.len(),
    ensures
        ws_end(s.subrange(k, s.len() as int), i - k) == ws_end(s, i) - k,
    decreases s.len() - i,
{
    if i < s.len() && is_ws(s[i]) {
        lemma_ws_end_translate(s, k, i + 1);
    }
}

/// The number scan looks only at the text from the current position on.
pub proof fn lemma_number_end_translate(s: Seq<char>, k: int, i: int)
    requires
        0 <= k <= i <= s.len(),
    ensures
        number_end(s.subrange(k, s.len() as int), i - k) == number_end(s, i) - k,
    decreases s.len() - i,
{
    if i < s.len() && is_number_char(s[i]) {
        lemma_number_end_translate(s, k, i + 1);
    }
}

/// The string scan looks only at the text from the current position on.
pub proof fn lemma_string_end_translate(s: Seq<char>, k: int, i: int, escaped: bool)
    requires
        0 <= k <= i <= s.len(),
    ensures
        string_end(s.subrange(k, s.len() as int), i - k, escaped) == string_end(s, i, escaped) - k,
    decreases s.len() - i,
{
    if i < s.len() && !(s[i] == '"' && !escaped) {
        lemma_string_end_translate(s, k, i + 1, if s[i] == '\\' {
            !escaped
        } else {
            false
        });
    }
}

/// Scanning a value looks only at the text from the scan position
/// onwards: dropping the first `k` characters shifts every position,
/// and in particular the end of a successful scan, by `k`.
pub proof fn lemma_scan_at_translate(s: Seq<char>, k: int, i: int)
    requires
        0 <= k <= i <= s.len(),
    ensures
        match spec_scan_at(s, i) {
            Ok((t, e)) => spec_scan_at(s.subrange(k, s.len() as int), i - k) == Ok::<
                (JSONValueType, int),
                JSONParsingError,
            >((t, e - k)),
            Err(er) => spec_scan_at(s.subrange(k, s.len() as int), i - k) == Err::<
                (JSONValueType, int),
                JSONParsingError,
            >(er),
        },
    decreases s.len() - i, 0int,
{
    let sub = s.subrange(k, s.len() as int);
    let j = ws_end(s, i);
    lemma_ws_end(s, i);
    lemma_ws_end_translate(s, k, i);
    if i <= j < s.len() {
        if s[j] == '{' {
            lemma_scan_object_body_translate(s, k, j + 1);
        } else if s[j] == '[' {
            lemma_scan_array_body_translate(s, k, j + 1);
        } else if s[j] == '"' {
            lemma_string_end_translate(s, k, j + 1, false);
        } else if is_number_start(s[j]) {
            lemma_number_end_translate(s, k, j);
        }
    }
}

/// The object member loop looks only at the text from its position on.
pub proof fn lemma_scan_object_body_translate(s: Seq<char>, k: int, i: int)
    requires
        0 <= k <= i <= s.len(),
    ensures
        match spec_scan_object_body(s, i) {
            Ok(e) => spec_scan_object_body(s.subrange(k, s.len() as int), i - k) == Ok::<
                int,
                JSONParsingError,
            >(e - k),
            Err(er) => spec_scan_object_body(s.subrange(k, s.len() as int), i - k) == Err::<
                int,
                JSONParsingError,
            >(er),
        },
    decreases s.len() - i, 1int,
{
    let sub = s.subrange(k, s.len() as int);
    if 0 <= i < s.len() {
        let j = ws_end(s, i);
        lemma_ws_end(s, i);
        lemma_ws_end_translate(s, k, i);
        if !(j < s.len() && s[j] == '}') {
            lemma_scan_at_bounds(s, i);
            lemma_scan_at_translate(s, k, i);
            if let Ok((key_type, key_end)) = spec_scan_at(s, i) {
                if key_type == JSONValueType::String {
                    let c = ws_end(s, key_end);
                    lemma_ws_end(s, key_end);
                    lemma_ws_end_translate(s, k, key_end);
                    if i <= c < s.len() && s[c] == ':' {
                        lemma_scan_at_bounds(s, c + 1);
                        lemma_scan_at_translate(s, k, c + 1);
                        if let Ok((_, value_end)) = spec_scan_at(s, c + 1) {
                            let d = ws_end(s, value_end);
                            lemma_ws_end(s, value_end);
                            lemma_ws_end_translate(s, k, value_end);
                            if d < s.len() && s[d] == ',' && i < d + 1 {
                                lemma_scan_object_body_translate(s, k, d + 1);
                            }
                        }
                    }
                }
            }
        }
    }
}

/// The array element loop looks only at the text from its position on.
pub proof fn lemma_scan_array_body_translate(s: Seq<char>, k: int, i: int)
    requires
        0 <= k <= i <= s.len(),
    ensures
        match spec_scan_array_body(s, i) {
            Ok(e) => spec_scan_array_body(s.subrange(k, s.len() as int), i - k) == Ok::<
                int,
                JSONParsingError,
            >(e - k),
            Err(er) => spec_scan_array_body(s.subrange(k, s.len() as int), i - k) == Err::<
                int,
                JSONParsingError,
            >(er),
        },
    decreases s.len() - i, 1int,
{
    let sub = s.subrange(k, s.len() as int);
    if 0 <= i < s.len() {
        let j = ws_end(s, i);
        lemma_ws_end(s, i);
        lemma_ws_end_translate(s, k, i);
        if !(j < s.len() && s[j] == ']') {
            lemma_scan_at_bounds(s, i);
            lemma_scan_at_translate(s, k, i);
            if let Ok((_, value_end)) = spec_scan_at(s, i) {
                let d = ws_end(s, value_end);
                lemma_ws_end(s, value_end);
                lemma_ws_end_translate(s, k, value_end);
                if d < s.len() && s[d] == ',' && i < d + 1 {
                    lemma_scan_array_body_translate(s, k, d + 1);
                }
            }
        }
    }
}

/// Whitespace skipping started inside a whitespace run ends exactly at
/// the run's end.
pub proof fn lemma_ws_end_is_run(s: Seq<char>, i: int, j: int)
    requires
        0 <= i <= j <= s.len(),
        forall|k: int| i <= k < j ==> #[trigger] is_ws(s[k]),
        j == s.len() || !is_ws(s[j]),
    ensures
        ws_end(s, i) == j,
    decreases j - i,
{
    if i < j {
        lemma_ws_end_is_run(s, i + 1, j);
    }
}

/// Determinism: scanning is a pure function of the text, so scanning
/// the same slice twice yields an identical consumed length and type
/// (this is the specification every scanning function's contract is
/// stated against).
pub proof fn lemma_scan_deterministic(s1: Seq<char>, s2: Seq<char>)
    requires
        s1 == s2,
    ensures
        spec_scan_at(s1, 0) == spec_scan_at(s2, 0),
{
}

/// A scan consumes leading whitespace first, so starting it anywhere in
/// that whitespace gives the same outcome.
pub proof fn lemma_scan_at_skips_ws(s: Seq<char>, i: int)
    requires
        0 <= i <= s.len(),
    ensures
        spec_scan_at(s, i) == spec_scan_at(s, ws_end(s, i)),
{
    lemma_ws_end(s, i);
}

pub(crate) fn ws_char(c: char) -> (b: bool)
    ensures
        b == is_ws(c),
{
    c == ' ' || c == '\t' || c == '\r' || c == '\n'
}

fn number_start_char(c: char) -> (b: bool)
    ensures
        b == is_number_start(c),
{
    ('0' as u32 <= c as u32 && c as u32 <= '9' as u32) || c == '-'
}

fn number_char(c: char) -> (b: bool)
    ensures
        b == is_number_char(c),
{
    number_start_char(c) || c == '.' || c == 'e' || c == 'E'
}

/// The first position at or after `from` that holds no whitespace.
pub(crate) fn skip_ws(s: &str, from: usize, n: usize) -> (j: usize)
    requires
        from <= n,
        n as int == s@.len(),
    ensures
        j as int == ws_end(s@, from as int),
        from <= j <= n,
{
    let mut i = from;
    loop
        invariant
            from <= i <= n,
            n as int == s@.len(),
            ws_end(s@, from as int) == ws_end(s@, i as int),
        decreases n - i,
    {
        if i >= n {
            return i;
        }
        let c = s.get_char(i);
        if !ws_char(c) {
            return i;
        }
        i = i + 1;
    }
}

/// The position just past the closing quote of the string whose content
/// starts at `from`, or the end of the text if no unescaped quote follows.
pub(crate) fn find_string_end(s: &str, from: usize, n: usize) -> (e: usize)
    requires
        from <= n,
        n as int == s@.len(),
    ensures
        e as int == string_end(s@, from as int, false),
        from <= e <= n,
{
    let mut i = from;
    let mut escaped = false;
    loop
        invariant
            from <= i <= n,
            n as int == s@.len(),
            string_end(s@, from as int, false) == string_end(s@, i as int, escaped),
        decreases n - i,
    {
        if i >= n {
            return i;
        }
        let c = s.get_char(i);
        if c == '"' && !escaped {
            return i + 1;
        }
        escaped = if c == '\\' {
            !escaped
        } else {
            false
        };
        i = i + 1;
    }
}

/// The position just past the loosely scanned number starting at `from`.
fn find_number_end(s: &str, from: usize, n: usize) -> (e: usize)
    requires
        from <= n,
        n as int == s@.len(),
    ensures
        e as int == number_end(s@, from as int),
        from <= e <= n,
{
    let mut i = from;
    loop
        invariant
            from <= i <= n,
            n as int == s@.len(),
            number_end(s@, from as int) == number_end(s@, i as int),
        decreases n - i,
    {
        if i >= n {
            return i;
        }
        let c = s.get_char(i);
        if !number_char(c) {
            return i;
        }
        i = i + 1;
    }
}

/// Scans one value beginning at `i`, validating structure and returning
/// its type and the position just past its end.
pub(crate) fn scan_value(s: &str, i: usize, n: usize) -> (r: Result<
    (JSONValueType, usize),
    JSONParsingError,
>)
    requires
        i <= n,
        n as int == s@.len(),
    ensures
        match r {
            Ok((t, e)) => spec_scan_at(s@, i as int) == Ok::<(JSONValueType, int), JSONParsingError>(
                (t, e as int),
            ) && i <= e <= n,
            Err(er) => spec_scan_at(s@, i as int) == Err::<(JSONValueType, int), JSONParsingError>(
                er,
            ),
        },
    decreases n - i, 0int,
{
    let j = skip_ws(s, i, n);
    if j >= n {
        return Err(JSONParsingError::UnexpectedToken);
    }
    let c = s.get_char(j);
    if c == '{' {
        match scan_object_body(s, j + 1, n) {
            Ok(end) => Ok((JSONValueType::Object, end)),
            Err(e) => Err(e),
        }
    } else if c == '[' {
        match scan_array_body(s, j + 1, n) {
            Ok(end) => Ok((JSONValueType::Array, end)),
            Err(e) => Err(e),
        }
    } else if c == '"' {
        let e = find_string_end(s, j + 1, n);
        Ok((JSONValueType::String, e))
    } else if number_start_char(c) {
        let e = find_number_end(s, j, n);
        Ok((JSONValueType::Number, e))
    } else if c == 't' {
        if n - j >= 4 && s.get_char(j + 1) == 'r' && s.get_char(j + 2) == 'u' && s.get_char(j + 3)
            == 'e' {
            Ok((JSONValueType::Bool, j + 4))
        } else {
            Err(JSONParsingError::UnexpectedToken)
        }
    } else if c == 'f' {
        if n - j >= 5 && s.get_char(j + 1) == 'a' && s.get_char(j + 2) == 'l' && s.get_char(j + 3)
            == 's' && s.get_char(j + 4) == 'e' {
            Ok((JSONValueType::Bool, j + 5))
        } else {
            Err(JSONParsingError::UnexpectedToken)
        }
    } else if c == 'n' {
        if n - j >= 4 && s.get_char(j + 1) == 'u' && s.get_char(j + 2) == 'l' && s.get_char(j + 3)
            == 'l' {
            Ok((JSONValueType::Null, j + 4))
        } else {
            Err(JSONParsingError::UnexpectedToken)
        }
    } else {
        Err(JSONParsingError::UnexpectedToken)
    }
}

/// The object member loop, entered just past `{`.
fn scan_object_body(s: &str, i: usize, n: usize) -> (r: Result<usize, JSONParsingError>)
    requires
        i <= n,
        n as int == s@.len(),
    ensures
        match r {
            Ok(e) => spec_scan_object_body(s@, i as int) == Ok::<int, JSONParsingError>(e as int)
                && i <= e <= n,
            Err(er) => spec_scan_object_body(s@, i as int) == Err::<int, JSONParsingError>(er),
        },
    decreases n - i, 1int,
{
    let mut cur = i;
    loop
        invariant
            i <= cur <= n,
            n as int == s@.len(),
            spec_scan_object_body(s@, i as int) == spec_scan_object_body(s@, cur as int),
        decreases n - cur, 1int,
    {
        if cur >= n {
            return Ok(cur);
        }
        let j = skip_ws(s, cur, n);
        if j < n && s.get_char(j) == '}' {
            return Ok(j + 1);
        }
        match scan_value(s, cur, n) {
            Err(e) => {
                return Err(e);
            },
            Ok((key_type, key_end)) => {
                if key_type != JSONValueType::String {
                    return Err(JSONParsingError::CannotParseString);
                }
                let c = skip_ws(s, key_end, n);
                if c >= n {
                    return Err(JSONParsingError::EndOfStream);
                }
                if s.get_char(c) != ':' {
                    return Err(JSONParsingError::UnexpectedToken);
                }
                match scan_value(s, c + 1, n) {
                    Err(e) => {
                        return Err(e);
                    },
                    Ok((_, value_end)) => {
                        let d = skip_ws(s, value_end, n);
                        if d >= n {
                            return Err(JSONParsingError::EndOfStream);
                        }
                        let sep = s.get_char(d);
                        if sep == ',' {
                            cur = d + 1;
                        } else if sep == '}' {
                            return Ok(d + 1);
                        } else {
                            return Err(JSONParsingError::UnexpectedToken);
                        }
                    },
                }
            },
        }
    }
}

/// The array element loop, entered just past `[`.
fn scan_array_body(s: &str, i: usize, n: usize) -> (r: Result<usize, JSONParsingError>)
    requires
        i <= n,
        n as int == s@.len(),
    ensures
        match r {
            Ok(e) => spec_scan_array_body(s@, i as int) == Ok::<int, JSONParsingError>(e as int)
                && i <= e <= n,
            Err(er) => spec_scan_array_body(s@, i as int) == Err::<int, JSONParsingError>(er),
        },
    decreases n - i, 1int,
{
    let mut cur = i;
    loop
        invariant
            i <= cur <= n,
            n as int == s@.len(),
            spec_scan_array_body(s@, i as int) == spec_scan_array_body(s@, cur as int),
        decreases n - cur, 1int,
    {
        if cur >= n {
            return Ok(cur);
        }
        let j = skip_ws(s, cur, n);
        if j < n && s.get_char(j) == ']' {
            return Ok(j + 1);
        }
        match scan_value(s, cur, n) {
            Err(e) => {
                return Err(e);
            },
            Ok((_, value_end)) => {
                let d = skip_ws(s, value_end, n);
                if d >= n {
                    return Err(JSONParsingError::EndOfStream);
                }
                let sep = s.get_char(d);
                if sep == ',' {
                    cur = d + 1;
                } else if sep == ']' {
                    return Ok(d + 1);
                } else {
                    return Err(JSONParsingError::UnexpectedToken);
                }
            },
        }
    }
}


} // verus!
