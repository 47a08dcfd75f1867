//! The JSON grammar, and the guarantee that well-formed text is
//! accepted: loading and verifying it succeeds, and the type tag
//! guessed at load time matches the outer syntactic form.
//!
//! A [`JsonShape`] is a concrete syntax tree: it carries the widths of
//! the whitespace runs the grammar admits, so that a tree spells
//! exactly one text and every well-formed text is spelled by some tree.
//! The grammar is standard JSON with one restriction: an exponent may
//! not carry an explicit plus sign, since the scanner stops at one
//! (`[1e+5]` is rejected by [`crate::JSONValue::verify`] even though
//! strict JSON allows it).  Raw control characters inside strings are
//! not rejected.

use vstd::prelude::*;

use crate::JSONParsingError;
use crate::JSONValueType;
use crate::escape::{escape_char, hex_digit_value};
use crate::scan::{
    is_number_char, is_number_start, is_ws, number_end, peek_type, spec_scan_at, string_end,
    ws_end,
};

verus! {

broadcast use vstd::seq::group_seq_axioms;

/// The concrete shape of a JSON value.
pub enum JsonShape {
    Null,
    Bool(bool),
    /// A number, by its literal characters.
    Number(Seq<char>),
    /// A string, by the raw (still escaped) content between its quotes.
    Text(Seq<char>),
    /// Elements in order; the width of the interior whitespace applies
    /// only to an empty array.
    Array(nat, Seq<Padded>),
    /// Members in order; the width of the interior whitespace applies
    /// only to an empty object.
    Object(nat, Seq<Member>),
}

/// A value with the widths of the whitespace runs around it.
pub struct Padded {
    pub pre: nat,
    pub v: JsonShape,
    pub post: nat,
}

/// An object member: whitespace, a raw key, whitespace, a colon (kept
/// implicit), and the member's padded value.
pub struct Member {
    pub pre: nat,
    pub key: Seq<char>,
    pub post_key: nat,
    pub val: Padded,
}

/// The type tag belonging to each syntactic form.
pub open spec fn shape_type(v: JsonShape) -> JSONValueType {
    match v {
        JsonShape::Null => JSONValueType::Null,
        JsonShape::Bool(_) => JSONValueType::Bool,
        JsonShape::Number(_) => JSONValueType::Number,
        JsonShape::Text(_) => JSONValueType::String,
        JsonShape::Array(_, _) => JSONValueType::Array,
        JsonShape::Object(_, _) => JSONValueType::Object,
    }
}

/// Every character of `s` in `[i, j)` is insignificant whitespace.
pub open spec fn all_ws_range(s: Seq<char>, i: int, j: int) -> bool {
    0 <= i <= j <= s.len() && forall|k: int| i <= k < j ==> #[trigger] is_ws(s[k])
}

/// One or more decimal digits.
pub open spec fn wf_digits(s: Seq<char>) -> bool {
    s.len() >= 1 && forall|k: int| 0 <= k < s.len() ==> #[trigger] crate::numbers::is_digit(s[k])
}

/// The integer part of a number: an optional minus sign, then either a
/// single zero or digits without a leading zero.
pub open spec fn wf_int_part(s: Seq<char>) -> bool {
    let d = if s.len() >= 1 && s[0] == '-' {
        s.subrange(1, s.len() as int)
    } else {
        s
    };
    wf_digits(d) && (d[0] == '0' ==> d.len() == 1)
}

/// The fraction part: absent, or a decimal point followed by digits.
pub open spec fn wf_frac_part(s: Seq<char>) -> bool {
    s.len() == 0 || (s[0] == '.' && wf_digits(s.subrange(1, s.len() as int)))
}

/// The exponent part: absent, or an exponent marker, an optional minus
/// sign and digits.  An explicit plus sign is not admitted: the scanner
/// does not consume one.
pub open spec fn wf_exp_part(s: Seq<char>) -> bool {
    s.len() == 0 || ((s[0] == 'e' || s[0] == 'E') && {
        let d = s.subrange(1, s.len() as int);
        wf_digits(
            if d.len() >= 1 && d[0] == '-' {
                d.subrange(1, d.len() as int)
            } else {
                d
            },
        )
    })
}

/// A well-formed JSON number literal: integer part, optional fraction,
/// optional exponent.
pub open spec fn wf_number(s: Seq<char>) -> bool {
    exists|a: Seq<char>, b: Seq<char>, c: Seq<char>|
        s == #[trigger] (a + b + c) && wf_int_part(a) && wf_frac_part(b) && wf_exp_part(c)
}

/// Well-formed raw string content: plain characters other than a quote
/// or backslash, single-letter escapes, and unicode escapes of exactly
/// four hex digits.
pub open spec fn wf_string_content(s: Seq<char>) -> bool
    decreases s.len(),
{
    if s.len() == 0 {
        true
    } else if s[0] == '\\' {
        s.len() >= 2 && ((escape_char(s[1]) is Some && wf_string_content(
            s.subrange(2, s.len() as int),
        )) || (s[1] == 'u' && s.len() >= 6 && hex_digit_value(s[2]) is Some && hex_digit_value(
            s[3],
        ) is Some && hex_digit_value(s[4]) is Some && hex_digit_value(s[5]) is Some
            && wf_string_content(s.subrange(6, s.len() as int))))
    } else {
        s[0] != '"' && wf_string_content(s.subrange(1, s.len() as int))
    }
}

/// The width of the text a shape spells.
pub open spec fn shape_len(v: JsonShape) -> int
    decreases v, 0int,
{
    match v {
        JsonShape::Null => 4,
        JsonShape::Bool(b) => if b {
            4
        } else {
            5
        },
        JsonShape::Number(lit) => lit.len() as int,
        JsonShape::Text(content) => content.len() as int + 2,
        JsonShape::Array(inner, elems) => if elems.len() == 0 {
            2 + inner as int
        } else {
            2 + elements_len(elems)
        },
        JsonShape::Object(inner, members) => if members.len() == 0 {
            2 + inner as int
        } else {
            2 + members_len(members)
        },
    }
}

/// The width of a padded value.
pub open spec fn padded_len(e: Padded) -> int
    decreases e, 1int,
{
    e.pre + shape_len(e.v) + e.post as int
}

/// The width of comma-separated elements.
pub open spec fn elements_len(elems: Seq<Padded>) -> int
    decreases elems, 2int,
{
    if elems.len() == 0 {
        0
    } else if elems.len() == 1 {
        padded_len(elems[0])
    } else {
        padded_len(elems[0]) + 1 + elements_len(elems.subrange(1, elems.len() as int))
    }
}

/// The width of a member: whitespace, the quoted key, whitespace, the
/// colon and the padded value.
pub open spec fn member_len(m: Member) -> int
    decreases m, 2int,
{
    m.pre + m.key.len() + 2 + m.post_key + 1 + padded_len(m.val) as int
}

/// The width of comma-separated members.
pub open spec fn members_len(members: Seq<Member>) -> int
    decreases members, 3int,
{
    if members.len() == 0 {
        0
    } else if members.len() == 1 {
        member_len(members[0])
    } else {
        member_len(members[0]) + 1 + members_len(members.subrange(1, members.len() as int))
    }
}

/// `v` is spelled exactly by the characters of `s` in `[i, j)`, with no
/// surrounding whitespace.
pub open spec fn spells_value(v: JsonShape, s: Seq<char>, i: int, j: int) -> bool
    decreases v, 0int,
{
    match v {
        JsonShape::Null => 0 <= i && j == i + 4 && j <= s.len() && s[i] == 'n' && s[i + 1] == 'u'
            && s[i + 2] == 'l' && s[i + 3] == 'l',
        JsonShape::Bool(b) => if b {
            0 <= i && j == i + 4 && j <= s.len() && s[i] == 't' && s[i + 1] == 'r' && s[i + 2]
                == 'u' && s[i + 3] == 'e'
        } else {
            0 <= i && j == i + 5 && j <= s.len() && s[i] == 'f' && s[i + 1] == 'a' && s[i + 2]
                == 'l' && s[i + 3] == 's' && s[i + 4] == 'e'
        },
        JsonShape::Number(lit) => 0 <= i && j <= s.len() && j - i == lit.len() && s.subrange(i, j)
            == lit && wf_number(lit),
        JsonShape::Text(content) => 0 <= i && j <= s.len() && j == i + 2 + content.len() && s[i]
            == '"' && s[j - 1] == '"' && s.subrange(i + 1, j - 1) == content && wf_string_content(
            content,
        ),
        JsonShape::Array(_, elems) => 0 <= i && i + 2 <= j <= s.len() && s[i] == '[' && s[j - 1]
            == ']' && if elems.len() == 0 {
            all_ws_range(s, i + 1, j - 1)
        } else {
            spells_elements(elems, s, i + 1, j - 1)
        },
        JsonShape::Object(_, members) => 0 <= i && i + 2 <= j <= s.len() && s[i] == '{' && s[j - 1]
            == '}' && if members.len() == 0 {
            all_ws_range(s, i + 1, j - 1)
        } else {
            spells_members(members, s, i + 1, j - 1)
        },
    }
}

/// A padded value: its whitespace runs, then the value between them.
pub open spec fn spells_padded(e: Padded, s: Seq<char>, i: int, j: int) -> bool
    decreases e, 1int,
{
    let a = i + e.pre;
    let b = j - e.post;
    &&& i <= a <= b <= j
    &&& all_ws_range(s, i, a)
    &&& spells_value(e.v, s, a, b)
    &&& all_ws_range(s, b, j)
}

/// One or more elements separated by commas.
pub open spec fn spells_elements(elems: Seq<Padded>, s: Seq<char>, i: int, j: int) -> bool
    decreases elems, 2int,
{
    if elems.len() == 0 {
        false
    } else if elems.len() == 1 {
        spells_padded(elems[0], s, i, j)
    } else {
        let m = i + padded_len(elems[0]);
        &&& i <= m < j
        &&& spells_padded(elems[0], s, i, m)
        &&& s[m] == ','
        &&& spells_elements(elems.subrange(1, elems.len() as int), s, m + 1, j)
    }
}

/// A member: whitespace, the quoted raw key, whitespace, a colon, then
/// the member's padded value.
pub open spec fn spells_member(mem: Member, s: Seq<char>, i: int, j: int) -> bool
    decreases mem, 2int,
{
    let a = i + mem.pre;
    let kend = a + mem.key.len() + 2;
    let c = kend + mem.post_key;
    &&& 0 <= i
    &&& c + 1 <= j <= s.len()
    &&& wf_string_content(mem.key)
    &&& all_ws_range(s, i, a)
    &&& s[a] == '"'
    &&& s[kend - 1] == '"'
    &&& s.subrange(a + 1, kend - 1) == mem.key
    &&& all_ws_range(s, kend, c)
    &&& s[c] == ':'
    &&& spells_padded(mem.val, s, c + 1, j)
}

/// One or more members separated by commas.
pub open spec fn spells_members(members: Seq<Member>, s: Seq<char>, i: int, j: int) -> bool
    decreases members, 3int,
{
    if members.len() == 0 {
        false
    } else if members.len() == 1 {
        spells_member(members[0], s, i, j)
    } else {
        let m = i + member_len(members[0]);
        &&& i <= m < j
        &&& spells_member(members[0], s, i, m)
        &&& s[m] == ','
        &&& spells_members(members.subrange(1, members.len() as int), s, m + 1, j)
    }
}

/// A well-formed JSON text: optional whitespace, one value, optional
/// whitespace, and nothing else.
pub open spec fn spells_text(doc: Padded, s: Seq<char>) -> bool {
    spells_padded(doc, s, 0, s.len() as int)
}

/// Whitespace skipping started inside a whitespace run ends exactly at
/// the run's end.
proof fn lemma_ws_end_value(s: Seq<char>, i: int, j: int)
    requires
        all_ws_range(s, i, j),
        j == s.len() || !is_ws(s[j]),
    ensures
        ws_end(s, i) == j,
{
    crate::scan::lemma_ws_end_is_run(s, i, j);
}

/// The loose number scan started at a run of number characters ends
/// exactly where the run does.
proof fn lemma_number_end_value(s: Seq<char>, i: int, j: int)
    requires
        0 <= i <= j <= s.len(),
        forall|k: int| i <= k < j ==> #[trigger] is_number_char(s[k]),
        j == s.len() || !is_number_char(s[j]),
    ensures
        number_end(s, i) == j,
    decreases j - i,
{
    if i < j {
        lemma_number_end_value(s, i + 1, j);
    }
}

/// A well-formed number literal is non-empty, starts like a number and
/// consists of number characters only.
proof fn lemma_wf_number_chars(lit: Seq<char>)
    requires
        wf_number(lit),
    ensures
        lit.len() >= 1,
        is_number_start(lit[0]),
        forall|k: int| 0 <= k < lit.len() ==> #[trigger] is_number_char(lit[k]),
{
    let (a, b, c) = choose|a: Seq<char>, b: Seq<char>, c: Seq<char>|
        lit == #[trigger] (a + b + c) && wf_int_part(a) && wf_frac_part(b) && wf_exp_part(c);
    assert(wf_digits(
        if a.len() >= 1 && a[0] == '-' {
            a.subrange(1, a.len() as int)
        } else {
            a
        },
    ));
    assert(a.len() >= 1);
    assert(lit[0] == a[0]);
    if a[0] != '-' {
        assert(crate::numbers::is_digit(a[0]));
    }
    assert forall|k: int| 0 <= k < lit.len() implies #[trigger] is_number_char(lit[k]) by {
        if k < a.len() {
            assert(lit[k] == a[k]);
            if !(a[k] == '-' && k == 0) {
                if a[0] == '-' {
                    assert(a.subrange(1, a.len() as int)[k - 1] == a[k]);
                    assert(crate::numbers::is_digit(a.subrange(1, a.len() as int)[k - 1]));
                } else {
                    assert(crate::numbers::is_digit(a[k]));
                }
            }
        } else if k < a.len() + b.len() {
            assert(lit[k] == b[k - a.len()]);
            if k - a.len() > 0 {
                assert(crate::numbers::is_digit(b.subrange(1, b.len() as int)[k - a.len() - 1]));
            }
        } else {
            let kc = k - a.len() - b.len();
            assert(lit[k] == c[kc]);
            if kc > 0 {
                let d = c.subrange(1, c.len() as int);
                if d.len() >= 1 && d[0] == '-' {
                    if kc > 1 {
                        assert(crate::numbers::is_digit(d.subrange(1, d.len() as int)[kc - 2]));
                    }
                } else {
                    assert(crate::numbers::is_digit(d[kc - 1]));
                }
            }
        }
    }
}

/// A hex digit is neither a quote nor a backslash.
proof fn lemma_hex_digit_plain(c: char)
    requires
        hex_digit_value(c) is Some,
    ensures
        c != '"',
        c != '\\',
{
}

/// The string scan, started at well-formed content followed by a
/// closing quote, ends exactly one past that quote.
proof fn lemma_string_end_value(s: Seq<char>, p: int, q: int)
    requires
        0 <= p <= q < s.len(),
        wf_string_content(s.subrange(p, q)),
        s[q] == '"',
    ensures
        string_end(s, p, false) == q + 1,
    decreases q - p,
{
    let content = s.subrange(p, q);
    if p == q {
        assert(string_end(s, p, false) == p + 1);
    } else if s[p] == '\\' {
        assert(content[0] == '\\');
        assert(content.len() >= 2);
        assert(content[1] == s[p + 1]);
        assert(string_end(s, p, false) == string_end(s, p + 1, true));
        if escape_char(s[p + 1]) is Some && wf_string_content(content.subrange(2, q - p)) {
            assert(string_end(s, p + 1, true) == string_end(s, p + 2, false));
            assert(content.subrange(2, q - p) =~= s.subrange(p + 2, q));
            lemma_string_end_value(s, p + 2, q);
        } else {
            assert(content.len() >= 6);
            assert(content[2] == s[p + 2] && content[3] == s[p + 3] && content[4] == s[p + 4]
                && content[5] == s[p + 5]);
            lemma_hex_digit_plain(s[p + 2]);
            lemma_hex_digit_plain(s[p + 3]);
            lemma_hex_digit_plain(s[p + 4]);
            lemma_hex_digit_plain(s[p + 5]);
            assert(string_end(s, p + 1, true) == string_end(s, p + 2, false));
            assert(string_end(s, p + 2, false) == string_end(s, p + 3, false));
            assert(string_end(s, p + 3, false) == string_end(s, p + 4, false));
            assert(string_end(s, p + 4, false) == string_end(s, p + 5, false));
            assert(string_end(s, p + 5, false) == string_end(s, p + 6, false));
            assert(content.subrange(6, q - p) =~= s.subrange(p + 6, q));
            lemma_string_end_value(s, p + 6, q);
        }
    } else {
        assert(content[0] == s[p]);
        assert(content[0] != '"');
        assert(string_end(s, p, false) == string_end(s, p + 1, false));
        assert(content.subrange(1, q - p) =~= s.subrange(p + 1, q));
        lemma_string_end_value(s, p + 1, q);
    }
}

/// A spelled value is non-empty and begins with the character its
/// syntactic form demands — never whitespace, a separator or a closer.
proof fn lemma_value_starter(v: JsonShape, s: Seq<char>, i: int, j: int)
    requires
        spells_value(v, s, i, j),
    ensures
        0 <= i < j <= s.len(),
        !is_ws(s[i]),
        s[i] != ']' && s[i] != '}' && s[i] != ',' && s[i] != ':',
        match v {
            JsonShape::Null => s[i] == 'n',
            JsonShape::Bool(b) => s[i] == (if b {
                't'
            } else {
                'f'
            }),
            JsonShape::Number(_) => is_number_start(s[i]),
            JsonShape::Text(_) => s[i] == '"',
            JsonShape::Array(_, _) => s[i] == '[',
            JsonShape::Object(_, _) => s[i] == '{',
        },
{
    if let JsonShape::Number(lit) = v {
        lemma_wf_number_chars(lit);
        assert(s[i] == s.subrange(i, j)[0]);
    }
}

/// A spelled string scans as a string, ending exactly one past its
/// closing quote.
proof fn lemma_text_scans(content: Seq<char>, s: Seq<char>, i: int, j: int)
    requires
        spells_value(JsonShape::Text(content), s, i, j),
    ensures
        spec_scan_at(s, i) == Ok::<(JSONValueType, int), JSONParsingError>(
            (JSONValueType::String, j),
        ),
{
    assert(ws_end(s, i) == i);
    assert(s.subrange(i + 1, j - 1) == content);
    lemma_string_end_value(s, i + 1, j - 1);
}

/// A spelled value, followed by the end of the text or by anything that
/// cannot extend a number, scans successfully: the scanner reports the
/// value's own syntactic type and stops exactly at its end.
proof fn lemma_value_scans(v: JsonShape, s: Seq<char>, i: int, j: int)
    requires
        spells_value(v, s, i, j),
        j == s.len() || !is_number_char(s[j]),
    ensures
        spec_scan_at(s, i) == Ok::<(JSONValueType, int), JSONParsingError>((shape_type(v), j)),
    decreases v,
{
    lemma_value_starter(v, s, i, j);
    assert(ws_end(s, i) == i);
    match v {
        JsonShape::Null => {},
        JsonShape::Bool(_) => {},
        JsonShape::Number(lit) => {
            lemma_wf_number_chars(lit);
            assert forall|k: int| i <= k < j implies #[trigger] is_number_char(s[k]) by {
                assert(s[k] == s.subrange(i, j)[k - i]);
                assert(is_number_char(lit[k - i]));
            }
            lemma_number_end_value(s, i, j);
        },
        JsonShape::Text(content) => {
            lemma_text_scans(content, s, i, j);
        },
        JsonShape::Array(_, elems) => {
            if elems.len() == 0 {
                lemma_ws_end_value(s, i + 1, j - 1);
            } else {
                lemma_elements_scan(elems, s, i + 1, j - 1);
            }
        },
        JsonShape::Object(_, members) => {
            if members.len() == 0 {
                lemma_ws_end_value(s, i + 1, j - 1);
            } else {
                lemma_members_scan(members, s, i + 1, j - 1);
            }
        },
    }
}

/// One padded value spelled in `[i, e)`, with the end of the text or a
/// structural character at `e`, scans from `i`: leading whitespace is
/// consumed, the value's own extent is found, and the whitespace after
/// it runs exactly to `e`.
proof fn lemma_padded_scans(p: Padded, s: Seq<char>, i: int, e: int)
    requires
        spells_padded(p, s, i, e),
        0 <= i <= e <= s.len(),
        e == s.len() || (!is_ws(s[e]) && !is_number_char(s[e])),
    ensures
        spec_scan_at(s, i) == Ok::<(JSONValueType, int), JSONParsingError>(
            (shape_type(p.v), e - p.post),
        ),
        ws_end(s, i) == i + p.pre,
        ws_end(s, e - p.post) == e,
        i + p.pre < e - p.post,
        s[i + p.pre] != ']' && s[i + p.pre] != '}',
    decreases p,
{
    let a = i + p.pre;
    let b = e - p.post;
    lemma_value_starter(p.v, s, a, b);
    lemma_ws_end_value(s, i, a);
    crate::scan::lemma_scan_at_skips_ws(s, i);
    if b < e {
        assert(is_ws(s[b]));
    }
    lemma_value_scans(p.v, s, a, b);
    lemma_ws_end_value(s, b, e);
}

/// Elements spelled in `[i, j)` with the closing bracket at `j` drive
/// the element loop to success just past the bracket.
proof fn lemma_elements_scan(elems: Seq<Padded>, s: Seq<char>, i: int, j: int)
    requires
        spells_elements(elems, s, i, j),
        0 <= i <= j < s.len(),
        s[j] == ']',
    ensures
        crate::scan::spec_scan_array_body(s, i) == Ok::<int, JSONParsingError>(j + 1),
    decreases elems,
{
    if elems.len() == 1 {
        lemma_padded_scans(elems[0], s, i, j);
    } else {
        let m = i + padded_len(elems[0]);
        lemma_padded_scans(elems[0], s, i, m);
        lemma_elements_scan(elems.subrange(1, elems.len() as int), s, m + 1, j);
    }
}

/// One member spelled in `[i, e)`, with a comma or the closing brace at
/// `e`, takes the member loop at `i` through one turn: the key scans as
/// a string, the colon follows, the value scans, and the loop continues
/// (or closes) at `e`.
proof fn lemma_member_scans(mem: Member, s: Seq<char>, i: int, e: int)
    requires
        spells_member(mem, s, i, e),
        0 <= i <= e < s.len(),
        s[e] == ',' || s[e] == '}',
    ensures
        s[e] == ',' ==> crate::scan::spec_scan_object_body(s, i)
            == crate::scan::spec_scan_object_body(s, e + 1),
        s[e] == '}' ==> crate::scan::spec_scan_object_body(s, i) == Ok::<int, JSONParsingError>(
            e + 1,
        ),
    decreases mem,
{
    let a = i + mem.pre;
    let kend = a + mem.key.len() + 2;
    let c = kend + mem.post_key;
    lemma_ws_end_value(s, i, a);
    assert(spells_value(JsonShape::Text(mem.key), s, a, kend)) by {
        assert(s.subrange(a + 1, kend - 1) == mem.key);
    }
    crate::scan::lemma_scan_at_skips_ws(s, i);
    lemma_text_scans(mem.key, s, a, kend);
    lemma_ws_end_value(s, kend, c);
    lemma_padded_scans(mem.val, s, c + 1, e);
}

/// Members spelled in `[i, j)` with the closing brace at `j` drive the
/// member loop to success just past the brace.
proof fn lemma_members_scan(members: Seq<Member>, s: Seq<char>, i: int, j: int)
    requires
        spells_members(members, s, i, j),
        0 <= i <= j < s.len(),
        s[j] == '}',
    ensures
        crate::scan::spec_scan_object_body(s, i) == Ok::<int, JSONParsingError>(j + 1),
    decreases members,
{
    if members.len() == 1 {
        lemma_member_scans(members[0], s, i, j);
    } else {
        let m = i + member_len(members[0]);
        lemma_member_scans(members[0], s, i, m);
        lemma_members_scan(members.subrange(1, members.len() as int), s, m + 1, j);
    }
}

/// For every well-formed JSON text, loading and verifying succeeds —
/// the scan of the whole text yields a value — and the type tag that
/// loading guesses from the first significant character matches the
/// text's outer syntactic form.
pub proof fn theorem_well_formed_text_accepted(doc: Padded, s: Seq<char>)
    requires
        spells_text(doc, s),
    ensures
        spec_scan_at(s, 0) matches Ok((t, end)) && t == shape_type(doc.v) && end == s.len()
            - doc.post,
        peek_type(s.subrange(ws_end(s, 0), s.len() as int)) == shape_type(doc.v),
{
    lemma_padded_scans(doc, s, 0, s.len() as int);
    let a = doc.pre as int;
    let b = s.len() - doc.post;
    lemma_value_starter(doc.v, s, a, b);
    let trimmed = s.subrange(a, s.len() as int);
    assert(trimmed[0] == s[a]);
}


/// A text is well-formed JSON when some shape spells it.
pub open spec fn wf_text(s: Seq<char>) -> bool {
    exists|doc: Padded| #[trigger] spells_text(doc, s)
}

/// Every well-formed JSON text is accepted: its scan succeeds, so
/// loading and verifying it cannot fail.
pub proof fn theorem_wf_text_scans(s: Seq<char>)
    requires
        wf_text(s),
    ensures
        spec_scan_at(s, 0) is Ok,
{
    let doc = choose|doc: Padded| #[trigger] spells_text(doc, s);
    theorem_well_formed_text_accepted(doc, s);
}

} // verus!
