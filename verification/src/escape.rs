//! The escape decoder: lazily decodes one string's escape sequences
//! into characters, one source character at a time, never rewinding.

use vstd::prelude::*;
use vstd::string::StrSliceExecFns;

use crate::error::JSONParsingError;

verus! {

/// The value of a hexadecimal digit (either case), if `c` is one.
pub open spec fn hex_digit_value(c: char) -> Option<u32> {
    if '0' as u32 <= c as u32 && c as u32 <= '9' as u32 {
        Some((c as u32 - '0' as u32) as u32)
    } else if 'a' as u32 <= c as u32 && c as u32 <= 'f' as u32 {
        Some((c as u32 - 'a' as u32 + 10) as u32)
    } else if 'A' as u32 <= c as u32 && c as u32 <= 'F' as u32 {
        Some((c as u32 - 'A' as u32 + 10) as u32)
    } else {
        None
    }
}

/// The character a single-letter escape stands for, if `c` names one:
/// a quote, backslash or slash stand for themselves, and `b f n t r`
/// stand for backspace, form-feed, newline, tab and carriage-return.
pub open spec fn escape_char(c: char) -> Option<char> {
    if c == '"' {
        Some('"')
    } else if c == '\\' {
        Some('\\')
    } else if c == '/' {
        Some('/')
    } else if c == 'b' {
        Some('\x08')
    } else if c == 'f' {
        Some('\x0c')
    } else if c == 'n' {
        Some('\n')
    } else if c == 't' {
        Some('\t')
    } else if c == 'r' {
        Some('\r')
    } else {
        None
    }
}

/// Reads exactly four hex digits at `p`, combined big-endian into a
/// 16-bit code unit, together with the position just past whatever was
/// consumed (each examined character is consumed, even one that turns
/// out not to be a hex digit).
pub open spec fn spec_read_hex4(s: Seq<char>, p: int) -> (Option<u32>, int) {
    if !(0 <= p < s.len()) {
        (None, p)
    } else if hex_digit_value(s[p]) is None {
        (None, p + 1)
    } else if p + 1 >= s.len() {
        (None, p + 1)
    } else if hex_digit_value(s[p + 1]) is None {
        (None, p + 2)
    } else if p + 2 >= s.len() {
        (None, p + 2)
    } else if hex_digit_value(s[p + 2]) is None {
        (None, p + 3)
    } else if p + 3 >= s.len() {
        (None, p + 3)
    } else if hex_digit_value(s[p + 3]) is None {
        (None, p + 4)
    } else {
        let code = hex_digit_value(s[p])->0 * 0x1000 + hex_digit_value(s[p + 1])->0 * 0x100
            + hex_digit_value(s[p + 2])->0 * 0x10 + hex_digit_value(s[p + 3])->0;
        (Some(code as u32), p + 4)
    }
}

/// The outcome of one step of the escape decoder: what it yields (if
/// anything), the position it leaves the cursor at, and whether the
/// sequence is finished for good.
pub ghost struct EscapeStep {
    pub emit: Option<Result<char, JSONParsingError>>,
    pub pos: int,
    pub done: bool,
}

/// One step of the escape decoder at position `p` of the text between a
/// string's quotes: a plain character is emitted as-is; an unescaped
/// quote ends the sequence successfully; text ending before one fails
/// with `EndOfStream`; a backslash introduces an escape, where a
/// malformed one permanently exhausts the sequence.  A unicode escape
/// takes exactly four hex digits, whose 16-bit value must form a valid
/// character (an unpaired surrogate half does not; surrogate pairs are
/// deliberately not reassembled).
pub open spec fn spec_unescape_step(s: Seq<char>, p: int) -> EscapeStep {
    if !(0 <= p < s.len()) {
        EscapeStep { emit: Some(Err(JSONParsingError::EndOfStream)), pos: p, done: true }
    } else if s[p] == '"' {
        EscapeStep { emit: None, pos: p + 1, done: true }
    } else if s[p] == '\\' {
        if p + 1 >= s.len() {
            EscapeStep { emit: None, pos: p + 1, done: false }
        } else {
            let e = s[p + 1];
            if escape_char(e) is Some {
                EscapeStep { emit: Some(Ok(escape_char(e)->0)), pos: p + 2, done: false }
            } else if e == 'u' {
                let (code_opt, q) = spec_read_hex4(s, p + 2);
                match code_opt {
                    None => EscapeStep {
                        emit: Some(Err(JSONParsingError::TooShortEscapeSequence)),
                        pos: q,
                        done: true,
                    },
                    Some(code) => if code < 0xD800 || code > 0xDFFF {
                        EscapeStep { emit: Some(Ok(code as char)), pos: q, done: false }
                    } else {
                        EscapeStep {
                            emit: Some(Err(JSONParsingError::InvalidUnicodeEscapeSequence)),
                            pos: q,
                            done: true,
                        }
                    },
                }
            } else {
                EscapeStep {
                    emit: Some(Err(JSONParsingError::InvalidEscapeSequence(e))),
                    pos: p + 2,
                    done: true,
                }
            }
        }
    } else {
        EscapeStep { emit: Some(Ok(s[p])), pos: p + 1, done: false }
    }
}

/// Iterator over a JSON-escaped string.
///
/// See [`crate::JSONValue::iter_string`] for further documentation.  It
/// owns a character cursor over the content between a string's quotes
/// plus a "done" flag; once done (success or error) it yields nothing
/// further.
pub struct EscapedStringIterator<'a> {
    contents: &'a str,
    pos: usize,
    done: bool,
}

/// The specification-level model of an [`EscapedStringIterator`]: the
/// text between the string's quotes, the cursor position in it, and
/// whether the sequence has finished.
pub ghost struct EscapeIterView {
    pub text: Seq<char>,
    pub pos: int,
    pub done: bool,
}

impl<'a> View for EscapedStringIterator<'a> {
    type V = EscapeIterView;

    closed spec fn view(&self) -> EscapeIterView {
        EscapeIterView { text: self.contents@, pos: self.pos as int, done: self.done }
    }
}

/// Relies on `char::from_u32` from std: `Some` exactly when the code is
/// a Unicode scalar value (at most 0x10FFFF and not a surrogate), and
/// the returned character has that code.
#[verifier::external_body]
fn char_from_u32(code: u32) -> (r: Option<char>)
    ensures
        r is Some <==> (code < 0xD800 || (0xDFFF < code && code <= 0x10FFFF)),
        r matches Some(c) ==> c as u32 == code,
{
    char::from_u32(code)
}

fn hex_digit(c: char) -> (r: Option<u32>)
    ensures
        r == hex_digit_value(c),
{
    let u = c as u32;
    if '0' as u32 <= u && u <= '9' as u32 {
        Some(u - '0' as u32)
    } else if 'a' as u32 <= u && u <= 'f' as u32 {
        Some(u - 'a' as u32 + 10)
    } else if 'A' as u32 <= u && u <= 'F' as u32 {
        Some(u - 'A' as u32 + 10)
    } else {
        None
    }
}

/// Reads exactly four hex digits at `p`, consuming each character it
/// examines.
fn read_hex4(s: &str, p: usize, n: usize) -> (r: (Option<u32>, usize))
    requires
        p <= n,
        n as int == s@.len(),
    ensures
        r.0 == spec_read_hex4(s@, p as int).0,
        r.1 as int == spec_read_hex4(s@, p as int).1,
        p <= r.1 <= n,
        r.0 matches Some(code) ==> code <= 0xFFFF,
{
    if p >= n {
        return (None, p);
    }
    let d0 = match hex_digit(s.get_char(p)) {
        None => {
            return (None, p + 1);
        },
        Some(d) => d,
    };
    if p + 1 >= n {
        return (None, p + 1);
    }
    let d1 = match hex_digit(s.get_char(p + 1)) {
        None => {
            return (None, p + 2);
        },
        Some(d) => d,
    };
    if p + 2 >= n {
        return (None, p + 2);
    }
    let d2 = match hex_digit(s.get_char(p + 2)) {
        None => {
            return (None, p + 3);
        },
        Some(d) => d,
    };
    if p + 3 >= n {
        return (None, p + 3);
    }
    let d3 = match hex_digit(s.get_char(p + 3)) {
        None => {
            return (None, p + 4);
        },
        Some(d) => d,
    };
    let code = d0 * 0x1000 + d1 * 0x100 + d2 * 0x10 + d3;
    (Some(code), p + 4)
}

impl<'a> EscapedStringIterator<'a> {
    /// A fresh decoder over `contents`, the raw text between a string's
    /// quotes.
    pub(crate) fn new_from(contents: &'a str) -> (r: EscapedStringIterator<'a>)
        ensures
            r@.text == contents@,
            r@.pos == 0,
            !r@.done,
    {
        EscapedStringIterator { contents, pos: 0, done: false }
    }

    /// The next decoded character, a failure that permanently exhausts
    /// the sequence, or `None` at the string's unescaped closing quote.
    pub fn next(&mut self) -> (r: Option<Result<char, JSONParsingError>>)
        ensures
            old(self)@.done ==> r is None && final(self)@ == old(self)@,
            !old(self)@.done ==> ({
                let st = spec_unescape_step(old(self)@.text, old(self)@.pos);
                r == st.emit && final(self)@.text == old(self)@.text && final(self)@.pos == st.pos
                    && final(self)@.done == st.done
            }),
    {
        if self.done {
            return None;
        }
        let n = self.contents.unicode_len();
        if self.pos >= n {
            self.done = true;
            return Some(Err(JSONParsingError::EndOfStream));
        }
        let c = self.contents.get_char(self.pos);
        self.pos = self.pos + 1;
        if c == '"' {
            self.done = true;
            return None;
        }
        if c != '\\' {
            return Some(Ok(c));
        }
        if self.pos >= n {
            return None;
        }
        let e = self.contents.get_char(self.pos);
        self.pos = self.pos + 1;
        if e == '"' || e == '\\' || e == '/' {
            return Some(Ok(e));
        }
        if e == 'b' {
            return Some(Ok('\x08'));
        }
        if e == 'f' {
            return Some(Ok('\x0c'));
        }
        if e == 'n' {
            return Some(Ok('\n'));
        }
        if e == 't' {
            return Some(Ok('\t'));
        }
        if e == 'r' {
            return Some(Ok('\r'));
        }
        if e != 'u' {
            self.done = true;
            return Some(Err(JSONParsingError::InvalidEscapeSequence(e)));
        }
        let (code_opt, q) = read_hex4(self.contents, self.pos, n);
        self.pos = q;
        match code_opt {
            None => {
                self.done = true;
                Some(Err(JSONParsingError::TooShortEscapeSequence))
            },
            Some(code) => match char_from_u32(code) {
                Some(ch) => {
                    proof {
                        vstd::utf8::char_u32_cast(ch, code);
                    }
                    Some(Ok(ch))
                },
                None => {
                    self.done = true;
                    Some(Err(JSONParsingError::InvalidUnicodeEscapeSequence))
                },
            },
        }
    }
}

} // verus!
