//! A zero-allocation, single-pass JSON value accessor.
//!
//! A [`JSONValue`] is a non-owning view into caller-supplied text together
//! with a type tag guessed from its first character.  Loading never fails
//! and builds no parse tree; the exact extent and well-formedness of a
//! value are only established when something scans it ([`JSONValue::verify`],
//! iteration, key lookup).  String contents are decoded lazily and only on
//! demand.

use vstd::prelude::*;

mod error;
mod escape;
mod grammar;
mod numbers;
mod scan;

pub use error::JSONParsingError;
pub use escape::EscapedStringIterator;

use crate::scan::{peek_type, spec_scan_at, ws_end};

verus! {

/// Denotes the different types of values JSON text can hold.
///
/// Both floats and integers have the value type [`JSONValueType::Number`].
#[derive(Copy, Clone, PartialEq, Eq, Debug, Structural)]
pub enum JSONValueType {
    String,
    Number,
    Object,
    Array,
    Bool,
    Null,
    Error,
}

/// A non-owning view into caller-supplied JSON text, with a type tag
/// guessed from the first character.
///
/// The tag is only a hint: it is never the *wrong* type, but it may be
/// present even when the text is not well formed.  Only a completed scan
/// ([`JSONValue::verify`]) proves well-formedness.
#[derive(Copy, Clone, Debug)]
pub struct JSONValue<'a> {
    contents: &'a str,
    pub value_type: JSONValueType,
}

/// The specification-level model of a [`JSONValue`]: the characters of
/// the text it looks into, and its type tag.
pub ghost struct ValueView {
    pub text: Seq<char>,
    pub typ: JSONValueType,
}

impl<'a> View for JSONValue<'a> {
    type V = ValueView;

    closed spec fn view(&self) -> ValueView {
        ValueView { text: self.contents@, typ: self.value_type }
    }
}

/// What [`JSONValue::read_string`] returns, as a function of the text
/// and the type tag: the raw characters between the quotes of a scanned
/// string, or the first error in the way.
pub open spec fn spec_read_string(s: Seq<char>, t: JSONValueType) -> Result<
    Seq<char>,
    JSONParsingError,
> {
    match spec_scan_at(s, 0) {
        Err(e) => Err(e),
        Ok((_, end)) => if t != JSONValueType::String {
            Err(JSONParsingError::CannotParseString)
        } else if end < 2 {
            Err(JSONParsingError::EndOfStream)
        } else {
            Ok(s.subrange(1, end - 1))
        },
    }
}

impl<'a> JSONValue<'a> {
    /// Create a new `JSONValue` from an input string.
    ///
    /// This is the primary way of constructing a [`JSONValue`].  It cannot
    /// fail, although the value might have type [`JSONValueType::Error`];
    /// conversely a malformed payload may have a type that is not `Error`.
    ///
    /// To load the payload and check that it is valid JSON, use
    /// [`JSONValue::load_and_verify`].
    pub fn load(contents: &'a str) -> (r: JSONValue<'a>)
        ensures
            r@.text == contents@.subrange(ws_end(contents@, 0), contents@.len() as int),
            r@.typ == peek_type(r@.text),
    {
        let n = contents.unicode_len();
        let w = crate::scan::skip_ws(contents, 0, n);
        let trimmed = contents.substring_char(w, n);
        let value_type = JSONValue::peek_value_type(trimmed);
        JSONValue { contents: trimmed, value_type }
    }

    /// Guess the type of the JSON value serialised in the (already
    /// trimmed) input string from its first character alone.
    ///
    /// This never gives the *wrong* type, though it may return a type
    /// even when the input string is not well formed.
    pub fn peek_value_type(contents: &'a str) -> (t: JSONValueType)
        ensures
            t == peek_type(contents@),
    {
        if contents.is_empty() {
            return JSONValueType::Error;
        }
        let c = contents.get_char(0);
        if c == '{' {
            JSONValueType::Object
        } else if c == '[' {
            JSONValueType::Array
        } else if c == '"' {
            JSONValueType::String
        } else if ('0' as u32 <= c as u32 && c as u32 <= '9' as u32) || c == '-' {
            JSONValueType::Number
        } else if c == 't' || c == 'f' {
            JSONValueType::Bool
        } else if c == 'n' {
            JSONValueType::Null
        } else {
            JSONValueType::Error
        }
    }

    /// Scan one value off the front of the input and return it together
    /// with the length consumed, leading whitespace included, so that a
    /// caller can chain sibling scans.
    pub fn parse_with_len(contents: &'a str) -> (r: Result<
        (JSONValue<'a>, usize),
        JSONParsingError,
    >)
        ensures
            match r {
                Ok((v, len)) => spec_scan_at(contents@, 0) == Ok::<
                    (JSONValueType, int),
                    JSONParsingError,
                >((v@.typ, len as int)) && v@.text == contents@.subrange(
                    ws_end(contents@, 0),
                    len as int,
                ),
                Err(e) => spec_scan_at(contents@, 0) == Err::<(JSONValueType, int),
                    JSONParsingError,
                >(e),
            },
    {
        let n = contents.unicode_len();
        match crate::scan::scan_value(contents, 0, n) {
            Err(e) => Err(e),
            Ok((value_type, end)) => {
                proof {
                    crate::scan::lemma_scan_at_bounds(contents@, 0);
                }
                let w = crate::scan::skip_ws(contents, 0, n);
                let slice = contents.substring_char(w, end);
                Ok((JSONValue { contents: slice, value_type }, end))
            },
        }
    }

    /// Load a JSON value from a payload and verify that it is valid JSON.
    ///
    /// This is equivalent to calling [`JSONValue::load`] followed by
    /// [`JSONValue::verify`].
    pub fn load_and_verify(contents: &'a str) -> (r: Result<JSONValue<'a>, JSONParsingError>)
        ensures
            match r {
                Ok(v) => spec_scan_at(contents@, 0) is Ok && v@.text == contents@.subrange(
                    ws_end(contents@, 0),
                    contents@.len() as int,
                ) && v@.typ == peek_type(v@.text),
                Err(e) => spec_scan_at(contents@, 0) == Err::<(JSONValueType, int),
                    JSONParsingError,
                >(e),
            },
    {
        let value = JSONValue::load(contents);
        proof {
            let w = ws_end(contents@, 0);
            crate::scan::lemma_ws_end(contents@, 0);
            crate::scan::lemma_scan_at_skips_ws(contents@, 0);
            crate::scan::lemma_scan_at_translate(contents@, w, w);
        }
        match value.verify() {
            Ok(_) => Ok(value),
            Err(e) => Err(e),
        }
    }

    /// Confirm that this [`JSONValue`] is proper JSON.
    ///
    /// This scans through the entire text and confirms that it is
    /// properly formatted.  See also [`JSONValue::load_and_verify`].
    pub fn verify(&self) -> (r: Result<(), JSONParsingError>)
        ensures
            match r {
                Ok(_) => spec_scan_at(self@.text, 0) is Ok,
                Err(e) => spec_scan_at(self@.text, 0) == Err::<(JSONValueType, int), JSONParsingError>(
                    e,
                ),
            },
    {
        let n = self.contents.unicode_len();
        match crate::scan::scan_value(self.contents, 0, n) {
            Ok(_) => Ok(()),
            Err(e) => Err(e),
        }
    }

    /// Reads the [`JSONValue`] as an integer.
    ///
    /// If the type is not a [`JSONValueType::Number`], or the text after
    /// stripping trailing whitespace is not an integer literal whose
    /// value fits in an `isize`, returns `Err(CannotParseInteger)`.
    pub fn read_integer(&self) -> (r: Result<isize, JSONParsingError>)
        ensures
            match r {
                Ok(v) => self@.typ == JSONValueType::Number && crate::numbers::spec_parse_int(
                    self@.text,
                ) == Ok::<int, JSONParsingError>(v as int),
                Err(e) => e == JSONParsingError::CannotParseInteger && (self@.typ
                    != JSONValueType::Number || crate::numbers::spec_parse_int(self@.text) == Err::<
                    int,
                    JSONParsingError,
                >(e)),
            },
    {
        if self.value_type != JSONValueType::Number {
            return Err(JSONParsingError::CannotParseInteger);
        }
        crate::numbers::parse_int(self.contents)
    }

    /// Read the [`JSONValue`] as a string.
    ///
    /// This returns the raw, unescaped slice between the quotes.  If
    /// escape sequences must be handled, use [`JSONValue::iter_string`].
    /// A string-tagged value whose scanned extent is a lone quote has no
    /// room for both quotes and fails with `EndOfStream`.
    pub fn read_string(&self) -> (r: Result<&'a str, JSONParsingError>)
        ensures
            match r {
                Ok(out) => spec_read_string(self@.text, self@.typ) == Ok::<Seq<char>,
                    JSONParsingError,
                >(out@),
                Err(e) => spec_read_string(self@.text, self@.typ) == Err::<Seq<char>,
                    JSONParsingError,
                >(e),
            },
    {
        let n = self.contents.unicode_len();
        match crate::scan::scan_value(self.contents, 0, n) {
            Err(e) => Err(e),
            Ok((_, end)) => {
                if self.value_type != JSONValueType::String {
                    Err(JSONParsingError::CannotParseString)
                } else if end < 2 {
                    Err(JSONParsingError::EndOfStream)
                } else {
                    Ok(self.contents.substring_char(1, end - 1))
                }
            },
        }
    }

    /// Constructs an iterator over this array value.
    ///
    /// If the value is not a [`JSONValueType::Array`], returns an error.
    pub fn iter_array(&self) -> (r: Result<JSONArrayIterator<'a>, JSONParsingError>)
        ensures
            match r {
                Ok(it) => self@.typ == JSONValueType::Array && it@ == seq_tail(self@.text),
                Err(e) => self@.typ != JSONValueType::Array && e
                    == JSONParsingError::CannotParseArray,
            },
    {
        if self.value_type != JSONValueType::Array {
            return Err(JSONParsingError::CannotParseArray);
        }
        let n = self.contents.unicode_len();
        if n == 0 {
            Ok(JSONArrayIterator { contents: self.contents })
        } else {
            Ok(JSONArrayIterator { contents: self.contents.substring_char(1, n) })
        }
    }

    /// Constructs an iterator over this string.
    ///
    /// If the value is not a [`JSONValueType::String`], returns an
    /// error.  The iterator yields decoded characters (or failures) and
    /// handles escape sequences.
    pub fn iter_string(&self) -> (r: Result<EscapedStringIterator<'a>, JSONParsingError>)
        ensures
            match r {
                Ok(it) => self@.typ == JSONValueType::String && it@.text == seq_tail(self@.text)
                    && it@.pos == 0 && !it@.done,
                Err(e) => self@.typ != JSONValueType::String && e
                    == JSONParsingError::CannotParseString,
            },
    {
        if self.value_type != JSONValueType::String {
            return Err(JSONParsingError::CannotParseString);
        }
        let n = self.contents.unicode_len();
        if n == 0 {
            Ok(EscapedStringIterator::new_from(self.contents))
        } else {
            Ok(EscapedStringIterator::new_from(self.contents.substring_char(1, n)))
        }
    }

    /// Constructs an iterator over this object.
    ///
    /// If the value is not a [`JSONValueType::Object`], returns an error.
    pub fn iter_object(&self) -> (r: Result<JSONObjectIterator<'a>, JSONParsingError>)
        ensures
            match r {
                Ok(it) => self@.typ == JSONValueType::Object && it@ == seq_tail(self@.text),
                Err(e) => self@.typ != JSONValueType::Object && e
                    == JSONParsingError::CannotParseObject,
            },
    {
        if self.value_type != JSONValueType::Object {
            return Err(JSONParsingError::CannotParseObject);
        }
        let n = self.contents.unicode_len();
        if n == 0 {
            Ok(JSONObjectIterator { contents: self.contents })
        } else {
            Ok(JSONObjectIterator { contents: self.contents.substring_char(1, n) })
        }
    }

    /// Searches this object for a key and returns its value.
    ///
    /// This walks the members linearly, comparing each raw key against
    /// the search term exactly — a key that needs escape decoding to
    /// equal `key` will not match.  The first match wins; a structural
    /// scan error on the way is forwarded; an exhausted iteration fails
    /// with `KeyNotFound`.
    pub fn get_key_value(&self, key: &str) -> (r: Result<JSONValue<'a>, JSONParsingError>)
        ensures
            match r {
                Ok(v) => self@.typ == JSONValueType::Object && spec_object_lookup(
                    seq_tail(self@.text),
                    key@,
                ) == Ok::<ValueView, JSONParsingError>(v@),
                Err(e) => (self@.typ != JSONValueType::Object && e
                    == JSONParsingError::CannotParseObject) || (self@.typ == JSONValueType::Object
                    && spec_object_lookup(seq_tail(self@.text), key@) == Err::<
                    ValueView,
                    JSONParsingError,
                >(e)),
            },
    {
        let mut it = match self.iter_object() {
            Ok(it) => it,
            Err(e) => {
                return Err(e);
            },
        };
        loop
            invariant
                self@.typ == JSONValueType::Object,
                spec_object_lookup(seq_tail(self@.text), key@) == spec_object_lookup(it@, key@),
            decreases it@.len(),
        {
            let ghost pre = it@;
            match it.next() {
                None => {
                    return Err(JSONParsingError::KeyNotFound);
                },
                Some(Err(e)) => {
                    return Err(e);
                },
                Some(Ok((k, v))) => {
                    proof {
                        lemma_object_step_advances(pre);
                    }
                    if str_eq(k, key) {
                        return Ok(v);
                    }
                },
            }
        }
    }
}

/// The tail of a cursor: everything after its first character (an empty
/// cursor stays empty).
pub open spec fn seq_tail(s: Seq<char>) -> Seq<char> {
    if s.len() >= 1 {
        s.subrange(1, s.len() as int)
    } else {
        s
    }
}

/// An iterator through a JSON array value.
///
/// Usually constructed with [`JSONValue::iter_array`].  It owns a cursor
/// over the text after the opening bracket and walks the elements by
/// repeatedly scanning at the cursor.
pub struct JSONArrayIterator<'a> {
    contents: &'a str,
}

impl<'a> View for JSONArrayIterator<'a> {
    type V = Seq<char>;

    /// The remaining unconsumed text.
    closed spec fn view(&self) -> Seq<char> {
        self.contents@
    }
}

/// One step of the array iterator on cursor `s`: `None` when the scan of
/// the remaining text fails — including when the cursor sits at the
/// closing bracket, so a scan error on malformed trailing content is not
/// distinguished from the normal end of the array.  On success, the
/// scanned value together with the cursor advanced past it, its trailing
/// whitespace and the following separator character, if one remains.
pub open spec fn spec_array_step(s: Seq<char>) -> Option<(ValueView, Seq<char>)> {
    match spec_scan_at(s, 0) {
        Err(_) => None,
        Ok((t, end)) => {
            let v = ValueView { text: s.subrange(ws_end(s, 0), end), typ: t };
            let d = ws_end(s, end);
            let rest = if d < s.len() {
                s.subrange(d + 1, s.len() as int)
            } else {
                Seq::<char>::empty()
            };
            Some((v, rest))
        },
    }
}

/// The value the array iterator yields after `k` earlier steps, if the
/// iteration reaches that far.
pub open spec fn spec_array_nth(s: Seq<char>, k: nat) -> Option<ValueView>
    decreases k,
{
    match spec_array_step(s) {
        None => None,
        Some((v, rest)) => if k == 0 {
            Some(v)
        } else {
            spec_array_nth(rest, (k - 1) as nat)
        },
    }
}

/// The cursor left behind after asking the array iterator for the value
/// at index `k`: every step up to and including that index is consumed,
/// and a failing step consumes nothing further.
pub open spec fn spec_array_cursor_after(s: Seq<char>, k: nat) -> Seq<char>
    decreases k,
{
    match spec_array_step(s) {
        None => s,
        Some((v, rest)) => if k == 0 {
            rest
        } else {
            spec_array_cursor_after(rest, (k - 1) as nat)
        },
    }
}

impl<'a> JSONArrayIterator<'a> {
    /// The next element of the array, or `None` once the remaining text
    /// no longer scans — in particular at the closing bracket.
    pub fn next(&mut self) -> (r: Option<JSONValue<'a>>)
        ensures
            match spec_array_step(old(self)@) {
                None => r is None && final(self)@ == old(self)@,
                Some((vv, rest)) => (r matches Some(v) && v@ == vv) && final(self)@ == rest,
            },
    {
        let n = self.contents.unicode_len();
        match crate::scan::scan_value(self.contents, 0, n) {
            Err(_) => None,
            Ok((value_type, end)) => {
                proof {
                    crate::scan::lemma_scan_at_bounds(self.contents@, 0);
                }
                let w = crate::scan::skip_ws(self.contents, 0, n);
                let value = JSONValue { contents: self.contents.substring_char(w, end), value_type };
                let d = crate::scan::skip_ws(self.contents, end, n);
                if d < n {
                    self.contents = self.contents.substring_char(d + 1, n);
                } else {
                    self.contents = self.contents.substring_char(n, n);
                }
                Some(value)
            },
        }
    }

    /// The element at index `index`, counted from the current cursor:
    /// iteration replays from here, discarding `index` leading elements,
    /// so an out-of-range index yields `None` and is not an error.
    pub fn nth(&mut self, index: usize) -> (r: Option<JSONValue<'a>>)
        ensures
            match spec_array_nth(old(self)@, index as nat) {
                None => r is None,
                Some(vv) => r matches Some(v) && v@ == vv,
            },
            final(self)@ == spec_array_cursor_after(old(self)@, index as nat),
    {
        let mut k = index;
        loop
            invariant
                k <= index,
                spec_array_nth(old(self)@, index as nat) == spec_array_nth(self@, k as nat),
                spec_array_cursor_after(old(self)@, index as nat) == spec_array_cursor_after(
                    self@,
                    k as nat,
                ),
            decreases k,
        {
            match self.next() {
                None => {
                    return None;
                },
                Some(v) => {
                    if k == 0 {
                        return Some(v);
                    }
                    k = k - 1;
                },
            }
        }
    }
}


/// The outcome of one step of the object iterator: what it yields (if
/// anything) and the cursor it leaves behind.
pub ghost struct ObjectStep {
    pub emit: Option<Result<(Seq<char>, ValueView), JSONParsingError>>,
    pub rest: Seq<char>,
}

/// One step of the object iterator on cursor `s`.  After trimming, an
/// exhausted cursor — or one that does not sit at a quote — ends the
/// iteration.  Otherwise a key string is scanned, the character after it
/// (presumed to be the colon, not checked) is skipped, and the member's
/// value is scanned; if that scan fails, the iterator yields the error
/// once and permanently empties itself.  On success it yields the raw
/// key (the unescaped text between the key's quotes) and the value, and
/// advances past the value, its trailing whitespace and the following
/// separator character, if one remains.
pub open spec fn spec_object_step(s: Seq<char>) -> ObjectStep {
    let w = ws_end(s, 0);
    if w >= s.len() || s[w] != '"' {
        ObjectStep { emit: None, rest: Seq::<char>::empty() }
    } else {
        let key_end = crate::scan::string_end(s, w + 1, false);
        let c = ws_end(s, key_end);
        let vp = if c < s.len() {
            c + 1
        } else {
            c
        };
        match spec_scan_at(s, vp) {
            Err(e) => ObjectStep { emit: Some(Err(e)), rest: Seq::<char>::empty() },
            Ok((t, value_end)) => {
                let key = s.subrange(w + 1, key_end - 1);
                let vv = ValueView { text: s.subrange(ws_end(s, vp), value_end), typ: t };
                let d = ws_end(s, value_end);
                let rest = if d < s.len() {
                    s.subrange(d + 1, s.len() as int)
                } else {
                    Seq::<char>::empty()
                };
                ObjectStep { emit: Some(Ok((key, vv))), rest }
            },
        }
    }
}

/// A step that yields something always consumes part of the cursor.
pub proof fn lemma_object_step_advances(s: Seq<char>)
    ensures
        spec_object_step(s).emit is Some ==> spec_object_step(s).rest.len() < s.len(),
{
    let w = ws_end(s, 0);
    crate::scan::lemma_ws_end(s, 0);
    if w < s.len() && s[w] == '"' {
        let key_end = crate::scan::string_end(s, w + 1, false);
        crate::scan::lemma_string_end(s, w + 1, false);
        let c = ws_end(s, key_end);
        crate::scan::lemma_ws_end(s, key_end);
        let vp = if c < s.len() {
            c + 1
        } else {
            c
        };
        crate::scan::lemma_scan_at_bounds(s, vp);
        if let Ok((_, value_end)) = spec_scan_at(s, vp) {
            crate::scan::lemma_ws_end(s, value_end);
        }
    }
}

/// What a linear search over the object iterator finds for `key`: the
/// first member whose raw key equals it, the first scan error in the
/// way, or `KeyNotFound` once the iteration ends.
pub open spec fn spec_object_lookup(s: Seq<char>, key: Seq<char>) -> Result<
    ValueView,
    JSONParsingError,
>
    decreases s.len(),
{
    let step = spec_object_step(s);
    match step.emit {
        None => Err(JSONParsingError::KeyNotFound),
        Some(Err(e)) => Err(e),
        Some(Ok((k, vv))) => if k == key {
            Ok(vv)
        } else if step.rest.len() < s.len() {
            spec_object_lookup(step.rest, key)
        } else {
            // a step that yields a member always consumes text, so this
            // arm is never reached; it keeps the recursion well-founded
            Err(JSONParsingError::KeyNotFound)
        },
    }
}

/// An iterator through a JSON object.
///
/// Usually constructed with [`JSONValue::iter_object`].  The items are
/// key/value results, but the key is raw: escape decoding it is the
/// caller's separate responsibility.  Duplicate keys are preserved in
/// document order.
pub struct JSONObjectIterator<'a> {
    contents: &'a str,
}

impl<'a> View for JSONObjectIterator<'a> {
    type V = Seq<char>;

    /// The remaining unconsumed text.
    closed spec fn view(&self) -> Seq<char> {
        self.contents@
    }
}

impl<'a> JSONObjectIterator<'a> {
    /// The next member of the object: its raw key and its value, or the
    /// first scan error, after which the iterator is permanently empty.
    pub fn next(&mut self) -> (r: Option<
        Result<(&'a str, JSONValue<'a>), JSONParsingError>,
    >)
        ensures
            final(self)@ == spec_object_step(old(self)@).rest,
            match spec_object_step(old(self)@).emit {
                None => r is None,
                Some(Ok((k, vv))) => r matches Some(Ok((ks, v))) && ks@ == k && v@ == vv,
                Some(Err(e)) => r matches Some(Err(e2)) && e2 == e,
            },
    {
        let n = self.contents.unicode_len();
        let w = crate::scan::skip_ws(self.contents, 0, n);
        if w >= n {
            self.contents = self.contents.substring_char(n, n);
            return None;
        }
        if self.contents.get_char(w) != '"' {
            self.contents = self.contents.substring_char(n, n);
            return None;
        }
        proof {
            crate::scan::lemma_string_end(self.contents@, w + 1, false);
        }
        let key_end = crate::scan::find_string_end(self.contents, w + 1, n);
        let c = crate::scan::skip_ws(self.contents, key_end, n);
        let vp = if c < n {
            c + 1
        } else {
            c
        };
        match crate::scan::scan_value(self.contents, vp, n) {
            Err(e) => {
                self.contents = self.contents.substring_char(n, n);
                Some(Err(e))
            },
            Ok((value_type, value_end)) => {
                proof {
                    crate::scan::lemma_scan_at_bounds(self.contents@, vp as int);
                    crate::scan::lemma_ws_end(self.contents@, vp as int);
                }
                let key = self.contents.substring_char(w + 1, key_end - 1);
                let vw = crate::scan::skip_ws(self.contents, vp, n);
                let value = JSONValue {
                    contents: self.contents.substring_char(vw, value_end),
                    value_type,
                };
                let d = crate::scan::skip_ws(self.contents, value_end, n);
                if d < n {
                    self.contents = self.contents.substring_char(d + 1, n);
                } else {
                    self.contents = self.contents.substring_char(n, n);
                }
                Some(Ok((key, value)))
            },
        }
    }
}

/// Character-for-character equality of two string slices.
fn str_eq(a: &str, b: &str) -> (r: bool)
    ensures
        r == (a@ == b@),
{
    let na = a.unicode_len();
    let nb = b.unicode_len();
    if na != nb {
        return false;
    }
    let mut i: usize = 0;
    while i < na
        invariant
            i <= na,
            na as int == a@.len(),
            nb as int == b@.len(),
            na == nb,
            forall|k: int| 0 <= k < i ==> a@[k] == b@[k],
        decreases na - i,
    {
        if a.get_char(i) != b.get_char(i) {
            return false;
        }
        i = i + 1;
    }
    proof {
        assert(a@ =~= b@);
    }
    true
}

} // verus!
