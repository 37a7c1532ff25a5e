use crate::errors::RequestError;
use vstd::prelude::*;
use vstd::slice::slice_subrange;
use vstd::utf8::{decode_utf8, valid_utf8};

verus! {

/// The index of the first NUL byte at or after `from`, if there is one.
pub open spec fn find_nul(data: Seq<u8>, from: int) -> Option<int>
    decreases data.len() - from,
{
    if from < 0 || from >= data.len() {
        None
    } else if data[from] == 0 {
        Some(from)
    } else {
        find_nul(data, from + 1)
    }
}

/// `find_nul` finds a NUL, and no NUL stands between `from` and what it
/// finds; where it finds none, there is none.
pub proof fn lemma_find_nul(data: Seq<u8>, from: int)
    requires
        0 <= from,
    ensures
        match find_nul(data, from) {
            Some(end) => from <= end < data.len() && data[end] == 0 && forall|j: int|
                from <= j < end ==> data[j] != 0,
            None => forall|j: int| from <= j < data.len() ==> data[j] != 0,
        },
    decreases data.len() - from,
{
    if from < data.len() && data[from] != 0 {
        lemma_find_nul(data, from + 1);
    }
}

/// Whether a character is an ASCII decimal digit.
pub open spec fn is_digit(c: char) -> bool {
    0x30 <= c as u32 <= 0x39
}

/// The number that a run of decimal digits writes.
pub open spec fn digits_value(digits: Seq<char>) -> int
    decreases digits.len(),
{
    if digits.len() == 0 {
        0
    } else {
        digits_value(digits.drop_last()) * 10 + (digits.last() as u32 - 0x30)
    }
}

/// The number that a text writes in decimal: an optional sign, then one
/// digit or more, and nothing else; `None` where the text has another shape
/// or the number does not fit in 32 bits.
pub open spec fn parse_decimal(text: Seq<char>) -> Option<i32> {
    let signed = text.len() > 0 && (text[0] == '-' || text[0] == '+');
    let digits = if signed {
        text.skip(1)
    } else {
        text
    };
    let magnitude = digits_value(digits);
    let value = if signed && text[0] == '-' {
        -magnitude
    } else {
        magnitude
    };
    if digits.len() == 0 || !(forall|i: int| 0 <= i < digits.len() ==> is_digit(#[trigger] digits[i])) {
        None
    } else if -0x8000_0000 <= value <= 0x7fff_ffff {
        Some(value as i32)
    } else {
        None
    }
}

/// `std::str::from_utf8`, with the text copied out: there is a text exactly
/// where the bytes are valid UTF-8, and it is the one they encode. Believed,
/// not proved.
#[verifier::external_body]
fn utf8_text(bytes: &[u8]) -> (r: Option<String>)
    ensures
        r is Some == valid_utf8(bytes@),
        r matches Some(s) ==> s@ == decode_utf8(bytes@),
{
    match std::str::from_utf8(bytes) {
        Ok(s) => Some(String::from(s)),
        Err(_) => None,
    }
}

/// `str::parse::<i32>`: the number that the text writes in decimal, as
/// [`parse_decimal`] states it. Believed, not proved.
#[verifier::external_body]
fn decimal_i32(text: &str) -> (r: Option<i32>)
    ensures
        r == parse_decimal(text@),
{
    match text.parse::<i32>() {
        Ok(v) => Some(v),
        Err(_) => None,
    }
}

/// A place in a datagram from which NUL-terminated fields are read one after
/// another. Once a read has failed the cursor keeps that failure, stays where
/// it is, and every later read gives an empty value.
#[derive(Debug, Clone, Copy)]
pub struct Cursor {
    pub pos: usize,
    pub failure: Option<RequestError>,
}

/// The cursor at `c.pos` with the failure `e`.
pub open spec fn failed(c: Cursor, e: RequestError) -> Cursor {
    Cursor { pos: c.pos, failure: Some(e) }
}

/// The raw bytes of the field at the cursor, and the cursor behind the
/// field's NUL. A field without a NUL is missing.
pub open spec fn after_data(data: Seq<u8>, c: Cursor) -> (Seq<u8>, Cursor) {
    if c.failure is Some {
        (Seq::<u8>::empty(), c)
    } else {
        match find_nul(data, c.pos as int) {
            Some(end) => (
                data.subrange(c.pos as int, end),
                Cursor { pos: (end + 1) as usize, failure: None },
            ),
            None => (Seq::<u8>::empty(), failed(c, RequestError::Missing)),
        }
    }
}

/// The field at the cursor read as text. Bytes that are no valid UTF-8 are
/// a decode error.
pub open spec fn after_str(data: Seq<u8>, c: Cursor) -> (Seq<char>, Cursor) {
    let (raw, next) = after_data(data, c);
    if next.failure is Some {
        (Seq::<char>::empty(), next)
    } else if valid_utf8(raw) {
        (decode_utf8(raw), next)
    } else {
        (Seq::<char>::empty(), failed(c, RequestError::DecodeError))
    }
}

/// The field at the cursor read as a decimal number. Text that is no
/// number is a parse error.
pub open spec fn after_int(data: Seq<u8>, c: Cursor) -> (i32, Cursor) {
    let (text, next) = after_str(data, c);
    if next.failure is Some {
        (0i32, next)
    } else {
        match parse_decimal(text) {
            Some(v) => (v, next),
            None => (0i32, failed(c, RequestError::ParseError)),
        }
    }
}

impl Cursor {
    /// A cursor at `pos` that has not failed.
    pub fn new(pos: usize) -> (c: Cursor)
        ensures
            c == (Cursor { pos, failure: None }),
    {
        Cursor { pos, failure: None }
    }

    /// Whether every read so far has succeeded.
    pub fn is_ok(&self) -> (r: bool)
        ensures
            r == (self.failure is None),
    {
        self.failure.is_none()
    }

    /// Reads the raw bytes of the next field: what stands before the next
    /// NUL, which the cursor then steps over.
    pub fn read_data<'a>(&mut self, data: &'a [u8]) -> (r: &'a [u8])
        ensures
            r@ == after_data(data@, *old(self)).0,
            *final(self) == after_data(data@, *old(self)).1,
            forall|j: int| 0 <= j < r@.len() ==> r@[j] != 0,
    {
        if self.failure.is_some() {
            let r = slice_subrange(data, 0, 0);
            assert(r@ =~= Seq::<u8>::empty());
            return r;
        }
        let start: usize = self.pos;
        let mut i: usize = start;
        while i < data.len() && data[i] != 0
            invariant
                start <= i,
                find_nul(data@, i as int) == find_nul(data@, start as int),
            decreases data@.len() - i,
        {
            i += 1;
        }
        if i < data.len() {
            proof {
                lemma_find_nul(data@, start as int);
            }
            self.pos = i + 1;
            slice_subrange(data, start, i)
        } else {
            self.failure = Some(RequestError::Missing);
            let r = slice_subrange(data, 0, 0);
            assert(r@ =~= Seq::<u8>::empty());
            r
        }
    }

    /// Reads the next field as text.
    pub fn read_str(&mut self, data: &[u8]) -> (r: String)
        ensures
            r@ == after_str(data@, *old(self)).0,
            *final(self) == after_str(data@, *old(self)).1,
    {
        let start: usize = self.pos;
        let raw = self.read_data(data);
        if self.failure.is_some() {
            return String::new();
        }
        match utf8_text(raw) {
            Some(text) => text,
            None => {
                self.pos = start;
                self.failure = Some(RequestError::DecodeError);
                String::new()
            },
        }
    }

    /// Reads the next field as a decimal number.
    pub fn read_int(&mut self, data: &[u8]) -> (r: i32)
        ensures
            r == after_int(data@, *old(self)).0,
            *final(self) == after_int(data@, *old(self)).1,
    {
        let start: usize = self.pos;
        let text = self.read_str(data);
        if self.failure.is_some() {
            return 0;
        }
        match decimal_i32(text.as_str()) {
            Some(v) => v,
            None => {
                self.pos = start;
                self.failure = Some(RequestError::ParseError);
                0
            },
        }
    }
}

} // verus!
