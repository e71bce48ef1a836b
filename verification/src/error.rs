//! The error model: one `Copy` error type, no heap.
//!
//! Parse failures optionally carry the byte offset where parsing stopped, so
//! callers can point at the offending character.

use vstd::prelude::*;

use crate::text::{dec_digits, byte_chars, push_chars, push_dec, string_from_chars};

verus! {

/// Coarse classification of an [`Error`].
#[derive(Debug, Clone, Copy, PartialEq, Eq)]
pub enum ErrorKind {
    /// A component (month, day, hour, ...) fell outside its allowed range.
    OutOfRange(&'static str),
    /// Text could not be parsed.
    Parse(&'static str),
    /// Signed arithmetic overflowed.
    Overflow,
    /// A timezone offset outside plus or minus 24 hours was requested.
    InvalidOffset,
    /// Generic invalid input.
    Invalid(&'static str),
}

/// A library error: a kind plus the byte offset of a parse failure.
#[derive(Debug, Clone, Copy, PartialEq, Eq)]
pub struct Error {
    kind: ErrorKind,
    offset: Option<usize>,
}

impl Error {
    /// The error kind (specification view).
    pub closed spec fn spec_kind(self) -> ErrorKind {
        self.kind
    }

    /// The byte offset of a parse failure (specification view).
    pub closed spec fn spec_offset(self) -> Option<usize> {
        self.offset
    }

    /// Create an error without position information.
    pub fn new(kind: ErrorKind) -> (e: Error)
        ensures
            e.spec_kind() == kind,
            e.spec_offset() == None::<usize>,
    {
        Error { kind, offset: None }
    }

    /// A component was out of range.
    pub fn out_of_range(component: &'static str) -> (e: Error)
        ensures
            e.spec_kind() == ErrorKind::OutOfRange(component),
            e.spec_offset() == None::<usize>,
    {
        Error::new(ErrorKind::OutOfRange(component))
    }

    /// A parse failure at byte `offset`.
    pub fn parse(what: &'static str, offset: usize) -> (e: Error)
        ensures
            e.spec_kind() == ErrorKind::Parse(what),
            e.spec_offset() == Some(offset),
    {
        Error { kind: ErrorKind::Parse(what), offset: Some(offset) }
    }

    /// Signed arithmetic overflow.
    pub fn overflow() -> (e: Error)
        ensures
            e.spec_kind() == ErrorKind::Overflow,
            e.spec_offset() == None::<usize>,
    {
        Error::new(ErrorKind::Overflow)
    }

    /// An offset outside plus or minus 24 hours was requested.
    pub fn invalid_offset() -> (e: Error)
        ensures
            e.spec_kind() == ErrorKind::InvalidOffset,
            e.spec_offset() == None::<usize>,
    {
        Error::new(ErrorKind::InvalidOffset)
    }

    /// Generic invalid input.
    pub fn invalid(what: &'static str) -> (e: Error)
        ensures
            e.spec_kind() == ErrorKind::Invalid(what),
            e.spec_offset() == None::<usize>,
    {
        Error::new(ErrorKind::Invalid(what))
    }

    /// An output buffer is too small for the rendering.
    pub fn buffer_overflow() -> (e: Error)
        ensures
            e.spec_kind() == ErrorKind::OutOfRange("output buffer"),
            e.spec_offset() == None::<usize>,
    {
        Error::out_of_range("output buffer")
    }

    /// The error kind.
    pub fn kind(self) -> (k: ErrorKind)
        ensures
            k == self.spec_kind(),
    {
        self.kind
    }

    /// The byte offset for parse errors.
    pub fn offset(self) -> (o: Option<usize>)
        ensures
            o == self.spec_offset(),
    {
        self.offset
    }

    /// The human-readable message: what went wrong, then ` at byte N` for a
    /// positioned parse failure.
    pub fn to_string(&self) -> (s: String)
        ensures
            s@ == error_message(*self),
    {
        let mut out: Vec<char> = Vec::new();
        match self.kind {
            ErrorKind::OutOfRange(component) => {
                push_chars(&mut out, component);
                push_chars(&mut out, " is out of range");
            },
            ErrorKind::Parse(what) => {
                push_chars(&mut out, "parse error: ");
                push_chars(&mut out, what);
            },
            ErrorKind::Overflow => {
                push_chars(&mut out, "arithmetic overflow");
            },
            ErrorKind::InvalidOffset => {
                push_chars(&mut out, "timezone offset must be within \u{b1}24 hours");
            },
            ErrorKind::Invalid(what) => {
                push_chars(&mut out, "invalid input: ");
                push_chars(&mut out, what);
            },
        }
        match self.offset {
            Some(offset) => {
                push_chars(&mut out, " at byte ");
                let mut digits: Vec<u8> = Vec::new();
                push_dec(&mut digits, offset as u128);
                let mut k: usize = 0;
                let ghost mid = out@;
                while k < digits.len()
                    invariant
                        k <= digits@.len(),
                        out@ == mid + byte_chars(digits@.subrange(0, k as int)),
                    decreases digits@.len() - k,
                {
                    out.push(digits[k] as char);
                    k = k + 1;
                    proof {
                        assert(out@ =~= mid + byte_chars(digits@.subrange(0, k as int)));
                    }
                }
                proof {
                    assert(digits@.subrange(0, digits@.len() as int) =~= digits@);
                }
            },
            None => {},
        }
        proof {
            assert(out@ =~= error_message(*self));
        }
        string_from_chars(out)
    }
}

/// An error's message, as characters.
pub open spec fn error_message(e: Error) -> Seq<char> {
    let head = match e.spec_kind() {
        ErrorKind::OutOfRange(component) => component@ + " is out of range"@,
        ErrorKind::Parse(what) => "parse error: "@ + what@,
        ErrorKind::Overflow => "arithmetic overflow"@,
        ErrorKind::InvalidOffset => "timezone offset must be within \u{b1}24 hours"@,
        ErrorKind::Invalid(what) => "invalid input: "@ + what@,
    };
    match e.spec_offset() {
        Some(offset) => head + " at byte "@ + byte_chars(dec_digits(offset as nat)),
        None => head,
    }
}

} // verus!
