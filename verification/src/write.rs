//! Allocation-free output sinks.
//!
//! Formatting can write into a caller-owned byte slice through [`Write`]
//! and [`Buf`] instead of allocating. Text sinks such as [`Buf`] reject byte
//! slices that are not valid UTF-8, so what they hold is always text.

use vstd::prelude::*;
use vstd::string::StringSliceAdditionalSpecFns;
use vstd::utf8::{encode_utf8, valid_utf8};

use crate::error::Error;
use crate::format::signed_text;
use crate::text::{dec_digits, dec_padded};

verus! {

/// `core::str::from_utf8` (std): the bytes as a `&str` exactly when they
/// are valid UTF-8, which is what std documents.
#[verifier::external_body]
pub(crate) fn utf8_str(bytes: &[u8]) -> (r: Option<&str>)
    ensures
        r is Some <==> valid_utf8(bytes@),
        r is Some ==> r->Some_0.spec_bytes() == bytes@,
{
    core::str::from_utf8(bytes).ok()
}

/// A minimal byte-oriented output sink.
///
/// The required method is [`Write::write_bytes`]; the others write through
/// it. A failed write leaves the sink unchanged.
pub trait Write {
    /// The bytes written so far.
    spec fn written(&self) -> Seq<u8>;

    /// Whether the sink, as it stands, takes `bytes`.
    spec fn accepts(&self, bytes: Seq<u8>) -> bool;

    /// Append a byte slice; it succeeds exactly when the sink takes it.
    fn write_bytes(&mut self, bytes: &[u8]) -> (r: Result<(), Error>)
        ensures
            r is Ok <==> old(self).accepts(bytes@),
            r is Ok ==> final(self).written() == old(self).written() + bytes@,
            r is Err ==> final(self).written() == old(self).written(),
    ;

    /// Append a `&str` (its UTF-8 encoding).
    fn write_str(&mut self, s: &str) -> (r: Result<(), Error>)
        ensures
            r is Ok <==> old(self).accepts(s.spec_bytes()),
            r is Ok ==> final(self).written() == old(self).written() + s.spec_bytes(),
            r is Err ==> final(self).written() == old(self).written(),
    {
        self.write_bytes(s.as_bytes())
    }

    /// Append one byte.
    fn write_byte(&mut self, b: u8) -> (r: Result<(), Error>)
        ensures
            r is Ok <==> old(self).accepts(seq![b]),
            r is Ok ==> final(self).written() == old(self).written() + seq![b],
            r is Err ==> final(self).written() == old(self).written(),
    {
        let one: [u8; 1] = [b];
        proof {
            assert(one@ =~= seq![b]);
        }
        self.write_bytes(one.as_slice())
    }

    /// Append one character, UTF-8 encoded.
    fn write_char(&mut self, c: char) -> (r: Result<(), Error>)
        ensures
            r is Ok <==> old(self).accepts(encode_utf8(seq![c])),
            r is Ok ==> final(self).written() == old(self).written() + encode_utf8(seq![c]),
            r is Err ==> final(self).written() == old(self).written(),
    {
        let enc = encode_char(c);
        self.write_bytes(enc.as_slice())
    }
}

/// The UTF-8 encoding of one character.
pub fn encode_char(c: char) -> (v: Vec<u8>)
    ensures
        v@ == encode_utf8(seq![c]),
{
    let s = c as u32;
    let mut v: Vec<u8> = Vec::new();
    proof {
        vstd::utf8::char_is_scalar(c);
    }
    if s <= 0x7F {
        v.push((s & 0x7F) as u8);
    } else if s <= 0x7FF {
        v.push(0xC0 | ((s >> 6) & 0x1F) as u8);
        v.push(0x80 | (s & 0x3F) as u8);
    } else if s <= 0xFFFF {
        v.push(0xE0 | ((s >> 12) & 0x0F) as u8);
        v.push(0x80 | ((s >> 6) & 0x3F) as u8);
        v.push(0x80 | (s & 0x3F) as u8);
    } else {
        v.push(0xF0 | ((s >> 18) & 0x7) as u8);
        v.push(0x80 | ((s >> 12) & 0x3F) as u8);
        v.push(0x80 | ((s >> 6) & 0x3F) as u8);
        v.push(0x80 | (s & 0x3F) as u8);
    }
    proof {
        let t = seq![c];
        assert(t.drop_first() =~= Seq::<char>::empty());
        assert(encode_utf8(t) =~= vstd::utf8::encode_scalar(c as u32) + encode_utf8(t.drop_first()));
        assert(v@ =~= encode_utf8(seq![c]));
    }
    v
}

/// A fixed-capacity buffer over caller-owned bytes: the allocator-free way
/// to format a value.
#[derive(Debug)]
pub struct Buf<'a> {
    data: &'a mut [u8],
    len: usize,
}

impl<'a> Buf<'a> {
    /// What the buffer holds: a text prefix of the backing slice.
    #[verifier::type_invariant]
    spec fn holds_text(&self) -> bool {
        &&& self.len <= self.data@.len()
        &&& valid_utf8(self.data@.subrange(0, self.len as int))
    }

    /// The capacity of the backing slice (specification view).
    pub closed spec fn spec_capacity(&self) -> nat {
        self.data@.len()
    }

    /// Wrap `data` as an empty sink; content is appended from offset 0.
    pub fn new(data: &'a mut [u8]) -> (b: Buf<'a>)
        ensures
            b.written() == Seq::<u8>::empty(),
            b.spec_capacity() == old(data)@.len(),
    {
        proof {
            assert(data@.subrange(0, 0) =~= Seq::<u8>::empty());
        }
        Buf { data, len: 0 }
    }

    /// Number of bytes written so far.
    pub fn len(&self) -> (n: usize)
        ensures
            n == self.written().len(),
    {
        proof {
            use_type_invariant(self);
        }
        self.len
    }

    /// Whether nothing has been written yet.
    pub fn is_empty(&self) -> (b: bool)
        ensures
            b == (self.written().len() == 0),
    {
        proof {
            use_type_invariant(self);
        }
        self.len == 0
    }

    /// Total capacity of the backing slice.
    pub fn capacity(&self) -> (n: usize)
        ensures
            n == self.spec_capacity(),
    {
        self.data.len()
    }

    /// The written bytes.
    pub fn as_bytes(&self) -> (b: &[u8])
        ensures
            b@ == self.written(),
    {
        proof {
            use_type_invariant(self);
        }
        vstd::slice::slice_subrange(&*self.data, 0, self.len)
    }

    /// The written bytes as a `&str` (always valid UTF-8: the buffer only
    /// accepts text).
    pub fn as_str(&self) -> (s: &str)
        ensures
            s.spec_bytes() == self.written(),
    {
        proof {
            use_type_invariant(self);
        }
        match utf8_str(self.as_bytes()) {
            Some(s) => s,
            None => "",
        }
    }

    /// Reset to empty, reusing the backing slice.
    pub fn clear(&mut self)
        ensures
            final(self).written() == Seq::<u8>::empty(),
            final(self).spec_capacity() == old(self).spec_capacity(),
    {
        proof {
            assert(self.data@.subrange(0, 0) =~= Seq::<u8>::empty());
        }
        self.len = 0;
    }
}

impl<'a> Write for Buf<'a> {
    /// The bytes written so far: the prefix of the backing slice.
    closed spec fn written(&self) -> Seq<u8> {
        self.data@.subrange(0, self.len as int)
    }

    /// Text that still fits.
    open spec fn accepts(&self, bytes: Seq<u8>) -> bool {
        valid_utf8(bytes) && self.written().len() + bytes.len() <= self.spec_capacity()
    }

    /// Append text; invalid UTF-8 is refused, and so is text that does not
    /// fit (both leave the buffer unchanged).
    fn write_bytes(&mut self, bytes: &[u8]) -> (r: Result<(), Error>)
        ensures
            final(self).spec_capacity() == old(self).spec_capacity(),
    {
        proof {
            use_type_invariant(&*self);
        }
        if utf8_str(bytes).is_none() {
            return Err(Error::invalid("invalid utf-8"));
        }
        let cap = self.data.len();
        let end = match self.len.checked_add(bytes.len()) {
            Some(e) => e,
            None => {
                return Err(Error::buffer_overflow());
            },
        };
        if end > cap {
            return Err(Error::buffer_overflow());
        }
        let ghost before = self.data@.subrange(0, self.len as int);
        let ghost old_data = self.data@;
        let start = self.len;
        let n = bytes.len();
        // Hold the buffer empty while the tail is filled in, so that it is
        // text at every step.
        self.len = 0;
        let mut k: usize = 0;
        while k < n
            invariant
                self.len == 0,
                n == bytes@.len(),
                end == start + n,
                end <= self.data@.len(),
                self.data@.len() == old_data.len(),
                k <= n,
                forall|j: int| 0 <= j < start ==> self.data@[j] == old_data[j],
                forall|j: int| 0 <= j < k ==> self.data@[start + j] == bytes@[j],
            decreases n - k,
        {
            self.data[start + k] = bytes[k];
            k = k + 1;
        }
        proof {
            let d = self.data@;
            assert(d.subrange(0, start as int) =~= before);
            assert(d.subrange(start as int, end as int) =~= bytes@);
            assert(d.subrange(0, end as int) =~= d.subrange(0, start as int) + d.subrange(start as int, end as int));
            vstd::utf8::valid_utf8_concat(before, bytes@);
        }
        self.len = end;
        Ok(())
    }
}

/// Emit `value` right-justified to at least `width` digits with zero
/// padding.
pub fn write_padded<W: Write>(out: &mut W, value: u64, width: usize) -> (r: Result<(), Error>)
    ensures
        r is Ok <==> old(out).accepts(dec_padded(value as nat, width as int)),
        r is Ok ==> final(out).written() == old(out).written() + dec_padded(value as nat, width as int),
        r is Err ==> final(out).written() == old(out).written(),
{
    let mut bytes: Vec<u8> = Vec::new();
    crate::format::write_padded(&mut bytes, value, width);
    proof {
        assert(bytes@ =~= dec_padded(value as nat, width as int));
    }
    out.write_bytes(bytes.as_slice())
}

/// Emit an unsigned 128-bit value with no padding.
pub fn write_u128<W: Write>(out: &mut W, value: u128) -> (r: Result<(), Error>)
    ensures
        r is Ok <==> old(out).accepts(dec_digits(value as nat)),
        r is Ok ==> final(out).written() == old(out).written() + dec_digits(value as nat),
        r is Err ==> final(out).written() == old(out).written(),
{
    let mut bytes: Vec<u8> = Vec::new();
    crate::text::push_dec(&mut bytes, value);
    proof {
        assert(bytes@ =~= dec_digits(value as nat));
    }
    out.write_bytes(bytes.as_slice())
}

/// Emit a signed 128-bit value with no padding, `-` first when negative.
pub fn write_signed_i128<W: Write>(out: &mut W, value: i128) -> (r: Result<(), Error>)
    ensures
        r is Ok <==> old(out).accepts(signed_text(value as int)),
        r is Ok ==> final(out).written() == old(out).written() + signed_text(value as int),
        r is Err ==> final(out).written() == old(out).written(),
{
    let mut bytes: Vec<u8> = Vec::new();
    crate::format::write_signed_i128(&mut bytes, value);
    proof {
        assert(bytes@ =~= signed_text(value as int));
    }
    out.write_bytes(bytes.as_slice())
}

} // verus!
