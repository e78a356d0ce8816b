use crate::binary_reader::{
    be16, be32, be64, be_u16, be_u32, be_u64, cstr_bytes, cstr_next, fits, signed, to_i16, to_i32,
    to_i64, ByteCursor,
};
use crate::error::DecodeError;
use vstd::prelude::*;
use vstd::slice::slice_to_vec;
use vstd::utf8::{decode_utf8, valid_utf8};

verus! {

/// The outcome `r` of a fixed-width read of `n` bytes at `before` that is to
/// give `value`: the value and a cursor moved by `n` to `after` where `n`
/// bytes were left, else `Truncated` and an unmoved cursor.
pub open spec fn drew<T>(
    bytes: Seq<u8>,
    before: int,
    after: int,
    r: Result<T, DecodeError>,
    n: int,
    value: T,
) -> bool {
    if fits(bytes, before, n) {
        r == Ok::<T, DecodeError>(value) && after == before + n
    } else {
        r == Err::<T, DecodeError>(DecodeError::Truncated) && after == before
    }
}

/// Big-endian reads of scalars and strings from a byte source with a cursor.
pub trait ReadPrimitive {
    /// All bytes of the source.
    spec fn source(&self) -> Seq<u8>;

    /// The cursor: the offset of the next byte to be read.
    spec fn offset(&self) -> int;

    /// The next two bytes as a signed value.
    fn int16(&mut self) -> (r: Result<i16, DecodeError>)
        ensures
            final(self).source() == old(self).source(),
            drew(
                old(self).source(),
                old(self).offset(),
                final(self).offset(),
                r,
                2,
                signed(be16(old(self).source(), old(self).offset()), 0x1_0000) as i16,
            ),
    ;

    /// The next four bytes as a signed value.
    fn int32(&mut self) -> (r: Result<i32, DecodeError>)
        ensures
            final(self).source() == old(self).source(),
            drew(
                old(self).source(),
                old(self).offset(),
                final(self).offset(),
                r,
                4,
                signed(be32(old(self).source(), old(self).offset()), 0x1_0000_0000) as i32,
            ),
    ;

    /// The next eight bytes as a signed value.
    fn int64(&mut self) -> (r: Result<i64, DecodeError>)
        ensures
            final(self).source() == old(self).source(),
            drew(
                old(self).source(),
                old(self).offset(),
                final(self).offset(),
                r,
                8,
                signed(
                    be64(old(self).source(), old(self).offset()),
                    0x1_0000_0000_0000_0000,
                ) as i64,
            ),
    ;

    /// The next two bytes as an unsigned value.
    fn uint16(&mut self) -> (r: Result<u16, DecodeError>)
        ensures
            final(self).source() == old(self).source(),
            drew(
                old(self).source(),
                old(self).offset(),
                final(self).offset(),
                r,
                2,
                be16(old(self).source(), old(self).offset()) as u16,
            ),
    ;

    /// The next four bytes as an unsigned value.
    fn uint32(&mut self) -> (r: Result<u32, DecodeError>)
        ensures
            final(self).source() == old(self).source(),
            drew(
                old(self).source(),
                old(self).offset(),
                final(self).offset(),
                r,
                4,
                be32(old(self).source(), old(self).offset()) as u32,
            ),
    ;

    /// The next eight bytes as an unsigned value.
    fn uint64(&mut self) -> (r: Result<u64, DecodeError>)
        ensures
            final(self).source() == old(self).source(),
            drew(
                old(self).source(),
                old(self).offset(),
                final(self).offset(),
                r,
                8,
                be64(old(self).source(), old(self).offset()) as u64,
            ),
    ;

    /// The null-terminated string at the cursor; the end of the source ends
    /// the string as a terminator does. The cursor moves behind the string
    /// also where its bytes are not valid UTF-8.
    fn cstr(&mut self) -> (r: Result<String, DecodeError>)
        ensures
            final(self).source() == old(self).source(),
            final(self).offset() == cstr_next(old(self).source(), old(self).offset()),
            valid_utf8(cstr_bytes(old(self).source(), old(self).offset())) ==> r is Ok && r->Ok_0@
                == decode_utf8(cstr_bytes(old(self).source(), old(self).offset())),
            !valid_utf8(cstr_bytes(old(self).source(), old(self).offset())) ==> r == Err::<
                String,
                DecodeError,
            >(DecodeError::InvalidText),
    ;
}

impl<'a> ReadPrimitive for ByteCursor<'a> {
    open spec fn source(&self) -> Seq<u8> {
        self.bytes()
    }

    open spec fn offset(&self) -> int {
        self.position()
    }

    fn int16(&mut self) -> (r: Result<i16, DecodeError>) {
        match self.uint16() {
            Ok(v) => Ok(to_i16(v)),
            Err(e) => Err(e),
        }
    }

    fn int32(&mut self) -> (r: Result<i32, DecodeError>) {
        match self.uint32() {
            Ok(v) => Ok(to_i32(v)),
            Err(e) => Err(e),
        }
    }

    fn int64(&mut self) -> (r: Result<i64, DecodeError>) {
        match self.uint64() {
            Ok(v) => Ok(to_i64(v)),
            Err(e) => Err(e),
        }
    }

    fn uint16(&mut self) -> (r: Result<u16, DecodeError>) {
        match self.take(2) {
            Ok(s) => Ok(be_u16(s, 0)),
            Err(e) => Err(e),
        }
    }

    fn uint32(&mut self) -> (r: Result<u32, DecodeError>) {
        match self.take(4) {
            Ok(s) => Ok(be_u32(s, 0)),
            Err(e) => Err(e),
        }
    }

    fn uint64(&mut self) -> (r: Result<u64, DecodeError>) {
        match self.take(8) {
            Ok(s) => Ok(be_u64(s, 0)),
            Err(e) => Err(e),
        }
    }

    fn cstr(&mut self) -> (r: Result<String, DecodeError>) {
        let raw = self.take_cstr();
        match String::from_utf8(slice_to_vec(raw)) {
            Ok(s) => Ok(s),
            Err(_) => Err(DecodeError::InvalidText),
        }
    }
}

} // verus!
