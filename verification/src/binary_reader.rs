use crate::endian::Endian;
use crate::error::DecodeError;
use vstd::prelude::*;
use vstd::slice::{slice_subrange, slice_to_vec};
use vstd::utf8::{decode_utf8, valid_utf8};

verus! {

/// What decoding at a position yields: the value together with the position
/// just behind it, or the error that decoding stops with.
pub type Parsed<T> = Result<(T, int), DecodeError>;

/// `n` bytes are available at `pos`.
pub open spec fn fits(bytes: Seq<u8>, pos: int, n: int) -> bool {
    0 <= pos && 0 <= n && pos + n <= bytes.len()
}

/// The value of the two bytes at `p`, the high byte first.
pub open spec fn be16(s: Seq<u8>, p: int) -> int {
    s[p] as int * 0x100 + s[p + 1] as int
}

/// The value of the four bytes at `p`, the highest byte first.
pub open spec fn be32(s: Seq<u8>, p: int) -> int {
    be16(s, p) * 0x1_0000 + be16(s, p + 2)
}

/// The value of the eight bytes at `p`, the highest byte first.
pub open spec fn be64(s: Seq<u8>, p: int) -> int {
    be32(s, p) * 0x1_0000_0000 + be32(s, p + 4)
}

/// The value of the two bytes at `p`, the low byte first.
pub open spec fn le16(s: Seq<u8>, p: int) -> int {
    s[p] as int + s[p + 1] as int * 0x100
}

/// The value of the four bytes at `p`, the lowest byte first.
pub open spec fn le32(s: Seq<u8>, p: int) -> int {
    le16(s, p) + le16(s, p + 2) * 0x1_0000
}

/// The value of the eight bytes at `p`, the lowest byte first.
pub open spec fn le64(s: Seq<u8>, p: int) -> int {
    le32(s, p) + le32(s, p + 4) * 0x1_0000_0000
}

/// The two's complement reading of an unsigned value below `modulus`.
pub open spec fn signed(v: int, modulus: int) -> int {
    if 2 * v >= modulus {
        v - modulus
    } else {
        v
    }
}

/// The byte at `p`.
pub open spec fn u8_at(s: Seq<u8>, p: int) -> u8 {
    s[p]
}

/// The unsigned 16-bit value at `p` in the byte order `e`.
pub open spec fn u16_at(s: Seq<u8>, p: int, e: Endian) -> u16 {
    match e {
        Endian::Big => be16(s, p) as u16,
        Endian::Little => le16(s, p) as u16,
    }
}

/// The unsigned 32-bit value at `p` in the byte order `e`.
pub open spec fn u32_at(s: Seq<u8>, p: int, e: Endian) -> u32 {
    match e {
        Endian::Big => be32(s, p) as u32,
        Endian::Little => le32(s, p) as u32,
    }
}

/// The unsigned 64-bit value at `p` in the byte order `e`.
pub open spec fn u64_at(s: Seq<u8>, p: int, e: Endian) -> u64 {
    match e {
        Endian::Big => be64(s, p) as u64,
        Endian::Little => le64(s, p) as u64,
    }
}

/// The signed 16-bit value at `p` in the byte order `e`.
pub open spec fn i16_at(s: Seq<u8>, p: int, e: Endian) -> i16 {
    signed(u16_at(s, p, e) as int, 0x1_0000) as i16
}

/// The signed 32-bit value at `p` in the byte order `e`.
pub open spec fn i32_at(s: Seq<u8>, p: int, e: Endian) -> i32 {
    signed(u32_at(s, p, e) as int, 0x1_0000_0000) as i32
}

/// The signed 64-bit value at `p` in the byte order `e`.
pub open spec fn i64_at(s: Seq<u8>, p: int, e: Endian) -> i64 {
    signed(u64_at(s, p, e) as int, 0x1_0000_0000_0000_0000) as i64
}

/// The truth value at `p`: any nonzero byte is `true`.
pub open spec fn bool_at(s: Seq<u8>, p: int) -> bool {
    s[p] != 0
}

/// The number of bytes from `p` up to the first zero byte or the end.
pub open spec fn cstr_len(s: Seq<u8>, p: int) -> nat
    decreases s.len() - p,
{
    if 0 <= p < s.len() && s[p] != 0 {
        1 + cstr_len(s, p + 1)
    } else {
        0
    }
}

/// The bytes of the null-terminated string at `p`, without the terminator.
pub open spec fn cstr_bytes(s: Seq<u8>, p: int) -> Seq<u8> {
    if 0 <= p < s.len() {
        s.subrange(p, p + cstr_len(s, p))
    } else {
        Seq::empty()
    }
}

/// The position behind the null-terminated string at `p`: behind its
/// terminator, or the end where the data ends first.
pub open spec fn cstr_next(s: Seq<u8>, p: int) -> int {
    let end = p + cstr_len(s, p);
    if 0 <= end < s.len() {
        end + 1
    } else {
        end
    }
}

/// The null-terminated string at `p` as text.
pub open spec fn cstr_at(s: Seq<u8>, p: int) -> Parsed<Seq<char>> {
    if valid_utf8(cstr_bytes(s, p)) {
        Ok((decode_utf8(cstr_bytes(s, p)), cstr_next(s, p)))
    } else {
        Err(DecodeError::InvalidText)
    }
}

/// The first multiple of `val` that is not below `pos`.
pub open spec fn align_up(pos: int, val: int) -> int {
    if pos % val == 0 {
        pos
    } else {
        pos + (val - pos % val)
    }
}

/// `n` items decoded one behind the other from `pos` on, where `item` says
/// what decoding one item at a position yields. The first item that fails
/// ends the decoding with its error.
pub open spec fn repeat_at<T>(item: spec_fn(int) -> Parsed<T>, pos: int, n: nat) -> Parsed<Seq<T>>
    decreases n,
{
    if n == 0 {
        Ok((Seq::empty(), pos))
    } else {
        match repeat_at(item, pos, (n - 1) as nat) {
            Ok((items, p)) => match item(p) {
                Ok((x, q)) => Ok((items.push(x), q)),
                Err(e) => Err(e),
            },
            Err(e) => Err(e),
        }
    }
}

/// Once decoding `i` items has failed, decoding more fails in the same way.
pub proof fn lemma_repeat_stops<T>(item: spec_fn(int) -> Parsed<T>, pos: int, i: nat, n: nat)
    requires
        i <= n,
        repeat_at(item, pos, i) is Err,
    ensures
        repeat_at(item, pos, n) is Err,
        repeat_at(item, pos, n)->Err_0 == repeat_at(item, pos, i)->Err_0,
    decreases n - i,
{
    if i < n {
        lemma_repeat_stops(item, pos, i, (n - 1) as nat);
    }
}

/// One more item decoded behind `i` decoded items.
pub proof fn lemma_repeat_next<T>(
    item: spec_fn(int) -> Parsed<T>,
    pos: int,
    i: nat,
    items: Seq<T>,
    p: int,
    x: T,
    q: int,
)
    requires
        repeat_at(item, pos, i) == Ok::<(Seq<T>, int), DecodeError>((items, p)),
        item(p) == Ok::<(T, int), DecodeError>((x, q)),
    ensures
        repeat_at(item, pos, i + 1) == Ok::<(Seq<T>, int), DecodeError>((items.push(x), q)),
{
}

/// An item that fails behind `i` decoded items fails the decoding of any
/// greater number of items.
pub proof fn lemma_repeat_fails<T>(
    item: spec_fn(int) -> Parsed<T>,
    pos: int,
    i: nat,
    n: nat,
    items: Seq<T>,
    p: int,
    e: DecodeError,
)
    requires
        i < n,
        repeat_at(item, pos, i) == Ok::<(Seq<T>, int), DecodeError>((items, p)),
        item(p) == Err::<(T, int), DecodeError>(e),
    ensures
        repeat_at(item, pos, n) == Err::<(Seq<T>, int), DecodeError>(e),
{
    assert(repeat_at(item, pos, i + 1) == Err::<(Seq<T>, int), DecodeError>(e));
    lemma_repeat_stops(item, pos, i + 1, n);
}

/// Decoding `n` items gives `n` items.
pub proof fn lemma_repeat_len<T>(item: spec_fn(int) -> Parsed<T>, pos: int, n: nat)
    ensures
        repeat_at(item, pos, n) matches Ok((items, _)) ==> items.len() == n,
    decreases n,
{
    if n > 0 {
        lemma_repeat_len(item, pos, (n - 1) as nat);
    }
}

/// A count of 32 bits at `p` and that many items behind it.
pub open spec fn counted_at<T>(item: spec_fn(int) -> Parsed<T>, s: Seq<u8>, p: int, e: Endian) -> Parsed<
    Seq<T>,
> {
    if !fits(s, p, 4) {
        Err(DecodeError::Truncated)
    } else {
        repeat_at(item, p + 4, u32_at(s, p, e) as nat)
    }
}

/// `align_up` gives the next multiple: a multiple of `val` that is not
/// below `pos` and less than `val` above it.
pub proof fn lemma_align_up(pos: int, val: int)
    requires
        0 <= pos,
        0 < val,
    ensures
        align_up(pos, val) % val == 0,
        pos <= align_up(pos, val) < pos + val,
{
    let r = pos % val;
    if r != 0 {
        assert((pos + (val - r)) % val == 0) by (nonlinear_arith)
            requires
                0 <= pos,
                0 < val,
                r == pos % val,
        ;
    }
}

/// `cstr_len` is the distance to the first zero byte or to the end.
pub proof fn lemma_cstr_len(s: Seq<u8>, p: int, end: int)
    requires
        0 <= p <= end <= s.len(),
        forall|j: int| p <= j < end ==> s[j] != 0,
        end == s.len() || s[end] == 0,
    ensures
        cstr_len(s, p) == end - p,
    decreases end - p,
{
    if p < end {
        lemma_cstr_len(s, p + 1, end);
    }
}

/// The error of `String::from_utf8`. Nothing is read from it.
#[verifier::external_type_specification]
#[verifier::external_body]
pub struct ExFromUtf8Error(std::string::FromUtf8Error);

/// `String::from_utf8` succeeds exactly on well-formed UTF-8, and the string
/// then holds the characters that the bytes encode.
pub assume_specification[ String::from_utf8 ](vec: Vec<u8>) -> (r: Result<
    String,
    std::string::FromUtf8Error,
>)
    ensures
        r is Ok <==> valid_utf8(vec@),
        r matches Ok(s) ==> s@ == decode_utf8(vec@),
;

pub(crate) fn be_u16(d: &[u8], p: usize) -> (r: u16)
    requires
        p + 2 <= d.len(),
    ensures
        r == be16(d@, p as int),
{
    (d[p] as u16) * 0x100 + (d[p + 1] as u16)
}

pub(crate) fn be_u32(d: &[u8], p: usize) -> (r: u32)
    requires
        p + 4 <= d.len(),
    ensures
        r == be32(d@, p as int),
{
    (be_u16(d, p) as u32) * 0x1_0000 + (be_u16(d, p + 2) as u32)
}

pub(crate) fn be_u64(d: &[u8], p: usize) -> (r: u64)
    requires
        p + 8 <= d.len(),
    ensures
        r == be64(d@, p as int),
{
    (be_u32(d, p) as u64) * 0x1_0000_0000 + (be_u32(d, p + 4) as u64)
}

pub(crate) fn le_u16(d: &[u8], p: usize) -> (r: u16)
    requires
        p + 2 <= d.len(),
    ensures
        r == le16(d@, p as int),
{
    (d[p] as u16) + (d[p + 1] as u16) * 0x100
}

pub(crate) fn le_u32(d: &[u8], p: usize) -> (r: u32)
    requires
        p + 4 <= d.len(),
    ensures
        r == le32(d@, p as int),
{
    (le_u16(d, p) as u32) + (le_u16(d, p + 2) as u32) * 0x1_0000
}

pub(crate) fn le_u64(d: &[u8], p: usize) -> (r: u64)
    requires
        p + 8 <= d.len(),
    ensures
        r == le64(d@, p as int),
{
    (le_u32(d, p) as u64) + (le_u32(d, p + 4) as u64) * 0x1_0000_0000
}

pub(crate) fn to_i16(v: u16) -> (r: i16)
    ensures
        r == signed(v as int, 0x1_0000),
{
    if v >= 0x8000 {
        ((v - 0x8000) as i16) + i16::MIN
    } else {
        v as i16
    }
}

pub(crate) fn to_i32(v: u32) -> (r: i32)
    ensures
        r == signed(v as int, 0x1_0000_0000),
{
    if v >= 0x8000_0000 {
        ((v - 0x8000_0000) as i32) + i32::MIN
    } else {
        v as i32
    }
}

pub(crate) fn to_i64(v: u64) -> (r: i64)
    ensures
        r == signed(v as int, 0x1_0000_0000_0000_0000),
{
    if v >= 0x8000_0000_0000_0000 {
        ((v - 0x8000_0000_0000_0000) as i64) + i64::MIN
    } else {
        v as i64
    }
}

/// A seekable source of bytes held in memory: the bytes and a cursor.
pub struct ByteCursor<'a> {
    data: &'a [u8],
    pos: usize,
}

impl<'a> ByteCursor<'a> {
    /// The cursor never stands behind the end of the bytes.
    #[verifier::type_invariant]
    spec fn in_bounds(self) -> bool {
        self.pos <= self.data@.len()
    }

    /// All bytes of the source.
    pub closed spec fn bytes(&self) -> Seq<u8> {
        self.data@
    }

    /// The cursor: the offset of the next byte to be read.
    pub closed spec fn position(&self) -> int {
        self.pos as int
    }

    /// A cursor at the start of `data`.
    pub fn new(data: &'a [u8]) -> (r: Self)
        ensures
            r.bytes() == data@,
            r.position() == 0,
    {
        ByteCursor { data, pos: 0 }
    }

    /// The cursor's offset from the start.
    pub fn pos(&self) -> (r: usize)
        ensures
            r == self.position(),
            r <= self.bytes().len(),
    {
        proof {
            use_type_invariant(self);
        }
        self.pos
    }

    /// The number of bytes of the source.
    pub fn len(&self) -> (r: usize)
        ensures
            r == self.bytes().len(),
    {
        self.data.len()
    }

    /// Moves the cursor to `target`, which may be the end but nothing behind it.
    pub fn seek(&mut self, target: u64) -> (r: Result<(), DecodeError>)
        ensures
            final(self).bytes() == old(self).bytes(),
            target <= old(self).bytes().len() ==> r is Ok && final(self).position() == target,
            target > old(self).bytes().len() ==> r == Err::<(), DecodeError>(DecodeError::Truncated)
                && final(self).position() == old(self).position(),
    {
        if target > self.data.len() as u64 {
            return Err(DecodeError::Truncated);
        }
        self.pos = target as usize;
        Ok(())
    }

    /// Hands out the next `n` bytes and moves the cursor behind them.
    pub fn take(&mut self, n: usize) -> (r: Result<&'a [u8], DecodeError>)
        ensures
            final(self).bytes() == old(self).bytes(),
            match r {
                Ok(s) => {
                    &&& fits(old(self).bytes(), old(self).position(), n as int)
                    &&& s@ == old(self).bytes().subrange(
                        old(self).position(),
                        old(self).position() + n,
                    )
                    &&& final(self).position() == old(self).position() + n
                },
                Err(e) => {
                    &&& !fits(old(self).bytes(), old(self).position(), n as int)
                    &&& e == DecodeError::Truncated
                    &&& final(self).position() == old(self).position()
                },
            },
    {
        proof {
            use_type_invariant(&*self);
        }
        if n > self.data.len() - self.pos {
            return Err(DecodeError::Truncated);
        }
        let s = slice_subrange(self.data, self.pos, self.pos + n);
        self.pos = self.pos + n;
        Ok(s)
    }

    /// The bytes of the null-terminated string at the cursor, without the
    /// terminator; the cursor moves behind the terminator, or to the end
    /// where the data ends first.
    pub fn take_cstr(&mut self) -> (r: &'a [u8])
        ensures
            final(self).bytes() == old(self).bytes(),
            r@ == cstr_bytes(old(self).bytes(), old(self).position()),
            final(self).position() == cstr_next(old(self).bytes(), old(self).position()),
    {
        proof {
            use_type_invariant(&*self);
        }
        let len = self.data.len();
        let start = self.pos;
        let mut end = start;
        while end < len && self.data[end] != 0
            invariant
                start <= end <= len,
                len == self.data@.len(),
                forall|j: int| start <= j < end ==> self.data@[j] != 0,
            decreases len - end,
        {
            end = end + 1;
        }
        proof {
            lemma_cstr_len(self.data@, start as int, end as int);
        }
        let s = slice_subrange(self.data, start, end);
        self.pos = if end < len {
            end + 1
        } else {
            end
        };
        s
    }
}

/// An endian-aware reader of scalars, strings and raw bytes over a
/// `ByteCursor`. The byte order can be changed between any two reads.
pub struct BinaryReader<'a> {
    io: ByteCursor<'a>,
    endian: Endian,
}

/// The outcome `r` of a fixed-width read of `n` bytes that is to give
/// `value`: the value and a cursor moved by `n` where `n` bytes were left,
/// else `Truncated` and an unmoved cursor.
pub open spec fn reads<T>(
    pre: BinaryReader,
    post: BinaryReader,
    r: Result<T, DecodeError>,
    n: int,
    value: T,
) -> bool {
    &&& post.bytes() == pre.bytes()
    &&& post.order() == pre.order()
    &&& if fits(pre.bytes(), pre.position(), n) {
        r == Ok::<T, DecodeError>(value) && post.position() == pre.position() + n
    } else {
        r == Err::<T, DecodeError>(DecodeError::Truncated) && post.position() == pre.position()
    }
}

/// The outcome `r` of a read that is to give `want`: on success a value whose
/// model is the wanted one and the cursor behind it, else the wanted error.
/// Bytes and byte order stay as they were either way.
pub open spec fn decoded<T: DeepView>(
    pre: BinaryReader,
    post: BinaryReader,
    r: Result<T, DecodeError>,
    want: Parsed<T::V>,
) -> bool {
    &&& post.bytes() == pre.bytes()
    &&& post.order() == pre.order()
    &&& match want {
        Ok((v, p)) => r is Ok && r->Ok_0.deep_view() == v && post.position() == p,
        Err(e) => r == Err::<T, DecodeError>(e),
    }
}

impl<'a> BinaryReader<'a> {
    /// All bytes of the underlying source.
    pub closed spec fn bytes(&self) -> Seq<u8> {
        self.io.bytes()
    }

    /// The cursor of the underlying source.
    pub closed spec fn position(&self) -> int {
        self.io.position()
    }

    /// The byte order in which integers are read at present.
    pub closed spec fn order(&self) -> Endian {
        self.endian
    }

    /// The underlying source.
    pub closed spec fn source(&self) -> ByteCursor<'a> {
        self.io
    }

    /// A reader at the start of `io` that reads in the byte order `endian`.
    pub fn new(io: &'a [u8], endian: Endian) -> (r: Self)
        ensures
            r.bytes() == io@,
            r.position() == 0,
            r.order() == endian,
    {
        BinaryReader { io: ByteCursor::new(io), endian }
    }

    /// The underlying source, to move its cursor or to read from it directly.
    pub fn as_mut_ref(&mut self) -> (r: &mut ByteCursor<'a>)
        ensures
            *r == old(self).source(),
            final(self).source() == *final(r),
            final(self).order() == old(self).order(),
    {
        &mut self.io
    }

    /// Changes the byte order for the reads that follow.
    pub fn set_endian(&mut self, endian: Endian)
        ensures
            final(self).order() == endian,
            final(self).bytes() == old(self).bytes(),
            final(self).position() == old(self).position(),
    {
        self.endian = endian;
    }

    /// The number of bytes of the underlying source.
    pub fn len(&self) -> (r: usize)
        ensures
            r == self.bytes().len(),
    {
        self.io.len()
    }

    /// The next byte.
    pub fn uint8(&mut self) -> (r: Result<u8, DecodeError>)
        ensures
            reads(*old(self), *final(self), r, 1, u8_at(old(self).bytes(), old(self).position())),
    {
        proof {
            use_type_invariant(&self.io);
        }
        if self.io.pos >= self.io.data.len() {
            return Err(DecodeError::Truncated);
        }
        let v = self.io.data[self.io.pos];
        self.io.pos = self.io.pos + 1;
        Ok(v)
    }

    /// The next two bytes as an unsigned value.
    pub fn uint16(&mut self) -> (r: Result<u16, DecodeError>)
        ensures
            reads(
                *old(self),
                *final(self),
                r,
                2,
                u16_at(old(self).bytes(), old(self).position(), old(self).order()),
            ),
    {
        proof {
            use_type_invariant(&self.io);
        }
        let len = self.io.data.len();
        if len - self.io.pos < 2 {
            return Err(DecodeError::Truncated);
        }
        let v = match self.endian {
            Endian::Big => be_u16(self.io.data, self.io.pos),
            Endian::Little => le_u16(self.io.data, self.io.pos),
        };
        self.io.pos = self.io.pos + 2;
        Ok(v)
    }

    /// The next four bytes as an unsigned value.
    pub fn uint32(&mut self) -> (r: Result<u32, DecodeError>)
        ensures
            reads(
                *old(self),
                *final(self),
                r,
                4,
                u32_at(old(self).bytes(), old(self).position(), old(self).order()),
            ),
    {
        proof {
            use_type_invariant(&self.io);
        }
        let len = self.io.data.len();
        if len - self.io.pos < 4 {
            return Err(DecodeError::Truncated);
        }
        let v = match self.endian {
            Endian::Big => be_u32(self.io.data, self.io.pos),
            Endian::Little => le_u32(self.io.data, self.io.pos),
        };
        self.io.pos = self.io.pos + 4;
        Ok(v)
    }

    /// The next eight bytes as an unsigned value.
    pub fn uint64(&mut self) -> (r: Result<u64, DecodeError>)
        ensures
            reads(
                *old(self),
                *final(self),
                r,
                8,
                u64_at(old(self).bytes(), old(self).position(), old(self).order()),
            ),
    {
        proof {
            use_type_invariant(&self.io);
        }
        let len = self.io.data.len();
        if len - self.io.pos < 8 {
            return Err(DecodeError::Truncated);
        }
        let v = match self.endian {
            Endian::Big => be_u64(self.io.data, self.io.pos),
            Endian::Little => le_u64(self.io.data, self.io.pos),
        };
        self.io.pos = self.io.pos + 8;
        Ok(v)
    }

    /// The next two bytes as a signed value.
    pub fn int16(&mut self) -> (r: Result<i16, DecodeError>)
        ensures
            reads(
                *old(self),
                *final(self),
                r,
                2,
                i16_at(old(self).bytes(), old(self).position(), old(self).order()),
            ),
    {
        match self.uint16() {
            Ok(v) => Ok(to_i16(v)),
            Err(e) => Err(e),
        }
    }

    /// The next four bytes as a signed value.
    pub fn int32(&mut self) -> (r: Result<i32, DecodeError>)
        ensures
            reads(
                *old(self),
                *final(self),
                r,
                4,
                i32_at(old(self).bytes(), old(self).position(), old(self).order()),
            ),
    {
        match self.uint32() {
            Ok(v) => Ok(to_i32(v)),
            Err(e) => Err(e),
        }
    }

    /// The next eight bytes as a signed value.
    pub fn int64(&mut self) -> (r: Result<i64, DecodeError>)
        ensures
            reads(
                *old(self),
                *final(self),
                r,
                8,
                i64_at(old(self).bytes(), old(self).position(), old(self).order()),
            ),
    {
        match self.uint64() {
            Ok(v) => Ok(to_i64(v)),
            Err(e) => Err(e),
        }
    }

    /// One byte as a truth value: any nonzero byte is `true`.
    pub fn boolean(&mut self) -> (r: Result<bool, DecodeError>)
        ensures
            reads(*old(self), *final(self), r, 1, bool_at(old(self).bytes(), old(self).position())),
    {
        match self.uint8() {
            Ok(v) => Ok(v != 0),
            Err(e) => Err(e),
        }
    }

    /// The bytes of the null-terminated string at the cursor, without the
    /// terminator and without any check of their encoding.
    pub fn cstr_raw(&mut self) -> (r: &'a [u8])
        ensures
            final(self).bytes() == old(self).bytes(),
            final(self).order() == old(self).order(),
            r@ == cstr_bytes(old(self).bytes(), old(self).position()),
            final(self).position() == cstr_next(old(self).bytes(), old(self).position()),
    {
        self.io.take_cstr()
    }

    /// The null-terminated string at the cursor. The end of the data ends the
    /// string as a terminator does. Where the bytes are not valid UTF-8 the
    /// cursor stays where it was.
    pub fn cstr(&mut self) -> (r: Result<String, DecodeError>)
        ensures
            decoded(*old(self), *final(self), r, cstr_at(old(self).bytes(), old(self).position())),
            r is Err ==> final(self).position() == old(self).position(),
    {
        let start = self.io.pos;
        let raw = self.io.take_cstr();
        match String::from_utf8(slice_to_vec(raw)) {
            Ok(s) => Ok(s),
            Err(_) => {
                self.io.pos = start;
                Err(DecodeError::InvalidText)
            },
        }
    }

    /// Moves the cursor to the absolute offset `target`, which may be the
    /// end of the data but nothing behind it.
    pub fn seek(&mut self, target: u64) -> (r: Result<(), DecodeError>)
        ensures
            final(self).bytes() == old(self).bytes(),
            final(self).order() == old(self).order(),
            target <= old(self).bytes().len() ==> r is Ok && final(self).position() == target,
            target > old(self).bytes().len() ==> r == Err::<(), DecodeError>(DecodeError::Truncated)
                && final(self).position() == old(self).position(),
    {
        self.io.seek(target)
    }

    /// The cursor's offset from the start.
    pub fn pos(&self) -> (r: u64)
        ensures
            r == self.position(),
            r <= self.bytes().len(),
    {
        proof {
            use_type_invariant(&self.io);
        }
        self.io.pos as u64
    }

    /// The null-terminated string at the absolute offset `idx`; the cursor
    /// is the same after the call as before it.
    pub fn indexed_cstr(&mut self, idx: u64) -> (r: Result<String, DecodeError>)
        ensures
            final(self).bytes() == old(self).bytes(),
            final(self).order() == old(self).order(),
            final(self).position() == old(self).position(),
            r == Err::<String, DecodeError>(DecodeError::Truncated) <== idx > old(self).bytes().len(),
            idx <= old(self).bytes().len() ==> match cstr_at(old(self).bytes(), idx as int) {
                Ok((s, _)) => r is Ok && r->Ok_0@ == s,
                Err(e) => r == Err::<String, DecodeError>(e),
            },
    {
        proof {
            use_type_invariant(&self.io);
        }
        let saved = self.io.pos;
        if idx > self.io.data.len() as u64 {
            return Err(DecodeError::Truncated);
        }
        self.io.pos = idx as usize;
        let r = self.cstr();
        self.io.pos = saved;
        r
    }

    /// The `n` bytes at the absolute offset `idx`; the cursor is the same
    /// after the call as before it.
    pub fn indexed_read(&mut self, idx: u64, n: usize) -> (r: Result<&'a [u8], DecodeError>)
        ensures
            final(self).bytes() == old(self).bytes(),
            final(self).order() == old(self).order(),
            final(self).position() == old(self).position(),
            fits(old(self).bytes(), idx as int, n as int) ==> r is Ok && r->Ok_0@ == old(
                self,
            ).bytes().subrange(idx as int, idx + n),
            !fits(old(self).bytes(), idx as int, n as int) ==> r == Err::<&[u8], DecodeError>(
                DecodeError::Truncated,
            ),
    {
        proof {
            use_type_invariant(&self.io);
        }
        let saved = self.io.pos;
        if idx > self.io.data.len() as u64 {
            return Err(DecodeError::Truncated);
        }
        self.io.pos = idx as usize;
        let r = self.io.take(n);
        self.io.pos = saved;
        r
    }

    /// Moves the cursor by `val` bytes, forward or backward, within the data.
    pub fn skip(&mut self, val: i64) -> (r: Result<(), DecodeError>)
        ensures
            final(self).bytes() == old(self).bytes(),
            final(self).order() == old(self).order(),
            fits(old(self).bytes(), old(self).position() + val, 0) ==> r is Ok
                && final(self).position() == old(self).position() + val,
            !fits(old(self).bytes(), old(self).position() + val, 0) ==> r == Err::<
                (),
                DecodeError,
            >(DecodeError::Truncated) && final(self).position() == old(self).position(),
    {
        proof {
            use_type_invariant(&self.io);
        }
        let len = self.io.data.len();
        let pos = self.io.pos;
        if val >= 0 {
            if ((len - pos) as u64) < (val as u64) {
                return Err(DecodeError::Truncated);
            }
            self.io.pos = pos + (val as usize);
        } else {
            let back: u64 = if val == i64::MIN {
                0x8000_0000_0000_0000
            } else {
                (-val) as u64
            };
            if (pos as u64) < back {
                return Err(DecodeError::Truncated);
            }
            self.io.pos = pos - (back as usize);
        }
        Ok(())
    }

    /// Moves the cursor forward to the next multiple of `val`, if it is not
    /// on one already.
    pub fn align(&mut self, val: u64) -> (r: Result<(), DecodeError>)
        requires
            val > 0,
        ensures
            final(self).bytes() == old(self).bytes(),
            final(self).order() == old(self).order(),
            fits(old(self).bytes(), align_up(old(self).position(), val as int), 0) ==> r is Ok
                && final(self).position() == align_up(old(self).position(), val as int),
            !fits(old(self).bytes(), align_up(old(self).position(), val as int), 0) ==> r == Err::<
                (),
                DecodeError,
            >(DecodeError::Truncated) && final(self).position() == old(self).position(),
    {
        proof {
            use_type_invariant(&self.io);
        }
        let len = self.io.data.len();
        let pos = self.io.pos;
        let offset = (pos as u64) % val;
        if offset > 0 {
            let step = val - offset;
            if ((len - pos) as u64) < step {
                return Err(DecodeError::Truncated);
            }
            self.io.pos = pos + (step as usize);
        }
        Ok(())
    }

    /// The next `val` bytes.
    pub fn read(&mut self, val: usize) -> (r: Result<Vec<u8>, DecodeError>)
        ensures
            final(self).bytes() == old(self).bytes(),
            final(self).order() == old(self).order(),
            match r {
                Ok(v) => {
                    &&& fits(old(self).bytes(), old(self).position(), val as int)
                    &&& v@ == old(self).bytes().subrange(
                        old(self).position(),
                        old(self).position() + val,
                    )
                    &&& final(self).position() == old(self).position() + val
                },
                Err(e) => {
                    &&& !fits(old(self).bytes(), old(self).position(), val as int)
                    &&& e == DecodeError::Truncated
                    &&& final(self).position() == old(self).position()
                },
            },
    {
        match self.io.take(val) {
            Ok(s) => Ok(slice_to_vec(s)),
            Err(e) => Err(e),
        }
    }

    /// The next `val` bytes, borrowed from the source.
    pub fn take(&mut self, val: usize) -> (r: Result<&'a [u8], DecodeError>)
        ensures
            final(self).bytes() == old(self).bytes(),
            final(self).order() == old(self).order(),
            match r {
                Ok(v) => {
                    &&& fits(old(self).bytes(), old(self).position(), val as int)
                    &&& v@ == old(self).bytes().subrange(
                        old(self).position(),
                        old(self).position() + val,
                    )
                    &&& final(self).position() == old(self).position() + val
                },
                Err(e) => {
                    &&& !fits(old(self).bytes(), old(self).position(), val as int)
                    &&& e == DecodeError::Truncated
                    &&& final(self).position() == old(self).position()
                },
            },
    {
        self.io.take(val)
    }
}

} // verus!
