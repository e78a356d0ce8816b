use crate::asset::{endian_flag_pos, endian_flag_room, generator_version_at, header_at, HeaderModel};
use crate::binary_reader::{
    bool_at, cstr_bytes, cstr_next, fits, i32_at, lemma_cstr_len, u32_at, u64_at,
};
use crate::endian::Endian;
use crate::error::DecodeError;
use vstd::prelude::*;
use vstd::utf8::{decode_utf8, valid_utf8};

verus! {

/// The byte of `v` with index `k`, counted from the lowest.
pub open spec fn byte_of(v: int, k: nat) -> u8
    decreases k,
{
    if k == 0 {
        (v % 256) as u8
    } else {
        byte_of(v / 256, (k - 1) as nat)
    }
}

/// The four bytes of a 32-bit value in the byte order `e`.
pub open spec fn u32_bytes(v: u32, e: Endian) -> Seq<u8> {
    match e {
        Endian::Big => seq![
            byte_of(v as int, 3),
            byte_of(v as int, 2),
            byte_of(v as int, 1),
            byte_of(v as int, 0),
        ],
        Endian::Little => seq![
            byte_of(v as int, 0),
            byte_of(v as int, 1),
            byte_of(v as int, 2),
            byte_of(v as int, 3),
        ],
    }
}

/// The eight bytes of a 64-bit value in the byte order `e`.
pub open spec fn u64_bytes(v: u64, e: Endian) -> Seq<u8> {
    let high = (v as int / 0x1_0000_0000) as u32;
    let low = (v as int % 0x1_0000_0000) as u32;
    match e {
        Endian::Big => u32_bytes(high, e) + u32_bytes(low, e),
        Endian::Little => u32_bytes(low, e) + u32_bytes(high, e),
    }
}

/// The four bytes of a signed 32-bit value, in two's complement, in the
/// byte order `e`.
pub open spec fn i32_bytes(v: i32, e: Endian) -> Seq<u8> {
    if v < 0 {
        u32_bytes((v + 0x1_0000_0000) as u32, e)
    } else {
        u32_bytes(v as u32, e)
    }
}

/// A string's bytes followed by its terminator.
pub open spec fn cstr_encoding(text: Seq<u8>) -> Seq<u8> {
    text.push(0u8)
}

/// No byte of the text is zero.
pub open spec fn no_nul(text: Seq<u8>) -> bool {
    forall|i: int| 0 <= i < text.len() ==> #[trigger] text[i] != 0
}

/// The bytes of `piece` stand at `p` in `s`.
pub open spec fn holds_at(s: Seq<u8>, p: int, piece: Seq<u8>) -> bool {
    &&& fits(s, p, piece.len() as int)
    &&& s.subrange(p, p + piece.len()) == piece
}

/// A piece stands in a concatenation behind what precedes it.
pub proof fn lemma_holds_at(before: Seq<u8>, piece: Seq<u8>, after: Seq<u8>)
    ensures
        holds_at(before + piece + after, before.len() as int, piece),
{
    let s = before + piece + after;
    assert(s.subrange(before.len() as int, before.len() as int + piece.len()) =~= piece);
}

/// A 32-bit value that was written in a byte order is read back in it.
pub proof fn lemma_u32_round_trip(s: Seq<u8>, p: int, v: u32, e: Endian)
    requires
        holds_at(s, p, u32_bytes(v, e)),
    ensures
        u32_at(s, p, e) == v,
{
    reveal_with_fuel(byte_of, 4);
    let piece = s.subrange(p, p + 4);
    assert(piece.len() == 4);
    assert(s[p] == piece[0]);
    assert(s[p + 1] == piece[1]);
    assert(s[p + 2] == piece[2]);
    assert(s[p + 3] == piece[3]);
    let x = v as int;
    assert(x == (x / 256 / 256 / 256 % 256) * 0x100_0000 + (x / 256 / 256 % 256) * 0x1_0000 + (x / 256
        % 256) * 0x100 + x % 256) by {
        assert(x == 256 * (x / 256) + x % 256);
        assert(x / 256 == 256 * (x / 256 / 256) + x / 256 % 256);
        assert(x / 256 / 256 == 256 * (x / 256 / 256 / 256) + x / 256 / 256 % 256);
        assert(x / 256 / 256 / 256 < 256);
    }
}

/// A 64-bit value that was written in a byte order is read back in it.
pub proof fn lemma_u64_round_trip(s: Seq<u8>, p: int, v: u64, e: Endian)
    requires
        holds_at(s, p, u64_bytes(v, e)),
    ensures
        u64_at(s, p, e) == v,
{
    let high = (v as int / 0x1_0000_0000) as u32;
    let low = (v as int % 0x1_0000_0000) as u32;
    let piece = s.subrange(p, p + 8);
    assert(u64_bytes(v, e).len() == 8);
    match e {
        Endian::Big => {
            assert(s.subrange(p, p + 4) =~= piece.subrange(0, 4));
            assert(s.subrange(p + 4, p + 8) =~= piece.subrange(4, 8));
            assert(piece.subrange(0, 4) =~= u32_bytes(high, e));
            assert(piece.subrange(4, 8) =~= u32_bytes(low, e));
            lemma_u32_round_trip(s, p, high, e);
            lemma_u32_round_trip(s, p + 4, low, e);
        },
        Endian::Little => {
            assert(s.subrange(p, p + 4) =~= piece.subrange(0, 4));
            assert(s.subrange(p + 4, p + 8) =~= piece.subrange(4, 8));
            assert(piece.subrange(0, 4) =~= u32_bytes(low, e));
            assert(piece.subrange(4, 8) =~= u32_bytes(high, e));
            lemma_u32_round_trip(s, p, low, e);
            lemma_u32_round_trip(s, p + 4, high, e);
        },
    }
}

/// A signed 32-bit value that was written in a byte order is read back in it.
pub proof fn lemma_i32_round_trip(s: Seq<u8>, p: int, v: i32, e: Endian)
    requires
        holds_at(s, p, i32_bytes(v, e)),
    ensures
        i32_at(s, p, e) == v,
{
    if v < 0 {
        lemma_u32_round_trip(s, p, (v + 0x1_0000_0000) as u32, e);
    } else {
        lemma_u32_round_trip(s, p, v as u32, e);
    }
}

/// A string without a zero byte that was written with its terminator is
/// read back, and the position behind it is the one behind the terminator.
pub proof fn lemma_cstr_round_trip(s: Seq<u8>, p: int, text: Seq<u8>)
    requires
        holds_at(s, p, cstr_encoding(text)),
        no_nul(text),
    ensures
        cstr_bytes(s, p) == text,
        cstr_next(s, p) == p + text.len() + 1,
{
    let piece = s.subrange(p, p + text.len() + 1);
    let end = p + text.len();
    assert forall|j: int| p <= j < end implies s[j] != 0 by {
        assert(s[j] == piece[j - p]);
        assert(piece[j - p] == text[j - p]);
    }
    assert(s[end] == piece[text.len() as int]);
    lemma_cstr_len(s, p, end);
    assert(s.subrange(p, end) =~= text) by {
        assert forall|j: int| 0 <= j < text.len() implies s.subrange(p, end)[j] == text[j] by {
            assert(s[p + j] == piece[j]);
        }
    }
}

/// The low 32 bits of a 64-bit value.
pub open spec fn low32(v: u64) -> u32 {
    (v as int % 0x1_0000_0000) as u32
}

/// The endianness byte that announces `e`.
pub open spec fn flag_byte(e: Endian) -> u8 {
    match e {
        Endian::Big => 1u8,
        Endian::Little => 0u8,
    }
}

/// The byte that stands for a truth value.
pub open spec fn bool_byte(b: bool) -> u8 {
    if b {
        1u8
    } else {
        0u8
    }
}

/// The four leading fields of a serialized file's head. From format 22 on
/// the sizes and the offset stand here with their low 32 bits only.
#[verifier::opaque]
pub open spec fn header_lead(h: HeaderModel) -> Seq<u8> {
    u32_bytes(low32(h.meta_size), Endian::Big) + u32_bytes(low32(h.file_size), Endian::Big)
        + u32_bytes(h.format, Endian::Big) + u32_bytes(low32(h.data_offset), Endian::Big)
}

/// The sizes and the offset with 64 bits each and eight reserved bytes, as
/// they stand in a head from format 22 on; nothing before that.
#[verifier::opaque]
pub open spec fn header_wide(h: HeaderModel) -> Seq<u8> {
    if h.format >= 22 {
        u64_bytes(h.meta_size, Endian::Big) + u64_bytes(h.file_size, Endian::Big) + u64_bytes(
            h.data_offset,
            Endian::Big,
        ) + Seq::new(8, |i: int| 0u8)
    } else {
        Seq::empty()
    }
}

/// The fields of a head that depend on the format, each present from its
/// format on: the generator version, whose bytes are `text`, from format 7,
/// the target platform from format 8, and the flag for type trees from
/// format 13.
#[verifier::opaque]
pub open spec fn header_gated(h: HeaderModel, text: Seq<u8>) -> Seq<u8> {
    (if h.format >= 7 {
        cstr_encoding(text)
    } else {
        Seq::empty()
    }) + (if h.format >= 8 {
        i32_bytes(h.target_platform, h.endian)
    } else {
        Seq::empty()
    }) + (if h.format >= 13 {
        seq![bool_byte(h.has_type_trees)]
    } else {
        Seq::empty()
    })
}

/// A serialized file written with the head `h`. From format 9 on the
/// endianness byte and three bytes of padding follow the leading fields;
/// before that `body` follows them, and the endianness byte starts the
/// metadata at the end of the file. In both layouts `rest` is what follows
/// the head.
pub open spec fn header_bytes(h: HeaderModel, text: Seq<u8>, body: Seq<u8>, rest: Seq<u8>) -> Seq<
    u8,
> {
    header_lead(h) + (if h.format >= 9 {
        seq![flag_byte(h.endian), 0u8, 0u8, 0u8]
    } else {
        body + seq![flag_byte(h.endian)]
    }) + header_wide(h) + header_gated(h, text) + rest
}

/// The head `h` can be written: `text` is its generator version as UTF-8
/// without a zero byte; every field that its format lacks holds the value
/// that decoding gives in its place; before format 22 the sizes and the
/// offset fit in 32 bits; and before format 9 the size of the metadata is
/// the number of bytes from the endianness byte to the end of the file.
pub open spec fn header_written(h: HeaderModel, text: Seq<u8>, rest: Seq<u8>) -> bool {
    &&& valid_utf8(text)
    &&& decode_utf8(text) == h.generator_version
    &&& no_nul(text)
    &&& h.format < 7 ==> text.len() == 0
    &&& h.format < 8 ==> h.target_platform == -1
    &&& h.format < 13 ==> h.has_type_trees
    &&& h.format < 22 ==> h.meta_size <= u32::MAX && h.file_size <= u32::MAX && h.data_offset
        <= u32::MAX
    &&& h.format < 9 ==> h.meta_size == 1 + header_gated(h, text).len() + rest.len()
}

/// A part of a piece stands where the piece puts it.
pub proof fn lemma_holds_part(s: Seq<u8>, p: int, piece: Seq<u8>, q: int, part: Seq<u8>)
    requires
        holds_at(s, p, piece),
        holds_at(piece, q, part),
    ensures
        holds_at(s, p + q, part),
{
    assert(s.subrange(p + q, p + q + part.len()) =~= s.subrange(p, p + piece.len()).subrange(
        q,
        q + part.len(),
    ));
}

/// The leading fields are read back from where they were written.
proof fn lemma_lead_round_trip(s: Seq<u8>, h: HeaderModel)
    requires
        holds_at(s, 0, header_lead(h)),
    ensures
        header_lead(h).len() == 16,
        u32_at(s, 0, Endian::Big) == low32(h.meta_size),
        u32_at(s, 4, Endian::Big) == low32(h.file_size),
        u32_at(s, 8, Endian::Big) == h.format,
        u32_at(s, 12, Endian::Big) == low32(h.data_offset),
{
    reveal(header_lead);
    let big = Endian::Big;
    let lead = header_lead(h);
    let l0 = u32_bytes(low32(h.meta_size), big);
    let l1 = u32_bytes(low32(h.file_size), big);
    let l2 = u32_bytes(h.format, big);
    let l3 = u32_bytes(low32(h.data_offset), big);
    assert(lead =~= Seq::<u8>::empty() + l0 + (l1 + l2 + l3));
    lemma_holds_at(Seq::empty(), l0, l1 + l2 + l3);
    lemma_holds_part(s, 0, lead, 0, l0);
    lemma_u32_round_trip(s, 0, low32(h.meta_size), big);
    assert(lead =~= l0 + l1 + (l2 + l3));
    lemma_holds_at(l0, l1, l2 + l3);
    lemma_holds_part(s, 0, lead, 4, l1);
    lemma_u32_round_trip(s, 4, low32(h.file_size), big);
    assert(lead =~= (l0 + l1) + l2 + l3);
    lemma_holds_at(l0 + l1, l2, l3);
    lemma_holds_part(s, 0, lead, 8, l2);
    lemma_u32_round_trip(s, 8, h.format, big);
    assert(lead =~= (l0 + l1 + l2) + l3 + Seq::<u8>::empty());
    lemma_holds_at(l0 + l1 + l2, l3, Seq::empty());
    lemma_holds_part(s, 0, lead, 12, l3);
    lemma_u32_round_trip(s, 12, low32(h.data_offset), big);
}

/// The sizes and the offset of 64 bits are read back from where they were
/// written.
proof fn lemma_wide_round_trip(s: Seq<u8>, a: int, h: HeaderModel)
    requires
        h.format >= 22,
        holds_at(s, a, header_wide(h)),
    ensures
        fits(s, a, 32),
        header_wide(h).len() == 32,
        u64_at(s, a, Endian::Big) == h.meta_size,
        u64_at(s, a + 8, Endian::Big) == h.file_size,
        u64_at(s, a + 16, Endian::Big) == h.data_offset,
{
    reveal(header_wide);
    let big = Endian::Big;
    let wide = header_wide(h);
    let w0 = u64_bytes(h.meta_size, big);
    let w1 = u64_bytes(h.file_size, big);
    let w2 = u64_bytes(h.data_offset, big);
    let w3 = Seq::new(8, |i: int| 0u8);
    assert(w0.len() == 8 && w1.len() == 8 && w2.len() == 8);
    assert(wide =~= Seq::<u8>::empty() + w0 + (w1 + w2 + w3));
    lemma_holds_at(Seq::empty(), w0, w1 + w2 + w3);
    lemma_holds_part(s, a, wide, 0, w0);
    lemma_u64_round_trip(s, a, h.meta_size, big);
    assert(wide =~= w0 + w1 + (w2 + w3));
    lemma_holds_at(w0, w1, w2 + w3);
    lemma_holds_part(s, a, wide, 8, w1);
    lemma_u64_round_trip(s, a + 8, h.file_size, big);
    assert(wide =~= (w0 + w1) + w2 + w3);
    lemma_holds_at(w0 + w1, w2, w3);
    lemma_holds_part(s, a, wide, 16, w2);
    lemma_u64_round_trip(s, a + 16, h.data_offset, big);
}

/// The fields that depend on the format are read back from where they were
/// written.
proof fn lemma_gated_round_trip(s: Seq<u8>, b: int, h: HeaderModel, text: Seq<u8>)
    requires
        holds_at(s, b, header_gated(h, text)),
        valid_utf8(text),
        decode_utf8(text) == h.generator_version,
        no_nul(text),
        h.format < 7 ==> text.len() == 0,
    ensures
        generator_version_at(s, b, h.format) matches Ok((version, c)) && {
            let d = if h.format >= 8 {
                c + 4
            } else {
                c
            };
            &&& version == h.generator_version
            &&& h.format >= 8 ==> fits(s, c, 4) && i32_at(s, c, h.endian) == h.target_platform
            &&& h.format >= 13 ==> fits(s, d, 1) && bool_at(s, d) == h.has_type_trees
            &&& b + header_gated(h, text).len() == if h.format >= 13 {
                d + 1
            } else {
                d
            }
        },
{
    reveal(header_gated);
    let gated = header_gated(h, text);
    let g0 = if h.format >= 7 {
        cstr_encoding(text)
    } else {
        Seq::<u8>::empty()
    };
    let g1 = if h.format >= 8 {
        i32_bytes(h.target_platform, h.endian)
    } else {
        Seq::<u8>::empty()
    };
    let g2 = if h.format >= 13 {
        seq![bool_byte(h.has_type_trees)]
    } else {
        Seq::<u8>::empty()
    };
    assert(gated == g0 + g1 + g2);
    let c = b + g0.len();
    if h.format >= 7 {
        assert(gated =~= Seq::<u8>::empty() + g0 + (g1 + g2));
        lemma_holds_at(Seq::empty(), g0, g1 + g2);
        lemma_holds_part(s, b, gated, 0, g0);
        lemma_cstr_round_trip(s, b, text);
    } else {
        assert(text =~= Seq::<u8>::empty());
        assert(h.generator_version =~= Seq::<char>::empty());
    }
    if h.format >= 8 {
        assert(g1.len() == 4);
        assert(gated =~= g0 + g1 + g2);
        lemma_holds_at(g0, g1, g2);
        lemma_holds_part(s, b, gated, g0.len() as int, g1);
        lemma_i32_round_trip(s, c, h.target_platform, h.endian);
    }
    let d = c + g1.len();
    if h.format >= 13 {
        assert(gated =~= (g0 + g1) + g2 + Seq::<u8>::empty());
        lemma_holds_at(g0 + g1, g2, Seq::empty());
        lemma_holds_part(s, b, gated, (g0 + g1).len() as int, g2);
        assert(s[d] == s.subrange(d, d + 1)[0]);
    }
}

/// The endianness byte is read back as the byte order that it announces.
proof fn lemma_flag_round_trip(e: Endian)
    ensures
        Endian::of_flag(flag_byte(e)) == e,
{
}

/// A head whose every field is read back is decoded as a whole.
proof fn lemma_header_assembled(s: Seq<u8>, h: HeaderModel, b: int, end: int)
    requires
        fits(s, 0, 16),
        u32_at(s, 0, Endian::Big) == low32(h.meta_size),
        u32_at(s, 4, Endian::Big) == low32(h.file_size),
        u32_at(s, 8, Endian::Big) == h.format,
        u32_at(s, 12, Endian::Big) == low32(h.data_offset),
        h.format < 22 ==> h.meta_size <= u32::MAX && h.file_size <= u32::MAX && h.data_offset
            <= u32::MAX,
        fits(s, endian_flag_pos(s), endian_flag_room(h.format)),
        s[endian_flag_pos(s)] == flag_byte(h.endian),
        b == endian_flag_pos(s) + endian_flag_room(h.format) + if h.format >= 22 {
            32int
        } else {
            0int
        },
        h.format >= 22 ==> {
            let a = endian_flag_pos(s) + endian_flag_room(h.format);
            &&& fits(s, a, 32)
            &&& u64_at(s, a, Endian::Big) == h.meta_size
            &&& u64_at(s, a + 8, Endian::Big) == h.file_size
            &&& u64_at(s, a + 16, Endian::Big) == h.data_offset
        },
        generator_version_at(s, b, h.format) matches Ok((version, c)) && {
            let d = if h.format >= 8 {
                c + 4
            } else {
                c
            };
            &&& version == h.generator_version
            &&& h.format >= 8 ==> fits(s, c, 4) && i32_at(s, c, h.endian) == h.target_platform
            &&& h.format >= 13 ==> fits(s, d, 1) && bool_at(s, d) == h.has_type_trees
            &&& end == if h.format >= 13 {
                d + 1
            } else {
                d
            }
        },
        h.format < 8 ==> h.target_platform == -1,
        h.format < 13 ==> h.has_type_trees,
    ensures
        header_at(s) == Ok::<(HeaderModel, int), DecodeError>((h, end)),
{
    reveal(header_at);
    lemma_flag_round_trip(h.endian);
}

/// Whatever the format, decoding the head of a serialized file that was
/// written with the head `h` gives `h` back, field by field, and ends where
/// the head ends: which fields the bytes hold depends on the format alone.
pub proof fn lemma_header_round_trip(h: HeaderModel, text: Seq<u8>, body: Seq<u8>, rest: Seq<u8>)
    requires
        header_written(h, text, rest),
    ensures
        header_at(header_bytes(h, text, body, rest)) == Ok::<(HeaderModel, int), DecodeError>(
            (h, header_bytes(h, text, body, rest).len() - rest.len()),
        ),
{
    let s = header_bytes(h, text, body, rest);
    let lead = header_lead(h);
    let mid = if h.format >= 9 {
        seq![flag_byte(h.endian), 0u8, 0u8, 0u8]
    } else {
        body + seq![flag_byte(h.endian)]
    };
    let wide = header_wide(h);
    let gated = header_gated(h, text);
    assert(s =~= Seq::<u8>::empty() + lead + (mid + wide + gated + rest));
    lemma_holds_at(Seq::empty(), lead, mid + wide + gated + rest);
    lemma_lead_round_trip(s, h);
    assert(s =~= (lead + mid) + wide + (gated + rest));
    lemma_holds_at(lead + mid, wide, gated + rest);
    if h.format >= 22 {
        lemma_wide_round_trip(s, 16 + mid.len() as int, h);
    } else {
        assert(wide.len() == 0) by {
            reveal(header_wide);
        }
    }
    let flag = endian_flag_pos(s);
    assert(flag == 16 + mid.len() - endian_flag_room(h.format));
    assert(s[flag] == mid[mid.len() - endian_flag_room(h.format)]);
    let b: int = 16int + mid.len() + wide.len();
    assert(s =~= (lead + mid + wide) + gated + rest);
    lemma_holds_at(lead + mid + wide, gated, rest);
    lemma_gated_round_trip(s, b, h, text);
    lemma_header_assembled(s, h, b, s.len() - rest.len());
}

} // verus!
