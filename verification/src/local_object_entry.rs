use crate::binary_reader::{align_up, decoded, fits, i32_at, i64_at, BinaryReader, Parsed};
use crate::endian::Endian;
use crate::error::DecodeError;
use vstd::prelude::*;

verus! {

/// A local identifier of a serialized file: a file index and an object id.
#[derive(Clone, Copy, Debug, PartialEq, Eq, Structural)]
pub struct LocalObjectEntry {
    pub file_id: i32,
    pub local_id: i64,
}

impl DeepView for LocalObjectEntry {
    type V = LocalObjectEntry;

    open spec fn deep_view(&self) -> LocalObjectEntry {
        *self
    }
}

/// Where an entry of an object table or of the local identifiers starts:
/// from format 14 on, at the next multiple of four.
pub open spec fn entry_start(p: int, format: u32) -> int {
    if format >= 14 {
        align_up(p, 4)
    } else {
        p
    }
}

/// The width of an object id: eight bytes where the file has wide ids, else four.
pub open spec fn id_width(wide: bool) -> int {
    if wide {
        8
    } else {
        4
    }
}

/// The object id at `p`: a 64-bit value where the file has wide ids, else a
/// 32-bit value with its sign extended.
pub open spec fn id_at(s: Seq<u8>, p: int, e: Endian, wide: bool) -> i64 {
    if wide {
        i64_at(s, p, e)
    } else {
        i32_at(s, p, e) as i64
    }
}

/// The local identifier at `p`: after the alignment, a file index of 32
/// bits and an object id.
pub open spec fn local_entry_at(s: Seq<u8>, p: int, e: Endian, format: u32, wide: bool) -> Parsed<
    LocalObjectEntry,
> {
    let start = entry_start(p, format);
    if !fits(s, start, 4 + id_width(wide)) {
        Err(DecodeError::Truncated)
    } else {
        Ok(
            (
                LocalObjectEntry {
                    file_id: i32_at(s, start, e),
                    local_id: id_at(s, start + 4, e, wide),
                },
                start + 4 + id_width(wide),
            ),
        )
    }
}

/// Reads an object id of the width that the file uses.
pub fn read_id(reader: &mut BinaryReader, wide: bool) -> (r: Result<i64, DecodeError>)
    ensures
        final(reader).bytes() == old(reader).bytes(),
        final(reader).order() == old(reader).order(),
        fits(old(reader).bytes(), old(reader).position(), id_width(wide)) ==> r == Ok::<
            i64,
            DecodeError,
        >(id_at(old(reader).bytes(), old(reader).position(), old(reader).order(), wide))
            && final(reader).position() == old(reader).position() + id_width(wide),
        !fits(old(reader).bytes(), old(reader).position(), id_width(wide)) ==> r == Err::<
            i64,
            DecodeError,
        >(DecodeError::Truncated),
{
    if wide {
        reader.int64()
    } else {
        match reader.int32() {
            Ok(v) => Ok(v as i64),
            Err(e) => Err(e),
        }
    }
}

impl LocalObjectEntry {
    pub fn new(file_id: i32, local_id: i64) -> (r: LocalObjectEntry)
        ensures
            r == (LocalObjectEntry { file_id, local_id }),
    {
        LocalObjectEntry { file_id, local_id }
    }

    /// Reads one local identifier.
    pub fn read(reader: &mut BinaryReader, format: u32, wide_path_id: bool) -> (r: Result<
        LocalObjectEntry,
        DecodeError,
    >)
        ensures
            decoded(
                *old(reader),
                *final(reader),
                r,
                local_entry_at(
                    old(reader).bytes(),
                    old(reader).position(),
                    old(reader).order(),
                    format,
                    wide_path_id,
                ),
            ),
    {
        if format >= 14 {
            reader.align(4)?;
        }
        let file_id = reader.int32()?;
        let local_id = read_id(reader, wide_path_id)?;
        Ok(LocalObjectEntry::new(file_id, local_id))
    }
}

} // verus!
