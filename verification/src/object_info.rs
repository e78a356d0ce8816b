use crate::binary_reader::{
    bool_at, decoded, fits, i16_at, i32_at, u32_at, u64_at, BinaryReader, Parsed,
};
use crate::endian::Endian;
use crate::error::DecodeError;
use crate::local_object_entry::{entry_start, id_at, id_width, read_id};
use vstd::prelude::*;

verus! {

/// An entry of a serialized file's object table.
#[derive(Clone, Debug)]
pub struct ObjectInfo {
    pub path_id: i64,
    pub offset: u64,
    pub size: u32,
    pub class_idx: Option<u32>,
    pub type_id: Option<i32>,
    pub class_id: Option<i16>,
    pub hash: Option<String>,
    pub destroyed: Option<bool>,
    pub stripped: Option<bool>,
}

/// An `ObjectInfo` as plain values.
pub ghost struct ObjectModel {
    pub path_id: i64,
    pub offset: u64,
    pub size: u32,
    pub class_idx: Option<u32>,
    pub type_id: Option<i32>,
    pub class_id: Option<i16>,
    pub hash: Option<Seq<char>>,
    pub destroyed: Option<bool>,
    pub stripped: Option<bool>,
}

impl DeepView for ObjectInfo {
    type V = ObjectModel;

    open spec fn deep_view(&self) -> ObjectModel {
        ObjectModel {
            path_id: self.path_id,
            offset: self.offset,
            size: self.size,
            class_idx: self.class_idx,
            type_id: self.type_id,
            class_id: self.class_id,
            hash: match self.hash {
                Some(h) => Some(h@),
                None => None,
            },
            destroyed: self.destroyed,
            stripped: self.stripped,
        }
    }
}

/// The width of an entry's offset in the layout from format 16 on: eight
/// bytes from format 22 on, else four.
pub open spec fn offset_width(format: u32) -> int {
    if format >= 22 {
        8
    } else {
        4
    }
}

/// The number of bytes that an entry takes behind its alignment.
pub open spec fn object_size(format: u32, wide: bool) -> int {
    if format >= 16 {
        id_width(wide) + offset_width(format) + 8 + if format == 16 {
            1int
        } else {
            0int
        }
    } else {
        id_width(wide) + 16 + if format == 15 {
            1int
        } else {
            0int
        }
    }
}

/// The entry at `p`. From format 16 on it holds the object id, the offset,
/// the size and the index into the class table, and in format 16 alone a
/// stripped flag. Before format 16 it holds the object id, offset and size
/// of 32 bits each, a type id, a class id and a 16-bit value that marks the
/// object as destroyed where it is 1, and in format 15 alone a stripped
/// flag. No content digest is part of the entry.
pub open spec fn object_at(s: Seq<u8>, p: int, e: Endian, format: u32, wide: bool) -> Parsed<
    ObjectModel,
> {
    let start = entry_start(p, format);
    let a = start + id_width(wide);
    if !fits(s, start, object_size(format, wide)) {
        Err(DecodeError::Truncated)
    } else if format >= 16 {
        let b = a + offset_width(format);
        Ok(
            (
                ObjectModel {
                    path_id: id_at(s, start, e, wide),
                    offset: if format >= 22 {
                        u64_at(s, a, e)
                    } else {
                        u32_at(s, a, e) as u64
                    },
                    size: u32_at(s, b, e),
                    class_idx: Some(u32_at(s, b + 4, e)),
                    type_id: None,
                    class_id: None,
                    hash: None,
                    destroyed: None,
                    stripped: if format == 16 {
                        Some(bool_at(s, b + 8))
                    } else {
                        None
                    },
                },
                start + object_size(format, wide),
            ),
        )
    } else {
        Ok(
            (
                ObjectModel {
                    path_id: id_at(s, start, e, wide),
                    offset: u32_at(s, a, e) as u64,
                    size: u32_at(s, a + 4, e),
                    class_idx: None,
                    type_id: Some(i32_at(s, a + 8, e)),
                    class_id: Some(i16_at(s, a + 12, e)),
                    hash: None,
                    destroyed: Some(i16_at(s, a + 14, e) == 1),
                    stripped: if format == 15 {
                        Some(bool_at(s, a + 16))
                    } else {
                        None
                    },
                },
                start + object_size(format, wide),
            ),
        )
    }
}

impl ObjectInfo {
    /// Reads one entry of the object table.
    pub fn new(reader: &mut BinaryReader, format: u32, wide_path_id: bool) -> (r: Result<
        ObjectInfo,
        DecodeError,
    >)
        ensures
            decoded(
                *old(reader),
                *final(reader),
                r,
                object_at(
                    old(reader).bytes(),
                    old(reader).position(),
                    old(reader).order(),
                    format,
                    wide_path_id,
                ),
            ),
    {
        if format >= 14 {
            reader.align(4)?;
        }
        let path_id = read_id(reader, wide_path_id)?;
        if format >= 16 {
            let offset = if format >= 22 {
                reader.uint64()?
            } else {
                reader.uint32()? as u64
            };
            let size = reader.uint32()?;
            let class_idx = reader.uint32()?;
            let stripped = if format == 16 {
                Some(reader.boolean()?)
            } else {
                None
            };
            Ok(
                ObjectInfo {
                    path_id,
                    offset,
                    size,
                    class_idx: Some(class_idx),
                    type_id: None,
                    class_id: None,
                    hash: None,
                    destroyed: None,
                    stripped,
                },
            )
        } else {
            let offset = reader.uint32()?;
            let size = reader.uint32()?;
            let type_id = reader.int32()?;
            let class_id = reader.int16()?;
            let destroyed = reader.int16()? == 1;
            let stripped = if format == 15 {
                Some(reader.boolean()?)
            } else {
                None
            };
            Ok(
                ObjectInfo {
                    path_id,
                    offset: offset as u64,
                    size,
                    class_idx: None,
                    type_id: Some(type_id),
                    class_id: Some(class_id),
                    hash: None,
                    destroyed: Some(destroyed),
                    stripped,
                },
            )
        }
    }
}

/// Which fields an entry holds depends on the format alone: the index into
/// the class table from format 16 on; type id, class id and the destroyed
/// mark before it; the stripped flag in formats 15 and 16. No entry comes
/// with a content digest.
pub proof fn lemma_object_shape(s: Seq<u8>, p: int, e: Endian, format: u32, wide: bool)
    requires
        object_at(s, p, e, format, wide) is Ok,
    ensures
        ({
            let o = object_at(s, p, e, format, wide)->Ok_0.0;
            &&& o.class_idx is Some <==> format >= 16
            &&& o.type_id is Some <==> format < 16
            &&& o.class_id is Some <==> format < 16
            &&& o.destroyed is Some <==> format < 16
            &&& o.stripped is Some <==> format == 15 || format == 16
            &&& o.hash is None
        }),
{
}

} // verus!
