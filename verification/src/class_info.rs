use crate::binary_reader::{bool_at, decoded, fits, i16_at, i32_at, BinaryReader, Parsed};
use crate::digest::{hex_text, hex_upper};
use crate::endian::Endian;
use crate::error::DecodeError;
use crate::type_info::{nested, preorder, type_tree_at, well_nested, TypeInfo, TypeNode};
use vstd::prelude::*;

verus! {

/// An entry of a serialized file's type table.
#[derive(Debug)]
pub struct ClassInfo {
    pub class_id: i32,
    pub stripped: Option<bool>,
    pub script_id: Option<i16>,
    pub hash: Option<String>,
    pub types: Option<Vec<TypeInfo>>,
}

/// A `ClassInfo` as plain values. The type tree stands as its node array in
/// pre-order, which together with `ClassInfo::wf` fixes the forest.
pub ghost struct ClassModel {
    pub class_id: i32,
    pub stripped: Option<bool>,
    pub script_id: Option<i16>,
    pub hash: Option<Seq<char>>,
    pub types: Option<Seq<TypeNode>>,
}

impl DeepView for ClassInfo {
    type V = ClassModel;

    open spec fn deep_view(&self) -> ClassModel {
        ClassModel {
            class_id: self.class_id,
            stripped: self.stripped,
            script_id: self.script_id,
            hash: match self.hash {
                Some(h) => Some(h@),
                None => None,
            },
            types: match self.types {
                Some(forest) => Some(preorder(forest@)),
                None => None,
            },
        }
    }
}

/// The number of bytes of a class's hash digest.
pub open spec fn hash_len(format: u32, class_id: i32) -> int {
    if (format < 16 && class_id < 0) || (format >= 16 && class_id == 114) {
        32
    } else {
        16
    }
}

/// The number of bytes of an entry before its type tree: the class id, a
/// stripped flag from format 16 on, a script id from format 17 on, and the
/// hash digest from format 13 on.
pub open spec fn class_head_size(format: u32, class_id: i32) -> int {
    4 + (if format >= 16 {
        1int
    } else {
        0int
    }) + (if format >= 17 {
        2int
    } else {
        0int
    }) + (if format >= 13 {
        hash_len(format, class_id)
    } else {
        0int
    })
}

/// The entry at `p`, with a type tree behind its fields where the file has
/// type trees.
#[verifier::opaque]
pub open spec fn class_at(s: Seq<u8>, p: int, e: Endian, format: u32, has_type_tree: bool) -> Parsed<
    ClassModel,
> {
    if !fits(s, p, 4) {
        Err(DecodeError::Truncated)
    } else if !fits(s, p, class_head_size(format, i32_at(s, p, e))) {
        Err(DecodeError::Truncated)
    } else {
        let class_id = i32_at(s, p, e);
        let a = p + 4;
        let b = if format >= 16 {
            a + 1
        } else {
            a
        };
        let c = if format >= 17 {
            b + 2
        } else {
            b
        };
        let end = p + class_head_size(format, class_id);
        let stripped = if format >= 16 {
            Some(bool_at(s, a))
        } else {
            None
        };
        let script_id = if format >= 17 {
            Some(i16_at(s, b, e))
        } else {
            None
        };
        let hash = if format >= 13 {
            Some(hex_text(s.subrange(c, c + hash_len(format, class_id))))
        } else {
            None
        };
        if has_type_tree {
            match type_tree_at(s, end, e) {
                Ok((nodes, q)) => Ok(
                    (ClassModel { class_id, stripped, script_id, hash, types: Some(nodes) }, q),
                ),
                Err(err) => Err(err),
            }
        } else {
            Ok((ClassModel { class_id, stripped, script_id, hash, types: None }, end))
        }
    }
}

impl ClassInfo {
    /// The type tree, where there is one, is a forest whose roots have
    /// level 0 and whose other nodes lie one level below their parents.
    pub open spec fn wf(&self) -> bool {
        self.types matches Some(forest) ==> nested(forest@, 0)
    }

    /// Reads one entry of the type table.
    pub fn new(reader: &mut BinaryReader, format: u32, has_type_tree: bool) -> (r: Result<
        ClassInfo,
        DecodeError,
    >)
        ensures
            decoded(
                *old(reader),
                *final(reader),
                r,
                class_at(
                    old(reader).bytes(),
                    old(reader).position(),
                    old(reader).order(),
                    format,
                    has_type_tree,
                ),
            ),
            r matches Ok(class) ==> class.wf(),
    {
        reveal(class_at);
        let class_id = reader.int32()?;
        let stripped = if format >= 16 {
            Some(reader.boolean()?)
        } else {
            None
        };
        let script_id = if format >= 17 {
            Some(reader.int16()?)
        } else {
            None
        };
        let hash = if format >= 13 {
            let size: usize = if (format < 16 && class_id < 0) || (format >= 16 && class_id == 114) {
                32
            } else {
                16
            };
            let buf = reader.take(size)?;
            Some(hex_upper(buf))
        } else {
            None
        };
        let types = if has_type_tree {
            Some(TypeInfo::load(reader, format)?)
        } else {
            None
        };
        Ok(ClassInfo { class_id, stripped, script_id, hash, types })
    }
}

/// Which fields an entry holds depends on the format alone, but for the
/// type tree: the stripped flag from format 16 on, the script id from
/// format 17 on, the hash digest from format 13 on, with two characters for
/// each of its bytes. A type tree is there where the file has type trees,
/// and its node array is well nested.
pub proof fn lemma_class_shape(s: Seq<u8>, p: int, e: Endian, format: u32, has_type_tree: bool)
    requires
        class_at(s, p, e, format, has_type_tree) is Ok,
    ensures
        ({
            let c = class_at(s, p, e, format, has_type_tree)->Ok_0.0;
            &&& c.stripped is Some <==> format >= 16
            &&& c.script_id is Some <==> format >= 17
            &&& c.hash is Some <==> format >= 13
            &&& c.hash matches Some(h) ==> h.len() == 2 * hash_len(format, c.class_id)
            &&& c.types is Some <==> has_type_tree
            &&& c.types matches Some(nodes) ==> well_nested(nodes)
        }),
{
    reveal(class_at);
    reveal(type_tree_at);
}

} // verus!
