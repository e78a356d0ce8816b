use crate::binary_reader::{cstr_at, decoded, fits, i32_at, BinaryReader, Parsed};
use crate::endian::Endian;
use crate::error::DecodeError;
use vstd::prelude::*;

verus! {

/// A dependency of a serialized file on another file.
#[derive(Clone, Debug)]
pub struct Reference {
    pub path: String,
    pub guid: Option<Vec<u8>>,
    pub type_: Option<i32>,
    pub file_path: String,
}

/// A `Reference` as plain values.
pub ghost struct ReferenceModel {
    pub path: Seq<char>,
    pub guid: Option<Seq<u8>>,
    pub type_: Option<i32>,
    pub file_path: Seq<char>,
}

impl DeepView for Reference {
    type V = ReferenceModel;

    open spec fn deep_view(&self) -> ReferenceModel {
        ReferenceModel {
            path: self.path@,
            guid: match self.guid {
                Some(g) => Some(g@),
                None => None,
            },
            type_: self.type_,
            file_path: self.file_path@,
        }
    }
}

/// The path of the reference at `p`: a string from format 6 on, empty and
/// without any bytes before.
pub open spec fn reference_path_at(s: Seq<u8>, p: int, format: u32) -> Parsed<Seq<char>> {
    if format >= 6 {
        cstr_at(s, p)
    } else {
        Ok((Seq::empty(), p))
    }
}

/// The reference at `p`: the path, from format 5 on a GUID of 16 bytes and
/// a type of 32 bits, and the file path.
pub open spec fn reference_at(s: Seq<u8>, p: int, e: Endian, format: u32) -> Parsed<
    ReferenceModel,
> {
    match reference_path_at(s, p, format) {
        Err(err) => Err(err),
        Ok((path, a)) => if format >= 5 && !fits(s, a, 20) {
            Err(DecodeError::Truncated)
        } else {
            let b = if format >= 5 {
                a + 20
            } else {
                a
            };
            match cstr_at(s, b) {
                Err(err) => Err(err),
                Ok((file_path, c)) => Ok(
                    (
                        ReferenceModel {
                            path,
                            guid: if format >= 5 {
                                Some(s.subrange(a, a + 16))
                            } else {
                                None
                            },
                            type_: if format >= 5 {
                                Some(i32_at(s, a + 16, e))
                            } else {
                                None
                            },
                            file_path,
                        },
                        c,
                    ),
                ),
            }
        },
    }
}

impl Reference {
    pub fn new(path: String, guid: Option<Vec<u8>>, type_: Option<i32>, file_path: String) -> (r:
        Reference)
        ensures
            r.path == path,
            r.guid == guid,
            r.type_ == type_,
            r.file_path == file_path,
    {
        Reference { path, guid, type_, file_path }
    }

    /// Reads one reference.
    pub fn read(reader: &mut BinaryReader, format: u32) -> (r: Result<Reference, DecodeError>)
        ensures
            decoded(
                *old(reader),
                *final(reader),
                r,
                reference_at(old(reader).bytes(), old(reader).position(), old(reader).order(), format),
            ),
    {
        let path = if format >= 6 {
            reader.cstr()?
        } else {
            String::new()
        };
        let guid = if format >= 5 {
            Some(reader.read(16)?)
        } else {
            None
        };
        let type_ = if format >= 5 {
            Some(reader.int32()?)
        } else {
            None
        };
        let file_path = reader.cstr()?;
        Ok(Reference::new(path, guid, type_, file_path))
    }
}

/// Which fields a reference holds depends on the format alone: a GUID of
/// 16 bytes and a type from format 5 on, and a path that is not empty from
/// format 6 on only.
pub proof fn lemma_reference_shape(s: Seq<u8>, p: int, e: Endian, format: u32)
    requires
        reference_at(s, p, e, format) is Ok,
    ensures
        ({
            let r = reference_at(s, p, e, format)->Ok_0.0;
            &&& r.guid is Some <==> format >= 5
            &&& r.type_ is Some <==> format >= 5
            &&& r.guid matches Some(g) ==> g.len() == 16
            &&& format < 6 ==> r.path.len() == 0
        }),
{
}

} // verus!
