use crate::binary_reader::{
    bool_at, counted_at, cstr_at, decoded, fits, i32_at, lemma_repeat_fails, lemma_repeat_next,
    repeat_at, u32_at, u64_at, BinaryReader, Parsed,
};
use crate::class_info::{class_at, ClassInfo, ClassModel};
use crate::digest::{blake3_digest, content_digest, hex_text};
use crate::endian::Endian;
use crate::error::DecodeError;
use crate::local_object_entry::{local_entry_at, LocalObjectEntry};
use crate::object_info::{object_at, ObjectInfo, ObjectModel};
use crate::reference::{reference_at, Reference, ReferenceModel};
use vstd::prelude::*;
use vstd::slice::slice_subrange;

verus! {

/// The head of a serialized file: what precedes its type table.
#[derive(Clone, Debug)]
pub struct FileHeader {
    pub meta_size: u64,
    pub file_size: u64,
    pub format: u32,
    pub data_offset: u64,
    pub endian: Endian,
    pub generator_version: String,
    pub target_platform: i32,
    pub has_type_trees: bool,
}

/// A `FileHeader` as plain values.
pub ghost struct HeaderModel {
    pub meta_size: u64,
    pub file_size: u64,
    pub format: u32,
    pub data_offset: u64,
    pub endian: Endian,
    pub generator_version: Seq<char>,
    pub target_platform: i32,
    pub has_type_trees: bool,
}

impl DeepView for FileHeader {
    type V = HeaderModel;

    open spec fn deep_view(&self) -> HeaderModel {
        HeaderModel {
            meta_size: self.meta_size,
            file_size: self.file_size,
            format: self.format,
            data_offset: self.data_offset,
            endian: self.endian,
            generator_version: self.generator_version@,
            target_platform: self.target_platform,
            has_type_trees: self.has_type_trees,
        }
    }
}

/// One serialized file of a bundle, decoded.
#[derive(Debug)]
pub struct Asset {
    pub name: String,
    pub meta_size: u64,
    pub file_size: u64,
    pub format: u32,
    pub data_offset: u64,
    pub endian: Endian,
    pub generator_version: String,
    pub target_platform: i32,
    pub has_type_trees: bool,
    pub with_path_id: bool,
    pub comment: String,
    pub status: u32,
    pub add_ids: Vec<LocalObjectEntry>,
    pub references: Vec<Reference>,
    pub classes: Vec<ClassInfo>,
    pub objects: Vec<ObjectInfo>,
}

/// An `Asset` as plain values.
pub ghost struct AssetModel {
    pub name: Seq<char>,
    pub meta_size: u64,
    pub file_size: u64,
    pub format: u32,
    pub data_offset: u64,
    pub endian: Endian,
    pub generator_version: Seq<char>,
    pub target_platform: i32,
    pub has_type_trees: bool,
    pub with_path_id: bool,
    pub comment: Seq<char>,
    pub status: u32,
    pub add_ids: Seq<LocalObjectEntry>,
    pub references: Seq<ReferenceModel>,
    pub classes: Seq<ClassModel>,
    pub objects: Seq<ObjectModel>,
}

impl DeepView for Asset {
    type V = AssetModel;

    open spec fn deep_view(&self) -> AssetModel {
        AssetModel {
            name: self.name@,
            meta_size: self.meta_size,
            file_size: self.file_size,
            format: self.format,
            data_offset: self.data_offset,
            endian: self.endian,
            generator_version: self.generator_version@,
            target_platform: self.target_platform,
            has_type_trees: self.has_type_trees,
            with_path_id: self.with_path_id,
            comment: self.comment@,
            status: self.status,
            add_ids: self.add_ids.deep_view(),
            references: self.references.deep_view(),
            classes: self.classes.deep_view(),
            objects: self.objects.deep_view(),
        }
    }
}

/// What follows the head of a serialized file, up to its comment.
pub ghost struct TablesModel {
    pub classes: Seq<ClassModel>,
    pub with_path_id: bool,
    pub objects: Seq<ObjectModel>,
    pub add_ids: Seq<LocalObjectEntry>,
    pub references: Seq<ReferenceModel>,
    pub comment: Seq<char>,
}

/// Where the endianness byte stands: behind the four leading fields from
/// format 9 on, and before that as many bytes before the end of the data as
/// the first of them, the size of the metadata, says.
pub open spec fn endian_flag_pos(s: Seq<u8>) -> int {
    if u32_at(s, 8, Endian::Big) >= 9 {
        16
    } else {
        s.len() - u32_at(s, 0, Endian::Big)
    }
}

/// The bytes that the endianness byte takes with its padding: from
/// format 9 on three bytes of padding follow it.
pub open spec fn endian_flag_room(format: u32) -> int {
    if format >= 9 {
        4
    } else {
        1
    }
}

/// The generator version at `p`: a string from format 7 on, empty and
/// without any bytes before.
pub open spec fn generator_version_at(s: Seq<u8>, p: int, format: u32) -> Parsed<Seq<char>> {
    if format >= 7 {
        cstr_at(s, p)
    } else {
        Ok((Seq::empty(), p))
    }
}

/// The head of a serialized file. Four big-endian fields of 32 bits lead:
/// the size of the metadata, the size of the file, the format and the offset
/// of the data. The endianness byte follows (see `endian_flag_pos`), and
/// decoding goes on behind it. From format 22 on the two sizes and the
/// offset stand there once more with 64 bits each, big-endian, and replace
/// the leading ones; eight reserved bytes follow them. Then come, in the
/// byte order that the endianness byte announces, the generator version
/// from format 7 on, the target platform from format 8 on (else -1) and the
/// flag for type trees from format 13 on (else true).
#[verifier::opaque]
pub open spec fn header_at(s: Seq<u8>) -> Parsed<HeaderModel> {
    let big = Endian::Big;
    let format = u32_at(s, 8, big);
    let flag = endian_flag_pos(s);
    let a = flag + endian_flag_room(format);
    let b = if format >= 22 {
        a + 32
    } else {
        a
    };
    if !fits(s, 0, 16) {
        Err(DecodeError::Truncated)
    } else if !fits(s, flag, endian_flag_room(format)) {
        Err(DecodeError::Truncated)
    } else if format >= 22 && !fits(s, a, 32) {
        Err(DecodeError::Truncated)
    } else {
        let endian = Endian::of_flag(s[flag]);
        match generator_version_at(s, b, format) {
            Err(err) => Err(err),
            Ok((generator_version, c)) => {
                let d = if format >= 8 {
                    c + 4
                } else {
                    c
                };
                if format >= 8 && !fits(s, c, 4) {
                    Err(DecodeError::Truncated)
                } else if format >= 13 && !fits(s, d, 1) {
                    Err(DecodeError::Truncated)
                } else {
                    Ok(
                        (
                            HeaderModel {
                                meta_size: if format >= 22 {
                                    u64_at(s, a, big)
                                } else {
                                    u32_at(s, 0, big) as u64
                                },
                                file_size: if format >= 22 {
                                    u64_at(s, a + 8, big)
                                } else {
                                    u32_at(s, 4, big) as u64
                                },
                                format,
                                data_offset: if format >= 22 {
                                    u64_at(s, a + 16, big)
                                } else {
                                    u32_at(s, 12, big) as u64
                                },
                                endian,
                                generator_version,
                                target_platform: if format >= 8 {
                                    i32_at(s, c, endian)
                                } else {
                                    -1i32
                                },
                                has_type_trees: if format >= 13 {
                                    bool_at(s, d)
                                } else {
                                    true
                                },
                            },
                            if format >= 13 {
                                d + 1
                            } else {
                                d
                            },
                        ),
                    )
                }
            },
        }
    }
}

/// A field that the format lacks holds its stand-in: an empty generator
/// version before format 7, the target platform -1 before format 8, and
/// type trees before format 13. Before format 22 the sizes and the offset
/// fit in 32 bits.
pub proof fn lemma_header_shape(s: Seq<u8>)
    requires
        header_at(s) is Ok,
    ensures
        ({
            let h = header_at(s)->Ok_0.0;
            &&& h.format < 7 ==> h.generator_version.len() == 0
            &&& h.format < 8 ==> h.target_platform == -1
            &&& h.format < 13 ==> h.has_type_trees
            &&& h.format < 22 ==> h.meta_size <= u32::MAX && h.file_size <= u32::MAX
                && h.data_offset <= u32::MAX
        }),
{
    reveal(header_at);
}

/// Decoding one entry of the type table, as a function of its position.
pub open spec fn class_item(s: Seq<u8>, e: Endian, format: u32, has_type_trees: bool) -> spec_fn(
    int,
) -> Parsed<ClassModel> {
    |p: int| class_at(s, p, e, format, has_type_trees)
}

/// Decoding one entry of the object table, as a function of its position.
pub open spec fn object_item(s: Seq<u8>, e: Endian, format: u32, wide: bool) -> spec_fn(
    int,
) -> Parsed<ObjectModel> {
    |p: int| object_at(s, p, e, format, wide)
}

/// Decoding one local identifier, as a function of its position.
pub open spec fn local_entry_item(s: Seq<u8>, e: Endian, format: u32, wide: bool) -> spec_fn(
    int,
) -> Parsed<LocalObjectEntry> {
    |p: int| local_entry_at(s, p, e, format, wide)
}

/// Decoding one reference, as a function of its position.
pub open spec fn reference_item(s: Seq<u8>, e: Endian, format: u32) -> spec_fn(int) -> Parsed<
    ReferenceModel,
> {
    |p: int| reference_at(s, p, e, format)
}

/// Whether the file has object ids of 64 bits: always from format 14 on;
/// from format 7 on a value of 32 bits at `p` says so where it is not zero;
/// never before format 7.
pub open spec fn wide_flag_at(s: Seq<u8>, p: int, e: Endian, format: u32) -> Parsed<bool> {
    if format >= 14 {
        Ok((true, p))
    } else if format >= 7 {
        if fits(s, p, 4) {
            Ok((i32_at(s, p, e) != 0, p + 4))
        } else {
            Err(DecodeError::Truncated)
        }
    } else {
        Ok((false, p))
    }
}

/// The local identifiers at `p`: a counted list from format 11 on, none and
/// no bytes before.
pub open spec fn local_entries_at(s: Seq<u8>, p: int, e: Endian, format: u32, wide: bool) -> Parsed<
    Seq<LocalObjectEntry>,
> {
    if format >= 11 {
        counted_at(local_entry_item(s, e, format, wide), s, p, e)
    } else {
        Ok((Seq::empty(), p))
    }
}

/// What follows the head of a serialized file: the type table, the flag for
/// wide object ids, the object table, the local identifiers, the references
/// and the comment.
#[verifier::opaque]
pub open spec fn tables_at(s: Seq<u8>, p: int, e: Endian, format: u32, has_type_trees: bool) -> Parsed<
    TablesModel,
> {
    match counted_at(class_item(s, e, format, has_type_trees), s, p, e) {
        Err(err) => Err(err),
        Ok((classes, a)) => match wide_flag_at(s, a, e, format) {
            Err(err) => Err(err),
            Ok((wide, b)) => match counted_at(object_item(s, e, format, wide), s, b, e) {
                Err(err) => Err(err),
                Ok((objects, c)) => match local_entries_at(s, c, e, format, wide) {
                    Err(err) => Err(err),
                    Ok((add_ids, d)) => match counted_at(reference_item(s, e, format), s, d, e) {
                        Err(err) => Err(err),
                        Ok((references, f)) => match cstr_at(s, f) {
                            Err(err) => Err(err),
                            Ok((comment, g)) => Ok(
                                (
                                    TablesModel {
                                        classes,
                                        with_path_id: wide,
                                        objects,
                                        add_ids,
                                        references,
                                        comment,
                                    },
                                    g,
                                ),
                            ),
                        },
                    },
                },
            },
        },
    }
}

/// The object with its content digest: the BLAKE3 hash, as upper-case
/// hexadecimal text, of the `size` bytes that stand at `offset` from `base`
/// in the file `s`. An object that does not lie within the file is out of
/// range.
pub open spec fn digested(o: ObjectModel, s: Seq<u8>, base: u64) -> Result<ObjectModel, DecodeError> {
    let start = base + o.offset;
    if start + o.size > s.len() {
        Err(DecodeError::OutOfRange)
    } else {
        Ok(
            ObjectModel {
                path_id: o.path_id,
                offset: o.offset,
                size: o.size,
                class_idx: o.class_idx,
                type_id: o.type_id,
                class_id: o.class_id,
                hash: Some(hex_text(blake3_digest(s.subrange(start, start + o.size)))),
                destroyed: o.destroyed,
                stripped: o.stripped,
            },
        )
    }
}

/// Giving the object with index `i` its digest, as a function of `i`.
pub open spec fn digest_item(objects: Seq<ObjectModel>, s: Seq<u8>, base: u64) -> spec_fn(
    int,
) -> Parsed<ObjectModel> {
    |i: int|
        match digested(objects[i], s, base) {
            Ok(o) => Ok((o, i + 1)),
            Err(e) => Err(e),
        }
}

/// All objects with their digests, in order; the first object that is out
/// of range fails them all.
pub open spec fn all_digested(objects: Seq<ObjectModel>, s: Seq<u8>, base: u64) -> Result<
    Seq<ObjectModel>,
    DecodeError,
> {
    match repeat_at(digest_item(objects, s, base), 0, objects.len()) {
        Ok((done, _)) => Ok(done),
        Err(e) => Err(e),
    }
}

/// The serialized file that the bytes `s` hold, under the name and status
/// that the bundle's directory gives it.
#[verifier::opaque]
pub open spec fn asset_at(name: Seq<char>, status: u32, s: Seq<u8>) -> Result<
    AssetModel,
    DecodeError,
> {
    match header_at(s) {
        Err(err) => Err(err),
        Ok((h, p)) => match tables_at(s, p, h.endian, h.format, h.has_type_trees) {
            Err(err) => Err(err),
            Ok((t, _)) => match all_digested(t.objects, s, h.data_offset) {
                Err(err) => Err(err),
                Ok(objects) => Ok(
                    AssetModel {
                        name,
                        meta_size: h.meta_size,
                        file_size: h.file_size,
                        format: h.format,
                        data_offset: h.data_offset,
                        endian: h.endian,
                        generator_version: h.generator_version,
                        target_platform: h.target_platform,
                        has_type_trees: h.has_type_trees,
                        with_path_id: t.with_path_id,
                        comment: t.comment,
                        status,
                        add_ids: t.add_ids,
                        references: t.references,
                        classes: t.classes,
                        objects,
                    },
                ),
            },
        },
    }
}

/// Reads the type table: a count and that many entries.
fn read_classes(reader: &mut BinaryReader, format: u32, has_type_trees: bool) -> (r: Result<Vec<ClassInfo>, DecodeError>)
    ensures
        decoded(
            *old(reader),
            *final(reader),
            r,
            counted_at(
                class_item(old(reader).bytes(), old(reader).order(), format, has_type_trees),
                old(reader).bytes(),
                old(reader).position(),
                old(reader).order(),
            ),
        ),
        r matches Ok(v) ==> forall|i: int| 0 <= i < v@.len() ==> (#[trigger] v@[i]).wf(),
{
    let ghost s = reader.bytes();
    let ghost e = reader.order();
    let ghost origin = reader.position();
    let ghost item = class_item(s, e, format, has_type_trees);
    let count = reader.uint32()?;
    let mut out: Vec<ClassInfo> = Vec::new();
    let mut i: u32 = 0;
    assert(out.deep_view() =~= Seq::<ClassModel>::empty());
    while i < count
        invariant
            i <= count,
            s == old(reader).bytes(),
            e == old(reader).order(),
            origin == old(reader).position(),
            fits(s, origin, 4),
            count == u32_at(s, origin, e),
            reader.bytes() == s,
            reader.order() == e,
            item == class_item(s, e, format, has_type_trees),
            repeat_at(item, origin + 4, i as nat) == Ok::<(Seq<ClassModel>, int), DecodeError>(
                (out.deep_view(), reader.position()),
            ),
            forall|j: int| 0 <= j < out@.len() ==> (#[trigger] out@[j]).wf(),
        decreases count - i,
    {
        let ghost p = reader.position();
        let ghost before = out.deep_view();
        assert(item(p) == class_at(s, p, e, format, has_type_trees));
        match ClassInfo::new(reader, format, has_type_trees) {
            Ok(x) => {
                let ghost m = x.deep_view();
                proof {
                    lemma_repeat_next(item, origin + 4, i as nat, before, p, m, reader.position());
                }
                out.push(x);
                assert(out.deep_view() =~= before.push(m));
            },
            Err(err) => {
                proof {
                    lemma_repeat_fails(item, origin + 4, i as nat, count as nat, before, p, err);
                }
                return Err(err);
            },
        }
        i = i + 1;
    }
    Ok(out)
}

/// Reads the object table: a count and that many entries.
fn read_objects(reader: &mut BinaryReader, format: u32, wide: bool) -> (r: Result<Vec<ObjectInfo>, DecodeError>)
    ensures
        decoded(
            *old(reader),
            *final(reader),
            r,
            counted_at(
                object_item(old(reader).bytes(), old(reader).order(), format, wide),
                old(reader).bytes(),
                old(reader).position(),
                old(reader).order(),
            ),
        ),
{
    let ghost s = reader.bytes();
    let ghost e = reader.order();
    let ghost origin = reader.position();
    let ghost item = object_item(s, e, format, wide);
    let count = reader.uint32()?;
    let mut out: Vec<ObjectInfo> = Vec::new();
    let mut i: u32 = 0;
    assert(out.deep_view() =~= Seq::<ObjectModel>::empty());
    while i < count
        invariant
            i <= count,
            s == old(reader).bytes(),
            e == old(reader).order(),
            origin == old(reader).position(),
            fits(s, origin, 4),
            count == u32_at(s, origin, e),
            reader.bytes() == s,
            reader.order() == e,
            item == object_item(s, e, format, wide),
            repeat_at(item, origin + 4, i as nat) == Ok::<(Seq<ObjectModel>, int), DecodeError>(
                (out.deep_view(), reader.position()),
            ),
        decreases count - i,
    {
        let ghost p = reader.position();
        let ghost before = out.deep_view();
        assert(item(p) == object_at(s, p, e, format, wide));
        match ObjectInfo::new(reader, format, wide) {
            Ok(x) => {
                let ghost m = x.deep_view();
                proof {
                    lemma_repeat_next(item, origin + 4, i as nat, before, p, m, reader.position());
                }
                out.push(x);
                assert(out.deep_view() =~= before.push(m));
            },
            Err(err) => {
                proof {
                    lemma_repeat_fails(item, origin + 4, i as nat, count as nat, before, p, err);
                }
                return Err(err);
            },
        }
        i = i + 1;
    }
    Ok(out)
}

/// Reads a count and that many local identifiers.
fn read_local_entries(reader: &mut BinaryReader, format: u32, wide: bool) -> (r: Result<Vec<LocalObjectEntry>, DecodeError>)
    ensures
        decoded(
            *old(reader),
            *final(reader),
            r,
            counted_at(
                local_entry_item(old(reader).bytes(), old(reader).order(), format, wide),
                old(reader).bytes(),
                old(reader).position(),
                old(reader).order(),
            ),
        ),
{
    let ghost s = reader.bytes();
    let ghost e = reader.order();
    let ghost origin = reader.position();
    let ghost item = local_entry_item(s, e, format, wide);
    let count = reader.uint32()?;
    let mut out: Vec<LocalObjectEntry> = Vec::new();
    let mut i: u32 = 0;
    assert(out.deep_view() =~= Seq::<LocalObjectEntry>::empty());
    while i < count
        invariant
            i <= count,
            s == old(reader).bytes(),
            e == old(reader).order(),
            origin == old(reader).position(),
            fits(s, origin, 4),
            count == u32_at(s, origin, e),
            reader.bytes() == s,
            reader.order() == e,
            item == local_entry_item(s, e, format, wide),
            repeat_at(item, origin + 4, i as nat) == Ok::<(Seq<LocalObjectEntry>, int), DecodeError>(
                (out.deep_view(), reader.position()),
            ),
        decreases count - i,
    {
        let ghost p = reader.position();
        let ghost before = out.deep_view();
        assert(item(p) == local_entry_at(s, p, e, format, wide));
        match LocalObjectEntry::read(reader, format, wide) {
            Ok(x) => {
                let ghost m = x.deep_view();
                proof {
                    lemma_repeat_next(item, origin + 4, i as nat, before, p, m, reader.position());
                }
                out.push(x);
                assert(out.deep_view() =~= before.push(m));
            },
            Err(err) => {
                proof {
                    lemma_repeat_fails(item, origin + 4, i as nat, count as nat, before, p, err);
                }
                return Err(err);
            },
        }
        i = i + 1;
    }
    Ok(out)
}

/// Reads the references: a count and that many entries.
fn read_references(reader: &mut BinaryReader, format: u32) -> (r: Result<Vec<Reference>, DecodeError>)
    ensures
        decoded(
            *old(reader),
            *final(reader),
            r,
            counted_at(
                reference_item(old(reader).bytes(), old(reader).order(), format),
                old(reader).bytes(),
                old(reader).position(),
                old(reader).order(),
            ),
        ),
{
    let ghost s = reader.bytes();
    let ghost e = reader.order();
    let ghost origin = reader.position();
    let ghost item = reference_item(s, e, format);
    let count = reader.uint32()?;
    let mut out: Vec<Reference> = Vec::new();
    let mut i: u32 = 0;
    assert(out.deep_view() =~= Seq::<ReferenceModel>::empty());
    while i < count
        invariant
            i <= count,
            s == old(reader).bytes(),
            e == old(reader).order(),
            origin == old(reader).position(),
            fits(s, origin, 4),
            count == u32_at(s, origin, e),
            reader.bytes() == s,
            reader.order() == e,
            item == reference_item(s, e, format),
            repeat_at(item, origin + 4, i as nat) == Ok::<(Seq<ReferenceModel>, int), DecodeError>(
                (out.deep_view(), reader.position()),
            ),
        decreases count - i,
    {
        let ghost p = reader.position();
        let ghost before = out.deep_view();
        assert(item(p) == reference_at(s, p, e, format));
        match Reference::read(reader, format) {
            Ok(x) => {
                let ghost m = x.deep_view();
                proof {
                    lemma_repeat_next(item, origin + 4, i as nat, before, p, m, reader.position());
                }
                out.push(x);
                assert(out.deep_view() =~= before.push(m));
            },
            Err(err) => {
                proof {
                    lemma_repeat_fails(item, origin + 4, i as nat, count as nat, before, p, err);
                }
                return Err(err);
            },
        }
        i = i + 1;
    }
    Ok(out)
}

/// Reads the flag for wide object ids.
fn read_wide_flag(reader: &mut BinaryReader, format: u32) -> (r: Result<bool, DecodeError>)
    ensures
        decoded(
            *old(reader),
            *final(reader),
            r,
            wide_flag_at(old(reader).bytes(), old(reader).position(), old(reader).order(), format),
        ),
{
    if format >= 14 {
        Ok(true)
    } else if format >= 7 {
        Ok(reader.int32()? != 0)
    } else {
        Ok(false)
    }
}

/// Gives every object its content digest, computed over the bytes of the
/// serialized file `data` that the object's offset and size select behind
/// `base`.
pub fn digest_objects(objects: &Vec<ObjectInfo>, data: &[u8], base: u64) -> (r: Result<
    Vec<ObjectInfo>,
    DecodeError,
>)
    ensures
        match all_digested(objects.deep_view(), data@, base) {
            Ok(done) => r is Ok && r->Ok_0.deep_view() == done,
            Err(e) => r == Err::<Vec<ObjectInfo>, DecodeError>(e),
        },
{
    let ghost item = digest_item(objects.deep_view(), data@, base);
    let len = data.len();
    let mut out: Vec<ObjectInfo> = Vec::new();
    let mut i: usize = 0;
    assert(out.deep_view() =~= Seq::<ObjectModel>::empty());
    while i < objects.len()
        invariant
            i <= objects@.len(),
            len == data@.len(),
            item == digest_item(objects.deep_view(), data@, base),
            repeat_at(item, 0, i as nat) == Ok::<(Seq<ObjectModel>, int), DecodeError>(
                (out.deep_view(), i as int),
            ),
        decreases objects@.len() - i,
    {
        let o = &objects[i];
        let ghost before = out.deep_view();
        assert(objects.deep_view()[i as int] == o.deep_view());
        assert(item(i as int) == match digested(o.deep_view(), data@, base) {
            Ok(m) => Ok::<(ObjectModel, int), DecodeError>((m, i + 1)),
            Err(e) => Err(e),
        });
        if base > len as u64 || o.offset > len as u64 - base || o.size as u64 > len as u64 - base
            - o.offset {
            proof {
                lemma_repeat_fails(
                    item,
                    0,
                    i as nat,
                    objects@.len(),
                    before,
                    i as int,
                    DecodeError::OutOfRange,
                );
            }
            return Err(DecodeError::OutOfRange);
        }
        let start = (base + o.offset) as usize;
        let bytes = slice_subrange(data, start, start + o.size as usize);
        let x = ObjectInfo {
            path_id: o.path_id,
            offset: o.offset,
            size: o.size,
            class_idx: o.class_idx,
            type_id: o.type_id,
            class_id: o.class_id,
            hash: Some(content_digest(bytes)),
            destroyed: o.destroyed,
            stripped: o.stripped,
        };
        let ghost m = x.deep_view();
        proof {
            lemma_repeat_next(item, 0, i as nat, before, i as int, m, i + 1);
        }
        out.push(x);
        assert(out.deep_view() =~= before.push(m));
        i = i + 1;
    }
    assert(objects.deep_view().len() == objects@.len());
    Ok(out)
}

impl FileHeader {
    /// Reads the head of the serialized file `data`. The reader that comes
    /// back stands behind the head and reads in the file's byte order.
    pub fn read<'a>(data: &'a [u8]) -> (r: Result<(FileHeader, BinaryReader<'a>), DecodeError>)
        ensures
            match header_at(data@) {
                Ok((h, p)) => {
                    &&& r is Ok
                    &&& r->Ok_0.0.deep_view() == h
                    &&& r->Ok_0.1.bytes() == data@
                    &&& r->Ok_0.1.position() == p
                    &&& r->Ok_0.1.order() == h.endian
                },
                Err(e) => r is Err && r->Err_0 == e,
            },
    {
        reveal(header_at);
        let mut reader = BinaryReader::new(data, Endian::Big);
        let meta32 = reader.uint32()?;
        let file32 = reader.uint32()?;
        let format = reader.uint32()?;
        let offset32 = reader.uint32()?;
        let flag = if format >= 9 {
            let flag = reader.uint8()?;
            reader.skip(3)?;
            flag
        } else {
            if meta32 as u64 > data.len() as u64 {
                return Err(DecodeError::Truncated);
            }
            reader.seek(data.len() as u64 - meta32 as u64)?;
            reader.uint8()?
        };
        let endian = Endian::from_flag(flag);
        let mut meta_size = meta32 as u64;
        let mut file_size = file32 as u64;
        let mut data_offset = offset32 as u64;
        if format >= 22 {
            meta_size = reader.uint64()?;
            file_size = reader.uint64()?;
            data_offset = reader.uint64()?;
            reader.skip(8)?;
        }
        reader.set_endian(endian);
        let generator_version = if format >= 7 {
            reader.cstr()?
        } else {
            String::new()
        };
        let target_platform = if format >= 8 {
            reader.int32()?
        } else {
            -1
        };
        let has_type_trees = if format >= 13 {
            reader.boolean()?
        } else {
            true
        };
        Ok(
            (
                FileHeader {
                    meta_size,
                    file_size,
                    format,
                    data_offset,
                    endian,
                    generator_version,
                    target_platform,
                    has_type_trees,
                },
                reader,
            ),
        )
    }
}

impl Asset {
    /// Every type tree of the file is a forest whose roots have level 0 and
    /// whose other nodes lie one level below their parents.
    pub open spec fn wf(&self) -> bool {
        forall|i: int| 0 <= i < self.classes@.len() ==> (#[trigger] self.classes@[i]).wf()
    }

    /// Decodes the serialized file that `data` holds, under the name and
    /// status that the bundle's directory gives it.
    pub fn read(name: &String, status: u32, data: &[u8]) -> (r: Result<Asset, DecodeError>)
        ensures
            match asset_at(name@, status, data@) {
                Ok(m) => r is Ok && r->Ok_0.deep_view() == m && r->Ok_0.wf(),
                Err(e) => r is Err && r->Err_0 == e,
            },
    {
        reveal(asset_at);
        reveal(tables_at);
        let (header, mut reader) = FileHeader::read(data)?;
        let format = header.format;
        let classes = read_classes(&mut reader, format, header.has_type_trees)?;
        let wide = read_wide_flag(&mut reader, format)?;
        let parsed = read_objects(&mut reader, format, wide)?;
        let add_ids = if format >= 11 {
            read_local_entries(&mut reader, format, wide)?
        } else {
            let none: Vec<LocalObjectEntry> = Vec::new();
            assert(none.deep_view() =~= Seq::<LocalObjectEntry>::empty());
            none
        };
        let references = read_references(&mut reader, format)?;
        let comment = reader.cstr()?;
        let objects = digest_objects(&parsed, data, header.data_offset)?;
        Ok(
            Asset {
                name: name.clone(),
                meta_size: header.meta_size,
                file_size: header.file_size,
                format,
                data_offset: header.data_offset,
                endian: header.endian,
                generator_version: header.generator_version,
                target_platform: header.target_platform,
                has_type_trees: header.has_type_trees,
                with_path_id: wide,
                comment,
                status,
                add_ids,
                references,
                classes,
                objects,
            },
        )
    }
}

} // verus!
