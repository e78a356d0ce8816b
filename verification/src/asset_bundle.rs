use crate::asset::{asset_at, Asset, AssetModel};
use crate::binary_reader::{
    cstr_at, cstr_bytes, cstr_next, decoded, fits, i32_at, i64_at, lemma_repeat_fails,
    lemma_repeat_next, repeat_at, u16_at, u32_at, u64_at, BinaryReader, Parsed,
};
use crate::decompress::{chunk_decoded, codec_of, decompress_chunk};
use crate::endian::Endian;
use crate::error::DecodeError;
use vstd::prelude::*;
use vstd::slice::slice_subrange;
use vstd::string::StringExecFns;

verus! {

/// How one compressed chunk of a bundle's payload is stored.
#[derive(Clone, Copy, Debug, PartialEq, Eq, Structural)]
pub struct BlockDescriptor {
    pub decompressed_size: u32,
    pub compressed_size: u32,
    pub flags: u16,
}

impl DeepView for BlockDescriptor {
    type V = BlockDescriptor;

    open spec fn deep_view(&self) -> BlockDescriptor {
        *self
    }
}

/// Where one serialized file lies in the decompressed payload.
#[derive(Clone, Debug)]
pub struct DirectoryEntry {
    pub offset: u64,
    pub size: u64,
    pub status: u32,
    pub name: String,
}

/// A `DirectoryEntry` as plain values.
pub ghost struct EntryModel {
    pub offset: u64,
    pub size: u64,
    pub status: u32,
    pub name: Seq<char>,
}

impl DeepView for DirectoryEntry {
    type V = EntryModel;

    open spec fn deep_view(&self) -> EntryModel {
        EntryModel { offset: self.offset, size: self.size, status: self.status, name: self.name@ }
    }
}

/// What a bundle states of itself behind its signature.
#[derive(Clone, Debug)]
pub struct ContainerHeader {
    pub file_version: u32,
    pub lower_player_version: String,
    pub upper_player_version: String,
    pub total_file_size: i64,
    pub compressed_block_info_size: u32,
    pub decompressed_block_info_size: u32,
    pub flags: u32,
}

/// A `ContainerHeader` as plain values.
pub ghost struct ContainerModel {
    pub file_version: u32,
    pub lower_player_version: Seq<char>,
    pub upper_player_version: Seq<char>,
    pub total_file_size: i64,
    pub compressed_block_info_size: u32,
    pub decompressed_block_info_size: u32,
    pub flags: u32,
}

impl DeepView for ContainerHeader {
    type V = ContainerModel;

    open spec fn deep_view(&self) -> ContainerModel {
        ContainerModel {
            file_version: self.file_version,
            lower_player_version: self.lower_player_version@,
            upper_player_version: self.upper_player_version@,
            total_file_size: self.total_file_size,
            compressed_block_info_size: self.compressed_block_info_size,
            decompressed_block_info_size: self.decompressed_block_info_size,
            flags: self.flags,
        }
    }
}

/// A decoded bundle: its header and its serialized files in the order of
/// its directory.
#[derive(Debug)]
pub struct AssetBundle {
    pub signature: String,
    pub file_version: u32,
    pub lower_player_version: String,
    pub upper_player_version: String,
    pub total_file_size: i64,
    pub compressed_block_info_size: u32,
    pub decompressed_block_info_size: u32,
    pub flags: u32,
    pub assets: Vec<Asset>,
}

/// An `AssetBundle` as plain values.
pub ghost struct BundleModel {
    pub signature: Seq<char>,
    pub file_version: u32,
    pub lower_player_version: Seq<char>,
    pub upper_player_version: Seq<char>,
    pub total_file_size: i64,
    pub compressed_block_info_size: u32,
    pub decompressed_block_info_size: u32,
    pub flags: u32,
    pub assets: Seq<AssetModel>,
}

impl DeepView for AssetBundle {
    type V = BundleModel;

    open spec fn deep_view(&self) -> BundleModel {
        BundleModel {
            signature: self.signature@,
            file_version: self.file_version,
            lower_player_version: self.lower_player_version@,
            upper_player_version: self.upper_player_version@,
            total_file_size: self.total_file_size,
            compressed_block_info_size: self.compressed_block_info_size,
            decompressed_block_info_size: self.decompressed_block_info_size,
            flags: self.flags,
            assets: self.assets.deep_view(),
        }
    }
}

/// The seven bytes of the signature `UnityFS`.
pub open spec fn signature_bytes() -> Seq<u8> {
    seq![0x55u8, 0x6eu8, 0x69u8, 0x74u8, 0x79u8, 0x46u8, 0x53u8]
}

/// The header at `p` in the byte order `big`: the format version, the two
/// player versions, the size of the file, the compressed and the
/// decompressed size of the block info, and the flags.
#[verifier::opaque]
pub open spec fn envelope_at(s: Seq<u8>, p: int, big: Endian) -> Parsed<ContainerModel> {
    if !fits(s, p, 4) {
        Err(DecodeError::Truncated)
    } else {
        match cstr_at(s, p + 4) {
            Err(err) => Err(err),
            Ok((lower, a)) => match cstr_at(s, a) {
                Err(err) => Err(err),
                Ok((upper, b)) => if !fits(s, b, 20) {
                    Err(DecodeError::Truncated)
                } else {
                    Ok(
                        (
                            ContainerModel {
                                file_version: u32_at(s, p, big),
                                lower_player_version: lower,
                                upper_player_version: upper,
                                total_file_size: i64_at(s, b, big),
                                compressed_block_info_size: u32_at(s, b + 8, big),
                                decompressed_block_info_size: u32_at(s, b + 12, big),
                                flags: u32_at(s, b + 16, big),
                            },
                            b + 20,
                        ),
                    )
                },
            },
        }
    }
}

/// The number of bytes that are passed over between the header and a block
/// info that follows it: the bit of value 16 of the position behind the
/// header, from format 7 on.
pub open spec fn info_gap(p: int, version: u32) -> int {
    if version >= 7 {
        ((p as u64) & 16) as int
    } else {
        0
    }
}

/// The compressed block info of `size` bytes, and the position at which the
/// blocks start. With bit 0x80 of the flags set the block info is the last
/// `size` bytes of the file and the blocks start at `p`, behind the header.
/// Otherwise the block info stands behind the header and its gap, and the
/// blocks start behind the block info.
#[verifier::opaque]
pub open spec fn block_info_at(s: Seq<u8>, p: int, version: u32, size: u32, flags: u32) -> Parsed<
    Seq<u8>,
> {
    if flags & 0x80 != 0 {
        if size > s.len() {
            Err(DecodeError::Truncated)
        } else {
            Ok((s.subrange(s.len() - size, s.len() as int), p))
        }
    } else {
        let start = p + info_gap(p, version);
        if !fits(s, start, size as int) {
            Err(DecodeError::Truncated)
        } else {
            Ok((s.subrange(start, start + size), start + size))
        }
    }
}

/// The decompressed content of a chunk whose size is declared with 32 bits
/// without a sign. No codec yields more than `i32::MAX` bytes.
pub open spec fn block_decoded(src: Seq<u8>, size: u32, flags: u32) -> Result<Seq<u8>, DecodeError> {
    if size <= i32::MAX {
        chunk_decoded(src, size as i32, flags)
    } else if codec_of(flags) > 3 {
        Err(DecodeError::UnsupportedCodec)
    } else {
        Err(DecodeError::Decompression)
    }
}

/// The block descriptor at `p`: two sizes of 32 bits and flags of 16 bits,
/// in the byte order `e`.
pub open spec fn descriptor_at(s: Seq<u8>, p: int, e: Endian) -> Parsed<BlockDescriptor> {
    if !fits(s, p, 10) {
        Err(DecodeError::Truncated)
    } else {
        Ok(
            (
                BlockDescriptor {
                    decompressed_size: u32_at(s, p, e),
                    compressed_size: u32_at(s, p + 4, e),
                    flags: u16_at(s, p + 8, e),
                },
                p + 10,
            ),
        )
    }
}

/// Decoding one block descriptor, as a function of its position.
pub open spec fn descriptor_item(s: Seq<u8>) -> spec_fn(int) -> Parsed<BlockDescriptor> {
    |p: int| descriptor_at(s, p, Endian::Big)
}

/// A signed count as a number of items: a negative count stands for none.
pub open spec fn item_count(n: i32) -> nat {
    if n > 0 {
        n as nat
    } else {
        0
    }
}

/// The block table at the start of the decompressed block info: a hash of
/// 16 bytes, which is passed over, a signed count of 32 bits, and that many
/// block descriptors.
#[verifier::opaque]
pub open spec fn block_table_at(info: Seq<u8>) -> Parsed<Seq<BlockDescriptor>> {
    if !fits(info, 0, 20) {
        Err(DecodeError::Truncated)
    } else {
        repeat_at(descriptor_item(info), 20, item_count(i32_at(info, 16, Endian::Big)))
    }
}

/// The content of the block that `b` describes and that starts at `p`, and
/// the position behind the block.
pub open spec fn block_at(s: Seq<u8>, p: int, b: BlockDescriptor) -> Parsed<Seq<u8>> {
    if !fits(s, p, b.compressed_size as int) {
        Err(DecodeError::Truncated)
    } else {
        match block_decoded(
            s.subrange(p, p + b.compressed_size),
            b.decompressed_size,
            b.flags as u32,
        ) {
            Ok(d) => Ok((d, p + b.compressed_size)),
            Err(e) => Err(e),
        }
    }
}

/// The payload of a bundle: the contents of its blocks, which stand one
/// behind the other from `p` on, in the order of their descriptors.
pub open spec fn reassembled(s: Seq<u8>, p: int, blocks: Seq<BlockDescriptor>) -> Parsed<Seq<u8>>
    decreases blocks.len(),
{
    if blocks.len() == 0 {
        Ok((Seq::empty(), p))
    } else {
        match reassembled(s, p, blocks.drop_last()) {
            Err(e) => Err(e),
            Ok((raw, q)) => match block_at(s, q, blocks.last()) {
                Err(e) => Err(e),
                Ok((d, r)) => Ok((raw + d, r)),
            },
        }
    }
}

/// The directory entry at `p`: offset and size of 64 bits and a status of
/// 32 bits, in the byte order `e`, and a name.
#[verifier::opaque]
pub open spec fn entry_at(s: Seq<u8>, p: int, e: Endian) -> Parsed<EntryModel> {
    if !fits(s, p, 20) {
        Err(DecodeError::Truncated)
    } else {
        match cstr_at(s, p + 20) {
            Err(err) => Err(err),
            Ok((name, q)) => Ok(
                (
                    EntryModel {
                        offset: u64_at(s, p, e),
                        size: u64_at(s, p + 8, e),
                        status: u32_at(s, p + 16, e),
                        name,
                    },
                    q,
                ),
            ),
        }
    }
}

/// The serialized file that the directory entry selects from the payload
/// `raw`. An entry that does not lie within the payload is out of range.
pub open spec fn entry_asset(entry: EntryModel, raw: Seq<u8>) -> Result<AssetModel, DecodeError> {
    if entry.offset + entry.size > raw.len() {
        Err(DecodeError::OutOfRange)
    } else {
        asset_at(
            entry.name,
            entry.status,
            raw.subrange(entry.offset as int, entry.offset + entry.size),
        )
    }
}

/// The directory entry at `p` of the block info and the serialized file
/// that it selects from the payload `raw`.
pub open spec fn asset_entry_at(info: Seq<u8>, p: int, raw: Seq<u8>) -> Parsed<AssetModel> {
    match entry_at(info, p, Endian::Big) {
        Err(err) => Err(err),
        Ok((entry, q)) => match entry_asset(entry, raw) {
            Err(err) => Err(err),
            Ok(asset) => Ok((asset, q)),
        },
    }
}

/// Decoding one directory entry with its serialized file, as a function of
/// the entry's position.
pub open spec fn asset_item(info: Seq<u8>, raw: Seq<u8>) -> spec_fn(int) -> Parsed<AssetModel> {
    |p: int| asset_entry_at(info, p, raw)
}

/// The directory at `p` of the block info: a signed count of 32 bits and
/// that many entries, each decoded together with its serialized file.
#[verifier::opaque]
pub open spec fn assets_at(info: Seq<u8>, p: int, raw: Seq<u8>) -> Parsed<Seq<AssetModel>> {
    if !fits(info, p, 4) {
        Err(DecodeError::Truncated)
    } else {
        repeat_at(asset_item(info, raw), p + 4, item_count(i32_at(info, p, Endian::Big)))
    }
}

/// The bundle whose header starts at `p` of the file `s`, behind the
/// signature: the header, the block info, which is decompressed with the
/// header's flags, the block table, the payload reassembled from the
/// blocks, and the serialized files that the directory selects from it.
pub open spec fn container_at(s: Seq<u8>, p: int) -> Result<BundleModel, DecodeError> {
    match envelope_at(s, p, Endian::Big) {
        Err(err) => Err(err),
        Ok((h, a)) => match block_info_at(
            s,
            a,
            h.file_version,
            h.compressed_block_info_size,
            h.flags,
        ) {
            Err(err) => Err(err),
            Ok((packed, b)) => match block_decoded(packed, h.decompressed_block_info_size, h.flags) {
                Err(err) => Err(err),
                Ok(info) => match block_table_at(info) {
                    Err(err) => Err(err),
                    Ok((blocks, c)) => match reassembled(s, b, blocks) {
                        Err(err) => Err(err),
                        Ok((raw, _)) => match assets_at(info, c, raw) {
                            Err(err) => Err(err),
                            Ok((assets, _)) => Ok(
                                BundleModel {
                                    signature: "UnityFS"@,
                                    file_version: h.file_version,
                                    lower_player_version: h.lower_player_version,
                                    upper_player_version: h.upper_player_version,
                                    total_file_size: h.total_file_size,
                                    compressed_block_info_size: h.compressed_block_info_size,
                                    decompressed_block_info_size: h.decompressed_block_info_size,
                                    flags: h.flags,
                                    assets,
                                },
                            ),
                        },
                    },
                },
            },
        },
    }
}

/// The bundle that the file `s` holds. The file starts with the signature
/// `UnityFS` as a null-terminated string.
pub open spec fn bundle_at(s: Seq<u8>) -> Result<BundleModel, DecodeError> {
    if cstr_bytes(s, 0) == signature_bytes() {
        container_at(s, cstr_next(s, 0))
    } else {
        Err(DecodeError::InvalidSignature)
    }
}

/// Once the blocks of a prefix of the table have failed, so have the blocks
/// of the whole table.
pub proof fn lemma_reassembled_stops(s: Seq<u8>, p: int, blocks: Seq<BlockDescriptor>, i: int)
    requires
        0 <= i <= blocks.len(),
        reassembled(s, p, blocks.take(i)) is Err,
    ensures
        reassembled(s, p, blocks) == reassembled(s, p, blocks.take(i)),
    decreases blocks.len() - i,
{
    if i < blocks.len() {
        assert(blocks.take(i + 1).drop_last() =~= blocks.take(i));
        lemma_reassembled_stops(s, p, blocks, i + 1);
    } else {
        assert(blocks.take(i) =~= blocks);
    }
}

/// Reassembly is associative: the payload of a table that is split in two
/// is the payload of the first part followed by the payload of the second,
/// whose blocks start where those of the first end.
pub proof fn lemma_reassembled_split(
    s: Seq<u8>,
    p: int,
    first: Seq<BlockDescriptor>,
    second: Seq<BlockDescriptor>,
)
    ensures
        reassembled(s, p, first + second) == match reassembled(s, p, first) {
            Err(e) => Err::<(Seq<u8>, int), DecodeError>(e),
            Ok((head, q)) => match reassembled(s, q, second) {
                Err(e) => Err(e),
                Ok((tail, r)) => Ok((head + tail, r)),
            },
        },
    decreases second.len(),
{
    if second.len() == 0 {
        assert(first + second =~= first);
        if let Ok((head, q)) = reassembled(s, p, first) {
            assert(head + Seq::<u8>::empty() =~= head);
        }
    } else {
        assert((first + second).drop_last() =~= first + second.drop_last());
        assert((first + second).last() == second.last());
        lemma_reassembled_split(s, p, first, second.drop_last());
        if let Ok((head, q)) = reassembled(s, p, first) {
            if let Ok((mid, r)) = reassembled(s, q, second.drop_last()) {
                if let Ok((d, t)) = block_at(s, r, second.last()) {
                    assert((head + mid) + d =~= head + (mid + d));
                }
            }
        }
    }
}

/// A block of the pass-through codec.
pub open spec fn stored(b: BlockDescriptor) -> bool {
    codec_of(b.flags as u32) == 0 && b.compressed_size == b.decompressed_size
}

/// The number of bytes that the blocks announce for their contents.
pub open spec fn payload_size(blocks: Seq<BlockDescriptor>) -> int
    decreases blocks.len(),
{
    if blocks.len() == 0 {
        0
    } else {
        payload_size(blocks.drop_last()) + blocks.last().decompressed_size
    }
}

/// The payload is as long as the blocks announce: the decompressed sizes of
/// the table add up to the length of the buffer that all offsets refer to.
pub proof fn lemma_payload_size(s: Seq<u8>, p: int, blocks: Seq<BlockDescriptor>)
    requires
        reassembled(s, p, blocks) is Ok,
    ensures
        reassembled(s, p, blocks)->Ok_0.0.len() == payload_size(blocks),
    decreases blocks.len(),
{
    if blocks.len() > 0 {
        lemma_payload_size(s, p, blocks.drop_last());
    }
}

/// One block of the pass-through codec that holds `size` bytes.
pub open spec fn stored_block(size: int, flags: u16) -> BlockDescriptor {
    BlockDescriptor { decompressed_size: size as u32, compressed_size: size as u32, flags }
}

/// Splitting stored data into blocks does not change what is decoded:
/// blocks of the pass-through codec reassemble to what a single such block
/// of their total size gives over the same bytes.
pub proof fn lemma_stored_as_one(s: Seq<u8>, p: int, blocks: Seq<BlockDescriptor>, flags: u16)
    requires
        0 <= p,
        forall|i: int| 0 <= i < blocks.len() ==> stored(#[trigger] blocks[i]),
        codec_of(flags as u32) == 0,
        payload_size(blocks) <= i32::MAX,
        fits(s, p, payload_size(blocks)),
    ensures
        reassembled(s, p, blocks) == block_at(s, p, stored_block(payload_size(blocks), flags)),
        reassembled(s, p, blocks) == Ok::<(Seq<u8>, int), DecodeError>(
            (s.subrange(p, p + payload_size(blocks)), p + payload_size(blocks)),
        ),
    decreases blocks.len(),
{
    if blocks.len() == 0 {
        assert(s.subrange(p, p) =~= Seq::<u8>::empty());
    } else {
        let init = blocks.drop_last();
        let b = blocks.last();
        assert(stored(b)) by {
            assert(b == blocks[blocks.len() - 1]);
        }
        assert forall|i: int| 0 <= i < init.len() implies stored(#[trigger] init[i]) by {
            assert(init[i] == blocks[i]);
        }
        lemma_payload_nonnegative(init);
        lemma_stored_as_one(s, p, init, flags);
        let q = p + payload_size(init);
        assert(s.subrange(p, q) + s.subrange(q, q + b.compressed_size) =~= s.subrange(
            p,
            q + b.compressed_size,
        ));
    }
}

/// No table announces a negative number of bytes.
pub proof fn lemma_payload_nonnegative(blocks: Seq<BlockDescriptor>)
    ensures
        payload_size(blocks) >= 0,
    decreases blocks.len(),
{
    if blocks.len() > 0 {
        lemma_payload_nonnegative(blocks.drop_last());
    }
}

fn is_signature(bytes: &[u8]) -> (r: bool)
    ensures
        r == (bytes@ == signature_bytes()),
{
    if bytes.len() != 7 {
        return false;
    }
    let r = bytes[0] == 0x55 && bytes[1] == 0x6e && bytes[2] == 0x69 && bytes[3] == 0x74 && bytes[4]
        == 0x79 && bytes[5] == 0x46 && bytes[6] == 0x53;
    assert(r == (bytes@ =~= signature_bytes()));
    r
}

/// Decompresses a chunk whose size is declared with 32 bits without a sign.
pub fn decompress_block(src: &[u8], size: u32, flags: u32) -> (r: Result<Vec<u8>, DecodeError>)
    ensures
        match block_decoded(src@, size, flags) {
            Ok(d) => r is Ok && r->Ok_0@ == d,
            Err(e) => r == Err::<Vec<u8>, DecodeError>(e),
        },
{
    if size <= 0x7fff_ffff {
        decompress_chunk(src, size as i32, flags)
    } else if flags & 0x3f > 3 {
        Err(DecodeError::UnsupportedCodec)
    } else {
        Err(DecodeError::Decompression)
    }
}

impl BlockDescriptor {
    /// Reads one block descriptor.
    pub fn read(reader: &mut BinaryReader) -> (r: Result<BlockDescriptor, DecodeError>)
        ensures
            decoded(
                *old(reader),
                *final(reader),
                r,
                descriptor_at(old(reader).bytes(), old(reader).position(), old(reader).order()),
            ),
    {
        let decompressed_size = reader.uint32()?;
        let compressed_size = reader.uint32()?;
        let flags = reader.uint16()?;
        Ok(BlockDescriptor { decompressed_size, compressed_size, flags })
    }
}

impl DirectoryEntry {
    /// Reads one directory entry.
    pub fn read(reader: &mut BinaryReader) -> (r: Result<DirectoryEntry, DecodeError>)
        ensures
            decoded(
                *old(reader),
                *final(reader),
                r,
                entry_at(old(reader).bytes(), old(reader).position(), old(reader).order()),
            ),
    {
        reveal(entry_at);
        let offset = reader.uint64()?;
        let size = reader.uint64()?;
        let status = reader.uint32()?;
        let name = reader.cstr()?;
        Ok(DirectoryEntry { offset, size, status, name })
    }

    /// Decodes the serialized file that the entry selects from the payload.
    pub fn decode(&self, raw: &[u8]) -> (r: Result<Asset, DecodeError>)
        ensures
            match entry_asset(self.deep_view(), raw@) {
                Ok(m) => r is Ok && r->Ok_0.deep_view() == m && r->Ok_0.wf(),
                Err(e) => r is Err && r->Err_0 == e,
            },
    {
        let len = raw.len() as u64;
        if self.offset > len || self.size > len - self.offset {
            return Err(DecodeError::OutOfRange);
        }
        let start = self.offset as usize;
        let data = slice_subrange(raw, start, start + self.size as usize);
        Asset::read(&self.name, self.status, data)
    }
}

impl ContainerHeader {
    /// Reads the header of a bundle, behind its signature.
    pub fn read(file: &mut BinaryReader) -> (r: Result<ContainerHeader, DecodeError>)
        ensures
            decoded(
                *old(file),
                *final(file),
                r,
                envelope_at(old(file).bytes(), old(file).position(), old(file).order()),
            ),
    {
        reveal(envelope_at);
        let file_version = file.uint32()?;
        let lower_player_version = file.cstr()?;
        let upper_player_version = file.cstr()?;
        let total_file_size = file.int64()?;
        let compressed_block_info_size = file.uint32()?;
        let decompressed_block_info_size = file.uint32()?;
        let flags = file.uint32()?;
        Ok(
            ContainerHeader {
                file_version,
                lower_player_version,
                upper_player_version,
                total_file_size,
                compressed_block_info_size,
                decompressed_block_info_size,
                flags,
            },
        )
    }
}

/// Takes the compressed block info out of the file and leaves the cursor
/// where the blocks start.
fn take_block_info<'a>(file: &mut BinaryReader<'a>, version: u32, size: u32, flags: u32) -> (r:
    Result<&'a [u8], DecodeError>)
    ensures
        final(file).bytes() == old(file).bytes(),
        final(file).order() == old(file).order(),
        match block_info_at(old(file).bytes(), old(file).position(), version, size, flags) {
            Ok((packed, p)) => r is Ok && r->Ok_0@ == packed && final(file).position() == p,
            Err(e) => r is Err && r->Err_0 == e,
        },
{
    reveal(block_info_at);
    if flags & 0x80 != 0 {
        let len = file.len() as u64;
        if size as u64 > len {
            return Err(DecodeError::Truncated);
        }
        file.indexed_read(len - size as u64, size as usize)
    } else {
        if version >= 7 {
            let pos = file.pos();
            let gap = pos & 16;
            assert(gap <= 16) by (bit_vector)
                requires
                    gap == pos & 16,
            ;
            file.skip(gap as i64)?;
        }
        file.take(size as usize)
    }
}

/// Reads the block table at the start of the decompressed block info.
fn read_block_table(info: &mut BinaryReader) -> (r: Result<Vec<BlockDescriptor>, DecodeError>)
    requires
        old(info).order() == Endian::Big,
        old(info).position() == 0,
    ensures
        decoded(*old(info), *final(info), r, block_table_at(old(info).bytes())),
{
    reveal(block_table_at);
    let ghost s = info.bytes();
    let ghost item = descriptor_item(s);
    info.skip(16)?;
    let count = info.int32()?;
    let mut out: Vec<BlockDescriptor> = Vec::new();
    let mut i: i32 = 0;
    assert(out.deep_view() =~= Seq::<BlockDescriptor>::empty());
    while i < count
        invariant
            0 <= i,
            count >= 0 ==> i <= count,
            count < 0 ==> i == 0,
            s == old(info).bytes(),
            old(info).order() == Endian::Big,
            fits(s, 0, 20),
            count == i32_at(s, 16, Endian::Big),
            info.bytes() == s,
            info.order() == Endian::Big,
            item == descriptor_item(s),
            repeat_at(item, 20, i as nat) == Ok::<(Seq<BlockDescriptor>, int), DecodeError>(
                (out.deep_view(), info.position()),
            ),
        decreases count - i,
    {
        let ghost p = info.position();
        let ghost before = out.deep_view();
        assert(item(p) == descriptor_at(s, p, Endian::Big));
        match BlockDescriptor::read(info) {
            Ok(x) => {
                proof {
                    lemma_repeat_next(item, 20, i as nat, before, p, x, info.position());
                }
                out.push(x);
                assert(out.deep_view() =~= before.push(x));
            },
            Err(err) => {
                proof {
                    reveal(block_table_at);
                    lemma_repeat_fails(item, 20, i as nat, item_count(count), before, p, err);
                }
                return Err(err);
            },
        }
        i = i + 1;
    }
    Ok(out)
}

/// Reads the blocks that the table describes from the file, one behind the
/// other, and joins their decompressed contents in that order.
pub fn reassemble(file: &mut BinaryReader, blocks: &Vec<BlockDescriptor>) -> (r: Result<
    Vec<u8>,
    DecodeError,
>)
    ensures
        final(file).bytes() == old(file).bytes(),
        final(file).order() == old(file).order(),
        match reassembled(old(file).bytes(), old(file).position(), blocks@) {
            Ok((raw, p)) => r is Ok && r->Ok_0@ == raw && final(file).position() == p,
            Err(e) => r is Err && r->Err_0 == e,
        },
{
    let ghost s = file.bytes();
    let ghost origin = file.position();
    let mut raw: Vec<u8> = Vec::new();
    let mut i: usize = 0;
    assert(blocks@.take(0) =~= Seq::<BlockDescriptor>::empty());
    while i < blocks.len()
        invariant
            i <= blocks@.len(),
            s == old(file).bytes(),
            origin == old(file).position(),
            file.bytes() == s,
            file.order() == old(file).order(),
            reassembled(s, origin, blocks@.take(i as int)) == Ok::<(Seq<u8>, int), DecodeError>(
                (raw@, file.position()),
            ),
        decreases blocks@.len() - i,
    {
        let b = blocks[i];
        let ghost p = file.position();
        proof {
            assert(blocks@.take(i + 1).drop_last() =~= blocks@.take(i as int));
            assert(blocks@.take(i + 1).last() == b);
        }
        let packed = match file.take(b.compressed_size as usize) {
            Ok(bytes) => bytes,
            Err(err) => {
                proof {
                    lemma_reassembled_stops(s, origin, blocks@, i + 1);
                }
                return Err(err);
            },
        };
        let mut chunk = match decompress_block(packed, b.decompressed_size, b.flags as u32) {
            Ok(bytes) => bytes,
            Err(err) => {
                proof {
                    lemma_reassembled_stops(s, origin, blocks@, i + 1);
                }
                return Err(err);
            },
        };
        raw.append(&mut chunk);
        i = i + 1;
    }
    assert(blocks@.take(i as int) =~= blocks@);
    Ok(raw)
}

/// Reads the directory from the block info and decodes every serialized
/// file that it selects from the payload, entry by entry.
fn read_assets(info: &mut BinaryReader, raw: &[u8]) -> (r: Result<Vec<Asset>, DecodeError>)
    requires
        old(info).order() == Endian::Big,
    ensures
        final(info).bytes() == old(info).bytes(),
        match assets_at(old(info).bytes(), old(info).position(), raw@) {
            Ok((assets, _)) => r is Ok && r->Ok_0.deep_view() == assets,
            Err(e) => r is Err && r->Err_0 == e,
        },
        r matches Ok(v) ==> forall|i: int| 0 <= i < v@.len() ==> (#[trigger] v@[i]).wf(),
{
    reveal(assets_at);
    let ghost s = info.bytes();
    let ghost origin = info.position();
    let ghost item = asset_item(s, raw@);
    let count = info.int32()?;
    let mut out: Vec<Asset> = Vec::new();
    let mut i: i32 = 0;
    assert(out.deep_view() =~= Seq::<AssetModel>::empty());
    while i < count
        invariant
            0 <= i,
            count >= 0 ==> i <= count,
            count < 0 ==> i == 0,
            s == old(info).bytes(),
            origin == old(info).position(),
            fits(s, origin, 4),
            count == i32_at(s, origin, Endian::Big),
            info.bytes() == s,
            info.order() == Endian::Big,
            item == asset_item(s, raw@),
            repeat_at(item, origin + 4, i as nat) == Ok::<(Seq<AssetModel>, int), DecodeError>(
                (out.deep_view(), info.position()),
            ),
            forall|j: int| 0 <= j < out@.len() ==> (#[trigger] out@[j]).wf(),
        decreases count - i,
    {
        let ghost p = info.position();
        let ghost before = out.deep_view();
        assert(item(p) == asset_entry_at(s, p, raw@));
        let entry = match DirectoryEntry::read(info) {
            Ok(entry) => entry,
            Err(err) => {
                proof {
                    reveal(assets_at);
                    lemma_repeat_fails(item, origin + 4, i as nat, item_count(count), before, p, err);
                }
                return Err(err);
            },
        };
        match entry.decode(raw) {
            Ok(x) => {
                let ghost m = x.deep_view();
                proof {
                    lemma_repeat_next(item, origin + 4, i as nat, before, p, m, info.position());
                }
                out.push(x);
                assert(out.deep_view() =~= before.push(m));
            },
            Err(err) => {
                proof {
                    reveal(assets_at);
                    lemma_repeat_fails(item, origin + 4, i as nat, item_count(count), before, p, err);
                }
                return Err(err);
            },
        }
        i = i + 1;
    }
    Ok(out)
}

impl AssetBundle {
    /// Every type tree of every serialized file is a forest whose roots
    /// have level 0 and whose other nodes lie one level below their parents.
    pub open spec fn wf(&self) -> bool {
        forall|i: int| 0 <= i < self.assets@.len() ==> (#[trigger] self.assets@[i]).wf()
    }

    /// Decodes the bundle that the bytes of a file hold.
    pub fn load(data: &[u8]) -> (r: Result<AssetBundle, DecodeError>)
        ensures
            match bundle_at(data@) {
                Ok(m) => r is Ok && r->Ok_0.deep_view() == m && r->Ok_0.wf(),
                Err(e) => r is Err && r->Err_0 == e,
            },
    {
        let mut file = BinaryReader::new(data, Endian::Big);
        let signature = file.cstr_raw();
        if is_signature(signature) {
            Self::read_asset_bundle(&mut file)
        } else {
            Err(DecodeError::InvalidSignature)
        }
    }

    /// Decodes a bundle from behind its signature on. The header and the
    /// block info are big-endian whatever byte order the reader had; it
    /// reads big-endian after the call.
    pub fn read_asset_bundle(file: &mut BinaryReader) -> (r: Result<AssetBundle, DecodeError>)
        ensures
            final(file).bytes() == old(file).bytes(),
            final(file).order() == Endian::Big,
            match container_at(old(file).bytes(), old(file).position()) {
                Ok(m) => r is Ok && r->Ok_0.deep_view() == m && r->Ok_0.wf(),
                Err(e) => r is Err && r->Err_0 == e,
            },
    {
        file.set_endian(Endian::Big);
        let header = ContainerHeader::read(file)?;
        let packed = take_block_info(
            file,
            header.file_version,
            header.compressed_block_info_size,
            header.flags,
        )?;
        let unpacked = decompress_block(packed, header.decompressed_block_info_size, header.flags)?;
        let mut info = BinaryReader::new(unpacked.as_slice(), Endian::Big);
        let blocks = read_block_table(&mut info)?;
        assert(blocks.deep_view() =~= blocks@);
        let raw = reassemble(file, &blocks)?;
        let assets = read_assets(&mut info, raw.as_slice())?;
        Ok(
            AssetBundle {
                signature: String::from_str("UnityFS"),
                file_version: header.file_version,
                lower_player_version: header.lower_player_version,
                upper_player_version: header.upper_player_version,
                total_file_size: header.total_file_size,
                compressed_block_info_size: header.compressed_block_info_size,
                decompressed_block_info_size: header.decompressed_block_info_size,
                flags: header.flags,
                assets,
            },
        )
    }
}

} // verus!
