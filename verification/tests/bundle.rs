use uabo::asset_bundle::{
    decompress_block, reassemble, AssetBundle, BlockDescriptor, ContainerHeader, DirectoryEntry,
};
use uabo::binary_reader::BinaryReader;
use uabo::endian::Endian;
use uabo::error::DecodeError;

fn serialized_file(comment: &str) -> Vec<u8> {
    let mut v = Vec::new();
    let meta = (1 + 6 + 16 + comment.len() + 1) as u32;
    v.extend_from_slice(&meta.to_be_bytes());
    v.extend_from_slice(&(16 + meta).to_be_bytes());
    v.extend_from_slice(&7u32.to_be_bytes());
    v.extend_from_slice(&16u32.to_be_bytes());
    v.push(1);
    v.extend_from_slice(b"5.0.0\0");
    v.extend_from_slice(&0u32.to_be_bytes());
    v.extend_from_slice(&0i32.to_be_bytes());
    v.extend_from_slice(&0u32.to_be_bytes());
    v.extend_from_slice(&0u32.to_be_bytes());
    v.extend_from_slice(comment.as_bytes());
    v.push(0);
    v
}

fn header(version: u32, lower: &str, info_packed: u32, info_size: u32, flags: u32) -> Vec<u8> {
    let mut v = b"UnityFS\0".to_vec();
    v.extend_from_slice(&version.to_be_bytes());
    v.extend_from_slice(lower.as_bytes());
    v.push(0);
    v.extend_from_slice(b"2019.4.0f1\0");
    v.extend_from_slice(&0x1234_5678_9abci64.to_be_bytes());
    v.extend_from_slice(&info_packed.to_be_bytes());
    v.extend_from_slice(&info_size.to_be_bytes());
    v.extend_from_slice(&flags.to_be_bytes());
    v
}

fn block_info(blocks: &[(u32, u32, u16)], entries: &[(u64, u64, u32, &str)]) -> Vec<u8> {
    let mut v = vec![0x5a; 16];
    v.extend_from_slice(&(blocks.len() as i32).to_be_bytes());
    for (d, c, f) in blocks {
        v.extend_from_slice(&d.to_be_bytes());
        v.extend_from_slice(&c.to_be_bytes());
        v.extend_from_slice(&f.to_be_bytes());
    }
    v.extend_from_slice(&(entries.len() as i32).to_be_bytes());
    for (offset, size, status, name) in entries {
        v.extend_from_slice(&offset.to_be_bytes());
        v.extend_from_slice(&size.to_be_bytes());
        v.extend_from_slice(&status.to_be_bytes());
        v.extend_from_slice(name.as_bytes());
        v.push(0);
    }
    v
}

fn stored_bundle(version: u32) -> Vec<u8> {
    let file = serialized_file("hello");
    let n = file.len() as u32;
    let info = block_info(&[(n, n, 0)], &[(0, n as u64, 4, "CAB-0123")]);
    let mut data = header(version, "5.x.x", info.len() as u32, info.len() as u32, 0);
    data.extend_from_slice(&info);
    data.extend_from_slice(&file);
    data
}

#[test]
fn stored_bundle_with_one_file() {
    let data = stored_bundle(6);
    let bundle = AssetBundle::load(&data).unwrap();
    assert_eq!(bundle.signature, "UnityFS");
    assert_eq!(bundle.file_version, 6);
    assert_eq!(bundle.lower_player_version, "5.x.x");
    assert_eq!(bundle.upper_player_version, "2019.4.0f1");
    assert_eq!(bundle.total_file_size, 0x1234_5678_9abc);
    assert_eq!(bundle.compressed_block_info_size, bundle.decompressed_block_info_size);
    assert_eq!(bundle.flags, 0);
    assert_eq!(bundle.assets.len(), 1);
    assert_eq!(bundle.assets[0].name, "CAB-0123");
    assert_eq!(bundle.assets[0].status, 4);
    assert_eq!(bundle.assets[0].format, 7);
    assert_eq!(bundle.assets[0].endian, Endian::Big);
    assert_eq!(bundle.assets[0].generator_version, "5.0.0");
    assert_eq!(bundle.assets[0].comment, "hello");
}

#[test]
fn block_info_at_end_of_file() {
    let file = serialized_file("tail");
    let n = file.len() as u32;
    let info = block_info(&[(n, n, 0)], &[(0, n as u64, 1, "CAB-end")]);
    for version in [6u32, 7] {
        let mut data = header(version, "5.x.x", info.len() as u32, info.len() as u32, 0x80);
        data.extend_from_slice(&file);
        data.extend_from_slice(&info);
        let bundle = AssetBundle::load(&data).unwrap();
        assert_eq!(bundle.flags, 0x80);
        assert_eq!(bundle.assets.len(), 1);
        assert_eq!(bundle.assets[0].name, "CAB-end");
        assert_eq!(bundle.assets[0].status, 1);
        assert_eq!(bundle.assets[0].comment, "tail");
    }
}

#[test]
fn block_info_at_end_leaves_cursor_for_blocks() {
    let file = serialized_file("tail");
    let n = file.len() as u32;
    let info = block_info(&[(n, n, 0)], &[(0, n as u64, 1, "CAB-end")]);
    let mut data = header(6, "5.x.x", info.len() as u32, info.len() as u32, 0x80);
    let start_of_blocks = data.len();
    data.extend_from_slice(&file);
    data.extend_from_slice(&info);
    let mut reader = BinaryReader::new(&data, Endian::Big);
    assert_eq!(reader.cstr_raw(), b"UnityFS");
    let bundle = AssetBundle::read_asset_bundle(&mut reader).unwrap();
    assert_eq!(bundle.assets.len(), 1);
    assert_eq!(reader.pos(), (start_of_blocks + file.len()) as u64);
}

#[test]
fn gap_before_block_info_from_format_7() {
    let file = serialized_file("gap");
    let n = file.len() as u32;
    let info = block_info(&[(n, n, 0)], &[(0, n as u64, 0, "CAB-gap")]);
    let mut data = header(7, "5.x.x", info.len() as u32, info.len() as u32, 0);
    assert_eq!(data.len() & 16, 16);
    data.extend_from_slice(&[0xff; 16]);
    data.extend_from_slice(&info);
    data.extend_from_slice(&file);
    let bundle = AssetBundle::load(&data).unwrap();
    assert_eq!(bundle.assets.len(), 1);
    assert_eq!(bundle.assets[0].comment, "gap");

    let mut data = header(7, "", info.len() as u32, info.len() as u32, 0);
    assert_eq!(data.len() & 16, 0);
    data.extend_from_slice(&info);
    data.extend_from_slice(&file);
    let bundle = AssetBundle::load(&data).unwrap();
    assert_eq!(bundle.lower_player_version, "");
    assert_eq!(bundle.assets[0].comment, "gap");

    let data = stored_bundle(7);
    assert!(AssetBundle::load(&data).is_err());
}

#[test]
fn invalid_signature_is_refused() {
    let mut data = stored_bundle(6);
    data[5] = b'W';
    assert_eq!(AssetBundle::load(&data).err(), Some(DecodeError::InvalidSignature));
    assert_eq!(AssetBundle::load(b"UnityFS").err(), Some(DecodeError::Truncated));
    assert_eq!(AssetBundle::load(b"UnityFS2\0").err(), Some(DecodeError::InvalidSignature));
    assert_eq!(AssetBundle::load(b"UnityF\0").err(), Some(DecodeError::InvalidSignature));
    assert_eq!(AssetBundle::load(b"").err(), Some(DecodeError::InvalidSignature));
    assert_eq!(AssetBundle::load(&[0xff, 0xfe, 0]).err(), Some(DecodeError::InvalidSignature));
}

#[test]
fn unsupported_codec_in_header_flags() {
    let file = serialized_file("x");
    let n = file.len() as u32;
    let info = block_info(&[(n, n, 0)], &[(0, n as u64, 0, "CAB")]);
    let mut data = header(6, "5.x.x", info.len() as u32, info.len() as u32, 4);
    data.extend_from_slice(&info);
    data.extend_from_slice(&file);
    assert_eq!(AssetBundle::load(&data).err(), Some(DecodeError::UnsupportedCodec));
}

#[test]
fn unsupported_codec_in_block_flags() {
    let file = serialized_file("x");
    let n = file.len() as u32;
    let info = block_info(&[(n, n, 4)], &[(0, n as u64, 0, "CAB")]);
    let mut data = header(6, "5.x.x", info.len() as u32, info.len() as u32, 0);
    data.extend_from_slice(&info);
    data.extend_from_slice(&file);
    assert_eq!(AssetBundle::load(&data).err(), Some(DecodeError::UnsupportedCodec));
}

#[test]
fn block_info_size_mismatch() {
    let file = serialized_file("x");
    let n = file.len() as u32;
    let info = block_info(&[(n, n, 0)], &[(0, n as u64, 0, "CAB")]);
    let mut data = header(6, "5.x.x", info.len() as u32, info.len() as u32 + 1, 0);
    data.extend_from_slice(&info);
    data.extend_from_slice(&file);
    assert_eq!(AssetBundle::load(&data).err(), Some(DecodeError::Decompression));
    let mut data = header(6, "5.x.x", info.len() as u32, 0x8000_0000, 0);
    data.extend_from_slice(&info);
    data.extend_from_slice(&file);
    assert_eq!(AssetBundle::load(&data).err(), Some(DecodeError::Decompression));
}

#[test]
fn directory_entry_out_of_range() {
    let file = serialized_file("x");
    let n = file.len() as u32;
    for (offset, size) in [(0u64, n as u64 + 1), (1, n as u64), (n as u64 + 1, 0), (u64::MAX, 2)] {
        let info = block_info(&[(n, n, 0)], &[(offset, size, 0, "CAB")]);
        let mut data = header(6, "5.x.x", info.len() as u32, info.len() as u32, 0);
        data.extend_from_slice(&info);
        data.extend_from_slice(&file);
        assert_eq!(AssetBundle::load(&data).err(), Some(DecodeError::OutOfRange));
    }
}

#[test]
fn truncated_bundle() {
    let data = stored_bundle(6);
    for cut in [8usize, 11, 20, 40, 48, 49, 60, 70, 80, 100, data.len() - 1] {
        assert_eq!(AssetBundle::load(&data[..cut]).err(), Some(DecodeError::Truncated), "cut at {}", cut);
    }
    let file = serialized_file("x");
    let n = file.len() as u32;
    let mut info = block_info(&[(n, n, 0)], &[(0, n as u64, 0, "CAB")]);
    info.truncate(18);
    let mut data = header(6, "5.x.x", info.len() as u32, info.len() as u32, 0);
    data.extend_from_slice(&info);
    data.extend_from_slice(&file);
    assert_eq!(AssetBundle::load(&data).err(), Some(DecodeError::Truncated));
    let mut data = header(6, "5.x.x", 1000, 1000, 0x80);
    data.extend_from_slice(&file);
    assert_eq!(AssetBundle::load(&data).err(), Some(DecodeError::Truncated));
}

#[test]
fn several_files_in_several_blocks() {
    let first = serialized_file("one");
    let second = serialized_file("second");
    let mut payload = first.clone();
    payload.extend_from_slice(&[0xaa; 5]);
    payload.extend_from_slice(&second);
    let cut = 10u32;
    let rest = payload.len() as u32 - cut;
    let info = block_info(
        &[(cut, cut, 0x40), (rest, rest, 0)],
        &[
            (0, first.len() as u64, 1, "CAB-one"),
            (first.len() as u64 + 5, second.len() as u64, 2, "CAB-two"),
        ],
    );
    let mut data = header(6, "5.x.x", info.len() as u32, info.len() as u32, 0x40);
    data.extend_from_slice(&info);
    data.extend_from_slice(&payload);
    let bundle = AssetBundle::load(&data).unwrap();
    assert_eq!(bundle.flags, 0x40);
    assert_eq!(bundle.assets.len(), 2);
    assert_eq!(bundle.assets[0].name, "CAB-one");
    assert_eq!(bundle.assets[0].status, 1);
    assert_eq!(bundle.assets[0].comment, "one");
    assert_eq!(bundle.assets[1].name, "CAB-two");
    assert_eq!(bundle.assets[1].status, 2);
    assert_eq!(bundle.assets[1].comment, "second");
}

#[test]
fn compressed_bundle() {
    let first = serialized_file("lz4");
    let second = serialized_file("lzma");
    let packed_first = lz4::block::compress(&first, None, false).unwrap();
    let packed_second = lzma::compress(&second, 6).unwrap();
    let info = block_info(
        &[
            (first.len() as u32, packed_first.len() as u32, 3),
            (second.len() as u32, packed_second.len() as u32, 1),
        ],
        &[
            (first.len() as u64, second.len() as u64, 7, "CAB-b"),
            (0, first.len() as u64, 8, "CAB-a"),
        ],
    );
    let packed_info = lz4::block::compress(&info, None, false).unwrap();
    let mut data = header(6, "5.x.x", packed_info.len() as u32, info.len() as u32, 0x80 | 2);
    data.extend_from_slice(&packed_first);
    data.extend_from_slice(&packed_second);
    data.extend_from_slice(&packed_info);
    let bundle = AssetBundle::load(&data).unwrap();
    assert_eq!(bundle.compressed_block_info_size, packed_info.len() as u32);
    assert_eq!(bundle.decompressed_block_info_size, info.len() as u32);
    assert_eq!(bundle.assets.len(), 2);
    assert_eq!(bundle.assets[0].name, "CAB-b");
    assert_eq!(bundle.assets[0].comment, "lzma");
    assert_eq!(bundle.assets[1].name, "CAB-a");
    assert_eq!(bundle.assets[1].comment, "lz4");

    let mut broken = data.clone();
    let at = header(6, "5.x.x", 0, 0, 0).len() + 3;
    broken[at] ^= 0xff;
    broken[at + 1] ^= 0xff;
    assert!(AssetBundle::load(&broken).is_err());
}

#[test]
fn negative_counts_stand_for_none() {
    let mut info = vec![0u8; 16];
    info.extend_from_slice(&(-1i32).to_be_bytes());
    info.extend_from_slice(&(-5i32).to_be_bytes());
    let mut data = header(6, "5.x.x", info.len() as u32, info.len() as u32, 0);
    data.extend_from_slice(&info);
    let bundle = AssetBundle::load(&data).unwrap();
    assert!(bundle.assets.is_empty());
}

#[test]
fn splitting_into_blocks_keeps_content() {
    let mut stream = vec![0xeeu8; 3];
    for i in 0..100u8 {
        stream.push(i);
    }
    stream.push(0xdd);
    let single = vec![BlockDescriptor { decompressed_size: 100, compressed_size: 100, flags: 0 }];
    let split = vec![
        BlockDescriptor { decompressed_size: 30, compressed_size: 30, flags: 0 },
        BlockDescriptor { decompressed_size: 0, compressed_size: 0, flags: 0x40 },
        BlockDescriptor { decompressed_size: 69, compressed_size: 69, flags: 0 },
        BlockDescriptor { decompressed_size: 1, compressed_size: 1, flags: 0 },
    ];
    let mut reader = BinaryReader::new(&stream, Endian::Big);
    assert_eq!(reader.skip(3), Ok(()));
    let whole = reassemble(&mut reader, &single).unwrap();
    assert_eq!(reader.pos(), 103);
    let mut reader = BinaryReader::new(&stream, Endian::Big);
    assert_eq!(reader.skip(3), Ok(()));
    let parts = reassemble(&mut reader, &split).unwrap();
    assert_eq!(reader.pos(), 103);
    assert_eq!(whole, parts);
    assert_eq!(whole, stream[3..103].to_vec());
}

#[test]
fn splitting_compressed_data_keeps_content() {
    let mut data = Vec::new();
    for i in 0..500u32 {
        data.push((i % 11) as u8);
    }
    let whole = lz4::block::compress(&data, None, false).unwrap();
    let head = lz4::block::compress(&data[..200], None, false).unwrap();
    let tail = lz4::block::compress(&data[200..], None, false).unwrap();
    let single = vec![BlockDescriptor {
        decompressed_size: 500,
        compressed_size: whole.len() as u32,
        flags: 2,
    }];
    let split = vec![
        BlockDescriptor { decompressed_size: 200, compressed_size: head.len() as u32, flags: 2 },
        BlockDescriptor { decompressed_size: 300, compressed_size: tail.len() as u32, flags: 3 },
    ];
    let mut reader = BinaryReader::new(&whole, Endian::Big);
    let one = reassemble(&mut reader, &single).unwrap();
    let mut joined = head.clone();
    joined.extend_from_slice(&tail);
    let mut reader = BinaryReader::new(&joined, Endian::Big);
    let two = reassemble(&mut reader, &split).unwrap();
    assert_eq!(one, two);
    assert_eq!(one, data);
}

#[test]
fn reassemble_failures() {
    let stream = [1u8, 2, 3, 4];
    let blocks = vec![
        BlockDescriptor { decompressed_size: 2, compressed_size: 2, flags: 0 },
        BlockDescriptor { decompressed_size: 3, compressed_size: 3, flags: 0 },
    ];
    let mut reader = BinaryReader::new(&stream, Endian::Big);
    assert_eq!(reassemble(&mut reader, &blocks).err(), Some(DecodeError::Truncated));
    let blocks = vec![
        BlockDescriptor { decompressed_size: 2, compressed_size: 2, flags: 0 },
        BlockDescriptor { decompressed_size: 1, compressed_size: 2, flags: 0 },
    ];
    let mut reader = BinaryReader::new(&stream, Endian::Big);
    assert_eq!(reassemble(&mut reader, &blocks).err(), Some(DecodeError::Decompression));
    let blocks = vec![BlockDescriptor { decompressed_size: 2, compressed_size: 2, flags: 9 }];
    let mut reader = BinaryReader::new(&stream, Endian::Big);
    assert_eq!(reassemble(&mut reader, &blocks).err(), Some(DecodeError::UnsupportedCodec));
    let mut reader = BinaryReader::new(&stream, Endian::Big);
    assert_eq!(reassemble(&mut reader, &Vec::new()), Ok(vec![]));
    assert_eq!(reader.pos(), 0);
}

#[test]
fn decompress_block_with_unsigned_size() {
    assert_eq!(decompress_block(b"abc", 3, 0), Ok(b"abc".to_vec()));
    assert_eq!(decompress_block(b"abc", 0x8000_0000, 0), Err(DecodeError::Decompression));
    assert_eq!(decompress_block(b"abc", 0xffff_ffff, 2), Err(DecodeError::Decompression));
    assert_eq!(decompress_block(b"abc", 0x8000_0000, 4), Err(DecodeError::UnsupportedCodec));
    assert_eq!(decompress_block(b"abc", 3, 0x3f), Err(DecodeError::UnsupportedCodec));
}

#[test]
fn container_header_fields() {
    let data = header(6, "5.x.x", 10, 20, 0x43);
    let mut reader = BinaryReader::new(&data, Endian::Big);
    assert_eq!(reader.cstr_raw(), b"UnityFS");
    let h = ContainerHeader::read(&mut reader).unwrap();
    assert_eq!(h.file_version, 6);
    assert_eq!(h.lower_player_version, "5.x.x");
    assert_eq!(h.upper_player_version, "2019.4.0f1");
    assert_eq!(h.total_file_size, 0x1234_5678_9abc);
    assert_eq!(h.compressed_block_info_size, 10);
    assert_eq!(h.decompressed_block_info_size, 20);
    assert_eq!(h.flags, 0x43);
    assert_eq!(reader.pos(), data.len() as u64);
}

#[test]
fn block_descriptor_and_directory_entry() {
    let info = block_info(&[(0x0102_0304, 0x0a0b_0c0d, 0x0043)], &[(5, 6, 7, "name")]);
    let mut reader = BinaryReader::new(&info, Endian::Big);
    assert_eq!(reader.skip(20), Ok(()));
    let b = BlockDescriptor::read(&mut reader).unwrap();
    assert_eq!(
        b,
        BlockDescriptor { decompressed_size: 0x0102_0304, compressed_size: 0x0a0b_0c0d, flags: 0x43 }
    );
    assert_eq!(reader.int32(), Ok(1));
    let e = DirectoryEntry::read(&mut reader).unwrap();
    assert_eq!(e.offset, 5);
    assert_eq!(e.size, 6);
    assert_eq!(e.status, 7);
    assert_eq!(e.name, "name");
    assert_eq!(reader.pos(), info.len() as u64);
    assert_eq!(BlockDescriptor::read(&mut reader).err(), Some(DecodeError::Truncated));
    assert_eq!(DirectoryEntry::read(&mut reader).err(), Some(DecodeError::Truncated));
}

#[test]
fn directory_entry_selects_file() {
    let file = serialized_file("pick");
    let mut raw = vec![0u8; 7];
    raw.extend_from_slice(&file);
    raw.extend_from_slice(&[0u8; 2]);
    let entry = DirectoryEntry {
        offset: 7,
        size: file.len() as u64,
        status: 3,
        name: String::from("CAB-pick"),
    };
    let asset = entry.decode(&raw).unwrap();
    assert_eq!(asset.name, "CAB-pick");
    assert_eq!(asset.status, 3);
    assert_eq!(asset.comment, "pick");
    let entry = DirectoryEntry { offset: 7, size: raw.len() as u64, status: 3, name: String::new() };
    assert_eq!(entry.decode(&raw).err(), Some(DecodeError::OutOfRange));
}

#[test]
fn object_outside_its_file_aborts_load() {
    let mut file = Vec::new();
    file.extend_from_slice(&0u32.to_be_bytes());
    file.extend_from_slice(&0u32.to_be_bytes());
    file.extend_from_slice(&17u32.to_be_bytes());
    file.extend_from_slice(&69u32.to_be_bytes());
    file.extend_from_slice(&[0, 0, 0, 0]);
    file.extend_from_slice(b"2019.4\0");
    file.extend_from_slice(&5i32.to_le_bytes());
    file.push(0);
    file.extend_from_slice(&0u32.to_le_bytes());
    file.extend_from_slice(&1u32.to_le_bytes());
    file.extend_from_slice(&1i64.to_le_bytes());
    file.extend_from_slice(&0u32.to_le_bytes());
    file.extend_from_slice(&5u32.to_le_bytes());
    file.extend_from_slice(&0u32.to_le_bytes());
    file.extend_from_slice(&0u32.to_le_bytes());
    file.extend_from_slice(&0u32.to_le_bytes());
    file.push(0);
    assert_eq!(file.len(), 69);
    file.extend_from_slice(&[7, 7, 7]);
    let n = file.len() as u32;
    let mut payload = file.clone();
    payload.extend_from_slice(&[9u8; 32]);
    let total = payload.len() as u32;
    let info = block_info(&[(total, total, 0)], &[(0, n as u64, 0, "CAB-short")]);
    let mut data = header(6, "5.x.x", info.len() as u32, info.len() as u32, 0);
    data.extend_from_slice(&info);
    data.extend_from_slice(&payload);
    assert_eq!(AssetBundle::load(&data).err(), Some(DecodeError::OutOfRange));

    let info = block_info(&[(total, total, 0)], &[(0, n as u64 + 2, 0, "CAB-long")]);
    let mut data = header(6, "5.x.x", info.len() as u32, info.len() as u32, 0);
    data.extend_from_slice(&info);
    data.extend_from_slice(&payload);
    let bundle = AssetBundle::load(&data).unwrap();
    assert_eq!(bundle.assets[0].objects.len(), 1);
    assert_eq!(bundle.assets[0].objects[0].size, 5);
    assert!(bundle.assets[0].objects[0].hash.is_some());
}
