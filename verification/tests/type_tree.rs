use uabo::binary_reader::BinaryReader;
use uabo::endian::Endian;
use uabo::error::DecodeError;
use uabo::type_info::TypeInfo;

fn flat(level: u8, index: u32) -> TypeInfo {
    TypeInfo {
        version: 1,
        level,
        is_array: false,
        type_id: 0,
        type_str: format!("T{}", index),
        name_id: 0,
        name_str: format!("n{}", index),
        size: 4,
        index,
        flags: 0,
        v18meta: None,
        children: Vec::new(),
    }
}

fn flat_list(levels: &[u8]) -> Vec<TypeInfo> {
    let mut v = Vec::new();
    for (i, level) in levels.iter().enumerate() {
        v.push(flat(*level, i as u32));
    }
    v
}

fn walk(forest: &Vec<TypeInfo>, depth: u8, out: &mut Vec<(u32, u8, u8)>) {
    for node in forest {
        out.push((node.index, node.level, depth));
        walk(&node.children, depth + 1, out);
    }
}

fn record(version: u16, level: u8, is_array: u8, type_id: u32, name_id: u32, size: i32, index: u32, flags: u32, big: bool) -> Vec<u8> {
    let mut v = Vec::new();
    if big {
        v.extend_from_slice(&version.to_be_bytes());
        v.push(level);
        v.push(is_array);
        v.extend_from_slice(&type_id.to_be_bytes());
        v.extend_from_slice(&name_id.to_be_bytes());
        v.extend_from_slice(&size.to_be_bytes());
        v.extend_from_slice(&index.to_be_bytes());
        v.extend_from_slice(&flags.to_be_bytes());
    } else {
        v.extend_from_slice(&version.to_le_bytes());
        v.push(level);
        v.push(is_array);
        v.extend_from_slice(&type_id.to_le_bytes());
        v.extend_from_slice(&name_id.to_le_bytes());
        v.extend_from_slice(&size.to_le_bytes());
        v.extend_from_slice(&index.to_le_bytes());
        v.extend_from_slice(&flags.to_le_bytes());
    }
    v
}

#[test]
fn node_record_without_metadata() {
    let mut data = record(17, 2, 1, 0x8000_00de, 9, -1, 5, 0x8000, true);
    data.extend_from_slice(&[0xaa; 8]);
    let mut reader = BinaryReader::new(&data, Endian::Big);
    let node = TypeInfo::new(&mut reader).unwrap();
    assert_eq!(node.version, 17);
    assert_eq!(node.level, 2);
    assert_eq!(node.is_array, true);
    assert_eq!(node.type_id, 0x8000_00de);
    assert_eq!(node.name_id, 9);
    assert_eq!(node.size, -1);
    assert_eq!(node.index, 5);
    assert_eq!(node.flags, 0x8000);
    assert_eq!(node.v18meta, None);
    assert_eq!(node.type_str, "");
    assert_eq!(node.name_str, "");
    assert!(node.children.is_empty());
    assert_eq!(reader.pos(), 24);
}

#[test]
fn node_record_with_metadata_from_version_18() {
    let mut data = record(18, 0, 0, 1, 2, 16, 0, 1, false);
    data.extend_from_slice(&[1, 2, 3, 4, 5, 6, 7, 8]);
    data.push(0xcc);
    let mut reader = BinaryReader::new(&data, Endian::Little);
    let node = TypeInfo::new(&mut reader).unwrap();
    assert_eq!(node.version, 18);
    assert_eq!(node.is_array, false);
    assert_eq!(node.size, 16);
    assert_eq!(node.v18meta, Some(0x0807_0605_0403_0201));
    assert_eq!(reader.pos(), 32);
}

#[test]
fn node_record_truncated() {
    let data = record(17, 0, 0, 1, 2, 3, 4, 5, true);
    let mut reader = BinaryReader::new(&data[..23], Endian::Big);
    assert_eq!(TypeInfo::new(&mut reader).err(), Some(DecodeError::Truncated));
    let mut data = record(18, 0, 0, 1, 2, 3, 4, 5, true);
    data.extend_from_slice(&[0; 7]);
    let mut reader = BinaryReader::new(&data, Endian::Big);
    assert_eq!(TypeInfo::new(&mut reader).err(), Some(DecodeError::Truncated));
    let mut reader = BinaryReader::new(&[], Endian::Big);
    assert_eq!(TypeInfo::new(&mut reader).err(), Some(DecodeError::Truncated));
}

#[test]
fn link_rebuilds_forest() {
    let nodes = flat_list(&[0, 1, 2, 1, 0, 1]);
    let forest = TypeInfo::link(&nodes).unwrap();
    assert_eq!(forest.len(), 2);
    assert_eq!(forest[0].index, 0);
    assert_eq!(forest[0].children.len(), 2);
    assert_eq!(forest[0].children[0].index, 1);
    assert_eq!(forest[0].children[0].children.len(), 1);
    assert_eq!(forest[0].children[0].children[0].index, 2);
    assert!(forest[0].children[0].children[0].children.is_empty());
    assert_eq!(forest[0].children[1].index, 3);
    assert!(forest[0].children[1].children.is_empty());
    assert_eq!(forest[1].index, 4);
    assert_eq!(forest[1].children.len(), 1);
    assert_eq!(forest[1].children[0].index, 5);
    assert_eq!(forest[0].children[0].type_str, "T1");
    assert_eq!(forest[1].children[0].name_str, "n5");
}

#[test]
fn link_attaches_to_open_ancestor() {
    let nodes = flat_list(&[0, 1, 1, 2]);
    let forest = TypeInfo::link(&nodes).unwrap();
    assert_eq!(forest.len(), 1);
    assert_eq!(forest[0].children.len(), 2);
    assert!(forest[0].children[0].children.is_empty());
    assert_eq!(forest[0].children[1].children.len(), 1);
    assert_eq!(forest[0].children[1].children[0].index, 3);
}

#[test]
fn link_preorder_gives_sequence_back() {
    let levels = [0u8, 1, 2, 3, 3, 2, 1, 2, 0, 0, 1, 2, 2, 1];
    let nodes = flat_list(&levels);
    let forest = TypeInfo::link(&nodes).unwrap();
    let mut seen = Vec::new();
    walk(&forest, 0, &mut seen);
    assert_eq!(seen.len(), levels.len());
    for (i, (index, level, depth)) in seen.iter().enumerate() {
        assert_eq!(*index, i as u32);
        assert_eq!(*level, levels[i]);
        assert_eq!(*depth, levels[i]);
    }
}

#[test]
fn link_deep_chain() {
    let mut levels = Vec::new();
    for i in 0..=255u8 {
        levels.push(i);
    }
    levels.push(255);
    levels.push(0);
    let nodes = flat_list(&levels);
    let forest = TypeInfo::link(&nodes).unwrap();
    assert_eq!(forest.len(), 2);
    let mut seen = Vec::new();
    walk(&forest, 0, &mut seen);
    assert_eq!(seen.len(), 258);
    for (i, (index, level, depth)) in seen.iter().enumerate() {
        assert_eq!(*index, i as u32);
        assert_eq!(*level, *depth);
    }
}

#[test]
fn link_empty_array() {
    let forest = TypeInfo::link(&Vec::new()).unwrap();
    assert!(forest.is_empty());
}

#[test]
fn link_refuses_invalid_nesting() {
    assert_eq!(TypeInfo::link(&flat_list(&[1])).err(), Some(DecodeError::InvalidNesting));
    assert_eq!(TypeInfo::link(&flat_list(&[0, 2])).err(), Some(DecodeError::InvalidNesting));
    assert_eq!(TypeInfo::link(&flat_list(&[0, 1, 3])).err(), Some(DecodeError::InvalidNesting));
    assert_eq!(TypeInfo::link(&flat_list(&[0, 1, 2, 1, 3])).err(), Some(DecodeError::InvalidNesting));
    assert_eq!(TypeInfo::link(&flat_list(&[0, 1, 0, 2])).err(), Some(DecodeError::InvalidNesting));
    assert_eq!(TypeInfo::link(&flat_list(&[255])).err(), Some(DecodeError::InvalidNesting));
}

fn tree_bytes(records: &[Vec<u8>], side: &[u8], big: bool) -> Vec<u8> {
    let mut v = Vec::new();
    let count = records.len() as u32;
    let size = side.len() as u32;
    if big {
        v.extend_from_slice(&count.to_be_bytes());
        v.extend_from_slice(&size.to_be_bytes());
    } else {
        v.extend_from_slice(&count.to_le_bytes());
        v.extend_from_slice(&size.to_le_bytes());
    }
    for r in records {
        v.extend_from_slice(r);
    }
    v.extend_from_slice(side);
    v
}

#[test]
fn load_resolves_names_and_links() {
    let side = b"Mesh\0m_Vertices\0";
    let records = vec![
        record(1, 0, 0, 0, 0x8000_0000 | 55, -1, 0, 0, false),
        record(1, 1, 1, 0x8000_0000 | 981, 5, -1, 1, 0x4000, false),
        record(1, 2, 0, 0x8000_0000 | 222, 0x8000_0000 | 795, 4, 2, 0, false),
        record(1, 1, 0, 0x8000_0000 | 76, 0x8000_0000 | 7, 1, 3, 0, false),
    ];
    let mut data = tree_bytes(&records, side, false);
    data.extend_from_slice(&[0xee, 0xee]);
    let mut reader = BinaryReader::new(&data, Endian::Little);
    let forest = TypeInfo::load(&mut reader, 17).unwrap();
    assert_eq!(reader.pos(), (8 + 4 * 24 + side.len()) as u64);
    assert_eq!(forest.len(), 1);
    let root = &forest[0];
    assert_eq!(root.type_str, "Mesh");
    assert_eq!(root.name_str, "Base");
    assert_eq!(root.children.len(), 2);
    assert_eq!(root.children[0].type_str, "vector");
    assert_eq!(root.children[0].name_str, "m_Vertices");
    assert_eq!(root.children[0].is_array, true);
    assert_eq!(root.children[0].flags, 0x4000);
    assert_eq!(root.children[0].children.len(), 1);
    assert_eq!(root.children[0].children[0].type_str, "int");
    assert_eq!(root.children[0].children[0].name_str, "size");
    assert_eq!(root.children[0].children[0].size, 4);
    assert_eq!(root.children[1].type_str, "bool");
    assert_eq!(root.children[1].name_str, "");
    assert_eq!(root.children[1].index, 3);
}

#[test]
fn load_big_endian_with_metadata() {
    let side = b"x\0";
    let mut first = record(19, 0, 0, 0, 0, 8, 0, 0, true);
    first.extend_from_slice(&[0, 0, 0, 0, 0, 0, 0, 9]);
    let mut data = tree_bytes(&[first], side, true);
    data.push(0x77);
    let mut reader = BinaryReader::new(&data, Endian::Big);
    let forest = TypeInfo::load(&mut reader, 22).unwrap();
    assert_eq!(forest.len(), 1);
    assert_eq!(forest[0].v18meta, Some(9));
    assert_eq!(forest[0].type_str, "x");
    assert_eq!(forest[0].name_str, "x");
    assert_eq!(reader.pos(), (8 + 32 + 2) as u64);
    assert_eq!(reader.uint8(), Ok(0x77));
}

#[test]
fn load_with_empty_string_buffer_in_late_format() {
    let records = vec![record(1, 0, 0, 0x8000_0000, 0x8000_0000 | 427, 0, 0, 0, true)];
    let data = tree_bytes(&records, b"", true);
    let mut reader = BinaryReader::new(&data, Endian::Big);
    let forest = TypeInfo::load(&mut reader, 21).unwrap();
    assert_eq!(forest[0].type_str, "AABB");
    assert_eq!(forest[0].name_str, "m_Name");
    assert_eq!(reader.pos(), data.len() as u64);
}

#[test]
fn load_empty_tree() {
    let data = tree_bytes(&[], b"", true);
    let mut reader = BinaryReader::new(&data, Endian::Big);
    let forest = TypeInfo::load(&mut reader, 17).unwrap();
    assert!(forest.is_empty());
    assert_eq!(reader.pos(), 8);
}

#[test]
fn load_failures() {
    let side = b"ab\0";
    let records = vec![record(1, 0, 0, 0, 1, 0, 0, 0, true)];
    let data = tree_bytes(&records, side, true);
    let mut reader = BinaryReader::new(&data[..data.len() - 1], Endian::Big);
    assert_eq!(TypeInfo::load(&mut reader, 17).err(), Some(DecodeError::Truncated));
    let mut reader = BinaryReader::new(&data[..20], Endian::Big);
    assert_eq!(TypeInfo::load(&mut reader, 17).err(), Some(DecodeError::Truncated));
    let mut reader = BinaryReader::new(&data[..7], Endian::Big);
    assert_eq!(TypeInfo::load(&mut reader, 17).err(), Some(DecodeError::Truncated));

    let records = vec![record(1, 0, 0, 4, 0, 0, 0, 0, true)];
    let data = tree_bytes(&records, side, true);
    let mut reader = BinaryReader::new(&data, Endian::Big);
    assert_eq!(TypeInfo::load(&mut reader, 17).err(), Some(DecodeError::Truncated));

    let records = vec![record(1, 0, 0, 0, 0, 0, 0, 0, true)];
    let data = tree_bytes(&records, &[0xff, 0x00], true);
    let mut reader = BinaryReader::new(&data, Endian::Big);
    assert_eq!(TypeInfo::load(&mut reader, 17).err(), Some(DecodeError::InvalidText));

    let records = vec![
        record(1, 0, 0, 0, 0, 0, 0, 0, true),
        record(1, 2, 0, 0, 0, 0, 1, 0, true),
    ];
    let data = tree_bytes(&records, side, true);
    let mut reader = BinaryReader::new(&data, Endian::Big);
    assert_eq!(TypeInfo::load(&mut reader, 17).err(), Some(DecodeError::InvalidNesting));
}

#[test]
fn load_reports_text_before_nesting() {
    let records = vec![
        record(1, 1, 0, 0, 0, 0, 0, 0, true),
        record(1, 0, 0, 9, 0, 0, 1, 0, true),
    ];
    let data = tree_bytes(&records, b"ab\0", true);
    let mut reader = BinaryReader::new(&data, Endian::Big);
    assert_eq!(TypeInfo::load(&mut reader, 17).err(), Some(DecodeError::Truncated));
}
