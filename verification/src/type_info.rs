use crate::binary_reader::{
    bool_at, fits, i32_at, lemma_repeat_fails, lemma_repeat_len, lemma_repeat_next, repeat_at,
    u16_at, u32_at, u64_at, u8_at, BinaryReader, Parsed,
};
use crate::constants::{get_string_or_default, resolved};
use crate::endian::Endian;
use crate::error::DecodeError;
use vstd::prelude::*;

verus! {

/// A node of a type tree: one field of a serialized type, with the nodes of
/// its own fields as children.
#[derive(Debug)]
pub struct TypeInfo {
    pub version: u16,
    pub level: u8,
    pub is_array: bool,
    pub type_id: u32,
    pub type_str: String,
    pub name_id: u32,
    pub name_str: String,
    pub size: i32,
    pub index: u32,
    pub flags: u32,
    pub v18meta: Option<u64>,
    pub children: Vec<TypeInfo>,
}

/// What a node holds of its own, without its children: one record of the
/// flat node array.
pub ghost struct TypeNode {
    pub version: u16,
    pub level: u8,
    pub is_array: bool,
    pub type_id: u32,
    pub type_str: Seq<char>,
    pub name_id: u32,
    pub name_str: Seq<char>,
    pub size: i32,
    pub index: u32,
    pub flags: u32,
    pub v18meta: Option<u64>,
}

/// The records of a flat node array.
pub open spec fn records(nodes: Seq<TypeInfo>) -> Seq<TypeNode> {
    Seq::new(nodes.len(), |i: int| nodes[i].record())
}

/// The pre-order traversal of a forest: every tree's root, then the
/// traversal of its children, tree by tree.
pub open spec fn preorder(forest: Seq<TypeInfo>) -> Seq<TypeNode>
    decreases forest,
{
    if forest.len() == 0 {
        Seq::empty()
    } else {
        preorder(forest.drop_last()) + preorder_of(forest.last())
    }
}

/// The pre-order traversal of one tree.
pub open spec fn preorder_of(tree: TypeInfo) -> Seq<TypeNode>
    decreases tree,
{
    seq![tree.record()] + preorder(tree.children@)
}

/// Every root of the forest records `depth` as its level, and every other
/// node one more than its parent.
pub open spec fn nested(forest: Seq<TypeInfo>, depth: int) -> bool
    decreases forest,
{
    forest.len() > 0 ==> nested(forest.drop_last(), depth) && nested_at(forest.last(), depth)
}

/// The root of the tree records `depth` as its level, and every other node
/// one more than its parent.
pub open spec fn nested_at(tree: TypeInfo, depth: int) -> bool
    decreases tree,
{
    tree.level == depth && nested(tree.children@, depth + 1)
}

/// The node with index `i` lies at most one level below the node before it.
pub open spec fn descends(nodes: Seq<TypeNode>, i: int) -> bool {
    nodes[i].level <= nodes[i - 1].level + 1
}

/// The levels of a node array are those of a pre-order traversal: the first
/// node is a root, and no node lies more than one level below the node
/// before it.
pub open spec fn well_nested(nodes: Seq<TypeNode>) -> bool {
    &&& nodes.len() > 0 ==> nodes[0].level == 0
    &&& forall|i: int| 0 < i < nodes.len() ==> #[trigger] descends(nodes, i)
}

/// The two forests have the same shape, and nodes in the same place hold the
/// same records.
pub open spec fn same_forest(a: Seq<TypeInfo>, b: Seq<TypeInfo>) -> bool
    decreases a,
{
    &&& a.len() == b.len()
    &&& a.len() > 0 ==> same_forest(a.drop_last(), b.drop_last()) && same_tree(a.last(), b.last())
}

/// The two trees have the same shape, and nodes in the same place hold the
/// same records.
pub open spec fn same_tree(a: TypeInfo, b: TypeInfo) -> bool
    decreases a,
{
    a.record() == b.record() && same_forest(a.children@, b.children@)
}

/// In the traversal of a nested forest no node lies above the roots, and
/// every tree contributes at least its root.
pub proof fn lemma_forest_levels(forest: Seq<TypeInfo>, depth: int)
    requires
        nested(forest, depth),
    ensures
        preorder(forest).len() >= forest.len(),
        forall|i: int|
            0 <= i < preorder(forest).len() ==> (#[trigger] preorder(forest)[i]).level >= depth,
    decreases forest,
{
    if forest.len() > 0 {
        lemma_forest_levels(forest.drop_last(), depth);
        lemma_tree_levels(forest.last(), depth);
    }
}

/// The traversal of a nested tree starts with its root, and every other
/// node of it lies below the root.
pub proof fn lemma_tree_levels(tree: TypeInfo, depth: int)
    requires
        nested_at(tree, depth),
    ensures
        preorder_of(tree).len() == 1 + preorder(tree.children@).len(),
        preorder_of(tree)[0] == tree.record(),
        preorder_of(tree)[0].level == depth,
        forall|i: int|
            0 < i < preorder_of(tree).len() ==> (#[trigger] preorder_of(tree)[i]).level > depth,
    decreases tree,
{
    lemma_forest_levels(tree.children@, depth + 1);
    assert forall|i: int| 0 < i < preorder_of(tree).len() implies (#[trigger] preorder_of(
        tree,
    )[i]).level > depth by {
        assert(preorder_of(tree)[i] == preorder(tree.children@)[i - 1]);
    }
}

/// The traversal of a nested forest is well nested: it starts with a root,
/// and no node lies more than one level below the node before it.
pub proof fn lemma_preorder_descends(forest: Seq<TypeInfo>, depth: int)
    requires
        nested(forest, depth),
    ensures
        preorder(forest).len() > 0 ==> preorder(forest)[0].level == depth,
        forall|i: int| 0 < i < preorder(forest).len() ==> #[trigger] descends(preorder(forest), i),
    decreases forest,
{
    if forest.len() > 0 {
        let init = forest.drop_last();
        let tree = forest.last();
        let head = preorder(init);
        let tail = preorder_of(tree);
        let kids = preorder(tree.children@);
        assert(nested(init, depth) && nested_at(tree, depth));
        lemma_preorder_descends(init, depth);
        lemma_preorder_descends(tree.children@, depth + 1);
        lemma_forest_levels(init, depth);
        lemma_tree_levels(tree, depth);
        assert forall|i: int| 0 < i < preorder(forest).len() implies #[trigger] descends(
            preorder(forest),
            i,
        ) by {
            let all = preorder(forest);
            if i < head.len() {
                assert(descends(head, i));
                assert(all[i] == head[i] && all[i - 1] == head[i - 1]);
            } else if i == head.len() {
                assert(all[i] == tail[0]);
                assert(all[i - 1] == head[i - 1]);
            } else {
                let k = i - head.len();
                assert(all[i] == tail[k] && all[i - 1] == tail[k - 1]);
                assert(tail[k] == kids[k - 1]);
                if k == 1 {
                    assert(tail[0].level == depth);
                } else {
                    assert(tail[k - 1] == kids[k - 2]);
                    assert(descends(kids, k - 1));
                }
            }
        }
        if head.len() > 0 {
            assert(preorder(forest)[0] == head[0]);
        } else {
            assert(preorder(forest)[0] == tail[0]);
        }
    }
}

/// A node array has one forest at most: two nested forests with the same
/// traversal have the same shape and hold the same records in the same
/// places.
pub proof fn lemma_forest_unique(a: Seq<TypeInfo>, b: Seq<TypeInfo>, depth: int)
    requires
        nested(a, depth),
        nested(b, depth),
        preorder(a) == preorder(b),
    ensures
        same_forest(a, b),
    decreases preorder(a).len(),
{
    lemma_forest_levels(a, depth);
    lemma_forest_levels(b, depth);
    if a.len() > 0 && b.len() > 0 {
        let flat = preorder(a);
        let n = flat.len() as int;
        let ta = a.last();
        let tb = b.last();
        let ia = a.drop_last();
        let ib = b.drop_last();
        assert(nested(ia, depth) && nested_at(ta, depth));
        assert(nested(ib, depth) && nested_at(tb, depth));
        lemma_tree_levels(ta, depth);
        lemma_tree_levels(tb, depth);
        let la = preorder_of(ta).len() as int;
        let lb = preorder_of(tb).len() as int;
        assert(flat == preorder(ia) + preorder_of(ta));
        assert(flat == preorder(ib) + preorder_of(tb));
        if la < lb {
            assert(flat[n - la] == preorder_of(ta)[0]);
            assert(flat[n - la] == preorder_of(tb)[lb - la]);
            assert(false);
        }
        if lb < la {
            assert(flat[n - lb] == preorder_of(tb)[0]);
            assert(flat[n - lb] == preorder_of(ta)[la - lb]);
            assert(false);
        }
        assert(preorder(ia) =~= preorder(ib)) by {
            assert forall|i: int| 0 <= i < n - la implies preorder(ia)[i] == preorder(ib)[i] by {
                assert(flat[i] == preorder(ia)[i]);
                assert(flat[i] == preorder(ib)[i]);
            }
        }
        assert(preorder_of(ta) =~= preorder_of(tb)) by {
            assert forall|i: int| 0 <= i < la implies preorder_of(ta)[i] == preorder_of(tb)[i] by {
                assert(flat[n - la + i] == preorder_of(ta)[i]);
                assert(flat[n - la + i] == preorder_of(tb)[i]);
            }
        }
        lemma_forest_unique(ia, ib, depth);
        let ka = preorder(ta.children@);
        let kb = preorder(tb.children@);
        assert(ka =~= kb) by {
            assert forall|i: int| 0 <= i < la - 1 implies ka[i] == kb[i] by {
                assert(preorder_of(ta)[i + 1] == ka[i]);
                assert(preorder_of(tb)[i + 1] == kb[i]);
            }
        }
        lemma_forest_unique(ta.children@, tb.children@, depth + 1);
        assert(ta.record() == tb.record()) by {
            assert(preorder_of(ta)[0] == preorder_of(tb)[0]);
        }
        assert(same_tree(ta, tb));
    } else {
        assert(preorder(a).len() == 0);
        assert(a.len() == 0 && b.len() == 0);
    }
}

/// A forest grows by one tree: its traversal by the tree's, and it stays
/// nested where the tree is.
proof fn lemma_push_tree(
    out: Seq<TypeInfo>,
    node: TypeInfo,
    all: Seq<TypeNode>,
    start: int,
    pos: int,
    next: int,
    level: int,
)
    requires
        0 <= start <= pos < next <= all.len(),
        preorder(out) == all.subrange(start, pos),
        node.record() == all[pos],
        preorder(node.children@) == all.subrange(pos + 1, next),
        nested(out, level),
        node.level == level,
        nested(node.children@, level + 1),
    ensures
        preorder(out.push(node)) == all.subrange(start, next),
        nested(out.push(node), level),
{
    assert(out.push(node).drop_last() =~= out);
    assert(out.push(node).last() == node);
    assert(preorder(out.push(node)) == preorder(out) + preorder_of(node));
    assert(preorder(out) + (seq![node.record()] + preorder(node.children@)) =~= all.subrange(
        start,
        next,
    ));
    assert(nested_at(node, level));
}

/// The record at `p`: 24 bytes, and 8 more where its version is 18 or later.
/// The two names are not part of the record and are empty.
pub open spec fn node_at(s: Seq<u8>, p: int, e: Endian) -> Parsed<TypeNode> {
    if !fits(s, p, 24) {
        Err(DecodeError::Truncated)
    } else if u16_at(s, p, e) >= 18 && !fits(s, p, 32) {
        Err(DecodeError::Truncated)
    } else {
        Ok(
            (
                TypeNode {
                    version: u16_at(s, p, e),
                    level: u8_at(s, p + 2),
                    is_array: bool_at(s, p + 3),
                    type_id: u32_at(s, p + 4, e),
                    type_str: Seq::empty(),
                    name_id: u32_at(s, p + 8, e),
                    name_str: Seq::empty(),
                    size: i32_at(s, p + 12, e),
                    index: u32_at(s, p + 16, e),
                    flags: u32_at(s, p + 20, e),
                    v18meta: if u16_at(s, p, e) >= 18 {
                        Some(u64_at(s, p + 24, e))
                    } else {
                        None
                    },
                },
                if u16_at(s, p, e) >= 18 {
                    p + 32
                } else {
                    p + 24
                },
            ),
        )
    }
}

/// Decoding one record, as a function of its position.
pub open spec fn node_item(s: Seq<u8>, e: Endian) -> spec_fn(int) -> Parsed<TypeNode> {
    |p: int| node_at(s, p, e)
}

/// The record with its two names resolved against the string buffer `side`,
/// the type name first.
pub open spec fn named(node: TypeNode, side: Seq<u8>) -> Result<TypeNode, DecodeError> {
    match resolved(node.type_id, side) {
        Ok(type_str) => match resolved(node.name_id, side) {
            Ok(name_str) => Ok(
                TypeNode {
                    version: node.version,
                    level: node.level,
                    is_array: node.is_array,
                    type_id: node.type_id,
                    type_str,
                    name_id: node.name_id,
                    name_str,
                    size: node.size,
                    index: node.index,
                    flags: node.flags,
                    v18meta: node.v18meta,
                },
            ),
            Err(e) => Err(e),
        },
        Err(e) => Err(e),
    }
}

/// Resolving the names of the record with index `i`, as a function of `i`.
pub open spec fn name_item(nodes: Seq<TypeNode>, side: Seq<u8>) -> spec_fn(int) -> Parsed<
    TypeNode,
> {
    |i: int|
        match named(nodes[i], side) {
            Ok(node) => Ok((node, i + 1)),
            Err(e) => Err(e),
        }
}

/// The type tree at `p`, as its node array in file order: a node count and
/// the size of the string buffer, the records, then the string buffer,
/// against which the names of all records are resolved in order. The levels
/// must be those of a pre-order traversal.
#[verifier::opaque]
pub open spec fn type_tree_at(s: Seq<u8>, p: int, e: Endian) -> Parsed<Seq<TypeNode>> {
    if !fits(s, p, 8) {
        Err(DecodeError::Truncated)
    } else {
        let count = u32_at(s, p, e);
        let buf_size = u32_at(s, p + 4, e);
        match repeat_at(node_item(s, e), p + 8, count as nat) {
            Err(err) => Err(err),
            Ok((raw, q)) => if !fits(s, q, buf_size as int) {
                Err(DecodeError::Truncated)
            } else {
                match repeat_at(name_item(raw, s.subrange(q, q + buf_size)), 0, count as nat) {
                    Err(err) => Err(err),
                    Ok((nodes, _)) => if well_nested(nodes) {
                        Ok((nodes, q + buf_size))
                    } else {
                        Err(DecodeError::InvalidNesting)
                    },
                }
            },
        }
    }
}

impl TypeInfo {
    /// What the node holds of its own.
    pub open spec fn record(&self) -> TypeNode {
        TypeNode {
            version: self.version,
            level: self.level,
            is_array: self.is_array,
            type_id: self.type_id,
            type_str: self.type_str@,
            name_id: self.name_id,
            name_str: self.name_str@,
            size: self.size,
            index: self.index,
            flags: self.flags,
            v18meta: self.v18meta,
        }
    }

    /// Reads one record of a flat node array. The node has no children yet
    /// and its names are empty.
    pub fn new(reader: &mut BinaryReader) -> (r: Result<TypeInfo, DecodeError>)
        ensures
            final(reader).bytes() == old(reader).bytes(),
            final(reader).order() == old(reader).order(),
            match node_at(old(reader).bytes(), old(reader).position(), old(reader).order()) {
                Ok((node, p)) => r is Ok && r->Ok_0.record() == node && r->Ok_0.children@.len() == 0
                    && final(reader).position() == p,
                Err(e) => r == Err::<TypeInfo, DecodeError>(e),
            },
    {
        let version = reader.uint16()?;
        let level = reader.uint8()?;
        let is_array = reader.boolean()?;
        let type_id = reader.uint32()?;
        let name_id = reader.uint32()?;
        let size = reader.int32()?;
        let index = reader.uint32()?;
        let flags = reader.uint32()?;
        let v18meta = if version >= 18 {
            Some(reader.uint64()?)
        } else {
            None
        };
        Ok(
            TypeInfo {
                version,
                level,
                is_array,
                type_id,
                type_str: String::new(),
                name_id,
                name_str: String::new(),
                size,
                index,
                flags,
                v18meta,
                children: Vec::new(),
            },
        )
    }

    /// Reads `count` records of a flat node array.
    fn read_records(reader: &mut BinaryReader, count: u32) -> (r: Result<Vec<TypeInfo>, DecodeError>)
        ensures
            final(reader).bytes() == old(reader).bytes(),
            final(reader).order() == old(reader).order(),
            match repeat_at(
                node_item(old(reader).bytes(), old(reader).order()),
                old(reader).position(),
                count as nat,
            ) {
                Ok((nodes, p)) => r is Ok && records(r->Ok_0@) == nodes && final(reader).position()
                    == p,
                Err(e) => r == Err::<Vec<TypeInfo>, DecodeError>(e),
            },
    {
        let ghost s = reader.bytes();
        let ghost origin = reader.position();
        let ghost e = reader.order();
        let ghost item = node_item(s, e);
        let mut raw: Vec<TypeInfo> = Vec::new();
        let mut i: u32 = 0;
        assert(records(raw@) =~= Seq::<TypeNode>::empty());
        while i < count
            invariant
                i <= count,
                s == old(reader).bytes(),
                e == old(reader).order(),
                origin == old(reader).position(),
                reader.bytes() == s,
                reader.order() == e,
                item == node_item(s, e),
                repeat_at(item, origin, i as nat) == Ok::<(Seq<TypeNode>, int), DecodeError>(
                    (records(raw@), reader.position()),
                ),
            decreases count - i,
        {
            let ghost p = reader.position();
            assert(item(p) == node_at(s, p, e));
            match TypeInfo::new(reader) {
                Ok(node) => {
                    proof {
                        lemma_repeat_next(
                            item,
                            origin,
                            i as nat,
                            records(raw@),
                            p,
                            node.record(),
                            reader.position(),
                        );
                        assert(records(raw@.push(node)) =~= records(raw@).push(node.record()));
                    }
                    raw.push(node);
                },
                Err(err) => {
                    proof {
                        lemma_repeat_fails(item, origin, i as nat, count as nat, records(raw@), p, err);
                    }
                    return Err(err);
                },
            }
            i = i + 1;
        }
        Ok(raw)
    }

    /// Resolves the two names of every record against the string buffer
    /// that `names` reads. The cursor of `names` stays where it is.
    fn resolve_names(raw: &Vec<TypeInfo>, names: &mut BinaryReader) -> (r: Result<
        Vec<TypeInfo>,
        DecodeError,
    >)
        ensures
            final(names).bytes() == old(names).bytes(),
            final(names).order() == old(names).order(),
            final(names).position() == old(names).position(),
            match repeat_at(name_item(records(raw@), old(names).bytes()), 0, raw@.len()) {
                Ok((nodes, _)) => r is Ok && records(r->Ok_0@) == nodes,
                Err(e) => r == Err::<Vec<TypeInfo>, DecodeError>(e),
            },
    {
        let ghost side = names.bytes();
        let ghost item = name_item(records(raw@), side);
        let mut nodes: Vec<TypeInfo> = Vec::new();
        let mut k: usize = 0;
        assert(records(nodes@) =~= Seq::<TypeNode>::empty());
        while k < raw.len()
            invariant
                k <= raw@.len(),
                side == old(names).bytes(),
                names.bytes() == side,
                names.order() == old(names).order(),
                names.position() == old(names).position(),
                item == name_item(records(raw@), side),
                repeat_at(item, 0, k as nat) == Ok::<(Seq<TypeNode>, int), DecodeError>(
                    (records(nodes@), k as int),
                ),
            decreases raw@.len() - k,
        {
            let n = &raw[k];
            assert(records(raw@)[k as int] == n.record());
            assert(item(k as int) == match named(n.record(), side) {
                Ok(node) => Ok::<(TypeNode, int), DecodeError>((node, k + 1)),
                Err(e) => Err(e),
            });
            let type_str = match get_string_or_default(n.type_id, names) {
                Ok(text) => text,
                Err(err) => {
                    proof {
                        lemma_repeat_fails(
                            item,
                            0,
                            k as nat,
                            raw@.len(),
                            records(nodes@),
                            k as int,
                            err,
                        );
                    }
                    return Err(err);
                },
            };
            let name_str = match get_string_or_default(n.name_id, names) {
                Ok(text) => text,
                Err(err) => {
                    proof {
                        lemma_repeat_fails(
                            item,
                            0,
                            k as nat,
                            raw@.len(),
                            records(nodes@),
                            k as int,
                            err,
                        );
                    }
                    return Err(err);
                },
            };
            let node = TypeInfo {
                version: n.version,
                level: n.level,
                is_array: n.is_array,
                type_id: n.type_id,
                type_str,
                name_id: n.name_id,
                name_str,
                size: n.size,
                index: n.index,
                flags: n.flags,
                v18meta: n.v18meta,
                children: Vec::new(),
            };
            proof {
                lemma_repeat_next(
                    item,
                    0,
                    k as nat,
                    records(nodes@),
                    k as int,
                    node.record(),
                    k + 1,
                );
                assert(records(nodes@.push(node)) =~= records(nodes@).push(node.record()));
            }
            nodes.push(node);
            k = k + 1;
        }
        Ok(nodes)
    }

    /// Reads a type tree: the node count, the size of the string buffer, the
    /// records, and the string buffer, against which the names are resolved.
    /// The result is the forest that the records describe in pre-order.
    pub fn load(reader: &mut BinaryReader, format: u32) -> (r: Result<Vec<TypeInfo>, DecodeError>)
        ensures
            final(reader).bytes() == old(reader).bytes(),
            final(reader).order() == old(reader).order(),
            match type_tree_at(old(reader).bytes(), old(reader).position(), old(reader).order()) {
                Ok((nodes, p)) => {
                    &&& r is Ok
                    &&& preorder(r->Ok_0@) == nodes
                    &&& nested(r->Ok_0@, 0)
                    &&& final(reader).position() == p
                },
                Err(e) => r == Err::<Vec<TypeInfo>, DecodeError>(e),
            },
    {
        reveal(type_tree_at);
        let node_count = reader.uint32()?;
        let buf_size = reader.uint32()?;
        let raw = Self::read_records(reader, node_count)?;
        proof {
            lemma_repeat_len(
                node_item(old(reader).bytes(), old(reader).order()),
                old(reader).position() + 8,
                node_count as nat,
            );
        }
        let side = reader.take(buf_size as usize)?;
        let mut names = BinaryReader::new(side, Endian::Big);
        let nodes = Self::resolve_names(&raw, &mut names)?;
        if format >= 21 {
            // Four bytes of the string buffer are reserved. The cursor over
            // the buffer is this function's own, so passing over them
            // changes nothing that is read later; a buffer that is shorter
            // holds none of them.
            let _ = names.skip(4);
        }
        Self::link(&nodes)
    }

    /// The trees that start at `start` with roots of level `level`, one
    /// behind the other, and the index of the first node behind them.
    fn collect(nodes: &Vec<TypeInfo>, start: usize, level: usize) -> (r: (Vec<TypeInfo>, usize))
        requires
            start <= nodes.len(),
            level <= 256,
        ensures
            start <= r.1 <= nodes.len(),
            preorder(r.0@) == records(nodes@).subrange(start as int, r.1 as int),
            nested(r.0@, level as int),
            forall|i: int| start <= i < r.1 ==> (#[trigger] records(nodes@)[i]).level >= level,
            forall|i: int| start < i < r.1 ==> #[trigger] descends(records(nodes@), i),
            r.1 > start ==> records(nodes@)[start as int].level == level,
            r.1 < nodes.len() ==> {
                ||| records(nodes@)[r.1 as int].level < level
                ||| r.1 > start && !descends(records(nodes@), r.1 as int)
                ||| r.1 == start && records(nodes@)[r.1 as int].level > level
            },
        decreases nodes.len() - start,
    {
        let ghost all = records(nodes@);
        let mut out: Vec<TypeInfo> = Vec::new();
        let mut pos = start;
        assert(all.subrange(start as int, pos as int) =~= Seq::<TypeNode>::empty());
        while pos < nodes.len() && nodes[pos].level as usize == level
            invariant
                start <= pos <= nodes.len(),
                level <= 256,
                all == records(nodes@),
                all.len() == nodes@.len(),
                preorder(out@) == all.subrange(start as int, pos as int),
                nested(out@, level as int),
                forall|i: int| start <= i < pos ==> (#[trigger] all[i]).level >= level,
                forall|i: int| start < i < pos ==> #[trigger] descends(all, i),
                pos > start ==> all[start as int].level == level,
                pos > start && pos < nodes.len() ==> {
                    ||| all[pos as int].level <= level
                    ||| !descends(all, pos as int)
                },
            decreases nodes.len() - pos,
        {
            let n = &nodes[pos];
            let (kids, next) = Self::collect(nodes, pos + 1, level + 1);
            let node = TypeInfo {
                version: n.version,
                level: n.level,
                is_array: n.is_array,
                type_id: n.type_id,
                type_str: n.type_str.clone(),
                name_id: n.name_id,
                name_str: n.name_str.clone(),
                size: n.size,
                index: n.index,
                flags: n.flags,
                v18meta: n.v18meta,
                children: kids,
            };
            proof {
                assert(all[pos as int] == nodes@[pos as int].record());
                assert(node.record() == all[pos as int]);
                lemma_push_tree(
                    out@,
                    node,
                    all,
                    start as int,
                    pos as int,
                    next as int,
                    level as int,
                );
                assert forall|i: int| start < i < next implies #[trigger] descends(all, i) by {
                    if i == pos {
                        assert(all[i - 1].level >= level);
                    } else if i == pos + 1 {
                        assert(all[i].level == level + 1);
                    }
                }
                if next < nodes.len() {
                    if next == pos + 1 {
                        assert(all[next as int].level != level + 1);
                    }
                }
            }
            out.push(node);
            pos = next;
        }
        proof {
            if pos < nodes.len() {
                assert(all[pos as int] == nodes@[pos as int].record());
            }
        }
        (out, pos)
    }

    /// Rebuilds the forest of a flat node array that lists the nodes in
    /// pre-order, each with its depth as level. The forest's pre-order
    /// traversal gives the array back, and every node lies as deep as its
    /// level says. An array whose levels are not those of a pre-order
    /// traversal is refused.
    pub fn link(nodes: &Vec<TypeInfo>) -> (r: Result<Vec<TypeInfo>, DecodeError>)
        ensures
            match r {
                Ok(forest) => {
                    &&& well_nested(records(nodes@))
                    &&& preorder(forest@) == records(nodes@)
                    &&& nested(forest@, 0)
                },
                Err(e) => !well_nested(records(nodes@)) && e == DecodeError::InvalidNesting,
            },
    {
        let (forest, next) = Self::collect(nodes, 0, 0);
        let ghost all = records(nodes@);
        if next == nodes.len() {
            proof {
                assert(all.subrange(0, next as int) =~= all);
            }
            Ok(forest)
        } else {
            Err(DecodeError::InvalidNesting)
        }
    }
}

} // verus!
