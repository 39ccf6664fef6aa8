use crate::bytes::{check_fits, fits, get_u16, get_u32, get_u64, has_signature, le_u16, le_u32, le_u64};
use crate::error::Error;
use vstd::prelude::*;

verus! {

/// The two kinds of version-1 B-tree node.
#[derive(Clone, Copy, Debug, PartialEq, Eq, Structural)]
pub enum BTreeNodeType {
    /// Keys are name offsets; leaves point to symbol-table nodes.
    Group,
    /// Keys are chunk coordinates; leaves point to chunk payloads.
    RawDataChunk,
}

/// One key of a chunk B-tree node, with the address that follows it.
#[derive(Clone, Debug)]
pub struct BTreeNodeKey {
    pub chunk_size: u32,
    pub filter_mask: u32,
    pub chunk_offsets: Vec<u64>,
    pub chunk_address: u64,
}

/// A node of a chunk B-tree.
#[derive(Clone, Debug)]
pub struct BTreeNode {
    pub node_type: BTreeNodeType,
    pub node_level: u8,
    pub entries_used: u16,
    pub left_sibling: u64,
    pub right_sibling: u64,
    pub keys: Vec<BTreeNodeKey>,
}

/// Size in bytes of a B-tree node header.
pub const TREE_HEADER_SIZE: usize = 24;

pub open spec fn tree_signature() -> Seq<u8> {
    seq![84u8, 82u8, 69u8, 69u8]
}

/// The node type that a type byte stands for.
pub open spec fn node_type_of(b: u8) -> Option<BTreeNodeType> {
    if b == 0 {
        Some(BTreeNodeType::Group)
    } else if b == 1 {
        Some(BTreeNodeType::RawDataChunk)
    } else {
        None
    }
}

/// The header at `p` is a B-tree node header of the given type.
pub open spec fn tree_header_ok(d: Seq<u8>, p: int, t: BTreeNodeType) -> bool {
    &&& fits(d, p, TREE_HEADER_SIZE as int)
    &&& d.subrange(p, p + 4) == tree_signature()
    &&& node_type_of(d[p + 4]) == Some(t)
}

/// Size in bytes of one chunk key and its address, for `dims` coordinates.
pub open spec fn chunk_key_size(dims: int) -> int {
    16 + 8 * dims
}

/// `k` holds the chunk key whose bytes start at `q`.
pub open spec fn chunk_key_at(k: BTreeNodeKey, d: Seq<u8>, q: int, dims: int) -> bool {
    &&& k.chunk_size == le_u32(d, q)
    &&& k.filter_mask == le_u32(d, q + 4)
    &&& k.chunk_offsets@.len() == dims
    &&& forall|j: int| 0 <= j < dims ==> k.chunk_offsets@[j] == le_u64(d, q + 8 + 8 * j)
    &&& k.chunk_address == le_u64(d, q + 8 + 8 * dims)
}

/// `n` is the chunk B-tree node whose bytes start at `p`.
pub open spec fn chunk_node_at(n: BTreeNode, d: Seq<u8>, p: int, dims: int) -> bool {
    &&& n.node_type == BTreeNodeType::RawDataChunk
    &&& n.node_level == d[p + 5]
    &&& n.entries_used == le_u16(d, p + 6)
    &&& n.left_sibling == le_u64(d, p + 8)
    &&& n.right_sibling == le_u64(d, p + 16)
    &&& n.keys@.len() == n.entries_used
    &&& forall|i: int|
        0 <= i < n.keys@.len() ==> chunk_key_at(
            #[trigger] n.keys@[i],
            d,
            p + TREE_HEADER_SIZE + i * chunk_key_size(dims),
            dims,
        )
}

/// The failure, if any, of reading the chunk B-tree node at `p`.
pub open spec fn chunk_node_error(d: Seq<u8>, p: int, dims: int) -> Option<Error> {
    if !fits(d, p, TREE_HEADER_SIZE as int) {
        Some(Error::Io)
    } else if !tree_header_ok(d, p, BTreeNodeType::RawDataChunk) {
        Some(Error::Format)
    } else if !fits(d, p + TREE_HEADER_SIZE, le_u16(d, p + 6) * chunk_key_size(dims)) {
        Some(Error::Io)
    } else {
        None
    }
}

/// Position of key `i` of the chunk B-tree node at `p`.
pub open spec fn key_position(p: int, i: int, dims: int) -> int {
    p + TREE_HEADER_SIZE + i * chunk_key_size(dims)
}

/// Positions of the keys of the chunk B-tree node at `p`.
pub open spec fn chunk_node_positions(d: Seq<u8>, p: int, dims: int) -> Seq<int> {
    Seq::new(le_u16(d, p + 6) as nat, |i: int| key_position(p, i, dims))
}

/// The child addresses of the chunk B-tree node at `p`.
pub open spec fn chunk_node_children(d: Seq<u8>, p: int, dims: int) -> Seq<u64> {
    Seq::new(
        le_u16(d, p + 6) as nat,
        |i: int| le_u64(d, key_position(p, i, dims) + 8 + 8 * dims) as u64,
    )
}

/// The positions of the chunk keys of the leaves of the subtree at `p`,
/// whose root must stand at `level`, in order; or the first failure.
pub open spec fn chunk_subtree(d: Seq<u8>, p: int, level: int, dims: int) -> Result<
    Seq<int>,
    Error,
>
    decreases level, 1int,
{
    if level < 0 {
        Err(Error::Format)
    } else {
        match chunk_node_error(d, p, dims) {
            Some(e) => Err(e),
            None => if d[p + 5] != level {
                Err(Error::Format)
            } else if level == 0 {
                Ok(chunk_node_positions(d, p, dims))
            } else {
                chunk_children(d, chunk_node_children(d, p, dims), 0, level - 1, dims)
            },
        }
    }
}

/// The leaf key positions of the subtrees at `addrs[i..]`, one after
/// another; or the first failure.
pub open spec fn chunk_children(d: Seq<u8>, addrs: Seq<u64>, i: int, level: int, dims: int) -> Result<
    Seq<int>,
    Error,
>
    decreases level, addrs.len() - i + 2,
{
    if i < 0 || i >= addrs.len() || level < 0 {
        Ok(Seq::empty())
    } else {
        match chunk_subtree(d, addrs[i] as int, level, dims) {
            Err(e) => Err(e),
            Ok(a) => match chunk_children(d, addrs, i + 1, level, dims) {
                Err(e) => Err(e),
                Ok(b) => Ok(a + b),
            },
        }
    }
}

/// The positions of the keys of all chunks of the chunk B-tree at `p`, in
/// order; or the first failure.
pub open spec fn chunk_tree_positions(d: Seq<u8>, p: int, dims: int) -> Result<Seq<int>, Error> {
    match chunk_node_error(d, p, dims) {
        Some(e) => Err(e),
        None => chunk_subtree(d, p, d[p + 5] as int, dims),
    }
}

/// `keys` are the chunk keys at the positions `ps`.
pub open spec fn keys_at(keys: Seq<BTreeNodeKey>, d: Seq<u8>, ps: Seq<int>, dims: int) -> bool {
    &&& keys.len() == ps.len()
    &&& forall|k: int| 0 <= k < keys.len() ==> chunk_key_at(#[trigger] keys[k], d, ps[k], dims)
}

/// Reads the node-type byte, or `Format` for a value that names no node type.
pub fn node_type_from_u8(b: u8) -> (r: Result<BTreeNodeType, Error>)
    ensures
        node_type_of(b) is Some ==> r == Ok::<BTreeNodeType, Error>(node_type_of(b)->Some_0),
        node_type_of(b) is None ==> r == Err::<BTreeNodeType, Error>(Error::Format),
{
    if b == 0 {
        Ok(BTreeNodeType::Group)
    } else if b == 1 {
        Ok(BTreeNodeType::RawDataChunk)
    } else {
        Err(Error::Format)
    }
}

/// Checks the header of the B-tree node at `p`: `Io` where it lies past the
/// end of the file, `Format` where the signature or the node type is not the
/// expected one.
pub fn check_tree_header(d: &[u8], p: usize, t: BTreeNodeType) -> (r: Result<(), Error>)
    ensures
        r is Ok <==> tree_header_ok(d@, p as int, t),
        r == Err::<(), Error>(Error::Io) <==> !fits(d@, p as int, TREE_HEADER_SIZE as int),
        r is Err ==> r == Err::<(), Error>(Error::Io) || r == Err::<(), Error>(Error::Format),
        d@.len() <= usize::MAX,
{
    check_fits(d, p, TREE_HEADER_SIZE)?;
    let sig: [u8; 4] = [84u8, 82u8, 69u8, 69u8];
    assert(sig@ =~= tree_signature());
    if !has_signature(d, p, &sig) {
        return Err(Error::Format);
    }
    let node_type = node_type_from_u8(d[p + 4])?;
    if node_type != t {
        return Err(Error::Format);
    }
    Ok(())
}

/// Parses the chunk B-tree node at `offset`, whose keys hold `dimensions`
/// coordinates each (the dimensionality of a chunk layout is stored in one
/// byte).
pub fn parse_node(d: &[u8], offset: u64, dimensions: usize) -> (r: Result<BTreeNode, Error>)
    requires
        dimensions <= 256,
    ensures
        match r {
            Ok(n) => chunk_node_error(d@, offset as int, dimensions as int) is None && chunk_node_at(
                n,
                d@,
                offset as int,
                dimensions as int,
            ),
            Err(e) => chunk_node_error(d@, offset as int, dimensions as int) == Some(e),
        },
{
    let _len = d.len();
    if offset > usize::MAX as u64 {
        return Err(Error::Io);
    }
    let p = offset as usize;
    check_tree_header(d, p, BTreeNodeType::RawDataChunk)?;
    let node_level = d[p + 5];
    let entries_used = get_u16(d, p + 6);
    let left_sibling = get_u64(d, p + 8);
    let right_sibling = get_u64(d, p + 16);
    let ks: usize = 16 + 8 * dimensions;
    let n = entries_used as usize;
    assert(n * ks <= 65535 * 2064) by (nonlinear_arith)
        requires
            n <= 65535,
            ks <= 2064,
    ;
    check_fits(d, p + TREE_HEADER_SIZE, n * ks)?;
    let mut keys: Vec<BTreeNodeKey> = Vec::new();
    let mut i: usize = 0;
    while i < n
        invariant
            p == offset,
            ks == chunk_key_size(dimensions as int),
            dimensions <= 256,
            fits(d@, p + TREE_HEADER_SIZE, n * ks),
            d@.len() <= usize::MAX,
            i <= n,
            keys@.len() == i,
            forall|k: int|
                0 <= k < i ==> chunk_key_at(
                    #[trigger] keys@[k],
                    d@,
                    p + TREE_HEADER_SIZE + k * ks,
                    dimensions as int,
                ),
        decreases n - i,
    {
        assert((i + 1) * ks <= n * ks && i * ks + ks == (i + 1) * ks) by (nonlinear_arith)
            requires
                i < n,
        ;
        let q = p + TREE_HEADER_SIZE + i * ks;
        let mut offsets: Vec<u64> = Vec::new();
        let mut j: usize = 0;
        while j < dimensions
            invariant
                q + ks <= d@.len(),
                d@.len() <= usize::MAX,
                ks == 16 + 8 * dimensions,
                j <= dimensions,
                offsets@.len() == j,
                forall|m: int| 0 <= m < j ==> offsets@[m] == le_u64(d@, q + 8 + 8 * m),
            decreases dimensions - j,
        {
            offsets.push(get_u64(d, q + 8 + 8 * j));
            j += 1;
        }
        let key = BTreeNodeKey {
            chunk_size: get_u32(d, q),
            filter_mask: get_u32(d, q + 4),
            chunk_offsets: offsets,
            chunk_address: get_u64(d, q + 8 + 8 * dimensions),
        };
        keys.push(key);
        i += 1;
    }
    Ok(
        BTreeNode {
            node_type: BTreeNodeType::RawDataChunk,
            node_level,
            entries_used,
            left_sibling,
            right_sibling,
            keys,
        },
    )
}

} // verus!

verus! {

/// Keys at two runs of positions, one after the other.
proof fn lemma_keys_at_concat(
    k1: Seq<BTreeNodeKey>,
    k2: Seq<BTreeNodeKey>,
    d: Seq<u8>,
    p1: Seq<int>,
    p2: Seq<int>,
    dims: int,
)
    requires
        keys_at(k1, d, p1, dims),
        keys_at(k2, d, p2, dims),
    ensures
        keys_at(k1 + k2, d, p1 + p2, dims),
{
    let k = k1 + k2;
    let p = p1 + p2;
    assert forall|m: int| 0 <= m < k.len() implies chunk_key_at(#[trigger] k[m], d, p[m], dims) by {
        if m < k1.len() {
            assert(k[m] == k1[m] && p[m] == p1[m]);
        } else {
            assert(k[m] == k2[m - k1.len()] && p[m] == p2[m - k1.len()]);
        }
    }
}

/// Appends to `out` the keys of the leaves of the chunk subtree rooted at
/// `offset`, whose root must stand at `level`; each child stands one level
/// below its parent, else `Format`.
fn chunk_subtree_keys(
    d: &[u8],
    offset: u64,
    dimensions: usize,
    level: u8,
    out: &mut Vec<BTreeNodeKey>,
) -> (r: Result<(), Error>)
    requires
        dimensions <= 256,
    ensures
        match r {
            Ok(_) => {
                &&& chunk_subtree(d@, offset as int, level as int, dimensions as int) is Ok
                &&& final(out)@.len() >= old(out)@.len()
                &&& final(out)@.subrange(0, old(out)@.len() as int) == old(out)@
                &&& keys_at(
                    final(out)@.subrange(old(out)@.len() as int, final(out)@.len() as int),
                    d@,
                    chunk_subtree(d@, offset as int, level as int, dimensions as int)->Ok_0,
                    dimensions as int,
                )
            },
            Err(e) => chunk_subtree(d@, offset as int, level as int, dimensions as int) == Err::<
                Seq<int>,
                Error,
            >(e),
        },
    decreases level,
{
    let node = parse_node(d, offset, dimensions)?;
    if node.node_level != level {
        return Err(Error::Format);
    }
    let ghost dims = dimensions as int;
    let ghost start = out@;
    let ghost node_keys = node.keys@;
    let n = node.keys.len();
    let mut keys = node.keys;
    assert(out@.subrange(0, start.len() as int) =~= start);
    if level == 0 {
        let ghost ps = chunk_node_positions(d@, offset as int, dims);
        assert(out@.subrange(start.len() as int, out@.len() as int) =~= Seq::<BTreeNodeKey>::empty());
        let mut j: usize = 0;
        while j < n
            invariant
                n == node_keys.len(),
                ps == chunk_node_positions(d@, offset as int, dims),
                ps.len() == n,
                chunk_node_at(node, d@, offset as int, dims),
                node_keys == node.keys@,
                keys@ == node_keys.subrange(j as int, n as int),
                j <= n,
                out@.len() == start.len() + j,
                out@.subrange(0, start.len() as int) == start,
                keys_at(
                    out@.subrange(start.len() as int, out@.len() as int),
                    d@,
                    ps.subrange(0, j as int),
                    dims,
                ),
            decreases n - j,
        {
            let ghost got = out@.subrange(start.len() as int, out@.len() as int);
            let key = keys.remove(0);
            assert(key == node_keys[j as int]);
            assert(chunk_key_at(key, d@, ps[j as int], dims));
            out.push(key);
            proof {
                assert(out@.subrange(0, start.len() as int) =~= start);
                assert(out@.subrange(start.len() as int, out@.len() as int) =~= got + seq![key]);
                assert(ps.subrange(0, j + 1) =~= ps.subrange(0, j as int) + seq![ps[j as int]]);
                lemma_keys_at_concat(got, seq![key], d@, ps.subrange(0, j as int), seq![ps[j as int]], dims);
            }
            j += 1;
            assert(keys@ =~= node_keys.subrange(j as int, n as int));
        }
        assert(ps.subrange(0, n as int) =~= ps);
        return Ok(());
    }
    let ghost addrs = chunk_node_children(d@, offset as int, dims);
    assert forall|k: int| 0 <= k < n implies #[trigger] keys@[k].chunk_address == addrs[k] by {
        assert(chunk_key_at(keys@[k], d@, offset + TREE_HEADER_SIZE + k * chunk_key_size(dims), dims));
    }
    assert(chunk_subtree(d@, offset as int, level as int, dims) == chunk_children(
        d@,
        addrs,
        0,
        level - 1,
        dims,
    ));
    let ghost mut acc: Seq<int> = Seq::empty();
    assert(out@.subrange(start.len() as int, out@.len() as int) =~= Seq::<BTreeNodeKey>::empty());
    let mut i: usize = 0;
    while i < n
        invariant
            n == keys@.len(),
            addrs.len() == n,
            forall|k: int| 0 <= k < n ==> #[trigger] keys@[k].chunk_address == addrs[k],
            dimensions <= 256,
            dims == dimensions,
            level > 0,
            chunk_subtree(d@, offset as int, level as int, dims) == chunk_children(
                d@,
                addrs,
                0,
                level - 1,
                dims,
            ),
            i <= n,
            out@.len() >= start.len(),
            out@.subrange(0, start.len() as int) == start,
            keys_at(out@.subrange(start.len() as int, out@.len() as int), d@, acc, dims),
            chunk_children(d@, addrs, 0, level - 1, dims) == crate::group_btree::prepend(
                acc,
                chunk_children(d@, addrs, i as int, level - 1, dims),
            ),
        decreases n - i,
    {
        let ghost before = out@;
        let ghost rest = chunk_children(d@, addrs, i + 1, level - 1, dims);
        match chunk_subtree_keys(d, keys[i].chunk_address, dimensions, level - 1, out) {
            Ok(_) => {
                proof {
                    let a = chunk_subtree(d@, addrs[i as int] as int, level - 1, dims)->Ok_0;
                    let got = before.subrange(start.len() as int, before.len() as int);
                    let new = out@.subrange(before.len() as int, out@.len() as int);
                    assert(out@ =~= before + new);
                    assert(out@.subrange(0, start.len() as int) =~= start);
                    assert(out@.subrange(start.len() as int, out@.len() as int) =~= got + new);
                    lemma_keys_at_concat(got, new, d@, acc, a, dims);
                    match rest {
                        Ok(x) => {
                            assert(acc + (a + x) =~= (acc + a) + x);
                        },
                        Err(_) => {},
                    }
                    acc = acc + a;
                }
            },
            Err(e) => {
                return Err(e);
            },
        }
        i += 1;
    }
    assert(acc + Seq::<int>::empty() =~= acc);
    Ok(())
}

/// The keys of all chunks of the chunk B-tree rooted at `address`, in the
/// order of the tree, each key holding `dimensions` coordinates.
pub fn collect_chunk_keys(d: &[u8], address: u64, dimensions: usize) -> (r: Result<
    Vec<BTreeNodeKey>,
    Error,
>)
    requires
        dimensions <= 256,
    ensures
        match r {
            Ok(v) => chunk_tree_positions(d@, address as int, dimensions as int) is Ok && keys_at(
                v@,
                d@,
                chunk_tree_positions(d@, address as int, dimensions as int)->Ok_0,
                dimensions as int,
            ),
            Err(e) => chunk_tree_positions(d@, address as int, dimensions as int) == Err::<
                Seq<int>,
                Error,
            >(e),
        },
{
    let root = parse_node(d, address, dimensions)?;
    let mut out: Vec<BTreeNodeKey> = Vec::new();
    chunk_subtree_keys(d, address, dimensions, root.node_level, &mut out)?;
    assert(out@.subrange(0, 0) =~= Seq::<BTreeNodeKey>::empty());
    assert(out@.subrange(0, out@.len() as int) =~= out@);
    Ok(out)
}

} // verus!
