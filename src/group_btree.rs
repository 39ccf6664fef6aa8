use crate::bytes::{check_fits, fits, get_u16, get_u64, le_u16, le_u64};
use crate::error::Error;
use crate::node::{check_tree_header, tree_header_ok, BTreeNodeType, TREE_HEADER_SIZE};
use vstd::prelude::*;

verus! {

/// A node of a group B-tree: keys are name offsets in the group's local heap,
/// addresses point to child nodes or, at level 0, to symbol-table nodes.
#[derive(Clone, Debug)]
pub struct GroupBTreeNode {
    pub node_type: BTreeNodeType,
    pub node_level: u8,
    pub entries_used: u16,
    pub left_sibling: u64,
    pub right_sibling: u64,
    pub keys: Vec<u64>,
    pub addresses: Vec<u64>,
}

/// `n` is the group B-tree node whose bytes start at `p`.
pub open spec fn group_node_at(n: GroupBTreeNode, d: Seq<u8>, p: int) -> bool {
    &&& tree_header_ok(d, p, BTreeNodeType::Group)
    &&& n.node_type == BTreeNodeType::Group
    &&& n.node_level == d[p + 5]
    &&& n.entries_used == le_u16(d, p + 6)
    &&& n.left_sibling == le_u64(d, p + 8)
    &&& n.right_sibling == le_u64(d, p + 16)
    &&& n.keys@.len() == n.entries_used
    &&& n.addresses@.len() == n.entries_used
    &&& forall|i: int|
        0 <= i < n.entries_used ==> n.keys@[i] == le_u64(d, p + TREE_HEADER_SIZE + 16 * i)
            && n.addresses@[i] == le_u64(d, p + TREE_HEADER_SIZE + 16 * i + 8)
}

/// The failure, if any, of reading the group B-tree node at `p`.
pub open spec fn group_node_error(d: Seq<u8>, p: int) -> Option<Error> {
    if !fits(d, p, TREE_HEADER_SIZE as int) {
        Some(Error::Io)
    } else if !tree_header_ok(d, p, BTreeNodeType::Group) {
        Some(Error::Format)
    } else if !fits(d, p + TREE_HEADER_SIZE, 16 * le_u16(d, p + 6)) {
        Some(Error::Io)
    } else {
        None
    }
}

/// The child addresses of the group B-tree node at `p`.
pub open spec fn group_node_addresses(d: Seq<u8>, p: int) -> Seq<u64> {
    Seq::new(
        le_u16(d, p + 6) as nat,
        |i: int| le_u64(d, p + TREE_HEADER_SIZE + 16 * i + 8) as u64,
    )
}

/// The symbol-table-node addresses of the leaves of the subtree at `p`,
/// whose root must stand at `level`, in order; or the first failure.
pub open spec fn subtree_leaves(d: Seq<u8>, p: int, level: int) -> Result<Seq<u64>, Error>
    decreases level, 1int,
{
    if level < 0 {
        Err(Error::Format)
    } else {
        match group_node_error(d, p) {
            Some(e) => Err(e),
            None => if d[p + 5] != level {
                Err(Error::Format)
            } else if level == 0 {
                Ok(group_node_addresses(d, p))
            } else {
                children_leaves(d, group_node_addresses(d, p), 0, level - 1)
            },
        }
    }
}

/// The leaves of the subtrees at `addrs[i..]`, each standing at `level`,
/// one after another; or the first failure.
pub open spec fn children_leaves(d: Seq<u8>, addrs: Seq<u64>, i: int, level: int) -> Result<
    Seq<u64>,
    Error,
>
    decreases level, addrs.len() - i + 2,
{
    if i < 0 || i >= addrs.len() || level < 0 {
        Ok(Seq::empty())
    } else {
        match subtree_leaves(d, addrs[i] as int, level) {
            Err(e) => Err(e),
            Ok(a) => match children_leaves(d, addrs, i + 1, level) {
                Err(e) => Err(e),
                Ok(b) => Ok(a + b),
            },
        }
    }
}

/// `p` followed by what `r` holds, or the failure of `r`.
pub open spec fn prepend<A>(p: Seq<A>, r: Result<Seq<A>, Error>) -> Result<Seq<A>, Error> {
    match r {
        Ok(x) => Ok(p + x),
        Err(e) => Err(e),
    }
}

/// The symbol-table-node addresses of the group B-tree at `p`: the leaves
/// of the tree, walked from the root's level down.
pub open spec fn group_tree_leaves(d: Seq<u8>, p: int) -> Result<Seq<u64>, Error> {
    match group_node_error(d, p) {
        Some(e) => Err(e),
        None => subtree_leaves(d, p, d[p + 5] as int),
    }
}

/// Parses the group B-tree node at `offset`.
pub fn parse_group_btree_node(d: &[u8], offset: u64) -> (r: Result<GroupBTreeNode, Error>)
    ensures
        match r {
            Ok(n) => group_node_error(d@, offset as int) is None && group_node_at(
                n,
                d@,
                offset as int,
            ),
            Err(e) => group_node_error(d@, offset as int) == Some(e),
        },
{
    let _len = d.len();
    if offset > usize::MAX as u64 {
        return Err(Error::Io);
    }
    let p = offset as usize;
    check_tree_header(d, p, BTreeNodeType::Group)?;
    let node_level = d[p + 5];
    let entries_used = get_u16(d, p + 6);
    let left_sibling = get_u64(d, p + 8);
    let right_sibling = get_u64(d, p + 16);
    let n = entries_used as usize;
    check_fits(d, p + TREE_HEADER_SIZE, 16 * n)?;
    let mut keys: Vec<u64> = Vec::new();
    let mut addresses: Vec<u64> = Vec::new();
    let mut i: usize = 0;
    while i < n
        invariant
            p == offset,
            n <= 65535,
            fits(d@, p + TREE_HEADER_SIZE, 16 * n),
            d@.len() <= usize::MAX,
            i <= n,
            keys@.len() == i,
            addresses@.len() == i,
            forall|k: int|
                0 <= k < i ==> keys@[k] == le_u64(d@, p + TREE_HEADER_SIZE + 16 * k)
                    && addresses@[k] == le_u64(d@, p + TREE_HEADER_SIZE + 16 * k + 8),
        decreases n - i,
    {
        let q = p + TREE_HEADER_SIZE + 16 * i;
        keys.push(get_u64(d, q));
        addresses.push(get_u64(d, q + 8));
        i += 1;
    }
    Ok(
        GroupBTreeNode {
            node_type: BTreeNodeType::Group,
            node_level,
            entries_used,
            left_sibling,
            right_sibling,
            keys,
            addresses,
        },
    )
}

/// Appends to `out` the symbol-table-node addresses held by the leaves of
/// the subtree rooted at `offset`, whose root must stand at `level`; each
/// child stands one level below its parent, else `Format`.
fn group_subtree_leaves(d: &[u8], offset: u64, level: u8, out: &mut Vec<u64>) -> (r: Result<
    (),
    Error,
>)
    ensures
        match r {
            Ok(_) => subtree_leaves(d@, offset as int, level as int) is Ok && final(out)@ == old(
                out,
            )@ + subtree_leaves(d@, offset as int, level as int)->Ok_0,
            Err(e) => subtree_leaves(d@, offset as int, level as int) == Err::<Seq<u64>, Error>(e),
        },
    decreases level,
{
    let node = parse_group_btree_node(d, offset)?;
    if node.node_level != level {
        return Err(Error::Format);
    }
    let n = node.addresses.len();
    let ghost addrs = group_node_addresses(d@, offset as int);
    assert(node.addresses@ =~= addrs);
    let ghost start = out@;
    if level == 0 {
        let mut i: usize = 0;
        while i < n
            invariant
                n == node.addresses@.len(),
                node.addresses@ == addrs,
                i <= n,
                out@ == start + addrs.subrange(0, i as int),
            decreases n - i,
        {
            out.push(node.addresses[i]);
            i += 1;
            assert(out@ =~= start + addrs.subrange(0, i as int));
        }
        assert(addrs.subrange(0, n as int) =~= addrs);
        return Ok(());
    }
    assert(subtree_leaves(d@, offset as int, level as int) == children_leaves(
        d@,
        addrs,
        0,
        level - 1,
    ));
    assert(out@.subrange(start.len() as int, out@.len() as int) =~= Seq::<u64>::empty());
    assert(out@.subrange(0, start.len() as int) =~= start);
    let mut i: usize = 0;
    while i < n
        invariant
            n == node.addresses@.len(),
            node.addresses@ == addrs,
            level > 0,
            subtree_leaves(d@, offset as int, level as int) == children_leaves(
                d@,
                addrs,
                0,
                level - 1,
            ),
            i <= n,
            out@.len() >= start.len(),
            out@.subrange(0, start.len() as int) == start,
            children_leaves(d@, addrs, 0, level - 1) == prepend(
                out@.subrange(start.len() as int, out@.len() as int),
                children_leaves(d@, addrs, i as int, level - 1),
            ),
        decreases n - i,
    {
        let ghost before = out@;
        let ghost rest = children_leaves(d@, addrs, i + 1, level - 1);
        match group_subtree_leaves(d, node.addresses[i], level - 1, out) {
            Ok(_) => {
                proof {
                    let a = subtree_leaves(d@, addrs[i as int] as int, level - 1)->Ok_0;
                    let p = before.subrange(start.len() as int, before.len() as int);
                    assert(out@ == before + a);
                    assert(out@.subrange(0, start.len() as int) =~= start);
                    assert(out@.subrange(start.len() as int, out@.len() as int) =~= p + a);
                    match rest {
                        Ok(x) => {
                            assert(p + (a + x) =~= (p + a) + x);
                        },
                        Err(_) => {},
                    }
                }
            },
            Err(e) => {
                assert(children_leaves(d@, addrs, i as int, level - 1) == Err::<Seq<u64>, Error>(e));
                assert(subtree_leaves(d@, offset as int, level as int) == children_leaves(
                    d@,
                    addrs,
                    0,
                    level - 1,
                ));
                return Err(e);
            },
        }
        i += 1;
    }
    proof {
        assert(out@ =~= start + out@.subrange(start.len() as int, out@.len() as int));
    }
    Ok(())
}

/// The addresses of the symbol-table nodes of the group B-tree rooted at
/// `address`, walking from the root's level down to the leaves.
pub fn parse_group_btree(d: &[u8], address: u64) -> (r: Result<Vec<u64>, Error>)
    ensures
        match r {
            Ok(v) => group_tree_leaves(d@, address as int) == Ok::<Seq<u64>, Error>(v@),
            Err(e) => group_tree_leaves(d@, address as int) == Err::<Seq<u64>, Error>(e),
        },
{
    let root = parse_group_btree_node(d, address)?;
    let mut out: Vec<u64> = Vec::new();
    group_subtree_leaves(d, address, root.node_level, &mut out)?;
    assert(out@ =~= Seq::<u64>::empty() + out@);
    Ok(out)
}

} // verus!
