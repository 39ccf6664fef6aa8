use crate::bytes::{
    check_fits, copy_range, decode_name, fits, get_u16, get_u64, get_width, has_nul_from, le_u16,
    le_u64, le_width,
};
use crate::error::Error;
use crate::group_btree::{group_tree_leaves, parse_group_btree};
use crate::local_heap::{heap_name_ok, heap_name_valid, heap_result, LocalHeap};
use crate::symbol_table::{entry_at, SymbolTableEntry, SymbolTableNode, ENTRY_SIZE, NODE_HEADER_SIZE};
use crate::symbol_table::node_header_result;
use vstd::prelude::*;
use vstd::utf8::{decode_utf8, valid_utf8};

verus! {

/// The flag byte of a link message.
#[derive(Clone, Copy, Debug, PartialEq, Eq, Structural)]
pub struct LinkFlags {
    pub bits: u8,
}

/// Low two bits: the width of the name length field.
pub const SIZE_OF_LINK_BITS: u8 = 3;

pub const CREATION_ORDER_FIELD_PRESENT: u8 = 4;

pub const LINK_TYPE_FIELD_PRESENT: u8 = 8;

pub const LINK_NAME_CHARACTER_SET_FIELD_PRESENT: u8 = 16;

/// All bits of `m` are set in `bits`.
pub open spec fn has_flag(bits: u8, m: u8) -> bool {
    bits & m == m
}

impl LinkFlags {
    pub fn new(bits: u8) -> (r: LinkFlags)
        ensures
            r.bits == bits,
    {
        LinkFlags { bits }
    }

    /// Flags with no bit set.
    pub fn empty() -> (r: LinkFlags)
        ensures
            r.bits == 0,
    {
        LinkFlags { bits: 0 }
    }

    /// Whether all bits of `m` are set.
    pub fn contains(&self, m: u8) -> (r: bool)
        ensures
            r == has_flag(self.bits, m),
    {
        self.bits & m == m
    }
}

/// The kinds of link that a link message may hold.
#[derive(Clone, Copy, Debug, PartialEq, Eq, Structural)]
pub enum LinkType {
    Hard,
    Soft,
    External,
}

/// What a link points to.
#[derive(Clone, Debug)]
pub enum LinkTarget {
    Soft { name: String },
    Hard { address: u64 },
}

/// A named child of a group.
#[derive(Clone, Debug)]
pub struct Link {
    pub version: u8,
    pub flags: LinkFlags,
    pub name: String,
    pub target: LinkTarget,
}

/// Character set of a link name.
#[derive(Clone, Copy, Debug, PartialEq, Eq, Structural)]
pub enum LinkNameEncoding {
    Ascii,
    Utf8,
}

/// The link type that a type byte stands for.
pub open spec fn link_type_of(t: u8) -> Option<LinkType> {
    if t == 0 {
        Some(LinkType::Hard)
    } else if t == 1 {
        Some(LinkType::Soft)
    } else if t == 64 {
        Some(LinkType::External)
    } else {
        None
    }
}

/// Position just past the optional link type byte.
pub open spec fn after_type(f: u8) -> int {
    2 + if has_flag(f, LINK_TYPE_FIELD_PRESENT) {
        1int
    } else {
        0int
    }
}

/// Position of the name length field.
pub open spec fn name_length_pos(f: u8) -> int {
    after_type(f) + (if has_flag(f, CREATION_ORDER_FIELD_PRESENT) {
        8int
    } else {
        0int
    }) + (if has_flag(f, LINK_NAME_CHARACTER_SET_FIELD_PRESENT) {
        1int
    } else {
        0int
    })
}

/// Width in bytes of the name length field.
pub open spec fn name_length_width(f: u8) -> int {
    let s = f & SIZE_OF_LINK_BITS;
    if s == 0 {
        1
    } else if s == 1 {
        2
    } else if s == 2 {
        4
    } else {
        8
    }
}

/// The link type of the message `b`: the type byte where present, else hard.
pub open spec fn link_message_type(b: Seq<u8>) -> Option<LinkType> {
    if has_flag(b[1], LINK_TYPE_FIELD_PRESENT) {
        link_type_of(b[2])
    } else {
        Some(LinkType::Hard)
    }
}

/// Length of the link name of the message `b`.
pub open spec fn link_name_len(b: Seq<u8>) -> int {
    le_width(b, name_length_pos(b[1]), name_length_width(b[1]))
}

/// Position of the link name of the message `b`.
pub open spec fn link_name_pos(b: Seq<u8>) -> int {
    name_length_pos(b[1]) + name_length_width(b[1])
}

/// Position of the link target of the message `b`.
pub open spec fn link_target_pos(b: Seq<u8>) -> int {
    link_name_pos(b) + link_name_len(b)
}

/// The name bytes of the link message `b`.
pub open spec fn link_name_bytes(b: Seq<u8>) -> Seq<u8> {
    b.subrange(link_name_pos(b), link_target_pos(b))
}

/// The soft-link target bytes of the link message `b`.
pub open spec fn soft_target_bytes(b: Seq<u8>) -> Seq<u8> {
    let q = link_target_pos(b);
    b.subrange(q + 2, q + 2 + le_u16(b, q))
}

/// The failure, if any, of parsing the link message `b`.
pub open spec fn link_error(b: Seq<u8>) -> Option<Error> {
    if !fits(b, 0, 2) {
        Some(Error::Io)
    } else if !fits(b, 0, after_type(b[1])) {
        Some(Error::Io)
    } else if link_message_type(b) is None {
        Some(Error::Format)
    } else if !fits(b, 0, link_name_pos(b)) {
        Some(Error::Io)
    } else if !fits(b, link_name_pos(b), link_name_len(b)) {
        Some(Error::Io)
    } else if !valid_utf8(link_name_bytes(b)) {
        Some(Error::Utf8)
    } else {
        let q = link_target_pos(b);
        match link_message_type(b)->Some_0 {
            LinkType::Soft => if !fits(b, q, 2) || !fits(b, q + 2, le_u16(b, q)) {
                Some(Error::Io)
            } else if !valid_utf8(soft_target_bytes(b)) {
                Some(Error::Utf8)
            } else {
                None
            },
            LinkType::Hard => if !fits(b, q, 8) {
                Some(Error::Io)
            } else {
                None
            },
            LinkType::External => Some(Error::Unsupported),
        }
    }
}

/// `l` is the link that the message `b` holds.
pub open spec fn link_matches(l: Link, b: Seq<u8>) -> bool {
    &&& l.version == b[0]
    &&& l.flags.bits == b[1]
    &&& l.name@ == decode_utf8(link_name_bytes(b))
    &&& match l.target {
        LinkTarget::Hard { address } => link_message_type(b) == Some(LinkType::Hard) && address
            == le_u64(b, link_target_pos(b)),
        LinkTarget::Soft { name } => link_message_type(b) == Some(LinkType::Soft) && name@
            == decode_utf8(soft_target_bytes(b)),
    }
}

fn link_type_from_u8(t: u8) -> (r: Result<LinkType, Error>)
    ensures
        link_type_of(t) is Some ==> r == Ok::<LinkType, Error>(link_type_of(t)->Some_0),
        link_type_of(t) is None ==> r == Err::<LinkType, Error>(Error::Format),
{
    if t == 0 {
        Ok(LinkType::Hard)
    } else if t == 1 {
        Ok(LinkType::Soft)
    } else if t == 64 {
        Ok(LinkType::External)
    } else {
        Err(Error::Format)
    }
}

/// Parses a link message: a name and a hard or soft target.
#[verifier::rlimit(40)]
pub fn parse_link_message(b: &[u8]) -> (r: Result<Link, Error>)
    ensures
        match r {
            Ok(l) => link_error(b@) is None && link_matches(l, b@),
            Err(e) => link_error(b@) == Some(e),
        },
{
    check_fits(b, 0, 2)?;
    let version = b[0];
    let flags = LinkFlags::new(b[1]);
    let mut pos: usize = 2;
    let link_type = if flags.contains(LINK_TYPE_FIELD_PRESENT) {
        check_fits(b, 0, 3)?;
        pos = 3;
        link_type_from_u8(b[2])?
    } else {
        LinkType::Hard
    };
    assert(pos == after_type(b@[1]));
    if flags.contains(CREATION_ORDER_FIELD_PRESENT) {
        pos = pos + 8;
    }
    if flags.contains(LINK_NAME_CHARACTER_SET_FIELD_PRESENT) {
        pos = pos + 1;
    }
    let size_bits = flags.bits & SIZE_OF_LINK_BITS;
    let width: usize = if size_bits == 0 {
        1
    } else if size_bits == 1 {
        2
    } else if size_bits == 2 {
        4
    } else {
        8
    };
    check_fits(b, 0, pos + width)?;
    let name_length = get_width(b, pos, width);
    pos = pos + width;
    if name_length > (b.len() - pos) as u64 {
        return Err(Error::Io);
    }
    let name_len = name_length as usize;
    let name_bytes = copy_range(b, pos, name_len);
    let name = decode_name(name_bytes)?;
    pos = pos + name_len;
    let target = match link_type {
        LinkType::Soft => {
            check_fits(b, pos, 2)?;
            let target_len = get_u16(b, pos) as usize;
            check_fits(b, pos + 2, target_len)?;
            let target_bytes = copy_range(b, pos + 2, target_len);
            let target_name = decode_name(target_bytes)?;
            LinkTarget::Soft { name: target_name }
        },
        LinkType::Hard => {
            check_fits(b, pos, 8)?;
            LinkTarget::Hard { address: get_u64(b, pos) }
        },
        LinkType::External => {
            return Err(Error::Unsupported);
        },
    };
    Ok(Link { version, flags, name, target })
}

} // verus!

verus! {

/// `l` is the link that entry `i` of the symbol-table node at `a` gives,
/// with names read from the heap `h`.
pub open spec fn symbol_entry_link(l: Link, d: Seq<u8>, h: LocalHeap, a: u64, i: int) -> bool {
    let e = entry_at(d, a + NODE_HEADER_SIZE + ENTRY_SIZE * i);
    &&& node_header_result(d, a as int) is Ok
    &&& 0 <= i < node_header_result(d, a as int)->Ok_0.symbols
    &&& fits(d, a + NODE_HEADER_SIZE + ENTRY_SIZE * i, ENTRY_SIZE as int)
    &&& l.version == 0
    &&& l.flags.bits == 0
    &&& heap_name_ok(h, d, e.link_name_offset, l.name@)
    &&& match l.target {
        LinkTarget::Hard { address } => (e.cache_type == 0 || e.cache_type == 1) && address
            == e.object_header_address,
        LinkTarget::Soft { name } => e.cache_type == 2 && heap_name_ok(
            h,
            d,
            e.scratch_offset as u64,
            name@,
        ),
    }
}

/// `l` is a link given by some entry of the symbol-table node at `a`.
pub open spec fn symbol_node_link(l: Link, d: Seq<u8>, h: LocalHeap, a: u64) -> bool {
    exists|i: int| #[trigger] symbol_entry_link(l, d, h, a, i)
}

/// `l` is a link given by some entry of a symbol-table node of the file.
pub open spec fn symbol_table_link(l: Link, d: Seq<u8>, h: LocalHeap) -> bool {
    exists|a: u64| #[trigger] symbol_node_link(l, d, h, a)
}

/// The failure, if any, of reading the name at heap offset `offset`.
pub open spec fn heap_name_error(h: LocalHeap, d: Seq<u8>, offset: u64) -> Option<Error> {
    if !has_nul_from(d, h.address_of_data_segment + offset) {
        Some(Error::Io)
    } else if !heap_name_valid(h, d, offset) {
        Some(Error::Utf8)
    } else {
        None
    }
}

/// The failure, if any, of resolving entry `i` of the symbol-table node at
/// `a`: the entry must lie in the file, its name must resolve, its cache type
/// must be 0, 1 or 2, and for 2 the soft-link target must resolve.
pub open spec fn entry_error(d: Seq<u8>, h: LocalHeap, a: u64, i: int) -> Option<Error> {
    let q = a + NODE_HEADER_SIZE + ENTRY_SIZE * i;
    let e = entry_at(d, q);
    if !fits(d, q, ENTRY_SIZE as int) {
        Some(Error::Io)
    } else if heap_name_error(h, d, e.link_name_offset) is Some {
        heap_name_error(h, d, e.link_name_offset)
    } else if e.cache_type == 0 || e.cache_type == 1 {
        None
    } else if e.cache_type == 2 {
        heap_name_error(h, d, e.scratch_offset as u64)
    } else {
        Some(Error::Format)
    }
}

/// The first failure among the first `n` entries of the node at `a`.
pub open spec fn entries_error(d: Seq<u8>, h: LocalHeap, a: u64, n: int) -> Option<Error>
    decreases n,
{
    if n <= 0 {
        None
    } else if entries_error(d, h, a, n - 1) is Some {
        entries_error(d, h, a, n - 1)
    } else {
        entry_error(d, h, a, n - 1)
    }
}

/// The failure, if any, of reading the links of the symbol-table node at `a`.
pub open spec fn node_links_error(d: Seq<u8>, h: LocalHeap, a: u64) -> Option<Error> {
    match node_header_result(d, a as int) {
        Err(e) => Some(e),
        Ok(n) => entries_error(d, h, a, n.symbols as int),
    }
}

/// The first failure among the symbol-table nodes at `addrs`, in order.
pub open spec fn nodes_links_error(d: Seq<u8>, h: LocalHeap, addrs: Seq<u64>) -> Option<Error>
    decreases addrs.len(),
{
    if addrs.len() == 0 {
        None
    } else if nodes_links_error(d, h, addrs.drop_last()) is Some {
        nodes_links_error(d, h, addrs.drop_last())
    } else {
        node_links_error(d, h, addrs.last())
    }
}

/// The failure, if any, of reading the links of the symbol table message `b`.
pub open spec fn symbol_table_error(d: Seq<u8>, b: Seq<u8>) -> Option<Error> {
    if !fits(b, 0, 16) {
        Some(Error::Io)
    } else {
        match group_tree_leaves(d, le_u64(b, 0)) {
            Err(e) => Some(e),
            Ok(leaves) => match heap_result(d, le_u64(b, 8)) {
                Err(e) => Some(e),
                Ok(h) => nodes_links_error(d, h, leaves),
            },
        }
    }
}

/// A failure among the first `j` entries is the failure among the first `n`.
proof fn lemma_entries_error_extends(d: Seq<u8>, h: LocalHeap, a: u64, j: int, n: int)
    requires
        j <= n,
        entries_error(d, h, a, j) is Some,
    ensures
        entries_error(d, h, a, n) == entries_error(d, h, a, j),
    decreases n - j,
{
    if j < n {
        lemma_entries_error_extends(d, h, a, j, n - 1);
    }
}

/// A failure among the first `j` nodes is the failure among them all.
proof fn lemma_nodes_error_extends(d: Seq<u8>, h: LocalHeap, addrs: Seq<u64>, j: int, n: int)
    requires
        0 <= j <= n <= addrs.len(),
        nodes_links_error(d, h, addrs.subrange(0, j)) is Some,
    ensures
        nodes_links_error(d, h, addrs.subrange(0, n)) == nodes_links_error(d, h, addrs.subrange(0, j)),
    decreases n - j,
{
    if j < n {
        lemma_nodes_error_extends(d, h, addrs, j, n - 1);
        assert(addrs.subrange(0, n).drop_last() =~= addrs.subrange(0, n - 1));
    }
}

/// The link that entry `i` of the symbol-table node at `a` gives.
fn entry_link(d: &[u8], heap: &LocalHeap, a: u64, i: usize) -> (r: Result<Link, Error>)
    requires
        a + NODE_HEADER_SIZE <= d@.len(),
        node_header_result(d@, a as int) is Ok,
        i < node_symbols(d@, a),
    ensures
        match r {
            Ok(l) => entry_error(d@, *heap, a, i as int) is None && symbol_entry_link(
                l,
                d@,
                *heap,
                a,
                i as int,
            ),
            Err(e) => entry_error(d@, *heap, a, i as int) == Some(e),
        },
{
    let len = d.len();
    let p = a as usize;
    if i > (len - (p + NODE_HEADER_SIZE)) / ENTRY_SIZE {
        return Err(Error::Io);
    }
    let q = p + NODE_HEADER_SIZE + ENTRY_SIZE * i;
    let entry = SymbolTableEntry::read(d, q)?;
    let name = heap.object_name(d, entry.link_name_offset)?;
    let target = if entry.cache_type == 0 || entry.cache_type == 1 {
        LinkTarget::Hard { address: entry.object_header_address }
    } else if entry.cache_type == 2 {
        let target_name = heap.object_name(d, entry.scratch_offset as u64)?;
        LinkTarget::Soft { name: target_name }
    } else {
        return Err(Error::Format);
    };
    let link = Link { version: 0, flags: LinkFlags::empty(), name, target };
    assert(symbol_entry_link(link, d@, *heap, a, i as int));
    Ok(link)
}

/// Number of entries of the symbol-table node at `a`.
pub open spec fn node_symbols(d: Seq<u8>, a: u64) -> int {
    node_header_result(d, a as int)->Ok_0.symbols as int
}

/// The entries of the symbol-table nodes at `addrs`, as (node, index)
/// pairs, node after node.
pub open spec fn symbol_entries(d: Seq<u8>, addrs: Seq<u64>) -> Seq<(u64, int)>
    decreases addrs.len(),
{
    if addrs.len() == 0 {
        Seq::empty()
    } else {
        let a = addrs.last();
        symbol_entries(d, addrs.drop_last()) + Seq::new(
            node_symbols(d, a) as nat,
            |i: int| (a, i),
        )
    }
}

/// The links `ls` are those of the entries `es`, one for one.
pub open spec fn links_of_entries(ls: Seq<Link>, d: Seq<u8>, h: LocalHeap, es: Seq<(u64, int)>) -> bool {
    &&& ls.len() == es.len()
    &&& forall|k: int|
        0 <= k < ls.len() ==> symbol_entry_link(#[trigger] ls[k], d, h, es[k].0, es[k].1)
}

/// Each link of the entries of symbol-table nodes is a link of the file.
pub proof fn lemma_entry_links_in_table(ls: Seq<Link>, d: Seq<u8>, h: LocalHeap, es: Seq<(u64, int)>)
    requires
        links_of_entries(ls, d, h, es),
    ensures
        forall|k: int| 0 <= k < ls.len() ==> symbol_table_link(#[trigger] ls[k], d, h),
{
    assert forall|k: int| 0 <= k < ls.len() implies symbol_table_link(#[trigger] ls[k], d, h) by {
        assert(symbol_entry_link(ls[k], d, h, es[k].0, es[k].1));
        assert(symbol_node_link(ls[k], d, h, es[k].0));
    }
}

/// The links of the symbol-table node at `a`, appended to `out`.
fn symbol_node_links(d: &[u8], heap: &LocalHeap, a: u64, out: &mut Vec<Link>) -> (r: Result<
    (),
    Error,
>)
    ensures
        match r {
            Ok(_) => node_links_error(d@, *heap, a) is None,
            Err(e) => node_links_error(d@, *heap, a) == Some(e),
        },
        r is Ok ==> {
            &&& node_header_result(d@, a as int) is Ok
            &&& final(out)@.len() == old(out)@.len() + node_symbols(d@, a)
            &&& forall|k: int| 0 <= k < old(out)@.len() ==> final(out)@[k] == old(out)@[k]
            &&& forall|i: int|
                0 <= i < node_symbols(d@, a) ==> symbol_entry_link(
                    #[trigger] final(out)@[old(out)@.len() + i],
                    d@,
                    *heap,
                    a,
                    i,
                )
        },
{
    let len = d.len();
    if a > usize::MAX as u64 {
        return Err(Error::Io);
    }
    let p = a as usize;
    let node = SymbolTableNode::read(d, p)?;
    let ghost h = *heap;
    let n = node.symbols as usize;
    let ghost start = out@.len();
    let mut i: usize = 0;
    while i < n
        invariant
            len == d@.len(),
            p == a,
            node_header_result(d@, a as int) == Ok::<SymbolTableNode, Error>(node),
            fits(d@, p as int, NODE_HEADER_SIZE as int),
            n == node.symbols,
            i <= n,
            start == old(out)@.len(),
            h == *heap,
            entries_error(d@, h, a, i as int) is None,
            out@.len() == start + i,
            forall|k: int| 0 <= k < old(out)@.len() ==> out@[k] == old(out)@[k],
            forall|k: int|
                0 <= k < i ==> symbol_entry_link(#[trigger] out@[start + k], d@, *heap, a, k),
        decreases n - i,
    {
        assert(entries_error(d@, h, a, i + 1) == entry_error(d@, h, a, i as int));
        let link = match entry_link(d, heap, a, i) {
            Ok(l) => l,
            Err(e) => {
                proof {
                    lemma_entries_error_extends(d@, h, a, i + 1, n as int);
                }
                return Err(e);
            },
        };
        assert(symbol_entry_link(link, d@, *heap, a, i as int));
        out.push(link);
        i += 1;
        assert forall|k: int| 0 <= k < i implies symbol_entry_link(
            #[trigger] out@[start + k],
            d@,
            *heap,
            a,
            k,
        ) by {
            if k < i - 1 {
            }
        }
    }
    Ok(())
}

/// The links of a version-1 group, from its symbol table message `b`: the
/// addresses of the group B-tree and of the local heap that holds the names.
/// There is one link for each entry of each symbol-table node at the leaves
/// of the B-tree, in the order of the tree.
#[verifier::rlimit(80)]
pub fn parse_symbol_table_message(d: &[u8], b: &[u8]) -> (r: Result<Vec<Link>, Error>)
    ensures
        match r {
            Ok(_) => symbol_table_error(d@, b@) is None,
            Err(e) => symbol_table_error(d@, b@) == Some(e),
        },
        r is Ok ==> {
            &&& fits(b@, 0, 16)
            &&& heap_result(d@, le_u64(b@, 8)) is Ok
            &&& group_tree_leaves(d@, le_u64(b@, 0)) is Ok
            &&& links_of_entries(
                r->Ok_0@,
                d@,
                heap_result(d@, le_u64(b@, 8))->Ok_0,
                symbol_entries(d@, group_tree_leaves(d@, le_u64(b@, 0))->Ok_0),
            )
        },
{
    check_fits(b, 0, 16)?;
    let btree_address = get_u64(b, 0);
    let heap_address = get_u64(b, 8);
    let addresses = parse_group_btree(d, btree_address)?;
    let heap = LocalHeap::read(d, heap_address)?;
    let mut links: Vec<Link> = Vec::new();
    let mut j: usize = 0;
    assert(addresses@.subrange(0, 0) =~= Seq::<u64>::empty());
    while j < addresses.len()
        invariant
            j <= addresses@.len(),
            fits(b@, 0, 16),
            group_tree_leaves(d@, le_u64(b@, 0)) == Ok::<Seq<u64>, Error>(addresses@),
            heap_result(d@, le_u64(b@, 8)) == Ok::<LocalHeap, Error>(heap),
            nodes_links_error(d@, heap, addresses@.subrange(0, j as int)) is None,
            links_of_entries(links@, d@, heap, symbol_entries(d@, addresses@.subrange(0, j as int))),
        decreases addresses@.len() - j,
    {
        let ghost before = links@;
        let ghost es = symbol_entries(d@, addresses@.subrange(0, j as int));
        let a = addresses[j];
        let ghost next = addresses@.subrange(0, j + 1);
        assert(next.drop_last() =~= addresses@.subrange(0, j as int));
        assert(next.last() == a);
        match symbol_node_links(d, &heap, a, &mut links) {
            Ok(_) => {
                assert(nodes_links_error(d@, heap, next) is None);
            },
            Err(e) => {
                proof {
                    lemma_nodes_error_extends(d@, heap, addresses@, j + 1, addresses@.len() as int);
                    assert(addresses@.subrange(0, addresses@.len() as int) =~= addresses@);
                }
                return Err(e);
            },
        }
        proof {
            let es2 = symbol_entries(d@, next);
            assert(es2 == es + Seq::new(node_symbols(d@, a) as nat, |i: int| (a, i)));
            assert forall|k: int| 0 <= k < links@.len() implies symbol_entry_link(
                #[trigger] links@[k],
                d@,
                heap,
                es2[k].0,
                es2[k].1,
            ) by {
                if k < before.len() {
                    assert(links@[k] == before[k]);
                    assert(es2[k] == es[k]);
                } else {
                    let i = k - before.len();
                    assert(links@[before.len() + i] == links@[k]);
                    assert(es2[k] == (a, i));
                }
            }
        }
        j += 1;
    }
    assert(addresses@.subrange(0, addresses@.len() as int) =~= addresses@);
    Ok(links)
}

} // verus!
