use crate::bytes::{
    check_fits, copy_range, fits, get_u16, get_u32, get_u64, get_width, has_signature, le_u16, le_u32,
    le_u64, le_width,
};
use crate::data_storage::{data_storage_error, data_storage_matches, parse_data_storage_message, DataStorage};
use crate::dataspace::{dataspace_error, dataspace_shape, parse_dataspace_message, Dataspace};
use crate::datatype::{datatype_result, parse_datatype_message, Datatype};
use crate::error::Error;
use crate::filter_pipeline::{
    filters_from, filters_match, parse_filter_pipeline_message, pipeline_error, FilterPipeline,
};
use crate::group_btree::group_tree_leaves;
use crate::link::{
    link_error, link_matches, links_of_entries, parse_link_message, parse_symbol_table_message,
    symbol_entries, symbol_table_error, symbol_table_link, Link,
};
use crate::local_heap::heap_result;
use crate::message::{message_type_of, MessageType};
use crate::group_btree::prepend;
use vstd::prelude::*;

verus! {

/// What an object header describes: the object's named children, and for a
/// dataset its storage layout, element type, shape and filters.
#[derive(Clone, Debug)]
pub struct DataObject {
    pub links: Vec<Link>,
    pub data: Vec<DataStorage>,
    pub datatypes: Vec<Datatype>,
    pub dataspaces: Vec<Dataspace>,
    pub filter_pipelines: Vec<FilterPipeline>,
}

/// No two links share a name.
pub open spec fn names_unique(links: Seq<Link>) -> bool {
    forall|i: int, j: int|
        0 <= i < links.len() && 0 <= j < links.len() && i != j ==> links[i].name@ != links[j].name@
}

/// The index of the link named `name`, if any.
pub open spec fn link_index(links: Seq<Link>, name: Seq<char>) -> Option<int> {
    if exists|i: int| 0 <= i < links.len() && links[i].name@ == name {
        Some(choose|i: int| 0 <= i < links.len() && links[i].name@ == name)
    } else {
        None
    }
}

/// The links after `l` is added: it replaces the link of the same name, if
/// any, else it is appended.
pub open spec fn links_with(links: Seq<Link>, l: Link) -> Seq<Link> {
    match link_index(links, l.name@) {
        Some(i) => links.update(i, l),
        None => links.push(l),
    }
}

/// The object is a group: it has no storage layout, and it has links or no
/// dataspace.
pub open spec fn classified_group(o: DataObject) -> bool {
    o.data@.len() == 0 && (o.links@.len() > 0 || o.dataspaces@.len() == 0)
}

/// `b` is a run of bytes of the file `d`.
pub open spec fn from_file(d: Seq<u8>, b: Seq<u8>) -> bool {
    exists|a: int, e: int| 0 <= a <= e <= d.len() && b == #[trigger] d.subrange(a, e)
}

/// `x` is what some datatype message in the file decodes to.
pub open spec fn datatype_in_file(d: Seq<u8>, x: Datatype) -> bool {
    exists|b: Seq<u8>| from_file(d, b) && #[trigger] datatype_result(b) == Ok::<Datatype, Error>(x)
}

/// `x` has the shape that some dataspace message in the file holds.
pub open spec fn dataspace_in_file(d: Seq<u8>, x: Dataspace) -> bool {
    exists|b: Seq<u8>|
        from_file(d, b) && #[trigger] dataspace_error(b) is None && x.shape@ == dataspace_shape(b)
}

/// `x` is the layout that some data storage message in the file describes.
pub open spec fn storage_in_file(d: Seq<u8>, x: DataStorage) -> bool {
    exists|b: Seq<u8>|
        from_file(d, b) && #[trigger] data_storage_error(b) is None && data_storage_matches(x, b)
}

/// `l` was decoded from a link message of the file, or from an entry of a
/// symbol-table node with its names read from a local heap of the file.
pub open spec fn link_in_file(d: Seq<u8>, l: Link) -> bool {
    ||| exists|b: Seq<u8>| from_file(d, b) && link_error(b) is None && #[trigger] link_matches(l, b)
    ||| exists|a: int| #[trigger] heap_result(d, a) is Ok && symbol_table_link(l, d, heap_result(d, a)->Ok_0)
}

/// Adding a link keeps every link one that the file holds.
proof fn lemma_links_with_in_file(d: Seq<u8>, links: Seq<Link>, l: Link)
    requires
        forall|i: int| 0 <= i < links.len() ==> link_in_file(d, #[trigger] links[i]),
        link_in_file(d, l),
    ensures
        forall|i: int|
            0 <= i < links_with(links, l).len() ==> link_in_file(d, #[trigger] links_with(links, l)[i]),
{
    let r = links_with(links, l);
    assert forall|i: int| 0 <= i < r.len() implies link_in_file(d, #[trigger] r[i]) by {
        match link_index(links, l.name@) {
            Some(j) => {
                if i != j {
                    assert(r[i] == links[i]);
                }
            },
            None => {
                if i < links.len() {
                    assert(r[i] == links[i]);
                }
            },
        }
    }
}

/// Every link, datatype, dataspace and layout of `o` was decoded from the
/// file `d`.
pub open spec fn read_from(o: DataObject, d: Seq<u8>) -> bool {
    &&& forall|i: int| 0 <= i < o.links@.len() ==> link_in_file(d, #[trigger] o.links@[i])
    &&& forall|i: int|
        0 <= i < o.datatypes@.len() ==> datatype_in_file(d, #[trigger] o.datatypes@[i])
    &&& forall|i: int|
        0 <= i < o.dataspaces@.len() ==> dataspace_in_file(d, #[trigger] o.dataspaces@[i])
    &&& forall|i: int| 0 <= i < o.data@.len() ==> storage_in_file(d, #[trigger] o.data@[i])
}

impl DataObject {
    /// Each child name occurs once.
    pub open spec fn wf(&self) -> bool {
        names_unique(self.links@)
    }

    /// An object with no messages read yet.
    pub fn new() -> (r: DataObject)
        ensures
            r.wf(),
            r.links@.len() == 0,
            r.data@.len() == 0,
            r.datatypes@.len() == 0,
            r.dataspaces@.len() == 0,
            r.filter_pipelines@.len() == 0,
    {
        DataObject {
            links: Vec::new(),
            data: Vec::new(),
            datatypes: Vec::new(),
            dataspaces: Vec::new(),
            filter_pipelines: Vec::new(),
        }
    }

    /// Whether the object is a group rather than a dataset.
    pub fn is_group(&self) -> (r: bool)
        ensures
            r == classified_group(*self),
    {
        self.data.len() == 0 && (self.links.len() > 0 || self.dataspaces.len() == 0)
    }

    /// Adds a link, replacing the one of the same name if there is one.
    pub fn insert_link(&mut self, l: Link)
        requires
            old(self).wf(),
        ensures
            final(self).wf(),
            final(self).links@ == links_with(old(self).links@, l),
            final(self).data == old(self).data,
            final(self).datatypes == old(self).datatypes,
            final(self).dataspaces == old(self).dataspaces,
            final(self).filter_pipelines == old(self).filter_pipelines,
    {
        let n = self.links.len();
        let ghost name = l.name@;
        let ghost old_links = self.links@;
        let mut i: usize = 0;
        while i < n
            invariant
                n == self.links@.len(),
                self.links@ == old_links,
                old_links == old(self).links@,
                names_unique(old_links),
                name == l.name@,
                self.data == old(self).data,
                self.datatypes == old(self).datatypes,
                self.dataspaces == old(self).dataspaces,
                self.filter_pipelines == old(self).filter_pipelines,
                i <= n,
                forall|k: int| 0 <= k < i ==> self.links@[k].name@ != l.name@,
            decreases n - i,
        {
            if self.links[i].name == l.name {
                proof {
                    assert(link_index(old_links, name) == Some(i as int)) by {
                        assert(old_links[i as int].name@ == name);
                        let j = choose|j: int|
                            0 <= j < old_links.len() && old_links[j].name@ == name;
                        assert(j == i);
                    }
                }
                self.links.set(i, l);
                assert(names_unique(self.links@)) by {
                    let links = self.links@;
                    assert forall|a: int, b: int|
                        0 <= a < links.len() && 0 <= b < links.len() && a != b implies links[a].name@
                        != links[b].name@ by {
                        if a != i && b != i {
                            assert(links[a] == old_links[a]);
                            assert(links[b] == old_links[b]);
                        } else if a == i {
                            assert(old_links[i as int].name@ == name);
                            assert(links[b] == old_links[b]);
                        } else {
                            assert(old_links[i as int].name@ == name);
                            assert(links[a] == old_links[a]);
                        }
                    }
                }
                return ;
            }
            i += 1;
        }
        assert(link_index(self.links@, l.name@) is None);
        proof {
            assert forall|a: int, b: int|
                0 <= a < old_links.len() + 1 && 0 <= b < old_links.len() + 1 && a != b implies
                old_links.push(l)[a].name@ != old_links.push(l)[b].name@ by {
                if a < old_links.len() && b < old_links.len() {
                } else if a == old_links.len() {
                    assert(old_links[b].name@ != name);
                } else {
                    assert(old_links[a].name@ != name);
                }
            }
        }
        self.links.push(l);
    }
}

/// A contiguous run of bytes of the file, by start and length.
pub type ByteRange = (usize, usize);

/// `r` lies inside `d`.
pub open spec fn range_ok(d: Seq<u8>, r: ByteRange) -> bool {
    r.0 + r.1 <= d.len()
}

pub open spec fn ochk_signature() -> Seq<u8> {
    seq![79u8, 67u8, 72u8, 75u8]
}

/// The failure, if any, of following the continuation message `b`.
pub open spec fn continuation_error(d: Seq<u8>, b: Seq<u8>) -> Option<Error> {
    let offset = le_u64(b, 0);
    let size = le_u64(b, 8);
    if !fits(b, 0, 16) {
        Some(Error::Io)
    } else if !fits(d, offset, 4) {
        Some(Error::Io)
    } else if d.subrange(offset, offset + 4) != ochk_signature() || size < 4 {
        Some(Error::Format)
    } else if !fits(d, offset + 4, size - 4) {
        Some(Error::Io)
    } else {
        None
    }
}

/// The chunk that the continuation message `b` points to: the bytes after
/// the "OCHK" signature, `size - 4` of them.
pub open spec fn continuation_chunk(b: Seq<u8>) -> ByteRange {
    ((le_u64(b, 0) + 4) as usize, (le_u64(b, 8) - 4) as usize)
}

/// The links after each of `ls` is added in turn.
pub open spec fn links_fold(links: Seq<Link>, ls: Seq<Link>) -> Seq<Link>
    decreases ls.len(),
{
    if ls.len() == 0 {
        links
    } else {
        links_with(links_fold(links, ls.drop_last()), ls.last())
    }
}

/// The links that the symbol table message `b` gives: one per entry of the
/// symbol-table nodes at the leaves of its B-tree, in order.
pub open spec fn table_links(d: Seq<u8>, b: Seq<u8>, ls: Seq<Link>) -> bool {
    links_of_entries(
        ls,
        d,
        heap_result(d, le_u64(b, 8))->Ok_0,
        symbol_entries(d, group_tree_leaves(d, le_u64(b, 0))->Ok_0),
    )
}

/// The effect on `o` of a message of type `t` with body `b`, where it
/// succeeds: `o2` is the object after it.
#[verifier::opaque]
pub open spec fn object_applied(
    d: Seq<u8>,
    t: Option<MessageType>,
    b: Seq<u8>,
    o: DataObject,
    o2: DataObject,
) -> bool {
    let same_data = o2.data == o.data;
    let same_types = o2.datatypes == o.datatypes;
    let same_spaces = o2.dataspaces == o.dataspaces;
    let same_filters = o2.filter_pipelines == o.filter_pipelines;
    let same_links = o2.links == o.links;
    match t {
        Some(MessageType::Link) => same_data && same_types && same_spaces && same_filters
            && link_error(b) is None && exists|l: Link|
            #[trigger] link_matches(l, b) && o2.links@ == links_with(o.links@, l),
        Some(MessageType::DataStorage) => same_links && same_types && same_spaces && same_filters
            && data_storage_error(b) is None && o2.data@.len() == o.data@.len() + 1
            && o2.data@.drop_last() == o.data@ && data_storage_matches(o2.data@.last(), b),
        Some(MessageType::Datatype) => same_links && same_data && same_spaces && same_filters
            && datatype_result(b) is Ok && o2.datatypes@ == o.datatypes@.push(
            datatype_result(b)->Ok_0,
        ),
        Some(MessageType::Dataspace) => same_links && same_data && same_types && same_filters
            && dataspace_error(b) is None && o2.dataspaces@.len() == o.dataspaces@.len() + 1
            && o2.dataspaces@.drop_last() == o.dataspaces@ && o2.dataspaces@.last().shape@
            == dataspace_shape(b),
        Some(MessageType::DataStorageFilterPipeline) => same_links && same_data && same_types
            && same_spaces && pipeline_error(b) is None && o2.filter_pipelines@.len()
            >= o.filter_pipelines@.len() && o2.filter_pipelines@.subrange(
            0,
            o.filter_pipelines@.len() as int,
        ) == o.filter_pipelines@ && filters_match(
            o2.filter_pipelines@.subrange(
                o.filter_pipelines@.len() as int,
                o2.filter_pipelines@.len() as int,
            ),
            filters_from(b, 8, b[1] as nat),
        ),
        Some(MessageType::SymbolTable) => same_data && same_types && same_spaces && same_filters
            && symbol_table_error(d, b) is None && exists|ls: Seq<Link>|
            #[trigger] table_links(d, b, ls) && o2.links@ == links_fold(o.links@, ls),
        _ => o2 == o,
    }
}

/// The chunk list after a message of type `t` with body `b`: a continuation
/// adds the chunk that it points to.
pub open spec fn chunks_after(t: Option<MessageType>, b: Seq<u8>, chunks: Seq<ByteRange>) -> Seq<
    ByteRange,
> {
    if t == Some(MessageType::ObjectContinuation) {
        chunks.push(continuation_chunk(b))
    } else {
        chunks
    }
}

/// The effect of a message on the object and on the chunk list.
pub open spec fn message_applied(
    d: Seq<u8>,
    t: Option<MessageType>,
    b: Seq<u8>,
    o: DataObject,
    o2: DataObject,
    chunks: Seq<ByteRange>,
    chunks2: Seq<ByteRange>,
) -> bool {
    object_applied(d, t, b, o, o2) && message_error(d, t, b) is None && chunks2 == chunks_after(
        t,
        b,
        chunks,
    )
}

} // verus!

verus! {

/// The failure, if any, of a message of type `t` with body `b`; a symbol
/// table message's failures come from the B-tree and heap that it points to.
pub open spec fn message_error(d: Seq<u8>, t: Option<MessageType>, b: Seq<u8>) -> Option<Error> {
    match t {
        Some(MessageType::ObjectContinuation) => continuation_error(d, b),
        Some(MessageType::Link) => link_error(b),
        Some(MessageType::DataStorage) => data_storage_error(b),
        Some(MessageType::Datatype) => match datatype_result(b) {
            Ok(_) => None,
            Err(e) => Some(e),
        },
        Some(MessageType::Dataspace) => dataspace_error(b),
        Some(MessageType::DataStorageFilterPipeline) => pipeline_error(b),
        Some(MessageType::SymbolTable) => symbol_table_error(d, b),
        _ => None,
    }
}

/// Reads the continuation message `b`: checks the "OCHK" signature of the
/// chunk it points to and returns the chunk's body.
fn continuation(d: &[u8], b: &[u8]) -> (r: Result<ByteRange, Error>)
    ensures
        match r {
            Ok(c) => continuation_error(d@, b@) is None && c == continuation_chunk(b@) && range_ok(
                d@,
                c,
            ),
            Err(e) => continuation_error(d@, b@) == Some(e),
        },
{
    check_fits(b, 0, 16)?;
    let offset = get_u64(b, 0);
    let size = get_u64(b, 8);
    let len = d.len();
    if offset > len as u64 || 4 > len as u64 - offset {
        return Err(Error::Io);
    }
    let p = offset as usize;
    let sig: [u8; 4] = [79u8, 67u8, 72u8, 75u8];
    assert(sig@ =~= ochk_signature());
    if !has_signature(d, p, &sig) || size < 4 {
        return Err(Error::Format);
    }
    if size - 4 > (len - (p + 4)) as u64 {
        return Err(Error::Io);
    }
    Ok((p + 4, (size - 4) as usize))
}

/// Adds the links of the symbol table message `b` to the object, in order.
#[verifier::rlimit(60)]
fn apply_symbol_table(d: &[u8], b: &[u8], obj: &mut DataObject) -> (r: Result<(), Error>)
    requires
        old(obj).wf(),
        read_from(*old(obj), d@),
    ensures
        final(obj).wf(),
        read_from(*final(obj), d@),
        match r {
            Err(e) => symbol_table_error(d@, b@) == Some(e),
            Ok(_) => object_applied(d@, Some(MessageType::SymbolTable), b@, *old(obj), *final(obj)),
        },
{
    reveal(object_applied);
    let mut links = parse_symbol_table_message(d, b)?;
    let ghost heap_at = le_u64(b@, 8);
    let ghost all = links@;
    let ghost start = obj.links@;
    assert(table_links(d@, b@, all));
    assert(all.subrange(0, 0) =~= Seq::<Link>::empty());
    assert(links@ =~= all.subrange(0, all.len() as int));
    proof {
        crate::link::lemma_entry_links_in_table(
            links@,
            d@,
            heap_result(d@, heap_at)->Ok_0,
            crate::link::symbol_entries(d@, crate::group_btree::group_tree_leaves(d@, le_u64(b@, 0))->Ok_0),
        );
    }
    while links.len() > 0
        invariant
            obj.wf(),
            read_from(*old(obj), d@),
            read_from(*obj, d@),
            heap_result(d@, heap_at) is Ok,
            forall|k: int|
                0 <= k < links@.len() ==> symbol_table_link(
                    #[trigger] links@[k],
                    d@,
                    heap_result(d@, heap_at)->Ok_0,
                ),
            obj.data == old(obj).data,
            obj.datatypes == old(obj).datatypes,
            obj.dataspaces == old(obj).dataspaces,
            obj.filter_pipelines == old(obj).filter_pipelines,
            start == old(obj).links@,
            links@.len() <= all.len(),
            links@ == all.subrange(all.len() - links@.len(), all.len() as int),
            obj.links@ == links_fold(start, all.subrange(0, all.len() - links@.len())),
        decreases links@.len(),
    {
        let ghost k = all.len() - links@.len();
        let l = links.remove(0);
        assert(l == all[k]);
        assert(all.subrange(0, k + 1).drop_last() =~= all.subrange(0, k));
        assert(links@ =~= all.subrange(k + 1, all.len() as int));
        assert(link_in_file(d@, l));
        proof {
            lemma_links_with_in_file(d@, obj.links@, l);
        }
        obj.insert_link(l);
    }
    assert(all.subrange(0, all.len() as int) =~= all);
    Ok(())
}

/// Applies one header message of type `t` (`None` for a tag that names no
/// type) with body `b` to the object being built; a continuation message
/// adds the chunk that it points to. Types that carry nothing this decoder
/// uses are skipped.
pub fn parse_message(
    d: &[u8],
    t: Option<MessageType>,
    b: &[u8],
    obj: &mut DataObject,
    chunks: &mut Vec<ByteRange>,
) -> (r: Result<(), Error>)
    requires
        old(obj).wf(),
        read_from(*old(obj), d@),
        from_file(d@, b@),
        forall|k: int| 0 <= k < old(chunks)@.len() ==> range_ok(d@, #[trigger] old(chunks)@[k]),
    ensures
        final(obj).wf(),
        read_from(*final(obj), d@),
        forall|k: int| 0 <= k < final(chunks)@.len() ==> range_ok(d@, #[trigger] final(chunks)@[k]),
        final(chunks)@.len() <= old(chunks)@.len() + 1,
        r is Err ==> final(chunks)@ == old(chunks)@,
        r is Ok ==> message_applied(
            d@,
            t,
            b@,
            *old(obj),
            *final(obj),
            old(chunks)@,
            final(chunks)@,
        ),
        match r {
            Err(e) => message_error(d@, t, b@) == Some(e),
            Ok(_) => message_error(d@, t, b@) is None,
        },
{
    reveal(object_applied);
    match t {
        Some(MessageType::ObjectContinuation) => {
            let c = continuation(d, b)?;
            chunks.push(c);
            Ok(())
        },
        Some(MessageType::Link) => {
            let l = parse_link_message(b)?;
            let ghost lg = l;
            assert(link_in_file(d@, lg));
            proof {
                lemma_links_with_in_file(d@, obj.links@, lg);
            }
            obj.insert_link(l);
            assert(link_matches(lg, b@) && obj.links@ == links_with(old(obj).links@, lg));
            Ok(())
        },
        Some(MessageType::DataStorage) => {
            let s = parse_data_storage_message(b)?;
            obj.data.push(s);
            assert(obj.data@.drop_last() =~= old(obj).data@);
            assert(storage_in_file(d@, obj.data@.last()));
            Ok(())
        },
        Some(MessageType::Datatype) => {
            let dt = parse_datatype_message(b)?;
            assert(datatype_in_file(d@, dt));
            obj.datatypes.push(dt);
            Ok(())
        },
        Some(MessageType::Dataspace) => {
            let sp = parse_dataspace_message(b)?;
            obj.dataspaces.push(sp);
            assert(obj.dataspaces@.drop_last() =~= old(obj).dataspaces@);
            assert(dataspace_in_file(d@, obj.dataspaces@.last()));
            Ok(())
        },
        Some(MessageType::DataStorageFilterPipeline) => {
            let mut fs = parse_filter_pipeline_message(b)?;
            let ghost before = obj.filter_pipelines@;
            let ghost added = fs@;
            obj.filter_pipelines.append(&mut fs);
            assert(obj.filter_pipelines@.subrange(0, before.len() as int) =~= before);
            assert(obj.filter_pipelines@.subrange(
                before.len() as int,
                obj.filter_pipelines@.len() as int,
            ) =~= added);
            Ok(())
        },
        Some(MessageType::SymbolTable) => apply_symbol_table(d, b, obj),
        _ => Ok(()),
    }
}

} // verus!

verus! {

/// The two layouts of object header.
#[derive(Clone, Copy, Debug, PartialEq, Eq, Structural)]
pub enum HeaderVersion {
    /// Message headers of 8 bytes; a fixed total number of messages.
    V1 { total_messages: u16 },
    /// Message headers of 4 bytes, plus 2 where creation order is tracked.
    V2 { creation_order_tracked: bool },
}

/// Size of a message header.
pub open spec fn header_size(v: HeaderVersion) -> int {
    match v {
        HeaderVersion::V1 { .. } => 8,
        HeaderVersion::V2 { creation_order_tracked } => if creation_order_tracked {
            6
        } else {
            4
        },
    }
}

/// No further message is read from the chunk ending at `end`: for version 1
/// when the count of messages is used up or fewer than 8 bytes remain, for
/// version 2 when fewer than 4 bytes remain.
pub open spec fn chunk_done(v: HeaderVersion, end: int, pos: int, remaining: int) -> bool {
    match v {
        HeaderVersion::V1 { .. } => remaining <= 0 || end - pos < 8,
        HeaderVersion::V2 { .. } => end - pos < 4,
    }
}

/// The type tag of the message header at `pos`.
pub open spec fn msg_tag(d: Seq<u8>, v: HeaderVersion, pos: int) -> u16 {
    match v {
        HeaderVersion::V1 { .. } => le_u16(d, pos) as u16,
        HeaderVersion::V2 { .. } => d[pos] as u16,
    }
}

/// The body size of the message header at `pos`.
pub open spec fn msg_size(d: Seq<u8>, v: HeaderVersion, pos: int) -> int {
    match v {
        HeaderVersion::V1 { .. } => le_u16(d, pos + 2),
        HeaderVersion::V2 { .. } => le_u16(d, pos + 1),
    }
}

/// Where chunk `idx` starts, if there is one.
pub open spec fn chunk_start(chunks: Seq<ByteRange>, idx: int) -> int {
    if 0 <= idx < chunks.len() {
        chunks[idx].0 as int
    } else {
        0
    }
}

/// The messages read from position `pos` of chunk `idx` on, through every
/// later chunk, as (type, body) pairs; or the first failure. A continuation
/// message appends the chunk that it points to; a header cannot have more
/// chunks than the file has bytes.
#[verifier::opaque]
pub open spec fn stream(
    d: Seq<u8>,
    v: HeaderVersion,
    chunks: Seq<ByteRange>,
    idx: int,
    pos: int,
    remaining: int,
) -> Result<Seq<(Option<MessageType>, Seq<u8>)>, Error>
    decreases d.len() + 1 - idx, chunks[idx].0 + chunks[idx].1 - pos,
{
    if idx < 0 || idx >= chunks.len() || chunks.len() > d.len() + 1 {
        Ok(Seq::empty())
    } else {
        let start = chunks[idx].0 as int;
        let end = start + chunks[idx].1;
        if pos < start || pos > end || end > d.len() {
            Ok(Seq::empty())
        } else if chunk_done(v, end, pos, remaining) {
            stream(d, v, chunks, idx + 1, chunk_start(chunks, idx + 1), remaining)
        } else {
            let h = header_size(v);
            let size = msg_size(d, v, pos);
            let b = d.subrange(pos + h, pos + h + size);
            let t = message_type_of(msg_tag(d, v, pos));
            if end - pos < h || size > end - (pos + h) {
                Err(Error::Io)
            } else if t == Some(MessageType::ObjectContinuation) && chunks.len() > d.len() {
                Err(Error::Format)
            } else if message_error(d, t, b) is Some {
                Err(message_error(d, t, b)->Some_0)
            } else {
                let rem2 = match v {
                    HeaderVersion::V1 { .. } => remaining - 1,
                    HeaderVersion::V2 { .. } => remaining,
                };
                match stream(d, v, chunks_after(t, b, chunks), idx, pos + h + size, rem2) {
                    Err(x) => Err(x),
                    Ok(rest) => Ok(seq![(t, b)] + rest),
                }
            }
        }
    }
}

/// One step of the message stream from position `pos` of chunk `idx`.
proof fn lemma_stream_step(
    d: Seq<u8>,
    v: HeaderVersion,
    chunks: Seq<ByteRange>,
    idx: int,
    pos: int,
    remaining: int,
)
    requires
        0 <= idx < chunks.len() <= d.len() + 1,
        chunks[idx].0 <= pos <= chunks[idx].0 + chunks[idx].1 <= d.len(),
    ensures
        ({
            let end = chunks[idx].0 + chunks[idx].1;
            let h = header_size(v);
            let size = msg_size(d, v, pos);
            let b = d.subrange(pos + h, pos + h + size);
            let t = message_type_of(msg_tag(d, v, pos));
            let st = stream(d, v, chunks, idx, pos, remaining);
            let rem2 = match v {
                HeaderVersion::V1 { .. } => remaining - 1,
                HeaderVersion::V2 { .. } => remaining,
            };
            &&& chunk_done(v, end, pos, remaining) ==> st == stream(
                d,
                v,
                chunks,
                idx + 1,
                chunk_start(chunks, idx + 1),
                remaining,
            )
            &&& !chunk_done(v, end, pos, remaining) && (end - pos < h || size > end - (pos + h))
                ==> st == Err::<Seq<(Option<MessageType>, Seq<u8>)>, Error>(Error::Io)
            &&& !chunk_done(v, end, pos, remaining) && end - pos >= h && size <= end - (pos + h)
                ==> {
                &&& t == Some(MessageType::ObjectContinuation) && chunks.len() > d.len() ==> st
                    == Err::<Seq<(Option<MessageType>, Seq<u8>)>, Error>(Error::Format)
                &&& !(t == Some(MessageType::ObjectContinuation) && chunks.len() > d.len())
                    && message_error(d, t, b) is Some ==> st == Err::<
                    Seq<(Option<MessageType>, Seq<u8>)>,
                    Error,
                >(message_error(d, t, b)->Some_0)
                &&& !(t == Some(MessageType::ObjectContinuation) && chunks.len() > d.len())
                    && message_error(d, t, b) is None ==> st == prepend(
                    seq![(t, b)],
                    stream(d, v, chunks_after(t, b, chunks), idx, pos + h + size, rem2),
                )
            }
        }),
{
    reveal(stream);
}

/// Past the last chunk no message is read.
proof fn lemma_stream_end(
    d: Seq<u8>,
    v: HeaderVersion,
    chunks: Seq<ByteRange>,
    idx: int,
    pos: int,
    remaining: int,
)
    requires
        idx >= chunks.len(),
    ensures
        stream(d, v, chunks, idx, pos, remaining) == Ok::<
            Seq<(Option<MessageType>, Seq<u8>)>,
            Error,
        >(Seq::empty()),
{
    reveal(stream);
}

/// The object has no link, layout, datatype, dataspace or filter.
pub open spec fn empty_object(o: DataObject) -> bool {
    &&& o.links@.len() == 0
    &&& o.data@.len() == 0
    &&& o.datatypes@.len() == 0
    &&& o.dataspaces@.len() == 0
    &&& o.filter_pipelines@.len() == 0
}

/// `os` are the objects after each of the messages `ms` in turn, starting
/// from an empty object.
pub open spec fn chain(d: Seq<u8>, ms: Seq<(Option<MessageType>, Seq<u8>)>, os: Seq<DataObject>) -> bool {
    &&& os.len() == ms.len() + 1
    &&& empty_object(os[0])
    &&& forall|i: int|
        0 <= i < ms.len() ==> #[trigger] object_applied(d, ms[i].0, ms[i].1, os[i], os[i + 1])
}

/// `o` is the object that the messages `ms` describe, applied in order to an
/// empty object.
#[verifier::opaque]
pub open spec fn built(d: Seq<u8>, ms: Seq<(Option<MessageType>, Seq<u8>)>, o: DataObject) -> bool {
    exists|os: Seq<DataObject>| #[trigger] chain(d, ms, os) && os.last() == o
}

/// One more message applied to a built object.
proof fn lemma_built_step(
    d: Seq<u8>,
    ms: Seq<(Option<MessageType>, Seq<u8>)>,
    m: (Option<MessageType>, Seq<u8>),
    o0: DataObject,
    o: DataObject,
)
    requires
        built(d, ms, o0),
        object_applied(d, m.0, m.1, o0, o),
    ensures
        built(d, ms.push(m), o),
{
    reveal(built);
    let os = choose|os: Seq<DataObject>| #[trigger] chain(d, ms, os) && os.last() == o0;
    let ms2 = ms.push(m);
    let os2 = os.push(o);
    assert forall|i: int| 0 <= i < ms2.len() implies #[trigger] object_applied(
        d,
        ms2[i].0,
        ms2[i].1,
        os2[i],
        os2[i + 1],
    ) by {
        if i < ms.len() {
            assert(ms2[i] == ms[i] && os2[i] == os[i] && os2[i + 1] == os[i + 1]);
        } else {
            assert(ms2[i] == m && os2[i] == o0 && os2[i + 1] == o);
        }
    }
    assert(chain(d, ms2, os2));
}

/// The number of messages that a version-1 header announces.
pub open spec fn initial_remaining(v: HeaderVersion) -> int {
    match v {
        HeaderVersion::V1 { total_messages } => total_messages as int,
        HeaderVersion::V2 { .. } => 0,
    }
}

/// The messages of a header of layout `v` whose first chunk is `first`.
pub open spec fn header_stream(d: Seq<u8>, v: HeaderVersion, first: ByteRange) -> Result<
    Seq<(Option<MessageType>, Seq<u8>)>,
    Error,
> {
    stream(d, v, seq![first], 0, first.0 as int, initial_remaining(v))
}

/// Reads the messages of the primary chunk `first` and of every continuation
/// chunk that they lead to, and builds the object they describe.
///
/// A version-1 header stops after its count of messages, or where its chunks
/// run out; a version-2 header reads messages while four bytes remain in the
/// chunk. A header cannot have more chunks than the file has bytes: a chain of
/// continuations that loops back is cut off there with `Format`.
#[verifier::rlimit(100)]
pub fn parse_messages(d: &[u8], version: HeaderVersion, first: ByteRange) -> (r: Result<
    DataObject,
    Error,
>)
    requires
        range_ok(d@, first),
    ensures
        match r {
            Ok(o) => {
                &&& o.wf()
                &&& read_from(o, d@)
                &&& header_stream(d@, version, first) is Ok
                &&& built(d@, header_stream(d@, version, first)->Ok_0, o)
            },
            Err(e) => header_stream(d@, version, first) == Err::<
                Seq<(Option<MessageType>, Seq<u8>)>,
                Error,
            >(e),
        },
{
    let len = d.len();
    let mut obj = DataObject::new();
    let mut chunks: Vec<ByteRange> = Vec::new();
    chunks.push(first);
    let mut remaining: usize = match version {
        HeaderVersion::V1 { total_messages } => total_messages as usize,
        HeaderVersion::V2 { .. } => 0,
    };
    let ghost total = header_stream(d@, version, first);
    let ghost mut trace: Seq<(Option<MessageType>, Seq<u8>)> = Seq::empty();
    assert(built(d@, trace, obj)) by {
        reveal(built);
        assert(chain(d@, trace, seq![obj]));
    }
    assert(chunk_start(seq![first], 0) == first.0);
    assert(chunks@ =~= seq![first]);
    assert(total == prepend(trace, stream(d@, version, chunks@, 0, chunk_start(chunks@, 0), remaining as int))) by {
        match stream(d@, version, chunks@, 0, chunk_start(chunks@, 0), remaining as int) {
            Ok(x) => { assert(trace + x =~= x); },
            Err(_) => {},
        }
    }
    let mut idx: usize = 0;
    while idx < chunks.len()
        invariant
            len == d@.len(),
            obj.wf(),
            read_from(obj, d@),
            forall|k: int| 0 <= k < chunks@.len() ==> range_ok(d@, #[trigger] chunks@[k]),
            chunks@.len() <= len + 1,
            idx <= chunks@.len(),
            remaining as int >= 0,
            version is V2 ==> remaining == 0,
            total == header_stream(d@, version, first),
            total == prepend(
                trace,
                stream(d@, version, chunks@, idx as int, chunk_start(chunks@, idx as int), remaining as int),
            ),
            built(d@, trace, obj),
        decreases len + 1 - idx,
    {
        let (start, clen) = chunks[idx];
        let end = start + clen;
        let mut pos = start;
        loop
            invariant
                len == d@.len(),
                obj.wf(),
                read_from(obj, d@),
                forall|k: int| 0 <= k < chunks@.len() ==> range_ok(d@, #[trigger] chunks@[k]),
                chunks@.len() <= len + 1,
                idx < chunks@.len(),
                start == chunks@[idx as int].0,
                end == chunks@[idx as int].0 + chunks@[idx as int].1,
                start <= pos <= end <= len,
                version is V2 ==> remaining == 0,
                total == header_stream(d@, version, first),
                total == prepend(
                    trace,
                    stream(d@, version, chunks@, idx as int, pos as int, remaining as int),
                ),
                built(d@, trace, obj),
            ensures
                total == prepend(
                    trace,
                    stream(
                        d@,
                        version,
                        chunks@,
                        idx + 1,
                        chunk_start(chunks@, idx + 1),
                        remaining as int,
                    ),
                ),
            decreases end - pos,
        {
            let ghost st = stream(d@, version, chunks@, idx as int, pos as int, remaining as int);
            let ghost rem0 = remaining as int;
            proof {
                lemma_stream_step(d@, version, chunks@, idx as int, pos as int, remaining as int);
            }
            let (tag, size, header) = match version {
                HeaderVersion::V1 { .. } => {
                    if remaining == 0 || end - pos < 8 {
                        break ;
                    }
                    remaining = remaining - 1;
                    (get_u16(d, pos), get_u16(d, pos + 2) as usize, 8usize)
                },
                HeaderVersion::V2 { creation_order_tracked } => {
                    if end - pos < 4 {
                        break ;
                    }
                    let header: usize = if creation_order_tracked {
                        6
                    } else {
                        4
                    };
                    if end - pos < header {
                        return Err(Error::Io);
                    }
                    (d[pos] as u16, get_u16(d, pos + 1) as usize, header)
                },
            };
            assert(header == header_size(version));
            assert(tag == msg_tag(d@, version, pos as int));
            assert(size == msg_size(d@, version, pos as int));
            if size > end - (pos + header) {
                return Err(Error::Io);
            }
            let body = copy_range(d, pos + header, size);
            assert(from_file(d@, body@)) by {
                assert(body@ == d@.subrange((pos + header) as int, (pos + header + size) as int));
            }
            let t = match MessageType::from_tag(tag) {
                Ok(t) => Some(t),
                Err(_) => None,
            };
            if t == Some(MessageType::ObjectContinuation) && chunks.len() > len {
                return Err(Error::Format);
            }
            let ghost before = obj;
            let ghost chunks_before = chunks@;
            parse_message(d, t, body.as_slice(), &mut obj, &mut chunks)?;
            proof {
                let m = (t, body@);
                let rest = stream(d@, version, chunks@, idx as int, (pos + header + size) as int, remaining as int);
                assert(chunks@ == chunks_after(t, body@, chunks_before));
                assert(st == prepend(seq![m], rest));
                match rest {
                    Ok(x) => {
                        assert(trace + (seq![m] + x) =~= trace.push(m) + x);
                    },
                    Err(_) => {},
                }
                lemma_built_step(d@, trace, m, before, obj);
                trace = trace.push(m);
            }
            pos = pos + header + size;
        }
        idx += 1;
    }
    proof {
        lemma_stream_end(d@, version, chunks@, idx as int, 0, remaining as int);
    }
    assert(trace + Seq::<(Option<MessageType>, Seq<u8>)>::empty() =~= trace);
    Ok(obj)
}

/// The width in bytes that the two low bits of a header's flags give to the
/// size of its first chunk.
pub open spec fn size_width(flags: u8) -> int {
    let s = flags & 3;
    if s == 0 {
        1
    } else if s == 1 {
        2
    } else if s == 2 {
        4
    } else {
        8
    }
}

fn chunk_size_width(flags: u8) -> (r: usize)
    ensures
        r == size_width(flags),
{
    let s = flags & 3;
    if s == 0 {
        1
    } else if s == 1 {
        2
    } else if s == 2 {
        4
    } else {
        8
    }
}

pub open spec fn ohdr_signature() -> Seq<u8> {
    seq![79u8, 72u8, 68u8, 82u8]
}

/// Flag of a version-2 header: two bytes of creation order follow each
/// message header.
pub const ATTRIBUTE_CREATION_ORDER_TRACKED: u8 = 4;

/// Flag of a version-2 header: attribute storage thresholds are stored.
pub const NON_DEFAULT_ATTRIBUTE_STORAGE_PHASE_CHANGE: u8 = 16;

/// Flag of a version-2 header: four time stamps follow the flags.
pub const TIMES_TRACKED: u8 = 32;

/// The layout and first chunk of the version-1 header at `p`: the version
/// byte, a reserved byte, the number of messages, a reference count and the
/// size of the first chunk, which follows the 16-byte prefix.
pub open spec fn v1_prefix(d: Seq<u8>, p: int) -> Result<(HeaderVersion, ByteRange), Error> {
    if !fits(d, p, 16) || !fits(d, p + 16, le_u32(d, p + 8)) {
        Err(Error::Io)
    } else {
        Ok(
            (
                HeaderVersion::V1 { total_messages: le_u16(d, p + 2) as u16 },
                ((p + 16) as usize, le_u32(d, p + 8) as usize),
            ),
        )
    }
}

/// Position of the first-chunk size of the version-2 header at `p`.
pub open spec fn v2_size_pos(d: Seq<u8>, p: int) -> int {
    p + 6 + if d[p + 5] & TIMES_TRACKED != 0 {
        16int
    } else {
        0int
    }
}

/// The layout and first chunk of the version-2 header at `p`: the "OHDR"
/// signature, the version (2), the flags, the optional time stamps and the
/// size of the first chunk, in one to eight bytes as the flags say.
pub open spec fn v2_prefix(d: Seq<u8>, p: int) -> Result<(HeaderVersion, ByteRange), Error> {
    let q = v2_size_pos(d, p);
    let w = size_width(d[p + 5]);
    if !fits(d, p, 4) {
        Err(Error::Io)
    } else if d.subrange(p, p + 4) != ohdr_signature() {
        Err(Error::Format)
    } else if !fits(d, p, 6) {
        Err(Error::Io)
    } else if d[p + 4] != 2 || d[p + 5] & NON_DEFAULT_ATTRIBUTE_STORAGE_PHASE_CHANGE != 0 {
        Err(Error::Format)
    } else if !fits(d, p + 6, q - (p + 6)) || !fits(d, q, w) || !fits(
        d,
        q + w,
        le_width(d, q, w),
    ) {
        Err(Error::Io)
    } else {
        Ok(
            (
                HeaderVersion::V2 {
                    creation_order_tracked: d[p + 5] & ATTRIBUTE_CREATION_ORDER_TRACKED != 0,
                },
                ((q + w) as usize, le_width(d, q, w) as usize),
            ),
        )
    }
}

/// The layout and first chunk of the object header at `p`.
pub open spec fn header_prefix(d: Seq<u8>, p: int) -> Result<(HeaderVersion, ByteRange), Error> {
    if !fits(d, p, 1) {
        Err(Error::Io)
    } else if d[p] == 1 {
        v1_prefix(d, p)
    } else if d[p] == 79 {
        v2_prefix(d, p)
    } else {
        Err(Error::Format)
    }
}

/// The messages of the object header at `p`, or the first failure.
pub open spec fn header_messages(d: Seq<u8>, p: int) -> Result<
    Seq<(Option<MessageType>, Seq<u8>)>,
    Error,
> {
    match header_prefix(d, p) {
        Err(e) => Err(e),
        Ok((v, first)) => header_stream(d, v, first),
    }
}

/// `r` is what the object header at `p` describes: the failure of its
/// prefix or of its first failing message, else the object that its
/// messages build.
pub open spec fn header_object(d: Seq<u8>, p: int, r: Result<DataObject, Error>) -> bool {
    match header_messages(d, p) {
        Err(e) => r == Err::<DataObject, Error>(e),
        Ok(ms) => r is Ok && built(d, ms, r->Ok_0) && r->Ok_0.wf() && read_from(r->Ok_0, d),
    }
}

/// Parses the object header at `offset` (version 1, or version 2 with its
/// "OHDR" signature) and builds the object that its messages describe.
pub fn parse_data_object(d: &[u8], offset: u64) -> (r: Result<DataObject, Error>)
    ensures
        header_object(d@, offset as int, r),
{
    let len = d.len();
    if offset >= len as u64 {
        return Err(Error::Io);
    }
    let p = offset as usize;
    let hint = d[p];
    if hint == 1 {
        parse_v1_objects(d, p)
    } else if hint == 79 {
        parse_v2_objects(d, p)
    } else {
        Err(Error::Format)
    }
}

/// Parses the version-1 object header at `p`.
fn parse_v1_objects(d: &[u8], p: usize) -> (r: Result<DataObject, Error>)
    ensures
        match v1_prefix(d@, p as int) {
            Err(e) => r == Err::<DataObject, Error>(e),
            Ok((v, first)) => match r {
                Ok(o) => o.wf() && read_from(o, d@) && header_stream(d@, v, first) is Ok && built(
                    d@,
                    header_stream(d@, v, first)->Ok_0,
                    o,
                ),
                Err(e) => header_stream(d@, v, first) == Err::<
                    Seq<(Option<MessageType>, Seq<u8>)>,
                    Error,
                >(e),
            },
        },
{
    check_fits(d, p, 16)?;
    let total_messages = get_u16(d, p + 2);
    let size = get_u32(d, p + 8) as usize;
    check_fits(d, p + 16, size)?;
    parse_messages(d, HeaderVersion::V1 { total_messages }, (p + 16, size))
}

/// Parses the version-2 object header at `p`.
fn parse_v2_objects(d: &[u8], p: usize) -> (r: Result<DataObject, Error>)
    ensures
        match v2_prefix(d@, p as int) {
            Err(e) => r == Err::<DataObject, Error>(e),
            Ok((v, first)) => match r {
                Ok(o) => o.wf() && read_from(o, d@) && header_stream(d@, v, first) is Ok && built(
                    d@,
                    header_stream(d@, v, first)->Ok_0,
                    o,
                ),
                Err(e) => header_stream(d@, v, first) == Err::<
                    Seq<(Option<MessageType>, Seq<u8>)>,
                    Error,
                >(e),
            },
        },
{
    let len = d.len();
    check_fits(d, p, 4)?;
    let sig: [u8; 4] = [79u8, 72u8, 68u8, 82u8];
    assert(sig@ =~= ohdr_signature());
    if !has_signature(d, p, &sig) {
        return Err(Error::Format);
    }
    check_fits(d, p, 6)?;
    let flags = d[p + 5];
    if d[p + 4] != 2 || flags & NON_DEFAULT_ATTRIBUTE_STORAGE_PHASE_CHANGE != 0 {
        return Err(Error::Format);
    }
    let mut q = p + 6;
    if flags & TIMES_TRACKED != 0 {
        check_fits(d, q, 16)?;
        q = q + 16;
    }
    assert(q == v2_size_pos(d@, p as int));
    let width = chunk_size_width(flags);
    check_fits(d, q, width)?;
    let size0 = get_width(d, q, width);
    if size0 > (len - (q + width)) as u64 {
        return Err(Error::Io);
    }
    let order_kept = flags & ATTRIBUTE_CREATION_ORDER_TRACKED != 0;
    parse_messages(
        d,
        HeaderVersion::V2 { creation_order_tracked: order_kept },
        (q + width, size0 as usize),
    )
}

} // verus!
