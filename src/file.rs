use crate::data_object::{built, header_messages, parse_data_object, read_from, DataObject};
use crate::dataset::Dataset;
use crate::error::Error;
use crate::group::{dataset_lookup, group_lookup, lookup_result, Group, Object};
use crate::superblock::{parse_superblock, superblock_result, SuperBlockVersion0, SUPERBLOCK_SIZE};
use crate::symbol_table::{entry_at, SymbolTableEntry, ENTRY_SIZE};
use crate::bytes::fits;
use std::sync::Arc;
use vstd::prelude::*;

verus! {

/// An open file: its superblock, the root group's symbol-table entry and
/// object, and the file's bytes, shared with every group and dataset read
/// from it.
pub struct FileReader {
    pub superblock: SuperBlockVersion0,
    pub root_entry: SymbolTableEntry,
    pub data_object: Arc<DataObject>,
    pub input: Arc<Vec<u8>>,
}

impl FileReader {
    /// The file's bytes.
    pub open spec fn bytes(&self) -> Seq<u8> {
        self.input@
    }

    /// The root object's child names are unique.
    pub open spec fn wf(&self) -> bool {
        self.data_object.wf()
    }

    /// Opens a file from its bytes: parses the superblock, the root
    /// symbol-table entry that follows it, and the root object header.
    pub fn new(input: Vec<u8>) -> (r: Result<FileReader, Error>)
        ensures
            superblock_result(input@) is Err ==> r == Err::<FileReader, Error>(
                superblock_result(input@)->Err_0,
            ),
            superblock_result(input@) is Ok && !fits(input@, SUPERBLOCK_SIZE as int, ENTRY_SIZE as int)
                ==> r == Err::<FileReader, Error>(Error::Io),
            superblock_result(input@) is Ok && fits(input@, SUPERBLOCK_SIZE as int, ENTRY_SIZE as int)
                ==> {
                let address = entry_at(input@, SUPERBLOCK_SIZE as int).object_header_address;
                match header_messages(input@, address as int) {
                    Err(e) => r == Err::<FileReader, Error>(e),
                    Ok(ms) => r is Ok && built(input@, ms, *r->Ok_0.data_object),
                }
            },
            r is Ok ==> {
                let f = r->Ok_0;
                &&& f.wf()
                &&& read_from(*f.data_object, input@)
                &&& f.bytes() == input@
                &&& superblock_result(input@) == Ok::<SuperBlockVersion0, Error>(f.superblock)
                &&& fits(input@, SUPERBLOCK_SIZE as int, ENTRY_SIZE as int)
                &&& f.root_entry == entry_at(input@, SUPERBLOCK_SIZE as int)
            },
    {
        let superblock = parse_superblock(input.as_slice())?;
        let root_entry = SymbolTableEntry::read(input.as_slice(), SUPERBLOCK_SIZE)?;
        let data_object = parse_data_object(input.as_slice(), root_entry.object_header_address)?;
        Ok(
            FileReader {
                superblock,
                root_entry,
                data_object: Arc::new(data_object),
                input: Arc::new(input),
            },
        )
    }

    /// The root group.
    pub fn as_group(&self) -> (r: Group)
        ensures
            r.data_object == self.data_object,
            r.input@ == self.bytes(),
    {
        Group { data_object: Arc::clone(&self.data_object), input: Arc::clone(&self.input) }
    }

    /// The root group, as `as_group` gives it.
    pub fn as_mut_group(&mut self) -> (r: Group)
        ensures
            *final(self) == *old(self),
            r.data_object == old(self).data_object,
            r.input@ == old(self).bytes(),
    {
        self.as_group()
    }

    /// The names of the root group's children, each once.
    pub fn keys(&self) -> (r: Vec<String>)
        requires
            self.wf(),
        ensures
            r@.len() == self.data_object.links@.len(),
            forall|i: int| 0 <= i < r@.len() ==> r@[i]@ == self.data_object.links@[i].name@,
            forall|i: int, j: int|
                0 <= i < r@.len() && 0 <= j < r@.len() && i != j ==> r@[i]@ != r@[j]@,
    {
        self.as_group().keys()
    }

    /// The root group's child named `name`.
    pub fn object(&self, name: &str) -> (r: Result<Object, Error>)
        requires
            self.wf(),
        ensures
            lookup_result(self.bytes(), self.data_object.links@, name@, r),
    {
        self.as_group().object(name)
    }

    /// The root group's child group named `name`.
    pub fn group(&self, name: &str) -> (r: Result<Group, Error>)
        requires
            self.wf(),
        ensures
            group_lookup(self.bytes(), self.data_object.links@, name@, r),
    {
        self.as_group().group(name)
    }

    /// The root group's child dataset named `name`.
    pub fn dataset(&self, name: &str) -> (r: Result<Dataset, Error>)
        requires
            self.wf(),
        ensures
            dataset_lookup(self.bytes(), self.data_object.links@, name@, r),
    {
        self.as_group().dataset(name)
    }
}

} // verus!
