use crate::data_object::{
    built, classified_group, header_messages, link_index, names_unique, parse_data_object, DataObject,
};
use crate::dataset::dataset_object_ok;
use crate::dataset::Dataset;
use crate::error::Error;
use crate::file::FileReader;
use crate::link::{Link, LinkTarget};
use std::sync::Arc;
use vstd::prelude::*;

verus! {

/// A group: its object header, and the file it was read from.
#[derive(Clone, Debug)]
pub struct Group {
    pub data_object: Arc<DataObject>,
    pub input: Arc<Vec<u8>>,
}

/// A child of a group, told apart by the messages of its object header.
#[derive(Clone, Debug)]
pub enum Object {
    Group(Group),
    Dataset(Dataset),
}

/// `o` is an object read from the file `input`, classified by its messages:
/// a group where it has no layout and has links or no dataspace, else a
/// dataset.
pub open spec fn classified_from(o: Object, input: Seq<u8>) -> bool {
    match o {
        Object::Group(g) => g.data_object.wf() && classified_group(*g.data_object) && g.input@
            == input,
        Object::Dataset(ds) => ds.wf() && !classified_group(ds.data_object) && ds.input@ == input,
    }
}

/// The position of the link named `name`, if any.
fn find_link(links: &Vec<Link>, name: &String) -> (r: Option<usize>)
    ensures
        match r {
            Some(i) => i < links@.len() && links@[i as int].name@ == name@,
            None => forall|i: int| 0 <= i < links@.len() ==> links@[i].name@ != name@,
        },
{
    let mut i: usize = 0;
    while i < links.len()
        invariant
            i <= links@.len(),
            forall|k: int| 0 <= k < i ==> links@[k].name@ != name@,
        decreases links@.len() - i,
    {
        if links[i].name == *name {
            return Some(i);
        }
        i += 1;
    }
    None
}

/// The object header that a child object was read from.
pub open spec fn object_data(o: Object) -> DataObject {
    match o {
        Object::Group(g) => *g.data_object,
        Object::Dataset(ds) => ds.data_object,
    }
}

/// `r` is what following a hard link to `address` in the file `d` gives:
/// the failure of the object header there, else the object that its
/// messages build, classified as a group or a dataset; `Format` only where
/// that object would be a dataset without a layout, a datatype or a
/// dataspace.
pub open spec fn child_result(d: Seq<u8>, address: u64, r: Result<Object, Error>) -> bool {
    match header_messages(d, address as int) {
        Err(e) => r == Err::<Object, Error>(e),
        Ok(ms) => match r {
            Ok(o) => built(d, ms, object_data(o)) && classified_from(o, d),
            Err(e) => e == Error::Format && exists|c: DataObject|
                #[trigger] built(d, ms, c) && c.wf() && !classified_group(c) && !dataset_object_ok(
                    c,
                ),
        },
    }
}

/// `r` is what looking up `name` among `links` gives: `NotFound` where no
/// link has that name, `Unsupported` for a soft link, else the child at the
/// hard link's address.
pub open spec fn lookup_result(d: Seq<u8>, links: Seq<Link>, name: Seq<char>, r: Result<Object, Error>) -> bool {
    match link_index(links, name) {
        None => r == Err::<Object, Error>(Error::NotFound),
        Some(i) => match links[i].target {
            LinkTarget::Soft { .. } => r == Err::<Object, Error>(Error::Unsupported),
            LinkTarget::Hard { address } => child_result(d, address, r),
        },
    }
}

/// `r` is what looking up the group `name` gives: as `lookup_result`, with
/// `Format` where the child is not a group.
pub open spec fn group_lookup(d: Seq<u8>, links: Seq<Link>, name: Seq<char>, r: Result<Group, Error>) -> bool {
    match link_index(links, name) {
        None => r == Err::<Group, Error>(Error::NotFound),
        Some(i) => match links[i].target {
            LinkTarget::Soft { .. } => r == Err::<Group, Error>(Error::Unsupported),
            LinkTarget::Hard { address } => match header_messages(d, address as int) {
                Err(e) => r == Err::<Group, Error>(e),
                Ok(ms) => match r {
                    Ok(g) => built(d, ms, *g.data_object) && g.wf() && classified_group(
                        *g.data_object,
                    ) && g.input@ == d,
                    Err(e) => e == Error::Format && exists|c: DataObject|
                        #[trigger] built(d, ms, c) && !classified_group(c),
                },
            },
        },
    }
}

/// `r` is what looking up the dataset `name` gives: as `lookup_result`, with
/// `Format` where the child is not a well-formed dataset.
pub open spec fn dataset_lookup(d: Seq<u8>, links: Seq<Link>, name: Seq<char>, r: Result<Dataset, Error>) -> bool {
    match link_index(links, name) {
        None => r == Err::<Dataset, Error>(Error::NotFound),
        Some(i) => match links[i].target {
            LinkTarget::Soft { .. } => r == Err::<Dataset, Error>(Error::Unsupported),
            LinkTarget::Hard { address } => match header_messages(d, address as int) {
                Err(e) => r == Err::<Dataset, Error>(e),
                Ok(ms) => match r {
                    Ok(ds) => built(d, ms, ds.data_object) && ds.wf() && !classified_group(
                        ds.data_object,
                    ) && ds.input@ == d,
                    Err(e) => e == Error::Format && exists|c: DataObject|
                        #[trigger] built(d, ms, c) && (classified_group(c) || !dataset_object_ok(c)),
                },
            },
        },
    }
}

/// Parses the object header at `address` and classifies it.
fn object_at(input: &Arc<Vec<u8>>, address: u64) -> (r: Result<Object, Error>)
    ensures
        child_result(input@, address, r),
{
    let data_object = parse_data_object(input.as_slice(), address)?;
    if data_object.is_group() {
        Ok(Object::Group(Group { data_object: Arc::new(data_object), input: Arc::clone(input) }))
    } else {
        if data_object.data.len() == 0 || data_object.datatypes.len() == 0
            || data_object.dataspaces.len() == 0 {
            return Err(Error::Format);
        }
        Ok(Object::Dataset(Dataset { data_object, input: Arc::clone(input) }))
    }
}

impl Link {
    /// The object that a hard link points to; a soft link cannot be followed
    /// (`Unsupported`).
    pub fn follow(&self, file: &FileReader) -> (r: Result<Object, Error>)
        ensures
            match self.target {
                LinkTarget::Soft { .. } => r == Err::<Object, Error>(Error::Unsupported),
                LinkTarget::Hard { address } => child_result(file.bytes(), address, r),
            },
    {
        match self.target {
            LinkTarget::Hard { address } => object_at(&file.input, address),
            LinkTarget::Soft { .. } => Err(Error::Unsupported),
        }
    }
}

impl Group {
    /// Each child name occurs once.
    pub open spec fn wf(&self) -> bool {
        self.data_object.wf()
    }

    /// The names of the group's children, each once.
    pub fn keys(&self) -> (r: Vec<String>)
        requires
            self.wf(),
        ensures
            r@.len() == self.data_object.links@.len(),
            forall|i: int| 0 <= i < r@.len() ==> r@[i]@ == self.data_object.links@[i].name@,
            forall|i: int, j: int| 0 <= i < r@.len() && 0 <= j < r@.len() && i != j ==> r@[i]@ != r@[j]@,
    {
        let links = &self.data_object.links;
        let mut r: Vec<String> = Vec::new();
        let mut i: usize = 0;
        while i < links.len()
            invariant
                i <= links@.len(),
                r@.len() == i,
                forall|k: int| 0 <= k < i ==> r@[k]@ == links@[k].name@,
            decreases links@.len() - i,
        {
            r.push(links[i].name.clone());
            i += 1;
        }
        r
    }

    /// The child named `name`: `NotFound` where there is none, `Unsupported`
    /// where its link is soft. A child classified as a dataset must have a
    /// layout, a datatype and a dataspace, else `Format`.
    pub fn object(&self, name: &str) -> (r: Result<Object, Error>)
        requires
            self.wf(),
        ensures
            lookup_result(self.input@, self.data_object.links@, name@, r),
    {
        let key = name.to_owned();
        let links = &self.data_object.links;
        match find_link(links, &key) {
            None => Err(Error::NotFound),
            Some(i) => {
                proof {
                    let j = choose|j: int| 0 <= j < links@.len() && links@[j].name@ == name@;
                    assert(names_unique(links@));
                    assert(j == i);
                }
                match links[i].target {
                    LinkTarget::Hard { address } => object_at(&self.input, address),
                    LinkTarget::Soft { .. } => Err(Error::Unsupported),
                }
            },
        }
    }

    /// The child named `name`, which must be a group (else `Format`).
    pub fn group(&self, name: &str) -> (r: Result<Group, Error>)
        requires
            self.wf(),
        ensures
            group_lookup(self.input@, self.data_object.links@, name@, r),
    {
        match self.object(name)? {
            Object::Group(g) => Ok(g),
            Object::Dataset(_) => Err(Error::Format),
        }
    }

    /// The child named `name`, which must be a dataset (else `Format`).
    pub fn dataset(&self, name: &str) -> (r: Result<Dataset, Error>)
        requires
            self.wf(),
        ensures
            dataset_lookup(self.input@, self.data_object.links@, name@, r),
    {
        match self.object(name)? {
            Object::Dataset(ds) => Ok(ds),
            Object::Group(_) => Err(Error::Format),
        }
    }
}

impl Object {
    /// The child named `name` of this object, which must be a group.
    pub fn object(&self, name: &str) -> (r: Result<Object, Error>)
        requires
            self is Group ==> self->Group_0.wf(),
        ensures
            self is Dataset ==> r == Err::<Object, Error>(Error::Format),
            self is Group ==> lookup_result(
                self->Group_0.input@,
                self->Group_0.data_object.links@,
                name@,
                r,
            ),
    {
        match self {
            Object::Group(g) => g.object(name),
            Object::Dataset(_) => Err(Error::Format),
        }
    }

    /// The child group named `name` of this object, which must be a group.
    pub fn group(&self, name: &str) -> (r: Result<Group, Error>)
        requires
            self is Group ==> self->Group_0.wf(),
        ensures
            self is Dataset ==> r == Err::<Group, Error>(Error::Format),
            self is Group ==> group_lookup(
                self->Group_0.input@,
                self->Group_0.data_object.links@,
                name@,
                r,
            ),
    {
        match self {
            Object::Group(g) => g.group(name),
            Object::Dataset(_) => Err(Error::Format),
        }
    }

    /// The child dataset named `name` of this object, which must be a group.
    pub fn dataset(&self, name: &str) -> (r: Result<Dataset, Error>)
        requires
            self is Group ==> self->Group_0.wf(),
        ensures
            self is Dataset ==> r == Err::<Dataset, Error>(Error::Format),
            self is Group ==> dataset_lookup(
                self->Group_0.input@,
                self->Group_0.data_object.links@,
                name@,
                r,
            ),
    {
        match self {
            Object::Group(g) => g.dataset(name),
            Object::Dataset(_) => Err(Error::Format),
        }
    }
}

/// Looking up a hard link whose object header parses, in a file where every
/// object that those messages build is a group or a well-formed dataset,
/// succeeds; the child is the object that the header's messages build,
/// classified by its messages.
pub proof fn lemma_lookup_classified(g: Group, name: &str, r: Result<Object, Error>, address: u64)
    requires
        g.wf(),
        call_ensures(Group::object, (&g, name), r),
        link_index(g.data_object.links@, name@) is Some,
        g.data_object.links@[link_index(g.data_object.links@, name@)->Some_0].target
            == (LinkTarget::Hard { address }),
        header_messages(g.input@, address as int) is Ok,
        forall|c: DataObject|
            #[trigger] built(g.input@, header_messages(g.input@, address as int)->Ok_0, c)
                ==> classified_group(c) || dataset_object_ok(c),
    ensures
        r is Ok,
        built(g.input@, header_messages(g.input@, address as int)->Ok_0, object_data(r->Ok_0)),
        classified_from(r->Ok_0, g.input@),
{
}

/// A failed lookup leaves the group as it was, so a later lookup of a
/// well-formed hard-linked child still succeeds with the object that its
/// header builds.
pub proof fn lemma_error_locality(
    g: Group,
    bad: &str,
    r1: Result<Object, Error>,
    good: &str,
    r2: Result<Object, Error>,
    address: u64,
)
    requires
        g.wf(),
        call_ensures(Group::object, (&g, bad), r1),
        r1 is Err,
        call_ensures(Group::object, (&g, good), r2),
        link_index(g.data_object.links@, good@) is Some,
        g.data_object.links@[link_index(g.data_object.links@, good@)->Some_0].target
            == (LinkTarget::Hard { address }),
        header_messages(g.input@, address as int) is Ok,
        forall|c: DataObject|
            #[trigger] built(g.input@, header_messages(g.input@, address as int)->Ok_0, c)
                ==> classified_group(c) || dataset_object_ok(c),
    ensures
        r2 is Ok,
        built(g.input@, header_messages(g.input@, address as int)->Ok_0, object_data(r2->Ok_0)),
{
}

} // verus!
