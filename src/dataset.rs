use crate::array::{
    all_positive, extents, origin_of, strides_of, strides_ok, suffix_overflows, tile_chunk, tiled,
    volume, volume_of,
};
use crate::bytes::{copy_range, fits, le_u32, le_u64};
use crate::data_object::DataObject;
use crate::data_storage::DataStorage;
use crate::datatype::{Datatype, DatatypeEncoding};
use crate::error::Error;
use crate::filter_pipeline::{FilterPipeline, FilterType};
use crate::filters::{
    invert_filters, invert_pipeline, lemma_shuffle_deflate_round_trip, pipeline_types, shuffled,
    zlib_inflate,
};
use crate::node::{chunk_key_at, chunk_tree_positions, collect_chunk_keys, keys_at, BTreeNodeKey};
use std::sync::Arc;
use vstd::prelude::*;

verus! {

/// The element types that a dataset can be read as.
#[derive(Clone, Copy, Debug, PartialEq, Eq, Structural)]
pub enum ElementType {
    /// Unsigned 8-bit integers: fixed point, 1 byte.
    U8,
    /// IEEE single precision: floating point, 4 bytes.
    F32,
    /// IEEE double precision: floating point, 8 bytes.
    F64,
}

/// The datatype class and size that an element type requires.
pub open spec fn element_pair(t: ElementType) -> (DatatypeEncoding, u32) {
    match t {
        ElementType::U8 => (DatatypeEncoding::FixedPoint, 1),
        ElementType::F32 => (DatatypeEncoding::FloatingPoint, 4),
        ElementType::F64 => (DatatypeEncoding::FloatingPoint, 8),
    }
}

impl ElementType {
    /// Size in bytes of one element.
    pub fn size(&self) -> (r: usize)
        ensures
            r == element_pair(*self).1,
            r > 0,
    {
        match self {
            ElementType::U8 => 1,
            ElementType::F32 => 4,
            ElementType::F64 => 8,
        }
    }

    /// Checks that a stored datatype holds elements of this type: its class
    /// and size must be this type's, else `TypeMismatch`.
    pub fn verify(&self, datatype: &Datatype) -> (r: Result<(), Error>)
        ensures
            r is Ok <==> datatype.encoding == element_pair(*self).0 && datatype.size
                == element_pair(*self).1,
            r is Err ==> r == Err::<(), Error>(Error::TypeMismatch),
    {
        let (encoding, size) = match self {
            ElementType::U8 => (DatatypeEncoding::FixedPoint, 1u32),
            ElementType::F32 => (DatatypeEncoding::FloatingPoint, 4u32),
            ElementType::F64 => (DatatypeEncoding::FloatingPoint, 8u32),
        };
        if datatype.encoding != encoding || datatype.size != size {
            return Err(Error::TypeMismatch);
        }
        Ok(())
    }
}

/// A rectangular array read from a dataset: `shape` gives the extents, and
/// `bytes` the elements in row-major order, `element_size` little-endian
/// bytes each.
#[derive(Clone, Debug)]
pub struct ArrayData {
    pub shape: Vec<u64>,
    pub element_size: usize,
    pub bytes: Vec<u8>,
}

/// A dataset: its object header, and the file it was read from.
#[derive(Clone, Debug)]
pub struct Dataset {
    pub data_object: DataObject,
    pub input: Arc<Vec<u8>>,
}

/// The object has what a dataset needs: a layout, a datatype and a dataspace.
pub open spec fn dataset_object_ok(o: DataObject) -> bool {
    &&& o.wf()
    &&& o.data@.len() > 0
    &&& o.datatypes@.len() > 0
    &&& o.dataspaces@.len() > 0
}

/// The extents of a dataspace shape as integers.
pub open spec fn shape_extents(s: Seq<u64>) -> Seq<int> {
    s.map_values(|x: u64| x as int)
}

/// The first `n` chunk extents as integers.
pub open spec fn chunk_extents(c: Seq<u32>, n: int) -> Seq<int> {
    c.subrange(0, n).map_values(|x: u32| x as int)
}

/// The extents as `usize` values, where each fits.
pub open spec fn shape_fits(s: Seq<u64>) -> bool {
    forall|k: int| 0 <= k < s.len() ==> s[k] <= usize::MAX
}

/// A contiguous payload of `size` bytes at `address` holds exactly the
/// elements of `e` bytes of an array of shape `s`, and lies inside the file.
pub open spec fn contiguous_fits(d: Seq<u8>, address: u64, size: u64, s: Seq<u64>, e: int) -> bool {
    &&& shape_fits(s)
    &&& volume(shape_extents(s)) <= usize::MAX
    &&& size == volume(shape_extents(s)) * e
    &&& fits(d, address as int, size as int)
}

/// What reading a contiguous payload gives: its bytes where they fill the
/// array exactly and lie in the file; `Io` where only the second fails;
/// else `Shape`.
pub open spec fn contiguous_result(d: Seq<u8>, address: u64, size: u64, s: Seq<u64>, e: int) -> Result<
    Seq<u8>,
    Error,
> {
    if contiguous_fits(d, address, size, s, e) {
        Ok(d.subrange(address as int, address + size))
    } else if shape_fits(s) && volume(shape_extents(s)) <= usize::MAX && size == volume(
        shape_extents(s),
    ) * e {
        Err(Error::Io)
    } else {
        Err(Error::Shape)
    }
}

/// Converts extents to `usize`, or `Shape` where one does not fit.
fn shape_to_usize(s: &Vec<u64>) -> (r: Result<Vec<usize>, Error>)
    ensures
        match r {
            Ok(v) => shape_fits(s@) && v@.len() == s@.len() && forall|k: int|
                0 <= k < s@.len() ==> v@[k] == s@[k],
            Err(e) => !shape_fits(s@) && e == Error::Shape,
        },
{
    let mut v: Vec<usize> = Vec::new();
    let mut k: usize = 0;
    while k < s.len()
        invariant
            k <= s@.len(),
            v@.len() == k,
            forall|m: int| 0 <= m < k ==> v@[m] == s@[m],
        decreases s@.len() - k,
    {
        if s[k] > usize::MAX as u64 {
            return Err(Error::Shape);
        }
        v.push(s[k] as usize);
        k += 1;
    }
    Ok(v)
}

/// Reads a contiguous payload: `size` bytes at `address`, which must hold
/// exactly the elements of an array of shape `shape`.
pub fn read_contiguous(d: &[u8], address: u64, size: u64, shape: &Vec<u64>, e: usize) -> (r: Result<
    ArrayData,
    Error,
>)
    requires
        e > 0,
    ensures
        match r {
            Ok(a) => {
                &&& contiguous_result(d@, address, size, shape@, e as int) == Ok::<Seq<u8>, Error>(
                    a.bytes@,
                )
                &&& a.shape@ == shape@
                &&& a.element_size == e
            },
            Err(x) => contiguous_result(d@, address, size, shape@, e as int) == Err::<
                Seq<u8>,
                Error,
            >(x),
        },
{
    let dims = shape_to_usize(shape)?;
    assert(extents(dims@) =~= shape_extents(shape@));
    let vol = match volume_of(&dims) {
        Some(v) => v,
        None => {
            return Err(Error::Shape);
        },
    };
    let e64 = e as u64;
    let vol64 = vol as u64;
    if vol64 > u64::MAX / e64 {
        assert(vol64 * e64 > u64::MAX) by (nonlinear_arith)
            requires
                e64 > 0,
                vol64 > u64::MAX / e64,
        ;
        return Err(Error::Shape);
    }
    assert(vol64 * e64 <= u64::MAX) by (nonlinear_arith)
        requires
            e64 > 0,
            vol64 <= u64::MAX / e64,
    ;
    if size != vol64 * e64 {
        return Err(Error::Shape);
    }
    let len = d.len();
    if address > len as u64 || size > len as u64 - address {
        return Err(Error::Io);
    }
    let bytes = copy_range(d, address as usize, size as usize);
    Ok(ArrayData { shape: shape.clone(), element_size: e, bytes })
}

/// The bytes of a chunk as stored at `addr`: a whole chunk of `chunk_bytes`
/// where no filter was applied, else the `size` bytes that its key gives.
pub open spec fn chunk_payload(
    d: Seq<u8>,
    addr: int,
    size: int,
    mask: int,
    filtered: bool,
    chunk_bytes: int,
) -> Result<Seq<u8>, Error> {
    if !filtered {
        if fits(d, addr, chunk_bytes) {
            Ok(d.subrange(addr, addr + chunk_bytes))
        } else {
            Err(Error::Io)
        }
    } else if mask != 0 {
        Err(Error::Unsupported)
    } else if !fits(d, addr, size) {
        Err(Error::Io)
    } else {
        Ok(d.subrange(addr, addr + size))
    }
}

/// The elements of a chunk: its payload with the filters `fs` undone, which
/// must fill the chunk exactly.
pub open spec fn chunk_elements(
    d: Seq<u8>,
    addr: int,
    size: int,
    mask: int,
    fs: Seq<FilterPipeline>,
    e: int,
    chunk_bytes: int,
) -> Result<Seq<u8>, Error> {
    match chunk_payload(d, addr, size, mask, fs.len() > 0, chunk_bytes) {
        Err(x) => Err(x),
        Ok(p) => match invert_pipeline(pipeline_types(fs), p, e as nat) {
            Err(x) => Err(x),
            Ok(v) => if v.len() == chunk_bytes {
                Ok(v)
            } else {
                Err(Error::Shape)
            },
        },
    }
}

/// The origin of the chunk whose key is at `q`.
pub open spec fn key_origin(d: Seq<u8>, q: int, dims: int) -> Seq<int> {
    Seq::new(dims as nat, |j: int| le_u64(d, q + 8 + 8 * j))
}

/// The elements of the chunk whose key is at `q`.
pub open spec fn key_elements(
    d: Seq<u8>,
    q: int,
    dims: int,
    fs: Seq<FilterPipeline>,
    e: int,
    chunk_bytes: int,
) -> Result<Seq<u8>, Error> {
    chunk_elements(d, le_u64(d, q + 8 + 8 * dims), le_u32(d, q), le_u32(d, q + 4), fs, e, chunk_bytes)
}

/// The array that the chunks whose keys are at `ps` give when written in
/// order over `init`; or the first failure.
pub open spec fn assembled(
    d: Seq<u8>,
    ps: Seq<int>,
    dims: int,
    fs: Seq<FilterPipeline>,
    e: int,
    s: Seq<int>,
    c: Seq<int>,
    init: Seq<u8>,
) -> Result<Seq<u8>, Error>
    decreases ps.len(),
{
    if ps.len() == 0 {
        Ok(init)
    } else {
        match assembled(d, ps.drop_last(), dims, fs, e, s, c, init) {
            Err(x) => Err(x),
            Ok(a) => match key_elements(d, ps.last(), dims, fs, e, volume(c) * e) {
                Err(x) => Err(x),
                Ok(v) => Ok(tiled(a, s, e, v, key_origin(d, ps.last(), dims), c)),
            },
        }
    }
}

/// A failure among the first `j` chunks is the failure of them all.
proof fn lemma_assembled_error_extends(
    d: Seq<u8>,
    ps: Seq<int>,
    dims: int,
    fs: Seq<FilterPipeline>,
    e: int,
    s: Seq<int>,
    c: Seq<int>,
    init: Seq<u8>,
    j: int,
    n: int,
)
    requires
        0 <= j <= n <= ps.len(),
        assembled(d, ps.subrange(0, j), dims, fs, e, s, c, init) is Err,
    ensures
        assembled(d, ps.subrange(0, n), dims, fs, e, s, c, init) == assembled(
            d,
            ps.subrange(0, j),
            dims,
            fs,
            e,
            s,
            c,
            init,
        ),
    decreases n - j,
{
    if j < n {
        lemma_assembled_error_extends(d, ps, dims, fs, e, s, c, init, j, n - 1);
        assert(ps.subrange(0, n).drop_last() =~= ps.subrange(0, n - 1));
    }
}

/// What reading a chunked payload gives: the checks on the chunk layout and
/// the sizes, the chunk B-tree walk, then every chunk written in order over
/// zeros; or the first failure.
pub open spec fn chunked_result(
    d: Seq<u8>,
    cs: Seq<u32>,
    address: u64,
    shape: Seq<u64>,
    e: int,
    fs: Seq<FilterPipeline>,
) -> Result<Seq<u8>, Error> {
    let n = shape.len() as int;
    let s = shape_extents(shape);
    let c = chunk_extents(cs, n);
    if cs.len() == 0 || cs.len() > 256 {
        Err(Error::Format)
    } else if cs.len() != n + 1 {
        Err(Error::Shape)
    } else if !shape_fits(shape) {
        Err(Error::Shape)
    } else if exists|k: int| 0 <= k < n && #[trigger] cs[k] == 0 {
        Err(Error::Format)
    } else if suffix_overflows(s) || suffix_overflows(c) {
        Err(Error::Shape)
    } else if volume(s) * e > usize::MAX || volume(c) * e > usize::MAX {
        Err(Error::Shape)
    } else {
        match chunk_tree_positions(d, address as int, cs.len() as int) {
            Err(x) => Err(x),
            Ok(ps) => assembled(d, ps, cs.len() as int, fs, e, s, c, zeros(volume(s) * e)),
        }
    }
}

/// `n` zero bytes.
pub open spec fn zeros(n: int) -> Seq<u8> {
    Seq::new(n as nat, |i: int| 0u8)
}

/// Reads the elements of one chunk: its payload, with the filters undone.
fn read_chunk(
    d: &[u8],
    k: &BTreeNodeKey,
    filters: &Vec<FilterPipeline>,
    e: usize,
    chunk_bytes: usize,
) -> (r: Result<Vec<u8>, Error>)
    requires
        e > 0,
    ensures
        match r {
            Ok(v) => chunk_elements(
                d@,
                k.chunk_address as int,
                k.chunk_size as int,
                k.filter_mask as int,
                filters@,
                e as int,
                chunk_bytes as int,
            ) == Ok::<Seq<u8>, Error>(v@),
            Err(x) => chunk_elements(
                d@,
                k.chunk_address as int,
                k.chunk_size as int,
                k.filter_mask as int,
                filters@,
                e as int,
                chunk_bytes as int,
            ) == Err::<Seq<u8>, Error>(x),
        },
{
    let len = d.len();
    let a = k.chunk_address;
    let payload = if filters.len() == 0 {
        if a > len as u64 || chunk_bytes as u64 > len as u64 - a {
            return Err(Error::Io);
        }
        copy_range(d, a as usize, chunk_bytes)
    } else {
        if k.filter_mask != 0 {
            return Err(Error::Unsupported);
        }
        if a > len as u64 || k.chunk_size as u64 > len as u64 - a {
            return Err(Error::Io);
        }
        copy_range(d, a as usize, k.chunk_size as usize)
    };
    let v = invert_filters(filters, payload, e)?;
    if v.len() != chunk_bytes {
        return Err(Error::Shape);
    }
    Ok(v)
}

/// Reads a chunked payload into an array of shape `shape`: each chunk found
/// through the chunk B-tree at `address` is decoded and written at its
/// origin, clipped to the array; elements that no chunk covers stay zero.
/// `chunk_shape` holds the chunk extents, then the element size.
pub fn read_chunked(
    d: &[u8],
    chunk_shape: &Vec<u32>,
    address: u64,
    shape: &Vec<u64>,
    e: usize,
    filters: &Vec<FilterPipeline>,
) -> (r: Result<ArrayData, Error>)
    requires
        e > 0,
    ensures
        match r {
            Ok(a) => {
                &&& chunked_result(d@, chunk_shape@, address, shape@, e as int, filters@) == Ok::<
                    Seq<u8>,
                    Error,
                >(a.bytes@)
                &&& a.shape@ == shape@
                &&& a.element_size == e
            },
            Err(x) => chunked_result(d@, chunk_shape@, address, shape@, e as int, filters@)
                == Err::<Seq<u8>, Error>(x),
        },
{
    let rank_total = chunk_shape.len();
    if rank_total == 0 || rank_total > 256 {
        return Err(Error::Format);
    }
    let rank = rank_total - 1;
    if rank != shape.len() {
        return Err(Error::Shape);
    }
    let dims = shape_to_usize(shape)?;
    let mut cdims: Vec<usize> = Vec::new();
    let mut k: usize = 0;
    while k < rank
        invariant
            rank < chunk_shape@.len(),
            rank_total == chunk_shape@.len(),
            1 <= rank_total <= 256,
            rank == shape@.len(),
            rank + 1 == rank_total,
            shape_fits(shape@),
            k <= rank,
            cdims@.len() == k,
            forall|m: int| 0 <= m < k ==> cdims@[m] == chunk_shape@[m] && cdims@[m] > 0,
        decreases rank - k,
    {
        if chunk_shape[k] == 0 {
            assert(chunk_shape@[k as int] == 0);
            return Err(Error::Format);
        }
        cdims.push(chunk_shape[k] as usize);
        k += 1;
    }
    assert(!(exists|m: int| 0 <= m < rank && #[trigger] chunk_shape@[m] == 0)) by {
        if exists|m: int| 0 <= m < rank && #[trigger] chunk_shape@[m] == 0 {
            let m = choose|m: int| 0 <= m < rank && #[trigger] chunk_shape@[m] == 0;
            assert(cdims@[m] > 0);
        }
    }
    let ghost sv = extents(dims@);
    let ghost cv = extents(cdims@);
    proof {
        assert(sv =~= shape_extents(shape@));
        assert(cv =~= chunk_extents(chunk_shape@, rank as int));
        assert(all_positive(cv));
    }
    let (strides, vol) = match strides_of(&dims) {
        Some(p) => p,
        None => {
            return Err(Error::Shape);
        },
    };
    let (cstrides, cvol) = match strides_of(&cdims) {
        Some(p) => p,
        None => {
            return Err(Error::Shape);
        },
    };
    if vol > usize::MAX / e || cvol > usize::MAX / e {
        assert(vol * e > usize::MAX || cvol * e > usize::MAX) by (nonlinear_arith)
            requires
                e > 0,
                vol > usize::MAX / e || cvol > usize::MAX / e,
        ;
        return Err(Error::Shape);
    }
    assert(vol * e <= usize::MAX && cvol * e <= usize::MAX) by (nonlinear_arith)
        requires
            e > 0,
            vol <= usize::MAX / e,
            cvol <= usize::MAX / e,
    ;
    let total = vol * e;
    let chunk_bytes = cvol * e;
    let mut dest: Vec<u8> = vec![0u8; total];
    proof {
        assert(dest@ =~= zeros(volume(sv) * e));
    }
    let keys = collect_chunk_keys(d, address, rank_total)?;
    let ghost ps = chunk_tree_positions(d@, address as int, rank_total as int)->Ok_0;
    let ghost init = dest@;
    assert(ps.subrange(0, 0) =~= Seq::<int>::empty());
    assert(init == zeros(volume(sv) * e));
    assert(chunked_result(d@, chunk_shape@, address, shape@, e as int, filters@) == assembled(
        d@,
        ps,
        rank_total as int,
        filters@,
        e as int,
        sv,
        cv,
        init,
    ));
    let mut j: usize = 0;
    while j < keys.len()
        invariant
            e > 0,
            j <= keys@.len(),
            rank_total == chunk_shape@.len(),
            rank == shape@.len(),
            rank_total == rank + 1,
            sv == extents(dims@),
            cv == extents(cdims@),
            dims@.len() == rank,
            cdims@.len() == rank,
            strides_ok(strides@, dims@),
            strides_ok(cstrides@, cdims@),
            all_positive(cv),
            vol == volume(sv),
            cvol == volume(cv),
            total == vol * e,
            chunk_bytes == cvol * e,
            dest@.len() == total,
            keys_at(keys@, d@, ps, rank_total as int),
            chunked_result(d@, chunk_shape@, address, shape@, e as int, filters@) == assembled(
                d@,
                ps,
                rank_total as int,
                filters@,
                e as int,
                sv,
                cv,
                init,
            ),
            assembled(d@, ps.subrange(0, j as int), rank_total as int, filters@, e as int, sv, cv, init)
                == Ok::<Seq<u8>, Error>(dest@),
        decreases keys@.len() - j,
    {
        let ghost q = ps[j as int];
        assert(chunk_key_at(keys@[j as int], d@, q, rank_total as int));
        let ghost pj = ps.subrange(0, j + 1);
        assert(pj.drop_last() =~= ps.subrange(0, j as int));
        assert(pj.last() == q);
        let v = match read_chunk(d, &keys[j], filters, e, chunk_bytes) {
            Ok(v) => v,
            Err(x) => {
                proof {
                    lemma_assembled_error_extends(
                        d@,
                        ps,
                        rank_total as int,
                        filters@,
                        e as int,
                        sv,
                        cv,
                        init,
                        j + 1,
                        ps.len() as int,
                    );
                    assert(ps.subrange(0, ps.len() as int) =~= ps);
                }
                return Err(x);
            },
        };
        assert(keys@[j as int].chunk_offsets@.len() == rank_total);
        assert(origin_of(keys@[j as int].chunk_offsets@) =~= key_origin(d@, q, rank_total as int));
        tile_chunk(&mut dest, &dims, &strides, e, &v, &keys[j].chunk_offsets, &cdims, &cstrides);
        j += 1;
    }
    proof {
        assert(ps.subrange(0, ps.len() as int) =~= ps);
    }
    Ok(ArrayData { shape: shape.clone(), element_size: e, bytes: dest })
}

impl Dataset {
    /// The object header has what a dataset needs.
    pub open spec fn wf(&self) -> bool {
        dataset_object_ok(self.data_object)
    }

    /// The extents of the dataset, from its first dataspace message.
    pub fn shape(&self) -> (r: Vec<u64>)
        requires
            self.wf(),
        ensures
            r@ == self.data_object.dataspaces@[0].shape@,
    {
        self.data_object.dataspaces[0].shape.clone()
    }

    /// The element type of the dataset, from its first datatype message.
    pub fn datatype(&self) -> (r: Datatype)
        requires
            self.wf(),
        ensures
            r == self.data_object.datatypes@[0],
    {
        self.data_object.datatypes[0]
    }

    /// What reading the dataset as elements of type `t` gives: `TypeMismatch`
    /// where the stored class or size is not the type's; for a contiguous
    /// layout `Unsupported` where filters are present, else the stored bytes;
    /// for a chunked layout the assembled chunks.
    pub open spec fn read_result(&self, t: ElementType) -> Result<Seq<u8>, Error> {
        let dt = self.data_object.datatypes@[0];
        let e = element_pair(t).1 as int;
        let shape = self.data_object.dataspaces@[0].shape@;
        if dt.encoding != element_pair(t).0 || dt.size != element_pair(t).1 {
            Err(Error::TypeMismatch)
        } else {
            match self.data_object.data@[0] {
                DataStorage::Contiguous { address, size } => if self.data_object.filter_pipelines@.len()
                    > 0 {
                    Err(Error::Unsupported)
                } else {
                    contiguous_result(self.input@, address, size, shape, e)
                },
                DataStorage::Chunked { chunk_shape, address } => chunked_result(
                    self.input@,
                    chunk_shape@,
                    address,
                    shape,
                    e,
                    self.data_object.filter_pipelines@,
                ),
            }
        }
    }

    /// Reads the whole dataset as elements of type `t`. The datatype is
    /// checked first, before any payload byte is read.
    pub fn read(&self, t: ElementType) -> (r: Result<ArrayData, Error>)
        requires
            self.wf(),
        ensures
            match r {
                Ok(a) => {
                    &&& self.read_result(t) == Ok::<Seq<u8>, Error>(a.bytes@)
                    &&& a.shape@ == self.data_object.dataspaces@[0].shape@
                    &&& a.element_size == element_pair(t).1
                },
                Err(x) => self.read_result(t) == Err::<Seq<u8>, Error>(x),
            },
    {
        let datatype = self.data_object.datatypes[0];
        t.verify(&datatype)?;
        let e = t.size();
        let shape = &self.data_object.dataspaces[0].shape;
        let d = self.input.as_slice();
        match &self.data_object.data[0] {
            DataStorage::Contiguous { address, size } => {
                if self.data_object.filter_pipelines.len() != 0 {
                    return Err(Error::Unsupported);
                }
                read_contiguous(d, *address, *size, shape, e)
            },
            DataStorage::Chunked { chunk_shape, address } => {
                read_chunked(d, chunk_shape, *address, shape, e, &self.data_object.filter_pipelines)
            },
        }
    }
}

/// Reading a dataset gives an array whose extents are the dataset's shape.
pub proof fn lemma_read_shape_is_shape(
    ds: Dataset,
    t: ElementType,
    read: Result<ArrayData, Error>,
    shape: Vec<u64>,
)
    requires
        ds.wf(),
        call_ensures(Dataset::read, (&ds, t), read),
        call_ensures(Dataset::shape, (&ds,), shape),
        read is Ok,
    ensures
        read->Ok_0.shape@ == shape@,
{
}

/// Reading a dataset as an element type whose class or size differs from
/// the stored datatype fails with `TypeMismatch`, whatever the payload.
pub proof fn lemma_type_check(
    ds: Dataset,
    t: ElementType,
    read: Result<ArrayData, Error>,
    datatype: Datatype,
)
    requires
        ds.wf(),
        call_ensures(Dataset::read, (&ds, t), read),
        call_ensures(Dataset::datatype, (&ds,), datatype),
        datatype.encoding != element_pair(t).0 || datatype.size != element_pair(t).1,
    ensures
        read == Err::<ArrayData, Error>(Error::TypeMismatch),
{
}

/// A chunk stored through a shuffle-then-deflate pipeline, with no filter
/// bypassed, decodes to the elements that were shuffled and compressed.
pub proof fn lemma_chunk_round_trip(
    d: Seq<u8>,
    q: int,
    dims: int,
    fs: Seq<FilterPipeline>,
    e: int,
    x: Seq<u8>,
)
    requires
        e > 0,
        fs.len() == 2,
        fs[0].filter_type == FilterType::ShuffleFilter,
        fs[1].filter_type == FilterType::GzipDeflateFilter,
        le_u32(d, q + 4) == 0,
        fits(d, le_u64(d, q + 8 + 8 * dims), le_u32(d, q)),
        x.len() as int % e == 0,
        zlib_inflate(
            d.subrange(
                le_u64(d, q + 8 + 8 * dims),
                le_u64(d, q + 8 + 8 * dims) + le_u32(d, q),
            ),
        ) == Some(shuffled(x, e as nat)),
    ensures
        key_elements(d, q, dims, fs, e, x.len() as int) == Ok::<Seq<u8>, Error>(x),
{
    let stored = d.subrange(le_u64(d, q + 8 + 8 * dims), le_u64(d, q + 8 + 8 * dims) + le_u32(d, q));
    lemma_shuffle_deflate_round_trip(x, e as nat, stored);
    assert(pipeline_types(fs) =~= seq![FilterType::ShuffleFilter, FilterType::GzipDeflateFilter]);
}

} // verus!
