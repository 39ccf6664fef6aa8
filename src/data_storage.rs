use crate::bytes::{check_fits, fits, get_u32, get_u64, le_u32, le_u64};
use crate::error::Error;
use vstd::prelude::*;

verus! {

/// Where a dataset's payload is stored.
#[derive(Clone, Debug)]
pub enum DataStorage {
    /// One run of `size` bytes at `address`.
    Contiguous { address: u64, size: u64 },
    /// Chunks found through the chunk B-tree at `address`; `chunk_shape`
    /// holds the chunk's extent on each axis, then the element size.
    Chunked { chunk_shape: Vec<u32>, address: u64 },
}

/// The failure, if any, of parsing the data storage message `b`.
pub open spec fn data_storage_error(b: Seq<u8>) -> Option<Error> {
    if !fits(b, 0, 2) {
        Some(Error::Io)
    } else if b[0] != 3 {
        Some(Error::Format)
    } else if b[1] > 2 {
        Some(Error::Format)
    } else if b[1] == 0 {
        Some(Error::Format)
    } else if b[1] == 1 {
        if !fits(b, 2, 16) {
            Some(Error::Io)
        } else {
            None
        }
    } else if !fits(b, 2, 9) || !fits(b, 11, 4 * b[2]) {
        Some(Error::Io)
    } else {
        None
    }
}

/// `s` is the layout that the data storage message `b` describes.
pub open spec fn data_storage_matches(s: DataStorage, b: Seq<u8>) -> bool {
    match s {
        DataStorage::Contiguous { address, size } => b[1] == 1 && address == le_u64(b, 2)
            && size == le_u64(b, 10),
        DataStorage::Chunked { chunk_shape, address } => {
            &&& b[1] == 2
            &&& address == le_u64(b, 3)
            &&& chunk_shape@.len() == b[2]
            &&& forall|i: int| 0 <= i < b[2] ==> chunk_shape@[i] == le_u32(b, 11 + 4 * i)
        },
    }
}

/// Parses a version-3 data storage (layout) message: contiguous or chunked.
pub fn parse_data_storage_message(b: &[u8]) -> (r: Result<DataStorage, Error>)
    ensures
        match r {
            Ok(s) => data_storage_error(b@) is None && data_storage_matches(s, b@),
            Err(e) => data_storage_error(b@) == Some(e),
        },
{
    check_fits(b, 0, 2)?;
    if b[0] != 3 {
        return Err(Error::Format);
    }
    let layout_class = b[1];
    if layout_class > 2 {
        return Err(Error::Format);
    }
    if layout_class == 0 {
        return Err(Error::Format);
    }
    if layout_class == 1 {
        parse_contiguous(b)
    } else {
        parse_chunked(b)
    }
}

/// The contiguous layout of a message whose class byte is 1.
fn parse_contiguous(b: &[u8]) -> (r: Result<DataStorage, Error>)
    requires
        fits(b@, 0, 2) && b@[0] == 3 && b@[1] == 1,
    ensures
        match r {
            Ok(s) => data_storage_error(b@) is None && data_storage_matches(s, b@),
            Err(e) => data_storage_error(b@) == Some(e),
        },
{
    check_fits(b, 2, 16)?;
    Ok(DataStorage::Contiguous { address: get_u64(b, 2), size: get_u64(b, 10) })
}

/// The chunked layout of a message whose class byte is 2: the number of
/// chunk dimensions, the B-tree address and the chunk extents.
fn parse_chunked(b: &[u8]) -> (r: Result<DataStorage, Error>)
    requires
        fits(b@, 0, 2) && b@[0] == 3 && b@[1] == 2,
    ensures
        match r {
            Ok(s) => data_storage_error(b@) is None && data_storage_matches(s, b@),
            Err(e) => data_storage_error(b@) == Some(e),
        },
{
    check_fits(b, 2, 9)?;
    let dims = b[2] as usize;
    check_fits(b, 11, 4 * dims)?;
    let address = get_u64(b, 3);
    let mut chunk_shape: Vec<u32> = Vec::new();
    let mut i: usize = 0;
    while i < dims
        invariant
            dims == b@[2],
            fits(b@, 11, 4 * dims),
            i <= dims,
            chunk_shape@.len() == i,
            forall|k: int| 0 <= k < i ==> chunk_shape@[k] == le_u32(b@, 11 + 4 * k),
        decreases dims - i,
    {
        chunk_shape.push(get_u32(b, 11 + 4 * i));
        i += 1;
    }
    Ok(DataStorage::Chunked { chunk_shape, address })
}

} // verus!
