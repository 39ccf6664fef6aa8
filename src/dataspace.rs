use crate::bytes::{check_fits, fits, get_u64, le_u64};
use crate::error::Error;
use vstd::prelude::*;

verus! {

/// The extents of a dataset, one per axis.
#[derive(Clone, Debug)]
pub struct Dataspace {
    pub shape: Vec<u64>,
}

/// Size of the dataspace message header for a supported version.
pub open spec fn dataspace_header_size(version: u8) -> int {
    if version == 1 {
        8
    } else {
        4
    }
}

/// The failure, if any, of parsing the dataspace message `b`.
pub open spec fn dataspace_error(b: Seq<u8>) -> Option<Error> {
    if !fits(b, 0, 1) {
        Some(Error::Io)
    } else if b[0] != 1 && b[0] != 2 {
        Some(Error::Format)
    } else if !fits(b, 0, dataspace_header_size(b[0])) {
        Some(Error::Io)
    } else if !fits(b, dataspace_header_size(b[0]), 8 * b[1]) {
        Some(Error::Io)
    } else {
        None
    }
}

/// The extents that the dataspace message `b` holds.
pub open spec fn dataspace_shape(b: Seq<u8>) -> Seq<u64> {
    Seq::new(b[1] as nat, |i: int| le_u64(b, dataspace_header_size(b[0]) + 8 * i) as u64)
}

/// Parses a dataspace message (versions 1 and 2).
pub fn parse_dataspace_message(b: &[u8]) -> (r: Result<Dataspace, Error>)
    ensures
        match r {
            Ok(s) => dataspace_error(b@) is None && s.shape@ == dataspace_shape(b@),
            Err(e) => dataspace_error(b@) == Some(e),
        },
{
    check_fits(b, 0, 1)?;
    let version = b[0];
    let header: usize = if version == 1 {
        8
    } else if version == 2 {
        4
    } else {
        return Err(Error::Format);
    };
    check_fits(b, 0, header)?;
    let dims = b[1] as usize;
    check_fits(b, header, 8 * dims)?;
    let mut shape: Vec<u64> = Vec::new();
    let mut i: usize = 0;
    while i < dims
        invariant
            header == dataspace_header_size(version),
            version == b@[0],
            dims == b@[1],
            fits(b@, header as int, 8 * dims),
            i <= dims,
            shape@.len() == i,
            forall|k: int| 0 <= k < i ==> shape@[k] == le_u64(b@, header + 8 * k),
        decreases dims - i,
    {
        shape.push(get_u64(b, header + 8 * i));
        i += 1;
    }
    assert(shape@ =~= dataspace_shape(b@));
    Ok(Dataspace { shape })
}

} // verus!
