use crate::bytes::{check_fits, copy_range, decode_name, fits, get_u16};
use crate::bytes::le_u16;
use crate::error::Error;
use crate::padding::padded_size;
use vstd::prelude::*;
use vstd::utf8::{decode_utf8, valid_utf8};

verus! {

/// The filters that a pipeline may name.
#[derive(Clone, Copy, Debug, PartialEq, Eq, Structural)]
pub enum FilterType {
    ReservedFilter,
    GzipDeflateFilter,
    ShuffleFilter,
    Fletch32Filter,
    SzipFilter,
    NbitFilter,
    ScaleoffsetFilter,
}

/// One filter of a pipeline, in the order in which it was applied on writing.
#[derive(Clone, Debug)]
pub struct FilterPipeline {
    pub filter_type: FilterType,
    pub name: String,
}

/// The filter that an identifier names.
pub open spec fn filter_type_of(id: int) -> Option<FilterType> {
    if id == 0 {
        Some(FilterType::ReservedFilter)
    } else if id == 1 {
        Some(FilterType::GzipDeflateFilter)
    } else if id == 2 {
        Some(FilterType::ShuffleFilter)
    } else if id == 3 {
        Some(FilterType::Fletch32Filter)
    } else if id == 4 {
        Some(FilterType::SzipFilter)
    } else if id == 5 {
        Some(FilterType::NbitFilter)
    } else if id == 6 {
        Some(FilterType::ScaleoffsetFilter)
    } else {
        None
    }
}

/// `n` rounded up to a multiple of eight.
pub open spec fn padded(n: int) -> int {
    ((n + 7) / 8) * 8
}

/// Length of the name of the filter description at `p`.
pub open spec fn filter_name_len(b: Seq<u8>, p: int) -> int {
    le_u16(b, p + 2)
}

/// Number of client data values of the filter description at `p`.
pub open spec fn filter_client_count(b: Seq<u8>, p: int) -> int {
    le_u16(b, p + 6)
}

/// The name bytes of the filter description at `p`, without the closing NUL.
pub open spec fn filter_name_bytes(b: Seq<u8>, p: int) -> Seq<u8> {
    b.subrange(p + 8, p + 8 + filter_name_len(b, p) - 1)
}

/// Size in bytes of the filter description at `p`: the fixed fields, the
/// padded name and the client data, padded to an even number of values.
pub open spec fn filter_entry_size(b: Seq<u8>, p: int) -> int {
    let cd = filter_client_count(b, p);
    8 + padded(filter_name_len(b, p)) + 4 * (cd + cd % 2)
}

/// The failure, if any, of reading the filter description at `p`.
pub open spec fn filter_entry_error(b: Seq<u8>, p: int) -> Option<Error> {
    let nl = filter_name_len(b, p);
    if !fits(b, p, 8) {
        Some(Error::Io)
    } else if filter_type_of(le_u16(b, p)) is None {
        Some(Error::Format)
    } else if !fits(b, p + 8, padded(nl)) {
        Some(Error::Io)
    } else if nl == 0 || b[p + 8 + nl - 1] != 0 {
        Some(Error::Format)
    } else if !valid_utf8(filter_name_bytes(b, p)) {
        Some(Error::Utf8)
    } else if !fits(b, p, filter_entry_size(b, p)) {
        Some(Error::Io)
    } else {
        None
    }
}

/// The failure, if any, of reading `k` filter descriptions from `p` on.
pub open spec fn filters_error(b: Seq<u8>, p: int, k: nat) -> Option<Error>
    decreases k,
{
    if k == 0 {
        None
    } else if filter_entry_error(b, p) is Some {
        filter_entry_error(b, p)
    } else {
        filters_error(b, p + filter_entry_size(b, p), (k - 1) as nat)
    }
}

/// The filters (type and name) of `k` descriptions from `p` on.
pub open spec fn filters_from(b: Seq<u8>, p: int, k: nat) -> Seq<(FilterType, Seq<char>)>
    decreases k,
{
    if k == 0 || filter_entry_error(b, p) is Some {
        Seq::empty()
    } else {
        seq![
            (filter_type_of(le_u16(b, p))->Some_0, decode_utf8(filter_name_bytes(b, p))),
        ] + filters_from(b, p + filter_entry_size(b, p), (k - 1) as nat)
    }
}

/// The failure, if any, of parsing the filter pipeline message `b`.
pub open spec fn pipeline_error(b: Seq<u8>) -> Option<Error> {
    if !fits(b, 0, 1) {
        Some(Error::Io)
    } else if b[0] != 1 {
        Some(Error::Format)
    } else if !fits(b, 0, 8) {
        Some(Error::Io)
    } else {
        filters_error(b, 8, b[1] as nat)
    }
}

/// `fs` holds the filters of the model `m`, in order.
pub open spec fn filters_match(fs: Seq<FilterPipeline>, m: Seq<(FilterType, Seq<char>)>) -> bool {
    &&& fs.len() == m.len()
    &&& forall|i: int|
        0 <= i < fs.len() ==> fs[i].filter_type == m[i].0 && fs[i].name@ == m[i].1
}

fn filter_type_from_id(id: u16) -> (r: Result<FilterType, Error>)
    ensures
        filter_type_of(id as int) is Some ==> r == Ok::<FilterType, Error>(
            filter_type_of(id as int)->Some_0,
        ),
        filter_type_of(id as int) is None ==> r == Err::<FilterType, Error>(Error::Format),
{
    match id {
        0 => Ok(FilterType::ReservedFilter),
        1 => Ok(FilterType::GzipDeflateFilter),
        2 => Ok(FilterType::ShuffleFilter),
        3 => Ok(FilterType::Fletch32Filter),
        4 => Ok(FilterType::SzipFilter),
        5 => Ok(FilterType::NbitFilter),
        6 => Ok(FilterType::ScaleoffsetFilter),
        _ => Err(Error::Format),
    }
}

/// Reads the filter description at `p`; returns it and its size.
fn parse_filter_entry(b: &[u8], p: usize) -> (r: Result<(FilterPipeline, usize), Error>)
    ensures
        match r {
            Ok((f, size)) => {
                &&& filter_entry_error(b@, p as int) is None
                &&& size == filter_entry_size(b@, p as int)
                &&& f.filter_type == filter_type_of(le_u16(b@, p as int))->Some_0
                &&& f.name@ == decode_utf8(filter_name_bytes(b@, p as int))
            },
            Err(e) => filter_entry_error(b@, p as int) == Some(e),
        },
{
    check_fits(b, p, 8)?;
    let filter_type = filter_type_from_id(get_u16(b, p))?;
    let name_length = get_u16(b, p + 2) as usize;
    let client_count = get_u16(b, p + 6) as usize;
    let name_padded = padded_size(name_length);
    check_fits(b, p + 8, name_padded)?;
    if name_length == 0 || b[p + 8 + name_length - 1] != 0 {
        return Err(Error::Format);
    }
    let name_bytes = copy_range(b, p + 8, name_length - 1);
    proof {
        assert(name_bytes@ =~= filter_name_bytes(b@, p as int));
    }
    let name = decode_name(name_bytes)?;
    let size = 8 + name_padded + 4 * (client_count + client_count % 2);
    check_fits(b, p, size)?;
    Ok((FilterPipeline { filter_type, name }, size))
}

/// Parses a version-1 filter pipeline message: the filters in the order in
/// which they were applied on writing.
pub fn parse_filter_pipeline_message(b: &[u8]) -> (r: Result<Vec<FilterPipeline>, Error>)
    ensures
        match r {
            Ok(fs) => pipeline_error(b@) is None && filters_match(
                fs@,
                filters_from(b@, 8, b@[1] as nat),
            ),
            Err(e) => pipeline_error(b@) == Some(e),
        },
{
    check_fits(b, 0, 1)?;
    if b[0] != 1 {
        return Err(Error::Format);
    }
    check_fits(b, 0, 8)?;
    let count = b[1] as usize;
    let mut filters: Vec<FilterPipeline> = Vec::new();
    let ghost mut prefix: Seq<(FilterType, Seq<char>)> = Seq::empty();
    let mut p: usize = 8;
    let mut i: usize = 0;
    while i < count
        invariant
            8 <= b@.len() <= usize::MAX,
            count == b@[1],
            i <= count,
            p <= b@.len(),
            pipeline_error(b@) == filters_error(b@, p as int, (count - i) as nat),
            filters_from(b@, 8, count as nat) == prefix + filters_from(
                b@,
                p as int,
                (count - i) as nat,
            ),
            filters_match(filters@, prefix),
        decreases count - i,
    {
        let (f, size) = parse_filter_entry(b, p)?;
        let ghost entry = (f.filter_type, f.name@);
        proof {
            let k = (count - i) as nat;
            let rest = filters_from(b@, p + size, (k - 1) as nat);
            assert(filters_from(b@, p as int, k) == seq![entry] + rest);
            assert(prefix + (seq![entry] + rest) =~= (prefix + seq![entry]) + rest);
            prefix = prefix + seq![entry];
        }
        filters.push(f);
        p = p + size;
        i += 1;
    }
    proof {
        assert(prefix + filters_from(b@, p as int, 0) =~= prefix);
    }
    Ok(filters)
}

} // verus!
