use crate::bytes::{
    check_fits, decode_name, fits, get_u64, has_nul_from, has_signature, le_u64, nul_free,
    read_cstr,
};
use crate::error::Error;
use vstd::prelude::*;
use vstd::utf8::{decode_utf8, valid_utf8};

verus! {

/// A local heap: the store of the names of a version-1 group's children.
#[derive(Clone, Copy, Debug)]
pub struct LocalHeap {
    pub version: u8,
    pub data_segment_size: u64,
    pub offset_to_free_list: u64,
    pub address_of_data_segment: u64,
}

/// Size in bytes of a local heap header.
pub const HEAP_HEADER_SIZE: usize = 32;

pub open spec fn heap_signature() -> Seq<u8> {
    seq![72u8, 69u8, 65u8, 80u8]
}

/// What reading a local heap header at `p` gives.
pub open spec fn heap_result(d: Seq<u8>, p: int) -> Result<LocalHeap, Error> {
    if !fits(d, p, HEAP_HEADER_SIZE as int) {
        Err(Error::Io)
    } else if d.subrange(p, p + 4) != heap_signature() || d[p + 4] != 0 {
        Err(Error::Format)
    } else {
        Ok(
            LocalHeap {
                version: d[p + 4],
                data_segment_size: le_u64(d, p + 8) as u64,
                offset_to_free_list: le_u64(d, p + 16) as u64,
                address_of_data_segment: le_u64(d, p + 24) as u64,
            },
        )
    }
}

/// The name that starts at heap offset `offset`: the bytes up to the first
/// zero byte, decoded as UTF-8.
pub open spec fn heap_name_ok(h: LocalHeap, d: Seq<u8>, offset: u64, name: Seq<char>) -> bool {
    let start = h.address_of_data_segment + offset;
    exists|k: int|
        start <= k < d.len() && d[k] == 0 && nul_free(d, start, k) && valid_utf8(
            d.subrange(start, k),
        ) && name == decode_utf8(d.subrange(start, k))
}

/// The name at heap offset `offset` ends in a NUL byte and is valid UTF-8.
pub open spec fn heap_name_valid(h: LocalHeap, d: Seq<u8>, offset: u64) -> bool {
    let start = h.address_of_data_segment + offset;
    exists|k: int|
        start <= k < d.len() && d[k] == 0 && nul_free(d, start, k) && #[trigger] valid_utf8(
            d.subrange(start, k),
        )
}

impl LocalHeap {
    /// Reads the local heap header at `address`.
    pub fn read(d: &[u8], address: u64) -> (r: Result<LocalHeap, Error>)
        ensures
            r == heap_result(d@, address as int),
    {
        if address > usize::MAX as u64 {
            return Err(Error::Io);
        }
        let p = address as usize;
        check_fits(d, p, HEAP_HEADER_SIZE)?;
        let sig: [u8; 4] = [72u8, 69u8, 65u8, 80u8];
        assert(sig@ =~= heap_signature());
        if !has_signature(d, p, &sig) || d[p + 4] != 0 {
            return Err(Error::Format);
        }
        Ok(
            LocalHeap {
                version: d[p + 4],
                data_segment_size: get_u64(d, p + 8),
                offset_to_free_list: get_u64(d, p + 16),
                address_of_data_segment: get_u64(d, p + 24),
            },
        )
    }

    /// The NUL-terminated name at `offset` in the heap's data segment.
    pub fn object_name(&self, d: &[u8], offset: u64) -> (r: Result<String, Error>)
        ensures
            r is Ok ==> heap_name_ok(*self, d@, offset, r->Ok_0@),
            r is Ok <==> heap_name_valid(*self, d@, offset),
            r is Err ==> r == Err::<String, Error>(Error::Io) || r == Err::<String, Error>(
                Error::Utf8,
            ),
            r == Err::<String, Error>(Error::Io) <==> !has_nul_from(
                d@,
                self.address_of_data_segment + offset,
            ),
    {
        let len = d.len();
        if self.address_of_data_segment >= len as u64 || offset >= len as u64 - self.address_of_data_segment {
            return Err(Error::Io);
        }
        let start = (self.address_of_data_segment + offset) as usize;
        let bytes = read_cstr(d, start)?;
        let ghost b = bytes@;
        let ghost k0 = start + b.len();
        let name = match decode_name(bytes) {
            Ok(n) => n,
            Err(e) => {
                assert(!heap_name_valid(*self, d@, offset)) by {
                    if heap_name_valid(*self, d@, offset) {
                        let k = choose|k: int|
                            start <= k < d@.len() && d@[k] == 0 && nul_free(d@, start as int, k)
                                && #[trigger] valid_utf8(d@.subrange(start as int, k));
                        if k < k0 {
                            assert(d@[k] != 0);
                        } else if k > k0 {
                            assert(d@[k0] != 0);
                        }
                    }
                }
                return Err(e);
            },
        };
        assert(heap_name_ok(*self, d@, offset, name@)) by {
            let k = start + b.len();
            assert(start <= k < d@.len() && d@[k] == 0 && nul_free(d@, start as int, k));
        }
        assert(valid_utf8(d@.subrange(start as int, k0)));
        Ok(name)
    }
}

} // verus!
