use crate::bytes::{check_fits, fits, get_u16, get_u32, get_u64, has_signature, le_u16, le_u32, le_u64};
use crate::error::Error;
use vstd::prelude::*;

verus! {

/// Header of a symbol-table node ("SNOD"), which is followed by `symbols`
/// symbol-table entries.
#[derive(Clone, Copy, Debug)]
pub struct SymbolTableNode {
    pub version: u8,
    pub reserved: u8,
    pub symbols: u16,
}

/// A 40-byte symbol-table entry: a name in the parent's local heap and the
/// address of the object header that it names.
#[derive(Clone, Copy, Debug)]
pub struct SymbolTableEntry {
    pub link_name_offset: u64,
    pub object_header_address: u64,
    pub cache_type: u32,
    pub reserved: u32,
    /// The first four bytes of the scratch pad: for cache type 2, the heap
    /// offset of the soft-link target.
    pub scratch_offset: u32,
}

/// Size in bytes of a symbol-table entry.
pub const ENTRY_SIZE: usize = 40;

/// Size in bytes of a symbol-table node header.
pub const NODE_HEADER_SIZE: usize = 8;

pub open spec fn snod_signature() -> Seq<u8> {
    seq![83u8, 78u8, 79u8, 68u8]
}

/// The symbol-table entry whose 40 bytes start at `p`.
pub open spec fn entry_at(d: Seq<u8>, p: int) -> SymbolTableEntry {
    SymbolTableEntry {
        link_name_offset: le_u64(d, p) as u64,
        object_header_address: le_u64(d, p + 8) as u64,
        cache_type: le_u32(d, p + 16) as u32,
        reserved: le_u32(d, p + 20) as u32,
        scratch_offset: le_u32(d, p + 24) as u32,
    }
}

/// What reading a symbol-table node header at `p` gives.
pub open spec fn node_header_result(d: Seq<u8>, p: int) -> Result<SymbolTableNode, Error> {
    if !fits(d, p, NODE_HEADER_SIZE as int) {
        Err(Error::Io)
    } else if d.subrange(p, p + 4) != snod_signature() {
        Err(Error::Format)
    } else {
        Ok(SymbolTableNode { version: d[p + 4], reserved: d[p + 5], symbols: le_u16(d, p + 6) as u16 })
    }
}

impl SymbolTableNode {
    /// Reads the symbol-table node header at `p`.
    pub fn read(d: &[u8], p: usize) -> (r: Result<SymbolTableNode, Error>)
        ensures
            r == node_header_result(d@, p as int),
    {
        check_fits(d, p, NODE_HEADER_SIZE)?;
        let sig: [u8; 4] = [83u8, 78u8, 79u8, 68u8];
        assert(sig@ =~= snod_signature());
        if !has_signature(d, p, &sig) {
            return Err(Error::Format);
        }
        Ok(SymbolTableNode { version: d[p + 4], reserved: d[p + 5], symbols: get_u16(d, p + 6) })
    }
}

impl SymbolTableEntry {
    /// Reads the symbol-table entry at `p`.
    pub fn read(d: &[u8], p: usize) -> (r: Result<SymbolTableEntry, Error>)
        ensures
            r is Ok <==> fits(d@, p as int, ENTRY_SIZE as int),
            r is Ok ==> r->Ok_0 == entry_at(d@, p as int),
            r is Err ==> r == Err::<SymbolTableEntry, Error>(Error::Io),
    {
        check_fits(d, p, ENTRY_SIZE)?;
        Ok(SymbolTableEntry {
            link_name_offset: get_u64(d, p),
            object_header_address: get_u64(d, p + 8),
            cache_type: get_u32(d, p + 16),
            reserved: get_u32(d, p + 20),
            scratch_offset: get_u32(d, p + 24),
        })
    }
}

} // verus!
