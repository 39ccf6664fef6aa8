use crate::bytes::{check_fits, fits, get_u16, get_u32, get_u64, has_signature, le_u16, le_u32, le_u64};
use crate::error::Error;
use vstd::prelude::*;

verus! {

/// The version-0 superblock at the start of the file.
#[derive(Clone, Copy, Debug)]
pub struct SuperBlockVersion0 {
    pub superblock_version: u8,
    pub free_storage_version: u8,
    pub root_group_version: u8,
    pub reserved_0: u8,
    pub shared_header_version: u8,
    pub offset_size: u8,
    pub length_size: u8,
    pub reserved_1: u8,
    pub group_leaf_node_k: u16,
    pub group_internal_node_k: u16,
    pub file_consistency_flags: u32,
    pub base_address: u64,
    pub free_space_address: u64,
    pub end_of_file_address: u64,
    pub driver_information_address: u64,
}

/// Size in bytes of the superblock fields before the root symbol-table entry.
pub const SUPERBLOCK_SIZE: usize = 56;

/// The eight bytes that open every file.
pub open spec fn format_signature() -> Seq<u8> {
    seq![137u8, 72u8, 68u8, 70u8, 13u8, 10u8, 26u8, 10u8]
}

/// The superblock fields as they stand in the first bytes of `d`.
pub open spec fn superblock_at(d: Seq<u8>) -> SuperBlockVersion0 {
    SuperBlockVersion0 {
        superblock_version: d[8],
        free_storage_version: d[9],
        root_group_version: d[10],
        reserved_0: d[11],
        shared_header_version: d[12],
        offset_size: d[13],
        length_size: d[14],
        reserved_1: d[15],
        group_leaf_node_k: le_u16(d, 16) as u16,
        group_internal_node_k: le_u16(d, 18) as u16,
        file_consistency_flags: le_u32(d, 20) as u32,
        base_address: le_u64(d, 24) as u64,
        free_space_address: le_u64(d, 32) as u64,
        end_of_file_address: le_u64(d, 40) as u64,
        driver_information_address: le_u64(d, 48) as u64,
    }
}

/// What parsing the superblock of `d` gives: the fields, where the signature,
/// the version (0) and the offset and length sizes (8) are as this decoder
/// supports them.
pub open spec fn superblock_result(d: Seq<u8>) -> Result<SuperBlockVersion0, Error> {
    if !fits(d, 0, SUPERBLOCK_SIZE as int) {
        Err(Error::Io)
    } else if d.subrange(0, 8) != format_signature() {
        Err(Error::Format)
    } else if d[8] != 0 || d[13] != 8 || d[14] != 8 {
        Err(Error::Format)
    } else {
        Ok(superblock_at(d))
    }
}

/// Parses the superblock at the start of the file.
pub fn parse_superblock(d: &[u8]) -> (r: Result<SuperBlockVersion0, Error>)
    ensures
        r == superblock_result(d@),
{
    check_fits(d, 0, SUPERBLOCK_SIZE)?;
    let sig: [u8; 8] = [137u8, 72u8, 68u8, 70u8, 13u8, 10u8, 26u8, 10u8];
    assert(sig@ =~= format_signature());
    if !has_signature(d, 0, &sig) {
        return Err(Error::Format);
    }
    if d[8] != 0 || d[13] != 8 || d[14] != 8 {
        return Err(Error::Format);
    }
    Ok(SuperBlockVersion0 {
        superblock_version: d[8],
        free_storage_version: d[9],
        root_group_version: d[10],
        reserved_0: d[11],
        shared_header_version: d[12],
        offset_size: d[13],
        length_size: d[14],
        reserved_1: d[15],
        group_leaf_node_k: get_u16(d, 16),
        group_internal_node_k: get_u16(d, 18),
        file_consistency_flags: get_u32(d, 20),
        base_address: get_u64(d, 24),
        free_space_address: get_u64(d, 32),
        end_of_file_address: get_u64(d, 40),
        driver_information_address: get_u64(d, 48),
    })
}

} // verus!
