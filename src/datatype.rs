use crate::bytes::{check_fits, fits, get_u32, le_u32};
use crate::error::Error;
use vstd::prelude::*;

verus! {

/// The class of a datatype.
#[derive(Clone, Copy, Debug, PartialEq, Eq, Structural)]
pub enum DatatypeEncoding {
    FixedPoint,
    FloatingPoint,
    Time,
    String,
    Bitfield,
    Opaque,
    Compound,
    Reference,
    Enumerated,
    VariableLength,
    Array,
}

/// The element type of a dataset.
#[derive(Clone, Copy, Debug)]
pub struct Datatype {
    pub class_and_version: u8,
    pub class_bit_field_0: u8,
    pub class_bit_field_1: u8,
    pub class_bit_field_2: u8,
    pub size: u32,
    pub encoding: DatatypeEncoding,
}

/// The class that the low four bits of the first byte stand for.
pub open spec fn encoding_of(c: u8) -> Option<DatatypeEncoding> {
    let t = c % 16;
    if t == 0 {
        Some(DatatypeEncoding::FixedPoint)
    } else if t == 1 {
        Some(DatatypeEncoding::FloatingPoint)
    } else if t == 2 {
        Some(DatatypeEncoding::Time)
    } else if t == 3 {
        Some(DatatypeEncoding::String)
    } else if t == 4 {
        Some(DatatypeEncoding::Bitfield)
    } else if t == 5 {
        Some(DatatypeEncoding::Opaque)
    } else if t == 6 {
        Some(DatatypeEncoding::Compound)
    } else if t == 7 {
        Some(DatatypeEncoding::Reference)
    } else if t == 8 {
        Some(DatatypeEncoding::Enumerated)
    } else if t == 9 {
        Some(DatatypeEncoding::VariableLength)
    } else if t == 10 {
        Some(DatatypeEncoding::Array)
    } else {
        None
    }
}

/// What parsing the datatype message `b` gives.
pub open spec fn datatype_result(b: Seq<u8>) -> Result<Datatype, Error> {
    if !fits(b, 0, 8) {
        Err(Error::Io)
    } else if encoding_of(b[0]) is None {
        Err(Error::Format)
    } else {
        Ok(
            Datatype {
                class_and_version: b[0],
                class_bit_field_0: b[1],
                class_bit_field_1: b[2],
                class_bit_field_2: b[3],
                size: le_u32(b, 4) as u32,
                encoding: encoding_of(b[0])->Some_0,
            },
        )
    }
}

/// The class named by the first byte of a datatype message, or `Format`.
fn encoding_from_u8(c: u8) -> (r: Result<DatatypeEncoding, Error>)
    ensures
        encoding_of(c) is Some ==> r == Ok::<DatatypeEncoding, Error>(encoding_of(c)->Some_0),
        encoding_of(c) is None ==> r == Err::<DatatypeEncoding, Error>(Error::Format),
{
    match c % 16 {
        0 => Ok(DatatypeEncoding::FixedPoint),
        1 => Ok(DatatypeEncoding::FloatingPoint),
        2 => Ok(DatatypeEncoding::Time),
        3 => Ok(DatatypeEncoding::String),
        4 => Ok(DatatypeEncoding::Bitfield),
        5 => Ok(DatatypeEncoding::Opaque),
        6 => Ok(DatatypeEncoding::Compound),
        7 => Ok(DatatypeEncoding::Reference),
        8 => Ok(DatatypeEncoding::Enumerated),
        9 => Ok(DatatypeEncoding::VariableLength),
        10 => Ok(DatatypeEncoding::Array),
        _ => Err(Error::Format),
    }
}

/// Parses a datatype message: class and version, three bytes of class bit
/// fields and the element size.
pub fn parse_datatype_message(b: &[u8]) -> (r: Result<Datatype, Error>)
    ensures
        r == datatype_result(b@),
{
    check_fits(b, 0, 8)?;
    let encoding = encoding_from_u8(b[0])?;
    Ok(
        Datatype {
            class_and_version: b[0],
            class_bit_field_0: b[1],
            class_bit_field_1: b[2],
            class_bit_field_2: b[3],
            size: get_u32(b, 4),
            encoding,
        },
    )
}

} // verus!
