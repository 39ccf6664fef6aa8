use crate::error::Error;
use vstd::prelude::*;

verus! {

/// The type tag of an object-header message.
#[derive(Clone, Copy, Debug, PartialEq, Eq, Structural)]
pub enum MessageType {
    Nil,
    Dataspace,
    LinkInfo,
    Datatype,
    FillvalueOld,
    Fillvalue,
    Link,
    ExternalDataFiles,
    DataStorage,
    Bogus,
    GroupInfo,
    DataStorageFilterPipeline,
    Attribute,
    ObjectComment,
    ObjectModificationTimeOld,
    SharedMsgTable,
    ObjectContinuation,
    SymbolTable,
    ObjectModificationTime,
    BtreeKValue,
    DriverInfo,
    AttributeInfo,
    ObjectReferenceCount,
    FileSpaceInfo,
}

/// The message type that a tag stands for.
pub open spec fn message_type_of(t: u16) -> Option<MessageType> {
    if t == 0 {
        Some(MessageType::Nil)
    } else if t == 1 {
        Some(MessageType::Dataspace)
    } else if t == 2 {
        Some(MessageType::LinkInfo)
    } else if t == 3 {
        Some(MessageType::Datatype)
    } else if t == 4 {
        Some(MessageType::FillvalueOld)
    } else if t == 5 {
        Some(MessageType::Fillvalue)
    } else if t == 6 {
        Some(MessageType::Link)
    } else if t == 7 {
        Some(MessageType::ExternalDataFiles)
    } else if t == 8 {
        Some(MessageType::DataStorage)
    } else if t == 9 {
        Some(MessageType::Bogus)
    } else if t == 10 {
        Some(MessageType::GroupInfo)
    } else if t == 11 {
        Some(MessageType::DataStorageFilterPipeline)
    } else if t == 12 {
        Some(MessageType::Attribute)
    } else if t == 13 {
        Some(MessageType::ObjectComment)
    } else if t == 14 {
        Some(MessageType::ObjectModificationTimeOld)
    } else if t == 15 {
        Some(MessageType::SharedMsgTable)
    } else if t == 16 {
        Some(MessageType::ObjectContinuation)
    } else if t == 17 {
        Some(MessageType::SymbolTable)
    } else if t == 18 {
        Some(MessageType::ObjectModificationTime)
    } else if t == 19 {
        Some(MessageType::BtreeKValue)
    } else if t == 20 {
        Some(MessageType::DriverInfo)
    } else if t == 21 {
        Some(MessageType::AttributeInfo)
    } else if t == 22 {
        Some(MessageType::ObjectReferenceCount)
    } else if t == 24 {
        Some(MessageType::FileSpaceInfo)
    } else {
        None
    }
}

impl MessageType {
    /// The message type of a tag, or `Format` for a tag that names none.
    pub fn from_tag(t: u16) -> (r: Result<MessageType, Error>)
        ensures
            message_type_of(t) is Some ==> r == Ok::<MessageType, Error>(
                message_type_of(t)->Some_0,
            ),
            message_type_of(t) is None ==> r == Err::<MessageType, Error>(Error::Format),
    {
        match t {
            0 => Ok(MessageType::Nil),
            1 => Ok(MessageType::Dataspace),
            2 => Ok(MessageType::LinkInfo),
            3 => Ok(MessageType::Datatype),
            4 => Ok(MessageType::FillvalueOld),
            5 => Ok(MessageType::Fillvalue),
            6 => Ok(MessageType::Link),
            7 => Ok(MessageType::ExternalDataFiles),
            8 => Ok(MessageType::DataStorage),
            9 => Ok(MessageType::Bogus),
            10 => Ok(MessageType::GroupInfo),
            11 => Ok(MessageType::DataStorageFilterPipeline),
            12 => Ok(MessageType::Attribute),
            13 => Ok(MessageType::ObjectComment),
            14 => Ok(MessageType::ObjectModificationTimeOld),
            15 => Ok(MessageType::SharedMsgTable),
            16 => Ok(MessageType::ObjectContinuation),
            17 => Ok(MessageType::SymbolTable),
            18 => Ok(MessageType::ObjectModificationTime),
            19 => Ok(MessageType::BtreeKValue),
            20 => Ok(MessageType::DriverInfo),
            21 => Ok(MessageType::AttributeInfo),
            22 => Ok(MessageType::ObjectReferenceCount),
            24 => Ok(MessageType::FileSpaceInfo),
            _ => Err(Error::Format),
        }
    }
}

/// Header of a message in a version-1 object header.
#[derive(Clone, Copy, Debug)]
pub struct MessageHeaderV1 {
    pub message_type: MessageType,
    pub size: u16,
    pub flags: u8,
}

/// Header of a message in a version-2 object header.
#[derive(Clone, Copy, Debug)]
pub struct MessageHeaderV2 {
    pub message_type: MessageType,
    pub size: u16,
    pub flags: u8,
}

} // verus!
