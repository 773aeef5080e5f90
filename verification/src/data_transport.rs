use vstd::prelude::*;

verus! {

/// Element type of a data buffer sent between the server and the client.
#[derive(PartialEq, Eq, Structural, Clone, Copy, Debug)]
pub enum DataType {
    U8,
    U16,
    U32,
    U64,
    I8,
    I16,
    I32,
    I64,
    F32,
    F64,
}

/// Wire identifier of each data type: its position in the declaration.
pub open spec fn data_type_id(t: DataType) -> u8 {
    match t {
        DataType::U8 => 0,
        DataType::U16 => 1,
        DataType::U32 => 2,
        DataType::U64 => 3,
        DataType::I8 => 4,
        DataType::I16 => 5,
        DataType::I32 => 6,
        DataType::I64 => 7,
        DataType::F32 => 8,
        DataType::F64 => 9,
    }
}

impl DataType {
    /// Size in bytes of one element of this type.
    pub open spec fn spec_item_size(self) -> nat {
        match self {
            DataType::U8 | DataType::I8 => 1,
            DataType::U16 | DataType::I16 => 2,
            DataType::U32 | DataType::I32 | DataType::F32 => 4,
            DataType::U64 | DataType::I64 | DataType::F64 => 8,
        }
    }

    /// Returns the size in bytes of one element.
    pub fn item_size(&self) -> (size: usize)
        ensures
            size == self.spec_item_size(),
    {
        match self {
            DataType::U8 | DataType::I8 => 1,
            DataType::U16 | DataType::I16 => 2,
            DataType::U32 | DataType::I32 | DataType::F32 => 4,
            DataType::U64 | DataType::I64 | DataType::F64 => 8,
        }
    }

    /// Decodes a wire identifier; identifiers above 9 are refused.
    pub fn from_id(id: u8) -> (res: Result<Self, ()>)
        ensures
            id <= 9 <==> res is Ok,
            res matches Ok(t) ==> data_type_id(t) == id,
    {
        match id {
            0 => Ok(DataType::U8),
            1 => Ok(DataType::U16),
            2 => Ok(DataType::U32),
            3 => Ok(DataType::U64),
            4 => Ok(DataType::I8),
            5 => Ok(DataType::I16),
            6 => Ok(DataType::I32),
            7 => Ok(DataType::I64),
            8 => Ok(DataType::F32),
            9 => Ok(DataType::F64),
            _ => Err(()),
        }
    }

    /// The `Debug` rendering of the type's name.
    pub open spec fn spec_name(&self) -> Seq<char> {
        match self {
            DataType::U8 => "U8"@,
            DataType::U16 => "U16"@,
            DataType::U32 => "U32"@,
            DataType::U64 => "U64"@,
            DataType::I8 => "I8"@,
            DataType::I16 => "I16"@,
            DataType::I32 => "I32"@,
            DataType::I64 => "I64"@,
            DataType::F32 => "F32"@,
            DataType::F64 => "F64"@,
        }
    }

    /// The `Debug` rendering of the type's name.
    pub fn name(&self) -> (s: &'static str)
        ensures
            s@ == self.spec_name(),
    {
        match self {
            DataType::U8 => "U8",
            DataType::U16 => "U16",
            DataType::U32 => "U32",
            DataType::U64 => "U64",
            DataType::I8 => "I8",
            DataType::I16 => "I16",
            DataType::I32 => "I32",
            DataType::I64 => "I64",
            DataType::F32 => "F32",
            DataType::F64 => "F64",
        }
    }
}

/// Every element size is one of 1, 2, 4 or 8 bytes, and the wire identifier
/// of a type decodes back to that same type.
pub proof fn lemma_data_type_id_roundtrip(t: DataType)
    ensures
        t.spec_item_size() == 1 || t.spec_item_size() == 2 || t.spec_item_size() == 4
            || t.spec_item_size() == 8,
        data_type_id(t) <= 9,
        forall|u: DataType| data_type_id(u) == data_type_id(t) ==> u == t,
{
}

/// How a complete data payload is applied to the stored buffer.
#[derive(PartialEq, Eq, Structural, Clone, Copy, Debug)]
pub enum TransportType {
    /// Replace the whole buffer; the element count of the payload.
    SetAll(u64),
    /// Append to the buffer; the element count of the payload.
    Add(u64),
    /// Overwrite a range; start index and element count of the payload.
    Replace(u64, u64),
}

/// Header of a message that carries a data buffer.
#[derive(PartialEq, Eq, Structural, Clone, Copy, Debug)]
pub enum DataHeader {
    /// data type, transport type, update flag, size of the payload
    All(DataType, TransportType, bool, u32),
    /// total element count, size of the first batch
    StartBatch(u64, u32),
    /// size of the batch
    Batch(u32),
    /// data type, transport type, update flag, size of the last batch
    End(DataType, TransportType, bool, u32),
    /// start and element count to drain, update flag
    Drain(u64, u64, bool),
    /// update flag
    Clear(bool),
}

/// Header of a message that carries a one-shot data buffer.
#[derive(PartialEq, Eq, Structural, Clone, Copy, Debug)]
pub enum DataTakeHeader {
    /// data type, element count, update flag, size of the payload
    All(DataType, u64, bool, u32),
    /// total element count, size of the first batch
    StartBatch(u64, u32),
    /// size of the batch
    Batch(u32),
    /// data type, element count, update flag, size of the last batch
    End(DataType, u64, bool, u32),
}

/// Header of a message addressed to one buffer of a keyed data collection.
#[derive(PartialEq, Eq, Structural, Clone, Copy, Debug)]
pub enum MultiDataHeader {
    /// remove the key, update flag
    Remove(u32, bool),
    /// modify the buffer under the key
    Modify(u32, DataHeader),
    /// clear the collection, update flag
    Reset(bool),
}

/// Header of a message addressed to one buffer of a keyed one-shot collection.
#[derive(PartialEq, Eq, Structural, Clone, Copy, Debug)]
pub enum DataMultiTakeHeader {
    /// remove the key, update flag
    Remove(u32, bool),
    /// modify the buffer under the key, blocking flag
    Modify(u32, DataTakeHeader, bool),
    /// clear the collection, update flag
    Reset(bool),
}

} // verus!
