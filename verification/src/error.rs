use vstd::prelude::*;
use vstd::string::StringExecFns;

verus! {

/// Outcome signal for the raw lookup operations on the house model.
///
/// `RoomNotExist` and `DeviceNotExist` are expected, recoverable conditions:
/// the caller asked about a name that the house does not contain. `NoError`
/// is a placeholder for callers that want a uniform success/failure signal.
#[derive(Debug, PartialEq, Eq)]
pub enum SmartHouseError {
    NoError,
    RoomNotExist,
    DeviceNotExist,
}

impl SmartHouseError {
    /// A short human-readable description of the condition.
    pub fn message(&self) -> (s: String)
        ensures
            *self == SmartHouseError::NoError ==> s@ == Seq::<char>::empty(),
            *self == SmartHouseError::RoomNotExist ==> s@ == "room does not exist"@,
            *self == SmartHouseError::DeviceNotExist ==> s@ == "device does not exist"@,
    {
        match *self {
            SmartHouseError::NoError => String::new(),
            SmartHouseError::RoomNotExist => String::from_str("room does not exist"),
            SmartHouseError::DeviceNotExist => String::from_str("device does not exist"),
        }
    }
}

} // verus!
