//! Mutable-data values as they appear in responses: keys, versioned values,
//! entries, and the metadata a user attaches to a mutable data.

use vstd::prelude::*;

verus! {

/// Length of the entry key under which metadata is stored.
pub const METADATA_KEY_LEN: usize = 9;

/// The entry key under which metadata is stored: the bytes of `_metadata`.
pub fn metadata_key() -> (key: Vec<u8>)
    ensures
        key@ == seq![95u8, 109u8, 101u8, 116u8, 97u8, 100u8, 97u8, 116u8, 97u8],
        key@.len() == METADATA_KEY_LEN,
{
    let mut key: Vec<u8> = Vec::new();
    key.push(95u8);
    key.push(109u8);
    key.push(101u8);
    key.push(116u8);
    key.push(97u8);
    key.push(100u8);
    key.push(97u8);
    key.push(116u8);
    key.push(97u8);
    assert(key@ =~= seq![95u8, 109u8, 101u8, 116u8, 97u8, 100u8, 97u8, 116u8, 97u8]);
    key
}

/// Metadata for a mutable data.
#[derive(Clone, Debug, PartialEq, Eq)]
pub struct UserMetadata {
    /// Name or purpose of this mutable data.
    pub name: Option<String>,
    /// Description of how this mutable data should or should not be shared.
    pub description: Option<String>,
}

/// Value of a mutable-data entry, with its version.
#[derive(Hash, PartialEq, Eq, PartialOrd, Ord, Clone, Debug)]
pub struct MDataValue {
    /// Content of the entry.
    pub content: Vec<u8>,
    /// Version of the entry.
    pub entry_version: u64,
}

/// Mutable data key.
#[derive(Hash, PartialEq, Eq, PartialOrd, Ord, Clone, Debug)]
pub struct MDataKey {
    /// Key value.
    pub val: Vec<u8>,
}

/// Mutable data entry.
#[derive(Hash, PartialEq, Eq, PartialOrd, Ord, Clone, Debug)]
pub struct MDataEntry {
    /// Key.
    pub key: MDataKey,
    /// Value.
    pub value: MDataValue,
}

impl MDataValue {
    /// The value with the given content and version, as routing hands them
    /// over.
    pub fn from_routing(content: Vec<u8>, entry_version: u64) -> (value: MDataValue)
        ensures
            value.content@ == content@,
            value.entry_version == entry_version,
    {
        MDataValue { content, entry_version }
    }
}

impl MDataKey {
    /// The key with the given bytes, as routing hands them over.
    pub fn from_routing(key: Vec<u8>) -> (made: MDataKey)
        ensures
            made.val@ == key@,
    {
        MDataKey { val: key }
    }
}

} // verus!
