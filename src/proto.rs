//! Key descriptors: templates, keys, keysets and their redacted summaries.
use vstd::prelude::*;

verus! {

/// How a key's id is reflected as bytes in front of its ciphertexts.
#[derive(Clone, Copy, Debug, PartialEq, Eq, Structural)]
pub enum OutputPrefixType {
    UnknownPrefix,
    Tink,
    Legacy,
    Raw,
    Crunchy,
}

/// Hash functions, as numbered on the wire.
#[derive(Clone, Copy, Debug, PartialEq, Eq, Structural)]
pub enum HashType {
    UnknownHash,
    Sha1,
    Sha384,
    Sha256,
    Sha512,
    Sha224,
}

/// The life-cycle state of a key inside a keyset.
#[derive(Clone, Copy, Debug, PartialEq, Eq, Structural)]
pub enum KeyStatusType {
    UnknownStatus,
    Enabled,
    Disabled,
    Destroyed,
}

/// What kind of material a key-data record carries.
#[derive(Clone, Copy, Debug, PartialEq, Eq, Structural)]
pub enum KeyMaterialType {
    UnknownKeymaterial,
    Symmetric,
    AsymmetricPrivate,
    AsymmetricPublic,
    Remote,
}

impl OutputPrefixType {
    /// The variant that `v` stands for on the wire, if any.
    pub fn from_value(v: u64) -> (r: Option<OutputPrefixType>)
        ensures
            r is Some ==> r->Some_0.spec_value() == v,
            r is None <==> v > 4,
    {
        match v {
            0 => Some(OutputPrefixType::UnknownPrefix),
            1 => Some(OutputPrefixType::Tink),
            2 => Some(OutputPrefixType::Legacy),
            3 => Some(OutputPrefixType::Raw),
            4 => Some(OutputPrefixType::Crunchy),
            _ => None,
        }
    }

    pub open spec fn spec_value(self) -> u32 {
        match self {
            OutputPrefixType::UnknownPrefix => 0,
            OutputPrefixType::Tink => 1,
            OutputPrefixType::Legacy => 2,
            OutputPrefixType::Raw => 3,
            OutputPrefixType::Crunchy => 4,
        }
    }

    /// The number that stands for this policy on the wire.
    pub fn value(self) -> (r: u32)
        ensures
            r == self.spec_value(),
    {
        match self {
            OutputPrefixType::UnknownPrefix => 0,
            OutputPrefixType::Tink => 1,
            OutputPrefixType::Legacy => 2,
            OutputPrefixType::Raw => 3,
            OutputPrefixType::Crunchy => 4,
        }
    }
}

impl HashType {
    pub open spec fn spec_value(self) -> u32 {
        match self {
            HashType::UnknownHash => 0,
            HashType::Sha1 => 1,
            HashType::Sha384 => 2,
            HashType::Sha256 => 3,
            HashType::Sha512 => 4,
            HashType::Sha224 => 5,
        }
    }

    /// The number that stands for this hash on the wire.
    pub fn value(self) -> (r: u32)
        ensures
            r == self.spec_value(),
    {
        match self {
            HashType::UnknownHash => 0,
            HashType::Sha1 => 1,
            HashType::Sha384 => 2,
            HashType::Sha256 => 3,
            HashType::Sha512 => 4,
            HashType::Sha224 => 5,
        }
    }
}

impl KeyStatusType {
    /// The variant that `v` stands for on the wire, if any.
    pub fn from_value(v: u64) -> (r: Option<KeyStatusType>)
        ensures
            r is Some ==> r->Some_0.spec_value() == v,
            r is None <==> v > 3,
    {
        match v {
            0 => Some(KeyStatusType::UnknownStatus),
            1 => Some(KeyStatusType::Enabled),
            2 => Some(KeyStatusType::Disabled),
            3 => Some(KeyStatusType::Destroyed),
            _ => None,
        }
    }

    pub open spec fn spec_value(self) -> u32 {
        match self {
            KeyStatusType::UnknownStatus => 0,
            KeyStatusType::Enabled => 1,
            KeyStatusType::Disabled => 2,
            KeyStatusType::Destroyed => 3,
        }
    }

    /// The number that stands for this status on the wire.
    pub fn value(self) -> (r: u32)
        ensures
            r == self.spec_value(),
    {
        match self {
            KeyStatusType::UnknownStatus => 0,
            KeyStatusType::Enabled => 1,
            KeyStatusType::Disabled => 2,
            KeyStatusType::Destroyed => 3,
        }
    }
}

impl KeyMaterialType {
    /// The variant that `v` stands for on the wire, if any.
    pub fn from_value(v: u64) -> (r: Option<KeyMaterialType>)
        ensures
            r is Some ==> r->Some_0.spec_value() == v,
            r is None <==> v > 4,
    {
        match v {
            0 => Some(KeyMaterialType::UnknownKeymaterial),
            1 => Some(KeyMaterialType::Symmetric),
            2 => Some(KeyMaterialType::AsymmetricPrivate),
            3 => Some(KeyMaterialType::AsymmetricPublic),
            4 => Some(KeyMaterialType::Remote),
            _ => None,
        }
    }

    pub open spec fn spec_value(self) -> u32 {
        match self {
            KeyMaterialType::UnknownKeymaterial => 0,
            KeyMaterialType::Symmetric => 1,
            KeyMaterialType::AsymmetricPrivate => 2,
            KeyMaterialType::AsymmetricPublic => 3,
            KeyMaterialType::Remote => 4,
        }
    }

    /// The number that stands for this material type on the wire.
    pub fn value(self) -> (r: u32)
        ensures
            r == self.spec_value(),
    {
        match self {
            KeyMaterialType::UnknownKeymaterial => 0,
            KeyMaterialType::Symmetric => 1,
            KeyMaterialType::AsymmetricPrivate => 2,
            KeyMaterialType::AsymmetricPublic => 3,
            KeyMaterialType::Remote => 4,
        }
    }

    /// Secret material: symmetric keys, private keys, and anything unrecognised.
    pub open spec fn spec_is_secret(self) -> bool {
        match self {
            KeyMaterialType::AsymmetricPublic | KeyMaterialType::Remote => false,
            _ => true,
        }
    }

    pub fn is_secret(self) -> (r: bool)
        ensures
            r == self.spec_is_secret(),
    {
        match self {
            KeyMaterialType::AsymmetricPublic | KeyMaterialType::Remote => false,
            _ => true,
        }
    }
}

/// A recipe for fresh keys: algorithm family, serialized format, prefix policy.
#[derive(Clone, Debug)]
pub struct KeyTemplate {
    pub type_url: String,
    pub value: Vec<u8>,
    pub output_prefix_type: OutputPrefixType,
}

/// The payload of a key.
#[derive(Clone, Debug)]
pub struct KeyData {
    pub type_url: String,
    pub value: Vec<u8>,
    pub key_material_type: KeyMaterialType,
}

/// One key of a keyset. A destroyed key keeps its id but has no key data.
#[derive(Clone, Debug)]
pub struct Key {
    pub key_data: Option<KeyData>,
    pub status: KeyStatusType,
    pub key_id: u32,
    pub output_prefix_type: OutputPrefixType,
}

/// An ordered list of keys with a designated primary.
#[derive(Clone, Debug)]
pub struct Keyset {
    pub primary_key_id: u32,
    pub key: Vec<Key>,
}

/// What may be said of a key without its material.
#[derive(Clone, Debug)]
pub struct KeyInfo {
    pub type_url: String,
    pub status: KeyStatusType,
    pub key_id: u32,
    pub output_prefix_type: OutputPrefixType,
}

/// What may be said of a keyset without its material.
#[derive(Clone, Debug)]
pub struct KeysetInfo {
    pub primary_key_id: u32,
    pub key_info: Vec<KeyInfo>,
}

/// A keyset sealed under a master key, with its redacted summary.
#[derive(Clone, Debug)]
pub struct EncryptedKeyset {
    pub encrypted_keyset: Vec<u8>,
    pub keyset_info: Option<KeysetInfo>,
}

} // verus!
