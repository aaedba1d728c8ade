//! Storage key codec: maps per-address nonce/balance/code/storage-slot
//! entities onto disjoint regions of the host's flat byte-string key
//! space.  Every key is `[version ‖ category ‖ suffix]`; the category
//! byte at offset 1 keeps regions from colliding.

use vstd::prelude::*;
use crate::types::Address;
use crate::types::H256;
use crate::types::push_all;

verus! {

/// The current key scheme version byte.  Keys with a different leading
/// byte belong to a prior incompatible scheme and are never interpreted
/// under the current rules.
pub const VERSION_BYTE: u8 = 0x07;

/// Version discriminant of the key scheme.
#[derive(Clone, Copy, Debug, PartialEq, Eq, Structural)]
pub enum VersionPrefix {
    V1,
}

impl VersionPrefix {
    pub open spec fn spec_byte(self) -> u8 {
        0x07
    }

    pub fn to_byte(self) -> (r: u8)
        ensures
            r == self.spec_byte(),
    {
        0x07
    }
}

/// Category of a stored entity, written at key offset 1.
#[derive(Clone, Copy, Debug, PartialEq, Eq, Structural)]
pub enum KeyPrefix {
    Config,
    Nonce,
    Balance,
    Code,
    Storage,
    RelayerEvmAddressMap,
    EthConnector,
}

impl KeyPrefix {
    pub open spec fn spec_byte(self) -> u8 {
        match self {
            KeyPrefix::Config => 0x0,
            KeyPrefix::Nonce => 0x1,
            KeyPrefix::Balance => 0x2,
            KeyPrefix::Code => 0x3,
            KeyPrefix::Storage => 0x4,
            KeyPrefix::RelayerEvmAddressMap => 0x5,
            KeyPrefix::EthConnector => 0x6,
        }
    }

    pub fn to_byte(self) -> (r: u8)
        ensures
            r == self.spec_byte(),
    {
        match self {
            KeyPrefix::Config => 0x0,
            KeyPrefix::Nonce => 0x1,
            KeyPrefix::Balance => 0x2,
            KeyPrefix::Code => 0x3,
            KeyPrefix::Storage => 0x4,
            KeyPrefix::RelayerEvmAddressMap => 0x5,
            KeyPrefix::EthConnector => 0x6,
        }
    }

    /// Recovers the category from its byte; `None` above the last one.
    pub fn from_byte(b: u8) -> (r: Option<KeyPrefix>)
        ensures
            match r {
                Some(p) => p.spec_byte() == b,
                None => b > 0x6,
            },
    {
        match b {
            0x0 => Some(KeyPrefix::Config),
            0x1 => Some(KeyPrefix::Nonce),
            0x2 => Some(KeyPrefix::Balance),
            0x3 => Some(KeyPrefix::Code),
            0x4 => Some(KeyPrefix::Storage),
            0x5 => Some(KeyPrefix::RelayerEvmAddressMap),
            0x6 => Some(KeyPrefix::EthConnector),
            _ => None,
        }
    }
}

/// Discriminant for the bridge connector's own storage entries.
#[derive(Clone, Copy, Debug, PartialEq, Eq, Structural)]
pub enum EthConnectorStorageId {
    Contract,
    FungibleToken,
    UsedEvent,
    StatisticsAuroraAccountsCounter,
}

impl EthConnectorStorageId {
    pub open spec fn spec_byte(self) -> u8 {
        match self {
            EthConnectorStorageId::Contract => 0x0,
            EthConnectorStorageId::FungibleToken => 0x1,
            EthConnectorStorageId::UsedEvent => 0x2,
            EthConnectorStorageId::StatisticsAuroraAccountsCounter => 0x3,
        }
    }

    pub fn to_byte(self) -> (r: u8)
        ensures
            r == self.spec_byte(),
    {
        match self {
            EthConnectorStorageId::Contract => 0x0,
            EthConnectorStorageId::FungibleToken => 0x1,
            EthConnectorStorageId::UsedEvent => 0x2,
            EthConnectorStorageId::StatisticsAuroraAccountsCounter => 0x3,
        }
    }
}

/// Shape of every versioned key: version byte, category byte, suffix.
pub open spec fn spec_key(prefix: KeyPrefix, suffix: Seq<u8>) -> Seq<u8> {
    seq![VERSION_BYTE, prefix.spec_byte()] + suffix
}

/// Little-endian bytes of a storage generation counter.
pub open spec fn spec_gen_le(g: u32) -> Seq<u8> {
    seq![
        (g % 0x100) as u8,
        ((g / 0x100) % 0x100) as u8,
        ((g / 0x10000) % 0x100) as u8,
        ((g / 0x1000000) % 0x100) as u8,
    ]
}

/// Keys of different categories never collide, whatever their suffixes.
pub proof fn lemma_key_disjoint(p1: KeyPrefix, p2: KeyPrefix, s1: Seq<u8>, s2: Seq<u8>)
    requires
        p1 != p2,
    ensures
        spec_key(p1, s1) != spec_key(p2, s2),
{
    assert(spec_key(p1, s1)[1] == p1.spec_byte());
    assert(spec_key(p2, s2)[1] == p2.spec_byte());
}

/// A versioned key never equals a key whose leading byte differs from
/// the version byte (such as the upgrade bookkeeping keys).
pub proof fn lemma_key_version_disjoint(p: KeyPrefix, s: Seq<u8>, other: Seq<u8>)
    requires
        other.len() == 0 || other[0] != VERSION_BYTE,
    ensures
        spec_key(p, s) != other,
{
    assert(spec_key(p, s)[0] == VERSION_BYTE);
}

/// Versioned, category-prefixed key over an arbitrary suffix.
pub fn bytes_to_key(prefix: KeyPrefix, bytes: &Vec<u8>) -> (r: Vec<u8>)
    ensures
        r@ == spec_key(prefix, bytes@),
{
    let mut r: Vec<u8> = Vec::new();
    r.push(VERSION_BYTE);
    r.push(prefix.to_byte());
    push_all(&mut r, bytes);
    proof {
        assert(r@ =~= spec_key(prefix, bytes@));
    }
    r
}

/// Fixed 22-byte key for a per-address account field.
pub fn address_to_key(prefix: KeyPrefix, address: &Address) -> (r: Vec<u8>)
    requires
        address.wf(),
    ensures
        r@ == spec_key(prefix, address@),
        r@.len() == 22,
{
    bytes_to_key(prefix, &address.0)
}

/// Fixed 54-byte key for one storage slot of one account.
pub fn storage_to_key(address: &Address, key: &H256) -> (r: Vec<u8>)
    requires
        address.wf(),
        key.wf(),
    ensures
        r@ == spec_key(KeyPrefix::Storage, address@ + key@),
        r@.len() == 54,
{
    let mut r: Vec<u8> = Vec::new();
    r.push(VERSION_BYTE);
    r.push(KeyPrefix::Storage.to_byte());
    push_all(&mut r, &address.0);
    push_all(&mut r, &key.0);
    proof {
        assert(r@ =~= spec_key(KeyPrefix::Storage, address@ + key@));
    }
    r
}

/// Fixed 58-byte key for one storage slot under a generation counter,
/// so a whole account's storage can be invalidated by bumping the
/// generation instead of deleting every slot.
pub fn storage_to_key_nonced(address: &Address, storage_nonce: u32, key: &H256) -> (r: Vec<u8>)
    requires
        address.wf(),
        key.wf(),
    ensures
        r@ == spec_key(KeyPrefix::Storage, address@ + spec_gen_le(storage_nonce) + key@),
        r@.len() == 58,
{
    let mut r: Vec<u8> = Vec::new();
    r.push(VERSION_BYTE);
    r.push(KeyPrefix::Storage.to_byte());
    push_all(&mut r, &address.0);
    r.push((storage_nonce % 0x100) as u8);
    r.push(((storage_nonce / 0x100) % 0x100) as u8);
    r.push(((storage_nonce / 0x10000) % 0x100) as u8);
    r.push(((storage_nonce / 0x1000000) % 0x100) as u8);
    push_all(&mut r, &key.0);
    proof {
        assert(r@ =~= spec_key(KeyPrefix::Storage, address@ + spec_gen_le(storage_nonce) + key@));
    }
    r
}

} // verus!
