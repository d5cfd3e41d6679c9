//! Keyset invariants and output prefixes.
use vstd::prelude::*;
use crate::error::{ErrorKind, TinkError};
use crate::proto::{Key, KeyStatusType, Keyset, OutputPrefixType};

verus! {

/// Every key has a non-zero id, a known status and a known prefix policy.
pub open spec fn keys_well_formed(keys: Seq<Key>) -> bool {
    forall|i: int|
        0 <= i < keys.len() ==> {
            &&& (#[trigger] keys[i]).key_id != 0
            &&& keys[i].status != KeyStatusType::UnknownStatus
            &&& keys[i].output_prefix_type != OutputPrefixType::UnknownPrefix
        }
}

/// No two keys share an id.
pub open spec fn ids_unique(keys: Seq<Key>) -> bool {
    forall|i: int, j: int|
        0 <= i < keys.len() && 0 <= j < keys.len() && i != j ==> #[trigger] keys[i].key_id
            != #[trigger] keys[j].key_id
}

/// The primary id names an enabled key.
pub open spec fn has_enabled_primary(ks: Keyset) -> bool {
    exists|i: int|
        0 <= i < ks.key@.len() && (#[trigger] ks.key@[i]).key_id == ks.primary_key_id
            && ks.key@[i].status == KeyStatusType::Enabled
}

/// The keyset invariants.
pub open spec fn valid_keyset(ks: Keyset) -> bool {
    &&& keys_well_formed(ks.key@)
    &&& ids_unique(ks.key@)
    &&& has_enabled_primary(ks)
}

/// Check the keyset invariants.
pub fn validate(ks: &Keyset) -> (r: Result<(), TinkError>)
    ensures
        r is Ok <==> valid_keyset(*ks),
        r is Err ==> r->Err_0.kind == ErrorKind::InvalidArgument,
{
    let keys = &ks.key;
    let mut found_primary = false;
    let mut i: usize = 0;
    while i < keys.len()
        invariant
            0 <= i <= keys@.len(),
            keys == &ks.key,
            keys_well_formed(keys@.take(i as int)),
            ids_unique(keys@.take(i as int)),
            found_primary <==> exists|k: int|
                0 <= k < i && (#[trigger] keys@[k]).key_id == ks.primary_key_id
                    && keys@[k].status == KeyStatusType::Enabled,
        decreases keys.len() - i,
    {
        let key = &keys[i];
        if key.key_id == 0 || key.status == KeyStatusType::UnknownStatus
            || key.output_prefix_type == OutputPrefixType::UnknownPrefix {
            proof {
                assert(keys@[i as int] == *key);
            }
            return Err(TinkError::new(ErrorKind::InvalidArgument, "keyset: invalid key"));
        }
        let mut j: usize = 0;
        while j < i
            invariant
                0 <= j <= i < keys@.len(),
                keys == &ks.key,
                *key == keys@[i as int],
                forall|k: int| 0 <= k < j ==> (#[trigger] keys@[k]).key_id != key.key_id,
            decreases i - j,
        {
            if keys[j].key_id == key.key_id {
                proof {
                    assert(keys@[j as int].key_id == keys@[i as int].key_id);
                }
                return Err(TinkError::new(ErrorKind::InvalidArgument, "keyset: duplicate key id"));
            }
            j += 1;
        }
        if key.key_id == ks.primary_key_id && key.status == KeyStatusType::Enabled {
            found_primary = true;
        }
        proof {
            let t = keys@.take(i as int + 1);
            assert(t[i as int] == keys@[i as int]);
            assert forall|a: int| 0 <= a < t.len() implies {
                &&& (#[trigger] t[a]).key_id != 0
                &&& t[a].status != KeyStatusType::UnknownStatus
                &&& t[a].output_prefix_type != OutputPrefixType::UnknownPrefix
            } by {
                if a < i {
                    assert(t[a] == keys@.take(i as int)[a]);
                }
            }
            assert forall|a: int, b: int|
                0 <= a < t.len() && 0 <= b < t.len() && a != b implies #[trigger] t[a].key_id
                != #[trigger] t[b].key_id by {
                if a < i && b < i {
                    assert(t[a] == keys@.take(i as int)[a]);
                    assert(t[b] == keys@.take(i as int)[b]);
                }
            }
        }
        i += 1;
    }
    proof {
        assert(keys@.take(keys@.len() as int) =~= keys@);
    }
    if !found_primary {
        return Err(TinkError::new(ErrorKind::InvalidArgument, "keyset: no enabled primary key"));
    }
    Ok(())
}

/// The output prefix for a key: a version byte and the big-endian id, or nothing.
pub open spec fn output_prefix(policy: OutputPrefixType, key_id: u32) -> Seq<u8> {
    let id = key_id as nat;
    let be = seq![(id / 0x1000000) as u8, ((id / 0x10000) % 256) as u8, ((id / 0x100) % 256) as u8, (id % 256) as u8];
    match policy {
        OutputPrefixType::Tink => seq![1u8] + be,
        OutputPrefixType::Legacy | OutputPrefixType::Crunchy => seq![0u8] + be,
        _ => Seq::empty(),
    }
}

/// Compute the output prefix for `key`; an unknown policy is refused.
pub fn create_output_prefix(key: &Key) -> (r: Result<Vec<u8>, TinkError>)
    ensures
        r is Ok <==> key.output_prefix_type != OutputPrefixType::UnknownPrefix,
        r is Ok ==> r->Ok_0@ == output_prefix(key.output_prefix_type, key.key_id),
        r is Err ==> r->Err_0.kind == ErrorKind::InvalidArgument,
{
    let id = key.key_id;
    let version: u8 = match key.output_prefix_type {
        OutputPrefixType::Tink => 1,
        OutputPrefixType::Legacy | OutputPrefixType::Crunchy => 0,
        OutputPrefixType::Raw => {
            return Ok(Vec::new());
        },
        OutputPrefixType::UnknownPrefix => {
            return Err(TinkError::new(ErrorKind::InvalidArgument, "unknown output prefix type"));
        },
    };
    let mut r: Vec<u8> = Vec::new();
    r.push(version);
    r.push((id / 0x1000000) as u8);
    r.push(((id / 0x10000) % 256) as u8);
    r.push(((id / 0x100) % 256) as u8);
    r.push((id % 256) as u8);
    assert(r@ =~= output_prefix(key.output_prefix_type, key.key_id));
    Ok(r)
}

} // verus!
