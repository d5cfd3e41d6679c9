//! Mutations of a keyset that keep its invariants.
use vstd::prelude::*;
use crate::crypto::random_u32;
use crate::error::{ErrorKind, TinkError};
use crate::handle::{Handle, KeyManager};
use crate::keyset::{has_enabled_primary, ids_unique, keys_well_formed, valid_keyset, validate};
use crate::proto::{Key, KeyStatusType, KeyTemplate, Keyset, OutputPrefixType};

verus! {

/// A status change applied to every key with a given id.
#[derive(Clone, Copy, Debug, PartialEq, Eq, Structural)]
pub enum StatusChange {
    Enable,
    Disable,
    Destroy,
}

/// `k` after `op`. Destroying a key drops its key data.
pub open spec fn changed(k: Key, op: StatusChange) -> Key {
    match op {
        StatusChange::Enable => Key { status: KeyStatusType::Enabled, ..k },
        StatusChange::Disable => Key { status: KeyStatusType::Disabled, ..k },
        StatusChange::Destroy => Key { key_data: None, status: KeyStatusType::Destroyed, ..k },
    }
}

/// Whether `op` may be applied to a key in status `s`.
pub open spec fn change_allowed(s: KeyStatusType, op: StatusChange) -> bool {
    match op {
        StatusChange::Enable | StatusChange::Disable => s == KeyStatusType::Enabled || s == KeyStatusType::Disabled,
        StatusChange::Destroy => s != KeyStatusType::UnknownStatus,
    }
}

/// Some key has id `id`.
pub open spec fn has_key(keys: Seq<Key>, id: u32) -> bool {
    exists|i: int| 0 <= i < keys.len() && (#[trigger] keys[i]).key_id == id
}

/// The keys whose id is not `id`, in order.
pub open spec fn without(keys: Seq<Key>, id: u32) -> Seq<Key>
    decreases keys.len(),
{
    if keys.len() == 0 {
        Seq::empty()
    } else if keys.last().key_id == id {
        without(keys.drop_last(), id)
    } else {
        without(keys.drop_last(), id).push(keys.last())
    }
}

proof fn lemma_without_members(keys: Seq<Key>, id: u32)
    ensures
        forall|j: int| 0 <= j < without(keys, id).len() ==> exists|i: int|
            0 <= i < keys.len() && keys[i] == #[trigger] without(keys, id)[j] && keys[i].key_id != id,
        forall|i: int| 0 <= i < keys.len() && keys[i].key_id != id ==> without(keys, id).contains(#[trigger] keys[i]),
    decreases keys.len(),
{
    if keys.len() > 0 {
        let d = keys.drop_last();
        lemma_without_members(d, id);
        assert forall|j: int| 0 <= j < without(keys, id).len() implies exists|i: int|
            0 <= i < keys.len() && keys[i] == #[trigger] without(keys, id)[j] && keys[i].key_id != id by {
            if j < without(d, id).len() {
                let i = choose|i: int| 0 <= i < d.len() && d[i] == without(d, id)[j] && d[i].key_id != id;
                assert(keys[i] == d[i]);
            } else {
                assert(keys[keys.len() - 1] == without(keys, id)[j]);
            }
        }
        assert forall|i: int| 0 <= i < keys.len() && keys[i].key_id != id implies without(keys, id).contains(#[trigger] keys[i]) by {
            if i < keys.len() - 1 {
                assert(keys[i] == d[i]);
                let j = choose|j: int| 0 <= j < without(d, id).len() && without(d, id)[j] == d[i];
                assert(without(keys, id)[j] == d[i]);
            } else {
                assert(without(keys, id)[without(keys, id).len() - 1] == keys[i]);
            }
        }
    }
}

proof fn lemma_without_unique(keys: Seq<Key>, id: u32)
    requires
        ids_unique(keys),
    ensures
        ids_unique(without(keys, id)),
        forall|j: int| 0 <= j < without(keys, id).len() ==> (#[trigger] without(keys, id)[j]).key_id != id,
    decreases keys.len(),
{
    if keys.len() > 0 {
        let d = keys.drop_last();
        assert(ids_unique(d)) by {
            assert forall|a: int, b: int| 0 <= a < d.len() && 0 <= b < d.len() && a != b implies #[trigger] d[a].key_id != #[trigger] d[b].key_id by {
                assert(d[a] == keys[a] && d[b] == keys[b]);
            }
        }
        lemma_without_unique(d, id);
        lemma_without_members(d, id);
        let w = without(keys, id);
        if keys.last().key_id != id {
            assert forall|a: int, b: int| 0 <= a < w.len() && 0 <= b < w.len() && a != b implies #[trigger] w[a].key_id != #[trigger] w[b].key_id by {
                let n = without(d, id).len() as int;
                if a == n || b == n {
                    let other = if a == n { b } else { a };
                    let i = choose|i: int| 0 <= i < d.len() && d[i] == #[trigger] without(d, id)[other] && d[i].key_id != id;
                    assert(keys[i] == d[i]);
                    assert(keys[keys.len() - 1] == keys.last());
                }
            }
        }
    }
}

/// Holds a keyset while it is changed.
pub struct Manager {
    ks: Keyset,
}

impl View for Manager {
    type V = Keyset;

    closed spec fn view(&self) -> Keyset {
        self.ks
    }
}

impl Manager {
    /// A manager over an empty keyset.
    pub fn new() -> (m: Manager)
        ensures
            m@.key@.len() == 0,
            m@.primary_key_id == 0,
    {
        Manager { ks: Keyset { primary_key_id: 0, key: Vec::new() } }
    }

    /// A manager over `ks`.
    pub fn from_keyset(ks: Keyset) -> (m: Manager)
        ensures
            m@ == ks,
    {
        Manager { ks }
    }

    /// Add a fresh key made from `kt` by `km` under id `key_id`, enabled, and
    /// make it the primary when `as_primary` holds.
    pub fn add_with_key_id<P, M: KeyManager<P>>(&mut self, kt: &KeyTemplate, km: &M, key_id: u32, as_primary: bool) -> (r: Result<(), TinkError>)
        ensures
            key_id == 0 || kt.output_prefix_type == OutputPrefixType::UnknownPrefix ==> r is Err
                && r->Err_0.kind == ErrorKind::InvalidArgument,
            has_key(old(self)@.key@, key_id) ==> r is Err,
            r is Err ==> final(self)@ == old(self)@,
            r is Ok ==> {
                &&& final(self)@.key@.len() == old(self)@.key@.len() + 1
                &&& final(self)@.key@.drop_last() == old(self)@.key@
                &&& final(self)@.key@.last().key_id == key_id
                &&& final(self)@.key@.last().status == KeyStatusType::Enabled
                &&& final(self)@.key@.last().output_prefix_type == kt.output_prefix_type
                &&& final(self)@.key@.last().key_data is Some
                &&& final(self)@.primary_key_id == if as_primary { key_id } else { old(self)@.primary_key_id }
            },
            r is Ok && (valid_keyset(old(self)@) || as_primary) && keys_well_formed(old(self)@.key@) && ids_unique(old(self)@.key@) ==> valid_keyset(final(self)@),
    {
        if key_id == 0 || kt.output_prefix_type == OutputPrefixType::UnknownPrefix {
            return Err(TinkError::new(ErrorKind::InvalidArgument, "keyset::Manager: invalid key id or prefix"));
        }
        let mut i: usize = 0;
        while i < self.ks.key.len()
            invariant
                0 <= i <= self.ks.key@.len(),
                self.ks == old(self).ks,
                key_id != 0,
                kt.output_prefix_type != OutputPrefixType::UnknownPrefix,
                forall|k: int| 0 <= k < i ==> (#[trigger] self.ks.key@[k]).key_id != key_id,
            decreases self.ks.key@.len() - i,
        {
            if self.ks.key[i].key_id == key_id {
                return Err(TinkError::new(ErrorKind::AlreadyExists, "keyset::Manager: key id already in use"));
            }
            i += 1;
        }
        if !km.does_support(kt.type_url.as_str()) {
            return Err(TinkError::new(ErrorKind::NotFound, "keyset::Manager: no key manager for the template"));
        }
        let kd = match km.new_key_data(kt.value.as_slice()) {
            Ok(kd) => kd,
            Err(e) => {
                return Err(e);
            },
        };
        let ghost old_keys = self.ks.key@;
        self.ks.key.push(Key {
            key_data: Some(kd),
            status: KeyStatusType::Enabled,
            key_id,
            output_prefix_type: kt.output_prefix_type,
        });
        if as_primary {
            self.ks.primary_key_id = key_id;
        }
        proof {
            let keys = self.ks.key@;
            assert(keys.drop_last() =~= old_keys);
            assert forall|k: int| 0 <= k < old_keys.len() implies keys[k] == old_keys[k] by {}
            if keys_well_formed(old_keys) && ids_unique(old_keys) {
                assert(keys_well_formed(keys)) by {
                    assert forall|k: int| 0 <= k < keys.len() implies {
                        &&& (#[trigger] keys[k]).key_id != 0
                        &&& keys[k].status != KeyStatusType::UnknownStatus
                        &&& keys[k].output_prefix_type != OutputPrefixType::UnknownPrefix
                    } by {
                        if k < old_keys.len() {
                            assert(keys[k] == old_keys[k]);
                        }
                    }
                }
                assert(ids_unique(keys)) by {
                    assert forall|a: int, b: int| 0 <= a < keys.len() && 0 <= b < keys.len() && a != b implies #[trigger] keys[a].key_id != #[trigger] keys[b].key_id by {
                        if a < old_keys.len() {
                            assert(keys[a] == old_keys[a]);
                        }
                        if b < old_keys.len() {
                            assert(keys[b] == old_keys[b]);
                        }
                    }
                }
                if as_primary {
                    assert(keys[keys.len() - 1].key_id == self.ks.primary_key_id);
                } else if has_enabled_primary(old(self).ks) {
                    let w = choose|w: int| 0 <= w < old_keys.len() && (#[trigger] old_keys[w]).key_id == old(self).ks.primary_key_id
                        && old_keys[w].status == KeyStatusType::Enabled;
                    assert(keys[w] == old_keys[w]);
                }
            }
        }
        Ok(())
    }

    /// Add a fresh key made from `kt` by `km` under a random unused id, and
    /// make it the primary.
    pub fn rotate<P, M: KeyManager<P>>(&mut self, kt: &KeyTemplate, km: &M) -> (r: Result<(), TinkError>)
        ensures
            kt.output_prefix_type == OutputPrefixType::UnknownPrefix ==> r is Err,
            r is Err ==> final(self)@ == old(self)@,
            r is Ok ==> {
                &&& final(self)@.key@.len() == old(self)@.key@.len() + 1
                &&& final(self)@.key@.drop_last() == old(self)@.key@
                &&& final(self)@.key@.last().key_id == final(self)@.primary_key_id
                &&& final(self)@.key@.last().status == KeyStatusType::Enabled
                &&& final(self)@.key@.last().output_prefix_type == kt.output_prefix_type
                &&& final(self)@.key@.last().key_data is Some
            },
            r is Ok && keys_well_formed(old(self)@.key@) && ids_unique(old(self)@.key@) ==> valid_keyset(final(self)@),
    {
        let mut tries: u32 = 0;
        while tries < 64
            invariant
                self.ks == old(self).ks,
            decreases 64 - tries,
        {
            let id = random_u32();
            if id != 0 && !self.contains_id(id) {
                return self.add_with_key_id(kt, km, id, true);
            }
            tries += 1;
        }
        Err(TinkError::new(ErrorKind::Internal, "keyset::Manager: no free key id found"))
    }

    /// The keyset as it stands.
    pub fn keyset(&self) -> (r: &Keyset)
        ensures
            *r == self@,
    {
        &self.ks
    }

    /// Whether some key has id `id`.
    pub fn contains_id(&self, id: u32) -> (r: bool)
        ensures
            r == has_key(self@.key@, id),
    {
        let mut i: usize = 0;
        while i < self.ks.key.len()
            invariant
                0 <= i <= self.ks.key@.len(),
                forall|k: int| 0 <= k < i ==> (#[trigger] self.ks.key@[k]).key_id != id,
            decreases self.ks.key@.len() - i,
        {
            if self.ks.key[i].key_id == id {
                return true;
            }
            i += 1;
        }
        false
    }

    /// Apply `op` to every key with id `id`.
    fn change_status(&mut self, id: u32, op: StatusChange) -> (r: Result<(), TinkError>)
        ensures
            r is Ok <==> has_key(old(self)@.key@, id) && forall|i: int|
                0 <= i < old(self)@.key@.len() && (#[trigger] old(self)@.key@[i]).key_id == id ==> change_allowed(old(self)@.key@[i].status, op),
            r is Err ==> final(self)@ == old(self)@,
            r is Err && !has_key(old(self)@.key@, id) ==> r->Err_0.kind == ErrorKind::NotFound,
            r is Ok ==> {
                &&& final(self)@.primary_key_id == old(self)@.primary_key_id
                &&& final(self)@.key@.len() == old(self)@.key@.len()
                &&& forall|i: int| 0 <= i < old(self)@.key@.len() ==> #[trigger] final(self)@.key@[i] == if old(self)@.key@[i].key_id == id {
                    changed(old(self)@.key@[i], op)
                } else {
                    old(self)@.key@[i]
                }
            },
    {
        let mut found = false;
        let mut i: usize = 0;
        while i < self.ks.key.len()
            invariant
                0 <= i <= self.ks.key@.len(),
                self.ks == old(self).ks,
                found <==> exists|k: int| 0 <= k < i && (#[trigger] self.ks.key@[k]).key_id == id,
                forall|k: int| 0 <= k < i && (#[trigger] self.ks.key@[k]).key_id == id ==> change_allowed(self.ks.key@[k].status, op),
            decreases self.ks.key@.len() - i,
        {
            let k = &self.ks.key[i];
            if k.key_id == id {
                let ok = match op {
                    StatusChange::Enable | StatusChange::Disable => k.status == KeyStatusType::Enabled || k.status == KeyStatusType::Disabled,
                    StatusChange::Destroy => k.status != KeyStatusType::UnknownStatus,
                };
                if !ok {
                    return Err(TinkError::new(ErrorKind::InvalidArgument, "keyset::Manager: status change not allowed"));
                }
                found = true;
            }
            i += 1;
        }
        if !found {
            return Err(TinkError::new(ErrorKind::NotFound, "keyset::Manager: no key with this id"));
        }
        let ghost orig = self.ks.key@;
        let n = self.ks.key.len();
        let mut rest: Vec<Key> = Vec::new();
        core::mem::swap(&mut rest, &mut self.ks.key);
        let mut j: usize = 0;
        while rest.len() > 0
            invariant
                self.ks.primary_key_id == old(self).ks.primary_key_id,
                orig == old(self).ks.key@,
                self.ks.key@.len() == j,
                j + rest@.len() == orig.len(),
                orig.len() == n,
                rest@ == orig.skip(j as int),
                forall|k: int| 0 <= k < j ==> #[trigger] self.ks.key@[k] == if orig[k].key_id == id {
                    changed(orig[k], op)
                } else {
                    orig[k]
                },
            decreases rest@.len(),
        {
            let mut k = rest.remove(0);
            assert(k == orig[j as int]);
            if k.key_id == id {
                match op {
                    StatusChange::Enable => {
                        k.status = KeyStatusType::Enabled;
                    },
                    StatusChange::Disable => {
                        k.status = KeyStatusType::Disabled;
                    },
                    StatusChange::Destroy => {
                        k.status = KeyStatusType::Destroyed;
                        k.key_data = None;
                    },
                }
            }
            self.ks.key.push(k);
            assert(rest@ =~= orig.skip(j as int + 1));
            j += 1;
        }
        Ok(())
    }

    /// Enable the key with id `id`; it must be enabled or disabled.
    pub fn enable(&mut self, id: u32) -> (r: Result<(), TinkError>)
        ensures
            r is Ok <==> has_key(old(self)@.key@, id) && forall|i: int|
                0 <= i < old(self)@.key@.len() && (#[trigger] old(self)@.key@[i]).key_id == id
                    ==> change_allowed(old(self)@.key@[i].status, StatusChange::Enable),
            r is Err ==> final(self)@ == old(self)@,
            r is Ok ==> final(self)@.primary_key_id == old(self)@.primary_key_id
                && final(self)@.key@.len() == old(self)@.key@.len()
                && forall|i: int| 0 <= i < old(self)@.key@.len() ==> #[trigger] final(self)@.key@[i] == if old(self)@.key@[i].key_id == id {
                    changed(old(self)@.key@[i], StatusChange::Enable)
                } else {
                    old(self)@.key@[i]
                },
            r is Ok && valid_keyset(old(self)@) ==> valid_keyset(final(self)@),
    {
        let r = self.change_status(id, StatusChange::Enable);
        proof {
            if r is Ok && valid_keyset(old(self)@) {
                self.lemma_change_keeps_valid(old(self)@, id, StatusChange::Enable);
            }
        }
        r
    }

    /// Disable the key with id `id`; the primary cannot be disabled.
    pub fn disable(&mut self, id: u32) -> (r: Result<(), TinkError>)
        ensures
            r is Ok <==> id != old(self)@.primary_key_id && has_key(old(self)@.key@, id) && forall|i: int|
                0 <= i < old(self)@.key@.len() && (#[trigger] old(self)@.key@[i]).key_id == id
                    ==> change_allowed(old(self)@.key@[i].status, StatusChange::Disable),
            r is Err ==> final(self)@ == old(self)@,
            r is Ok ==> final(self)@.primary_key_id == old(self)@.primary_key_id
                && final(self)@.key@.len() == old(self)@.key@.len()
                && forall|i: int| 0 <= i < old(self)@.key@.len() ==> #[trigger] final(self)@.key@[i] == if old(self)@.key@[i].key_id == id {
                    changed(old(self)@.key@[i], StatusChange::Disable)
                } else {
                    old(self)@.key@[i]
                },
            r is Ok && valid_keyset(old(self)@) ==> valid_keyset(final(self)@),
    {
        if id == self.ks.primary_key_id {
            return Err(TinkError::new(ErrorKind::InvalidArgument, "keyset::Manager: cannot disable the primary key"));
        }
        let r = self.change_status(id, StatusChange::Disable);
        proof {
            if r is Ok && valid_keyset(old(self)@) {
                self.lemma_change_keeps_valid(old(self)@, id, StatusChange::Disable);
            }
        }
        r
    }

    /// Destroy the key material of the key with id `id`; the primary cannot
    /// be destroyed.
    pub fn destroy(&mut self, id: u32) -> (r: Result<(), TinkError>)
        ensures
            r is Ok <==> id != old(self)@.primary_key_id && has_key(old(self)@.key@, id) && forall|i: int|
                0 <= i < old(self)@.key@.len() && (#[trigger] old(self)@.key@[i]).key_id == id
                    ==> change_allowed(old(self)@.key@[i].status, StatusChange::Destroy),
            r is Err ==> final(self)@ == old(self)@,
            r is Ok ==> final(self)@.primary_key_id == old(self)@.primary_key_id
                && final(self)@.key@.len() == old(self)@.key@.len()
                && forall|i: int| 0 <= i < old(self)@.key@.len() ==> #[trigger] final(self)@.key@[i] == if old(self)@.key@[i].key_id == id {
                    changed(old(self)@.key@[i], StatusChange::Destroy)
                } else {
                    old(self)@.key@[i]
                },
            r is Ok && valid_keyset(old(self)@) ==> valid_keyset(final(self)@),
    {
        if id == self.ks.primary_key_id {
            return Err(TinkError::new(ErrorKind::InvalidArgument, "keyset::Manager: cannot destroy the primary key"));
        }
        let r = self.change_status(id, StatusChange::Destroy);
        proof {
            if r is Ok && valid_keyset(old(self)@) {
                self.lemma_change_keeps_valid(old(self)@, id, StatusChange::Destroy);
            }
        }
        r
    }

    proof fn lemma_change_keeps_valid(&self, before: Keyset, id: u32, op: StatusChange)
        requires
            valid_keyset(before),
            op != StatusChange::Enable ==> id != before.primary_key_id,
            self@.primary_key_id == before.primary_key_id,
            self@.key@.len() == before.key@.len(),
            forall|i: int| 0 <= i < before.key@.len() ==> #[trigger] self@.key@[i] == if before.key@[i].key_id == id {
                changed(before.key@[i], op)
            } else {
                before.key@[i]
            },
        ensures
            valid_keyset(self@),
    {
        let keys = self@.key@;
        assert forall|k: int| 0 <= k < keys.len() implies {
            &&& (#[trigger] keys[k]).key_id != 0
            &&& keys[k].status != KeyStatusType::UnknownStatus
            &&& keys[k].output_prefix_type != OutputPrefixType::UnknownPrefix
        } by {
            assert(keys[k] == self@.key@[k]);
            assert(before.key@[k].key_id != 0);
        }
        assert forall|a: int, b: int| 0 <= a < keys.len() && 0 <= b < keys.len() && a != b implies #[trigger] keys[a].key_id != #[trigger] keys[b].key_id by {
            assert(self@.key@[a].key_id == before.key@[a].key_id);
            assert(self@.key@[b].key_id == before.key@[b].key_id);
        }
        let w = choose|w: int| 0 <= w < before.key@.len() && (#[trigger] before.key@[w]).key_id == before.primary_key_id
            && before.key@[w].status == KeyStatusType::Enabled;
        assert(self@.key@[w].key_id == self@.primary_key_id);
        assert(self@.key@[w].status == KeyStatusType::Enabled);
    }

    /// Remove every key with id `id`; the primary cannot be removed.
    pub fn delete(&mut self, id: u32) -> (r: Result<(), TinkError>)
        ensures
            r is Ok <==> id != old(self)@.primary_key_id && has_key(old(self)@.key@, id),
            r is Err ==> final(self)@ == old(self)@,
            r is Err && id != old(self)@.primary_key_id ==> r->Err_0.kind == ErrorKind::NotFound,
            r is Ok ==> final(self)@.primary_key_id == old(self)@.primary_key_id
                && final(self)@.key@ == without(old(self)@.key@, id),
            r is Ok && valid_keyset(old(self)@) ==> valid_keyset(final(self)@),
    {
        if id == self.ks.primary_key_id {
            return Err(TinkError::new(ErrorKind::InvalidArgument, "keyset::Manager: cannot delete the primary key"));
        }
        if !self.contains_id(id) {
            return Err(TinkError::new(ErrorKind::NotFound, "keyset::Manager: no key with this id"));
        }
        let ghost orig = self.ks.key@;
        let n = self.ks.key.len();
        let mut rest: Vec<Key> = Vec::new();
        core::mem::swap(&mut rest, &mut self.ks.key);
        let mut j: usize = 0;
        while rest.len() > 0
            invariant
                self.ks.primary_key_id == old(self).ks.primary_key_id,
                orig == old(self).ks.key@,
                j + rest@.len() == orig.len(),
                orig.len() == n,
                rest@ == orig.skip(j as int),
                self.ks.key@ == without(orig.take(j as int), id),
            decreases rest@.len(),
        {
            let k = rest.remove(0);
            assert(k == orig[j as int]);
            let ghost t = orig.take(j as int + 1);
            assert(t.drop_last() =~= orig.take(j as int));
            assert(t.last() == k);
            if k.key_id != id {
                self.ks.key.push(k);
            }
            assert(rest@ =~= orig.skip(j as int + 1));
            j += 1;
        }
        assert(orig.take(orig.len() as int) =~= orig);
        proof {
            if valid_keyset(old(self)@) {
                lemma_without_unique(orig, id);
                lemma_without_members(orig, id);
                let w = without(orig, id);
                assert forall|k: int| 0 <= k < w.len() implies {
                    &&& (#[trigger] w[k]).key_id != 0
                    &&& w[k].status != KeyStatusType::UnknownStatus
                    &&& w[k].output_prefix_type != OutputPrefixType::UnknownPrefix
                } by {
                    let i = choose|i: int| 0 <= i < orig.len() && orig[i] == #[trigger] w[k] && orig[i].key_id != id;
                    assert(orig[i] == old(self).ks.key@[i]);
                }
                let p = choose|p: int| 0 <= p < orig.len() && (#[trigger] orig[p]).key_id == old(self).ks.primary_key_id
                    && orig[p].status == KeyStatusType::Enabled;
                assert(w.contains(orig[p]));
                let q = choose|q: int| 0 <= q < w.len() && w[q] == orig[p];
                assert(w[q].key_id == self.ks.primary_key_id);
            }
        }
        Ok(())
    }

    /// Make the key with id `id` the primary; it must be enabled.
    pub fn set_primary(&mut self, id: u32) -> (r: Result<(), TinkError>)
        ensures
            r is Ok <==> exists|i: int| 0 <= i < old(self)@.key@.len() && (#[trigger] old(self)@.key@[i]).key_id == id
                && old(self)@.key@[i].status == KeyStatusType::Enabled,
            r is Err ==> final(self)@ == old(self)@,
            r is Ok ==> final(self)@.primary_key_id == id && final(self)@.key@ == old(self)@.key@,
            r is Ok && keys_well_formed(old(self)@.key@) && ids_unique(old(self)@.key@) ==> valid_keyset(final(self)@),
    {
        let mut i: usize = 0;
        while i < self.ks.key.len()
            invariant
                0 <= i <= self.ks.key@.len(),
                self.ks == old(self).ks,
                forall|k: int| 0 <= k < i ==> !((#[trigger] self.ks.key@[k]).key_id == id && self.ks.key@[k].status == KeyStatusType::Enabled),
            decreases self.ks.key@.len() - i,
        {
            if self.ks.key[i].key_id == id && self.ks.key[i].status == KeyStatusType::Enabled {
                self.ks.primary_key_id = id;
                proof {
                    assert(self.ks.key@[i as int].key_id == self.ks.primary_key_id);
                }
                return Ok(());
            }
            i += 1;
        }
        Err(TinkError::new(ErrorKind::InvalidArgument, "keyset::Manager: primary must be an enabled key"))
    }

    /// A handle over the keyset, which must be valid.
    pub fn handle(self) -> (r: Result<Handle, TinkError>)
        ensures
            r is Ok <==> valid_keyset(self@),
            r is Ok ==> r->Ok_0@ == self@,
    {
        match validate(&self.ks) {
            Ok(()) => Ok(Handle::from_valid_keyset(self.ks)),
            Err(e) => Err(e),
        }
    }
}

} // verus!
