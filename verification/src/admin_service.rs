//! The admins of a server: the bindings of its `admins` domain.

use vstd::prelude::*;
use crate::errors::CulperError;
use crate::store::{first_conflict, KeyMaterial, KeyStore, StoreModel};

verus! {

/// The name of the domain that holds the admins.
pub open spec fn admin_domain() -> Seq<char> {
    "admins"@
}

/// A key store seen as the registry of a server's admins.
pub struct AdminService {
    store: KeyStore,
}

impl View for AdminService {
    type V = StoreModel;

    closed spec fn view(&self) -> StoreModel {
        self.store@
    }
}

impl AdminService {
    /// The invariant of the underlying store; see [`StoreModel::wf`].
    pub open spec fn wf(&self) -> bool {
        self@.wf()
    }

    /// The registry over `store`.
    pub fn new(store: KeyStore) -> (service: AdminService)
        requires
            store.wf(),
        ensures
            service.wf(),
            service@ == store@,
    {
        AdminService { store }
    }

    /// Imports an admin's key under `label`; see [`KeyStore::import`].
    pub fn import(&mut self, label: &str, material: &KeyMaterial, now: i64) -> (res: Result<
        (),
        CulperError,
    >)
        requires
            old(self).wf(),
        ensures
            final(self).wf(),
            match first_conflict(old(self)@.index, material.key_ids@) {
                Some(key_id) => {
                    &&& old(self)@.owner(key_id) matches Some(owner)
                    &&& res == Err::<(), CulperError>(CulperError::StoreConflict { key_id, owner })
                    &&& final(self)@ == old(self)@
                },
                None => if old(self)@.next_id == u64::MAX {
                    res == Err::<(), CulperError>(CulperError::StoreFull) && final(self)@ == old(
                        self,
                    )@
                } else {
                    res == Ok::<(), CulperError>(()) && final(self)@ == old(self)@.imported(
                        admin_domain(),
                        label@,
                        material.fingerprint@,
                        material.bytes@,
                        material.key_ids@,
                        now,
                    )
                },
            },
    {
        match self.store.import("admins", label, material, now) {
            Ok(_) => Ok(()),
            Err(e) => Err(e),
        }
    }

    /// Records in the index that `binding_id` owns `key_id`; see
    /// [`KeyStore::index_key_id`]. The same pair a second time is accepted
    /// and changes nothing; another owner for the key identifier is a
    /// conflict.
    pub fn index_key_id(&mut self, key_id: u64, binding_id: u64) -> (res: Result<(), CulperError>)
        requires
            old(self).wf(),
        ensures
            final(self).wf(),
            match old(self)@.indexing(key_id, binding_id) {
                Ok(after) => res == Ok::<(), CulperError>(()) && final(self)@ == after,
                Err(e) => res == Err::<(), CulperError>(e) && final(self)@ == old(self)@,
            },
    {
        self.store.index_key_id(key_id, binding_id)
    }

    /// The store, to look admins up in.
    pub fn store(&self) -> (store: &KeyStore)
        ensures
            store@ == self@,
            self.wf() ==> store.wf(),
    {
        &self.store
    }

    /// Gives the store back.
    pub fn into_store(self) -> (store: KeyStore)
        ensures
            store@ == self@,
            self.wf() ==> store.wf(),
    {
        self.store
    }
}

} // verus!
