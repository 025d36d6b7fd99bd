//! The key store: labelled bindings of recipient keys, kept apart by
//! domain, with an index from key identifiers to the bindings that own
//! them.
//!
//! The store holds public material only. Every operation either takes
//! effect as a whole or leaves the store as it was, so no index entry is
//! ever left without its binding.

use vstd::prelude::*;
use vstd::slice::slice_to_vec;
use crate::commands::decrypt::{allows_encryption, can_encrypt, Certificate, CertificateModel, KeyBinding};
use crate::errors::CulperError;
use crate::text::same_text;

verus! {

/// One row of the index: the binding that owns a key identifier.
#[derive(Debug, Clone, Copy, PartialEq, Eq, Structural)]
pub struct IndexEntry {
    pub key_id: u64,
    pub binding_id: u64,
}

/// What the store reads of a recipient's public key: its fingerprint, its
/// bytes, and the identifiers of the primary key and of every subkey that
/// can be encrypted to.
#[derive(Debug, Clone, PartialEq, Eq)]
pub struct KeyMaterial {
    pub fingerprint: String,
    pub bytes: Vec<u8>,
    pub key_ids: Vec<u64>,
}

/// The identifiers of the subkeys that can be encrypted to, in their
/// order.
pub open spec fn encryption_subkeys(subkeys: Seq<KeyBinding>) -> Seq<u64>
    decreases subkeys.len(),
{
    if subkeys.len() == 0 {
        Seq::empty()
    } else if can_encrypt(subkeys.last().flags) {
        encryption_subkeys(subkeys.drop_last()).push(subkeys.last().key.key_id)
    } else {
        encryption_subkeys(subkeys.drop_last())
    }
}

/// The key identifiers under which a certificate is found in the index:
/// that of the primary key, and those of the subkeys that can be
/// encrypted to.
pub open spec fn indexed_ids(cert: CertificateModel) -> Seq<u64> {
    seq![cert.primary.key.key_id] + encryption_subkeys(cert.subkeys)
}

impl KeyMaterial {
    /// What the store keeps of a certificate with the given bytes.
    pub fn from_certificate(cert: &Certificate, bytes: Vec<u8>) -> (material: KeyMaterial)
        ensures
            material.fingerprint@ == cert@.fingerprint,
            material.bytes@ == bytes@,
            material.key_ids@ == indexed_ids(cert@),
    {
        let mut key_ids: Vec<u64> = Vec::new();
        key_ids.push(cert.primary.key.key_id);
        let mut i: usize = 0;
        proof {
            assert(cert@.subkeys.take(0) =~= Seq::empty());
        }
        while i < cert.subkeys.len()
            invariant
                i <= cert.subkeys.len(),
                key_ids@ == seq![cert@.primary.key.key_id] + encryption_subkeys(
                    cert@.subkeys.take(i as int),
                ),
            decreases cert.subkeys.len() - i,
        {
            proof {
                assert(cert@.subkeys.take(i + 1).drop_last() == cert@.subkeys.take(i as int));
                assert(cert@.subkeys.take(i + 1).last() == cert.subkeys[i as int]);
            }
            if allows_encryption(&cert.subkeys[i].flags) {
                key_ids.push(cert.subkeys[i].key.key_id);
            }
            proof {
                assert(key_ids@ =~= seq![cert@.primary.key.key_id] + encryption_subkeys(
                    cert@.subkeys.take(i + 1),
                ));
            }
            i += 1;
        }
        proof {
            assert(cert@.subkeys.take(cert@.subkeys.len() as int) == cert@.subkeys);
        }
        KeyMaterial { fingerprint: cert.fingerprint.clone(), bytes, key_ids }
    }
}

/// A label bound to a recipient's public key inside one domain.
#[derive(Debug, Clone, PartialEq, Eq)]
pub struct Binding {
    pub id: u64,
    pub store_domain: String,
    pub label: String,
    pub fingerprint: String,
    pub public_key_material: Vec<u8>,
    pub created_at: i64,
    pub updated_at: i64,
}

/// A binding as plain mathematical values.
pub struct BindingModel {
    pub id: u64,
    pub store_domain: Seq<char>,
    pub label: Seq<char>,
    pub fingerprint: Seq<char>,
    pub public_key_material: Seq<u8>,
    pub created_at: i64,
    pub updated_at: i64,
}

impl View for Binding {
    type V = BindingModel;

    open spec fn view(&self) -> BindingModel {
        BindingModel {
            id: self.id,
            store_domain: self.store_domain@,
            label: self.label@,
            fingerprint: self.fingerprint@,
            public_key_material: self.public_key_material@,
            created_at: self.created_at,
            updated_at: self.updated_at,
        }
    }
}

impl Binding {
    /// A copy of the binding.
    pub fn duplicate(&self) -> (copy: Binding)
        ensures
            copy@ == self@,
    {
        Binding {
            id: self.id,
            store_domain: self.store_domain.clone(),
            label: self.label.clone(),
            fingerprint: self.fingerprint.clone(),
            public_key_material: slice_to_vec(self.public_key_material.as_slice()),
            created_at: self.created_at,
            updated_at: self.updated_at,
        }
    }
}

/// The models of a sequence of bindings.
pub open spec fn models(bindings: Seq<Binding>) -> Seq<BindingModel> {
    Seq::new(bindings.len(), |i: int| bindings[i]@)
}

/// Whether one of `bindings` has the identifier `id`.
pub open spec fn has_id(bindings: Seq<BindingModel>, id: u64) -> bool {
    exists|i: int| 0 <= i < bindings.len() && (#[trigger] bindings[i]).id == id
}

/// Whether one of the entries is for `key_id`.
pub open spec fn has_key(index: Seq<IndexEntry>, key_id: u64) -> bool {
    exists|i: int| 0 <= i < index.len() && (#[trigger] index[i]).key_id == key_id
}

/// Whether a binding is the one, or one of those, that an operation on
/// `domain` names: by its label, or, without a label, by its domain alone.
pub open spec fn selected(b: BindingModel, domain: Seq<char>, label: Option<Seq<char>>) -> bool {
    b.store_domain == domain && (label matches Some(l) ==> b.label == l)
}

/// The bindings of one domain, in the order in which they were imported.
pub open spec fn in_domain(bindings: Seq<BindingModel>, domain: Seq<char>) -> Seq<BindingModel> {
    bindings.filter(|b: BindingModel| selected(b, domain, None))
}

/// The bindings that stay when the selected ones are deleted.
pub open spec fn kept(bindings: Seq<BindingModel>, domain: Seq<char>, label: Option<Seq<char>>) -> Seq<
    BindingModel,
> {
    bindings.filter(|b: BindingModel| !selected(b, domain, label))
}

/// The index entries whose binding is among `bindings`.
pub open spec fn pruned(index: Seq<IndexEntry>, bindings: Seq<BindingModel>) -> Seq<IndexEntry> {
    index.filter(|e: IndexEntry| has_id(bindings, e.binding_id))
}

/// The first of `key_ids` that the index already holds.
pub open spec fn first_conflict(index: Seq<IndexEntry>, key_ids: Seq<u64>) -> Option<u64>
    decreases key_ids.len(),
{
    if key_ids.len() == 0 {
        None
    } else if has_key(index, key_ids[0]) {
        Some(key_ids[0])
    } else {
        first_conflict(index, key_ids.skip(1))
    }
}

/// The index with one more entry, owned by `id`, for every one of
/// `key_ids` that it did not hold yet.
pub open spec fn fanned_out(index: Seq<IndexEntry>, key_ids: Seq<u64>, id: u64) -> Seq<IndexEntry>
    decreases key_ids.len(),
{
    if key_ids.len() == 0 {
        index
    } else {
        let before = fanned_out(index, key_ids.drop_last(), id);
        if has_key(before, key_ids.last()) {
            before
        } else {
            before.push(IndexEntry { key_id: key_ids.last(), binding_id: id })
        }
    }
}

/// The store as plain mathematical values: the known domains, the
/// bindings in the order of their import, the index, and the identifier
/// that the next binding gets.
pub struct StoreModel {
    pub domains: Seq<Seq<char>>,
    pub bindings: Seq<BindingModel>,
    pub index: Seq<IndexEntry>,
    pub next_id: u64,
}

impl StoreModel {
    /// Binding identifiers are unique and were handed out in the past;
    /// every binding lives in a known domain; a key identifier has at most
    /// one entry, and every entry points at a binding that exists.
    pub open spec fn wf(self) -> bool {
        &&& forall|i: int| 0 <= i < self.bindings.len() ==> (#[trigger] self.bindings[i]).id < self.next_id
        &&& forall|i: int, j: int|
            0 <= i < j < self.bindings.len() ==> (#[trigger] self.bindings[i]).id != (
            #[trigger] self.bindings[j]).id
        &&& forall|i: int|
            0 <= i < self.bindings.len() ==> self.domains.contains(
                (#[trigger] self.bindings[i]).store_domain,
            )
        &&& forall|i: int, j: int|
            0 <= i < j < self.index.len() ==> (#[trigger] self.index[i]).key_id != (
            #[trigger] self.index[j]).key_id
        &&& forall|i: int|
            0 <= i < self.index.len() ==> has_id(self.bindings, (#[trigger] self.index[i]).binding_id)
    }

    /// The binding that owns `key_id`.
    pub open spec fn owner(self, key_id: u64) -> Option<u64> {
        if has_key(self.index, key_id) {
            Some(
                self.index[choose|i: int|
                    0 <= i < self.index.len() && (#[trigger] self.index[i]).key_id == key_id].binding_id,
            )
        } else {
            None
        }
    }

    /// The binding with the identifier `id`.
    pub open spec fn binding(self, id: u64) -> BindingModel {
        self.bindings[choose|i: int| 0 <= i < self.bindings.len() && (#[trigger] self.bindings[i]).id == id]
    }

    /// The binding of `domain` that owns `key_id`.
    pub open spec fn by_key_id(self, domain: Seq<char>, key_id: u64) -> Option<BindingModel> {
        match self.owner(key_id) {
            Some(id) => if has_id(self.bindings, id) && self.binding(id).store_domain == domain {
                Some(self.binding(id))
            } else {
                None
            },
            None => None,
        }
    }

    /// The oldest binding stored under `label` in `domain`.
    pub open spec fn by_label(self, domain: Seq<char>, label: Seq<char>) -> Option<BindingModel> {
        let found = self.bindings.filter(|b: BindingModel| selected(b, domain, Some(label)));
        if found.len() > 0 {
            Some(found[0])
        } else {
            None
        }
    }

    /// The store after an import that meets no conflict.
    pub open spec fn imported(
        self,
        domain: Seq<char>,
        label: Seq<char>,
        fingerprint: Seq<char>,
        bytes: Seq<u8>,
        key_ids: Seq<u64>,
        now: i64,
    ) -> StoreModel {
        StoreModel {
            domains: if self.domains.contains(domain) {
                self.domains
            } else {
                self.domains.push(domain)
            },
            bindings: self.bindings.push(
                BindingModel {
                    id: self.next_id,
                    store_domain: domain,
                    label,
                    fingerprint,
                    public_key_material: bytes,
                    created_at: now,
                    updated_at: now,
                },
            ),
            index: fanned_out(self.index, key_ids, self.next_id),
            next_id: (self.next_id + 1) as u64,
        }
    }

    /// What recording `key_id` for `binding_id` in the index gives: the
    /// store afterwards, or the reason why the entry is refused.
    pub open spec fn indexing(self, key_id: u64, binding_id: u64) -> Result<StoreModel, CulperError> {
        match self.owner(key_id) {
            Some(owner) => if owner == binding_id {
                Ok(self)
            } else {
                Err(CulperError::StoreConflict { key_id, owner })
            },
            None => if has_id(self.bindings, binding_id) {
                Ok(
                    StoreModel {
                        index: self.index.push(IndexEntry { key_id, binding_id }),
                        ..self
                    },
                )
            } else {
                Err(CulperError::NotFound)
            },
        }
    }

    /// The store without the selected bindings and their index entries.
    pub open spec fn without(self, domain: Seq<char>, label: Option<Seq<char>>) -> StoreModel {
        StoreModel {
            domains: if label is None {
                self.domains.filter(|d: Seq<char>| d != domain)
            } else {
                self.domains
            },
            bindings: kept(self.bindings, domain, label),
            index: pruned(self.index, kept(self.bindings, domain, label)),
            next_id: self.next_id,
        }
    }

    /// Whether a binding of the store is selected.
    pub open spec fn selects(self, domain: Seq<char>, label: Option<Seq<char>>) -> bool {
        exists|i: int|
            0 <= i < self.bindings.len() && selected(#[trigger] self.bindings[i], domain, label)
    }
}

/// In a well-formed store the entry for a key identifier is its owner.
pub proof fn lemma_owner_is_entry(m: StoreModel, i: int)
    requires
        m.wf(),
        0 <= i < m.index.len(),
    ensures
        m.owner(m.index[i].key_id) == Some(m.index[i].binding_id),
{
    let key_id = m.index[i].key_id;
    assert(has_key(m.index, key_id));
    let j = choose|j: int| 0 <= j < m.index.len() && (#[trigger] m.index[j]).key_id == key_id;
    if i < j {
        assert(m.index[i].key_id != m.index[j].key_id);
    } else if j < i {
        assert(m.index[j].key_id != m.index[i].key_id);
    }
}

/// In a well-formed store the binding with an identifier is the only one
/// that has it.
pub proof fn lemma_binding_is_unique(m: StoreModel, i: int)
    requires
        m.wf(),
        0 <= i < m.bindings.len(),
    ensures
        has_id(m.bindings, m.bindings[i].id),
        m.binding(m.bindings[i].id) == m.bindings[i],
{
    let id = m.bindings[i].id;
    let j = choose|j: int| 0 <= j < m.bindings.len() && (#[trigger] m.bindings[j]).id == id;
    if i < j {
        assert(m.bindings[i].id != m.bindings[j].id);
    } else if j < i {
        assert(m.bindings[j].id != m.bindings[i].id);
    }
}

/// Fanning out adds entries behind those that are there, all owned by
/// `id` and all for one of `key_ids`; it keeps key identifiers unique and
/// leaves none of `key_ids` without an entry.
pub proof fn lemma_fanned_out(index: Seq<IndexEntry>, key_ids: Seq<u64>, id: u64)
    requires
        forall|a: int, b: int|
            0 <= a < b < index.len() ==> (#[trigger] index[a]).key_id != (#[trigger] index[b]).key_id,
    ensures
        ({
            let out = fanned_out(index, key_ids, id);
            &&& index.len() <= out.len()
            &&& forall|a: int| 0 <= a < index.len() ==> #[trigger] out[a] == index[a]
            &&& forall|a: int, b: int|
                0 <= a < b < out.len() ==> (#[trigger] out[a]).key_id != (#[trigger] out[b]).key_id
            &&& forall|a: int|
                index.len() <= a < out.len() ==> (#[trigger] out[a]).binding_id == id
                    && key_ids.contains(out[a].key_id)
            &&& forall|j: int| 0 <= j < key_ids.len() ==> has_key(out, #[trigger] key_ids[j])
        }),
    decreases key_ids.len(),
{
    if key_ids.len() > 0 {
        let front = key_ids.drop_last();
        let last = key_ids.last();
        let before = fanned_out(index, front, id);
        let out = fanned_out(index, key_ids, id);
        lemma_fanned_out(index, front, id);
        assert(key_ids[key_ids.len() - 1] == last);
        assert forall|a: int| index.len() <= a < out.len() implies (#[trigger] out[a]).binding_id
            == id && key_ids.contains(out[a].key_id) by {
            if a < before.len() {
                assert(front.contains(before[a].key_id));
                let j = choose|j: int| 0 <= j < front.len() && front[j] == before[a].key_id;
                assert(key_ids[j] == before[a].key_id);
            }
        }
        assert forall|a: int, b: int| 0 <= a < b < out.len() implies (#[trigger] out[a]).key_id != (
        #[trigger] out[b]).key_id by {
            if b < before.len() {
                assert(before[a].key_id != before[b].key_id);
            } else {
                assert(before[a].key_id != last);
            }
        }
        assert forall|j: int| 0 <= j < key_ids.len() implies has_key(out, #[trigger] key_ids[j]) by {
            if j < front.len() {
                assert(has_key(before, front[j]));
                let a = choose|a: int| 0 <= a < before.len() && (#[trigger] before[a]).key_id == front[j];
                assert(out[a].key_id == key_ids[j]);
            } else if has_key(before, last) {
                let a = choose|a: int| 0 <= a < before.len() && (#[trigger] before[a]).key_id == last;
                assert(out[a].key_id == key_ids[j]);
            } else {
                assert(out[before.len() as int].key_id == key_ids[j]);
            }
        }
    }
}

/// Where no key identifier conflicts, the index holds none of them.
pub proof fn lemma_no_conflict(index: Seq<IndexEntry>, key_ids: Seq<u64>)
    requires
        first_conflict(index, key_ids) is None,
    ensures
        forall|j: int| 0 <= j < key_ids.len() ==> !has_key(index, #[trigger] key_ids[j]),
    decreases key_ids.len(),
{
    if key_ids.len() > 0 {
        let rest = key_ids.skip(1);
        lemma_no_conflict(index, rest);
        assert forall|j: int| 0 <= j < key_ids.len() implies !has_key(index, #[trigger] key_ids[j]) by {
            if j > 0 {
                assert(rest[j - 1] == key_ids[j]);
            }
        }
    }
}

/// An import that meets no conflict leaves a well-formed store in which
/// the new binding is found by each of its key identifiers, in its
/// domain.
pub proof fn lemma_imported_is_found(
    m: StoreModel,
    domain: Seq<char>,
    label: Seq<char>,
    fingerprint: Seq<char>,
    bytes: Seq<u8>,
    key_ids: Seq<u64>,
    now: i64,
)
    requires
        m.wf(),
        first_conflict(m.index, key_ids) is None,
        m.next_id < u64::MAX,
    ensures
        ({
            let after = m.imported(domain, label, fingerprint, bytes, key_ids, now);
            let added = after.bindings.last();
            &&& after.wf()
            &&& added.id == m.next_id && added.store_domain == domain && added.label == label
            &&& forall|j: int|
                0 <= j < key_ids.len() ==> after.by_key_id(domain, #[trigger] key_ids[j]) == Some(
                    added,
                )
        }),
{
    let after = m.imported(domain, label, fingerprint, bytes, key_ids, now);
    let added = after.bindings.last();
    let n = m.bindings.len() as int;
    lemma_fanned_out(m.index, key_ids, m.next_id);
    lemma_no_conflict(m.index, key_ids);
    assert(after.bindings[n] == added);
    assert(has_id(after.bindings, m.next_id));
    assert forall|i: int| 0 <= i < after.index.len() implies has_id(
        after.bindings,
        (#[trigger] after.index[i]).binding_id,
    ) by {
        if i < m.index.len() {
            assert(has_id(m.bindings, m.index[i].binding_id));
            let p = choose|p: int|
                0 <= p < m.bindings.len() && (#[trigger] m.bindings[p]).id == m.index[i].binding_id;
            assert(after.bindings[p] == m.bindings[p]);
        }
    }
    assert(after.domains.contains(domain)) by {
        if !m.domains.contains(domain) {
            assert(after.domains[m.domains.len() as int] == domain);
        }
    }
    assert forall|i: int| 0 <= i < after.bindings.len() implies after.domains.contains(
        (#[trigger] after.bindings[i]).store_domain,
    ) by {
        if i < n {
            assert(m.domains.contains(m.bindings[i].store_domain));
            let d = choose|d: int| 0 <= d < m.domains.len() && m.domains[d] == m.bindings[i].store_domain;
            assert(after.domains[d] == m.domains[d]);
        }
    }
    assert forall|i: int, j: int| 0 <= i < j < after.bindings.len() implies (
    #[trigger] after.bindings[i]).id != (#[trigger] after.bindings[j]).id by {
        if j < n {
            assert(m.bindings[i].id != m.bindings[j].id);
        } else {
            assert(m.bindings[i].id < m.next_id);
        }
    }
    assert(after.wf());
    lemma_binding_is_unique(after, n);
    assert forall|j: int| 0 <= j < key_ids.len() implies after.by_key_id(
        domain,
        #[trigger] key_ids[j],
    ) == Some(added) by {
        let k = key_ids[j];
        assert(has_key(after.index, k));
        let a = choose|a: int| 0 <= a < after.index.len() && (#[trigger] after.index[a]).key_id == k;
        if a < m.index.len() {
            assert(m.index[a].key_id == k);
            assert(has_key(m.index, k));
        }
        lemma_owner_is_entry(after, a);
    }
}

/// Recording the same owner for a key identifier a second time changes
/// nothing: the index keeps exactly one entry for it, and no error is
/// raised. Recording another owner for it is refused as a conflict that
/// names the first owner.
pub proof fn lemma_indexing_twice(m: StoreModel, key_id: u64, binding_id: u64, other: u64)
    requires
        m.wf(),
        m.indexing(key_id, binding_id) is Ok,
        other != binding_id,
    ensures
        ({
            let once = m.indexing(key_id, binding_id)->Ok_0;
            &&& once.wf()
            &&& once.indexing(key_id, binding_id) == Ok::<StoreModel, CulperError>(once)
            &&& once.index.filter(|e: IndexEntry| e.key_id == key_id).len() == 1
            &&& once.indexing(key_id, other) == Err::<StoreModel, CulperError>(
                CulperError::StoreConflict { key_id, owner: binding_id },
            )
        }),
{
    let once = m.indexing(key_id, binding_id)->Ok_0;
    if m.owner(key_id) is None {
        let n = m.index.len() as int;
        assert(once.index[n].key_id == key_id);
        assert forall|i: int, j: int| 0 <= i < j < once.index.len() implies (
        #[trigger] once.index[i]).key_id != (#[trigger] once.index[j]).key_id by {
            if j == n {
                assert(m.index[i].key_id != key_id);
            } else {
                assert(m.index[i].key_id != m.index[j].key_id);
            }
        }
        assert forall|i: int| 0 <= i < once.index.len() implies has_id(
            once.bindings,
            (#[trigger] once.index[i]).binding_id,
        ) by {
            if i < n {
                assert(has_id(m.bindings, m.index[i].binding_id));
            }
        }
        assert(once.wf());
        lemma_owner_is_entry(once, n);
    } else {
        assert(once == m);
    }
    let i = choose|i: int| 0 <= i < once.index.len() && (#[trigger] once.index[i]).key_id == key_id;
    lemma_owner_is_entry(once, i);
    lemma_one_entry(once.index, key_id, i);
}

/// An index of unique key identifiers holds one entry for each of them.
proof fn lemma_one_entry(index: Seq<IndexEntry>, key_id: u64, i: int)
    requires
        0 <= i < index.len(),
        index[i].key_id == key_id,
        forall|a: int, b: int|
            0 <= a < b < index.len() ==> (#[trigger] index[a]).key_id != (#[trigger] index[b]).key_id,
    ensures
        index.filter(|e: IndexEntry| e.key_id == key_id).len() == 1,
    decreases index.len(),
{
    reveal(Seq::filter);
    let pred = |e: IndexEntry| e.key_id == key_id;
    let n = index.len() - 1;
    let front = index.drop_last();
    if i == n {
        lemma_no_entry(front, key_id);
        assert forall|a: int| 0 <= a < front.len() implies (#[trigger] front[a]).key_id != key_id by {
            assert(index[a].key_id != index[n].key_id);
        }
    } else {
        assert(index[i].key_id != index[n].key_id);
        assert(front[i] == index[i]);
        assert forall|a: int, b: int| 0 <= a < b < front.len() implies (#[trigger] front[a]).key_id != (
        #[trigger] front[b]).key_id by {
            assert(index[a].key_id != index[b].key_id);
        }
        lemma_one_entry(front, key_id, i);
    }
}

/// An index without a key identifier holds no entry for it.
proof fn lemma_no_entry(index: Seq<IndexEntry>, key_id: u64)
    requires
        forall|a: int| 0 <= a < index.len() ==> (#[trigger] index[a]).key_id != key_id,
    ensures
        index.filter(|e: IndexEntry| e.key_id == key_id).len() == 0,
    decreases index.len(),
{
    reveal(Seq::filter);
    if index.len() > 0 {
        let front = index.drop_last();
        assert forall|a: int| 0 <= a < front.len() implies (#[trigger] front[a]).key_id != key_id by {
            assert(index[a].key_id != key_id);
        }
        lemma_no_entry(front, key_id);
        assert(index[index.len() - 1].key_id != key_id);
    }
}

/// Filtering one more element either appends it or changes nothing.
pub proof fn lemma_filter_step<A>(s: Seq<A>, i: int, pred: spec_fn(A) -> bool)
    requires
        0 <= i < s.len(),
    ensures
        s.take(i + 1).filter(pred) == if pred(s[i]) {
            s.take(i).filter(pred).push(s[i])
        } else {
            s.take(i).filter(pred)
        },
{
    reveal(Seq::filter);
    assert(s.take(i + 1).drop_last() == s.take(i));
}

/// Filtering nothing gives nothing.
pub proof fn lemma_filter_none<A>(s: Seq<A>, pred: spec_fn(A) -> bool)
    ensures
        s.take(0).filter(pred) == Seq::<A>::empty(),
{
    reveal(Seq::filter);
    assert(s.take(0).len() == 0);
}

/// The key store.
pub struct KeyStore {
    domains: Vec<String>,
    bindings: Vec<Binding>,
    index: Vec<IndexEntry>,
    next_id: u64,
}

impl View for KeyStore {
    type V = StoreModel;

    closed spec fn view(&self) -> StoreModel {
        StoreModel {
            domains: crate::text::texts(self.domains@),
            bindings: models(self.bindings@),
            index: self.index@,
            next_id: self.next_id,
        }
    }
}

impl KeyStore {
    /// The invariant of the store; see [`StoreModel::wf`].
    pub open spec fn wf(&self) -> bool {
        self@.wf()
    }

    /// An empty store. The first binding gets the identifier 1.
    pub fn new() -> (store: KeyStore)
        ensures
            store.wf(),
            store@ == (StoreModel {
                domains: Seq::empty(),
                bindings: Seq::empty(),
                index: Seq::empty(),
                next_id: 1,
            }),
    {
        let store = KeyStore {
            domains: Vec::new(),
            bindings: Vec::new(),
            index: Vec::new(),
            next_id: 1,
        };
        proof {
            assert(store@.domains =~= Seq::empty());
            assert(store@.bindings =~= Seq::empty());
        }
        store
    }

    /// The binding that owns `key_id`, by its identifier.
    pub fn owner_of(&self, key_id: u64) -> (owner: Option<u64>)
        requires
            self.wf(),
        ensures
            owner == self@.owner(key_id),
    {
        let mut i: usize = 0;
        while i < self.index.len()
            invariant
                self.wf(),
                i <= self.index.len(),
                forall|j: int| 0 <= j < i ==> (#[trigger] self.index@[j]).key_id != key_id,
            decreases self.index.len() - i,
        {
            if self.index[i].key_id == key_id {
                proof {
                    lemma_owner_is_entry(self@, i as int);
                }
                return Some(self.index[i].binding_id);
            }
            i += 1;
        }
        None
    }

    /// Where the binding with the identifier `id` is kept.
    fn position_of(&self, id: u64) -> (at: Option<usize>)
        requires
            self.wf(),
        ensures
            match at {
                Some(i) => i < self.bindings.len() && self.bindings[i as int].id == id && has_id(
                    self@.bindings,
                    id,
                ) && self@.binding(id) == self.bindings[i as int]@,
                None => !has_id(self@.bindings, id),
            },
    {
        let mut i: usize = 0;
        while i < self.bindings.len()
            invariant
                self.wf(),
                i <= self.bindings.len(),
                forall|j: int| 0 <= j < i ==> (#[trigger] self@.bindings[j]).id != id,
            decreases self.bindings.len() - i,
        {
            if self.bindings[i].id == id {
                proof {
                    assert(self@.bindings[i as int] == self.bindings[i as int]@);
                    lemma_binding_is_unique(self@, i as int);
                }
                return Some(i);
            }
            i += 1;
        }
        None
    }

    /// Whether bindings were ever imported into `domain`, and the domain
    /// was not deleted since.
    pub fn knows_domain(&self, domain: &str) -> (known: bool)
        ensures
            known == self@.domains.contains(domain@),
    {
        let mut i: usize = 0;
        while i < self.domains.len()
            invariant
                i <= self.domains.len(),
                forall|j: int| 0 <= j < i ==> (#[trigger] self@.domains[j]) != domain@,
            decreases self.domains.len() - i,
        {
            if same_text(self.domains[i].as_str(), domain) {
                proof {
                    assert(self@.domains[i as int] == domain@);
                }
                return true;
            }
            i += 1;
        }
        false
    }

    /// Imports a recipient's key under `label` into `domain`.
    ///
    /// A new binding is added even where the label is bound already, and
    /// the index gets an entry for every key identifier of the material.
    /// Where another binding owns one of them, the import is refused and
    /// the store stays as it was.
    pub fn import(&mut self, domain: &str, label: &str, material: &KeyMaterial, now: i64) -> (res:
        Result<u64, CulperError>)
        requires
            old(self).wf(),
        ensures
            final(self).wf(),
            match first_conflict(old(self)@.index, material.key_ids@) {
                Some(key_id) => {
                    &&& old(self)@.owner(key_id) matches Some(owner)
                    &&& res == Err::<u64, CulperError>(CulperError::StoreConflict { key_id, owner })
                    &&& final(self)@ == old(self)@
                },
                None => if old(self)@.next_id == u64::MAX {
                    res == Err::<u64, CulperError>(CulperError::StoreFull) && final(self)@ == old(
                        self,
                    )@
                } else {
                    res == Ok::<u64, CulperError>(old(self)@.next_id) && final(self)@ == old(
                        self,
                    )@.imported(
                        domain@,
                        label@,
                        material.fingerprint@,
                        material.bytes@,
                        material.key_ids@,
                        now,
                    )
                },
            },
    {
        let mut j: usize = 0;
        proof {
            assert(material.key_ids@.skip(0) == material.key_ids@);
        }
        while j < material.key_ids.len()
            invariant
                self.wf(),
                *self == *old(self),
                j <= material.key_ids.len(),
                first_conflict(self@.index, material.key_ids@) == first_conflict(
                    self@.index,
                    material.key_ids@.skip(j as int),
                ),
            decreases material.key_ids.len() - j,
        {
            let key_id = material.key_ids[j];
            proof {
                let rest = material.key_ids@.skip(j as int);
                assert(rest[0] == key_id);
                assert(rest.skip(1) == material.key_ids@.skip(j + 1));
                if has_key(self@.index, key_id) {
                    let i = choose|i: int|
                        0 <= i < self@.index.len() && (#[trigger] self@.index[i]).key_id == key_id;
                    lemma_owner_is_entry(self@, i);
                }
            }
            match self.owner_of(key_id) {
                Some(owner) => {
                    return Err(CulperError::StoreConflict { key_id, owner });
                },
                None => {},
            }
            j += 1;
        }
        if self.next_id == u64::MAX {
            return Err(CulperError::StoreFull);
        }
        let id = self.next_id;
        let known = self.knows_domain(domain);
        let ghost before = self@;
        if !known {
            self.domains.push(String::from_str(domain));
        }
        self.bindings.push(
            Binding {
                id,
                store_domain: String::from_str(domain),
                label: String::from_str(label),
                fingerprint: material.fingerprint.clone(),
                public_key_material: slice_to_vec(material.bytes.as_slice()),
                created_at: now,
                updated_at: now,
            },
        );
        self.next_id = id + 1;
        let ghost target = before.imported(
            domain@,
            label@,
            material.fingerprint@,
            material.bytes@,
            material.key_ids@,
            now,
        );
        proof {
            assert(self@.domains =~= target.domains);
            assert(self@.bindings =~= target.bindings);
            assert(self@.bindings[before.bindings.len() as int].id == id);
            assert(has_id(self@.bindings, id));
            assert forall|i: int| 0 <= i < self@.index.len() implies has_id(
                self@.bindings,
                (#[trigger] self@.index[i]).binding_id,
            ) by {
                assert(has_id(before.bindings, before.index[i].binding_id));
                let p = choose|p: int|
                    0 <= p < before.bindings.len() && (#[trigger] before.bindings[p]).id
                        == before.index[i].binding_id;
                assert(self@.bindings[p] == before.bindings[p]);
            }
            assert(target.domains.contains(domain@)) by {
                if !before.domains.contains(domain@) {
                    assert(target.domains[before.domains.len() as int] == domain@);
                }
            }
            assert forall|i: int| 0 <= i < self@.bindings.len() implies self@.domains.contains(
                (#[trigger] self@.bindings[i]).store_domain,
            ) by {
                if i < before.bindings.len() {
                    assert(before.domains.contains(before.bindings[i].store_domain));
                    let d = choose|d: int|
                        0 <= d < before.domains.len() && before.domains[d]
                            == before.bindings[i].store_domain;
                    assert(target.domains[d] == before.domains[d]);
                }
            }
            assert(self.wf());
        }
        let mut k: usize = 0;
        while k < material.key_ids.len()
            invariant
                self.wf(),
                has_id(self@.bindings, id),
                k <= material.key_ids.len(),
                self@.domains == target.domains,
                self@.bindings == target.bindings,
                self@.next_id == target.next_id,
                self@.index == fanned_out(before.index, material.key_ids@.take(k as int), id),
            decreases material.key_ids.len() - k,
        {
            let key_id = material.key_ids[k];
            proof {
                let upto = material.key_ids@.take(k + 1);
                assert(upto.drop_last() == material.key_ids@.take(k as int));
                assert(upto.last() == key_id);
            }
            let seen = self.holds_key(key_id);
            if !seen {
                let ghost prior = self@;
                self.index.push(IndexEntry { key_id, binding_id: id });
                proof {
                    let n = prior.index.len() as int;
                    assert forall|a: int, b: int| 0 <= a < b < self@.index.len() implies (
                    #[trigger] self@.index[a]).key_id != (#[trigger] self@.index[b]).key_id by {
                        if b == n {
                            assert(prior.index[a].key_id != key_id);
                        } else {
                            assert(prior.index[a].key_id != prior.index[b].key_id);
                        }
                    }
                    assert forall|a: int| 0 <= a < self@.index.len() implies has_id(
                        self@.bindings,
                        (#[trigger] self@.index[a]).binding_id,
                    ) by {
                        if a < n {
                            assert(has_id(prior.bindings, prior.index[a].binding_id));
                        }
                    }
                }
            }
            k += 1;
        }
        proof {
            assert(material.key_ids@.take(material.key_ids@.len() as int) == material.key_ids@);
        }
        Ok(id)
    }

    /// Whether the index has an entry for `key_id`.
    pub fn holds_key(&self, key_id: u64) -> (held: bool)
        ensures
            held == has_key(self@.index, key_id),
    {
        let mut i: usize = 0;
        while i < self.index.len()
            invariant
                i <= self.index.len(),
                forall|j: int| 0 <= j < i ==> (#[trigger] self.index@[j]).key_id != key_id,
            decreases self.index.len() - i,
        {
            if self.index[i].key_id == key_id {
                return true;
            }
            i += 1;
        }
        false
    }

    /// Records in the index that `binding_id` owns `key_id`.
    ///
    /// An entry that is there already is accepted in silence; a key
    /// identifier that another binding owns is a conflict.
    pub fn index_key_id(&mut self, key_id: u64, binding_id: u64) -> (res: Result<(), CulperError>)
        requires
            old(self).wf(),
        ensures
            final(self).wf(),
            match old(self)@.indexing(key_id, binding_id) {
                Ok(after) => res == Ok::<(), CulperError>(()) && final(self)@ == after,
                Err(e) => res == Err::<(), CulperError>(e) && final(self)@ == old(self)@,
            },
    {
        match self.owner_of(key_id) {
            Some(owner) => {
                if owner == binding_id {
                    Ok(())
                } else {
                    Err(CulperError::StoreConflict { key_id, owner })
                }
            },
            None => {
                match self.position_of(binding_id) {
                    Some(_) => {
                        let ghost prior = self@;
                        self.index.push(IndexEntry { key_id, binding_id });
                        proof {
                            let n = prior.index.len() as int;
                            assert forall|a: int, b: int|
                                0 <= a < b < self@.index.len() implies (#[trigger] self@.index[a]).key_id
                                != (#[trigger] self@.index[b]).key_id by {
                                if b == n {
                                    assert(prior.index[a].key_id != key_id);
                                } else {
                                    assert(prior.index[a].key_id != prior.index[b].key_id);
                                }
                            }
                            assert forall|a: int| 0 <= a < self@.index.len() implies has_id(
                                self@.bindings,
                                (#[trigger] self@.index[a]).binding_id,
                            ) by {
                                if a < n {
                                    assert(has_id(prior.bindings, prior.index[a].binding_id));
                                }
                            }
                        }
                        Ok(())
                    },
                    None => Err(CulperError::NotFound),
                }
            },
        }
    }

    /// The oldest binding stored under `label` in `domain`.
    pub fn lookup(&self, domain: &str, label: &str) -> (res: Result<&Binding, CulperError>)
        ensures
            match self@.by_label(domain@, label@) {
                Some(found) => res matches Ok(b) && b@ == found,
                None => res == Err::<&Binding, CulperError>(CulperError::NotFound),
            },
    {
        let ghost pred = |b: BindingModel| selected(b, domain@, Some(label@));
        let mut i: usize = 0;
        proof {
            lemma_filter_none(self@.bindings, pred);
        }
        while i < self.bindings.len()
            invariant
                i <= self.bindings.len(),
                pred == (|b: BindingModel| selected(b, domain@, Some(label@))),
                self@.bindings.take(i as int).filter(pred).len() == 0,
            decreases self.bindings.len() - i,
        {
            proof {
                lemma_filter_step(self@.bindings, i as int, pred);
                assert(self@.bindings[i as int] == self.bindings[i as int]@);
                lemma_filter_prefix(self@.bindings, i as int + 1, pred);
            }
            if same_text(self.bindings[i].store_domain.as_str(), domain) && same_text(
                self.bindings[i].label.as_str(),
                label,
            ) {
                return Ok(&self.bindings[i]);
            }
            i += 1;
        }
        proof {
            assert(self@.bindings.take(self@.bindings.len() as int) == self@.bindings);
        }
        Err(CulperError::NotFound)
    }

    /// The binding of `domain` that owns `key_id`.
    pub fn lookup_by_key_id(&self, domain: &str, key_id: u64) -> (res: Result<&Binding, CulperError>)
        requires
            self.wf(),
        ensures
            match self@.by_key_id(domain@, key_id) {
                Some(found) => res matches Ok(b) && b@ == found,
                None => res == Err::<&Binding, CulperError>(CulperError::NotFound),
            },
    {
        match self.owner_of(key_id) {
            Some(id) => match self.position_of(id) {
                Some(i) => {
                    if same_text(self.bindings[i].store_domain.as_str(), domain) {
                        Ok(&self.bindings[i])
                    } else {
                        Err(CulperError::NotFound)
                    }
                },
                None => Err(CulperError::NotFound),
            },
            None => Err(CulperError::NotFound),
        }
    }

    /// The bindings of `domain`, oldest first.
    pub fn list(&self, domain: &str) -> (found: Vec<Binding>)
        ensures
            models(found@) == in_domain(self@.bindings, domain@),
    {
        let ghost pred = |b: BindingModel| selected(b, domain@, None);
        let mut found: Vec<Binding> = Vec::new();
        let mut i: usize = 0;
        proof {
            lemma_filter_none(self@.bindings, pred);
            assert(models(found@) =~= Seq::empty());
        }
        while i < self.bindings.len()
            invariant
                i <= self.bindings.len(),
                pred == (|b: BindingModel| selected(b, domain@, None)),
                models(found@) == self@.bindings.take(i as int).filter(pred),
            decreases self.bindings.len() - i,
        {
            proof {
                lemma_filter_step(self@.bindings, i as int, pred);
                assert(self@.bindings[i as int] == self.bindings[i as int]@);
            }
            if same_text(self.bindings[i].store_domain.as_str(), domain) {
                let ghost prior = models(found@);
                found.push(self.bindings[i].duplicate());
                proof {
                    assert(models(found@) =~= prior.push(self.bindings[i as int]@));
                }
            }
            i += 1;
        }
        proof {
            assert(self@.bindings.take(self@.bindings.len() as int) == self@.bindings);
        }
        found
    }
}

/// Whether one of `bindings` has the identifier `id`.
fn holds_id(bindings: &Vec<Binding>, id: u64) -> (held: bool)
    ensures
        held == has_id(models(bindings@), id),
{
    let mut i: usize = 0;
    while i < bindings.len()
        invariant
            i <= bindings.len(),
            forall|j: int| 0 <= j < i ==> (#[trigger] models(bindings@)[j]).id != id,
        decreases bindings.len() - i,
    {
        if bindings[i].id == id {
            proof {
                assert(models(bindings@)[i as int].id == id);
            }
            return true;
        }
        i += 1;
    }
    false
}

/// Whether an operation on `domain`, and on `label` where one is given,
/// names the binding.
fn is_selected(binding: &Binding, domain: &str, label: &Option<&str>) -> (hit: bool)
    ensures
        hit == selected(
            binding@,
            domain@,
            match label {
                Some(l) => Some(l@),
                None => None,
            },
        ),
{
    if !same_text(binding.store_domain.as_str(), domain) {
        return false;
    }
    match label {
        Some(l) => same_text(binding.label.as_str(), l),
        None => true,
    }
}

impl KeyStore {
    /// Whether the store holds a binding that an operation on `domain`,
    /// and on `label` where one is given, names.
    fn holds_selected(&self, domain: &str, label: &Option<&str>) -> (any: bool)
        ensures
            any == self@.selects(
                domain@,
                match label {
                    Some(l) => Some(l@),
                    None => None,
                },
            ),
    {
        let ghost wanted = match label {
            Some(l) => Some(l@),
            None => None,
        };
        let mut i: usize = 0;
        while i < self.bindings.len()
            invariant
                i <= self.bindings.len(),
                wanted == (match label {
                    Some(l) => Some(l@),
                    None => None,
                }),
                forall|j: int| 0 <= j < i ==> !selected(#[trigger] self@.bindings[j], domain@, wanted),
            decreases self.bindings.len() - i,
        {
            proof {
                assert(self@.bindings[i as int] == self.bindings[i as int]@);
            }
            if is_selected(&self.bindings[i], domain, label) {
                return true;
            }
            i += 1;
        }
        false
    }

    /// Takes the selected bindings out, and with them the index entries
    /// that they own.
    fn prune(&mut self, domain: &str, label: &Option<&str>)
        requires
            old(self).wf(),
        ensures
            final(self).wf(),
            final(self)@.domains == old(self)@.domains,
            final(self)@.next_id == old(self)@.next_id,
            final(self)@.bindings == kept(
                old(self)@.bindings,
                domain@,
                match label {
                    Some(l) => Some(l@),
                    None => None,
                },
            ),
            final(self)@.index == pruned(old(self)@.index, final(self)@.bindings),
            forall|i: int|
                0 <= i < final(self)@.bindings.len() ==> !selected(
                    #[trigger] final(self)@.bindings[i],
                    domain@,
                    match label {
                        Some(l) => Some(l@),
                        None => None,
                    },
                ),
    {
        let ghost wanted = match label {
            Some(l) => Some(l@),
            None => None,
        };
        let ghost before = self@;
        let ghost keep = |b: BindingModel| !selected(b, domain@, wanted);
        let mut stay: Vec<Binding> = Vec::new();
        let mut i: usize = 0;
        proof {
            lemma_filter_none(before.bindings, keep);
            assert(models(stay@) =~= Seq::empty());
        }
        while i < self.bindings.len()
            invariant
                self.wf(),
                self@ == before,
                i <= self.bindings.len(),
                wanted == (match label {
                    Some(l) => Some(l@),
                    None => None,
                }),
                keep == (|b: BindingModel| !selected(b, domain@, wanted)),
                models(stay@) == before.bindings.take(i as int).filter(keep),
                forall|x: int|
                    0 <= x < stay.len() ==> exists|p: int|
                        0 <= p < i && before.bindings[p] == #[trigger] models(stay@)[x],
                forall|x: int, y: int|
                    0 <= x < y < stay.len() ==> (#[trigger] models(stay@)[x]).id != (
                    #[trigger] models(stay@)[y]).id,
                forall|x: int| 0 <= x < stay.len() ==> !selected(#[trigger] models(stay@)[x], domain@, wanted),
            decreases self.bindings.len() - i,
        {
            proof {
                lemma_filter_step(before.bindings, i as int, keep);
                assert(before.bindings[i as int] == self.bindings[i as int]@);
            }
            if !is_selected(&self.bindings[i], domain, label) {
                let ghost prior = models(stay@);
                stay.push(self.bindings[i].duplicate());
                proof {
                    let n = prior.len() as int;
                    assert(models(stay@) =~= prior.push(before.bindings[i as int]));
                    assert forall|x: int| 0 <= x < stay.len() implies exists|p: int|
                        0 <= p < i + 1 && before.bindings[p] == #[trigger] models(stay@)[x] by {
                        if x < n {
                            let p = choose|p: int| 0 <= p < i && before.bindings[p] == prior[x];
                            assert(before.bindings[p] == models(stay@)[x]);
                        } else {
                            assert(before.bindings[i as int] == models(stay@)[x]);
                        }
                    }
                    assert forall|x: int, y: int| 0 <= x < y < stay.len() implies (
                    #[trigger] models(stay@)[x]).id != (#[trigger] models(stay@)[y]).id by {
                        if y == n {
                            let p = choose|p: int| 0 <= p < i && before.bindings[p] == prior[x];
                            assert(before.bindings[p].id != before.bindings[i as int].id);
                        } else {
                            assert(prior[x].id != prior[y].id);
                        }
                    }
                }
            } else {
                proof {
                    assert forall|x: int| 0 <= x < stay.len() implies exists|p: int|
                        0 <= p < i + 1 && before.bindings[p] == #[trigger] models(stay@)[x] by {
                        let p = choose|p: int| 0 <= p < i && before.bindings[p] == models(stay@)[x];
                        assert(before.bindings[p] == models(stay@)[x]);
                    }
                }
            }
            i += 1;
        }
        proof {
            assert(before.bindings.take(before.bindings.len() as int) == before.bindings);
        }
        let ghost left = models(stay@);
        let ghost owned = |e: IndexEntry| has_id(left, e.binding_id);
        let mut entries: Vec<IndexEntry> = Vec::new();
        let mut k: usize = 0;
        proof {
            lemma_filter_none(before.index, owned);
        }
        while k < self.index.len()
            invariant
                self.wf(),
                self@ == before,
                k <= self.index.len(),
                left == models(stay@),
                owned == (|e: IndexEntry| has_id(left, e.binding_id)),
                entries@ == before.index.take(k as int).filter(owned),
                forall|x: int|
                    0 <= x < entries.len() ==> exists|p: int|
                        0 <= p < k && before.index[p] == #[trigger] entries@[x],
                forall|x: int, y: int|
                    0 <= x < y < entries.len() ==> (#[trigger] entries@[x]).key_id != (
                    #[trigger] entries@[y]).key_id,
                forall|x: int| 0 <= x < entries.len() ==> has_id(left, (#[trigger] entries@[x]).binding_id),
            decreases self.index.len() - k,
        {
            proof {
                lemma_filter_step(before.index, k as int, owned);
            }
            let entry = self.index[k];
            if holds_id(&stay, entry.binding_id) {
                let ghost prior = entries@;
                entries.push(entry);
                proof {
                    let n = prior.len() as int;
                    assert forall|x: int| 0 <= x < entries.len() implies exists|p: int|
                        0 <= p < k + 1 && before.index[p] == #[trigger] entries@[x] by {
                        if x < n {
                            let p = choose|p: int| 0 <= p < k && before.index[p] == prior[x];
                            assert(before.index[p] == entries@[x]);
                        } else {
                            assert(before.index[k as int] == entries@[x]);
                        }
                    }
                    assert forall|x: int, y: int| 0 <= x < y < entries.len() implies (
                    #[trigger] entries@[x]).key_id != (#[trigger] entries@[y]).key_id by {
                        if y == n {
                            let p = choose|p: int| 0 <= p < k && before.index[p] == prior[x];
                            assert(before.index[p].key_id != before.index[k as int].key_id);
                        } else {
                            assert(prior[x].key_id != prior[y].key_id);
                        }
                    }
                }
            } else {
                proof {
                    assert forall|x: int| 0 <= x < entries.len() implies exists|p: int|
                        0 <= p < k + 1 && before.index[p] == #[trigger] entries@[x] by {
                        let p = choose|p: int| 0 <= p < k && before.index[p] == entries@[x];
                        assert(before.index[p] == entries@[x]);
                    }
                }
            }
            k += 1;
        }
        proof {
            assert(before.index.take(before.index.len() as int) == before.index);
            assert forall|x: int| 0 <= x < left.len() implies (#[trigger] left[x]).id < before.next_id
                && before.domains.contains(left[x].store_domain) by {
                let p = choose|p: int| 0 <= p < before.bindings.len() && before.bindings[p] == left[x];
                assert(before.bindings[p].id < before.next_id);
                assert(before.domains.contains(before.bindings[p].store_domain));
            }
        }
        self.bindings = stay;
        self.index = entries;
    }

    /// Deletes every binding stored under `label` in `domain`, with the
    /// index entries that it owns.
    pub fn delete_binding(&mut self, domain: &str, label: &str) -> (res: Result<(), CulperError>)
        requires
            old(self).wf(),
        ensures
            final(self).wf(),
            if old(self)@.selects(domain@, Some(label@)) {
                res == Ok::<(), CulperError>(()) && final(self)@ == old(self)@.without(
                    domain@,
                    Some(label@),
                )
            } else {
                res == Err::<(), CulperError>(CulperError::NotFound) && final(self)@ == old(self)@
            },
    {
        let wanted = Some(label);
        if !self.holds_selected(domain, &wanted) {
            return Err(CulperError::NotFound);
        }
        self.prune(domain, &wanted);
        Ok(())
    }

    /// Deletes `domain` with all its bindings and their index entries.
    pub fn delete_domain(&mut self, domain: &str) -> (res: Result<(), CulperError>)
        requires
            old(self).wf(),
        ensures
            final(self).wf(),
            if old(self)@.domains.contains(domain@) {
                res == Ok::<(), CulperError>(()) && final(self)@ == old(self)@.without(domain@, None)
            } else {
                res == Err::<(), CulperError>(CulperError::NotFound) && final(self)@ == old(self)@
            },
    {
        if !self.knows_domain(domain) {
            return Err(CulperError::NotFound);
        }
        self.prune(domain, &None);
        let ghost before = self@;
        let ghost other = |d: Seq<char>| d != domain@;
        let mut names: Vec<String> = Vec::new();
        let mut i: usize = 0;
        proof {
            lemma_filter_none(before.domains, other);
            assert(crate::text::texts(names@) =~= Seq::empty());
        }
        while i < self.domains.len()
            invariant
                self@ == before,
                i <= self.domains.len(),
                other == (|d: Seq<char>| d != domain@),
                crate::text::texts(names@) == before.domains.take(i as int).filter(other),
                forall|p: int|
                    0 <= p < i && before.domains[p] != domain@ ==> crate::text::texts(names@).contains(
                        #[trigger] before.domains[p],
                    ),
            decreases self.domains.len() - i,
        {
            proof {
                lemma_filter_step(before.domains, i as int, other);
                assert(before.domains[i as int] == self.domains[i as int]@);
            }
            if !same_text(self.domains[i].as_str(), domain) {
                let ghost prior = crate::text::texts(names@);
                names.push(self.domains[i].clone());
                proof {
                    let n = prior.len() as int;
                    assert(crate::text::texts(names@) =~= prior.push(before.domains[i as int]));
                    assert forall|p: int|
                        0 <= p < i + 1 && before.domains[p] != domain@ implies crate::text::texts(
                        names@,
                    ).contains(#[trigger] before.domains[p]) by {
                        if p < i {
                            assert(prior.contains(before.domains[p]));
                            let x = choose|x: int| 0 <= x < prior.len() && prior[x] == before.domains[p];
                            assert(crate::text::texts(names@)[x] == before.domains[p]);
                        } else {
                            assert(crate::text::texts(names@)[n] == before.domains[p]);
                        }
                    }
                }
            }
            i += 1;
        }
        proof {
            assert(before.domains.take(before.domains.len() as int) == before.domains);
            assert forall|x: int| 0 <= x < before.bindings.len() implies crate::text::texts(
                names@,
            ).contains((#[trigger] before.bindings[x]).store_domain) by {
                assert(before.domains.contains(before.bindings[x].store_domain));
                let p = choose|p: int|
                    0 <= p < before.domains.len() && before.domains[p]
                        == before.bindings[x].store_domain;
                assert(!selected(before.bindings[x], domain@, None));
            }
        }
        self.domains = names;
        Ok(())
    }
}

/// What a store holds, as it is written to and read from a file.
#[derive(Debug, Clone, PartialEq, Eq)]
pub struct StoreContents {
    pub domains: Vec<String>,
    pub bindings: Vec<Binding>,
    pub index: Vec<IndexEntry>,
    pub next_id: u64,
}

impl View for StoreContents {
    type V = StoreModel;

    open spec fn view(&self) -> StoreModel {
        StoreModel {
            domains: crate::text::texts(self.domains@),
            bindings: models(self.bindings@),
            index: self.index@,
            next_id: self.next_id,
        }
    }
}

impl KeyStore {
    /// A copy of what the store holds.
    pub fn contents(&self) -> (contents: StoreContents)
        ensures
            contents@ == self@,
    {
        let mut domains: Vec<String> = Vec::new();
        let mut i: usize = 0;
        while i < self.domains.len()
            invariant
                i <= self.domains.len(),
                domains.len() == i,
                forall|j: int| 0 <= j < i ==> (#[trigger] domains@[j])@ == self.domains@[j]@,
            decreases self.domains.len() - i,
        {
            domains.push(self.domains[i].clone());
            i += 1;
        }
        let mut bindings: Vec<Binding> = Vec::new();
        let mut b: usize = 0;
        while b < self.bindings.len()
            invariant
                b <= self.bindings.len(),
                bindings.len() == b,
                forall|j: int| 0 <= j < b ==> (#[trigger] bindings@[j])@ == self.bindings@[j]@,
            decreases self.bindings.len() - b,
        {
            bindings.push(self.bindings[b].duplicate());
            b += 1;
        }
        let index = slice_to_vec(self.index.as_slice());
        let contents = StoreContents { domains, bindings, index, next_id: self.next_id };
        proof {
            assert(contents@.domains =~= self@.domains);
            assert(contents@.bindings =~= self@.bindings);
        }
        contents
    }

    /// The store that holds `contents`, if they are those of a store:
    /// contents that break the store's invariant are damaged, and are
    /// refused.
    pub fn from_contents(contents: StoreContents) -> (res: Result<KeyStore, CulperError>)
        ensures
            match res {
                Ok(store) => contents@.wf() && store.wf() && store@ == contents@,
                Err(e) => !contents@.wf() && e is IntegrityError && e.words() == Some(
                    "The key store is damaged."@,
                ),
            },
    {
        let store = KeyStore {
            domains: contents.domains,
            bindings: contents.bindings,
            index: contents.index,
            next_id: contents.next_id,
        };
        if store.is_sound() {
            Ok(store)
        } else {
            Err(CulperError::IntegrityError(String::from_str("The key store is damaged.")))
        }
    }

    /// Whether the invariant holds.
    fn is_sound(&self) -> (sound: bool)
        ensures
            sound == self@.wf(),
    {
        let ghost m = self@;
        let mut i: usize = 0;
        while i < self.bindings.len()
            invariant
                m == self@,
                i <= self.bindings.len(),
                forall|x: int| 0 <= x < i ==> (#[trigger] m.bindings[x]).id < m.next_id,
                forall|x: int, y: int|
                    0 <= x < y < i ==> (#[trigger] m.bindings[x]).id != (#[trigger] m.bindings[y]).id,
                forall|x: int| 0 <= x < i ==> m.domains.contains((#[trigger] m.bindings[x]).store_domain),
            decreases self.bindings.len() - i,
        {
            proof {
                assert(m.bindings[i as int] == self.bindings[i as int]@);
            }
            if self.bindings[i].id >= self.next_id {
                return false;
            }
            if !self.knows_domain(self.bindings[i].store_domain.as_str()) {
                return false;
            }
            let mut j: usize = 0;
            while j < i
                invariant
                    m == self@,
                    j <= i < self.bindings.len(),
                    forall|x: int| 0 <= x < j ==> (#[trigger] m.bindings[x]).id != m.bindings[i as int].id,
                decreases i - j,
            {
                proof {
                    assert(m.bindings[j as int] == self.bindings[j as int]@);
                    assert(m.bindings[i as int] == self.bindings[i as int]@);
                }
                if self.bindings[j].id == self.bindings[i].id {
                    return false;
                }
                j += 1;
            }
            i += 1;
        }
        let mut k: usize = 0;
        while k < self.index.len()
            invariant
                m == self@,
                k <= self.index.len(),
                forall|x: int, y: int|
                    0 <= x < y < k ==> (#[trigger] m.index[x]).key_id != (#[trigger] m.index[y]).key_id,
                forall|x: int| 0 <= x < k ==> has_id(m.bindings, (#[trigger] m.index[x]).binding_id),
            decreases self.index.len() - k,
        {
            if !holds_id(&self.bindings, self.index[k].binding_id) {
                proof {
                    assert(!has_id(m.bindings, m.index[k as int].binding_id));
                }
                return false;
            }
            let mut j: usize = 0;
            while j < k
                invariant
                    m == self@,
                    j <= k < self.index.len(),
                    forall|x: int| 0 <= x < j ==> (#[trigger] m.index[x]).key_id != m.index[k as int].key_id,
                decreases k - j,
            {
                if self.index[j].key_id == self.index[k].key_id {
                    proof {
                        assert(m.index[j as int].key_id == m.index[k as int].key_id);
                    }
                    return false;
                }
                j += 1;
            }
            k += 1;
        }
        true
    }
}

/// What a prefix holds after filtering, the whole holds too, at the same
/// place.
pub proof fn lemma_filter_prefix<A>(s: Seq<A>, n: int, pred: spec_fn(A) -> bool)
    requires
        0 <= n <= s.len(),
    ensures
        s.take(n).filter(pred).len() <= s.filter(pred).len(),
        forall|i: int|
            0 <= i < s.take(n).filter(pred).len() ==> s.take(n).filter(pred)[i] == s.filter(pred)[i],
    decreases s.len() - n,
{
    if n == s.len() {
        assert(s.take(n) == s);
    } else {
        lemma_filter_step(s, n, pred);
        lemma_filter_prefix(s, n + 1, pred);
    }
}

} // verus!
