//! The abstract model of the registry.
//!
//! `StateModel` is the mathematical value of the whole registry: the
//! primary certificate store as a sequence (the certificate with id `i`
//! stands at position `i - 1`), the holder and issuer indices as finite
//! maps from identity to bucket, the two name directories, the counters
//! and the configuration. Mutating operations are defined here as
//! functions from model to model; the executable registry's contracts
//! state that it steps exactly as these functions say, and the laws of
//! the registry are proved about them.

use vstd::prelude::*;

use crate::directory::DirModel;
use crate::types::{CanisterStats, CertModel, CertInfoModel, CanisterError, MetaModel};

verus! {

/// One side of the registry's derived indices: the bucket of certificate
/// ids per identity, and the display-name directory for that role.
#[verifier::ext_equal]
pub struct RoleModel {
    pub buckets: Map<Seq<u8>, Seq<u64>>,
    pub names: DirModel,
}

impl RoleModel {
    pub open spec fn empty() -> RoleModel {
        RoleModel { buckets: Map::<Seq<u8>, Seq<u64>>::empty(), names: DirModel::empty() }
    }

    /// Whether `id` is filed under identity `k` in this index.
    pub open spec fn has_id(self, k: Seq<u8>, id: u64) -> bool {
        self.buckets.contains_key(k) && self.buckets[k].contains(id)
    }

    /// No certificate id is filed under two identities.
    pub open spec fn bucket_uniq(self) -> bool {
        forall|k1: Seq<u8>, k2: Seq<u8>, id: u64|
            #![trigger self.has_id(k1, id), self.has_id(k2, id)]
            self.has_id(k1, id) && self.has_id(k2, id) ==> k1 == k2
    }

    /// Filing a fresh certificate: the id is appended to the identity's
    /// bucket (creating the bucket if this is the identity's first
    /// certificate), and the display name is bound first-writer-wins.
    pub open spec fn add_cert(self, owner: Seq<u8>, id: u64, name: Seq<char>) -> RoleModel {
        let b = if self.buckets.contains_key(owner) {
            self.buckets[owner].push(id)
        } else {
            seq![id]
        };
        RoleModel { buckets: self.buckets.insert(owner, b), names: self.names.bind_model(name, owner) }
    }
}

/// The number of non-burned certificates in a store.
pub open spec fn live_count(s: Seq<CertModel>) -> nat
    decreases s.len(),
{
    if s.len() == 0 {
        0nat
    } else {
        live_count(s.drop_last()) + (if s.last().is_burned {
            0nat
        } else {
            1nat
        })
    }
}

pub proof fn lemma_live_count_le(s: Seq<CertModel>)
    ensures
        live_count(s) <= s.len(),
    decreases s.len(),
{
    if s.len() > 0 {
        lemma_live_count_le(s.drop_last());
    }
}

pub proof fn lemma_live_count_push(s: Seq<CertModel>, c: CertModel)
    ensures
        live_count(s.push(c)) == live_count(s) + (if c.is_burned {
            0nat
        } else {
            1nat
        }),
{
    assert(s.push(c).drop_last() =~= s);
    assert(s.push(c).last() == c);
}

pub proof fn lemma_live_count_update_burn(s: Seq<CertModel>, i: int, c2: CertModel)
    requires
        0 <= i < s.len(),
        !s[i].is_burned,
        c2.is_burned,
    ensures
        live_count(s.update(i, c2)) + 1 == live_count(s),
    decreases s.len(),
{
    let s2 = s.update(i, c2);
    if i == s.len() - 1 {
        assert(s2.drop_last() =~= s.drop_last());
        assert(s2.last() == c2);
        assert(s.last() == s[i]);
    } else {
        assert(s2.drop_last() =~= s.drop_last().update(i, c2));
        assert(s2.last() == s.last());
        lemma_live_count_update_burn(s.drop_last(), i, c2);
    }
}

/// What a mint request carries: the record fields, the two identities
/// with their display names, and the host-supplied timestamp.
pub struct MintRequest {
    pub title: Seq<char>,
    pub description: Seq<char>,
    pub blob: Seq<u8>,
    pub holder: Seq<u8>,
    pub holder_name: Seq<char>,
    pub issuer: Seq<u8>,
    pub issuer_name: Seq<char>,
    pub now: u64,
}

impl MintRequest {
    /// The record a successful mint appends to the store.
    pub open spec fn cert_model(self) -> CertModel {
        CertModel {
            title: self.title,
            description: self.description,
            blob: self.blob,
            holder: self.holder,
            issuer: self.issuer,
            issued_at: self.now,
            is_burned: false,
            burned_at: None,
            burned_by: None,
        }
    }
}

/// The abstract value of the whole registry.
#[verifier::ext_equal]
pub struct StateModel {
    pub metadata: MetaModel,
    pub stats: CanisterStats,
    pub certificates: Seq<CertModel>,
    pub holders: RoleModel,
    pub issuers: RoleModel,
}

impl StateModel {
    /// The store holds exactly the ids `1 ..= len`; ids are assigned
    /// contiguously and never reused.
    pub open spec fn has_cert(self, id: u64) -> bool {
        1 <= id <= self.certificates.len()
    }

    /// The record stored under an id the store holds.
    pub open spec fn cert(self, id: u64) -> CertModel {
        self.certificates[id - 1]
    }

    /// The id the next mint will assign.
    pub open spec fn minted_id(self) -> u64 {
        (self.stats.total_supply + 1) as u64
    }

    /// A mint succeeds exactly when the id it would assign does not
    /// collide with a stored id; under `wf` this fails exactly when a
    /// burn has lowered the supply below the store's size.
    pub open spec fn mint_ok(self) -> bool {
        self.stats.total_supply >= self.certificates.len()
    }

    /// Every id filed in a bucket is in the store, and a bucket lists no
    /// id twice.
    pub open spec fn bucket_ok(self, b: Seq<u64>) -> bool {
        &&& forall|j: int| 0 <= j < b.len() ==> self.has_cert(#[trigger] b[j])
        &&& forall|j1: int, j2: int| 0 <= j1 < j2 < b.len() ==> b[j1] != b[j2]
    }

    pub open spec fn index_wf(self, role: RoleModel) -> bool {
        &&& role.buckets.dom().finite()
        &&& forall|k: Seq<u8>| #[trigger] role.buckets.contains_key(k) ==> self.bucket_ok(
            role.buckets[k],
        )
        &&& role.bucket_uniq()
    }

    /// Every non-burned certificate is filed under its holder.
    pub open spec fn holder_coverage(self) -> bool {
        forall|id: u64|
            #[trigger] self.has_cert(id) && !self.cert(id).is_burned ==> self.holders.has_id(
                self.cert(id).holder,
                id,
            )
    }

    /// Every certificate is filed under its issuer (burning does not
    /// clear the issuer field).
    pub open spec fn issuer_coverage(self) -> bool {
        forall|id: u64| #[trigger] self.has_cert(id) ==> self.issuers.has_id(
            self.cert(id).issuer,
            id,
        )
    }

    /// The global invariant: the counters agree with the store and the
    /// holder index, the indices are consistent with the store, and the
    /// directories are well-formed.
    pub open spec fn wf(self) -> bool {
        &&& self.stats.total_supply == live_count(self.certificates)
        &&& self.stats.total_unique_holders == self.holders.buckets.dom().len()
        &&& self.stats.total_unique_holders <= self.certificates.len()
        &&& self.index_wf(self.holders)
        &&& self.index_wf(self.issuers)
        &&& self.holders.names.wf()
        &&& self.issuers.names.wf()
        &&& self.holder_coverage()
        &&& self.issuer_coverage()
    }

    /// The freshly created registry: empty store, empty indices, zeroed
    /// counters, default configuration.
    pub open spec fn init(now: u64) -> StateModel {
        StateModel {
            metadata: MetaModel {
                name: "certify_v1"@,
                symbol: None,
                logo: None,
                created_at: now,
                upgraded_at: now,
                custodians: Set::<Seq<u8>>::empty(),
            },
            stats: CanisterStats {
                total_supply: 0,
                total_transactions: 0,
                total_unique_holders: 0,
                cycles: 0,
            },
            certificates: Seq::<CertModel>::empty(),
            holders: RoleModel::empty(),
            issuers: RoleModel::empty(),
        }
    }

    /// What a successful mint does, as one atomic step: append the
    /// record, file its id under holder and issuer, bind both display
    /// names first-writer-wins, raise the supply, and raise the
    /// unique-holder counter exactly when the holder had no bucket yet.
    pub open spec fn mint_model(self, q: MintRequest) -> StateModel {
        let id = self.minted_id();
        StateModel {
            metadata: self.metadata,
            stats: CanisterStats {
                total_supply: id,
                total_transactions: self.stats.total_transactions,
                total_unique_holders: if self.holders.buckets.contains_key(q.holder) {
                    self.stats.total_unique_holders
                } else {
                    (self.stats.total_unique_holders + 1) as u64
                },
                cycles: self.stats.cycles,
            },
            certificates: self.certificates.push(q.cert_model()),
            holders: self.holders.add_cert(q.holder, id, q.holder_name),
            issuers: self.issuers.add_cert(q.issuer, id, q.issuer_name),
        }
    }

    /// What burning an existing, not yet burned certificate does: mark
    /// the record burned with the caller and timestamp, clear its holder
    /// to the "no identity" sentinel, and lower the supply. The record
    /// stays in the store and in the indices.
    pub open spec fn burn_model(self, id: u64, caller: Seq<u8>, now: u64) -> StateModel {
        let c = self.cert(id);
        let c2 = CertModel {
            title: c.title,
            description: c.description,
            blob: c.blob,
            holder: Seq::<u8>::empty(),
            issuer: c.issuer,
            issued_at: c.issued_at,
            is_burned: true,
            burned_at: Some(now),
            burned_by: Some(caller),
        };
        StateModel {
            metadata: self.metadata,
            stats: CanisterStats {
                total_supply: (self.stats.total_supply - 1) as u64,
                total_transactions: self.stats.total_transactions,
                total_unique_holders: self.stats.total_unique_holders,
                cycles: self.stats.cycles,
            },
            certificates: self.certificates.update(id - 1, c2),
            holders: self.holders,
            issuers: self.issuers,
        }
    }

    /// The display record for a stored certificate: the record joined
    /// with the display names of its issuer and holder; an identity
    /// without a registered name makes the join fail.
    pub open spec fn cert_info(self, id: u64) -> Result<CertInfoModel, CanisterError> {
        if !self.has_cert(id) {
            Err(CanisterError::CertificateNotFound)
        } else {
            let c = self.cert(id);
            if !self.issuers.names.id_to_name.contains_key(c.issuer) {
                Err(CanisterError::HolderNotFound)
            } else if !self.holders.names.id_to_name.contains_key(c.holder) {
                Err(CanisterError::HolderNotFound)
            } else {
                Ok(CertInfoModel {
                    id: id,
                    title: c.title,
                    description: c.description,
                    issuer_name: self.issuers.names.id_to_name[c.issuer],
                    issuer_address: c.issuer,
                    holder_name: self.holders.names.id_to_name[c.holder],
                    holder_address: c.holder,
                    issued_at: c.issued_at,
                })
            }
        }
    }

    /// The display records for a list of ids, stopping at the first id
    /// whose join fails.
    pub open spec fn infos_for(self, ids: Seq<u64>) -> Result<Seq<CertInfoModel>, CanisterError>
        decreases ids.len(),
    {
        if ids.len() == 0 {
            Ok(Seq::<CertInfoModel>::empty())
        } else {
            match self.infos_for(ids.drop_last()) {
                Ok(pre) => match self.cert_info(ids.last()) {
                    Ok(info) => Ok(pre.push(info)),
                    Err(e) => Err(e),
                },
                Err(e) => Err(e),
            }
        }
    }

    /// The display records reached from a holder display name: resolve
    /// the name, then join every certificate in that identity's bucket.
    pub open spec fn infos_by_holder_name(self, name: Seq<char>) -> Result<
        Seq<CertInfoModel>,
        CanisterError,
    > {
        if !self.holders.names.name_to_id.contains_key(name) {
            Err(CanisterError::HolderNotFound)
        } else {
            let p = self.holders.names.name_to_id[name];
            if !self.holders.buckets.contains_key(p) {
                Err(CanisterError::HolderNotFound)
            } else {
                self.infos_for(self.holders.buckets[p])
            }
        }
    }

    /// The same lookup for an issuer display name.
    pub open spec fn infos_by_issuer_name(self, name: Seq<char>) -> Result<
        Seq<CertInfoModel>,
        CanisterError,
    > {
        if !self.issuers.names.name_to_id.contains_key(name) {
            Err(CanisterError::HolderNotFound)
        } else {
            let p = self.issuers.names.name_to_id[name];
            if !self.issuers.buckets.contains_key(p) {
                Err(CanisterError::HolderNotFound)
            } else {
                self.infos_for(self.issuers.buckets[p])
            }
        }
    }
}

/// The global invariant does not depend on the configuration, so the
/// gated configuration setters preserve it.
pub proof fn lemma_wf_set_metadata(s: StateModel, m: MetaModel)
    requires
        s.wf(),
    ensures
        (StateModel { metadata: m, ..s }).wf(),
{
    let s2 = StateModel { metadata: m, ..s };
    assert forall|k: Seq<u8>| #[trigger] s2.holders.buckets.contains_key(k) implies s2.bucket_ok(
        s2.holders.buckets[k],
    ) by {
        assert(s.bucket_ok(s.holders.buckets[k]));
        assert forall|j: int| 0 <= j < s2.holders.buckets[k].len() implies s2.has_cert(
            #[trigger] s2.holders.buckets[k][j],
        ) by {
            assert(s.has_cert(s.holders.buckets[k][j]));
        }
    }
    assert forall|k: Seq<u8>| #[trigger] s2.issuers.buckets.contains_key(k) implies s2.bucket_ok(
        s2.issuers.buckets[k],
    ) by {
        assert(s.bucket_ok(s.issuers.buckets[k]));
        assert forall|j: int| 0 <= j < s2.issuers.buckets[k].len() implies s2.has_cert(
            #[trigger] s2.issuers.buckets[k][j],
        ) by {
            assert(s.has_cert(s.issuers.buckets[k][j]));
        }
    }
    assert forall|id: u64| #[trigger] s2.has_cert(id) && !s2.cert(id).is_burned implies
        s2.holders.has_id(s2.cert(id).holder, id) by {
        assert(s.has_cert(id));
        assert(s.cert(id) == s2.cert(id));
    }
    assert forall|id: u64| #[trigger] s2.has_cert(id) implies s2.issuers.has_id(
        s2.cert(id).issuer,
        id,
    ) by {
        assert(s.has_cert(id));
        assert(s.cert(id) == s2.cert(id));
    }
}

/// The freshly created registry satisfies the global invariant.
pub proof fn lemma_init_wf(now: u64)
    ensures
        StateModel::init(now).wf(),
{
    let s = StateModel::init(now);
    assert(s.holders.buckets.dom() =~= Set::<Seq<u8>>::empty());
    assert(s.issuers.buckets.dom() =~= Set::<Seq<u8>>::empty());
}

/// In a well-formed registry a mint can only succeed when the supply
/// equals the store's size, and then every stored record is live.
pub proof fn lemma_mint_ok_shape(s: StateModel)
    requires
        s.wf(),
        s.mint_ok(),
    ensures
        s.stats.total_supply == s.certificates.len(),
        live_count(s.certificates) == s.certificates.len(),
{
    lemma_live_count_le(s.certificates);
}

/// Filing a fresh id under `owner` moves each bucket membership fact as
/// expected: the new index holds exactly the old filings plus the new one.
proof fn lemma_add_cert_has_id(role: RoleModel, owner: Seq<u8>, id: u64, name: Seq<char>)
    ensures
        forall|k: Seq<u8>, x: u64| #[trigger] role.add_cert(owner, id, name).has_id(k, x) ==> (
        role.has_id(k, x) || (k == owner && x == id)),
        forall|k: Seq<u8>, x: u64| #[trigger] role.has_id(k, x) ==> role.add_cert(
            owner,
            id,
            name,
        ).has_id(k, x),
        role.add_cert(owner, id, name).has_id(owner, id),
{
    let r2 = role.add_cert(owner, id, name);
    let b = if role.buckets.contains_key(owner) {
        role.buckets[owner].push(id)
    } else {
        seq![id]
    };
    assert forall|k: Seq<u8>, x: u64| #[trigger] r2.has_id(k, x) implies (role.has_id(k, x) || (
    k == owner && x == id)) by {
        if k == owner {
            let j = choose|j: int| 0 <= j < b.len() && b[j] == x;
            if role.buckets.contains_key(owner) {
                if j < role.buckets[owner].len() {
                    assert(role.buckets[owner][j] == x);
                    assert(role.buckets[owner].contains(x));
                } else {
                    assert(x == id);
                }
            } else {
                assert(x == id);
            }
        }
    }
    assert forall|k: Seq<u8>, x: u64| #[trigger] role.has_id(k, x) implies r2.has_id(k, x) by {
        if k == owner {
            let j = choose|j: int| 0 <= j < role.buckets[owner].len() && role.buckets[owner][j]
                == x;
            assert(b[j] == x);
            assert(b.contains(x));
        }
    }
    if role.buckets.contains_key(owner) {
        assert(b[role.buckets[owner].len() as int] == id);
    } else {
        assert(b[0] == id);
    }
    assert(b.contains(id));
}

/// A successful mint preserves the global invariant.
pub proof fn lemma_mint_wf(s: StateModel, q: MintRequest)
    requires
        s.wf(),
        s.mint_ok(),
        s.stats.total_supply < u64::MAX,
    ensures
        s.mint_model(q).wf(),
{
    let s2 = s.mint_model(q);
    let id = s.minted_id();
    let n = s.certificates.len();
    lemma_mint_ok_shape(s);
    lemma_live_count_push(s.certificates, q.cert_model());

    // Ids already filed are at most `n`, so the new id collides with none.
    assert forall|k: Seq<u8>, x: u64| #[trigger] s.holders.has_id(k, x) implies 1 <= x <= n by {
        assert(s.bucket_ok(s.holders.buckets[k]));
        let j = choose|j: int| 0 <= j < s.holders.buckets[k].len() && s.holders.buckets[k][j] == x;
        assert(s.has_cert(s.holders.buckets[k][j]));
    }
    assert forall|k: Seq<u8>, x: u64| #[trigger] s.issuers.has_id(k, x) implies 1 <= x <= n by {
        assert(s.bucket_ok(s.issuers.buckets[k]));
        let j = choose|j: int| 0 <= j < s.issuers.buckets[k].len() && s.issuers.buckets[k][j] == x;
        assert(s.has_cert(s.issuers.buckets[k][j]));
    }
    lemma_add_cert_has_id(s.holders, q.holder, id, q.holder_name);
    lemma_add_cert_has_id(s.issuers, q.issuer, id, q.issuer_name);

    // The unique-holder counter still counts the holder buckets.
    if s.holders.buckets.contains_key(q.holder) {
        assert(s2.holders.buckets.dom() =~= s.holders.buckets.dom());
    } else {
        assert(s2.holders.buckets.dom() =~= s.holders.buckets.dom().insert(q.holder));
    }

    // Both indices stay consistent with the grown store.
    assert forall|k: Seq<u8>| #[trigger] s2.holders.buckets.contains_key(k) implies s2.bucket_ok(
        s2.holders.buckets[k],
    ) by {
        lemma_bucket_ok_after_add(s, s2, s.holders, q.holder, id, q.holder_name, k);
    }
    assert forall|k: Seq<u8>| #[trigger] s2.issuers.buckets.contains_key(k) implies s2.bucket_ok(
        s2.issuers.buckets[k],
    ) by {
        lemma_bucket_ok_after_add(s, s2, s.issuers, q.issuer, id, q.issuer_name, k);
    }
    assert forall|k1: Seq<u8>, k2: Seq<u8>, x: u64|
        #![trigger s2.holders.has_id(k1, x), s2.holders.has_id(k2, x)]
        s2.holders.has_id(k1, x) && s2.holders.has_id(k2, x) implies k1 == k2 by {
        assert(s.holders.has_id(k1, x) || (k1 == q.holder && x == id));
        assert(s.holders.has_id(k2, x) || (k2 == q.holder && x == id));
    }
    assert forall|k1: Seq<u8>, k2: Seq<u8>, x: u64|
        #![trigger s2.issuers.has_id(k1, x), s2.issuers.has_id(k2, x)]
        s2.issuers.has_id(k1, x) && s2.issuers.has_id(k2, x) implies k1 == k2 by {
        assert(s.issuers.has_id(k1, x) || (k1 == q.issuer && x == id));
        assert(s.issuers.has_id(k2, x) || (k2 == q.issuer && x == id));
    }

    // Every record is still filed under its holder and its issuer.
    assert forall|x: u64| #[trigger] s2.has_cert(x) && !s2.cert(x).is_burned implies
        s2.holders.has_id(s2.cert(x).holder, x) by {
        if x <= n {
            assert(s2.cert(x) == s.cert(x));
            assert(s.has_cert(x));
            assert(!s.cert(x).is_burned);
            assert(s.holders.has_id(s.cert(x).holder, x));
        } else {
            assert(s2.cert(x) == q.cert_model());
        }
    }
    assert forall|x: u64| #[trigger] s2.has_cert(x) implies s2.issuers.has_id(
        s2.cert(x).issuer,
        x,
    ) by {
        if x <= n {
            assert(s2.cert(x) == s.cert(x));
            assert(s.issuers.has_id(s.cert(x).issuer, x));
        } else {
            assert(s2.cert(x) == q.cert_model());
        }
    }

    crate::directory::lemma_bind_wf(s.holders.names, q.holder_name, q.holder);
    crate::directory::lemma_bind_wf(s.issuers.names, q.issuer_name, q.issuer);
}

/// After filing the new id, each bucket still only lists stored ids,
/// without duplicates.
proof fn lemma_bucket_ok_after_add(
    s: StateModel,
    s2: StateModel,
    role: RoleModel,
    owner: Seq<u8>,
    id: u64,
    name: Seq<char>,
    k: Seq<u8>,
)
    requires
        s.wf(),
        s.index_wf(role),
        id == s.certificates.len() + 1,
        s2.certificates.len() == s.certificates.len() + 1,
        role.add_cert(owner, id, name).buckets.contains_key(k),
        forall|kk: Seq<u8>, x: u64| #[trigger] role.has_id(kk, x) ==> 1 <= x
            <= s.certificates.len(),
    ensures
        s2.bucket_ok(role.add_cert(owner, id, name).buckets[k]),
{
    let r2 = role.add_cert(owner, id, name);
    let b2 = r2.buckets[k];
    if k == owner {
        if role.buckets.contains_key(owner) {
            let b = role.buckets[owner];
            assert(s.bucket_ok(b));
            assert(b2 =~= b.push(id));
            assert forall|j: int| 0 <= j < b2.len() implies s2.has_cert(#[trigger] b2[j]) by {
                if j < b.len() {
                    assert(s.has_cert(b[j]));
                }
            }
            assert forall|j1: int, j2: int| 0 <= j1 < j2 < b2.len() implies b2[j1] != b2[j2] by {
                if j2 == b.len() {
                    assert(b[j1] == b2[j1]);
                    assert(b.contains(b[j1]));
                    assert(role.has_id(owner, b[j1]));
                }
            }
        } else {
            assert(b2 =~= seq![id]);
        }
    } else {
        assert(role.buckets.contains_key(k));
        assert(b2 == role.buckets[k]);
        assert(s.bucket_ok(b2));
        assert forall|j: int| 0 <= j < b2.len() implies s2.has_cert(#[trigger] b2[j]) by {
            assert(s.has_cert(b2[j]));
        }
    }
}

/// Burning an existing, live certificate preserves the global invariant.
pub proof fn lemma_burn_wf(s: StateModel, id: u64, caller: Seq<u8>, now: u64)
    requires
        s.wf(),
        s.has_cert(id),
        !s.cert(id).is_burned,
    ensures
        s.stats.total_supply >= 1,
        s.burn_model(id, caller, now).wf(),
{
    let s2 = s.burn_model(id, caller, now);
    let c2 = s2.certificates[id - 1];
    lemma_live_count_update_burn(s.certificates, id - 1, c2);
    assert forall|k: Seq<u8>| #[trigger] s2.holders.buckets.contains_key(k) implies s2.bucket_ok(
        s2.holders.buckets[k],
    ) by {
        assert(s.bucket_ok(s.holders.buckets[k]));
        assert forall|j: int| 0 <= j < s2.holders.buckets[k].len() implies s2.has_cert(
            #[trigger] s2.holders.buckets[k][j],
        ) by {
            assert(s.has_cert(s.holders.buckets[k][j]));
        }
    }
    assert forall|k: Seq<u8>| #[trigger] s2.issuers.buckets.contains_key(k) implies s2.bucket_ok(
        s2.issuers.buckets[k],
    ) by {
        assert(s.bucket_ok(s.issuers.buckets[k]));
        assert forall|j: int| 0 <= j < s2.issuers.buckets[k].len() implies s2.has_cert(
            #[trigger] s2.issuers.buckets[k][j],
        ) by {
            assert(s.has_cert(s.issuers.buckets[k][j]));
        }
    }
    assert forall|x: u64| #[trigger] s2.has_cert(x) && !s2.cert(x).is_burned implies
        s2.holders.has_id(s2.cert(x).holder, x) by {
        assert(x != id);
        assert(s2.cert(x) == s.cert(x));
        assert(s.has_cert(x));
    }
    assert forall|x: u64| #[trigger] s2.has_cert(x) implies s2.issuers.has_id(
        s2.cert(x).issuer,
        x,
    ) by {
        assert(s.has_cert(x));
        if x == id {
            assert(s2.cert(x).issuer == s.cert(x).issuer);
        } else {
            assert(s2.cert(x) == s.cert(x));
        }
    }
}

/// A successful mint assigns an id strictly greater than every stored id,
/// an id absent from the store before the call and present after it.
pub proof fn lemma_minted_id_fresh(s: StateModel, q: MintRequest)
    requires
        s.wf(),
        s.mint_ok(),
        s.stats.total_supply < u64::MAX,
    ensures
        !s.has_cert(s.minted_id()),
        forall|x: u64| #[trigger] s.has_cert(x) ==> x < s.minted_id(),
        s.mint_model(q).has_cert(s.minted_id()),
{
    lemma_mint_ok_shape(s);
}

/// After a successful mint the new id is filed under the holder, whose
/// certificate count grew by exactly one; likewise for the issuer.
pub proof fn lemma_mint_updates_buckets(s: StateModel, q: MintRequest)
    requires
        s.wf(),
        s.mint_ok(),
        s.stats.total_supply < u64::MAX,
    ensures
        ({
            let s2 = s.mint_model(q);
            let id = s.minted_id();
            &&& s2.holders.has_id(q.holder, id)
            &&& s2.holders.buckets[q.holder].len() == (if s.holders.buckets.contains_key(q.holder) {
                s.holders.buckets[q.holder].len() + 1
            } else {
                1nat
            })
            &&& s2.issuers.has_id(q.issuer, id)
            &&& s2.issuers.buckets[q.issuer].len() == (if s.issuers.buckets.contains_key(q.issuer) {
                s.issuers.buckets[q.issuer].len() + 1
            } else {
                1nat
            })
        }),
{
    lemma_add_cert_has_id(s.holders, q.holder, s.minted_id(), q.holder_name);
    lemma_add_cert_has_id(s.issuers, q.issuer, s.minted_id(), q.issuer_name);
}

/// Two mints for the same holder, new to the registry, raise the
/// unique-holder counter by exactly one, not two.
pub proof fn lemma_unique_holders_counted_once(s: StateModel, q1: MintRequest, q2: MintRequest)
    requires
        s.wf(),
        s.mint_ok(),
        s.stats.total_supply + 1 < u64::MAX,
        q1.holder == q2.holder,
        !s.holders.buckets.contains_key(q1.holder),
    ensures
        s.mint_model(q1).mint_ok(),
        s.mint_model(q1).mint_model(q2).stats.total_unique_holders == s.stats.total_unique_holders
            + 1,
{
    lemma_mint_ok_shape(s);
    let s1 = s.mint_model(q1);
    assert(s1.holders.buckets.contains_key(q2.holder));
    assert(s.stats.total_unique_holders <= s.certificates.len());
}

/// Burning keeps the record: the id stays in the store, now marked
/// burned, and only the supply counter drops, by exactly one.
pub proof fn lemma_burn_keeps_record(s: StateModel, id: u64, caller: Seq<u8>, now: u64)
    requires
        s.wf(),
        s.has_cert(id),
        !s.cert(id).is_burned,
    ensures
        ({
            let s2 = s.burn_model(id, caller, now);
            &&& s2.has_cert(id)
            &&& s2.cert(id).is_burned
            &&& s2.certificates.len() == s.certificates.len()
            &&& s.stats.total_supply >= 1
            &&& s2.stats.total_supply == s.stats.total_supply - 1
        }),
{
    lemma_burn_wf(s, id, caller, now);
}

/// A failing prefix decides the whole join: once some id in the list
/// fails, the result for the whole list is that first failure.
pub proof fn lemma_infos_prefix_err(s: StateModel, ids: Seq<u64>, m: int)
    requires
        0 <= m <= ids.len(),
        s.infos_for(ids.subrange(0, m)) is Err,
    ensures
        s.infos_for(ids) == s.infos_for(ids.subrange(0, m)),
    decreases ids.len() - m,
{
    if m == ids.len() {
        assert(ids.subrange(0, m) =~= ids);
    } else {
        let p1 = ids.subrange(0, m + 1);
        assert(p1.drop_last() =~= ids.subrange(0, m));
        lemma_infos_prefix_err(s, ids, m + 1);
    }
}

} // verus!
