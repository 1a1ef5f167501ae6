//! The registry itself: the primary store, the derived indices, and the
//! mint / burn / query operations.
//!
//! Every operation's contract is stated against the abstract `StateModel`;
//! mutations step the model exactly as the transition functions of
//! `crate::model` say, and every operation preserves the global invariant
//! `inv`. Errors are returned as values; no operation here panics, and no
//! operation mutates state before its validation has passed.

use vstd::prelude::*;
use vstd::string::StringExecFns;

use crate::directory::Directory;
use crate::identity::Identity;
use crate::keyed_list::KeyedList;
use crate::model::{
    lemma_burn_wf, lemma_infos_prefix_err, lemma_init_wf, lemma_mint_ok_shape, lemma_mint_wf,
    lemma_minted_id_fresh, MintRequest, RoleModel, StateModel,
};
use crate::types::{
    is_listed, CanisterError, CanisterMetaData, CanisterResult, CanisterStats, Certificate,
    CertificateInfo, CertInfoModel, MetaModel,
};

verus! {

/// Certificate ids are unsigned 64-bit integers, assigned contiguously
/// from 1 and never reused.
pub type CertificateId = u64;

/// One role's derived index: the certificate bucket per identity and the
/// display-name directory for that role.
struct RoleIndex {
    buckets: KeyedList<Identity, Vec<u64>>,
    names: Directory,
}

impl View for RoleIndex {
    type V = RoleModel;

    closed spec fn view(&self) -> RoleModel {
        RoleModel { buckets: self.buckets@, names: self.names@ }
    }
}

impl RoleIndex {
    spec fn lists_wf(self) -> bool {
        self.buckets.wf() && self.names.lists_wf()
    }

    fn new() -> (r: Self)
        ensures
            r.lists_wf(),
            r@ == RoleModel::empty(),
    {
        RoleIndex { buckets: KeyedList::new(), names: Directory::new() }
    }

    /// Files a freshly assigned id under its owner and binds the owner's
    /// display name first-writer-wins; reports whether the owner is new
    /// to this index.
    fn add_cert(&mut self, owner: Identity, id: u64, name: String) -> (fresh: bool)
        requires
            old(self).lists_wf(),
            old(self)@.names.wf(),
        ensures
            final(self).lists_wf(),
            final(self)@ == old(self)@.add_cert(owner@, id, name@),
            fresh == !old(self)@.buckets.contains_key(owner@),
    {
        let ghost pre = self@;
        let ghost o = owner@;
        let ghost nm = name@;
        let owner2 = owner.clone();
        let existing: Option<Vec<u64>> = match self.buckets.get(&owner) {
            Some(b) => {
                let nb = b.clone();
                proof {
                    assert(nb@ =~= b@);
                }
                Some(nb)
            },
            None => None,
        };
        let fresh: bool;
        match existing {
            Some(mut nb) => {
                nb.push(id);
                self.buckets.insert(owner, nb);
                fresh = false;
            },
            None => {
                let mut nb: Vec<u64> = Vec::new();
                nb.push(id);
                proof {
                    assert(nb@ =~= seq![id]);
                }
                self.buckets.insert(owner, nb);
                fresh = true;
            },
        }
        self.names.bind(name, owner2);
        proof {
            assert(self@ =~= pre.add_cert(o, id, nm));
        }
        fresh
    }
}

/// The registry state: the authoritative certificate store, its derived
/// indices, the counters and the configuration. All access to the fields
/// goes through the operations below, each of which preserves the global
/// invariant.
pub struct CanisterState {
    metadata: CanisterMetaData,
    stats: CanisterStats,
    certificates: Vec<Certificate>,
    holders: RoleIndex,
    issuers: RoleIndex,
}

/// The abstract value of an operation result carrying one display record.
pub open spec fn info_model(r: CanisterResult<CertificateInfo>) -> Result<
    CertInfoModel,
    CanisterError,
> {
    match r {
        Ok(i) => Ok(i@),
        Err(e) => Err(e),
    }
}

/// The abstract value of an operation result carrying display records.
pub open spec fn infos_model(r: CanisterResult<Vec<CertificateInfo>>) -> Result<
    Seq<CertInfoModel>,
    CanisterError,
> {
    match r {
        Ok(v) => Ok(v@.map_values(|i: CertificateInfo| i@)),
        Err(e) => Err(e),
    }
}

impl View for CanisterState {
    type V = StateModel;

    closed spec fn view(&self) -> StateModel {
        StateModel {
            metadata: self.metadata@,
            stats: self.stats,
            certificates: self.certificates@.map_values(|c: Certificate| c@),
            holders: self.holders@,
            issuers: self.issuers@,
        }
    }
}

impl CanisterState {
    spec fn lists_wf(self) -> bool {
        self.holders.lists_wf() && self.issuers.lists_wf()
    }

    /// The registry's invariant: the lookup tables are well-formed and the
    /// abstract state satisfies the global invariant. Established by `new`
    /// and preserved by every operation.
    pub closed spec fn inv(self) -> bool {
        self.lists_wf() && self@.wf()
    }

    /// A fresh registry with the host-supplied creation timestamp.
    pub fn new(now: u64) -> (r: Self)
        ensures
            r.inv(),
            r@ == StateModel::init(now),
    {
        let r = CanisterState {
            metadata: CanisterMetaData::new(now),
            stats: CanisterStats::new(),
            certificates: Vec::new(),
            holders: RoleIndex::new(),
            issuers: RoleIndex::new(),
        };
        proof {
            lemma_init_wf(now);
            assert(r@.certificates =~= Seq::<crate::types::CertModel>::empty());
            assert(r@ =~= StateModel::init(now));
        }
        r
    }

    /// A fresh registry whose custodian allow-list starts with the given
    /// identities — typically the deploying account, since every later
    /// change to the allow-list is gated on it.
    pub fn new_with_custodians(now: u64, custodians: Vec<Identity>) -> (r: Self)
        ensures
            r.inv(),
            r@ == (StateModel {
                metadata: (MetaModel {
                    custodians: crate::types::identity_set(custodians@),
                    ..StateModel::init(now).metadata
                }),
                ..StateModel::init(now)
            }),
    {
        let mut r = CanisterState::new(now);
        r.metadata.custodians = custodians;
        proof {
            crate::model::lemma_wf_set_metadata(StateModel::init(now), r@.metadata);
        }
        r
    }

    /// The authorization gate: `Ok` exactly when the caller is in the
    /// custodian allow-list. A pure predicate with no side effect.
    pub fn is_custodian_guard(&self, caller: &Identity) -> (r: CanisterResult<()>)
        ensures
            (r matches Ok(u) && u == ()) <==> self@.metadata.custodians.contains(caller@),
            r matches Err(e) ==> e == CanisterError::NotAuthorizedAsCustodian,
    {
        if is_listed(&self.metadata.custodians, caller) {
            Ok(())
        } else {
            Err(CanisterError::NotAuthorizedAsCustodian)
        }
    }

    /// The registry's configuration.
    pub fn get_metadata(&self) -> (r: &CanisterMetaData)
        ensures
            r@ == self@.metadata,
    {
        &self.metadata
    }

    /// The registry's counters.
    pub fn get_canister_stats(&self) -> (r: CanisterStats)
        ensures
            r == self@.stats,
    {
        self.stats
    }

    /// The configured logo reference, if any.
    pub fn get_canister_logo(&self) -> (r: Option<String>)
        ensures
            crate::types::opt_string_view(r) == self@.metadata.logo,
    {
        match &self.metadata.logo {
            Some(s) => Some(s.clone()),
            None => None,
        }
    }

    /// The configured display name.
    pub fn get_canister_name(&self) -> (r: String)
        ensures
            r@ == self@.metadata.name,
    {
        self.metadata.name.clone()
    }

    /// Replaces the display name; gated on the custodian allow-list.
    pub fn set_canister_name(&mut self, caller: &Identity, name: String) -> (r: CanisterResult<()>)
        requires
            old(self).inv(),
        ensures
            final(self).inv(),
            !old(self)@.metadata.custodians.contains(caller@) ==> (r matches Err(e) && e
                == CanisterError::NotAuthorizedAsCustodian && final(self)@ == old(self)@),
            old(self)@.metadata.custodians.contains(caller@) ==> (r matches Ok(u) && u == () && final(self)@ == (StateModel { metadata: (MetaModel { name: name@, ..old(self)@.metadata }), ..old(
                self,
            )@ })),
    {
        if !is_listed(&self.metadata.custodians, caller) {
            return Err(CanisterError::NotAuthorizedAsCustodian);
        }
        self.metadata.name = name;
        proof {
            crate::model::lemma_wf_set_metadata(old(self)@, self@.metadata);
        }
        Ok(())
    }

    /// The configured ticker symbol, if any.
    pub fn get_canister_symbol(&self) -> (r: Option<String>)
        ensures
            crate::types::opt_string_view(r) == self@.metadata.symbol,
    {
        match &self.metadata.symbol {
            Some(s) => Some(s.clone()),
            None => None,
        }
    }

    /// Replaces the ticker symbol; gated on the custodian allow-list.
    pub fn set_canister_symbol(&mut self, caller: &Identity, symbol: Option<String>) -> (r:
        CanisterResult<()>)
        requires
            old(self).inv(),
        ensures
            final(self).inv(),
            !old(self)@.metadata.custodians.contains(caller@) ==> (r matches Err(e) && e
                == CanisterError::NotAuthorizedAsCustodian && final(self)@ == old(self)@),
            old(self)@.metadata.custodians.contains(caller@) ==> (r matches Ok(u) && u == () && final(self)@ == (StateModel {
                metadata: (MetaModel {
                    symbol: crate::types::opt_string_view(symbol),
                    ..old(self)@.metadata
                }),
                ..old(self)@
            })),
    {
        if !is_listed(&self.metadata.custodians, caller) {
            return Err(CanisterError::NotAuthorizedAsCustodian);
        }
        self.metadata.symbol = symbol;
        proof {
            crate::model::lemma_wf_set_metadata(old(self)@, self@.metadata);
        }
        Ok(())
    }

    /// The custodian allow-list.
    pub fn get_canister_custodians(&self) -> (r: &Vec<Identity>)
        ensures
            crate::types::identity_set(r@) == self@.metadata.custodians,
    {
        &self.metadata.custodians
    }

    /// Replaces the custodian allow-list; gated on the current one.
    pub fn set_canister_custodians(&mut self, caller: &Identity, custodians: Vec<Identity>) -> (r:
        CanisterResult<()>)
        requires
            old(self).inv(),
        ensures
            final(self).inv(),
            !old(self)@.metadata.custodians.contains(caller@) ==> (r matches Err(e) && e
                == CanisterError::NotAuthorizedAsCustodian && final(self)@ == old(self)@),
            old(self)@.metadata.custodians.contains(caller@) ==> (r matches Ok(u) && u == () && final(self)@ == (StateModel {
                metadata: (MetaModel {
                    custodians: crate::types::identity_set(custodians@),
                    ..old(self)@.metadata
                }),
                ..old(self)@
            })),
    {
        if !is_listed(&self.metadata.custodians, caller) {
            return Err(CanisterError::NotAuthorizedAsCustodian);
        }
        self.metadata.custodians = custodians;
        proof {
            crate::model::lemma_wf_set_metadata(old(self)@, self@.metadata);
        }
        Ok(())
    }

    /// The host-reported remaining execution budget counter.
    pub fn get_canister_cycles(&self) -> (r: u64)
        ensures
            r == self@.stats.cycles,
    {
        self.stats.cycles
    }

    /// The count of distinct identities that have ever held a certificate.
    pub fn get_total_unique_holders(&self) -> (r: u64)
        ensures
            r == self@.stats.total_unique_holders,
    {
        self.stats.total_unique_holders
    }

    /// The stored record under an id, or `CertificateNotFound`.
    pub fn get_certificate(&self, certificate_id: CertificateId) -> (r: CanisterResult<Certificate>)
        ensures
            self@.has_cert(certificate_id) ==> (r matches Ok(c) && c@ == self@.cert(
                certificate_id,
            )),
            !self@.has_cert(certificate_id) ==> (r matches Err(e) && e
                == CanisterError::CertificateNotFound),
    {
        if 1 <= certificate_id && certificate_id <= (self.certificates.len() as u64) {
            let idx: usize = (certificate_id - 1) as usize;
            Ok(self.certificates[idx].clone())
        } else {
            Err(CanisterError::CertificateNotFound)
        }
    }

    /// The display record for an id: the stored record joined with the
    /// display names of its issuer and holder; `CertificateNotFound` for
    /// an unknown id, `HolderNotFound` when either identity has no
    /// registered name.
    pub fn get_certificate_info(&self, certificate_id: CertificateId) -> (r: CanisterResult<
        CertificateInfo,
    >)
        requires
            self.inv(),
        ensures
            info_model(r) == self@.cert_info(certificate_id),
    {
        if !(1 <= certificate_id && certificate_id <= (self.certificates.len() as u64)) {
            return Err(CanisterError::CertificateNotFound);
        }
        let idx: usize = (certificate_id - 1) as usize;
        let cert = &self.certificates[idx];
        let issuer_name = match self.issuers.names.display_name(&cert.issuer) {
            Some(n) => n.clone(),
            None => {
                return Err(CanisterError::HolderNotFound);
            },
        };
        let holder_name = match self.holders.names.display_name(&cert.holder) {
            Some(n) => n.clone(),
            None => {
                return Err(CanisterError::HolderNotFound);
            },
        };
        Ok(CertificateInfo {
            id: certificate_id,
            title: cert.title.clone(),
            description: cert.description.clone(),
            issuer_name,
            issuer_address: cert.issuer.clone(),
            holder_name,
            holder_address: cert.holder.clone(),
            issued_at: cert.issued_at,
        })
    }

    /// The holder identity recorded under an id.
    pub fn get_certificate_holder_principal(&self, certificate_id: u64) -> (r: CanisterResult<
        Identity,
    >)
        ensures
            self@.has_cert(certificate_id) ==> (r matches Ok(p) && p@ == self@.cert(
                certificate_id,
            ).holder),
            !self@.has_cert(certificate_id) ==> (r matches Err(e) && e
                == CanisterError::CertificateNotFound),
    {
        if 1 <= certificate_id && certificate_id <= (self.certificates.len() as u64) {
            let idx: usize = (certificate_id - 1) as usize;
            Ok(self.certificates[idx].holder.clone())
        } else {
            Err(CanisterError::CertificateNotFound)
        }
    }

    /// The registered display name of the holder recorded under an id.
    pub fn get_certificate_holder_name(&self, certificate_id: u64) -> (r: CanisterResult<String>)
        requires
            self.inv(),
        ensures
            !self@.has_cert(certificate_id) ==> (r matches Err(e) && e
                == CanisterError::CertificateNotFound),
            self@.has_cert(certificate_id)
                && !self@.holders.names.id_to_name.contains_key(self@.cert(certificate_id).holder)
                ==> (r matches Err(e) && e == CanisterError::HolderNotFound),
            self@.has_cert(certificate_id) && self@.holders.names.id_to_name.contains_key(
                self@.cert(certificate_id).holder,
            ) ==> (r matches Ok(n) && n@ == self@.holders.names.id_to_name[self@.cert(
                certificate_id,
            ).holder]),
    {
        if !(1 <= certificate_id && certificate_id <= (self.certificates.len() as u64)) {
            return Err(CanisterError::CertificateNotFound);
        }
        let idx: usize = (certificate_id - 1) as usize;
        match self.holders.names.display_name(&self.certificates[idx].holder) {
            Some(n) => Ok(n.clone()),
            None => Err(CanisterError::HolderNotFound),
        }
    }

    /// The issuer identity recorded under an id.
    pub fn get_certificate_issuer_principal(&self, certificate_id: u64) -> (r: CanisterResult<
        Identity,
    >)
        ensures
            self@.has_cert(certificate_id) ==> (r matches Ok(p) && p@ == self@.cert(
                certificate_id,
            ).issuer),
            !self@.has_cert(certificate_id) ==> (r matches Err(e) && e
                == CanisterError::CertificateNotFound),
    {
        if 1 <= certificate_id && certificate_id <= (self.certificates.len() as u64) {
            let idx: usize = (certificate_id - 1) as usize;
            Ok(self.certificates[idx].issuer.clone())
        } else {
            Err(CanisterError::CertificateNotFound)
        }
    }

    /// The registered display name of the issuer recorded under an id.
    pub fn get_certificate_issuer_name(&self, certificate_id: u64) -> (r: CanisterResult<String>)
        requires
            self.inv(),
        ensures
            !self@.has_cert(certificate_id) ==> (r matches Err(e) && e
                == CanisterError::CertificateNotFound),
            self@.has_cert(certificate_id)
                && !self@.issuers.names.id_to_name.contains_key(self@.cert(certificate_id).issuer)
                ==> (r matches Err(e) && e == CanisterError::HolderNotFound),
            self@.has_cert(certificate_id) && self@.issuers.names.id_to_name.contains_key(
                self@.cert(certificate_id).issuer,
            ) ==> (r matches Ok(n) && n@ == self@.issuers.names.id_to_name[self@.cert(
                certificate_id,
            ).issuer]),
    {
        if !(1 <= certificate_id && certificate_id <= (self.certificates.len() as u64)) {
            return Err(CanisterError::CertificateNotFound);
        }
        let idx: usize = (certificate_id - 1) as usize;
        match self.issuers.names.display_name(&self.certificates[idx].issuer) {
            Some(n) => Ok(n.clone()),
            None => Err(CanisterError::HolderNotFound),
        }
    }

    /// How many certificates an identity holds. An identity with no
    /// bucket — one that never held a certificate — is indistinguishable
    /// from an unknown identity: both fail with `HolderNotFound`.
    pub fn get_holder_certificate_count(&self, user: &Identity) -> (r: CanisterResult<u64>)
        requires
            self.inv(),
        ensures
            self@.holders.buckets.contains_key(user@) ==> (r matches Ok(n) && n
                == self@.holders.buckets[user@].len()),
            !self@.holders.buckets.contains_key(user@) ==> (r matches Err(e) && e
                == CanisterError::HolderNotFound),
    {
        match self.holders.buckets.get(user) {
            Some(b) => Ok(b.len() as u64),
            None => Err(CanisterError::HolderNotFound),
        }
    }

    /// How many certificates an identity has issued; `HolderNotFound`
    /// when the identity has no issuer bucket.
    pub fn get_issuer_certificate_count(&self, user: &Identity) -> (r: CanisterResult<u64>)
        requires
            self.inv(),
        ensures
            self@.issuers.buckets.contains_key(user@) ==> (r matches Ok(n) && n
                == self@.issuers.buckets[user@].len()),
            !self@.issuers.buckets.contains_key(user@) ==> (r matches Err(e) && e
                == CanisterError::HolderNotFound),
    {
        match self.issuers.buckets.get(user) {
            Some(b) => Ok(b.len() as u64),
            None => Err(CanisterError::HolderNotFound),
        }
    }

    /// The full records an identity holds, in the order their ids were
    /// filed; `HolderNotFound` when the identity has no bucket.
    pub fn get_certificates_by_holder(&self, user: &Identity) -> (r: CanisterResult<
        Vec<Certificate>,
    >)
        requires
            self.inv(),
        ensures
            self@.holders.buckets.contains_key(user@) ==> (r matches Ok(v) && v@.len()
                == self@.holders.buckets[user@].len() && (forall|j: int|
                0 <= j < v@.len() ==> (#[trigger] v@[j])@ == self@.cert(
                    self@.holders.buckets[user@][j],
                ))),
            !self@.holders.buckets.contains_key(user@) ==> (r matches Err(e) && e
                == CanisterError::HolderNotFound),
    {
        let bucket = match self.holders.buckets.get(user) {
            Some(b) => b,
            None => {
                return Err(CanisterError::HolderNotFound);
            },
        };
        let ghost ids = bucket@;
        let n = bucket.len();
        let mut out: Vec<Certificate> = Vec::new();
        let mut i: usize = 0;
        while i < n
            invariant
                self.inv(),
                self@.holders.buckets.contains_key(user@),
                ids == self@.holders.buckets[user@],
                bucket@ == ids,
                n == ids.len(),
                i <= n,
                out@.len() == i,
                forall|j: int| 0 <= j < i ==> (#[trigger] out@[j])@ == self@.cert(ids[j]),
            decreases n - i,
        {
            let id = bucket[i];
            proof {
                assert(self@.bucket_ok(self@.holders.buckets[user@]));
                assert(self@.has_cert(ids[i as int]));
                assert(self.certificates@.len() == self.certificates.len());
                assert(1 <= id && id as int <= self.certificates@.len());
            }
            let idx: usize = (id - 1) as usize;
            out.push(self.certificates[idx].clone());
            proof {
                assert(out@.last()@ == self@.cert(ids[i as int]));
            }
            i += 1;
        }
        Ok(out)
    }

    /// The full records an identity has issued; `HolderNotFound` when the
    /// identity has no issuer bucket.
    pub fn get_certificates_by_issuer(&self, user: &Identity) -> (r: CanisterResult<
        Vec<Certificate>,
    >)
        requires
            self.inv(),
        ensures
            self@.issuers.buckets.contains_key(user@) ==> (r matches Ok(v) && v@.len()
                == self@.issuers.buckets[user@].len() && (forall|j: int|
                0 <= j < v@.len() ==> (#[trigger] v@[j])@ == self@.cert(
                    self@.issuers.buckets[user@][j],
                ))),
            !self@.issuers.buckets.contains_key(user@) ==> (r matches Err(e) && e
                == CanisterError::HolderNotFound),
    {
        let bucket = match self.issuers.buckets.get(user) {
            Some(b) => b,
            None => {
                return Err(CanisterError::HolderNotFound);
            },
        };
        let ghost ids = bucket@;
        let n = bucket.len();
        let mut out: Vec<Certificate> = Vec::new();
        let mut i: usize = 0;
        while i < n
            invariant
                self.inv(),
                self@.issuers.buckets.contains_key(user@),
                ids == self@.issuers.buckets[user@],
                bucket@ == ids,
                n == ids.len(),
                i <= n,
                out@.len() == i,
                forall|j: int| 0 <= j < i ==> (#[trigger] out@[j])@ == self@.cert(ids[j]),
            decreases n - i,
        {
            let id = bucket[i];
            proof {
                assert(self@.bucket_ok(self@.issuers.buckets[user@]));
                assert(self@.has_cert(ids[i as int]));
                assert(self.certificates@.len() == self.certificates.len());
                assert(1 <= id && id as int <= self.certificates@.len());
            }
            let idx: usize = (id - 1) as usize;
            out.push(self.certificates[idx].clone());
            proof {
                assert(out@.last()@ == self@.cert(ids[i as int]));
            }
            i += 1;
        }
        Ok(out)
    }

    /// The display records of every certificate held by the identity a
    /// holder display name resolves to. Fails with `HolderNotFound` for an
    /// unbound name or a bucketless identity, and with the join's error
    /// when some certificate's names cannot be resolved.
    pub fn get_certificates_info_by_holder_name(&self, holder_name: String) -> (r: CanisterResult<
        Vec<CertificateInfo>,
    >)
        requires
            self.inv(),
        ensures
            infos_model(r) == self@.infos_by_holder_name(holder_name@),
    {
        let ghost nm = holder_name@;
        let holder_principal = match self.holders.names.resolve(&holder_name) {
            Some(p) => p,
            None => {
                return Err(CanisterError::HolderNotFound);
            },
        };
        let bucket = match self.holders.buckets.get(holder_principal) {
            Some(b) => b,
            None => {
                return Err(CanisterError::HolderNotFound);
            },
        };
        let ghost ids = bucket@;
        let n = bucket.len();
        let mut out: Vec<CertificateInfo> = Vec::new();
        proof {
            assert(ids.subrange(0, 0) =~= Seq::<u64>::empty());
            assert(out@.map_values(|x: CertificateInfo| x@) =~= Seq::<CertInfoModel>::empty());
        }
        let mut i: usize = 0;
        while i < n
            invariant
                self.inv(),
                nm == holder_name@,
                self@.holders.names.name_to_id.contains_key(nm),
                self@.holders.buckets.contains_key(self@.holders.names.name_to_id[nm]),
                ids == self@.holders.buckets[self@.holders.names.name_to_id[nm]],
                bucket@ == ids,
                n == ids.len(),
                i <= n,
                self@.infos_for(ids.subrange(0, i as int)) == Ok::<
                    Seq<CertInfoModel>,
                    CanisterError,
                >(out@.map_values(|x: CertificateInfo| x@)),
            decreases n - i,
        {
            let id = bucket[i];
            let ghost m0 = out@.map_values(|x: CertificateInfo| x@);
            match self.get_certificate_info(id) {
                Ok(info) => {
                    out.push(info);
                    proof {
                        assert(ids.subrange(0, (i + 1) as int).drop_last() =~= ids.subrange(
                            0,
                            i as int,
                        ));
                        assert(ids.subrange(0, (i + 1) as int).last() == ids[i as int]);
                        assert(out@.map_values(|x: CertificateInfo| x@) =~= m0.push(out@.last()@));
                    }
                },
                Err(e) => {
                    proof {
                        assert(ids.subrange(0, (i + 1) as int).drop_last() =~= ids.subrange(
                            0,
                            i as int,
                        ));
                        assert(ids.subrange(0, (i + 1) as int).last() == ids[i as int]);
                        assert(self@.infos_for(ids.subrange(0, (i + 1) as int)) == Err::<
                            Seq<CertInfoModel>,
                            CanisterError,
                        >(e));
                        lemma_infos_prefix_err(self@, ids, (i + 1) as int);
                    }
                    return Err(e);
                },
            }
            i += 1;
        }
        proof {
            assert(ids.subrange(0, n as int) =~= ids);
        }
        Ok(out)
    }

    /// The display records of every certificate issued by the identity an
    /// issuer display name resolves to; fails as the holder-name lookup
    /// does.
    pub fn get_certificates_info_by_issuer_name(&self, issuer_name: String) -> (r: CanisterResult<
        Vec<CertificateInfo>,
    >)
        requires
            self.inv(),
        ensures
            infos_model(r) == self@.infos_by_issuer_name(issuer_name@),
    {
        let ghost nm = issuer_name@;
        let issuer_principal = match self.issuers.names.resolve(&issuer_name) {
            Some(p) => p,
            None => {
                return Err(CanisterError::HolderNotFound);
            },
        };
        let bucket = match self.issuers.buckets.get(issuer_principal) {
            Some(b) => b,
            None => {
                return Err(CanisterError::HolderNotFound);
            },
        };
        let ghost ids = bucket@;
        let n = bucket.len();
        let mut out: Vec<CertificateInfo> = Vec::new();
        proof {
            assert(ids.subrange(0, 0) =~= Seq::<u64>::empty());
            assert(out@.map_values(|x: CertificateInfo| x@) =~= Seq::<CertInfoModel>::empty());
        }
        let mut i: usize = 0;
        while i < n
            invariant
                self.inv(),
                nm == issuer_name@,
                self@.issuers.names.name_to_id.contains_key(nm),
                self@.issuers.buckets.contains_key(self@.issuers.names.name_to_id[nm]),
                ids == self@.issuers.buckets[self@.issuers.names.name_to_id[nm]],
                bucket@ == ids,
                n == ids.len(),
                i <= n,
                self@.infos_for(ids.subrange(0, i as int)) == Ok::<
                    Seq<CertInfoModel>,
                    CanisterError,
                >(out@.map_values(|x: CertificateInfo| x@)),
            decreases n - i,
        {
            let id = bucket[i];
            let ghost m0 = out@.map_values(|x: CertificateInfo| x@);
            match self.get_certificate_info(id) {
                Ok(info) => {
                    out.push(info);
                    proof {
                        assert(ids.subrange(0, (i + 1) as int).drop_last() =~= ids.subrange(
                            0,
                            i as int,
                        ));
                        assert(ids.subrange(0, (i + 1) as int).last() == ids[i as int]);
                        assert(out@.map_values(|x: CertificateInfo| x@) =~= m0.push(out@.last()@));
                    }
                },
                Err(e) => {
                    proof {
                        assert(ids.subrange(0, (i + 1) as int).drop_last() =~= ids.subrange(
                            0,
                            i as int,
                        ));
                        assert(ids.subrange(0, (i + 1) as int).last() == ids[i as int]);
                        assert(self@.infos_for(ids.subrange(0, (i + 1) as int)) == Err::<
                            Seq<CertInfoModel>,
                            CanisterError,
                        >(e));
                        lemma_infos_prefix_err(self@, ids, (i + 1) as int);
                    }
                    return Err(e);
                },
            }
            i += 1;
        }
        proof {
            assert(ids.subrange(0, n as int) =~= ids);
        }
        Ok(out)
    }

    /// Mints a certificate, as one atomic step: the record is inserted
    /// under the next id, the id is filed under holder and issuer (raising
    /// the unique-holder counter exactly when the holder is new), both
    /// display names are bound first-writer-wins, and the supply rises by
    /// one. The assigned id is strictly greater than every stored id and
    /// was absent from the store before the call. When the id would
    /// collide with a stored id — which a lowered supply after a burn can
    /// cause — the mint fails with `CertificateAlreadyExists` and nothing
    /// changes.
    pub fn mint_certificate(
        &mut self,
        title: String,
        description: String,
        holder_principal: Identity,
        holder_name: String,
        issuer_principal: Identity,
        issuer_name: String,
        blob: Vec<u8>,
        now: u64,
    ) -> (r: CanisterResult<CertificateId>)
        requires
            old(self).inv(),
            old(self)@.stats.total_supply < u64::MAX,
        ensures
            final(self).inv(),
            !old(self)@.mint_ok() ==> (r matches Err(e) && e
                == CanisterError::CertificateAlreadyExists && final(self)@ == old(self)@),
            old(self)@.mint_ok() ==> ({
                let q = (MintRequest {
                    title: title@,
                    description: description@,
                    blob: blob@,
                    holder: holder_principal@,
                    holder_name: holder_name@,
                    issuer: issuer_principal@,
                    issuer_name: issuer_name@,
                    now: now,
                });
                &&& r matches Ok(id) && id == old(self)@.minted_id()
                &&& !old(self)@.has_cert(old(self)@.minted_id())
                &&& forall|x: u64| #[trigger] old(self)@.has_cert(x) ==> x < old(self)@.minted_id()
                &&& final(self)@ == old(self)@.mint_model(q)
            }),
    {
        let supply = self.stats.total_supply;
        if supply < (self.certificates.len() as u64) {
            return Err(CanisterError::CertificateAlreadyExists);
        }
        let ghost pre = self@;
        let ghost q = MintRequest {
            title: title@,
            description: description@,
            blob: blob@,
            holder: holder_principal@,
            holder_name: holder_name@,
            issuer: issuer_principal@,
            issuer_name: issuer_name@,
            now: now,
        };
        proof {
            lemma_mint_ok_shape(pre);
            lemma_minted_id_fresh(pre, q);
            lemma_mint_wf(pre, q);
        }
        let certificate_id = supply + 1;
        let holder2 = holder_principal.clone();
        let issuer2 = issuer_principal.clone();
        let certificate = Certificate::new(title, description, holder2, issuer2, blob, now);
        self.certificates.push(certificate);
        let fresh = self.holders.add_cert(holder_principal, certificate_id, holder_name);
        let _issuer_fresh = self.issuers.add_cert(issuer_principal, certificate_id, issuer_name);
        if fresh {
            proof {
                assert(self.stats.total_unique_holders < u64::MAX);
            }
            self.stats.total_unique_holders = self.stats.total_unique_holders + 1;
        }
        self.stats.total_supply = certificate_id;
        proof {
            assert(self@.certificates =~= pre.certificates.push(q.cert_model()));
            assert(self@ =~= pre.mint_model(q));
        }
        Ok(certificate_id)
    }

    /// Burns a stored certificate: gated on the custodian allow-list, it
    /// marks the record burned with the caller and timestamp, clears the
    /// holder to the "no identity" sentinel, and lowers the supply by one.
    /// The record stays in the store and in the holder and issuer indices.
    /// An unknown id fails with `CertificateNotFound`; a record already
    /// burned fails with `Other` and changes nothing.
    pub fn burn_certificate(
        &mut self,
        certificate_id: CertificateId,
        caller: &Identity,
        now: u64,
    ) -> (r: CanisterResult<()>)
        requires
            old(self).inv(),
        ensures
            final(self).inv(),
            !old(self)@.metadata.custodians.contains(caller@) ==> (r matches Err(e) && e
                == CanisterError::NotAuthorizedAsCustodian && final(self)@ == old(self)@),
            old(self)@.metadata.custodians.contains(caller@) && !old(self)@.has_cert(certificate_id)
                ==> (r matches Err(e) && e == CanisterError::CertificateNotFound && final(self)@
                == old(self)@),
            old(self)@.metadata.custodians.contains(caller@) && old(self)@.has_cert(certificate_id)
                && old(self)@.cert(certificate_id).is_burned ==> (r matches Err(e) && (
            e matches CanisterError::Other(_)) && final(self)@ == old(self)@),
            old(self)@.metadata.custodians.contains(caller@) && old(self)@.has_cert(certificate_id)
                && !old(self)@.cert(certificate_id).is_burned ==> (r matches Ok(u) && u == ()
                && final(self)@ == old(self)@.burn_model(certificate_id, caller@, now)),
    {
        if !is_listed(&self.metadata.custodians, caller) {
            return Err(CanisterError::NotAuthorizedAsCustodian);
        }
        if !(1 <= certificate_id && certificate_id <= (self.certificates.len() as u64)) {
            return Err(CanisterError::CertificateNotFound);
        }
        let idx: usize = (certificate_id - 1) as usize;
        if self.certificates[idx].is_burned {
            return Err(CanisterError::Other("certificate already burned".to_owned()));
        }
        let ghost pre = self@;
        proof {
            lemma_burn_wf(pre, certificate_id, caller@, now);
        }
        let burned_by = Some(caller.clone());
        {
            let c = &mut self.certificates[idx];
            c.is_burned = true;
            c.burned_at = Some(now);
            c.burned_by = burned_by;
            c.holder = Identity::none();
        }
        self.stats.total_supply = self.stats.total_supply - 1;
        proof {
            let post_model = pre.burn_model(certificate_id, caller@, now);
            assert(self@.certificates =~= post_model.certificates);
            assert(self@ =~= post_model);
        }
        Ok(())
    }
}

/// The greeting used by the echo entry point.
pub fn greet(name: String) -> (r: String)
    ensures
        r@ == "Hello, "@ + name@ + "!"@,
{
    let r = "Hello, ".to_owned();
    let r = r.concat(name.as_str());
    let r = r.concat("!");
    r
}

} // verus!
