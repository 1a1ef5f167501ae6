//! The registry's record types, counters and error taxonomy.

use vstd::prelude::*;

use crate::identity::Identity;

verus! {

/// The closed set of errors that registry operations return. Errors are
/// always returned as values; no operation panics.
#[derive(Debug)]
pub enum CanisterError {
    AttemptedSelfTransfer,
    CertificateNotFound,
    TransactionNotFound,
    NotAuthorizedAsCustodian,
    NotAuthorizedAsHolder,
    NotAuthorizedAsIssuer,
    NotAuthorizedAsOperator,
    CertificateAlreadyExists,
    HolderNotFound,
    Other(String),
}

pub type CanisterResult<T> = Result<T, CanisterError>;

/// Aggregate counters of the registry.
#[derive(Clone, Copy, PartialEq, Eq, Structural)]
pub struct CanisterStats {
    /// Count of certificates minted and not burned.
    pub total_supply: u64,
    pub total_transactions: u64,
    /// Count of distinct identities that have ever held a certificate.
    pub total_unique_holders: u64,
    /// Host-reported remaining execution budget.
    pub cycles: u64,
}

impl CanisterStats {
    /// All counters start at zero.
    pub fn new() -> (r: Self)
        ensures
            r == (CanisterStats {
                total_supply: 0,
                total_transactions: 0,
                total_unique_holders: 0,
                cycles: 0,
            }),
    {
        CanisterStats { total_supply: 0, total_transactions: 0, total_unique_holders: 0, cycles: 0 }
    }
}

/// The abstract value of a certificate record.
pub struct CertModel {
    pub title: Seq<char>,
    pub description: Seq<char>,
    pub blob: Seq<u8>,
    pub holder: Seq<u8>,
    pub issuer: Seq<u8>,
    pub issued_at: u64,
    pub is_burned: bool,
    pub burned_at: Option<u64>,
    pub burned_by: Option<Seq<u8>>,
}

/// A certificate record: immutable after creation except for its burn
/// status. Burning marks the record void and clears the holder to the
/// "no identity" sentinel; the record itself is never deleted.
pub struct Certificate {
    pub title: String,
    pub description: String,
    pub blob: Vec<u8>,
    pub holder: Identity,
    pub issuer: Identity,
    pub issued_at: u64,
    pub is_burned: bool,
    pub burned_at: Option<u64>,
    pub burned_by: Option<Identity>,
}

pub open spec fn opt_identity_view(o: Option<Identity>) -> Option<Seq<u8>> {
    match o {
        Some(i) => Some(i@),
        None => None,
    }
}

pub open spec fn opt_string_view(o: Option<String>) -> Option<Seq<char>> {
    match o {
        Some(s) => Some(s@),
        None => None,
    }
}

impl View for Certificate {
    type V = CertModel;

    open spec fn view(&self) -> CertModel {
        CertModel {
            title: self.title@,
            description: self.description@,
            blob: self.blob@,
            holder: self.holder@,
            issuer: self.issuer@,
            issued_at: self.issued_at,
            is_burned: self.is_burned,
            burned_at: self.burned_at,
            burned_by: opt_identity_view(self.burned_by),
        }
    }
}

impl Certificate {
    /// A fresh, unburned record with the host-supplied issue timestamp.
    pub fn new(
        title: String,
        description: String,
        holder: Identity,
        issuer: Identity,
        blob: Vec<u8>,
        issued_at: u64,
    ) -> (r: Self)
        ensures
            r@ == (CertModel {
                title: title@,
                description: description@,
                blob: blob@,
                holder: holder@,
                issuer: issuer@,
                issued_at: issued_at,
                is_burned: false,
                burned_at: None,
                burned_by: None,
            }),
    {
        Certificate {
            title,
            description,
            blob,
            holder,
            issuer,
            issued_at,
            is_burned: false,
            burned_at: None,
            burned_by: None,
        }
    }
}

impl Clone for Certificate {
    fn clone(&self) -> (r: Self)
        ensures
            r@ == self@,
    {
        let blob = self.blob.clone();
        proof {
            assert(blob@ =~= self.blob@);
        }
        Certificate {
            title: self.title.clone(),
            description: self.description.clone(),
            blob,
            holder: self.holder.clone(),
            issuer: self.issuer.clone(),
            issued_at: self.issued_at,
            is_burned: self.is_burned,
            burned_at: self.burned_at,
            burned_by: match &self.burned_by {
                Some(i) => Some(i.clone()),
                None => None,
            },
        }
    }
}

/// The abstract value of a display record.
pub struct CertInfoModel {
    pub id: u64,
    pub title: Seq<char>,
    pub description: Seq<char>,
    pub issuer_name: Seq<char>,
    pub issuer_address: Seq<u8>,
    pub holder_name: Seq<char>,
    pub holder_address: Seq<u8>,
    pub issued_at: u64,
}

/// A certificate enriched for display: the record joined with the
/// registered display names of its issuer and holder.
pub struct CertificateInfo {
    pub id: u64,
    pub title: String,
    pub description: String,
    pub issuer_name: String,
    pub issuer_address: Identity,
    pub holder_name: String,
    pub holder_address: Identity,
    pub issued_at: u64,
}

impl View for CertificateInfo {
    type V = CertInfoModel;

    open spec fn view(&self) -> CertInfoModel {
        CertInfoModel {
            id: self.id,
            title: self.title@,
            description: self.description@,
            issuer_name: self.issuer_name@,
            issuer_address: self.issuer_address@,
            holder_name: self.holder_name@,
            holder_address: self.holder_address@,
            issued_at: self.issued_at,
        }
    }
}

/// The abstract value of the registry's configuration.
pub struct MetaModel {
    pub name: Seq<char>,
    pub symbol: Option<Seq<char>>,
    pub logo: Option<Seq<char>>,
    pub created_at: u64,
    pub upgraded_at: u64,
    /// The identities authorized to perform privileged mutations.
    pub custodians: Set<Seq<u8>>,
}

/// The set of abstract identity values held in a list of identities.
pub open spec fn identity_set(s: Seq<Identity>) -> Set<Seq<u8>> {
    Set::new(|k: Seq<u8>| exists|i: int| 0 <= i < s.len() && (#[trigger] s[i]@) == k)
}

/// Singleton configuration of the registry: display fields, timestamps
/// and the custodian allow-list.
pub struct CanisterMetaData {
    pub name: String,
    pub symbol: Option<String>,
    pub logo: Option<String>,
    pub created_at: u64,
    pub upgraded_at: u64,
    /// Accounts authorized to perform privileged mutations.
    pub custodians: Vec<Identity>,
}

impl View for CanisterMetaData {
    type V = MetaModel;

    open spec fn view(&self) -> MetaModel {
        MetaModel {
            name: self.name@,
            symbol: opt_string_view(self.symbol),
            logo: opt_string_view(self.logo),
            created_at: self.created_at,
            upgraded_at: self.upgraded_at,
            custodians: identity_set(self.custodians@),
        }
    }
}

impl CanisterMetaData {
    /// Fresh configuration with the default display name, no custodians,
    /// and the host-supplied creation timestamp.
    pub fn new(now: u64) -> (r: Self)
        ensures
            r@ == (MetaModel {
                name: "certify_v1"@,
                symbol: None,
                logo: None,
                created_at: now,
                upgraded_at: now,
                custodians: Set::<Seq<u8>>::empty(),
            }),
    {
        let r = CanisterMetaData {
            name: "certify_v1".to_owned(),
            symbol: None,
            logo: None,
            created_at: now,
            upgraded_at: now,
            custodians: Vec::new(),
        };
        proof {
            assert(identity_set(r.custodians@) =~= Set::<Seq<u8>>::empty());
        }
        r
    }
}

/// Membership of `caller` in the custodian allow-list.
pub fn is_listed(custodians: &Vec<Identity>, caller: &Identity) -> (r: bool)
    ensures
        r == identity_set(custodians@).contains(caller@),
{
    let n = custodians.len();
    let mut i: usize = 0;
    while i < n
        invariant
            n == custodians@.len(),
            i <= n,
            forall|j: int| 0 <= j < i ==> (#[trigger] custodians@[j]@) != caller@,
        decreases n - i,
    {
        let c = &custodians[i];
        if c.same_as(caller) {
            return true;
        }
        i += 1;
    }
    false
}

} // verus!
