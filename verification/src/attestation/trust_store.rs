//! The roots that a commissioner trusts.

use crate::attestation::error::AttestationError;
use crate::attestation::x509::{paa_of, x509_certificate, Paa, PaaView};
use vstd::prelude::*;

verus! {

/// The root certificates that a commissioner trusts, in the order in which they
/// were added.
#[derive(Debug, Clone)]
pub struct PaaTrustStore {
    roots: Vec<Paa>,
}

impl View for PaaTrustStore {
    type V = Seq<PaaView>;

    closed spec fn view(&self) -> Seq<PaaView> {
        self.roots@.map_values(|paa: Paa| paa@)
    }
}

impl PaaTrustStore {
    /// A store without roots.
    pub fn empty() -> (store: Self)
        ensures
            store@ == Seq::<PaaView>::empty(),
    {
        let store = PaaTrustStore { roots: Vec::new() };
        proof {
            assert(store@ =~= Seq::<PaaView>::empty());
        }
        store
    }

    /// A store with two roots for tests: one that is bound to a vendor and one
    /// that is not. Both are handed in as DER; never use them in production.
    pub fn with_csa_test_roots(fff1_der: &[u8], novid_der: &[u8]) -> (r: Result<
        Self,
        AttestationError,
    >)
        ensures
            match (
                paa_of(fff1_der@, x509_certificate(fff1_der@)),
                paa_of(novid_der@, x509_certificate(novid_der@)),
            ) {
                (Ok(a), Ok(b)) => r matches Ok(store) && store@ == seq![a, b],
                (Err(e), _) => r == Err::<Self, AttestationError>(AttestationError::Parse(e)),
                (Ok(_), Err(e)) => r == Err::<Self, AttestationError>(AttestationError::Parse(e)),
            },
    {
        let scoped = match Paa::from_der(fff1_der) {
            Ok(paa) => paa,
            Err(e) => {
                return Err(e);
            },
        };
        let unscoped = match Paa::from_der(novid_der) {
            Ok(paa) => paa,
            Err(e) => {
                return Err(e);
            },
        };
        let mut store = PaaTrustStore::empty();
        store.add(scoped);
        store.add(unscoped);
        proof {
            assert(store@ =~= seq![scoped@, unscoped@]);
        }
        Ok(store)
    }

    /// Adds a root behind the others.
    pub fn add(&mut self, paa: Paa)
        ensures
            final(self)@ == old(self)@.push(paa@),
    {
        self.roots.push(paa);
        proof {
            assert(self@ =~= old(self)@.push(paa@));
        }
    }

    /// How many roots there are.
    pub fn len(&self) -> (n: usize)
        ensures
            n == self@.len(),
    {
        self.roots.len()
    }

    /// Whether there is no root.
    pub fn is_empty(&self) -> (empty: bool)
        ensures
            empty == (self@.len() == 0),
    {
        self.roots.len() == 0
    }

    /// The roots, in the order in which they were added.
    pub fn iter(&self) -> (roots: Vec<&Paa>)
        ensures
            roots@.map_values(|paa: &Paa| paa@) == self@,
    {
        let mut roots: Vec<&Paa> = Vec::new();
        let mut i: usize = 0;
        while i < self.roots.len()
            invariant
                i <= self.roots@.len(),
                roots@.len() == i,
                forall|j: int| 0 <= j < i ==> *#[trigger] roots@[j] == self.roots@[j],
            decreases self.roots@.len() - i,
        {
            roots.push(&self.roots[i]);
            i = i + 1;
        }
        proof {
            assert(roots@.map_values(|paa: &Paa| paa@) =~= self@);
        }
        roots
    }

    /// The root at the given place.
    pub fn get(&self, i: usize) -> (paa: &Paa)
        requires
            i < self@.len(),
        ensures
            paa@ == self@[i as int],
    {
        &self.roots[i]
    }
}

} // verus!
