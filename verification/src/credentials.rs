//! The credential set: an immutable set of staking credentials built once
//! per pipeline run from a wallet-declared address list. Membership queries
//! are its only operation.

use vstd::prelude::*;

use crate::address::decode;
use crate::address::spec_decode;
use crate::address::spec_staking_credential;
use crate::address::StakingCredential;

verus! {

impl DeepView for StakingCredential {
    type V = (bool, Seq<u8>);

    open spec fn deep_view(&self) -> (bool, Seq<u8>) {
        self@
    }
}

/// An immutable set of staking credentials.
pub struct CredentialSet {
    pub creds: Vec<StakingCredential>,
}

impl View for CredentialSet {
    type V = Set<(bool, Seq<u8>)>;

    open spec fn view(&self) -> Set<(bool, Seq<u8>)> {
        self.creds.deep_view().to_set()
    }
}

/// The credentials declared by a list of raw addresses: each address is
/// decoded, addresses that fail to decode or carry no staking credential
/// contribute nothing, and the rest contribute the credential they carry.
pub open spec fn spec_credentials_of(addrs: Seq<Seq<u8>>) -> Set<(bool, Seq<u8>)>
    decreases addrs.len(),
{
    if addrs.len() == 0 {
        Set::empty()
    } else {
        let prev = spec_credentials_of(addrs.drop_last());
        match spec_decode(addrs.last()) {
            Ok(m) => match spec_staking_credential(m) {
                Some(c) => prev.insert(c),
                None => prev,
            },
            Err(_) => prev,
        }
    }
}

impl CredentialSet {
    /// Build the set from a wallet-declared address list. Addresses that
    /// fail to decode, and addresses carrying no staking credential, are
    /// skipped.
    pub fn from_addresses(addrs: &Vec<Vec<u8>>) -> (r: CredentialSet)
        ensures
            r@ == spec_credentials_of(addrs.deep_view()),
    {
        let n = addrs.len();
        let mut cs = CredentialSet { creds: Vec::new() };
        assert(cs@ =~= spec_credentials_of(addrs.deep_view().take(0)));
        let mut i: usize = 0;
        while i < n
            invariant
                n == addrs@.len(),
                i <= n,
                cs@ == spec_credentials_of(addrs.deep_view().take(i as int)),
            decreases n - i,
        {
            let ghost prev = cs@;
            let ghost dv = addrs.deep_view();
            proof {
                assert(dv.take(i + 1).drop_last() =~= dv.take(i as int));
                assert(dv.take(i + 1).last() == dv[i as int]);
                assert(addrs[i as int]@ =~= dv[i as int]);
            }
            match decode(&addrs[i]) {
                Ok(a) => match a.staking_credential() {
                    Some(c) => {
                        let ghost old_seq = cs.creds.deep_view();
                        cs.creds.push(c.duplicate());
                        proof {
                            assert(cs.creds.deep_view() =~= old_seq + seq![c@]);
                            Seq::lemma_to_set_insert_commutes(old_seq, c@);
                            assert(cs@ =~= prev.insert(c@));
                        }
                    },
                    None => {},
                },
                Err(_) => {},
            }
            i += 1;
        }
        proof {
            assert(addrs.deep_view().take(n as int) =~= addrs.deep_view());
        }
        cs
    }

    /// Whether `c` is a member of the set.
    pub fn contains(&self, c: &StakingCredential) -> (r: bool)
        ensures
            r == self@.contains(c@),
    {
        let n = self.creds.len();
        let mut i: usize = 0;
        while i < n
            invariant
                n == self.creds@.len(),
                i <= n,
                forall|j: int| 0 <= j < i ==> self.creds.deep_view()[j] != c@,
            decreases n - i,
        {
            if self.creds[i].same_as(c) {
                assert(self.creds.deep_view()[i as int] == c@);
                assert(self.creds.deep_view().contains(c@));
                return true;
            }
            i += 1;
        }
        assert(!self.creds.deep_view().contains(c@));
        false
    }

    /// Whether the set is empty.
    pub fn is_empty(&self) -> (r: bool)
        ensures
            r == self@.is_empty(),
    {
        if self.creds.len() == 0 {
            assert(self@ =~= Set::<(bool, Seq<u8>)>::empty());
            true
        } else {
            assert(self.creds.deep_view().contains(self.creds.deep_view()[0]));
            assert(self@.contains(self.creds.deep_view()[0]));
            false
        }
    }
}

} // verus!
