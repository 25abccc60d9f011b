//! The address model: decoding raw on-chain address bytes into the
//! discriminated union of address kinds, and extracting the staking
//! credential an address carries.
//!
//! The byte layout follows CIP-19: the first byte's high nibble selects the
//! address kind, the low nibble carries the network tag (which this model
//! does not interpret). Kinds 0 through 7 are standard (Shelley) addresses,
//! kind 8 is the legacy (Byron) encoding, kinds 14 and 15 are stake-only
//! addresses, and everything else is rejected.

use vstd::prelude::*;

verus! {

/// A staking credential: the 28-byte hash identifying a stake-delegation
/// identity, together with whether it is a script hash rather than a key
/// hash.
pub struct StakingCredential {
    pub is_script: bool,
    pub hash: Vec<u8>,
}

impl View for StakingCredential {
    type V = (bool, Seq<u8>);

    open spec fn view(&self) -> (bool, Seq<u8>) {
        (self.is_script, self.hash@)
    }
}

/// A decoded address: either the legacy encoding (kept whole, since it
/// carries no separately addressable credential), a standard address with a
/// payment credential and an optional staking credential, or a stake-only
/// address.
#[allow(inconsistent_fields)]
pub enum Address {
    Legacy { raw: Vec<u8> },
    Standard { payment_script: bool, payment_hash: Vec<u8>, staking: Option<StakingCredential> },
    StakeOnly { staking: StakingCredential },
}

/// The mathematical value of an [`Address`].
#[verifier::ext_equal]
#[allow(inconsistent_fields)]
pub enum AddressModel {
    Legacy { raw: Seq<u8> },
    Standard { payment_script: bool, payment_hash: Seq<u8>, staking: Option<(bool, Seq<u8>)> },
    StakeOnly { staking: (bool, Seq<u8>) },
}

impl View for Address {
    type V = AddressModel;

    open spec fn view(&self) -> AddressModel {
        match self {
            Address::Legacy { raw } => AddressModel::Legacy { raw: raw@ },
            Address::Standard { payment_script, payment_hash, staking } => AddressModel::Standard {
                payment_script: *payment_script,
                payment_hash: payment_hash@,
                staking: match staking {
                    Some(c) => Some(c@),
                    None => None,
                },
            },
            Address::StakeOnly { staking } => AddressModel::StakeOnly { staking: staking@ },
        }
    }
}

/// Why a byte string failed to decode as an address. Decode failure is an
/// expected, per-item condition: batch processing skips the offending item.
#[derive(Debug, PartialEq, Eq, Structural)]
pub enum DecodeError {
    /// The input was empty: there is no header byte.
    MissingHeader,
    /// The header's kind nibble names no known address kind.
    InvalidHeader { header: u8 },
    /// The payload after the header is too short for the stated kind.
    WrongLength { length: usize },
    /// A pointer-kind address whose stake pointer is truncated.
    InvalidPointer,
    /// A legacy-kind address whose payload is not well formed.
    MalformedLegacy,
}

/// Whether the bytes of a kind-8 (legacy) address are a well-formed legacy
/// payload. Named, not defined: only the legacy codec itself decides, and
/// its answer depends on the bytes alone.
pub uninterp spec fn byron_decodable(raw: Seq<u8>) -> bool;

/// Relies on `cardano_connector::Address::from_bytes`: bytes whose header
/// nibble is 8 decode to a Byron address exactly when their payload is
/// well-formed CBOR for that encoding; the outcome depends on the bytes
/// alone.
#[verifier::external_body]
fn byron_accepted(raw: &Vec<u8>) -> (r: bool)
    requires
        raw@.len() > 0,
        raw@[0] / 16 == 8,
    ensures
        r == byron_decodable(raw@),
{
    matches!(
        cardano_connector::Address::from_bytes(raw.as_slice()),
        Ok(cardano_connector::Address::Byron(_))
    )
}

/// Where the variable-length integer that starts at index `i` of `s` ends,
/// given the value `acc` accumulated so far: each byte contributes its low
/// seven bits, a clear high bit ends the integer, and a value that has
/// already outgrown `u64` ends it early (the reader gives up and yields the
/// maximum). `None` means the bytes ran out first.
pub open spec fn varuint_end(s: Seq<u8>, i: int, acc: nat) -> Option<int>
    decreases s.len() - i,
{
    if i < 0 || i >= s.len() {
        None
    } else {
        let v = acc * 128 + (s[i] % 128) as nat;
        if v > u64::MAX as nat {
            Some(i + 1)
        } else if s[i] < 128 {
            Some(i + 1)
        } else {
            varuint_end(s, i + 1, v)
        }
    }
}

/// Whether a pointer-kind address's trailing bytes (everything after the
/// header and the 28-byte payment hash, i.e. from index 29 on) hold three
/// complete variable-length integers: slot, transaction index, certificate
/// index.
pub open spec fn spec_pointer_ok(raw: Seq<u8>) -> bool {
    match varuint_end(raw, 29, 0) {
        Some(i) => match varuint_end(raw, i, 0) {
            Some(j) => varuint_end(raw, j, 0) is Some,
            None => false,
        },
        None => false,
    }
}

/// What a byte string decodes to. Total: every input is either one address
/// value or one error.
pub open spec fn spec_decode(raw: Seq<u8>) -> Result<AddressModel, DecodeError> {
    if raw.len() == 0 {
        Err(DecodeError::MissingHeader)
    } else {
        let t = raw[0] / 16;
        if t <= 3 {
            if raw.len() < 57 {
                Err(DecodeError::WrongLength { length: (raw.len() - 1) as usize })
            } else {
                Ok(AddressModel::Standard {
                    payment_script: t == 1 || t == 3,
                    payment_hash: raw.subrange(1, 29),
                    staking: Some((t == 2 || t == 3, raw.subrange(29, 57))),
                })
            }
        } else if t == 4 || t == 5 {
            if raw.len() < 30 {
                Err(DecodeError::WrongLength { length: (raw.len() - 1) as usize })
            } else if !spec_pointer_ok(raw) {
                Err(DecodeError::InvalidPointer)
            } else {
                Ok(AddressModel::Standard {
                    payment_script: t == 5,
                    payment_hash: raw.subrange(1, 29),
                    staking: None,
                })
            }
        } else if t == 6 || t == 7 {
            if raw.len() < 29 {
                Err(DecodeError::WrongLength { length: (raw.len() - 1) as usize })
            } else {
                Ok(AddressModel::Standard {
                    payment_script: t == 7,
                    payment_hash: raw.subrange(1, 29),
                    staking: None,
                })
            }
        } else if t == 8 {
            if byron_decodable(raw) {
                Ok(AddressModel::Legacy { raw: raw })
            } else {
                Err(DecodeError::MalformedLegacy)
            }
        } else if t == 14 || t == 15 {
            if raw.len() < 29 {
                Err(DecodeError::WrongLength { length: (raw.len() - 1) as usize })
            } else {
                Ok(AddressModel::StakeOnly { staking: (t == 15, raw.subrange(1, 29)) })
            }
        } else {
            Err(DecodeError::InvalidHeader { header: raw[0] })
        }
    }
}

/// The staking credential an address carries: none for legacy addresses,
/// the optional staking part for standard addresses, the payload for
/// stake-only addresses.
pub open spec fn spec_staking_credential(m: AddressModel) -> Option<(bool, Seq<u8>)> {
    match m {
        AddressModel::Legacy { .. } => None,
        AddressModel::Standard { staking, .. } => staking,
        AddressModel::StakeOnly { staking } => Some(staking),
    }
}

/// Compare two byte vectors for equality of contents.
pub fn bytes_eq(a: &Vec<u8>, b: &Vec<u8>) -> (r: bool)
    ensures
        r == (a@ == b@),
{
    if a.len() != b.len() {
        return false;
    }
    let n = a.len();
    let mut i: usize = 0;
    while i < n
        invariant
            n == a@.len() == b@.len(),
            i <= n,
            forall|j: int| 0 <= j < i ==> a@[j] == b@[j],
        decreases n - i,
    {
        if a[i] != b[i] {
            return false;
        }
        i += 1;
    }
    assert(a@ =~= b@);
    true
}

/// Copy the bytes of `v` from index `from` (inclusive) to `to` (exclusive).
pub fn copy_range(v: &Vec<u8>, from: usize, to: usize) -> (r: Vec<u8>)
    requires
        from <= to <= v@.len(),
    ensures
        r@ == v@.subrange(from as int, to as int),
{
    let mut r: Vec<u8> = Vec::new();
    let mut i: usize = from;
    while i < to
        invariant
            from <= i <= to <= v@.len(),
            r@ == v@.subrange(from as int, i as int),
        decreases to - i,
    {
        r.push(v[i]);
        assert(r@ =~= v@.subrange(from as int, i + 1));
        i += 1;
    }
    r
}

/// Find where the variable-length integer starting at `start` ends, or
/// `None` if the bytes run out first.
fn varuint_scan(v: &Vec<u8>, start: usize) -> (r: Option<usize>)
    ensures
        (match r {
            Some(e) => varuint_end(v@, start as int, 0) == Some(e as int) && e <= v@.len(),
            None => varuint_end(v@, start as int, 0) is None,
        }),
{
    let mut i: usize = start;
    let mut acc: u128 = 0;
    loop
        invariant
            start <= i,
            acc <= u64::MAX as u128,
            varuint_end(v@, start as int, 0) == varuint_end(v@, i as int, acc as nat),
        decreases v@.len() - i,
    {
        if i >= v.len() {
            return None;
        }
        let b = v[i];
        let next: u128 = acc * 128 + (b % 128) as u128;
        if next > u64::MAX as u128 {
            return Some(i + 1);
        }
        if b < 128 {
            return Some(i + 1);
        }
        acc = next;
        i += 1;
    }
}

/// Check the three stake-pointer integers of a pointer-kind address.
fn pointer_well_formed(v: &Vec<u8>) -> (r: bool)
    ensures
        r == spec_pointer_ok(v@),
{
    let first = match varuint_scan(v, 29) {
        Some(e) => e,
        None => {
            return false;
        },
    };
    let second = match varuint_scan(v, first) {
        Some(e) => e,
        None => {
            return false;
        },
    };
    varuint_scan(v, second).is_some()
}

/// Decode raw address bytes into an [`Address`].
///
/// Pure and total: it returns exactly the value or the error that
/// [`spec_decode`] assigns to the bytes, and never fails the batch it is
/// called from.
pub fn decode(raw: &Vec<u8>) -> (r: Result<Address, DecodeError>)
    ensures
        (r matches Ok(a) && spec_decode(raw@) matches Ok(m) && a@ == m) || (r matches Err(e)
            && spec_decode(raw@) matches Err(m) && e == m),
{
    if raw.len() == 0 {
        return Err(DecodeError::MissingHeader);
    }
    let header = raw[0];
    let t = header / 16;
    if t <= 3 {
        if raw.len() < 57 {
            Err(DecodeError::WrongLength { length: raw.len() - 1 })
        } else {
            Ok(Address::Standard {
                payment_script: t == 1 || t == 3,
                payment_hash: copy_range(raw, 1, 29),
                staking: Some(
                    StakingCredential { is_script: t == 2 || t == 3, hash: copy_range(raw, 29, 57) },
                ),
            })
        }
    } else if t == 4 || t == 5 {
        if raw.len() < 30 {
            Err(DecodeError::WrongLength { length: raw.len() - 1 })
        } else if !pointer_well_formed(raw) {
            Err(DecodeError::InvalidPointer)
        } else {
            Ok(Address::Standard {
                payment_script: t == 5,
                payment_hash: copy_range(raw, 1, 29),
                staking: None,
            })
        }
    } else if t == 6 || t == 7 {
        if raw.len() < 29 {
            Err(DecodeError::WrongLength { length: raw.len() - 1 })
        } else {
            Ok(Address::Standard {
                payment_script: t == 7,
                payment_hash: copy_range(raw, 1, 29),
                staking: None,
            })
        }
    } else if t == 8 {
        if byron_accepted(raw) {
            Ok(Address::Legacy { raw: clone_bytes(raw) })
        } else {
            Err(DecodeError::MalformedLegacy)
        }
    } else if t == 14 || t == 15 {
        if raw.len() < 29 {
            Err(DecodeError::WrongLength { length: raw.len() - 1 })
        } else {
            Ok(Address::StakeOnly {
                staking: StakingCredential { is_script: t == 15, hash: copy_range(raw, 1, 29) },
            })
        }
    } else {
        Err(DecodeError::InvalidHeader { header })
    }
}

impl StakingCredential {
    /// Compare two credentials for equality of their abstract value.
    pub fn same_as(&self, other: &StakingCredential) -> (r: bool)
        ensures
            r == (self@ == other@),
    {
        self.is_script == other.is_script && bytes_eq(&self.hash, &other.hash)
    }

    /// Copy this credential.
    pub fn duplicate(&self) -> (r: StakingCredential)
        ensures
            r@ == self@,
    {
        StakingCredential { is_script: self.is_script, hash: clone_bytes(&self.hash) }
    }
}

/// Copy a byte vector.
pub fn clone_bytes(v: &Vec<u8>) -> (r: Vec<u8>)
    ensures
        r@ == v@,
{
    let r = copy_range(v, 0, v.len());
    assert(v@.subrange(0, v@.len() as int) =~= v@);
    r
}

impl Address {
    /// Whether this is a legacy address.
    pub fn is_legacy(&self) -> (r: bool)
        ensures
            r == (self@ is Legacy),
    {
        matches!(self, Address::Legacy { .. })
    }

    /// The staking credential this address carries, if any.
    pub fn staking_credential(&self) -> (r: Option<&StakingCredential>)
        ensures
            (r matches Some(c) && spec_staking_credential(self@) matches Some(m) && c@ == m) || (
            r is None && spec_staking_credential(self@) is None),
    {
        match self {
            Address::Legacy { .. } => None,
            Address::Standard { staking, .. } => match staking {
                Some(c) => Some(c),
                None => None,
            },
            Address::StakeOnly { staking } => Some(staking),
        }
    }

    /// Compare two addresses for equality of their abstract value.
    pub fn same_as(&self, other: &Address) -> (r: bool)
        ensures
            r == (self@ == other@),
    {
        match (self, other) {
            (Address::Legacy { raw: a }, Address::Legacy { raw: b }) => bytes_eq(a, b),
            (
                Address::Standard { payment_script: s1, payment_hash: h1, staking: c1 },
                Address::Standard { payment_script: s2, payment_hash: h2, staking: c2 },
            ) => {
                let creds = match (c1, c2) {
                    (Some(x), Some(y)) => x.same_as(y),
                    (None, None) => true,
                    _ => false,
                };
                *s1 == *s2 && bytes_eq(h1, h2) && creds
            },
            (Address::StakeOnly { staking: a }, Address::StakeOnly { staking: b }) => a.same_as(b),
            _ => false,
        }
    }

    /// Copy this address.
    pub fn duplicate(&self) -> (r: Address)
        ensures
            r@ == self@,
    {
        match self {
            Address::Legacy { raw } => Address::Legacy { raw: clone_bytes(raw) },
            Address::Standard { payment_script, payment_hash, staking } => Address::Standard {
                payment_script: *payment_script,
                payment_hash: clone_bytes(payment_hash),
                staking: match staking {
                    Some(c) => Some(c.duplicate()),
                    None => None,
                },
            },
            Address::StakeOnly { staking } => Address::StakeOnly { staking: staking.duplicate() },
        }
    }
}

} // verus!
