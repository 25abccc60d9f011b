//! The unspent-output record: an immutable snapshot item supplied by the
//! wallet collaborator. Classifiers only read outputs and re-group them.

use vstd::prelude::*;

use crate::address::clone_bytes;
use crate::address::bytes_eq;

verus! {

/// One unspent transaction output: the transaction it came from, its index
/// there, its amount in the smallest currency unit (1,000,000 of which make
/// one unit of the human-facing currency), and the raw encoding of its
/// address, decoded lazily.
pub struct Output {
    pub tx_id: Vec<u8>,
    pub index: u64,
    pub amount: u64,
    pub address: Vec<u8>,
}

/// The mathematical value of an [`Output`].
#[verifier::ext_equal]
pub struct OutputModel {
    pub tx_id: Seq<u8>,
    pub index: u64,
    pub amount: u64,
    pub address: Seq<u8>,
}

impl View for Output {
    type V = OutputModel;

    open spec fn view(&self) -> OutputModel {
        OutputModel {
            tx_id: self.tx_id@,
            index: self.index,
            amount: self.amount,
            address: self.address@,
        }
    }
}

impl DeepView for Output {
    type V = OutputModel;

    open spec fn deep_view(&self) -> OutputModel {
        self@
    }
}

impl Output {
    /// Copy this output.
    pub fn duplicate(&self) -> (r: Output)
        ensures
            r@ == self@,
    {
        Output {
            tx_id: clone_bytes(&self.tx_id),
            index: self.index,
            amount: self.amount,
            address: clone_bytes(&self.address),
        }
    }

    /// Compare two outputs for equality of their abstract value.
    pub fn same_as(&self, other: &Output) -> (r: bool)
        ensures
            r == (self@ == other@),
    {
        self.index == other.index && self.amount == other.amount && bytes_eq(
            &self.tx_id,
            &other.tx_id,
        ) && bytes_eq(&self.address, &other.address)
    }
}

} // verus!
