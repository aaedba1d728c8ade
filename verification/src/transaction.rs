//! Structured form of a legacy Ethereum signed transaction and the
//! chain-id binding read from its signature parity value.

use vstd::prelude::*;
use crate::types::Address;
use crate::types::U256;

verus! {

/// Unsigned transaction body.
#[derive(Debug, PartialEq, Eq)]
pub struct EthTransaction {
    pub nonce: U256,
    pub gas_price: U256,
    pub gas: U256,
    /// `None` requests a contract deployment.
    pub to: Option<Address>,
    pub value: U256,
    pub data: Vec<u8>,
}

impl EthTransaction {
    pub open spec fn wf(&self) -> bool {
        &&& self.nonce.wf()
        &&& self.gas_price.wf()
        &&& self.gas.wf()
        &&& match self.to {
            Some(a) => a.wf(),
            None => true,
        }
        &&& self.value.wf()
    }
}

/// A transaction together with its recoverable signature.
#[derive(Debug, PartialEq, Eq)]
pub struct EthSignedTransaction {
    pub transaction: EthTransaction,
    /// Parity value; encodes the chain id when 35 or above.
    pub v: u64,
    pub r: U256,
    pub s: U256,
}

/// Mathematical content of an unsigned transaction body.
pub struct TxBodyView {
    pub nonce: nat,
    pub gas_price: nat,
    pub gas: nat,
    pub to: Option<Seq<u8>>,
    pub value: nat,
    pub data: Seq<u8>,
}

impl View for EthTransaction {
    type V = TxBodyView;

    open spec fn view(&self) -> TxBodyView {
        TxBodyView {
            nonce: self.nonce.val(),
            gas_price: self.gas_price.val(),
            gas: self.gas.val(),
            to: match self.to {
                Some(a) => Some(a@),
                None => None,
            },
            value: self.value.val(),
            data: self.data@,
        }
    }
}

/// Mathematical content of a signed transaction: scalar fields as
/// naturals, byte fields as sequences.
pub struct TxView {
    pub nonce: nat,
    pub gas_price: nat,
    pub gas: nat,
    pub to: Option<Seq<u8>>,
    pub value: nat,
    pub data: Seq<u8>,
    pub v: u64,
    pub r: nat,
    pub s: nat,
}

impl TxView {
    pub open spec fn wf(&self) -> bool {
        &&& self.nonce < crate::types::pow256(32)
        &&& self.gas_price < crate::types::pow256(32)
        &&& self.gas < crate::types::pow256(32)
        &&& match self.to {
            Some(a) => a.len() == 20,
            None => true,
        }
        &&& self.value < crate::types::pow256(32)
        &&& self.r < crate::types::pow256(32)
        &&& self.s < crate::types::pow256(32)
    }
}

impl View for EthSignedTransaction {
    type V = TxView;

    open spec fn view(&self) -> TxView {
        TxView {
            nonce: self.transaction.nonce.val(),
            gas_price: self.transaction.gas_price.val(),
            gas: self.transaction.gas.val(),
            to: match self.transaction.to {
                Some(a) => Some(a@),
                None => None,
            },
            value: self.transaction.value.val(),
            data: self.transaction.data@,
            v: self.v,
            r: self.r.val(),
            s: self.s.val(),
        }
    }
}

/// Chain id bound by the signature scheme: parity values 27 and 28 are
/// the legacy scheme without binding, values of 35 and above bind
/// `(v - 35) / 2`, anything else is malformed and binds nothing.
pub open spec fn spec_chain_id(v: u64) -> Option<u64> {
    if v == 27 || v == 28 {
        None
    } else if v >= 35 {
        Some((((v - 35) / 2) as u64))
    } else {
        None
    }
}

impl EthSignedTransaction {
    pub open spec fn wf(&self) -> bool {
        &&& self.transaction.wf()
        &&& self.r.wf()
        &&& self.s.wf()
    }

    /// Chain id embedded in the signature, if the binding scheme is in
    /// use.  When present, the admission pipeline must reject the
    /// transaction unless it equals the configured chain id.
    pub fn chain_id(&self) -> (r: Option<u64>)
        ensures
            r == spec_chain_id(self.v),
    {
        if self.v == 27 || self.v == 28 {
            None
        } else if self.v >= 35 {
            Some((self.v - 35) / 2)
        } else {
            None
        }
    }
}

} // verus!
