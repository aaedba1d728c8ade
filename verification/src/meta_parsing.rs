//! Meta-transaction authenticator: a relayer submits a payload whose
//! logical sender is authenticated by a separate structured signature.
//! The payload is parsed here; the elliptic-curve recovery over the
//! domain-separated hash is an external primitive whose result is
//! handed in, `None` meaning authentication failed.

use vstd::prelude::*;
use crate::types::Address;
use crate::types::U256;
use crate::types::copy_bytes;
use crate::types::push_all;

verus! {

/// Failure of meta-transaction parsing or authentication.
#[derive(Clone, Copy, Debug, PartialEq, Eq, Structural)]
pub enum MetaTxError {
    /// The structured payload cannot be parsed into the field layout.
    Malformed,
    /// Signature recovery failed.
    BadSignature,
}

impl MetaTxError {
    /// Short machine-readable code surfaced to the caller.
    pub fn code(&self) -> (r: &'static str)
        ensures
            self is Malformed ==> r@ == "ERR_META_TX_PARSE"@,
            self is BadSignature ==> r@ == "ERR_META_TX_BAD_SIGNATURE"@,
    {
        match self {
            MetaTxError::Malformed => "ERR_META_TX_PARSE",
            MetaTxError::BadSignature => "ERR_META_TX_BAD_SIGNATURE",
        }
    }
}

/// Wire fields of a relayed call, before authentication: a 65-byte
/// recoverable signature followed by the declared nonce, the target
/// contract address, the attached value and the call input.
#[derive(Debug)]
pub struct MetaPayload {
    pub signature: Vec<u8>,
    pub nonce: U256,
    pub contract_address: Address,
    pub value: U256,
    pub input: Vec<u8>,
}

/// An authenticated relayed call: the sender is the recovered signer,
/// never anything the relayer declared.
#[derive(Debug)]
pub struct MetaCallArgs {
    pub sender: Address,
    pub contract_address: Address,
    pub value: U256,
    pub nonce: U256,
    pub input: Vec<u8>,
}

/// Byte length of the fixed prefix: signature, nonce, address, value.
pub const META_FIXED_LEN: usize = 149;

/// Splits the payload into its fields: signature bytes 0..65, nonce
/// 65..97, contract address 97..117, value 117..149, input the rest.
/// Rejects exactly the inputs shorter than the fixed prefix.
pub fn parse_meta_payload(input: &Vec<u8>) -> (r: Result<MetaPayload, MetaTxError>)
    ensures
        match r {
            Ok(p) => {
                &&& input@.len() >= 149
                &&& p.signature@ == input@.subrange(0, 65)
                &&& p.nonce@ == input@.subrange(65, 97)
                &&& p.nonce.wf()
                &&& p.contract_address@ == input@.subrange(97, 117)
                &&& p.contract_address.wf()
                &&& p.value@ == input@.subrange(117, 149)
                &&& p.value.wf()
                &&& p.input@ == input@.skip(149)
            },
            Err(e) => e is Malformed && input@.len() < 149,
        },
{
    if input.len() < META_FIXED_LEN {
        return Err(MetaTxError::Malformed);
    }
    let signature = crate::types::sub_bytes(input, 0, 65);
    let nonce = U256::from_be_bytes32(crate::types::sub_bytes(input, 65, 97));
    let contract_address = Address::new(crate::types::sub_bytes(input, 97, 117));
    let value = U256::from_be_bytes32(crate::types::sub_bytes(input, 117, 149));
    let input_rest = crate::types::sub_bytes(input, 149, input.len());
    proof {
        assert(input@.subrange(149, input@.len() as int) =~= input@.skip(149));
    }
    Ok(MetaPayload { signature, nonce, contract_address, value, input: input_rest })
}

/// Binds the recovered signer to the payload: the signer becomes the
/// sender; a failed recovery rejects the whole call.
pub fn authenticate_meta_call(payload: MetaPayload, recovered_signer: Option<Address>) -> (r:
    Result<MetaCallArgs, MetaTxError>)
    ensures
        match r {
            Ok(a) => {
                &&& recovered_signer matches Some(s) && a.sender@ == s@
                &&& a.contract_address@ == payload.contract_address@
                &&& a.value@ == payload.value@
                &&& a.nonce@ == payload.nonce@
                &&& a.input@ == payload.input@
            },
            Err(e) => e is BadSignature && recovered_signer is None,
        },
{
    match recovered_signer {
        Some(s) => Ok(MetaCallArgs {
            sender: s,
            contract_address: payload.contract_address,
            value: payload.value,
            nonce: payload.nonce,
            input: payload.input,
        }),
        None => Err(MetaTxError::BadSignature),
    }
}

/// Preimage of the signing domain separator, recomputed on every call
/// from the configured chain id and the verifying account identity;
/// the external hash primitive is applied to these bytes by the
/// caller.
pub fn near_erc712_domain_preimage(chain_id: &U256, verifying_account: &Vec<u8>) -> (r: Vec<u8>)
    requires
        chain_id.wf(),
    ensures
        r@ == seq![0x4eu8, 0x45u8, 0x41u8, 0x52u8, 0x01u8] + chain_id@ + verifying_account@,
{
    let mut r: Vec<u8> = Vec::new();
    r.push(0x4eu8);
    r.push(0x45u8);
    r.push(0x41u8);
    r.push(0x52u8);
    r.push(0x01u8);
    push_all(&mut r, &chain_id.0);
    push_all(&mut r, verifying_account);
    proof {
        assert(r@ =~= seq![0x4eu8, 0x45u8, 0x41u8, 0x52u8, 0x01u8] + chain_id@
            + verifying_account@);
    }
    r
}

/// Preimage of the structured hash that authenticates a relayed call:
/// the declared nonce, the target contract address, the attached value
/// and the call input, in that order.  The external hash primitive is
/// applied to these bytes (together with the domain separator) by the
/// caller, and the signature in the payload is recovered over the
/// result.
pub fn meta_call_signing_preimage(
    nonce: &U256,
    contract_address: &Address,
    value: &U256,
    input: &Vec<u8>,
) -> (r: Vec<u8>)
    ensures
        r@ == nonce@ + contract_address@ + value@ + input@,
{
    let mut r: Vec<u8> = Vec::new();
    push_all(&mut r, &nonce.0);
    push_all(&mut r, &contract_address.0);
    push_all(&mut r, &value.0);
    push_all(&mut r, input);
    proof {
        assert(r@ =~= nonce@ + contract_address@ + value@ + input@);
    }
    r
}

} // verus!
