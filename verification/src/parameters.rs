//! Fixed-field binary encodings of the administrative argument
//! structs consumed by the entry surface: raw fixed-width fields,
//! length-prefixed byte strings (32-bit little-endian length) and
//! little-endian integers, with nothing after the last field.

use vstd::prelude::*;
use crate::engine::EngineState;
use crate::types::Address;
use crate::types::H256;
use crate::types::U256;
use crate::types::le_nat;
use crate::types::pow256;
use crate::types::lemma_le_nat_bound;
use crate::types::lemma_pow256_increases;
use crate::types::lemma_pow256_u64_bound;
use crate::types::push_all;

verus! {

/// Malformed argument bytes.
#[derive(Clone, Copy, Debug, PartialEq, Eq, Structural)]
pub enum ArgParseError {
    Malformed,
}

impl ArgParseError {
    /// Short machine-readable code surfaced to the caller.
    pub fn code(&self) -> (r: &'static str)
        ensures
            r@ == "ERR_ARG_PARSE"@,
    {
        "ERR_ARG_PARSE"
    }
}

/// Arguments of initialization: chain id, owner account id, bridge
/// prover account id, upgrade delay.
#[derive(Debug)]
pub struct NewCallArgs {
    pub chain_id: U256,
    pub owner_id: Vec<u8>,
    pub bridge_prover_id: Vec<u8>,
    pub upgrade_delay_blocks: u64,
}

/// Layout of `NewCallArgs`: 32 raw chain-id bytes, the owner id and
/// the prover id each behind a 4-byte little-endian length, then the
/// delay as 8 little-endian bytes, consuming the input exactly.
pub open spec fn spec_parse_new_call_args(s: Seq<u8>) -> Option<(Seq<u8>, Seq<u8>, Seq<u8>, nat)> {
    if s.len() < 40 {
        None
    } else {
        let ol = le_nat(s.subrange(32, 36)) as int;
        if s.len() < 40 + ol {
            None
        } else {
            let owner = s.subrange(36, 36 + ol);
            let pl = le_nat(s.subrange(36 + ol, 40 + ol)) as int;
            if s.len() != 48 + ol + pl {
                None
            } else {
                let prover = s.subrange(40 + ol, 40 + ol + pl);
                let delay = le_nat(s.subrange(40 + ol + pl, 48 + ol + pl));
                Some((s.subrange(0, 32), owner, prover, delay))
            }
        }
    }
}

/// Reads a 32-bit length from 4 little-endian bytes.
fn u32_from_le4(v: &Vec<u8>, at: usize) -> (r: u64)
    requires
        at + 4 <= v@.len(),
    ensures
        r as nat == le_nat(v@.subrange(at as int, at + 4)),
        r < 0x1_0000_0000,
{
    let n = v.len();
    let b0 = v[at] as u64;
    let b1 = v[at + 1] as u64;
    let b2 = v[at + 2] as u64;
    let b3 = v[at + 3] as u64;
    let r = b0 + b1 * 0x100 + b2 * 0x10000 + b3 * 0x1000000;
    proof {
        let s = v@.subrange(at as int, at + 4);
        let s1 = s.skip(1);
        let s2 = s1.skip(1);
        let s3 = s2.skip(1);
        assert(s3.skip(1) =~= Seq::<u8>::empty());
        assert(le_nat(s3.skip(1)) == 0);
        assert(s[0] == v@[at as int]);
        assert(s1[0] == v@[at + 1]);
        assert(s2[0] == v@[at + 2]);
        assert(s3[0] == v@[at + 3]);
        assert(le_nat(s3) == v@[at + 3] as nat + 256 * 0);
        assert(le_nat(s2) == v@[at + 2] as nat + 256 * le_nat(s3));
        assert(le_nat(s1) == v@[at + 1] as nat + 256 * le_nat(s2));
        assert(le_nat(s) == v@[at as int] as nat + 256 * le_nat(s1));
    }
    r
}

fn u32_to_le4(x: u64) -> (r: Vec<u8>)
    requires
        x < 0x1_0000_0000,
    ensures
        r@.len() == 4,
        le_nat(r@) == x as nat,
{
    let mut out: Vec<u8> = Vec::new();
    let mut val: u64 = x;
    let mut i: usize = 0;
    proof {
        assert(pow256(0) == 1);
    }
    while i < 4
        invariant
            i <= 4,
            out@.len() == i,
            x as nat == le_nat(out@) + (val as nat) * pow256(i as nat),
        decreases 4 - i,
    {
        let digit: u8 = (val % 256) as u8;
        let ghost old_out = out@;
        let ghost old_val = val as nat;
        out.push(digit);
        proof {
            crate::types::lemma_le_nat_push(old_out, digit);
            assert(old_val == (old_val / 256) * 256 + old_val % 256);
            assert(((old_val / 256) * 256 + old_val % 256) * pow256(i as nat)
                == (old_val / 256) * (256 * pow256(i as nat)) + (old_val % 256) * pow256(
                i as nat,
            )) by (nonlinear_arith);
            assert(pow256((i + 1) as nat) == 256 * pow256(i as nat));
        }
        val = val / 256;
        i += 1;
    }
    proof {
        if val > 0 {
            assert(pow256(4) == 0x1_0000_0000) by {
                reveal_with_fuel(pow256, 5);
            }
            assert((val as nat) * pow256(4) >= 1 * pow256(4)) by (nonlinear_arith)
                requires val >= 1;
        }
        assert(val == 0);
    }
    out
}

/// Parses initialization arguments, accepting exactly the fixed
/// layout.
pub fn parse_new_call_args(input: &Vec<u8>) -> (r: Result<NewCallArgs, ArgParseError>)
    ensures
        match r {
            Ok(a) => {
                &&& a.chain_id.wf()
                &&& spec_parse_new_call_args(input@) == Some(
                    (
                        a.chain_id@,
                        a.owner_id@,
                        a.bridge_prover_id@,
                        a.upgrade_delay_blocks as nat,
                    ),
                )
            },
            Err(_) => spec_parse_new_call_args(input@) is None,
        },
{
    let n = input.len();
    if n < 40 {
        return Err(ArgParseError::Malformed);
    }
    let ol64 = u32_from_le4(input, 32);
    if (n as u64) < 40 + ol64 {
        return Err(ArgParseError::Malformed);
    }
    let ol = ol64 as usize;
    let owner_id = crate::types::sub_bytes(input, 36, 36 + ol);
    let pl64 = u32_from_le4(input, 36 + ol);
    if (n as u64) != 48 + ol64 + pl64 {
        return Err(ArgParseError::Malformed);
    }
    let pl = pl64 as usize;
    let bridge_prover_id = crate::types::sub_bytes(input, 40 + ol, 40 + ol + pl);
    let delay_bytes = crate::types::sub_bytes(input, 40 + ol + pl, 48 + ol + pl);
    let upgrade_delay_blocks = crate::types::u64_from_le(&delay_bytes);
    let chain_id = U256::from_be_bytes32(crate::types::sub_bytes(input, 0, 32));
    proof {
        lemma_le_nat_bound(delay_bytes@);
        lemma_pow256_u64_bound();
    }
    Ok(NewCallArgs { chain_id, owner_id, bridge_prover_id, upgrade_delay_blocks })
}

/// Encodes initialization arguments; parsing gives them back exactly.
pub fn encode_new_call_args(args: &NewCallArgs) -> (r: Vec<u8>)
    requires
        args.chain_id.wf(),
        args.owner_id@.len() < 0x1_0000_0000,
        args.bridge_prover_id@.len() < 0x1_0000_0000,
    ensures
        spec_parse_new_call_args(r@) == Some(
            (
                args.chain_id@,
                args.owner_id@,
                args.bridge_prover_id@,
                args.upgrade_delay_blocks as nat,
            ),
        ),
{
    let mut r: Vec<u8> = Vec::new();
    push_all(&mut r, &args.chain_id.0);
    let olb = u32_to_le4(args.owner_id.len() as u64);
    push_all(&mut r, &olb);
    push_all(&mut r, &args.owner_id);
    let plb = u32_to_le4(args.bridge_prover_id.len() as u64);
    push_all(&mut r, &plb);
    push_all(&mut r, &args.bridge_prover_id);
    let db = crate::types::u64_to_le(args.upgrade_delay_blocks);
    push_all(&mut r, &db);
    proof {
        let s = r@;
        let ol = args.owner_id@.len() as int;
        let pl = args.bridge_prover_id@.len() as int;
        assert(s.len() == 48 + ol + pl);
        assert(s.subrange(0, 32) =~= args.chain_id@);
        assert(s.subrange(32, 36) =~= olb@);
        assert(s.subrange(36, 36 + ol) =~= args.owner_id@);
        assert(s.subrange(36 + ol, 40 + ol) =~= plb@);
        assert(s.subrange(40 + ol, 40 + ol + pl) =~= args.bridge_prover_id@);
        assert(s.subrange(40 + ol + pl, 48 + ol + pl) =~= db@);
    }
    r
}

impl NewCallArgs {
    /// The configuration these arguments install.
    pub fn into_state(self) -> (r: EngineState)
        ensures
            r@.chain_id == self.chain_id@,
            r@.owner_id == self.owner_id@,
            r@.bridge_prover_id == self.bridge_prover_id@,
            r@.upgrade_delay_blocks == self.upgrade_delay_blocks,
    {
        EngineState {
            owner_id: self.owner_id,
            bridge_prover_id: self.bridge_prover_id,
            chain_id: self.chain_id,
            upgrade_delay_blocks: self.upgrade_delay_blocks,
        }
    }
}

/// Arguments of a direct contract call: target address and input.
#[derive(Debug)]
pub struct FunctionCallArgs {
    pub contract: Address,
    pub input: Vec<u8>,
}

/// Layout of `FunctionCallArgs`: 20 raw address bytes, then the input
/// behind a 4-byte little-endian length, consuming the input exactly.
pub open spec fn spec_parse_function_call_args(s: Seq<u8>) -> Option<(Seq<u8>, Seq<u8>)> {
    if s.len() < 24 {
        None
    } else {
        let il = le_nat(s.subrange(20, 24)) as int;
        if s.len() != 24 + il {
            None
        } else {
            Some((s.subrange(0, 20), s.subrange(24, 24 + il)))
        }
    }
}

/// Parses call arguments, accepting exactly the fixed layout.
pub fn parse_function_call_args(input: &Vec<u8>) -> (r: Result<FunctionCallArgs, ArgParseError>)
    ensures
        match r {
            Ok(a) => a.contract.wf() && spec_parse_function_call_args(input@) == Some(
                (a.contract@, a.input@),
            ),
            Err(_) => spec_parse_function_call_args(input@) is None,
        },
{
    let n = input.len();
    if n < 24 {
        return Err(ArgParseError::Malformed);
    }
    let il64 = u32_from_le4(input, 20);
    if (n as u64) != 24 + il64 {
        return Err(ArgParseError::Malformed);
    }
    let il = il64 as usize;
    let contract = Address::new(crate::types::sub_bytes(input, 0, 20));
    let call_input = crate::types::sub_bytes(input, 24, 24 + il);
    Ok(FunctionCallArgs { contract, input: call_input })
}

/// Arguments of a storage read: address and slot key, 52 raw bytes.
#[derive(Debug)]
pub struct GetStorageAtArgs {
    pub address: Address,
    pub key: H256,
}

pub open spec fn spec_parse_get_storage_at_args(s: Seq<u8>) -> Option<(Seq<u8>, Seq<u8>)> {
    if s.len() != 52 {
        None
    } else {
        Some((s.subrange(0, 20), s.subrange(20, 52)))
    }
}

/// Parses storage-read arguments, accepting exactly 52 bytes.
pub fn parse_get_storage_at_args(input: &Vec<u8>) -> (r: Result<GetStorageAtArgs, ArgParseError>)
    ensures
        match r {
            Ok(a) => a.address.wf() && a.key.wf() && spec_parse_get_storage_at_args(input@)
                == Some((a.address@, a.key@)),
            Err(_) => spec_parse_get_storage_at_args(input@) is None,
        },
{
    if input.len() != 52 {
        return Err(ArgParseError::Malformed);
    }
    let address = Address::new(crate::types::sub_bytes(input, 0, 20));
    let key = H256::new(crate::types::sub_bytes(input, 20, 52));
    Ok(GetStorageAtArgs { address, key })
}


/// Arguments of a read-only view call: pretended sender, target
/// address, attached amount and input.
#[derive(Debug)]
pub struct ViewCallArgs {
    pub sender: Address,
    pub address: Address,
    pub amount: U256,
    pub input: Vec<u8>,
}

/// Layout of `ViewCallArgs`: 20 raw sender bytes, 20 raw target
/// bytes, 32 raw amount bytes, then the input behind a 4-byte
/// little-endian length, consuming the input exactly.
pub open spec fn spec_parse_view_call_args(s: Seq<u8>) -> Option<(Seq<u8>, Seq<u8>, Seq<u8>, Seq<u8>)> {
    if s.len() < 76 {
        None
    } else {
        let il = le_nat(s.subrange(72, 76)) as int;
        if s.len() != 76 + il {
            None
        } else {
            Some(
                (
                    s.subrange(0, 20),
                    s.subrange(20, 40),
                    s.subrange(40, 72),
                    s.subrange(76, 76 + il),
                ),
            )
        }
    }
}

/// Parses view-call arguments, accepting exactly the fixed layout.
pub fn parse_view_call_args(input: &Vec<u8>) -> (r: Result<ViewCallArgs, ArgParseError>)
    ensures
        match r {
            Ok(a) => {
                &&& a.sender.wf()
                &&& a.address.wf()
                &&& a.amount.wf()
                &&& spec_parse_view_call_args(input@) == Some(
                    (a.sender@, a.address@, a.amount@, a.input@),
                )
            },
            Err(_) => spec_parse_view_call_args(input@) is None,
        },
{
    let n = input.len();
    if n < 76 {
        return Err(ArgParseError::Malformed);
    }
    let il64 = u32_from_le4(input, 72);
    if (n as u64) != 76 + il64 {
        return Err(ArgParseError::Malformed);
    }
    let il = il64 as usize;
    let sender = Address::new(crate::types::sub_bytes(input, 0, 20));
    let address = Address::new(crate::types::sub_bytes(input, 20, 40));
    let amount = U256::from_be_bytes32(crate::types::sub_bytes(input, 40, 72));
    let view_input = crate::types::sub_bytes(input, 76, 76 + il);
    Ok(ViewCallArgs { sender, address, amount, input: view_input })
}

} // verus!
