//! Recursive length-prefixed wire codec for the legacy signed
//! transaction: nine byte-string items inside one list.  Encoding and
//! decoding are exact inverses on well-formed transactions; decoding
//! accepts only the canonical form.

use vstd::prelude::*;
use crate::transaction::EthSignedTransaction;
use crate::transaction::EthTransaction;
use crate::transaction::TxView;
use crate::types::Address;
use crate::types::U256;
use crate::types::be_nat;
use crate::types::pow256;
use crate::types::lemma_be_nat_bound;
use crate::types::lemma_be_nat_head;
use crate::types::lemma_be_nat_zero_prefix;
use crate::types::lemma_pow256_increases;
use crate::types::lemma_pow256_u64_bound;
use crate::types::copy_bytes;

verus! {

// ---------------------------------------------------------------------
// Minimal big-endian integers
// ---------------------------------------------------------------------

/// Shortest big-endian byte string denoting `n`; empty for zero.
pub open spec fn spec_be_min(n: nat) -> Seq<u8>
    decreases n,
{
    if n == 0 {
        Seq::empty()
    } else {
        spec_be_min(n / 256) + seq![(n % 256) as u8]
    }
}

pub proof fn lemma_be_min_value(n: nat)
    ensures
        be_nat(spec_be_min(n)) == n,
    decreases n,
{
    if n > 0 {
        lemma_be_min_value(n / 256);
        let a = spec_be_min(n / 256);
        let s = a + seq![(n % 256) as u8];
        assert(s.drop_last() =~= a);
        assert(s.last() == (n % 256) as u8);
        assert(be_nat(s) == be_nat(a) * 256 + n % 256);
    }
}

pub proof fn lemma_be_min_len(n: nat, k: nat)
    requires
        n < pow256(k),
    ensures
        spec_be_min(n).len() <= k,
    decreases n,
{
    if n > 0 {
        assert(k > 0) by {
            if k == 0 {
                assert(pow256(0) == 1);
            }
        }
        assert(n / 256 < pow256((k - 1) as nat)) by {
            assert(pow256(k) == 256 * pow256((k - 1) as nat));
        }
        lemma_be_min_len(n / 256, (k - 1) as nat);
    }
}

pub proof fn lemma_be_min_leading(n: nat)
    requires
        n > 0,
    ensures
        spec_be_min(n).len() >= 1,
        spec_be_min(n)[0] != 0,
    decreases n,
{
    if n < 256 {
        assert(spec_be_min(n / 256) =~= Seq::<u8>::empty());
        assert(spec_be_min(n)[0] == (n % 256) as u8);
    } else {
        lemma_be_min_leading(n / 256);
        assert(spec_be_min(n)[0] == spec_be_min(n / 256)[0]);
    }
}

/// A byte string without a leading zero is the minimal encoding of its
/// own value.
pub proof fn lemma_be_min_canonical(s: Seq<u8>)
    requires
        s.len() == 0 || s[0] != 0,
    ensures
        spec_be_min(be_nat(s)) == s,
    decreases s.len(),
{
    if s.len() == 0 {
    } else if s.len() == 1 {
        assert(s.drop_last().len() == 0);
        assert(be_nat(s.drop_last()) == 0);
        assert(be_nat(s) == s[0]);
        if s[0] != 0 {
            assert(be_nat(s) > 0);
            assert(be_nat(s) / 256 == 0);
            assert(spec_be_min(0) =~= Seq::<u8>::empty());
            assert(be_nat(s) % 256 == s[0]);
            assert(spec_be_min(be_nat(s)) =~= s);
        }
    } else {
        let d = s.drop_last();
        assert(d[0] == s[0]);
        lemma_be_min_canonical(d);
        lemma_be_nat_head(s);
        assert(s[0] * pow256((s.len() - 1) as nat) >= 1 * pow256((s.len() - 1) as nat))
            by (nonlinear_arith)
            requires s[0] >= 1;
        lemma_pow256_increases(1, (s.len() - 1) as nat);
        assert(pow256(1) == 256 * pow256(0));
        assert(pow256(0) == 1);
        assert(be_nat(s) > 0);
        assert(be_nat(s) == be_nat(d) * 256 + s.last());
        assert(be_nat(s) / 256 == be_nat(d) && be_nat(s) % 256 == s.last());
        assert(spec_be_min(be_nat(s)) == spec_be_min(be_nat(d)) + seq![s.last()]);
        assert(d + seq![s.last()] =~= s);
    }
}

/// Shortest big-endian bytes of a machine word.
pub fn be_min_bytes_u64(n: u64) -> (r: Vec<u8>)
    ensures
        r@ == spec_be_min(n as nat),
    decreases n,
{
    if n == 0 {
        Vec::new()
    } else {
        let mut r = be_min_bytes_u64(n / 256);
        r.push((n % 256) as u8);
        proof {
            assert(r@ =~= spec_be_min((n / 256) as nat) + seq![(n as nat % 256) as u8]);
        }
        r
    }
}

/// Shortest big-endian bytes of a 256-bit word: its 32 bytes with the
/// leading zeros stripped.
pub fn u256_to_min_be(x: &U256) -> (r: Vec<u8>)
    requires
        x.wf(),
    ensures
        r@ == spec_be_min(x.val()),
        r@.len() <= 32,
{
    let mut i: usize = 0;
    while i < 32 && x.0[i] == 0
        invariant
            x.wf(),
            i <= 32,
            forall|j: int| 0 <= j < i ==> x@[j] == 0,
        decreases 32 - i,
    {
        i += 1;
    }
    let mut r: Vec<u8> = Vec::new();
    let mut k: usize = i;
    while k < 32
        invariant
            x.wf(),
            i <= k <= 32,
            r@ =~= x@.subrange(i as int, k as int),
        decreases 32 - k,
    {
        r.push(x.0[k]);
        k += 1;
    }
    proof {
        assert(r@ =~= x@.skip(i as int));
        lemma_be_nat_zero_prefix(x@, i as int);
        lemma_be_min_canonical(x@.skip(i as int));
    }
    r
}

// ---------------------------------------------------------------------
// String and list items
// ---------------------------------------------------------------------

/// Canonical item encoding of a byte string.
pub open spec fn spec_rlp_str(p: Seq<u8>) -> Seq<u8> {
    if p.len() == 1 && p[0] < 0x80 {
        p
    } else if p.len() <= 55 {
        seq![(0x80 + p.len()) as u8] + p
    } else {
        seq![(0xb7 + spec_be_min(p.len() as nat).len()) as u8] + spec_be_min(p.len() as nat) + p
    }
}

/// Canonical list header around an already-encoded payload.
pub open spec fn spec_rlp_list(payload: Seq<u8>) -> Seq<u8> {
    if payload.len() <= 55 {
        seq![(0xc0 + payload.len()) as u8] + payload
    } else {
        seq![(0xf7 + spec_be_min(payload.len() as nat).len()) as u8] + spec_be_min(
            payload.len() as nat,
        ) + payload
    }
}

/// Encodes one byte-string item.
pub fn rlp_encode_str(p: &Vec<u8>) -> (r: Vec<u8>)
    ensures
        r@ == spec_rlp_str(p@),
{
    let n = p.len();
    proof {
        lemma_pow256_u64_bound();
        assert(n as nat <= usize::MAX as nat);
        lemma_be_min_len(p@.len(), 8);
    }
    if p.len() == 1 && p[0] < 0x80 {
        copy_bytes(p)
    } else if p.len() <= 55 {
        let mut r: Vec<u8> = Vec::new();
        r.push(0x80 + p.len() as u8);
        crate::types::push_all(&mut r, p);
        proof {
            assert(r@ =~= spec_rlp_str(p@));
        }
        r
    } else {
        let lb = be_min_bytes_u64(p.len() as u64);
        let mut r: Vec<u8> = Vec::new();
        r.push(0xb7 + lb.len() as u8);
        crate::types::push_all(&mut r, &lb);
        crate::types::push_all(&mut r, p);
        proof {
            assert(r@ =~= spec_rlp_str(p@));
        }
        r
    }
}

/// Wraps an encoded payload in its list header.
pub fn rlp_encode_list(payload: &Vec<u8>) -> (r: Vec<u8>)
    ensures
        r@ == spec_rlp_list(payload@),
{
    let n = payload.len();
    proof {
        lemma_pow256_u64_bound();
        assert(n as nat <= usize::MAX as nat);
        lemma_be_min_len(payload@.len(), 8);
    }
    if payload.len() <= 55 {
        let mut r: Vec<u8> = Vec::new();
        r.push(0xc0 + payload.len() as u8);
        crate::types::push_all(&mut r, payload);
        proof {
            assert(r@ =~= spec_rlp_list(payload@));
        }
        r
    } else {
        let lb = be_min_bytes_u64(payload.len() as u64);
        let mut r: Vec<u8> = Vec::new();
        r.push(0xf7 + lb.len() as u8);
        crate::types::push_all(&mut r, &lb);
        crate::types::push_all(&mut r, payload);
        proof {
            assert(r@ =~= spec_rlp_list(payload@));
        }
        r
    }
}

// ---------------------------------------------------------------------
// The transaction wire form
// ---------------------------------------------------------------------

/// The nine items of a legacy signed transaction, in wire order.
pub open spec fn spec_tx_items(t: TxView) -> Seq<Seq<u8>> {
    seq![
        spec_be_min(t.nonce),
        spec_be_min(t.gas_price),
        spec_be_min(t.gas),
        match t.to {
            Some(a) => a,
            None => Seq::empty(),
        },
        spec_be_min(t.value),
        t.data,
        spec_be_min(t.v as nat),
        spec_be_min(t.r),
        spec_be_min(t.s),
    ]
}

/// Concatenation of the item encodings.
pub open spec fn spec_cat_items(items: Seq<Seq<u8>>) -> Seq<u8>
    decreases items.len(),
{
    if items.len() == 0 {
        Seq::empty()
    } else {
        spec_rlp_str(items[0]) + spec_cat_items(items.skip(1))
    }
}

/// Full wire encoding of a signed transaction.
pub open spec fn spec_tx_encoding(t: TxView) -> Seq<u8> {
    spec_rlp_list(spec_cat_items(spec_tx_items(t)))
}

/// Appending one more item extends the concatenation at the end.
pub proof fn lemma_cat_snoc(items: Seq<Seq<u8>>, p: Seq<u8>)
    ensures
        spec_cat_items(items.push(p)) == spec_cat_items(items) + spec_rlp_str(p),
    decreases items.len(),
{
    if items.len() == 0 {
        assert(items.push(p)[0] == p);
        assert(items.push(p).skip(1) =~= Seq::<Seq<u8>>::empty());
        assert(items.push(p).skip(1).len() == 0);
        assert(spec_cat_items(items.push(p).skip(1)) =~= Seq::<u8>::empty());
        assert(spec_cat_items(items) =~= Seq::<u8>::empty());
        assert(spec_cat_items(items.push(p)) =~= spec_cat_items(items) + spec_rlp_str(p));
    } else {
        lemma_cat_snoc(items.skip(1), p);
        assert(items.push(p)[0] == items[0]);
        assert(items.push(p).skip(1) =~= items.skip(1).push(p));
        assert(spec_rlp_str(items[0]) + (spec_cat_items(items.skip(1)) + spec_rlp_str(p))
            =~= (spec_rlp_str(items[0]) + spec_cat_items(items.skip(1))) + spec_rlp_str(p));
    }
}

/// Encodes each item and concatenates the encodings.
fn cat_encode_items(items: &Vec<Vec<u8>>) -> (r: Vec<u8>)
    ensures
        r@ == spec_cat_items(items@.map_values(|v: Vec<u8>| v@)),
{
    let ghost its = items@.map_values(|v: Vec<u8>| v@);
    let mut out: Vec<u8> = Vec::new();
    let n = items.len();
    let mut k: usize = 0;
    proof {
        assert(its.take(0) =~= Seq::<Seq<u8>>::empty());
    }
    while k < n
        invariant
            n == items@.len(),
            its == items@.map_values(|v: Vec<u8>| v@),
            k <= n,
            out@ == spec_cat_items(its.take(k as int)),
        decreases n - k,
    {
        let e = rlp_encode_str(&items[k]);
        crate::types::push_all(&mut out, &e);
        proof {
            lemma_cat_snoc(its.take(k as int), its[k as int]);
            assert(its.take(k + 1) =~= its.take(k as int).push(its[k as int]));
        }
        k += 1;
    }
    proof {
        assert(its.take(n as int) =~= its);
    }
    out
}

/// Encodes a signed transaction into its canonical wire form.
pub fn encode_transaction(tx: &EthSignedTransaction) -> (r: Vec<u8>)
    requires
        tx.wf(),
    ensures
        r@ == spec_tx_encoding(tx@),
{
    let mut items: Vec<Vec<u8>> = Vec::new();
    items.push(u256_to_min_be(&tx.transaction.nonce));
    items.push(u256_to_min_be(&tx.transaction.gas_price));
    items.push(u256_to_min_be(&tx.transaction.gas));
    let to_bytes = match &tx.transaction.to {
        Some(a) => copy_bytes(&a.0),
        None => Vec::new(),
    };
    items.push(to_bytes);
    items.push(u256_to_min_be(&tx.transaction.value));
    items.push(copy_bytes(&tx.transaction.data));
    items.push(be_min_bytes_u64(tx.v));
    items.push(u256_to_min_be(&tx.r));
    items.push(u256_to_min_be(&tx.s));
    let payload = cat_encode_items(&items);
    proof {
        assert(items@.map_values(|v: Vec<u8>| v@) =~= spec_tx_items(tx@));
    }
    rlp_encode_list(&payload)
}


/// The items hashed for signing: the six body items alone under the
/// legacy scheme, or followed by the chain id and two empty items
/// under the chain-id-binding scheme.
pub open spec fn spec_signing_items(t: crate::transaction::TxBodyView, chain: Option<u64>) -> Seq<
    Seq<u8>,
> {
    let base = seq![
        spec_be_min(t.nonce),
        spec_be_min(t.gas_price),
        spec_be_min(t.gas),
        match t.to {
            Some(a) => a,
            None => Seq::empty(),
        },
        spec_be_min(t.value),
        t.data,
    ];
    match chain {
        None => base,
        Some(c) => base + seq![spec_be_min(c as nat), Seq::<u8>::empty(), Seq::<u8>::empty()],
    }
}

/// Wire form of the signing preimage.
pub open spec fn spec_signing_encoding(
    t: crate::transaction::TxBodyView,
    chain: Option<u64>,
) -> Seq<u8> {
    spec_rlp_list(spec_cat_items(spec_signing_items(t, chain)))
}

/// Encodes the bytes whose external hash is signed: the unsigned body,
/// optionally augmented with the embedded chain id.  The hash and the
/// curve themselves are external collaborators.
pub fn encode_transaction_for_signing(tx: &EthTransaction, chain_id: Option<u64>) -> (r: Vec<u8>)
    requires
        tx.wf(),
    ensures
        r@ == spec_signing_encoding(tx@, chain_id),
{
    let mut items: Vec<Vec<u8>> = Vec::new();
    items.push(u256_to_min_be(&tx.nonce));
    items.push(u256_to_min_be(&tx.gas_price));
    items.push(u256_to_min_be(&tx.gas));
    let to_bytes = match &tx.to {
        Some(a) => copy_bytes(&a.0),
        None => Vec::new(),
    };
    items.push(to_bytes);
    items.push(u256_to_min_be(&tx.value));
    items.push(copy_bytes(&tx.data));
    match chain_id {
        Some(c) => {
            items.push(be_min_bytes_u64(c));
            items.push(Vec::new());
            items.push(Vec::new());
        },
        None => {},
    }
    let payload = cat_encode_items(&items);
    proof {
        assert(items@.map_values(|v: Vec<u8>| v@) =~= spec_signing_items(tx@, chain_id));
    }
    rlp_encode_list(&payload)
}

// ---------------------------------------------------------------------
// Decoding
// ---------------------------------------------------------------------

/// Malformed wire bytes.
#[derive(Clone, Copy, Debug, PartialEq, Eq, Structural)]
pub enum DecodeError {
    Malformed,
}

/// Canonical parse of one byte-string item at the front of `s`:
/// the payload and the number of bytes consumed.
pub open spec fn spec_parse_str(s: Seq<u8>) -> Option<(Seq<u8>, int)> {
    if s.len() == 0 {
        None
    } else {
        let b = s[0];
        if b < 0x80 {
            Some((seq![b], 1int))
        } else if b <= 0xb7 {
            let l = b - 0x80;
            if s.len() >= 1 + l {
                let p = s.subrange(1, 1 + l);
                if l == 1 && p[0] < 0x80 {
                    None
                } else {
                    Some((p, 1 + l))
                }
            } else {
                None
            }
        } else if b <= 0xbf {
            let ll = b - 0xb7;
            if s.len() >= 1 + ll {
                let lb = s.subrange(1, 1 + ll);
                if lb[0] == 0 {
                    None
                } else {
                    let l = be_nat(lb) as int;
                    if l <= 55 {
                        None
                    } else if s.len() >= 1 + ll + l {
                        Some((s.subrange(1 + ll, 1 + ll + l), 1 + ll + l))
                    } else {
                        None
                    }
                }
            } else {
                None
            }
        } else {
            None
        }
    }
}

/// Canonical parse of the list header: payload length and header
/// length.
pub open spec fn spec_parse_list_header(s: Seq<u8>) -> Option<(int, int)> {
    if s.len() == 0 {
        None
    } else {
        let b = s[0];
        if b < 0xc0 {
            None
        } else if b <= 0xf7 {
            Some(((b - 0xc0) as int, 1int))
        } else {
            let ll = b - 0xf7;
            if s.len() >= 1 + ll {
                let lb = s.subrange(1, 1 + ll);
                if lb[0] == 0 {
                    None
                } else {
                    let l = be_nat(lb) as int;
                    if l <= 55 {
                        None
                    } else {
                        Some((l, 1 + ll))
                    }
                }
            } else {
                None
            }
        }
    }
}

/// Parses byte-string items until the input is exhausted.
pub open spec fn spec_parse_items(s: Seq<u8>) -> Option<Seq<Seq<u8>>>
    decreases s.len(),
{
    if s.len() == 0 {
        Some(Seq::empty())
    } else {
        match spec_parse_str(s) {
            None => None,
            Some((p, n)) => {
                if 1 <= n <= s.len() {
                    match spec_parse_items(s.skip(n)) {
                        None => None,
                        Some(rest) => Some(seq![p] + rest),
                    }
                } else {
                    None
                }
            },
        }
    }
}

/// A scalar item must be minimal and fit in 256 bits.
pub open spec fn spec_scalar_of(p: Seq<u8>) -> Option<nat> {
    if p.len() > 32 {
        None
    } else if p.len() > 0 && p[0] == 0 {
        None
    } else {
        Some(be_nat(p))
    }
}

/// The parity item must be minimal and fit in 64 bits.
pub open spec fn spec_scalar64_of(p: Seq<u8>) -> Option<u64> {
    if p.len() > 8 {
        None
    } else if p.len() > 0 && p[0] == 0 {
        None
    } else {
        Some(be_nat(p) as u64)
    }
}

/// Field conversion of the nine parsed items.
pub open spec fn spec_tx_from_items(items: Seq<Seq<u8>>) -> Option<TxView> {
    if items.len() != 9 {
        None
    } else {
        match (
            spec_scalar_of(items[0]),
            spec_scalar_of(items[1]),
            spec_scalar_of(items[2]),
            spec_scalar_of(items[4]),
            spec_scalar64_of(items[6]),
            spec_scalar_of(items[7]),
            spec_scalar_of(items[8]),
        ) {
            (
                Some(nonce),
                Some(gas_price),
                Some(gas),
                Some(value),
                Some(v),
                Some(r),
                Some(s),
            ) => {
                if items[3].len() == 0 {
                    Some(
                        TxView {
                            nonce,
                            gas_price,
                            gas,
                            to: None,
                            value,
                            data: items[5],
                            v,
                            r,
                            s,
                        },
                    )
                } else if items[3].len() == 20 {
                    Some(
                        TxView {
                            nonce,
                            gas_price,
                            gas,
                            to: Some(items[3]),
                            value,
                            data: items[5],
                            v,
                            r,
                            s,
                        },
                    )
                } else {
                    None
                }
            },
            _ => None,
        }
    }
}

/// Canonical decoding of a whole wire transaction.
pub open spec fn spec_decode_tx(s: Seq<u8>) -> Option<TxView> {
    match spec_parse_list_header(s) {
        None => None,
        Some((pl, hl)) => {
            if s.len() == hl + pl {
                match spec_parse_items(s.skip(hl)) {
                    None => None,
                    Some(items) => spec_tx_from_items(items),
                }
            } else {
                None
            }
        },
    }
}

/// Parsing undoes the item encoding, whatever follows it.
pub proof fn lemma_parse_str_encode(p: Seq<u8>, rest: Seq<u8>)
    requires
        p.len() < pow256(8),
    ensures
        spec_rlp_str(p).len() >= 1,
        spec_parse_str(spec_rlp_str(p) + rest) == Some((p, spec_rlp_str(p).len() as int)),
{
    let e = spec_rlp_str(p);
    let s = e + rest;
    if p.len() == 1 && p[0] < 0x80 {
        assert(s[0] == p[0]);
        assert(seq![s[0]] =~= p);
    } else if p.len() <= 55 {
        assert(s[0] == (0x80 + p.len()) as u8);
        let l = p.len() as int;
        assert(s.subrange(1, 1 + l) =~= p);
        if l == 1 {
            assert(p[0] >= 0x80);
        }
    } else {
        let lb = spec_be_min(p.len() as nat);
        lemma_be_min_len(p.len() as nat, 8);
        lemma_be_min_leading(p.len() as nat);
        lemma_be_min_value(p.len() as nat);
        let ll = lb.len() as int;
        assert(s[0] == (0xb7 + ll) as u8);
        assert(s.len() >= 1 + ll);
        assert(s.subrange(1, 1 + ll) =~= lb);
        assert(be_nat(lb) == p.len());
        assert(s.subrange(1 + ll, 1 + ll + p.len() as int) =~= p);
    }
}

/// Parsing undoes the list header, whatever the payload.
pub proof fn lemma_parse_list_encode(payload: Seq<u8>)
    requires
        payload.len() < pow256(8),
    ensures
        spec_parse_list_header(spec_rlp_list(payload)) matches Some((pl, hl)) && pl
            == payload.len() && hl + pl == spec_rlp_list(payload).len()
            && spec_rlp_list(payload).skip(hl) =~= payload,
{
    let e = spec_rlp_list(payload);
    if payload.len() <= 55 {
        assert(e[0] == (0xc0 + payload.len()) as u8);
        assert(e.skip(1) =~= payload);
    } else {
        let lb = spec_be_min(payload.len() as nat);
        lemma_be_min_len(payload.len() as nat, 8);
        lemma_be_min_leading(payload.len() as nat);
        lemma_be_min_value(payload.len() as nat);
        let ll = lb.len() as int;
        assert(e[0] == (0xf7 + ll) as u8);
        assert(e.subrange(1, 1 + ll) =~= lb);
        assert(e.skip(1 + ll) =~= payload);
    }
}

/// Parsing undoes the concatenation of item encodings.
pub proof fn lemma_parse_items_cat(items: Seq<Seq<u8>>)
    requires
        forall|i: int| 0 <= i < items.len() ==> #[trigger] items[i].len() < pow256(8),
    ensures
        spec_parse_items(spec_cat_items(items)) == Some(items),
    decreases items.len(),
{
    if items.len() == 0 {
        assert(spec_cat_items(items).len() == 0);
        assert(Seq::<Seq<u8>>::empty() =~= items);
    } else {
        let e = spec_rlp_str(items[0]);
        let tail = spec_cat_items(items.skip(1));
        lemma_parse_str_encode(items[0], tail);
        assert(spec_cat_items(items) == e + tail);
        let s = e + tail;
        assert(s.len() >= 1);
        assert(spec_parse_str(s) == Some((items[0], e.len() as int)));
        assert(s.skip(e.len() as int) =~= tail);
        assert(forall|i: int| 0 <= i < items.skip(1).len() ==> #[trigger] items.skip(
            1,
        )[i].len() < pow256(8));
        lemma_parse_items_cat(items.skip(1));
        assert(seq![items[0]] + items.skip(1) =~= items);
    }
}

/// Scalars survive the round trip.
pub proof fn lemma_scalar_roundtrip(n: nat)
    requires
        n < pow256(32),
    ensures
        spec_scalar_of(spec_be_min(n)) == Some(n),
{
    lemma_be_min_len(n, 32);
    lemma_be_min_value(n);
    if n > 0 {
        lemma_be_min_leading(n);
    }
}

pub proof fn lemma_scalar64_roundtrip(v: u64)
    ensures
        spec_scalar64_of(spec_be_min(v as nat)) == Some(v),
{
    lemma_pow256_u64_bound();
    lemma_be_min_len(v as nat, 8);
    lemma_be_min_value(v as nat);
    if v > 0 {
        lemma_be_min_leading(v as nat);
    }
}

/// Round trip: decoding the canonical encoding of any well-formed
/// transaction yields the transaction back.
pub proof fn lemma_tx_roundtrip(t: TxView)
    requires
        t.wf(),
        spec_cat_items(spec_tx_items(t)).len() < pow256(8),
    ensures
        spec_decode_tx(spec_tx_encoding(t)) == Some(t),
{
    let items = spec_tx_items(t);
    let payload = spec_cat_items(items);
    let s = spec_tx_encoding(t);
    lemma_parse_list_encode(payload);
    assert forall|i: int| 0 <= i < items.len() implies #[trigger] items[i].len() < pow256(8) by {
        lemma_pow256_u64_bound();
        if i == 0 || i == 1 || i == 2 || i == 4 || i == 7 || i == 8 {
            lemma_be_min_len(be_min_arg(items, i, t), 32);
            lemma_pow256_increases(8, 32);
        }
        if i == 6 {
            lemma_be_min_len(t.v as nat, 8);
        }
        if i == 5 {
            lemma_item_in_cat(items, i);
        }
        if i == 3 {
        }
    }
    lemma_parse_items_cat(items);
    lemma_scalar_roundtrip(t.nonce);
    lemma_scalar_roundtrip(t.gas_price);
    lemma_scalar_roundtrip(t.gas);
    lemma_scalar_roundtrip(t.value);
    lemma_scalar64_roundtrip(t.v);
    lemma_scalar_roundtrip(t.r);
    lemma_scalar_roundtrip(t.s);
    assert(spec_tx_from_items(items) == Some(t));
}

/// Every item's encoding sits inside the concatenation, so no item is
/// longer than the whole payload.
proof fn lemma_item_in_cat(items: Seq<Seq<u8>>, i: int)
    requires
        0 <= i < items.len(),
    ensures
        items[i].len() <= spec_cat_items(items).len(),
    decreases i,
{
    if i == 0 {
        let e = spec_rlp_str(items[0]);
        assert(e.len() >= items[0].len());
        assert(spec_cat_items(items) == e + spec_cat_items(items.skip(1)));
    } else {
        lemma_item_in_cat(items.skip(1), i - 1);
        assert(items.skip(1)[i - 1] == items[i]);
        assert(spec_cat_items(items) == spec_rlp_str(items[0]) + spec_cat_items(items.skip(1)));
    }
}

/// The scalar a minimally-encoded wire item of the transaction
/// denotes, by item position.
spec fn be_min_arg(items: Seq<Seq<u8>>, i: int, t: TxView) -> nat {
    if i == 0 {
        t.nonce
    } else if i == 1 {
        t.gas_price
    } else if i == 2 {
        t.gas
    } else if i == 4 {
        t.value
    } else if i == 7 {
        t.r
    } else {
        t.s
    }
}


/// Left-pads minimal big-endian bytes back to a 256-bit word.
fn u256_from_min_be(p: &Vec<u8>) -> (r: U256)
    requires
        p@.len() <= 32,
    ensures
        r.wf(),
        r.val() == be_nat(p@),
{
    let mut v: Vec<u8> = Vec::new();
    let pad = 32 - p.len();
    let mut i: usize = 0;
    while i < pad
        invariant
            i <= pad,
            v@.len() == i,
            forall|j: int| 0 <= j < i ==> v@[j] == 0,
        decreases pad - i,
    {
        v.push(0u8);
        i += 1;
    }
    crate::types::push_all(&mut v, p);
    proof {
        lemma_be_nat_zero_prefix(v@, pad as int);
        assert(v@.skip(pad as int) =~= p@);
    }
    U256::from_be_bytes32(v)
}

/// Reads a big-endian scalar of at most eight bytes.
fn u64_from_be_bytes(p: &Vec<u8>) -> (r: u64)
    requires
        p@.len() <= 8,
    ensures
        r as nat == be_nat(p@),
{
    let n = p.len();
    let mut val: u64 = 0;
    let mut k: usize = 0;
    proof {
        assert(p@.subrange(0, 0) =~= Seq::<u8>::empty());
    }
    while k < n
        invariant
            n == p@.len() <= 8,
            k <= n,
            val as nat == be_nat(p@.subrange(0, k as int)),
        decreases n - k,
    {
        proof {
            lemma_be_nat_bound(p@.subrange(0, k as int));
            lemma_pow256_increases(k as nat, 7);
            lemma_pow256_u64_bound();
            assert(pow256(7) * 256 == pow256(8));
            assert((val as nat) * 256 <= (pow256(7) - 1) * 256) by (nonlinear_arith)
                requires val as nat <= pow256(7) - 1;
        }
        let b = p[k];
        val = val * 256 + b as u64;
        proof {
            assert(p@.subrange(0, k + 1).drop_last() =~= p@.subrange(0, k as int));
            assert(p@.subrange(0, k + 1).last() == p@[k as int]);
        }
        k += 1;
    }
    proof {
        assert(p@.subrange(0, n as int) =~= p@);
    }
    val
}

/// Parses one byte-string item starting at `pos`, mirroring the
/// canonical parse exactly.
fn parse_str_at(input: &Vec<u8>, pos: usize) -> (r: Option<(Vec<u8>, usize)>)
    requires
        pos <= input@.len(),
    ensures
        match r {
            Some(pn) => {
                &&& pos < pn.1 <= input@.len()
                &&& spec_parse_str(input@.skip(pos as int)) == Some(
                    (pn.0@, pn.1 - pos as int),
                )
            },
            None => spec_parse_str(input@.skip(pos as int)) is None,
        },
{
    let n = input.len();
    let ghost s = input@.skip(pos as int);
    if pos >= n {
        return None;
    }
    let b = input[pos];
    proof {
        assert(s[0] == input@[pos as int]);
    }
    if b < 0x80 {
        let mut p: Vec<u8> = Vec::new();
        p.push(b);
        proof {
            assert(p@ =~= seq![s[0]]);
        }
        Some((p, pos + 1))
    } else if b <= 0xb7 {
        let l = (b - 0x80) as usize;
        if n - pos >= 1 + l {
            let p = crate::types::sub_bytes(input, pos + 1, pos + 1 + l);
            proof {
                assert(p@ =~= s.subrange(1, 1 + l as int));
            }
            if l == 1 && p[0] < 0x80 {
                None
            } else {
                Some((p, pos + 1 + l))
            }
        } else {
            None
        }
    } else if b <= 0xbf {
        let ll = (b - 0xb7) as usize;
        if n - pos >= 1 + ll {
            let lb = crate::types::sub_bytes(input, pos + 1, pos + 1 + ll);
            proof {
                assert(lb@ =~= s.subrange(1, 1 + ll as int));
            }
            if lb[0] == 0 {
                return None;
            }
            let lval = u64_from_be_bytes(&lb);
            if lval <= 55 {
                return None;
            }
            let avail = (n - pos - 1 - ll) as u64;
            if avail < lval {
                proof {
                    assert(s.len() < 1 + ll as int + lval as int);
                }
                return None;
            }
            let l = lval as usize;
            let p = crate::types::sub_bytes(input, pos + 1 + ll, pos + 1 + ll + l);
            proof {
                assert(p@ =~= s.subrange(1 + ll as int, 1 + ll as int + l as int));
            }
            Some((p, pos + 1 + ll + l))
        } else {
            None
        }
    } else {
        None
    }
}

/// Parses the list header at the front of the input.
fn parse_list_header(input: &Vec<u8>) -> (r: Option<(u64, usize)>)
    ensures
        match r {
            Some(ph) => {
                &&& spec_parse_list_header(input@) == Some((ph.0 as int, ph.1 as int))
                &&& 1 <= ph.1 <= input@.len()
            },
            None => spec_parse_list_header(input@) is None,
        },
{
    let n = input.len();
    if n == 0 {
        return None;
    }
    let b = input[0];
    if b < 0xc0 {
        None
    } else if b <= 0xf7 {
        Some((((b - 0xc0) as u64), 1))
    } else {
        let ll = (b - 0xf7) as usize;
        if n >= 1 + ll {
            let lb = crate::types::sub_bytes(input, 1, 1 + ll);
            proof {
                assert(lb@ =~= input@.subrange(1, 1 + ll as int));
            }
            if lb[0] == 0 {
                return None;
            }
            let lval = u64_from_be_bytes(&lb);
            if lval <= 55 {
                return None;
            }
            Some((lval, 1 + ll))
        } else {
            None
        }
    }
}

/// Decodes a wire transaction, accepting exactly the canonical form:
/// `Ok` returns the decoded transaction, `Err` means the bytes decode
/// to nothing.
pub fn decode_transaction(input: &Vec<u8>) -> (r: Result<EthSignedTransaction, DecodeError>)
    ensures
        match r {
            Ok(d) => d.wf() && spec_decode_tx(input@) == Some(d@),
            Err(_) => spec_decode_tx(input@) is None,
        },
{
    let n = input.len();
    let (pl64, hl) = match parse_list_header(input) {
        Some(ph) => ph,
        None => {
            return Err(DecodeError::Malformed);
        },
    };
    if pl64 > n as u64 - hl as u64 || hl as u64 + pl64 != n as u64 {
        return Err(DecodeError::Malformed);
    }
    let pl = pl64 as usize;
    let ghost payload = input@.skip(hl as int);
    let mut items: Vec<Vec<u8>> = Vec::new();
    let mut pos: usize = hl;
    let mut count: usize = 0;
    proof {
        assert(payload.skip(0) =~= payload);
    }
    while count < 9
        invariant
            input@.len() == n,
            hl <= pos <= n,
            spec_parse_list_header(input@) == Some((pl64 as int, hl as int)),
            n as int == hl + pl64,
            payload == input@.skip(hl as int),
            items@.len() == count,
            count <= 9,
            match spec_parse_items(input@.skip(pos as int)) {
                Some(rest) => spec_parse_items(payload) == Some(
                    items@.map_values(|v: Vec<u8>| v@) + rest,
                ),
                None => spec_parse_items(payload) is None,
            },
        decreases 9 - count,
    {
        let ghost old_pos = pos as int;
        let ghost old_views = items@.map_values(|v: Vec<u8>| v@);
        match parse_str_at(input, pos) {
            Some(pn) => {
                let (p, newpos) = pn;
                let ghost pview = p@;
                items.push(p);
                proof {
                    let s_old = input@.skip(old_pos);
                    let s_new = input@.skip(newpos as int);
                    assert(s_old.skip(newpos - old_pos) =~= s_new);
                    assert(s_old.len() > 0);
                    assert(items@.map_values(|v: Vec<u8>| v@) =~= old_views.push(pview));
                    match spec_parse_items(s_new) {
                        Some(rest) => {
                            assert(spec_parse_items(s_old) == Some(seq![pview] + rest));
                            assert(old_views + (seq![pview] + rest) =~= (old_views.push(pview))
                                + rest);
                        },
                        None => {
                            assert(spec_parse_items(s_old) is None);
                        },
                    }
                }
                pos = newpos;
                count += 1;
            },
            None => {
                proof {
                    let s_cur = input@.skip(pos as int);
                    if s_cur.len() == 0 {
                        assert(spec_parse_items(s_cur) == Some(Seq::<Seq<u8>>::empty()));
                        assert(spec_parse_items(payload) matches Some(all) && all.len() < 9)
                            by {
                            assert(old_views + Seq::<Seq<u8>>::empty() =~= old_views);
                        }
                    } else {
                        assert(spec_parse_items(s_cur) is None);
                    }
                    match spec_parse_items(payload) {
                        Some(all) => {
                            assert(all.len() < 9);
                            assert(spec_tx_from_items(all) is None);
                        },
                        None => {},
                    }
                    assert(spec_decode_tx(input@) is None);
                }
                return Err(DecodeError::Malformed);
            },
        }
    }
    if pos != n {
        proof {
            let s_cur = input@.skip(pos as int);
            assert(s_cur.len() > 0);
            match spec_parse_items(s_cur) {
                Some(rest) => {
                    assert(rest.len() >= 1);
                    assert((items@.map_values(|v: Vec<u8>| v@) + rest).len() >= 10);
                },
                None => {},
            }
        }
        return Err(DecodeError::Malformed);
    }
    proof {
        assert(input@.skip(pos as int).len() == 0);
        assert(spec_parse_items(input@.skip(pos as int)) == Some(Seq::<Seq<u8>>::empty()));
        assert(items@.map_values(|v: Vec<u8>| v@) + Seq::<Seq<u8>>::empty() =~= items@.map_values(
            |v: Vec<u8>| v@,
        ));
    }
    let ghost views = items@.map_values(|v: Vec<u8>| v@);
    // Field conversion.
    let nonce = match scalar_u256(&items[0]) {
        Some(x) => x,
        None => {
            return Err(DecodeError::Malformed);
        },
    };
    let gas_price = match scalar_u256(&items[1]) {
        Some(x) => x,
        None => {
            return Err(DecodeError::Malformed);
        },
    };
    let gas = match scalar_u256(&items[2]) {
        Some(x) => x,
        None => {
            return Err(DecodeError::Malformed);
        },
    };
    let to = if items[3].len() == 0 {
        None
    } else if items[3].len() == 20 {
        Some(Address::new(crate::types::sub_bytes(&items[3], 0, 20)))
    } else {
        proof {
            assert(spec_tx_from_items(views) is None);
        }
        return Err(DecodeError::Malformed);
    };
    let value = match scalar_u256(&items[4]) {
        Some(x) => x,
        None => {
            return Err(DecodeError::Malformed);
        },
    };
    let data = crate::types::sub_bytes(&items[5], 0, items[5].len());
    let v = match scalar_u64(&items[6]) {
        Some(x) => x,
        None => {
            return Err(DecodeError::Malformed);
        },
    };
    let sig_r = match scalar_u256(&items[7]) {
        Some(x) => x,
        None => {
            return Err(DecodeError::Malformed);
        },
    };
    let sig_s = match scalar_u256(&items[8]) {
        Some(x) => x,
        None => {
            return Err(DecodeError::Malformed);
        },
    };
    let d = EthSignedTransaction {
        transaction: EthTransaction { nonce, gas_price, gas, to, value, data },
        v,
        r: sig_r,
        s: sig_s,
    };
    proof {
        assert(views[3] =~= items@[3]@);
        assert(views[5] =~= items@[5]@);
        assert(d@.data == views[5]);
        match d@.to {
            Some(a) => {
                assert(items@[3]@.subrange(0, 20) =~= views[3]);
            },
            None => {},
        }
        assert(spec_tx_from_items(views) == Some(d@));
    }
    Ok(d)
}

/// Converts one scalar item, rejecting non-minimal or oversized forms.
fn scalar_u256(p: &Vec<u8>) -> (r: Option<U256>)
    ensures
        match r {
            Some(x) => x.wf() && spec_scalar_of(p@) == Some(x.val()),
            None => spec_scalar_of(p@) is None,
        },
{
    if p.len() > 32 {
        return None;
    }
    if p.len() > 0 && p[0] == 0 {
        return None;
    }
    Some(u256_from_min_be(p))
}

/// Converts the parity item, rejecting non-minimal or oversized forms.
fn scalar_u64(p: &Vec<u8>) -> (r: Option<u64>)
    ensures
        match r {
            Some(x) => spec_scalar64_of(p@) == Some(x),
            None => spec_scalar64_of(p@) is None,
        },
{
    if p.len() > 8 {
        return None;
    }
    if p.len() > 0 && p[0] == 0 {
        return None;
    }
    proof {
        lemma_pow256_u64_bound();
        lemma_be_nat_bound(p@);
        lemma_pow256_increases(p@.len(), 8);
    }
    Some(u64_from_be_bytes(p))
}

} // verus!
