//! Core value types: 20-byte addresses, 32-byte storage words and
//! unsigned 256-bit integers held as big-endian byte vectors, together
//! with the arithmetic the admission pipeline needs (comparison,
//! increment, checked addition and subtraction).

use vstd::prelude::*;

verus! {

/// Value of a byte sequence read as a big-endian natural number.
pub open spec fn be_nat(s: Seq<u8>) -> nat
    decreases s.len(),
{
    if s.len() == 0 {
        0
    } else {
        be_nat(s.drop_last()) * 256 + s.last() as nat
    }
}

/// 256 raised to the power `n`.
pub open spec fn pow256(n: nat) -> nat
    decreases n,
{
    if n == 0 {
        1
    } else {
        256 * pow256((n - 1) as nat)
    }
}

pub proof fn lemma_be_nat_bound(s: Seq<u8>)
    ensures
        be_nat(s) < pow256(s.len()),
    decreases s.len(),
{
    if s.len() == 0 {
    } else {
        lemma_be_nat_bound(s.drop_last());
    }
}

/// Peeling the most significant byte off the front of a sequence.
pub proof fn lemma_be_nat_head(s: Seq<u8>)
    requires
        s.len() >= 1,
    ensures
        be_nat(s) == s[0] * pow256((s.len() - 1) as nat) + be_nat(s.skip(1)),
    decreases s.len(),
{
    if s.len() == 1 {
        assert(s.skip(1).len() == 0);
        assert(s.drop_last().len() == 0);
        assert(be_nat(s.drop_last()) == 0);
        assert(be_nat(s.skip(1)) == 0);
        assert(be_nat(s) == 0 * 256 + s.last() as nat);
        assert(pow256(0) == 1);
        assert(s[0] == s.last());
    } else {
        let d = s.drop_last();
        lemma_be_nat_head(d);
        assert(d[0] == s[0]);
        assert(d.skip(1) =~= s.skip(1).drop_last());
        assert(s.skip(1).last() == s.last());
        assert((s[0] * pow256((s.len() - 2) as nat) + be_nat(d.skip(1))) * 256
            == s[0] * (256 * pow256((s.len() - 2) as nat)) + be_nat(d.skip(1)) * 256)
            by (nonlinear_arith);
        assert(pow256((s.len() - 1) as nat) == 256 * pow256((s.len() - 2) as nat));
    }
}

/// A run of leading zero bytes does not change the value.
pub proof fn lemma_be_nat_zero_prefix(s: Seq<u8>, i: int)
    requires
        0 <= i <= s.len(),
        forall|j: int| 0 <= j < i ==> s[j] == 0,
    ensures
        be_nat(s) == be_nat(s.skip(i)),
    decreases i,
{
    if i > 0 {
        lemma_be_nat_head(s);
        lemma_be_nat_zero_prefix(s.skip(1), i - 1);
        assert(s.skip(1).skip(i - 1) =~= s.skip(i));
    } else {
        assert(s.skip(0) =~= s);
    }
}

/// Value of a byte sequence read as a little-endian natural number.
pub open spec fn le_nat(s: Seq<u8>) -> nat
    decreases s.len(),
{
    if s.len() == 0 {
        0
    } else {
        s[0] as nat + 256 * le_nat(s.skip(1))
    }
}

pub proof fn lemma_le_nat_bound(s: Seq<u8>)
    ensures
        le_nat(s) < pow256(s.len()),
    decreases s.len(),
{
    if s.len() > 0 {
        lemma_le_nat_bound(s.skip(1));
        assert(pow256(s.len()) == 256 * pow256((s.len() - 1) as nat));
    }
}

/// Appending a byte adds its value at the next weight.
pub proof fn lemma_le_nat_push(s: Seq<u8>, d: u8)
    ensures
        le_nat(s.push(d)) == le_nat(s) + d as nat * pow256(s.len()),
    decreases s.len(),
{
    if s.len() == 0 {
        assert(s.push(d)[0] == d);
        assert(s.push(d).skip(1) =~= Seq::<u8>::empty());
        assert(le_nat(s.push(d).skip(1)) == 0);
        assert(le_nat(s) == 0);
        assert(pow256(0) == 1);
    } else {
        lemma_le_nat_push(s.skip(1), d);
        assert(s.push(d)[0] == s[0]);
        assert(s.push(d).skip(1) =~= s.skip(1).push(d));
        assert(le_nat(s.push(d)) == s[0] as nat + 256 * le_nat(s.skip(1).push(d)));
        assert(s.skip(1).len() == s.len() - 1);
        assert(256 * (le_nat(s.skip(1)) + d as nat * pow256((s.len() - 1) as nat))
            == 256 * le_nat(s.skip(1)) + d as nat * (256 * pow256((s.len() - 1) as nat)))
            by (nonlinear_arith);
        assert(pow256(s.len()) == 256 * pow256((s.len() - 1) as nat));
    }
}

/// Encodes a 64-bit value as its 8 little-endian bytes.
pub fn u64_to_le(x: u64) -> (r: Vec<u8>)
    ensures
        r@.len() == 8,
        le_nat(r@) == x as nat,
{
    let mut out: Vec<u8> = Vec::new();
    let mut val: u64 = x;
    let mut i: usize = 0;
    proof {
        assert(pow256(0) == 1);
    }
    while i < 8
        invariant
            i <= 8,
            out@.len() == i,
            x as nat == le_nat(out@) + (val as nat) * pow256(i as nat),
        decreases 8 - i,
    {
        let digit: u8 = (val % 256) as u8;
        let ghost old_out = out@;
        let ghost old_val = val as nat;
        out.push(digit);
        proof {
            lemma_le_nat_push(old_out, digit);
            assert(old_val == (old_val / 256) * 256 + old_val % 256);
            assert(((old_val / 256) * 256 + old_val % 256) * pow256(i as nat)
                == (old_val / 256) * (256 * pow256(i as nat)) + (old_val % 256) * pow256(
                i as nat,
            )) by (nonlinear_arith);
            assert(pow256((i + 1) as nat) == 256 * pow256(i as nat));
        }
        val = val / 256;
        i += 1;
    }
    proof {
        if val > 0 {
            lemma_pow256_u64_bound();
            assert((val as nat) * pow256(8) >= 1 * pow256(8)) by (nonlinear_arith)
                requires val >= 1;
        }
        assert(val == 0);
    }
    out
}

/// Reads a 64-bit value from its 8 little-endian bytes.
pub fn u64_from_le(v: &Vec<u8>) -> (r: u64)
    requires
        v@.len() == 8,
    ensures
        r as nat == le_nat(v@),
{
    let mut val: u64 = 0;
    let mut j: usize = 8;
    proof {
        assert(v@.skip(8).len() == 0);
        assert(le_nat(v@.skip(8)) == 0);
    }
    while j > 0
        invariant
            j <= 8,
            v@.len() == 8,
            val as nat == le_nat(v@.skip(j as int)),
        decreases j,
    {
        proof {
            lemma_le_nat_bound(v@.skip(j as int));
            lemma_pow256_increases((8 - j) as nat, 7);
            lemma_pow256_u64_bound();
            assert(pow256(7) * 256 == pow256(8));
            assert((val as nat) * 256 <= (pow256(7) - 1) * 256) by (nonlinear_arith)
                requires val as nat <= pow256(7) - 1;
        }
        let b = v[j - 1];
        val = val * 256 + b as u64;
        proof {
            assert(v@.skip(j - 1)[0] == v@[j - 1]);
            assert(v@.skip(j - 1).skip(1) =~= v@.skip(j as int));
        }
        j -= 1;
    }
    proof {
        assert(v@.skip(0) =~= v@);
    }
    val
}

/// Equal-length byte sequences with the same value are identical:
/// a fixed-width big-endian representation is canonical.
pub proof fn lemma_be_nat_injective(a: Seq<u8>, b: Seq<u8>)
    requires
        a.len() == b.len(),
        be_nat(a) == be_nat(b),
    ensures
        a == b,
    decreases a.len(),
{
    if a.len() > 0 {
        assert(be_nat(a.drop_last()) * 256 + a.last() as nat
            == be_nat(b.drop_last()) * 256 + b.last() as nat);
        assert((be_nat(a.drop_last()) - be_nat(b.drop_last())) * 256
            == b.last() as int - a.last() as int) by (nonlinear_arith)
            requires be_nat(a.drop_last()) * 256 + a.last() as nat
                == be_nat(b.drop_last()) * 256 + b.last() as nat;
        assert(a.last() == b.last());
        assert(be_nat(a.drop_last()) == be_nat(b.drop_last())) by (nonlinear_arith)
            requires (be_nat(a.drop_last()) - be_nat(b.drop_last())) * 256 == 0;
        lemma_be_nat_injective(a.drop_last(), b.drop_last());
        assert(a =~= a.drop_last().push(a.last()));
        assert(b =~= b.drop_last().push(b.last()));
    } else {
        assert(a =~= b);
    }
}

/// Compares two byte vectors for sequence equality.
pub fn bytes_eq(a: &Vec<u8>, b: &Vec<u8>) -> (r: bool)
    ensures
        r == (a@ == b@),
{
    if a.len() != b.len() {
        assert(a@ != b@);
        return false;
    }
    let n = a.len();
    let mut i: usize = 0;
    while i < n
        invariant
            n == a@.len() == b@.len(),
            i <= n,
            forall|j: int| 0 <= j < i ==> a@[j] == b@[j],
        decreases n - i,
    {
        if a[i] != b[i] {
            return false;
        }
        i += 1;
    }
    proof {
        assert(a@ =~= b@);
    }
    true
}

/// Returns a fresh copy of a byte vector.
pub fn copy_bytes(a: &Vec<u8>) -> (r: Vec<u8>)
    ensures
        r@ == a@,
{
    let mut r: Vec<u8> = Vec::new();
    let n = a.len();
    let mut i: usize = 0;
    while i < n
        invariant
            n == a@.len(),
            i <= n,
            r@ =~= a@.take(i as int),
        decreases n - i,
    {
        r.push(a[i]);
        i += 1;
    }
    proof {
        assert(a@.take(n as int) =~= a@);
    }
    r
}

/// Appends all bytes of `bytes` to `out`.
pub fn push_all(out: &mut Vec<u8>, bytes: &Vec<u8>)
    ensures
        final(out)@ == old(out)@ + bytes@,
{
    let n = bytes.len();
    let mut i: usize = 0;
    while i < n
        invariant
            n == bytes@.len(),
            i <= n,
            out@ =~= old(out)@ + bytes@.take(i as int),
        decreases n - i,
    {
        out.push(bytes[i]);
        i += 1;
    }
    proof {
        assert(bytes@.take(n as int) =~= bytes@);
        assert(out@ =~= old(out)@ + bytes@);
    }
}

/// Copies `v[a..b]` into a fresh vector.
pub fn sub_bytes(v: &Vec<u8>, a: usize, b: usize) -> (r: Vec<u8>)
    requires
        a <= b <= v@.len(),
    ensures
        r@ == v@.subrange(a as int, b as int),
        r@.len() == b - a,
{
    let mut r: Vec<u8> = Vec::new();
    let mut k: usize = a;
    while k < b
        invariant
            a <= k <= b <= v@.len(),
            r@ =~= v@.subrange(a as int, k as int),
        decreases b - k,
    {
        r.push(v[k]);
        k += 1;
    }
    proof {
        assert(r@ =~= v@.subrange(a as int, b as int));
    }
    r
}

/// A 20-byte account identifier, compared by raw bytes.
#[derive(Debug, PartialEq, Eq)]
pub struct Address(pub Vec<u8>);

impl View for Address {
    type V = Seq<u8>;

    open spec fn view(&self) -> Seq<u8> {
        self.0@
    }
}

impl Address {
    pub open spec fn wf(&self) -> bool {
        self@.len() == 20
    }

    pub fn new(bytes: Vec<u8>) -> (r: Self)
        requires
            bytes@.len() == 20,
        ensures
            r.wf(),
            r@ == bytes@,
    {
        Address(bytes)
    }

    pub fn eq_addr(&self, other: &Self) -> (r: bool)
        ensures
            r == (self@ == other@),
    {
        bytes_eq(&self.0, &other.0)
    }

    pub fn duplicate(&self) -> (r: Self)
        ensures
            r@ == self@,
    {
        Address(copy_bytes(&self.0))
    }
}

/// A 32-byte storage word (slot key or slot value), opaque bytes.
#[derive(Debug, PartialEq, Eq)]
pub struct H256(pub Vec<u8>);

impl View for H256 {
    type V = Seq<u8>;

    open spec fn view(&self) -> Seq<u8> {
        self.0@
    }
}

impl H256 {
    pub open spec fn wf(&self) -> bool {
        self@.len() == 32
    }

    pub fn new(bytes: Vec<u8>) -> (r: Self)
        requires
            bytes@.len() == 32,
        ensures
            r.wf(),
            r@ == bytes@,
    {
        H256(bytes)
    }

    pub fn zero() -> (r: Self)
        ensures
            r.wf(),
            forall|j: int| 0 <= j < 32 ==> r@[j] == 0,
    {
        let mut v: Vec<u8> = Vec::new();
        let mut i: usize = 0;
        while i < 32
            invariant
                i <= 32,
                v@.len() == i,
                forall|j: int| 0 <= j < i ==> v@[j] == 0,
            decreases 32 - i,
        {
            v.push(0u8);
            i += 1;
        }
        H256(v)
    }

    pub fn duplicate(&self) -> (r: Self)
        ensures
            r@ == self@,
    {
        H256(copy_bytes(&self.0))
    }
}

/// An unsigned 256-bit integer, stored as 32 big-endian bytes.
/// Its mathematical value is `be_nat` of the view.
#[derive(Debug, PartialEq, Eq)]
pub struct U256(pub Vec<u8>);

impl View for U256 {
    type V = Seq<u8>;

    open spec fn view(&self) -> Seq<u8> {
        self.0@
    }
}

impl U256 {
    pub open spec fn wf(&self) -> bool {
        self@.len() == 32
    }

    /// The integer this word denotes.
    pub open spec fn val(&self) -> nat {
        be_nat(self@)
    }

    pub fn zero() -> (r: Self)
        ensures
            r.wf(),
            r.val() == 0,
    {
        let mut v: Vec<u8> = Vec::new();
        let mut i: usize = 0;
        while i < 32
            invariant
                i <= 32,
                v@.len() == i,
                forall|j: int| 0 <= j < i ==> v@[j] == 0,
            decreases 32 - i,
        {
            v.push(0u8);
            i += 1;
        }
        proof {
            lemma_be_nat_zero_prefix(v@, 32);
        }
        U256(v)
    }

    pub fn from_be_bytes32(bytes: Vec<u8>) -> (r: Self)
        requires
            bytes@.len() == 32,
        ensures
            r.wf(),
            r@ == bytes@,
    {
        U256(bytes)
    }

    /// Embeds a 64-bit value into the 256-bit space.
    pub fn from_u64(x: u64) -> (r: Self)
        ensures
            r.wf(),
            r.val() == x as nat,
    {
        let mut v: Vec<u8> = Vec::new();
        let mut i: usize = 0;
        while i < 32
            invariant
                i <= 32,
                v@.len() == i,
                forall|j: int| 0 <= j < i ==> v@[j] == 0,
            decreases 32 - i,
        {
            v.push(0u8);
            i += 1;
        }
        proof {
            assert(v@.skip(32).len() == 0);
            assert(be_nat(v@.skip(32)) == 0);
            assert(pow256(0) == 1);
        }
        let mut val: u64 = x;
        let mut k: usize = 32;
        proof {
            assert((32 - k) as nat == 0);
            assert((val as nat) * pow256((32 - k) as nat) == val as nat);
            assert(x as nat == (val as nat) * pow256((32 - k) as nat) + be_nat(v@.skip(k as int)));
        }
        while k > 0 && val > 0
            invariant
                k <= 32,
                v@.len() == 32,
                forall|j: int| 0 <= j < k ==> v@[j] == 0,
                x as nat == (val as nat) * pow256((32 - k) as nat) + be_nat(v@.skip(k as int)),
            decreases k,
        {
            let digit: u8 = (val % 256) as u8;
            let ghost old_v = v@;
            let ghost old_val = val as nat;
            v.set(k - 1, digit);
            proof {
                assert(v@.skip(k as int) =~= old_v.skip(k as int));
                lemma_be_nat_head(v@.skip(k - 1));
                assert(v@.skip(k - 1)[0] == digit);
                assert(v@.skip(k - 1).skip(1) =~= v@.skip(k as int));
                assert((old_val / 256) * 256 * pow256((32 - k) as nat)
                    == (old_val / 256) * (256 * pow256((32 - k) as nat))) by (nonlinear_arith);
                assert(old_val == (old_val / 256) * 256 + old_val % 256);
                assert(old_val * pow256((32 - k) as nat)
                    == ((old_val / 256) * 256 + old_val % 256) * pow256((32 - k) as nat));
                assert(((old_val / 256) * 256 + old_val % 256) * pow256((32 - k) as nat)
                    == (old_val / 256) * 256 * pow256((32 - k) as nat)
                        + (old_val % 256) * pow256((32 - k) as nat)) by (nonlinear_arith);
            }
            val = val / 256;
            k -= 1;
            assert(pow256((32 - k) as nat) == 256 * pow256((32 - k - 1) as nat));
        }
        proof {
            if val > 0 {
                // val * pow256(32 - k) <= x, and if k == 0 that exceeds u64 range
                if k == 0 {
                    lemma_be_nat_bound(v@.skip(0));
                    assert(pow256(32) >= pow256(8)) by {
                        lemma_pow256_increases(8, 32);
                    }
                    assert((val as nat) * pow256(32) >= 1 * pow256(32)) by (nonlinear_arith)
                        requires val >= 1;
                    lemma_pow256_u64_bound();
                    assert(false);
                }
            }
            assert(val == 0);
            lemma_be_nat_zero_prefix(v@, k as int);
        }
        U256(v)
    }

    pub fn duplicate(&self) -> (r: Self)
        ensures
            r@ == self@,
    {
        U256(copy_bytes(&self.0))
    }

    pub fn to_vec(&self) -> (r: Vec<u8>)
        ensures
            r@ == self@,
    {
        copy_bytes(&self.0)
    }

    pub fn eq_u256(&self, other: &Self) -> (r: bool)
        ensures
            r == (self@ == other@),
    {
        bytes_eq(&self.0, &other.0)
    }

    /// Checked addition: `None` exactly on overflow past 2^256 - 1.
    pub fn checked_add(&self, other: &Self) -> (r: Option<U256>)
        requires
            self.wf(),
            other.wf(),
        ensures
            match r {
                Some(v) => v.wf() && v.val() == self.val() + other.val()
                    && self.val() + other.val() < pow256(32),
                None => self.val() + other.val() >= pow256(32),
            },
    {
        let (out, carry) = be_add_carry(&self.0, &other.0);
        if carry == 0 {
            proof {
                lemma_be_nat_bound(out@);
                assert((carry as nat) * pow256(32) == 0) by (nonlinear_arith)
                    requires carry == 0;
                assert(be_nat(self.0@) + be_nat(other.0@) == be_nat(out@));
            }
            Some(U256(out))
        } else {
            proof {
                assert(carry == 1);
                assert((carry as nat) * pow256(32) == pow256(32)) by (nonlinear_arith)
                    requires carry == 1;
            }
            None
        }
    }

    /// Checked subtraction: `None` exactly when `other` exceeds `self`.
    pub fn checked_sub(&self, other: &Self) -> (r: Option<U256>)
        requires
            self.wf(),
            other.wf(),
        ensures
            match r {
                Some(v) => v.wf() && self.val() >= other.val()
                    && v.val() == self.val() - other.val(),
                None => self.val() < other.val(),
            },
    {
        let (out, borrow) = be_sub_borrow(&self.0, &other.0);
        if borrow == 0 {
            proof {
                assert((borrow as int) * (pow256(32) as int) == 0) by (nonlinear_arith)
                    requires borrow == 0;
            }
            Some(U256(out))
        } else {
            proof {
                lemma_be_nat_bound(out@);
                assert(borrow == 1);
                assert((borrow as int) * (pow256(32) as int) == pow256(32) as int)
                    by (nonlinear_arith)
                    requires borrow == 1;
            }
            None
        }
    }

    /// Checked increment: `None` exactly at the maximum value.
    pub fn checked_incr(&self) -> (r: Option<U256>)
        requires
            self.wf(),
        ensures
            match r {
                Some(v) => v.wf() && v.val() == self.val() + 1
                    && self.val() + 1 < pow256(32),
                None => self.val() + 1 >= pow256(32),
            },
    {
        let one = U256::from_u64(1);
        self.checked_add(&one)
    }
}

pub proof fn lemma_pow256_increases(m: nat, n: nat)
    requires
        m <= n,
    ensures
        pow256(m) <= pow256(n),
    decreases n,
{
    if m < n {
        lemma_pow256_increases(m, (n - 1) as nat);
        assert(pow256(n) == 256 * pow256((n - 1) as nat));
    }
}

/// 2^64 equals 256^8, so every u64 is below `pow256(8)`.
pub proof fn lemma_pow256_u64_bound()
    ensures
        pow256(8) == 0x1_0000_0000_0000_0000,
{
    reveal_with_fuel(pow256, 9);
}

/// Schoolbook big-endian addition over two equal-length byte vectors,
/// returning the digits and the final carry.
fn be_add_carry(a: &Vec<u8>, b: &Vec<u8>) -> (r: (Vec<u8>, u8))
    requires
        a@.len() == 32,
        b@.len() == 32,
    ensures
        r.0@.len() == 32,
        r.1 <= 1,
        be_nat(a@) + be_nat(b@) == be_nat(r.0@) + (r.1 as nat) * pow256(32),
{
    let mut out: Vec<u8> = Vec::new();
    let mut i: usize = 0;
    while i < 32
        invariant
            i <= 32,
            out@.len() == i,
        decreases 32 - i,
    {
        out.push(0u8);
        i += 1;
    }
    proof {
        assert(a@.skip(32).len() == 0);
        assert(be_nat(a@.skip(32)) == 0);
        assert(be_nat(b@.skip(32)) == 0);
        assert(be_nat(out@.skip(32)) == 0);
    }
    let mut carry: u8 = 0;
    let mut k: usize = 32;
    while k > 0
        invariant
            k <= 32,
            out@.len() == 32,
            a@.len() == 32,
            b@.len() == 32,
            carry <= 1,
            be_nat(a@.skip(k as int)) + be_nat(b@.skip(k as int))
                == be_nat(out@.skip(k as int)) + (carry as nat) * pow256((32 - k) as nat),
        decreases k,
    {
        let t: u16 = a[k - 1] as u16 + b[k - 1] as u16 + carry as u16;
        let digit: u8 = (t % 256) as u8;
        let new_carry: u8 = (t / 256) as u8;
        let ghost old_out = out@;
        let ghost old_carry = carry as nat;
        out.set(k - 1, digit);
        proof {
            assert(out@.skip(k as int) =~= old_out.skip(k as int));
            lemma_be_nat_head(a@.skip(k - 1));
            lemma_be_nat_head(b@.skip(k - 1));
            lemma_be_nat_head(out@.skip(k - 1));
            assert(a@.skip(k - 1)[0] == a@[k - 1]);
            assert(a@.skip(k - 1).skip(1) =~= a@.skip(k as int));
            assert(b@.skip(k - 1)[0] == b@[k - 1]);
            assert(b@.skip(k - 1).skip(1) =~= b@.skip(k as int));
            assert(out@.skip(k - 1)[0] == digit);
            assert(out@.skip(k - 1).skip(1) =~= out@.skip(k as int));
            let p = pow256((32 - k) as nat);
            assert(pow256((32 - k + 1) as nat) == 256 * p);
            assert(digit as nat + 256 * (new_carry as nat)
                == a@[k - 1] + b@[k - 1] + old_carry);
            assert((a@[k - 1] + b@[k - 1]) * p == a@[k - 1] * p + b@[k - 1] * p)
                by (nonlinear_arith);
            assert((digit as nat + 256 * (new_carry as nat)) * p
                == digit as nat * p + (new_carry as nat) * (256 * p)) by (nonlinear_arith);
            assert((a@[k - 1] + b@[k - 1] + old_carry) * p
                == (a@[k - 1] + b@[k - 1]) * p + old_carry * p) by (nonlinear_arith);
        }
        carry = new_carry;
        k -= 1;
    }
    proof {
        assert(a@.skip(0) =~= a@);
        assert(b@.skip(0) =~= b@);
        assert(out@.skip(0) =~= out@);
    }
    (out, carry)
}

/// Schoolbook big-endian subtraction, returning digits and final borrow.
fn be_sub_borrow(a: &Vec<u8>, b: &Vec<u8>) -> (r: (Vec<u8>, u8))
    requires
        a@.len() == 32,
        b@.len() == 32,
    ensures
        r.0@.len() == 32,
        r.1 <= 1,
        be_nat(a@) - be_nat(b@) == be_nat(r.0@) - (r.1 as int) * (pow256(32) as int),
{
    let mut out: Vec<u8> = Vec::new();
    let mut i: usize = 0;
    while i < 32
        invariant
            i <= 32,
            out@.len() == i,
        decreases 32 - i,
    {
        out.push(0u8);
        i += 1;
    }
    proof {
        assert(a@.skip(32).len() == 0);
        assert(be_nat(a@.skip(32)) == 0);
        assert(be_nat(b@.skip(32)) == 0);
        assert(be_nat(out@.skip(32)) == 0);
    }
    let mut borrow: u8 = 0;
    let mut k: usize = 32;
    while k > 0
        invariant
            k <= 32,
            out@.len() == 32,
            a@.len() == 32,
            b@.len() == 32,
            borrow <= 1,
            be_nat(a@.skip(k as int)) - be_nat(b@.skip(k as int))
                == be_nat(out@.skip(k as int))
                    - (borrow as int) * (pow256((32 - k) as nat) as int),
        decreases k,
    {
        let ai: u16 = a[k - 1] as u16;
        let sub: u16 = b[k - 1] as u16 + borrow as u16;
        let digit: u8;
        let new_borrow: u8;
        if ai >= sub {
            digit = (ai - sub) as u8;
            new_borrow = 0;
        } else {
            digit = (256 + ai - sub) as u8;
            new_borrow = 1;
        }
        let ghost old_out = out@;
        let ghost old_borrow = borrow as int;
        out.set(k - 1, digit);
        proof {
            assert(out@.skip(k as int) =~= old_out.skip(k as int));
            lemma_be_nat_head(a@.skip(k - 1));
            lemma_be_nat_head(b@.skip(k - 1));
            lemma_be_nat_head(out@.skip(k - 1));
            assert(a@.skip(k - 1)[0] == a@[k - 1]);
            assert(a@.skip(k - 1).skip(1) =~= a@.skip(k as int));
            assert(b@.skip(k - 1)[0] == b@[k - 1]);
            assert(b@.skip(k - 1).skip(1) =~= b@.skip(k as int));
            assert(out@.skip(k - 1)[0] == digit);
            assert(out@.skip(k - 1).skip(1) =~= out@.skip(k as int));
            let p = pow256((32 - k) as nat) as int;
            assert(pow256((32 - k + 1) as nat) == 256 * pow256((32 - k) as nat));
            assert(digit as int - 256 * (new_borrow as int)
                == a@[k - 1] - b@[k - 1] - old_borrow);
            assert((digit as int - 256 * (new_borrow as int)) * p
                == digit as int * p - (new_borrow as int) * (256 * p)) by (nonlinear_arith);
            assert((a@[k - 1] - b@[k - 1] - old_borrow) * p
                == a@[k - 1] * p - b@[k - 1] * p - old_borrow * p) by (nonlinear_arith);
        }
        borrow = new_borrow;
        k -= 1;
    }
    proof {
        assert(a@.skip(0) =~= a@);
        assert(b@.skip(0) =~= b@);
        assert(out@.skip(0) =~= out@);
    }
    (out, borrow)
}

} // verus!
