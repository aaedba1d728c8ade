//! Account state accessor, admission pipeline and staged code-upgrade
//! state machine, all specified against the flat store's map view.
//!
//! Admission is fail-closed: decoding, chain binding, signature and
//! nonce checks reject with zero state mutation.  Once the nonce gate
//! has passed, the nonce increment is committed; a later execution
//! failure (such as an insufficient balance on the transfer path) keeps
//! the nonce consumed, so no transaction is ever admitted twice.

use vstd::prelude::*;
use crate::storage::KeyPrefix;
use crate::storage::spec_key;
use crate::storage::address_to_key;
use crate::storage::storage_to_key;
use crate::storage::lemma_key_disjoint;
use crate::store::Store;
use crate::transaction::EthSignedTransaction;
use crate::transaction::spec_chain_id;
use crate::types::Address;
use crate::types::H256;
use crate::types::U256;
use crate::types::be_nat;
use crate::types::pow256;
use crate::types::copy_bytes;

verus! {

// ---------------------------------------------------------------------
// Spec-level reading of the flat store
// ---------------------------------------------------------------------

pub open spec fn nonce_key(addr: Seq<u8>) -> Seq<u8> {
    spec_key(KeyPrefix::Nonce, addr)
}

pub open spec fn balance_key(addr: Seq<u8>) -> Seq<u8> {
    spec_key(KeyPrefix::Balance, addr)
}

pub open spec fn code_key(addr: Seq<u8>) -> Seq<u8> {
    spec_key(KeyPrefix::Code, addr)
}

pub open spec fn storage_slot_key(addr: Seq<u8>, slot: Seq<u8>) -> Seq<u8> {
    spec_key(KeyPrefix::Storage, addr + slot)
}

pub open spec fn zero_word() -> Seq<u8> {
    Seq::new(32, |i: int| 0u8)
}

/// A 256-bit field read from the store; absent or ill-sized entries
/// denote zero.
pub open spec fn word_of(m: Map<Seq<u8>, Seq<u8>>, key: Seq<u8>) -> nat {
    if m.contains_key(key) && m[key].len() == 32 {
        be_nat(m[key])
    } else {
        0
    }
}

pub open spec fn nonce_of(m: Map<Seq<u8>, Seq<u8>>, addr: Seq<u8>) -> nat {
    word_of(m, nonce_key(addr))
}

pub open spec fn balance_of(m: Map<Seq<u8>, Seq<u8>>, addr: Seq<u8>) -> nat {
    word_of(m, balance_key(addr))
}

pub open spec fn code_of(m: Map<Seq<u8>, Seq<u8>>, addr: Seq<u8>) -> Seq<u8> {
    if m.contains_key(code_key(addr)) {
        m[code_key(addr)]
    } else {
        Seq::empty()
    }
}

pub open spec fn storage_of(m: Map<Seq<u8>, Seq<u8>>, addr: Seq<u8>, slot: Seq<u8>) -> Seq<u8> {
    if m.contains_key(storage_slot_key(addr, slot)) && m[storage_slot_key(addr, slot)].len() == 32 {
        m[storage_slot_key(addr, slot)]
    } else {
        zero_word()
    }
}

/// All keys outside `except` carry the same entries in `m0` and `m1`.
pub open spec fn same_but(
    m0: Map<Seq<u8>, Seq<u8>>,
    m1: Map<Seq<u8>, Seq<u8>>,
    except: Set<Seq<u8>>,
) -> bool {
    m1.remove_keys(except) == m0.remove_keys(except)
}

/// Pointwise reading of `same_but`.
pub proof fn lemma_same_but_at(
    m0: Map<Seq<u8>, Seq<u8>>,
    m1: Map<Seq<u8>, Seq<u8>>,
    except: Set<Seq<u8>>,
    k: Seq<u8>,
)
    requires
        same_but(m0, m1, except),
        !except.contains(k),
    ensures
        m1.contains_key(k) == m0.contains_key(k),
        m0.contains_key(k) ==> m1[k] == m0[k],
{
    assert(m0.remove_keys(except).contains_key(k) == (m0.contains_key(k) && !except.contains(k)));
    assert(m1.remove_keys(except).contains_key(k) == (m1.contains_key(k) && !except.contains(k)));
    if m0.contains_key(k) {
        assert(m0.remove_keys(except)[k] == m0[k]);
        assert(m1.remove_keys(except)[k] == m1[k]);
    }
}

/// Two confined store changes compose into one confined change.
pub proof fn lemma_same_but_trans(
    m0: Map<Seq<u8>, Seq<u8>>,
    m1: Map<Seq<u8>, Seq<u8>>,
    m2: Map<Seq<u8>, Seq<u8>>,
    e0: Set<Seq<u8>>,
    e1: Set<Seq<u8>>,
    e: Set<Seq<u8>>,
)
    requires
        same_but(m0, m1, e0),
        same_but(m1, m2, e1),
        e0.subset_of(e),
        e1.subset_of(e),
    ensures
        same_but(m0, m2, e),
{
    assert forall|k: Seq<u8>|
        #[trigger] m2.remove_keys(e).contains_key(k)
            == m0.remove_keys(e).contains_key(k) by {
        if !e.contains(k) {
            lemma_same_but_at(m0, m1, e0, k);
            lemma_same_but_at(m1, m2, e1, k);
        }
    }
    assert forall|k: Seq<u8>| m0.remove_keys(e).contains_key(k) implies #[trigger] m2.remove_keys(
        e,
    )[k] == m0.remove_keys(e)[k] by {
        lemma_same_but_at(m0, m1, e0, k);
        lemma_same_but_at(m1, m2, e1, k);
    }
    assert(m2.remove_keys(e) =~= m0.remove_keys(e));
}

// ---------------------------------------------------------------------
// Configuration and engine state
// ---------------------------------------------------------------------

/// Process-wide configuration, set once at initialization.
#[derive(Debug)]
pub struct EngineState {
    /// Host account id of the contract owner; empty until initialized.
    pub owner_id: Vec<u8>,
    /// Host account id of the bridge prover.
    pub bridge_prover_id: Vec<u8>,
    /// Chain id this contract answers for, as a 256-bit word.
    pub chain_id: U256,
    /// Mandatory observation window for staged upgrades, in blocks.
    pub upgrade_delay_blocks: u64,
}

pub struct EngineStateView {
    pub owner_id: Seq<u8>,
    pub bridge_prover_id: Seq<u8>,
    pub chain_id: Seq<u8>,
    pub upgrade_delay_blocks: u64,
}

impl View for EngineState {
    type V = EngineStateView;

    open spec fn view(&self) -> EngineStateView {
        EngineStateView {
            owner_id: self.owner_id@,
            bridge_prover_id: self.bridge_prover_id@,
            chain_id: self.chain_id@,
            upgrade_delay_blocks: self.upgrade_delay_blocks,
        }
    }
}

impl EngineState {
    pub open spec fn wf(&self) -> bool {
        self.chain_id.wf()
    }
}

/// One invocation's view of the contract: configuration, the running
/// code blob and the flat store.
pub struct Engine {
    pub state: EngineState,
    pub code: Vec<u8>,
    pub store: Store,
}

pub struct EngineView {
    pub state: EngineStateView,
    pub code: Seq<u8>,
    pub store: Map<Seq<u8>, Seq<u8>>,
}

impl View for Engine {
    type V = EngineView;

    open spec fn view(&self) -> EngineView {
        EngineView { state: self.state@, code: self.code@, store: self.store@ }
    }
}

// ---------------------------------------------------------------------
// Errors
// ---------------------------------------------------------------------

/// Failure of the nonce-based replay gate.
#[derive(Clone, Copy, Debug, PartialEq, Eq, Structural)]
pub enum NonceError {
    /// The provided nonce differs from the account's current nonce.
    IncorrectNonce,
    /// The account's nonce cannot be advanced past the maximum value.
    NonceOverflow,
}

/// Rejection or failure of a submitted transaction.
#[derive(Clone, Copy, Debug, PartialEq, Eq, Structural)]
pub enum SubmitError {
    InvalidChainId,
    InvalidEcdsaSignature,
    IncorrectNonce,
    NonceOverflow,
    InsufficientBalance,
    BalanceOverflow,
}

/// Failure of an administrative or upgrade operation.
#[derive(Clone, Copy, Debug, PartialEq, Eq, Structural)]
pub enum EngineError {
    /// Caller is not the configured owner.
    NotAllowed,
    /// No upgrade is staged.
    NoUpgrade,
    /// The upgrade delay window has not elapsed.
    TooEarly,
    /// A block index computation does not fit in 64 bits.
    IndexOverflow,
}

impl SubmitError {
    /// Short machine-readable code surfaced to the caller.
    pub fn code(&self) -> (r: &'static str)
        ensures
            self is InvalidChainId ==> r@ == "ERR_INVALID_CHAIN_ID"@,
            self is InvalidEcdsaSignature ==> r@ == "ERR_INVALID_ECDSA_SIGNATURE"@,
            self is IncorrectNonce ==> r@ == "ERR_INCORRECT_NONCE"@,
            self is NonceOverflow ==> r@ == "ERR_NONCE_OVERFLOW"@,
            self is InsufficientBalance ==> r@ == "ERR_INSUFFICIENT_BALANCE"@,
            self is BalanceOverflow ==> r@ == "ERR_BALANCE_OVERFLOW"@,
    {
        match self {
            SubmitError::InvalidChainId => "ERR_INVALID_CHAIN_ID",
            SubmitError::InvalidEcdsaSignature => "ERR_INVALID_ECDSA_SIGNATURE",
            SubmitError::IncorrectNonce => "ERR_INCORRECT_NONCE",
            SubmitError::NonceOverflow => "ERR_NONCE_OVERFLOW",
            SubmitError::InsufficientBalance => "ERR_INSUFFICIENT_BALANCE",
            SubmitError::BalanceOverflow => "ERR_BALANCE_OVERFLOW",
        }
    }
}

impl EngineError {
    /// Short machine-readable code surfaced to the caller.
    pub fn code(&self) -> (r: &'static str)
        ensures
            self is NotAllowed ==> r@ == "ERR_NOT_ALLOWED"@,
            self is NoUpgrade ==> r@ == "ERR_NO_UPGRADE"@,
            self is TooEarly ==> r@ == "ERR_NOT_ALLOWED:TOO_EARLY"@,
            self is IndexOverflow ==> r@ == "ERR_INDEX_OVERFLOW"@,
    {
        match self {
            EngineError::NotAllowed => "ERR_NOT_ALLOWED",
            EngineError::NoUpgrade => "ERR_NO_UPGRADE",
            EngineError::TooEarly => "ERR_NOT_ALLOWED:TOO_EARLY",
            EngineError::IndexOverflow => "ERR_INDEX_OVERFLOW",
        }
    }
}

// ---------------------------------------------------------------------
// Admission outcome
// ---------------------------------------------------------------------

/// What an admitted transaction asks the surrounding runtime to do.
/// A plain value transfer is applied entirely inside the engine; a
/// call or a deployment is handed to the external EVM interpreter with
/// the admission checks already committed.
#[derive(Debug)]
pub enum SubmitOutcome {
    Transferred { sender: Address, receiver: Address, value: U256 },
    Call { sender: Address, receiver: Address, value: U256, data: Vec<u8> },
    Deploy { sender: Address, value: U256, init_code: Vec<u8> },
}

/// Chain binding: a transaction that embeds a chain id must embed the
/// configured one.
pub open spec fn chain_id_ok(chain: Seq<u8>, v: u64) -> bool {
    match spec_chain_id(v) {
        Some(c) => c as nat == be_nat(chain),
        None => true,
    }
}

/// Outcome of the fail-closed admission prefix (decode excluded):
/// chain binding, signature recovery and the nonce gate, in order.
pub open spec fn spec_admission(
    m: Map<Seq<u8>, Seq<u8>>,
    chain: Seq<u8>,
    v: u64,
    tx_nonce: nat,
    sender: Option<Seq<u8>>,
) -> Result<(), SubmitError> {
    if !chain_id_ok(chain, v) {
        Err(SubmitError::InvalidChainId)
    } else {
        match sender {
            None => Err(SubmitError::InvalidEcdsaSignature),
            Some(s) => {
                if tx_nonce != nonce_of(m, s) {
                    Err(SubmitError::IncorrectNonce)
                } else if tx_nonce + 1 >= pow256(32) {
                    Err(SubmitError::NonceOverflow)
                } else {
                    Ok(())
                }
            },
        }
    }
}

impl Engine {
    pub open spec fn wf(&self) -> bool {
        self.state.wf() && self.store.wf()
    }

    /// Fresh engine over an empty store.
    pub fn new(state: EngineState, code: Vec<u8>) -> (r: Engine)
        requires
            state.wf(),
        ensures
            r.wf(),
            r@.state == state@,
            r@.code == code@,
            r@.store == Map::<Seq<u8>, Seq<u8>>::empty(),
    {
        Engine { state, code, store: Store::new() }
    }

    /// Owner account id of this contract.
    pub fn get_owner(&self) -> (r: Vec<u8>)
        ensures
            r@ == self@.state.owner_id,
    {
        copy_bytes(&self.state.owner_id)
    }

    /// Bridge prover account id of this contract.
    pub fn get_bridge_provider(&self) -> (r: Vec<u8>)
        ensures
            r@ == self@.state.bridge_prover_id,
    {
        copy_bytes(&self.state.bridge_prover_id)
    }

    /// Configured chain id of this contract.
    pub fn get_chain_id(&self) -> (r: U256)
        ensures
            r@ == self@.state.chain_id,
    {
        self.state.chain_id.duplicate()
    }

    // -----------------------------------------------------------------
    // Account state accessor
    // -----------------------------------------------------------------

    /// Current nonce of an account; zero when absent.
    pub fn get_nonce(&self, address: &Address) -> (r: U256)
        requires
            self.wf(),
            address.wf(),
        ensures
            r.wf(),
            r.val() == nonce_of(self@.store, address@),
    {
        let key = address_to_key(KeyPrefix::Nonce, address);
        match self.store.read(&key) {
            Some(v) => {
                if v.len() == 32 {
                    U256::from_be_bytes32(v)
                } else {
                    U256::zero()
                }
            },
            None => U256::zero(),
        }
    }

    pub fn set_nonce(&mut self, address: &Address, value: &U256)
        requires
            old(self).wf(),
            address.wf(),
            value.wf(),
        ensures
            final(self).wf(),
            final(self)@.state == old(self)@.state,
            final(self)@.code == old(self)@.code,
            final(self)@.store == old(self)@.store.insert(nonce_key(address@), value@),
    {
        let key = address_to_key(KeyPrefix::Nonce, address);
        self.store.write(key, value.to_vec());
    }

    /// Current balance of an account; zero when absent.
    pub fn get_balance(&self, address: &Address) -> (r: U256)
        requires
            self.wf(),
            address.wf(),
        ensures
            r.wf(),
            r.val() == balance_of(self@.store, address@),
    {
        let key = address_to_key(KeyPrefix::Balance, address);
        match self.store.read(&key) {
            Some(v) => {
                if v.len() == 32 {
                    U256::from_be_bytes32(v)
                } else {
                    U256::zero()
                }
            },
            None => U256::zero(),
        }
    }

    pub fn set_balance(&mut self, address: &Address, value: &U256)
        requires
            old(self).wf(),
            address.wf(),
            value.wf(),
        ensures
            final(self).wf(),
            final(self)@.state == old(self)@.state,
            final(self)@.code == old(self)@.code,
            final(self)@.store == old(self)@.store.insert(balance_key(address@), value@),
    {
        let key = address_to_key(KeyPrefix::Balance, address);
        self.store.write(key, value.to_vec());
    }

    /// Deployed code of an account; empty when absent.
    pub fn get_code(&self, address: &Address) -> (r: Vec<u8>)
        requires
            self.wf(),
            address.wf(),
        ensures
            r@ == code_of(self@.store, address@),
    {
        let key = address_to_key(KeyPrefix::Code, address);
        match self.store.read(&key) {
            Some(v) => v,
            None => Vec::new(),
        }
    }

    pub fn set_code(&mut self, address: &Address, code: &Vec<u8>)
        requires
            old(self).wf(),
            address.wf(),
        ensures
            final(self).wf(),
            final(self)@.state == old(self)@.state,
            final(self)@.code == old(self)@.code,
            final(self)@.store == old(self)@.store.insert(code_key(address@), code@),
    {
        let key = address_to_key(KeyPrefix::Code, address);
        self.store.write(key, copy_bytes(code));
    }

    /// Value of one storage slot; the zero word when absent.
    pub fn get_storage(&self, address: &Address, key: &H256) -> (r: H256)
        requires
            self.wf(),
            address.wf(),
            key.wf(),
        ensures
            r.wf(),
            r@ == storage_of(self@.store, address@, key@),
    {
        let raw = storage_to_key(address, key);
        match self.store.read(&raw) {
            Some(v) => {
                if v.len() == 32 {
                    H256(v)
                } else {
                    let z = H256::zero();
                    proof {
                        assert(z@ =~= zero_word());
                    }
                    z
                }
            },
            None => {
                let z = H256::zero();
                proof {
                    assert(z@ =~= zero_word());
                }
                z
            },
        }
    }

    pub fn set_storage(&mut self, address: &Address, key: &H256, value: &H256)
        requires
            old(self).wf(),
            address.wf(),
            key.wf(),
            value.wf(),
        ensures
            final(self).wf(),
            final(self)@.state == old(self)@.state,
            final(self)@.code == old(self)@.code,
            final(self)@.store == old(self)@.store.insert(
                storage_slot_key(address@, key@),
                value@,
            ),
    {
        let raw = storage_to_key(address, key);
        self.store.write(raw, copy_bytes(&value.0));
    }

    // -----------------------------------------------------------------
    // Replay protection
    // -----------------------------------------------------------------

    /// The sole replay-protection gate: succeeds exactly when the
    /// provided nonce equals the account's current nonce (and that
    /// nonce can still be advanced), persisting the incremented nonce;
    /// any failure leaves the store untouched.  No balance is touched
    /// either way.
    pub fn check_and_increment_nonce(&mut self, address: &Address, provided: &U256) -> (r: Result<
        U256,
        NonceError,
    >)
        requires
            old(self).wf(),
            address.wf(),
            provided.wf(),
        ensures
            final(self).wf(),
            final(self)@.state == old(self)@.state,
            final(self)@.code == old(self)@.code,
            forall|a: Seq<u8>| #[trigger] balance_of(final(self)@.store, a) == balance_of(
                old(self)@.store,
                a,
            ),
            match r {
                Ok(next) => {
                    &&& provided.val() == nonce_of(old(self)@.store, address@)
                    &&& nonce_of(old(self)@.store, address@) + 1 < pow256(32)
                    &&& next.wf()
                    &&& next.val() == nonce_of(old(self)@.store, address@) + 1
                    &&& final(self)@.store == old(self)@.store.insert(
                        nonce_key(address@),
                        next@,
                    )
                    &&& nonce_of(final(self)@.store, address@) == nonce_of(
                        old(self)@.store,
                        address@,
                    ) + 1
                    &&& same_but(old(self)@.store, final(self)@.store, set![nonce_key(address@)])
                },
                Err(e) => {
                    &&& final(self)@.store == old(self)@.store
                    &&& (e is IncorrectNonce <==> provided.val() != nonce_of(
                        old(self)@.store,
                        address@,
                    ))
                    &&& (e is NonceOverflow <==> provided.val() == nonce_of(
                        old(self)@.store,
                        address@,
                    ) && nonce_of(old(self)@.store, address@) + 1 >= pow256(32))
                },
            },
    {
        let current = self.get_nonce(address);
        if !provided.eq_u256(&current) {
            proof {
                if provided.val() == current.val() {
                    crate::types::lemma_be_nat_injective(provided@, current@);
                }
            }
            return Err(NonceError::IncorrectNonce);
        }
        match current.checked_incr() {
            Some(next) => {
                self.set_nonce(address, &next);
                proof {
                    assert(nonce_of(self@.store, address@) == next.val());
                    assert(self@.store.remove_keys(set![nonce_key(address@)])
                        =~= old(self)@.store.remove_keys(set![nonce_key(address@)]));
                    assert forall|a: Seq<u8>| #[trigger] balance_of(self@.store, a) == balance_of(
                        old(self)@.store,
                        a,
                    ) by {
                        lemma_key_disjoint(KeyPrefix::Balance, KeyPrefix::Nonce, a, address@);
                    }
                }
                Ok(next)
            },
            None => Err(NonceError::NonceOverflow),
        }
    }

    // -----------------------------------------------------------------
    // Value transfer
    // -----------------------------------------------------------------

    /// Plain balance movement, applied without the interpreter.  Fails
    /// with no state change when the sender's balance is insufficient
    /// or the receiver's balance would overflow; only the two balance
    /// entries are ever written, so no nonce, code or storage entry
    /// moves.
    pub fn transfer(&mut self, sender: &Address, receiver: &Address, value: &U256) -> (r: Result<
        (),
        SubmitError,
    >)
        requires
            old(self).wf(),
            sender.wf(),
            receiver.wf(),
            value.wf(),
        ensures
            final(self).wf(),
            final(self)@.state == old(self)@.state,
            final(self)@.code == old(self)@.code,
            forall|a: Seq<u8>| #[trigger] nonce_of(final(self)@.store, a) == nonce_of(
                old(self)@.store,
                a,
            ),
            match r {
                Ok(_) => {
                    &&& balance_of(old(self)@.store, sender@) >= value.val()
                    &&& (sender@ == receiver@ ==> final(self)@.store == old(self)@.store)
                    &&& (sender@ != receiver@ ==> {
                        &&& balance_of(old(self)@.store, receiver@) + value.val() < pow256(32)
                        &&& balance_of(final(self)@.store, sender@) == balance_of(
                            old(self)@.store,
                            sender@,
                        ) - value.val()
                        &&& balance_of(final(self)@.store, receiver@) == balance_of(
                            old(self)@.store,
                            receiver@,
                        ) + value.val()
                    })
                    &&& same_but(
                        old(self)@.store,
                        final(self)@.store,
                        set![balance_key(sender@), balance_key(receiver@)],
                    )
                },
                Err(e) => {
                    &&& final(self)@.store == old(self)@.store
                    &&& (e is InsufficientBalance <==> balance_of(old(self)@.store, sender@)
                        < value.val())
                    &&& (e is BalanceOverflow <==> balance_of(old(self)@.store, sender@)
                        >= value.val() && sender@ != receiver@ && balance_of(
                        old(self)@.store,
                        receiver@,
                    ) + value.val() >= pow256(32))
                    &&& (e is InsufficientBalance || e is BalanceOverflow)
                },
            },
    {
        let sender_balance = self.get_balance(sender);
        if sender.eq_addr(receiver) {
            let enough = match sender_balance.checked_sub(value) {
                Some(_) => true,
                None => false,
            };
            if enough {
                return Ok(());
            } else {
                return Err(SubmitError::InsufficientBalance);
            }
        }
        let new_sender_balance = match sender_balance.checked_sub(value) {
            Some(x) => x,
            None => {
                return Err(SubmitError::InsufficientBalance);
            },
        };
        let receiver_balance = self.get_balance(receiver);
        let new_receiver_balance = match receiver_balance.checked_add(value) {
            Some(x) => x,
            None => {
                return Err(SubmitError::BalanceOverflow);
            },
        };
        self.set_balance(sender, &new_sender_balance);
        self.set_balance(receiver, &new_receiver_balance);
        proof {
            assert(spec_key(KeyPrefix::Balance, sender@).skip(2) =~= sender@);
            assert(spec_key(KeyPrefix::Balance, receiver@).skip(2) =~= receiver@);
            assert(balance_key(sender@) != balance_key(receiver@));
            assert(self@.store.remove_keys(set![balance_key(sender@), balance_key(receiver@)])
                =~= old(self)@.store.remove_keys(
                set![balance_key(sender@), balance_key(receiver@)],
            ));
            assert forall|a: Seq<u8>| #[trigger] nonce_of(self@.store, a) == nonce_of(
                old(self)@.store,
                a,
            ) by {
                lemma_key_disjoint(KeyPrefix::Nonce, KeyPrefix::Balance, a, sender@);
                lemma_key_disjoint(KeyPrefix::Nonce, KeyPrefix::Balance, a, receiver@);
            }
        }
        Ok(())
    }

    // -----------------------------------------------------------------
    // Admission pipeline
    // -----------------------------------------------------------------

    /// Admits one decoded signed transaction.  `recovered_sender` is
    /// the result of the external ECDSA recovery over the transaction's
    /// signing hash; `None` means recovery failed and the transaction
    /// is rejected.  Chain binding, signature and nonce checks reject
    /// fail-closed; after the nonce gate the increment stays committed
    /// whatever happens later.  A transfer is applied here; a call or
    /// deployment is returned for the external interpreter.
    pub fn submit(&mut self, tx: &EthSignedTransaction, recovered_sender: Option<Address>) -> (r:
        Result<SubmitOutcome, SubmitError>)
        requires
            old(self).wf(),
            tx.wf(),
            match recovered_sender {
                Some(a) => a.wf(),
                None => true,
            },
        ensures
            final(self).wf(),
            final(self)@.state == old(self)@.state,
            final(self)@.code == old(self)@.code,
            ({
                let sv = match recovered_sender {
                    Some(a) => Some(a@),
                    None => None,
                };
                match spec_admission(
                    old(self)@.store,
                    old(self)@.state.chain_id,
                    tx.v,
                    tx.transaction.nonce.val(),
                    sv,
                ) {
                    Err(e) => r == Err::<SubmitOutcome, SubmitError>(e) && final(self)@.store
                        == old(self)@.store,
                    Ok(_) => match recovered_sender {
                        None => false,
                        Some(sa) => {
                            let s = sa@;
                            &&& nonce_of(final(self)@.store, s) == nonce_of(old(self)@.store, s)
                                + 1
                            &&& match tx.transaction.to {
                                None => {
                                    &&& same_but(
                                        old(self)@.store,
                                        final(self)@.store,
                                        set![nonce_key(s)],
                                    )
                                    &&& (r matches Ok(SubmitOutcome::Deploy {
                                        sender: a,
                                        value: vv,
                                        init_code: d,
                                    }) && a@ == s && vv@ == tx.transaction.value@ && d@
                                        == tx.transaction.data@)
                                },
                                Some(receiver) => {
                                    if tx.transaction.data@.len() == 0 {
                                        match r {
                                            Ok(o) => {
                                                &&& (o matches SubmitOutcome::Transferred {
                                                    sender: a,
                                                    receiver: b,
                                                    value: vv,
                                                } && a@ == s && b@ == receiver@ && vv@
                                                    == tx.transaction.value@)
                                                &&& balance_of(old(self)@.store, s)
                                                    >= tx.transaction.value.val()
                                                &&& (s != receiver@ ==> {
                                                    &&& balance_of(final(self)@.store, s)
                                                        == balance_of(old(self)@.store, s)
                                                        - tx.transaction.value.val()
                                                    &&& balance_of(final(self)@.store, receiver@)
                                                        == balance_of(old(self)@.store, receiver@)
                                                        + tx.transaction.value.val()
                                                })
                                                &&& same_but(
                                                    old(self)@.store,
                                                    final(self)@.store,
                                                    set![
                                                        nonce_key(s),
                                                        balance_key(s),
                                                        balance_key(receiver@),
                                                    ],
                                                )
                                            },
                                            Err(e) => {
                                                &&& (e is InsufficientBalance
                                                    || e is BalanceOverflow)
                                                &&& (e is InsufficientBalance <==> balance_of(
                                                    old(self)@.store,
                                                    s,
                                                ) < tx.transaction.value.val())
                                                &&& (e is BalanceOverflow <==> balance_of(
                                                    old(self)@.store,
                                                    s,
                                                ) >= tx.transaction.value.val() && s != receiver@
                                                    && balance_of(old(self)@.store, receiver@)
                                                    + tx.transaction.value.val() >= pow256(32))
                                                &&& same_but(
                                                    old(self)@.store,
                                                    final(self)@.store,
                                                    set![nonce_key(s)],
                                                )
                                            },
                                        }
                                    } else {
                                        &&& same_but(
                                            old(self)@.store,
                                            final(self)@.store,
                                            set![nonce_key(s)],
                                        )
                                        &&& (r matches Ok(SubmitOutcome::Call {
                                            sender: a,
                                            receiver: b,
                                            value: vv,
                                            data: d,
                                        }) && a@ == s && b@ == receiver@ && vv@
                                            == tx.transaction.value@ && d@
                                            == tx.transaction.data@)
                                    }
                                },
                            }
                        },
                    },
                }
            }),
    {
        // Chain binding check.
        match tx.chain_id() {
            Some(c) => {
                let embedded = U256::from_u64(c);
                if !embedded.eq_u256(&self.state.chain_id) {
                    proof {
                        if embedded.val() == be_nat(self.state.chain_id@) {
                            crate::types::lemma_be_nat_injective(embedded@, self.state.chain_id@);
                        }
                    }
                    return Err(SubmitError::InvalidChainId);
                }
            },
            None => {},
        }
        // Signature recovery result.
        let sender = match recovered_sender {
            Some(a) => a,
            None => {
                return Err(SubmitError::InvalidEcdsaSignature);
            },
        };
        // Replay gate.
        match self.check_and_increment_nonce(&sender, &tx.transaction.nonce) {
            Ok(_) => {},
            Err(NonceError::IncorrectNonce) => {
                return Err(SubmitError::IncorrectNonce);
            },
            Err(NonceError::NonceOverflow) => {
                return Err(SubmitError::NonceOverflow);
            },
        }
        let ghost mid = self@.store;
        // Dispatch by transaction shape.
        match &tx.transaction.to {
            Some(receiver) => {
                if tx.transaction.data.len() == 0 {
                    let res = self.transfer(&sender, receiver, &tx.transaction.value);
                    proof {
                        if res is Ok {
                            lemma_same_but_trans(
                                old(self)@.store,
                                mid,
                                self@.store,
                                set![nonce_key(sender@)],
                                set![balance_key(sender@), balance_key(receiver@)],
                                set![nonce_key(sender@), balance_key(sender@), balance_key(
                                    receiver@,
                                )],
                            );
                        }
                    }
                    match res {
                        Ok(_) => Ok(SubmitOutcome::Transferred {
                            sender,
                            receiver: receiver.duplicate(),
                            value: tx.transaction.value.duplicate(),
                        }),
                        Err(e) => Err(e),
                    }
                } else {
                    Ok(SubmitOutcome::Call {
                        sender,
                        receiver: receiver.duplicate(),
                        value: tx.transaction.value.duplicate(),
                        data: copy_bytes(&tx.transaction.data),
                    })
                }
            },
            None => Ok(SubmitOutcome::Deploy {
                sender,
                value: tx.transaction.value.duplicate(),
                init_code: copy_bytes(&tx.transaction.data),
            }),
        }
    }
}

impl Engine {
    /// Admits one authenticated relayed call: the nonce gate runs
    /// against the recovered sender, then the call is handed to the
    /// external interpreter.  The relayer's identity never matters.
    pub fn meta_call(&mut self, args: crate::meta_parsing::MetaCallArgs) -> (r: Result<
        SubmitOutcome,
        SubmitError,
    >)
        requires
            old(self).wf(),
            args.sender.wf(),
            args.contract_address.wf(),
            args.value.wf(),
            args.nonce.wf(),
        ensures
            final(self).wf(),
            final(self)@.state == old(self)@.state,
            final(self)@.code == old(self)@.code,
            match r {
                Ok(o) => {
                    &&& args.nonce.val() == nonce_of(old(self)@.store, args.sender@)
                    &&& nonce_of(final(self)@.store, args.sender@) == nonce_of(
                        old(self)@.store,
                        args.sender@,
                    ) + 1
                    &&& same_but(
                        old(self)@.store,
                        final(self)@.store,
                        set![nonce_key(args.sender@)],
                    )
                    &&& (o matches SubmitOutcome::Call {
                        sender: a,
                        receiver: b,
                        value: vv,
                        data: d,
                    } && a@ == args.sender@ && b@ == args.contract_address@ && vv@ == args.value@
                        && d@ == args.input@)
                },
                Err(e) => {
                    &&& final(self)@.store == old(self)@.store
                    &&& (e is IncorrectNonce <==> args.nonce.val() != nonce_of(
                        old(self)@.store,
                        args.sender@,
                    ))
                    &&& (e is NonceOverflow <==> args.nonce.val() == nonce_of(
                        old(self)@.store,
                        args.sender@,
                    ) && nonce_of(old(self)@.store, args.sender@) + 1 >= pow256(32))
                    &&& (e is IncorrectNonce || e is NonceOverflow)
                },
            },
    {
        match self.check_and_increment_nonce(&args.sender, &args.nonce) {
            Ok(_) => {},
            Err(NonceError::IncorrectNonce) => {
                return Err(SubmitError::IncorrectNonce);
            },
            Err(NonceError::NonceOverflow) => {
                return Err(SubmitError::NonceOverflow);
            },
        }
        Ok(SubmitOutcome::Call {
            sender: args.sender,
            receiver: args.contract_address,
            value: args.value,
            data: args.input,
        })
    }
}

// ---------------------------------------------------------------------
// Staged code upgrade
// ---------------------------------------------------------------------

/// Key of the staged code blob; outside the versioned key space.
pub open spec fn upgrade_code_key() -> Seq<u8> {
    seq![0x00u8, 0x43u8, 0x4fu8, 0x44u8, 0x45u8]
}

/// Key of the staged block index; outside the versioned key space.
pub open spec fn upgrade_index_key() -> Seq<u8> {
    seq![0x00u8, 0x43u8, 0x4fu8, 0x44u8, 0x45u8, 0x5fu8, 0x53u8, 0x54u8, 0x41u8, 0x47u8, 0x45u8]
}

/// Block index at which an upgrade was staged, if one is staged.
pub open spec fn staged_at_of(m: Map<Seq<u8>, Seq<u8>>) -> Option<nat> {
    if m.contains_key(upgrade_index_key()) && m[upgrade_index_key()].len() == 8 {
        Some(crate::types::le_nat(m[upgrade_index_key()]))
    } else {
        None
    }
}

/// Staged code blob, if one is staged.
pub open spec fn staged_code_of(m: Map<Seq<u8>, Seq<u8>>) -> Option<Seq<u8>> {
    if m.contains_key(upgrade_code_key()) {
        Some(m[upgrade_code_key()])
    } else {
        None
    }
}

fn make_upgrade_code_key() -> (r: Vec<u8>)
    ensures
        r@ == upgrade_code_key(),
{
    let mut r: Vec<u8> = Vec::new();
    r.push(0x00u8);
    r.push(0x43u8);
    r.push(0x4fu8);
    r.push(0x44u8);
    r.push(0x45u8);
    proof {
        assert(r@ =~= upgrade_code_key());
    }
    r
}

fn make_upgrade_index_key() -> (r: Vec<u8>)
    ensures
        r@ == upgrade_index_key(),
{
    let mut r: Vec<u8> = Vec::new();
    r.push(0x00u8);
    r.push(0x43u8);
    r.push(0x4fu8);
    r.push(0x44u8);
    r.push(0x45u8);
    r.push(0x5fu8);
    r.push(0x53u8);
    r.push(0x54u8);
    r.push(0x41u8);
    r.push(0x47u8);
    r.push(0x45u8);
    proof {
        assert(r@ =~= upgrade_index_key());
    }
    r
}

impl Engine {
    /// Re-runs initialization.  Allowed freely while no owner is set;
    /// once an owner is configured, only the owner may call it again.
    pub fn initialize(&mut self, caller: &Vec<u8>, new_state: EngineState) -> (r: Result<
        (),
        EngineError,
    >)
        requires
            old(self).wf(),
            new_state.wf(),
        ensures
            final(self).wf(),
            final(self)@.store == old(self)@.store,
            final(self)@.code == old(self)@.code,
            match r {
                Ok(_) => (old(self)@.state.owner_id.len() == 0 || caller@
                    == old(self)@.state.owner_id) && final(self)@.state == new_state@,
                Err(e) => e is NotAllowed && old(self)@.state.owner_id.len() > 0 && caller@
                    != old(self)@.state.owner_id && final(self)@.state == old(self)@.state,
            },
    {
        if self.state.owner_id.len() > 0 && !crate::types::bytes_eq(caller, &self.state.owner_id) {
            return Err(EngineError::NotAllowed);
        }
        self.state = new_state;
        Ok(())
    }

    /// Owner-gated staging of new contract code.  Overwrites any
    /// previously staged blob unconditionally and records the current
    /// block index; rejects every non-owner caller with no state
    /// change.
    pub fn stage_upgrade(&mut self, caller: &Vec<u8>, code: &Vec<u8>, block_index: u64) -> (r:
        Result<(), EngineError>)
        requires
            old(self).wf(),
        ensures
            final(self).wf(),
            final(self)@.state == old(self)@.state,
            final(self)@.code == old(self)@.code,
            match r {
                Ok(_) => {
                    &&& caller@ == old(self)@.state.owner_id
                    &&& staged_at_of(final(self)@.store) == Some(block_index as nat)
                    &&& staged_code_of(final(self)@.store) == Some(code@)
                    &&& same_but(
                        old(self)@.store,
                        final(self)@.store,
                        set![upgrade_code_key(), upgrade_index_key()],
                    )
                },
                Err(e) => e is NotAllowed && caller@ != old(self)@.state.owner_id
                    && final(self)@.store == old(self)@.store,
            },
    {
        if !crate::types::bytes_eq(caller, &self.state.owner_id) {
            return Err(EngineError::NotAllowed);
        }
        let code_k = make_upgrade_code_key();
        self.store.write(code_k, copy_bytes(code));
        let index_k = make_upgrade_index_key();
        let index_v = crate::types::u64_to_le(block_index);
        proof {
            crate::types::lemma_pow256_u64_bound();
            crate::types::lemma_le_nat_bound(index_v@);
        }
        self.store.write(index_k, index_v);
        proof {
            assert(upgrade_code_key().len() == 5);
            assert(upgrade_index_key().len() == 11);
            assert(upgrade_code_key() != upgrade_index_key());
            assert(self@.store.remove_keys(set![upgrade_code_key(), upgrade_index_key()])
                =~= old(self)@.store.remove_keys(set![upgrade_code_key(), upgrade_index_key()]));
        }
        Ok(())
    }

    /// Earliest-information view used by external watchers: the staged
    /// block index plus the configured delay.
    pub fn get_upgrade_index(&self) -> (r: Result<u64, EngineError>)
        requires
            self.wf(),
        ensures
            match r {
                Ok(i) => staged_at_of(self@.store) matches Some(st) && i as nat == st
                    + self@.state.upgrade_delay_blocks as nat,
                Err(e) => match staged_at_of(self@.store) {
                    None => e is NoUpgrade,
                    Some(st) => e is IndexOverflow && st + self@.state.upgrade_delay_blocks as nat
                        > u64::MAX as nat,
                },
            },
    {
        let index_k = make_upgrade_index_key();
        let index = match self.store.read(&index_k) {
            Some(v) => {
                if v.len() == 8 {
                    crate::types::u64_from_le(&v)
                } else {
                    return Err(EngineError::NoUpgrade);
                }
            },
            None => {
                return Err(EngineError::NoUpgrade);
            },
        };
        if self.state.upgrade_delay_blocks > u64::MAX - index {
            return Err(EngineError::IndexOverflow);
        }
        Ok(index + self.state.upgrade_delay_blocks)
    }

    /// Deploys the staged upgrade: succeeds exactly when an upgrade is
    /// staged and the current block is strictly past the staged block
    /// plus the delay window, swapping the running code for the staged
    /// blob and clearing the staging record; otherwise nothing changes.
    pub fn deploy_upgrade(&mut self, current_block: u64) -> (r: Result<(), EngineError>)
        requires
            old(self).wf(),
        ensures
            final(self).wf(),
            final(self)@.state == old(self)@.state,
            match r {
                Ok(_) => {
                    &&& staged_at_of(old(self)@.store) matches Some(st) && current_block as nat
                        > st + old(self)@.state.upgrade_delay_blocks as nat
                    &&& staged_code_of(old(self)@.store) == Some(final(self)@.code)
                    &&& final(self)@.store == old(self)@.store.remove(upgrade_code_key()).remove(
                        upgrade_index_key(),
                    )
                },
                Err(e) => {
                    &&& final(self)@.store == old(self)@.store
                    &&& final(self)@.code == old(self)@.code
                    &&& match staged_at_of(old(self)@.store) {
                        None => e is NoUpgrade,
                        Some(st) => {
                            if current_block as nat <= st
                                + old(self)@.state.upgrade_delay_blocks as nat {
                                e is TooEarly
                            } else {
                                e is NoUpgrade && staged_code_of(old(self)@.store) is None
                            }
                        },
                    }
                },
            },
    {
        let index_k = make_upgrade_index_key();
        let index = match self.store.read(&index_k) {
            Some(v) => {
                if v.len() == 8 {
                    crate::types::u64_from_le(&v)
                } else {
                    return Err(EngineError::NoUpgrade);
                }
            },
            None => {
                return Err(EngineError::NoUpgrade);
            },
        };
        let too_early = if self.state.upgrade_delay_blocks > u64::MAX - index {
            true
        } else {
            current_block <= index + self.state.upgrade_delay_blocks
        };
        if too_early {
            return Err(EngineError::TooEarly);
        }
        let code_k = make_upgrade_code_key();
        let blob = match self.store.read(&code_k) {
            Some(v) => v,
            None => {
                return Err(EngineError::NoUpgrade);
            },
        };
        self.code = blob;
        self.store.remove(&code_k);
        self.store.remove(&index_k);
        Ok(())
    }
}

/// Balance entries written for a genesis allocation, first entry
/// first.
pub open spec fn apply_genesis(
    m: Map<Seq<u8>, Seq<u8>>,
    entries: Seq<(Seq<u8>, Seq<u8>)>,
) -> Map<Seq<u8>, Seq<u8>>
    decreases entries.len(),
{
    if entries.len() == 0 {
        m
    } else {
        apply_genesis(m.insert(balance_key(entries[0].0), entries[0].1), entries.skip(1))
    }
}

proof fn lemma_apply_genesis_snoc(
    m: Map<Seq<u8>, Seq<u8>>,
    entries: Seq<(Seq<u8>, Seq<u8>)>,
    p: (Seq<u8>, Seq<u8>),
)
    ensures
        apply_genesis(m, entries.push(p)) == apply_genesis(m, entries).insert(
            balance_key(p.0),
            p.1,
        ),
    decreases entries.len(),
{
    if entries.len() == 0 {
        assert(entries.push(p)[0] == p);
        assert(entries.push(p).skip(1) =~= Seq::<(Seq<u8>, Seq<u8>)>::empty());
        assert(apply_genesis(m, entries) == m);
        let m1 = m.insert(balance_key(p.0), p.1);
        assert(apply_genesis(m1, entries.push(p).skip(1)) == m1);
        assert(apply_genesis(m, entries.push(p)) == m1);
    } else {
        assert(entries.push(p)[0] == entries[0]);
        assert(entries.push(p).skip(1) =~= entries.skip(1).push(p));
        lemma_apply_genesis_snoc(
            m.insert(balance_key(entries[0].0), entries[0].1),
            entries.skip(1),
            p,
        );
    }
}

impl Engine {
    /// Benchmarking entry: the owner restarts the chain under a new
    /// chain id and seeds the genesis balances, in order, later
    /// entries winning; any non-owner caller is rejected with no
    /// state change.
    pub fn begin_chain(
        &mut self,
        caller: &Vec<u8>,
        chain_id: U256,
        genesis: &Vec<(Address, U256)>,
    ) -> (r: Result<(), EngineError>)
        requires
            old(self).wf(),
            chain_id.wf(),
            forall|i: int|
                0 <= i < genesis@.len() ==> (#[trigger] genesis@[i].0).wf() && genesis@[i].1.wf(),
        ensures
            final(self).wf(),
            final(self)@.code == old(self)@.code,
            match r {
                Ok(_) => {
                    &&& caller@ == old(self)@.state.owner_id
                    &&& final(self)@.state.chain_id == chain_id@
                    &&& final(self)@.state.owner_id == old(self)@.state.owner_id
                    &&& final(self)@.state.bridge_prover_id == old(self)@.state.bridge_prover_id
                    &&& final(self)@.state.upgrade_delay_blocks
                        == old(self)@.state.upgrade_delay_blocks
                    &&& final(self)@.store == apply_genesis(
                        old(self)@.store,
                        genesis@.map_values(|p: (Address, U256)| (p.0@, p.1@)),
                    )
                },
                Err(e) => e is NotAllowed && caller@ != old(self)@.state.owner_id
                    && final(self)@ == old(self)@,
            },
    {
        if !crate::types::bytes_eq(caller, &self.state.owner_id) {
            return Err(EngineError::NotAllowed);
        }
        let ghost cid = chain_id@;
        self.state.chain_id = chain_id;
        let ghost gview = genesis@.map_values(|p: (Address, U256)| (p.0@, p.1@));
        let n = genesis.len();
        let mut i: usize = 0;
        proof {
            assert(gview.take(0) =~= Seq::<(Seq<u8>, Seq<u8>)>::empty());
        }
        while i < n
            invariant
                self.wf(),
                n == genesis@.len(),
                i <= n,
                gview == genesis@.map_values(|p: (Address, U256)| (p.0@, p.1@)),
                forall|j: int|
                    0 <= j < genesis@.len() ==> (#[trigger] genesis@[j].0).wf()
                        && genesis@[j].1.wf(),
                self@.state.chain_id == cid,
                self@.state.owner_id == old(self)@.state.owner_id,
                self@.state.bridge_prover_id == old(self)@.state.bridge_prover_id,
                self@.state.upgrade_delay_blocks == old(self)@.state.upgrade_delay_blocks,
                self@.code == old(self)@.code,
                self@.store == apply_genesis(old(self)@.store, gview.take(i as int)),
            decreases n - i,
        {
            let entry = &genesis[i];
            self.set_balance(&entry.0, &entry.1);
            proof {
                lemma_apply_genesis_snoc(old(self)@.store, gview.take(i as int), gview[i as int]);
                assert(gview.take(i + 1) =~= gview.take(i as int).push(gview[i as int]));
            }
            i += 1;
        }
        proof {
            assert(gview.take(n as int) =~= gview);
        }
        Ok(())
    }
}

/// Upgrade bookkeeping lives outside the versioned key space, so
/// staging an upgrade can never move any account's nonce, balance,
/// code or storage.
pub proof fn lemma_upgrade_keys_touch_no_accounts(
    m0: Map<Seq<u8>, Seq<u8>>,
    m1: Map<Seq<u8>, Seq<u8>>,
)
    requires
        same_but(m0, m1, set![upgrade_code_key(), upgrade_index_key()]),
    ensures
        forall|a: Seq<u8>| #[trigger] nonce_of(m1, a) == nonce_of(m0, a),
        forall|a: Seq<u8>| #[trigger] balance_of(m1, a) == balance_of(m0, a),
        forall|a: Seq<u8>| #[trigger] code_of(m1, a) == code_of(m0, a),
        forall|a: Seq<u8>, slot: Seq<u8>| #[trigger] storage_of(m1, a, slot) == storage_of(
            m0,
            a,
            slot,
        ),
{
    let e = set![upgrade_code_key(), upgrade_index_key()];
    assert forall|a: Seq<u8>| #[trigger] nonce_of(m1, a) == nonce_of(m0, a) by {
        lemma_same_but_at(m0, m1, e, nonce_key(a));
    }
    assert forall|a: Seq<u8>| #[trigger] balance_of(m1, a) == balance_of(m0, a) by {
        lemma_same_but_at(m0, m1, e, balance_key(a));
    }
    assert forall|a: Seq<u8>| #[trigger] code_of(m1, a) == code_of(m0, a) by {
        lemma_same_but_at(m0, m1, e, code_key(a));
    }
    assert forall|a: Seq<u8>, slot: Seq<u8>| #[trigger] storage_of(m1, a, slot) == storage_of(
        m0,
        a,
        slot,
    ) by {
        lemma_same_but_at(m0, m1, e, storage_slot_key(a, slot));
    }
}

// ---------------------------------------------------------------------
// Laws
// ---------------------------------------------------------------------

/// One successful admission from an address, seen at the store level:
/// the account's nonce entry advances by exactly one.
pub open spec fn nonce_advanced(
    m0: Map<Seq<u8>, Seq<u8>>,
    m1: Map<Seq<u8>, Seq<u8>>,
    addr: Seq<u8>,
) -> bool {
    exists|b: Seq<u8>|
        b.len() == 32 && be_nat(b) == nonce_of(m0, addr) + 1 && m1 == m0.insert(
            nonce_key(addr),
            b,
        )
}

/// Nonce monotonicity: starting from a fresh account, after `N`
/// successful admissions the account's nonce reads exactly `N`.
pub proof fn lemma_nonce_monotonicity(ms: Seq<Map<Seq<u8>, Seq<u8>>>, addr: Seq<u8>)
    requires
        ms.len() >= 1,
        nonce_of(ms[0], addr) == 0,
        forall|i: int| 0 <= i < ms.len() - 1 ==> #[trigger] nonce_advanced(ms[i], ms[i + 1], addr),
    ensures
        nonce_of(ms.last(), addr) == ms.len() - 1,
    decreases ms.len(),
{
    if ms.len() > 1 {
        let d = ms.drop_last();
        assert(forall|i: int| 0 <= i < d.len() - 1 ==> #[trigger] nonce_advanced(
            d[i],
            d[i + 1],
            addr,
        ));
        lemma_nonce_monotonicity(d, addr);
        assert(d.last() == ms[ms.len() - 2]);
        assert(nonce_advanced(ms[ms.len() - 2], ms[ms.len() - 1], addr));
        let b = choose|b: Seq<u8>|
            b.len() == 32 && be_nat(b) == nonce_of(ms[ms.len() - 2], addr) + 1 && ms[ms.len() - 1]
                == ms[ms.len() - 2].insert(nonce_key(addr), b);
        assert(nonce_of(ms[ms.len() - 1], addr) == be_nat(b));
        assert(ms.last() == ms[ms.len() - 1]);
    }
}

/// Replay rejection: a signed transaction carries a fixed nonce, and a
/// successful admission advances the account past it, so resubmitting
/// the same transaction fails the nonce gate.
pub proof fn lemma_replay_rejected(
    m0: Map<Seq<u8>, Seq<u8>>,
    m1: Map<Seq<u8>, Seq<u8>>,
    addr: Seq<u8>,
    tx_nonce: nat,
)
    requires
        tx_nonce == nonce_of(m0, addr),
        nonce_advanced(m0, m1, addr),
    ensures
        tx_nonce != nonce_of(m1, addr),
{
    let b = choose|b: Seq<u8>|
        b.len() == 32 && be_nat(b) == nonce_of(m0, addr) + 1 && m1 == m0.insert(
            nonce_key(addr),
            b,
        );
    assert(nonce_of(m1, addr) == be_nat(b));
}

/// Transfer isolation: a store change confined to two balance entries
/// and the sender's nonce entry leaves every account's code and every
/// storage slot unchanged.
pub proof fn lemma_transfer_touches_no_code_or_storage(
    m0: Map<Seq<u8>, Seq<u8>>,
    m1: Map<Seq<u8>, Seq<u8>>,
    sender: Seq<u8>,
    receiver: Seq<u8>,
)
    requires
        same_but(m0, m1, set![nonce_key(sender), balance_key(sender), balance_key(receiver)]),
    ensures
        forall|a: Seq<u8>| #[trigger] code_of(m1, a) == code_of(m0, a),
        forall|a: Seq<u8>, slot: Seq<u8>| #[trigger] storage_of(m1, a, slot) == storage_of(
            m0,
            a,
            slot,
        ),
{
    let e = set![nonce_key(sender), balance_key(sender), balance_key(receiver)];
    assert forall|a: Seq<u8>| #[trigger] code_of(m1, a) == code_of(m0, a) by {
        lemma_key_disjoint(KeyPrefix::Code, KeyPrefix::Nonce, a, sender);
        lemma_key_disjoint(KeyPrefix::Code, KeyPrefix::Balance, a, sender);
        lemma_key_disjoint(KeyPrefix::Code, KeyPrefix::Balance, a, receiver);
        lemma_same_but_at(m0, m1, e, code_key(a));
    }
    assert forall|a: Seq<u8>, slot: Seq<u8>| #[trigger] storage_of(m1, a, slot) == storage_of(
        m0,
        a,
        slot,
    ) by {
        lemma_key_disjoint(KeyPrefix::Storage, KeyPrefix::Nonce, a + slot, sender);
        lemma_key_disjoint(KeyPrefix::Storage, KeyPrefix::Balance, a + slot, sender);
        lemma_key_disjoint(KeyPrefix::Storage, KeyPrefix::Balance, a + slot, receiver);
        lemma_same_but_at(m0, m1, e, storage_slot_key(a, slot));
    }
}

} // verus!
