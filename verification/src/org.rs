use crate::address::Address;
use crate::asset_proof::occurrence_vector;
use crate::asset_proof::occurrence_vector_spec;
use crate::asset_proof::AssetProof;
use crate::blockchain_validator::BlockchainValidatorCircuit;
use crate::epoch_circuit::EpochBalanceCircuit;
use crate::error::AuditError;
use crate::fiat_transform::alpha_spec;
use crate::fiat_transform::generate_alpha;
use crate::field::FieldElement;
use crate::transaction::Transaction;
use crate::utils::lowered;
use crate::utils::prime_fields_to_u64s;
use vstd::prelude::*;

verus! {

/// What an organization holds, as plain mathematics.
pub struct OrganizationView {
    pub identifier: Seq<char>,
    pub known_addresses: Seq<Address>,
    pub spent_serial_numbers: Seq<FieldElement>,
    pub transaction_root_cache: Seq<FieldElement>,
    pub initial_balance: int,
    pub final_balance: int,
    pub epoch_delta: int,
}

/// The number of times that `item` occurs among the elements.
pub open spec fn occurrences(elements: Seq<FieldElement>, item: FieldElement) -> nat
    decreases elements.len(),
{
    if elements.len() == 0 {
        0
    } else {
        occurrences(elements.drop_last(), item) + if elements.last() == item {
            1nat
        } else {
            0nat
        }
    }
}

/// An element that a sequence does not contain occurs in it no times.
pub proof fn lemma_absent_occurs_never(elements: Seq<FieldElement>, item: FieldElement)
    requires
        !elements.contains(item),
    ensures
        occurrences(elements, item) == 0,
    decreases elements.len(),
{
    if elements.len() > 0 {
        assert(elements[elements.len() - 1] != item);
        assert forall|i: int| 0 <= i < elements.drop_last().len() implies elements.drop_last()[i]
            != item by {
            assert(elements[i] != item);
        }
        lemma_absent_occurs_never(elements.drop_last(), item);
    }
}

impl OrganizationView {
    /// Whether the public key belongs to a known address.
    pub open spec fn has_address(self, public_key: FieldElement) -> bool {
        exists|i: int|
            0 <= i < self.known_addresses.len()
                && (#[trigger] self.known_addresses[i]).public_key() == public_key
    }

    /// Whether the serial number was absorbed already.
    pub open spec fn has_serial_number(self, sn: FieldElement) -> bool {
        self.spent_serial_numbers.contains(sn)
    }

    /// Whether the organization owns the receiving side of the transaction.
    pub open spec fn receives(self, t: Transaction) -> bool {
        self.has_address(t.receiver_address().public_key())
    }

    /// Whether the organization owns the sending side of the transaction.
    pub open spec fn sends(self, t: Transaction) -> bool {
        self.has_address(t.sender_address().public_key())
    }

    /// Whether the organization owns a side of the transaction.
    pub open spec fn is_involved(self, t: Transaction) -> bool {
        self.sends(t) || self.receives(t)
    }

    /// The number of sides of the transaction that the organization owns.
    pub open spec fn owned_sides(self, t: Transaction) -> nat {
        (if self.receives(t) {
            1nat
        } else {
            0nat
        }) + (if self.sends(t) {
            1nat
        } else {
            0nat
        })
    }

    /// The net change of balance that the transaction brings: its value for
    /// the receiving side, minus its value for the sending side.
    pub open spec fn net_delta(self, t: Transaction) -> int {
        (if self.receives(t) {
            t.value() as int
        } else {
            0
        }) - (if self.sends(t) {
            t.value() as int
        } else {
            0
        })
    }

    /// Whether the change that the transaction brings keeps the epoch's delta
    /// within 32 signed bits.
    pub open spec fn can_absorb(self, t: Transaction) -> bool {
        i32::MIN <= self.epoch_delta + self.net_delta(t) <= i32::MAX
    }

    /// Whether the organization is involved in the transaction and has
    /// absorbed its serial number before.
    pub open spec fn conflicts(self, t: Transaction) -> bool {
        self.is_involved(t) && self.has_serial_number(t.serial_number())
    }

    /// The organization after it absorbed the transaction: the serial number
    /// once for each side that it owns, the root once if it owns a side, and
    /// the delta moved by the net change.
    pub open spec fn absorb(self, t: Transaction, root: FieldElement) -> OrganizationView {
        let sn = t.serial_number();
        let received = if self.receives(t) {
            self.spent_serial_numbers.push(sn)
        } else {
            self.spent_serial_numbers
        };
        let spent = if self.sends(t) {
            received.push(sn)
        } else {
            received
        };
        let roots = if self.is_involved(t) {
            self.transaction_root_cache.push(root)
        } else {
            self.transaction_root_cache
        };
        OrganizationView {
            spent_serial_numbers: spent,
            transaction_root_cache: roots,
            epoch_delta: self.epoch_delta + self.net_delta(t),
            ..self
        }
    }

    /// The organization after the delta of the epoch went into its balance.
    pub open spec fn transferred(self) -> OrganizationView {
        OrganizationView { final_balance: self.final_balance + self.epoch_delta, ..self }
    }

    /// The organization after the accumulators of the epoch were reset.
    pub open spec fn cleaned(self) -> OrganizationView {
        OrganizationView { final_balance: 0, epoch_delta: 0, ..self }
    }

    /// Whether the balances of the epoch are consistent.
    pub open spec fn balance_holds(self) -> bool {
        self.initial_balance + self.epoch_delta == self.final_balance
    }

    /// Whether what the organization holds is on a blockchain with the given
    /// serial numbers and roots, all lowered to 64 bits.
    pub open spec fn on_blockchain(self, keys: Seq<FieldElement>, values: Seq<FieldElement>) -> bool {
        &&& all_contained(lowered(self.spent_serial_numbers), lowered(keys))
        &&& all_contained(lowered(self.transaction_root_cache), lowered(values))
    }

    /// What validating the components gives, for what the proof backend
    /// reported: success exactly where the balances are consistent, the
    /// holdings are on the blockchain, and both proofs were verified.
    pub open spec fn components_verdict(
        self,
        keys: Seq<FieldElement>,
        values: Seq<FieldElement>,
        epoch_proof_verified: bool,
        blockchain_proof_verified: bool,
    ) -> Result<(), AuditError> {
        if !self.balance_holds() || !epoch_proof_verified {
            Err(AuditError::ProofFailure)
        } else if !self.on_blockchain(keys, values) {
            Err(AuditError::SubsetViolation)
        } else if !blockchain_proof_verified {
            Err(AuditError::ProofFailure)
        } else {
            Ok(())
        }
    }

    /// The asset statement of the organization against a blockchain, where
    /// the challenge can be derived.
    pub open spec fn asset_statement(self, keys: Seq<FieldElement>, values: Seq<FieldElement>) -> Option<
        (u32, Seq<u32>, Seq<u64>, Seq<u64>),
    > {
        match alpha_spec(values) {
            Some(alpha) => Some(
                (
                    alpha,
                    occurrence_vector_spec(lowered(keys), lowered(self.spent_serial_numbers)),
                    lowered(keys),
                    lowered(self.spent_serial_numbers),
                ),
            ),
            None => None,
        }
    }

    /// What validating the assets gives, for what the proof backend reported.
    pub open spec fn assets_verdict(
        self,
        keys: Seq<FieldElement>,
        values: Seq<FieldElement>,
        asset_proof_verified: bool,
    ) -> Result<(), AuditError> {
        match alpha_spec(values) {
            None => Err(AuditError::InvalidMerkleWitness),
            Some(alpha) => {
                if !all_contained(lowered(self.spent_serial_numbers), lowered(keys)) {
                    Err(AuditError::SubsetViolation)
                } else if alpha == 0 && lowered(self.spent_serial_numbers).contains(0) {
                    Err(AuditError::ProofFailure)
                } else if !asset_proof_verified {
                    Err(AuditError::ProofFailure)
                } else {
                    Ok(())
                }
            },
        }
    }

    /// Resetting the accumulators twice is resetting them once.
    pub proof fn lemma_cleaned_idempotent(self)
        ensures
            self.cleaned().cleaned() == self.cleaned(),
    {
    }

    /// Where the final balance still equals the initial one, the transfer of
    /// the delta makes the balances consistent.
    pub proof fn lemma_transfer_balances(self)
        requires
            self.final_balance == self.initial_balance,
        ensures
            self.transferred().balance_holds(),
            self.transferred().final_balance == self.transferred().initial_balance
                + self.transferred().epoch_delta,
    {
    }

    /// An organization that absorbs a transaction whose serial number it did
    /// not hold then holds the serial number once for each side that it owns,
    /// and its root cache has grown by the root alone, once, exactly where it
    /// owns a side.
    pub proof fn lemma_absorb_records(self, t: Transaction, root: FieldElement)
        requires
            !self.has_serial_number(t.serial_number()),
        ensures
            occurrences(self.absorb(t, root).spent_serial_numbers, t.serial_number())
                == self.owned_sides(t),
            self.is_involved(t) ==> self.absorb(t, root).spent_serial_numbers.contains(
                t.serial_number(),
            ),
            self.is_involved(t) ==> self.absorb(t, root).transaction_root_cache
                == self.transaction_root_cache.push(root),
            !self.is_involved(t) ==> self.absorb(t, root) == self,
            self.absorb(t, root).epoch_delta == self.epoch_delta + self.net_delta(t),
    {
        let sn = t.serial_number();
        let spent = self.spent_serial_numbers;
        lemma_absent_occurs_never(spent, sn);
        let once = spent.push(sn);
        assert(once.drop_last() =~= spent);
        let twice = once.push(sn);
        assert(twice.drop_last() =~= once);
        assert(occurrences(once, sn) == 1);
        assert(occurrences(twice, sn) == 2);
        assert(once[once.len() - 1] == sn);
        assert(twice[twice.len() - 1] == sn);
    }
}

/// Whether every item of `items` occurs in `pool`.
pub open spec fn all_contained(items: Seq<u64>, pool: Seq<u64>) -> bool {
    forall|i: int| 0 <= i < items.len() ==> pool.contains(#[trigger] items[i])
}

/// Whether `item` occurs in `pool`.
fn occurs_in(pool: &Vec<u64>, item: u64) -> (found: bool)
    ensures
        found == pool@.contains(item),
{
    let mut j: usize = 0;
    while j < pool.len()
        invariant
            j <= pool.len(),
            forall|k: int| 0 <= k < j ==> pool@[k] != item,
        decreases pool.len() - j,
    {
        if pool[j] == item {
            return true;
        }
        j += 1;
    }
    false
}

/// Whether every item of `items` occurs in `pool`.
fn contained_in(pool: &Vec<u64>, items: &Vec<u64>) -> (all: bool)
    ensures
        all == all_contained(items@, pool@),
{
    let mut i: usize = 0;
    while i < items.len()
        invariant
            i <= items.len(),
            forall|k: int| 0 <= k < i ==> pool@.contains(#[trigger] items@[k]),
        decreases items.len() - i,
    {
        if !occurs_in(pool, items[i]) {
            return false;
        }
        i += 1;
    }
    true
}

/// Whether every spent serial number is a serial number of the blockchain.
pub fn validate_transaction_serial_numbers(
    blockchain_serial_numbers: Vec<u64>,
    spent_serial_numbers: Vec<u64>,
) -> (valid: bool)
    ensures
        valid == all_contained(spent_serial_numbers@, blockchain_serial_numbers@),
{
    contained_in(&blockchain_serial_numbers, &spent_serial_numbers)
}

/// Whether every cached transaction root is a root of the blockchain.
pub fn validate_transaction_roots(
    blockchain_transaction_roots: Vec<u64>,
    transaction_root_cache: Vec<u64>,
) -> (valid: bool)
    ensures
        valid == all_contained(transaction_root_cache@, blockchain_transaction_roots@),
{
    contained_in(&blockchain_transaction_roots, &transaction_root_cache)
}

/// A custodian of addresses. It keeps a private ledger of the transactions
/// that touch its addresses: the serial numbers spent, the roots seen, and
/// the net change of its balance in the running epoch.
#[derive(Debug)]
pub struct Organization {
    spent_serial_numbers: Vec<FieldElement>,
    used_address_public_keys: Vec<Address>,
    transaction_root_cache: Vec<FieldElement>,
    unique_identifier: String,
    initial_balance: i32,
    final_balance: i32,
    epoch_balance_delta: i32,
}

impl View for Organization {
    type V = OrganizationView;

    closed spec fn view(&self) -> OrganizationView {
        OrganizationView {
            identifier: self.unique_identifier@,
            known_addresses: self.used_address_public_keys@,
            spent_serial_numbers: self.spent_serial_numbers@,
            transaction_root_cache: self.transaction_root_cache@,
            initial_balance: self.initial_balance as int,
            final_balance: self.final_balance as int,
            epoch_delta: self.epoch_balance_delta as int,
        }
    }
}

/// A copy of a vector of field elements.
fn copy_elements(elements: &Vec<FieldElement>) -> (copy: Vec<FieldElement>)
    ensures
        copy@ == elements@,
{
    let mut copy: Vec<FieldElement> = Vec::new();
    let mut i: usize = 0;
    while i < elements.len()
        invariant
            i <= elements.len(),
            copy@ == elements@.take(i as int),
        decreases elements.len() - i,
    {
        copy.push(elements[i]);
        proof {
            assert(elements@.take(i + 1) =~= elements@.take(i as int).push(elements@[i as int]));
        }
        i += 1;
    }
    proof {
        assert(elements@.take(elements.len() as int) =~= elements@);
    }
    copy
}

/// A copy of a vector of addresses.
fn copy_addresses(addresses: &Vec<Address>) -> (copy: Vec<Address>)
    ensures
        copy@ == addresses@,
{
    let mut copy: Vec<Address> = Vec::new();
    let mut i: usize = 0;
    while i < addresses.len()
        invariant
            i <= addresses.len(),
            copy@ == addresses@.take(i as int),
        decreases addresses.len() - i,
    {
        copy.push(addresses[i]);
        proof {
            assert(addresses@.take(i + 1) =~= addresses@.take(i as int).push(
                addresses@[i as int],
            ));
        }
        i += 1;
    }
    proof {
        assert(addresses@.take(addresses.len() as int) =~= addresses@);
    }
    copy
}

impl Clone for Organization {
    fn clone(&self) -> (copy: Self)
        ensures
            copy@ == self@,
    {
        Organization {
            spent_serial_numbers: copy_elements(&self.spent_serial_numbers),
            used_address_public_keys: copy_addresses(&self.used_address_public_keys),
            transaction_root_cache: copy_elements(&self.transaction_root_cache),
            unique_identifier: self.unique_identifier.clone(),
            initial_balance: self.initial_balance,
            final_balance: self.final_balance,
            epoch_balance_delta: self.epoch_balance_delta,
        }
    }
}

impl Organization {
    /// An organization at the start of an epoch: nothing spent, nothing
    /// cached, no delta, and the final balance equal to the initial one.
    pub fn new(unique_identifier: String, initial_balance: i32, known_addresses: Vec<Address>) -> (org:
        Self)
        ensures
            org@ == (OrganizationView {
                identifier: unique_identifier@,
                known_addresses: known_addresses@,
                spent_serial_numbers: Seq::empty(),
                transaction_root_cache: Seq::empty(),
                initial_balance: initial_balance as int,
                final_balance: initial_balance as int,
                epoch_delta: 0,
            }),
    {
        Organization {
            spent_serial_numbers: Vec::new(),
            used_address_public_keys: known_addresses,
            unique_identifier,
            transaction_root_cache: Vec::new(),
            initial_balance,
            final_balance: initial_balance,
            epoch_balance_delta: 0,
        }
    }

    /// Registers the address that the given key determines. The key must not
    /// be the public key of a known address.
    pub fn add_address_public_key(&mut self, address_public_key: FieldElement)
        requires
            !old(self)@.has_address(address_public_key),
        ensures
            final(self)@.known_addresses.len() == old(self)@.known_addresses.len() + 1,
            final(self)@.known_addresses.drop_last() == old(self)@.known_addresses,
            final(self)@.known_addresses.last().secret_key() == address_public_key,
            final(self)@.known_addresses.last().is_derived(),
            final(self)@ == (OrganizationView {
                known_addresses: final(self)@.known_addresses,
                ..old(self)@
            }),
    {
        let address = Address::new(&address_public_key);
        self.used_address_public_keys.push(address);
        proof {
            assert(self.used_address_public_keys@.drop_last() =~= old(self).used_address_public_keys@);
        }
    }

    /// Records a spent serial number, unless the organization holds it
    /// already: then nothing changes.
    pub fn add_serial_number(&mut self, sn: FieldElement) -> (done: Result<(), AuditError>)
        ensures
            done is Err <==> old(self)@.has_serial_number(sn),
            done matches Err(e) ==> e == AuditError::DuplicateSerialNumber && final(self)@ == old(self)@,
            done is Ok ==> final(self)@ == (OrganizationView {
                spent_serial_numbers: old(self)@.spent_serial_numbers.push(sn),
                ..old(self)@
            }),
    {
        if self.has_serial_number(sn) {
            return Err(AuditError::DuplicateSerialNumber);
        }
        self.spent_serial_numbers.push(sn);
        Ok(())
    }

    /// The known addresses.
    pub fn known_addresses(&self) -> (addresses: Vec<Address>)
        ensures
            addresses@ == self@.known_addresses,
    {
        copy_addresses(&self.used_address_public_keys)
    }

    /// The serial numbers spent in the epoch, in the order of absorption.
    pub fn serial_numbers(&self) -> (serials: Vec<FieldElement>)
        ensures
            serials@ == self@.spent_serial_numbers,
    {
        copy_elements(&self.spent_serial_numbers)
    }

    /// The transaction roots seen in the epoch, in the order of absorption.
    pub fn transaction_roots(&self) -> (roots: Vec<FieldElement>)
        ensures
            roots@ == self@.transaction_root_cache,
    {
        copy_elements(&self.transaction_root_cache)
    }

    /// Appends a root to the cache.
    pub fn add_root(&mut self, root: FieldElement)
        ensures
            final(self)@ == (OrganizationView {
                transaction_root_cache: old(self)@.transaction_root_cache.push(root),
                ..old(self)@
            }),
    {
        self.transaction_root_cache.push(root);
    }

    pub fn clear_delta(&mut self)
        ensures
            final(self)@ == (OrganizationView { epoch_delta: 0, ..old(self)@ }),
    {
        self.epoch_balance_delta = 0;
    }

    pub fn clear_final_balance(&mut self)
        ensures
            final(self)@ == (OrganizationView { final_balance: 0, ..old(self)@ }),
    {
        self.final_balance = 0;
    }

    pub fn delta(&self) -> (delta: i32)
        ensures
            delta == self@.epoch_delta,
    {
        self.epoch_balance_delta
    }

    pub fn final_balance(&self) -> (balance: i32)
        ensures
            balance == self@.final_balance,
    {
        self.final_balance
    }

    pub fn initial_balance(&self) -> (balance: i32)
        ensures
            balance == self@.initial_balance,
    {
        self.initial_balance
    }

    /// Moves the delta of the epoch by `value`.
    pub fn update_delta(&mut self, value: i32)
        requires
            i32::MIN <= old(self)@.epoch_delta + value <= i32::MAX,
        ensures
            final(self)@ == (OrganizationView {
                epoch_delta: old(self)@.epoch_delta + value,
                ..old(self)@
            }),
    {
        self.epoch_balance_delta = self.epoch_balance_delta + value;
    }

    /// Moves the final balance by `epoch_delta`.
    pub fn update_balance(&mut self, epoch_delta: i32)
        requires
            i32::MIN <= old(self)@.final_balance + epoch_delta <= i32::MAX,
        ensures
            final(self)@ == (OrganizationView {
                final_balance: old(self)@.final_balance + epoch_delta,
                ..old(self)@
            }),
    {
        self.final_balance = self.final_balance + epoch_delta;
    }

    pub fn identifier(&self) -> (identifier: String)
        ensures
            identifier@ == self@.identifier,
    {
        self.unique_identifier.clone()
    }

    /// Whether the public key belongs to a known address.
    pub fn has_address(&self, address_public_key: FieldElement) -> (known: bool)
        ensures
            known == self@.has_address(address_public_key),
    {
        let mut i: usize = 0;
        while i < self.used_address_public_keys.len()
            invariant
                i <= self.used_address_public_keys.len(),
                forall|j: int|
                    0 <= j < i ==> (#[trigger] self.used_address_public_keys@[j]).public_key()
                        != address_public_key,
            decreases self.used_address_public_keys.len() - i,
        {
            if self.used_address_public_keys[i].public_key().is_eq(&address_public_key) {
                assert(self@.known_addresses[i as int].public_key() == address_public_key);
                return true;
            }
            i += 1;
        }
        false
    }

    /// Whether the serial number was absorbed in the epoch.
    pub fn has_serial_number(&self, sn: FieldElement) -> (held: bool)
        ensures
            held == self@.has_serial_number(sn),
    {
        let mut i: usize = 0;
        while i < self.spent_serial_numbers.len()
            invariant
                i <= self.spent_serial_numbers.len(),
                forall|j: int| 0 <= j < i ==> self.spent_serial_numbers@[j] != sn,
            decreases self.spent_serial_numbers.len() - i,
        {
            if self.spent_serial_numbers[i].is_eq(&sn) {
                return true;
            }
            i += 1;
        }
        false
    }

    /// Whether the sender or the receiver of the transaction is a known
    /// address.
    pub fn is_involved(&self, t: &Transaction) -> (involved: bool)
        ensures
            involved == self@.is_involved(*t),
    {
        self.has_address(t.sender_address().public_key()) || self.has_address(
            t.receiver_address().public_key(),
        )
    }

    /// The addresses of the secret keys `offset`, `offset + 1`, and so on,
    /// as many as asked for.
    pub fn create_known_addresses(num_addresses: usize, offset: usize) -> (addresses: Vec<Address>)
        requires
            num_addresses + offset <= u64::MAX,
        ensures
            addresses.len() == num_addresses,
            forall|i: int|
                0 <= i < num_addresses ==> (#[trigger] addresses[i]).secret_key()@ == i + offset
                    && addresses[i].is_derived(),
    {
        let mut addresses: Vec<Address> = Vec::new();
        let mut i: usize = 0;
        while i < num_addresses
            invariant
                i <= num_addresses,
                num_addresses + offset <= u64::MAX,
                addresses.len() == i,
                forall|j: int|
                    0 <= j < i ==> (#[trigger] addresses[j]).secret_key()@ == j + offset
                        && addresses[j].is_derived(),
            decreases num_addresses - i,
        {
            let input = FieldElement::from_u64(i as u64 + offset as u64);
            addresses.push(Address::new(&input));
            i += 1;
        }
        addresses
    }

    /// Absorbs a transaction with the given root. For each side that the
    /// organization owns, the serial number is recorded and the delta moves
    /// by the value, up for the receiving side and down for the sending
    /// side; the root is cached once if a side is owned. An involved
    /// organization that holds the serial number already changes nothing and
    /// reports the duplicate.
    pub fn absorb(&mut self, t: &Transaction, root: FieldElement) -> (done: Result<(), AuditError>)
        requires
            old(self)@.can_absorb(*t),
        ensures
            done is Err <==> old(self)@.conflicts(*t),
            done matches Err(e) ==> e == AuditError::DuplicateSerialNumber && final(self)@ == old(self)@,
            done is Ok ==> final(self)@ == old(self)@.absorb(*t, root),
    {
        let has_receiver = self.has_address(t.receiver_address().public_key());
        let has_sender = self.has_address(t.sender_address().public_key());
        if !has_receiver && !has_sender {
            return Ok(());
        }
        let serial_number = t.serial_number();
        if self.has_serial_number(serial_number) {
            return Err(AuditError::DuplicateSerialNumber);
        }
        let mut net: i64 = 0;
        if has_receiver {
            self.spent_serial_numbers.push(serial_number);
            net = net + t.value() as i64;
        }
        if has_sender {
            self.spent_serial_numbers.push(serial_number);
            net = net - t.value() as i64;
        }
        self.transaction_root_cache.push(root);
        self.epoch_balance_delta = (self.epoch_balance_delta as i64 + net) as i32;
        Ok(())
    }

    /// Folds the delta of the epoch into the final balance. Where the final
    /// balance still equalled the initial one, the balances are consistent
    /// afterwards.
    pub fn transfer_delta_to_balance(&mut self)
        requires
            i32::MIN <= old(self)@.final_balance + old(self)@.epoch_delta <= i32::MAX,
        ensures
            final(self)@ == old(self)@.transferred(),
            old(self)@.final_balance == old(self)@.initial_balance ==> final(self)@.final_balance
                == final(self)@.initial_balance + final(self)@.epoch_delta,
    {
        self.final_balance = self.final_balance + self.epoch_balance_delta;
    }

    /// Resets the accumulators of the epoch: the delta and the final balance
    /// become zero.
    pub fn clean_deltas_and_balances_at_epoch_end(&mut self)
        ensures
            final(self)@ == old(self)@.cleaned(),
    {
        self.epoch_balance_delta = 0;
        self.final_balance = 0;
    }

    /// The statement of the epoch's balances, to be proved.
    pub fn epoch_circuit(&self) -> (circuit: EpochBalanceCircuit)
        ensures
            circuit.initial_balance == self@.initial_balance,
            circuit.epoch_delta == self@.epoch_delta,
            circuit.final_balance == self@.final_balance,
            circuit.holds() == self@.balance_holds(),
    {
        EpochBalanceCircuit::new(self.initial_balance, self.epoch_balance_delta, self.final_balance)
    }

    /// The statement that the holdings are on the blockchain, to be proved.
    pub fn blockchain_validator_circuit(
        &self,
        blockchain_keys: &Vec<FieldElement>,
        blockchain_values: &Vec<FieldElement>,
    ) -> (circuit: BlockchainValidatorCircuit)
        ensures
            circuit.blockchain_sns@ == lowered(blockchain_keys@),
            circuit.blockchain_roots@ == lowered(blockchain_values@),
            circuit.transaction_root_cache@ == lowered(self@.transaction_root_cache),
            circuit.spent_serial_numbers@ == lowered(self@.spent_serial_numbers),
            circuit.holds() == self@.on_blockchain(blockchain_keys@, blockchain_values@),
    {
        BlockchainValidatorCircuit::new(
            prime_fields_to_u64s(blockchain_keys),
            prime_fields_to_u64s(blockchain_values),
            prime_fields_to_u64s(&self.transaction_root_cache),
            prime_fields_to_u64s(&self.spent_serial_numbers),
        )
    }

    /// Validates the components of the epoch, given what the proof backend
    /// reported for the proof of the balances and for the proof of the
    /// holdings. Both statements are checked on the organization's own
    /// values; a statement that does not hold fails whatever was reported.
    pub fn validate_components(
        &self,
        blockchain_keys: Vec<FieldElement>,
        blockchain_values: Vec<FieldElement>,
        epoch_proof_verified: bool,
        blockchain_proof_verified: bool,
    ) -> (done: Result<(), AuditError>)
        ensures
            done == self@.components_verdict(
                blockchain_keys@,
                blockchain_values@,
                epoch_proof_verified,
                blockchain_proof_verified,
            ),
            done is Ok <==> self@.balance_holds() && self@.on_blockchain(
                blockchain_keys@,
                blockchain_values@,
            ) && epoch_proof_verified && blockchain_proof_verified,
    {
        let epoch = self.epoch_circuit();
        if epoch.generate_constraints().is_err() || !epoch_proof_verified {
            return Err(AuditError::ProofFailure);
        }
        let validator = self.blockchain_validator_circuit(&blockchain_keys, &blockchain_values);
        match validator.generate_constraints() {
            Err(e) => {
                return Err(e);
            },
            Ok(()) => {},
        }
        if !blockchain_proof_verified {
            return Err(AuditError::ProofFailure);
        }
        Ok(())
    }

    /// The asset statement of the organization, to be proved: the challenge
    /// derived from the roots of the blockchain, the occurrence vector of the
    /// spent serial numbers, and both collections of serial numbers lowered
    /// to 64 bits.
    pub fn asset_proof(
        &self,
        blockchain_keys: &Vec<FieldElement>,
        blockchain_values: Vec<FieldElement>,
    ) -> (statement: Result<AssetProof, AuditError>)
        requires
            blockchain_keys.len() <= u32::MAX,
        ensures
            match statement {
                Ok(s) => self@.asset_statement(blockchain_keys@, blockchain_values@) == Some(
                    (
                        s.alpha,
                        s.expected_occurrence_vector@,
                        s.blockchain_sns@,
                        s.spent_serial_numbers@,
                    ),
                ),
                Err(e) => e == AuditError::InvalidMerkleWitness && self@.asset_statement(
                    blockchain_keys@,
                    blockchain_values@,
                ) is None,
            },
    {
        let keys = prime_fields_to_u64s(blockchain_keys);
        let spent = prime_fields_to_u64s(&self.spent_serial_numbers);
        let occurrences = occurrence_vector(&keys, &spent);
        let alpha = match generate_alpha(blockchain_values) {
            Ok(alpha) => alpha,
            Err(e) => {
                return Err(e);
            },
        };
        Ok(AssetProof::new(alpha, occurrences, keys, spent))
    }

    /// Validates the assets of the epoch, given what the proof backend
    /// reported for the asset proof. The statement is checked on the
    /// organization's own values; a statement that does not hold fails
    /// whatever was reported.
    pub fn validate_assets(
        &self,
        blockchain_keys: Vec<FieldElement>,
        blockchain_values: Vec<FieldElement>,
        asset_proof_verified: bool,
    ) -> (done: Result<(), AuditError>)
        requires
            blockchain_keys.len() <= u32::MAX,
        ensures
            done == self@.assets_verdict(blockchain_keys@, blockchain_values@, asset_proof_verified),
    {
        let statement = match self.asset_proof(&blockchain_keys, blockchain_values) {
            Ok(statement) => statement,
            Err(e) => {
                return Err(e);
            },
        };
        match statement.generate_constraints() {
            Err(e) => {
                return Err(e);
            },
            Ok(()) => {},
        }
        if !asset_proof_verified {
            return Err(AuditError::ProofFailure);
        }
        Ok(())
    }
}

} // verus!
