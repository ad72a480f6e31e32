use crate::address::Address;
use crate::error::AuditError;
use crate::field::sign_extended;
use crate::field::FieldElement;
use crate::hash::hash_to_field_spec;
use crate::merkle::MerkleTreeGadget;
use crate::serial_number::TransactionSerialNumber;
use vstd::prelude::*;

verus! {

/// The sum of a sequence of signed values.
pub open spec fn sum_values(values: Seq<i32>) -> int
    decreases values.len(),
{
    if values.len() == 0 {
        0
    } else {
        sum_values(values.drop_last()) + values.last()
    }
}

/// A transfer of a value from a sender to a receiver, spent under a serial
/// number. It does not change once it is made.
#[derive(Clone, Copy, Debug, PartialEq, Eq)]
pub struct Transaction {
    transaction_id: FieldElement,
    value: i32,
    sender_address: Address,
    receiver_address: Address,
    serial_number: TransactionSerialNumber,
}

impl Transaction {
    pub closed spec fn spec_transaction_id(&self) -> FieldElement {
        self.transaction_id
    }

    pub closed spec fn spec_value(&self) -> i32 {
        self.value
    }

    pub closed spec fn spec_sender_address(&self) -> Address {
        self.sender_address
    }

    pub closed spec fn spec_receiver_address(&self) -> Address {
        self.receiver_address
    }

    pub closed spec fn spec_serial_number(&self) -> FieldElement {
        self.serial_number.sn()
    }

    /// The seven leaves that the root of the transaction commits to.
    pub open spec fn leaves_spec(&self) -> Seq<FieldElement> {
        seq![
            self.transaction_id(),
            FieldElement::of(sign_extended(self.value())),
            self.sender_address().public_key(),
            self.sender_address().secret_key(),
            self.receiver_address().public_key(),
            self.receiver_address().secret_key(),
            self.serial_number(),
        ]
    }

    /// The root of the transaction: the checked Merkle root of its leaves.
    pub open spec fn root_spec(&self) -> Option<nat> {
        MerkleTreeGadget::checked_root_spec(self.leaves_spec())
    }

    /// A transaction between the addresses of the two secret keys, with the
    /// serial number that the nonce determines.
    pub fn new(
        transaction_id: FieldElement,
        value: i32,
        sender_address_secret: FieldElement,
        receiver_address_secret: FieldElement,
        sn_secret: FieldElement,
    ) -> (t: Self)
        ensures
            t.transaction_id() == transaction_id,
            t.value() == value,
            t.sender_address().secret_key() == sender_address_secret,
            t.sender_address().is_derived(),
            t.receiver_address().secret_key() == receiver_address_secret,
            t.receiver_address().is_derived(),
            t.serial_number()@ == hash_to_field_spec(sn_secret),
    {
        Transaction {
            transaction_id,
            value,
            sender_address: Address::new(&sender_address_secret),
            receiver_address: Address::new(&receiver_address_secret),
            serial_number: TransactionSerialNumber::new(sn_secret),
        }
    }

    #[verifier::when_used_as_spec(spec_transaction_id)]
    pub fn transaction_id(&self) -> (id: FieldElement)
        ensures
            id == self.transaction_id(),
    {
        self.transaction_id
    }

    #[verifier::when_used_as_spec(spec_value)]
    pub fn value(&self) -> (value: i32)
        ensures
            value == self.value(),
    {
        self.value
    }

    /// The value as a field element, widened with its sign to 64 bits.
    pub fn value_as_field_element(&self) -> (element: FieldElement)
        ensures
            element@ == sign_extended(self.value()),
            element == FieldElement::of(sign_extended(self.value())),
    {
        let element = FieldElement::from_i32(self.value);
        proof {
            FieldElement::lemma_of_view(element);
        }
        element
    }

    #[verifier::when_used_as_spec(spec_sender_address)]
    pub fn sender_address(&self) -> (address: Address)
        ensures
            address == self.sender_address(),
    {
        self.sender_address
    }

    #[verifier::when_used_as_spec(spec_receiver_address)]
    pub fn receiver_address(&self) -> (address: Address)
        ensures
            address == self.receiver_address(),
    {
        self.receiver_address
    }

    #[verifier::when_used_as_spec(spec_serial_number)]
    pub fn serial_number(&self) -> (sn: FieldElement)
        ensures
            sn == self.serial_number(),
    {
        self.serial_number.sn()
    }

    /// The seven leaves of the transaction, in the order in which they are
    /// committed: id, value, sender's public and secret key, receiver's
    /// public and secret key, serial number.
    pub fn to_vec(&self) -> (leaves: Vec<FieldElement>)
        ensures
            leaves@ == self.leaves_spec(),
    {
        let mut leaves: Vec<FieldElement> = Vec::new();
        leaves.push(self.transaction_id());
        leaves.push(self.value_as_field_element());
        leaves.push(self.sender_address.public_key());
        leaves.push(self.sender_address.secret_key());
        leaves.push(self.receiver_address.public_key());
        leaves.push(self.receiver_address.secret_key());
        leaves.push(self.serial_number());
        proof {
            assert(leaves@ =~= self.leaves_spec());
        }
        leaves
    }

    /// The Merkle root over the seven leaves. Every leaf is first checked for
    /// inclusion; the root is computed anew at each call and depends on the
    /// fields of the transaction alone.
    pub fn root(&self) -> (root: Result<FieldElement, AuditError>)
        ensures
            match root {
                Ok(r) => self.root_spec() == Some(r@),
                Err(e) => e == AuditError::InvalidMerkleWitness && self.root_spec() is None,
            },
    {
        let leaves = self.to_vec();
        MerkleTreeGadget::checked_root(&leaves)
    }

    /// Splits the transaction into one part per value, with the given ids and
    /// serial nonces. Each part goes from the address of the sender's secret
    /// key to the receiver designated for it. The values must add up to the
    /// value of the transaction; the transaction itself is not changed.
    pub fn split_with(
        &self,
        split_values: &Vec<i32>,
        new_receiver_addresses: &Vec<Address>,
        sender_address_secret: &FieldElement,
        transaction_ids: &Vec<FieldElement>,
        serial_nonces: &Vec<FieldElement>,
    ) -> (parts: Result<Vec<Transaction>, AuditError>)
        requires
            new_receiver_addresses.len() == split_values.len(),
            transaction_ids.len() == split_values.len(),
            serial_nonces.len() == split_values.len(),
        ensures
            parts is Ok <==> sum_values(split_values@) == self.value(),
            parts matches Err(e) ==> e == AuditError::SplitSumMismatch,
            parts matches Ok(made) ==> {
                &&& made.len() == split_values.len()
                &&& forall|i: int|
                    0 <= i < made.len() ==> {
                        &&& (#[trigger] made[i]).transaction_id() == transaction_ids[i]
                        &&& made[i].value() == split_values[i]
                        &&& made[i].sender_address().secret_key() == *sender_address_secret
                        &&& made[i].sender_address().is_derived()
                        &&& made[i].receiver_address() == new_receiver_addresses[i]
                        &&& made[i].serial_number()@ == hash_to_field_spec(serial_nonces[i])
                        &&& *sender_address_secret == self.sender_address().secret_key()
                            ==> made[i].sender_address() == self.sender_address()
                    }
            },
    {
        proof {
            use_type_invariant(&self.sender_address);
        }
        if !Self::sums_to(split_values, self.value) {
            return Err(AuditError::SplitSumMismatch);
        }
        let sender = Address::new(sender_address_secret);
        proof {
            if *sender_address_secret == self.sender_address().secret_key() {
                Address::lemma_same_secret(sender, self.sender_address());
            }
        }
        let mut made: Vec<Transaction> = Vec::new();
        let mut i: usize = 0;
        while i < split_values.len()
            invariant
                i <= split_values.len(),
                new_receiver_addresses.len() == split_values.len(),
                transaction_ids.len() == split_values.len(),
                serial_nonces.len() == split_values.len(),
                made.len() == i,
                sender.secret_key() == *sender_address_secret,
                sender.is_derived(),
                *sender_address_secret == self.sender_address().secret_key() ==> sender
                    == self.sender_address(),
                forall|j: int|
                    0 <= j < i ==> {
                        &&& (#[trigger] made[j]).transaction_id() == transaction_ids[j]
                        &&& made[j].value() == split_values[j]
                        &&& made[j].sender_address() == sender
                        &&& made[j].receiver_address() == new_receiver_addresses[j]
                        &&& made[j].serial_number()@ == hash_to_field_spec(serial_nonces[j])
                    },
            decreases split_values.len() - i,
        {
            let part = Transaction {
                transaction_id: transaction_ids[i],
                value: split_values[i],
                sender_address: sender,
                receiver_address: new_receiver_addresses[i],
                serial_number: TransactionSerialNumber::new(serial_nonces[i]),
            };
            made.push(part);
            i += 1;
        }
        Ok(made)
    }

    /// Splits the transaction as `split_with` does, with an id and a serial
    /// nonce drawn at random for each part.
    pub fn split_transaction(
        &self,
        split_values: Vec<i32>,
        new_receiver_addresses: Vec<Address>,
        sender_address_secret: FieldElement,
    ) -> (parts: Result<Vec<Transaction>, AuditError>)
        requires
            new_receiver_addresses.len() == split_values.len(),
        ensures
            parts is Ok <==> sum_values(split_values@) == self.value(),
            parts matches Err(e) ==> e == AuditError::SplitSumMismatch,
            parts matches Ok(made) ==> {
                &&& made.len() == split_values.len()
                &&& forall|i: int|
                    0 <= i < made.len() ==> {
                        &&& (#[trigger] made[i]).value() == split_values[i]
                        &&& made[i].sender_address().secret_key() == sender_address_secret
                        &&& made[i].sender_address().is_derived()
                        &&& made[i].receiver_address() == new_receiver_addresses[i]
                        &&& sender_address_secret == self.sender_address().secret_key()
                            ==> made[i].sender_address() == self.sender_address()
                    }
            },
    {
        let transaction_ids = Self::draw(split_values.len());
        let serial_nonces = Self::draw(split_values.len());
        self.split_with(
            &split_values,
            &new_receiver_addresses,
            &sender_address_secret,
            &transaction_ids,
            &serial_nonces,
        )
    }

    /// Whether the values add up to `total`.
    fn sums_to(values: &Vec<i32>, total: i32) -> (equal: bool)
        ensures
            equal == (sum_values(values@) == total),
    {
        let mut sum: i128 = 0;
        let mut i: usize = 0;
        while i < values.len()
            invariant
                i <= values.len(),
                sum == sum_values(values@.take(i as int)),
                -0x8000_0000 * i <= sum <= 0x8000_0000 * i,
            decreases values.len() - i,
        {
            proof {
                assert(values@.take(i + 1).drop_last() =~= values@.take(i as int));
            }
            sum = sum + values[i] as i128;
            i += 1;
        }
        proof {
            assert(values@.take(values.len() as int) =~= values@);
        }
        sum == total as i128
    }

    /// As many field elements as asked for, each drawn at random.
    fn draw(count: usize) -> (drawn: Vec<FieldElement>)
        ensures
            drawn.len() == count,
    {
        let mut drawn: Vec<FieldElement> = Vec::new();
        let mut i: usize = 0;
        while i < count
            invariant
                i <= count,
                drawn.len() == i,
            decreases count - i,
        {
            drawn.push(FieldElement::random());
            i += 1;
        }
        drawn
    }
}

} // verus!
