use crate::asset_proof::AssetProof;
use crate::blockchain::as_map;
use crate::blockchain::Blockchain;
use crate::blockchain::Entry;
use crate::blockchain_validator::BlockchainValidatorCircuit;
use crate::epoch_circuit::EpochBalanceCircuit;
use crate::error::AuditError;
use crate::field::FieldElement;
use crate::org::occurrences;
use crate::org::Organization;
use crate::org::OrganizationView;
use crate::transaction::Transaction;
use crate::utils::lowered;
use vstd::prelude::*;

verus! {

/// What a network holds, as plain mathematics: its organizations in the
/// order of their registration, and the entries of its blockchain in the
/// ascending order of their serial numbers.
pub struct NetworkView {
    pub organizations: Seq<OrganizationView>,
    pub entries: Seq<Entry>,
}

/// The position of the first organization that conflicts with the
/// transaction; the number of organizations where none does.
pub open spec fn first_conflict(organizations: Seq<OrganizationView>, t: Transaction) -> int
    decreases organizations.len(),
{
    if organizations.len() == 0 {
        0
    } else if organizations[0].conflicts(t) {
        0
    } else {
        1 + first_conflict(organizations.drop_first(), t)
    }
}

/// The first conflict is at `k` where no organization before `k` conflicts
/// and the one at `k`, if there is one, does.
pub proof fn lemma_first_conflict(organizations: Seq<OrganizationView>, t: Transaction, k: int)
    requires
        0 <= k <= organizations.len(),
        forall|j: int| 0 <= j < k ==> !(#[trigger] organizations[j]).conflicts(t),
        k < organizations.len() ==> organizations[k].conflicts(t),
    ensures
        first_conflict(organizations, t) == k,
    decreases k,
{
    if k > 0 {
        let rest = organizations.drop_first();
        assert(!organizations[0].conflicts(t));
        assert forall|j: int| 0 <= j < k - 1 implies !(#[trigger] rest[j]).conflicts(t) by {
            assert(!organizations[j + 1].conflicts(t));
        }
        if k < organizations.len() {
            assert(rest[k - 1] == organizations[k]);
        }
        lemma_first_conflict(rest, t, k - 1);
    }
}

/// No organization before the first conflict conflicts.
pub proof fn lemma_before_first_conflict(
    organizations: Seq<OrganizationView>,
    t: Transaction,
    i: int,
)
    requires
        0 <= i < first_conflict(organizations, t),
    ensures
        i < organizations.len(),
        !organizations[i].conflicts(t),
    decreases organizations.len(),
{
    if organizations.len() > 0 && !organizations[0].conflicts(t) {
        if i > 0 {
            lemma_before_first_conflict(organizations.drop_first(), t, i - 1);
        }
    }
}

impl NetworkView {
    /// The root recorded on the blockchain under each serial number.
    pub open spec fn ledger(self) -> Map<nat, nat> {
        as_map(self.entries)
    }

    /// The serial numbers on the blockchain, ascending.
    pub open spec fn keys(self) -> Seq<FieldElement> {
        self.entries.map_values(|e: Entry| e.0)
    }

    /// The roots on the blockchain, in the ascending order of their serial
    /// numbers.
    pub open spec fn values(self) -> Seq<FieldElement> {
        self.entries.map_values(|e: Entry| e.1)
    }

    /// Whether an organization with the identifier is registered.
    pub open spec fn has_organization(self, identifier: Seq<char>) -> bool {
        exists|i: int|
            0 <= i < self.organizations.len() && (#[trigger] self.organizations[i]).identifier
                == identifier
    }

    /// No two organizations share an identifier.
    pub open spec fn identifiers_unique(self) -> bool {
        forall|i: int, j: int|
            0 <= i < j < self.organizations.len() ==> (#[trigger] self.organizations[i]).identifier
                != (#[trigger] self.organizations[j]).identifier
    }

    /// Whether every organization can absorb the transaction within 32
    /// signed bits.
    pub open spec fn can_forward(self, t: Transaction) -> bool {
        forall|i: int|
            0 <= i < self.organizations.len() ==> (#[trigger] self.organizations[i]).can_absorb(t)
    }

    /// Whether every organization can fold its delta into its balance within
    /// 32 signed bits.
    pub open spec fn can_transfer(self) -> bool {
        forall|i: int|
            0 <= i < self.organizations.len() ==> {
                let org = #[trigger] self.organizations[i];
                i32::MIN <= org.final_balance + org.epoch_delta <= i32::MAX
            }
    }

    /// The organizations after a transaction with the given root was
    /// forwarded: those before the first conflict have absorbed it, the
    /// others are as they were.
    pub open spec fn fanned_out(self, t: Transaction, root: FieldElement) -> Seq<OrganizationView> {
        let stop = first_conflict(self.organizations, t);
        Seq::new(
            self.organizations.len(),
            |i: int|
                if i < stop {
                    self.organizations[i].absorb(t, root)
                } else {
                    self.organizations[i]
                },
        )
    }

    /// What validating the components of the organization at `i` gives,
    /// against the serial numbers and roots of the blockchain.
    pub open spec fn components_verdict_at(self, reports: Seq<ComponentsReport>, i: int) -> Result<
        (),
        AuditError,
    > {
        self.organizations[i].components_verdict(
            self.keys(),
            self.values(),
            components_report_at(reports, i).epoch_proof_verified,
            components_report_at(reports, i).blockchain_proof_verified,
        )
    }

    /// What validating the assets of the organization at `i` gives, against
    /// the serial numbers and roots of the blockchain.
    pub open spec fn assets_verdict_at(self, reports: Seq<bool>, i: int) -> Result<(), AuditError> {
        self.organizations[i].assets_verdict(self.keys(), self.values(), asset_report_at(reports, i))
    }

    /// After a transaction was forwarded, every involved organization that
    /// the scan reached holds the serial number once for each side that it
    /// owns, and its root cache has grown by the root of the transaction,
    /// once.
    pub proof fn lemma_forward_records(self, t: Transaction, root: FieldElement, i: int)
        requires
            0 <= i < first_conflict(self.organizations, t),
            self.organizations[i].is_involved(t),
        ensures
            i < self.organizations.len(),
            occurrences(self.fanned_out(t, root)[i].spent_serial_numbers, t.serial_number())
                == self.organizations[i].owned_sides(t),
            self.fanned_out(t, root)[i].spent_serial_numbers.contains(t.serial_number()),
            self.fanned_out(t, root)[i].transaction_root_cache
                == self.organizations[i].transaction_root_cache.push(root),
    {
        lemma_before_first_conflict(self.organizations, t, i);
        self.organizations[i].lemma_absorb_records(t, root);
    }

    /// What forwarding a transaction gives: an error where it has no root,
    /// where an organization conflicts with it, or where its serial number
    /// is on the blockchain already.
    pub open spec fn forward_result(self, t: Transaction) -> Result<(), AuditError> {
        if t.root_spec() is None {
            Err(AuditError::InvalidMerkleWitness)
        } else if first_conflict(self.organizations, t) < self.organizations.len() {
            Err(AuditError::DuplicateSerialNumber)
        } else if self.ledger().dom().contains(t.serial_number()@) {
            Err(AuditError::DuplicateSerialNumber)
        } else {
            Ok(())
        }
    }
}

/// What the proof backend reported for the two component proofs of one
/// organization.
#[derive(Clone, Copy, Debug, PartialEq, Eq)]
pub struct ComponentsReport {
    pub epoch_proof_verified: bool,
    pub blockchain_proof_verified: bool,
}

/// The report for the organization at position `i`; an organization without
/// a report counts as one whose proofs were not verified.
pub open spec fn components_report_at(reports: Seq<ComponentsReport>, i: int) -> ComponentsReport {
    if 0 <= i < reports.len() {
        reports[i]
    } else {
        ComponentsReport { epoch_proof_verified: false, blockchain_proof_verified: false }
    }
}

/// The report on the asset proof of the organization at position `i`; an
/// organization without a report counts as one whose proof was not verified.
pub open spec fn asset_report_at(reports: Seq<bool>, i: int) -> bool {
    0 <= i < reports.len() && reports[i]
}

/// A network of organizations around one blockchain. Forwarding a
/// transaction shows it to every organization and then records it on the
/// blockchain.
#[derive(Debug)]
pub struct Network {
    organizations: Vec<Organization>,
    blockchain: Blockchain,
}

impl View for Network {
    type V = NetworkView;

    closed spec fn view(&self) -> NetworkView {
        NetworkView {
            organizations: self.organizations@.map_values(|o: Organization| o@),
            entries: self.blockchain.entries(),
        }
    }
}

impl Network {
    /// A network without organizations and with an empty blockchain.
    pub fn new() -> (network: Self)
        ensures
            network@.organizations == Seq::<OrganizationView>::empty(),
            network@.entries == Seq::<Entry>::empty(),
            network@.identifiers_unique(),
    {
        let network = Network { organizations: Vec::new(), blockchain: Blockchain::default() };
        proof {
            assert(network@.organizations =~= Seq::<OrganizationView>::empty());
        }
        network
    }

    /// Registers an organization. Its identifier must be new to the network.
    pub fn add_organization(&mut self, org: Organization)
        requires
            !old(self)@.has_organization(org@.identifier),
        ensures
            final(self)@.organizations == old(self)@.organizations.push(org@),
            final(self)@.entries == old(self)@.entries,
            old(self)@.identifiers_unique() ==> final(self)@.identifiers_unique(),
    {
        self.organizations.push(org);
        proof {
            assert(self@.organizations =~= old(self)@.organizations.push(org@));
        }
    }

    /// The number of registered organizations.
    pub fn organization_count(&self) -> (count: usize)
        ensures
            count == self@.organizations.len(),
    {
        self.organizations.len()
    }

    /// Forwards a transaction. Its root is computed; every organization, in
    /// the order of registration, absorbs the transaction if it is involved;
    /// then the root is recorded on the blockchain under the serial number.
    /// The scan stops at the first organization that holds the serial number
    /// already. A serial number that is on the blockchain already is refused
    /// there, and the organizations keep what they absorbed.
    pub fn forward_transaction(&mut self, t: Transaction) -> (done: Result<(), AuditError>)
        requires
            old(self)@.can_forward(t),
        ensures
            done == old(self)@.forward_result(t),
            t.root_spec() is None ==> final(self)@ == old(self)@,
            t.root_spec() matches Some(root) ==> final(self)@.organizations == old(
                self)@.fanned_out(t, FieldElement::of(root)),
            done is Err ==> final(self)@.entries == old(self)@.entries,
            t.root_spec() matches Some(root) ==> (done is Ok ==> final(self)@.ledger() == old(
                self)@.ledger().insert(t.serial_number()@, root)),
            old(self)@.identifiers_unique() ==> final(self)@.identifiers_unique(),
    {
        let root = match t.root() {
            Ok(root) => root,
            Err(e) => {
                return Err(e);
            },
        };
        proof {
            FieldElement::lemma_of_view(root);
        }
        let mut i: usize = 0;
        while i < self.organizations.len()
            invariant
                i <= self.organizations.len(),
                self.organizations.len() == old(self).organizations.len(),
                self.blockchain == old(self).blockchain,
                old(self)@.can_forward(t),
                t.root_spec() == Some(root@),
                FieldElement::of(root@) == root,
                forall|j: int|
                    0 <= j < i ==> !(#[trigger] old(self)@.organizations[j]).conflicts(t)
                        && self@.organizations[j] == old(self)@.organizations[j].absorb(t, root),
                forall|j: int|
                    i <= j < self.organizations.len() ==> (#[trigger] self@.organizations[j])
                        == old(self)@.organizations[j],
            decreases self.organizations.len() - i,
        {
            let ghost before = self@.organizations;
            assert(before[i as int] == old(self)@.organizations[i as int]);
            assert(old(self)@.organizations[i as int].can_absorb(t));
            match self.organizations[i].absorb(&t, root) {
                Err(e) => {
                    proof {
                        assert(self@.organizations =~= before);
                        lemma_first_conflict(old(self)@.organizations, t, i as int);
                        assert(self@.organizations =~= old(self)@.fanned_out(t, root));
                    }
                    return Err(e);
                },
                Ok(()) => {},
            }
            proof {
                assert(self@.organizations =~= before.update(i as int, self.organizations@[i as int]@));
            }
            i += 1;
        }
        proof {
            lemma_first_conflict(old(self)@.organizations, t, i as int);
            assert(self@.organizations =~= old(self)@.fanned_out(t, root));
        }
        let done = self.blockchain.append_transaction(root, t.serial_number());
        proof {
            assert(old(self)@.ledger() == old(self).blockchain@);
            match done {
                Ok(unit) => {
                    assert(unit == ());
                },
                Err(e) => {
                    assert(e == AuditError::DuplicateSerialNumber);
                },
            }
        }
        done
    }

    /// Folds, in every organization, the delta of the epoch into the balance.
    pub fn transfer_delta_to_organization_balance(&mut self)
        requires
            old(self)@.can_transfer(),
        ensures
            final(self)@.entries == old(self)@.entries,
            final(self)@.organizations.len() == old(self)@.organizations.len(),
            forall|i: int|
                0 <= i < old(self)@.organizations.len() ==> (#[trigger] final(
                    self)@.organizations[i]) == old(self)@.organizations[i].transferred(),
    {
        let mut i: usize = 0;
        while i < self.organizations.len()
            invariant
                i <= self.organizations.len(),
                self.organizations.len() == old(self).organizations.len(),
                self.blockchain == old(self).blockchain,
                old(self)@.can_transfer(),
                forall|j: int|
                    0 <= j < i ==> (#[trigger] self@.organizations[j]) == old(
                        self)@.organizations[j].transferred(),
                forall|j: int|
                    i <= j < self.organizations.len() ==> (#[trigger] self@.organizations[j])
                        == old(self)@.organizations[j],
            decreases self.organizations.len() - i,
        {
            let ghost before = self@.organizations;
            assert(before[i as int] == old(self)@.organizations[i as int]);
            let ghost org = old(self)@.organizations[i as int];
            assert(i32::MIN <= org.final_balance + org.epoch_delta <= i32::MAX);
            self.organizations[i].transfer_delta_to_balance();
            proof {
                assert(self@.organizations =~= before.update(i as int, self.organizations@[i as int]@));
            }
            i += 1;
        }
    }

    /// Resets, in every organization, the accumulators of the epoch.
    pub fn clean_deltas_and_balances_at_epoch_end(&mut self)
        ensures
            final(self)@.entries == old(self)@.entries,
            final(self)@.organizations.len() == old(self)@.organizations.len(),
            forall|i: int|
                0 <= i < old(self)@.organizations.len() ==> (#[trigger] final(
                    self)@.organizations[i]) == old(self)@.organizations[i].cleaned(),
    {
        let mut i: usize = 0;
        while i < self.organizations.len()
            invariant
                i <= self.organizations.len(),
                self.organizations.len() == old(self).organizations.len(),
                self.blockchain == old(self).blockchain,
                forall|j: int|
                    0 <= j < i ==> (#[trigger] self@.organizations[j]) == old(
                        self)@.organizations[j].cleaned(),
                forall|j: int|
                    i <= j < self.organizations.len() ==> (#[trigger] self@.organizations[j])
                        == old(self)@.organizations[j],
            decreases self.organizations.len() - i,
        {
            let ghost before = self@.organizations;
            assert(before[i as int] == old(self)@.organizations[i as int]);
            self.organizations[i].clean_deltas_and_balances_at_epoch_end();
            proof {
                assert(self@.organizations =~= before.update(i as int, self.organizations@[i as int]@));
            }
            i += 1;
        }
    }

    /// The two component statements of each organization against the
    /// blockchain as it stands, in the order of registration.
    pub fn component_circuits(&self) -> (circuits: Vec<
        (EpochBalanceCircuit, BlockchainValidatorCircuit),
    >)
        ensures
            circuits.len() == self@.organizations.len(),
            forall|i: int|
                0 <= i < circuits.len() ==> {
                    let org = self@.organizations[i];
                    let pair = #[trigger] circuits[i];
                    &&& pair.0.initial_balance == org.initial_balance
                    &&& pair.0.epoch_delta == org.epoch_delta
                    &&& pair.0.final_balance == org.final_balance
                    &&& pair.1.blockchain_sns@ == lowered(self@.keys())
                    &&& pair.1.blockchain_roots@ == lowered(self@.values())
                    &&& pair.1.transaction_root_cache@ == lowered(org.transaction_root_cache)
                    &&& pair.1.spent_serial_numbers@ == lowered(org.spent_serial_numbers)
                },
    {
        let blockchain_keys = self.blockchain.keys();
        let blockchain_values = self.blockchain.values();
        let mut circuits: Vec<(EpochBalanceCircuit, BlockchainValidatorCircuit)> = Vec::new();
        let mut i: usize = 0;
        while i < self.organizations.len()
            invariant
                i <= self.organizations.len(),
                circuits.len() == i,
                blockchain_keys@ == self@.keys(),
                blockchain_values@ == self@.values(),
                forall|j: int|
                    0 <= j < i ==> {
                        let org = self@.organizations[j];
                        let pair = #[trigger] circuits[j];
                        &&& pair.0.initial_balance == org.initial_balance
                        &&& pair.0.epoch_delta == org.epoch_delta
                        &&& pair.0.final_balance == org.final_balance
                        &&& pair.1.blockchain_sns@ == lowered(self@.keys())
                        &&& pair.1.blockchain_roots@ == lowered(self@.values())
                        &&& pair.1.transaction_root_cache@ == lowered(org.transaction_root_cache)
                        &&& pair.1.spent_serial_numbers@ == lowered(org.spent_serial_numbers)
                    },
            decreases self.organizations.len() - i,
        {
            let org = &self.organizations[i];
            assert(org@ == self@.organizations[i as int]);
            let epoch = org.epoch_circuit();
            let validator = org.blockchain_validator_circuit(&blockchain_keys, &blockchain_values);
            circuits.push((epoch, validator));
            i += 1;
        }
        circuits
    }

    /// Validates the components of every organization, in the order of
    /// registration, against the serial numbers and roots of the blockchain
    /// as it stands, given what the proof backend reported for each. It
    /// succeeds where every organization validates, and otherwise fails as
    /// the first organization that does not.
    pub fn validate_all_epoch_deltas_and_final_balances(&self, reports: &Vec<ComponentsReport>) -> (done:
        Result<(), AuditError>)
        ensures
            done is Ok <==> forall|i: int|
                0 <= i < self@.organizations.len() ==> #[trigger] self@.components_verdict_at(
                    reports@,
                    i,
                ) is Ok,
            done is Err ==> exists|k: int|
                0 <= k < self@.organizations.len() && #[trigger] self@.components_verdict_at(
                    reports@,
                    k,
                ) == done && forall|i: int|
                    0 <= i < k ==> #[trigger] self@.components_verdict_at(reports@, i) is Ok,
    {
        let blockchain_keys = self.blockchain.keys();
        let blockchain_values = self.blockchain.values();
        let mut i: usize = 0;
        while i < self.organizations.len()
            invariant
                i <= self.organizations.len(),
                blockchain_keys@ == self@.keys(),
                blockchain_values@ == self@.values(),
                forall|j: int|
                    0 <= j < i ==> #[trigger] self@.components_verdict_at(reports@, j) is Ok,
            decreases self.organizations.len() - i,
        {
            let report = if i < reports.len() {
                reports[i]
            } else {
                ComponentsReport { epoch_proof_verified: false, blockchain_proof_verified: false }
            };
            assert(report == components_report_at(reports@, i as int));
            let org = &self.organizations[i];
            assert(org@ == self@.organizations[i as int]);
            let verdict = org.validate_components(
                self.blockchain.keys(),
                self.blockchain.values(),
                report.epoch_proof_verified,
                report.blockchain_proof_verified,
            );
            assert(verdict == self@.components_verdict_at(reports@, i as int));
            if verdict.is_err() {
                return verdict;
            }
            i += 1;
        }
        Ok(())
    }

    /// The asset statement of each organization against the blockchain as it
    /// stands, in the order of registration. There is none where the roots of
    /// the blockchain give no challenge.
    pub fn asset_proofs(&self) -> (statements: Result<Vec<AssetProof>, AuditError>)
        requires
            self@.entries.len() <= u32::MAX,
        ensures
            match statements {
                Ok(made) => {
                    &&& made.len() == self@.organizations.len()
                    &&& forall|i: int|
                        0 <= i < made.len() ==> self@.organizations[i].asset_statement(
                            self@.keys(),
                            self@.values(),
                        ) == Some(
                            (
                                (#[trigger] made[i]).alpha,
                                made[i].expected_occurrence_vector@,
                                made[i].blockchain_sns@,
                                made[i].spent_serial_numbers@,
                            ),
                        )
                },
                Err(e) => e == AuditError::InvalidMerkleWitness && self@.organizations.len() > 0
                    && self@.organizations[0].asset_statement(self@.keys(), self@.values())
                    is None,
            },
    {
        let blockchain_keys = self.blockchain.keys();
        let mut made: Vec<AssetProof> = Vec::new();
        let mut i: usize = 0;
        while i < self.organizations.len()
            invariant
                i <= self.organizations.len(),
                made.len() == i,
                blockchain_keys@ == self@.keys(),
                blockchain_keys.len() <= u32::MAX,
                forall|j: int|
                    0 <= j < i ==> self@.organizations[j].asset_statement(
                        self@.keys(),
                        self@.values(),
                    ) == Some(
                        (
                            (#[trigger] made[j]).alpha,
                            made[j].expected_occurrence_vector@,
                            made[j].blockchain_sns@,
                            made[j].spent_serial_numbers@,
                        ),
                    ),
            decreases self.organizations.len() - i,
        {
            let org = &self.organizations[i];
            assert(org@ == self@.organizations[i as int]);
            match org.asset_proof(&blockchain_keys, self.blockchain.values()) {
                Ok(statement) => {
                    made.push(statement);
                },
                Err(e) => {
                    proof {
                        if i > 0 {
                            let first = made[0];
                            assert(self@.organizations[0].asset_statement(
                                self@.keys(),
                                self@.values(),
                            ) is Some);
                        }
                    }
                    return Err(e);
                },
            }
            i += 1;
        }
        Ok(made)
    }

    /// Validates the assets of every organization, in the order of
    /// registration, against the serial numbers and roots of the blockchain
    /// as it stands, given what the proof backend reported for each. It
    /// succeeds where every organization validates, and otherwise fails as
    /// the first organization that does not.
    pub fn validate_all_assets(&self, reports: &Vec<bool>) -> (done: Result<(), AuditError>)
        requires
            self@.entries.len() <= u32::MAX,
        ensures
            done is Ok <==> forall|i: int|
                0 <= i < self@.organizations.len() ==> #[trigger] self@.assets_verdict_at(
                    reports@,
                    i,
                ) is Ok,
            done is Err ==> exists|k: int|
                0 <= k < self@.organizations.len() && #[trigger] self@.assets_verdict_at(
                    reports@,
                    k,
                ) == done && forall|i: int|
                    0 <= i < k ==> #[trigger] self@.assets_verdict_at(reports@, i) is Ok,
    {
        let mut i: usize = 0;
        while i < self.organizations.len()
            invariant
                i <= self.organizations.len(),
                self@.entries.len() <= u32::MAX,
                forall|j: int| 0 <= j < i ==> #[trigger] self@.assets_verdict_at(reports@, j) is Ok,
            decreases self.organizations.len() - i,
        {
            let report = i < reports.len() && reports[i];
            assert(report == asset_report_at(reports@, i as int));
            let org = &self.organizations[i];
            assert(org@ == self@.organizations[i as int]);
            let verdict = org.validate_assets(
                self.blockchain.keys(),
                self.blockchain.values(),
                report,
            );
            assert(verdict == self@.assets_verdict_at(reports@, i as int));
            if verdict.is_err() {
                return verdict;
            }
            i += 1;
        }
        Ok(())
    }

    /// Resets, in every organization, the delta of the epoch alone: the final
    /// balance is carried forward.
    pub fn clean_deltas_at_epoch_end(&mut self)
        ensures
            final(self)@.entries == old(self)@.entries,
            final(self)@.organizations.len() == old(self)@.organizations.len(),
            forall|i: int|
                0 <= i < old(self)@.organizations.len() ==> (#[trigger] final(
                    self)@.organizations[i]) == (OrganizationView {
                    epoch_delta: 0,
                    ..old(self)@.organizations[i]
                }),
    {
        let mut i: usize = 0;
        while i < self.organizations.len()
            invariant
                i <= self.organizations.len(),
                self.organizations.len() == old(self).organizations.len(),
                self.blockchain == old(self).blockchain,
                forall|j: int|
                    0 <= j < i ==> (#[trigger] self@.organizations[j]) == (OrganizationView {
                        epoch_delta: 0,
                        ..old(self)@.organizations[j]
                    }),
                forall|j: int|
                    i <= j < self.organizations.len() ==> (#[trigger] self@.organizations[j])
                        == old(self)@.organizations[j],
            decreases self.organizations.len() - i,
        {
            let ghost before = self@.organizations;
            assert(before[i as int] == old(self)@.organizations[i as int]);
            self.organizations[i].clear_delta();
            proof {
                assert(self@.organizations =~= before.update(i as int, self.organizations@[i as int]@));
            }
            i += 1;
        }
    }

    /// The registered organizations, in the order of their registration.
    pub fn organizations(&self) -> (organizations: Vec<Organization>)
        ensures
            organizations@.map_values(|o: Organization| o@) == self@.organizations,
    {
        let mut organizations: Vec<Organization> = Vec::new();
        let mut i: usize = 0;
        while i < self.organizations.len()
            invariant
                i <= self.organizations.len(),
                organizations@.map_values(|o: Organization| o@) == self@.organizations.take(
                    i as int,
                ),
            decreases self.organizations.len() - i,
        {
            let ghost before = organizations@;
            let copy = self.organizations[i].clone();
            organizations.push(copy);
            proof {
                assert(organizations@.map_values(|o: Organization| o@) =~= before.map_values(
                    |o: Organization| o@,
                ).push(copy@));
                assert(self@.organizations.take(i + 1) =~= self@.organizations.take(i as int).push(
                    self@.organizations[i as int],
                ));
            }
            i += 1;
        }
        proof {
            assert(self@.organizations.take(self.organizations.len() as int)
                =~= self@.organizations);
        }
        organizations
    }

    /// The blockchain.
    pub fn blockchain(&self) -> (chain: Blockchain)
        ensures
            chain.entries() == self@.entries,
            chain@ == self@.ledger(),
    {
        self.blockchain.clone()
    }
}

impl Default for Network {
    fn default() -> (network: Self)
        ensures
            network@.organizations == Seq::<OrganizationView>::empty(),
            network@.entries == Seq::<Entry>::empty(),
    {
        Network::new()
    }
}

} // verus!
